//! Finding dead links in the markdown files of a static site: the link
//! classification, path arithmetic, diagnostics and cache format of the tool,
//! with their contracts.

pub mod text;
pub mod path_extras;
pub mod url_error;
pub mod cli_parsing;
pub mod diagnostic;
pub mod link;
pub mod file;
pub mod diagnose;
pub mod cache;
pub mod site;
