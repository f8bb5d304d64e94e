//! The errors that can be found for a link (called a "diagnostic"), and how
//! to present them as text.
//!
//! It does NOT contain the code that decides, for a link, which of these it
//! is (if any).

use vstd::prelude::*;
use crate::cli_parsing::{diagnostic_name_str, DiagnosticName};
use crate::text::{append_str, copy_str, decimal, push_decimal};
use crate::url_error::{url_error_description, url_error_message, UrlError};

verus! {

/// The kinds of diagnostic for a link.
pub enum DiagnosticKind {
    /// The link url is empty. Contained value is the link text.
    Empty { link_text: String },
    /// Invalid external link. Link couldn't be parsed as an external link by
    /// the `url` crate.
    InvalidExternalLink { error: UrlError },
    /// A link targets a .md file (which is probably not intented). The
    /// contained value is the resolved path to where the link points to.
    Md { resolved_path: String },
    /// Link points to a nonexistant file. The contained value is the resolved
    /// path to where it points to (the file that wasn't found).
    Nonexistant { resolved_path: String },
    /// A relative link points outside (below) the root.
    OutsideRoot,
}

/// The mathematical value of a [`DiagnosticKind`].
pub enum DiagnosticKindV {
    Empty { link_text: Seq<char> },
    InvalidExternalLink { error: UrlError },
    Md { resolved_path: Seq<char> },
    Nonexistant { resolved_path: Seq<char> },
    OutsideRoot,
}

impl View for DiagnosticKind {
    type V = DiagnosticKindV;

    open spec fn view(&self) -> DiagnosticKindV {
        match self {
            DiagnosticKind::Empty { link_text } => DiagnosticKindV::Empty { link_text: link_text@ },
            DiagnosticKind::InvalidExternalLink { error } => DiagnosticKindV::InvalidExternalLink { error: *error },
            DiagnosticKind::Md { resolved_path } => DiagnosticKindV::Md { resolved_path: resolved_path@ },
            DiagnosticKind::Nonexistant { resolved_path } => DiagnosticKindV::Nonexistant { resolved_path: resolved_path@ },
            DiagnosticKind::OutsideRoot => DiagnosticKindV::OutsideRoot,
        }
    }
}

/// An error (or likely probable error) that can occur with a link.
pub struct Diagnostic {
    /// Which kind of error this is.
    pub kind: DiagnosticKind,
    /// Path to the file with the error.
    pub file: String,
    /// The link url, where the link points to.
    pub url: String,
    /// Line number where this link is.
    pub lineno: usize,
    /// Column number on that line where the link is.
    pub colno: usize,
    /// Line number where this link ends.
    pub endlineno: usize,
    /// Column number on that line where the link ends.
    pub endcolno: usize,
}

/// The mathematical value of a [`Diagnostic`].
pub struct DiagnosticV {
    pub kind: DiagnosticKindV,
    pub file: Seq<char>,
    pub url: Seq<char>,
    pub lineno: usize,
    pub colno: usize,
    pub endlineno: usize,
    pub endcolno: usize,
}

impl View for Diagnostic {
    type V = DiagnosticV;

    open spec fn view(&self) -> DiagnosticV {
        DiagnosticV {
            kind: self.kind@,
            file: self.file@,
            url: self.url@,
            lineno: self.lineno,
            colno: self.colno,
            endlineno: self.endlineno,
            endcolno: self.endcolno,
        }
    }
}

/// The name of each kind of diagnostic.
pub open spec fn kind_name(k: DiagnosticKindV) -> DiagnosticName {
    match k {
        DiagnosticKindV::Empty { .. } => DiagnosticName::Empty,
        DiagnosticKindV::InvalidExternalLink { .. } => DiagnosticName::InvalidExternalLink,
        DiagnosticKindV::Md { .. } => DiagnosticName::Md,
        DiagnosticKindV::Nonexistant { .. } => DiagnosticName::Nonexistant,
        DiagnosticKindV::OutsideRoot => DiagnosticName::OutsideRoot,
    }
}

/// The name of each kind as text: the text of its diagnostic name, as the
/// command line and the json output give it.
pub open spec fn kind_name_text(k: DiagnosticKindV) -> Seq<char> {
    match k {
        DiagnosticKindV::Empty { .. } => "empty"@,
        DiagnosticKindV::Nonexistant { .. } => "nonexistant"@,
        DiagnosticKindV::Md { .. } => "md"@,
        DiagnosticKindV::OutsideRoot => "outside-root"@,
        DiagnosticKindV::InvalidExternalLink { .. } => "external-link-error"@,
    }
}

/// The type name of each kind, in ALL CAPS.
pub open spec fn kind_typename(k: DiagnosticKindV) -> Seq<char> {
    match k {
        DiagnosticKindV::Empty { .. } => "EMPTY"@,
        DiagnosticKindV::Nonexistant { .. } => "NONEXISTANT"@,
        DiagnosticKindV::Md { .. } => "MD"@,
        DiagnosticKindV::OutsideRoot => "OUTSIDE-ROOT"@,
        DiagnosticKindV::InvalidExternalLink { .. } => "EXTERNAL-LINK-ERROR"@,
    }
}

/// A human-readable description of each kind.
pub open spec fn kind_description(k: DiagnosticKindV) -> Seq<char> {
    match k {
        DiagnosticKindV::Empty { .. } => "Link is empty, or consists only of whitespace"@,
        DiagnosticKindV::Nonexistant { .. } => "Link points to a file path that doesn't exist"@,
        DiagnosticKindV::Md { .. } => "Link points to file with .md extention, this is probably not intenteded"@,
        DiagnosticKindV::OutsideRoot => "Link points to path outside (below) the root."@,
        DiagnosticKindV::InvalidExternalLink { .. } => "The external link contained errors."@,
    }
}

impl DiagnosticKind {
    /// The name of this kind.
    pub fn name(&self) -> (res: DiagnosticName)
        ensures
            res == kind_name(self@),
    {
        match self {
            DiagnosticKind::Empty { .. } => DiagnosticName::Empty,
            DiagnosticKind::InvalidExternalLink { .. } => DiagnosticName::InvalidExternalLink,
            DiagnosticKind::Md { .. } => DiagnosticName::Md,
            DiagnosticKind::Nonexistant { .. } => DiagnosticName::Nonexistant,
            DiagnosticKind::OutsideRoot => DiagnosticName::OutsideRoot,
        }
    }

    /// The name of this kind as text, the same as the text of its
    /// diagnostic name ([`DiagnosticName::as_str`]).
    pub fn name_text(&self) -> (res: &'static str)
        ensures
            res@ == kind_name_text(self@),
    {
        match self {
            DiagnosticKind::Empty { .. } => "empty",
            DiagnosticKind::Nonexistant { .. } => "nonexistant",
            DiagnosticKind::Md { .. } => "md",
            DiagnosticKind::OutsideRoot => "outside-root",
            DiagnosticKind::InvalidExternalLink { .. } => "external-link-error",
        }
    }

    /// The name of this kind, in ALL CAPS.
    pub fn typename(&self) -> (res: &'static str)
        ensures
            res@ == kind_typename(self@),
    {
        match self {
            DiagnosticKind::Empty { .. } => "EMPTY",
            DiagnosticKind::Nonexistant { .. } => "NONEXISTANT",
            DiagnosticKind::Md { .. } => "MD",
            DiagnosticKind::OutsideRoot => "OUTSIDE-ROOT",
            DiagnosticKind::InvalidExternalLink { .. } => "EXTERNAL-LINK-ERROR",
        }
    }

    /// A human-readable description of this error kind.
    pub fn description(&self) -> (res: &'static str)
        ensures
            res@ == kind_description(self@),
    {
        match self {
            DiagnosticKind::Empty { .. } => "Link is empty, or consists only of whitespace",
            DiagnosticKind::Nonexistant { .. } => "Link points to a file path that doesn't exist",
            DiagnosticKind::Md { .. } => "Link points to file with .md extention, this is probably not intenteded",
            DiagnosticKind::OutsideRoot => "Link points to path outside (below) the root.",
            DiagnosticKind::InvalidExternalLink { .. } => "The external link contained errors.",
        }
    }
}

/// The name text of a kind is the text of its diagnostic name, so the
/// names given on the command line select kinds by their name texts.
pub proof fn law_name_text_is_diagnostic_name(k: DiagnosticKindV)
    ensures
        kind_name_text(k) == diagnostic_name_str(kind_name(k)),
{
}

/// The place of a link that a diagnostic is about, from which the
/// diagnostics of each kind are built.
pub struct DiagnosticBuilder<'a> {
    pub file: &'a str,
    pub url: &'a str,
    pub lineno: usize,
    pub colno: usize,
    pub endlineno: usize,
    pub endcolno: usize,
}

impl<'a> DiagnosticBuilder<'a> {
    /// The diagnostic of this place with the given kind.
    pub open spec fn with_kind(&self, kind: DiagnosticKindV) -> DiagnosticV {
        DiagnosticV {
            kind,
            file: self.file@,
            url: self.url@,
            lineno: self.lineno,
            colno: self.colno,
            endlineno: self.endlineno,
            endcolno: self.endcolno,
        }
    }

    fn build(&self, kind: DiagnosticKind) -> (res: Diagnostic)
        ensures
            res@ == self.with_kind(kind@),
    {
        Diagnostic {
            kind,
            file: copy_str(self.file),
            url: copy_str(self.url),
            lineno: self.lineno,
            colno: self.colno,
            endlineno: self.endlineno,
            endcolno: self.endcolno,
        }
    }

    /// An empty link, with its link text.
    pub fn empty(&self, link_text: &str) -> (res: Diagnostic)
        ensures
            res@ == self.with_kind(DiagnosticKindV::Empty { link_text: link_text@ }),
    {
        self.build(DiagnosticKind::Empty { link_text: copy_str(link_text) })
    }

    /// A link to a .md file, with the path it resolved to.
    pub fn md(&self, resolved_to: &str) -> (res: Diagnostic)
        ensures
            res@ == self.with_kind(DiagnosticKindV::Md { resolved_path: resolved_to@ }),
    {
        self.build(DiagnosticKind::Md { resolved_path: copy_str(resolved_to) })
    }

    /// A link to a file that does not exist, with the path it resolved to.
    pub fn nonexistant(&self, resolved_to: &str) -> (res: Diagnostic)
        ensures
            res@ == self.with_kind(DiagnosticKindV::Nonexistant { resolved_path: resolved_to@ }),
    {
        self.build(DiagnosticKind::Nonexistant { resolved_path: copy_str(resolved_to) })
    }

    /// A link outside of the root.
    pub fn outside_root(&self) -> (res: Diagnostic)
        ensures
            res@ == self.with_kind(DiagnosticKindV::OutsideRoot),
    {
        self.build(DiagnosticKind::OutsideRoot)
    }

    /// An external link that could not be parsed, with the error.
    pub fn invalid_external_link(&self, error: UrlError) -> (res: Diagnostic)
        ensures
            res@ == self.with_kind(DiagnosticKindV::InvalidExternalLink { error }),
    {
        self.build(DiagnosticKind::InvalidExternalLink { error })
    }
}

/// The kind-specific last line of the multi line form.
pub open spec fn multiline_detail(k: DiagnosticKindV) -> Seq<char> {
    match k {
        DiagnosticKindV::Empty { link_text } => "  Link text: '"@ + link_text + "'\n"@,
        DiagnosticKindV::InvalidExternalLink { error } => "  Error: "@ + url_error_description(error) + "\n"@,
        DiagnosticKindV::Md { resolved_path } => "  Link resolved to: "@ + resolved_path + "\n"@,
        DiagnosticKindV::Nonexistant { resolved_path } => "  Link resolved to: "@ + resolved_path + "\n"@,
        DiagnosticKindV::OutsideRoot => Seq::<char>::empty(),
    }
}

/// The multi line form of a diagnostic.
pub open spec fn multiline_text(d: DiagnosticV) -> Seq<char> {
    kind_typename(d.kind) + ":\n"@
        + "  File: "@ + d.file + "\n"@
        + "  Line: "@ + decimal(d.lineno as nat) + "\n"@
        + "  Url: "@ + d.url + "\n"@
        + "  Description: "@ + kind_description(d.kind) + "\n"@
        + multiline_detail(d.kind)
}

/// The kind-specific end of the one line form.
pub open spec fn oneline_detail(k: DiagnosticKindV) -> Seq<char> {
    match k {
        DiagnosticKindV::Empty { link_text } => "(link text='"@ + link_text + "')\n"@,
        DiagnosticKindV::InvalidExternalLink { error } =>
            "link looks external, but could not be parsed as such. Inner parse error: "@
                + url_error_description(error) + "\n"@,
        DiagnosticKindV::Md { .. } => "links to .md file instead of .html, probably unintentionally\n"@,
        DiagnosticKindV::Nonexistant { resolved_path } =>
            "Pointed-to file (resolved to: '"@ + resolved_path + "') does not exist\n"@,
        DiagnosticKindV::OutsideRoot => "link points to file outside of the root\n"@,
    }
}

/// The one line form of a diagnostic.
pub open spec fn oneline_text(d: DiagnosticV) -> Seq<char> {
    kind_typename(d.kind) + ": link '"@ + d.url + "' on line "@ + decimal(d.lineno as nat)
        + " in file '"@ + d.file + "': "@ + oneline_detail(d.kind)
}

impl Diagnostic {
    /// The place of a link, from which its diagnostics are built.
    pub fn new<'a>(
        file: &'a str,
        url: &'a str,
        lineno: usize,
        colno: usize,
        endlineno: usize,
        endcolno: usize,
    ) -> (res: DiagnosticBuilder<'a>)
        ensures
            res.file@ == file@,
            res.url@ == url@,
            res.lineno == lineno,
            res.colno == colno,
            res.endlineno == endlineno,
            res.endcolno == endcolno,
    {
        DiagnosticBuilder { file, url, lineno, colno, endlineno, endcolno }
    }

    /// The multi line form: the kind, file, line, url and description, each
    /// on its own line, then what is particular to the kind.
    pub fn to_multiline_string(&self) -> (res: String)
        ensures
            res@ == multiline_text(self@),
    {
        let mut out = String::new();
        append_str(&mut out, self.kind.typename());
        append_str(&mut out, ":\n");
        append_str(&mut out, "  File: ");
        append_str(&mut out, self.file.as_str());
        append_str(&mut out, "\n");
        append_str(&mut out, "  Line: ");
        push_decimal(&mut out, self.lineno);
        append_str(&mut out, "\n");
        append_str(&mut out, "  Url: ");
        append_str(&mut out, self.url.as_str());
        append_str(&mut out, "\n");
        append_str(&mut out, "  Description: ");
        append_str(&mut out, self.kind.description());
        append_str(&mut out, "\n");
        let ghost head = out@;
        match &self.kind {
            DiagnosticKind::Empty { link_text } => {
                append_str(&mut out, "  Link text: '");
                append_str(&mut out, link_text.as_str());
                append_str(&mut out, "'\n");
            },
            DiagnosticKind::InvalidExternalLink { error } => {
                append_str(&mut out, "  Error: ");
                let msg = url_error_message(error);
                append_str(&mut out, msg.as_str());
                append_str(&mut out, "\n");
            },
            DiagnosticKind::Md { resolved_path } => {
                append_str(&mut out, "  Link resolved to: ");
                append_str(&mut out, resolved_path.as_str());
                append_str(&mut out, "\n");
            },
            DiagnosticKind::Nonexistant { resolved_path } => {
                append_str(&mut out, "  Link resolved to: ");
                append_str(&mut out, resolved_path.as_str());
                append_str(&mut out, "\n");
            },
            DiagnosticKind::OutsideRoot => {},
        }
        assert(out@ =~= head + multiline_detail(self.kind@));
        assert(out@ =~= multiline_text(self@));
        out
    }

    /// The one line form: the kind in capitals, the link, its line and file,
    /// then what is particular to the kind.
    pub fn to_string(&self) -> (res: String)
        ensures
            res@ == oneline_text(self@),
    {
        let mut out = String::new();
        append_str(&mut out, self.kind.typename());
        append_str(&mut out, ": link '");
        append_str(&mut out, self.url.as_str());
        append_str(&mut out, "' on line ");
        push_decimal(&mut out, self.lineno);
        append_str(&mut out, " in file '");
        append_str(&mut out, self.file.as_str());
        append_str(&mut out, "': ");
        let ghost head = out@;
        match &self.kind {
            DiagnosticKind::Empty { link_text } => {
                append_str(&mut out, "(link text='");
                append_str(&mut out, link_text.as_str());
                append_str(&mut out, "')\n");
            },
            DiagnosticKind::InvalidExternalLink { error } => {
                append_str(&mut out, "link looks external, but could not be parsed as such. Inner parse error: ");
                let msg = url_error_message(error);
                append_str(&mut out, msg.as_str());
                append_str(&mut out, "\n");
            },
            DiagnosticKind::Md { .. } => {
                append_str(&mut out, "links to .md file instead of .html, probably unintentionally\n");
            },
            DiagnosticKind::Nonexistant { resolved_path } => {
                append_str(&mut out, "Pointed-to file (resolved to: '");
                append_str(&mut out, resolved_path.as_str());
                append_str(&mut out, "') does not exist\n");
            },
            DiagnosticKind::OutsideRoot => {
                append_str(&mut out, "link points to file outside of the root\n");
            },
        }
        assert(out@ =~= head + oneline_detail(self.kind@));
        assert(out@ =~= oneline_text(self@));
        out
    }
}


/// The upper-case form of an ASCII text.
pub open spec fn ascii_upper(s: Seq<char>) -> Seq<char> {
    s.map_values(|c: char| if 'a' <= c && c <= 'z' { ((c as u32) - 32) as char } else { c })
}

/// The type name of a kind is its name text in capitals.
pub proof fn law_typename_upper(k: DiagnosticKindV)
    ensures
        kind_typename(k) == ascii_upper(kind_name_text(k)),
{
    reveal_strlit("empty");
    reveal_strlit("EMPTY");
    reveal_strlit("nonexistant");
    reveal_strlit("NONEXISTANT");
    reveal_strlit("md");
    reveal_strlit("MD");
    reveal_strlit("outside-root");
    reveal_strlit("OUTSIDE-ROOT");
    reveal_strlit("external-link-error");
    reveal_strlit("EXTERNAL-LINK-ERROR");
    assert(kind_typename(k) =~= ascii_upper(kind_name_text(k)));
}


/// The multi line form of a diagnostic of a link to a .md file or to a
/// nonexistant file says where the link resolved to: it ends with the line
/// `  Link resolved to: PATH`.
pub proof fn law_multiline_tells_resolved_path(d: DiagnosticV, p: Seq<char>)
    requires
        d.kind == (DiagnosticKindV::Md { resolved_path: p }) || d.kind == (DiagnosticKindV::Nonexistant { resolved_path: p }),
    ensures
        multiline_text(d).len() >= ("  Link resolved to: "@ + p + "\n"@).len(),
        multiline_text(d).skip(multiline_text(d).len() - ("  Link resolved to: "@ + p + "\n"@).len())
            == "  Link resolved to: "@ + p + "\n"@,
{
    let suffix = "  Link resolved to: "@ + p + "\n"@;
    let t = multiline_text(d);
    let head = kind_typename(d.kind) + ":\n"@
        + "  File: "@ + d.file + "\n"@
        + "  Line: "@ + decimal(d.lineno as nat) + "\n"@
        + "  Url: "@ + d.url + "\n"@
        + "  Description: "@ + kind_description(d.kind) + "\n"@;
    assert(multiline_detail(d.kind) == suffix);
    assert(t == head + suffix);
    assert(t.skip(head.len() as int) =~= suffix);
}

} // verus!
