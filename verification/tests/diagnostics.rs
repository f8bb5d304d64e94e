use dead_links::cli_parsing::{all_diagnostics, parse_cli_args, CliArgs, DiagnosticName, FormatArgs, OutputFormat};
use dead_links::diagnose::diagnostic_enabled;
use dead_links::diagnostic::{Diagnostic, DiagnosticKind};
use dead_links::url_error::{str_from_url_error, url_error_from_str, UrlError};

fn place() -> Diagnostic {
    Diagnostic::new("sub/index.md", "../x.html", 3, 5, 3, 20).outside_root()
}

#[test]
fn names_are_the_kind_type_names() {
    let b = Diagnostic::new("f.md", "u", 1, 1, 1, 2);
    let kinds = [
        (b.empty("t").kind, DiagnosticName::Empty),
        (b.md("/r/x.md").kind, DiagnosticName::Md),
        (b.nonexistant("/r/x.md").kind, DiagnosticName::Nonexistant),
        (b.outside_root().kind, DiagnosticName::OutsideRoot),
        (b.invalid_external_link(UrlError::EmptyHost).kind, DiagnosticName::InvalidExternalLink),
    ];
    for (kind, name) in kinds.iter() {
        assert_eq!(kind.name_text(), name.as_str());
        assert_eq!(kind.name(), *name);
        assert_eq!(kind.typename(), kind.name_text().to_uppercase());
    }
}

#[test]
fn name_texts() {
    assert_eq!(DiagnosticName::Empty.as_str(), "empty");
    assert_eq!(DiagnosticName::InvalidExternalLink.as_str(), "external-link-error");
    assert_eq!(DiagnosticName::Md.as_str(), "md");
    assert_eq!(DiagnosticName::Nonexistant.as_str(), "nonexistant");
    assert_eq!(DiagnosticName::OutsideRoot.as_str(), "outside-root");
    assert_eq!(DiagnosticName::Unreachable.as_str(), "unreachable");
    assert_eq!(OutputFormat::Oneline.as_str(), "oneline");
    assert_eq!(OutputFormat::Multiline.as_str(), "multiline");
    assert_eq!(OutputFormat::Fancy.as_str(), "fancy");
    assert_eq!(OutputFormat::Json.as_str(), "json");
}

#[test]
fn typenames_are_all_caps() {
    let b = Diagnostic::new("f.md", "u", 1, 1, 1, 2);
    assert_eq!(b.empty("t").kind.typename(), "EMPTY");
    assert_eq!(b.invalid_external_link(UrlError::EmptyHost).kind.typename(), "EXTERNAL-LINK-ERROR");
    assert_eq!(b.md("x").kind.typename(), "MD");
    assert_eq!(b.nonexistant("x").kind.typename(), "NONEXISTANT");
    assert_eq!(b.outside_root().kind.typename(), "OUTSIDE-ROOT");
}

#[test]
fn descriptions() {
    let b = Diagnostic::new("f.md", "u", 1, 1, 1, 2);
    assert_eq!(b.empty("t").kind.description(), "Link is empty, or consists only of whitespace");
    assert_eq!(b.outside_root().kind.description(), "Link points to path outside (below) the root.");
    assert_eq!(b.invalid_external_link(UrlError::Overflow).kind.description(), "The external link contained errors.");
}

#[test]
fn builder_keeps_the_place() {
    let d = Diagnostic::new("sub/index.md", "link", 7, 2, 8, 9).md("/root/sub/x.md");
    assert_eq!(d.file, "sub/index.md");
    assert_eq!(d.url, "link");
    assert_eq!((d.lineno, d.colno, d.endlineno, d.endcolno), (7, 2, 8, 9));
    match d.kind {
        DiagnosticKind::Md { resolved_path } => assert_eq!(resolved_path, "/root/sub/x.md"),
        _ => panic!("wrong kind"),
    }
}

#[test]
fn oneline_outside_root() {
    assert_eq!(
        place().to_string(),
        "OUTSIDE-ROOT: link '../x.html' on line 3 in file 'sub/index.md': link points to file outside of the root\n"
    );
}

#[test]
fn oneline_empty_and_nonexistant() {
    let b = Diagnostic::new("a.md", "", 12, 1, 12, 4);
    assert_eq!(b.empty("text").to_string(), "EMPTY: link '' on line 12 in file 'a.md': (link text='text')\n");
    let b = Diagnostic::new("a.md", "x.html", 120, 1, 120, 4);
    assert_eq!(
        b.nonexistant("/r/x.md").to_string(),
        "NONEXISTANT: link 'x.html' on line 120 in file 'a.md': Pointed-to file (resolved to: '/r/x.md') does not exist\n"
    );
    assert_eq!(
        b.md("/r/x.md").to_string(),
        "MD: link 'x.html' on line 120 in file 'a.md': links to .md file instead of .html, probably unintentionally\n"
    );
}

#[test]
fn oneline_invalid_external_link_uses_url_message() {
    let d = Diagnostic::new("a.md", "http://", 0, 1, 0, 4).invalid_external_link(UrlError::EmptyHost);
    let msg = url::ParseError::EmptyHost.to_string();
    assert_eq!(
        d.to_string(),
        format!("EXTERNAL-LINK-ERROR: link 'http://' on line 0 in file 'a.md': link looks external, but could not be parsed as such. Inner parse error: {msg}\n")
    );
}

#[test]
fn multiline_forms() {
    assert_eq!(
        place().to_multiline_string(),
        "OUTSIDE-ROOT:\n  File: sub/index.md\n  Line: 3\n  Url: ../x.html\n  Description: Link points to path outside (below) the root.\n"
    );
    let d = Diagnostic::new("a.md", " ", 4, 1, 4, 4).empty("<bare link>");
    assert_eq!(
        d.to_multiline_string(),
        "EMPTY:\n  File: a.md\n  Line: 4\n  Url:  \n  Description: Link is empty, or consists only of whitespace\n  Link text: '<bare link>'\n"
    );
    let d = Diagnostic::new("a.md", "y.html", 9, 1, 9, 4).nonexistant("/r/y.md");
    assert_eq!(
        d.to_multiline_string(),
        "NONEXISTANT:\n  File: a.md\n  Line: 9\n  Url: y.html\n  Description: Link points to a file path that doesn't exist\n  Link resolved to: /r/y.md\n"
    );
}

#[test]
fn url_error_messages_match_url_crate() {
    let all = [
        (UrlError::EmptyHost, url::ParseError::EmptyHost),
        (UrlError::IdnaError, url::ParseError::IdnaError),
        (UrlError::InvalidPort, url::ParseError::InvalidPort),
        (UrlError::InvalidIpv4Address, url::ParseError::InvalidIpv4Address),
        (UrlError::InvalidIpv6Address, url::ParseError::InvalidIpv6Address),
        (UrlError::InvalidDomainCharacter, url::ParseError::InvalidDomainCharacter),
        (UrlError::RelativeUrlWithoutBase, url::ParseError::RelativeUrlWithoutBase),
        (UrlError::RelativeUrlWithCannotBeABaseBase, url::ParseError::RelativeUrlWithCannotBeABaseBase),
        (UrlError::SetHostOnCannotBeABaseUrl, url::ParseError::SetHostOnCannotBeABaseUrl),
        (UrlError::Overflow, url::ParseError::Overflow),
    ];
    for (ours, theirs) in all {
        let d = Diagnostic::new("a.md", "u", 1, 1, 1, 1).invalid_external_link(ours);
        assert!(d.to_multiline_string().ends_with(&format!("  Error: {theirs}\n")));
        assert_eq!(str_from_url_error(&ours), format!("{theirs:?}"));
        assert_eq!(url_error_from_str(str_from_url_error(&ours)), Some(ours));
    }
    assert_eq!(url_error_from_str("UNKNOWN"), None);
    assert_eq!(url_error_from_str(""), None);
}

fn args(diag: Vec<DiagnosticName>, no_diag: Vec<DiagnosticName>, format: Option<FormatArgs>) -> CliArgs {
    CliArgs { path: "some/dir".to_string(), verbose: true, format, no_gitignore: false, no_diag, diag }
}

fn flags(json: bool, oneline: bool, fancy: bool, multiline: bool, format: Option<OutputFormat>) -> Option<FormatArgs> {
    Some(FormatArgs { json, oneline, fancy, multiline, format })
}

#[test]
fn cli_defaults() {
    let (path, no_gitignore, verbose, format, diags) = parse_cli_args(args(vec![], vec![], None));
    assert_eq!(path, "some/dir");
    assert!(!no_gitignore);
    assert!(verbose);
    assert_eq!(format, OutputFormat::Multiline);
    assert_eq!(diags, all_diagnostics());
    assert_eq!(
        diags,
        vec![
            DiagnosticName::Empty,
            DiagnosticName::InvalidExternalLink,
            DiagnosticName::Md,
            DiagnosticName::Nonexistant,
            DiagnosticName::OutsideRoot,
        ]
    );
}

#[test]
fn cli_diag_chooses_exactly() {
    let (_, _, _, _, diags) = parse_cli_args(args(vec![DiagnosticName::Md, DiagnosticName::Unreachable], vec![], None));
    assert_eq!(diags, vec![DiagnosticName::Md, DiagnosticName::Unreachable]);
}

#[test]
fn cli_no_diag_excludes() {
    let (_, _, _, _, diags) = parse_cli_args(args(vec![], vec![DiagnosticName::Md, DiagnosticName::Empty], None));
    assert_eq!(diags, vec![DiagnosticName::InvalidExternalLink, DiagnosticName::Nonexistant, DiagnosticName::OutsideRoot]);
}

#[test]
fn cli_formats() {
    let f = |fa| parse_cli_args(args(vec![], vec![], fa)).3;
    assert_eq!(f(flags(true, false, false, false, None)), OutputFormat::Json);
    assert_eq!(f(flags(false, true, false, false, None)), OutputFormat::Oneline);
    assert_eq!(f(flags(false, false, true, false, None)), OutputFormat::Fancy);
    assert_eq!(f(flags(false, false, false, true, None)), OutputFormat::Multiline);
    assert_eq!(f(flags(false, false, false, false, Some(OutputFormat::Json))), OutputFormat::Json);
}

#[test]
fn enabled_diagnostics() {
    let b = Diagnostic::new("f.md", "u", 1, 1, 1, 2);
    let enabled = vec![DiagnosticName::Md, DiagnosticName::OutsideRoot];
    assert!(diagnostic_enabled(&enabled, &b.md("x").kind));
    assert!(diagnostic_enabled(&enabled, &b.outside_root().kind));
    assert!(!diagnostic_enabled(&enabled, &b.empty("t").kind));
    assert!(!diagnostic_enabled(&enabled, &b.nonexistant("x").kind));
    assert!(!diagnostic_enabled(&vec![], &b.md("x").kind));
}
