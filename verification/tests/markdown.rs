use dead_links::diagnose::{check_link, diagnose, LinkCheck};
use dead_links::diagnostic::DiagnosticKind;
use dead_links::file::{find_links, md_tree, mdast_find_links, parse_md, File, LinkNode, MdLink, MdTree};
use dead_links::url_error::UrlError;

const DOC: &str = "# Title\n\nSee [one](a.html) and [two](/b/c.md \"T\").\n\n- [three](https://example.com)\n";

fn link(url: &str) -> MdLink {
    MdLink { url: url.to_string(), title: None, lineno: 2, colno: 3, endlineno: 2, endcolno: 10 }
}

#[test]
fn links_in_document_order() {
    let tree = md_tree(&parse_md(DOC).unwrap());
    let links = mdast_find_links(&tree);
    let urls: Vec<&str> = links.iter().map(|l| l.url.as_str()).collect();
    assert_eq!(urls, vec!["a.html", "/b/c.md", "https://example.com"]);
    assert_eq!(links[0].title.as_deref(), Some("one"));
    assert_eq!(links[1].title.as_deref(), Some("two"));
    assert_eq!(links[2].title.as_deref(), Some("three"));
    assert_eq!((links[0].lineno, links[0].colno), (3, 5));
    assert_eq!((links[0].endlineno, links[0].endcolno), (3, 18));
    assert_eq!((links[2].lineno, links[2].colno), (5, 3));
}

#[test]
fn title_is_the_link_text() {
    let tree = md_tree(&parse_md("[abc](x.html)").unwrap());
    let links = mdast_find_links(&tree);
    assert_eq!(links.len(), 1);
    assert_eq!(links[0].url, "x.html");
    assert_eq!(links[0].title.as_deref(), Some("abc"));
    assert_eq!((links[0].lineno, links[0].colno, links[0].endlineno, links[0].endcolno), (1, 1, 1, 14));
}

#[test]
fn title_of_formatted_and_empty_links() {
    let tree = md_tree(&parse_md("[*a* `b` c](x.html \"attr\") and [](y.html)\n").unwrap());
    let links = mdast_find_links(&tree);
    assert_eq!(links[0].title.as_deref(), Some("a b c"));
    assert_eq!(links[1].title, None);
}

#[test]
fn find_links_agrees() {
    let tree = md_tree(&parse_md(DOC).unwrap());
    let a = find_links(&tree).unwrap();
    let b = mdast_find_links(&tree);
    assert_eq!(a.len(), b.len());
    for (x, y) in a.iter().zip(b.iter()) {
        assert_eq!(x.url, y.url);
        assert_eq!(x.lineno, y.lineno);
    }
}

#[test]
fn document_without_links() {
    let tree = md_tree(&parse_md("just *text*\n\n```\n[not](a link)\n```\n").unwrap());
    assert!(mdast_find_links(&tree).is_empty());
}

#[test]
fn nested_links_are_found() {
    let tree = md_tree(&parse_md("> quote with [x](q.html)\n\n1. item [y](r.html)\n").unwrap());
    let urls: Vec<String> = mdast_find_links(&tree).into_iter().map(|l| l.url).collect();
    assert_eq!(urls, vec!["q.html".to_string(), "r.html".to_string()]);
}

fn check(url: &str) -> Option<LinkCheck> {
    check_link("/site/sub/page.md", "/site", "sub/page.md", &link(url))
}

#[test]
fn empty_link_is_reported() {
    match check("  ") {
        Some(LinkCheck::Found(d)) => {
            match d.kind {
                DiagnosticKind::Empty { link_text } => assert_eq!(link_text, "<bare link>"),
                _ => panic!("wrong kind"),
            }
            assert_eq!(d.url, "");
            assert_eq!(d.file, "sub/page.md");
            assert_eq!((d.lineno, d.colno, d.endlineno, d.endcolno), (2, 3, 2, 10));
        }
        _ => panic!("expected a diagnostic"),
    }
    let mut l = link("");
    l.title = Some("the title".to_string());
    match check_link("/site/sub/page.md", "/site", "sub/page.md", &l) {
        Some(LinkCheck::Found(d)) => match d.kind {
            DiagnosticKind::Empty { link_text } => assert_eq!(link_text, "the title"),
            _ => panic!("wrong kind"),
        },
        _ => panic!("expected a diagnostic"),
    }
}

#[test]
fn external_link_is_fine() {
    assert!(matches!(check(" https://example.com/x "), Some(LinkCheck::Fine)));
    assert!(matches!(check("mailto:someone@example.com"), Some(LinkCheck::Fine)));
}

#[test]
fn broken_external_link_is_reported() {
    match check("http://") {
        Some(LinkCheck::Found(d)) => match d.kind {
            DiagnosticKind::InvalidExternalLink { error } => assert_eq!(error, UrlError::EmptyHost),
            _ => panic!("wrong kind"),
        },
        _ => panic!("expected a diagnostic"),
    }
}

#[test]
fn link_to_md_is_reported() {
    match check("other.md#top") {
        Some(LinkCheck::Found(d)) => match d.kind {
            DiagnosticKind::Md { resolved_path } => assert_eq!(resolved_path, "/site/sub/other.md"),
            _ => panic!("wrong kind"),
        },
        _ => panic!("expected a diagnostic"),
    }
}

#[test]
fn link_outside_root_is_reported() {
    assert!(matches!(
        check("../../outside.html"),
        Some(LinkCheck::Found(d)) if matches!(d.kind, DiagnosticKind::OutsideRoot)
    ));
}

#[test]
fn html_link_must_have_its_md_source() {
    match check("page2.html") {
        Some(LinkCheck::IfMissing { path, if_missing }) => {
            assert_eq!(path, "/site/sub/page2.md");
            match if_missing.kind {
                DiagnosticKind::Nonexistant { resolved_path } => assert_eq!(resolved_path, "/site/sub/page2.md"),
                _ => panic!("wrong kind"),
            }
        }
        _ => panic!("expected a check on disk"),
    }
    match check("/img/pic.png") {
        Some(LinkCheck::IfMissing { path, .. }) => assert_eq!(path, "/site/img/pic.png"),
        _ => panic!("expected a check on disk"),
    }
}

#[test]
fn conclude_depends_on_existence() {
    let missing = |e| check("x.html").unwrap().conclude(e);
    assert!(missing(Some(true)).is_none());
    assert!(missing(None).is_none());
    assert!(matches!(missing(Some(false)).map(|d| d.kind), Some(DiagnosticKind::Nonexistant { .. })));
    assert!(check("https://example.com").unwrap().conclude(Some(false)).is_none());
    assert!(check("").unwrap().conclude(Some(true)).is_some());
}

#[test]
fn diagnose_file() {
    let tree = md_tree(&parse_md("[a](x.md) [b](https://e.org) [c]() [d](y.html)\n").unwrap());
    let file = File { path: "/site/sub/page.md".to_string(), links: mdast_find_links(&tree) };
    let checks = diagnose(&file, "/site").unwrap();
    assert_eq!(checks.len(), 4);
    assert!(matches!(&checks[0], LinkCheck::Found(d) if d.file == "sub/page.md" && matches!(d.kind, DiagnosticKind::Md { .. })));
    assert!(matches!(&checks[1], LinkCheck::Fine));
    assert!(matches!(&checks[2], LinkCheck::Found(d) if matches!(d.kind, DiagnosticKind::Empty { .. })));
    assert!(matches!(&checks[3], LinkCheck::IfMissing { path, .. } if path == "/site/sub/y.md"));
}

fn leaf(url: &str, text: &str, pos: Option<(usize, usize, usize, usize)>) -> MdTree {
    MdTree {
        is_root: false,
        link: Some((LinkNode { url: url.to_string(), position: pos }, text.to_string())),
        children: vec![],
    }
}

#[test]
fn links_of_a_built_tree() {
    let para = MdTree { is_root: false, link: None, children: vec![leaf("a.html", "A", Some((1, 1, 1, 13))), leaf("b.html", "", Some((2, 1, 2, 10)))] };
    let root = MdTree { is_root: true, link: None, children: vec![para, leaf("c.html", "C", Some((3, 1, 3, 13)))] };
    let links = mdast_find_links(&root);
    let got: Vec<(&str, Option<&str>, usize)> = links.iter().map(|l| (l.url.as_str(), l.title.as_deref(), l.lineno)).collect();
    assert_eq!(got, vec![("a.html", Some("A"), 1), ("b.html", None, 2), ("c.html", Some("C"), 3)]);
}

#[test]
fn find_links_refuses_unpositioned_or_rootless_trees() {
    let root = MdTree { is_root: true, link: None, children: vec![leaf("a.html", "A", None)] };
    assert!(find_links(&root).is_none());
    let not_root = MdTree { is_root: false, link: None, children: vec![] };
    assert!(find_links(&not_root).is_none());
    let empty_root = MdTree { is_root: true, link: None, children: vec![] };
    assert_eq!(find_links(&empty_root).map(|v| v.len()), Some(0));
}

#[test]
fn html_link_checks_md_with_same_stem() {
    match check("../sub/a.b.html#x") {
        Some(LinkCheck::IfMissing { path, .. }) => assert_eq!(path, "/site/sub/a.b.md"),
        _ => panic!("expected a check on disk"),
    }
}
