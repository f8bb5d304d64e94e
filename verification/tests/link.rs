use dead_links::link::{parse_external_link, parse_internal_link, try_parse_internal_link};
use dead_links::url_error::UrlError;

fn t(expected: &str, path: &str, root: &str, link: &str) {
    let want = url::Url::parse(expected).unwrap();
    let got = parse_internal_link(path, root, link);
    assert_eq!(want.as_str(), got.href);
    assert_eq!(got.scheme, "file");
}

#[test]
fn same_dir() {
    let root = "/best/root";
    let path = "/best/root/index.html";
    let link = "somefile.html";
    let expected = "file:///best/root/somefile.html";
    t(expected, path, root, link);
}

#[test]
fn relative_to_below() {
    let root = "/best/root";
    let path = "/best/root/subdir/index.md";
    let link = "../somefile.html";
    let expected = "file:///best/root/somefile.html";
    t(expected, path, root, link);
}

#[test]
fn relative_to_sibling() {
    let root = "/best/root";
    let path = "/best/root/subdir/index.md";
    let link = "../sibling/somefile.html";
    let expected = "file:///best/root/sibling/somefile.html";
    t(expected, path, root, link);
}

#[test]
fn relative_to_siblings_child() {
    let root = "/best/root";
    let path = "/best/root/subdir/index.md";
    let link = "../sibling/siblings_child/somefile.html";
    let expected = "file:///best/root/sibling/siblings_child/somefile.html";
    t(expected, path, root, link);
}

#[test]
fn absolute_link_root() {
    let root = "/best/root";
    let path = "/best/root/index.md";
    let link = "/somefile.html";
    let expected = "file:///best/root/somefile.html";
    t(expected, path, root, link);
}

#[test]
fn absolute_link_to_parent() {
    let root = "/best/root";
    let path = "/best/root/subdir/index.md";
    let link = "/subdir/somefile.html";
    let expected = "file:///best/root/subdir/somefile.html";
    t(expected, path, root, link);
}

#[test]
fn absolute_link_to_child() {
    let root = "/best/root";
    let path = "/best/root/index.md";
    let link = "/subdir/somefile.html";
    let expected = "file:///best/root/subdir/somefile.html";
    t(expected, path, root, link);
}

#[test]
fn with_fragment() {
    let root = "/best/root";
    let path = "/best/root/index.md";
    let link = "somefile.html#some-fragment";
    let expected = "file:///best/root/somefile.html#some-fragment";
    t(expected, path, root, link);
}

#[test]
fn only_fragment() {
    let root = "/best/root";
    let path = "/best/root/index.md";
    let link = "#some-fragment";
    let expected = "file:///best/root/index.md#some-fragment";
    t(expected, path, root, link);
}

#[test]
fn internal_link_resolves_to_file_path() {
    let u = parse_internal_link("/best/root/subdir/index.md", "/best/root", "../other/page.html");
    assert_eq!(u.file_path.as_deref(), Some("/best/root/other/page.html"));
}

#[test]
fn internal_link_fragment_is_not_part_of_the_path() {
    let u = parse_internal_link("/best/root/index.md", "/best/root", "page.html#top");
    assert_eq!(u.href, "file:///best/root/page.html#top");
    assert_eq!(u.file_path.as_deref(), Some("/best/root/page.html"));
}

#[test]
fn try_internal_link_refuses_relative_file() {
    assert!(try_parse_internal_link("best/root/index.md", "/best/root", "page.html").is_none());
}

#[test]
fn try_internal_link_refuses_empty_link() {
    assert!(try_parse_internal_link("/best/root/index.md", "/best/root", "").is_none());
}

#[test]
fn try_internal_link_refuses_root_with_trailing_slash_for_absolute_link() {
    assert!(try_parse_internal_link("/best/root/index.md", "/best/root/", "/page.html").is_none());
    assert!(try_parse_internal_link("/best/root/index.md", "/best/root/", "page.html").is_some());
}

#[test]
fn try_internal_link_agrees_with_parse() {
    let a = try_parse_internal_link("/best/root/subdir/index.md", "/best/root", "../x.html#f").unwrap();
    let b = parse_internal_link("/best/root/subdir/index.md", "/best/root", "../x.html#f");
    assert_eq!(a.href, b.href);
    assert_eq!(a.href, "file:///best/root/x.html#f");
}

#[test]
fn external_link_parses() {
    let u = parse_external_link("https://example.com/a/b?c=d").unwrap().unwrap();
    assert_eq!(u.href, "https://example.com/a/b?c=d");
    assert_eq!(u.scheme, "https");
    assert!(u.file_path.is_none());
}

#[test]
fn relative_link_is_not_external() {
    assert!(parse_external_link("some/file.html").unwrap().is_none());
    assert!(parse_external_link("#fragment").unwrap().is_none());
}

#[test]
fn broken_external_links_give_their_error() {
    assert_eq!(parse_external_link("http://").err(), Some(UrlError::EmptyHost));
    assert_eq!(parse_external_link("http://example.com:99999/").err(), Some(UrlError::InvalidPort));
    assert_eq!(parse_external_link("http://[::1/").err(), Some(UrlError::InvalidIpv6Address));
    assert_eq!(parse_external_link("http://256.0.0.1/").err(), Some(UrlError::InvalidIpv4Address));
}

#[test]
fn external_link_errors_match_url_crate() {
    for s in ["http://", "http://a:70000", "http://[1::", "https://1.2.3.999/", "file.html", "mailto:x@y"] {
        let ours = parse_external_link(s);
        match url::Url::parse(s) {
            Ok(u) => assert_eq!(ours.unwrap().unwrap().href, u.as_str()),
            Err(url::ParseError::RelativeUrlWithoutBase) => assert!(ours.unwrap().is_none()),
            Err(e) => {
                let name = format!("{:?}", e);
                let got = ours.err().unwrap();
                assert_eq!(dead_links::url_error::str_from_url_error(&got), name);
            }
        }
    }
}

#[test]
fn absolute_link_with_empty_root() {
    let u = parse_internal_link("/index.md", "", "/page.html");
    assert_eq!(u.href, "file:///page.html");
}
