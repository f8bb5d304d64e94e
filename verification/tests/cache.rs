use dead_links::cache::{format_cache_line, parse_cache_line, Cache};
use dead_links::diagnostic::Diagnostic;

fn diag(file: &str) -> Diagnostic {
    Diagnostic::new(file, "x.html", 1, 1, 1, 9).nonexistant("/site/x.md")
}

#[test]
fn new_cache_is_empty_and_lives_in_root() {
    let c = Cache::new("/site");
    assert_eq!(c.len(), 0);
    assert_eq!(c.file_path(), "/site/.dead-links-cache");
    assert!(c.get("/site/a.md").is_none());
    assert!(c.all_diagnostics().is_empty());
}

#[test]
fn read_after_write() {
    let mut c = Cache::new("/site");
    c.insert("/site/a.md", "h1".to_string(), vec![diag("a.md")]);
    c.insert("/site/b.md", "h2".to_string(), vec![]);
    let a = c.get("/site/a.md").unwrap();
    assert_eq!(a.hash, "h1");
    assert_eq!(a.diagnostics.len(), 1);
    assert_eq!(a.diagnostics[0].file, "a.md");
    assert_eq!(c.get("/site/b.md").unwrap().hash, "h2");
    assert!(c.get("/site/c.md").is_none());
    assert_eq!(c.len(), 2);
}

#[test]
fn insert_replaces_entry_of_same_path() {
    let mut c = Cache::new("/site");
    c.insert("/site/a.md", "old".to_string(), vec![diag("a.md")]);
    c.insert("/site//./a.md", "new".to_string(), vec![]);
    assert_eq!(c.len(), 1);
    let a = c.get("/site/a.md").unwrap();
    assert_eq!(a.hash, "new");
    assert!(a.diagnostics.is_empty());
}

#[test]
fn remove_missing_keeps_listed_paths_only() {
    let mut c = Cache::new("/site");
    c.insert("/site/a.md", "h1".to_string(), vec![diag("a.md")]);
    c.insert("/site/b.md", "h2".to_string(), vec![diag("b.md"), diag("b.md")]);
    c.insert("/site/c.md", "h3".to_string(), vec![]);
    c.remove_missing(&vec!["/site/c.md".to_string(), "/site/a.md".to_string(), "/site/z.md".to_string()]);
    assert_eq!(c.len(), 2);
    assert!(c.get("/site/b.md").is_none());
    assert_eq!(c.get("/site/a.md").unwrap().hash, "h1");
    assert_eq!(c.get("/site/c.md").unwrap().hash, "h3");
    assert_eq!(c.entry_at(0).0, "/site/a.md");
    assert_eq!(c.entry_at(1).0, "/site/c.md");
}

#[test]
fn all_diagnostics_entry_after_entry() {
    let mut c = Cache::new("/site");
    c.insert("/site/a.md", "h1".to_string(), vec![diag("a.md")]);
    c.insert("/site/b.md", "h2".to_string(), vec![diag("b1.md"), diag("b2.md")]);
    let all: Vec<&str> = c.all_diagnostics().iter().map(|d| d.file.as_str()).collect();
    assert_eq!(all, vec!["a.md", "b1.md", "b2.md"]);
}

#[test]
fn file_contents_one_line_per_entry() {
    let mut c = Cache::new("/home/u/site");
    c.insert("/home/u/site/a.md", "h1".to_string(), vec![]);
    c.insert("/home/u/site/sub/b.md", "h2".to_string(), vec![]);
    let text = c.file_contents(&vec!["[]".to_string(), "[{}]".to_string()]);
    assert_eq!(text, "h1 /a.md []\nh2 /sub/b.md [{}]\n");
}

#[test]
fn cache_line_round_trip() {
    let line = format_cache_line("abc123", "/sub/file.md", "[{\"a\":1}]");
    assert_eq!(line, "abc123 /sub/file.md [{\"a\":1}]\n");
    let parsed = parse_cache_line(line.trim_end_matches('\n'));
    assert_eq!(parsed.hash, "abc123");
    assert_eq!(parsed.path, "/sub/file.md");
    assert_eq!(parsed.diagnostics, "[{\"a\":1}]");
}

#[test]
fn cache_line_diagnostics_keep_their_spaces() {
    let parsed = parse_cache_line("h /p.md [ {\"k\": \"a b\"} ]");
    assert_eq!(parsed.hash, "h");
    assert_eq!(parsed.path, "/p.md");
    assert_eq!(parsed.diagnostics, "[ {\"k\": \"a b\"} ]");
}

#[test]
fn cache_line_with_two_parts() {
    let parsed = parse_cache_line("h /p.md");
    assert_eq!(parsed.hash, "h");
    assert_eq!(parsed.path, "/p.md");
    assert_eq!(parsed.diagnostics, "");
}

#[test]
fn only_new_or_changed_files_are_scanned() {
    let mut c = Cache::new("/site");
    assert!(c.needs_scan("/site/a.md", "h1"));
    c.insert("/site/a.md", "h1".to_string(), vec![]);
    assert!(!c.needs_scan("/site/a.md", "h1"));
    assert!(!c.needs_scan("/site/./a.md", "h1"));
    assert!(c.needs_scan("/site/a.md", "h2"));
    assert!(c.needs_scan("/site/b.md", "h1"));
}

#[test]
fn cache_file_reads_back() {
    let mut c = Cache::new("/home/u/site");
    c.insert("/home/u/site/a.md", "h1".to_string(), vec![diag("a.md")]);
    c.insert("/home/u/site/sub/b.md", "h2".to_string(), vec![]);
    let json = vec!["[{\"link_text\": \"a b\"}]".to_string(), "[]".to_string()];
    let text = c.file_contents(&json);
    let lines: Vec<&str> = text.split('\n').collect();
    assert_eq!(lines.len(), 3);
    assert_eq!(lines[2], "");
    let mut back = Cache::new("/home/u/site");
    for (i, line) in lines[..2].iter().enumerate() {
        let parts = parse_cache_line(line);
        assert_eq!(parts.diagnostics, json[i]);
        back.insert_stored(&parts.path, parts.hash, vec![]);
    }
    assert_eq!(back.get("/home/u/site/a.md").unwrap().hash, "h1");
    assert_eq!(back.get("/home/u/site/sub/b.md").unwrap().hash, "h2");
    assert_eq!(back.len(), 2);
}

#[test]
fn insert_entries_order() {
    let mut c = Cache::new("/site");
    c.insert("/site/a.md", "h1".to_string(), vec![]);
    c.insert("/site/b.md", "h2".to_string(), vec![]);
    c.insert("/site//a.md", "h3".to_string(), vec![]);
    assert_eq!(c.entry_at(0).0, "/site/a.md");
    assert_eq!(c.entry_at(0).1.hash, "h3");
    assert_eq!(c.entry_at(1).0, "/site/b.md");
}
