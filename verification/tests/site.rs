use dead_links::site::{
    calculate_hash, git_check_ignore_input, git_check_ignore_output, has_md_extension, is_config_file_name,
    site_root_step, DirEntryInfo, RootSearch,
};
use dead_links::text::{join_strings, split_chars, trim_str};

fn entry(name: &str, is_file: Option<bool>) -> DirEntryInfo {
    DirEntryInfo { name: name.to_string(), is_file }
}

#[test]
fn hash_of_empty_input() {
    assert_eq!(calculate_hash(b""), "da39a3ee5e6b4b0d3255bfef95601890afd80709");
}

#[test]
fn hash_of_text() {
    assert_eq!(calculate_hash(b"abc"), "a9993e364706816aba3e25717850c26c9cd0d89d");
    assert_eq!(calculate_hash(b"# Title\n"), hex::encode(<sha1::Sha1 as sha1::Digest>::digest(b"# Title\n")));
}

#[test]
fn config_file_names() {
    assert!(is_config_file_name("_config.yml"));
    assert!(is_config_file_name("_config.toml"));
    assert!(!is_config_file_name("_config.yaml"));
    assert!(!is_config_file_name("config.yml"));
}

#[test]
fn root_found_where_config_is_a_file() {
    let entries = vec![entry("index.md", Some(true)), entry("_config.yml", Some(true))];
    match site_root_step("/site/docs", &entries) {
        RootSearch::Found(d) => assert_eq!(d, "/site/docs"),
        _ => panic!("expected the root"),
    }
}

#[test]
fn config_directory_does_not_count() {
    let entries = vec![entry("_config.toml", Some(false)), entry("_config.yml", None)];
    match site_root_step("/site/docs", &entries) {
        RootSearch::Parent(p) => assert_eq!(p, "/site"),
        _ => panic!("expected the parent"),
    }
}

#[test]
fn search_ends_at_filesystem_root() {
    match site_root_step("/", &vec![]) {
        RootSearch::NotFound => {}
        _ => panic!("expected the end"),
    }
    match site_root_step("/top", &vec![]) {
        RootSearch::Parent(p) => assert_eq!(p, "/"),
        _ => panic!("expected the parent"),
    }
}

#[test]
fn md_extension() {
    assert!(has_md_extension("/a/b.md"));
    assert!(has_md_extension("x.md"));
    assert!(!has_md_extension("/a/.md"));
    assert!(!has_md_extension("/a/b.markdown"));
    assert!(!has_md_extension("/a/md"));
}

#[test]
fn git_lines_round_trip() {
    let files = vec!["/a/b.md".to_string(), "/c.md".to_string(), "d e.md".to_string()];
    let input = git_check_ignore_input(&files);
    assert_eq!(input, "/a/b.md\n/c.md\nd e.md");
    assert_eq!(git_check_ignore_output(&input), files);
}

#[test]
fn git_output_keeps_trailing_empty_line() {
    assert_eq!(git_check_ignore_output("/a.md\n"), vec!["/a.md".to_string(), String::new()]);
    assert_eq!(git_check_ignore_output(""), vec![String::new()]);
}

#[test]
fn split_and_join_agree_with_std() {
    for s in ["", "a", " a b ", "a  b", "  "] {
        let ours = split_chars(s, ' ');
        let theirs: Vec<String> = s.split(' ').map(|x| x.to_string()).collect();
        assert_eq!(ours, theirs);
        assert_eq!(join_strings(&ours, ' '), s);
    }
}

#[test]
fn trim_agrees_with_std() {
    for s in ["", " ", "  x ", "\t\nx y\r\n", "\u{a0}x\u{3000}", "x", "\u{2028}"] {
        assert_eq!(trim_str(s), s.trim(), "trim of {s:?}");
    }
}

#[test]
fn parent_drops_trailing_separators_and_dots() {
    for (dir, want) in [("/site/docs/", "/site"), ("/site/./docs/./", "/site"), ("/site//docs", "/site"), ("./docs", "."), ("docs", "")] {
        match site_root_step(dir, &vec![]) {
            RootSearch::Parent(p) => {
                assert_eq!(p, want, "parent of {dir:?}");
                assert_eq!(Some(std::path::Path::new(&p)), std::path::Path::new(dir).parent());
            }
            _ => panic!("expected the parent of {dir:?}"),
        }
    }
}
