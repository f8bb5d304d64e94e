use dead_links::path_extras::{
    path_rooted_at, components, components_to_path, extension, path_join, path_normalize_lexically, path_push,
    path_starts_with, path_strip_prefix, Component,
};

const SAMPLES: [&str; 22] = [
    "",
    "/",
    "//",
    "/a",
    "/a/",
    "/a//b",
    "/a/./b",
    "/a/../b",
    "a",
    "a/b/c",
    "./a",
    ".",
    "./",
    "..",
    "../a",
    "a/.",
    "a/..",
    "/./a",
    ".//a",
    "/best/root/index.md",
    "x/.hidden",
    "a.b/c.d.e",
];

fn std_components(s: &str) -> Vec<Component> {
    std::path::Path::new(s)
        .components()
        .map(|c| match c {
            std::path::Component::RootDir => Component::RootDir,
            std::path::Component::CurDir => Component::CurDir,
            std::path::Component::ParentDir => Component::ParentDir,
            std::path::Component::Normal(n) => Component::Normal(n.to_str().unwrap().to_string()),
            std::path::Component::Prefix(_) => panic!("no prefixes on unix"),
        })
        .collect()
}

#[test]
fn components_agree_with_std() {
    for s in SAMPLES {
        assert_eq!(components(s), std_components(s), "components of {s:?}");
    }
}

#[test]
fn components_of_absolute_path() {
    assert_eq!(
        components("/home//user/./x"),
        vec![
            Component::RootDir,
            Component::Normal("home".to_string()),
            Component::Normal("user".to_string()),
            Component::Normal("x".to_string()),
        ]
    );
}

#[test]
fn components_to_path_agrees_with_std_collect() {
    for s in SAMPLES {
        let cs = components(s);
        for from in 0..=cs.len() {
            let want: std::path::PathBuf = std::path::Path::new(s).components().skip(from).collect();
            assert_eq!(components_to_path(&cs, from), want.to_str().unwrap(), "{s:?} from {from}");
        }
    }
}

#[test]
fn join_agrees_with_std() {
    for a in ["", "/", "/a", "/a/", "a", "a/b"] {
        for b in ["", "x", "x/y", "/abs", "../z"] {
            let want = std::path::Path::new(a).join(b);
            assert_eq!(path_join(a, b), want.to_str().unwrap(), "{a:?} join {b:?}");
            let mut s = a.to_string();
            path_push(&mut s, b);
            assert_eq!(s, want.to_str().unwrap());
        }
    }
}

#[test]
fn strip_prefix_doc_example() {
    assert_eq!(
        path_strip_prefix("/home/user/some/file.txt", "/home/user/"),
        Some("some/file.txt".to_string())
    );
}

#[test]
fn strip_prefix_of_site_file() {
    assert_eq!(path_strip_prefix("/best/root/sub/index.md", "/best/root"), Some("sub/index.md".to_string()));
}

#[test]
fn strip_prefix_keeps_first_differing_component() {
    assert_eq!(path_strip_prefix("/best/other/x.html", "/best/root"), Some("other/x.html".to_string()));
    assert_eq!(path_strip_prefix("a/b/c", "a/x"), Some("b/c".to_string()));
}

#[test]
fn strip_prefix_absorbed_path_is_none() {
    assert_eq!(path_strip_prefix("/best/root", "/best/root"), None);
    assert_eq!(path_strip_prefix("/best", "/best/root"), None);
}

#[test]
fn strip_prefix_nothing_in_common_is_none() {
    assert_eq!(path_strip_prefix("a/b", "c/d"), None);
    assert_eq!(path_strip_prefix("/a/b", "a"), None);
    assert_eq!(path_strip_prefix("a/b", ""), None);
}

#[test]
fn starts_with_agrees_with_std() {
    for a in SAMPLES {
        for b in SAMPLES {
            let want = std::path::Path::new(a).starts_with(b);
            assert_eq!(path_starts_with(a, b), want, "{a:?} starts with {b:?}");
        }
    }
}

#[test]
fn extension_agrees_with_std() {
    for s in SAMPLES.iter().copied().chain(["x.md", "/a/b.html", "/a/.md", "a.", "a..b", "/a.b/"]) {
        let want = std::path::Path::new(s).extension().map(|e| e.to_str().unwrap().to_string());
        assert_eq!(extension(s), want, "extension of {s:?}");
    }
}

#[test]
fn normalize_examples() {
    assert_eq!(path_normalize_lexically("/a/./b/../c").unwrap(), "/a/c");
    assert_eq!(path_normalize_lexically("a/b/../../c").unwrap(), "c");
    assert_eq!(path_normalize_lexically("./a/../b").unwrap(), "./b");
    assert_eq!(path_normalize_lexically("").unwrap(), "");
    assert_eq!(path_normalize_lexically("/").unwrap(), "/");
}

#[test]
fn normalize_refuses_climbing_above_root() {
    assert!(path_normalize_lexically("..").is_err());
    assert!(path_normalize_lexically("../a").is_err());
    assert!(path_normalize_lexically("/a/../..").is_err());
    assert!(path_normalize_lexically("a/../..").is_err());
    assert!(path_normalize_lexically("./..").is_err());
}

#[test]
fn normalize_is_idempotent_on_examples() {
    for s in SAMPLES {
        if let Ok(once) = path_normalize_lexically(s) {
            assert_eq!(path_normalize_lexically(&once).unwrap(), once, "normalizing {s:?} twice");
        }
    }
}

#[test]
fn rooted_paths() {
    assert_eq!(path_rooted_at("/home/site/sub/a.md", "/home/site"), Some("/sub/a.md".to_string()));
    assert_eq!(path_rooted_at("/home/site/a.md", "/home/site/"), Some("/a.md".to_string()));
    assert_eq!(path_rooted_at("/home/site", "/home/site"), None);
}

#[test]
fn strip_then_join_gives_the_path() {
    for (p, q) in [("/home/user/some/file.txt", "/home/user/"), ("/a/b/c", "/a"), ("a/./b/../c", "a"), ("/x//y", "/x")] {
        let rest = path_strip_prefix(p, q).unwrap();
        let joined = std::path::Path::new(q).join(&rest);
        assert_eq!(components(joined.to_str().unwrap()), components(p), "{p:?} from {q:?}");
    }
}

#[test]
fn normalize_gives_back_its_own_result() {
    for s in ["/a/./b/../c/", "./x//y/../z", "a/b/../../c", "/"] {
        let once = path_normalize_lexically(s).unwrap();
        assert_eq!(path_normalize_lexically(&once).unwrap(), once);
    }
}
