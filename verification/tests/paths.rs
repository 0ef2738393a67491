use wasi_fs::path::{
    components, has_root, is_cur_dir, is_parent_dir, join, pop, push, same_text, strip_prefix,
};

fn texts(path: &str) -> Vec<String> {
    components(path)
}

#[test]
fn components_skip_empty_pieces() {
    assert_eq!(components("a//b/./c/"), vec!["a", "b", "c"]);
}

#[test]
fn components_of_nothing() {
    assert_eq!(texts(""), Vec::<String>::new());
}

#[test]
fn components_keep_the_root_and_a_leading_dot() {
    assert_eq!(texts("/"), vec!["/"]);
    assert_eq!(texts("//a"), vec!["/", "a"]);
    assert_eq!(texts("./a"), vec![".", "a"]);
    assert_eq!(texts("."), vec!["."]);
    assert_eq!(texts("/./a"), vec!["/", "a"]);
    assert_eq!(texts("a/."), vec!["a"]);
}

#[test]
fn components_keep_every_parent() {
    assert_eq!(texts("../a/../b"), vec!["..", "a", "..", "b"]);
    assert_eq!(texts(".../...a"), vec!["...", "...a"]);
}

#[test]
fn components_are_those_of_std() {
    let paths = vec![
        "", "/", "//", ".", "./", "..", "a", "a/", "/a", "a/b", "a//b", "a/./b", "./a/./b/.",
        "/./a", "a/../b", "é/ü", "/a/b/../c/", " /x", ".a/b.",
    ];
    for path in paths {
        let expected: Vec<String> = std::path::Path::new(path)
            .components()
            .map(|c| c.as_os_str().to_string_lossy().to_string())
            .collect();
        assert_eq!(texts(path), expected, "{}", path);
    }
}

#[test]
fn push_adds_a_separator_where_one_is_needed() {
    assert_eq!(push("a", "b"), "a/b");
    assert_eq!(push("a/", "b"), "a/b");
    assert_eq!(push("", "b"), "b");
    assert_eq!(push("a", ""), "a/");
    assert_eq!(push("/", "b"), "/b");
}

#[test]
fn push_of_an_absolute_path_replaces() {
    assert_eq!(push("a/b", "/c"), "/c");
    assert_eq!(push("a", "/"), "/");
}

#[test]
fn push_is_that_of_std() {
    let paths = vec!["", "/", "a", "a/", "/a", "a/b", ".", ".."];
    for p in &paths {
        for q in &paths {
            let mut expected = std::path::PathBuf::from(p);
            expected.push(q);
            assert_eq!(push(p, q), expected.to_string_lossy(), "{} {}", p, q);
        }
    }
}

#[test]
fn pop_takes_the_last_component() {
    assert_eq!(pop("a/b/c"), "a/b");
    assert_eq!(pop("a"), "");
    assert_eq!(pop(""), "");
    assert_eq!(pop("/"), "/");
    assert_eq!(pop("/a"), "/");
    assert_eq!(pop("a/.."), "a");
}

#[test]
fn pop_is_that_of_std() {
    let paths = vec!["", "/", "a", "a/", "/a", "a/b", "a//b/", "./a", "../a", "/a/b"];
    for p in paths {
        let mut expected = std::path::PathBuf::from(p);
        expected.pop();
        assert_eq!(std::path::PathBuf::from(pop(p)), expected, "{}", p);
    }
}

#[test]
fn strip_prefix_goes_by_components() {
    assert_eq!(strip_prefix("a/b/c", "a"), Some("b/c".to_string()));
    assert_eq!(strip_prefix("a/b/c", "a/b/c"), Some("".to_string()));
    assert_eq!(strip_prefix("ab/c", "a"), None);
    assert_eq!(strip_prefix("a", "a/b"), None);
    assert_eq!(strip_prefix("/a/b", "/"), Some("a/b".to_string()));
    assert_eq!(strip_prefix("a/b", "/"), None);
    assert_eq!(strip_prefix("a//b/./c/", "a/b"), Some("c".to_string()));
}

#[test]
fn strip_prefix_is_that_of_std() {
    let paths = vec!["", "/", "a", "a/", "/a", "a/b", "a//b/", "./a", "../a", "/a/b", "b"];
    for p in &paths {
        for q in &paths {
            let expected = std::path::Path::new(p).strip_prefix(q).ok();
            let found = strip_prefix(p, q);
            assert_eq!(found.as_ref().map(|s| std::path::Path::new(s)), expected, "{} {}", p, q);
        }
    }
}

#[test]
fn joined_components_are_the_components() {
    for path in vec!["a/b/../c", "/a/b", "./a", "..", "/", ""] {
        let cs = texts(path);
        let joined = join(&cs, 0, cs.len());
        assert_eq!(texts(&joined), cs);
    }
}

#[test]
fn join_takes_a_range() {
    let cs = texts("/a/b/c");
    assert_eq!(join(&cs, 0, 2), "/a");
    assert_eq!(join(&cs, 1, 3), "a/b");
    assert_eq!(join(&cs, 2, 2), "");
}

#[test]
fn names_pushed_as_one_path_follow_the_base() {
    let base = "/srv/data";
    let names = texts("x/y");
    let pushed = push(base, &join(&names, 0, names.len()));
    assert_eq!(texts(&pushed), vec!["/", "srv", "data", "x", "y"]);
    assert_eq!(texts(&push(base, "")), texts(base));
}

#[test]
fn dots_and_roots_are_told_apart() {
    assert!(is_cur_dir("."));
    assert!(!is_cur_dir(".."));
    assert!(!is_cur_dir(""));
    assert!(is_parent_dir(".."));
    assert!(!is_parent_dir("."));
    assert!(!is_parent_dir("..."));
    assert!(has_root("/a"));
    assert!(!has_root("a/"));
    assert!(!has_root(""));
    assert!(same_text("a", "a"));
    assert!(!same_text("a", "b"));
}

#[test]
fn two_paths_with_a_separator_between_them() {
    assert_eq!(texts("a/b/./c"), vec!["a", "b", "c"]);
    for (p, q) in vec![("a", "b"), ("./a", "./b"), ("/", "b"), ("a/", "../b"), ("..", ".")] {
        let both = format!("{}/{}", p, q);
        let mut expected = texts(p);
        expected.extend(texts(q).into_iter().filter(|c| c != "."));
        assert_eq!(texts(&both), expected, "{}", both);
    }
}
