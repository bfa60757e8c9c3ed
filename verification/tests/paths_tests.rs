use extension_installer::paths::{bytes_eq, join_path, split_components, strip_wrapper};

fn components(path: &str) -> Vec<String> {
    split_components(path.as_bytes())
        .into_iter()
        .map(|part| String::from_utf8(part).unwrap())
        .collect()
}

fn stripped(path: &str) -> Option<String> {
    strip_wrapper(path.as_bytes()).map(|rest| String::from_utf8(rest).unwrap())
}

#[test]
fn components_of_plain_paths() {
    assert_eq!(components("pkg/index.js"), vec!["pkg", "index.js"]);
    assert_eq!(components("a/b/c"), vec!["a", "b", "c"]);
    assert_eq!(components("index.js"), vec!["index.js"]);
    assert_eq!(components(""), Vec::<String>::new());
}

#[test]
fn components_ignore_empty_and_dot_pieces() {
    assert_eq!(components("pkg/"), vec!["pkg"]);
    assert_eq!(components("pkg//lib///a.js"), vec!["pkg", "lib", "a.js"]);
    assert_eq!(components("pkg/./lib/./a.js"), vec!["pkg", "lib", "a.js"]);
    assert_eq!(components("pkg/."), vec!["pkg"]);
}

#[test]
fn components_keep_a_leading_dot_and_the_root() {
    assert_eq!(components("./pkg/a.js"), vec![".", "pkg", "a.js"]);
    assert_eq!(components("."), vec!["."]);
    assert_eq!(components("/pkg/a.js"), vec!["/", "pkg", "a.js"]);
    assert_eq!(components("//pkg"), vec!["/", "pkg"]);
    assert_eq!(components("/"), vec!["/"]);
    assert_eq!(components("/./a"), vec!["/", "a"]);
}

#[test]
fn components_keep_parent_and_dotted_names() {
    assert_eq!(components("pkg/../a"), vec!["pkg", "..", "a"]);
    assert_eq!(components(".hidden/.a"), vec![".hidden", ".a"]);
    assert_eq!(components("a/..."), vec!["a", "..."]);
}

#[test]
fn components_agree_with_std_on_unix_paths() {
    let samples = [
        "", ".", "..", "/", "//", "a", "a/", "/a", "a/b", "./a", "a/./b", "a//b", "a/..", "../a",
        "./", "././a", "/./a", "a/b/", "a/b/.", ".a", "a.", "pkg/index.js", "pkg/lib/../x",
    ];
    for sample in samples {
        let expected: Vec<String> = std::path::Path::new(sample)
            .components()
            .map(|c| c.as_os_str().to_string_lossy().into_owned())
            .collect();
        assert_eq!(components(sample), expected, "path {:?}", sample);
    }
}

#[test]
fn wrapper_directory_is_stripped() {
    assert_eq!(stripped("pkg/index.js"), Some("index.js".to_string()));
    assert_eq!(stripped("package/dist/lib/a.js"), Some("dist/lib/a.js".to_string()));
    assert_eq!(stripped("package//dist/./a.js"), Some("dist/a.js".to_string()));
}

#[test]
fn member_without_payload_is_skipped() {
    assert_eq!(stripped("pkg/"), None);
    assert_eq!(stripped("pkg"), None);
    assert_eq!(stripped("index.js"), None);
    assert_eq!(stripped(""), None);
    assert_eq!(stripped("/"), None);
    assert_eq!(stripped("."), None);
}

#[test]
fn stripping_takes_exactly_one_component() {
    assert_eq!(stripped("/pkg/a.js"), Some("pkg/a.js".to_string()));
    assert_eq!(stripped("./pkg/a.js"), Some("pkg/a.js".to_string()));
    assert_eq!(stripped("pkg/../a.js"), Some("../a.js".to_string()));
}

#[test]
fn stripping_agrees_with_std_on_unix_paths() {
    let samples = ["pkg/index.js", "pkg/", "index.js", "a/b/c", "a//b/./c/", "/a/b", "./a/b", "a/../b"];
    for sample in samples {
        let parts: Vec<_> = std::path::Path::new(sample).components().collect();
        let expected = if parts.len() > 1 {
            let rest: std::path::PathBuf = parts[1..].iter().collect();
            Some(rest.to_string_lossy().into_owned())
        } else {
            None
        };
        assert_eq!(stripped(sample), expected, "path {:?}", sample);
    }
}

#[test]
fn stripping_keeps_bytes_that_are_not_text() {
    let path = [b'p', b'/', 0xff, 0xfe, b'/', b'x'];
    assert_eq!(strip_wrapper(&path), Some(vec![0xff, 0xfe, b'/', b'x']));
}

#[test]
fn join_adds_one_separator() {
    assert_eq!(join_path("/ext/foo", "index.js"), "/ext/foo/index.js");
    assert_eq!(join_path("/ext/foo/", "index.js"), "/ext/foo/index.js");
    assert_eq!(join_path("ext", "dist/index.js"), "ext/dist/index.js");
}

#[test]
fn join_of_edge_cases() {
    assert_eq!(join_path("", "index.js"), "index.js");
    assert_eq!(join_path("/ext/foo", ""), "/ext/foo/");
    assert_eq!(join_path("", ""), "");
    assert_eq!(join_path("/", "a"), "/a");
    assert_eq!(join_path("/ext/foo", "/abs/index.js"), "/abs/index.js");
}

#[test]
fn join_agrees_with_std_on_unix_paths() {
    let bases = ["", "/", "a", "a/", "/ext/foo", "über"];
    let tails = ["", "b", "b/c", "/b", "./b", "é.js"];
    for base in bases {
        for tail in tails {
            let expected = std::path::Path::new(base).join(tail).to_string_lossy().into_owned();
            assert_eq!(join_path(base, tail), expected, "{:?} with {:?}", base, tail);
        }
    }
}

#[test]
fn bytes_compare_by_content() {
    assert!(bytes_eq(b"", b""));
    assert!(bytes_eq(b"abc", b"abc"));
    assert!(!bytes_eq(b"abc", b"abd"));
    assert!(!bytes_eq(b"abc", b"ab"));
    assert!(!bytes_eq(b"", b"a"));
}
