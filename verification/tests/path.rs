use decster::path::FilePath;

fn p(s: &str) -> FilePath {
    FilePath::new(s)
}

#[test]
fn parse_and_render() {
    assert_eq!(p("/a//b/./c/").to_path_string(), "/a/b/c");
    assert_eq!(p("./a").to_path_string(), "./a");
    assert_eq!(p("a/../b").to_path_string(), "a/../b");
    assert_eq!(p("").len(), 0);
    assert_eq!(p("/").to_path_string(), "/");
}

#[test]
fn join_and_parent() {
    assert_eq!(p("/a").join(&p("b/c")), p("/a/b/c"));
    assert_eq!(p("/a").join(&p("/x")), p("/x"));
    assert_eq!(p("/a/b").parent(), Some(p("/a")));
    assert_eq!(p("").parent(), None);
    assert_eq!(p("/a/b").strip_prefix(&p("/a")), Some(p("b")));
    assert_eq!(p("/a/b").strip_prefix(&p("/c")), None);
}

#[test]
fn ancestors_shortest_first() {
    let a = p("/a/b/c").ancestors();
    let rendered: Vec<String> = a.iter().map(|x| x.to_path_string()).collect();
    assert_eq!(rendered, vec!["/", "/a", "/a/b"]);
    assert!(p("").ancestors().is_empty());
}

#[test]
fn equality() {
    assert!(p("/a/b").path_eq(&p("/a//b/")));
    assert!(!p("/a/b").path_eq(&p("/a/c")));
    assert!(p("/x").has_root());
    assert!(!p("x").has_root());
}
