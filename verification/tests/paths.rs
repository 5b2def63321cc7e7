use braindump::paths::{
    is_absolute, join, parent_dir, parent_or_error, path_components, same_path, starts_with_path,
};

fn texts(components: Vec<Vec<char>>) -> Vec<String> {
    components.into_iter().map(|c| c.into_iter().collect()).collect()
}

#[test]
fn joining_follows_the_unix_rules() {
    assert_eq!(join("/home/u", "braindump"), "/home/u/braindump");
    assert_eq!(join("/home/u/", "braindump"), "/home/u/braindump");
    assert_eq!(join("", "notes.md"), "notes.md");
    assert_eq!(join("/home/u", "/abs/n.md"), "/abs/n.md");
    assert!(is_absolute("/x"));
    assert!(!is_absolute("x/y"));
    assert!(!is_absolute(""));
}

#[test]
fn components_drop_empty_and_current_segments() {
    assert_eq!(texts(path_components("/a//b/./c/")), vec!["/", "a", "b", "c"]);
    assert_eq!(texts(path_components("./a/..")), vec![".", "a", ".."]);
    assert_eq!(texts(path_components("a/./b")), vec!["a", "b"]);
    assert_eq!(texts(path_components(".hidden")), vec![".hidden"]);
    assert!(path_components("").is_empty());
    assert_eq!(texts(path_components("//")), vec!["/"]);
}

#[test]
fn paths_compare_by_components() {
    assert!(same_path("/a/b", "/a//b/"));
    assert!(same_path("/a/./b", "/a/b"));
    assert!(!same_path("/a/b", "a/b"));
    assert!(!same_path("/a/b", "/a/c"));
    assert!(!same_path("./a", "a"));
    assert!(starts_with_path("/cfg/braindump/n.md", "/cfg/braindump"));
    assert!(starts_with_path("/cfg/braindump", "/cfg/braindump/"));
    assert!(!starts_with_path("/cfg/braindumpx/n.md", "/cfg/braindump"));
    assert!(!starts_with_path("/cfg", "/cfg/braindump"));
}

#[test]
fn parent_is_what_path_parent_gives() {
    assert_eq!(parent_dir("/tmp/x/file.md"), Ok("/tmp/x".to_string()));
    assert_eq!(parent_dir("/a/b"), Ok("/a".to_string()));
    assert_eq!(parent_dir("/a"), Ok("/".to_string()));
    assert_eq!(parent_dir("notes.md"), Ok(String::new()));
}

#[test]
fn root_and_empty_paths_have_no_parent() {
    assert_eq!(parent_dir("/"), Err("failed to determine parent of /".to_string()));
    assert_eq!(parent_dir(""), Err("failed to determine parent of ".to_string()));
    assert_eq!(
        parent_or_error("x", None),
        Err("failed to determine parent of x".to_string())
    );
    assert_eq!(parent_or_error("x/y", Some("x".to_string())), Ok("x".to_string()));
}
