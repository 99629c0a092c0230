use simple_fs::path::split_path;

#[test]
fn split_empty_path_is_one_empty_component() {
    assert_eq!(split_path(""), vec![String::new()]);
}

#[test]
fn split_bare_root_is_one_empty_component() {
    assert_eq!(split_path("/"), vec![String::new()]);
}

#[test]
fn split_strips_a_single_leading_separator() {
    assert_eq!(split_path("/a/b"), vec!["a".to_string(), "b".to_string()]);
    assert_eq!(split_path("a/b"), vec!["a".to_string(), "b".to_string()]);
}

#[test]
fn split_keeps_empty_components_literally() {
    assert_eq!(split_path("//a"), vec![String::new(), "a".to_string()]);
    assert_eq!(
        split_path("/a//b"),
        vec!["a".to_string(), String::new(), "b".to_string()]
    );
    assert_eq!(split_path("/a/"), vec!["a".to_string(), String::new()]);
}

#[test]
fn split_single_component() {
    assert_eq!(split_path("/file.txt"), vec!["file.txt".to_string()]);
}
