use h5nav::path::{relative_child_name, H5Path};

#[test]
fn from_str_absolute_splits_components() {
    let p = H5Path::from_str("/a/b/c");
    assert!(p.absolute);
    assert_eq!(p.comps, vec!["a".to_string(), "b".to_string(), "c".to_string()]);
}

#[test]
fn from_str_relative_and_empty_segments() {
    let p = H5Path::from_str("a//b/");
    assert!(!p.absolute);
    assert_eq!(p.comps, vec!["a".to_string(), "b".to_string()]);
}

#[test]
fn root_path_is_root() {
    let p = H5Path::from_str("/");
    assert!(p.absolute);
    assert!(p.is_root());
    assert_eq!(p.depth(), 0);
    assert!(p.file_name().is_none());
}

#[test]
fn push_and_pop_walk_the_path() {
    let mut p = H5Path::root();
    p.push("data".to_string());
    p.push("x".to_string());
    assert_eq!(p.depth(), 2);
    assert_eq!(p.file_name().unwrap(), "x");
    assert!(p.pop());
    assert_eq!(p.file_name().unwrap(), "data");
    assert!(p.pop());
    assert!(!p.pop());
    assert!(p.is_root());
}

#[test]
fn relative_child_name_direct_child() {
    let parent = H5Path::from_str("/a");
    let child = H5Path::from_str("/a/b");
    assert_eq!(relative_child_name(&parent, &child), Some("b".to_string()));
}

#[test]
fn relative_child_name_root_child() {
    let parent = H5Path::from_str("/");
    let child = H5Path::from_str("/a");
    assert_eq!(relative_child_name(&parent, &child), Some("a".to_string()));
}

#[test]
fn relative_child_name_round_trip() {
    // The law in miniature: join then split gives the name back; anything
    // deeper or divergent gives nothing.
    let parent = H5Path::from_str("/a/b");
    let mut joined = H5Path::from_str("/a/b");
    joined.push("c".to_string());
    assert_eq!(relative_child_name(&parent, &joined), Some("c".to_string()));
}

#[test]
fn relative_child_name_too_deep() {
    let parent = H5Path::from_str("/a");
    let child = H5Path::from_str("/a/b/c");
    assert_eq!(relative_child_name(&parent, &child), None);
}

#[test]
fn relative_child_name_not_descendant() {
    let parent = H5Path::from_str("/x");
    let child = H5Path::from_str("/a/b");
    assert_eq!(relative_child_name(&parent, &child), None);
}

#[test]
fn relative_child_name_mixed_anchoring() {
    let parent = H5Path::from_str("/");
    let child = H5Path::from_str("a");
    assert_eq!(relative_child_name(&parent, &child), None);
}

#[test]
fn relative_child_name_equal_paths() {
    let parent = H5Path::from_str("/a");
    let child = H5Path::from_str("/a");
    assert_eq!(relative_child_name(&parent, &child), None);
}
