use yart::xml_util::ElementPath;

#[test]
fn test_match() {
    let element_path = ElementPath::Empty.push("project").push("modules");
    assert!(element_path.matches(&["project", "modules"]));
    assert!(!element_path.matches(&["modules", "project"]));
}

#[test]
fn pop_discards_the_leaf_and_keeps_empty_paths_empty() {
    let path = ElementPath::Empty.push("a").push("b").pop();
    assert!(path.matches(&["a"]));
    assert!(!path.matches(&["a", "b"]));
    assert!(ElementPath::Empty.pop().matches(&[]));
    assert!(!ElementPath::Empty.push("A").matches(&["a"]));
}
