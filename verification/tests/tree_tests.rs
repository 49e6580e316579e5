use nodian::errors::{missing_path_error, NodianError};
use nodian::tree::FileNode;

#[test]
fn leaf_has_no_children() {
    let n = FileNode::leaf("a.md".to_string(), "/root/a.md".to_string());
    assert_eq!(n.name, "a.md");
    assert_eq!(n.path, "/root/a.md");
    assert!(!n.is_dir);
    assert_eq!(n.children.len(), 0);
}

#[test]
fn directory_keeps_one_child_per_entry() {
    let children = vec![
        FileNode::leaf("a.md".to_string(), "/d/a.md".to_string()),
        FileNode::leaf("b.md".to_string(), "/d/b.md".to_string()),
        FileNode::directory("sub".to_string(), "/d/sub".to_string(), Vec::new()),
    ];
    let n = FileNode::directory("d".to_string(), "/d".to_string(), children);
    assert!(n.is_dir);
    assert_eq!(n.children.len(), 3);
    assert_eq!(n.children[0].name, "a.md");
    assert_eq!(n.children[1].name, "b.md");
    assert_eq!(n.children[2].name, "sub");
    assert!(n.children[2].is_dir);
}

#[test]
fn unreadable_directory_is_listed_empty() {
    let n = FileNode::directory("d".to_string(), "/d".to_string(), Vec::new());
    assert!(n.is_dir);
    assert_eq!(n.children.len(), 0);
}

#[test]
fn missing_path_error_is_not_found() {
    let e = missing_path_error("/nope");
    match &e {
        NodianError::NotFound(m) => assert_eq!(m.as_str(), "Path does not exist: /nope"),
        _ => panic!("wrong class"),
    }
    assert_eq!(e.message().as_str(), "Path does not exist: /nope");
}

#[test]
fn error_messages_by_class() {
    assert_eq!(
        NodianError::IoFailure("denied".to_string()).message().as_str(),
        "denied"
    );
    assert_eq!(
        NodianError::PersistenceFailure("locked".to_string()).message().as_str(),
        "locked"
    );
    assert_eq!(
        NodianError::ClipboardUnavailable("empty".to_string()).message().as_str(),
        "empty"
    );
}
