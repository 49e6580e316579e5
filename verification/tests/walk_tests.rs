use nodian::walk::{assemble_tree, RawListing};

fn row(path: &str, is_dir: bool, entries: Option<&[&str]>) -> RawListing {
    RawListing {
        path: path.to_string(),
        is_dir,
        entries: entries.map(|names| names.iter().map(|n| n.to_string()).collect()),
    }
}

#[test]
fn assembles_nested_tree_in_listing_order() {
    let rows = vec![
        row("/d", true, Some(&["a.md", "sub", "locked"])),
        row("/d/a.md", false, None),
        row("/d/sub", true, Some(&["b.md"])),
        row("/d/sub/b.md", false, None),
        row("/d/locked", true, None),
    ];
    let tree = assemble_tree("/d", &rows);
    assert!(tree.is_dir);
    assert_eq!(tree.path, "/d");
    assert_eq!(tree.name, "d");
    assert_eq!(tree.children.len(), 3);

    assert_eq!(tree.children[0].name, "a.md");
    assert_eq!(tree.children[0].path, "/d/a.md");
    assert!(!tree.children[0].is_dir);
    assert_eq!(tree.children[0].children.len(), 0);

    assert_eq!(tree.children[1].name, "sub");
    assert!(tree.children[1].is_dir);
    assert_eq!(tree.children[1].children.len(), 1);
    assert_eq!(tree.children[1].children[0].path, "/d/sub/b.md");

    // a directory whose read failed is listed with no children
    assert_eq!(tree.children[2].name, "locked");
    assert!(tree.children[2].is_dir);
    assert_eq!(tree.children[2].children.len(), 0);
}

#[test]
fn file_root_is_listed_as_directory() {
    let rows = vec![row("/f.txt", false, None)];
    let tree = assemble_tree("/f.txt", &rows);
    assert!(tree.is_dir);
    assert_eq!(tree.name, "f.txt");
    assert_eq!(tree.children.len(), 0);
}

#[test]
fn entry_without_a_row_is_a_plain_file() {
    let rows = vec![row("/d", true, Some(&["ghost"]))];
    let tree = assemble_tree("/d", &rows);
    assert_eq!(tree.children.len(), 1);
    let child = &tree.children[0];
    assert_eq!(child.name, "ghost");
    assert_eq!(child.path, "/d/ghost");
    assert!(!child.is_dir);
    assert_eq!(child.children.len(), 0);
}

#[test]
fn unvisited_root_has_no_children() {
    let rows: Vec<RawListing> = Vec::new();
    let tree = assemble_tree("/d", &rows);
    assert!(tree.is_dir);
    assert_eq!(tree.children.len(), 0);
}
