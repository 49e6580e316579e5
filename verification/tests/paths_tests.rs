use nodian::paths::{file_name, join_path, root_folder_path};

#[test]
fn join_inserts_separator() {
    assert_eq!(join_path("a", "b"), "a/b");
    assert_eq!(join_path("/home/user", "nodian"), "/home/user/nodian");
}

#[test]
fn join_keeps_existing_separator() {
    assert_eq!(join_path("a/", "b"), "a/b");
    assert_eq!(join_path("/", "nodian"), "/nodian");
}

#[test]
fn join_empty_dir_gives_name() {
    assert_eq!(join_path("", "b"), "b");
}

#[test]
fn root_folder_under_home() {
    assert_eq!(root_folder_path(Some("/home/user")), "/home/user/nodian");
}

#[test]
fn root_folder_without_home() {
    assert_eq!(root_folder_path(None), "/nodian");
}

#[test]
fn file_name_after_last_separator() {
    assert_eq!(file_name("x/y.md"), "y.md");
    assert_eq!(file_name("a/b/c"), "c");
}

#[test]
fn file_name_without_separator_is_whole() {
    assert_eq!(file_name("notes.txt"), "notes.txt");
}

#[test]
fn file_name_ignores_trailing_separators_and_dots() {
    assert_eq!(file_name("a/"), "a");
    assert_eq!(file_name("a//"), "a");
    assert_eq!(file_name("a/."), "a");
    assert_eq!(file_name("a/./"), "a");
}

#[test]
fn file_name_empty_for_rootless_paths() {
    assert_eq!(file_name(""), "");
    assert_eq!(file_name("/"), "");
    assert_eq!(file_name("."), "");
    assert_eq!(file_name(".."), "");
    assert_eq!(file_name("a/.."), "");
}

#[test]
fn file_name_keeps_dotted_names() {
    assert_eq!(file_name("x."), "x.");
    assert_eq!(file_name("a/..."), "...");
}

#[test]
fn file_name_multibyte() {
    assert_eq!(file_name("メモ/ノート.md"), "ノート.md");
}
