use folder_tree::folder::{File, Folder};
use folder_tree::session::FolderState;

#[test]
fn new_state_is_at_root_with_no_file_open() {
    let state = FolderState::new();
    assert_eq!(state.current_folder, "root");
    assert!(state.current_file_name.is_none());
}

#[test]
fn create_file_names_files_in_sequence() {
    let mut root = Folder::default();
    let state = FolderState::new();
    assert!(state.create_file(&mut root));
    assert!(state.create_file(&mut root));
    assert_eq!(root.files.len(), 2);
    assert_eq!(root.files[0].name, "file1.txt");
    assert_eq!(root.files[1].name, "file2.txt");
    assert_eq!(root.get_file("file2.txt").unwrap().content, "");
}

#[test]
fn create_file_after_a_deletion_overwrites_the_last_name() {
    let mut root = Folder::default();
    let mut state = FolderState::new();
    state.create_file(&mut root);
    state.create_file(&mut root);
    state.open_file(&root, "file1.txt");
    state.delete_file(&mut root);
    root.get_file_mut("file2.txt").unwrap().content = "kept?".to_string();
    state.create_file(&mut root);
    assert_eq!(root.files.len(), 1);
    assert_eq!(root.get_file("file2.txt").unwrap().content, "");
}

#[test]
fn create_folder_sets_parent_name() {
    let mut root = Folder::default();
    let state = FolderState::new();
    assert!(state.create_folder(&mut root));
    assert!(state.create_folder(&mut root));
    assert_eq!(root.subfolders[0].name, "folder 1");
    assert_eq!(root.subfolders[1].name, "folder 2");
    assert_eq!(root.subfolders[0].parent_name.as_deref(), Some("root"));
}

#[test]
fn create_in_a_missing_folder_does_nothing() {
    let mut root = Folder::default();
    let mut state = FolderState::new();
    state.open_folder(&root, "ghost");
    assert!(!state.create_file(&mut root));
    assert!(!state.create_folder(&mut root));
    assert!(root.files.is_empty());
    assert!(root.subfolders.is_empty());
}

#[test]
fn open_folder_and_go_back() {
    let mut root = Folder::default();
    let mut state = FolderState::new();
    state.create_folder(&mut root);

    assert_eq!(state.open_folder(&root, "folder 1"), Some("root/folder 1".to_string()));
    assert_eq!(state.current_folder, "folder 1");

    state.create_folder(&mut root);
    assert_eq!(state.open_folder(&root, "folder 1"), Some("root/folder 1".to_string()));
    assert_eq!(root.find_folder("folder 1").unwrap().subfolders.len(), 1);

    assert_eq!(state.go_back(&root), Some("root".to_string()));
    assert_eq!(state.current_folder, "root");

    assert_eq!(state.go_back(&root), None);
    assert_eq!(state.current_folder, "root");
}

#[test]
fn open_missing_folder_still_moves_the_cursor() {
    let root = Folder::default();
    let mut state = FolderState::new();
    assert_eq!(state.open_folder(&root, "nowhere"), None);
    assert_eq!(state.current_folder, "nowhere");
    assert_eq!(state.go_back(&root), None);
    assert_eq!(state.current_folder, "nowhere");
}

#[test]
fn deeper_paths_through_the_session() {
    let mut root = Folder::default();
    let mut state = FolderState::new();
    state.create_folder(&mut root);
    state.open_folder(&root, "folder 1");
    let mut inner = Folder::new("inner", Some("folder 1".to_string()));
    inner.add_file(File::new("x.txt".to_string()));
    root.find_folder_mut("folder 1").unwrap().add_subfolder(inner);
    assert_eq!(state.open_folder(&root, "inner"), Some("root/folder 1/inner".to_string()));
    assert_eq!(state.go_back(&root), Some("root/folder 1".to_string()));
    assert_eq!(state.current_folder, "folder 1");
}

#[test]
fn open_edit_save_and_reopen() {
    let mut root = Folder::default();
    let mut state = FolderState::new();
    state.create_file(&mut root);

    let opened = state.open_file(&root, "file1.txt").unwrap();
    assert_eq!(opened.content, "");
    assert_eq!(state.current_file_name.as_deref(), Some("file1.txt"));

    state.save_file(&mut root, "some text\n".to_string());
    assert!(state.current_file_name.is_none());
    assert_eq!(root.get_file("file1.txt").unwrap().content, "some text\n");

    assert_eq!(state.open_file(&root, "file1.txt").unwrap().content, "some text\n");
}

#[test]
fn open_missing_file_changes_nothing() {
    let mut root = Folder::default();
    let mut state = FolderState::new();
    state.create_file(&mut root);
    assert!(state.open_file(&root, "nope.txt").is_none());
    assert!(state.current_file_name.is_none());
}

#[test]
fn save_without_open_file_only_closes() {
    let mut root = Folder::default();
    let mut state = FolderState::new();
    state.create_file(&mut root);
    state.save_file(&mut root, "ignored".to_string());
    assert_eq!(root.get_file("file1.txt").unwrap().content, "");
    assert!(state.current_file_name.is_none());
}

#[test]
fn cancel_closes_without_saving() {
    let mut root = Folder::default();
    let mut state = FolderState::new();
    state.create_file(&mut root);
    state.open_file(&root, "file1.txt");
    state.cancel();
    assert!(state.current_file_name.is_none());
    assert_eq!(root.get_file("file1.txt").unwrap().content, "");
}

#[test]
fn delete_open_file_then_open_finds_nothing() {
    let mut root = Folder::default();
    let mut state = FolderState::new();
    state.create_folder(&mut root);
    state.open_folder(&root, "folder 1");
    state.create_file(&mut root);
    assert!(state.open_file(&root, "file1.txt").is_some());

    state.delete_file(&mut root);
    assert!(state.current_file_name.is_none());
    assert!(state.open_file(&root, "file1.txt").is_none());
    assert!(root.find_folder("folder 1").unwrap().get_file("file1.txt").is_none());
}

#[test]
fn delete_without_open_file_does_nothing() {
    let mut root = Folder::default();
    let mut state = FolderState::new();
    state.create_file(&mut root);
    state.delete_file(&mut root);
    assert_eq!(root.files.len(), 1);
}
