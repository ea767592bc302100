use folder_tree::folder::{File, Folder};
use folder_tree::naming::{decimal_string, next_file_name, next_folder_name};

fn file(name: &str, content: &str) -> File {
    File { name: name.to_string(), content: content.to_string() }
}

/// root -> subfolder -> file4.txt
fn sample_tree() -> Folder {
    let mut root = Folder::default();
    let mut sub = Folder::new("subfolder", Some("root".to_string()));
    sub.add_file(file("file4.txt", "hello"));
    root.add_subfolder(sub);
    root
}

#[test]
fn subfolder_path_and_file_deletion() {
    let mut root = sample_tree();
    let path = root.find_folder("subfolder").unwrap().get_path(&root);
    assert_eq!(path, "root/subfolder");

    let sub = root.find_folder_mut("subfolder").unwrap();
    let removed = sub.remove_file("file4.txt");
    assert_eq!(removed.unwrap().content, "hello");
    assert!(sub.get_file("file4.txt").is_none());
    assert!(root.find_folder("subfolder").unwrap().get_file("file4.txt").is_none());
}

#[test]
fn default_folder_is_root_without_parent() {
    let root = Folder::default();
    assert_eq!(root.name, "root");
    assert!(root.parent_name.is_none());
    assert!(root.files.is_empty());
    assert!(root.subfolders.is_empty());
}

#[test]
fn new_file_is_empty() {
    let f = File::new("notes.txt".to_string());
    assert_eq!(f.name, "notes.txt");
    assert_eq!(f.content, "");
}

#[test]
fn add_file_with_existing_name_overwrites() {
    let mut folder = Folder::new("docs", None);
    folder.add_file(file("a.txt", "first"));
    folder.add_file(file("b.txt", "other"));
    folder.add_file(file("a.txt", "second"));
    assert_eq!(folder.files.len(), 2);
    assert_eq!(folder.get_file("a.txt").unwrap().content, "second");
    assert_eq!(folder.files[0].name, "a.txt");
    assert_eq!(folder.files[1].name, "b.txt");
}

#[test]
fn add_subfolder_with_existing_name_overwrites_subtree() {
    let mut root = Folder::default();
    let mut old = Folder::new("music", Some("root".to_string()));
    old.add_subfolder(Folder::new("deep", Some("music".to_string())));
    root.add_subfolder(old);
    assert!(root.find_folder("deep").is_some());

    root.add_subfolder(Folder::new("music", Some("root".to_string())));
    assert_eq!(root.subfolders.len(), 1);
    assert!(root.get_subfolder("music").unwrap().subfolders.is_empty());
    assert!(root.find_folder("deep").is_none());
}

#[test]
fn get_file_does_not_search_subfolders() {
    let root = sample_tree();
    assert!(root.get_file("file4.txt").is_none());
    assert!(root.get_subfolder("subfolder").unwrap().get_file("file4.txt").is_some());
    assert!(root.get_subfolder("missing").is_none());
}

#[test]
fn get_file_mut_changes_content_in_place() {
    let mut folder = Folder::new("docs", None);
    folder.add_file(file("a.txt", ""));
    folder.get_file_mut("a.txt").unwrap().content = "written".to_string();
    assert_eq!(folder.get_file("a.txt").unwrap().content, "written");
    assert!(folder.get_file_mut("b.txt").is_none());
}

#[test]
fn remove_missing_file_changes_nothing() {
    let mut folder = Folder::new("docs", None);
    folder.add_file(file("a.txt", "x"));
    assert!(folder.remove_file("b.txt").is_none());
    assert_eq!(folder.files.len(), 1);
}

#[test]
fn remove_subfolder_takes_its_subtree() {
    let mut root = sample_tree();
    let removed = root.remove_subfolder("subfolder").unwrap();
    assert_eq!(removed.name, "subfolder");
    assert_eq!(removed.files.len(), 1);
    assert!(root.find_folder("subfolder").is_none());
    assert!(root.remove_subfolder("subfolder").is_none());
}

#[test]
fn find_folder_reaches_every_depth() {
    let mut root = Folder::default();
    root.add_subfolder(Folder::new("a", Some("root".to_string())));
    root.find_folder_mut("a").unwrap().add_subfolder(Folder::new("b", Some("a".to_string())));
    root.find_folder_mut("b").unwrap().add_subfolder(Folder::new("c", Some("b".to_string())));
    root.find_folder_mut("c").unwrap().add_file(file("leaf.txt", "deep"));

    assert_eq!(root.find_folder("root").unwrap().name, "root");
    assert_eq!(root.find_folder("a").unwrap().name, "a");
    assert_eq!(root.find_folder("b").unwrap().name, "b");
    let c = root.find_folder("c").unwrap();
    assert_eq!(c.get_file("leaf.txt").unwrap().content, "deep");
    assert!(root.find_folder("d").is_none());
}

#[test]
fn find_folder_takes_the_first_in_depth_first_order() {
    let mut root = Folder::default();
    let mut a = Folder::new("a", Some("root".to_string()));
    let mut twin_deep = Folder::new("twin", Some("a".to_string()));
    twin_deep.add_file(file("deep.txt", ""));
    a.add_subfolder(twin_deep);
    root.add_subfolder(a);
    let mut twin_top = Folder::new("twin", Some("root".to_string()));
    twin_top.add_file(file("top.txt", ""));
    root.add_subfolder(twin_top);

    let found = root.find_folder("twin").unwrap();
    assert!(found.get_file("deep.txt").is_some());
    assert!(found.get_file("top.txt").is_none());
}

#[test]
fn find_folder_mut_writes_into_the_tree() {
    let mut root = sample_tree();
    root.find_folder_mut("subfolder").unwrap().add_file(file("new.txt", "n"));
    let sub = root.find_folder("subfolder").unwrap();
    assert_eq!(sub.files.len(), 2);
    assert_eq!(sub.get_file("new.txt").unwrap().content, "n");
    assert!(root.find_folder_mut("missing").is_none());
}

#[test]
fn get_path_has_one_segment_per_level() {
    let mut root = Folder::default();
    root.add_subfolder(Folder::new("a", Some("root".to_string())));
    root.find_folder_mut("a").unwrap().add_subfolder(Folder::new("b", Some("a".to_string())));
    root.find_folder_mut("b").unwrap().add_subfolder(Folder::new("c", Some("b".to_string())));

    assert_eq!(root.get_path(&root), "root");
    assert_eq!(root.find_folder("a").unwrap().get_path(&root), "root/a");
    assert_eq!(root.find_folder("b").unwrap().get_path(&root), "root/a/b");
    let path = root.find_folder("c").unwrap().get_path(&root);
    assert_eq!(path, "root/a/b/c");
    assert_eq!(path.split('/').count(), 4);
}

#[test]
fn get_path_stops_at_an_unknown_parent() {
    let root = Folder::default();
    let orphan = Folder::new("orphan", Some("nowhere".to_string()));
    assert_eq!(orphan.get_path(&root), "orphan");
}

#[test]
fn decimal_numbers() {
    assert_eq!(decimal_string(0), "0");
    assert_eq!(decimal_string(7), "7");
    assert_eq!(decimal_string(10), "10");
    assert_eq!(decimal_string(1234567890), "1234567890");
    assert_eq!(decimal_string(u128::MAX), u128::MAX.to_string());
}

#[test]
fn generated_names() {
    assert_eq!(next_file_name(0), "file1.txt");
    assert_eq!(next_file_name(9), "file10.txt");
    assert_eq!(next_folder_name(0), "folder 1");
    assert_eq!(next_folder_name(41), "folder 42");
    assert_eq!(next_file_name(usize::MAX), format!("file{}.txt", usize::MAX as u128 + 1));
}
