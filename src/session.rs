//! Where a user is in the folder tree: the folder on screen and the file
//! open in the editor, if any. Each operation takes the tree explicitly.
use vstd::prelude::*;
use vstd::string::StringExecFns;
use crate::folder::{File, Folder, option_view, lemma_subfolder_views};
use crate::model::{
    FileView, FolderView, lemma_find_named, lemma_find_wf, lemma_replace_found_wf,
    lemma_with_file_wf, lemma_with_subfolder_wf, lemma_replace_found_self,
};
use crate::naming::{file_name, folder_name, next_file_name, next_folder_name};

verus! {

/// The navigation cursor: the name of the folder on screen and the name of
/// the file open in the editor.
pub struct FolderState {
    pub current_folder: String,
    pub current_file_name: Option<String>,
}

/// The parent name of the folder that the search gives for `cur`.
pub open spec fn parent_of(root: FolderView, cur: Seq<char>) -> Option<Seq<char>> {
    match root.find(cur) {
        Some(c) => c.parent_name,
        None => None,
    }
}

/// The path shown for the folder named `n`, if the search finds one.
pub open spec fn shown_path(root: FolderView, n: Seq<char>) -> Option<Seq<char>> {
    match root.find(n) {
        Some(q) => Some(root.path(q)),
        None => None,
    }
}

/// Whether the path of the folder named `n` can be worked out: following
/// parent names from it comes to an end.
pub open spec fn path_ends(root: FolderView, n: Seq<char>) -> bool {
    root.find(n) matches Some(q) ==> root.has_path(q)
}

/// The file named `n` in the folder the search gives for `cur`.
pub open spec fn file_in(root: FolderView, cur: Seq<char>, n: Seq<char>) -> Option<FileView> {
    match root.find(cur) {
        Some(c) => c.file(n),
        None => None,
    }
}

/// The tree after a new empty file is made in the folder named `cur`.
pub open spec fn tree_with_new_file(root: FolderView, cur: Seq<char>) -> FolderView {
    match root.find(cur) {
        Some(c) => root.replace_found(
            cur,
            c.with_file(FileView { name: file_name(c.files.len() + 1), content: Seq::empty() }),
        ),
        None => root,
    }
}

/// The tree after a new empty folder is made in the folder named `cur`.
pub open spec fn tree_with_new_folder(root: FolderView, cur: Seq<char>) -> FolderView {
    match root.find(cur) {
        Some(c) => root.replace_found(
            cur,
            c.with_subfolder(FolderView::empty(folder_name(c.subfolders.len() + 1), Some(cur))),
        ),
        None => root,
    }
}

/// The tree after the text of the file `n` in the folder `cur` is set to
/// `text`; unchanged where there is no such file.
pub open spec fn tree_with_saved(
    root: FolderView,
    cur: Seq<char>,
    n: Option<Seq<char>>,
    text: Seq<char>,
) -> FolderView {
    match (root.find(cur), n) {
        (Some(c), Some(n)) => if c.has_file(n) {
            root.replace_found(cur, c.with_file(FileView { name: n, content: text }))
        } else {
            root
        },
        _ => root,
    }
}

/// The tree after the file `n` is deleted from the folder `cur`.
pub open spec fn tree_without_file(root: FolderView, cur: Seq<char>, n: Option<Seq<char>>) -> FolderView {
    match (root.find(cur), n) {
        (Some(c), Some(n)) => root.replace_found(cur, c.without_file(n)),
        _ => root,
    }
}

impl FolderState {
    /// At the top folder, `root`, with no file open.
    pub fn new() -> (r: FolderState)
        ensures
            r.current_folder@ == seq!['r', 'o', 'o', 't'],
            r.current_file_name is None,
    {
        proof {
            reveal_strlit("root");
        }
        FolderState { current_folder: String::from_str("root"), current_file_name: None }
    }

    /// Goes up to the parent of the current folder and returns the path of
    /// the folder now shown. Nothing changes where the current folder is not
    /// found or has no parent name.
    pub fn go_back(&mut self, root: &Folder) -> (r: Option<String>)
        requires
            parent_of(root@, old(self).current_folder@) matches Some(p) ==> path_ends(root@, p),
        ensures
            match parent_of(root@, old(self).current_folder@) {
                Some(p) => {
                    &&& final(self).current_folder@ == p
                    &&& option_view(r) == shown_path(root@, p)
                },
                None => {
                    &&& final(self).current_folder == old(self).current_folder
                    &&& r is None
                },
            },
            final(self).current_file_name == old(self).current_file_name,
    {
        match root.find_folder(self.current_folder.as_str()) {
            Some(current) => match &current.parent_name {
                Some(parent) => {
                    self.current_folder = parent.clone();
                    match root.find_folder(parent.as_str()) {
                        Some(q) => Some(q.get_path(root)),
                        None => None,
                    }
                },
                None => None,
            },
            None => None,
        }
    }

    /// Makes the folder named `name` current and returns its path. The name
    /// becomes current even where no folder bears it; then no path comes back.
    pub fn open_folder(&mut self, root: &Folder, name: &str) -> (r: Option<String>)
        requires
            path_ends(root@, name@),
        ensures
            final(self).current_folder@ == name@,
            option_view(r) == shown_path(root@, name@),
            final(self).current_file_name == old(self).current_file_name,
    {
        self.current_folder = String::from_str(name);
        match root.find_folder(name) {
            Some(q) => Some(q.get_path(root)),
            None => None,
        }
    }

    /// Opens the file named `name` of the current folder for editing and
    /// returns it. Nothing changes where there is no such file.
    pub fn open_file<'a>(&mut self, root: &'a Folder, name: &str) -> (r: Option<&'a File>)
        requires
            root@.wf(),
        ensures
            match file_in(root@, old(self).current_folder@, name@) {
                Some(f) => {
                    &&& r matches Some(x) && x@ == f
                    &&& option_view(final(self).current_file_name) == Some(name@)
                },
                None => {
                    &&& r is None
                    &&& final(self).current_file_name == old(self).current_file_name
                },
            },
            final(self).current_folder == old(self).current_folder,
    {
        proof {
            lemma_find_wf(root@, self.current_folder@);
        }
        match root.find_folder(self.current_folder.as_str()) {
            Some(folder) => match folder.get_file(name) {
                Some(file) => {
                    proof {
                        lemma_find_named(root@, self.current_folder@);
                    }
                    self.current_file_name = Some(file.name.clone());
                    Some(file)
                },
                None => None,
            },
            None => None,
        }
    }

    /// Makes an empty file in the current folder, named `file{n}.txt` where
    /// `n` is one more than the number of files already there. Returns
    /// whether the current folder was found.
    pub fn create_file(&self, root: &mut Folder) -> (r: bool)
        requires
            old(root)@.wf(),
        ensures
            final(root)@ == tree_with_new_file(old(root)@, self.current_folder@),
            final(root)@.wf(),
            r == old(root)@.contains(self.current_folder@),
    {
        let ghost v = root@;
        let ghost cur = self.current_folder@;
        proof {
            lemma_find_wf(v, cur);
            lemma_find_named(v, cur);
        }
        match root.find_folder_mut(self.current_folder.as_str()) {
            Some(folder) => {
                let name = next_file_name(folder.files.len());
                let file = File::new(name);
                folder.add_file(file);
                proof {
                    lemma_replace_found_wf(v, cur, final(folder)@);
                }
                true
            },
            None => false,
        }
    }

    /// Makes an empty folder in the current folder, named `folder {n}` where
    /// `n` is one more than the number of subfolders already there; its parent
    /// name is the current folder's. Returns whether the current folder was
    /// found.
    pub fn create_folder(&self, root: &mut Folder) -> (r: bool)
        requires
            old(root)@.wf(),
        ensures
            final(root)@ == tree_with_new_folder(old(root)@, self.current_folder@),
            final(root)@.wf(),
            r == old(root)@.contains(self.current_folder@),
    {
        let ghost v = root@;
        let ghost cur = self.current_folder@;
        proof {
            lemma_find_wf(v, cur);
            lemma_find_named(v, cur);
        }
        match root.find_folder_mut(self.current_folder.as_str()) {
            Some(folder) => {
                proof {
                    lemma_subfolder_views(&*folder);
                }
                let name = next_folder_name(folder.subfolders.len());
                let sub = Folder::new(name.as_str(), Some(self.current_folder.clone()));
                folder.add_subfolder(sub);
                proof {
                    lemma_replace_found_wf(v, cur, final(folder)@);
                }
                true
            },
            None => false,
        }
    }

    /// Saves `text` as the content of the open file and closes the editor.
    pub fn save_file(&mut self, root: &mut Folder, text: String)
        requires
            old(root)@.wf(),
        ensures
            final(root)@ == tree_with_saved(
                old(root)@,
                old(self).current_folder@,
                option_view(old(self).current_file_name),
                text@,
            ),
            final(root)@.wf(),
            final(self).current_folder == old(self).current_folder,
            final(self).current_file_name is None,
    {
        let ghost v = root@;
        let ghost cur = self.current_folder@;
        proof {
            lemma_find_wf(v, cur);
            lemma_find_named(v, cur);
        }
        proof {
            lemma_replace_found_self(v, cur);
        }
        match &self.current_file_name {
            Some(file_name) => match root.find_folder_mut(self.current_folder.as_str()) {
                Some(folder) => {
                    let ghost c = folder@;
                    match folder.get_file_mut(file_name.as_str()) {
                        Some(file) => {
                            proof {
                                let k = c.file_index(file_name@);
                                assert(c.files[k].name == file_name@);
                                lemma_with_file_wf(c, FileView { name: file_name@, content: text@ });
                            }
                            file.content = text;
                        },
                        None => {},
                    }
                    proof {
                        lemma_replace_found_wf(v, cur, final(folder)@);
                    }
                },
                None => {},
            },
            None => {},
        }
        self.current_file_name = None;
    }

    /// Closes the editor without saving.
    pub fn cancel(&mut self)
        ensures
            final(self).current_folder == old(self).current_folder,
            final(self).current_file_name is None,
    {
        self.current_file_name = None;
    }

    /// Deletes the open file from the current folder and closes the editor.
    /// Nothing is deleted where no file is open.
    pub fn delete_file(&mut self, root: &mut Folder)
        requires
            old(root)@.wf(),
        ensures
            final(root)@ == tree_without_file(
                old(root)@,
                old(self).current_folder@,
                option_view(old(self).current_file_name),
            ),
            final(root)@.wf(),
            final(self).current_folder == old(self).current_folder,
            final(self).current_file_name is None,
    {
        let ghost v = root@;
        let ghost cur = self.current_folder@;
        proof {
            lemma_find_wf(v, cur);
            lemma_find_named(v, cur);
        }
        match &self.current_file_name {
            Some(file_name) => match root.find_folder_mut(self.current_folder.as_str()) {
                Some(folder) => {
                    folder.remove_file(file_name.as_str());
                    proof {
                        lemma_replace_found_wf(v, cur, final(folder)@);
                    }
                },
                None => {},
            },
            None => {},
        }
        self.current_file_name = None;
    }
}

} // verus!
