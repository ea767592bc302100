//! Folders and files held in memory.
use vstd::prelude::*;
use vstd::string::StringExecFns;
use crate::model::{
    FileView, FolderView, lemma_with_file_wf, lemma_without_file_wf, lemma_with_file_stored,
    lemma_with_subfolder_stored, lemma_with_subfolder_wf,
    lemma_without_subfolder_wf, lemma_skip_unfound,
};

verus! {

/// A named leaf holding text.
pub struct File {
    pub name: String,
    pub content: String,
}

/// A named folder that owns its files and subfolders. `parent_name` names the
/// folder it was created in; it is a name, not a link.
pub struct Folder {
    pub name: String,
    pub parent_name: Option<String>,
    pub files: Vec<File>,
    pub subfolders: Vec<Folder>,
}

impl View for File {
    type V = FileView;

    open spec fn view(&self) -> FileView {
        FileView { name: self.name@, content: self.content@ }
    }
}

/// The view of a file that may be absent.
pub open spec fn file_option_view(o: Option<File>) -> Option<FileView> {
    match o {
        Some(f) => Some(f@),
        None => None,
    }
}

/// The view of a folder that may be absent.
pub open spec fn folder_option_view(o: Option<Folder>) -> Option<FolderView> {
    match o {
        Some(f) => Some(f@),
        None => None,
    }
}

/// The view of a name that may be absent.
pub open spec fn option_view(o: Option<String>) -> Option<Seq<char>> {
    match o {
        Some(s) => Some(s@),
        None => None,
    }
}

/// The views of a sequence of folders, one for one.
pub open spec fn folder_views(s: Seq<Folder>) -> Seq<FolderView>
    decreases s,
{
    if s.len() == 0 {
        Seq::empty()
    } else {
        folder_views(s.drop_last()).push(s.last().view())
    }
}

impl View for Folder {
    type V = FolderView;

    open spec fn view(&self) -> FolderView
        decreases self,
    {
        FolderView {
            name: self.name@,
            parent_name: option_view(self.parent_name),
            files: self.files@.map_values(|f: File| f@),
            subfolders: folder_views(self.subfolders@),
        }
    }
}

/// `folder_views` keeps length and position.
pub proof fn lemma_folder_views(s: Seq<Folder>)
    ensures
        folder_views(s).len() == s.len(),
        forall|i: int| 0 <= i < s.len() ==> #[trigger] folder_views(s)[i] == s[i]@,
    decreases s.len(),
{
    reveal_with_fuel(folder_views, 2);
    if s.len() > 0 {
        lemma_folder_views(s.drop_last());
    }
}

/// Replacing one folder and then viewing is viewing and then replacing.
pub proof fn lemma_folder_views_update(s: Seq<Folder>, i: int, x: Folder)
    requires
        0 <= i < s.len(),
    ensures
        folder_views(s.update(i, x)) == folder_views(s).update(i, x@),
{
    lemma_folder_views(s);
    lemma_folder_views(s.update(i, x));
    assert(folder_views(s.update(i, x)) =~= folder_views(s).update(i, x@));
}

/// The view of a folder lists the views of its subfolders, one for one.
pub proof fn lemma_subfolder_views(f: &Folder)
    ensures
        f@.subfolders.len() == f.subfolders@.len(),
        forall|i: int| 0 <= i < f.subfolders@.len() ==> #[trigger] f@.subfolders[i] == f.subfolders@[i]@,
{
    lemma_folder_views(f.subfolders@);
}

/// Replacing one file and then viewing is viewing and then replacing.
pub proof fn lemma_file_views_update(s: Seq<File>, i: int, x: File)
    requires
        0 <= i < s.len(),
    ensures
        s.update(i, x).map_values(|f: File| f@) == s.map_values(|f: File| f@).update(i, x@),
{
    assert(s.update(i, x).map_values(|f: File| f@) =~= s.map_values(|f: File| f@).update(i, x@));
}

impl File {
    /// An empty file.
    pub fn new(name: String) -> (r: File)
        ensures
            r@ == (FileView { name: name@, content: Seq::empty() }),
    {
        File { name, content: String::new() }
    }
}

impl Default for Folder {
    /// The top folder of a new tree: `root`, without a parent.
    fn default() -> (r: Folder)
        ensures
            r@ == FolderView::empty(seq!['r', 'o', 'o', 't'], None),
            r@.wf(),
    {
        let r = Folder::new("root", None);
        proof {
            reveal_strlit("root");
            assert(r@.name =~= seq!['r', 'o', 'o', 't']);
        }
        r
    }
}

impl Folder {
    /// An empty folder.
    pub fn new(name: &str, parent_name: Option<String>) -> (r: Folder)
        ensures
            r@ == FolderView::empty(name@, option_view(parent_name)),
            r@.wf(),
    {
        let r = Folder {
            name: String::from_str(name),
            parent_name,
            files: Vec::new(),
            subfolders: Vec::new(),
        };
        assert(r@.files =~= Seq::<FileView>::empty());
        assert(r@.subfolders =~= Seq::<FolderView>::empty());
        r
    }

    /// Stores `file` under its name. A file of the same name is overwritten:
    /// the last write wins and no error is raised.
    pub fn add_file(&mut self, file: File)
        requires
            old(self)@.wf(),
        ensures
            final(self)@ == old(self)@.with_file(file@),
            final(self)@.wf(),
            final(self)@.file(file@.name) == Some(file@),
            old(self)@.has_file(file@.name) ==> final(self)@.files.len() == old(self)@.files.len(),
    {
        let ghost v = self@;
        proof {
            lemma_subfolder_views(self);
            lemma_with_file_wf(v, file@);
        }
        match self.file_position(&file.name) {
            Some(i) => {
                assert(v.files[v.file_index(file@.name)].name == file@.name);
                self.files.set(i, file);
            },
            None => {
                self.files.push(file);
            },
        }
        proof {
            lemma_subfolder_views(self);
            let w = v.with_file(file@);
            assert(self@.files =~= w.files);
            assert(self@.subfolders =~= w.subfolders);
            lemma_with_file_stored(v, file@);
        }
    }

    /// The file of this folder named `name`; subfolders are not searched.
    pub fn get_file(&self, name: &str) -> (r: Option<&File>)
        requires
            self@.wf(),
        ensures
            match r {
                Some(f) => self@.file(name@) == Some(f@),
                None => self@.file(name@) is None,
            },
    {
        let key = String::from_str(name);
        match self.file_position(&key) {
            Some(i) => {
                assert(self@.files[self@.file_index(name@)].name == name@);
                Some(&self.files[i])
            },
            None => None,
        }
    }

    /// The file of this folder named `name`, to be changed in place. What is
    /// written through the result becomes that file of this folder.
    pub fn get_file_mut(&mut self, name: &str) -> (r: Option<&mut File>)
        requires
            old(self)@.wf(),
        ensures
            match r {
                Some(f) => {
                    &&& old(self)@.file(name@) == Some(f@)
                    &&& final(self)@ == old(self)@.with_file_at(
                        old(self)@.file_index(name@),
                        final(f)@,
                    )
                },
                None => {
                    &&& old(self)@.file(name@) is None
                    &&& final(self)@ == old(self)@
                },
            },
    {
        let ghost v = self@;
        let ghost files0 = self.files@;
        proof {
            lemma_subfolder_views(self);
        }
        let key = String::from_str(name);
        match self.file_position(&key) {
            Some(i) => {
                assert(v.files[v.file_index(name@)].name == name@);
                let f = &mut self.files[i];
                proof {
                    lemma_file_views_update(files0, i as int, *final(f));
                }
                Some(f)
            },
            None => None,
        }
    }

    /// Removes and returns the file of this folder named `name`.
    pub fn remove_file(&mut self, name: &str) -> (r: Option<File>)
        requires
            old(self)@.wf(),
        ensures
            file_option_view(r) == old(self)@.file(name@),
            final(self)@ == old(self)@.without_file(name@),
            final(self)@.wf(),
    {
        let ghost v = self@;
        proof {
            lemma_subfolder_views(self);
            lemma_without_file_wf(v, name@);
        }
        let key = String::from_str(name);
        match self.file_position(&key) {
            Some(i) => {
                assert(v.files[v.file_index(name@)].name == name@);
                let f = self.files.remove(i);
                proof {
                    lemma_subfolder_views(self);
                    let w = v.without_file(name@);
                    assert(self@.files =~= w.files);
                    assert(self@.subfolders =~= w.subfolders);
                }
                Some(f)
            },
            None => None,
        }
    }

    /// Stores `folder` as a subfolder under its name. A subfolder of the same
    /// name is overwritten, with its whole subtree: the last write wins.
    pub fn add_subfolder(&mut self, folder: Folder)
        requires
            old(self)@.wf(),
            folder@.wf(),
        ensures
            final(self)@ == old(self)@.with_subfolder(folder@),
            final(self)@.wf(),
            final(self)@.subfolder(folder@.name) == Some(folder@),
            old(self)@.has_subfolder(folder@.name) ==> final(self)@.subfolders.len()
                == old(self)@.subfolders.len(),
    {
        let ghost v = self@;
        let ghost g = folder@;
        proof {
            lemma_subfolder_views(self);
            lemma_with_subfolder_wf(v, g);
        }
        match self.subfolder_position(&folder.name) {
            Some(i) => {
                assert(v.subfolders[v.subfolder_index(g.name)].name == g.name);
                self.subfolders.set(i, folder);
            },
            None => {
                self.subfolders.push(folder);
            },
        }
        proof {
            lemma_subfolder_views(self);
            let w = v.with_subfolder(g);
            assert(self@.subfolders =~= w.subfolders);
            assert(self@.files =~= w.files);
            lemma_with_subfolder_stored(v, g);
        }
    }

    /// The direct subfolder named `name`; deeper folders are not searched.
    pub fn get_subfolder(&self, name: &str) -> (r: Option<&Folder>)
        requires
            self@.wf(),
        ensures
            match r {
                Some(f) => self@.subfolder(name@) == Some(f@),
                None => self@.subfolder(name@) is None,
            },
    {
        proof {
            lemma_subfolder_views(self);
        }
        let key = String::from_str(name);
        match self.subfolder_position(&key) {
            Some(i) => {
                assert(self@.subfolders[self@.subfolder_index(name@)].name == name@);
                Some(&self.subfolders[i])
            },
            None => None,
        }
    }

    /// Removes and returns the direct subfolder named `name`, with its subtree.
    pub fn remove_subfolder(&mut self, name: &str) -> (r: Option<Folder>)
        requires
            old(self)@.wf(),
        ensures
            folder_option_view(r) == old(self)@.subfolder(name@),
            final(self)@ == old(self)@.without_subfolder(name@),
            final(self)@.wf(),
    {
        let ghost v = self@;
        proof {
            lemma_subfolder_views(self);
            lemma_without_subfolder_wf(v, name@);
        }
        let key = String::from_str(name);
        match self.subfolder_position(&key) {
            Some(i) => {
                assert(v.subfolders[v.subfolder_index(name@)].name == name@);
                let f = self.subfolders.remove(i);
                proof {
                    lemma_subfolder_views(self);
                    let w = v.without_subfolder(name@);
                    assert(self@.subfolders =~= w.subfolders);
                    assert(self@.files =~= w.files);
                }
                Some(f)
            },
            None => None,
        }
    }

    /// The first folder named `name` in a depth-first walk of this tree,
    /// this folder included. Folder names need not be unique across the
    /// tree: of two folders with one name, the earlier in the walk is found.
    pub fn find_folder(&self, name: &str) -> (r: Option<&Folder>)
        ensures
            match r {
                Some(f) => self@.find(name@) == Some(f@),
                None => self@.find(name@) is None,
            },
    {
        let key = String::from_str(name);
        self.find_named(&key)
    }

    fn find_named(&self, key: &String) -> (r: Option<&Folder>)
        ensures
            match r {
                Some(f) => self@.find(key@) == Some(f@),
                None => self@.find(key@) is None,
            },
        decreases self,
    {
        if self.name == *key {
            return Some(self);
        }
        proof {
            lemma_subfolder_views(self);
        }
        let mut i: usize = 0;
        while i < self.subfolders.len()
            invariant
                i <= self.subfolders@.len(),
                self@.subfolders.len() == self.subfolders@.len(),
                forall|j: int|
                    0 <= j < self.subfolders@.len() ==> #[trigger] self@.subfolders[j]
                        == self.subfolders@[j]@,
                self@.find(key@) == self@.find_from(key@, i as int),
            decreases self.subfolders@.len() - i,
        {
            match self.subfolders[i].find_named(key) {
                Some(f) => {
                    return Some(f);
                },
                None => {},
            }
            i += 1;
        }
        None
    }

    /// The position of the first subfolder whose tree holds a folder named
    /// `key`.
    fn holder_position(&self, key: &String) -> (r: Option<usize>)
        ensures
            match r {
                Some(i) => {
                    &&& i < self@.subfolders.len()
                    &&& self@.subfolders[i as int].find(key@) is Some
                    &&& forall|k: int| 0 <= k < i ==> (#[trigger] self@.subfolders[k]).find(key@) is None
                },
                None => forall|k: int|
                    0 <= k < self@.subfolders.len() ==> (#[trigger] self@.subfolders[k]).find(key@) is None,
            },
    {
        proof {
            lemma_subfolder_views(self);
        }
        let mut i: usize = 0;
        while i < self.subfolders.len()
            invariant
                i <= self.subfolders@.len(),
                self@.subfolders.len() == self.subfolders@.len(),
                forall|j: int|
                    0 <= j < self.subfolders@.len() ==> #[trigger] self@.subfolders[j]
                        == self.subfolders@[j]@,
                forall|k: int| 0 <= k < i ==> (#[trigger] self@.subfolders[k]).find(key@) is None,
            decreases self.subfolders@.len() - i,
        {
            if self.subfolders[i].find_named(key).is_some() {
                return Some(i);
            }
            i += 1;
        }
        None
    }

    /// Like `find_folder`, but the folder found can be changed in place: the
    /// tree afterwards holds whatever the folder was made into.
    pub fn find_folder_mut(&mut self, name: &str) -> (r: Option<&mut Folder>)
        ensures
            match r {
                Some(f) => {
                    &&& old(self)@.find(name@) == Some(f@)
                    &&& final(self)@ == old(self)@.replace_found(name@, final(f)@)
                },
                None => {
                    &&& old(self)@.find(name@) is None
                    &&& final(self)@ == old(self)@
                },
            },
    {
        let key = String::from_str(name);
        self.find_named_mut(&key)
    }

    fn find_named_mut(&mut self, key: &String) -> (r: Option<&mut Folder>)
        ensures
            match r {
                Some(f) => {
                    &&& old(self)@.find(key@) == Some(f@)
                    &&& final(self)@ == old(self)@.replace_found(key@, final(f)@)
                },
                None => {
                    &&& old(self)@.find(key@) is None
                    &&& final(self)@ == old(self)@
                },
            },
        decreases *old(self),
    {
        if self.name == *key {
            return Some(self);
        }
        let ghost v = self@;
        let ghost subs0 = self.subfolders@;
        match self.holder_position(key) {
            Some(i) => {
                proof {
                    lemma_skip_unfound(v, key@, 0, i as int);
                    lemma_subfolder_views(self);
                    assert(v.find(key@) == v.subfolders[i as int].find(key@));
                    assert forall|g: FolderView| #[trigger] v.replace_found(key@, g) == (FolderView {
                        subfolders: v.subfolders.update(i as int, v.subfolders[i as int].replace_found(key@, g)),
                        ..v
                    }) by {
                        assert(v.replace_found(key@, g) == v.replace_from(key@, g, 0));
                        assert(v.replace_from(key@, g, 0) == v.replace_from(key@, g, i as int));
                    }
                }
                let sub = &mut self.subfolders[i];
                proof {
                    lemma_folder_views_update(subs0, i as int, *final(sub));
                }
                sub.find_named_mut(key)
            },
            None => {
                proof {
                    lemma_skip_unfound(v, key@, 0, v.subfolders.len() as int);
                }
                None
            },
        }
    }

    /// The slash-joined path from the top of `root` down to this folder,
    /// found by following parent names: each parent name is looked up with
    /// `root.find_folder`. A folder without a parent name, or whose parent
    /// name is found nowhere in `root`, starts the path.
    pub fn get_path(&self, root: &Folder) -> (r: String)
        requires
            root@.has_path(self@),
        ensures
            r@ == root@.path(self@),
    {
        let ghost k = choose|k: nat| #[trigger] root@.path_within(self@, k) is Some;
        self.path_with(root, Ghost(k))
    }

    fn path_with(&self, root: &Folder, Ghost(fuel): Ghost<nat>) -> (r: String)
        requires
            root@.path_within(self@, fuel) is Some,
        ensures
            r@ == root@.path_within(self@, fuel)->Some_0,
        decreases fuel,
    {
        match &self.parent_name {
            Some(p) => match root.find_named(p) {
                Some(q) => {
                    let mut s = q.path_with(root, Ghost((fuel - 1) as nat));
                    s.append("/");
                    s.append(self.name.as_str());
                    proof {
                        reveal_strlit("/");
                    }
                    s
                },
                None => self.name.clone(),
            },
            None => self.name.clone(),
        }
    }

    /// Where the file named `key` stands among this folder's files.
    fn file_position(&self, key: &String) -> (r: Option<usize>)
        ensures
            match r {
                Some(i) => i < self.files@.len() && self@.files[i as int].name == key@,
                None => !self@.has_file(key@),
            },
    {
        let mut i: usize = 0;
        while i < self.files.len()
            invariant
                i <= self.files@.len(),
                forall|j: int| 0 <= j < i ==> #[trigger] self@.files[j].name != key@,
            decreases self.files@.len() - i,
        {
            if self.files[i].name == *key {
                return Some(i);
            }
            i += 1;
        }
        None
    }

    /// Where the subfolder named `key` stands among this folder's subfolders.
    fn subfolder_position(&self, key: &String) -> (r: Option<usize>)
        ensures
            match r {
                Some(i) => i < self.subfolders@.len() && self@.subfolders[i as int].name == key@,
                None => !self@.has_subfolder(key@),
            },
    {
        proof {
            lemma_subfolder_views(self);
        }
        let mut i: usize = 0;
        while i < self.subfolders.len()
            invariant
                i <= self.subfolders@.len(),
                self@.subfolders.len() == self.subfolders@.len(),
                forall|j: int| 0 <= j < i ==> #[trigger] self@.subfolders[j].name != key@,
            decreases self.subfolders@.len() - i,
        {
            proof {
                lemma_subfolder_views(self);
            }
            if self.subfolders[i].name == *key {
                return Some(i);
            }
            i += 1;
        }
        None
    }
}

} // verus!
