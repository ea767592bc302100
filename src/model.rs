//! The mathematical model of the folder tree.
use vstd::prelude::*;

verus! {

/// A file as a value: its name and its text.
pub struct FileView {
    pub name: Seq<char>,
    pub content: Seq<char>,
}

/// A folder as a value. Files and subfolders are kept in insertion order;
/// in a well-formed folder no two files and no two subfolders share a name.
pub struct FolderView {
    pub name: Seq<char>,
    pub parent_name: Option<Seq<char>>,
    pub files: Seq<FileView>,
    pub subfolders: Seq<FolderView>,
}

/// Names joined with slashes between them.
pub open spec fn join_names(s: Seq<Seq<char>>) -> Seq<char>
    decreases s.len(),
{
    if s.len() <= 1 {
        if s.len() == 1 {
            s[0]
        } else {
            Seq::empty()
        }
    } else {
        join_names(s.drop_last()) + seq!['/'] + s.last()
    }
}

impl FolderView {
    /// A folder without files or subfolders.
    pub open spec fn empty(name: Seq<char>, parent_name: Option<Seq<char>>) -> FolderView {
        FolderView { name, parent_name, files: Seq::empty(), subfolders: Seq::empty() }
    }

    // ---- files of this folder, keyed by name ----

    pub open spec fn has_file(self, n: Seq<char>) -> bool {
        exists|i: int| 0 <= i < self.files.len() && #[trigger] self.files[i].name == n
    }

    pub open spec fn file_index(self, n: Seq<char>) -> int {
        choose|i: int| 0 <= i < self.files.len() && #[trigger] self.files[i].name == n
    }

    /// The file of this folder named `n`, if any.
    pub open spec fn file(self, n: Seq<char>) -> Option<FileView> {
        if self.has_file(n) {
            Some(self.files[self.file_index(n)])
        } else {
            None
        }
    }

    /// This folder with `f` stored under its name: an existing file of that
    /// name is replaced in place, otherwise `f` comes last.
    pub open spec fn with_file(self, f: FileView) -> FolderView {
        if self.has_file(f.name) {
            FolderView { files: self.files.update(self.file_index(f.name), f), ..self }
        } else {
            FolderView { files: self.files.push(f), ..self }
        }
    }

    /// This folder with the file at position `i` replaced by `f`.
    pub open spec fn with_file_at(self, i: int, f: FileView) -> FolderView {
        FolderView { files: self.files.update(i, f), ..self }
    }

    /// This folder without its file named `n`.
    pub open spec fn without_file(self, n: Seq<char>) -> FolderView {
        if self.has_file(n) {
            FolderView { files: self.files.remove(self.file_index(n)), ..self }
        } else {
            self
        }
    }

    // ---- subfolders of this folder, keyed by name ----

    pub open spec fn has_subfolder(self, n: Seq<char>) -> bool {
        exists|i: int| 0 <= i < self.subfolders.len() && #[trigger] self.subfolders[i].name == n
    }

    pub open spec fn subfolder_index(self, n: Seq<char>) -> int {
        choose|i: int| 0 <= i < self.subfolders.len() && #[trigger] self.subfolders[i].name == n
    }

    /// The direct subfolder named `n`, if any.
    pub open spec fn subfolder(self, n: Seq<char>) -> Option<FolderView> {
        if self.has_subfolder(n) {
            Some(self.subfolders[self.subfolder_index(n)])
        } else {
            None
        }
    }

    /// This folder with `g` stored under its name: an existing subfolder of
    /// that name is replaced in place (with its whole subtree), otherwise `g`
    /// comes last.
    pub open spec fn with_subfolder(self, g: FolderView) -> FolderView {
        if self.has_subfolder(g.name) {
            FolderView { subfolders: self.subfolders.update(self.subfolder_index(g.name), g), ..self }
        } else {
            FolderView { subfolders: self.subfolders.push(g), ..self }
        }
    }

    /// This folder without its subfolder named `n`.
    pub open spec fn without_subfolder(self, n: Seq<char>) -> FolderView {
        if self.has_subfolder(n) {
            FolderView { subfolders: self.subfolders.remove(self.subfolder_index(n)), ..self }
        } else {
            self
        }
    }

    // ---- search through the whole tree ----

    /// The first folder named `n` in a depth-first, pre-order walk of this
    /// tree: this folder itself, then each subfolder's tree in turn.
    pub open spec fn find(self, n: Seq<char>) -> Option<FolderView>
        decreases self, self.subfolders.len() + 1,
    {
        if self.name == n {
            Some(self)
        } else {
            self.find_from(n, 0)
        }
    }

    /// The first folder named `n` in the trees of the subfolders from
    /// position `i` on.
    pub open spec fn find_from(self, n: Seq<char>, i: int) -> Option<FolderView>
        decreases self, self.subfolders.len() - i,
    {
        if 0 <= i < self.subfolders.len() {
            match self.subfolders[i].find(n) {
                Some(f) => Some(f),
                None => self.find_from(n, i + 1),
            }
        } else {
            None
        }
    }

    /// Whether some folder of this tree is named `n`.
    pub open spec fn contains(self, n: Seq<char>) -> bool {
        self.find(n) is Some
    }

    /// This tree with the folder that `find(n)` gives replaced by `g`.
    pub open spec fn replace_found(self, n: Seq<char>, g: FolderView) -> FolderView
        decreases self, self.subfolders.len() + 1,
    {
        if self.name == n {
            g
        } else {
            self.replace_from(n, g, 0)
        }
    }

    /// This tree with the folder that `find_from(n, i)` gives replaced by `g`.
    pub open spec fn replace_from(self, n: Seq<char>, g: FolderView, i: int) -> FolderView
        decreases self, self.subfolders.len() - i,
    {
        if 0 <= i < self.subfolders.len() {
            if self.subfolders[i].find(n) is Some {
                FolderView {
                    subfolders: self.subfolders.update(i, self.subfolders[i].replace_found(n, g)),
                    ..self
                }
            } else {
                self.replace_from(n, g, i + 1)
            }
        } else {
            self
        }
    }

    // ---- paths ----

    /// The path of `f` in this tree, found in at most `fuel` steps: the path
    /// of the folder that the search gives for `f`'s parent name, a slash, and
    /// `f`'s name; or `f`'s name alone where `f` has no parent name or the
    /// search finds none.
    pub open spec fn path_within(self, f: FolderView, fuel: nat) -> Option<Seq<char>>
        decreases fuel,
    {
        if fuel == 0 {
            None
        } else {
            match f.parent_name {
                Some(p) => match self.find(p) {
                    Some(q) => match self.path_within(q, (fuel - 1) as nat) {
                        Some(s) => Some(s + seq!['/'] + f.name),
                        None => None,
                    },
                    None => Some(f.name),
                },
                None => Some(f.name),
            }
        }
    }

    /// Whether following parent names from `f` through this tree ends.
    pub open spec fn has_path(self, f: FolderView) -> bool {
        exists|k: nat| #[trigger] self.path_within(f, k) is Some
    }

    /// The slash-joined path of `f` in this tree.
    pub open spec fn path(self, f: FolderView) -> Seq<char> {
        self.path_within(f, choose|k: nat| #[trigger] self.path_within(f, k) is Some)->Some_0
    }

    // ---- positions in the tree ----

    /// The folder reached from this one by taking, at each level, the
    /// subfolder at the next position of `p`.
    pub open spec fn descend(self, p: Seq<int>) -> Option<FolderView>
        decreases p.len(),
    {
        if p.len() == 0 {
            Some(self)
        } else if 0 <= p[0] < self.subfolders.len() {
            self.subfolders[p[0]].descend(p.drop_first())
        } else {
            None
        }
    }

    /// The names of the folders passed on the way down along `p`, this
    /// folder's first.
    pub open spec fn names_along(self, p: Seq<int>) -> Seq<Seq<char>>
        decreases p.len(),
    {
        if p.len() != 0 && 0 <= p[0] < self.subfolders.len() {
            seq![self.name] + self.subfolders[p[0]].names_along(p.drop_first())
        } else {
            seq![self.name]
        }
    }

    /// Every subfolder's parent name is the name of the folder holding it.
    pub open spec fn linked(self) -> bool
        decreases self,
    {
        forall|i: int|
            0 <= i < self.subfolders.len() ==> {
                &&& (#[trigger] self.subfolders[i]).parent_name == Some(self.name)
                &&& self.subfolders[i].linked()
            }
    }

    /// No two folders of the tree share a name.
    pub open spec fn names_unique(self) -> bool {
        forall|p: Seq<int>, q: Seq<int>|
            #[trigger] self.descend(p) is Some && #[trigger] self.descend(q) is Some
                && (self.descend(p)->Some_0).name == (self.descend(q)->Some_0).name ==> p == q
    }

    // ---- well-formedness ----

    pub open spec fn files_unique(self) -> bool {
        forall|i: int, j: int|
            0 <= i < self.files.len() && 0 <= j < self.files.len() && i != j
                ==> #[trigger] self.files[i].name != #[trigger] self.files[j].name
    }

    pub open spec fn subfolders_unique(self) -> bool {
        forall|i: int, j: int|
            0 <= i < self.subfolders.len() && 0 <= j < self.subfolders.len() && i != j
                ==> #[trigger] self.subfolders[i].name != #[trigger] self.subfolders[j].name
    }

    /// Names are unique among the files and among the subfolders of every
    /// folder of the tree.
    pub open spec fn wf(self) -> bool
        decreases self,
    {
        &&& self.files_unique()
        &&& self.subfolders_unique()
        &&& forall|i: int| 0 <= i < self.subfolders.len() ==> (#[trigger] self.subfolders[i]).wf()
    }
}

/// What the search finds bears the name searched for.
pub proof fn lemma_find_named(v: FolderView, n: Seq<char>)
    ensures
        v.find(n) matches Some(x) ==> x.name == n,
    decreases v, v.subfolders.len() + 1,
{
    if v.name != n {
        lemma_find_from_named(v, n, 0);
    }
}

pub proof fn lemma_find_from_named(v: FolderView, n: Seq<char>, i: int)
    ensures
        v.find_from(n, i) matches Some(x) ==> x.name == n,
    decreases v, v.subfolders.len() - i,
{
    if 0 <= i < v.subfolders.len() {
        lemma_find_named(v.subfolders[i], n);
        lemma_find_from_named(v, n, i + 1);
    }
}

/// What the search finds in a well-formed tree is well-formed.
pub proof fn lemma_find_wf(v: FolderView, n: Seq<char>)
    requires
        v.wf(),
    ensures
        v.find(n) matches Some(x) ==> x.wf(),
    decreases v, v.subfolders.len() + 1,
{
    if v.name != n {
        lemma_find_from_wf(v, n, 0);
    }
}

pub proof fn lemma_find_from_wf(v: FolderView, n: Seq<char>, i: int)
    requires
        v.wf(),
    ensures
        v.find_from(n, i) matches Some(x) ==> x.wf(),
    decreases v, v.subfolders.len() - i,
{
    if 0 <= i < v.subfolders.len() {
        assert(v.subfolders[i].wf());
        lemma_find_wf(v.subfolders[i], n);
        lemma_find_from_wf(v, n, i + 1);
    }
}

/// Putting a well-formed folder of the same name in place of the one the
/// search finds keeps the tree well-formed and its root's name.
pub proof fn lemma_replace_found_wf(v: FolderView, n: Seq<char>, g: FolderView)
    requires
        v.wf(),
        g.wf(),
        g.name == n,
    ensures
        v.replace_found(n, g).wf(),
        v.replace_found(n, g).name == v.name,
    decreases v, v.subfolders.len() + 1,
{
    if v.name != n {
        lemma_replace_from_wf(v, n, g, 0);
    }
}

pub proof fn lemma_replace_from_wf(v: FolderView, n: Seq<char>, g: FolderView, i: int)
    requires
        v.wf(),
        g.wf(),
        g.name == n,
    ensures
        v.replace_from(n, g, i).wf(),
        v.replace_from(n, g, i).name == v.name,
    decreases v, v.subfolders.len() - i,
{
    if 0 <= i < v.subfolders.len() {
        if v.subfolders[i].find(n) is Some {
            let s = v.subfolders[i];
            assert(s.wf());
            lemma_replace_found_wf(s, n, g);
            let w = v.replace_from(n, g, i);
            assert(w.files == v.files);
            assert forall|a: int, b: int|
                0 <= a < w.subfolders.len() && 0 <= b < w.subfolders.len() && a != b implies
                    #[trigger] w.subfolders[a].name != #[trigger] w.subfolders[b].name by {
                assert(v.subfolders[a].name != v.subfolders[b].name);
            }
            assert forall|a: int| 0 <= a < w.subfolders.len() implies #[trigger] w.subfolders[a].wf() by {
                if a != i {
                    assert(v.subfolders[a].wf());
                }
            }
        } else {
            lemma_replace_from_wf(v, n, g, i + 1);
        }
    }
}

/// Putting the folder that the search finds back in its place changes nothing.
pub proof fn lemma_replace_found_self(v: FolderView, n: Seq<char>)
    ensures
        v.find(n) matches Some(x) ==> v.replace_found(n, x) == v,
    decreases v, v.subfolders.len() + 1,
{
    if v.name != n {
        lemma_replace_from_self(v, n, 0);
    }
}

pub proof fn lemma_replace_from_self(v: FolderView, n: Seq<char>, i: int)
    ensures
        v.find_from(n, i) matches Some(x) ==> v.replace_from(n, x, i) == v,
    decreases v, v.subfolders.len() - i,
{
    if 0 <= i < v.subfolders.len() {
        let s = v.subfolders[i];
        lemma_replace_found_self(s, n);
        if s.find(n) is Some {
            let x = s.find(n)->Some_0;
            assert(v.subfolders.update(i, s.replace_found(n, x)) =~= v.subfolders);
        } else {
            lemma_replace_from_self(v, n, i + 1);
        }
    }
}

/// A folder named `n` in the tree of the subfolder at `k` makes the search
/// from any earlier position succeed.
pub proof fn lemma_find_from_some(v: FolderView, n: Seq<char>, j: int, k: int)
    requires
        0 <= j <= k < v.subfolders.len(),
        v.subfolders[k].find(n) is Some,
    ensures
        v.find_from(n, j) is Some,
    decreases k - j,
{
    if j < k && v.subfolders[j].find(n) is None {
        lemma_find_from_some(v, n, j + 1, k);
    }
}

/// A successful search from position `j` succeeds in the tree of a first
/// subfolder `k`, and gives what that tree's search gives.
pub proof fn lemma_find_from_witness(v: FolderView, n: Seq<char>, j: int) -> (k: int)
    requires
        0 <= j,
        v.find_from(n, j) is Some,
    ensures
        j <= k < v.subfolders.len(),
        v.subfolders[k].find(n) is Some,
        v.find_from(n, j) == v.subfolders[k].find(n),
        forall|i: int| j <= i < k ==> (#[trigger] v.subfolders[i]).find(n) is None,
    decreases v.subfolders.len() - j,
{
    if v.subfolders[j].find(n) is Some {
        j
    } else {
        lemma_find_from_witness(v, n, j + 1)
    }
}

/// The replacement keeps the name at the top of the tree.
pub proof fn lemma_replace_from_name(v: FolderView, n: Seq<char>, g: FolderView, i: int)
    ensures
        v.replace_from(n, g, i).name == v.name,
        v.replace_from(n, g, i).parent_name == v.parent_name,
        v.replace_from(n, g, i).files == v.files,
        v.replace_from(n, g, i).subfolders.len() == v.subfolders.len(),
    decreases v.subfolders.len() - i,
{
    if 0 <= i < v.subfolders.len() && v.subfolders[i].find(n) is None {
        lemma_replace_from_name(v, n, g, i + 1);
    }
}

/// Where the search for `m` succeeds, the replacement changes the tree of
/// exactly one subfolder, the first in which `m` is found.
pub proof fn lemma_replace_from_shape(v: FolderView, m: Seq<char>, g: FolderView) -> (k: int)
    requires
        v.name != m,
        v.find(m) is Some,
    ensures
        0 <= k < v.subfolders.len(),
        v.find(m) == v.subfolders[k].find(m),
        forall|i: int| 0 <= i < k ==> (#[trigger] v.subfolders[i]).find(m) is None,
        v.replace_found(m, g) == (FolderView {
            subfolders: v.subfolders.update(k, v.subfolders[k].replace_found(m, g)),
            ..v
        }),
{
    let k = lemma_find_from_witness(v, m, 0);
    lemma_skip_unfound(v, m, 0, k);
    assert(v.replace_found(m, g) == v.replace_from(m, g, 0));
    assert(v.replace_from(m, g, 0) == v.replace_from(m, g, k));
    k
}

/// After the replacement, the search for `m` finds the replacement, provided
/// it bears the name `m`.
pub proof fn lemma_replace_then_find(v: FolderView, m: Seq<char>, y: FolderView)
    requires
        v.contains(m),
        y.name == m,
    ensures
        v.replace_found(m, y).find(m) == Some(y),
    decreases v,
{
    if v.name != m {
        let k = lemma_replace_from_shape(v, m, y);
        lemma_replace_then_find(v.subfolders[k], m, y);
        let w = v.replace_found(m, y);
        assert forall|j: int| 0 <= j < k implies (#[trigger] w.subfolders[j]).find(m) is None by {
            assert(w.subfolders[j] == v.subfolders[j]);
        }
        lemma_skip_unfound(w, m, 0, k);
    }
}

/// The replacement puts a tree in which `n` is found into the tree, so `n`
/// is found in the result.
pub proof fn lemma_replace_keeps_found(v: FolderView, m: Seq<char>, g: FolderView, n: Seq<char>)
    requires
        v.contains(m),
        g.contains(n),
    ensures
        v.replace_found(m, g).contains(n),
    decreases v,
{
    if v.name != m {
        let k = lemma_replace_from_shape(v, m, g);
        let s = v.subfolders[k];
        lemma_replace_keeps_found(s, m, g, n);
        let w = v.replace_found(m, g);
        if w.name != n {
            lemma_find_from_some(w, n, 0, k);
        }
    }
}

/// Putting, in place of the folder found for `m`, one of the same name whose
/// subfolders begin with the old ones keeps every name of the tree findable.
pub proof fn lemma_replace_extending(v: FolderView, m: Seq<char>, y: FolderView, n: Seq<char>)
    requires
        v.contains(m),
        y.name == (v.find(m)->Some_0).name,
        (v.find(m)->Some_0).subfolders.is_prefix_of(y.subfolders),
        v.contains(n),
    ensures
        v.replace_found(m, y).contains(n),
    decreases v,
{
    let w = v.replace_found(m, y);
    if v.name == m {
        if v.name != n {
            let k = lemma_find_from_witness(v, n, 0);
            assert(y.subfolders[k] == v.subfolders[k]);
            lemma_find_from_some(y, n, 0, k);
        }
    } else {
        let k = lemma_replace_from_shape(v, m, y);
        if v.name != n {
            let k0 = lemma_find_from_witness(v, n, 0);
            if k0 == k {
                lemma_replace_extending(v.subfolders[k], m, y, n);
            } else {
                assert(w.subfolders[k0] == v.subfolders[k0]);
            }
            lemma_find_from_some(w, n, 0, k0);
        }
    }
}

/// Every folder the search finds stands somewhere in the tree.
pub proof fn lemma_find_has_position(v: FolderView, n: Seq<char>) -> (p: Seq<int>)
    requires
        v.find(n) is Some,
    ensures
        v.descend(p) == v.find(n),
    decreases v,
{
    if v.name == n {
        Seq::empty()
    } else {
        let k = lemma_find_from_witness(v, n, 0);
        let q = lemma_find_has_position(v.subfolders[k], n);
        let p = seq![k] + q;
        assert(p.drop_first() =~= q);
        p
    }
}

/// A folder standing in the tree is found by its name (though, where names
/// repeat, what is found may be another folder of that name).
pub proof fn lemma_position_is_found(v: FolderView, p: Seq<int>)
    requires
        v.descend(p) is Some,
    ensures
        v.contains((v.descend(p)->Some_0).name),
    decreases p.len(),
{
    let n = (v.descend(p)->Some_0).name;
    if p.len() > 0 && v.name != n {
        lemma_position_is_found(v.subfolders[p[0]], p.drop_first());
        lemma_find_from_some(v, n, 0, p[0]);
    }
}

/// Where no two folders share a name, the search for the name of a folder
/// of the tree finds that very folder.
pub proof fn lemma_unique_found(v: FolderView, p: Seq<int>)
    requires
        v.names_unique(),
        v.descend(p) is Some,
    ensures
        v.find((v.descend(p)->Some_0).name) == v.descend(p),
{
    let n = (v.descend(p)->Some_0).name;
    lemma_position_is_found(v, p);
    let q = lemma_find_has_position(v, n);
    lemma_find_named(v, n);
    assert(v.descend(q) is Some && v.descend(p) is Some);
}

/// Going down along `p` and then to the subfolder at `i`.
pub proof fn lemma_descend_push(v: FolderView, p: Seq<int>, i: int)
    requires
        v.descend(p) is Some,
        0 <= i < (v.descend(p)->Some_0).subfolders.len(),
    ensures
        v.descend(p.push(i)) == Some((v.descend(p)->Some_0).subfolders[i]),
        v.names_along(p.push(i)) == v.names_along(p).push((v.descend(p)->Some_0).subfolders[i].name),
        v.names_along(p).len() == p.len() + 1,
        (v.descend(p)->Some_0).name == v.names_along(p).last(),
    decreases p.len(),
{
    if p.len() == 0 {
        assert(p.push(i).drop_first() =~= Seq::<int>::empty());
        assert(p.push(i)[0] == i);
        assert(v.subfolders[i].descend(Seq::empty()) == Some(v.subfolders[i]));
        assert(v.subfolders[i].names_along(Seq::empty()) == seq![v.subfolders[i].name]);
        assert(v.names_along(p.push(i)) =~= seq![v.name, v.subfolders[i].name]);
    } else {
        let s = v.subfolders[p[0]];
        assert(p.push(i).drop_first() =~= p.drop_first().push(i));
        lemma_descend_push(s, p.drop_first(), i);
        assert(v.names_along(p.push(i)) =~= v.names_along(p).push((v.descend(p)->Some_0).subfolders[i].name));
    }
}

/// A position's prefix is a position too, and its last step is in range.
pub proof fn lemma_descend_prefix(v: FolderView, p: Seq<int>)
    requires
        p.len() > 0,
        v.descend(p) is Some,
    ensures
        v.descend(p.drop_last()) is Some,
        0 <= p.last() < (v.descend(p.drop_last())->Some_0).subfolders.len(),
    decreases p.len(),
{
    if p.len() > 1 {
        let s = v.subfolders[p[0]];
        assert(p.drop_first().drop_last() =~= p.drop_last().drop_first());
        lemma_descend_prefix(s, p.drop_first());
    } else {
        assert(p.drop_last() =~= Seq::<int>::empty());
    }
}

/// Every folder of a linked tree is linked.
pub proof fn lemma_descend_linked(v: FolderView, p: Seq<int>)
    requires
        v.linked(),
        v.descend(p) is Some,
    ensures
        (v.descend(p)->Some_0).linked(),
    decreases p.len(),
{
    if p.len() > 0 {
        assert(v.subfolders[p[0]].linked());
        lemma_descend_linked(v.subfolders[p[0]], p.drop_first());
    }
}

/// The path found with some fuel is found with any larger fuel.
pub proof fn lemma_path_more_fuel(v: FolderView, f: FolderView, k: nat, k2: nat)
    requires
        v.path_within(f, k) is Some,
        k <= k2,
    ensures
        v.path_within(f, k2) == v.path_within(f, k),
    decreases k,
{
    if let Some(p) = f.parent_name {
        if let Some(q) = v.find(p) {
            lemma_path_more_fuel(v, q, (k - 1) as nat, (k2 - 1) as nat);
        }
    }
}

/// The path does not depend on the fuel it was found with.
pub proof fn lemma_path_is(v: FolderView, f: FolderView, k: nat)
    requires
        v.path_within(f, k) is Some,
    ensures
        v.has_path(f),
        v.path(f) == v.path_within(f, k)->Some_0,
{
    let k2 = choose|k2: nat| #[trigger] v.path_within(f, k2) is Some;
    if k <= k2 {
        lemma_path_more_fuel(v, f, k, k2);
    } else {
        lemma_path_more_fuel(v, f, k2, k);
    }
}

/// Subfolders in which nothing is found can be skipped, by the search and by
/// the replacement alike.
pub proof fn lemma_skip_unfound(v: FolderView, n: Seq<char>, j: int, i: int)
    requires
        0 <= j <= i <= v.subfolders.len(),
        forall|k: int| j <= k < i ==> (#[trigger] v.subfolders[k]).find(n) is None,
    ensures
        v.find_from(n, j) == v.find_from(n, i),
        forall|g: FolderView| v.replace_from(n, g, j) == #[trigger] v.replace_from(n, g, i),
    decreases i - j,
{
    if j < i {
        assert(v.subfolders[j].find(n) is None);
        lemma_skip_unfound(v, n, j + 1, i);
    }
}

/// Storing a file keeps a well-formed folder well-formed.
pub proof fn lemma_with_file_wf(v: FolderView, f: FileView)
    requires
        v.wf(),
    ensures
        v.with_file(f).wf(),
{
    let w = v.with_file(f);
    assert(w.subfolders == v.subfolders);
    if v.has_file(f.name) {
        let k = v.file_index(f.name);
        assert forall|i: int, j: int|
            0 <= i < w.files.len() && 0 <= j < w.files.len() && i != j implies
                #[trigger] w.files[i].name != #[trigger] w.files[j].name by {
            if i != k && j != k {
                assert(v.files[i].name != v.files[j].name);
            } else if i == k {
                assert(v.files[k].name != v.files[j].name);
            } else {
                assert(v.files[i].name != v.files[k].name);
            }
        }
    } else {
        assert forall|i: int, j: int|
            0 <= i < w.files.len() && 0 <= j < w.files.len() && i != j implies
                #[trigger] w.files[i].name != #[trigger] w.files[j].name by {
            if i < v.files.len() && j < v.files.len() {
                assert(v.files[i].name != v.files[j].name);
            } else if i < v.files.len() {
                assert(v.files[i].name == w.files[i].name);
            } else {
                assert(v.files[j].name == w.files[j].name);
            }
        }
    }
}

/// After storing a file, looking up its name gives that file.
pub proof fn lemma_with_file_stored(v: FolderView, f: FileView)
    requires
        v.wf(),
    ensures
        v.with_file(f).file(f.name) == Some(f),
{
    lemma_with_file_wf(v, f);
    let w = v.with_file(f);
    let k = if v.has_file(f.name) { v.file_index(f.name) } else { v.files.len() as int };
    assert(w.files[k] == f);
    assert(w.has_file(f.name));
    let j = w.file_index(f.name);
    assert(w.files[j].name == w.files[k].name);
}

/// After storing a subfolder, looking up its name gives that subfolder.
pub proof fn lemma_with_subfolder_stored(v: FolderView, g: FolderView)
    requires
        v.wf(),
        g.wf(),
    ensures
        v.with_subfolder(g).subfolder(g.name) == Some(g),
{
    lemma_with_subfolder_wf(v, g);
    let w = v.with_subfolder(g);
    let k = if v.has_subfolder(g.name) { v.subfolder_index(g.name) } else { v.subfolders.len() as int };
    assert(w.subfolders[k] == g);
    assert(w.has_subfolder(g.name));
    let j = w.subfolder_index(g.name);
    assert(w.subfolders[j].name == w.subfolders[k].name);
}

/// Removing a file keeps a well-formed folder well-formed.
pub proof fn lemma_without_file_wf(v: FolderView, n: Seq<char>)
    requires
        v.wf(),
    ensures
        v.without_file(n).wf(),
{
    let w = v.without_file(n);
    assert(w.subfolders == v.subfolders);
    if v.has_file(n) {
        let k = v.file_index(n);
        assert forall|i: int, j: int|
            0 <= i < w.files.len() && 0 <= j < w.files.len() && i != j implies
                #[trigger] w.files[i].name != #[trigger] w.files[j].name by {
            let i2 = if i < k { i } else { i + 1 };
            let j2 = if j < k { j } else { j + 1 };
            assert(w.files[i] == v.files[i2]);
            assert(w.files[j] == v.files[j2]);
            assert(v.files[i2].name != v.files[j2].name);
        }
    }
}

/// Storing a well-formed subfolder keeps a well-formed folder well-formed.
pub proof fn lemma_with_subfolder_wf(v: FolderView, g: FolderView)
    requires
        v.wf(),
        g.wf(),
    ensures
        v.with_subfolder(g).wf(),
{
    let w = v.with_subfolder(g);
    assert(w.files == v.files);
    if v.has_subfolder(g.name) {
        let k = v.subfolder_index(g.name);
        assert forall|i: int, j: int|
            0 <= i < w.subfolders.len() && 0 <= j < w.subfolders.len() && i != j implies
                #[trigger] w.subfolders[i].name != #[trigger] w.subfolders[j].name by {
            if i != k && j != k {
                assert(v.subfolders[i].name != v.subfolders[j].name);
            } else if i == k {
                assert(v.subfolders[k].name != v.subfolders[j].name);
            } else {
                assert(v.subfolders[i].name != v.subfolders[k].name);
            }
        }
        assert forall|i: int| 0 <= i < w.subfolders.len() implies #[trigger] w.subfolders[i].wf() by {
            if i != k {
                assert(v.subfolders[i].wf());
            }
        }
    } else {
        assert forall|i: int, j: int|
            0 <= i < w.subfolders.len() && 0 <= j < w.subfolders.len() && i != j implies
                #[trigger] w.subfolders[i].name != #[trigger] w.subfolders[j].name by {
            if i < v.subfolders.len() && j < v.subfolders.len() {
                assert(v.subfolders[i].name != v.subfolders[j].name);
            } else if i < v.subfolders.len() {
                assert(v.subfolders[i].name == w.subfolders[i].name);
            } else {
                assert(v.subfolders[j].name == w.subfolders[j].name);
            }
        }
        assert forall|i: int| 0 <= i < w.subfolders.len() implies #[trigger] w.subfolders[i].wf() by {
            if i < v.subfolders.len() {
                assert(v.subfolders[i].wf());
            }
        }
    }
}

/// Removing a subfolder keeps a well-formed folder well-formed.
pub proof fn lemma_without_subfolder_wf(v: FolderView, n: Seq<char>)
    requires
        v.wf(),
    ensures
        v.without_subfolder(n).wf(),
{
    let w = v.without_subfolder(n);
    assert(w.files == v.files);
    if v.has_subfolder(n) {
        let k = v.subfolder_index(n);
        assert forall|i: int, j: int|
            0 <= i < w.subfolders.len() && 0 <= j < w.subfolders.len() && i != j implies
                #[trigger] w.subfolders[i].name != #[trigger] w.subfolders[j].name by {
            let i2 = if i < k { i } else { i + 1 };
            let j2 = if j < k { j } else { j + 1 };
            assert(w.subfolders[i] == v.subfolders[i2]);
            assert(w.subfolders[j] == v.subfolders[j2]);
            assert(v.subfolders[i2].name != v.subfolders[j2].name);
        }
        assert forall|i: int| 0 <= i < w.subfolders.len() implies #[trigger] w.subfolders[i].wf() by {
            let i2 = if i < k { i } else { i + 1 };
            assert(w.subfolders[i] == v.subfolders[i2]);
            assert(v.subfolders[i2].wf());
        }
    }
}

} // verus!
