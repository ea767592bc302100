//! Properties that hold across operations of the folder tree.
use vstd::prelude::*;
use crate::model::{
    FileView, FolderView, lemma_find_named, lemma_replace_keeps_found, lemma_replace_extending,
    lemma_find_from_some, join_names, lemma_descend_prefix, lemma_descend_push, lemma_descend_linked,
    lemma_unique_found, lemma_path_is, lemma_replace_then_find, lemma_find_wf,
};
use crate::session::{file_in, tree_without_file};

verus! {

/// A folder added below any folder of the tree — the folder that
/// `find_folder_mut(parent)` gives, changed by `add_subfolder(g)` — is then
/// found from the top of the tree by its name.
pub proof fn law_added_folder_is_found(root: FolderView, parent: Seq<char>, g: FolderView)
    requires
        root.contains(parent),
    ensures
        ({
            let after = root.replace_found(parent, (root.find(parent)->Some_0).with_subfolder(g));
            &&& after.contains(g.name)
            &&& (after.find(g.name)->Some_0).name == g.name
        }),
{
    let x = root.find(parent)->Some_0;
    let y = x.with_subfolder(g);
    if y.name != g.name {
        let k = if x.has_subfolder(g.name) { x.subfolder_index(g.name) } else { x.subfolders.len() as int };
        assert(y.subfolders[k] == g);
        lemma_find_from_some(y, g.name, 0, k);
    }
    lemma_replace_keeps_found(root, parent, y, g.name);
    lemma_find_named(root.replace_found(parent, y), g.name);
}

/// Adding a file below any folder of the tree keeps every folder findable.
pub proof fn law_adding_file_keeps_folders(
    root: FolderView,
    parent: Seq<char>,
    f: FileView,
    n: Seq<char>,
)
    requires
        root.contains(parent),
        root.contains(n),
    ensures
        root.replace_found(parent, (root.find(parent)->Some_0).with_file(f)).contains(n),
{
    let x = root.find(parent)->Some_0;
    assert(x.subfolders.is_prefix_of(x.with_file(f).subfolders));
    lemma_replace_extending(root, parent, x.with_file(f), n);
}

/// Adding a folder under a name that its new siblings do not use keeps
/// every folder findable. (A folder added under a sibling's name replaces
/// that sibling and its subtree.)
pub proof fn law_adding_folder_keeps_folders(
    root: FolderView,
    parent: Seq<char>,
    g: FolderView,
    n: Seq<char>,
)
    requires
        root.contains(parent),
        !(root.find(parent)->Some_0).has_subfolder(g.name),
        root.contains(n),
    ensures
        root.replace_found(parent, (root.find(parent)->Some_0).with_subfolder(g)).contains(n),
{
    let x = root.find(parent)->Some_0;
    assert(x.subfolders.is_prefix_of(x.with_subfolder(g).subfolders));
    lemma_replace_extending(root, parent, x.with_subfolder(g), n);
}

/// In a tree whose top folder has no parent name, in which every parent name
/// names the folder holding it and no two folders share a name, the path of
/// the folder at position `p` (depth `p.len() + 1`, the top counting as one)
/// is the names of the folders from the top down to it joined by slashes:
/// one segment per level.
pub proof fn law_path_follows_tree(root: FolderView, p: Seq<int>)
    requires
        root.parent_name is None,
        root.linked(),
        root.names_unique(),
        root.descend(p) is Some,
    ensures
        ({
            let f = root.descend(p)->Some_0;
            &&& root.has_path(f)
            &&& root.path(f) == join_names(root.names_along(p))
            &&& root.names_along(p).len() == p.len() + 1
            &&& root.names_along(p).last() == f.name
        }),
{
    let f = root.descend(p)->Some_0;
    path_within_tree(root, p);
    lemma_path_is(root, f, (p.len() + 1) as nat);
    if p.len() > 0 {
        lemma_descend_prefix(root, p);
        assert(p.drop_last().push(p.last()) =~= p);
        lemma_descend_push(root, p.drop_last(), p.last());
    }
}

proof fn path_within_tree(root: FolderView, p: Seq<int>)
    requires
        root.parent_name is None,
        root.linked(),
        root.names_unique(),
        root.descend(p) is Some,
    ensures
        root.path_within(root.descend(p)->Some_0, (p.len() + 1) as nat) == Some(
            join_names(root.names_along(p)),
        ),
    decreases p.len(),
{
    if p.len() == 0 {
        assert(root.names_along(p) == seq![root.name]);
    } else {
        let p0 = p.drop_last();
        let i = p.last();
        lemma_descend_prefix(root, p);
        assert(p0.push(i) =~= p);
        lemma_descend_push(root, p0, i);
        let q = root.descend(p0)->Some_0;
        let f = q.subfolders[i];
        lemma_descend_linked(root, p0);
        assert(f.parent_name == Some(q.name));
        lemma_unique_found(root, p0);
        path_within_tree(root, p0);
        let names = root.names_along(p);
        assert(names.drop_last() =~= root.names_along(p0));
    }
}

/// Once a file is removed from a folder, looking it up finds nothing.
pub proof fn law_removed_file_is_absent(v: FolderView, n: Seq<char>)
    requires
        v.wf(),
    ensures
        v.without_file(n).file(n) is None,
{
    let w = v.without_file(n);
    if v.has_file(n) {
        let k = v.file_index(n);
        if w.has_file(n) {
            let j = w.file_index(n);
            let j2 = if j < k { j } else { j + 1 };
            assert(w.files[j] == v.files[j2]);
            assert(v.files[j2].name == v.files[k].name);
        }
    }
}

/// Once the open file is deleted through the session, opening a file of
/// that name in the same folder finds nothing.
pub proof fn law_deleted_file_cannot_be_opened(root: FolderView, cur: Seq<char>, n: Seq<char>)
    requires
        root.wf(),
    ensures
        file_in(tree_without_file(root, cur, Some(n)), cur, n) is None,
{
    if root.contains(cur) {
        let c = root.find(cur)->Some_0;
        lemma_find_named(root, cur);
        lemma_find_wf(root, cur);
        lemma_replace_then_find(root, cur, c.without_file(n));
        law_removed_file_is_absent(c, n);
    }
}

} // verus!
