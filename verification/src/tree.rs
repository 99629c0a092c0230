//! The namespace tree: directories mapping names to children, and files
//! referring to payloads in the arena by a stable index.
//!
//! A file's bytes do not live in the tree.  Each `INode::File` carries a
//! `file_id`, the index of its payload in the arena owned by the file
//! system; open descriptors store the same index, which is what makes a
//! write through one handle visible to a read through another handle on the
//! same live node.
//!
//! The mathematical model of a tree is `INodeView`, built from `Seq` and
//! `int`; `tree_resolve`, `tree_insert` and `tree_remove_dir` define every
//! path operation on the model, and the executable functions below are
//! proved to follow them exactly.

use crate::path::component_views;
use crate::types::FileSystemError;
use crate::types::Permissions;
use vstd::prelude::*;

verus! {

/// One directory entry: a name, unique within its directory, and the child.
pub struct DirEntry {
    pub name: String,
    pub node: INode,
}

/// A tree node: a directory with its entries, or a file with the arena
/// index of its payload.  Either kind carries the permission tag fixed at
/// its creation.
pub enum INode {
    Folder { contents: Vec<DirEntry>, permissions: Permissions },
    File { file_id: usize, permissions: Permissions },
}

/// The mathematical model of a directory entry.
pub struct DirEntryView {
    pub name: Seq<char>,
    pub node: INodeView,
}

/// The mathematical model of a tree node.
pub enum INodeView {
    Folder { entries: Seq<DirEntryView>, permissions: Permissions },
    File { id: int, permissions: Permissions },
}

/// The model of a node.
pub open spec fn node_view(node: INode) -> INodeView
    decreases node,
{
    match node {
        INode::File { file_id, permissions } => INodeView::File {
            id: file_id as int,
            permissions,
        },
        INode::Folder { contents, permissions } => INodeView::Folder {
            entries: entries_view(contents@),
            permissions,
        },
    }
}

/// The model of a directory's entries, entry by entry.
pub open spec fn entries_view(contents: Seq<DirEntry>) -> Seq<DirEntryView>
    decreases contents,
{
    Seq::new(
        contents.len(),
        |k: int|
            if 0 <= k < contents.len() {
                DirEntryView { name: contents[k].name@, node: node_view(contents[k].node) }
            } else {
                DirEntryView {
                    name: Seq::<char>::empty(),
                    node: INodeView::File { id: 0, permissions: Permissions::Read },
                }
            },
    )
}

impl View for INode {
    type V = INodeView;

    open spec fn view(&self) -> INodeView {
        node_view(*self)
    }
}

/// Whether some entry has this name.
pub open spec fn dir_contains(entries: Seq<DirEntryView>, name: Seq<char>) -> bool {
    exists|k: int| 0 <= k < entries.len() && entries[k].name == name
}

/// The index of the entry with this name; meaningful only when
/// `dir_contains` holds and the names are distinct.
pub open spec fn dir_index_of(entries: Seq<DirEntryView>, name: Seq<char>) -> int {
    choose|k: int| 0 <= k < entries.len() && entries[k].name == name
}

/// The child with this name.
pub open spec fn dir_lookup(entries: Seq<DirEntryView>, name: Seq<char>) -> INodeView {
    entries[dir_index_of(entries, name)].node
}

/// No two entries of one directory share a name.
pub open spec fn entry_names_distinct(entries: Seq<DirEntryView>) -> bool {
    forall|j: int, k: int| 0 <= j < k < entries.len() ==> entries[j].name != entries[k].name
}

impl INodeView {
    /// Name keys are unique within every directory of the tree.
    pub open spec fn names_unique(self) -> bool
        decreases self,
    {
        match self {
            INodeView::File { .. } => true,
            INodeView::Folder { entries, .. } => {
                &&& entry_names_distinct(entries)
                &&& forall|k: int|
                    0 <= k < entries.len() ==> (#[trigger] entries[k]).node.names_unique()
            },
        }
    }

    /// Every file of the tree points into the arena.
    pub open spec fn ids_bounded(self, n_files: int) -> bool
        decreases self,
    {
        match self {
            INodeView::File { id, .. } => 0 <= id < n_files,
            INodeView::Folder { entries, .. } => {
                forall|k: int|
                    0 <= k < entries.len() ==> (#[trigger] entries[k]).node.ids_bounded(n_files)
            },
        }
    }

    pub open spec fn wf(self, n_files: int) -> bool {
        self.names_unique() && self.ids_bounded(n_files)
    }
}

/// Walk the component sequence from `node`.  An empty sequence resolves to
/// `node` itself.  A missing component fails `FileNotFound`; a component
/// looked up inside a file fails `InvalidType`.
pub open spec fn tree_resolve(node: INodeView, comps: Seq<Seq<char>>) -> Result<
    INodeView,
    FileSystemError,
>
    decreases comps.len(),
{
    if comps.len() == 0 {
        Ok(node)
    } else {
        match node {
            INodeView::Folder { entries, .. } => {
                if dir_contains(entries, comps[0]) {
                    tree_resolve(dir_lookup(entries, comps[0]), comps.drop_first())
                } else {
                    Err(FileSystemError::FileNotFound)
                }
            },
            INodeView::File { .. } => Err(FileSystemError::InvalidType),
        }
    }
}

/// Insert `leaf` at the path `comps` below `node`.
///
/// All but the last component must resolve to existing directories
/// (`FileNotFound` / `InvalidType` otherwise).  The final name must be
/// absent (`FileExists` otherwise), and the parent directory's permission
/// must authorize creation (`PermissionDenied` otherwise).  On success the
/// new entry is appended to the parent's entry sequence.
pub open spec fn tree_insert(node: INodeView, comps: Seq<Seq<char>>, leaf: INodeView) -> Result<
    INodeView,
    FileSystemError,
>
    decreases comps.len(),
{
    if comps.len() == 0 {
        Err(FileSystemError::FileNotFound)
    } else {
        match node {
            INodeView::File { .. } => Err(FileSystemError::InvalidType),
            INodeView::Folder { entries, permissions } => {
                if comps.len() == 1 {
                    if dir_contains(entries, comps[0]) {
                        Err(FileSystemError::FileExists)
                    } else if !permissions.allows_entry_creation() {
                        Err(FileSystemError::PermissionDenied)
                    } else {
                        Ok(
                            INodeView::Folder {
                                entries: entries.push(
                                    DirEntryView { name: comps[0], node: leaf },
                                ),
                                permissions,
                            },
                        )
                    }
                } else {
                    if !dir_contains(entries, comps[0]) {
                        Err(FileSystemError::FileNotFound)
                    } else {
                        match tree_insert(dir_lookup(entries, comps[0]), comps.drop_first(), leaf) {
                            Err(e) => Err(e),
                            Ok(child) => Ok(
                                INodeView::Folder {
                                    entries: entries.update(
                                        dir_index_of(entries, comps[0]),
                                        DirEntryView { name: comps[0], node: child },
                                    ),
                                    permissions,
                                },
                            ),
                        }
                    }
                }
            },
        }
    }
}

/// Remove the directory at the path `comps` below `node`.
///
/// The target must exist (`FileNotFound`), be a directory (`InvalidType`
/// for a file), and be empty (`DirectoryNotEmpty` otherwise).
pub open spec fn tree_remove_dir(node: INodeView, comps: Seq<Seq<char>>) -> Result<
    INodeView,
    FileSystemError,
>
    decreases comps.len(),
{
    if comps.len() == 0 {
        Err(FileSystemError::FileNotFound)
    } else {
        match node {
            INodeView::File { .. } => Err(FileSystemError::InvalidType),
            INodeView::Folder { entries, permissions } => {
                if !dir_contains(entries, comps[0]) {
                    Err(FileSystemError::FileNotFound)
                } else if comps.len() == 1 {
                    match dir_lookup(entries, comps[0]) {
                        INodeView::File { .. } => Err(FileSystemError::InvalidType),
                        INodeView::Folder { entries: target_entries, .. } => {
                            if target_entries.len() > 0 {
                                Err(FileSystemError::DirectoryNotEmpty)
                            } else {
                                Ok(
                                    INodeView::Folder {
                                        entries: entries.remove(dir_index_of(entries, comps[0])),
                                        permissions,
                                    },
                                )
                            }
                        },
                    }
                } else {
                    match tree_remove_dir(dir_lookup(entries, comps[0]), comps.drop_first()) {
                        Err(e) => Err(e),
                        Ok(child) => Ok(
                            INodeView::Folder {
                                entries: entries.update(
                                    dir_index_of(entries, comps[0]),
                                    DirEntryView { name: comps[0], node: child },
                                ),
                                permissions,
                            },
                        ),
                    }
                }
            },
        }
    }
}

/// With distinct names, the index found for a name is the only one.
pub proof fn lemma_dir_index_of_found(entries: Seq<DirEntryView>, idx: int)
    requires
        entry_names_distinct(entries),
        0 <= idx < entries.len(),
    ensures
        dir_contains(entries, entries[idx].name),
        dir_index_of(entries, entries[idx].name) == idx,
{
    let name = entries[idx].name;
    assert(dir_contains(entries, name));
    let k = dir_index_of(entries, name);
    assert(0 <= k < entries.len() && entries[k].name == name);
    if k < idx {
        assert(entries[k].name != entries[idx].name);
    }
    if k > idx {
        assert(entries[idx].name != entries[k].name);
    }
}

/// Unpack `names_unique` of a directory: its names are distinct and every
/// child satisfies `names_unique` in turn.
pub proof fn lemma_names_unique_child(entries: Seq<DirEntryView>, permissions: Permissions, idx: int)
    requires
        (INodeView::Folder { entries, permissions }).names_unique(),
        0 <= idx < entries.len(),
    ensures
        entry_names_distinct(entries),
        entries[idx].node.names_unique(),
{
}

/// Unpack `ids_bounded` of a directory for one child.
pub proof fn lemma_ids_bounded_child(
    entries: Seq<DirEntryView>,
    permissions: Permissions,
    idx: int,
    n_files: int,
)
    requires
        (INodeView::Folder { entries, permissions }).ids_bounded(n_files),
        0 <= idx < entries.len(),
    ensures
        entries[idx].node.ids_bounded(n_files),
{
}

/// Appending an entry appends its model.
pub proof fn lemma_entries_view_push(contents: Seq<DirEntry>, e: DirEntry)
    ensures
        entries_view(contents.push(e)) == entries_view(contents).push(
            DirEntryView { name: e.name@, node: node_view(e.node) },
        ),
{
    assert(entries_view(contents.push(e)) =~= entries_view(contents).push(
        DirEntryView { name: e.name@, node: node_view(e.node) },
    ));
}

/// Removing an entry removes its model.
pub proof fn lemma_entries_view_remove(contents: Seq<DirEntry>, idx: int)
    requires
        0 <= idx < contents.len(),
    ensures
        entries_view(contents.remove(idx)) == entries_view(contents).remove(idx),
{
    assert(entries_view(contents.remove(idx)) =~= entries_view(contents).remove(idx));
}

/// Inserting an entry inserts its model.
pub proof fn lemma_entries_view_insert(contents: Seq<DirEntry>, idx: int, e: DirEntry)
    requires
        0 <= idx <= contents.len(),
    ensures
        entries_view(contents.insert(idx, e)) == entries_view(contents).insert(
            idx,
            DirEntryView { name: e.name@, node: node_view(e.node) },
        ),
{
    assert(entries_view(contents.insert(idx, e)) =~= entries_view(contents).insert(
        idx,
        DirEntryView { name: e.name@, node: node_view(e.node) },
    ));
}

/// A tree whose file ids lie below `n1` also has them below any larger
/// bound: growing the arena never invalidates the tree.
pub proof fn lemma_ids_bounded_mono(node: INodeView, n1: int, n2: int)
    requires
        node.ids_bounded(n1),
        n1 <= n2,
    ensures
        node.ids_bounded(n2),
    decreases node,
{
    match node {
        INodeView::File { .. } => {},
        INodeView::Folder { entries, permissions } => {
            assert forall|k: int| 0 <= k < entries.len() implies (#[trigger] entries[k])
                .node.ids_bounded(n2) by {
                lemma_ids_bounded_child(entries, permissions, k, n1);
                lemma_ids_bounded_mono(entries[k].node, n1, n2);
            }
        },
    }
}

/// A node reached by resolution inherits the tree's well-formedness.
pub proof fn lemma_tree_resolve_wf(node: INodeView, comps: Seq<Seq<char>>, n_files: int)
    requires
        node.names_unique(),
        node.ids_bounded(n_files),
        tree_resolve(node, comps) is Ok,
    ensures
        tree_resolve(node, comps)->Ok_0.names_unique(),
        tree_resolve(node, comps)->Ok_0.ids_bounded(n_files),
    decreases comps.len(),
{
    if comps.len() == 0 {
    } else {
        match node {
            INodeView::Folder { entries, permissions } => {
                let idx = dir_index_of(entries, comps[0]);
                assert(0 <= idx < entries.len() && entries[idx].name == comps[0]);
                lemma_names_unique_child(entries, permissions, idx);
                lemma_ids_bounded_child(entries, permissions, idx, n_files);
                lemma_tree_resolve_wf(entries[idx].node, comps.drop_first(), n_files);
            },
            INodeView::File { .. } => {},
        }
    }
}

/// What `tree_insert` returns, stated over resolution of the parent path:
/// errors on the walk come out unchanged, a file in parent position is
/// `InvalidType`, a present final name is `FileExists`, a read-only parent
/// is `PermissionDenied`, and otherwise the insertion succeeds.
pub proof fn lemma_tree_insert_characterization(
    node: INodeView,
    comps: Seq<Seq<char>>,
    leaf: INodeView,
)
    requires
        comps.len() >= 1,
    ensures
        match tree_resolve(node, comps.drop_last()) {
            Ok(INodeView::Folder { entries, permissions }) => {
                if dir_contains(entries, comps.last()) {
                    tree_insert(node, comps, leaf) == Err::<INodeView, FileSystemError>(
                        FileSystemError::FileExists,
                    )
                } else if !permissions.allows_entry_creation() {
                    tree_insert(node, comps, leaf) == Err::<INodeView, FileSystemError>(
                        FileSystemError::PermissionDenied,
                    )
                } else {
                    tree_insert(node, comps, leaf) is Ok
                }
            },
            Ok(INodeView::File { .. }) => tree_insert(node, comps, leaf) == Err::<
                INodeView,
                FileSystemError,
            >(FileSystemError::InvalidType),
            Err(e) => tree_insert(node, comps, leaf) == Err::<INodeView, FileSystemError>(e),
        },
    decreases comps.len(),
{
    if comps.len() == 1 {
        assert(comps.drop_last() =~= Seq::<Seq<char>>::empty());
        assert(comps.last() == comps[0]);
    } else {
        match node {
            INodeView::Folder { entries, permissions } => {
                assert(comps.drop_last()[0] == comps[0]);
                if dir_contains(entries, comps[0]) {
                    let child = dir_lookup(entries, comps[0]);
                    lemma_tree_insert_characterization(child, comps.drop_first(), leaf);
                    assert(comps.drop_first().drop_last() =~= comps.drop_last().drop_first());
                    assert(comps.drop_first().last() == comps.last());
                }
            },
            INodeView::File { .. } => {},
        }
    }
}

/// The effect of a successful `tree_insert`: the result is a well-formed
/// directory tree again, the new path resolves to the inserted leaf, and
/// the parent directory now contains the final name.
pub proof fn lemma_tree_insert_effect(
    node: INodeView,
    comps: Seq<Seq<char>>,
    leaf: INodeView,
    n_files: int,
)
    requires
        node.names_unique(),
        node.ids_bounded(n_files),
        leaf.names_unique(),
        leaf.ids_bounded(n_files),
        comps.len() >= 1,
        tree_insert(node, comps, leaf) is Ok,
    ensures
        ({
            let node2 = tree_insert(node, comps, leaf)->Ok_0;
            &&& node2 is Folder
            &&& node2.names_unique()
            &&& node2.ids_bounded(n_files)
            &&& tree_resolve(node2, comps) == Ok::<INodeView, FileSystemError>(leaf)
            &&& match tree_resolve(node2, comps.drop_last()) {
                Ok(INodeView::Folder { entries, .. }) => dir_contains(entries, comps.last()),
                _ => false,
            }
        }),
    decreases comps.len(),
{
    let node2 = tree_insert(node, comps, leaf)->Ok_0;
    match node {
        INodeView::File { .. } => {},
        INodeView::Folder { entries, permissions } => {
            if comps.len() == 1 {
                let pushed = entries.push(DirEntryView { name: comps[0], node: leaf });
                assert(node2 == INodeView::Folder { entries: pushed, permissions });
                assert forall|j: int, k: int| 0 <= j < k < pushed.len() implies pushed[j].name
                    != pushed[k].name by {
                    if k < entries.len() {
                        assert(pushed[j] == entries[j] && pushed[k] == entries[k]);
                    } else {
                        assert(pushed[j] == entries[j]);
                        assert(!(0 <= j < entries.len() && entries[j].name == comps[0]));
                    }
                }
                assert forall|k: int| 0 <= k < pushed.len() implies (#[trigger] pushed[k])
                    .node.names_unique() by {
                    if k < entries.len() {
                        lemma_names_unique_child(entries, permissions, k);
                        assert(pushed[k] == entries[k]);
                    }
                }
                assert forall|k: int| 0 <= k < pushed.len() implies (#[trigger] pushed[k])
                    .node.ids_bounded(n_files) by {
                    if k < entries.len() {
                        lemma_ids_bounded_child(entries, permissions, k, n_files);
                        assert(pushed[k] == entries[k]);
                    }
                }
                // the new path resolves to the leaf
                lemma_dir_index_of_found(pushed, entries.len() as int);
                assert(dir_lookup(pushed, comps[0]) == leaf);
                assert(comps.drop_first().len() == 0);
                assert(tree_resolve(leaf, comps.drop_first()) == Ok::<
                    INodeView,
                    FileSystemError,
                >(leaf));
                assert(tree_resolve(node2, comps) == tree_resolve(leaf, comps.drop_first()));
                // the parent (the node itself) now contains the final name
                assert(comps.drop_last() =~= Seq::<Seq<char>>::empty());
                assert(tree_resolve(node2, comps.drop_last()) == Ok::<
                    INodeView,
                    FileSystemError,
                >(node2));
                assert(comps.last() == comps[0]);
            } else {
                let idx = dir_index_of(entries, comps[0]);
                assert(0 <= idx < entries.len() && entries[idx].name == comps[0]);
                lemma_names_unique_child(entries, permissions, idx);
                lemma_ids_bounded_child(entries, permissions, idx, n_files);
                let child = entries[idx].node;
                lemma_tree_insert_effect(child, comps.drop_first(), leaf, n_files);
                let child2 = tree_insert(child, comps.drop_first(), leaf)->Ok_0;
                let updated = entries.update(idx, DirEntryView { name: comps[0], node: child2 });
                assert(node2 == INodeView::Folder { entries: updated, permissions });
                assert forall|j: int, k: int| 0 <= j < k < updated.len() implies updated[j].name
                    != updated[k].name by {
                    assert(updated[j].name == entries[j].name);
                    assert(updated[k].name == entries[k].name);
                }
                assert forall|k: int| 0 <= k < updated.len() implies (#[trigger] updated[k])
                    .node.names_unique() by {
                    if k != idx {
                        lemma_names_unique_child(entries, permissions, k);
                        assert(updated[k] == entries[k]);
                    }
                }
                assert forall|k: int| 0 <= k < updated.len() implies (#[trigger] updated[k])
                    .node.ids_bounded(n_files) by {
                    if k != idx {
                        lemma_ids_bounded_child(entries, permissions, k, n_files);
                        assert(updated[k] == entries[k]);
                    }
                }
                lemma_dir_index_of_found(updated, idx);
                assert(dir_lookup(updated, comps[0]) == child2);
                assert(tree_resolve(node2, comps) == tree_resolve(child2, comps.drop_first()));
                // the parent path of the new tree leads to a directory that
                // contains the final name
                assert(comps.drop_last().len() >= 1);
                assert(comps.drop_last()[0] == comps[0]);
                assert(comps.drop_last().drop_first() =~= comps.drop_first().drop_last());
                assert(comps.drop_first().last() == comps.last());
                assert(tree_resolve(node2, comps.drop_last()) == tree_resolve(
                    child2,
                    comps.drop_first().drop_last(),
                ));
            }
        },
    }
}

/// What `tree_remove_dir` returns, stated over resolution of the full
/// path: errors on the walk come out unchanged, a file target is
/// `InvalidType`, a non-empty directory target is `DirectoryNotEmpty`, and
/// an empty directory target is removed.
pub proof fn lemma_tree_remove_characterization(node: INodeView, comps: Seq<Seq<char>>)
    requires
        comps.len() >= 1,
    ensures
        match tree_resolve(node, comps) {
            Ok(INodeView::Folder { entries: target_entries, .. }) => {
                if target_entries.len() > 0 {
                    tree_remove_dir(node, comps) == Err::<INodeView, FileSystemError>(
                        FileSystemError::DirectoryNotEmpty,
                    )
                } else {
                    tree_remove_dir(node, comps) is Ok
                }
            },
            Ok(INodeView::File { .. }) => tree_remove_dir(node, comps) == Err::<
                INodeView,
                FileSystemError,
            >(FileSystemError::InvalidType),
            Err(e) => tree_remove_dir(node, comps) == Err::<INodeView, FileSystemError>(e),
        },
    decreases comps.len(),
{
    match node {
        INodeView::Folder { entries, permissions } => {
            if dir_contains(entries, comps[0]) && comps.len() > 1 {
                lemma_tree_remove_characterization(dir_lookup(entries, comps[0]), comps.drop_first());
            }
        },
        INodeView::File { .. } => {},
    }
}

/// The effect of a successful `tree_remove_dir`: the result is a
/// well-formed directory tree again, and the removed path no longer
/// resolves.
pub proof fn lemma_tree_remove_effect(node: INodeView, comps: Seq<Seq<char>>, n_files: int)
    requires
        node.names_unique(),
        node.ids_bounded(n_files),
        comps.len() >= 1,
        tree_remove_dir(node, comps) is Ok,
    ensures
        ({
            let node2 = tree_remove_dir(node, comps)->Ok_0;
            &&& node2 is Folder
            &&& node2.names_unique()
            &&& node2.ids_bounded(n_files)
            &&& tree_resolve(node2, comps) == Err::<INodeView, FileSystemError>(
                FileSystemError::FileNotFound,
            )
        }),
    decreases comps.len(),
{
    let node2 = tree_remove_dir(node, comps)->Ok_0;
    match node {
        INodeView::File { .. } => {},
        INodeView::Folder { entries, permissions } => {
            let idx = dir_index_of(entries, comps[0]);
            assert(0 <= idx < entries.len() && entries[idx].name == comps[0]);
            lemma_names_unique_child(entries, permissions, idx);
            lemma_ids_bounded_child(entries, permissions, idx, n_files);
            if comps.len() == 1 {
                let removed = entries.remove(idx);
                assert(node2 == INodeView::Folder { entries: removed, permissions });
                assert forall|j: int, k: int| 0 <= j < k < removed.len() implies removed[j].name
                    != removed[k].name by {
                    let j0 = if j < idx { j } else { j + 1 };
                    let k0 = if k < idx { k } else { k + 1 };
                    assert(removed[j] == entries[j0] && removed[k] == entries[k0]);
                }
                assert forall|k: int| 0 <= k < removed.len() implies (#[trigger] removed[k])
                    .node.names_unique() by {
                    let k0 = if k < idx { k } else { k + 1 };
                    lemma_names_unique_child(entries, permissions, k0);
                    assert(removed[k] == entries[k0]);
                }
                assert forall|k: int| 0 <= k < removed.len() implies (#[trigger] removed[k])
                    .node.ids_bounded(n_files) by {
                    let k0 = if k < idx { k } else { k + 1 };
                    lemma_ids_bounded_child(entries, permissions, k0, n_files);
                    assert(removed[k] == entries[k0]);
                }
                assert forall|k: int| 0 <= k < removed.len() implies (#[trigger] removed[k]).name
                    != comps[0] by {
                    let k0 = if k < idx { k } else { k + 1 };
                    assert(removed[k] == entries[k0]);
                }
                assert(!dir_contains(removed, comps[0]));
            } else {
                let child = entries[idx].node;
                lemma_tree_remove_effect(child, comps.drop_first(), n_files);
                let child2 = tree_remove_dir(child, comps.drop_first())->Ok_0;
                let updated = entries.update(idx, DirEntryView { name: comps[0], node: child2 });
                assert(node2 == INodeView::Folder { entries: updated, permissions });
                assert forall|j: int, k: int| 0 <= j < k < updated.len() implies updated[j].name
                    != updated[k].name by {
                    assert(updated[j].name == entries[j].name);
                    assert(updated[k].name == entries[k].name);
                }
                assert forall|k: int| 0 <= k < updated.len() implies (#[trigger] updated[k])
                    .node.names_unique() by {
                    if k != idx {
                        lemma_names_unique_child(entries, permissions, k);
                        assert(updated[k] == entries[k]);
                    }
                }
                assert forall|k: int| 0 <= k < updated.len() implies (#[trigger] updated[k])
                    .node.ids_bounded(n_files) by {
                    if k != idx {
                        lemma_ids_bounded_child(entries, permissions, k, n_files);
                        assert(updated[k] == entries[k]);
                    }
                }
                lemma_dir_index_of_found(updated, idx);
                assert(dir_lookup(updated, comps[0]) == child2);
                assert(tree_resolve(node2, comps) == tree_resolve(child2, comps.drop_first()));
            }
        },
    }
}

/// Find the index of the entry with this name, scanning in order.
fn find_entry(contents: &Vec<DirEntry>, name: &String) -> (found: Option<usize>)
    ensures
        match found {
            Some(idx) => idx < contents@.len() && contents@[idx as int].name@ == name@,
            None => forall|k: int| 0 <= k < contents@.len() ==> contents@[k].name@ != name@,
        },
{
    let mut j: usize = 0;
    while j < contents.len()
        invariant
            j <= contents@.len(),
            forall|k: int| 0 <= k < j ==> contents@[k].name@ != name@,
        decreases contents@.len() - j,
    {
        if contents[j].name == *name {
            return Some(j);
        }
        j = j + 1;
    }
    None
}

/// Walk the components from index `i` on, returning the target node.
pub(crate) fn resolve_node<'a>(node: &'a INode, comps: &Vec<String>, i: usize) -> (res: Result<
    &'a INode,
    FileSystemError,
>)
    requires
        i <= comps@.len(),
        node@.names_unique(),
    ensures
        match res {
            Ok(n) => tree_resolve(node@, component_views(comps@).skip(i as int)) == Ok::<
                INodeView,
                FileSystemError,
            >(n@),
            Err(e) => tree_resolve(node@, component_views(comps@).skip(i as int)) == Err::<
                INodeView,
                FileSystemError,
            >(e),
        },
    decreases comps@.len() - i,
{
    let ghost cs = component_views(comps@).skip(i as int);
    if i == comps.len() {
        proof {
            assert(cs =~= Seq::<Seq<char>>::empty());
        }
        Ok(node)
    } else {
        proof {
            assert(cs[0] == comps@[i as int]@);
        }
        match node {
            INode::File { .. } => Err(FileSystemError::InvalidType),
            INode::Folder { contents, permissions } => {
                match find_entry(contents, &comps[i]) {
                    None => {
                        proof {
                            assert(forall|k: int|
                                0 <= k < entries_view(contents@).len()
                                    ==> #[trigger] entries_view(contents@)[k].name != cs[0]);
                        }
                        Err(FileSystemError::FileNotFound)
                    },
                    Some(idx) => {
                        let child = &contents[idx].node;
                        proof {
                            let ev = entries_view(contents@);
                            lemma_names_unique_child(ev, *permissions, idx as int);
                            lemma_dir_index_of_found(ev, idx as int);
                            assert(dir_lookup(ev, cs[0]) == child@);
                            assert(cs.drop_first() =~= component_views(comps@).skip(i as int + 1));
                        }
                        resolve_node(child, comps, i + 1)
                    },
                }
            },
        }
    }
}

/// Insert `leaf` at the components from index `i` on, by value: the tree is
/// taken apart on the way down and reassembled on the way up.  On error the
/// returned tree is the unchanged input.
pub(crate) fn tree_insert_exec(node: INode, comps: &Vec<String>, i: usize, leaf: INode) -> (res: (
    INode,
    Result<(), FileSystemError>,
))
    requires
        i < comps@.len(),
        node@.names_unique(),
    ensures
        ({
            let r = tree_insert(node@, component_views(comps@).skip(i as int), leaf@);
            match res.1 {
                Ok(()) => r == Ok::<INodeView, FileSystemError>(res.0@),
                Err(e) => r == Err::<INodeView, FileSystemError>(e) && res.0@ == node@,
            }
        }),
    decreases comps@.len() - i,
{
    let ghost cs = component_views(comps@).skip(i as int);
    let n = comps.len();
    proof {
        assert(cs[0] == comps@[i as int]@);
    }
    match node {
        INode::File { file_id, permissions } => {
            (INode::File { file_id, permissions }, Err(FileSystemError::InvalidType))
        },
        INode::Folder { mut contents, permissions } => {
            let ghost contents0 = contents@;
            let ghost ev = entries_view(contents0);
            let found = find_entry(&contents, &comps[i]);
            proof {
                match found {
                    Some(idx) => {
                        lemma_dir_index_of_found(ev, idx as int);
                    },
                    None => {
                        assert(forall|k: int|
                            0 <= k < ev.len() ==> #[trigger] ev[k].name != cs[0]);
                    },
                }
            }
            if i + 1 == n {
                match found {
                    Some(_) => {
                        (INode::Folder { contents, permissions }, Err(FileSystemError::FileExists))
                    },
                    None => {
                        if matches!(permissions, Permissions::Read) {
                            (
                                INode::Folder { contents, permissions },
                                Err(FileSystemError::PermissionDenied),
                            )
                        } else {
                            let name = comps[i].clone();
                            let entry = DirEntry { name, node: leaf };
                            proof {
                                lemma_entries_view_push(contents0, entry);
                            }
                            contents.push(entry);
                            (INode::Folder { contents, permissions }, Ok(()))
                        }
                    },
                }
            } else {
                match found {
                    None => {
                        (INode::Folder { contents, permissions }, Err(FileSystemError::FileNotFound))
                    },
                    Some(idx) => {
                        proof {
                            assert(ev[idx as int].node == dir_lookup(ev, cs[0]));
                            lemma_names_unique_child(ev, permissions, idx as int);
                            assert(cs.drop_first() =~= component_views(comps@).skip(i as int + 1));
                        }
                        let entry = contents.remove(idx);
                        let (child, r) = tree_insert_exec(entry.node, comps, i + 1, leaf);
                        let new_entry = DirEntry { name: entry.name, node: child };
                        proof {
                            lemma_entries_view_remove(contents0, idx as int);
                            lemma_entries_view_insert(
                                contents0.remove(idx as int),
                                idx as int,
                                new_entry,
                            );
                            assert(ev.remove(idx as int).insert(
                                idx as int,
                                DirEntryView { name: contents0[idx as int].name@, node: child@ },
                            ) =~= ev.update(
                                idx as int,
                                DirEntryView { name: cs[0], node: child@ },
                            ));
                            if r is Err {
                                assert(ev.update(
                                    idx as int,
                                    DirEntryView { name: cs[0], node: child@ },
                                ) =~= ev);
                            }
                        }
                        contents.insert(idx, new_entry);
                        (INode::Folder { contents, permissions }, r)
                    },
                }
            }
        },
    }
}

/// Remove the empty directory at the components from index `i` on, by
/// value, reassembling on the way up.  On error the returned tree is the
/// unchanged input.
pub(crate) fn tree_remove_exec(node: INode, comps: &Vec<String>, i: usize) -> (res: (
    INode,
    Result<(), FileSystemError>,
))
    requires
        i < comps@.len(),
        node@.names_unique(),
    ensures
        ({
            let r = tree_remove_dir(node@, component_views(comps@).skip(i as int));
            match res.1 {
                Ok(()) => r == Ok::<INodeView, FileSystemError>(res.0@),
                Err(e) => r == Err::<INodeView, FileSystemError>(e) && res.0@ == node@,
            }
        }),
    decreases comps@.len() - i,
{
    let ghost cs = component_views(comps@).skip(i as int);
    let n = comps.len();
    proof {
        assert(cs[0] == comps@[i as int]@);
    }
    match node {
        INode::File { file_id, permissions } => {
            (INode::File { file_id, permissions }, Err(FileSystemError::InvalidType))
        },
        INode::Folder { mut contents, permissions } => {
            let ghost contents0 = contents@;
            let ghost ev = entries_view(contents0);
            let found = find_entry(&contents, &comps[i]);
            proof {
                match found {
                    Some(idx) => {
                        lemma_dir_index_of_found(ev, idx as int);
                    },
                    None => {
                        assert(forall|k: int|
                            0 <= k < ev.len() ==> #[trigger] ev[k].name != cs[0]);
                    },
                }
            }
            match found {
                None => {
                    (INode::Folder { contents, permissions }, Err(FileSystemError::FileNotFound))
                },
                Some(idx) => {
                    proof {
                        assert(ev[idx as int].node == dir_lookup(ev, cs[0]));
                        lemma_names_unique_child(ev, permissions, idx as int);
                    }
                    if i + 1 == n {
                        let verdict: Result<(), FileSystemError> = match &contents[idx].node {
                            INode::File { .. } => Err(FileSystemError::InvalidType),
                            INode::Folder { contents: target_contents, .. } => {
                                if target_contents.len() > 0 {
                                    Err(FileSystemError::DirectoryNotEmpty)
                                } else {
                                    Ok(())
                                }
                            },
                        };
                        match verdict {
                            Err(e) => (INode::Folder { contents, permissions }, Err(e)),
                            Ok(()) => {
                                proof {
                                    lemma_entries_view_remove(contents0, idx as int);
                                }
                                let _removed = contents.remove(idx);
                                (INode::Folder { contents, permissions }, Ok(()))
                            },
                        }
                    } else {
                        proof {
                            assert(cs.drop_first() =~= component_views(comps@).skip(i as int + 1));
                        }
                        let entry = contents.remove(idx);
                        let (child, r) = tree_remove_exec(entry.node, comps, i + 1);
                        let new_entry = DirEntry { name: entry.name, node: child };
                        proof {
                            lemma_entries_view_remove(contents0, idx as int);
                            lemma_entries_view_insert(
                                contents0.remove(idx as int),
                                idx as int,
                                new_entry,
                            );
                            assert(ev.remove(idx as int).insert(
                                idx as int,
                                DirEntryView { name: contents0[idx as int].name@, node: child@ },
                            ) =~= ev.update(
                                idx as int,
                                DirEntryView { name: cs[0], node: child@ },
                            ));
                            if r is Err {
                                assert(ev.update(
                                    idx as int,
                                    DirEntryView { name: cs[0], node: child@ },
                                ) =~= ev);
                            }
                        }
                        contents.insert(idx, new_entry);
                        (INode::Folder { contents, permissions }, r)
                    }
                },
            }
        },
    }
}

} // verus!
