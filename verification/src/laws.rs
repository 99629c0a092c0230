//! The laws of the namespace, proved once and for all over the model.
//!
//! Each theorem quantifies over every state and every input its
//! hypotheses allow; together with the methods' contracts, which tie the
//! executable code to the very specification functions these theorems
//! speak about, they hold of every run of the library.

use crate::fs::close_spec;
use crate::fs::create_spec;
use crate::fs::mkdir_spec;
use crate::fs::open_spec;
use crate::fs::read_spec;
use crate::fs::rmdir_spec;
use crate::fs::seek_spec;
use crate::fs::seek_target;
use crate::fs::write_spec;
use crate::fs::FsView;
use crate::path::is_root_components;
use crate::path::lemma_split_components_len;
use crate::path::path_components;
use crate::path::strip_leading_slash;
use crate::tree::dir_contains;
use crate::tree::lemma_ids_bounded_mono;
use crate::tree::lemma_tree_insert_characterization;
use crate::tree::lemma_tree_insert_effect;
use crate::tree::lemma_tree_remove_characterization;
use crate::tree::tree_insert;
use crate::tree::tree_resolve;
use crate::tree::DirEntryView;
use crate::tree::INodeView;
use crate::types::FileDescriptor;
use crate::types::FileSystemError;
use crate::types::OffsetFrom;
use crate::types::Permissions;
use vstd::prelude::*;

verus! {

/// Uniqueness: once `create` has succeeded on a path, a second `create`
/// or a `mkdir` with the same path fails with `FileExists`.
pub proof fn law_create_uniqueness(
    fs: FsView,
    path: Seq<char>,
    perm1: Permissions,
    perm2: Permissions,
)
    requires
        fs.wf(),
        create_spec(fs, path, perm1).1 is Ok,
    ensures
        create_spec(create_spec(fs, path, perm1).0, path, perm2).1 == Err::<
            usize,
            FileSystemError,
        >(FileSystemError::FileExists),
        mkdir_spec(create_spec(fs, path, perm1).0, path).1 == Err::<(), FileSystemError>(
            FileSystemError::FileExists,
        ),
{
    let comps = path_components(path);
    lemma_split_components_len(strip_leading_slash(path));
    let n = fs.files.len() as int;
    let leaf1 = INodeView::File { id: n, permissions: perm1 };
    lemma_ids_bounded_mono(fs.root, n, n + 1);
    lemma_tree_insert_effect(fs.root, comps, leaf1, n + 1);
    let root2 = tree_insert(fs.root, comps, leaf1)->Ok_0;
    let fs1 = create_spec(fs, path, perm1).0;
    assert(fs1.root == root2);
    let leaf2 = INodeView::File { id: fs1.files.len() as int, permissions: perm2 };
    lemma_tree_insert_characterization(root2, comps, leaf2);
    let dir_leaf = INodeView::Folder {
        entries: Seq::<DirEntryView>::empty(),
        permissions: Permissions::ReadWrite,
    };
    lemma_tree_insert_characterization(root2, comps, dir_leaf);
}

/// Uniqueness: once `mkdir` has succeeded on a path, a second `mkdir` or
/// a `create` with the same path fails with `FileExists`.
pub proof fn law_mkdir_uniqueness(fs: FsView, path: Seq<char>, perm2: Permissions)
    requires
        fs.wf(),
        mkdir_spec(fs, path).1 is Ok,
    ensures
        mkdir_spec(mkdir_spec(fs, path).0, path).1 == Err::<(), FileSystemError>(
            FileSystemError::FileExists,
        ),
        create_spec(mkdir_spec(fs, path).0, path, perm2).1 == Err::<usize, FileSystemError>(
            FileSystemError::FileExists,
        ),
{
    let comps = path_components(path);
    lemma_split_components_len(strip_leading_slash(path));
    let n = fs.files.len() as int;
    let dir_leaf = INodeView::Folder {
        entries: Seq::<DirEntryView>::empty(),
        permissions: Permissions::ReadWrite,
    };
    lemma_tree_insert_effect(fs.root, comps, dir_leaf, n);
    let root2 = tree_insert(fs.root, comps, dir_leaf)->Ok_0;
    let fs1 = mkdir_spec(fs, path).0;
    assert(fs1.root == root2);
    lemma_tree_insert_characterization(root2, comps, dir_leaf);
    let leaf2 = INodeView::File { id: fs1.files.len() as int, permissions: perm2 };
    lemma_tree_insert_characterization(root2, comps, leaf2);
}

/// Parent-requires-directory, and the full error account of `create` and
/// `mkdir`: whatever resolution of the parent path yields decides the
/// outcome — a file on the way is `InvalidType`, a missing component is
/// `FileNotFound` (and every other walk error comes out unchanged), a
/// present final name is `FileExists`, a read-only parent is
/// `PermissionDenied`, and otherwise both operations succeed.
pub proof fn law_create_parent_errors(fs: FsView, path: Seq<char>, perm: Permissions)
    requires
        !is_root_components(path_components(path)),
    ensures
        ({
            let comps = path_components(path);
            match tree_resolve(fs.root, comps.drop_last()) {
                Ok(INodeView::File { .. }) => create_spec(fs, path, perm).1 == Err::<
                    usize,
                    FileSystemError,
                >(FileSystemError::InvalidType) && mkdir_spec(fs, path).1 == Err::<
                    (),
                    FileSystemError,
                >(FileSystemError::InvalidType),
                Err(e) => create_spec(fs, path, perm).1 == Err::<usize, FileSystemError>(e)
                    && mkdir_spec(fs, path).1 == Err::<(), FileSystemError>(e),
                Ok(INodeView::Folder { entries, permissions }) => {
                    if dir_contains(entries, comps.last()) {
                        create_spec(fs, path, perm).1 == Err::<usize, FileSystemError>(
                            FileSystemError::FileExists,
                        ) && mkdir_spec(fs, path).1 == Err::<(), FileSystemError>(
                            FileSystemError::FileExists,
                        )
                    } else if !permissions.allows_entry_creation() {
                        create_spec(fs, path, perm).1 == Err::<usize, FileSystemError>(
                            FileSystemError::PermissionDenied,
                        ) && mkdir_spec(fs, path).1 == Err::<(), FileSystemError>(
                            FileSystemError::PermissionDenied,
                        )
                    } else {
                        create_spec(fs, path, perm).1 is Ok && mkdir_spec(fs, path).1 is Ok
                    }
                },
            }
        }),
{
    let comps = path_components(path);
    lemma_split_components_len(strip_leading_slash(path));
    let leaf = INodeView::File { id: fs.files.len() as int, permissions: perm };
    lemma_tree_insert_characterization(fs.root, comps, leaf);
    let dir_leaf = INodeView::Folder {
        entries: Seq::<DirEntryView>::empty(),
        permissions: Permissions::ReadWrite,
    };
    lemma_tree_insert_characterization(fs.root, comps, dir_leaf);
}

/// Empty-only removal, and the full error account of `rmdir`: the root
/// path is rejected as not found; otherwise the target must resolve
/// (errors of the walk come out unchanged), must be a directory, and is
/// removed exactly when it has no entries, else `DirectoryNotEmpty`.
pub proof fn law_rmdir_empty_only(fs: FsView, path: Seq<char>)
    ensures
        ({
            let comps = path_components(path);
            if is_root_components(comps) {
                rmdir_spec(fs, path).1 == Err::<(), FileSystemError>(FileSystemError::FileNotFound)
            } else {
                match tree_resolve(fs.root, comps) {
                    Ok(INodeView::Folder { entries: target_entries, .. }) => {
                        if target_entries.len() > 0 {
                            rmdir_spec(fs, path).1 == Err::<(), FileSystemError>(
                                FileSystemError::DirectoryNotEmpty,
                            )
                        } else {
                            rmdir_spec(fs, path).1 is Ok
                        }
                    },
                    Ok(INodeView::File { .. }) => rmdir_spec(fs, path).1 == Err::<
                        (),
                        FileSystemError,
                    >(FileSystemError::InvalidType),
                    Err(e) => rmdir_spec(fs, path).1 == Err::<(), FileSystemError>(e),
                }
            }
        }),
{
    let comps = path_components(path);
    lemma_split_components_len(strip_leading_slash(path));
    if !is_root_components(comps) {
        lemma_tree_remove_characterization(fs.root, comps);
    }
}

/// No partial success: every operation that fails leaves the state
/// exactly as it was — a failed `create` or `mkdir` leaves the tree
/// unchanged, a failed `seek` leaves the cursor unchanged, and so on.
/// (`read` never changes state, so it has nothing to preserve.)
pub proof fn law_failure_leaves_state_unchanged(
    fs: FsView,
    path: Seq<char>,
    perm: Permissions,
    fd: usize,
    data: Seq<u8>,
    offset: OffsetFrom,
)
    ensures
        create_spec(fs, path, perm).1 is Err ==> create_spec(fs, path, perm).0 == fs,
        mkdir_spec(fs, path).1 is Err ==> mkdir_spec(fs, path).0 == fs,
        rmdir_spec(fs, path).1 is Err ==> rmdir_spec(fs, path).0 == fs,
        open_spec(fs, path).1 is Err ==> open_spec(fs, path).0 == fs,
        close_spec(fs, fd).1 is Err ==> close_spec(fs, fd).0 == fs,
        write_spec(fs, fd, data).1 is Err ==> write_spec(fs, fd, data).0 == fs,
        seek_spec(fs, fd, offset).1 is Err ==> seek_spec(fs, fd, offset).0 == fs,
{
}

/// Shared-state visibility: `create` a file, `open` the same path a
/// second time; the two descriptors are distinct handles on the same
/// payload, and bytes written through the first, after a seek to the old
/// end through the second, are read back through the second.
pub proof fn law_shared_payload_visibility(
    fs: FsView,
    path: Seq<char>,
    perm: Permissions,
    data: Seq<u8>,
)
    requires
        fs.wf(),
        fs.can_allocate(),
        fs.can_add_file(),
        data.len() <= usize::MAX,
        create_spec(fs, path, perm).1 is Ok,
    ensures
        ({
            let fs1 = create_spec(fs, path, perm).0;
            let fd1 = create_spec(fs, path, perm).1->Ok_0;
            let fs2 = open_spec(fs1, path).0;
            let r2 = open_spec(fs1, path).1;
            &&& r2 is Ok
            &&& r2->Ok_0 != fd1
            &&& fs2.descriptors.contains_key(fd1)
            &&& fs2.descriptors.contains_key(r2->Ok_0)
            &&& fs2.descriptors[r2->Ok_0].file_id == fs2.descriptors[fd1].file_id
            &&& ({
                let fd2 = r2->Ok_0;
                let fs3 = write_spec(fs2, fd1, data).0;
                &&& write_spec(fs2, fd1, data).1 is Ok
                &&& seek_spec(fs3, fd2, OffsetFrom::Start(0)).1 == Ok::<usize, FileSystemError>(0)
                &&& read_spec(
                    seek_spec(fs3, fd2, OffsetFrom::Start(0)).0,
                    fd2,
                    data.len() as usize,
                ) == Ok::<(usize, Seq<u8>), FileSystemError>((data.len() as usize, data))
            })
        }),
{
    let comps = path_components(path);
    lemma_split_components_len(strip_leading_slash(path));
    let n = fs.files.len() as int;
    let leaf = INodeView::File { id: n, permissions: perm };
    lemma_ids_bounded_mono(fs.root, n, n + 1);
    lemma_tree_insert_effect(fs.root, comps, leaf, n + 1);
    let fs1 = create_spec(fs, path, perm).0;
    let fd1 = fs.next_fd;
    assert(tree_resolve(fs1.root, comps) == Ok::<INodeView, FileSystemError>(leaf));
    let fd2 = fs1.next_fd;
    let fs2 = open_spec(fs1, path).0;
    let file_id = n as usize;
    assert(fs2.descriptors[fd1] == FileDescriptor { file_id, position: 0 });
    assert(fs2.descriptors[fd2] == FileDescriptor { file_id, position: 0 });
    assert(fs2.files[file_id as int] =~= Seq::<u8>::empty());
    let fs3 = write_spec(fs2, fd1, data).0;
    assert(fs3.files[file_id as int] =~= data);
    let fs4 = seek_spec(fs3, fd2, OffsetFrom::Start(0)).0;
    assert(fs4.files[file_id as int] =~= data);
    assert(fs4.descriptors[fd2] == FileDescriptor { file_id, position: 0 });
    assert(read_spec(fs4, fd2, data.len() as usize)->Ok_0.1 =~= data);
}

/// Seek bounds: with an open descriptor, a seek whose computed target
/// lies in `[0, file_len]` succeeds, sets the cursor to the target and
/// returns it; a negative target or one past the end is rejected with
/// `InvalidType` and changes nothing.
pub proof fn law_seek_bounds(fs: FsView, fd: usize, offset: OffsetFrom)
    requires
        fs.descriptors.contains_key(fd),
    ensures
        ({
            let d = fs.descriptors[fd];
            let file_len = fs.files[d.file_id as int].len() as int;
            let target = seek_target(d, file_len, offset);
            &&& (0 <= target <= file_len ==> {
                &&& seek_spec(fs, fd, offset).1 == Ok::<usize, FileSystemError>(target as usize)
                &&& seek_spec(fs, fd, offset).0.descriptors[fd].position == target as usize
            })
            &&& (!(0 <= target <= file_len) ==> seek_spec(fs, fd, offset) == (
                fs,
                Err::<usize, FileSystemError>(FileSystemError::InvalidType),
            ))
        }),
{
}

/// Descriptor lifecycle: after `close(fd)` succeeds, each of `read`,
/// `write`, `seek` and `close` on the same handle fails with
/// `InvalidFileDescriptor`, and none of them changes any state.
pub proof fn law_descriptor_lifecycle(
    fs: FsView,
    fd: usize,
    data: Seq<u8>,
    buffer_len: usize,
    offset: OffsetFrom,
)
    requires
        close_spec(fs, fd).1 is Ok,
    ensures
        ({
            let fs1 = close_spec(fs, fd).0;
            &&& read_spec(fs1, fd, buffer_len) == Err::<(usize, Seq<u8>), FileSystemError>(
                FileSystemError::InvalidFileDescriptor,
            )
            &&& write_spec(fs1, fd, data) == (
                fs1,
                Err::<(), FileSystemError>(FileSystemError::InvalidFileDescriptor),
            )
            &&& seek_spec(fs1, fd, offset) == (
                fs1,
                Err::<usize, FileSystemError>(FileSystemError::InvalidFileDescriptor),
            )
            &&& close_spec(fs1, fd) == (
                fs1,
                Err::<(), FileSystemError>(FileSystemError::InvalidFileDescriptor),
            )
        }),
{
    let fs1 = close_spec(fs, fd).0;
    assert(!fs1.descriptors.contains_key(fd));
}

/// Round trip: write bytes to a descriptor on a fresh (empty) file, seek
/// to the start, and read them back: the result is exactly the bytes
/// written, byte for byte.
pub proof fn law_write_read_round_trip(fs: FsView, fd: usize, data: Seq<u8>)
    requires
        fs.wf(),
        fs.descriptors.contains_key(fd),
        fs.files[fs.descriptors[fd].file_id as int].len() == 0,
        data.len() <= usize::MAX,
    ensures
        ({
            let fs1 = write_spec(fs, fd, data).0;
            &&& write_spec(fs, fd, data).1 is Ok
            &&& seek_spec(fs1, fd, OffsetFrom::Start(0)).1 == Ok::<usize, FileSystemError>(0)
            &&& read_spec(
                seek_spec(fs1, fd, OffsetFrom::Start(0)).0,
                fd,
                data.len() as usize,
            ) == Ok::<(usize, Seq<u8>), FileSystemError>((data.len() as usize, data))
        }),
{
    let d = fs.descriptors[fd];
    let fs1 = write_spec(fs, fd, data).0;
    assert(fs.files[d.file_id as int] =~= Seq::<u8>::empty());
    assert(fs1.files[d.file_id as int] =~= data);
    let fs2 = seek_spec(fs1, fd, OffsetFrom::Start(0)).0;
    assert(fs2.descriptors[fd] == FileDescriptor { file_id: d.file_id, position: 0 });
    assert(fs2.files[d.file_id as int] =~= data);
    assert(read_spec(fs2, fd, data.len() as usize)->Ok_0.1 =~= data);
}

} // verus!
