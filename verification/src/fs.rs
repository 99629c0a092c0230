//! The namespace: one root directory tree, an arena of file payloads, and
//! a descriptor table, behind one coherent API — `create`, `open`, `close`,
//! `read`, `write`, `seek`, `mkdir`, `rmdir`.
//!
//! The whole state is modelled by `FsView`; each operation has a
//! specification function (`create_spec`, `open_spec`, ...) that maps a
//! model and the operation's arguments to the next model and the result.
//! Every executable method is proved to return exactly what its
//! specification function says and to leave the state exactly as the
//! specification function says, and `FsView::wf` is proved to be preserved
//! by every operation.

use crate::path::component_views;
use crate::path::is_root_components;
use crate::path::lemma_split_components_len;
use crate::path::path_components;
use crate::path::split_path;
use crate::path::strip_leading_slash;
use crate::tree::entries_view;
use crate::tree::lemma_ids_bounded_mono;
use crate::tree::lemma_tree_insert_effect;
use crate::tree::lemma_tree_remove_effect;
use crate::tree::lemma_tree_resolve_wf;
use crate::tree::resolve_node;
use crate::tree::tree_insert;
use crate::tree::tree_insert_exec;
use crate::tree::tree_remove_dir;
use crate::tree::tree_remove_exec;
use crate::tree::tree_resolve;
use crate::tree::DirEntry;
use crate::tree::INode;
use crate::tree::INodeView;
use crate::types::FileDescriptor;
use crate::types::FileSystemError;
use crate::types::OffsetFrom;
use crate::types::Permissions;
use std::collections::HashMap;
use vstd::pervasive::VecAdditionalExecFns;
use vstd::prelude::*;

verus! {

broadcast use vstd::std_specs::hash::group_hash_axioms;

/// The arena of file payloads, byte sequence by byte sequence.
pub open spec fn payloads_view(files: Seq<Vec<u8>>) -> Seq<Seq<u8>> {
    Seq::new(files.len(), |k: int| files[k]@)
}

/// Appending a payload appends its byte sequence.
pub proof fn lemma_payloads_view_push(files: Seq<Vec<u8>>, v: Vec<u8>)
    ensures
        payloads_view(files.push(v)) == payloads_view(files).push(v@),
{
    assert(payloads_view(files.push(v)) =~= payloads_view(files).push(v@));
}

/// Replacing a payload replaces its byte sequence.
pub proof fn lemma_payloads_view_update(files: Seq<Vec<u8>>, k: int, v: Vec<u8>)
    requires
        0 <= k < files.len(),
    ensures
        payloads_view(files.update(k, v)) == payloads_view(files).update(k, v@),
{
    assert(payloads_view(files.update(k, v)) =~= payloads_view(files).update(k, v@));
}

/// The mathematical model of the whole file system: the directory tree,
/// the payload arena, the descriptor table and the next handle to assign.
pub struct FsView {
    pub root: INodeView,
    pub files: Seq<Seq<u8>>,
    pub descriptors: Map<usize, FileDescriptor>,
    pub next_fd: usize,
}

impl FsView {
    /// The state invariant, established by `mount` and preserved by every
    /// operation: the root is a directory tree with unique names whose
    /// files all point into the arena; every open descriptor points into
    /// the arena with its cursor inside its file; handles start at 1 and
    /// stay below the allocation counter, so no live handle is ever
    /// assigned twice.
    pub open spec fn wf(self) -> bool {
        &&& self.root is Folder
        &&& self.root.wf(self.files.len() as int)
        &&& self.files.len() <= usize::MAX
        &&& self.next_fd >= 1
        &&& forall|fd: usize| #[trigger]
            self.descriptors.contains_key(fd) ==> {
                let d = self.descriptors[fd];
                &&& (d.file_id as int) < self.files.len()
                &&& (d.position as int) <= self.files[d.file_id as int].len()
                &&& 1 <= fd < self.next_fd
            }
    }

    /// Machine limit: a fresh handle can be assigned.
    pub open spec fn can_allocate(self) -> bool {
        self.next_fd < usize::MAX
    }

    /// Machine limit: a fresh payload can be added to the arena.
    pub open spec fn can_add_file(self) -> bool {
        self.files.len() < usize::MAX
    }
}

/// The state `mount` constructs: an empty root directory with permission
/// `ReadWrite`, no files, no descriptors, and handles starting at 1.
pub open spec fn mount_spec() -> FsView {
    FsView {
        root: INodeView::Folder {
            entries: Seq::<crate::tree::DirEntryView>::empty(),
            permissions: Permissions::ReadWrite,
        },
        files: Seq::empty(),
        descriptors: Map::empty(),
        next_fd: 1,
    }
}

/// `create(path, permission)`: insert an empty file at `path`, then open a
/// descriptor on it with cursor 0.  The empty path and the bare root path
/// are rejected as not found; the other failures are those of
/// `tree_insert`, and a failure leaves the state unchanged.
pub open spec fn create_spec(fs: FsView, path: Seq<char>, perm: Permissions) -> (FsView, Result<
    usize,
    FileSystemError,
>) {
    let comps = path_components(path);
    if is_root_components(comps) {
        (fs, Err(FileSystemError::FileNotFound))
    } else {
        let leaf = INodeView::File { id: fs.files.len() as int, permissions: perm };
        match tree_insert(fs.root, comps, leaf) {
            Err(e) => (fs, Err(e)),
            Ok(root2) => (
                FsView {
                    root: root2,
                    files: fs.files.push(Seq::empty()),
                    descriptors: fs.descriptors.insert(
                        fs.next_fd,
                        FileDescriptor { file_id: fs.files.len() as usize, position: 0 },
                    ),
                    next_fd: (fs.next_fd + 1) as usize,
                },
                Ok(fs.next_fd),
            ),
        }
    }
}

/// `mkdir(path)`: insert an empty directory with permission `ReadWrite` at
/// `path`.  The empty path and the bare root path are rejected as not
/// found; the other failures are those of `tree_insert`.
pub open spec fn mkdir_spec(fs: FsView, path: Seq<char>) -> (FsView, Result<
    (),
    FileSystemError,
>) {
    let comps = path_components(path);
    if is_root_components(comps) {
        (fs, Err(FileSystemError::FileNotFound))
    } else {
        let leaf = INodeView::Folder {
            entries: Seq::<crate::tree::DirEntryView>::empty(),
            permissions: Permissions::ReadWrite,
        };
        match tree_insert(fs.root, comps, leaf) {
            Err(e) => (fs, Err(e)),
            Ok(root2) => (
                FsView {
                    root: root2,
                    files: fs.files,
                    descriptors: fs.descriptors,
                    next_fd: fs.next_fd,
                },
                Ok(()),
            ),
        }
    }
}

/// `rmdir(path)`: remove the directory at `path` if it exists, is a
/// directory, and is empty.  The empty path and the bare root path are
/// rejected as not found.
pub open spec fn rmdir_spec(fs: FsView, path: Seq<char>) -> (FsView, Result<
    (),
    FileSystemError,
>) {
    let comps = path_components(path);
    if is_root_components(comps) {
        (fs, Err(FileSystemError::FileNotFound))
    } else {
        match tree_remove_dir(fs.root, comps) {
            Err(e) => (fs, Err(e)),
            Ok(root2) => (
                FsView {
                    root: root2,
                    files: fs.files,
                    descriptors: fs.descriptors,
                    next_fd: fs.next_fd,
                },
                Ok(()),
            ),
        }
    }
}

/// `open(path)`: resolve the full path; the target must be a file.  A new
/// descriptor on the file's payload is allocated with cursor 0, sharing
/// that payload with every other descriptor open on the same live file.
pub open spec fn open_spec(fs: FsView, path: Seq<char>) -> (FsView, Result<
    usize,
    FileSystemError,
>) {
    let comps = path_components(path);
    match tree_resolve(fs.root, comps) {
        Err(e) => (fs, Err(e)),
        Ok(INodeView::Folder { .. }) => (fs, Err(FileSystemError::InvalidType)),
        Ok(INodeView::File { id, .. }) => (
            FsView {
                root: fs.root,
                files: fs.files,
                descriptors: fs.descriptors.insert(
                    fs.next_fd,
                    FileDescriptor { file_id: id as usize, position: 0 },
                ),
                next_fd: (fs.next_fd + 1) as usize,
            },
            Ok(fs.next_fd),
        ),
    }
}

/// `close(fd)`: remove the descriptor-table entry; a handle that is not
/// open is rejected.
pub open spec fn close_spec(fs: FsView, fd: usize) -> (FsView, Result<(), FileSystemError>) {
    if fs.descriptors.contains_key(fd) {
        (
            FsView {
                root: fs.root,
                files: fs.files,
                descriptors: fs.descriptors.remove(fd),
                next_fd: fs.next_fd,
            },
            Ok(()),
        )
    } else {
        (fs, Err(FileSystemError::InvalidFileDescriptor))
    }
}

/// `write(fd, data)`: append `data` to the shared payload of the
/// descriptor's file.  Append semantics: the cursor is not consulted and
/// not moved.  The write is visible through every descriptor open on the
/// same file.
pub open spec fn write_spec(fs: FsView, fd: usize, data: Seq<u8>) -> (FsView, Result<
    (),
    FileSystemError,
>) {
    if !fs.descriptors.contains_key(fd) {
        (fs, Err(FileSystemError::InvalidFileDescriptor))
    } else {
        let d = fs.descriptors[fd];
        (
            FsView {
                root: fs.root,
                files: fs.files.update(d.file_id as int, fs.files[d.file_id as int] + data),
                descriptors: fs.descriptors,
                next_fd: fs.next_fd,
            },
            Ok(()),
        )
    }
}

/// `read(fd, buffer_len)`: the bytes of the descriptor's file from the
/// cursor on, at most `buffer_len` of them, together with their count.  A
/// count of 0 at end of file is not an error.  Reading does not advance
/// the cursor — cursor movement is exclusively via `seek` — and does not
/// change any state, so this specification returns no new state.
pub open spec fn read_spec(fs: FsView, fd: usize, buffer_len: usize) -> Result<
    (usize, Seq<u8>),
    FileSystemError,
> {
    if !fs.descriptors.contains_key(fd) {
        Err(FileSystemError::InvalidFileDescriptor)
    } else {
        let d = fs.descriptors[fd];
        let data = fs.files[d.file_id as int];
        let avail = if d.position <= data.len() {
            data.len() - d.position
        } else {
            0
        };
        let count = if buffer_len <= avail {
            buffer_len as int
        } else {
            avail
        };
        Ok((count as usize, data.subrange(d.position as int, d.position + count)))
    }
}

/// The absolute position a seek asks for: an offset from the start, from
/// the current cursor, or from the end of the file.
pub open spec fn seek_target(d: FileDescriptor, file_len: int, offset: OffsetFrom) -> int {
    match offset {
        OffsetFrom::Start(n) => n as int,
        OffsetFrom::Current(delta) => d.position + delta,
        OffsetFrom::End(delta) => file_len + delta,
    }
}

/// `seek(fd, offset)`: compute the target position; it must lie within
/// `[0, file_len]` — a negative target and a target past the end are both
/// rejected, leaving the cursor unchanged.  On success the cursor is set
/// to the target and returned.
pub open spec fn seek_spec(fs: FsView, fd: usize, offset: OffsetFrom) -> (FsView, Result<
    usize,
    FileSystemError,
>) {
    if !fs.descriptors.contains_key(fd) {
        (fs, Err(FileSystemError::InvalidFileDescriptor))
    } else {
        let d = fs.descriptors[fd];
        let file_len = fs.files[d.file_id as int].len() as int;
        let target = seek_target(d, file_len, offset);
        if 0 <= target <= file_len {
            (
                FsView {
                    root: fs.root,
                    files: fs.files,
                    descriptors: fs.descriptors.insert(
                        fd,
                        FileDescriptor { file_id: d.file_id, position: target as usize },
                    ),
                    next_fd: fs.next_fd,
                },
                Ok(target as usize),
            )
        } else {
            (fs, Err(FileSystemError::InvalidType))
        }
    }
}

/// The freshly mounted state satisfies the invariant.
pub proof fn lemma_mount_spec_wf()
    ensures
        mount_spec().wf(),
{
    broadcast use vstd::map::group_map_axioms;

}

/// `create` preserves the invariant.
pub proof fn lemma_create_spec_wf(fs: FsView, path: Seq<char>, perm: Permissions)
    requires
        fs.wf(),
        fs.can_allocate(),
        fs.can_add_file(),
    ensures
        create_spec(fs, path, perm).0.wf(),
{
    let comps = path_components(path);
    lemma_split_components_len(strip_leading_slash(path));
    if !is_root_components(comps) {
        let n = fs.files.len() as int;
        let leaf = INodeView::File { id: n, permissions: perm };
        if tree_insert(fs.root, comps, leaf) is Ok {
            lemma_ids_bounded_mono(fs.root, n, n + 1);
            lemma_tree_insert_effect(fs.root, comps, leaf, n + 1);
            let fs2 = create_spec(fs, path, perm).0;
            assert forall|fd: usize| #[trigger] fs2.descriptors.contains_key(fd) implies {
                let d = fs2.descriptors[fd];
                &&& (d.file_id as int) < fs2.files.len()
                &&& (d.position as int) <= fs2.files[d.file_id as int].len()
                &&& 1 <= fd < fs2.next_fd
            } by {
                if fd != fs.next_fd {
                    assert(fs.descriptors.contains_key(fd));
                    let d = fs.descriptors[fd];
                    assert(fs2.files[d.file_id as int] == fs.files[d.file_id as int]);
                }
            }
        }
    }
}

/// `mkdir` preserves the invariant.
pub proof fn lemma_mkdir_spec_wf(fs: FsView, path: Seq<char>)
    requires
        fs.wf(),
    ensures
        mkdir_spec(fs, path).0.wf(),
{
    let comps = path_components(path);
    lemma_split_components_len(strip_leading_slash(path));
    if !is_root_components(comps) {
        let leaf = INodeView::Folder {
            entries: Seq::<crate::tree::DirEntryView>::empty(),
            permissions: Permissions::ReadWrite,
        };
        if tree_insert(fs.root, comps, leaf) is Ok {
            lemma_tree_insert_effect(fs.root, comps, leaf, fs.files.len() as int);
        }
    }
}

/// `rmdir` preserves the invariant.
pub proof fn lemma_rmdir_spec_wf(fs: FsView, path: Seq<char>)
    requires
        fs.wf(),
    ensures
        rmdir_spec(fs, path).0.wf(),
{
    let comps = path_components(path);
    lemma_split_components_len(strip_leading_slash(path));
    if !is_root_components(comps) {
        if tree_remove_dir(fs.root, comps) is Ok {
            lemma_tree_remove_effect(fs.root, comps, fs.files.len() as int);
        }
    }
}

/// `open` preserves the invariant.
pub proof fn lemma_open_spec_wf(fs: FsView, path: Seq<char>)
    requires
        fs.wf(),
        fs.can_allocate(),
    ensures
        open_spec(fs, path).0.wf(),
{
    let comps = path_components(path);
    if tree_resolve(fs.root, comps) is Ok {
        lemma_tree_resolve_wf(fs.root, comps, fs.files.len() as int);
        match tree_resolve(fs.root, comps) {
            Ok(INodeView::File { id, .. }) => {
                let fs2 = open_spec(fs, path).0;
                assert(0 <= id < fs.files.len());
                assert forall|fd: usize| #[trigger] fs2.descriptors.contains_key(fd) implies {
                    let d = fs2.descriptors[fd];
                    &&& (d.file_id as int) < fs2.files.len()
                    &&& (d.position as int) <= fs2.files[d.file_id as int].len()
                    &&& 1 <= fd < fs2.next_fd
                } by {
                    if fd != fs.next_fd {
                        assert(fs.descriptors.contains_key(fd));
                    }
                }
            },
            _ => {},
        }
    }
}

/// `close` preserves the invariant.
pub proof fn lemma_close_spec_wf(fs: FsView, fd: usize)
    requires
        fs.wf(),
    ensures
        close_spec(fs, fd).0.wf(),
{
    let fs2 = close_spec(fs, fd).0;
    assert forall|fd2: usize| #[trigger] fs2.descriptors.contains_key(fd2) implies {
        let d = fs2.descriptors[fd2];
        &&& (d.file_id as int) < fs2.files.len()
        &&& (d.position as int) <= fs2.files[d.file_id as int].len()
        &&& 1 <= fd2 < fs2.next_fd
    } by {
        assert(fs.descriptors.contains_key(fd2));
    }
}

/// `write` preserves the invariant: payloads only grow, so every open
/// cursor stays inside its file.
pub proof fn lemma_write_spec_wf(fs: FsView, fd: usize, data: Seq<u8>)
    requires
        fs.wf(),
    ensures
        write_spec(fs, fd, data).0.wf(),
{
    if fs.descriptors.contains_key(fd) {
        let d = fs.descriptors[fd];
        let fs2 = write_spec(fs, fd, data).0;
        assert forall|fd2: usize| #[trigger] fs2.descriptors.contains_key(fd2) implies {
            let d2 = fs2.descriptors[fd2];
            &&& (d2.file_id as int) < fs2.files.len()
            &&& (d2.position as int) <= fs2.files[d2.file_id as int].len()
            &&& 1 <= fd2 < fs2.next_fd
        } by {
            assert(fs.descriptors.contains_key(fd2));
            let d2 = fs.descriptors[fd2];
            if d2.file_id == d.file_id {
                assert(fs2.files[d2.file_id as int].len() >= fs.files[d2.file_id as int].len());
            } else {
                assert(fs2.files[d2.file_id as int] == fs.files[d2.file_id as int]);
            }
        }
    }
}

/// `seek` preserves the invariant: a successful seek lands inside the
/// file.
pub proof fn lemma_seek_spec_wf(fs: FsView, fd: usize, offset: OffsetFrom)
    requires
        fs.wf(),
    ensures
        seek_spec(fs, fd, offset).0.wf(),
{
    if fs.descriptors.contains_key(fd) {
        let d = fs.descriptors[fd];
        let file_len = fs.files[d.file_id as int].len() as int;
        let target = seek_target(d, file_len, offset);
        if 0 <= target <= file_len {
            let fs2 = seek_spec(fs, fd, offset).0;
            assert forall|fd2: usize| #[trigger] fs2.descriptors.contains_key(fd2) implies {
                let d2 = fs2.descriptors[fd2];
                &&& (d2.file_id as int) < fs2.files.len()
                &&& (d2.position as int) <= fs2.files[d2.file_id as int].len()
                &&& 1 <= fd2 < fs2.next_fd
            } by {
                if fd2 != fd {
                    assert(fs.descriptors.contains_key(fd2));
                } else {
                    assert(fs.descriptors.contains_key(fd));
                }
            }
        }
    }
}

/// The file system: the root of the tree, the arena of file payloads, the
/// descriptor table, and the next handle to assign.  Handles are assigned
/// monotonically from 1, so a live handle is never assigned twice.
pub struct SimpleFileSystem {
    pub root: INode,
    pub files: Vec<Vec<u8>>,
    pub file_descriptors: HashMap<usize, FileDescriptor>,
    pub next_fd: usize,
}

impl View for SimpleFileSystem {
    type V = FsView;

    open spec fn view(&self) -> FsView {
        FsView {
            root: self.root@,
            files: payloads_view(self.files@),
            descriptors: self.file_descriptors@,
            next_fd: self.next_fd,
        }
    }
}

impl SimpleFileSystem {
    pub open spec fn wf(&self) -> bool {
        self@.wf()
    }

    /// An empty namespace: a root directory with permission `ReadWrite`,
    /// no files, no open descriptors, handles starting at 1.
    pub fn new() -> (fs: SimpleFileSystem)
        ensures
            fs@ == mount_spec(),
            fs.wf(),
    {
        let fs = SimpleFileSystem {
            root: INode::Folder { contents: Vec::new(), permissions: Permissions::ReadWrite },
            files: Vec::new(),
            file_descriptors: HashMap::new(),
            next_fd: 1,
        };
        proof {
            assert(entries_view(Seq::<DirEntry>::empty()) =~= Seq::<
                crate::tree::DirEntryView,
            >::empty());
            assert(payloads_view(Seq::<Vec<u8>>::empty()) =~= Seq::<Seq<u8>>::empty());
            assert(fs@ == mount_spec());
            lemma_mount_spec_wf();
        }
        fs
    }

    /// Look up an open descriptor-table entry.
    pub fn get_file_descriptor(&self, fd: usize) -> (res: Result<FileDescriptor, FileSystemError>)
        ensures
            match res {
                Ok(d) => self@.descriptors.contains_key(fd) && d == self@.descriptors[fd],
                Err(e) => !self@.descriptors.contains_key(fd) && e
                    == FileSystemError::InvalidFileDescriptor,
            },
    {
        match self.file_descriptors.get(&fd) {
            Some(d) => Ok(*d),
            None => Err(FileSystemError::InvalidFileDescriptor),
        }
    }

    /// Assign the next handle to a new descriptor on the payload
    /// `file_id`, with cursor 0.
    pub fn allocate_fd(&mut self, file_id: usize) -> (fd: usize)
        requires
            old(self)@.can_allocate(),
        ensures
            fd == old(self)@.next_fd,
            final(self)@ == (FsView {
                root: old(self)@.root,
                files: old(self)@.files,
                descriptors: old(self)@.descriptors.insert(
                    fd,
                    FileDescriptor { file_id, position: 0 },
                ),
                next_fd: (old(self)@.next_fd + 1) as usize,
            }),
    {
        let fd = self.next_fd;
        self.next_fd = self.next_fd + 1;
        self.file_descriptors.insert(fd, FileDescriptor { file_id, position: 0 });
        fd
    }

    /// Resolve a path to the arena index of the file it names.
    pub fn get_inode(&self, path: &str) -> (res: Result<usize, FileSystemError>)
        requires
            self.wf(),
        ensures
            match tree_resolve(self@.root, path_components(path@)) {
                Ok(INodeView::File { id, .. }) => res == Ok::<usize, FileSystemError>(
                    id as usize,
                ),
                Ok(INodeView::Folder { .. }) => res == Err::<usize, FileSystemError>(
                    FileSystemError::InvalidType,
                ),
                Err(e) => res == Err::<usize, FileSystemError>(e),
            },
    {
        let comps = split_path(path);
        proof {
            assert(component_views(comps@).skip(0) =~= path_components(path@));
        }
        match resolve_node(&self.root, &comps, 0) {
            Err(e) => Err(e),
            Ok(node) => match node {
                INode::File { file_id, .. } => Ok(*file_id),
                INode::Folder { .. } => Err(FileSystemError::InvalidType),
            },
        }
    }

    /// Create an empty file at `path` with the given permission and open a
    /// descriptor on it.
    pub fn create(&mut self, path: &str, permissions_mode: Permissions) -> (res: Result<
        usize,
        FileSystemError,
    >)
        requires
            old(self).wf(),
            old(self)@.can_allocate(),
            old(self)@.can_add_file(),
        ensures
            final(self)@ == create_spec(old(self)@, path@, permissions_mode).0,
            res == create_spec(old(self)@, path@, permissions_mode).1,
            final(self).wf(),
    {
        let ghost fs0 = self@;
        let comps = split_path(path);
        proof {
            assert(component_views(comps@).len() == comps@.len());
            assert(comps@.len() >= 1 ==> component_views(comps@)[0] == comps@[0]@);
        }
        if comps.len() == 1 && comps[0].as_str().is_empty() {
            proof {
                assert(is_root_components(path_components(path@)));
            }
            return Err(FileSystemError::FileNotFound);
        }
        proof {
            assert(!is_root_components(path_components(path@)));
        }
        let file_id = self.files.len();
        let leaf = INode::File { file_id, permissions: permissions_mode };
        let mut root = INode::File { file_id: 0, permissions: Permissions::Read };
        core::mem::swap(&mut root, &mut self.root);
        proof {
            assert(root@ == fs0.root);
            assert(component_views(comps@).skip(0) =~= path_components(path@));
        }
        let (root2, r) = tree_insert_exec(root, &comps, 0, leaf);
        self.root = root2;
        match r {
            Err(e) => {
                proof {
                    assert(self@ == fs0);
                }
                Err(e)
            },
            Ok(()) => {
                let empty_payload: Vec<u8> = Vec::new();
                proof {
                    lemma_payloads_view_push(self.files@, empty_payload);
                    assert(empty_payload@ =~= Seq::<u8>::empty());
                }
                self.files.push(empty_payload);
                let fd = self.allocate_fd(file_id);
                proof {
                    assert(self@ == create_spec(fs0, path@, permissions_mode).0);
                    lemma_create_spec_wf(fs0, path@, permissions_mode);
                }
                Ok(fd)
            },
        }
    }

    /// Create an empty directory with permission `ReadWrite` at `path`.
    pub fn mkdir(&mut self, path: &str) -> (res: Result<(), FileSystemError>)
        requires
            old(self).wf(),
        ensures
            final(self)@ == mkdir_spec(old(self)@, path@).0,
            res == mkdir_spec(old(self)@, path@).1,
            final(self).wf(),
    {
        let ghost fs0 = self@;
        let comps = split_path(path);
        proof {
            assert(component_views(comps@).len() == comps@.len());
            assert(comps@.len() >= 1 ==> component_views(comps@)[0] == comps@[0]@);
        }
        if comps.len() == 1 && comps[0].as_str().is_empty() {
            proof {
                assert(is_root_components(path_components(path@)));
            }
            return Err(FileSystemError::FileNotFound);
        }
        proof {
            assert(!is_root_components(path_components(path@)));
        }
        let leaf = INode::Folder { contents: Vec::new(), permissions: Permissions::ReadWrite };
        let mut root = INode::File { file_id: 0, permissions: Permissions::Read };
        core::mem::swap(&mut root, &mut self.root);
        proof {
            assert(root@ == fs0.root);
            assert(component_views(comps@).skip(0) =~= path_components(path@));
            assert(entries_view(Seq::<DirEntry>::empty()) =~= Seq::<
                crate::tree::DirEntryView,
            >::empty());
        }
        let (root2, r) = tree_insert_exec(root, &comps, 0, leaf);
        self.root = root2;
        proof {
            if r is Err {
                assert(self@ == fs0);
            } else {
                assert(self@ == mkdir_spec(fs0, path@).0);
            }
            lemma_mkdir_spec_wf(fs0, path@);
        }
        match r {
            Err(e) => Err(e),
            Ok(()) => Ok(()),
        }
    }

    /// Remove the directory at `path`; it must exist, be a directory, and
    /// be empty.
    pub fn rmdir(&mut self, path: &str) -> (res: Result<(), FileSystemError>)
        requires
            old(self).wf(),
        ensures
            final(self)@ == rmdir_spec(old(self)@, path@).0,
            res == rmdir_spec(old(self)@, path@).1,
            final(self).wf(),
    {
        let ghost fs0 = self@;
        let comps = split_path(path);
        proof {
            assert(component_views(comps@).len() == comps@.len());
            assert(comps@.len() >= 1 ==> component_views(comps@)[0] == comps@[0]@);
        }
        if comps.len() == 1 && comps[0].as_str().is_empty() {
            proof {
                assert(is_root_components(path_components(path@)));
            }
            return Err(FileSystemError::FileNotFound);
        }
        proof {
            assert(!is_root_components(path_components(path@)));
        }
        let mut root = INode::File { file_id: 0, permissions: Permissions::Read };
        core::mem::swap(&mut root, &mut self.root);
        proof {
            assert(root@ == fs0.root);
            assert(component_views(comps@).skip(0) =~= path_components(path@));
        }
        let (root2, r) = tree_remove_exec(root, &comps, 0);
        self.root = root2;
        proof {
            if r is Err {
                assert(self@ == fs0);
            } else {
                assert(self@ == rmdir_spec(fs0, path@).0);
            }
            lemma_rmdir_spec_wf(fs0, path@);
        }
        match r {
            Err(e) => Err(e),
            Ok(()) => Ok(()),
        }
    }

    /// Open a descriptor, with cursor 0, on the file at `path`.  The
    /// descriptor shares its payload with every other descriptor open on
    /// the same live file.
    pub fn open(&mut self, path: &str) -> (res: Result<usize, FileSystemError>)
        requires
            old(self).wf(),
            old(self)@.can_allocate(),
        ensures
            final(self)@ == open_spec(old(self)@, path@).0,
            res == open_spec(old(self)@, path@).1,
            final(self).wf(),
    {
        let ghost fs0 = self@;
        let target = self.get_inode(path);
        match target {
            Err(e) => Err(e),
            Ok(file_id) => {
                let fd = self.allocate_fd(file_id);
                proof {
                    assert(self@ == open_spec(fs0, path@).0);
                    lemma_open_spec_wf(fs0, path@);
                }
                Ok(fd)
            },
        }
    }

    /// Close the descriptor `fd`, freeing the handle.
    pub fn close(&mut self, fd: usize) -> (res: Result<(), FileSystemError>)
        requires
            old(self).wf(),
        ensures
            final(self)@ == close_spec(old(self)@, fd).0,
            res == close_spec(old(self)@, fd).1,
            final(self).wf(),
    {
        let ghost fs0 = self@;
        proof {
            lemma_close_spec_wf(fs0, fd);
        }
        let removed = self.file_descriptors.remove(&fd);
        proof {
            if !fs0.descriptors.contains_key(fd) {
                assert(fs0.descriptors.remove(fd) =~= fs0.descriptors);
            }
            assert(self@ == close_spec(fs0, fd).0);
        }
        match removed {
            Some(_) => Ok(()),
            None => Err(FileSystemError::InvalidFileDescriptor),
        }
    }

    /// Append `data` to the shared payload of the descriptor's file.  The
    /// cursor is not consulted and not moved: `write` has append
    /// semantics, and the appended bytes are visible through every
    /// descriptor open on the same file.
    pub fn write(&mut self, fd: usize, data: &[u8]) -> (res: Result<(), FileSystemError>)
        requires
            old(self).wf(),
        ensures
            final(self)@ == write_spec(old(self)@, fd, data@).0,
            res == write_spec(old(self)@, fd, data@).1,
            final(self).wf(),
    {
        let ghost fs0 = self@;
        let d = match self.get_file_descriptor(fd) {
            Err(e) => {
                return Err(e);
            },
            Ok(d) => d,
        };
        let ghost files0 = self.files@;
        let mut payload: Vec<u8> = Vec::new();
        self.files.set_and_swap(d.file_id, &mut payload);
        let ghost payload0 = payload@;
        let mut j: usize = 0;
        while j < data.len()
            invariant
                j <= data@.len(),
                payload@ == payload0 + data@.take(j as int),
            decreases data@.len() - j,
        {
            payload.push(data[j]);
            proof {
                assert(payload0 + data@.take(j as int) + seq![data@[j as int]] =~= payload0
                    + data@.take(j + 1));
            }
            j = j + 1;
        }
        proof {
            assert(data@.take(data@.len() as int) =~= data@);
        }
        self.files.set(d.file_id, payload);
        proof {
            assert(self.files@ =~= files0.update(d.file_id as int, payload));
            lemma_payloads_view_update(files0, d.file_id as int, payload);
            assert(self@.files =~= write_spec(fs0, fd, data@).0.files);
            assert(self@ == write_spec(fs0, fd, data@).0);
            lemma_write_spec_wf(fs0, fd, data@);
        }
        Ok(())
    }

    /// Read up to `buffer_len` bytes of the descriptor's file, starting at
    /// the cursor; the count actually read may be 0 at or past end of
    /// file, which is not an error.  The cursor is not advanced — cursor
    /// movement is exclusively via `seek` — and no state changes.
    pub fn read(&self, fd: usize, buffer_len: usize) -> (res: Result<
        (usize, Vec<u8>),
        FileSystemError,
    >)
        requires
            self.wf(),
        ensures
            match res {
                Ok(p) => read_spec(self@, fd, buffer_len) == Ok::<
                    (usize, Seq<u8>),
                    FileSystemError,
                >((p.0, p.1@)) && p.0 == p.1@.len(),
                Err(e) => read_spec(self@, fd, buffer_len) == Err::<
                    (usize, Seq<u8>),
                    FileSystemError,
                >(e),
            },
    {
        let d = match self.get_file_descriptor(fd) {
            Err(e) => {
                return Err(e);
            },
            Ok(d) => d,
        };
        let payload = &self.files[d.file_id];
        let avail = payload.len() - d.position;
        let count = if buffer_len < avail {
            buffer_len
        } else {
            avail
        };
        let mut out: Vec<u8> = Vec::new();
        let mut j: usize = 0;
        while j < count
            invariant
                j <= count,
                count <= avail,
                d.position + avail == payload@.len(),
                d.position + avail <= usize::MAX,
                out@ == payload@.subrange(d.position as int, d.position + j),
            decreases count - j,
        {
            out.push(payload[d.position + j]);
            proof {
                assert(payload@.subrange(d.position as int, d.position + j) + seq![
                    payload@[d.position + j],
                ] =~= payload@.subrange(d.position as int, d.position + j + 1));
            }
            j = j + 1;
        }
        Ok((count, out))
    }

    /// Move the descriptor's cursor.  The target position must lie within
    /// `[0, file_len]`: a negative target and a target past the end are
    /// both rejected, leaving the cursor unchanged.
    pub fn seek(&mut self, fd: usize, offset: OffsetFrom) -> (res: Result<
        usize,
        FileSystemError,
    >)
        requires
            old(self).wf(),
        ensures
            final(self)@ == seek_spec(old(self)@, fd, offset).0,
            res == seek_spec(old(self)@, fd, offset).1,
            final(self).wf(),
    {
        let ghost fs0 = self@;
        let d = match self.get_file_descriptor(fd) {
            Err(e) => {
                return Err(e);
            },
            Ok(d) => d,
        };
        let file_len = self.files[d.file_id].len();
        let target: i128 = match offset {
            OffsetFrom::Start(n) => n as i128,
            OffsetFrom::Current(delta) => d.position as i128 + delta as i128,
            OffsetFrom::End(delta) => file_len as i128 + delta as i128,
        };
        proof {
            assert(file_len as int == fs0.files[d.file_id as int].len());
            assert(target as int == seek_target(d, file_len as int, offset));
            lemma_seek_spec_wf(fs0, fd, offset);
        }
        if target < 0 || target > file_len as i128 {
            Err(FileSystemError::InvalidType)
        } else {
            let new_position = target as usize;
            self.file_descriptors.insert(
                fd,
                FileDescriptor { file_id: d.file_id, position: new_position },
            );
            Ok(new_position)
        }
    }
}

/// Mount the file system: construct an empty namespace with a single root
/// directory of permission `ReadWrite` and an empty descriptor table
/// starting handle allocation at 1.
pub fn mount() -> (fs: SimpleFileSystem)
    ensures
        fs@ == mount_spec(),
        fs.wf(),
{
    SimpleFileSystem::new()
}

} // verus!
