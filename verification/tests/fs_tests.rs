use simple_fs::fs::mount;
use simple_fs::tree::DirEntry;
use simple_fs::tree::INode;
use simple_fs::fs::SimpleFileSystem;
use simple_fs::types::FileDescriptor;
use simple_fs::types::FileSystemError;
use simple_fs::types::OffsetFrom;
use simple_fs::types::Permissions;

#[test]
fn mount_gives_empty_namespace() {
    let fs = mount();
    assert_eq!(fs.next_fd, 1);
    assert_eq!(fs.files.len(), 0);
    assert!(fs.file_descriptors.is_empty());
}

#[test]
fn create_returns_handles_from_one() {
    let mut fs = SimpleFileSystem::new();
    assert_eq!(fs.create("/a.txt", Permissions::ReadWrite), Ok(1));
    assert_eq!(fs.create("/b.txt", Permissions::Read), Ok(2));
    assert_eq!(fs.create("/c.txt", Permissions::Write), Ok(3));
}

#[test]
fn create_twice_fails_file_exists() {
    let mut fs = mount();
    assert_eq!(fs.create("/f", Permissions::ReadWrite), Ok(1));
    assert_eq!(
        fs.create("/f", Permissions::ReadWrite),
        Err(FileSystemError::FileExists)
    );
    assert_eq!(fs.mkdir("/f"), Err(FileSystemError::FileExists));
}

#[test]
fn mkdir_twice_fails_file_exists() {
    let mut fs = mount();
    assert_eq!(fs.mkdir("/d"), Ok(()));
    assert_eq!(fs.mkdir("/d"), Err(FileSystemError::FileExists));
    assert_eq!(
        fs.create("/d", Permissions::ReadWrite),
        Err(FileSystemError::FileExists)
    );
}

#[test]
fn create_below_file_fails_invalid_type() {
    let mut fs = mount();
    assert_eq!(fs.create("/a", Permissions::ReadWrite), Ok(1));
    assert_eq!(
        fs.create("/a/b", Permissions::ReadWrite),
        Err(FileSystemError::InvalidType)
    );
    assert_eq!(fs.mkdir("/a/b"), Err(FileSystemError::InvalidType));
}

#[test]
fn create_below_missing_fails_file_not_found() {
    let mut fs = mount();
    assert_eq!(
        fs.create("/a/b", Permissions::ReadWrite),
        Err(FileSystemError::FileNotFound)
    );
    assert_eq!(fs.mkdir("/a/b"), Err(FileSystemError::FileNotFound));
}

#[test]
fn create_in_nested_directory() {
    let mut fs = mount();
    assert_eq!(fs.mkdir("/a"), Ok(()));
    assert_eq!(fs.mkdir("/a/b"), Ok(()));
    assert_eq!(fs.create("/a/b/f", Permissions::ReadWrite), Ok(1));
    assert_eq!(fs.open("/a/b/f"), Ok(2));
}

#[test]
fn empty_and_root_paths_are_rejected() {
    let mut fs = mount();
    assert_eq!(
        fs.create("", Permissions::ReadWrite),
        Err(FileSystemError::FileNotFound)
    );
    assert_eq!(
        fs.create("/", Permissions::ReadWrite),
        Err(FileSystemError::FileNotFound)
    );
    assert_eq!(fs.mkdir(""), Err(FileSystemError::FileNotFound));
    assert_eq!(fs.mkdir("/"), Err(FileSystemError::FileNotFound));
    assert_eq!(fs.rmdir(""), Err(FileSystemError::FileNotFound));
    assert_eq!(fs.rmdir("/"), Err(FileSystemError::FileNotFound));
    assert_eq!(fs.open(""), Err(FileSystemError::FileNotFound));
    assert_eq!(fs.open("/"), Err(FileSystemError::FileNotFound));
}

#[test]
fn double_separator_component_fails_lookup() {
    let mut fs = mount();
    fs.mkdir("/a").unwrap();
    assert_eq!(fs.open("//a"), Err(FileSystemError::FileNotFound));
}

#[test]
fn mkdir_in_read_only_directory_fails_permission_denied() {
    // No public operation creates a read-only directory (mkdir always uses
    // ReadWrite), so build a namespace whose root holds one directly.
    let mut fs = mount();
    match &mut fs.root {
        INode::Folder { contents, .. } => contents.push(DirEntry {
            name: String::from("ro"),
            node: INode::Folder {
                contents: Vec::new(),
                permissions: Permissions::Read,
            },
        }),
        INode::File { .. } => unreachable!(),
    }
    assert_eq!(fs.mkdir("/ro/x"), Err(FileSystemError::PermissionDenied));
    assert_eq!(
        fs.create("/ro/x", Permissions::ReadWrite),
        Err(FileSystemError::PermissionDenied)
    );
}

#[test]
fn rmdir_empty_only() {
    let mut fs = mount();
    assert_eq!(fs.mkdir("/d"), Ok(()));
    assert_eq!(fs.mkdir("/d/e"), Ok(()));
    assert_eq!(fs.rmdir("/d"), Err(FileSystemError::DirectoryNotEmpty));
    assert_eq!(fs.rmdir("/d/e"), Ok(()));
    assert_eq!(fs.rmdir("/d"), Ok(()));
}

#[test]
fn rmdir_errors() {
    let mut fs = mount();
    assert_eq!(fs.rmdir("/missing"), Err(FileSystemError::FileNotFound));
    fs.create("/f", Permissions::ReadWrite).unwrap();
    assert_eq!(fs.rmdir("/f"), Err(FileSystemError::InvalidType));
    fs.mkdir("/d").unwrap();
    assert_eq!(fs.rmdir("/d"), Ok(()));
    assert_eq!(fs.rmdir("/d"), Err(FileSystemError::FileNotFound));
}

#[test]
fn open_errors() {
    let mut fs = mount();
    assert_eq!(fs.open("/missing"), Err(FileSystemError::FileNotFound));
    fs.mkdir("/d").unwrap();
    assert_eq!(fs.open("/d"), Err(FileSystemError::InvalidType));
}

#[test]
fn shared_state_visibility() {
    let mut fs = mount();
    let fd1 = fs.create("/f", Permissions::ReadWrite).unwrap();
    let fd2 = fs.open("/f").unwrap();
    assert_ne!(fd1, fd2);
    assert_eq!(fs.write(fd1, b"ab"), Ok(()));
    assert_eq!(fs.seek(fd2, OffsetFrom::Start(0)), Ok(0));
    let (count, bytes) = fs.read(fd2, 2).unwrap();
    assert_eq!(count, 2);
    assert_eq!(bytes, b"ab".to_vec());
}

#[test]
fn descriptors_on_same_file_share_payload_index() {
    let mut fs = mount();
    let fd1 = fs.create("/f", Permissions::ReadWrite).unwrap();
    let fd2 = fs.open("/f").unwrap();
    let d1 = fs.get_file_descriptor(fd1).unwrap();
    let d2 = fs.get_file_descriptor(fd2).unwrap();
    assert_eq!(d1.file_id, d2.file_id);
    assert_eq!(
        d1,
        FileDescriptor {
            file_id: d2.file_id,
            position: 0
        }
    );
}

#[test]
fn seek_bounds_on_five_byte_file() {
    let mut fs = mount();
    let fd = fs.create("/f", Permissions::ReadWrite).unwrap();
    fs.write(fd, b"hello").unwrap();
    assert_eq!(fs.seek(fd, OffsetFrom::End(0)), Ok(5));
    assert_eq!(
        fs.seek(fd, OffsetFrom::Start(6)),
        Err(FileSystemError::InvalidType)
    );
    assert_eq!(fs.seek(fd, OffsetFrom::Start(0)), Ok(0));
    assert_eq!(
        fs.seek(fd, OffsetFrom::Current(-100)),
        Err(FileSystemError::InvalidType)
    );
    // a failed seek leaves the cursor unchanged
    assert_eq!(fs.get_file_descriptor(fd).unwrap().position, 0);
    assert_eq!(fs.seek(fd, OffsetFrom::End(-2)), Ok(3));
    assert_eq!(fs.seek(fd, OffsetFrom::Current(1)), Ok(4));
    assert_eq!(fs.seek(fd, OffsetFrom::Current(-4)), Ok(0));
    assert_eq!(
        fs.seek(fd, OffsetFrom::End(1)),
        Err(FileSystemError::InvalidType)
    );
    assert_eq!(
        fs.seek(fd, OffsetFrom::End(-6)),
        Err(FileSystemError::InvalidType)
    );
}

#[test]
fn descriptor_lifecycle() {
    let mut fs = mount();
    let fd = fs.create("/f", Permissions::ReadWrite).unwrap();
    assert_eq!(fs.close(fd), Ok(()));
    assert_eq!(
        fs.read(fd, 1),
        Err(FileSystemError::InvalidFileDescriptor)
    );
    assert_eq!(
        fs.write(fd, b"x"),
        Err(FileSystemError::InvalidFileDescriptor)
    );
    assert_eq!(
        fs.seek(fd, OffsetFrom::Start(0)),
        Err(FileSystemError::InvalidFileDescriptor)
    );
    assert_eq!(fs.close(fd), Err(FileSystemError::InvalidFileDescriptor));
}

#[test]
fn operations_on_never_opened_handle_fail() {
    let mut fs = mount();
    assert_eq!(
        fs.read(7, 1),
        Err(FileSystemError::InvalidFileDescriptor)
    );
    assert_eq!(
        fs.write(7, b"x"),
        Err(FileSystemError::InvalidFileDescriptor)
    );
    assert_eq!(
        fs.seek(7, OffsetFrom::Start(0)),
        Err(FileSystemError::InvalidFileDescriptor)
    );
    assert_eq!(fs.close(7), Err(FileSystemError::InvalidFileDescriptor));
    assert_eq!(
        fs.get_file_descriptor(7),
        Err(FileSystemError::InvalidFileDescriptor)
    );
}

#[test]
fn write_read_round_trip() {
    let mut fs = mount();
    let fd = fs.create("/f", Permissions::ReadWrite).unwrap();
    let payload = b"Hello, world!";
    assert_eq!(fs.write(fd, payload), Ok(()));
    assert_eq!(fs.seek(fd, OffsetFrom::Start(0)), Ok(0));
    let (count, bytes) = fs.read(fd, payload.len()).unwrap();
    assert_eq!(count, payload.len());
    assert_eq!(bytes, payload.to_vec());
}

#[test]
fn write_appends_regardless_of_cursor() {
    let mut fs = mount();
    let fd = fs.create("/f", Permissions::ReadWrite).unwrap();
    fs.write(fd, b"abc").unwrap();
    fs.seek(fd, OffsetFrom::Start(1)).unwrap();
    // the cursor is not consulted by write: the bytes land at the end
    fs.write(fd, b"de").unwrap();
    fs.seek(fd, OffsetFrom::Start(0)).unwrap();
    let (count, bytes) = fs.read(fd, 10).unwrap();
    assert_eq!(count, 5);
    assert_eq!(bytes, b"abcde".to_vec());
}

#[test]
fn read_does_not_advance_cursor() {
    let mut fs = mount();
    let fd = fs.create("/f", Permissions::ReadWrite).unwrap();
    fs.write(fd, b"abcd").unwrap();
    fs.seek(fd, OffsetFrom::Start(1)).unwrap();
    let (count1, bytes1) = fs.read(fd, 2).unwrap();
    let (count2, bytes2) = fs.read(fd, 2).unwrap();
    assert_eq!((count1, count2), (2, 2));
    assert_eq!(bytes1, b"bc".to_vec());
    assert_eq!(bytes2, b"bc".to_vec());
    assert_eq!(fs.get_file_descriptor(fd).unwrap().position, 1);
}

#[test]
fn read_at_end_of_file_returns_zero() {
    let mut fs = mount();
    let fd = fs.create("/f", Permissions::ReadWrite).unwrap();
    fs.write(fd, b"xy").unwrap();
    fs.seek(fd, OffsetFrom::End(0)).unwrap();
    let (count, bytes) = fs.read(fd, 4).unwrap();
    assert_eq!(count, 0);
    assert!(bytes.is_empty());
    // an empty fresh file reads as zero bytes too
    let fd2 = fs.create("/g", Permissions::ReadWrite).unwrap();
    assert_eq!(fs.read(fd2, 8), Ok((0, Vec::new())));
}

#[test]
fn read_truncates_to_available_bytes() {
    let mut fs = mount();
    let fd = fs.create("/f", Permissions::ReadWrite).unwrap();
    fs.write(fd, b"abcdef").unwrap();
    fs.seek(fd, OffsetFrom::Start(4)).unwrap();
    let (count, bytes) = fs.read(fd, 100).unwrap();
    assert_eq!(count, 2);
    assert_eq!(bytes, b"ef".to_vec());
}

#[test]
fn get_inode_returns_arena_index() {
    let mut fs = mount();
    fs.create("/a", Permissions::ReadWrite).unwrap();
    fs.create("/b", Permissions::ReadWrite).unwrap();
    assert_eq!(fs.get_inode("/a"), Ok(0));
    assert_eq!(fs.get_inode("/b"), Ok(1));
    assert_eq!(fs.get_inode("/c"), Err(FileSystemError::FileNotFound));
    fs.mkdir("/d").unwrap();
    assert_eq!(fs.get_inode("/d"), Err(FileSystemError::InvalidType));
}

#[test]
fn allocate_fd_is_monotonic() {
    let mut fs = mount();
    fs.create("/a", Permissions::ReadWrite).unwrap();
    let fd1 = fs.allocate_fd(0);
    let fd2 = fs.allocate_fd(0);
    assert_eq!((fd1, fd2), (2, 3));
    assert_eq!(
        fs.get_file_descriptor(fd2),
        Ok(FileDescriptor {
            file_id: 0,
            position: 0
        })
    );
}

#[test]
fn closed_handle_is_not_reassigned() {
    let mut fs = mount();
    let fd1 = fs.create("/a", Permissions::ReadWrite).unwrap();
    fs.close(fd1).unwrap();
    let fd2 = fs.create("/b", Permissions::ReadWrite).unwrap();
    assert_ne!(fd1, fd2);
    assert_eq!(fd2, 2);
}

#[test]
fn write_visible_after_reopening() {
    let mut fs = mount();
    let fd1 = fs.create("/f", Permissions::Write).unwrap();
    fs.write(fd1, b"persist").unwrap();
    fs.close(fd1).unwrap();
    let fd2 = fs.open("/f").unwrap();
    let (count, bytes) = fs.read(fd2, 7).unwrap();
    assert_eq!(count, 7);
    assert_eq!(bytes, b"persist".to_vec());
}
