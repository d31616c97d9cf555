use webdav_fuse::file::{
    File, FileAttr, FileState, FileType, BLOCK_SIZE, PERMISSIONS, TTL_SECONDS,
};
use webdav_fuse::filesystem::InodeId;
use webdav_fuse::prop::{Prop, ResourceType};

fn prop(path: &str, size: u64, kind: ResourceType, time: i64) -> Prop {
    Prop::new("tag".to_string(), path.to_string(), size, kind, time)
}

#[test]
fn a_file_prop_becomes_a_remote_file() {
    let file = File::from(prop("/docs/a.txt", 10, ResourceType::File, 1424301369));
    assert_eq!(file.attributes().name(), "a.txt");
    assert_eq!(file.attributes().size(), 10);
    assert_eq!(file.attributes().mtime(), 1424301369);
    assert!(!file.attributes().is_directory());
    assert_eq!(file.attributes().state(), FileState::RemoteOnly);
    assert_eq!(file.attributes().fuser_filetype(), FileType::RegularFile);
    assert_eq!(file.etag(), "tag");
}

#[test]
fn a_collection_prop_becomes_a_remote_directory() {
    let file = File::from(prop("/docs/sub/", 0, ResourceType::Collection, -5));
    assert_eq!(file.attributes().name(), "sub");
    assert_eq!(file.attributes().size(), 0);
    assert_eq!(file.attributes().mtime(), -5);
    assert!(file.attributes().is_directory());
    assert_eq!(file.attributes().state(), FileState::RemoteOnly);
    assert_eq!(file.attributes().fuser_filetype(), FileType::Directory);
}

#[test]
fn accepts_tells_which_props_can_be_converted() {
    assert!(File::accepts(&prop("/docs/a.txt", 1, ResourceType::File, 0)));
    assert!(File::accepts(&prop("a", 1, ResourceType::Collection, 0)));
    assert!(!File::accepts(&prop("/docs/a.txt", 1, ResourceType::Invalid, 0)));
    assert!(!File::accepts(&prop("/", 1, ResourceType::Collection, 0)));
    assert!(!File::accepts(&prop("", 1, ResourceType::File, 0)));
    assert!(!File::accepts(&prop("/docs/..", 1, ResourceType::Collection, 0)));
}

#[test]
fn the_root_record() {
    let root = File::init_root();
    assert_eq!(root.attributes().name(), "/");
    assert_eq!(root.attributes().size(), 0);
    assert_eq!(root.attributes().mtime(), 0);
    assert!(root.attributes().is_directory());
    assert_eq!(root.attributes().state(), FileState::Local);
    assert_eq!(root.etag(), "root");
}

#[test]
fn attributes_of_a_file() {
    let file = File::from(prop("/docs/a.txt", 10000, ResourceType::File, 1424301369));
    let attr = file.to_file_attr(InodeId(42), 1000, 100);
    let expected = FileAttr {
        ino: 42,
        size: 10000,
        blocks: 2,
        atime: 1424301369,
        mtime: 1424301369,
        ctime: 1424301369,
        crtime: 1424301369,
        kind: FileType::RegularFile,
        perm: 0o77,
        nlink: 0,
        uid: 1000,
        gid: 100,
        rdev: 0,
        blksize: 4096,
        flags: 0,
    };
    assert_eq!(attr, expected);
}

#[test]
fn attributes_of_the_root() {
    let attr = File::init_root().to_file_attr(InodeId(1), 0, 0);
    assert_eq!(attr.ino, 1);
    assert_eq!(attr.size, 0);
    assert_eq!(attr.blocks, 0);
    assert_eq!(attr.mtime, 0);
    assert_eq!(attr.kind, FileType::Directory);
    assert_eq!(attr.uid, 0);
    assert_eq!(attr.gid, 0);
}

#[test]
fn blocks_are_whole_blocks() {
    for (size, blocks) in [
        (0u64, 0u64),
        (1, 0),
        (10, 0),
        (4095, 0),
        (4096, 1),
        (4097, 1),
        (8191, 1),
        (8192, 2),
        (u64::MAX, 4503599627370495),
    ] {
        let file = File::from(prop("/f", size, ResourceType::File, 0));
        assert_eq!(file.to_file_attr(InodeId(2), 0, 0).blocks, blocks, "{}", size);
    }
}

#[test]
fn the_constants() {
    assert_eq!(BLOCK_SIZE, 4096);
    assert_eq!(PERMISSIONS, 0o77);
    assert_eq!(TTL_SECONDS, 5);
}
