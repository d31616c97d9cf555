//! The record that is kept of each entry, and the attributes that the kernel
//! is given of it.
use vstd::pervasive::unreached;
use vstd::prelude::*;

use crate::filesystem::InodeId;
use crate::prop::{Prop, PropView, ResourceType};
use crate::text::{file_name, file_name_of};

verus! {

/// Size of the blocks that sizes are counted in for the kernel.
pub const BLOCK_SIZE: u32 = 4096;

/// Permission bits that every entry is given.
pub const PERMISSIONS: u16 = 0o77;

/// For how many seconds the kernel may go by attributes that it was given.
pub const TTL_SECONDS: u64 = 5;

/// Contains all states a file can be in
#[derive(Debug, Clone, Copy, PartialEq, Eq, Structural)]
pub enum FileState {
    /// File is downloaded and (to our knowledge) up to date
    Local,
    /// File is not downloaded and available from remote
    RemoteOnly,
    /// File is downloaded, but changed locally
    ChangedLocally,
    /// File is downloaded, but changed remote
    ChangedRemote,
    /// Some type of conflict
    Conflict,
    Downloading,
    Uploading,
}

/// The two kinds of entry that the kernel is told of.
#[derive(Debug, Clone, Copy, PartialEq, Eq, Structural)]
pub enum FileType {
    Directory,
    RegularFile,
}

/// The attributes of an entry in the shape that the kernel asks for. Times
/// are seconds since the Unix epoch.
#[derive(Debug, Clone, Copy, PartialEq, Eq, Structural)]
pub struct FileAttr {
    /// Inode number
    pub ino: u64,
    /// Size in bytes
    pub size: u64,
    /// Size in blocks
    pub blocks: u64,
    /// Time of last access
    pub atime: i64,
    /// Time of last modification
    pub mtime: i64,
    /// Time of last change
    pub ctime: i64,
    /// Time of creation
    pub crtime: i64,
    /// Kind of file (directory, file, pipe, etc)
    pub kind: FileType,
    /// Permissions
    pub perm: u16,
    /// Number of hard links
    pub nlink: u32,
    /// User id
    pub uid: u32,
    /// Group id
    pub gid: u32,
    /// Rdev
    pub rdev: u32,
    /// Block size
    pub blksize: u32,
    /// Flags
    pub flags: u32,
}

#[derive(Debug)]
pub struct FileAttributes {
    name: String,
    size: u64,
    mtime: i64,
    is_directory: bool,
    state: FileState,
}

/// What [`FileAttributes`] hold.
pub struct FileAttributesView {
    pub name: Seq<char>,
    pub size: u64,
    pub mtime: i64,
    pub is_directory: bool,
    pub state: FileState,
}

impl View for FileAttributes {
    type V = FileAttributesView;

    closed spec fn view(&self) -> FileAttributesView {
        FileAttributesView {
            name: self.name@,
            size: self.size,
            mtime: self.mtime,
            is_directory: self.is_directory,
            state: self.state,
        }
    }
}

/// The kind that the kernel is told of for a directory, or for what is none.
pub open spec fn kind_of(is_directory: bool) -> FileType {
    if is_directory {
        FileType::Directory
    } else {
        FileType::RegularFile
    }
}

impl FileAttributes {
    pub fn fuser_filetype(&self) -> (r: FileType)
        ensures
            r == kind_of(self@.is_directory),
    {
        if self.is_directory {
            FileType::Directory
        } else {
            FileType::RegularFile
        }
    }

    pub fn name(&self) -> (r: &str)
        ensures
            r@ == self@.name,
    {
        self.name.as_str()
    }

    pub fn size(&self) -> (r: u64)
        ensures
            r == self@.size,
    {
        self.size
    }

    pub fn mtime(&self) -> (r: i64)
        ensures
            r == self@.mtime,
    {
        self.mtime
    }

    pub fn is_directory(&self) -> (r: bool)
        ensures
            r == self@.is_directory,
    {
        self.is_directory
    }

    pub fn state(&self) -> (r: FileState)
        ensures
            r == self@.state,
    {
        self.state
    }
}

#[derive(Debug)]
pub struct File {
    attr: FileAttributes,
    etag: String,
}

/// What a [`File`] holds.
pub struct FileView {
    pub attr: FileAttributesView,
    pub etag: Seq<char>,
}

impl View for File {
    type V = FileView;

    closed spec fn view(&self) -> FileView {
        FileView { attr: self.attr@, etag: self.etag@ }
    }
}

/// Whether a record can be made of the prop: it is a file or a collection,
/// and its path ends in a name.
pub open spec fn convertible(prop: PropView) -> bool {
    prop.resource_type != ResourceType::Invalid && file_name(prop.path) is Some
}

/// The record of a prop that was just found on the server. Of the path only
/// the name that it ends in is kept.
pub open spec fn file_of(prop: PropView) -> FileView {
    FileView {
        attr: FileAttributesView {
            name: file_name(prop.path).unwrap(),
            size: prop.size,
            mtime: prop.last_modified,
            is_directory: prop.resource_type == ResourceType::Collection,
            state: FileState::RemoteOnly,
        },
        etag: prop.etag,
    }
}

/// The record of the root.
pub open spec fn root_record() -> FileView {
    FileView {
        attr: FileAttributesView {
            name: "/"@,
            size: 0,
            mtime: 0,
            is_directory: true,
            state: FileState::Local,
        },
        etag: "root"@,
    }
}

/// The attributes that the kernel is given of the record `file` under the
/// inode number `ino`, for a process that runs as `uid` and `gid`.
pub open spec fn attr_of(file: FileView, ino: u64, uid: u32, gid: u32) -> FileAttr {
    FileAttr {
        ino,
        size: file.attr.size,
        blocks: (file.attr.size / (BLOCK_SIZE as u64)) as u64,
        atime: file.attr.mtime,
        mtime: file.attr.mtime,
        ctime: file.attr.mtime,
        crtime: file.attr.mtime,
        kind: kind_of(file.attr.is_directory),
        perm: PERMISSIONS,
        nlink: 0,
        uid,
        gid,
        rdev: 0,
        blksize: BLOCK_SIZE,
        flags: 0,
    }
}

impl File {
    /// Converts a Prop to a file.
    /// Only stores the file_name of the prop's path
    pub fn from(value: Prop) -> (r: Self)
        requires
            convertible(value@),
        ensures
            r@ == file_of(value@),
    {
        let is_folder = match value.resource_type() {
            ResourceType::File => false,
            ResourceType::Collection => true,
            ResourceType::Invalid => unreached(),
        };
        let name = match file_name_of(value.path()) {
            Some(name) => name,
            None => unreached(),
        };
        Self {
            attr: FileAttributes {
                name,
                size: value.size(),
                mtime: value.last_modified(),
                is_directory: is_folder,
                state: FileState::RemoteOnly,
            },
            etag: value.etag().to_owned(),
        }
    }

    /// Whether [`File::from`] takes the prop.
    pub fn accepts(value: &Prop) -> (r: bool)
        ensures
            r == convertible(value@),
    {
        match value.resource_type() {
            ResourceType::Invalid => false,
            _ => file_name_of(value.path()).is_some(),
        }
    }

    pub fn init_root() -> (r: Self)
        ensures
            r@ == root_record(),
    {
        let root_inode = File {
            attr: FileAttributes {
                name: "/".to_owned(),
                size: 0,
                mtime: 0,
                is_directory: true,
                state: FileState::Local,
            },
            etag: "root".to_owned(),
        };
        root_inode
    }

    pub fn attributes(&self) -> (r: &FileAttributes)
        ensures
            r@ == self@.attr,
    {
        &self.attr
    }

    pub fn etag(&self) -> (r: &str)
        ensures
            r@ == self@.etag,
    {
        self.etag.as_str()
    }

    /// Transforms the FileAttributes of an inode into the attributes that
    /// the kernel is given
    pub fn to_file_attr(&self, inode: InodeId, uid: u32, gid: u32) -> (r: FileAttr)
        ensures
            r == attr_of(self@, inode.0, uid, gid),
    {
        let attr = &self.attr;
        let ft = attr.fuser_filetype();

        FileAttr {
            ino: inode.0,
            size: attr.size,
            blocks: attr.size / (BLOCK_SIZE as u64),
            atime: attr.mtime,
            mtime: attr.mtime,
            ctime: attr.mtime,
            crtime: attr.mtime,
            kind: ft,
            perm: PERMISSIONS,
            nlink: 0,
            uid,
            gid,
            rdev: 0,
            blksize: BLOCK_SIZE,
            flags: 0,
        }
    }
}

} // verus!
