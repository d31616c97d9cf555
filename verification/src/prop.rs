//! The properties that a WebDAV server reports of one entry.
use vstd::prelude::*;

verus! {

/// A Prop has a type. Implemented are `Files` and `Collection`, the latter
/// are equivalent to folders.
#[derive(Debug, Clone, Copy, Eq, PartialEq, Structural)]
pub enum ResourceType {
    /// Regular file
    File,
    /// Folder
    Collection,
    /// Initial Value
    Invalid,
}

/// Stores the data belonging to what WebDAV calls a "Prop".
/// This can be a file or a collection (basically a folder)
#[derive(Debug)]
pub struct Prop {
    /// Etag is guaranteed to be stable if the Prop has not changed
    etag: String,
    /// Path of the prop
    path: String,
    /// Size in bytes
    size: u64,
    /// Unix timestamp of the last modification date
    last_modified: i64,
    /// Type of the prop
    resource_type: ResourceType,
}

/// What a [`Prop`] holds.
pub struct PropView {
    pub etag: Seq<char>,
    pub path: Seq<char>,
    pub size: u64,
    pub last_modified: i64,
    pub resource_type: ResourceType,
}

impl View for Prop {
    type V = PropView;

    closed spec fn view(&self) -> PropView {
        PropView {
            etag: self.etag@,
            path: self.path@,
            size: self.size,
            last_modified: self.last_modified,
            resource_type: self.resource_type,
        }
    }
}

impl Prop {
    pub fn new(
        etag: String,
        path: String,
        size: u64,
        resource_type: ResourceType,
        last_modified: i64,
    ) -> (r: Self)
        ensures
            r@ == (PropView {
                etag: etag@,
                path: path@,
                size,
                last_modified,
                resource_type,
            }),
    {
        Prop { etag, path, size, last_modified, resource_type }
    }

    // Getters
    pub fn etag(&self) -> (r: &str)
        ensures
            r@ == self@.etag,
    {
        self.etag.as_str()
    }

    pub fn path(&self) -> (r: &str)
        ensures
            r@ == self@.path,
    {
        self.path.as_str()
    }

    pub fn size(&self) -> (r: u64)
        ensures
            r == self@.size,
    {
        self.size
    }

    pub fn last_modified(&self) -> (r: i64)
        ensures
            r == self@.last_modified,
    {
        self.last_modified
    }

    pub fn resource_type(&self) -> (r: ResourceType)
        ensures
            r == self@.resource_type,
    {
        self.resource_type
    }
}

/// What a [`PropBuilder`] starts from: no text, size 0, a time before the
/// epoch that stands for "not set", and no type yet.
pub open spec fn blank_prop() -> PropView {
    PropView {
        etag: Seq::empty(),
        path: Seq::empty(),
        size: 0,
        last_modified: -1i64,
        resource_type: ResourceType::Invalid,
    }
}

/// Builder for `Prop`
#[derive(Debug)]
pub struct PropBuilder {
    prop: Prop,
}

impl View for PropBuilder {
    type V = PropView;

    closed spec fn view(&self) -> PropView {
        self.prop@
    }
}

impl PropBuilder {
    pub fn new() -> (r: Self)
        ensures
            r@ == blank_prop(),
    {
        Self {
            prop: Prop {
                etag: String::new(),
                path: String::new(),
                size: 0,
                last_modified: -1,
                resource_type: ResourceType::Invalid,
            },
        }
    }

    pub fn etag(self, etag: String) -> (r: Self)
        ensures
            r@ == (PropView { etag: etag@, ..self@ }),
    {
        let mut b = self;
        b.prop.etag = etag;
        b
    }

    pub fn path(self, path: String) -> (r: Self)
        ensures
            r@ == (PropView { path: path@, ..self@ }),
    {
        let mut b = self;
        b.prop.path = path;
        b
    }

    pub fn size(self, size: u64) -> (r: Self)
        ensures
            r@ == (PropView { size, ..self@ }),
    {
        let mut b = self;
        b.prop.size = size;
        b
    }

    pub fn last_modified(self, last_modified: i64) -> (r: Self)
        ensures
            r@ == (PropView { last_modified, ..self@ }),
    {
        let mut b = self;
        b.prop.last_modified = last_modified;
        b
    }

    pub fn resource_type(self, resource_type: ResourceType) -> (r: Self)
        ensures
            r@ == (PropView { resource_type, ..self@ }),
    {
        let mut b = self;
        b.prop.resource_type = resource_type;
        b
    }

    pub fn build(self) -> (r: Prop)
        ensures
            r@ == self@,
    {
        self.prop
    }
}

} // verus!
