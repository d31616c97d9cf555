//! The handlers behind the kernel's `lookup`, `readdir` and `getattr`: what
//! each of them does to the tree of a mount and what it answers, given what
//! the server has said.
use vstd::prelude::*;

use crate::errors::{kernel_error_of, ErrorKind, Errors, KernelError};
use crate::file::{attr_of, convertible, file_of, kind_of, File, FileAttr, FileType, FileView};
use crate::filesystem::{
    attributes_of, full_path, lemma_populated, populated, resolved, FsView, FuseFilesystem,
    InodeId, inv,
};
use crate::multistatus::{listing, missing, prop_views};
use crate::prop::{Prop, PropView, ResourceType};
use crate::webdav::{listed, PropfindDepth, PropfindReply, PropfindRequest};

verus! {

// ---------------------------------------------------------------------------
// Listing a directory
// ---------------------------------------------------------------------------
/// Why no record can be made of a prop that is not convertible: it has no
/// type, or else its path ends in no name.
pub open spec fn conversion_error(prop: PropView) -> ErrorKind {
    if prop.resource_type == ResourceType::Invalid {
        missing("resourcetype"@)
    } else {
        missing("href"@)
    }
}

/// The records of the props, or the reason why the first prop that has none
/// has none.
pub open spec fn converted(props: Seq<PropView>) -> Result<Seq<FileView>, ErrorKind>
    decreases props.len(),
{
    if props.len() == 0 {
        Ok(Seq::empty())
    } else {
        match converted(props.drop_last()) {
            Err(e) => Err(e),
            Ok(files) => if convertible(props.last()) {
                Ok(files.push(file_of(props.last())))
            } else {
                Err(conversion_error(props.last()))
            },
        }
    }
}

/// One entry of a directory: inode number, kind and name.
pub type EntryView = (u64, FileType, Seq<char>);

/// What a list of entries holds.
pub open spec fn entry_views(entries: Seq<(InodeId, FileType, String)>) -> Seq<EntryView> {
    entries.map_values(|e: (InodeId, FileType, String)| (e.0.0, e.1, e.2@))
}

/// The two entries that a listing from its very beginning starts with: the
/// parent as `..`, and the directory itself as `.`.
pub open spec fn dots(v: FsView, dir: u64, offset: usize) -> Seq<EntryView> {
    if offset == 0 {
        seq![(v.nodes[dir].parent, FileType::Directory, ".."@), (dir, FileType::Directory, "."@)]
    } else {
        Seq::empty()
    }
}

/// The entries of records that are given the inode numbers from `first` on.
pub open spec fn entries_of(first: u64, files: Seq<FileView>) -> Seq<EntryView> {
    Seq::new(
        files.len(),
        |i: int| ((first + i) as u64, kind_of(files[i].attr.is_directory), files[i].attr.name),
    )
}

/// What listing the directory `dir` from `offset` on does to the state, and
/// what it answers, once the server has listed `records` for it, or has
/// failed to. Of the records, the first `offset` are passed over; each of the
/// others is taken in under a new inode number. Nothing changes where the
/// listing fails.
pub open spec fn readdir_step(
    v: FsView,
    dir: u64,
    offset: usize,
    records: Result<Seq<PropView>, ErrorKind>,
) -> (FsView, Result<Seq<EntryView>, ErrorKind>) {
    if !v.nodes.contains_key(dir) {
        (v, Err(ErrorKind::InodeNotFound(dir)))
    } else {
        match full_path(v, dir) {
            Err(e) => (v, Err(e)),
            Ok(_) => match records {
                Err(e) => (v, Err(e)),
                Ok(props) => match converted(props) {
                    Err(e) => (v, Err(e)),
                    Ok(files) => {
                        let fresh = files.skip(
                            if offset <= files.len() {
                                offset as int
                            } else {
                                files.len() as int
                            },
                        );
                        if v.next_inode + fresh.len() > u64::MAX {
                            (v, Err(ErrorKind::InodesExhausted))
                        } else {
                            (
                                populated(v, dir, fresh),
                                Ok(dots(v, dir, offset) + entries_of(v.next_inode, fresh)),
                            )
                        }
                    },
                },
            },
        }
    }
}

/// What a list of records holds.
pub open spec fn file_views(files: Seq<File>) -> Seq<FileView> {
    files.map_values(|file: File| file@)
}

/// What the outcome of a listing holds.
pub open spec fn entries_outcome(r: Result<Vec<(InodeId, FileType, String)>, Errors>) -> Result<
    Seq<EntryView>,
    ErrorKind,
> {
    match r {
        Ok(entries) => Ok(entry_views(entries@)),
        Err(e) => Err(e@),
    }
}

/// Makes the record of each prop, or says why the first prop that has none
/// has none.
pub fn convert_all(props: Vec<Prop>) -> (r: Result<Vec<File>, Errors>)
    ensures
        match r {
            Ok(files) => converted(prop_views(props@)) == Ok::<_, ErrorKind>(file_views(files@)),
            Err(e) => converted(prop_views(props@)) == Err::<Seq<FileView>, _>(e@),
        },
{
    let mut files: Vec<File> = Vec::new();
    let ghost all = prop_views(props@);
    assert(all.take(0) =~= Seq::<PropView>::empty());
    assert(file_views(files@) =~= Seq::<FileView>::empty());
    for prop in it: props
        invariant
            it.seq() == props@,
            all == prop_views(props@),
            converted(all.take(it.index() as int)) == Ok::<_, ErrorKind>(file_views(files@)),
    {
        let ghost k = it.index() as int;
        let ghost before = file_views(files@);
        proof {
            assert(all.take(k + 1).drop_last() =~= all.take(k));
            assert(all.take(k + 1).last() == prop@);
        }
        if !File::accepts(&prop) {
            proof {
                lemma_converted_fails(all, k + 1);
            }
            return match prop.resource_type() {
                ResourceType::Invalid => Err(
                    Errors::XMLTagEmptyWhenItShouldNot("resourcetype".to_owned()),
                ),
                _ => Err(Errors::XMLTagEmptyWhenItShouldNot("href".to_owned())),
            };
        }
        let file = File::from(prop);
        files.push(file);
        assert(file_views(files@) =~= before.push(file@));
    }
    assert(all.take(props@.len() as int) =~= all);
    Ok(files)
}

/// Once the first `n` props have no records, no more props make up for it.
pub proof fn lemma_converted_fails(props: Seq<PropView>, n: int)
    requires
        0 <= n <= props.len(),
        converted(props.take(n)) is Err,
    ensures
        converted(props) == converted(props.take(n)),
    decreases props.len() - n,
{
    if n == props.len() {
        assert(props.take(n) =~= props);
    } else {
        assert(props.take(n + 1).drop_last() =~= props.take(n));
        lemma_converted_fails(props, n + 1);
    }
}

// ---------------------------------------------------------------------------
// The handlers
// ---------------------------------------------------------------------------
/// The attributes of the child of `parent` that goes by `name`.
pub open spec fn found(v: FsView, parent: u64, name: Seq<char>, uid: u32, gid: u32) -> Result<
    FileAttr,
    ErrorKind,
> {
    match resolved(v, parent, name) {
        Err(e) => Err(e),
        Ok(id) => if v.files.contains_key(id) {
            Ok(attr_of(v.files[id], id, uid, gid))
        } else {
            Err(ErrorKind::ChildInodeNotFound(id))
        },
    }
}

/// Whether a lookup under `parent` has to ask the server first: the node is
/// there and has no children yet.
pub open spec fn unexplored(v: FsView, parent: u64) -> bool {
    v.nodes.contains_key(parent) && v.nodes[parent].children == Map::<Seq<char>, u64>::empty()
}

/// What looking up `name` under `parent` does to the state, and what it
/// answers. A node without children is first filled with the `records` that
/// the server has listed for it, if the server was asked.
pub open spec fn lookup_step(
    v: FsView,
    parent: u64,
    name: Seq<char>,
    uid: u32,
    gid: u32,
    records: Option<Result<Seq<PropView>, ErrorKind>>,
) -> (FsView, Result<FileAttr, ErrorKind>) {
    if !v.nodes.contains_key(parent) {
        (v, Err(ErrorKind::ParentInodeNotFound(parent)))
    } else if unexplored(v, parent) && records is Some {
        let (filled, entries) = readdir_step(v, parent, 0, records.unwrap());
        match entries {
            Err(e) => (v, Err(e)),
            Ok(_) => (filled, found(filled, parent, name, uid, gid)),
        }
    } else {
        (v, found(v, parent, name, uid, gid))
    }
}

/// What the records that a lookup was handed hold, if it was handed any.
pub open spec fn listing_if_any(records: Option<Result<Vec<Prop>, Errors>>) -> Option<
    Result<Seq<PropView>, ErrorKind>,
> {
    match records {
        Some(r) => Some(listing(r)),
        None => None,
    }
}

/// What the answer of the server holds, if there is one.
pub open spec fn listed_if_any(reply: Option<&PropfindReply>) -> Option<
    Result<Seq<PropView>, ErrorKind>,
> {
    match reply {
        Some(reply) => Some(listed(*reply)),
        None => None,
    }
}

/// What the outcome of a lookup holds.
pub open spec fn outcome_of_attr(r: Result<FileAttr, Errors>) -> Result<FileAttr, ErrorKind> {
    match r {
        Ok(attr) => Ok(attr),
        Err(e) => Err(e@),
    }
}

/// What a lookup under `parent` asks of the server before it looks, if
/// anything: the listing of a node that has no children yet.
pub open spec fn lookup_asks(v: FsView, parent: u64) -> Result<
    Option<(Seq<char>, PropfindDepth)>,
    ErrorKind,
> {
    if !v.nodes.contains_key(parent) {
        Err(ErrorKind::ParentInodeNotFound(parent))
    } else if !unexplored(v, parent) {
        Ok(None)
    } else {
        match listing_request(v, parent) {
            Ok(request) => Ok(Some(request)),
            Err(e) => Err(e),
        }
    }
}

/// What is asked of the server to list the directory `dir`.
pub open spec fn listing_request(v: FsView, dir: u64) -> Result<(Seq<char>, PropfindDepth), ErrorKind> {
    if !v.nodes.contains_key(dir) {
        Err(ErrorKind::InodeNotFound(dir))
    } else {
        match full_path(v, dir) {
            Err(e) => Err(e),
            Ok(path) => Ok((v.prefix + path, PropfindDepth::WithChildren)),
        }
    }
}

impl FuseFilesystem {
    /// The request whose answer [`FuseFilesystem::readdir2`] wants for the
    /// directory `inode`.
    pub fn readdir_request(&self, inode: InodeId) -> (r: Result<PropfindRequest, Errors>)
        ensures
            match r {
                Ok(request) => listing_request(self@, inode.0) == Ok::<_, ErrorKind>(
                    (request.url@, request.depth),
                ),
                Err(e) => listing_request(self@, inode.0) == Err::<
                    (Seq<char>, PropfindDepth),
                    _,
                >(e@),
            },
    {
        if self.node(inode).is_none() {
            return Err(Errors::InodeNotFound(inode));
        }
        let full_path = self.full_path_of_inode(&inode)?;
        Ok(self.drive().request(full_path.as_str(), PropfindDepth::WithChildren))
    }

    /// Lists the directory `inode` out of the records that the server has
    /// listed for it.
    pub fn readdir_listed(
        &mut self,
        inode: InodeId,
        offset: usize,
        records: Result<Vec<Prop>, Errors>,
    ) -> (r: Result<Vec<(InodeId, FileType, String)>, Errors>)
        requires
            old(self).wf(),
        ensures
            final(self).wf(),
            (final(self)@, entries_outcome(r)) == readdir_step(
                old(self)@,
                inode.0,
                offset,
                listing(records),
            ),
            inv(old(self)@) ==> inv(final(self)@),
    {
        let mut result: Vec<(InodeId, FileType, String)> = Vec::new();
        let ino = match self.node(inode) {
            Some(ino) => ino,
            None => return Err(Errors::InodeNotFound(inode)),
        };

        if offset == 0 {
            result.push((ino.parent(), FileType::Directory, "..".to_owned()));
            result.push((inode, FileType::Directory, ".".to_owned()));
        }
        let ghost v = old(self)@;
        assert(entry_views(result@) =~= dots(v, inode.0, offset));

        let _full_path = self.full_path_of_inode(&inode)?;

        let props = records?;

        let files = convert_all(props)?;
        let skip = if offset <= files.len() {
            offset
        } else {
            files.len()
        };
        let ghost fresh = file_views(files@).skip(skip as int);
        if (files.len() - skip) as u64 > self.numbers_left() {
            return Err(Errors::InodesExhausted);
        }
        let count = files.len();
        let mut i: usize = 0;
        assert(fresh.take(0) =~= Seq::<FileView>::empty());
        assert(entries_of(v.next_inode, fresh.take(0)) =~= Seq::<EntryView>::empty());
        assert(dots(v, inode.0, offset) + Seq::<EntryView>::empty() =~= dots(v, inode.0, offset));
        for f in it: files
            invariant
                self.wf(),
                it.seq() == files@,
                skip <= files@.len(),
                count == files@.len(),
                i == it.index(),
                fresh == file_views(files@).skip(skip as int),
                v.nodes.contains_key(inode.0),
                v.next_inode + fresh.len() <= u64::MAX,
                self@ == populated(
                    v,
                    inode.0,
                    fresh.take(
                        if i <= skip {
                            0
                        } else {
                            i - skip
                        },
                    ),
                ),
                entry_views(result@) == dots(v, inode.0, offset) + entries_of(
                    v.next_inode,
                    fresh.take(
                        if i <= skip {
                            0
                        } else {
                            i - skip
                        },
                    ),
                ),
        {
            if i >= skip {
                let ghost k = i - skip;
                let ghost before = entry_views(result@);
                proof {
                    lemma_populated(v, inode.0, fresh.take(k));
                    assert(fresh.take(k + 1).drop_last() =~= fresh.take(k));
                    assert(fresh.take(k + 1).last() == f@);
                }
                let kind = f.attributes().fuser_filetype();
                let name = f.attributes().name().to_owned();
                let id = self.adopt(inode, f)?;
                result.push((id, kind, name));
                proof {
                    assert(entry_views(result@) =~= before.push((id.0, kind, name@)));
                    assert(entries_of(v.next_inode, fresh.take(k + 1)) =~= entries_of(
                        v.next_inode,
                        fresh.take(k),
                    ).push((id.0, kind, name@)));
                    assert(dots(v, inode.0, offset) + entries_of(v.next_inode, fresh.take(k)).push(
                        (id.0, kind, name@),
                    ) =~= before.push((id.0, kind, name@)));
                }
            }
            assert(i < count);
            i += 1;
        }
        proof {
            assert(fresh.take(fresh.len() as int) =~= fresh);
            lemma_populated(v, inode.0, fresh);
        }
        Ok(result)
    }

    /// The request that [`FuseFilesystem::lookup_`] wants answered before it
    /// looks under `parent`, if it wants one: a node that has no children yet
    /// is filled first.
    pub fn lookup_request(&self, parent: InodeId) -> (r: Result<Option<PropfindRequest>, Errors>)
        ensures
            match r {
                Ok(Some(request)) => lookup_asks(self@, parent.0) == Ok::<_, ErrorKind>(
                    Some((request.url@, request.depth)),
                ),
                Ok(None) => lookup_asks(self@, parent.0) == Ok::<
                    Option<(Seq<char>, PropfindDepth)>,
                    ErrorKind,
                >(None),
                Err(e) => lookup_asks(self@, parent.0) == Err::<
                    Option<(Seq<char>, PropfindDepth)>,
                    _,
                >(e@),
            },
    {
        let parent_inode = match self.node(parent) {
            Some(node) => node,
            None => return Err(Errors::ParentInodeNotFound(parent)),
        };
        if !parent_inode.is_empty() {
            return Ok(None);
        }
        let request = self.readdir_request(parent)?;
        Ok(Some(request))
    }

    /// Gathers information about an inode by parent inode and name, out of
    /// the records that the server has listed for the parent, if it was asked.
    pub fn lookup_listed(
        &mut self,
        parent: InodeId,
        name_of_file: &str,
        uid: u32,
        gid: u32,
        records: Option<Result<Vec<Prop>, Errors>>,
    ) -> (r: Result<FileAttr, Errors>)
        requires
            old(self).wf(),
        ensures
            final(self).wf(),
            (final(self)@, outcome_of_attr(r)) == lookup_step(
                old(self)@,
                parent.0,
                name_of_file@,
                uid,
                gid,
                listing_if_any(records),
            ),
            inv(old(self)@) ==> inv(final(self)@),
    {
        let parent_inode = match self.node(parent) {
            Some(node) => node,
            None => return Err(Errors::ParentInodeNotFound(parent)),
        };
        if parent_inode.is_empty() {
            match records {
                Some(records) => {
                    self.readdir_listed(parent, 0, records)?;
                },
                None => {},
            }
        }
        let inode = self.resolve(parent, name_of_file)?;
        match self.getattributes(inode, uid, gid) {
            Ok(attr) => Ok(attr),
            Err(_) => Err(Errors::ChildInodeNotFound(inode)),
        }
    }

    /// Lists the directory `inode` out of what the server has answered to
    /// the request of [`FuseFilesystem::readdir_request`].
    pub fn readdir2(&mut self, inode: InodeId, offset: usize, reply: &PropfindReply) -> (r: Result<
        Vec<(InodeId, FileType, String)>,
        Errors,
    >)
        requires
            old(self).wf(),
        ensures
            final(self).wf(),
            (final(self)@, entries_outcome(r)) == readdir_step(
                old(self)@,
                inode.0,
                offset,
                listed(*reply),
            ),
            inv(old(self)@) ==> inv(final(self)@),
    {
        let props = self.drive().list(reply);
        self.readdir_listed(inode, offset, props)
    }

    /// Gathers information about an inode by parent inode and name, out of
    /// what the server has answered to the request of
    /// [`FuseFilesystem::lookup_request`], if there was one.
    pub fn lookup_(
        &mut self,
        parent: InodeId,
        name_of_file: &str,
        uid: u32,
        gid: u32,
        reply: Option<&PropfindReply>,
    ) -> (r: Result<FileAttr, Errors>)
        requires
            old(self).wf(),
        ensures
            final(self).wf(),
            (final(self)@, outcome_of_attr(r)) == lookup_step(
                old(self)@,
                parent.0,
                name_of_file@,
                uid,
                gid,
                listed_if_any(reply),
            ),
            inv(old(self)@) ==> inv(final(self)@),
    {
        let props = match reply {
            Some(reply) => Some(self.drive().list(reply)),
            None => None,
        };
        self.lookup_listed(parent, name_of_file, uid, gid, props)
    }
}

// ---------------------------------------------------------------------------
// Facing the kernel
// ---------------------------------------------------------------------------
/// One entry of a directory as the kernel is given it. `offset` is the place
/// of the entry in the listing.
#[derive(Debug)]
pub struct DirEntry {
    pub ino: u64,
    pub offset: u64,
    pub kind: FileType,
    pub name: String,
}

/// What a [`DirEntry`] holds.
pub struct DirEntryView {
    pub ino: u64,
    pub offset: u64,
    pub kind: FileType,
    pub name: Seq<char>,
}

impl View for DirEntry {
    type V = DirEntryView;

    open spec fn view(&self) -> DirEntryView {
        DirEntryView { ino: self.ino, offset: self.offset, kind: self.kind, name: self.name@ }
    }
}

/// What a list of entries for the kernel holds.
pub open spec fn dir_entry_views(entries: Seq<DirEntry>) -> Seq<DirEntryView> {
    entries.map_values(|e: DirEntry| e@)
}

/// The entries as the kernel is given them, each with its place.
pub open spec fn numbered(entries: Seq<EntryView>) -> Seq<DirEntryView> {
    Seq::new(
        entries.len(),
        |i: int|
            DirEntryView {
                ino: entries[i].0,
                offset: i as u64,
                kind: entries[i].1,
                name: entries[i].2,
            },
    )
}

/// How many records a listing from the kernel's `offset` on passes over.
pub open spec fn skip_count(offset: i64) -> usize {
    if offset > usize::MAX {
        usize::MAX
    } else {
        offset as usize
    }
}

/// What the kernel is answered where the handler behind the answer has
/// answered `r`.
pub open spec fn for_kernel<T>(r: Result<T, ErrorKind>) -> Result<T, KernelError> {
    match r {
        Ok(value) => Ok(value),
        Err(e) => Err(kernel_error_of(e)),
    }
}

/// What the kernel's `readdir` does to the state, and what it answers.
pub open spec fn kernel_readdir(
    v: FsView,
    ino: u64,
    offset: i64,
    records: Result<Seq<PropView>, ErrorKind>,
) -> (FsView, Result<Seq<DirEntryView>, KernelError>) {
    if offset < 0 {
        (v, Err(KernelError::Io))
    } else {
        let (after, entries) = readdir_step(v, ino, skip_count(offset), records);
        match entries {
            Ok(entries) => (after, Ok(numbered(entries))),
            Err(e) => (after, Err(kernel_error_of(e))),
        }
    }
}

/// What the outcome of the kernel's `readdir` holds.
pub open spec fn dir_outcome(r: Result<Vec<DirEntry>, KernelError>) -> Result<
    Seq<DirEntryView>,
    KernelError,
> {
    match r {
        Ok(entries) => Ok(dir_entry_views(entries@)),
        Err(e) => Err(e),
    }
}

impl FuseFilesystem {
    /// Answers the kernel's `readdir` for the directory `ino` out of what
    /// the server has answered. An offset below zero is an I/O error.
    pub fn readdir(&mut self, ino: u64, offset: i64, reply: &PropfindReply) -> (r: Result<
        Vec<DirEntry>,
        KernelError,
    >)
        requires
            old(self).wf(),
        ensures
            final(self).wf(),
            (final(self)@, dir_outcome(r)) == kernel_readdir(
                old(self)@,
                ino,
                offset,
                listed(*reply),
            ),
            inv(old(self)@) ==> inv(final(self)@),
    {
        if offset < 0 {
            return Err(KernelError::Io);
        }
        let skip: usize = if offset as u64 > usize::MAX as u64 {
            usize::MAX
        } else {
            offset as usize
        };
        let files_in_dir = match self.readdir2(InodeId(ino), skip, reply) {
            Ok(entries) => entries,
            Err(e) => return Err(e.kernel_error()),
        };
        let ghost all = entry_views(files_in_dir@);
        let mut out: Vec<DirEntry> = Vec::new();
        let count = files_in_dir.len();
        let mut idx: usize = 0;
        assert(dir_entry_views(out@) =~= numbered(all).take(0));
        for entry in it: files_in_dir
            invariant
                it.seq() == files_in_dir@,
                all == entry_views(files_in_dir@),
                count == files_in_dir@.len(),
                idx == it.index(),
                dir_entry_views(out@) == numbered(all).take(idx as int),
        {
            let ghost before = dir_entry_views(out@);
            assert(idx < count);
            let (id, kind, name) = entry;
            let e = DirEntry { ino: id.0, offset: idx as u64, kind, name };
            out.push(e);
            assert(dir_entry_views(out@) =~= before.push(e@));
            assert(numbered(all).take(idx + 1) =~= numbered(all).take(idx as int).push(e@));
            idx += 1;
        }
        assert(numbered(all).take(count as int) =~= numbered(all));
        Ok(out)
    }

    /// Answers the kernel's `getattr` for `ino`. No record is made up for a
    /// number that has none.
    pub fn getattr(&self, ino: u64, uid: u32, gid: u32) -> (r: Result<FileAttr, KernelError>)
        ensures
            r == for_kernel(attributes_of(self@, ino, uid, gid)),
    {
        match self.getattributes(InodeId(ino), uid, gid) {
            Ok(attr) => Ok(attr),
            Err(e) => Err(e.kernel_error()),
        }
    }

    /// Answers the kernel's `lookup` of `name` under `parent`, out of what
    /// the server has answered if it was asked.
    pub fn lookup(
        &mut self,
        parent: u64,
        name: &str,
        uid: u32,
        gid: u32,
        reply: Option<&PropfindReply>,
    ) -> (r: Result<FileAttr, KernelError>)
        requires
            old(self).wf(),
        ensures
            final(self).wf(),
            final(self)@ == lookup_step(
                old(self)@,
                parent,
                name@,
                uid,
                gid,
                listed_if_any(reply),
            ).0,
            r == for_kernel(
                lookup_step(old(self)@, parent, name@, uid, gid, listed_if_any(reply)).1,
            ),
            inv(old(self)@) ==> inv(final(self)@),
    {
        match self.lookup_(InodeId(parent), name, uid, gid, reply) {
            Ok(attr) => Ok(attr),
            Err(e) => Err(e.kernel_error()),
        }
    }
}

} // verus!
