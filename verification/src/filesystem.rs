//! The inode directory and the file registry of one mount: which inode
//! numbers are in use, how the nodes behind them hang together, and what is
//! on record of each.
use std::collections::BTreeMap;
use vstd::prelude::*;
use vstd::string::StringExecFns;

use crate::errors::{outcome, ErrorKind, Errors};
use crate::file::{attr_of, root_record, File, FileAttr, FileView};
use crate::inode::{Inode, NodeView};
use crate::webdav::WebdavDrive;

verus! {

/// Inode number that the kernel interface reserves for the root of a mount.
pub const ROOT_INODE: u64 = 1;

/// The number of an inode. Numbers are handed out in rising order and never
/// twice.
#[derive(PartialEq, Eq, PartialOrd, Ord, Debug, Clone, Copy, Structural)]
pub struct InodeId(pub u64);

impl InodeId {
    pub open spec fn spec_is_filesystem_root(&self) -> bool {
        self.0 == ROOT_INODE
    }

    #[verifier::when_used_as_spec(spec_is_filesystem_root)]
    pub fn is_filesystem_root(&self) -> (r: bool)
        ensures
            r == (self.0 == ROOT_INODE),
    {
        self.0 == ROOT_INODE
    }
}

/// The number of an open file.
#[derive(PartialEq, Eq, PartialOrd, Ord, Debug, Clone, Copy, Structural)]
pub struct FileHandleId(pub u64);

/// The state of one mount.
#[derive(Debug)]
pub struct FuseFilesystem {
    inodes: BTreeMap<u64, Inode>,
    files: BTreeMap<u64, File>,
    next_inode: InodeId,
    next_fd: FileHandleId,
    drive: WebdavDrive,
}

/// What a [`FuseFilesystem`] holds: the node and the record behind each
/// inode number, the numbers that are handed out next, and the prefix of the
/// drive's URLs.
#[verifier::ext_equal]
pub struct FsView {
    pub nodes: Map<u64, NodeView>,
    pub files: Map<u64, FileView>,
    pub next_inode: u64,
    pub next_fd: u64,
    pub prefix: Seq<char>,
}

impl View for FuseFilesystem {
    type V = FsView;

    closed spec fn view(&self) -> FsView {
        FsView {
            nodes: self.inodes@.map_values(|node: Inode| node@),
            files: self.files@.map_values(|file: File| file@),
            next_inode: self.next_inode.0,
            next_fd: self.next_fd.0,
            prefix: self.drive@,
        }
    }
}

// ---------------------------------------------------------------------------
// The tree and what holds of it
// ---------------------------------------------------------------------------
/// The state that has neither nodes nor records yet.
pub open spec fn empty_state(prefix: Seq<char>) -> FsView {
    FsView { nodes: Map::empty(), files: Map::empty(), next_inode: 2, next_fd: 2, prefix }
}

/// The node of the root, which is its own parent, before it has children.
pub open spec fn root_node() -> NodeView {
    NodeView { parent: ROOT_INODE, children: Map::empty() }
}

/// The state of a mount that has just been made: the root and nothing else.
pub open spec fn initial_state(prefix: Seq<char>) -> FsView {
    FsView {
        nodes: Map::empty().insert(ROOT_INODE, root_node()),
        files: Map::empty().insert(ROOT_INODE, root_record()),
        ..empty_state(prefix)
    }
}

/// Whether `child` may stand under `name` in the node `parent`: it is a node
/// of the tree, not the root, has `parent` as its parent, and its record goes
/// by that name.
pub open spec fn entry_fits(v: FsView, parent: u64, name: Seq<char>, child: u64) -> bool {
    &&& child != ROOT_INODE
    &&& v.nodes.contains_key(child)
    &&& v.nodes[child].parent == parent
    &&& v.files.contains_key(child)
    &&& v.files[child].attr.name == name
}

/// Whether the entry `name` of the node `parent` fits the child that it
/// leads to.
pub open spec fn child_linked(v: FsView, parent: u64, name: Seq<char>) -> bool {
    entry_fits(v, parent, name, v.nodes[parent].children[name])
}

/// What holds of the tree of a mount at all times.
pub open spec fn inv(v: FsView) -> bool {
    &&& v.nodes.dom().finite()
    &&& v.next_inode >= 2
    // the root is there for good, and is its own parent
    &&& v.nodes.contains_key(ROOT_INODE)
    &&& v.nodes[ROOT_INODE].parent == ROOT_INODE
    &&& v.files.contains_key(ROOT_INODE)
    &&& v.files[ROOT_INODE] == root_record()
    // every node has a record
    &&& forall|id: u64| #[trigger] v.nodes.contains_key(id) ==> v.files.contains_key(id)
    // no number that is in use will be handed out again
    &&& forall|id: u64| #[trigger] v.files.contains_key(id) ==> id < v.next_inode
    // the parent of a node is an older node, so that no chain of parents
    // comes back to where it began
    &&& forall|id: u64|
        #[trigger] v.nodes.contains_key(id) && id != ROOT_INODE ==> v.nodes.contains_key(
            v.nodes[id].parent,
        ) && v.nodes[id].parent < id
    // every entry leads to a child of the node that it stands in
    &&& forall|parent: u64, name: Seq<char>|
        v.nodes.contains_key(parent) && #[trigger] v.nodes[parent].children.contains_key(name)
            ==> child_linked(v, parent, name)
}

/// The child that goes by `name` in the node `parent`.
pub open spec fn resolved(v: FsView, parent: u64, name: Seq<char>) -> Result<u64, ErrorKind> {
    if !v.nodes.contains_key(parent) {
        Err(ErrorKind::ParentInodeNotFound(parent))
    } else if !v.nodes[parent].children.contains_key(name) {
        Err(ErrorKind::FileDoesNotExist(name))
    } else {
        Ok(v.nodes[parent].children[name])
    }
}

/// The state after the node `parent` has been given the entry `name` for
/// `child`.
pub open spec fn with_entry(v: FsView, parent: u64, name: Seq<char>, child: u64) -> FsView {
    FsView {
        nodes: v.nodes.insert(
            parent,
            NodeView {
                children: v.nodes[parent].children.insert(name, child),
                ..v.nodes[parent]
            },
        ),
        ..v
    }
}

/// An entry that fits keeps the tree in order.
pub proof fn lemma_with_entry_keeps_inv(v: FsView, parent: u64, name: Seq<char>, child: u64)
    requires
        inv(v),
        v.nodes.contains_key(parent),
        entry_fits(v, parent, name, child),
    ensures
        inv(with_entry(v, parent, name, child)),
{
    let after = with_entry(v, parent, name, child);
    assert forall|p: u64, n: Seq<char>|
        after.nodes.contains_key(p) && #[trigger] after.nodes[p].children.contains_key(
            n,
        ) implies child_linked(after, p, n) by {
        if p == parent && n == name {
        } else {
            assert(v.nodes[p].children.contains_key(n));
            assert(child_linked(v, p, n));
        }
    }
    assert forall|n: u64| #[trigger] after.nodes.contains_key(n) && n != ROOT_INODE implies after.nodes.contains_key(
        after.nodes[n].parent,
    ) && after.nodes[n].parent < n by {
        assert(v.nodes.contains_key(n));
    }
}

/// The names from `id` up to the child of the root that `id` lies under,
/// `id` first; for the root itself, its own name. The walk up takes at most
/// `fuel` steps. It fails where a number on the way has no record
/// (`FileEntryMissing`) or no node (`ParentInodeNotFound`), and where the
/// steps run out before the root is met (`InodeNotFound` of the root).
pub open spec fn chain(v: FsView, id: u64, fuel: nat) -> Result<Seq<Seq<char>>, ErrorKind>
    decreases fuel,
{
    if !v.files.contains_key(id) {
        Err(ErrorKind::FileEntryMissing(id))
    } else if !v.nodes.contains_key(id) {
        Err(ErrorKind::ParentInodeNotFound(id))
    } else if v.nodes[id].parent == ROOT_INODE {
        Ok(seq![v.files[id].attr.name])
    } else if fuel == 0 {
        Err(ErrorKind::InodeNotFound(ROOT_INODE))
    } else {
        match chain(v, v.nodes[id].parent, (fuel - 1) as nat) {
            Err(e) => Err(e),
            Ok(rest) => Ok(seq![v.files[id].attr.name] + rest),
        }
    }
}

/// The names from `id` up to the root. The walk gives up after as many steps
/// as there are nodes: a chain that long has come back to where it began.
pub open spec fn segments(v: FsView, id: u64) -> Result<Seq<Seq<char>>, ErrorKind> {
    chain(v, id, v.nodes.len())
}

/// The path that the names `names` make, the last of them first: each name
/// with a `/` before it.
pub open spec fn path_text(names: Seq<Seq<char>>) -> Seq<char>
    decreases names.len(),
{
    if names.len() == 0 {
        Seq::empty()
    } else {
        path_text(names.drop_first()) + seq!['/'] + names.first()
    }
}

/// The absolute path of `id`: the root's own name for the root, and else
/// the names from the root down to `id`, each with a `/` before it.
pub open spec fn full_path(v: FsView, id: u64) -> Result<Seq<char>, ErrorKind> {
    match segments(v, id) {
        Err(e) => Err(e),
        Ok(names) => if id == ROOT_INODE {
            Ok(names.first())
        } else {
            Ok(path_text(names))
        },
    }
}

/// The attributes of `id`, as far as there is a record of it.
pub open spec fn attributes_of(v: FsView, id: u64, uid: u32, gid: u32) -> Result<
    FileAttr,
    ErrorKind,
> {
    if v.files.contains_key(id) {
        Ok(attr_of(v.files[id], id, uid, gid))
    } else {
        Err(ErrorKind::InodeNotFound(id))
    }
}

/// What a list of names holds.
pub open spec fn texts(names: Seq<String>) -> Seq<Seq<char>> {
    names.map_values(|name: String| name@)
}

impl FuseFilesystem {
    /// Whether every node is in order.
    pub closed spec fn wf(&self) -> bool {
        forall|id: u64| #[trigger] self.inodes@.contains_key(id) ==> self.inodes@[id].wf()
    }

    /// A mount that holds nothing yet, not even the root.
    pub fn new(drive: WebdavDrive) -> (r: Self)
        ensures
            r.wf(),
            r@ == empty_state(drive@),
    {
        let r = Self {
            inodes: BTreeMap::new(),
            files: BTreeMap::new(),
            next_inode: InodeId(2),
            next_fd: FileHandleId(2),
            drive,
        };
        assert(r@.nodes =~= Map::empty());
        assert(r@.files =~= Map::empty());
        r
    }

    /// The drive that the mount shows.
    pub fn drive(&self) -> (r: &WebdavDrive)
        ensures
            r@ == self@.prefix,
    {
        &self.drive
    }

    /// The node behind `id`, if there is one.
    pub fn node(&self, id: InodeId) -> (r: Option<&Inode>)
        ensures
            match r {
                Some(node) => self@.nodes.contains_key(id.0) && self@.nodes[id.0] == node@ && (
                self.wf() ==> node.wf()),
                None => !self@.nodes.contains_key(id.0),
            },
    {
        self.inodes.get(&id.0)
    }

    /// How many inode numbers are left to hand out.
    pub fn numbers_left(&self) -> (r: u64)
        ensures
            r == u64::MAX - self@.next_inode,
    {
        u64::MAX - self.next_inode.0
    }

    /// Initializes a filesystem with an root node
    pub fn init(drive: WebdavDrive) -> (r: Self)
        ensures
            r.wf(),
            r@ == initial_state(drive@),
            inv(r@),
    {
        let mut fs = Self::new(drive);
        let root_inode = Inode::new(InodeId(ROOT_INODE));
        let root_file = File::init_root();

        fs.inodes.insert(ROOT_INODE, root_inode);
        fs.files.insert(ROOT_INODE, root_file);
        assert(fs@.nodes =~= initial_state(drive@).nodes);
        assert(fs@.files =~= initial_state(drive@).files);
        fs
    }

    /// Returns next `InodeId` and increments `self.next_inode`. Once the
    /// numbers have run out, none is handed out and nothing changes.
    pub fn next_inode(&mut self) -> (r: Result<InodeId, Errors>)
        requires
            old(self).wf(),
        ensures
            final(self).wf(),
            match r {
                Ok(id) => id.0 == old(self)@.next_inode && old(self)@.next_inode < u64::MAX
                    && final(self)@ == (FsView {
                    next_inode: (old(self)@.next_inode + 1) as u64,
                    ..old(self)@
                }),
                Err(e) => e@ == ErrorKind::InodesExhausted && old(self)@.next_inode == u64::MAX
                    && final(self)@ == old(self)@,
            },
            inv(old(self)@) ==> inv(final(self)@),
    {
        let ino = self.next_inode;
        if ino.0 == u64::MAX {
            return Err(Errors::InodesExhausted);
        }
        self.next_inode = InodeId(ino.0 + 1);
        Ok(ino)
    }

    /// The child of `parent` that goes by `name`.
    pub fn resolve(&self, parent: InodeId, name: &str) -> (r: Result<InodeId, Errors>)
        requires
            self.wf(),
        ensures
            match r {
                Ok(id) => resolved(self@, parent.0, name@) == Ok::<u64, ErrorKind>(id.0),
                Err(e) => resolved(self@, parent.0, name@) == Err::<u64, ErrorKind>(e@),
            },
    {
        let node = match self.inodes.get(&parent.0) {
            Some(node) => node,
            None => return Err(Errors::ParentInodeNotFound(parent)),
        };
        match node.child(name) {
            Some(id) => Ok(id),
            None => Err(Errors::FileDoesNotExist(name.to_owned())),
        }
    }

    /// Enters `child` under `name` in the node of `parent`. A child that went
    /// by that name before goes by it no longer. Whether `child` is a node at
    /// all is not asked: the tree stays in order where the entry fits.
    pub fn register_child(&mut self, parent: InodeId, name: String, child: InodeId) -> (r: Result<
        (),
        Errors,
    >)
        requires
            old(self).wf(),
        ensures
            final(self).wf(),
            match r {
                Ok(_) => old(self)@.nodes.contains_key(parent.0) && final(self)@ == with_entry(
                    old(self)@,
                    parent.0,
                    name@,
                    child.0,
                ),
                Err(e) => !old(self)@.nodes.contains_key(parent.0) && e@
                    == ErrorKind::ParentInodeNotFound(parent.0) && final(self)@ == old(self)@,
            },
            inv(old(self)@) && entry_fits(old(self)@, parent.0, name@, child.0) ==> inv(
                final(self)@,
            ),
    {
        let ghost before = self.inodes@;
        let mut node = match self.inodes.remove(&parent.0) {
            Some(node) => node,
            None => {
                assert(self.inodes@ =~= before);
                return Err(Errors::ParentInodeNotFound(parent));
            },
        };
        node.add_child(name, child);
        self.inodes.insert(parent.0, node);
        assert(self.inodes@ =~= before.insert(parent.0, node));
        assert(self@.nodes =~= with_entry(old(self)@, parent.0, name@, child.0).nodes);
        proof {
            if inv(old(self)@) && entry_fits(old(self)@, parent.0, name@, child.0) {
                lemma_with_entry_keeps_inv(old(self)@, parent.0, name@, child.0);
            }
        }
        Ok(())
    }

    /// The attributes of `inode` out of its record, for a process that runs
    /// as `uid` and `gid`.
    pub fn getattributes(&self, inode: InodeId, uid: u32, gid: u32) -> (r: Result<FileAttr, Errors>)
        ensures
            match r {
                Ok(attr) => attributes_of(self@, inode.0, uid, gid) == Ok::<FileAttr, ErrorKind>(attr),
                Err(e) => attributes_of(self@, inode.0, uid, gid) == Err::<FileAttr, ErrorKind>(e@),
            },
    {
        match self.files.get(&inode.0) {
            Some(file) => Ok(file.to_file_attr(inode, uid, gid)),
            None => Err(Errors::InodeNotFound(inode)),
        }
    }
}

// ---------------------------------------------------------------------------
// Paths
// ---------------------------------------------------------------------------
/// What the walk up has found so far, and then what the rest of it finds.
pub open spec fn continued(found: Seq<Seq<char>>, rest: Result<Seq<Seq<char>>, ErrorKind>) -> Result<
    Seq<Seq<char>>,
    ErrorKind,
> {
    match rest {
        Ok(names) => Ok(found + names),
        Err(e) => Err(e),
    }
}

impl FuseFilesystem {
    /// Builds the list of names from an inode up to the root by walking the
    /// inode tree upwards
    pub fn _full_path_of_inode(&self, inode: &InodeId) -> (r: Result<Vec<String>, Errors>)
        ensures
            match r {
                Ok(names) => segments(self@, inode.0) == Ok::<_, ErrorKind>(texts(names@))
                    && names@.len() > 0,
                Err(e) => segments(self@, inode.0) == Err::<Seq<Seq<char>>, _>(e@),
            },
    {
        let mut path: Vec<String> = Vec::new();
        let mut current: u64 = inode.0;
        let mut fuel: usize = self.inodes.len();
        assert(self@.nodes.dom() =~= self.inodes@.dom());
        assert(texts(path@) =~= Seq::<Seq<char>>::empty());
        assert(Seq::<Seq<char>>::empty() + seq![self@.files[current].attr.name] =~= seq![
            self@.files[current].attr.name,
        ]);
        loop
            invariant
                segments(self@, inode.0) == continued(
                    texts(path@),
                    chain(self@, current, fuel as nat),
                ),
            decreases fuel,
        {
            let ghost found = texts(path@);
            let file = match self.files.get(&current) {
                Some(file) => file,
                None => return Err(Errors::FileEntryMissing(InodeId(current))),
            };
            let node = match self.inodes.get(&current) {
                Some(node) => node,
                None => return Err(Errors::ParentInodeNotFound(InodeId(current))),
            };
            let name = file.attributes().name().to_owned();
            path.push(name);
            assert(texts(path@) =~= found + seq![self@.files[current].attr.name]);
            let parent_inode = node.parent();
            // Walk until the root node is reached, then return
            if parent_inode.is_filesystem_root() {
                return Ok(path);
            }
            if fuel == 0 {
                return Err(Errors::InodeNotFound(InodeId(ROOT_INODE)));
            }
            proof {
                let rest = chain(self@, parent_inode.0, (fuel - 1) as nat);
                if rest is Ok {
                    assert(found + (seq![self@.files[current].attr.name] + rest->Ok_0) =~= texts(
                        path@,
                    ) + rest->Ok_0);
                }
            }
            fuel -= 1;
            current = parent_inode.0;
        }
    }

    /// Returns the filesystem-absolute path of an inode
    pub fn full_path_of_inode(&self, inode: &InodeId) -> (r: Result<String, Errors>)
        ensures
            outcome(r) == full_path(self@, inode.0),
    {
        let names = self._full_path_of_inode(inode)?;
        if inode.is_filesystem_root() {
            assert(texts(names@).first() == names@[0]@);
            return Ok(names[0].clone());
        }
        let ghost all = texts(names@);
        let mut path = String::new();
        let mut i: usize = names.len();
        assert(all.subrange(i as int, all.len() as int) =~= Seq::<Seq<char>>::empty());
        while i > 0
            invariant
                i <= names@.len(),
                all == texts(names@),
                path@ == path_text(all.subrange(i as int, all.len() as int)),
            decreases i,
        {
            i -= 1;
            proof {
                let tail = all.subrange(i as int, all.len() as int);
                assert(tail.drop_first() =~= all.subrange(i + 1, all.len() as int));
                assert(tail.first() == names@[i as int]@);
            }
            path.append("/");
            path.append(names[i].as_str());
            proof {
                reveal_strlit("/");
                assert("/"@ =~= seq!['/']);
            }
        }
        assert(all.subrange(0, all.len() as int) =~= all);
        Ok(path)
    }
}

// ---------------------------------------------------------------------------
// Taking in what the server lists
// ---------------------------------------------------------------------------
/// The node of a child of `parent` that has no children of its own yet.
pub open spec fn fresh_node(parent: u64) -> NodeView {
    NodeView { parent, children: Map::empty() }
}

/// The state after the record `file` has been taken in as a child of `dir`:
/// it has the next inode number, a node of its own, and stands in the node of
/// `dir` under its name.
pub open spec fn adopted(v: FsView, dir: u64, file: FileView) -> FsView {
    let id = v.next_inode;
    let born = FsView {
        nodes: v.nodes.insert(id, fresh_node(dir)),
        files: v.files.insert(id, file),
        next_inode: (id + 1) as u64,
        ..v
    };
    with_entry(born, dir, file.attr.name, id)
}

/// The state after the records `files` have been taken in as children of
/// `dir`, one after the other.
pub open spec fn populated(v: FsView, dir: u64, files: Seq<FileView>) -> FsView
    decreases files.len(),
{
    if files.len() == 0 {
        v
    } else {
        adopted(populated(v, dir, files.drop_last()), dir, files.last())
    }
}

/// To take a record in keeps the tree in order.
pub proof fn lemma_adopted_keeps_inv(v: FsView, dir: u64, file: FileView)
    requires
        inv(v),
        v.nodes.contains_key(dir),
        v.next_inode < u64::MAX,
    ensures
        inv(adopted(v, dir, file)),
{
    let after = adopted(v, dir, file);
    let id = v.next_inode;
    assert(!v.files.contains_key(id));
    assert(!v.nodes.contains_key(id));
    assert forall|parent: u64, name: Seq<char>|
        after.nodes.contains_key(parent) && #[trigger] after.nodes[parent].children.contains_key(
            name,
        ) implies child_linked(after, parent, name) by {
        if parent == dir {
            if name != file.attr.name {
                assert(v.nodes[dir].children.contains_key(name));
                assert(child_linked(v, dir, name));
            }
        } else if parent == id {
        } else {
            assert(v.nodes[parent].children.contains_key(name));
            assert(child_linked(v, parent, name));
        }
    }
    assert forall|n: u64| #[trigger] after.nodes.contains_key(n) && n != ROOT_INODE implies after.nodes.contains_key(
        after.nodes[n].parent,
    ) && after.nodes[n].parent < n by {
        if n == id {
            assert(v.files.contains_key(dir));
        } else {
            assert(v.nodes.contains_key(n));
        }
    }
}

/// What taking in a list of records does to the numbers, and that it keeps
/// the tree in order.
pub proof fn lemma_populated(v: FsView, dir: u64, files: Seq<FileView>)
    requires
        v.nodes.contains_key(dir),
        v.next_inode + files.len() <= u64::MAX,
    ensures
        populated(v, dir, files).next_inode == v.next_inode + files.len(),
        populated(v, dir, files).nodes.contains_key(dir),
        populated(v, dir, files).prefix == v.prefix,
        populated(v, dir, files).next_fd == v.next_fd,
        inv(v) ==> inv(populated(v, dir, files)),
    decreases files.len(),
{
    if files.len() > 0 {
        lemma_populated(v, dir, files.drop_last());
        if inv(v) {
            lemma_adopted_keeps_inv(populated(v, dir, files.drop_last()), dir, files.last());
        }
    }
}

impl FuseFilesystem {
    /// Takes the record `file` in as a child of `dir`: gives it the next
    /// inode number and a node of its own, stores it, and enters it in the
    /// node of `dir` under its name. Returns the number.
    pub fn adopt(&mut self, dir: InodeId, file: File) -> (r: Result<InodeId, Errors>)
        requires
            old(self).wf(),
        ensures
            final(self).wf(),
            match r {
                Ok(id) => {
                    &&& old(self)@.nodes.contains_key(dir.0)
                    &&& old(self)@.next_inode < u64::MAX
                    &&& id.0 == old(self)@.next_inode
                    &&& final(self)@ == adopted(old(self)@, dir.0, file@)
                },
                Err(e) => {
                    &&& final(self)@ == old(self)@
                    &&& if !old(self)@.nodes.contains_key(dir.0) {
                        e@ == ErrorKind::InodeNotFound(dir.0)
                    } else {
                        e@ == ErrorKind::InodesExhausted && old(self)@.next_inode == u64::MAX
                    }
                },
            },
            inv(old(self)@) ==> inv(final(self)@),
    {
        if self.inodes.get(&dir.0).is_none() {
            return Err(Errors::InodeNotFound(dir));
        }
        let id = self.next_inode()?;
        let name = file.attributes().name().to_owned();
        let ghost v = old(self)@;
        let ghost nodes0 = self.inodes@;
        self.files.insert(id.0, file);
        self.inodes.insert(id.0, Inode::new(dir));
        proof {
            assert(self.inodes@ =~= nodes0.insert(id.0, self.inodes@[id.0]));
            assert(self@.nodes =~= v.nodes.insert(id.0, fresh_node(dir.0)));
            assert(self@.files =~= v.files.insert(id.0, file@));
        }
        let registered = self.register_child(dir, name, id);
        proof {
            assert(registered is Ok);
            assert(self@ =~= adopted(v, dir.0, file@));
            if inv(v) {
                lemma_adopted_keeps_inv(v, dir.0, file@);
            }
        }
        Ok(id)
    }
}

} // verus!
