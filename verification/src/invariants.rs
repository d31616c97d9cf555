//! What holds of every state of a mount, and of every answer of its handlers.
use vstd::prelude::*;
use vstd::set_lib::lemma_len_subset;

use crate::errors::{ErrorKind, KernelError};
use crate::file::{convertible, file_of, FileAttr, FileType};
use crate::filesystem::{
    chain, child_linked, full_path, initial_state, inv, lemma_populated, path_text, resolved,
    segments, FsView, ROOT_INODE,
};
use crate::handler::{
    converted, dots, entries_of, for_kernel, found, lookup_step, readdir_step, unexplored,
};
use crate::prop::PropView;
use crate::text::lemma_file_name_is_a_name;

verus! {

// ---------------------------------------------------------------------------
// The tree
// ---------------------------------------------------------------------------
/// A mount begins in order.
pub proof fn lemma_initial_state_is_in_order(prefix: Seq<char>)
    ensures
        inv(initial_state(prefix)),
{
}

/// No node but the root stands in the tree twice: an entry that leads to it
/// stands in the node of its parent, under the name of its record.
pub proof fn lemma_entry_is_unique(
    v: FsView,
    first_parent: u64,
    first_name: Seq<char>,
    second_parent: u64,
    second_name: Seq<char>,
)
    requires
        inv(v),
        v.nodes.contains_key(first_parent),
        v.nodes[first_parent].children.contains_key(first_name),
        v.nodes.contains_key(second_parent),
        v.nodes[second_parent].children.contains_key(second_name),
        v.nodes[first_parent].children[first_name] == v.nodes[second_parent].children[second_name],
    ensures
        first_parent == second_parent,
        first_name == second_name,
{
    assert(child_linked(v, first_parent, first_name));
    assert(child_linked(v, second_parent, second_name));
}

/// How many steps lie between `id` and the child of the root that it lies
/// under.
pub open spec fn depth(v: FsView, id: u64) -> nat
    decreases id,
{
    if v.nodes[id].parent != ROOT_INODE && v.nodes[id].parent < id {
        1 + depth(v, v.nodes[id].parent)
    } else {
        0
    }
}

/// The nodes with numbers up to `id`.
pub open spec fn older(v: FsView, id: u64) -> Set<u64> {
    Set::new(|n: u64| v.nodes.contains_key(n) && n <= id)
}

proof fn lemma_depth_is_bounded(v: FsView, id: u64)
    requires
        inv(v),
        v.nodes.contains_key(id),
    ensures
        older(v, id).finite(),
        depth(v, id) + 1 <= older(v, id).len(),
        older(v, id).len() <= v.nodes.len(),
    decreases id,
{
    assert(older(v, id).subset_of(v.nodes.dom()));
    lemma_len_subset(older(v, id), v.nodes.dom());
    let parent = v.nodes[id].parent;
    if parent != ROOT_INODE && parent < id {
        lemma_depth_is_bounded(v, parent);
        let below = older(v, parent);
        assert(!below.contains(id));
        assert(below.insert(id).subset_of(older(v, id)));
        lemma_len_subset(below.insert(id), older(v, id));
    } else {
        assert(older(v, id).contains(id));
        if older(v, id).len() == 0 {
            assert(older(v, id) =~= Set::empty());
        }
    }
}

proof fn lemma_chain_ends(v: FsView, id: u64, fuel: nat)
    requires
        inv(v),
        v.nodes.contains_key(id),
        fuel >= depth(v, id),
    ensures
        chain(v, id, fuel) is Ok,
        chain(v, id, fuel)->Ok_0.len() == depth(v, id) + 1,
    decreases id,
{
    let parent = v.nodes[id].parent;
    if parent != ROOT_INODE {
        assert(id != ROOT_INODE);
        lemma_chain_ends(v, parent, (fuel - 1) as nat);
    }
}

/// In a tree that is in order the walk from any node up to the root ends:
/// every node has a path.
pub proof fn lemma_every_node_has_a_path(v: FsView, id: u64)
    requires
        inv(v),
        v.nodes.contains_key(id),
    ensures
        segments(v, id) is Ok,
        full_path(v, id) is Ok,
{
    lemma_depth_is_bounded(v, id);
    lemma_chain_ends(v, id, v.nodes.len());
}

/// The path of the root is `/`.
pub proof fn lemma_path_of_root(v: FsView)
    requires
        inv(v),
    ensures
        full_path(v, ROOT_INODE) == Ok::<_, ErrorKind>("/"@),
{
    assert(seq!["/"@].first() == "/"@);
}

/// The path of the child of the root that goes by `name` has that name as
/// its only segment.
pub proof fn lemma_path_of_child_of_root(v: FsView, name: Seq<char>)
    requires
        inv(v),
        v.nodes[ROOT_INODE].children.contains_key(name),
    ensures
        segments(v, v.nodes[ROOT_INODE].children[name]) == Ok::<_, ErrorKind>(seq![name]),
        full_path(v, v.nodes[ROOT_INODE].children[name]) == Ok::<_, ErrorKind>(seq!['/'] + name),
{
    let child = v.nodes[ROOT_INODE].children[name];
    assert(child_linked(v, ROOT_INODE, name));
    let names = seq![name];
    assert(names.drop_first() =~= Seq::<Seq<char>>::empty());
    assert(path_text(names.drop_first()) =~= Seq::<char>::empty());
    assert(path_text(names) =~= seq!['/'] + name);
}

// ---------------------------------------------------------------------------
// Listing
// ---------------------------------------------------------------------------
/// Where records are made of props, there is one of each, in the same order.
pub proof fn lemma_converted(props: Seq<PropView>)
    ensures
        converted(props) matches Ok(files) ==> {
            &&& files.len() == props.len()
            &&& forall|i: int|
                0 <= i < props.len() ==> convertible(#[trigger] props[i]) && files[i] == file_of(
                    props[i],
                )
        },
    decreases props.len(),
{
    if props.len() > 0 {
        lemma_converted(props.drop_last());
        if converted(props) is Ok {
            let files = converted(props)->Ok_0;
            let front = converted(props.drop_last())->Ok_0;
            assert forall|i: int| 0 <= i < props.len() implies convertible(#[trigger] props[i])
                && files[i] == file_of(props[i]) by {
                if i < props.len() - 1 {
                    assert(props.drop_last()[i] == props[i]);
                    assert(files[i] == front[i]);
                }
            }
        }
    }
}

/// Whether a name is one of the two that every directory holds.
pub open spec fn is_dot(name: Seq<char>) -> bool {
    name == "."@ || name == ".."@
}

/// A listing holds `..` and `.` only where it begins with the directory's
/// very first entry, and then as its first two entries: the parent, and the
/// directory itself. No entry that the server lists goes by either name.
pub proof fn lemma_dots_only_from_the_start(
    v: FsView,
    dir: u64,
    offset: usize,
    records: Result<Seq<PropView>, ErrorKind>,
)
    ensures
        readdir_step(v, dir, offset, records).1 matches Ok(entries) ==> {
            &&& offset == 0 ==> entries.len() >= 2 && entries[0] == (
                v.nodes[dir].parent,
                FileType::Directory,
                ".."@,
            ) && entries[1] == (dir, FileType::Directory, "."@)
            &&& forall|i: int|
                dots(v, dir, offset).len() <= i < entries.len() ==> !is_dot((#[trigger] entries[i]).2)
        },
{
    reveal_strlit(".");
    reveal_strlit("..");
    assert("."@ =~= seq!['.']);
    assert(".."@ =~= seq!['.', '.']);
    if readdir_step(v, dir, offset, records).1 is Ok {
        let entries = readdir_step(v, dir, offset, records).1->Ok_0;
        let props = records->Ok_0;
        let files = converted(props)->Ok_0;
        lemma_converted(props);
        let skip = if offset <= files.len() {
            offset as int
        } else {
            files.len() as int
        };
        let fresh = files.skip(skip);
        let lead: int = if offset == 0 {
            2
        } else {
            0
        };
        assert(dots(v, dir, offset).len() == lead);
        assert forall|i: int| lead <= i < entries.len() implies !is_dot((#[trigger] entries[i]).2) by {
            let k = i - lead;
            assert(entries[i] == entries_of(v.next_inode, fresh)[k]);
            assert(fresh[k] == files[skip + k]);
            assert(convertible(props[skip + k]));
            lemma_file_name_is_a_name(props[skip + k].path);
        }
    }
}

/// The numbers that a listing hands out are new: none of them was in use
/// before, and all of them are in use after it. The numbers that are handed
/// out next only grow.
pub proof fn lemma_listing_hands_out_new_numbers(
    v: FsView,
    dir: u64,
    offset: usize,
    records: Result<Seq<PropView>, ErrorKind>,
)
    requires
        inv(v),
    ensures
        inv(readdir_step(v, dir, offset, records).0),
        readdir_step(v, dir, offset, records).0.next_inode >= v.next_inode,
        readdir_step(v, dir, offset, records).1 matches Ok(entries) ==> forall|i: int|
            dots(v, dir, offset).len() <= i < entries.len() ==> {
                let id = (#[trigger] entries[i]).0;
                &&& !v.files.contains_key(id)
                &&& !v.nodes.contains_key(id)
                &&& v.next_inode <= id < readdir_step(v, dir, offset, records).0.next_inode
            },
{
    if readdir_step(v, dir, offset, records).1 is Ok {
        let entries = readdir_step(v, dir, offset, records).1->Ok_0;
        let files = converted(records->Ok_0)->Ok_0;
        let skip = if offset <= files.len() {
            offset as int
        } else {
            files.len() as int
        };
        let fresh = files.skip(skip);
        lemma_populated(v, dir, fresh);
        let lead: int = if offset == 0 {
            2
        } else {
            0
        };
        assert(dots(v, dir, offset).len() == lead);
        assert forall|i: int| lead <= i < entries.len() implies {
            let id = (#[trigger] entries[i]).0;
            &&& !v.files.contains_key(id)
            &&& !v.nodes.contains_key(id)
            &&& v.next_inode <= id < readdir_step(v, dir, offset, records).0.next_inode
        } by {
            let k = i - lead;
            assert(entries[i] == entries_of(v.next_inode, fresh)[k]);
        }
    }
}

// ---------------------------------------------------------------------------
// Looking up
// ---------------------------------------------------------------------------
/// A lookup keeps the tree in order, and never takes back a number.
pub proof fn lemma_lookup_keeps_order(
    v: FsView,
    parent: u64,
    name: Seq<char>,
    uid: u32,
    gid: u32,
    records: Option<Result<Seq<PropView>, ErrorKind>>,
)
    requires
        inv(v),
    ensures
        inv(lookup_step(v, parent, name, uid, gid, records).0),
        lookup_step(v, parent, name, uid, gid, records).0.next_inode >= v.next_inode,
{
    if unexplored(v, parent) && records is Some {
        lemma_listing_hands_out_new_numbers(v, parent, 0, records.unwrap());
    }
}

/// A lookup that has found an entry finds it again: the same lookup right
/// after it, whatever the server would answer then, gives the same
/// attributes under the same inode number, and changes nothing.
pub proof fn lemma_lookup_again(
    v: FsView,
    parent: u64,
    name: Seq<char>,
    uid: u32,
    gid: u32,
    first: Option<Result<Seq<PropView>, ErrorKind>>,
    second: Option<Result<Seq<PropView>, ErrorKind>>,
)
    ensures
        ({
            let (after, answer) = lookup_step(v, parent, name, uid, gid, first);
            answer matches Ok(attr) ==> {
                &&& resolved(after, parent, name) == Ok::<_, ErrorKind>(attr.ino)
                &&& lookup_step(after, parent, name, uid, gid, second) == (after, answer)
            }
        }),
{
    let (after, answer) = lookup_step(v, parent, name, uid, gid, first);
    if answer is Ok {
        assert(after.nodes[parent].children.contains_key(name));
        assert(after.nodes[parent].children != Map::<Seq<char>, u64>::empty());
    }
}

/// To look a name up under a number that is no node is to be told that it
/// was not found. Nothing changes.
pub proof fn lemma_lookup_under_no_node(
    v: FsView,
    parent: u64,
    name: Seq<char>,
    uid: u32,
    gid: u32,
    records: Option<Result<Seq<PropView>, ErrorKind>>,
)
    requires
        !v.nodes.contains_key(parent),
    ensures
        lookup_step(v, parent, name, uid, gid, records) == (
            v,
            Err::<FileAttr, _>(ErrorKind::ParentInodeNotFound(parent)),
        ),
        for_kernel(lookup_step(v, parent, name, uid, gid, records).1) == Err::<FileAttr, _>(
            KernelError::NotFound,
        ),
{
}

/// In a tree that is in order a lookup fails only for want of the parent,
/// of the name, or of a usable answer of the server: the record of an entry
/// is never missing.
pub proof fn lemma_found_has_a_record(v: FsView, parent: u64, name: Seq<char>, uid: u32, gid: u32)
    requires
        inv(v),
    ensures
        match found(v, parent, name, uid, gid) {
            Ok(attr) => resolved(v, parent, name) == Ok::<_, ErrorKind>(attr.ino),
            Err(e) => resolved(v, parent, name) == Err::<u64, _>(e),
        },
{
    if resolved(v, parent, name) is Ok {
        assert(child_linked(v, parent, name));
    }
}

} // verus!
