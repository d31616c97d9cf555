//! One node of the inode tree: who its parent is, and which child goes by
//! which name.
use vstd::prelude::*;

use crate::filesystem::InodeId;
use crate::text::same_text;

verus! {

/// Maps file paths to inodes and represents the tree structure
#[derive(Debug)]
pub struct Inode {
    /// The children by name. No name stands twice.
    children: Vec<(String, InodeId)>,
    parent: InodeId,
}

/// What an [`Inode`] holds: the number of its parent, and the number of the
/// child behind each name.
pub struct NodeView {
    pub parent: u64,
    pub children: Map<Seq<char>, u64>,
}

/// The map that a list of entries writes down. Where a name stood twice, the
/// later entry would count.
pub open spec fn entries(list: Seq<(String, InodeId)>) -> Map<Seq<char>, u64>
    decreases list.len(),
{
    if list.len() == 0 {
        Map::empty()
    } else {
        entries(list.drop_last()).insert(list.last().0@, list.last().1.0)
    }
}

/// Whether no name stands twice in `list`.
pub open spec fn distinct_names(list: Seq<(String, InodeId)>) -> bool {
    forall|i: int, j: int|
        0 <= i < j < list.len() ==> (#[trigger] list[i]).0@ != (#[trigger] list[j]).0@
}

/// The names of a map of entries are those of the list.
proof fn lemma_entries_names(list: Seq<(String, InodeId)>, name: Seq<char>)
    ensures
        entries(list).contains_key(name) <==> exists|i: int|
            0 <= i < list.len() && (#[trigger] list[i]).0@ == name,
    decreases list.len(),
{
    if list.len() > 0 {
        let front = list.drop_last();
        lemma_entries_names(front, name);
        if entries(list).contains_key(name) {
            if list.last().0@ == name {
                assert(list[list.len() - 1].0@ == name);
            } else {
                let i = choose|i: int| 0 <= i < front.len() && (#[trigger] front[i]).0@ == name;
                assert(list[i].0@ == name);
            }
        }
        if exists|i: int| 0 <= i < list.len() && (#[trigger] list[i]).0@ == name {
            let i = choose|i: int| 0 <= i < list.len() && (#[trigger] list[i]).0@ == name;
            if i < front.len() {
                assert(front[i].0@ == name);
            }
        }
    }
}

/// Each entry of a list without double names is what the map says of its name.
proof fn lemma_entries_at(list: Seq<(String, InodeId)>, i: int)
    requires
        distinct_names(list),
        0 <= i < list.len(),
    ensures
        entries(list).contains_key(list[i].0@),
        entries(list)[list[i].0@] == list[i].1.0,
    decreases list.len(),
{
    let front = list.drop_last();
    if i < list.len() - 1 {
        assert(distinct_names(front)) by {
            assert forall|a: int, b: int| 0 <= a < b < front.len() implies (#[trigger] front[a]).0@
                != (#[trigger] front[b]).0@ by {
                assert(front[a] == list[a]);
                assert(front[b] == list[b]);
            }
        }
        lemma_entries_at(front, i);
        assert(front[i] == list[i]);
        assert(list[i].0@ != list[list.len() - 1].0@);
    }
}

/// To write another child behind the name of entry `i` is to change that
/// entry.
proof fn lemma_entries_update(list: Seq<(String, InodeId)>, i: int, entry: (String, InodeId))
    requires
        distinct_names(list),
        0 <= i < list.len(),
        entry.0@ == list[i].0@,
    ensures
        distinct_names(list.update(i, entry)),
        entries(list.update(i, entry)) == entries(list).insert(entry.0@, entry.1.0),
    decreases list.len(),
{
    let changed = list.update(i, entry);
    assert(distinct_names(changed)) by {
        assert forall|a: int, b: int| 0 <= a < b < changed.len() implies (#[trigger] changed[a]).0@
            != (#[trigger] changed[b]).0@ by {
            assert(list[a].0@ != list[b].0@);
        }
    }
    let front = list.drop_last();
    if i == list.len() - 1 {
        assert(changed.drop_last() =~= front);
        assert(entries(changed) =~= entries(list).insert(entry.0@, entry.1.0));
    } else {
        assert(distinct_names(front)) by {
            assert forall|a: int, b: int| 0 <= a < b < front.len() implies (#[trigger] front[a]).0@
                != (#[trigger] front[b]).0@ by {
                assert(front[a] == list[a]);
                assert(front[b] == list[b]);
            }
        }
        assert(front[i] == list[i]);
        lemma_entries_update(front, i, entry);
        assert(changed.drop_last() =~= front.update(i, entry));
        assert(changed.last() == list.last());
        assert(list[i].0@ != list[list.len() - 1].0@);
        assert(entries(changed) =~= entries(list).insert(entry.0@, entry.1.0));
    }
}

impl View for Inode {
    type V = NodeView;

    closed spec fn view(&self) -> NodeView {
        NodeView { parent: self.parent.0, children: entries(self.children@) }
    }
}

impl Inode {
    /// Whether the node is in order: no name stands for two children.
    pub closed spec fn wf(&self) -> bool {
        distinct_names(self.children@)
    }

    pub fn new(parent: InodeId) -> (r: Self)
        ensures
            r.wf(),
            r@ == (NodeView { parent: parent.0, children: Map::empty() }),
    {
        Self { children: Vec::new(), parent }
    }

    /// Where `name` stands in the list, if it does.
    fn position(&self, name: &str) -> (r: Option<usize>)
        ensures
            match r {
                Some(i) => i < self.children@.len() && self.children@[i as int].0@ == name@,
                None => forall|i: int|
                    0 <= i < self.children@.len() ==> (#[trigger] self.children@[i]).0@ != name@,
            },
    {
        let mut i: usize = 0;
        while i < self.children.len()
            invariant
                i <= self.children@.len(),
                forall|k: int| 0 <= k < i ==> (#[trigger] self.children@[k]).0@ != name@,
            decreases self.children.len() - i,
        {
            if same_text(self.children[i].0.as_str(), name) {
                return Some(i);
            }
            i += 1;
        }
        None
    }

    /// Enters `inode` as the child that goes by `name`. A child that went by
    /// that name before goes by it no longer.
    pub fn add_child(&mut self, name: String, inode: InodeId)
        requires
            old(self).wf(),
        ensures
            final(self).wf(),
            final(self)@ == (NodeView {
                children: old(self)@.children.insert(name@, inode.0),
                ..old(self)@
            }),
    {
        match self.position(name.as_str()) {
            Some(i) => {
                proof {
                    lemma_entries_update(self.children@, i as int, (name, inode));
                }
                self.children.set(i, (name, inode));
            },
            None => {
                let ghost before = self.children@;
                self.children.push((name, inode));
                proof {
                    assert(self.children@.drop_last() =~= before);
                    assert forall|a: int, b: int|
                        0 <= a < b < self.children@.len() implies (#[trigger] self.children@[a]).0@
                        != (#[trigger] self.children@[b]).0@ by {
                        assert(self.children@[a] == before[a]);
                        if b < before.len() {
                            assert(self.children@[b] == before[b]);
                        }
                    }
                }
            },
        }
    }

    /// The child that goes by `name`.
    pub fn child(&self, name: &str) -> (r: Option<InodeId>)
        requires
            self.wf(),
        ensures
            match r {
                Some(id) => self@.children.contains_key(name@) && self@.children[name@] == id.0,
                None => !self@.children.contains_key(name@),
            },
    {
        proof {
            lemma_entries_names(self.children@, name@);
        }
        match self.position(name) {
            Some(i) => {
                proof {
                    lemma_entries_at(self.children@, i as int);
                }
                Some(self.children[i].1)
            },
            None => None,
        }
    }

    /// The node that this one is a child of. The root is its own parent.
    pub fn parent(&self) -> (r: InodeId)
        ensures
            r.0 == self@.parent,
    {
        self.parent
    }

    /// Whether the node has no children.
    pub fn is_empty(&self) -> (r: bool)
        ensures
            r == (self@.children == Map::<Seq<char>, u64>::empty()),
    {
        proof {
            if self.children@.len() > 0 {
                assert(entries(self.children@).contains_key(self.children@.last().0@));
            }
        }
        self.children.len() == 0
    }
}

} // verus!
