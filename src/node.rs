//! Nodes of the tree and the ordered child map of a directory.

use vstd::prelude::*;
use crate::attr::FileAttr;

verus! {

/// A directory's children: names with their inodes, in insertion order.
pub type Children = Vec<(String, u64)>;

pub enum NodeContent {
    Bytes(Vec<u8>),
    Children(Children),
}

pub struct Node {
    pub name: String,
    pub attrs: FileAttr,
    pub content: NodeContent,
}

pub enum ContentView {
    Bytes(Seq<u8>),
    Children(Seq<(Seq<char>, u64)>),
}

pub struct NodeView {
    pub name: Seq<char>,
    pub attrs: FileAttr,
    pub content: ContentView,
}

pub open spec fn children_view(c: Seq<(String, u64)>) -> Seq<(Seq<char>, u64)> {
    c.map_values(|e: (String, u64)| (e.0@, e.1))
}

impl View for NodeContent {
    type V = ContentView;

    open spec fn view(&self) -> ContentView {
        match self {
            NodeContent::Bytes(b) => ContentView::Bytes(b@),
            NodeContent::Children(c) => ContentView::Children(children_view(c@)),
        }
    }
}

impl View for Node {
    type V = NodeView;

    open spec fn view(&self) -> NodeView {
        NodeView { name: self.name@, attrs: self.attrs, content: self.content@ }
    }
}

/// The position of the last entry named `name`, or -1 where there is none.
pub open spec fn index_of(s: Seq<(Seq<char>, u64)>, name: Seq<char>) -> int
    decreases s.len(),
{
    if s.len() == 0 {
        -1
    } else if s.last().0 == name {
        s.len() - 1
    } else {
        index_of(s.drop_last(), name)
    }
}

/// The inode bound to `name`, if any.
pub open spec fn entry_of(s: Seq<(Seq<char>, u64)>, name: Seq<char>) -> Option<u64> {
    let i = index_of(s, name);
    if i >= 0 {
        Some(s[i].1)
    } else {
        None
    }
}

/// Binds `name` to `ino`: an existing entry keeps its place, a new one goes last.
pub open spec fn upsert(s: Seq<(Seq<char>, u64)>, name: Seq<char>, ino: u64) -> Seq<(Seq<char>, u64)> {
    let i = index_of(s, name);
    if i >= 0 {
        s.update(i, (name, ino))
    } else {
        s.push((name, ino))
    }
}

/// No two entries share a name.
pub open spec fn names_unique(s: Seq<(Seq<char>, u64)>) -> bool {
    forall|i: int, j: int| 0 <= i < s.len() && 0 <= j < s.len() && i != j ==> s[i].0 != s[j].0
}

pub proof fn lemma_index_of(s: Seq<(Seq<char>, u64)>, name: Seq<char>)
    ensures
        -1 <= index_of(s, name) < s.len(),
        index_of(s, name) >= 0 ==> s[index_of(s, name)].0 == name,
        index_of(s, name) < 0 ==> forall|k: int| 0 <= k < s.len() ==> s[k].0 != name,
    decreases s.len(),
{
    if s.len() > 0 && s.last().0 != name {
        lemma_index_of(s.drop_last(), name);
        assert forall|k: int| 0 <= k < s.len() - 1 implies s[k] == s.drop_last()[k] by {}
    }
}

/// Binding a name keeps the names unique.
pub proof fn lemma_upsert_unique(s: Seq<(Seq<char>, u64)>, name: Seq<char>, ino: u64)
    requires
        names_unique(s),
    ensures
        names_unique(upsert(s, name, ino)),
        forall|k: int| 0 <= k < upsert(s, name, ino).len() ==> (#[trigger] upsert(s, name, ino)[k]).1 == ino
            || exists|m: int| 0 <= m < s.len() && s[m].1 == upsert(s, name, ino)[k].1,
{
    lemma_index_of(s, name);
    let u = upsert(s, name, ino);
    assert forall|k: int| 0 <= k < u.len() implies (#[trigger] u[k]).1 == ino
        || exists|m: int| 0 <= m < s.len() && s[m].1 == u[k].1 by {
        if u[k].1 != ino {
            assert(s[k].1 == u[k].1);
        }
    }
}

/// Finds the inode bound to `name`.
pub fn child_of(c: &Children, name: &String) -> (r: Option<u64>)
    ensures
        r == entry_of(children_view(c@), name@),
{
    let ghost v = children_view(c@);
    let mut i: usize = c.len();
    proof {
        assert(v.take(i as int) =~= v);
    }
    while i > 0
        invariant
            i <= c.len(),
            v == children_view(c@),
            index_of(v, name@) == index_of(v.take(i as int), name@),
        decreases i,
    {
        proof {
            assert(v.take(i as int).drop_last() =~= v.take(i - 1));
        }
        if c[i - 1].0 == *name {
            return Some(c[i - 1].1);
        }
        i = i - 1;
    }
    proof {
        assert(v.take(0) =~= Seq::<(Seq<char>, u64)>::empty());
    }
    None
}

/// Binds `name` to `ino` in place.
pub fn insert_child(c: &mut Children, name: String, ino: u64)
    ensures
        children_view(final(c)@) == upsert(children_view(old(c)@), name@, ino),
{
    let ghost v = children_view(c@);
    let mut i: usize = c.len();
    proof {
        assert(v.take(i as int) =~= v);
    }
    while i > 0
        invariant
            i <= c.len(),
            v == children_view(c@),
            index_of(v, name@) == index_of(v.take(i as int), name@),
            c@ == old(c)@,
        decreases i,
    {
        proof {
            assert(v.take(i as int).drop_last() =~= v.take(i - 1));
        }
        if c[i - 1].0 == name {
            proof {
                assert(v.take(i as int).last() == v[i - 1]);
                assert(index_of(v, name@) == i - 1);
            }
            let ghost key = name@;
            c.set(i - 1, (name, ino));
            proof {
                assert(children_view(c@) =~= v.update(i - 1, (key, ino)));
                assert(children_view(c@) == upsert(v, key, ino));
            }
            return;
        }
        i = i - 1;
    }
    proof {
        assert(v.take(0) =~= Seq::<(Seq<char>, u64)>::empty());
    }
    c.push((name, ino));
    proof {
        assert(children_view(c@) =~= v.push((name@, ino)));
    }
}

} // verus!
