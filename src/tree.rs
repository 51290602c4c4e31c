//! The abstract tree: what the builder produces from cluster listings, and
//! the invariants that every built tree satisfies.

use vstd::prelude::*;
use crate::attr::{blocks_for, dir_attr_spec, epoch_secs, file_attr_spec, FileAttr, FileKind};
use crate::node::{lemma_upsert_unique, names_unique, upsert, ContentView, NodeView};
use crate::resource::{ListingView, ResourceView};

verus! {

/// The inode table as a map, with the next inode that allocation hands out.
pub struct TreeView {
    pub nodes: Map<u64, NodeView>,
    pub next: int,
}

/// A directory being filled: the table, the next inode, and its entries.
pub struct DirBuild {
    pub nodes: Map<u64, NodeView>,
    pub next: int,
    pub children: Seq<(Seq<char>, u64)>,
}

pub open spec fn manifest_name() -> Seq<char> {
    "manifest.yaml"@
}

pub open spec fn config_maps_name() -> Seq<char> {
    "configmaps"@
}

pub open spec fn yaml_suffix() -> Seq<char> {
    ".yaml"@
}

pub open spec fn dir_node(
    name: Seq<char>,
    ino: u64,
    time: u64,
    nlink: u32,
    children: Seq<(Seq<char>, u64)>,
) -> NodeView {
    NodeView { name, attrs: dir_attr_spec(ino, time, nlink), content: ContentView::Children(children) }
}

pub open spec fn file_node(name: Seq<char>, ino: u64, bytes: Seq<u8>, time: u64) -> NodeView {
    NodeView {
        name,
        attrs: file_attr_spec(ino, bytes.len() as u64, time),
        content: ContentView::Bytes(bytes),
    }
}

/// The tree before any namespace is added: the root alone.
pub open spec fn root_tree() -> TreeView {
    TreeView {
        nodes: Map::empty().insert(1u64, dir_node("/"@, 1, 0, 2, Seq::empty())),
        next: 2,
    }
}

/// Adds the file of one config map to a `configmaps` directory being filled.
pub open spec fn add_config_map(b: DirBuild, cm: ResourceView) -> DirBuild {
    match cm.name {
        None => b,
        Some(n) => {
            let f = n + yaml_suffix();
            let ino = b.next as u64;
            DirBuild {
                nodes: b.nodes.insert(ino, file_node(f, ino, cm.manifest, epoch_secs(cm.created))),
                next: b.next + 1,
                children: upsert(b.children, f, ino),
            }
        },
    }
}

pub open spec fn add_config_maps(b: DirBuild, cms: Seq<ResourceView>) -> DirBuild
    decreases cms.len(),
{
    if cms.len() == 0 {
        b
    } else {
        add_config_map(add_config_maps(b, cms.drop_last()), cms.last())
    }
}

pub open spec fn root_entries(t: TreeView) -> Seq<(Seq<char>, u64)> {
    match t.nodes[1].content {
        ContentView::Children(c) => c,
        ContentView::Bytes(_) => Seq::empty(),
    }
}

/// The root after namespace `name` was bound to `ino`: one more link.
pub open spec fn root_with(t: TreeView, name: Seq<char>, ino: u64) -> NodeView {
    let root = t.nodes[1];
    NodeView {
        name: root.name,
        attrs: FileAttr { nlink: (root.attrs.nlink + 1) as u32, ..root.attrs },
        content: ContentView::Children(upsert(root_entries(t), name, ino)),
    }
}

/// Adds one namespace: its directory, its manifest file and, where its config
/// maps could be listed, a `configmaps` directory with one file per named
/// config map. A namespace without a name is skipped.
pub open spec fn add_namespace(t: TreeView, l: ListingView, now: u64) -> TreeView {
    match l.namespace.name {
        None => t,
        Some(n) => {
            let ino = t.next as u64;
            let man = (t.next + 1) as u64;
            let time = epoch_secs(l.namespace.created);
            let first = seq![(manifest_name(), man)];
            let nodes = t.nodes.insert(ino, dir_node(n, ino, time, 2, first)).insert(
                man,
                file_node(manifest_name(), man, l.namespace.manifest, time),
            ).insert(1, root_with(t, n, ino));
            match l.config_maps {
                None => TreeView { nodes, next: t.next + 2 },
                Some(cms) => {
                    let cmdir = (t.next + 2) as u64;
                    let b = add_config_maps(
                        DirBuild { nodes, next: t.next + 3, children: Seq::empty() },
                        cms,
                    );
                    TreeView {
                        nodes: b.nodes.insert(
                            cmdir,
                            dir_node(config_maps_name(), cmdir, now, 2, b.children),
                        ).insert(ino, dir_node(n, ino, time, 2, first.push((config_maps_name(), cmdir)))),
                        next: b.next,
                    }
                },
            }
        },
    }
}

/// The tree built from a sequence of namespace listings, in order.
pub open spec fn build_tree(ls: Seq<ListingView>, now: u64) -> TreeView
    decreases ls.len(),
{
    if ls.len() == 0 {
        root_tree()
    } else {
        add_namespace(build_tree(ls.drop_last(), now), ls.last(), now)
    }
}

/// How many inodes a listing may take at most: three for each namespace and
/// one for each of its config maps.
pub open spec fn inode_demand(ls: Seq<ListingView>) -> int
    decreases ls.len(),
{
    if ls.len() == 0 {
        0
    } else {
        inode_demand(ls.drop_last()) + 3 + match ls.last().config_maps {
            Some(cms) => cms.len() as int,
            None => 0,
        }
    }
}

/// A node agrees with its key: a file's size and block count match its
/// bytes, a directory's entries have unique names and name only nodes of `m`.
pub open spec fn node_ok(m: Map<u64, NodeView>, k: u64, v: NodeView) -> bool {
    &&& v.attrs.ino == k
    &&& match v.content {
        ContentView::Bytes(b) => {
            &&& v.attrs.kind == FileKind::RegularFile
            &&& v.attrs.size == b.len()
            &&& v.attrs.blocks == blocks_for(b.len())
        },
        ContentView::Children(c) => {
            &&& v.attrs.kind == FileKind::Directory
            &&& names_unique(c)
            &&& forall|i: int| 0 <= i < c.len() ==> m.contains_key(#[trigger] c[i].1)
        },
    }
}

/// The invariants of the inode table: the root exists and is a directory, no
/// directory entry dangles, every file's size and blocks match its content,
/// and every inode lies below the next one to be allocated.
pub open spec fn tree_wf(t: TreeView) -> bool {
    &&& t.next >= 2
    &&& t.nodes.contains_key(1)
    &&& t.nodes[1].content is Children
    &&& forall|k: u64| #[trigger] t.nodes.contains_key(k) ==> 1 <= k < t.next && node_ok(t.nodes, k, t.nodes[k])
}

/// Storing a well-formed node keeps the table well formed.
pub proof fn lemma_wf_insert(t: TreeView, k: u64, v: NodeView, next: int)
    requires
        tree_wf(t),
        1 <= k < next,
        t.next <= next,
        node_ok(t.nodes.insert(k, v), k, v),
        k == 1 ==> v.content is Children,
    ensures
        tree_wf(TreeView { nodes: t.nodes.insert(k, v), next }),
{
    let m = t.nodes.insert(k, v);
    assert forall|j: u64| #[trigger] m.contains_key(j) implies 1 <= j < next && node_ok(m, j, m[j]) by {
        if j != k {
            assert(node_ok(t.nodes, j, t.nodes[j]));
            match m[j].content {
                ContentView::Children(c) => {
                    assert forall|i: int| 0 <= i < c.len() implies m.contains_key(#[trigger] c[i].1) by {
                        assert(t.nodes.contains_key(c[i].1));
                    }
                },
                ContentView::Bytes(_) => {},
            }
        }
    }
}

/// Binding a name to an inode of `m` in a directory whose entries all name
/// inodes of `m` keeps both the names unique and the entries inside `m`.
pub proof fn lemma_upsert_contained(m: Map<u64, NodeView>, c: Seq<(Seq<char>, u64)>, name: Seq<char>, ino: u64)
    requires
        names_unique(c),
        forall|i: int| 0 <= i < c.len() ==> m.contains_key(#[trigger] c[i].1),
        m.contains_key(ino),
    ensures
        names_unique(upsert(c, name, ino)),
        forall|i: int| 0 <= i < upsert(c, name, ino).len() ==> m.contains_key(#[trigger] upsert(c, name, ino)[i].1),
{
    lemma_upsert_unique(c, name, ino);
    let u = upsert(c, name, ino);
    assert forall|i: int| 0 <= i < u.len() implies m.contains_key(#[trigger] u[i].1) by {
        if u[i].1 != ino {
            let j = choose|j: int| 0 <= j < c.len() && c[j].1 == u[i].1;
            assert(m.contains_key(c[j].1));
        }
    }
}

/// The root, with one more entry, stays a well-formed directory.
pub proof fn lemma_root_with(t: TreeView, name: Seq<char>, ino: u64)
    requires
        tree_wf(t),
        t.nodes.contains_key(ino),
    ensures
        node_ok(t.nodes.insert(1, root_with(t, name, ino)), 1, root_with(t, name, ino)),
        root_with(t, name, ino).content is Children,
{
    let c = root_entries(t);
    assert(node_ok(t.nodes, 1, t.nodes[1]));
    let m = t.nodes.insert(1, root_with(t, name, ino));
    assert forall|i: int| 0 <= i < c.len() implies m.contains_key(#[trigger] c[i].1) by {
        assert(t.nodes.contains_key(c[i].1));
    }
    lemma_upsert_contained(m, c, name, ino);
}

/// A prefix of a listing demands no more inodes than the whole.
pub proof fn lemma_demand_prefix(ls: Seq<ListingView>, i: int)
    requires
        0 <= i <= ls.len(),
    ensures
        inode_demand(ls.take(i)) <= inode_demand(ls),
        inode_demand(ls) >= 0,
    decreases ls.len(),
{
    if ls.len() > 0 {
        lemma_demand_prefix(ls.drop_last(), if i < ls.len() { i } else { ls.len() - 1 });
        if i < ls.len() {
            assert(ls.take(i) =~= ls.drop_last().take(i));
        } else {
            assert(ls.take(i) =~= ls);
        }
    } else {
        assert(ls.take(i) =~= ls);
    }
}

/// How many namespaces of a listing have a name.
pub open spec fn named_count(ls: Seq<ListingView>) -> int
    decreases ls.len(),
{
    if ls.len() == 0 {
        0
    } else {
        named_count(ls.drop_last()) + if ls.last().namespace.name is Some {
            1int
        } else {
            0
        }
    }
}

/// Filling a directory only adds inodes at or above the next free one.
pub proof fn lemma_fill_keeps_root(b: DirBuild, cms: Seq<ResourceView>)
    requires
        b.next >= 2,
        b.next + cms.len() <= 0xffff_ffff_ffff_ffff,
    ensures
        b.next <= add_config_maps(b, cms).next <= b.next + cms.len(),
        add_config_maps(b, cms).nodes.contains_key(1) == b.nodes.contains_key(1),
        add_config_maps(b, cms).nodes[1] == b.nodes[1],
    decreases cms.len(),
{
    if cms.len() > 0 {
        lemma_fill_keeps_root(b, cms.drop_last());
    }
}

/// The root of a built tree is the directory `/` with the epoch as its time,
/// and two links plus one for each named namespace.
pub proof fn lemma_built_root(ls: Seq<ListingView>, now: u64)
    requires
        ls.len() <= 0xffff_fffc,
        inode_demand(ls) <= 0xffff_ffff_ffff_fffc,
    ensures
        2 <= build_tree(ls, now).next <= 2 + inode_demand(ls),
        build_tree(ls, now).nodes.contains_key(1),
        build_tree(ls, now).nodes[1].name == "/"@,
        build_tree(ls, now).nodes[1].attrs == dir_attr_spec(1, 0, (2 + named_count(ls)) as u32),
        build_tree(ls, now).nodes[1].content is Children,
        0 <= named_count(ls) <= ls.len(),
    decreases ls.len(),
{
    if ls.len() > 0 {
        let t = build_tree(ls.drop_last(), now);
        lemma_built_root(ls.drop_last(), now);
        let l = ls.last();
        lemma_demand_prefix(ls.drop_last(), 0);
        if l.namespace.name is Some {
            let nodes = t.nodes.insert(t.next as u64, dir_node(l.namespace.name->Some_0, t.next as u64, epoch_secs(l.namespace.created), 2, seq![(manifest_name(), (t.next + 1) as u64)])).insert(
                (t.next + 1) as u64,
                file_node(manifest_name(), (t.next + 1) as u64, l.namespace.manifest, epoch_secs(l.namespace.created)),
            ).insert(1, root_with(t, l.namespace.name->Some_0, t.next as u64));
            match l.config_maps {
                Some(cms) => {
                    lemma_fill_keeps_root(DirBuild { nodes, next: t.next + 3, children: Seq::empty() }, cms);
                },
                None => {},
            }
        }
    }
}

} // verus!
