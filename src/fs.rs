//! The filesystem engine: the inode table, the one-shot tree builder, and
//! the read-only protocol operations.

use std::collections::HashMap;
use vstd::prelude::*;
use vstd::string::StringExecFns;
use crate::attr::{blocks_for, creation_secs, dir_attr, dir_attr_spec, file_attr, FileAttr, FileKind, ROOT_INO};
use crate::node::{children_view, child_of, entry_of, ContentView, NodeView, insert_child, names_unique, Children, Node, NodeContent};
use crate::resource::{listings_view, resources_view, NamespaceListing, Resource, UpstreamError};
use crate::tree::{
    add_config_maps, add_namespace, build_tree, inode_demand, lemma_built_root, lemma_demand_prefix, named_count,
    lemma_root_with, lemma_upsert_contained, lemma_wf_insert, node_ok, root_tree, tree_wf,
    DirBuild, TreeView,
};

verus! {

broadcast use vstd::std_specs::hash::group_hash_axioms, vstd::string::group_string_axioms;

/// The most inodes one tree may hold: the whole 64-bit inode space.
pub const MAX_INODES: u64 = 0xffff_ffff_ffff_ffff;

/// The most namespaces one tree may hold, so that the root's link count,
/// two plus one per namespace, fits in 32 bits.
pub const MAX_NAMESPACES: u64 = 0xffff_fffc;

#[derive(Clone, Copy, Debug, PartialEq, Eq, Structural)]
pub enum FsError {
    /// Unknown inode or path segment.
    NotFound,
    /// A directory operation on a regular file.
    NotDir,
    /// A file operation on a directory.
    IsDir,
    /// The cluster could not be listed, or the listing does not fit.
    Io,
}

/// The engine: a table from inode number to node, built once by `init` and
/// only read afterwards. Inode numbers are handed out in increasing order
/// from 2; inode 1 is the root.
pub struct KubeFilesystem {
    inodes: HashMap<u64, Node>,
    next_ino: u64,
}

impl View for KubeFilesystem {
    type V = TreeView;

    closed spec fn view(&self) -> TreeView {
        TreeView { nodes: self.inodes@.map_values(|n: Node| n@), next: self.next_ino as int }
    }
}

/// The config maps of a listing, counted where they could be listed.
pub open spec fn config_map_count(l: crate::resource::ListingView) -> int {
    match l.config_maps {
        Some(cms) => cms.len() as int,
        None => 0,
    }
}

/// One entry of a directory listing; `offset` is where the listing resumes
/// after this entry.
pub struct DirEntry {
    pub ino: u64,
    pub offset: u64,
    pub kind: FileKind,
    pub name: String,
}

pub open spec fn lookup_spec(t: TreeView, parent: u64, name: Seq<char>) -> Result<FileAttr, FsError> {
    if !t.nodes.contains_key(parent) {
        Err(FsError::NotFound)
    } else {
        match t.nodes[parent].content {
            ContentView::Children(c) => match entry_of(c, name) {
                Some(ino) => if t.nodes.contains_key(ino) {
                    Ok(t.nodes[ino].attrs)
                } else {
                    Err(FsError::NotFound)
                },
                None => Err(FsError::NotFound),
            },
            ContentView::Bytes(_) => Err(FsError::NotFound),
        }
    }
}

pub open spec fn getattr_spec(t: TreeView, ino: u64) -> Result<FileAttr, FsError> {
    if t.nodes.contains_key(ino) {
        Ok(t.nodes[ino].attrs)
    } else {
        Err(FsError::NotFound)
    }
}

/// The entries of a directory that name existing nodes, as (inode, kind, name).
pub open spec fn child_entries(m: Map<u64, NodeView>, c: Seq<(Seq<char>, u64)>) -> Seq<(u64, FileKind, Seq<char>)>
    decreases c.len(),
{
    if c.len() == 0 {
        Seq::empty()
    } else {
        let rest = child_entries(m, c.drop_last());
        let ino = c.last().1;
        if m.contains_key(ino) {
            rest.push((ino, m[ino].attrs.kind, m[ino].name))
        } else {
            rest
        }
    }
}

/// The full listing of directory `ino`: itself, the root as its parent, then
/// its children in stored order.
pub open spec fn dir_listing(t: TreeView, ino: u64, c: Seq<(Seq<char>, u64)>) -> Seq<(u64, FileKind, Seq<char>)> {
    seq![(ino, FileKind::Directory, "."@), (1u64, FileKind::Directory, ".."@)] + child_entries(t.nodes, c)
}

/// `v` is the part of the listing `full` that starts at `start`, each entry
/// carrying the offset just past it.
pub open spec fn entries_from(v: Seq<DirEntry>, full: Seq<(u64, FileKind, Seq<char>)>, start: int) -> bool {
    &&& v.len() == full.len() - start
    &&& forall|q: int| 0 <= q < v.len() ==> {
        &&& (#[trigger] v[q]).ino == full[start + q].0
        &&& v[q].kind == full[start + q].1
        &&& v[q].name@ == full[start + q].2
        &&& v[q].offset == start + q + 1
    }
}

pub open spec fn is_listable(t: TreeView, ino: u64) -> bool {
    &&& t.nodes.contains_key(ino)
    &&& t.nodes[ino].attrs.kind == FileKind::Directory
    &&& t.nodes[ino].content is Children
}

pub open spec fn triples_view(v: Seq<(u64, FileKind, String)>) -> Seq<(u64, FileKind, Seq<char>)> {
    v.map_values(|e: (u64, FileKind, String)| (e.0, e.1, e.2@))
}

/// Where a listing resumes: a negative offset is past every entry.
pub open spec fn resume_at(offset: i64, len: int) -> int {
    if offset < 0 || offset >= len {
        len
    } else {
        offset as int
    }
}

/// The bytes `[offset, offset + size)` of `b`, clipped to its length.
pub open spec fn clip(b: Seq<u8>, offset: i64, size: u32) -> Seq<u8> {
    if offset < 0 || offset >= b.len() {
        Seq::empty()
    } else if offset + size >= b.len() {
        b.subrange(offset as int, b.len() as int)
    } else {
        b.subrange(offset as int, offset + size)
    }
}

pub open spec fn read_spec(t: TreeView, ino: u64, offset: i64, size: u32) -> Result<Seq<u8>, FsError> {
    if !t.nodes.contains_key(ino) {
        Err(FsError::NotFound)
    } else if t.nodes[ino].attrs.kind != FileKind::RegularFile {
        Err(FsError::IsDir)
    } else {
        match t.nodes[ino].content {
            ContentView::Bytes(b) => Ok(clip(b, offset, size)),
            ContentView::Children(_) => Err(FsError::IsDir),
        }
    }
}

/// A lookup that succeeds reports the attributes that `getattr` reports for
/// the inode it names.
pub proof fn lemma_lookup_then_getattr(fs: &KubeFilesystem, parent: u64, name: Seq<char>)
    requires
        tree_wf(fs@),
        lookup_spec(fs@, parent, name) is Ok,
    ensures
        getattr_spec(fs@, lookup_spec(fs@, parent, name)->Ok_0.ino) == lookup_spec(fs@, parent, name),
{
    let t = fs@;
    let c = t.nodes[parent].content->Children_0;
    let ino = entry_of(c, name)->Some_0;
    assert(node_ok(t.nodes, ino, t.nodes[ino]));
}

/// In a well-formed tree, which `init` builds: no directory entry names a
/// missing inode; inode 1 exists and is a directory, never a file; and every
/// file's size is the length of its content and its block count
/// `ceil(size / 512)`.
pub proof fn lemma_tree_invariants(fs: &KubeFilesystem)
    requires
        tree_wf(fs@),
    ensures
        forall|d: u64, i: int|
            fs@.nodes.contains_key(d) && fs@.nodes[d].content is Children && 0 <= i
                < fs@.nodes[d].content->Children_0.len() ==> fs@.nodes.contains_key(
                #[trigger] fs@.nodes[d].content->Children_0[i].1,
            ),
        fs@.nodes.contains_key(ROOT_INO),
        fs@.nodes[ROOT_INO].content is Children,
        !(fs@.nodes[ROOT_INO].content is Bytes),
        fs@.nodes[ROOT_INO].attrs.kind == FileKind::Directory,
        fs@.nodes[ROOT_INO].attrs.ino == ROOT_INO,
        forall|f: u64| #[trigger] fs@.nodes.contains_key(f) && fs@.nodes[f].content is Bytes ==> {
            &&& fs@.nodes[f].attrs.kind == FileKind::RegularFile
            &&& fs@.nodes[f].attrs.size == fs@.nodes[f].content->Bytes_0.len()
            &&& fs@.nodes[f].attrs.blocks == blocks_for(fs@.nodes[f].content->Bytes_0.len())
        },
{
    let t = fs@;
    assert forall|d: u64, i: int|
        t.nodes.contains_key(d) && t.nodes[d].content is Children && 0 <= i < t.nodes[d].content->Children_0.len()
        implies t.nodes.contains_key(#[trigger] t.nodes[d].content->Children_0[i].1) by {
        assert(node_ok(t.nodes, d, t.nodes[d]));
    }
    assert(node_ok(t.nodes, 1, t.nodes[1]));
    assert forall|f: u64| #[trigger] t.nodes.contains_key(f) && t.nodes[f].content is Bytes implies {
        &&& t.nodes[f].attrs.kind == FileKind::RegularFile
        &&& t.nodes[f].attrs.size == t.nodes[f].content->Bytes_0.len()
        &&& t.nodes[f].attrs.blocks == blocks_for(t.nodes[f].content->Bytes_0.len())
    } by {
        assert(node_ok(t.nodes, f, t.nodes[f]));
    }
}

/// A listing resumed at offset `k` holds exactly the entries that follow the
/// first `k` of the listing from the start, with the same resume offsets.
pub proof fn lemma_readdir_resumes(
    v0: Seq<DirEntry>,
    vk: Seq<DirEntry>,
    full: Seq<(u64, FileKind, Seq<char>)>,
    k: int,
)
    requires
        0 <= k <= full.len(),
        entries_from(v0, full, 0),
        entries_from(vk, full, k),
    ensures
        vk.len() == v0.len() - k,
        forall|q: int| 0 <= q < vk.len() ==> {
            &&& (#[trigger] vk[q]).ino == v0[k + q].ino
            &&& vk[q].kind == v0[k + q].kind
            &&& vk[q].name@ == v0[k + q].name@
            &&& vk[q].offset == v0[k + q].offset
        },
{
    assert forall|q: int| 0 <= q < vk.len() implies {
        &&& (#[trigger] vk[q]).ino == v0[k + q].ino
        &&& vk[q].kind == v0[k + q].kind
        &&& vk[q].name@ == v0[k + q].name@
        &&& vk[q].offset == v0[k + q].offset
    } by {
        assert(v0[k + q].ino == full[k + q].0);
    }
}

/// After a failed `init` the table is empty, and no lookup, getattr or
/// readdir succeeds.
pub proof fn lemma_empty_table_serves_nothing(fs: &KubeFilesystem, parent: u64, name: Seq<char>, ino: u64)
    requires
        fs@.nodes.is_empty(),
    ensures
        lookup_spec(fs@, parent, name) == Err::<FileAttr, FsError>(FsError::NotFound),
        getattr_spec(fs@, ino) == Err::<FileAttr, FsError>(FsError::NotFound),
        !is_listable(fs@, ino),
{
    assert(!fs@.nodes.contains_key(parent));
    assert(!fs@.nodes.contains_key(ino));
}

impl KubeFilesystem {
    /// An engine with an empty table; `init` builds the tree.
    pub fn new() -> (r: Self)
        ensures
            r@.nodes.is_empty(),
            r@.next == 2,
    {
        let r = KubeFilesystem { inodes: HashMap::new(), next_ino: 2 };
        proof {
            assert(r@.nodes =~= Map::empty());
        }
        r
    }

    /// Stores `node` under its own inode number.
    fn put(&mut self, node: Node)
        ensures
            final(self)@ == (TreeView { nodes: old(self)@.nodes.insert(node.attrs.ino, node@), next: old(self)@.next }),
    {
        let ghost n = node@;
        let ino = node.attrs.ino;
        self.inodes.insert(ino, node);
        proof {
            assert(self@.nodes =~= old(self)@.nodes.insert(ino, n));
        }
    }

    /// Hands out the next inode number.
    fn next_inode(&mut self) -> (r: u64)
        requires
            old(self).next_ino < MAX_INODES,
        ensures
            r as int == old(self)@.next,
            final(self)@ == (TreeView { nodes: old(self)@.nodes, next: old(self)@.next + 1 }),
    {
        let r = self.next_ino;
        self.next_ino = r + 1;
        r
    }

    /// Fills a `configmaps` directory with one file per named config map.
    fn fill_config_maps(&mut self, cms: &Vec<Resource>, children: &mut Children)
        requires
            tree_wf(old(self)@),
            old(self)@.next + cms.len() <= MAX_INODES,
            names_unique(children_view(old(children)@)),
            forall|i: int| 0 <= i < old(children)@.len()
                ==> old(self)@.nodes.contains_key(#[trigger] children_view(old(children)@)[i].1),
        ensures
            (DirBuild { nodes: final(self)@.nodes, next: final(self)@.next, children: children_view(final(children)@) })
                == add_config_maps(
                    DirBuild { nodes: old(self)@.nodes, next: old(self)@.next, children: children_view(old(children)@) },
                    resources_view(cms@),
                ),
            tree_wf(final(self)@),
            old(self)@.next <= final(self)@.next <= old(self)@.next + cms.len(),
            final(self)@.nodes[ROOT_INO] == old(self)@.nodes[ROOT_INO],
            forall|k: u64| old(self)@.nodes.contains_key(k) ==> #[trigger] final(self)@.nodes.contains_key(k),
            names_unique(children_view(final(children)@)),
            forall|i: int| 0 <= i < final(children)@.len()
                ==> final(self)@.nodes.contains_key(#[trigger] children_view(final(children)@)[i].1),
    {
        let ghost start = DirBuild { nodes: self@.nodes, next: self@.next, children: children_view(children@) };
        let ghost cv = resources_view(cms@);
        let mut j: usize = 0;
        proof {
            assert(cv.take(0) =~= Seq::<crate::resource::ResourceView>::empty());
        }
        while j < cms.len()
            invariant
                j <= cms.len(),
                cv == resources_view(cms@),
                start.next + cms.len() <= MAX_INODES,
                (DirBuild { nodes: self@.nodes, next: self@.next, children: children_view(children@) })
                    == add_config_maps(start, cv.take(j as int)),
                tree_wf(self@),
                start.next <= self@.next <= start.next + j,
                start.next >= 2,
                self@.nodes[ROOT_INO] == start.nodes[ROOT_INO],
                forall|k: u64| start.nodes.contains_key(k) ==> #[trigger] self@.nodes.contains_key(k),
                names_unique(children_view(children@)),
                forall|i: int| 0 <= i < children@.len()
                    ==> self@.nodes.contains_key(#[trigger] children_view(children@)[i].1),
            decreases cms.len() - j,
        {
            proof {
                assert(cv.take(j + 1).drop_last() =~= cv.take(j as int));
            }
            let cm = &cms[j];
            match &cm.name {
                None => {},
                Some(cn) => {
                    let mut fname = cn.clone();
                    fname.append(".yaml");
                    let fino = self.next_inode();
                    let bytes = cm.manifest.clone();
                    proof {
                        assert(bytes@ =~= cm.manifest@);
                    }
                    let size = bytes.len() as u64;
                    let node = Node {
                        name: fname.clone(),
                        attrs: file_attr(fino, size, creation_secs(cm.created)),
                        content: NodeContent::Bytes(bytes),
                    };
                    let ghost before = self@;
                    self.put(node);
                    proof {
                        lemma_wf_insert(before, fino, node@, self@.next);
                        let c = children_view(children@);
                        assert forall|i: int| 0 <= i < c.len() implies self@.nodes.contains_key(#[trigger] c[i].1) by {
                            assert(before.nodes.contains_key(c[i].1));
                        }
                        lemma_upsert_contained(self@.nodes, c, fname@, fino);
                    }
                    insert_child(children, fname, fino);
                },
            }
            j = j + 1;
        }
        proof {
            assert(cv.take(j as int) =~= cv);
        }
    }

    /// Adds one namespace: its directory, its manifest, and, where its config
    /// maps were listed, the `configmaps` directory.
    fn add_namespace(&mut self, l: &NamespaceListing, now: u64)
        requires
            tree_wf(old(self)@),
            old(self)@.next + 3 + config_map_count(l@) <= MAX_INODES,
            old(self)@.nodes[ROOT_INO].attrs.nlink < u32::MAX,
        ensures
            final(self)@ == add_namespace(old(self)@, l@, now),
            tree_wf(final(self)@),
            final(self)@.next <= old(self)@.next + 3 + config_map_count(l@),
            final(self)@.nodes[ROOT_INO].attrs.nlink <= old(self)@.nodes[ROOT_INO].attrs.nlink + 1,
    {
        let ghost t0 = self@;
        let n = match &l.namespace.name {
            None => {
                return;
            },
            Some(n) => n,
        };
        let ino = self.next_inode();
        let man = self.next_inode();
        let time = creation_secs(l.namespace.created);
        let mut first: Children = Vec::new();
        first.push(("manifest.yaml".to_string(), man));
        let ghost first_v = children_view(first@);
        proof {
            assert(first_v =~= seq![(crate::tree::manifest_name(), man)]);
        }
        let ns_node = Node { name: n.clone(), attrs: dir_attr(ino, time, 2), content: NodeContent::Children(first) };
        self.put(ns_node);
        let bytes = l.namespace.manifest.clone();
        proof {
            assert(bytes@ =~= l.namespace.manifest@);
        }
        let size = bytes.len() as u64;
        let man_node = Node {
            name: "manifest.yaml".to_string(),
            attrs: file_attr(man, size, time),
            content: NodeContent::Bytes(bytes),
        };
        let ghost t1 = self@;
        self.put(man_node);
        let ghost t2 = self@;
        proof {
            lemma_wf_insert(t0, man, man_node@, t1.next);
            lemma_wf_insert(TreeView { nodes: t0.nodes.insert(man, man_node@), next: t1.next }, ino, ns_node@, t1.next);
            assert(t2.nodes =~= t0.nodes.insert(man, man_node@).insert(ino, ns_node@));
            assert(node_ok(t2.nodes, 1, t2.nodes[1]));
        }
        let root = self.inodes.remove(&ROOT_INO);
        let ghost t3 = self@;
        match root {
            Some(root) => {
                let Node { name: root_name, attrs: root_attrs, content: root_content } = root;
                let content = match root_content {
                    NodeContent::Children(mut c) => {
                        insert_child(&mut c, n.clone(), ino);
                        NodeContent::Children(c)
                    },
                    NodeContent::Bytes(b) => NodeContent::Bytes(b),
                };
                let attrs = FileAttr { nlink: root_attrs.nlink + 1, ..root_attrs };
                let new_root = Node { name: root_name, attrs, content };
                self.put(new_root);
                proof {
                    lemma_root_with(t2, n@, ino);
                    assert(self@.nodes =~= t2.nodes.insert(1, crate::tree::root_with(t2, n@, ino)));
                    lemma_wf_insert(t2, 1, crate::tree::root_with(t2, n@, ino), t2.next);
                }
            },
            None => {
                proof {
                    assert(false);
                }
            },
        }
        match &l.config_maps {
            Err(_) => {},
            Ok(cms) => {
                let cmdir = self.next_inode();
                let mut children: Children = Vec::new();
                let ghost t4 = self@;
                proof {
                    assert(children_view(children@) =~= Seq::empty());
                }
                self.fill_config_maps(cms, &mut children);
                let ghost t5 = self@;
                let ghost cv = children_view(children@);
                let dir = Node {
                    name: "configmaps".to_string(),
                    attrs: dir_attr(cmdir, now, 2),
                    content: NodeContent::Children(children),
                };
                self.put(dir);
                let ghost t6 = self@;
                let mut second: Children = Vec::new();
                second.push(("manifest.yaml".to_string(), man));
                second.push(("configmaps".to_string(), cmdir));
                let ns_full = Node { name: n.clone(), attrs: dir_attr(ino, time, 2), content: NodeContent::Children(second) };
                proof {
                    lemma_wf_insert(t5, cmdir, dir@, t5.next);
                    reveal_strlit("manifest.yaml");
                    reveal_strlit("configmaps");
                    assert(crate::tree::manifest_name().len() == 13);
                    assert(crate::tree::config_maps_name().len() == 10);
                    assert(children_view(second@) =~= first_v.push((crate::tree::config_maps_name(), cmdir)));
                    assert(t6.nodes.contains_key(man));
                    lemma_wf_insert(t6, ino, ns_full@, t6.next);
                }
                self.put(ns_full);
            },
        }
    }

    /// Builds the tree, once, from the listing of namespaces. A failed listing
    /// leaves the table empty and reports an I/O error, as does a listing
    /// that would need more than `MAX_INODES` inodes or hold more than
    /// `MAX_NAMESPACES` namespaces.
    pub fn init(&mut self, listing: Result<Vec<NamespaceListing>, UpstreamError>, now: u64) -> (r: Result<(), FsError>)
        ensures
            match listing {
                Err(_) => r == Err::<(), FsError>(FsError::Io) && final(self)@.nodes.is_empty(),
                Ok(ls) => if inode_demand(listings_view(ls@)) <= MAX_INODES - 3 && ls@.len() <= MAX_NAMESPACES {
                    &&& r == Ok::<(), FsError>(())
                    &&& final(self)@ == build_tree(listings_view(ls@), now)
                    &&& tree_wf(final(self)@)
                    &&& final(self)@.nodes[ROOT_INO].name == "/"@
                    &&& final(self)@.nodes[ROOT_INO].attrs
                        == dir_attr_spec(ROOT_INO, 0, (2 + named_count(listings_view(ls@))) as u32)
                } else {
                    r == Err::<(), FsError>(FsError::Io) && final(self)@.nodes.is_empty()
                },
            },
    {
        self.inodes = HashMap::new();
        self.next_ino = 2;
        proof {
            assert(self@.nodes =~= Map::empty());
        }
        let ghost given = listing;
        let ls = match listing {
            Err(_) => {
                return Err(FsError::Io);
            },
            Ok(ls) => ls,
        };
        let ghost lv = listings_view(ls@);
        if ls.len() as u64 > MAX_NAMESPACES {
            return Err(FsError::Io);
        }
        let mut total: u64 = 0;
        let mut i: usize = 0;
        proof {
            assert(lv.take(0) =~= Seq::<crate::resource::ListingView>::empty());
        }
        while i < ls.len()
            invariant
                i <= ls.len(),
                lv == listings_view(ls@),
                given == Ok::<Vec<NamespaceListing>, UpstreamError>(ls),
                given == listing,
                total as int == inode_demand(lv.take(i as int)),
                total <= MAX_INODES - 3,
                ls@.len() <= MAX_NAMESPACES,
                self@.nodes.is_empty(),
            decreases ls.len() - i,
        {
            proof {
                assert(lv.take(i + 1).drop_last() =~= lv.take(i as int));
            }
            let extra: usize = match &ls[i].config_maps {
                Ok(cms) => cms.len(),
                Err(_) => 0,
            };
            proof {
                assert(lv.take(i + 1).last() == ls@[i as int]@);
                assert(inode_demand(lv.take(i + 1)) == total + 3 + extra);
            }
            if total > MAX_INODES - 6 || extra as u64 > MAX_INODES - 6 - total {
                proof {
                    lemma_demand_prefix(lv, i + 1);
                }
                return Err(FsError::Io);
            }
            total = total + 3 + extra as u64;
            i = i + 1;
        }
        proof {
            assert(lv.take(i as int) =~= lv);
        }
        let empty: Children = Vec::new();
        proof {
            assert(children_view(empty@) =~= Seq::empty());
        }
        let root = Node {
            name: "/".to_string(),
            attrs: dir_attr(ROOT_INO, 0, 2),
            content: NodeContent::Children(empty),
        };
        self.put(root);
        proof {
            assert(self@.nodes =~= root_tree().nodes);
        }
        let mut k: usize = 0;
        proof {
            assert(lv.take(0) =~= Seq::<crate::resource::ListingView>::empty());
        }
        while k < ls.len()
            invariant
                k <= ls.len(),
                lv == listings_view(ls@),
                given == Ok::<Vec<NamespaceListing>, UpstreamError>(ls),
                given == listing,
                inode_demand(lv) <= MAX_INODES - 3,
                self@ == build_tree(lv.take(k as int), now),
                tree_wf(self@),
                self@.next <= 2 + inode_demand(lv.take(k as int)),
                ls@.len() <= MAX_NAMESPACES,
                self@.nodes[ROOT_INO].attrs.nlink <= 2 + k,
            decreases ls.len() - k,
        {
            proof {
                assert(lv.take(k + 1).drop_last() =~= lv.take(k as int));
                lemma_demand_prefix(lv, k + 1);
            }
            self.add_namespace(&ls[k], now);
            k = k + 1;
        }
        proof {
            assert(lv.take(k as int) =~= lv);
            lemma_built_root(lv, now);
        }
        Ok(())
    }

    /// The attributes of the child `name` of directory `parent`.
    pub fn lookup(&self, parent: u64, name: &str) -> (r: Result<FileAttr, FsError>)
        ensures
            r == lookup_spec(self@, parent, name@),
    {
        let key = name.to_string();
        match self.inodes.get(&parent) {
            None => Err(FsError::NotFound),
            Some(p) => match &p.content {
                NodeContent::Bytes(_) => Err(FsError::NotFound),
                NodeContent::Children(c) => match child_of(c, &key) {
                    None => Err(FsError::NotFound),
                    Some(ino) => match self.inodes.get(&ino) {
                        None => Err(FsError::NotFound),
                        Some(n) => Ok(n.attrs),
                    },
                },
            },
        }
    }

    /// The attributes of inode `ino`.
    pub fn getattr(&self, ino: u64) -> (r: Result<FileAttr, FsError>)
        ensures
            r == getattr_spec(self@, ino),
    {
        match self.inodes.get(&ino) {
            None => Err(FsError::NotFound),
            Some(n) => Ok(n.attrs),
        }
    }

    /// Opens a file; every open succeeds with handle 0 and no flags.
    pub fn open(&self, ino: u64, flags: i32) -> (r: (u64, u32))
        ensures
            r == (0u64, 0u32),
    {
        (0, 0)
    }

    /// Releases a handle; every release succeeds.
    pub fn release(&self, ino: u64, fh: u64) -> (r: Result<(), FsError>)
        ensures
            r == Ok::<(), FsError>(()),
    {
        Ok(())
    }

    /// The entries of directory `ino` from position `offset` on: `.`, `..`
    /// (always the root), then the children in stored order.
    pub fn readdir(&self, ino: u64, offset: i64) -> (r: Result<Vec<DirEntry>, FsError>)
        ensures
            match r {
                Ok(v) => {
                    &&& is_listable(self@, ino)
                    &&& entries_from(
                        v@,
                        dir_listing(self@, ino, self@.nodes[ino].content->Children_0),
                        resume_at(offset, dir_listing(self@, ino, self@.nodes[ino].content->Children_0).len() as int),
                    )
                },
                Err(e) => {
                    &&& !is_listable(self@, ino)
                    &&& e == if self@.nodes.contains_key(ino) { FsError::NotDir } else { FsError::NotFound }
                },
            },
    {
        let node = match self.inodes.get(&ino) {
            None => {
                return Err(FsError::NotFound);
            },
            Some(n) => n,
        };
        if node.attrs.kind != FileKind::Directory {
            return Err(FsError::NotDir);
        }
        let c = match &node.content {
            NodeContent::Bytes(_) => {
                return Err(FsError::NotDir);
            },
            NodeContent::Children(c) => c,
        };
        let ghost cv = children_view(c@);
        let mut full: Vec<(u64, FileKind, String)> = Vec::new();
        full.push((ino, FileKind::Directory, ".".to_string()));
        full.push((ROOT_INO, FileKind::Directory, "..".to_string()));
        let ghost head = seq![(ino, FileKind::Directory, "."@), (1u64, FileKind::Directory, ".."@)];
        proof {
            assert(triples_view(full@) =~= head);
            assert(cv.take(0) =~= Seq::<(Seq<char>, u64)>::empty());
            assert(head + child_entries(self@.nodes, cv.take(0)) =~= head);
        }
        let mut j: usize = 0;
        while j < c.len()
            invariant
                j <= c.len(),
                cv == children_view(c@),
                triples_view(full@) == head + child_entries(self@.nodes, cv.take(j as int)),
            decreases c.len() - j,
        {
            proof {
                assert(cv.take(j + 1).drop_last() =~= cv.take(j as int));
            }
            let child = c[j].1;
            match self.inodes.get(&child) {
                None => {},
                Some(n) => {
                    let ghost prev = triples_view(full@);
                    full.push((child, n.attrs.kind, n.name.clone()));
                    proof {
                        assert(cv.take(j + 1).last().1 == child);
                        assert(self@.nodes.contains_key(child));
                        assert(self@.nodes[child] == n@);
                        let ce = child_entries(self@.nodes, cv.take(j as int));
                        assert(child_entries(self@.nodes, cv.take(j + 1)) == ce.push((child, n.attrs.kind, n.name@)));
                        assert(triples_view(full@) =~= prev.push((child, n.attrs.kind, n.name@)));
                        assert(triples_view(full@) =~= head + child_entries(self@.nodes, cv.take(j + 1)));
                    }
                },
            }
            j = j + 1;
        }
        proof {
            assert(cv.take(j as int) =~= cv);
        }
        let len = full.len();
        let start: usize = if offset < 0 || offset as u64 >= len as u64 {
            len
        } else {
            offset as usize
        };
        let ghost fv = triples_view(full@);
        let mut out: Vec<DirEntry> = Vec::new();
        let mut p: usize = start;
        while p < len
            invariant
                start <= p <= len,
                len == full@.len(),
                fv == triples_view(full@),
                out@.len() == p - start,
                forall|q: int| 0 <= q < out@.len() ==> {
                    &&& (#[trigger] out@[q]).ino == fv[start + q].0
                    &&& out@[q].kind == fv[start + q].1
                    &&& out@[q].name@ == fv[start + q].2
                    &&& out@[q].offset == start + q + 1
                },
            decreases len - p,
        {
            let e = DirEntry { ino: full[p].0, offset: (p + 1) as u64, kind: full[p].1, name: full[p].2.clone() };
            out.push(e);
            p = p + 1;
        }
        Ok(out)
    }

    /// The bytes `[offset, offset + size)` of file `ino`, clipped to its
    /// content; empty where `offset` lies at or past the end.
    pub fn read(&self, ino: u64, offset: i64, size: u32) -> (r: Result<Vec<u8>, FsError>)
        ensures
            match r {
                Ok(v) => read_spec(self@, ino, offset, size) == Ok::<Seq<u8>, FsError>(v@),
                Err(e) => read_spec(self@, ino, offset, size) == Err::<Seq<u8>, FsError>(e),
            },
            r is Ok && offset >= 0 && offset >= self@.nodes[ino].content->Bytes_0.len() ==> r->Ok_0@.len() == 0,
            r is Ok && 0 <= offset < self@.nodes[ino].content->Bytes_0.len() <= offset + size
                ==> r->Ok_0@ == self@.nodes[ino].content->Bytes_0.subrange(offset as int, self@.nodes[ino].content->Bytes_0.len() as int),
    {
        let node = match self.inodes.get(&ino) {
            None => {
                return Err(FsError::NotFound);
            },
            Some(n) => n,
        };
        if node.attrs.kind != FileKind::RegularFile {
            return Err(FsError::IsDir);
        }
        let data = match &node.content {
            NodeContent::Children(_) => {
                return Err(FsError::IsDir);
            },
            NodeContent::Bytes(b) => b,
        };
        let mut out: Vec<u8> = Vec::new();
        if offset < 0 || offset as u64 >= data.len() as u64 {
            return Ok(out);
        }
        let start = offset as usize;
        let end: usize = if size as usize >= data.len() - start {
            data.len()
        } else {
            start + size as usize
        };
        let mut p: usize = start;
        while p < end
            invariant
                start <= p <= end <= data@.len(),
                out@ =~= data@.subrange(start as int, p as int),
            decreases end - p,
        {
            out.push(data[p]);
            p = p + 1;
        }
        Ok(out)
    }
}

} // verus!
