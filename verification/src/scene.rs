//! Scene assembly: builds the spatial hierarchy from the description's
//! node tree by top-down insertion, resolves the first camera and every
//! entity's node by name, and resolves each entity's mesh through the
//! resource cache — decoding any one asset at most once per session. The
//! first error aborts the whole load; no partial scene is returned.
//!
//! Shader program linking and draw-batch construction belong to the GPU
//! collaborator; the embedder performs them on the assembled result and
//! may wrap their failures in `Error::Program` and `Error::Batch`.
use vstd::prelude::*;

use crate::cache;
use crate::cache::spec_find;
use crate::chunk;
use crate::mesh;
use crate::reflect;
use crate::space;

verus! {

broadcast use
    vstd::seq::axiom_seq_index_decreases,
    vstd::seq::axiom_seq_subrange_decreases,
    vstd::std_specs::vec::axiom_vec_decreases_to_view;

/// Whether any node of the forest, at any depth, carries `name`.
pub open spec fn forest_contains<S>(nodes: Seq<reflect::Node<S>>, name: Seq<char>) -> bool
    decreases nodes,
{
    exists|i: int| 0 <= i < nodes.len() && tree_contains(#[trigger] nodes[i], name)
}

/// Whether the subtree rooted at `node` carries `name`.
pub open spec fn tree_contains<S>(node: reflect::Node<S>, name: Seq<char>) -> bool
    decreases node,
{
    node.name@ == name || forest_contains(node.children@, name)
}

/// Whether some node of the arena carries `name`, i.e. `find_node` on it
/// succeeds.
pub open spec fn world_has<S>(w: space::World<S>, name: Seq<char>) -> bool {
    exists|k: int| 0 <= k < w.nodes.len() && (#[trigger] w.nodes[k]).name@ == name
}

/// One arena node as the description dictates it: its name, its parent
/// link, and its parent-relative transform.
pub struct NodeView<S> {
    pub name: Seq<char>,
    pub parent: space::Parent,
    pub local: space::Transform<S>,
}

pub open spec fn node_view<S>(n: space::Node<S>) -> NodeView<S> {
    NodeView { name: n.name@, parent: n.parent, local: n.local }
}

pub open spec fn world_view<S>(w: space::World<S>) -> Seq<NodeView<S>> {
    w.nodes@.map(|i: int, n: space::Node<S>| node_view(n))
}

/// Number of nodes in a subtree.
pub open spec fn tree_count<S>(node: reflect::Node<S>) -> int
    decreases node,
{
    1 + forest_count(node.children@)
}

/// Number of nodes in a forest.
pub open spec fn forest_count<S>(nodes: Seq<reflect::Node<S>>) -> int
    decreases nodes,
{
    if nodes.len() == 0 {
        0
    } else {
        tree_count(nodes[0]) + forest_count(nodes.drop_first())
    }
}

/// The arena rows that top-down insertion of the subtree at `node`
/// produces when the subtree's root lands at arena index `base` under
/// `parent`: the node itself, then its children's subtrees in order.
pub open spec fn flat_tree<S>(node: reflect::Node<S>, parent: space::Parent, base: int) -> Seq<
    NodeView<S>,
>
    decreases node,
{
    seq![
        (NodeView {
            name: node.name@,
            parent,
            local: (space::Transform {
                scale: node.space.scale,
                rot: node.space.rot,
                disp: node.space.pos,
            }),
        }),
    ] + flat_forest(node.children@, space::Parent::Domestic(space::Id(base as usize)), base + 1)
}

/// The arena rows that top-down insertion of a forest produces, first
/// tree first, starting at arena index `base`.
pub open spec fn flat_forest<S>(
    nodes: Seq<reflect::Node<S>>,
    parent: space::Parent,
    base: int,
) -> Seq<NodeView<S>>
    decreases nodes,
{
    if nodes.len() == 0 {
        Seq::empty()
    } else {
        flat_tree(nodes[0], parent, base) + flat_forest(
            nodes.drop_first(),
            parent,
            base + tree_count(nodes[0]),
        )
    }
}

proof fn lemma_flat_tree_len<S>(node: reflect::Node<S>, parent: space::Parent, base: int)
    ensures
        flat_tree(node, parent, base).len() == tree_count(node),
    decreases node,
{
    lemma_flat_forest_len(
        node.children@,
        space::Parent::Domestic(space::Id(base as usize)),
        base + 1,
    );
}

proof fn lemma_flat_forest_len<S>(nodes: Seq<reflect::Node<S>>, parent: space::Parent, base: int)
    ensures
        flat_forest(nodes, parent, base).len() == forest_count(nodes),
    decreases nodes,
{
    if nodes.len() > 0 {
        lemma_flat_tree_len(nodes[0], parent, base);
        lemma_flat_forest_len(nodes.drop_first(), parent, base + tree_count(nodes[0]));
    }
}

/// Splitting the flattening of a forest's first `i + 1` trees off after
/// its first `i`.
proof fn lemma_flat_forest_snoc<S>(
    nodes: Seq<reflect::Node<S>>,
    parent: space::Parent,
    base: int,
    i: int,
)
    requires
        0 <= i < nodes.len(),
    ensures
        forest_count(nodes.subrange(0, i + 1)) == forest_count(nodes.subrange(0, i)) + tree_count(
            nodes[i],
        ),
        flat_forest(nodes.subrange(0, i + 1), parent, base) == flat_forest(
            nodes.subrange(0, i),
            parent,
            base,
        ) + flat_tree(nodes[i], parent, base + forest_count(nodes.subrange(0, i))),
    decreases i,
{
    let s1 = nodes.subrange(0, i + 1);
    let s0 = nodes.subrange(0, i);
    if i == 0 {
        assert(s0 =~= Seq::<reflect::Node<S>>::empty());
        assert(s1.drop_first() =~= Seq::<reflect::Node<S>>::empty());
        assert(s1[0] == nodes[0]);
        assert(forest_count(s0) == 0);
        assert(flat_forest(s0, parent, base) =~= Seq::<NodeView<S>>::empty());
        assert(flat_forest(s1.drop_first(), parent, base + tree_count(s1[0])) =~= Seq::<
            NodeView<S>,
        >::empty());
        assert(flat_forest(s1, parent, base) =~= flat_tree(nodes[0], parent, base) + flat_forest(
            s1.drop_first(),
            parent,
            base + tree_count(s1[0]),
        ));
        assert(flat_tree(nodes[0], parent, base) + Seq::<NodeView<S>>::empty() =~= flat_tree(
            nodes[0],
            parent,
            base,
        ));
        assert(Seq::<NodeView<S>>::empty() + flat_tree(nodes[0], parent, base) =~= flat_tree(
            nodes[0],
            parent,
            base,
        ));
    } else {
        let rest = nodes.drop_first();
        assert(s1[0] == nodes[0]);
        assert(s0[0] == nodes[0]);
        assert(s1.drop_first() =~= rest.subrange(0, i));
        assert(s0.drop_first() =~= rest.subrange(0, i - 1));
        assert(rest[i - 1] == nodes[i]);
        lemma_flat_forest_snoc(rest, parent, base + tree_count(nodes[0]), i - 1);
        let head = flat_tree(nodes[0], parent, base);
        let mid = flat_forest(rest.subrange(0, i - 1), parent, base + tree_count(nodes[0]));
        let tail = flat_tree(
            nodes[i],
            parent,
            base + tree_count(nodes[0]) + forest_count(rest.subrange(0, i - 1)),
        );
        assert(head + (mid + tail) =~= (head + mid) + tail);
    }
}

/// Whether `key` is present in the asset store with bytes that conform to
/// the mesh chunk grammar, so that requesting it is owed to succeed.
pub open spec fn asset_decodable(assets: Seq<(String, Vec<u8>)>, key: Seq<char>) -> bool {
    match spec_find(assets, key) {
        Option::Some(b) => mesh::spec_mesh_chunk(b@, 0, b@.len() as int) is Ok,
        Option::None => false,
    }
}

/// Scene assembly errors.
#[derive(Debug)]
pub enum Error {
    /// The description has no camera entry.
    NoCamera,
    /// A camera or entity references a node name that the hierarchy does
    /// not contain.
    MissingNode(String),
    /// Shader program linking failed in the GPU collaborator.
    Program(String),
    /// Decoding an entity's mesh failed; carries the mesh name.
    Mesh(String, mesh::Error),
    /// Draw-batch construction failed in the GPU collaborator; carries
    /// the mesh name.
    Batch(String, String),
}

/// One mesh decoded this session, under the asset key it was requested by.
pub struct LoadedMesh {
    pub key: String,
    pub mesh_name: Vec<u8>,
    pub mesh: mesh::Mesh,
    pub slice: mesh::Slice,
}

/// The loading context: every mesh decoded so far and the cache mapping
/// asset keys to handles into it.
pub struct Context {
    pub cache: cache::ResourceCache<usize>,
    pub meshes: Vec<LoadedMesh>,
}

impl Context {
    /// Every cached handle addresses a decoded, well-formed mesh stored
    /// under the same key.
    pub open spec fn wf(&self) -> bool {
        &&& forall|i: int|
            0 <= i < self.cache.entries@.len() ==> (#[trigger] self.cache.entries@[i]).1
                < self.meshes@.len() && self.meshes@[self.cache.entries@[i].1 as int].key@
                == self.cache.entries@[i].0@
        &&& forall|j: int| 0 <= j < self.meshes@.len() ==> (#[trigger] self.meshes@[j]).mesh.wf()
    }

    pub fn new() -> (c: Context)
        ensures
            c.wf(),
            c.meshes@.len() == 0,
            c.cache.entries@.len() == 0,
    {
        Context { cache: cache::ResourceCache::new(), meshes: Vec::new() }
    }

    /// Resolves an asset key to a mesh handle. A key resolved earlier in
    /// this session returns its cached handle with no further work — the
    /// backend decode runs at most once per key. A fresh key is decoded
    /// from its bytes in `assets` and cached on success; on failure
    /// nothing is stored, so the key may be retried.
    pub fn request_mesh(&mut self, name: &String, assets: &Vec<(String, Vec<u8>)>) -> (r: Result<
        usize,
        Error,
    >)
        requires
            old(self).wf(),
        ensures
            final(self).wf(),
            final(self).meshes@.len() >= old(self).meshes@.len(),
            forall|j: int|
                0 <= j < old(self).meshes@.len() ==> final(self).meshes@[j] == old(
                    self,
                ).meshes@[j],
            match spec_find(old(self).cache.entries@, name@) {
                Some(i) => r == Ok::<usize, Error>(i) && *final(self) == *old(self) && i < old(
                    self,
                ).meshes@.len() && old(self).meshes@[i as int].key@ == name@,
                None => match r {
                    Ok(i) => {
                        &&& i == old(self).meshes@.len()
                        &&& final(self).meshes@.len() == old(self).meshes@.len() + 1
                        &&& final(self).meshes@[i as int].key@ == name@
                        &&& spec_find(final(self).cache.entries@, name@) == Some(i)
                        &&& forall|other: Seq<char>|
                            other != name@ ==> #[trigger] spec_find(
                                final(self).cache.entries@,
                                other,
                            ) == spec_find(old(self).cache.entries@, other)
                    },
                    Err(e) => *final(self) == *old(self) && (match e {
                        Error::Mesh(n, _) => n@ == name@,
                        _ => false,
                    }),
                },
            },
            (spec_find(old(self).cache.entries@, name@) is None && spec_find(assets@, name@)
                is None) ==> (r matches Err(Error::Mesh(_, mesh::Error::NameNotInCollection))),
            (spec_find(old(self).cache.entries@, name@) is None) ==> (match spec_find(
                assets@,
                name@,
            ) {
                Option::Some(b) => match r {
                    Ok(_) => true,
                    Err(e) => match e {
                        Error::Mesh(n, inner) => n@ == name@ && (match mesh::spec_mesh_chunk(
                            b@,
                            0,
                            b@.len() as int,
                        ) {
                            Err(es) => mesh::err_matches(inner, es),
                            Ok(_) => false,
                        }),
                        _ => false,
                    },
                },
                Option::None => true,
            }),
    {
        match self.cache.lookup(name) {
            Some(i) => {
                proof {
                    cache::lemma_find_is_entry(self.cache.entries@, name@);
                }
                Ok(i)
            },
            None => {
                match cache::assoc_find_index(assets, name) {
                    None => Err(
                        Error::Mesh(name.clone(), mesh::Error::NameNotInCollection),
                    ),
                    Some(ai) => {
                        let mut rdr = chunk::Reader::root(assets[ai].1.as_slice());
                        match mesh::load(&mut rdr) {
                            Err(e) => Err(Error::Mesh(name.clone(), e)),
                            Ok((mesh_name, (m, s))) => {
                                let idx = self.meshes.len();
                                self.meshes.push(
                                    LoadedMesh {
                                        key: name.clone(),
                                        mesh_name,
                                        mesh: m,
                                        slice: s,
                                    },
                                );
                                self.cache.store(name.clone(), idx);
                                Ok(idx)
                            },
                        }
                    },
                }
            },
        }
    }
}

/// Converts a description placement to a parent-relative transform.
pub fn read_space<S: Copy>(s: &reflect::Space<S>) -> (t: space::Transform<S>)
    ensures
        t.scale == s.scale,
        t.rot == s.rot,
        t.disp == s.pos,
{
    space::Transform { scale: s.scale, rot: s.rot, disp: s.pos }
}

/// Inserts a description subtree into the hierarchy, top-down: each node
/// is appended under `parent` before its children, so the pre-order of
/// the description is the arena's insertion order.
pub fn populate_world<S: Copy>(
    world: &mut space::World<S>,
    raw_nodes: &Vec<reflect::Node<S>>,
    parent: space::Parent,
)
    requires
        old(world).wf(),
        old(world).parent_ok(parent),
    ensures
        final(world).wf(),
        final(world).nodes@.len() >= old(world).nodes@.len(),
        forall|i: int|
            0 <= i < old(world).nodes@.len() ==> final(world).nodes@[i] == old(world).nodes@[i],
        forall|name: Seq<char>|
            #[trigger] forest_contains(raw_nodes@, name) ==> world_has(*final(world), name),
        forall|name: Seq<char>|
            #[trigger] world_has(*final(world), name) ==> world_has(*old(world), name)
                || forest_contains(raw_nodes@, name),
        world_view(*final(world)) == world_view(*old(world)) + flat_forest(
            raw_nodes@,
            parent,
            old(world).nodes@.len() as int,
        ),
    decreases *raw_nodes,
{
    broadcast use vstd::std_specs::vec::axiom_vec_index_decreases;

    let n = raw_nodes.len();
    let mut i: usize = 0;
    while i < n
        invariant
            n == raw_nodes@.len(),
            i <= n,
            world.wf(),
            world.parent_ok(parent),
            world.nodes@.len() >= old(world).nodes@.len(),
            forall|k: int|
                0 <= k < old(world).nodes@.len() ==> world.nodes@[k] == old(world).nodes@[k],
            forall|name: Seq<char>, j: int|
                0 <= j < i && #[trigger] tree_contains(raw_nodes@[j], name) ==> world_has(
                    *world,
                    name,
                ),
            forall|name: Seq<char>|
                #[trigger] world_has(*world, name) ==> world_has(*old(world), name)
                    || forest_contains(raw_nodes@, name),
            world_view(*world) == world_view(*old(world)) + flat_forest(
                raw_nodes@.subrange(0, i as int),
                parent,
                old(world).nodes@.len() as int,
            ),
        decreases n - i,
    {
        let ghost world_before = *world;
        let node = &raw_nodes[i];
        let local = read_space(&node.space);
        let nid = world.add_node(node.name.clone(), parent, local);
        proof {
            assert(decreases_to!(*raw_nodes => raw_nodes[i as int]));
            assert(decreases_to!(raw_nodes[i as int] => raw_nodes[i as int].children));
        }
        let ghost world_mid = *world;
        populate_world(world, &node.children, space::Parent::Domestic(nid));
        proof {
            // the node inserted this iteration is still there
            assert(world.nodes@[nid.0 as int].name@ == raw_nodes@[i as int].name@);
            // conversely, every name in the arena came from the tree or
            // was there before
            assert forall|name: Seq<char>| #[trigger] world_has(*world, name) implies world_has(
                *old(world),
                name,
            ) || forest_contains(raw_nodes@, name) by {
                if forest_contains(raw_nodes@[i as int].children@, name) {
                    assert(tree_contains(raw_nodes@[i as int], name));
                    assert(forest_contains(raw_nodes@, name));
                } else {
                    assert(world_has(world_mid, name));
                    let k = choose|k: int|
                        0 <= k < world_mid.nodes.len() && (#[trigger] world_mid.nodes[k]).name@
                            == name;
                    if k < world_before.nodes.len() {
                        assert(world_before.nodes@[k].name@ == name);
                        assert(world_has(world_before, name));
                    } else {
                        assert(world_mid.nodes@[k].name@ == raw_nodes@[i as int].name@);
                        assert(tree_contains(raw_nodes@[i as int], name));
                        assert(forest_contains(raw_nodes@, name));
                    }
                }
            }
            // the flattened prefix grows by exactly this node's subtree
            let base_view = world_view(*old(world));
            let base0 = old(world).nodes@.len() as int;
            let sub_i = raw_nodes@.subrange(0, i as int);
            let fc = forest_count(sub_i);
            lemma_flat_forest_len(sub_i, parent, base0);
            assert(flat_forest(sub_i, parent, base0).len() == fc);
            assert(base_view.len() == base0);
            assert(world_view(world_before).len() == world_before.nodes@.len());
            assert(world_view(world_before) == base_view + flat_forest(sub_i, parent, base0));
            assert(world_before.nodes@.len() == base0 + fc);
            assert(nid.0 as int == base0 + fc);
            lemma_flat_forest_snoc(raw_nodes@, parent, base0, i as int);
            let head = seq![
                (NodeView {
                    name: raw_nodes@[i as int].name@,
                    parent,
                    local: (space::Transform {
                        scale: raw_nodes@[i as int].space.scale,
                        rot: raw_nodes@[i as int].space.rot,
                        disp: raw_nodes@[i as int].space.pos,
                    }),
                }),
            ];
            assert(world_view(world_mid) =~= world_view(world_before) + head);
            let flat_children = flat_forest(
                raw_nodes@[i as int].children@,
                space::Parent::Domestic(nid),
                base0 + fc + 1,
            );
            assert(space::Id((base0 + fc) as usize) == nid);
            assert(flat_tree(raw_nodes@[i as int], parent, base0 + fc) == head + flat_children);
            assert(world_mid.nodes@.len() as int == base0 + fc + 1);
            assert(world_view(*world) == world_view(world_mid) + flat_children);
            assert((world_view(world_before) + head) + flat_children =~= world_view(world_before)
                + (head + flat_children));
            assert((base_view + flat_forest(sub_i, parent, base0)) + flat_tree(
                raw_nodes@[i as int],
                parent,
                base0 + fc,
            ) =~= base_view + (flat_forest(sub_i, parent, base0) + flat_tree(
                raw_nodes@[i as int],
                parent,
                base0 + fc,
            )));
            assert(world_view(*world) == base_view + flat_forest(
                raw_nodes@.subrange(0, i as int + 1),
                parent,
                base0,
            ));
            // names found in earlier iterations survive the growth
            assert forall|name: Seq<char>, j: int|
                0 <= j < i + 1 && #[trigger] tree_contains(raw_nodes@[j], name) implies world_has(
                *world,
                name,
            ) by {
                if j < i {
                    let k = choose|k: int|
                        0 <= k < world_before.nodes.len() && (
                        #[trigger] world_before.nodes[k]).name@ == name;
                    assert(world.nodes@[k].name@ == name);
                } else {
                    if raw_nodes@[j].name@ == name {
                        assert(world.nodes@[nid.0 as int].name@ == name);
                    } else {
                        assert(forest_contains(raw_nodes@[j].children@, name));
                    }
                }
            }
        }
        i += 1;
    }
    proof {
        assert forall|name: Seq<char>| #[trigger] forest_contains(raw_nodes@, name) implies
            world_has(*world, name) by {
            let i = choose|i: int|
                0 <= i < raw_nodes@.len() && tree_contains(#[trigger] raw_nodes@[i], name);
            assert(tree_contains(raw_nodes@[i], name));
        }
        assert(raw_nodes@.subrange(0, raw_nodes@.len() as int) =~= raw_nodes@);
    }
}

/// A resolved camera: its node handle and the raw projection parameters;
/// the perspective projection itself is scalar arithmetic performed by
/// the embedder.
pub struct CameraOut<S> {
    pub name: String,
    pub node: space::Id,
    pub angle: (S, S),
    pub range: (S, S),
}

/// A resolved entity: its node handle, its mesh handle into the loading
/// context, and its vertex range for the draw slice.
pub struct EntityOut {
    pub name: String,
    pub node: space::Id,
    pub mesh: usize,
    pub range: (u32, u32),
}

/// The assembled scene.
pub struct SceneOut<S> {
    pub world: space::World<S>,
    pub camera: CameraOut<S>,
    pub entities: Vec<EntityOut>,
    pub context: Context,
}

/// Assembles a scene: builds the hierarchy from the node tree, resolves
/// the first camera entry (none at all is `NoCamera`, an unknown node
/// name is `MissingNode`), then resolves each entity in order — its node
/// by name, its mesh through the cache over `assets` — failing fast on
/// the first error. On success every entity's node and mesh handle are
/// valid, each mesh is well formed, and each asset key was decoded at
/// most once.
pub fn load<S: Copy>(raw: &reflect::Scene<S>, assets: &Vec<(String, Vec<u8>)>) -> (r: Result<
    SceneOut<S>,
    Error,
>)
    ensures
        (r matches Err(Error::NoCamera)) <==> raw.cameras@.len() == 0,
        (raw.cameras@.len() > 0 && forest_contains(raw.nodes@, raw.cameras@[0].node@) && (forall|
            i: int,
        |
            0 <= i < raw.entities@.len() ==> forest_contains(
                raw.nodes@,
                (#[trigger] raw.entities@[i]).node@,
            ) && asset_decodable(assets@, raw.entities@[i].mesh@))) ==> (r is Ok),
        (raw.cameras@.len() > 0 && !forest_contains(raw.nodes@, raw.cameras@[0].node@)) ==> (match r {
            Err(Error::MissingNode(n)) => n@ == raw.cameras@[0].node@,
            _ => false,
        }),
        forall|i: int|
            (raw.cameras@.len() > 0 && forest_contains(raw.nodes@, raw.cameras@[0].node@) && 0 <= i
                < raw.entities@.len() && !forest_contains(
                raw.nodes@,
                (#[trigger] raw.entities@[i]).node@,
            ) && (forall|j: int|
                0 <= j < i ==> forest_contains(raw.nodes@, (#[trigger] raw.entities@[j]).node@)
                    && asset_decodable(assets@, raw.entities@[j].mesh@))) ==> (match r {
                Err(Error::MissingNode(n)) => n@ == raw.entities@[i].node@,
                _ => false,
            }),
        match r {
            Ok(out) => {
                &&& out.world.wf()
                &&& world_view(out.world) == flat_forest(raw.nodes@, space::Parent::Root, 0)
                &&& out.context.wf()
                &&& raw.cameras@.len() > 0
                &&& out.camera.name@ == raw.cameras@[0].name@
                &&& out.world.contains(out.camera.node)
                &&& out.world.nodes@[out.camera.node.0 as int].name@ == raw.cameras@[0].node@
                &&& out.entities@.len() == raw.entities@.len()
                &&& forall|i: int|
                    0 <= i < raw.entities@.len() ==> {
                        &&& out.world.contains((#[trigger] out.entities@[i]).node)
                        &&& out.world.nodes@[out.entities@[i].node.0 as int].name@
                            == raw.entities@[i].node@
                        &&& out.entities@[i].name@ == raw.entities@[i].mesh@
                        &&& out.entities@[i].range == raw.entities@[i].range
                        &&& out.entities@[i].mesh < out.context.meshes@.len()
                        &&& out.context.meshes@[out.entities@[i].mesh as int].key@
                            == raw.entities@[i].mesh@
                    }
            },
            Err(e) => match e {
                Error::NoCamera => raw.cameras@.len() == 0,
                Error::MissingNode(n) => (raw.cameras@.len() > 0 && n@ == raw.cameras@[0].node@)
                    || (exists|i: int|
                    0 <= i < raw.entities@.len() && n@ == (#[trigger] raw.entities@[i]).node@),
                Error::Mesh(n, inner) => (exists|i: int|
                    0 <= i < raw.entities@.len() && n@ == (#[trigger] raw.entities@[i]).mesh@)
                    && (match spec_find(assets@, n@) {
                    Option::Some(b) => match mesh::spec_mesh_chunk(b@, 0, b@.len() as int) {
                        Err(es) => mesh::err_matches(inner, es),
                        Ok(_) => false,
                    },
                    Option::None => inner matches mesh::Error::NameNotInCollection,
                }),
                _ => false,
            },
        },
{
    let mut world = space::World::new();
    let ghost wempty = world;
    populate_world(&mut world, &raw.nodes, space::Parent::Root);
    proof {
        assert(world_view(wempty) =~= Seq::<NodeView<S>>::empty());
        assert(Seq::<NodeView<S>>::empty() + flat_forest(raw.nodes@, space::Parent::Root, 0)
            =~= flat_forest(raw.nodes@, space::Parent::Root, 0));
    }
    if raw.cameras.len() == 0 {
        return Err(Error::NoCamera);
    }
    let cam = &raw.cameras[0];
    let cam_node = match world.find_node(&cam.node) {
        Some(nid) => nid,
        None => {
            proof {
                assert(!world_has(world, raw.cameras@[0].node@)) by {
                    if world_has(world, raw.cameras@[0].node@) {
                        let k = choose|k: int|
                            0 <= k < world.nodes.len() && (#[trigger] world.nodes[k]).name@
                                == raw.cameras@[0].node@;
                        assert(false);
                    }
                }
                assert(!forest_contains(raw.nodes@, raw.cameras@[0].node@));
            }
            return Err(Error::MissingNode(cam.node.clone()));
        },
    };
    proof {
        assert(world_has(world, raw.cameras@[0].node@));
        assert(forest_contains(raw.nodes@, raw.cameras@[0].node@));
    }
    let camera = CameraOut { name: cam.name.clone(), node: cam_node, angle: cam.angle, range: cam.range };
    let mut context = Context::new();
    let mut entities: Vec<EntityOut> = Vec::new();
    let n_ent = raw.entities.len();
    let mut i: usize = 0;
    while i < n_ent
        invariant
            n_ent == raw.entities@.len(),
            i <= n_ent,
            raw.cameras@.len() > 0,
            world.wf(),
            context.wf(),
            forall|name: Seq<char>|
                #[trigger] forest_contains(raw.nodes@, name) ==> world_has(world, name),
            forall|name: Seq<char>|
                #[trigger] world_has(world, name) ==> forest_contains(raw.nodes@, name),
            world_view(world) == flat_forest(raw.nodes@, space::Parent::Root, 0),
            forest_contains(raw.nodes@, raw.cameras@[0].node@),
            forall|j: int|
                0 <= j < i ==> forest_contains(raw.nodes@, (#[trigger] raw.entities@[j]).node@),
            entities@.len() == i,
            forall|j: int|
                0 <= j < i ==> {
                    &&& world.contains((#[trigger] entities@[j]).node)
                    &&& world.nodes@[entities@[j].node.0 as int].name@ == raw.entities@[j].node@
                    &&& entities@[j].name@ == raw.entities@[j].mesh@
                    &&& entities@[j].range == raw.entities@[j].range
                    &&& entities@[j].mesh < context.meshes@.len()
                    &&& context.meshes@[entities@[j].mesh as int].key@ == raw.entities@[j].mesh@
                },
        decreases n_ent - i,
    {
        let ent = &raw.entities[i];
        let node = match world.find_node(&ent.node) {
            Some(nid) => nid,
            None => {
                proof {
                    assert(!world_has(world, raw.entities@[i as int].node@)) by {
                        if world_has(world, raw.entities@[i as int].node@) {
                            let k = choose|k: int|
                                0 <= k < world.nodes.len() && (#[trigger] world.nodes[k]).name@
                                    == raw.entities@[i as int].node@;
                            assert(false);
                        }
                    }
                    assert(!forest_contains(raw.nodes@, raw.entities@[i as int].node@));
                }
                return Err(Error::MissingNode(ent.node.clone()));
            },
        };
        proof {
            assert(world_has(world, raw.entities@[i as int].node@));
            assert(forest_contains(raw.nodes@, raw.entities@[i as int].node@));
        }
        let mesh_id = match context.request_mesh(&ent.mesh, assets) {
            Ok(m) => m,
            Err(e) => {
                proof {
                    assert(!asset_decodable(assets@, raw.entities@[i as int].mesh@));
                }
                return Err(e);
            },
        };

        proof {
            assert(context.meshes@[mesh_id as int].key@ == raw.entities@[i as int].mesh@);
        }
        entities.push(
            EntityOut { name: ent.mesh.clone(), node, mesh: mesh_id, range: ent.range },
        );
        i += 1;
    }
    Ok(SceneOut { world, camera, entities, context })
}

} // verus!
