//! Arena of spatial nodes with parent-relative transforms: insertion during
//! top-down traversal, name lookup in insertion (pre-order) order, and
//! extraction of the ancestor chain along which world transforms compose.
use vstd::prelude::*;

verus! {

/// Stable, opaque handle of a node in the arena.
#[derive(Clone, Copy, PartialEq, Eq, Structural, Debug)]
pub struct Id(pub usize);

/// Parent link of a node: roots have none.
#[derive(Clone, Copy, PartialEq, Eq, Structural, Debug)]
pub enum Parent {
    Root,
    Domestic(Id),
}

/// Parent-relative transform: uniform scale, rotation quaternion
/// `(x, y, z, w)`, and displacement. The scalar type is chosen by the
/// embedder; composition of transforms is scalar arithmetic and is left to
/// the embedder as well.
pub struct Transform<S> {
    pub scale: S,
    pub rot: (S, S, S, S),
    pub disp: (S, S, S),
}

/// One node of the hierarchy.
pub struct Node<S> {
    pub name: String,
    pub parent: Parent,
    pub local: Transform<S>,
}

/// The arena of nodes. A node's parent, if any, stands earlier in the
/// arena than the node itself, so every parent chain is acyclic and
/// terminates in a root.
pub struct World<S> {
    pub nodes: Vec<Node<S>>,
}

impl<S> World<S> {
    /// Well-formedness: parents precede their children.
    pub open spec fn wf(&self) -> bool {
        forall|i: int|
            0 <= i < self.nodes.len() ==> match #[trigger] self.nodes[i].parent {
                Parent::Root => true,
                Parent::Domestic(p) => p.0 < i,
            }
    }

    /// The given parent link can legally be attached to a newly appended node.
    pub open spec fn parent_ok(&self, parent: Parent) -> bool {
        match parent {
            Parent::Root => true,
            Parent::Domestic(p) => p.0 < self.nodes.len(),
        }
    }

    pub fn new() -> (w: World<S>)
        ensures
            w.wf(),
            w.nodes@.len() == 0,
    {
        World { nodes: Vec::new() }
    }

    pub fn len(&self) -> (n: usize)
        ensures
            n == self.nodes@.len(),
    {
        self.nodes.len()
    }

    /// Appends a node under `parent` and returns its handle. Building code
    /// must traverse its source top-down so that the parent already exists.
    pub fn add_node(&mut self, name: String, parent: Parent, local: Transform<S>) -> (id: Id)
        requires
            old(self).wf(),
            old(self).parent_ok(parent),
        ensures
            final(self).wf(),
            id.0 == old(self).nodes@.len(),
            final(self).nodes@.len() == old(self).nodes@.len() + 1,
            forall|i: int|
                0 <= i < old(self).nodes@.len() ==> final(self).nodes@[i] == old(self).nodes@[i],
            final(self).nodes@[id.0 as int].name == name,
            final(self).nodes@[id.0 as int].parent == parent,
            final(self).nodes@[id.0 as int].local == local,
    {
        let id = Id(self.nodes.len());
        self.nodes.push(Node { name, parent, local });
        id
    }

    /// True iff `id` addresses a node of this arena.
    pub open spec fn contains(&self, id: Id) -> bool {
        id.0 < self.nodes.len()
    }

    pub fn get_node(&self, id: Id) -> (n: &Node<S>)
        requires
            self.contains(id),
        ensures
            *n == self.nodes@[id.0 as int],
    {
        &self.nodes[id.0]
    }

    /// Returns the handle of the first node (in insertion order, which is
    /// the pre-order of the source tree) whose name equals `name`, or
    /// `None` if no node has that name.
    pub fn find_node(&self, name: &String) -> (r: Option<Id>)
        ensures
            match r {
                Some(id) => {
                    &&& id.0 < self.nodes@.len()
                    &&& self.nodes@[id.0 as int].name@ == name@
                    &&& forall|j: int| 0 <= j < id.0 ==> self.nodes@[j].name@ != name@
                },
                None => forall|j: int| 0 <= j < self.nodes@.len() ==> self.nodes@[j].name@ != name@,
            },
    {
        let n = self.nodes.len();
        let mut i: usize = 0;
        while i < n
            invariant
                n == self.nodes@.len(),
                i <= n,
                forall|j: int| 0 <= j < i ==> self.nodes@[j].name@ != name@,
            decreases n - i,
        {
            if self.nodes[i].name == *name {
                return Some(Id(i));
            }
            i += 1;
        }
        None
    }

    /// True iff `ch` is the chain of handles from a root down to `id`:
    /// it ends at `id`, starts at a root, and each link follows a parent
    /// edge of the arena.
    pub open spec fn is_chain_to(&self, ch: Seq<Id>, id: Id) -> bool {
        &&& ch.len() >= 1
        &&& ch[ch.len() - 1] == id
        &&& (forall|k: int| 0 <= k < ch.len() ==> (#[trigger] ch[k]).0 < self.nodes.len())
        &&& self.nodes[ch[0].0 as int].parent == Parent::Root
        &&& forall|k: int|
            1 <= k < ch.len() ==> self.nodes[(#[trigger] ch[k]).0 as int].parent == Parent::Domestic(
                ch[k - 1],
            )
    }

    /// The ancestor chain of `id`, root first, `id` last. The node's world
    /// transform is the left-to-right composition of the local transforms
    /// along this chain; that composition is scalar arithmetic and is
    /// performed by the embedder.
    pub fn world_chain(&self, id: Id) -> (ch: Vec<Id>)
        requires
            self.wf(),
            self.contains(id),
        ensures
            self.is_chain_to(ch@, id),
        decreases id.0,
    {
        match self.nodes[id.0].parent {
            Parent::Root => {
                let mut ch: Vec<Id> = Vec::new();
                ch.push(id);
                ch
            },
            Parent::Domestic(p) => {
                let mut ch = self.world_chain(p);
                ch.push(id);
                ch
            },
        }
    }
}

} // verus!
