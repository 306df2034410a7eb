//! The scene description schema: the plain data handed in by the embedder
//! after structured-document decoding. Scalar-valued fields (positions,
//! rotations, angles, colors) are generic in the scalar type `S`, which the
//! embedder instantiates; this core never computes with scalars, it only
//! carries them.
use vstd::prelude::*;

verus! {

/// Placeholder for animation actions, carried but not interpreted here.
pub type Action = ();

/// One named material data entry: a kind tag and its scalar components.
pub type Data<S> = (String, Vec<S>);

/// A parent-relative placement: position, rotation quaternion as
/// `(x, y, z, w)`, and uniform scale.
pub struct Space<S> {
    pub pos: (S, S, S),
    pub rot: (S, S, S, S),
    pub scale: S,
}

/// One node of the description's transform tree.
pub struct Node<S> {
    pub name: String,
    pub space: Space<S>,
    pub children: Vec<Node<S>>,
    pub actions: Vec<Action>,
}

pub struct Global<S> {
    pub gravity: (S, S, S),
}

/// A drawable entity: its mesh and material by name, the node it hangs
/// from, and its vertex range.
pub struct Entity {
    pub mesh: String,
    pub node: String,
    pub range: (u32, u32),
    pub armature: String,
    pub material: String,
    pub actions: Vec<Action>,
}

pub struct Camera<S> {
    pub name: String,
    pub node: String,
    pub angle: (S, S),
    pub range: (S, S),
    pub actions: Vec<Action>,
}

pub struct Light<S> {
    pub name: String,
    pub kind: String,
    pub color: (S, S, S),
    pub energy: S,
    pub distance: S,
    pub attenuation: (S, S),
    pub spherical: bool,
    pub parameters: Vec<S>,
    pub actions: Vec<Action>,
}

pub struct Image {
    pub path: String,
    pub space: String,
}

pub struct Texture {
    pub image: Image,
    pub wrap: (i8, i8, i8),
    pub filter: u8,
    pub name: String,
}

pub struct Material<S> {
    pub name: String,
    pub shader: String,
    pub transparent: bool,
    /// Named data entries, looked up by their first matching name.
    pub data: Vec<(String, Data<S>)>,
    pub textures: Vec<Texture>,
}

/// A whole scene description.
pub struct Scene<S> {
    pub global: Global<S>,
    pub nodes: Vec<Node<S>>,
    pub materials: Vec<Material<S>>,
    pub entities: Vec<Entity>,
    pub cameras: Vec<Camera<S>>,
    pub lights: Vec<Light<S>>,
}

} // verus!
