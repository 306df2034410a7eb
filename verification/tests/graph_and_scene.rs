//! Tests of the spatial hierarchy, the resource cache discipline, and the
//! scene assembler.
use claymore::reflect;
use claymore::scene;
use claymore::space::{Parent, Transform, World};

const EPS: f32 = 1e-4;

// ---- scalar transform composition, as the embedder performs it ----

#[derive(Clone, Copy, Debug)]
struct T {
    scale: f32,
    rot: (f32, f32, f32, f32),  // (x, y, z, w)
    disp: (f32, f32, f32),
}

fn qmul(a: (f32, f32, f32, f32), b: (f32, f32, f32, f32)) -> (f32, f32, f32, f32) {
    let (ax, ay, az, aw) = a;
    let (bx, by, bz, bw) = b;
    (
        aw * bx + ax * bw + ay * bz - az * by,
        aw * by - ax * bz + ay * bw + az * bx,
        aw * bz + ax * by - ay * bx + az * bw,
        aw * bw - ax * bx - ay * by - az * bz,
    )
}

fn qapply(q: (f32, f32, f32, f32), v: (f32, f32, f32)) -> (f32, f32, f32) {
    // v + 2 w (qv x v) + 2 qv x (qv x v)
    let (qx, qy, qz, qw) = q;
    let cross = |a: (f32, f32, f32), b: (f32, f32, f32)| {
        (a.1 * b.2 - a.2 * b.1, a.2 * b.0 - a.0 * b.2, a.0 * b.1 - a.1 * b.0)
    };
    let t = cross((qx, qy, qz), v);
    let t = (2.0 * t.0, 2.0 * t.1, 2.0 * t.2);
    let u = cross((qx, qy, qz), t);
    (v.0 + qw * t.0 + u.0, v.1 + qw * t.1 + u.1, v.2 + qw * t.2 + u.2)
}

/// The composition rule: world = compose(parent_world, local).
fn compose(p: T, l: T) -> T {
    let scaled = (p.scale * l.disp.0, p.scale * l.disp.1, p.scale * l.disp.2);
    let moved = qapply(p.rot, scaled);
    T {
        scale: p.scale * l.scale,
        rot: qmul(p.rot, l.rot),
        disp: (moved.0 + p.disp.0, moved.1 + p.disp.1, moved.2 + p.disp.2),
    }
}

fn close3(a: (f32, f32, f32), b: (f32, f32, f32)) {
    assert!((a.0 - b.0).abs() < EPS && (a.1 - b.1).abs() < EPS && (a.2 - b.2).abs() < EPS,
        "{:?} vs {:?}", a, b);
}

fn tr(t: &Transform<f32>) -> T {
    T { scale: t.scale, rot: t.rot, disp: t.disp }
}

fn mk(scale: f32, rot: (f32, f32, f32, f32), disp: (f32, f32, f32)) -> Transform<f32> {
    Transform { scale, rot, disp }
}

#[test]
fn world_chain_composes_like_the_manual_rule() {
    let half = std::f32::consts::FRAC_1_SQRT_2;
    let t1 = || mk(2.0, (0.0, 0.0, 0.0, 1.0), (1.0, 0.0, 0.0));
    let t2 = || mk(1.0, (0.0, 0.0, half, half), (0.0, 1.0, 0.0));
    let t3 = || mk(3.0, (0.0, 0.0, 0.0, 1.0), (1.0, 0.0, 0.0));

    let mut w: World<f32> = World::new();
    let a = w.add_node("a".to_string(), Parent::Root, t1());
    let b = w.add_node("b".to_string(), Parent::Domestic(a), t2());
    let c = w.add_node("c".to_string(), Parent::Domestic(b), t3());

    let chain = w.world_chain(c);
    assert_eq!(chain.len(), 3);
    assert_eq!(chain[0].0, a.0);
    assert_eq!(chain[1].0, b.0);
    assert_eq!(chain[2].0, c.0);

    let mut world = tr(&w.get_node(chain[0]).local);
    for id in &chain[1..] {
        world = compose(world, tr(&w.get_node(*id).local));
    }

    // manual composition of the same three levels
    let manual = compose(compose(tr(&t1()), tr(&t2())), tr(&t3()));
    assert!((world.scale - manual.scale).abs() < EPS);
    close3(world.disp, manual.disp);

    // and the concrete values worked out by hand
    assert!((world.scale - 6.0).abs() < EPS);
    close3(world.disp, (1.0, 4.0, 0.0));
    assert!((world.rot.2 - half).abs() < EPS && (world.rot.3 - half).abs() < EPS);
}

#[test]
fn root_world_equals_local() {
    let t = mk(5.0, (0.0, 0.0, 0.0, 1.0), (7.0, 8.0, 9.0));
    let mut w: World<f32> = World::new();
    let a = w.add_node("solo".to_string(), Parent::Root, t);
    let chain = w.world_chain(a);
    assert_eq!(chain.len(), 1);
    let got = &w.get_node(chain[0]).local;
    assert_eq!(got.scale, 5.0);
    assert_eq!(got.disp, (7.0, 8.0, 9.0));
}

#[test]
fn find_node_returns_first_in_insertion_order() {
    let t = || mk(1.0, (0.0, 0.0, 0.0, 1.0), (0.0, 0.0, 0.0));
    let mut w: World<f32> = World::new();
    let a = w.add_node("twin".to_string(), Parent::Root, t());
    let _b = w.add_node("other".to_string(), Parent::Domestic(a), t());
    let _c = w.add_node("twin".to_string(), Parent::Domestic(a), t());
    let found = w.find_node(&"twin".to_string()).unwrap();
    assert_eq!(found.0, a.0);
    assert!(w.find_node(&"absent".to_string()).is_none());
}

// ---- scene description helpers ----

fn space(pos: (f32, f32, f32), scale: f32) -> reflect::Space<f32> {
    reflect::Space { pos, rot: (0.0, 0.0, 0.0, 1.0), scale }
}

fn leaf(name: &str) -> reflect::Node<f32> {
    reflect::Node {
        name: name.to_string(),
        space: space((0.0, 0.0, 0.0), 1.0),
        children: Vec::new(),
        actions: Vec::new(),
    }
}

fn entity(mesh: &str, node: &str) -> reflect::Entity {
    reflect::Entity {
        mesh: mesh.to_string(),
        node: node.to_string(),
        range: (0, 3),
        armature: String::new(),
        material: String::new(),
        actions: Vec::new(),
    }
}

fn camera(name: &str, node: &str) -> reflect::Camera<f32> {
    reflect::Camera {
        name: name.to_string(),
        node: node.to_string(),
        angle: (0.8, 0.6),
        range: (0.1, 100.0),
        actions: Vec::new(),
    }
}

fn scene_desc(
    nodes: Vec<reflect::Node<f32>>,
    entities: Vec<reflect::Entity>,
    cameras: Vec<reflect::Camera<f32>>,
) -> reflect::Scene<f32> {
    reflect::Scene {
        global: reflect::Global { gravity: (0.0, 0.0, -9.8) },
        nodes,
        materials: Vec::new(),
        entities,
        cameras,
        lights: Vec::new(),
    }
}

fn pstr(s: &str) -> Vec<u8> {
    let mut v = vec![s.len() as u8];
    v.extend_from_slice(s.as_bytes());
    v
}

fn chunk(name: &str, body: &[u8]) -> Vec<u8> {
    let mut v = pstr(name);
    v.extend_from_slice(&(body.len() as u32).to_le_bytes());
    v.extend_from_slice(body);
    v
}

fn tri_mesh_asset() -> Vec<u8> {
    let mut buffer = vec![12u8];
    buffer.extend_from_slice(&pstr("3f"));
    buffer.extend_from_slice(&pstr("position"));
    buffer.push(0);
    buffer.extend_from_slice(&[0u8; 36]);
    let mut body = pstr("tri");
    body.extend_from_slice(&3u32.to_le_bytes());
    body.extend_from_slice(&pstr("3"));
    body.extend_from_slice(&chunk("buffer", &buffer));
    chunk("mesh", &body)
}

// ---- assembler and cache discipline ----

#[test]
fn assembles_a_minimal_scene() {
    let mut root = leaf("root");
    root.children.push(leaf("gun"));
    root.children.push(leaf("eye"));
    let raw = scene_desc(
        vec![root],
        vec![entity("gun.mesh", "gun")],
        vec![camera("main", "eye")],
    );
    let assets = vec![("gun.mesh".to_string(), tri_mesh_asset())];
    let out = scene::load(&raw, &assets).unwrap();
    assert_eq!(out.world.len(), 3);
    assert_eq!(out.camera.name, "main");
    assert_eq!(out.world.get_node(out.camera.node).name, "eye");
    assert_eq!(out.entities.len(), 1);
    assert_eq!(out.entities[0].name, "gun.mesh");
    assert_eq!(out.entities[0].range, (0, 3));
    assert_eq!(out.world.get_node(out.entities[0].node).name, "gun");
    let lm = &out.context.meshes[out.entities[0].mesh];
    assert_eq!(lm.key, "gun.mesh");
    assert_eq!(lm.mesh.vertex_count, 3);
}

#[test]
fn same_mesh_key_is_decoded_exactly_once() {
    let mut root = leaf("root");
    root.children.push(leaf("left"));
    root.children.push(leaf("right"));
    let raw = scene_desc(
        vec![root],
        vec![entity("gun.mesh", "left"), entity("gun.mesh", "right")],
        vec![camera("main", "root")],
    );
    let assets = vec![("gun.mesh".to_string(), tri_mesh_asset())];
    let out = scene::load(&raw, &assets).unwrap();
    // one backend decode, two entities sharing the handle
    assert_eq!(out.context.meshes.len(), 1);
    assert_eq!(out.entities[0].mesh, out.entities[1].mesh);
}

#[test]
fn request_mesh_hits_cache_on_second_call() {
    let assets = vec![("gun.mesh".to_string(), tri_mesh_asset())];
    let mut ctx = scene::Context::new();
    let key = "gun.mesh".to_string();
    let first = ctx.request_mesh(&key, &assets).unwrap();
    let second = ctx.request_mesh(&key, &assets).unwrap();
    assert_eq!(first, second);
    assert_eq!(ctx.meshes.len(), 1);
}

#[test]
fn failed_request_is_not_cached_and_may_be_retried() {
    let mut ctx = scene::Context::new();
    let key = "late.mesh".to_string();
    let empty: Vec<(String, Vec<u8>)> = Vec::new();
    assert!(ctx.request_mesh(&key, &empty).is_err());
    // the failure was not remembered: with the asset present the same key
    // now resolves
    let assets = vec![("late.mesh".to_string(), tri_mesh_asset())];
    let handle = ctx.request_mesh(&key, &assets).unwrap();
    assert_eq!(ctx.meshes[handle].key, "late.mesh");
}

#[test]
fn zero_cameras_is_no_camera() {
    let raw = scene_desc(vec![leaf("root")], Vec::new(), Vec::new());
    let assets: Vec<(String, Vec<u8>)> = Vec::new();
    assert!(matches!(scene::load(&raw, &assets), Err(scene::Error::NoCamera)));
}

#[test]
fn entity_with_unknown_node_is_missing_node() {
    let raw = scene_desc(
        vec![leaf("root")],
        vec![entity("gun.mesh", "that-name")],
        vec![camera("main", "root")],
    );
    let assets = vec![("gun.mesh".to_string(), tri_mesh_asset())];
    match scene::load(&raw, &assets) {
        Err(scene::Error::MissingNode(name)) => assert_eq!(name, "that-name"),
        other => panic!("expected a missing node error, got {:?}", other.err()),
    }
}

#[test]
fn camera_with_unknown_node_is_missing_node() {
    let raw = scene_desc(vec![leaf("root")], Vec::new(), vec![camera("main", "nowhere")]);
    let assets: Vec<(String, Vec<u8>)> = Vec::new();
    match scene::load(&raw, &assets) {
        Err(scene::Error::MissingNode(name)) => assert_eq!(name, "nowhere"),
        other => panic!("expected a missing node error, got {:?}", other.err()),
    }
}

#[test]
fn absent_asset_is_a_mesh_error() {
    let raw = scene_desc(
        vec![leaf("root")],
        vec![entity("ghost.mesh", "root")],
        vec![camera("main", "root")],
    );
    let assets: Vec<(String, Vec<u8>)> = Vec::new();
    match scene::load(&raw, &assets) {
        Err(scene::Error::Mesh(name, claymore::mesh::Error::NameNotInCollection)) => {
            assert_eq!(name, "ghost.mesh");
        },
        other => panic!("expected a mesh error, got {:?}", other.err()),
    }
}

#[test]
fn bad_asset_bytes_fail_the_load_with_the_mesh_name() {
    let raw = scene_desc(
        vec![leaf("root")],
        vec![entity("junk.mesh", "root")],
        vec![camera("main", "root")],
    );
    let assets = vec![("junk.mesh".to_string(), vec![0xFFu8, 1, 2])];
    match scene::load(&raw, &assets) {
        Err(scene::Error::Mesh(name, _)) => assert_eq!(name, "junk.mesh"),
        other => panic!("expected a mesh error, got {:?}", other.err()),
    }
}
