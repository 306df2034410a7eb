//! Tests of the mesh chunk grammar: the happy path and every grammar
//! violation of the closed tables.
use claymore::chunk::Reader;
use claymore::mesh;
use claymore::mesh::{Error, FloatSubType, FloatSize, IntSubType, IntSize, PrimitiveType, SignFlag,
    SliceKind, Type};

fn pstr(s: &str) -> Vec<u8> {
    let mut v = vec![s.len() as u8];
    v.extend_from_slice(s.as_bytes());
    v
}

fn chunk(name: &str, body: &[u8]) -> Vec<u8> {
    let mut v = pstr(name);
    v.extend_from_slice(&(body.len() as u32).to_le_bytes());
    v.extend_from_slice(body);
    v
}

/// One "buffer" chunk body: stride, format, then per-element name and
/// flags, finally the raw vertex bytes.
fn buffer_body(stride: u8, format: &str, elems: &[(&str, u8)], raw: &[u8]) -> Vec<u8> {
    let mut b = vec![stride];
    b.extend_from_slice(&pstr(format));
    for (name, flags) in elems {
        b.extend_from_slice(&pstr(name));
        b.push(*flags);
    }
    b.extend_from_slice(raw);
    b
}

fn index_body(count: u32, format: u8, raw: &[u8]) -> Vec<u8> {
    let mut b = count.to_le_bytes().to_vec();
    b.push(format);
    b.extend_from_slice(raw);
    b
}

/// A minimal mesh stream: `n_vert` vertices, a topology code, and child
/// chunk bodies already framed.
fn mesh_stream(name: &str, n_vert: u32, topology: &str, children: &[Vec<u8>]) -> Vec<u8> {
    let mut body = pstr(name);
    body.extend_from_slice(&n_vert.to_le_bytes());
    body.extend_from_slice(&pstr(topology));
    for c in children {
        body.extend_from_slice(c);
    }
    chunk("mesh", &body)
}

#[test]
fn three_vertex_triangle_decodes_end_to_end() {
    let stream = mesh_stream(
        "tri",
        3,
        "3",
        &[
            chunk("buffer", &buffer_body(12, "3f", &[("position", 0)], &[0u8; 36])),
            chunk("index", &index_body(3, b'H', &[0, 0, 1, 0, 2, 0])),
        ],
    );
    let mut r = Reader::root(&stream);
    let (name, (mesh, slice)) = mesh::load(&mut r).unwrap();
    assert_eq!(name.as_slice(), b"tri");
    assert_eq!(mesh.vertex_count, 3);
    assert_eq!(mesh.attributes.len(), 1);
    let a = &mesh.attributes[0];
    assert_eq!(a.name.as_slice(), b"position");
    assert_eq!(a.elem_count, 3);
    assert_eq!(a.elem_type, Type::Float(FloatSubType::Default, FloatSize::F32));
    assert_eq!(a.offset, 0);
    assert_eq!(a.stride, 12);
    assert_eq!(mesh.buffers.len(), 1);
    assert_eq!(mesh.buffers[0].stride, 12);
    assert_eq!(mesh.buffers[0].data.len(), 36);
    assert_eq!(slice.start, 0);
    assert_eq!(slice.end, 3);
    assert_eq!(slice.prim_type, PrimitiveType::TriangleList);
    match slice.kind {
        SliceKind::Index16(data) => assert_eq!(data.len(), 6),
        other => panic!("expected a 16-bit index buffer, got {:?}", other),
    }
}

#[test]
fn two_attributes_get_running_offsets() {
    let stream = mesh_stream(
        "two",
        2,
        "3s",
        &[chunk(
            "buffer",
            &buffer_body(16, "3f2h", &[("position", 0), ("uv", 1)], &[0u8; 32]),
        )],
    );
    let mut r = Reader::root(&stream);
    let (_, (mesh, slice)) = mesh::load(&mut r).unwrap();
    assert_eq!(mesh.attributes.len(), 2);
    assert_eq!(mesh.attributes[0].offset, 0);
    assert_eq!(mesh.attributes[1].offset, 12);
    assert_eq!(
        mesh.attributes[1].elem_type,
        Type::Int(IntSubType::Normalized, IntSize::U16, SignFlag::Signed)
    );
    assert!(matches!(slice.prim_type, PrimitiveType::TriangleStrip));
    assert!(matches!(slice.kind, SliceKind::Vertex));
}

#[test]
fn stride_mismatch_is_reported_not_misaligned() {
    // "3f" occupies 12 bytes but the buffer declares a stride of 10
    let stream = mesh_stream(
        "bad",
        1,
        "3",
        &[chunk("buffer", &buffer_body(10, "3f", &[("position", 0)], &[0u8; 10]))],
    );
    let mut r = Reader::root(&stream);
    match mesh::load(&mut r) {
        Err(Error::Stride(sum)) => assert_eq!(sum, 12),
        other => panic!("expected a stride error, got {:?}", other),
    }
}

#[test]
fn unknown_type_char_is_attrib_type_error() {
    let stream = mesh_stream(
        "bad",
        1,
        "3",
        &[chunk("buffer", &buffer_body(4, "1x", &[("weird", 0)], &[0u8; 4]))],
    );
    let mut r = Reader::root(&stream);
    match mesh::load(&mut r) {
        Err(Error::AttribType(c, f)) => {
            assert_eq!(c, 'x');
            assert_eq!(f, 0);
        },
        other => panic!("expected an attribute type error, got {:?}", other),
    }
}

#[test]
fn float_type_with_normalized_flag_is_refused() {
    let stream = mesh_stream(
        "bad",
        1,
        "3",
        &[chunk("buffer", &buffer_body(12, "3f", &[("position", 1)], &[0u8; 12]))],
    );
    let mut r = Reader::root(&stream);
    assert!(matches!(mesh::load(&mut r), Err(Error::AttribType('f', 1))));
}

#[test]
fn second_index_chunk_is_double_index() {
    let idx = chunk("index", &index_body(1, b'B', &[0]));
    let stream = mesh_stream("bad", 1, "3", &[idx.clone(), idx]);
    let mut r = Reader::root(&stream);
    assert!(matches!(mesh::load(&mut r), Err(Error::DoubleIndex)));
}

#[test]
fn unknown_topology_code_is_topology_error() {
    let stream = mesh_stream("bad", 1, "9", &[]);
    let mut r = Reader::root(&stream);
    match mesh::load(&mut r) {
        Err(Error::Topology(code)) => assert_eq!(code.as_slice(), b"9"),
        other => panic!("expected a topology error, got {:?}", other),
    }
}

#[test]
fn wrong_signature_is_signature_error() {
    let mut body = pstr("x");
    body.extend_from_slice(&1u32.to_le_bytes());
    body.extend_from_slice(&pstr("3"));
    let stream = chunk("mush", &body);
    let mut r = Reader::root(&stream);
    match mesh::load(&mut r) {
        Err(Error::Signature(name)) => assert_eq!(name.as_slice(), b"mush"),
        other => panic!("expected a signature error, got {:?}", other),
    }
}

#[test]
fn unrecognized_child_chunk_is_chunk_error() {
    let stream = mesh_stream("bad", 1, "3", &[chunk("weird", &[1, 2, 3])]);
    let mut r = Reader::root(&stream);
    match mesh::load(&mut r) {
        Err(Error::Chunk(name)) => assert_eq!(name.as_slice(), b"weird"),
        other => panic!("expected an unrecognized-chunk error, got {:?}", other),
    }
}

#[test]
fn unknown_index_format_is_index_type_error() {
    let stream = mesh_stream("bad", 1, "3", &[chunk("index", &index_body(1, b'X', &[0]))]);
    let mut r = Reader::root(&stream);
    assert!(matches!(mesh::load(&mut r), Err(Error::IndexType('X'))));
}

#[test]
fn index_widths_match_format_chars() {
    for (fmt, bytes_per, variant_is_8, variant_is_32) in
        [(b'B', 1usize, true, false), (b'L', 4usize, false, true)]
    {
        let raw = vec![0u8; 2 * bytes_per];
        let stream =
            mesh_stream("m", 1, "3", &[chunk("index", &index_body(2, fmt, &raw))]);
        let mut r = Reader::root(&stream);
        let (_, (_, slice)) = mesh::load(&mut r).unwrap();
        match slice.kind {
            SliceKind::Index8(d) => {
                assert!(variant_is_8);
                assert_eq!(d.len(), 2);
            },
            SliceKind::Index32(d) => {
                assert!(variant_is_32);
                assert_eq!(d.len(), 8);
            },
            other => panic!("unexpected slice kind {:?}", other),
        }
    }
}

#[test]
fn count_character_outside_one_to_nine_is_refused() {
    // the grammar promises count digits 1-9; ':' is not one
    let stream = mesh_stream(
        "bad",
        1,
        "3",
        &[chunk("buffer", &buffer_body(40, ":f", &[("wide", 0)], &[0u8; 40]))],
    );
    let mut r = Reader::root(&stream);
    assert!(matches!(mesh::load(&mut r), Err(Error::Other)));
}

#[test]
fn truncated_vertex_data_is_an_error() {
    // the buffer promises 1 vertex of stride 12 but carries only 4 bytes
    let stream = mesh_stream(
        "bad",
        1,
        "3",
        &[chunk("buffer", &buffer_body(12, "3f", &[("position", 0)], &[0u8; 4]))],
    );
    let mut r = Reader::root(&stream);
    assert!(matches!(mesh::load(&mut r), Err(Error::Other)));
}

#[test]
fn childless_mesh_decodes_to_plain_vertices() {
    let stream = mesh_stream("bare", 7, "1", &[]);
    let mut r = Reader::root(&stream);
    let (name, (mesh, slice)) = mesh::load(&mut r).unwrap();
    assert_eq!(name.as_slice(), b"bare");
    assert_eq!(mesh.vertex_count, 7);
    assert!(mesh.attributes.is_empty());
    assert!(mesh.buffers.is_empty());
    assert_eq!(slice.prim_type, PrimitiveType::Point);
    assert!(matches!(slice.kind, SliceKind::Vertex));
}

#[test]
fn parse_type_covers_the_closed_table() {
    assert_eq!(
        mesh::parse_type('b', 0),
        Ok(Type::Int(IntSubType::Raw, IntSize::U8, SignFlag::Signed))
    );
    assert_eq!(
        mesh::parse_type('L', 1),
        Ok(Type::Int(IntSubType::Normalized, IntSize::U32, SignFlag::Unsigned))
    );
    assert_eq!(
        mesh::parse_type('d', 0),
        Ok(Type::Float(FloatSubType::Precision, FloatSize::F64))
    );
    assert_eq!(mesh::parse_type('x', 0), Err(()));
    assert_eq!(mesh::parse_type('d', 1), Err(()));
    assert_eq!(mesh::parse_type('b', 2), Err(()));
}
