//! Decoder for one "mesh" chunk of the binary container: vertex buffers
//! with typed, strided attributes, an optional index buffer tagged by its
//! width, and the primitive topology. Attribute type codes follow Python's
//! struct packing notation. Every grammar violation is returned as a typed
//! error; decoding never panics.
//!
//! The backing buffers are returned as raw byte vectors, ready for the
//! embedding renderer to hand to its device.
use vstd::prelude::*;
use vstd::slice::slice_to_vec;
use vstd::string::StringSliceAdditionalSpecFns;

use crate::chunk;
use crate::chunk::Reader;

verus! {

#[derive(Clone, Copy, PartialEq, Eq, Structural, Debug)]
pub enum IntSubType {
    Raw,
    Normalized,
}

#[derive(Clone, Copy, PartialEq, Eq, Structural, Debug)]
pub enum IntSize {
    U8,
    U16,
    U32,
}

#[derive(Clone, Copy, PartialEq, Eq, Structural, Debug)]
pub enum SignFlag {
    Signed,
    Unsigned,
}

#[derive(Clone, Copy, PartialEq, Eq, Structural, Debug)]
pub enum FloatSubType {
    Default,
    Precision,
}

#[derive(Clone, Copy, PartialEq, Eq, Structural, Debug)]
pub enum FloatSize {
    F32,
    F64,
}

/// Numeric kind of one attribute element; a closed set, matched
/// exhaustively at decode time.
#[derive(Clone, Copy, PartialEq, Eq, Structural, Debug)]
pub enum Type {
    Int(IntSubType, IntSize, SignFlag),
    Float(FloatSubType, FloatSize),
}

/// Primitive assembly mode of a mesh slice.
#[derive(Clone, Copy, PartialEq, Eq, Structural, Debug)]
pub enum PrimitiveType {
    Point,
    Line,
    LineStrip,
    TriangleList,
    TriangleStrip,
    TriangleFan,
}

/// Byte size of one element of the given numeric kind.
pub open spec fn spec_size(t: Type) -> int {
    match t {
        Type::Int(_, IntSize::U8, _) => 1,
        Type::Int(_, IntSize::U16, _) => 2,
        Type::Int(_, IntSize::U32, _) => 4,
        Type::Float(_, FloatSize::F32) => 4,
        Type::Float(_, FloatSize::F64) => 8,
    }
}

impl Type {
    pub fn get_size(&self) -> (r: u8)
        ensures
            r == spec_size(*self),
            1 <= r <= 8,
    {
        match *self {
            Type::Int(_, IntSize::U8, _) => 1,
            Type::Int(_, IntSize::U16, _) => 2,
            Type::Int(_, IntSize::U32, _) => 4,
            Type::Float(_, FloatSize::F32) => 4,
            Type::Float(_, FloatSize::F64) => 8,
        }
    }
}

/// The closed attribute-type table: a type character in Python struct
/// notation and a normalized flag, or nothing for any other combination.
pub open spec fn spec_parse_type(t: char, normalized: u8) -> Option<Type> {
    match (t, normalized) {
        ('b', 0) => Some(Type::Int(IntSubType::Raw, IntSize::U8, SignFlag::Signed)),
        ('B', 0) => Some(Type::Int(IntSubType::Raw, IntSize::U8, SignFlag::Unsigned)),
        ('b', 1) => Some(Type::Int(IntSubType::Normalized, IntSize::U8, SignFlag::Signed)),
        ('B', 1) => Some(Type::Int(IntSubType::Normalized, IntSize::U8, SignFlag::Unsigned)),
        ('h', 0) => Some(Type::Int(IntSubType::Raw, IntSize::U16, SignFlag::Signed)),
        ('H', 0) => Some(Type::Int(IntSubType::Raw, IntSize::U16, SignFlag::Unsigned)),
        ('h', 1) => Some(Type::Int(IntSubType::Normalized, IntSize::U16, SignFlag::Signed)),
        ('H', 1) => Some(Type::Int(IntSubType::Normalized, IntSize::U16, SignFlag::Unsigned)),
        ('l', 0) => Some(Type::Int(IntSubType::Raw, IntSize::U32, SignFlag::Signed)),
        ('L', 0) => Some(Type::Int(IntSubType::Raw, IntSize::U32, SignFlag::Unsigned)),
        ('l', 1) => Some(Type::Int(IntSubType::Normalized, IntSize::U32, SignFlag::Signed)),
        ('L', 1) => Some(Type::Int(IntSubType::Normalized, IntSize::U32, SignFlag::Unsigned)),
        ('f', 0) => Some(Type::Float(FloatSubType::Default, FloatSize::F32)),
        ('d', 0) => Some(Type::Float(FloatSubType::Precision, FloatSize::F64)),
        _ => None,
    }
}

/// Maps a type character and normalized flag to an attribute element type,
/// or reports an unknown combination. The table is exactly
/// `spec_parse_type`: no combination outside it is accepted, and none
/// inside it is refused.
pub fn parse_type(type_: char, normalized: u8) -> (r: Result<Type, ()>)
    ensures
        match r {
            Ok(t) => spec_parse_type(type_, normalized) == Some(t),
            Err(()) => spec_parse_type(type_, normalized) is None,
        },
{
    match (type_, normalized) {
        ('b', 0) => Ok(Type::Int(IntSubType::Raw, IntSize::U8, SignFlag::Signed)),
        ('B', 0) => Ok(Type::Int(IntSubType::Raw, IntSize::U8, SignFlag::Unsigned)),
        ('b', 1) => Ok(Type::Int(IntSubType::Normalized, IntSize::U8, SignFlag::Signed)),
        ('B', 1) => Ok(Type::Int(IntSubType::Normalized, IntSize::U8, SignFlag::Unsigned)),
        ('h', 0) => Ok(Type::Int(IntSubType::Raw, IntSize::U16, SignFlag::Signed)),
        ('H', 0) => Ok(Type::Int(IntSubType::Raw, IntSize::U16, SignFlag::Unsigned)),
        ('h', 1) => Ok(Type::Int(IntSubType::Normalized, IntSize::U16, SignFlag::Signed)),
        ('H', 1) => Ok(Type::Int(IntSubType::Normalized, IntSize::U16, SignFlag::Unsigned)),
        ('l', 0) => Ok(Type::Int(IntSubType::Raw, IntSize::U32, SignFlag::Signed)),
        ('L', 0) => Ok(Type::Int(IntSubType::Raw, IntSize::U32, SignFlag::Unsigned)),
        ('l', 1) => Ok(Type::Int(IntSubType::Normalized, IntSize::U32, SignFlag::Signed)),
        ('L', 1) => Ok(Type::Int(IntSubType::Normalized, IntSize::U32, SignFlag::Unsigned)),
        ('f', 0) => Ok(Type::Float(FloatSubType::Default, FloatSize::F32)),
        ('d', 0) => Ok(Type::Float(FloatSubType::Precision, FloatSize::F64)),
        _ => Err(()),
    }
}

/// The closed topology-code table.
pub open spec fn spec_parse_topology(s: Seq<u8>) -> Option<PrimitiveType> {
    if s == "1".spec_bytes() {
        Some(PrimitiveType::Point)
    } else if s == "2".spec_bytes() {
        Some(PrimitiveType::Line)
    } else if s == "2s".spec_bytes() {
        Some(PrimitiveType::LineStrip)
    } else if s == "3".spec_bytes() {
        Some(PrimitiveType::TriangleList)
    } else if s == "3s".spec_bytes() {
        Some(PrimitiveType::TriangleStrip)
    } else if s == "3f".spec_bytes() {
        Some(PrimitiveType::TriangleFan)
    } else {
        None
    }
}

/// Maps a topology code string to the primitive assembly mode, or nothing
/// for any code outside the table.
pub fn parse_topology(code: &[u8]) -> (r: Option<PrimitiveType>)
    ensures
        r == spec_parse_topology(code@),
{
    if chunk::tag_eq(code, "1") {
        Some(PrimitiveType::Point)
    } else if chunk::tag_eq(code, "2") {
        Some(PrimitiveType::Line)
    } else if chunk::tag_eq(code, "2s") {
        Some(PrimitiveType::LineStrip)
    } else if chunk::tag_eq(code, "3") {
        Some(PrimitiveType::TriangleList)
    } else if chunk::tag_eq(code, "3s") {
        Some(PrimitiveType::TriangleStrip)
    } else if chunk::tag_eq(code, "3f") {
        Some(PrimitiveType::TriangleFan)
    } else {
        None
    }
}

/// One named, typed field within a per-vertex buffer record.
#[derive(Debug)]
pub struct Attribute {
    pub name: Vec<u8>,
    /// Index of the backing buffer within the owning mesh.
    pub buffer: usize,
    pub elem_count: u8,
    pub elem_type: Type,
    /// Byte offset of this field within one record.
    pub offset: u32,
    /// Byte size of one whole record of the backing buffer.
    pub stride: u8,
    pub instance_rate: u32,
}

/// Byte size of one attribute: element count times element size.
pub open spec fn attr_size(a: Attribute) -> int {
    a.elem_count * spec_size(a.elem_type)
}

/// Sum of the byte sizes of the attributes assigned to buffer `b`.
pub open spec fn sum_sizes(attrs: Seq<Attribute>, b: int) -> int
    decreases attrs.len(),
{
    if attrs.len() == 0 {
        0
    } else {
        sum_sizes(attrs.drop_last(), b) + if attrs.last().buffer == b {
            attr_size(attrs.last())
        } else {
            0
        }
    }
}

pub proof fn lemma_sum_push(attrs: Seq<Attribute>, a: Attribute, b: int)
    ensures
        sum_sizes(attrs.push(a), b) == sum_sizes(attrs, b) + if a.buffer == b {
            attr_size(a)
        } else {
            0
        },
{
    assert(attrs.push(a).drop_last() =~= attrs);
    assert(attrs.push(a).last() == a);
}

pub proof fn lemma_sum_absent(attrs: Seq<Attribute>, b: int)
    requires
        forall|i: int| 0 <= i < attrs.len() ==> (#[trigger] attrs[i]).buffer != b,
    ensures
        sum_sizes(attrs, b) == 0,
    decreases attrs.len(),
{
    if attrs.len() > 0 {
        assert(attrs.drop_last() =~= attrs.subrange(0, attrs.len() - 1));
        lemma_sum_absent(attrs.drop_last(), b);
    }
}

/// One backing vertex buffer: its record stride and its raw bytes.
#[derive(Debug)]
pub struct RawBuffer {
    pub stride: u8,
    pub data: Vec<u8>,
}

/// Decoded mesh geometry: ordered attributes over backing buffers.
#[derive(Debug)]
pub struct Mesh {
    pub vertex_count: u32,
    pub attributes: Vec<Attribute>,
    pub buffers: Vec<RawBuffer>,
}

impl Mesh {
    /// Internal consistency of a decoded mesh. In particular, for every
    /// backing buffer the byte sizes of its attributes sum exactly to its
    /// declared stride: a decoded mesh is never silently misaligned.
    pub open spec fn wf(&self) -> bool {
        &&& forall|b: int|
            0 <= b < self.buffers.len() ==> sum_sizes(self.attributes@, b) == (
            #[trigger] self.buffers[b]).stride
        &&& forall|b: int|
            0 <= b < self.buffers.len() ==> (#[trigger] self.buffers[b]).data@.len()
                == self.vertex_count * self.buffers[b].stride
        &&& forall|i: int|
            0 <= i < self.attributes.len() ==> (#[trigger] self.attributes[i]).buffer
                < self.buffers.len()
        &&& forall|i: int|
            0 <= i < self.attributes.len() ==> (#[trigger] self.attributes[i]).stride
                == self.buffers[self.attributes[i].buffer as int].stride
    }

    pub fn new(vertex_count: u32) -> (m: Mesh)
        ensures
            m.wf(),
            m.vertex_count == vertex_count,
            m.attributes@.len() == 0,
            m.buffers@.len() == 0,
    {
        Mesh { vertex_count, attributes: Vec::new(), buffers: Vec::new() }
    }
}

/// How a slice walks a mesh's vertices: directly, or through an index
/// buffer of the tagged width.
#[derive(Debug)]
pub enum SliceKind {
    Vertex,
    Index8(Vec<u8>),
    Index16(Vec<u8>),
    Index32(Vec<u8>),
}

/// A draw range over a mesh plus its topology and optional index buffer.
#[derive(Debug)]
pub struct Slice {
    pub start: u32,
    pub end: u32,
    pub prim_type: PrimitiveType,
    pub kind: SliceKind,
}

/// A decoded mesh and the slice that draws all of it.
pub type Success = (Mesh, Slice);

/// Grammar violations and decode failures of the mesh format, each naming
/// the offending chunk or field.
#[derive(Debug)]
pub enum Error {
    /// The requested mesh name is absent from the asset collection.
    NameNotInCollection,
    /// A child chunk whose name the grammar does not know.
    Chunk(Vec<u8>),
    /// The top chunk is not tagged "mesh".
    Signature(Vec<u8>),
    /// A topology code outside the closed table.
    Topology(Vec<u8>),
    /// A second "index" chunk within one mesh.
    DoubleIndex,
    /// A type-character/flag combination outside the closed table.
    AttribType(char, u8),
    /// An index format character outside `B`, `H`, `L`.
    IndexType(char),
    /// The accumulated attribute sizes of a buffer differ from its
    /// declared stride; carries the accumulated value.
    Stride(u32),
    /// A field or chunk ran past its declared boundary, or a format
    /// string was malformed (odd length, or a count character outside
    /// `1`-`9`).
    Other,
}

impl SliceKind {
    pub fn is_vertex(&self) -> (b: bool)
        ensures
            b == (self matches SliceKind::Vertex),
    {
        match self {
            SliceKind::Vertex => true,
            _ => false,
        }
    }
}

/// Byte width of one index entry for format byte `f`, or 0 for a format
/// outside the closed table `B`, `H`, `L`.
pub open spec fn index_width(f: u8) -> int {
    if f == 66 {
        1
    } else if f == 72 {
        2
    } else if f == 76 {
        4
    } else {
        0
    }
}

// ---- the grammar as a specification ----

/// What one format pair and its name and flag bytes decode to, at the
/// specification level.
pub struct AttributeSpec {
    pub name: Seq<u8>,
    pub buffer: int,
    pub elem_count: u8,
    pub elem_type: Type,
    pub offset: int,
    pub stride: u8,
    pub instance_rate: int,
}

/// A backing buffer at the specification level.
pub struct BufferSpec {
    pub stride: u8,
    pub data: Seq<u8>,
}

/// A slice kind at the specification level.
pub enum SliceKindSpec {
    Vertex,
    Index8(Seq<u8>),
    Index16(Seq<u8>),
    Index32(Seq<u8>),
}

/// A decode error at the specification level, carrying the offending
/// bytes or codes.
pub enum ErrorSpec {
    Chunk(Seq<u8>),
    Signature(Seq<u8>),
    Topology(Seq<u8>),
    DoubleIndex,
    AttribType(char, u8),
    IndexType(char),
    Stride(int),
    Other,
}

/// A returned error reports exactly what the specification-level decode
/// yields, payloads included.
pub open spec fn err_matches(e: Error, es: ErrorSpec) -> bool {
    match (e, es) {
        (Error::Chunk(n), ErrorSpec::Chunk(s)) => n@ == s,
        (Error::Signature(n), ErrorSpec::Signature(s)) => n@ == s,
        (Error::Topology(n), ErrorSpec::Topology(s)) => n@ == s,
        (Error::DoubleIndex, ErrorSpec::DoubleIndex) => true,
        (Error::AttribType(c, f), ErrorSpec::AttribType(cs, fs)) => c == cs && f == fs,
        (Error::IndexType(c), ErrorSpec::IndexType(cs)) => c == cs,
        (Error::Stride(o), ErrorSpec::Stride(os)) => o == os,
        (Error::Other, ErrorSpec::Other) => true,
        _ => false,
    }
}

pub open spec fn attr_view(a: Attribute) -> AttributeSpec {
    AttributeSpec {
        name: a.name@,
        buffer: a.buffer as int,
        elem_count: a.elem_count,
        elem_type: a.elem_type,
        offset: a.offset as int,
        stride: a.stride,
        instance_rate: a.instance_rate as int,
    }
}

pub open spec fn attrs_view(s: Seq<Attribute>) -> Seq<AttributeSpec> {
    s.map(|i: int, a: Attribute| attr_view(a))
}

pub open spec fn buffer_view(b: RawBuffer) -> BufferSpec {
    BufferSpec { stride: b.stride, data: b.data@ }
}

pub open spec fn buffers_view(s: Seq<RawBuffer>) -> Seq<BufferSpec> {
    s.map(|i: int, b: RawBuffer| buffer_view(b))
}

pub open spec fn kind_view(k: SliceKind) -> SliceKindSpec {
    match k {
        SliceKind::Vertex => SliceKindSpec::Vertex,
        SliceKind::Index8(v) => SliceKindSpec::Index8(v@),
        SliceKind::Index16(v) => SliceKindSpec::Index16(v@),
        SliceKind::Index32(v) => SliceKindSpec::Index32(v@),
    }
}

/// A decoded mesh, its name and its slice, at the specification level.
pub struct MeshSpec {
    pub name: Seq<u8>,
    pub vertex_count: int,
    pub prim: PrimitiveType,
    pub attributes: Seq<AttributeSpec>,
    pub buffers: Seq<BufferSpec>,
    pub kind: SliceKindSpec,
}

pub open spec fn mesh_view(name: Vec<u8>, m: Mesh, s: Slice) -> MeshSpec {
    MeshSpec {
        name: name@,
        vertex_count: m.vertex_count as int,
        prim: s.prim_type,
        attributes: attrs_view(m.attributes@),
        buffers: buffers_view(m.buffers@),
        kind: kind_view(s.kind),
    }
}

/// The "index" chunk grammar over the bytes of its body `[p, cend)`.
pub open spec fn spec_index_chunk(d: Seq<u8>, p: int, cend: int) -> Result<
    SliceKindSpec,
    ErrorSpec,
> {
    if p + 5 > cend {
        Err(ErrorSpec::Other)
    } else {
        let n = chunk::spec_le32(d.subrange(p, p + 4));
        let f = d[p + 4];
        if index_width(f) == 0 {
            Err(ErrorSpec::IndexType(f as char))
        } else if p + 5 + n * index_width(f) > cend {
            Err(ErrorSpec::Other)
        } else {
            let data = d.subrange(p + 5, p + 5 + n * index_width(f));
            if f == 66 {
                Ok(SliceKindSpec::Index8(data))
            } else if f == 72 {
                Ok(SliceKindSpec::Index16(data))
            } else {
                Ok(SliceKindSpec::Index32(data))
            }
        }
    }
}

/// A well-formed format string: pairs of a count digit `1`-`9` and a type
/// character.
pub open spec fn format_ok(fmt: Seq<u8>) -> bool {
    &&& fmt.len() % 2 == 0
    &&& forall|k: int| 0 <= k < fmt.len() / 2 ==> 49 <= #[trigger] fmt[2 * k] <= 57
}

/// The element list of a "buffer" chunk: for each format pair from `k`
/// on, a name and a flag byte read from `pos`, becoming an attribute at
/// the running `offset`. Yields the attributes, the position after the
/// last flag byte, and the final offset.
pub open spec fn spec_buffer_elems(
    d: Seq<u8>,
    pos: int,
    cend: int,
    fmt: Seq<u8>,
    k: int,
    bi: int,
    stride: u8,
    offset: int,
) -> Result<(Seq<AttributeSpec>, int, int), ErrorSpec>
    decreases fmt.len() / 2 - k,
{
    if k < 0 || k >= fmt.len() / 2 {
        Ok((Seq::empty(), pos, offset))
    } else if !Reader::str_fits(d, pos, cend) {
        Err(ErrorSpec::Other)
    } else {
        let name = Reader::str_at(d, pos);
        let p1 = pos + 1 + d[pos];
        if p1 + 1 > cend {
            Err(ErrorSpec::Other)
        } else {
            let flags = d[p1];
            let tc = fmt[2 * k + 1] as char;
            match spec_parse_type(tc, flags & 1) {
                Option::None => Err(ErrorSpec::AttribType(tc, flags)),
                Option::Some(t) => {
                    let cnt = (fmt[2 * k] - 48) as u8;
                    let a = AttributeSpec {
                        name,
                        buffer: bi,
                        elem_count: cnt,
                        elem_type: t,
                        offset,
                        stride,
                        instance_rate: 0,
                    };
                    match spec_buffer_elems(
                        d,
                        p1 + 1,
                        cend,
                        fmt,
                        k + 1,
                        bi,
                        stride,
                        offset + cnt * spec_size(t),
                    ) {
                        Ok(rest) => Ok((seq![a] + rest.0, rest.1, rest.2)),
                        Err(es) => Err(es),
                    }
                },
            }
        }
    }
}

/// Prepends already-decoded attributes to the outcome of the remaining
/// element list.
pub open spec fn combine_elems(
    pre: Seq<AttributeSpec>,
    r: Result<(Seq<AttributeSpec>, int, int), ErrorSpec>,
) -> Result<(Seq<AttributeSpec>, int, int), ErrorSpec> {
    match r {
        Ok(t) => Ok((pre + t.0, t.1, t.2)),
        Err(es) => Err(es),
    }
}

/// The "buffer" chunk grammar over the bytes of its body `[p, cend)`,
/// decoding into buffer slot `bi` of a mesh with `n_vert` vertices: the
/// stride byte, the format string, the element list, then — only if the
/// element sizes sum exactly to the stride — the raw vertex bytes.
pub open spec fn spec_buffer_chunk(d: Seq<u8>, p: int, cend: int, n_vert: int, bi: int) -> Result<
    (BufferSpec, Seq<AttributeSpec>),
    ErrorSpec,
> {
    if p + 1 > cend {
        Err(ErrorSpec::Other)
    } else {
        let stride = d[p];
        if !Reader::str_fits(d, p + 1, cend) {
            Err(ErrorSpec::Other)
        } else {
            let fmt = Reader::str_at(d, p + 1);
            if !format_ok(fmt) {
                Err(ErrorSpec::Other)
            } else {
                let q = p + 2 + d[p + 1];
                match spec_buffer_elems(d, q, cend, fmt, 0, bi, stride, 0) {
                    Err(es) => Err(es),
                    Ok(r) => {
                        if r.2 != stride {
                            Err(ErrorSpec::Stride(r.2))
                        } else if r.1 + n_vert * stride > cend {
                            Err(ErrorSpec::Other)
                        } else {
                            Ok(
                                (
                                    BufferSpec {
                                        stride,
                                        data: d.subrange(r.1, r.1 + n_vert * stride),
                                    },
                                    r.0,
                                ),
                            )
                        }
                    },
                }
            }
        }
    }
}

/// Running state of the child-chunk walk.
pub struct ChildState {
    pub attributes: Seq<AttributeSpec>,
    pub buffers: Seq<BufferSpec>,
    pub kind: SliceKindSpec,
}

/// The child chunks of a mesh chunk, walked from `pos` to the mesh's
/// boundary `cend`: each "buffer" chunk appends a backing buffer and its
/// attributes, the first "index" chunk fills the index slot, a second
/// one is `DoubleIndex`, and any other name is an unrecognized chunk.
pub open spec fn spec_children(d: Seq<u8>, pos: int, cend: int, n_vert: int, st: ChildState) -> Result<
    ChildState,
    ErrorSpec,
>
    decreases cend - pos,
{
    if pos >= cend {
        Ok(st)
    } else if !Reader::child_fits(d, pos, cend) {
        Err(ErrorSpec::Other)
    } else {
        let cname = Reader::str_at(d, pos);
        let cbody = Reader::body_start(d, pos);
        let ccend = cbody + Reader::header_size(d, pos);
        if cname == "buffer".spec_bytes() {
            match spec_buffer_chunk(d, cbody, ccend, n_vert, st.buffers.len() as int) {
                Err(es) => Err(es),
                Ok(r) => spec_children(
                    d,
                    ccend,
                    cend,
                    n_vert,
                    ChildState {
                        attributes: st.attributes + r.1,
                        buffers: st.buffers.push(r.0),
                        kind: st.kind,
                    },
                ),
            }
        } else if cname == "index".spec_bytes() {
            if !(st.kind matches SliceKindSpec::Vertex) {
                Err(ErrorSpec::DoubleIndex)
            } else {
                match spec_index_chunk(d, cbody, ccend) {
                    Err(es) => Err(es),
                    Ok(k) => spec_children(
                        d,
                        ccend,
                        cend,
                        n_vert,
                        ChildState { attributes: st.attributes, buffers: st.buffers, kind: k },
                    ),
                }
            }
        } else {
            Err(ErrorSpec::Chunk(cname))
        }
    }
}

/// The whole mesh chunk grammar: the next chunk under a cursor at `p`
/// bounded by `end`, decoded completely. `load` returns exactly this —
/// the mesh on `Ok`, the matching error otherwise.
pub open spec fn spec_mesh_chunk(d: Seq<u8>, p: int, end: int) -> Result<MeshSpec, ErrorSpec> {
    if !Reader::child_fits(d, p, end) {
        Err(ErrorSpec::Other)
    } else {
        let tag = Reader::str_at(d, p);
        let q0 = Reader::body_start(d, p);
        let cend = q0 + Reader::header_size(d, p);
        if tag != "mesh".spec_bytes() {
            Err(ErrorSpec::Signature(tag))
        } else if !Reader::str_fits(d, q0, cend) {
            Err(ErrorSpec::Other)
        } else {
            let name = Reader::str_at(d, q0);
            let q1 = q0 + 1 + d[q0];
            if q1 + 4 > cend {
                Err(ErrorSpec::Other)
            } else {
                let n = chunk::spec_le32(d.subrange(q1, q1 + 4));
                if !Reader::str_fits(d, q1 + 4, cend) {
                    Err(ErrorSpec::Other)
                } else {
                    let topo = Reader::str_at(d, q1 + 4);
                    match spec_parse_topology(topo) {
                        Option::None => Err(ErrorSpec::Topology(topo)),
                        Option::Some(pt) => {
                            let q3 = q1 + 5 + d[q1 + 4];
                            match spec_children(
                                d,
                                q3,
                                cend,
                                n,
                                ChildState {
                                    attributes: Seq::empty(),
                                    buffers: Seq::empty(),
                                    kind: SliceKindSpec::Vertex,
                                },
                            ) {
                                Err(es) => Err(es),
                                Ok(st) => Ok(
                                    MeshSpec {
                                        name,
                                        vertex_count: n,
                                        prim: pt,
                                        attributes: st.attributes,
                                        buffers: st.buffers,
                                        kind: st.kind,
                                    },
                                ),
                            }
                        },
                    }
                }
            }
        }
    }
}

proof fn lemma_attrs_view_push(s: Seq<Attribute>, a: Attribute)
    ensures
        attrs_view(s.push(a)) == attrs_view(s).push(attr_view(a)),
{
    assert(attrs_view(s.push(a)) =~= attrs_view(s).push(attr_view(a)));
}

proof fn lemma_buffers_view_push(s: Seq<RawBuffer>, b: RawBuffer)
    ensures
        buffers_view(s.push(b)) == buffers_view(s).push(buffer_view(b)),
{
    assert(buffers_view(s.push(b)) =~= buffers_view(s).push(buffer_view(b)));
}

/// Decodes one "index" chunk body: entry count, a one-byte format
/// character tagging the index width, then the raw index bytes — exactly
/// as `spec_index_chunk` reads them.
fn decode_index(cbuf: &mut Reader) -> (r: Result<SliceKind, Error>)
    requires
        old(cbuf).wf(),
    ensures
        final(cbuf).wf(),
        final(cbuf).same_frame(old(cbuf)),
        match r {
            Ok(k) => !(k matches SliceKind::Vertex) && spec_index_chunk(
                old(cbuf).data@,
                old(cbuf).pos as int,
                old(cbuf).end as int,
            ) == Ok::<SliceKindSpec, ErrorSpec>(kind_view(k)),
            Err(e) => match spec_index_chunk(
                old(cbuf).data@,
                old(cbuf).pos as int,
                old(cbuf).end as int,
            ) {
                Err(es) => err_matches(e, es),
                Ok(_) => false,
            },
        },
{
    let n_ind = match cbuf.read_u32() {
        Ok(v) => v,
        Err(_) => {
            return Err(Error::Other);
        },
    };
    let format = match cbuf.read_u8() {
        Ok(b) => b,
        Err(_) => {
            return Err(Error::Other);
        },
    };
    let rem = cbuf.remaining();
    match format {
        66u8 => {
            let need: u64 = n_ind as u64;
            if need > rem as u64 {
                return Err(Error::Other);
            }
            let data = match cbuf.read_bytes(need as usize) {
                Ok(d) => d,
                Err(_) => {
                    return Err(Error::Other);
                },
            };
            Ok(SliceKind::Index8(slice_to_vec(data)))
        },
        72u8 => {
            let need: u64 = n_ind as u64 * 2;
            if need > rem as u64 {
                return Err(Error::Other);
            }
            let data = match cbuf.read_bytes(need as usize) {
                Ok(d) => d,
                Err(_) => {
                    return Err(Error::Other);
                },
            };
            Ok(SliceKind::Index16(slice_to_vec(data)))
        },
        76u8 => {
            let need: u64 = n_ind as u64 * 4;
            if need > rem as u64 {
                return Err(Error::Other);
            }
            let data = match cbuf.read_bytes(need as usize) {
                Ok(d) => d,
                Err(_) => {
                    return Err(Error::Other);
                },
            };
            Ok(SliceKind::Index32(slice_to_vec(data)))
        },
        _ => Err(Error::IndexType(format as char)),
    }
}

/// Decodes one "buffer" chunk body — exactly as `spec_buffer_chunk`
/// reads it: the record stride, a format string of two-character element
/// codes (count digit `1`-`9`, type character), a name and flag byte for
/// each code, and finally the raw vertex bytes. The accumulated
/// attribute sizes must equal the declared stride exactly.
fn decode_buffer(cbuf: &mut Reader, n_vert: u32, mesh: &mut Mesh) -> (r: Result<(), Error>)
    requires
        old(cbuf).wf(),
        old(mesh).wf(),
        old(mesh).vertex_count == n_vert,
    ensures
        final(cbuf).wf(),
        final(cbuf).same_frame(old(cbuf)),
        final(mesh).vertex_count == n_vert,
        old(mesh).buffers@.len() <= final(mesh).buffers@.len(),
        old(mesh).attributes@.len() <= final(mesh).attributes@.len(),
        forall|i: int|
            0 <= i < old(mesh).buffers@.len() ==> final(mesh).buffers@[i] == old(
                mesh,
            ).buffers@[i],
        forall|i: int|
            0 <= i < old(mesh).attributes@.len() ==> final(mesh).attributes@[i] == old(
                mesh,
            ).attributes@[i],
        match r {
            Ok(()) => {
                &&& final(mesh).wf()
                &&& final(mesh).buffers@.len() == old(mesh).buffers@.len() + 1
                &&& spec_buffer_chunk(
                    old(cbuf).data@,
                    old(cbuf).pos as int,
                    old(cbuf).end as int,
                    n_vert as int,
                    old(mesh).buffers@.len() as int,
                ) == Ok::<(BufferSpec, Seq<AttributeSpec>), ErrorSpec>(
                    (
                        buffer_view(final(mesh).buffers@.last()),
                        attrs_view(
                            final(mesh).attributes@.subrange(
                                old(mesh).attributes@.len() as int,
                                final(mesh).attributes@.len() as int,
                            ),
                        ),
                    ),
                )
            },
            Err(e) => match spec_buffer_chunk(
                old(cbuf).data@,
                old(cbuf).pos as int,
                old(cbuf).end as int,
                n_vert as int,
                old(mesh).buffers@.len() as int,
            ) {
                Err(es) => err_matches(e, es),
                Ok(_) => false,
            },
        },
{
    let ghost d = old(cbuf).data@;
    let ghost p0 = old(cbuf).pos as int;
    let ghost cendg = old(cbuf).end as int;
    let stride = match cbuf.read_u8() {
        Ok(b) => b,
        Err(_) => {
            return Err(Error::Other);
        },
    };
    let format = match cbuf.read_str() {
        Ok(b) => b,
        Err(_) => {
            return Err(Error::Other);
        },
    };
    let ghost fmtg = format@;
    let flen = format.len();
    if flen % 2 == 1 {
        return Err(Error::Other);
    }
    let pairs = flen / 2;
    let mut v: usize = 0;
    while v < pairs
        invariant
            cbuf.wf(),
            cbuf.same_frame(old(cbuf)),
            d == old(cbuf).data@,
            p0 == old(cbuf).pos as int,
            cendg == old(cbuf).end as int,
            p0 + 1 <= cendg,
            stride == d[p0],
            Reader::str_fits(d, p0 + 1, cendg),
            fmtg == format@,
            fmtg == Reader::str_at(d, p0 + 1),
            flen == fmtg.len(),
            flen % 2 == 0,
            pairs == flen / 2,
            v <= pairs,
            forall|j: int| 0 <= j < v ==> 49 <= #[trigger] fmtg[2 * j] <= 57,
            *mesh == *old(mesh),
            mesh.vertex_count == n_vert,
        decreases pairs - v,
    {
        let c = format[2 * v];
        if c < 49 || c > 57 {
            proof {
                assert(!format_ok(fmtg));
            }
            return Err(Error::Other);
        }
        v += 1;
    }
    proof {
        assert(format_ok(fmtg));
    }
    let bi = mesh.buffers.len();
    let ghost old_attrs = mesh.attributes@;
    let ghost estart = cbuf.pos as int;
    proof {
        lemma_sum_absent(old_attrs, bi as int);
        assert(attrs_view(mesh.attributes@.subrange(old_attrs.len() as int, mesh.attributes@.len() as int))
            =~= Seq::<AttributeSpec>::empty());
    }
    let mut offset: u32 = 0;
    let mut k: usize = 0;
    while k < pairs
        invariant
            cbuf.wf(),
            cbuf.same_frame(old(cbuf)),
            d == old(cbuf).data@,
            p0 == old(cbuf).pos as int,
            cendg == old(cbuf).end as int,
            p0 + 1 <= cendg,
            stride == d[p0],
            Reader::str_fits(d, p0 + 1, cendg),
            fmtg == format@,
            fmtg == Reader::str_at(d, p0 + 1),
            format_ok(fmtg),
            pairs == fmtg.len() / 2,
            pairs <= 127,
            estart == p0 + 2 + d[p0 + 1],
            k <= pairs,
            bi == old(mesh).buffers@.len(),
            mesh.buffers@ == old(mesh).buffers@,
            mesh.vertex_count == n_vert,
            old(mesh).wf(),
            old_attrs == old(mesh).attributes@,
            old_attrs.len() <= mesh.attributes@.len(),
            forall|i: int| 0 <= i < old_attrs.len() ==> mesh.attributes@[i] == old_attrs[i],
            forall|i: int|
                old_attrs.len() <= i < mesh.attributes@.len() ==> (
                #[trigger] mesh.attributes@[i]).buffer == bi && mesh.attributes@[i].stride
                    == stride,
            forall|b: int|
                0 <= b < old(mesh).buffers@.len() ==> sum_sizes(mesh.attributes@, b) == sum_sizes(
                    old_attrs,
                    b,
                ),
            sum_sizes(mesh.attributes@, bi as int) == offset,
            offset <= 72 * k,
            spec_buffer_elems(d, estart, cendg, fmtg, 0, bi as int, stride, 0) == combine_elems(
                attrs_view(
                    mesh.attributes@.subrange(old_attrs.len() as int, mesh.attributes@.len() as int),
                ),
                spec_buffer_elems(
                    d,
                    cbuf.pos as int,
                    cendg,
                    fmtg,
                    k as int,
                    bi as int,
                    stride,
                    offset as int,
                ),
            ),
        decreases pairs - k,
    {
        let ghost pos_k = cbuf.pos as int;
        let ghost off_k = offset as int;
        let ghost suffix_old = mesh.attributes@.subrange(
            old_attrs.len() as int,
            mesh.attributes@.len() as int,
        );
        let c0 = format[2 * k];
        let c1 = format[2 * k + 1];
        proof {
            assert(49 <= fmtg[2 * (k as int)] <= 57);
        }
        let el_count: u8 = c0 - 48;
        let name = match cbuf.read_str() {
            Ok(b) => b,
            Err(_) => {
                proof {
                    assert(spec_buffer_elems(d, pos_k, cendg, fmtg, k as int, bi as int, stride, off_k)
                        == Err::<(Seq<AttributeSpec>, int, int), ErrorSpec>(ErrorSpec::Other));
                }
                return Err(Error::Other);
            },
        };
        let flags = match cbuf.read_u8() {
            Ok(b) => b,
            Err(_) => {
                proof {
                    assert(spec_buffer_elems(d, pos_k, cendg, fmtg, k as int, bi as int, stride, off_k)
                        == Err::<(Seq<AttributeSpec>, int, int), ErrorSpec>(ErrorSpec::Other));
                }
                return Err(Error::Other);
            },
        };
        let normalized = flags & 1;
        let type_char = c1 as char;
        let el_type = match parse_type(type_char, normalized) {
            Ok(t) => t,
            Err(()) => {
                proof {
                    assert(spec_buffer_elems(d, pos_k, cendg, fmtg, k as int, bi as int, stride, off_k)
                        == Err::<(Seq<AttributeSpec>, int, int), ErrorSpec>(
                        ErrorSpec::AttribType(type_char, flags),
                    ));
                }
                return Err(Error::AttribType(type_char, flags));
            },
        };
        let a = Attribute {
            name: slice_to_vec(name),
            buffer: bi,
            elem_count: el_count,
            elem_type: el_type,
            offset,
            stride,
            instance_rate: 0,
        };
        let sz: u32 = el_type.get_size() as u32;
        proof {
            assert((el_count as u32) * sz <= 72) by (nonlinear_arith)
                requires
                    el_count <= 9u8,
                    sz <= 8u32,
            ;
            lemma_sum_push(mesh.attributes@, a, bi as int);
            assert forall|b: int| 0 <= b < old(mesh).buffers@.len() implies sum_sizes(
                mesh.attributes@.push(a),
                b,
            ) == sum_sizes(old_attrs, b) by {
                lemma_sum_push(mesh.attributes@, a, b);
            }
            // the specification reads the same attribute here
            assert(spec_buffer_elems(d, pos_k, cendg, fmtg, k as int, bi as int, stride, off_k)
                == (match spec_buffer_elems(
                d,
                cbuf.pos as int,
                cendg,
                fmtg,
                k as int + 1,
                bi as int,
                stride,
                off_k + (el_count as int) * spec_size(el_type),
            ) {
                Ok(rest) => Ok::<(Seq<AttributeSpec>, int, int), ErrorSpec>(
                    (seq![attr_view(a)] + rest.0, rest.1, rest.2),
                ),
                Err(es) => Err::<(Seq<AttributeSpec>, int, int), ErrorSpec>(es),
            }));
            let inner = spec_buffer_elems(
                d,
                cbuf.pos as int,
                cendg,
                fmtg,
                k as int + 1,
                bi as int,
                stride,
                off_k + (el_count as int) * spec_size(el_type),
            );
            if inner is Ok {
                assert(attrs_view(suffix_old) + (seq![attr_view(a)] + inner->Ok_0.0)
                    =~= attrs_view(suffix_old).push(attr_view(a)) + inner->Ok_0.0);
            }
            assert(combine_elems(attrs_view(suffix_old), spec_buffer_elems(d, pos_k, cendg, fmtg, k as int, bi as int, stride, off_k))
                == combine_elems(attrs_view(suffix_old).push(attr_view(a)), inner));
        }
        mesh.attributes.push(a);
        proof {
            assert(mesh.attributes@.subrange(old_attrs.len() as int, mesh.attributes@.len() as int)
                =~= suffix_old.push(a));
            lemma_attrs_view_push(suffix_old, a);
        }
        offset = offset + (el_count as u32) * sz;
        k += 1;
    }
    let ghost suffix = mesh.attributes@.subrange(old_attrs.len() as int, mesh.attributes@.len() as int);
    proof {
        // the element list is exhausted: the walk so far is the whole list
        assert(spec_buffer_elems(d, cbuf.pos as int, cendg, fmtg, k as int, bi as int, stride, offset as int)
            == Ok::<(Seq<AttributeSpec>, int, int), ErrorSpec>((Seq::empty(), cbuf.pos as int, offset as int)));
        assert(attrs_view(suffix) + Seq::<AttributeSpec>::empty() =~= attrs_view(suffix));
        assert(spec_buffer_elems(d, estart, cendg, fmtg, 0, bi as int, stride, 0)
            == Ok::<(Seq<AttributeSpec>, int, int), ErrorSpec>((attrs_view(suffix), cbuf.pos as int, offset as int)));
    }
    if offset != stride as u32 {
        return Err(Error::Stride(offset));
    }
    proof {
        assert((n_vert as int) * (stride as int) <= 0xFFFF_FFFF * 255) by (nonlinear_arith)
            requires
                n_vert <= 0xFFFF_FFFFu32,
                stride <= 255u8,
        ;
    }
    let need: u64 = (n_vert as u64) * (stride as u64);
    let rem = cbuf.remaining();
    if need > rem as u64 {
        return Err(Error::Other);
    }
    let data = match cbuf.read_bytes(need as usize) {
        Ok(b) => b,
        Err(_) => {
            return Err(Error::Other);
        },
    };
    let buf = RawBuffer { stride, data: slice_to_vec(data) };
    mesh.buffers.push(buf);
    proof {
        let m = mesh;
        let ob = old(mesh).buffers@;
        assert forall|b: int| 0 <= b < m.buffers@.len() implies sum_sizes(m.attributes@, b) == (
        m.buffers@[b]).stride by {
            if b < ob.len() {
                assert(m.buffers@[b] == ob[b]);
                assert(sum_sizes(m.attributes@, b) == sum_sizes(old_attrs, b));
            } else {
                assert(b == bi);
            }
        }
        assert(m.buffers@.last().data@.len() == n_vert * stride);
        assert forall|i: int| 0 <= i < m.attributes@.len() implies (
        #[trigger] m.attributes@[i]).buffer < m.buffers@.len() && m.attributes@[i].stride
            == m.buffers@[m.attributes@[i].buffer as int].stride by {
            if i < old_attrs.len() {
                assert(m.attributes@[i] == old_attrs[i]);
                assert(old(mesh).wf());
                assert(old_attrs[i].buffer < ob.len());
                assert(m.buffers@[old_attrs[i].buffer as int] == ob[old_attrs[i].buffer as int]);
            } else {
                assert(m.attributes@[i].buffer == bi);
            }
        }
        assert(buffer_view(mesh.buffers@.last()).data == d.subrange(
            cbuf.pos - n_vert as int * stride as int,
            cbuf.pos as int,
        ));
    }
    Ok(())
}

/// Decodes one mesh chunk positioned next under `reader`, returning
/// exactly what the grammar (`spec_mesh_chunk`) says the bytes hold: on
/// `Ok` the mesh name, the well-formed mesh (`Mesh::wf`: in every buffer
/// the attribute sizes sum exactly to the declared stride) and the slice
/// drawing all of it; otherwise the error the grammar assigns — a bad
/// tag is `Signature`, an unknown topology `Topology`, a stride mismatch
/// `Stride` with the accumulated size, a second index chunk
/// `DoubleIndex`, a bad index format `IndexType`, an unknown child name
/// `Chunk`, and a field overrunning a boundary `Other`.
pub fn load<'a>(reader: &mut Reader<'a>) -> (r: Result<(Vec<u8>, Success), Error>)
    requires
        old(reader).wf(),
    ensures
        final(reader).wf(),
        final(reader).same_frame(old(reader)),
        match r {
            Ok(out) => {
                &&& out.1.0.wf()
                &&& out.1.1.start == 0
                &&& out.1.1.end == out.1.0.vertex_count
                &&& spec_mesh_chunk(old(reader).data@, old(reader).pos as int, old(reader).end as int)
                    == Ok::<MeshSpec, ErrorSpec>(mesh_view(out.0, out.1.0, out.1.1))
            },
            Err(e) => match spec_mesh_chunk(
                old(reader).data@,
                old(reader).pos as int,
                old(reader).end as int,
            ) {
                Err(es) => err_matches(e, es),
                Ok(_) => false,
            },
        },
{
    let ghost d = old(reader).data@;
    let ghost p = old(reader).pos as int;
    let ghost endg = old(reader).end as int;
    let mut cmesh = match reader.enter() {
        Ok(c) => c,
        Err(_) => {
            return Err(Error::Other);
        },
    };
    let ghost cendg = cmesh.end as int;
    if !chunk::tag_eq(cmesh.get_name().as_slice(), "mesh") {
        return Err(Error::Signature(chunk::copy_bytes(cmesh.get_name())));
    }
    let mesh_name = match cmesh.read_str() {
        Ok(b) => slice_to_vec(b),
        Err(_) => {
            return Err(Error::Other);
        },
    };
    let n_vert = match cmesh.read_u32() {
        Ok(v) => v,
        Err(_) => {
            return Err(Error::Other);
        },
    };
    let top_code = match cmesh.read_str() {
        Ok(b) => b,
        Err(_) => {
            return Err(Error::Other);
        },
    };
    let prim_type = match parse_topology(top_code) {
        Some(pt) => pt,
        None => {
            return Err(Error::Topology(slice_to_vec(top_code)));
        },
    };
    let mut mesh = Mesh::new(n_vert);
    let mut kind = SliceKind::Vertex;
    proof {
        assert(attrs_view(mesh.attributes@) =~= Seq::<AttributeSpec>::empty());
        assert(buffers_view(mesh.buffers@) =~= Seq::<BufferSpec>::empty());
    }
    while cmesh.has_more()
        invariant
            cmesh.wf(),
            mesh.wf(),
            mesh.vertex_count == n_vert,
            reader.wf(),
            reader.same_frame(old(reader)),
            d == old(reader).data@,
            p == old(reader).pos as int,
            endg == old(reader).end as int,
            cendg == cmesh.end as int,
            cmesh.data@ == d,
            spec_mesh_chunk(d, p, endg) == (match spec_children(
                d,
                cmesh.pos as int,
                cendg,
                n_vert as int,
                (ChildState {
                    attributes: attrs_view(mesh.attributes@),
                    buffers: buffers_view(mesh.buffers@),
                    kind: kind_view(kind),
                }),
            ) {
                Ok(st) => Ok::<MeshSpec, ErrorSpec>(
                    (MeshSpec {
                        name: mesh_name@,
                        vertex_count: n_vert as int,
                        prim: prim_type,
                        attributes: st.attributes,
                        buffers: st.buffers,
                        kind: st.kind,
                    }),
                ),
                Err(es) => Err::<MeshSpec, ErrorSpec>(es),
            }),
        decreases cmesh.end - cmesh.pos,
    {
        let ghost pos_c = cmesh.pos as int;
        let ghost st_c = ChildState {
            attributes: attrs_view(mesh.attributes@),
            buffers: buffers_view(mesh.buffers@),
            kind: kind_view(kind),
        };
        let mut cbuf = match cmesh.enter() {
            Ok(c) => c,
            Err(_) => {
                return Err(Error::Other);
            },
        };
        let is_buffer = chunk::tag_eq(cbuf.get_name().as_slice(), "buffer");
        let is_index = chunk::tag_eq(cbuf.get_name().as_slice(), "index");
        if is_buffer {
            let ghost old_m = mesh;
            match decode_buffer(&mut cbuf, n_vert, &mut mesh) {
                Ok(()) => {
                    proof {
                        let suffix = mesh.attributes@.subrange(
                            old_m.attributes@.len() as int,
                            mesh.attributes@.len() as int,
                        );
                        assert(mesh.attributes@ =~= old_m.attributes@ + suffix);
                        assert(attrs_view(old_m.attributes@ + suffix) =~= attrs_view(
                            old_m.attributes@,
                        ) + attrs_view(suffix));
                        assert(mesh.buffers@ =~= old_m.buffers@.push(mesh.buffers@.last()));
                        lemma_buffers_view_push(old_m.buffers@, mesh.buffers@.last());
                        assert(st_c.buffers.len() == old_m.buffers@.len());
                        assert(spec_children(d, pos_c, cendg, n_vert as int, st_c)
                            == spec_children(
                            d,
                            cmesh.pos as int,
                            cendg,
                            n_vert as int,
                            (ChildState {
                                attributes: attrs_view(mesh.attributes@),
                                buffers: buffers_view(mesh.buffers@),
                                kind: kind_view(kind),
                            }),
                        ));
                    }
                },
                Err(e) => {
                    return Err(e);
                },
            }
        } else if is_index {
            if !kind.is_vertex() {
                return Err(Error::DoubleIndex);
            }
            match decode_index(&mut cbuf) {
                Ok(k2) => {
                    kind = k2;
                    proof {
                        assert(spec_children(d, pos_c, cendg, n_vert as int, st_c)
                            == spec_children(
                            d,
                            cmesh.pos as int,
                            cendg,
                            n_vert as int,
                            (ChildState {
                                attributes: attrs_view(mesh.attributes@),
                                buffers: buffers_view(mesh.buffers@),
                                kind: kind_view(kind),
                            }),
                        ));
                    }
                },
                Err(e) => {
                    return Err(e);
                },
            }
        } else {
            return Err(Error::Chunk(chunk::copy_bytes(cbuf.get_name())));
        }
    }
    let slice = Slice { start: 0, end: n_vert, prim_type, kind };
    proof {
        assert(spec_mesh_chunk(d, p, endg) == Ok::<MeshSpec, ErrorSpec>(
            mesh_view(mesh_name, mesh, slice),
        ));
    }
    Ok((mesh_name, (mesh, slice)))
}

} // verus!
