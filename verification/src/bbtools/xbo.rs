//! Models (XBO): a root node and one node per mesh, each mesh with its
//! vertices and its indices. This reads a model's layout: the nodes, the
//! raw vertex values and the floats as their bits. Scaling, normalising and
//! the glTF export work on that layout in floating point.
use vstd::prelude::*;

use crate::bbtools::{slice_end, FileSlice};
use crate::bytes::{copy_range, le16, le32, read_i16_le, read_u16_le, read_u32_le};

verus! {

// Not real magic values, but every file has them.
pub const XBO_MAGIC0: [u8; 4] = [0x50, 0, 0, 0];  // @0x00

pub const XBO_MAGIC1: [u8; 4] = [0x08, 0, 0, 0];  // @0x58

pub const XBO_MAGIC2: [u8; 4] = [0x18, 0, 0, 0];  // @0x5C

pub const VERTEX_ATTRIBUTE_POSITION: u32 = 0x0002;

pub const VERTEX_ATTRIBUTE_NORMAL: u32 = 0x0010;

pub const VERTEX_ATTRIBUTE_COLOR: u32 = 0x0040;

pub const VERTEX_ATTRIBUTE_UV: u32 = 0x0100;

/// Bytes of the joint and weight that precede each exported vertex.
pub const JOINT_SIZE: usize = 8;

/// How a mesh's vertices form primitives (Direct3D's primitive types 1 to 7).
#[derive(PartialEq, Eq, Structural, Clone, Copy, Debug)]
pub enum PrimitiveMode {
    Points,
    Lines,
    LineLoop,
    LineStrip,
    Triangles,
    TriangleStrip,
    TriangleFan,
}

pub open spec fn spec_primitive_mode(d3d: u16) -> Option<PrimitiveMode> {
    match d3d {
        1 => Some(PrimitiveMode::Points),
        2 => Some(PrimitiveMode::Lines),
        3 => Some(PrimitiveMode::LineLoop),
        4 => Some(PrimitiveMode::LineStrip),
        5 => Some(PrimitiveMode::Triangles),
        6 => Some(PrimitiveMode::TriangleStrip),
        7 => Some(PrimitiveMode::TriangleFan),
        _ => None,
    }
}

/// The value of the Xbox `D3DPRIMITIVETYPE` that draws in mode `m`:
/// point list 1, line list 2, line loop 3, line strip 4, triangle list 5,
/// triangle strip 6, triangle fan 7.
pub open spec fn d3d_primitive_type(m: PrimitiveMode) -> u16 {
    match m {
        PrimitiveMode::Points => 1,
        PrimitiveMode::Lines => 2,
        PrimitiveMode::LineLoop => 3,
        PrimitiveMode::LineStrip => 4,
        PrimitiveMode::Triangles => 5,
        PrimitiveMode::TriangleStrip => 6,
        PrimitiveMode::TriangleFan => 7,
    }
}

/// Every primitive type from 1 to 7 has a mode and no other has; the mode
/// of a type is the one that the type names, so distinct types give
/// distinct modes.
pub proof fn lemma_primitive_modes(a: u16, b: u16)
    ensures
        spec_primitive_mode(a) is Some <==> 1 <= a <= 7,
        spec_primitive_mode(a) matches Some(m) ==> d3d_primitive_type(m) == a,
        spec_primitive_mode(a) is Some && a != b ==> spec_primitive_mode(a) != spec_primitive_mode(b),
{
}

/// The mode of a Direct3D primitive type, or `None` for an unsupported one.
pub fn primitive_mode(d3d: u16) -> (r: Option<PrimitiveMode>)
    ensures
        r == spec_primitive_mode(d3d),
        r is Some <==> 1 <= d3d <= 7,
        r matches Some(m) ==> d3d_primitive_type(m) == d3d,
{
    match d3d {
        1 => Some(PrimitiveMode::Points),
        2 => Some(PrimitiveMode::Lines),
        3 => Some(PrimitiveMode::LineLoop),
        4 => Some(PrimitiveMode::LineStrip),
        5 => Some(PrimitiveMode::Triangles),
        6 => Some(PrimitiveMode::TriangleStrip),
        7 => Some(PrimitiveMode::TriangleFan),
        _ => None,
    }
}

/// A vertex position as stored: three `f32` values (kept as their bits) or
/// three `i16` values. Either is multiplied by the model's scale.
#[derive(Clone, Copy, Debug, PartialEq, Eq)]
pub enum RawPosition {
    Float(u32, u32, u32),
    Short(i16, i16, i16),
}

/// A vertex as stored. The normal is normalised on export, the texture
/// coordinates are divided by `i16::MAX`; the color is already in RGBA order.
#[derive(Clone, Copy, Debug, PartialEq, Eq)]
pub struct RawVertex {
    pub position: Option<RawPosition>,
    pub normal: Option<(i16, i16, i16)>,
    pub color: Option<(u8, u8, u8, u8)>,
    pub uv: Option<(i16, i16)>,
}

pub open spec fn has_attr(attrs: u32, flag: u32) -> bool {
    attrs & flag == flag
}

fn has_attr_exec(attrs: u32, flag: u32) -> (r: bool)
    ensures
        r == has_attr(attrs, flag),
{
    attrs & flag == flag
}

/// Bytes of a vertex after its position: normal (6), color (4) and
/// texture coordinates (4), as present.
pub open spec fn tail_size(attrs: u32) -> int {
    (if has_attr(attrs, VERTEX_ATTRIBUTE_NORMAL) {
        6int
    } else {
        0int
    }) + (if has_attr(attrs, VERTEX_ATTRIBUTE_COLOR) {
        4int
    } else {
        0int
    }) + (if has_attr(attrs, VERTEX_ATTRIBUTE_UV) {
        4int
    } else {
        0int
    })
}

/// Bytes of the position: what the stride leaves after the rest, when
/// there is a position.
pub open spec fn position_len(attrs: u32, stride: int) -> int {
    if has_attr(attrs, VERTEX_ATTRIBUTE_POSITION) {
        stride - tail_size(attrs)
    } else {
        0
    }
}

/// The vertex layout can be read: a position takes 6 or 12 bytes, and the
/// parts fit in the stride.
pub open spec fn layout_ok(attrs: u32, stride: int) -> bool {
    if has_attr(attrs, VERTEX_ATTRIBUTE_POSITION) {
        position_len(attrs, stride) == 6 || position_len(attrs, stride) == 12
    } else {
        tail_size(attrs) <= stride
    }
}

pub open spec fn i16_at(b: Seq<u8>, p: int) -> i16 {
    (le16(b, p) as u16) as i16
}

/// The vertex stored at `p` of `b`.
pub open spec fn vertex_at(b: Seq<u8>, p: int, attrs: u32, stride: int) -> RawVertex {
    let pl = position_len(attrs, stride);
    let pn = p + pl;
    let pc = pn + if has_attr(attrs, VERTEX_ATTRIBUTE_NORMAL) {
        6int
    } else {
        0int
    };
    let pu = pc + if has_attr(attrs, VERTEX_ATTRIBUTE_COLOR) {
        4int
    } else {
        0int
    };
    RawVertex {
        position: if !has_attr(attrs, VERTEX_ATTRIBUTE_POSITION) {
            None
        } else if pl == 12 {
            Some(RawPosition::Float(le32(b, p) as u32, le32(b, p + 4) as u32, le32(b, p + 8) as u32))
        } else {
            Some(RawPosition::Short(i16_at(b, p), i16_at(b, p + 2), i16_at(b, p + 4)))
        },
        normal: if has_attr(attrs, VERTEX_ATTRIBUTE_NORMAL) {
            Some((i16_at(b, pn), i16_at(b, pn + 2), i16_at(b, pn + 4)))
        } else {
            None
        },
        color: if has_attr(attrs, VERTEX_ATTRIBUTE_COLOR) {
            Some((b[pc + 2], b[pc + 1], b[pc], b[pc + 3]))
        } else {
            None
        },
        uv: if has_attr(attrs, VERTEX_ATTRIBUTE_UV) {
            Some((i16_at(b, pu), i16_at(b, pu + 2)))
        } else {
            None
        },
    }
}

/// Reads the vertex at `p`.
fn read_vertex(b: &[u8], p: usize, attrs: u32, stride: usize) -> (r: RawVertex)
    requires
        layout_ok(attrs, stride as int),
        p + stride <= b@.len(),
    ensures
        r == vertex_at(b@, p as int, attrs, stride as int),
{
    let has_pos = has_attr_exec(attrs, VERTEX_ATTRIBUTE_POSITION);
    let has_normal = has_attr_exec(attrs, VERTEX_ATTRIBUTE_NORMAL);
    let has_color = has_attr_exec(attrs, VERTEX_ATTRIBUTE_COLOR);
    let has_uv = has_attr_exec(attrs, VERTEX_ATTRIBUTE_UV);
    let tail: usize = (if has_normal { 6 } else { 0 }) + (if has_color { 4 } else { 0 }) + (if has_uv {
        4
    } else {
        0
    });
    assert(tail == tail_size(attrs));
    let n: usize = b.len();
    let pl: usize = if has_pos {
        stride - tail
    } else {
        0
    };
    assert(pl == position_len(attrs, stride as int));
    assert(pl + tail <= stride);
    let pn: usize = p + pl;
    let pc: usize = pn + if has_normal { 6 } else { 0 };
    let pu: usize = pc + if has_color { 4 } else { 0 };
    assert(pu + (if has_uv { 4usize } else { 0usize }) <= p + stride);
    let position = if has_pos {
        if pl == 12 {
            Some(RawPosition::Float(read_u32_le(b, p), read_u32_le(b, p + 4), read_u32_le(b, p + 8)))
        } else {
            Some(RawPosition::Short(read_i16_le(b, p), read_i16_le(b, p + 2), read_i16_le(b, p + 4)))
        }
    } else {
        None
    };
    let normal = if has_normal {
        Some((read_i16_le(b, pn), read_i16_le(b, pn + 2), read_i16_le(b, pn + 4)))
    } else {
        None
    };
    let color = if has_color {
        Some((b[pc + 2], b[pc + 1], b[pc], b[pc + 3]))
    } else {
        None
    };
    let uv = if has_uv {
        Some((read_i16_le(b, pu), read_i16_le(b, pu + 2)))
    } else {
        None
    };
    RawVertex { position, normal, color, uv }
}

/// The bytes a vertex takes when exported: joint and weight, then the
/// position (3 `f32`), normal (3 `f32`), color (4 bytes) and texture
/// coordinates (2 `f32`) that it has.
pub open spec fn spec_stride_size(v: RawVertex) -> nat {
    (JOINT_SIZE + (if v.position is Some {
        12int
    } else {
        0int
    }) + (if v.normal is Some {
        12int
    } else {
        0int
    }) + (if v.color is Some {
        4int
    } else {
        0int
    }) + (if v.uv is Some {
        8int
    } else {
        0int
    })) as nat
}

impl RawVertex {
    /// The bytes this vertex takes when exported (see `spec_stride_size`).
    pub fn stride_size(&self) -> (r: usize)
        ensures
            r == spec_stride_size(*self),
    {
        let mut stride: usize = JOINT_SIZE;
        if self.position.is_some() {
            stride = stride + 12;
        }
        if self.normal.is_some() {
            stride = stride + 12;
        }
        if self.color.is_some() {
            stride = stride + 4;
        }
        if self.uv.is_some() {
            stride = stride + 8;
        }
        stride
    }
}

/// A mesh: its node's transform (as `f32` bits), its primitives, its
/// vertices and its indices.
pub struct MeshXBO {
    pub index: usize,
    pub primative_mode: PrimitiveMode,
    pub position_bits: (u32, u32, u32),
    pub rotation_bits: (u32, u32, u32),
    pub triangle_count: u16,
    pub vertices: Vec<RawVertex>,
    pub indices: Vec<u16>,
}

pub open spec fn mesh_attrs(b: Seq<u8>) -> u32 {
    le32(b, 24) as u32
}

pub open spec fn mesh_header_size(b: Seq<u8>) -> nat {
    le16(b, 36)
}

pub open spec fn mesh_data_size(b: Seq<u8>) -> nat {
    le32(b, 28)
}

pub open spec fn mesh_vertex_count(b: Seq<u8>) -> nat {
    le16(b, 40)
}

pub open spec fn mesh_stride(b: Seq<u8>) -> nat {
    b[44] as nat
}

/// A mesh given as bytes can be read: a 48-byte header with a supported
/// primitive type, header and vertex data that make up the mesh, whole
/// vertices of a readable layout.
pub open spec fn mesh_ok(b: Seq<u8>) -> bool {
    &&& b.len() >= 48
    &&& spec_primitive_mode(le16(b, 32) as u16) is Some
    &&& b.len() == mesh_header_size(b) + mesh_data_size(b)
    &&& mesh_data_size(b) == mesh_stride(b) * mesh_vertex_count(b)
    &&& mesh_stride(b) > 0
    &&& layout_ok(mesh_attrs(b), mesh_stride(b) as int)
}

/// `m` is mesh `index` read from the bytes `b`, with the indices `idx`.
pub open spec fn mesh_matches(m: MeshXBO, index: int, b: Seq<u8>, idx: Seq<u16>) -> bool {
    &&& m.index == index
    &&& Some(m.primative_mode) == spec_primitive_mode(le16(b, 32) as u16)
    &&& m.position_bits == (le32(b, 0) as u32, le32(b, 4) as u32, le32(b, 8) as u32)
    &&& m.rotation_bits == (le32(b, 12) as u32, le32(b, 16) as u32, le32(b, 20) as u32)
    &&& m.triangle_count == le16(b, 38)
    &&& m.indices@ == idx
    &&& m.vertices@.len() == mesh_vertex_count(b)
    &&& forall|k: int|
        0 <= k < mesh_vertex_count(b) ==> #[trigger] m.vertices@[k] == vertex_at(
            b,
            mesh_header_size(b) + k * mesh_stride(b),
            mesh_attrs(b),
            mesh_stride(b) as int,
        )
}

proof fn lemma_vertex_fits(k: int, count: int, stride: int)
    requires
        0 <= k < count,
        0 <= stride,
    ensures
        k * stride + stride <= count * stride,
        0 <= k * stride,
{
    assert(k * stride + stride <= count * stride) by (nonlinear_arith)
        requires
            0 <= k < count,
            0 <= stride,
    ;
    assert(0 <= k * stride) by (nonlinear_arith)
        requires
            0 <= k,
            0 <= stride,
    ;
}

impl MeshXBO {
    /// Reads mesh `index` from its bytes, with its indices; `None` where
    /// the mesh cannot be read (see `mesh_ok`).
    pub fn import(index: usize, buf: &[u8], indices: Vec<u16>) -> (r: Option<Self>)
        ensures
            r is Some <==> mesh_ok(buf@),
            r matches Some(m) ==> mesh_matches(m, index as int, buf@, indices@),
    {
        let n: usize = buf.len();
        if n < 48 {
            return None;
        }
        let mode = match primitive_mode(read_u16_le(buf, 32)) {
            Some(m) => m,
            None => {
                return None;
            },
        };
        let attrs: u32 = read_u32_le(buf, 24);
        let data_size: usize = read_u32_le(buf, 28) as usize;
        let header_size: usize = read_u16_le(buf, 36) as usize;
        if data_size > n || header_size != n - data_size {
            return None;
        }
        let vertex_count: usize = read_u16_le(buf, 40) as usize;
        let stride: usize = buf[44] as usize;
        if stride == 0 {
            return None;
        }
        if data_size / stride != vertex_count || data_size % stride != 0 {
            assert(data_size != stride * vertex_count) by (nonlinear_arith)
                requires
                    stride > 0,
                    data_size / stride != vertex_count || data_size % stride != 0,
            ;
            return None;
        }
        assert(data_size == stride * vertex_count) by (nonlinear_arith)
            requires
                stride > 0,
                data_size / stride == vertex_count,
                data_size % stride == 0,
        ;
        let has_pos = has_attr_exec(attrs, VERTEX_ATTRIBUTE_POSITION);
        let tail: usize = (if has_attr_exec(attrs, VERTEX_ATTRIBUTE_NORMAL) {
            6
        } else {
            0
        }) + (if has_attr_exec(attrs, VERTEX_ATTRIBUTE_COLOR) {
            4
        } else {
            0
        }) + (if has_attr_exec(attrs, VERTEX_ATTRIBUTE_UV) {
            4
        } else {
            0
        });
        assert(tail == tail_size(attrs));
        let layout_good: bool = if has_pos {
            stride == tail + 6 || stride == tail + 12
        } else {
            tail <= stride
        };
        if !layout_good {
            return None;
        }
        let mut vertices: Vec<RawVertex> = Vec::with_capacity(vertex_count);
        let mut k: usize = 0;
        while k < vertex_count
            invariant
                k <= vertex_count,
                n == buf@.len(),
                header_size == mesh_header_size(buf@),
                stride == mesh_stride(buf@),
                vertex_count == mesh_vertex_count(buf@),
                attrs == mesh_attrs(buf@),
                layout_ok(attrs, stride as int),
                header_size + stride * vertex_count == n,
                vertices@.len() == k,
                forall|j: int|
                    0 <= j < k ==> #[trigger] vertices@[j] == vertex_at(
                        buf@,
                        header_size + j * stride,
                        attrs,
                        stride as int,
                    ),
            decreases vertex_count - k,
        {
            proof {
                lemma_vertex_fits(k as int, vertex_count as int, stride as int);
                assert(stride * vertex_count == vertex_count * stride) by (nonlinear_arith);
            }
            let p: usize = header_size + k * stride;
            vertices.push(read_vertex(buf, p, attrs, stride));
            k = k + 1;
        }
        Some(
            MeshXBO {
                index,
                primative_mode: mode,
                position_bits: (read_u32_le(buf, 0), read_u32_le(buf, 4), read_u32_le(buf, 8)),
                rotation_bits: (read_u32_le(buf, 12), read_u32_le(buf, 16), read_u32_le(buf, 20)),
                triangle_count: read_u16_le(buf, 38),
                vertices,
                indices,
            },
        )
    }
}


/// Errors of reading a model.
#[derive(Debug, PartialEq, Eq, Structural, Clone, Copy)]
pub enum XboError {
    /// Fewer than 0x60 bytes.
    MissingHeader,
    BadMagic0,
    BadMagic1,
    BadMagic2,
    /// The index data does not end where the file does.
    BufWrongSize,
}

/// What reading a model comes to: data the reader cannot take, a refusal
/// with an error, or the model.
pub enum XboOutcome {
    Malformed,
    Refused(XboError),
    Parsed,
}

/// A model: its meshes (one per node but the root), each node's parent,
/// the node of each of 32 special kinds (`0xFF` for none), each node's
/// mirror when the model has them, and the root transform (as `f32` bits).
pub struct XBO {
    pub meshes: Vec<MeshXBO>,
    pub parents: Vec<u8>,
    pub specials: Vec<u8>,
    pub mirrors: Option<Vec<u8>>,
    pub position_bits: (u32, u32, u32),
    pub rotation_bits: (u32, u32, u32),
}

/// Length of the file slice at `at` (cut where its end would not fit).
pub open spec fn fs_len(b: Seq<u8>, at: int) -> int {
    slice_end(b, at) - le32(b, at)
}

/// Some files give their model as 0x19A bytes with no indices; that size
/// cannot be trusted, and the model runs to the end of the file.
pub open spec fn unreliable_sizes(b: Seq<u8>) -> bool {
    fs_len(b, 0) == 0x19A && fs_len(b, 24) == 0
}

pub open spec fn model_end(b: Seq<u8>) -> int {
    if unreliable_sizes(b) {
        b.len() as int
    } else {
        slice_end(b, 0) as int
    }
}

/// The model part of the file: its header, the mesh table, the parents,
/// the root transform and the meshes.
pub open spec fn model_bytes(b: Seq<u8>) -> Seq<u8> {
    b.subrange(le32(b, 0) as int, model_end(b))
}

pub open spec fn node_count(b: Seq<u8>) -> nat {
    model_bytes(b)[0] as nat
}

pub open spec fn xbo_mesh_count(b: Seq<u8>) -> nat {
    (node_count(b) - 1) as nat
}

pub open spec fn mesh_files_end(b: Seq<u8>) -> nat {
    16 + 8 * xbo_mesh_count(b)
}

pub open spec fn parents_end(b: Seq<u8>) -> nat {
    mesh_files_end(b) + node_count(b)
}

/// The model part lies in the file and holds its tables and the root
/// transform.
pub open spec fn model_ok(b: Seq<u8>) -> bool {
    &&& le32(b, 0) <= model_end(b) <= b.len()
    &&& model_bytes(b).len() >= 1
    &&& node_count(b) >= 1
    &&& parents_end(b) + 24 <= model_bytes(b).len()
}

/// Where the index part ends: its stored length leaves out its table.
pub open spec fn index_end(b: Seq<u8>) -> int {
    le32(b, 24) + fs_len(b, 24) + 8 * xbo_mesh_count(b)
}

pub open spec fn index_bytes(b: Seq<u8>) -> Seq<u8> {
    b.subrange(le32(b, 24) as int, b.len() as int)
}

pub open spec fn index_file_bytes(ib: Seq<u8>, k: int) -> Seq<u8> {
    ib.subrange(le32(ib, 8 * k) as int, slice_end(ib, 8 * k) as int)
}

/// The indices of mesh `k` lie in the index part and are whole `u16` values.
pub open spec fn index_file_ok(ib: Seq<u8>, k: int) -> bool {
    slice_end(ib, 8 * k) <= ib.len() && index_file_bytes(ib, k).len() % 2 == 0
}

/// Little-endian `u16` values.
pub open spec fn u16s_le(s: Seq<u8>) -> Seq<u16> {
    Seq::new(s.len() / 2, |j: int| le16(s, 2 * j) as u16)
}

pub open spec fn mesh_indices(b: Seq<u8>, k: int) -> Seq<u16> {
    if fs_len(b, 24) > 0 {
        u16s_le(index_file_bytes(index_bytes(b), k))
    } else {
        Seq::empty()
    }
}

pub open spec fn mesh_start(b: Seq<u8>, k: int) -> int {
    le32(model_bytes(b), 16 + 8 * k) as int
}

/// Where mesh `k` ends; with untrusted sizes, at most the model's end.
pub open spec fn mesh_end(b: Seq<u8>, k: int) -> int {
    let mb = model_bytes(b);
    let e = slice_end(mb, 16 + 8 * k) as int;
    if unreliable_sizes(b) && e > mb.len() {
        mb.len() as int
    } else {
        e
    }
}

pub open spec fn mesh_bytes(b: Seq<u8>, k: int) -> Seq<u8> {
    model_bytes(b).subrange(mesh_start(b, k), mesh_end(b, k))
}

pub open spec fn mesh_file_ok(b: Seq<u8>, k: int) -> bool {
    mesh_start(b, k) <= mesh_end(b, k) <= model_bytes(b).len() && mesh_ok(mesh_bytes(b, k))
}

/// Bit `j` of `flags` is set.
pub open spec fn bit_set(flags: u32, j: nat) -> bool {
    j < 32 && flags & (1u32 << (j as u32)) == (1u32 << (j as u32))
}

/// The number of set bits of `flags` below bit `j`.
pub open spec fn bits_below(flags: u32, j: nat) -> nat
    decreases j,
{
    if j == 0 {
        0
    } else {
        bits_below(flags, (j - 1) as nat) + if bit_set(flags, (j - 1) as nat) {
            1nat
        } else {
            0nat
        }
    }
}

proof fn lemma_bits_below_mono(flags: u32, j: nat, k: nat)
    requires
        j <= k,
    ensures
        bits_below(flags, j) <= bits_below(flags, k),
    decreases k,
{
    if j < k {
        lemma_bits_below_mono(flags, j, (k - 1) as nat);
    }
}

/// The special nodes of a special table: a count, a mask of the kinds
/// present, then one node per kind present, in bit order.
pub open spec fn specials_from(sb: Seq<u8>) -> Seq<u8> {
    let flags = le32(sb, 4) as u32;
    Seq::new(
        32,
        |j: int|
            if bit_set(flags, j as nat) {
                sb[8 + bits_below(flags, j as nat) as int]
            } else {
                0xFFu8
            },
    )
}

/// A special table can be read: it holds a node for each kind present,
/// and no more kinds than its count.
pub open spec fn specials_ok_bytes(sb: Seq<u8>) -> bool {
    let flags = le32(sb, 4) as u32;
    &&& sb.len() >= 8
    &&& 8 + bits_below(flags, 32) <= sb.len()
    &&& bits_below(flags, 32) <= le32(sb, 0)
}

pub open spec fn special_bytes(b: Seq<u8>) -> Seq<u8> {
    b.subrange(le32(b, 8) as int, slice_end(b, 8) as int)
}

pub open spec fn xbo_specials(b: Seq<u8>) -> Seq<u8> {
    if fs_len(b, 8) > 0 {
        specials_from(special_bytes(b))
    } else {
        Seq::new(32, |j: int| 0xFFu8)
    }
}

pub open spec fn specials_ok(b: Seq<u8>) -> bool {
    fs_len(b, 8) > 0 ==> slice_end(b, 8) <= b.len() && specials_ok_bytes(special_bytes(b))
}

/// One step of making mirrors mutual: when node `i` names another node `m`
/// as its mirror and `m` names itself, `m` gets `i`. `None` where `m` is
/// no node.
pub open spec fn mirror_step(t: Seq<u8>, i: int) -> Option<Seq<u8>> {
    let m = t[i] as int;
    if m == i {
        Some(t)
    } else if m >= t.len() {
        None
    } else if t[m] as int == m {
        Some(t.update(m, i as u8))
    } else {
        Some(t)
    }
}

/// The mirror table after the steps for nodes `0..k`.
pub open spec fn mirror_fix(s: Seq<u8>, k: nat) -> Option<Seq<u8>>
    decreases k,
{
    if k == 0 {
        Some(s)
    } else {
        match mirror_fix(s, (k - 1) as nat) {
            None => None,
            Some(t) => mirror_step(t, k - 1),
        }
    }
}

proof fn lemma_mirror_fix_len(s: Seq<u8>, k: nat)
    requires
        k <= s.len(),
    ensures
        mirror_fix(s, k) matches Some(t) ==> t.len() == s.len(),
    decreases k,
{
    if k > 0 {
        lemma_mirror_fix_len(s, (k - 1) as nat);
    }
}

proof fn lemma_mirror_fix_none(s: Seq<u8>, k: nat, m: nat)
    requires
        k <= m,
        mirror_fix(s, k) is None,
    ensures
        mirror_fix(s, m) is None,
    decreases m,
{
    if k < m {
        lemma_mirror_fix_none(s, k, (m - 1) as nat);
    }
}

pub open spec fn mirror_bytes(b: Seq<u8>) -> Seq<u8> {
    b.subrange(le32(b, 16) as int, slice_end(b, 16) as int)
}

/// The mirror table has a node per node, lies in the file, and names only
/// nodes where it is read.
pub open spec fn mirrors_ok(b: Seq<u8>) -> bool {
    fs_len(b, 16) > 0 ==> fs_len(b, 16) == node_count(b) && slice_end(b, 16) <= b.len()
        && mirror_fix(mirror_bytes(b), node_count(b)) is Some
}

/// The parts after the header can be read: the index lists, the meshes,
/// the special table and the mirror table.
pub open spec fn rest_ok(b: Seq<u8>) -> bool {
    &&& fs_len(b, 24) > 0 ==> forall|k: int|
        0 <= k < xbo_mesh_count(b) ==> #[trigger] index_file_ok(index_bytes(b), k)
    &&& forall|k: int| 0 <= k < xbo_mesh_count(b) ==> #[trigger] mesh_file_ok(b, k)
    &&& specials_ok(b)
    &&& mirrors_ok(b)
}

/// What reading the model `b` comes to, check by check in the order the
/// reader makes them.
pub open spec fn xbo_outcome(b: Seq<u8>) -> XboOutcome {
    if b.len() < 0x60 {
        XboOutcome::Refused(XboError::MissingHeader)
    } else if b.subrange(0, 4) != XBO_MAGIC0@ {
        XboOutcome::Refused(XboError::BadMagic0)
    } else if b.subrange(0x58, 0x5C) != XBO_MAGIC1@ {
        XboOutcome::Refused(XboError::BadMagic1)
    } else if b.subrange(0x5C, 0x60) != XBO_MAGIC2@ {
        XboOutcome::Refused(XboError::BadMagic2)
    } else if !model_ok(b) {
        XboOutcome::Malformed
    } else if fs_len(b, 24) > 0 && index_end(b) > usize::MAX {
        XboOutcome::Malformed
    } else if fs_len(b, 24) > 0 && index_end(b) != b.len() {
        XboOutcome::Refused(XboError::BufWrongSize)
    } else if rest_ok(b) {
        XboOutcome::Parsed
    } else {
        XboOutcome::Malformed
    }
}

/// `x` is the model that `b` holds.
pub open spec fn xbo_read(b: Seq<u8>, x: XBO) -> bool {
    let mb = model_bytes(b);
    let pe = parents_end(b) as int;
    &&& x.position_bits == (le32(mb, pe) as u32, le32(mb, pe + 4) as u32, le32(mb, pe + 8) as u32)
    &&& x.rotation_bits == (le32(mb, pe + 12) as u32, le32(mb, pe + 16) as u32, le32(mb, pe + 20) as u32)
    &&& x.parents@ == mb.subrange(mesh_files_end(b) as int, pe)
    &&& x.meshes@.len() == xbo_mesh_count(b)
    &&& forall|k: int|
        0 <= k < xbo_mesh_count(b) ==> #[trigger] mesh_matches(
            x.meshes@[k],
            k,
            mesh_bytes(b, k),
            mesh_indices(b, k),
        )
    &&& x.specials@ == xbo_specials(b)
    &&& if fs_len(b, 16) > 0 {
        x.mirrors matches Some(v) && mirror_fix(mirror_bytes(b), node_count(b)) == Some(v@)
    } else {
        x.mirrors is None
    }
}

/// Reads little-endian `u16` values.
pub(crate) fn u16s_from(bytes: &[u8]) -> (r: Vec<u16>)
    requires
        bytes@.len() % 2 == 0,
    ensures
        r@ == u16s_le(bytes@),
{
    let len: usize = bytes.len();
    let n: usize = len / 2;
    let mut out: Vec<u16> = Vec::with_capacity(n);
    let mut j: usize = 0;
    while j < n
        invariant
            j <= n,
            n == bytes@.len() / 2,
            len == bytes@.len(),
            bytes@.len() % 2 == 0,
            out@.len() == j,
            forall|i: int| 0 <= i < j ==> out@[i] == le16(bytes@, 2 * i) as u16,
        decreases n - j,
    {
        assert(2 * j + 2 <= bytes@.len());
        out.push(read_u16_le(bytes, 2 * j));
        j = j + 1;
    }
    assert(out@ =~= u16s_le(bytes@));
    out
}

/// Reads a special table (see `specials_from`), or `None` where it cannot
/// be read.
pub(crate) fn read_specials(sb: &[u8]) -> (r: Option<Vec<u8>>)
    ensures
        r is Some <==> specials_ok_bytes(sb@),
        r matches Some(v) ==> v@ == specials_from(sb@),
{
    let n: usize = sb.len();
    if n < 8 {
        return None;
    }
    let count: u32 = read_u32_le(sb, 0);
    let flags: u32 = read_u32_le(sb, 4);
    let mut specials: Vec<u8> = Vec::with_capacity(32);
    let mut idx: usize = 0;
    let mut i: usize = 0;
    while i < 32
        invariant
            i <= 32,
            n == sb@.len(),
            n >= 8,
            flags == le32(sb@, 4),
            idx == bits_below(flags, i as nat),
            8 + idx <= n,
            specials@.len() == i,
            forall|j: int| 0 <= j < i ==> #[trigger] specials@[j] == specials_from(sb@)[j],
        decreases 32 - i,
    {
        let mask: u32 = 1u32 << (i as u32);
        if flags & mask == mask {
            assert(bit_set(flags, i as nat));
            if 8 + idx >= n {
                proof {
                    lemma_bits_below_mono(flags, (i + 1) as nat, 32);
                }
                return None;
            }
            specials.push(sb[8 + idx]);
            idx = idx + 1;
        } else {
            assert(!bit_set(flags, i as nat));
            specials.push(0xFF);
        }
        i = i + 1;
    }
    assert(specials@ =~= specials_from(sb@));
    if idx > count as usize {
        return None;
    }
    Some(specials)
}

/// Makes the mirror table mutual (see `mirror_fix`), or `None` where it
/// names a node that is not there.
pub(crate) fn fix_mirrors(v: &[u8]) -> (r: Option<Vec<u8>>)
    requires
        v@.len() <= 256,
    ensures
        match mirror_fix(v@, v@.len()) {
            None => r is None,
            Some(t) => r matches Some(w) && w@ == t,
        },
{
    let ghost v0 = v@;
    let n: usize = v.len();
    let mut m = copy_range(v, 0, n);
    assert(m@ =~= v0);
    let mut i: usize = 0;
    while i < n
        invariant
            i <= n,
            n == v0.len(),
            v0 == v@,
            n <= 256,
            m@.len() == n,
            mirror_fix(v0, i as nat) == Some(m@),
        decreases n - i,
    {
        let x: u8 = m[i];
        if x as usize != i {
            if x as usize >= n {
                proof {
                    assert(mirror_step(m@, i as int) is None);
                    assert(mirror_fix(v0, (i + 1) as nat) is None);
                    lemma_mirror_fix_none(v0, (i + 1) as nat, n as nat);
                }
                return None;
            }
            if m[x as usize] == x {
                m.set(x as usize, i as u8);
            }
        }
        i = i + 1;
    }
    Some(m)
}


/// Checks four bytes of `buf` against a magic value.
pub(crate) fn magic_at(buf: &[u8], at: usize, magic: &[u8; 4]) -> (r: bool)
    requires
        at + 4 <= buf@.len(),
    ensures
        r == (buf@.subrange(at as int, at + 4) == magic@),
{
    let _n: usize = buf.len();
    let m = copy_range(buf, at, at + 4);
    let r = m[0] == magic[0] && m[1] == magic[1] && m[2] == magic[2] && m[3] == magic[3];
    if r {
        assert(m@ =~= magic@);
    } else {
        assert(m@ != magic@);
    }
    r
}

impl XBO {
    /// Reads a model. `None` stands for data that the reader cannot take
    /// (see `xbo_outcome`); otherwise the model, or the check it fails.
    pub fn try_import(buf: &[u8]) -> (r: Option<Result<XBO, XboError>>)
        ensures
            match xbo_outcome(buf@) {
                XboOutcome::Malformed => r is None,
                XboOutcome::Refused(e) => r == Some(Err::<XBO, XboError>(e)),
                XboOutcome::Parsed => r matches Some(Ok(x)) && xbo_read(buf@, x),
            },
    {
        let n: usize = buf.len();
        if n < 0x60 {
            return Some(Err(XboError::MissingHeader));
        }
        if !magic_at(buf, 0, &XBO_MAGIC0) {
            return Some(Err(XboError::BadMagic0));
        }
        if !magic_at(buf, 0x58, &XBO_MAGIC1) {
            return Some(Err(XboError::BadMagic1));
        }
        if !magic_at(buf, 0x5C, &XBO_MAGIC2) {
            return Some(Err(XboError::BadMagic2));
        }
        let model_fs = FileSlice::from_at(buf, 0);
        let special_fs = FileSlice::from_at(buf, 8);
        let mirror_fs = FileSlice::from_at(buf, 16);
        let index_fs = FileSlice::from_at(buf, 24);
        let unreliable: bool = model_fs.length() == 0x19A && index_fs.length() == 0;
        assert(unreliable == unreliable_sizes(buf@));
        let mo: usize = model_fs.offset();
        let me: usize = if unreliable {
            n
        } else {
            model_fs.get_end()
        };
        assert(me == model_end(buf@));
        if mo > me || me > n {
            return None;
        }
        let mb = copy_range(buf, mo, me);
        assert(mb@ == model_bytes(buf@));
        let ml: usize = mb.len();
        if ml < 1 {
            return None;
        }
        let nc: u8 = mb[0];
        if nc < 1 {
            return None;
        }
        let mc: usize = (nc - 1) as usize;
        let mfe: usize = 16 + 8 * mc;
        let pe: usize = mfe + nc as usize;
        if pe + 24 > ml {
            return None;
        }
        assert(model_ok(buf@));
        let parents = copy_range(mb.as_slice(), mfe, pe);
        let position_bits = (
            read_u32_le(mb.as_slice(), pe),
            read_u32_le(mb.as_slice(), pe + 4),
            read_u32_le(mb.as_slice(), pe + 8),
        );
        let rotation_bits = (
            read_u32_le(mb.as_slice(), pe + 12),
            read_u32_le(mb.as_slice(), pe + 16),
            read_u32_le(mb.as_slice(), pe + 20),
        );
        let il: usize = index_fs.length();
        let io: usize = index_fs.offset();
        if il > 0 {
            let ie: usize = index_fs.get_end();
            if 8 * mc > usize::MAX - ie {
                return None;
            }
            if ie + 8 * mc != n {
                return Some(Err(XboError::BufWrongSize));
            }
        }
        assert(xbo_outcome(buf@) == if rest_ok(buf@) {
            XboOutcome::Parsed
        } else {
            XboOutcome::Malformed
        });
        let ib: Vec<u8> = if il > 0 {
            copy_range(buf, io, n)
        } else {
            Vec::new()
        };
        let ibn: usize = ib.len();
        let mut meshes: Vec<MeshXBO> = Vec::with_capacity(mc);
        let mut k: usize = 0;
        while k < mc
            invariant
                k <= mc,
                n == buf@.len(),
                mc == xbo_mesh_count(buf@),
                mfe == mesh_files_end(buf@),
                mfe <= ml,
                mb@ == model_bytes(buf@),
                ml == mb@.len(),
                unreliable == unreliable_sizes(buf@),
                il == fs_len(buf@, 24),
                il > 0 ==> ib@ == index_bytes(buf@) && ibn == ib@.len() && 8 * mc <= ibn,
                xbo_outcome(buf@) == if rest_ok(buf@) {
                    XboOutcome::Parsed
                } else {
                    XboOutcome::Malformed
                },
                meshes@.len() == k,
                forall|j: int| 0 <= j < k ==> #[trigger] mesh_file_ok(buf@, j),
                il > 0 ==> forall|j: int| 0 <= j < k ==> #[trigger] index_file_ok(index_bytes(buf@), j),
                forall|j: int|
                    0 <= j < k ==> #[trigger] mesh_matches(
                        meshes@[j],
                        j,
                        mesh_bytes(buf@, j),
                        mesh_indices(buf@, j),
                    ),
            decreases mc - k,
        {
            let indices: Vec<u16> = if il > 0 {
                let ifs = FileSlice::from_at(ib.as_slice(), 8 * k);
                let ie2: usize = ifs.get_end();
                if ie2 > ibn {
                    assert(!index_file_ok(index_bytes(buf@), k as int));
                    return None;
                }
                let bytes = copy_range(ib.as_slice(), ifs.offset(), ie2);
                if bytes.len() % 2 != 0 {
                    assert(!index_file_ok(index_bytes(buf@), k as int));
                    return None;
                }
                assert(index_file_ok(index_bytes(buf@), k as int));
                u16s_from(bytes.as_slice())
            } else {
                Vec::new()
            };
            assert(indices@ == mesh_indices(buf@, k as int));
            let mfs = FileSlice::from_at(mb.as_slice(), 16 + 8 * k);
            let ms: usize = mfs.offset();
            let e: usize = mfs.get_end();
            let mend: usize = if unreliable && e > ml {
                ml
            } else {
                e
            };
            assert(ms == mesh_start(buf@, k as int));
            assert(mend == mesh_end(buf@, k as int));
            if ms > mend || mend > ml {
                assert(!mesh_file_ok(buf@, k as int));
                return None;
            }
            let mbytes = copy_range(mb.as_slice(), ms, mend);
            assert(mbytes@ == mesh_bytes(buf@, k as int));
            match MeshXBO::import(k, mbytes.as_slice(), indices) {
                None => {
                    assert(!mesh_file_ok(buf@, k as int));
                    return None;
                },
                Some(m) => {
                    meshes.push(m);
                },
            }
            k = k + 1;
        }
        let specials: Vec<u8> = if special_fs.length() > 0 {
            let se: usize = special_fs.get_end();
            if se > n {
                return None;
            }
            let sb = copy_range(buf, special_fs.offset(), se);
            assert(sb@ == special_bytes(buf@));
            match read_specials(sb.as_slice()) {
                None => {
                    return None;
                },
                Some(v) => v,
            }
        } else {
            let v: Vec<u8> = vec![0xFFu8; 32];
            assert(v@ =~= xbo_specials(buf@));
            v
        };
        let mirrors: Option<Vec<u8>> = if mirror_fs.length() > 0 {
            if mirror_fs.length() != nc as usize {
                return None;
            }
            let re: usize = mirror_fs.get_end();
            if re > n {
                return None;
            }
            let rb = copy_range(buf, mirror_fs.offset(), re);
            assert(rb@ == mirror_bytes(buf@));
            match fix_mirrors(rb.as_slice()) {
                None => {
                    return None;
                },
                Some(v) => Some(v),
            }
        } else {
            None
        };
        assert(rest_ok(buf@));
        Some(Ok(XBO { meshes, parents, specials, mirrors, position_bits, rotation_bits }))
    }
}


/// The indices with the first one repeated in front, which turns the
/// orientation of every face; no indices stay none.
pub open spec fn flipped(a: Seq<u16>) -> Seq<u16> {
    if a.len() == 0 {
        a
    } else {
        seq![a[0]] + a
    }
}

/// `m` is `o` with its faces turned.
pub open spec fn faces_flipped(o: MeshXBO, m: MeshXBO) -> bool {
    &&& m.index == o.index
    &&& m.primative_mode == o.primative_mode
    &&& m.position_bits == o.position_bits
    &&& m.rotation_bits == o.rotation_bits
    &&& m.triangle_count == o.triangle_count
    &&& m.vertices@ == o.vertices@
    &&& m.indices@ == flipped(o.indices@)
}

/// The bytes a mesh's vertices take when exported: each as its first does.
pub open spec fn spec_vertices_size(m: MeshXBO) -> nat {
    if m.vertices@.len() == 0 {
        0
    } else {
        m.vertices@.len() * spec_stride_size(m.vertices@[0])
    }
}

/// Sum of the vertex bytes of the first `k` meshes.
pub open spec fn vertices_total(ms: Seq<MeshXBO>, k: nat) -> nat
    decreases k,
{
    if k == 0 {
        0
    } else {
        vertices_total(ms, (k - 1) as nat) + spec_vertices_size(ms[k - 1])
    }
}

/// Sum of the index bytes of the first `k` meshes.
pub open spec fn indices_total(ms: Seq<MeshXBO>, k: nat) -> nat
    decreases k,
{
    if k == 0 {
        0
    } else {
        indices_total(ms, (k - 1) as nat) + 2 * ms[k - 1].indices@.len()
    }
}

pub(crate) proof fn lemma_totals_mono(ms: Seq<MeshXBO>, j: nat, k: nat)
    requires
        j <= k,
    ensures
        vertices_total(ms, j) <= vertices_total(ms, k),
        indices_total(ms, j) <= indices_total(ms, k),
    decreases k,
{
    if j < k {
        lemma_totals_mono(ms, j, (k - 1) as nat);
    }
}

impl MeshXBO {
    /// The bytes each vertex takes when exported (that of the first vertex;
    /// 0 for none).
    pub fn stride_size(&self) -> (r: usize)
        ensures
            self.vertices@.len() == 0 ==> r == 0,
            self.vertices@.len() > 0 ==> r == spec_stride_size(self.vertices@[0]),
    {
        if self.vertices.len() == 0 {
            0
        } else {
            self.vertices[0].stride_size()
        }
    }

    /// The mesh has texture coordinates (its first vertex has them).
    pub fn has_texcoords(&self) -> (r: bool)
        ensures
            r == (self.vertices@.len() > 0 && self.vertices@[0].uv is Some),
    {
        self.vertices.len() > 0 && self.vertices[0].uv.is_some()
    }

    /// Repeats the first index in front, which turns every face.
    pub fn flip_faces(&mut self)
        requires
            old(self).indices@.len() < usize::MAX,
        ensures
            faces_flipped(*old(self), *final(self)),
    {
        if self.indices.len() > 0 {
            let first: u16 = self.indices[0];
            self.indices.insert(0, first);
            assert(self.indices@ =~= flipped(old(self).indices@));
        }
    }
}

impl XBO {
    /// Reads a model that the reader can take: the model, or the check it
    /// fails (see `try_import`).
    pub fn import(buf: &[u8]) -> (r: Result<XBO, XboError>)
        requires
            !(xbo_outcome(buf@) is Malformed),
        ensures
            match xbo_outcome(buf@) {
                XboOutcome::Refused(e) => r == Err::<XBO, XboError>(e),
                _ => r matches Ok(x) && xbo_read(buf@, x),
            },
    {
        match Self::try_import(buf) {
            Some(r) => r,
            None => vstd::pervasive::unreached(),
        }
    }

    /// The nodes: the root and one per mesh.
    pub fn get_node_count(&self) -> (r: usize)
        requires
            self.meshes@.len() < usize::MAX,
        ensures
            r == self.meshes@.len() + 1,
    {
        self.meshes.len() + 1
    }

    /// Turns the faces of every mesh (see `flipped`).
    pub fn flip_faces(&mut self)
        requires
            forall|k: int|
                0 <= k < old(self).meshes@.len() ==> #[trigger] old(self).meshes@[k].indices@.len()
                    < usize::MAX,
        ensures
            final(self).parents == old(self).parents,
            final(self).specials == old(self).specials,
            final(self).mirrors == old(self).mirrors,
            final(self).position_bits == old(self).position_bits,
            final(self).rotation_bits == old(self).rotation_bits,
            final(self).meshes@.len() == old(self).meshes@.len(),
            forall|k: int|
                0 <= k < old(self).meshes@.len() ==> #[trigger] faces_flipped(
                    old(self).meshes@[k],
                    final(self).meshes@[k],
                ),
    {
        let ghost ms = self.meshes@;
        let mut rest: Vec<MeshXBO> = Vec::new();
        std::mem::swap(&mut rest, &mut self.meshes);
        let n: usize = rest.len();
        let mut k: usize = 0;
        while k < n
            invariant
                k <= n,
                n == ms.len(),
                ms == old(self).meshes@,
                rest@ == ms.subrange(k as int, n as int),
                self.meshes@.len() == k,
                self.parents == old(self).parents,
                self.specials == old(self).specials,
                self.mirrors == old(self).mirrors,
                self.position_bits == old(self).position_bits,
                self.rotation_bits == old(self).rotation_bits,
                forall|j: int| 0 <= j < n ==> #[trigger] ms[j].indices@.len() < usize::MAX,
                forall|j: int| 0 <= j < k ==> #[trigger] faces_flipped(ms[j], self.meshes@[j]),
            decreases n - k,
        {
            let mut m = rest.remove(0);
            assert(m == ms[k as int]);
            m.flip_faces();
            self.meshes.push(m);
            assert(rest@ =~= ms.subrange(k + 1, n as int));
            k = k + 1;
        }
    }

    /// The bytes that the exported vertices and indices take.
    pub fn size(&self) -> (r: (usize, usize))
        requires
            vertices_total(self.meshes@, self.meshes@.len()) <= usize::MAX,
            indices_total(self.meshes@, self.meshes@.len()) <= usize::MAX,
        ensures
            r.0 == vertices_total(self.meshes@, self.meshes@.len()),
            r.1 == indices_total(self.meshes@, self.meshes@.len()),
    {
        let n: usize = self.meshes.len();
        let mut vertices_size: usize = 0;
        let mut indices_size: usize = 0;
        let mut k: usize = 0;
        while k < n
            invariant
                k <= n,
                n == self.meshes@.len(),
                vertices_total(self.meshes@, n as nat) <= usize::MAX,
                indices_total(self.meshes@, n as nat) <= usize::MAX,
                vertices_size == vertices_total(self.meshes@, k as nat),
                indices_size == indices_total(self.meshes@, k as nat),
            decreases n - k,
        {
            proof {
                lemma_totals_mono(self.meshes@, (k + 1) as nat, n as nat);
            }
            let m = &self.meshes[k];
            let stride: usize = m.stride_size();
            let vlen: usize = m.vertices.len();
            let vs: usize = if vlen == 0 {
                0
            } else {
                assert(vlen * stride == spec_vertices_size(*m));
                vlen * stride
            };
            vertices_size = vertices_size + vs;
            indices_size = indices_size + 2 * m.indices.len();
            k = k + 1;
        }
        (vertices_size, indices_size)
    }
}

} // verus!
