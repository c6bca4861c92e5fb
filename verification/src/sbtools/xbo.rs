//! Models of the first title: a root node and one node per mesh. Each mesh
//! names one of three vertex formats; every file has an index part. This
//! reads the layout, with the floats kept as their bits; scaling and the
//! export work on it in floating point.
use vstd::prelude::*;

use crate::bbtools::slice_end;
use crate::bbtools::xbo::{
    fix_mirrors, i16_at, index_file_bytes, index_file_ok, magic_at, mesh_attrs, mesh_data_size,
    mesh_header_size, mesh_stride, mesh_vertex_count, mirror_fix, read_specials, special_bytes, specials_ok,
    u16s_from, u16s_le, xbo_specials, RawPosition, XboError, XboOutcome, XBO_MAGIC0, XBO_MAGIC1,
    XBO_MAGIC2,
};
use crate::bbtools::gltf_layout::{
    all_joints, children_of, find_children, find_special, first_special, opt_accessor, skin_and_scene, AttributeKind,
    ComponentKind, ElementKind, GltfAccessor, GltfLayout, GltfNode, GltfPrimitive, GltfView,
};
use crate::bbtools::xbo::{PrimitiveMode, JOINT_SIZE};
use crate::bbtools::FileSlice;
use crate::bytes::{copy_range, le16, le32, read_i16_le, read_u16_le, read_u32_le};

verus! {

/// The vertex formats: with texture coordinates and color, with texture
/// coordinates only, with position and normal only, or one the reader does
/// not know (its vertices are left out).
#[derive(Clone, Copy, Debug, PartialEq, Eq, Structural)]
pub enum VertexFormat {
    Unknown,
    Xbo,
    Xbo2,
    Sha,
}

pub open spec fn spec_vertex_format(format: u32) -> VertexFormat {
    if format == 0x0152 {
        VertexFormat::Xbo
    } else if format == 0x0052 {
        VertexFormat::Xbo2
    } else if format == 0x0012 {
        VertexFormat::Sha
    } else {
        VertexFormat::Unknown
    }
}

impl VertexFormat {
    /// The format of a mesh's format word.
    pub fn from_u32(format: u32) -> (r: VertexFormat)
        ensures
            r == spec_vertex_format(format),
    {
        if format == 0x0152 {
            VertexFormat::Xbo
        } else if format == 0x0052 {
            VertexFormat::Xbo2
        } else if format == 0x0012 {
            VertexFormat::Sha
        } else {
            VertexFormat::Unknown
        }
    }
}

/// The strides a format allows: a position of three `f32` (18 bytes with
/// the normal) or of three `i16` (12 bytes), then 8 bytes of texture
/// coordinates and color, or 4 of texture coordinates.
pub open spec fn stride_ok(format: VertexFormat, stride: int) -> bool {
    match format {
        VertexFormat::Xbo => stride == 26 || stride == 20,
        VertexFormat::Xbo2 => stride == 22 || stride == 16,
        VertexFormat::Sha => stride == 12,
        VertexFormat::Unknown => true,
    }
}

/// Bytes of position and normal in a vertex of the format.
pub open spec fn pos_norm_len(format: VertexFormat, stride: int) -> int {
    match format {
        VertexFormat::Xbo => stride - 8,
        VertexFormat::Xbo2 => stride - 4,
        _ => stride,
    }
}

/// A vertex as stored. The normal is read from the vertex's first six
/// bytes as three `i16` and normalised on export; the texture coordinates
/// are divided by `i16::MAX` on export; the color keeps its byte order.
#[derive(Clone, Copy, Debug, PartialEq, Eq)]
pub struct SbVertex {
    pub position: RawPosition,
    pub normal: (i16, i16, i16),
    pub uv: Option<(i16, i16)>,
    pub color: Option<(u8, u8, u8, u8)>,
}

/// The vertex of the format stored at `p` of `b`.
pub open spec fn sb_vertex_at(b: Seq<u8>, p: int, format: VertexFormat, stride: int) -> SbVertex {
    let pl = pos_norm_len(format, stride);
    SbVertex {
        position: if pl == 18 {
            RawPosition::Float(le32(b, p) as u32, le32(b, p + 4) as u32, le32(b, p + 8) as u32)
        } else {
            RawPosition::Short(i16_at(b, p), i16_at(b, p + 2), i16_at(b, p + 4))
        },
        normal: (i16_at(b, p), i16_at(b, p + 2), i16_at(b, p + 4)),
        uv: match format {
            VertexFormat::Xbo | VertexFormat::Xbo2 => Some((i16_at(b, p + pl), i16_at(b, p + pl + 2))),
            _ => None,
        },
        color: match format {
            VertexFormat::Xbo => Some((b[p + pl + 4], b[p + pl + 5], b[p + pl + 6], b[p + pl + 7])),
            _ => None,
        },
    }
}

fn read_sb_vertex(b: &[u8], p: usize, format: VertexFormat, stride: usize) -> (r: SbVertex)
    requires
        stride_ok(format, stride as int),
        format != VertexFormat::Unknown,
        p + stride <= b@.len(),
    ensures
        r == sb_vertex_at(b@, p as int, format, stride as int),
{
    let _n: usize = b.len();
    let pl: usize = match format {
        VertexFormat::Xbo => stride - 8,
        VertexFormat::Xbo2 => stride - 4,
        _ => stride,
    };
    let position = if pl == 18 {
        RawPosition::Float(read_u32_le(b, p), read_u32_le(b, p + 4), read_u32_le(b, p + 8))
    } else {
        RawPosition::Short(read_i16_le(b, p), read_i16_le(b, p + 2), read_i16_le(b, p + 4))
    };
    let normal = (read_i16_le(b, p), read_i16_le(b, p + 2), read_i16_le(b, p + 4));
    let uv = match format {
        VertexFormat::Xbo | VertexFormat::Xbo2 => Some((read_i16_le(b, p + pl), read_i16_le(b, p + pl + 2))),
        _ => None,
    };
    let color = match format {
        VertexFormat::Xbo => Some((b[p + pl + 4], b[p + pl + 5], b[p + pl + 6], b[p + pl + 7])),
        _ => None,
    };
    SbVertex { position, normal, uv, color }
}

/// A mesh: its node's transform (as `f32` bits), its vertex format and
/// counts, its vertices and its indices.
pub struct MeshXBO {
    pub position_bits: (u32, u32, u32),
    pub rotation_bits: (u32, u32, u32),
    pub format: VertexFormat,
    pub triangle_count: u16,
    pub vertex_count: u16,
    pub vertices: Vec<SbVertex>,
    pub indices: Vec<u16>,
}

/// A mesh given as bytes can be read: a 48-byte header, header and vertex
/// data that make up the mesh, whole vertices, and a stride that its
/// format allows where it has vertices.
pub open spec fn sb_mesh_ok(b: Seq<u8>) -> bool {
    &&& b.len() >= 48
    &&& b.len() == mesh_header_size(b) + mesh_data_size(b)
    &&& mesh_data_size(b) == mesh_stride(b) * mesh_vertex_count(b)
    &&& mesh_stride(b) > 0
    &&& mesh_vertex_count(b) > 0 ==> stride_ok(spec_vertex_format(mesh_attrs(b)), mesh_stride(b) as int)
}

/// `m` is the mesh of the bytes `b`, with the indices `idx`; a mesh of an
/// unknown format keeps no vertices.
pub open spec fn sb_mesh_matches(m: MeshXBO, b: Seq<u8>, idx: Seq<u16>) -> bool {
    let format = spec_vertex_format(mesh_attrs(b));
    &&& m.position_bits == (le32(b, 0) as u32, le32(b, 4) as u32, le32(b, 8) as u32)
    &&& m.rotation_bits == (le32(b, 12) as u32, le32(b, 16) as u32, le32(b, 20) as u32)
    &&& m.format == format
    &&& m.triangle_count == le16(b, 38)
    &&& m.vertex_count == le16(b, 40)
    &&& m.indices@ == idx
    &&& m.vertices@ == if format == VertexFormat::Unknown {
        Seq::empty()
    } else {
        Seq::new(
            mesh_vertex_count(b),
            |k: int|
                sb_vertex_at(b, mesh_header_size(b) + k * mesh_stride(b), format, mesh_stride(b) as int),
        )
    }
}

proof fn lemma_vertex_fits(k: int, count: int, stride: int)
    requires
        0 <= k < count,
        0 <= stride,
    ensures
        k * stride + stride <= count * stride,
        0 <= k * stride,
{
    assert(k * stride + stride <= count * stride) by (nonlinear_arith)
        requires
            0 <= k < count,
            0 <= stride,
    ;
    assert(0 <= k * stride) by (nonlinear_arith)
        requires
            0 <= k,
            0 <= stride,
    ;
}

impl MeshXBO {
    /// Reads a mesh from its bytes, with its indices; `None` where the mesh
    /// cannot be read (see `sb_mesh_ok`).
    pub fn import(buf: &[u8], indices: Vec<u16>) -> (r: Option<Self>)
        ensures
            r is Some <==> sb_mesh_ok(buf@),
            r matches Some(m) ==> sb_mesh_matches(m, buf@, indices@),
    {
        let n: usize = buf.len();
        if n < 48 {
            return None;
        }
        let format = VertexFormat::from_u32(read_u32_le(buf, 24));
        let data_size: usize = read_u32_le(buf, 28) as usize;
        let header_size: usize = read_u16_le(buf, 36) as usize;
        if data_size > n || header_size != n - data_size {
            return None;
        }
        let vertex_count: usize = read_u16_le(buf, 40) as usize;
        let stride: usize = buf[44] as usize;
        if stride == 0 {
            return None;
        }
        if data_size / stride != vertex_count || data_size % stride != 0 {
            assert(data_size != stride * vertex_count) by (nonlinear_arith)
                requires
                    stride > 0,
                    data_size / stride != vertex_count || data_size % stride != 0,
            ;
            return None;
        }
        assert(data_size == stride * vertex_count) by (nonlinear_arith)
            requires
                stride > 0,
                data_size / stride == vertex_count,
                data_size % stride == 0,
        ;
        let layout_good: bool = match format {
            VertexFormat::Xbo => stride == 26 || stride == 20,
            VertexFormat::Xbo2 => stride == 22 || stride == 16,
            VertexFormat::Sha => stride == 12,
            VertexFormat::Unknown => true,
        };
        if vertex_count > 0 && !layout_good {
            return None;
        }
        let mut vertices: Vec<SbVertex> = Vec::new();
        if format != VertexFormat::Unknown {
            let mut k: usize = 0;
            while k < vertex_count
                invariant
                    k <= vertex_count,
                    n == buf@.len(),
                    header_size == mesh_header_size(buf@),
                    stride == mesh_stride(buf@),
                    vertex_count == mesh_vertex_count(buf@),
                    format == spec_vertex_format(mesh_attrs(buf@)),
                    format != VertexFormat::Unknown,
                    vertex_count > 0 ==> stride_ok(format, stride as int),
                    header_size + stride * vertex_count == n,
                    vertices@ == Seq::new(
                        k as nat,
                        |j: int| sb_vertex_at(buf@, header_size + j * stride, format, stride as int),
                    ),
                decreases vertex_count - k,
            {
                proof {
                    lemma_vertex_fits(k as int, vertex_count as int, stride as int);
                    assert(stride * vertex_count == vertex_count * stride) by (nonlinear_arith);
                }
                let p: usize = header_size + k * stride;
                vertices.push(read_sb_vertex(buf, p, format, stride));
                k = k + 1;
                assert(vertices@ =~= Seq::new(
                    k as nat,
                    |j: int| sb_vertex_at(buf@, header_size + j * stride, format, stride as int),
                ));
            }
        } else {
            assert(vertices@ =~= Seq::empty());
        }
        Some(
            MeshXBO {
                position_bits: (read_u32_le(buf, 0), read_u32_le(buf, 4), read_u32_le(buf, 8)),
                rotation_bits: (read_u32_le(buf, 12), read_u32_le(buf, 16), read_u32_le(buf, 20)),
                format,
                triangle_count: read_u16_le(buf, 38),
                vertex_count: read_u16_le(buf, 40),
                vertices,
                indices,
            },
        )
    }
}

/// A model: its meshes (one per node but the root), each node's parent,
/// the node of each of 32 special kinds (`0xFF` for none), each node's
/// mirror when the model has them, and the root transform (as `f32` bits).
pub struct XBO {
    pub meshes: Vec<MeshXBO>,
    pub parents: Vec<u8>,
    pub specials: Vec<u8>,
    pub mirrors: Option<Vec<u8>>,
    pub position_bits: (u32, u32, u32),
    pub rotation_bits: (u32, u32, u32),
}

/// The model part of the file: its header, the mesh table, the parents,
/// the root transform and the meshes.
pub open spec fn sb_model_bytes(b: Seq<u8>) -> Seq<u8> {
    b.subrange(le32(b, 0) as int, slice_end(b, 0) as int)
}

pub open spec fn sb_node_count(b: Seq<u8>) -> nat {
    sb_model_bytes(b)[0] as nat
}

pub open spec fn sb_mesh_count(b: Seq<u8>) -> nat {
    (sb_node_count(b) - 1) as nat
}

pub open spec fn sb_mesh_files_end(b: Seq<u8>) -> nat {
    16 + 8 * sb_mesh_count(b)
}

pub open spec fn sb_parents_end(b: Seq<u8>) -> nat {
    sb_mesh_files_end(b) + sb_node_count(b)
}

/// The model part lies in the file, has at least the root node, and holds
/// its tables and the root transform.
pub open spec fn sb_model_ok(b: Seq<u8>) -> bool {
    &&& slice_end(b, 0) <= b.len()
    &&& sb_model_bytes(b).len() >= 1
    &&& sb_node_count(b) >= 1
    &&& sb_parents_end(b) + 24 <= sb_model_bytes(b).len()
}

/// Where the index part ends: its stored length leaves out its table of
/// one entry per mesh.
pub open spec fn sb_index_end(b: Seq<u8>) -> int {
    (le32(b, 24) + le32(b, 28) + 8 * sb_mesh_count(b)) as int
}

/// The index part: its table, then the index lists.
pub open spec fn sb_index_bytes(b: Seq<u8>) -> Seq<u8> {
    b.subrange(le32(b, 24) as int, b.len() as int)
}

pub open spec fn sb_mesh_indices(b: Seq<u8>, k: int) -> Seq<u16> {
    u16s_le(index_file_bytes(sb_index_bytes(b), k))
}

pub open spec fn sb_mesh_bytes(b: Seq<u8>, k: int) -> Seq<u8> {
    let mb = sb_model_bytes(b);
    mb.subrange(le32(mb, 16 + 8 * k) as int, slice_end(mb, 16 + 8 * k) as int)
}

/// Mesh `k` lies in the model part and can be read.
pub open spec fn sb_mesh_file_ok(b: Seq<u8>, k: int) -> bool {
    let mb = sb_model_bytes(b);
    slice_end(mb, 16 + 8 * k) <= mb.len() && sb_mesh_ok(sb_mesh_bytes(b, k))
}

pub open spec fn sb_mirror_bytes(b: Seq<u8>) -> Seq<u8> {
    b.subrange(le32(b, 16) as int, (le32(b, 16) + le32(b, 20)) as int)
}

/// The mirror table, where there is one, has a node per node, lies in the
/// file, and names only nodes where it is read.
pub open spec fn sb_mirrors_ok(b: Seq<u8>) -> bool {
    le32(b, 20) > 0 ==> le32(b, 20) == sb_node_count(b) && le32(b, 16) + le32(b, 20) <= b.len() && mirror_fix(
        sb_mirror_bytes(b),
        sb_node_count(b),
    ) is Some
}

/// The parts after the header can be read: each mesh's index list and
/// mesh, the special table and the mirror table.
pub open spec fn sb_rest_ok(b: Seq<u8>) -> bool {
    &&& forall|k: int| 0 <= k < sb_mesh_count(b) ==> #[trigger] index_file_ok(sb_index_bytes(b), k)
    &&& forall|k: int| 0 <= k < sb_mesh_count(b) ==> #[trigger] sb_mesh_file_ok(b, k)
    &&& specials_ok(b)
    &&& sb_mirrors_ok(b)
}

/// What reading the model `b` comes to, check by check in the order the
/// reader makes them.
pub open spec fn sb_xbo_outcome(b: Seq<u8>) -> XboOutcome {
    if b.len() < 0x60 {
        XboOutcome::Refused(XboError::MissingHeader)
    } else if b.subrange(0, 4) != XBO_MAGIC0@ {
        XboOutcome::Refused(XboError::BadMagic0)
    } else if b.subrange(0x58, 0x5C) != XBO_MAGIC1@ {
        XboOutcome::Refused(XboError::BadMagic1)
    } else if b.subrange(0x5C, 0x60) != XBO_MAGIC2@ {
        XboOutcome::Refused(XboError::BadMagic2)
    } else if !sb_model_ok(b) {
        XboOutcome::Malformed
    } else if sb_index_end(b) > usize::MAX {
        XboOutcome::Malformed
    } else if sb_index_end(b) != b.len() {
        XboOutcome::Refused(XboError::BufWrongSize)
    } else if sb_rest_ok(b) {
        XboOutcome::Parsed
    } else {
        XboOutcome::Malformed
    }
}

/// `x` is the model that `b` holds.
pub open spec fn sb_xbo_read(b: Seq<u8>, x: XBO) -> bool {
    let mb = sb_model_bytes(b);
    let pe = sb_parents_end(b) as int;
    &&& x.position_bits == (le32(mb, pe) as u32, le32(mb, pe + 4) as u32, le32(mb, pe + 8) as u32)
    &&& x.rotation_bits == (le32(mb, pe + 12) as u32, le32(mb, pe + 16) as u32, le32(mb, pe + 20) as u32)
    &&& x.parents@ == mb.subrange(sb_mesh_files_end(b) as int, pe)
    &&& x.meshes@.len() == sb_mesh_count(b)
    &&& forall|k: int|
        0 <= k < sb_mesh_count(b) ==> #[trigger] sb_mesh_matches(
            x.meshes@[k],
            sb_mesh_bytes(b, k),
            sb_mesh_indices(b, k),
        )
    &&& x.specials@ == xbo_specials(b)
    &&& if le32(b, 20) > 0 {
        x.mirrors matches Some(v) && mirror_fix(sb_mirror_bytes(b), sb_node_count(b)) == Some(v@)
    } else {
        x.mirrors is None
    }
}

impl XBO {
    /// Reads a model. `None` stands for data that the reader cannot take
    /// (see `sb_xbo_outcome`); otherwise the model, or the check it fails.
    #[verifier::rlimit(40)]
    pub fn try_import(buf: &[u8]) -> (r: Option<Result<XBO, XboError>>)
        ensures
            match sb_xbo_outcome(buf@) {
                XboOutcome::Malformed => r is None,
                XboOutcome::Refused(e) => r == Some(Err::<XBO, XboError>(e)),
                XboOutcome::Parsed => r matches Some(Ok(x)) && sb_xbo_read(buf@, x),
            },
    {
        let n: usize = buf.len();
        if n < 0x60 {
            return Some(Err(XboError::MissingHeader));
        }
        if !magic_at(buf, 0, &XBO_MAGIC0) {
            return Some(Err(XboError::BadMagic0));
        }
        if !magic_at(buf, 0x58, &XBO_MAGIC1) {
            return Some(Err(XboError::BadMagic1));
        }
        if !magic_at(buf, 0x5C, &XBO_MAGIC2) {
            return Some(Err(XboError::BadMagic2));
        }
        let model_fs = FileSlice::from_at(buf, 0);
        let special_fs = FileSlice::from_at(buf, 8);
        let mirror_fs = FileSlice::from_at(buf, 16);
        let index_fs = FileSlice::from_at(buf, 24);
        let index_len: u32 = read_u32_le(buf, 28);
        let mirror_len: u32 = read_u32_le(buf, 20);
        let mo: usize = model_fs.offset();
        let me: usize = model_fs.get_end();
        if me > n {
            return None;
        }
        let mb = copy_range(buf, mo, me);
        assert(mb@ == sb_model_bytes(buf@));
        let ml: usize = mb.len();
        if ml < 1 {
            return None;
        }
        let nc: u8 = mb[0];
        if nc < 1 {
            return None;
        }
        let mc: usize = (nc - 1) as usize;
        let mfe: usize = 16 + 8 * mc;
        let pe: usize = mfe + nc as usize;
        if pe + 24 > ml {
            return None;
        }
        assert(sb_model_ok(buf@));
        let parents = copy_range(mb.as_slice(), mfe, pe);
        let position_bits = (
            read_u32_le(mb.as_slice(), pe),
            read_u32_le(mb.as_slice(), pe + 4),
            read_u32_le(mb.as_slice(), pe + 8),
        );
        let rotation_bits = (
            read_u32_le(mb.as_slice(), pe + 12),
            read_u32_le(mb.as_slice(), pe + 16),
            read_u32_le(mb.as_slice(), pe + 20),
        );
        let io: usize = index_fs.offset();
        let io64: u64 = io as u64 + index_len as u64 + 8 * mc as u64;
        if io64 > usize::MAX as u64 {
            return None;
        }
        if io64 != n as u64 {
            return Some(Err(XboError::BufWrongSize));
        }
        assert(sb_xbo_outcome(buf@) == if sb_rest_ok(buf@) {
            XboOutcome::Parsed
        } else {
            XboOutcome::Malformed
        });
        let ib: Vec<u8> = copy_range(buf, io, n);
        let ibn: usize = ib.len();
        let mut meshes: Vec<MeshXBO> = Vec::with_capacity(mc);
        let mut k: usize = 0;
        while k < mc
            invariant
                k <= mc,
                n == buf@.len(),
                mc == sb_mesh_count(buf@),
                mb@ == sb_model_bytes(buf@),
                ml == mb@.len(),
                16 + 8 * mc <= ml,
                ib@ == sb_index_bytes(buf@),
                ibn == ib@.len(),
                8 * mc <= ibn,
                sb_xbo_outcome(buf@) == if sb_rest_ok(buf@) {
                    XboOutcome::Parsed
                } else {
                    XboOutcome::Malformed
                },
                meshes@.len() == k,
                forall|j: int| 0 <= j < k ==> #[trigger] sb_mesh_file_ok(buf@, j),
                forall|j: int| 0 <= j < k ==> #[trigger] index_file_ok(sb_index_bytes(buf@), j),
                forall|j: int|
                    0 <= j < k ==> #[trigger] sb_mesh_matches(
                        meshes@[j],
                        sb_mesh_bytes(buf@, j),
                        sb_mesh_indices(buf@, j),
                    ),
            decreases mc - k,
        {
            let ifs = FileSlice::from_at(ib.as_slice(), 8 * k);
            let ie: usize = ifs.get_end();
            if ie > ibn {
                assert(!index_file_ok(sb_index_bytes(buf@), k as int));
                return None;
            }
            let bytes = copy_range(ib.as_slice(), ifs.offset(), ie);
            if bytes.len() % 2 != 0 {
                assert(!index_file_ok(sb_index_bytes(buf@), k as int));
                return None;
            }
            assert(index_file_ok(sb_index_bytes(buf@), k as int));
            let indices = u16s_from(bytes.as_slice());
            assert(indices@ == sb_mesh_indices(buf@, k as int));
            let mfs = FileSlice::from_at(mb.as_slice(), 16 + 8 * k);
            let ms: usize = mfs.offset();
            let mend: usize = mfs.get_end();
            if mend > ml {
                assert(!sb_mesh_file_ok(buf@, k as int));
                return None;
            }
            let mbytes = copy_range(mb.as_slice(), ms, mend);
            assert(mbytes@ == sb_mesh_bytes(buf@, k as int));
            match MeshXBO::import(mbytes.as_slice(), indices) {
                None => {
                    assert(!sb_mesh_file_ok(buf@, k as int));
                    return None;
                },
                Some(m) => {
                    meshes.push(m);
                },
            }
            k = k + 1;
        }
        let specials: Vec<u8> = if special_fs.length() > 0 {
            let se: usize = special_fs.get_end();
            if se > n {
                return None;
            }
            let sb = copy_range(buf, special_fs.offset(), se);
            assert(sb@ == special_bytes(buf@));
            match read_specials(sb.as_slice()) {
                None => {
                    return None;
                },
                Some(v) => v,
            }
        } else {
            let v: Vec<u8> = vec![0xFFu8; 32];
            assert(v@ =~= xbo_specials(buf@));
            v
        };
        let mirrors: Option<Vec<u8>> = if mirror_len > 0 {
            if mirror_len != nc as u32 {
                return None;
            }
            let roff: usize = mirror_fs.offset();
            if roff as u64 + mirror_len as u64 > n as u64 {
                return None;
            }
            let rb = copy_range(buf, roff, roff + mirror_len as usize);
            assert(rb@ == sb_mirror_bytes(buf@));
            match fix_mirrors(rb.as_slice()) {
                None => {
                    return None;
                },
                Some(v) => Some(v),
            }
        } else {
            None
        };
        assert(sb_rest_ok(buf@));
        Some(Ok(XBO { meshes, parents, specials, mirrors, position_bits, rotation_bits }))
    }

    /// Reads a model that the reader can take (see `sb_xbo_outcome`): the
    /// model, or the check it fails.
    pub fn import(buf: &[u8]) -> (r: Result<XBO, XboError>)
        requires
            !(sb_xbo_outcome(buf@) is Malformed),
        ensures
            match sb_xbo_outcome(buf@) {
                XboOutcome::Refused(e) => r == Err::<XBO, XboError>(e),
                _ => r matches Ok(x) && sb_xbo_read(buf@, x),
            },
    {
        match XBO::try_import(buf) {
            Some(r) => r,
            None => Err(XboError::MissingHeader),
        }
    }
}

/// The bytes an exported vertex of the format takes: joint and weight,
/// position and normal (six `f32`), then texture coordinates (two `f32`)
/// and color (four bytes) as the format has them.
pub open spec fn sb_stride(format: VertexFormat) -> nat {
    match format {
        VertexFormat::Xbo => 44,
        VertexFormat::Xbo2 => 40,
        VertexFormat::Sha => 32,
        VertexFormat::Unknown => 0,
    }
}

pub open spec fn sb_vertices_size(m: MeshXBO) -> nat {
    sb_stride(m.format) * m.vertices@.len()
}

/// Sum of the exported vertex bytes of the first `k` meshes.
pub open spec fn sb_vertices_total(ms: Seq<MeshXBO>, k: nat) -> nat
    decreases k,
{
    if k == 0 {
        0
    } else {
        sb_vertices_total(ms, (k - 1) as nat) + sb_vertices_size(ms[k - 1])
    }
}

/// Sum of the index bytes of the first `k` meshes.
pub open spec fn sb_indices_total(ms: Seq<MeshXBO>, k: nat) -> nat
    decreases k,
{
    if k == 0 {
        0
    } else {
        sb_indices_total(ms, (k - 1) as nat) + 2 * ms[k - 1].indices@.len()
    }
}

proof fn lemma_sb_totals_mono(ms: Seq<MeshXBO>, j: nat, k: nat)
    requires
        j <= k,
    ensures
        sb_vertices_total(ms, j) <= sb_vertices_total(ms, k),
        sb_indices_total(ms, j) <= sb_indices_total(ms, k),
    decreases k,
{
    if j < k {
        lemma_sb_totals_mono(ms, j, (k - 1) as nat);
    }
}

fn stride_of(format: VertexFormat) -> (r: usize)
    ensures
        r == sb_stride(format),
{
    match format {
        VertexFormat::Xbo => JOINT_SIZE + 36,
        VertexFormat::Xbo2 => JOINT_SIZE + 32,
        VertexFormat::Sha => JOINT_SIZE + 24,
        VertexFormat::Unknown => 0,
    }
}

/// The accessors of a mesh's vertices in the vertex view `view`: joints,
/// weights, position and normal, then texture coordinates for the formats
/// that have them and colors for the format that has them.
pub open spec fn sb_mesh_accessors(m: MeshXBO, view: nat) -> Seq<GltfAccessor> {
    let n = m.vertex_count as nat;
    let acc = |a: AttributeKind, off: nat, c: ComponentKind, e: ElementKind, norm: bool|
        GltfAccessor {
            attribute: Some(a),
            view: view as usize,
            byte_offset: Some(off as usize),
            count: n as usize,
            component: c,
            element: e,
            normalized: norm,
        };
    seq![
        acc(AttributeKind::Joints, 0, ComponentKind::U8, ElementKind::Vec4, false),
        acc(AttributeKind::Weights, 4, ComponentKind::U8, ElementKind::Vec4, true),
        acc(AttributeKind::Positions, 8, ComponentKind::F32, ElementKind::Vec3, false),
        acc(AttributeKind::Normals, 20, ComponentKind::F32, ElementKind::Vec3, false),
    ] + opt_accessor(
        m.format == VertexFormat::Xbo || m.format == VertexFormat::Xbo2,
        acc(AttributeKind::TexCoords, 32, ComponentKind::F32, ElementKind::Vec2, false),
    ) + opt_accessor(
        m.format == VertexFormat::Xbo,
        acc(AttributeKind::Colors, 40, ComponentKind::U8, ElementKind::Vec4, false),
    )
}

/// The views, accessors and primitives after mesh `k` is added to `parts`:
/// its vertex view, its index view (after all vertex bytes `vsize`), its
/// accessors, and its primitive, a triangle strip with indices.
pub open spec fn sb_layout_step(
    ms: Seq<MeshXBO>,
    vsize: nat,
    k: nat,
    parts: (Seq<GltfView>, Seq<GltfAccessor>, Seq<GltfPrimitive>),
) -> (Seq<GltfView>, Seq<GltfAccessor>, Seq<GltfPrimitive>) {
    let m = ms[k as int];
    let (vs, accs, ps) = parts;
    let vv = vs.len();
    let vview = GltfView {
        byte_offset: sb_vertices_total(ms, k) as usize,
        byte_length: sb_vertices_size(m) as usize,
        byte_stride: Some(sb_stride(m.format) as usize),
        indices: false,
    };
    let iview = GltfView {
        byte_offset: (vsize + sb_indices_total(ms, k)) as usize,
        byte_length: (2 * m.indices@.len()) as usize,
        byte_stride: None,
        indices: true,
    };
    let va = sb_mesh_accessors(m, vv);
    let ia = GltfAccessor {
        attribute: None,
        view: (vv + 1) as usize,
        byte_offset: None,
        count: m.indices@.len() as usize,
        component: ComponentKind::U16,
        element: ElementKind::Scalar,
        normalized: false,
    };
    let prim = GltfPrimitive {
        first_attribute: accs.len() as usize,
        attribute_count: va.len() as usize,
        indices: Some((accs.len() + va.len()) as usize),
        mode: PrimitiveMode::TriangleStrip,
        textured: false,
    };
    (vs.push(vview).push(iview), accs + va.push(ia), ps.push(prim))
}

/// The views, accessors and primitives of the first `k` meshes.
pub open spec fn sb_layout_upto(ms: Seq<MeshXBO>, vsize: nat, k: nat) -> (
    Seq<GltfView>,
    Seq<GltfAccessor>,
    Seq<GltfPrimitive>,
)
    decreases k,
{
    if k == 0 {
        (Seq::empty(), Seq::empty(), Seq::empty())
    } else {
        sb_layout_step(ms, vsize, (k - 1) as nat, sb_layout_upto(ms, vsize, (k - 1) as nat))
    }
}

/// `node` is node `i` of the model `x`: named after the special kind whose
/// node it is, with the nodes whose parent it is as children; this format
/// writes no mirrors.
pub open spec fn sb_node_matches(node: GltfNode, x: XBO, i: nat) -> bool {
    &&& node.special == first_special(x.specials@, i, 0)
    &&& node.children@ == children_of(x.parents@, i, x.parents@.len())
    &&& node.mirror is None
    &&& !node.meta
}

impl MeshXBO {
    /// The mesh's accessors appended to `accessors`, in `vertex_view` and
    /// `index_view`, and its primitive.
    fn gltf_attributes(&self, accessors: &mut Vec<GltfAccessor>, vertex_view: usize, index_view: usize) -> (r:
        GltfPrimitive)
        requires
            old(accessors)@.len() + 8 <= usize::MAX,
            index_view == vertex_view + 1,
        ensures
            ({
                let va = sb_mesh_accessors(*self, vertex_view as nat);
                &&& final(accessors)@ == old(accessors)@ + va.push(
                    GltfAccessor {
                        attribute: None,
                        view: index_view,
                        byte_offset: None,
                        count: self.indices@.len() as usize,
                        component: ComponentKind::U16,
                        element: ElementKind::Scalar,
                        normalized: false,
                    },
                )
                &&& r == GltfPrimitive {
                    first_attribute: old(accessors)@.len() as usize,
                    attribute_count: va.len() as usize,
                    indices: Some((old(accessors)@.len() + va.len()) as usize),
                    mode: PrimitiveMode::TriangleStrip,
                    textured: false,
                }
            }),
    {
        let ghost a0 = accessors@;
        let base: usize = accessors.len();
        let n: usize = self.vertex_count as usize;
        accessors.push(GltfAccessor { attribute: Some(AttributeKind::Joints), view: vertex_view, byte_offset: Some(0), count: n, component: ComponentKind::U8, element: ElementKind::Vec4, normalized: false });
        accessors.push(GltfAccessor { attribute: Some(AttributeKind::Weights), view: vertex_view, byte_offset: Some(4), count: n, component: ComponentKind::U8, element: ElementKind::Vec4, normalized: true });
        accessors.push(GltfAccessor { attribute: Some(AttributeKind::Positions), view: vertex_view, byte_offset: Some(8), count: n, component: ComponentKind::F32, element: ElementKind::Vec3, normalized: false });
        accessors.push(GltfAccessor { attribute: Some(AttributeKind::Normals), view: vertex_view, byte_offset: Some(20), count: n, component: ComponentKind::F32, element: ElementKind::Vec3, normalized: false });
        if self.format == VertexFormat::Xbo || self.format == VertexFormat::Xbo2 {
            accessors.push(GltfAccessor { attribute: Some(AttributeKind::TexCoords), view: vertex_view, byte_offset: Some(32), count: n, component: ComponentKind::F32, element: ElementKind::Vec2, normalized: false });
        }
        if self.format == VertexFormat::Xbo {
            accessors.push(GltfAccessor { attribute: Some(AttributeKind::Colors), view: vertex_view, byte_offset: Some(40), count: n, component: ComponentKind::U8, element: ElementKind::Vec4, normalized: false });
        }
        let ghost va = sb_mesh_accessors(*self, vertex_view as nat);
        assert(accessors@ =~= a0 + va);
        let count: usize = accessors.len() - base;
        accessors.push(GltfAccessor { attribute: None, view: index_view, byte_offset: None, count: self.indices.len(), component: ComponentKind::U16, element: ElementKind::Scalar, normalized: false });
        assert(accessors@ =~= a0 + va.push(
            GltfAccessor {
                attribute: None,
                view: index_view,
                byte_offset: None,
                count: self.indices@.len() as usize,
                component: ComponentKind::U16,
                element: ElementKind::Scalar,
                normalized: false,
            },
        ));
        GltfPrimitive {
            first_attribute: base,
            attribute_count: count,
            indices: Some(base + count),
            mode: PrimitiveMode::TriangleStrip,
            textured: false,
        }
    }
}

impl XBO {
    /// The bytes that the exported vertices and indices take.
    pub fn size(&self) -> (r: (usize, usize))
        requires
            sb_vertices_total(self.meshes@, self.meshes@.len()) <= usize::MAX,
            sb_indices_total(self.meshes@, self.meshes@.len()) <= usize::MAX,
        ensures
            r.0 == sb_vertices_total(self.meshes@, self.meshes@.len()),
            r.1 == sb_indices_total(self.meshes@, self.meshes@.len()),
    {
        let n: usize = self.meshes.len();
        let mut vertices_size: usize = 0;
        let mut indices_size: usize = 0;
        let mut k: usize = 0;
        while k < n
            invariant
                k <= n,
                n == self.meshes@.len(),
                sb_vertices_total(self.meshes@, n as nat) <= usize::MAX,
                sb_indices_total(self.meshes@, n as nat) <= usize::MAX,
                vertices_size == sb_vertices_total(self.meshes@, k as nat),
                indices_size == sb_indices_total(self.meshes@, k as nat),
            decreases n - k,
        {
            proof {
                lemma_sb_totals_mono(self.meshes@, (k + 1) as nat, n as nat);
            }
            let m = &self.meshes[k];
            let stride: usize = stride_of(m.format);
            let vlen: usize = m.vertices.len();
            assert(stride * vlen == sb_vertices_size(*m));
            vertices_size = vertices_size + stride * vlen;
            indices_size = indices_size + 2 * m.indices.len();
            k = k + 1;
        }
        (vertices_size, indices_size)
    }

    /// Repeats each mesh's first index in front, which turns every face;
    /// every mesh must have indices.
    pub fn flip_faces(&mut self)
        requires
            forall|k: int|
                0 <= k < old(self).meshes@.len() ==> 0 < #[trigger] old(self).meshes@[k].indices@.len()
                    < usize::MAX,
        ensures
            final(self).parents == old(self).parents,
            final(self).specials == old(self).specials,
            final(self).mirrors == old(self).mirrors,
            final(self).position_bits == old(self).position_bits,
            final(self).rotation_bits == old(self).rotation_bits,
            final(self).meshes@.len() == old(self).meshes@.len(),
            forall|k: int|
                0 <= k < old(self).meshes@.len() ==> {
                    let o = old(self).meshes@[k];
                    let m = #[trigger] final(self).meshes@[k];
                    &&& m.indices@ == seq![o.indices@[0]] + o.indices@
                    &&& m.vertices@ == o.vertices@
                    &&& m.format == o.format
                    &&& m.position_bits == o.position_bits
                    &&& m.rotation_bits == o.rotation_bits
                    &&& m.triangle_count == o.triangle_count
                    &&& m.vertex_count == o.vertex_count
                },
    {
        let ghost ms = self.meshes@;
        let mut rest: Vec<MeshXBO> = Vec::new();
        std::mem::swap(&mut rest, &mut self.meshes);
        let n: usize = rest.len();
        let mut k: usize = 0;
        while k < n
            invariant
                k <= n,
                n == ms.len(),
                ms == old(self).meshes@,
                rest@ == ms.subrange(k as int, n as int),
                self.meshes@.len() == k,
                self.parents == old(self).parents,
                self.specials == old(self).specials,
                self.mirrors == old(self).mirrors,
                self.position_bits == old(self).position_bits,
                self.rotation_bits == old(self).rotation_bits,
                forall|j: int| 0 <= j < n ==> 0 < #[trigger] ms[j].indices@.len() < usize::MAX,
                forall|j: int|
                    0 <= j < k ==> {
                        let o = ms[j];
                        let m = #[trigger] self.meshes@[j];
                        &&& m.indices@ == seq![o.indices@[0]] + o.indices@
                        &&& m.vertices@ == o.vertices@
                        &&& m.format == o.format
                        &&& m.position_bits == o.position_bits
                        &&& m.rotation_bits == o.rotation_bits
                        &&& m.triangle_count == o.triangle_count
                        &&& m.vertex_count == o.vertex_count
                    },
            decreases n - k,
        {
            let mut m = rest.remove(0);
            assert(m == ms[k as int]);
            let first: u16 = m.indices[0];
            m.indices.insert(0, first);
            assert(m.indices@ =~= seq![ms[k as int].indices@[0]] + ms[k as int].indices@);
            self.meshes.push(m);
            assert(rest@ =~= ms.subrange(k + 1, n as int));
            k = k + 1;
        }
    }

    /// The structure of the model's glTF document (see `sb_layout_upto`
    /// and `sb_node_matches`): the buffer holds the exported vertices, then
    /// the indices.
    #[verifier::rlimit(40)]
    pub fn gltf_layout(&self) -> (r: GltfLayout)
        requires
            sb_vertices_total(self.meshes@, self.meshes@.len()) + sb_indices_total(
                self.meshes@,
                self.meshes@.len(),
            ) <= usize::MAX,
            self.meshes@.len() < usize::MAX / 8,
            self.parents@.len() <= self.meshes@.len() + 1,
        ensures
            ({
                let ms = self.meshes@;
                let vsize = sb_vertices_total(ms, ms.len());
                let p = sb_layout_upto(ms, vsize, ms.len());
                &&& r.buffer_length == vsize + sb_indices_total(ms, ms.len())
                &&& r.views@ == p.0
                &&& r.accessors@ == p.1
                &&& r.primitives@ == p.2
                &&& r.nodes@.len() == ms.len() + 1
                &&& forall|i: int|
                    0 <= i < r.nodes@.len() ==> #[trigger] sb_node_matches(r.nodes@[i], *self, i as nat)
                &&& skin_and_scene(r)
            }),
    {
        let ghost ms = self.meshes@;
        proof {
            lemma_sb_totals_mono(ms, ms.len(), ms.len());
        }
        let (vsize, isize) = self.size();
        let n: usize = self.meshes.len();
        let mut views: Vec<GltfView> = Vec::new();
        let mut accessors: Vec<GltfAccessor> = Vec::new();
        let mut primitives: Vec<GltfPrimitive> = Vec::new();
        let mut voff: usize = 0;
        let mut ioff: usize = 0;
        let mut k: usize = 0;
        while k < n
            invariant
                k <= n,
                n == ms.len(),
                ms == self.meshes@,
                n < usize::MAX / 8,
                vsize == sb_vertices_total(ms, n as nat),
                isize == sb_indices_total(ms, n as nat),
                vsize + isize <= usize::MAX,
                voff == sb_vertices_total(ms, k as nat),
                ioff == sb_indices_total(ms, k as nat),
                sb_layout_upto(ms, vsize as nat, k as nat) == (views@, accessors@, primitives@),
                views@.len() == 2 * k,
                accessors@.len() <= 7 * k,
            decreases n - k,
        {
            proof {
                lemma_sb_totals_mono(ms, (k + 1) as nat, n as nat);
            }
            let m = &self.meshes[k];
            let stride: usize = stride_of(m.format);
            let vlen: usize = m.vertices.len();
            assert(stride * vlen == sb_vertices_size(*m));
            let vbytes: usize = stride * vlen;
            let ibytes: usize = 2 * m.indices.len();
            let vv: usize = views.len();
            views.push(GltfView { byte_offset: voff, byte_length: vbytes, byte_stride: Some(stride), indices: false });
            views.push(GltfView { byte_offset: vsize + ioff, byte_length: ibytes, byte_stride: None, indices: true });
            let prim = m.gltf_attributes(&mut accessors, vv, vv + 1);
            primitives.push(prim);
            voff = voff + vbytes;
            ioff = ioff + ibytes;
            k = k + 1;
        }
        let count: usize = n + 1;
        let mut nodes: Vec<GltfNode> = Vec::with_capacity(count);
        let mut i: usize = 0;
        while i < count
            invariant
                i <= count,
                count == self.meshes@.len() + 1,
                nodes@.len() == i,
                forall|j: int| 0 <= j < i ==> #[trigger] sb_node_matches(nodes@[j], *self, j as nat),
            decreases count - i,
        {
            let special = find_special(&self.specials, i);
            let children = find_children(&self.parents, i);
            nodes.push(GltfNode { special, children, mirror: None, meta: false });
            i = i + 1;
        }
        let skin_joints = all_joints(count);
        let scene_nodes: Vec<usize> = vec![0usize];
        assert(scene_nodes@ =~= seq![0usize]);
        GltfLayout {
            buffer_length: vsize + isize,
            views,
            accessors,
            primitives,
            nodes,
            mesh_node: 0,
            skin_joints,
            skeleton: 0,
            scene_nodes,
        }
    }
}

} // verus!
