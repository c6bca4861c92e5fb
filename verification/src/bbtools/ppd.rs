//! Hitboxes (PPD): colliders, each a tree of axis-aligned boxes whose
//! leaves hold quads, and the bones the colliders follow. The tree is kept
//! flat: its boxes in the order they are read, each with its depth, and its
//! quads in that order too. Positions and normals stay as they are stored
//! (integers and `f32` bits); the export scales them.
use vstd::prelude::*;

use crate::bytes::{copy_range, le16, le32, le48, read_i32_le, read_u16_le, read_u32_le, read_u48_le};
use vstd::std_specs::bits::u64_trailing_zeros;

verus! {

pub const AABB_SIZE: usize = 32;

pub const QUAD_SIZE: usize = 80;

pub const PPD_HEADER_SIZE: usize = 16;

pub const COLLIDER_QUAD_TRIANGLES_SIZE: usize = 72;

pub const COLLIDER_QUAD_LAYERS_SIZE: usize = 2;

/// The depth at which the reader gives up.
pub const MAX_LEVEL: usize = 0xFF;

/// A quad's collision: the layers it blocks and its surface type (0xFF for none).
#[derive(Clone, Copy, PartialEq, Eq, Structural, Debug)]
pub struct Surface(pub u16, pub u8);

pub open spec fn surface_type(surface_bit: u64) -> u32 {
    if u64_trailing_zeros(surface_bit) < 48 {
        u64_trailing_zeros(surface_bit)
    } else {
        48
    }
}

/// The surface of a quad, from the bit that marks its type.
pub open spec fn spec_surface(layers: u16, surface_bit: u64) -> Surface {
    if surface_bit == 0 {
        Surface(layers, 0xFF)
    } else {
        Surface(layers, surface_type(surface_bit) as u8)
    }
}

/// Only the first 28 surface types exist.
pub open spec fn surface_ok(surface_bit: u64) -> bool {
    surface_bit == 0 || surface_type(surface_bit) < 28
}

impl Surface {
    /// The surface with the type of the lowest bit set in `surface_bit`.
    pub fn new(layers: u16, surface_bit: u64) -> (r: Self)
        requires
            surface_ok(surface_bit),
        ensures
            r == spec_surface(layers, surface_bit),
    {
        if surface_bit == 0 {
            return Surface(layers, 0xFF);
        }
        let tz: u32 = surface_bit.trailing_zeros();
        let t: u32 = if tz < 48 {
            tz
        } else {
            48
        };
        Surface(layers, t as u8)
    }
}

/// A quad of a collider: its surface, its four corners and its normal (as
/// `f32` bits), and its depth in the tree.
pub struct Quad {
    pub surface: Surface,
    /// x, y and z of each corner in turn.
    pub vertices_bits: Vec<u32>,
    pub normal_bits: (u32, u32, u32),
    pub level: usize,
}

/// A quad can be read: its two padding words are zero and its surface exists.
pub open spec fn quad_ok(b: Seq<u8>, p: int) -> bool {
    &&& le32(b, p + 52) == 0
    &&& le32(b, p + 76) == 0
    &&& surface_ok(le48(b, p + 56) as u64)
}

/// `q` is the quad stored at `p` of `b`, at depth `level`.
pub open spec fn quad_matches(q: Quad, b: Seq<u8>, p: int, level: int) -> bool {
    &&& q.surface == spec_surface(le16(b, p + 62) as u16, le48(b, p + 56) as u64)
    &&& q.vertices_bits@ == Seq::new(12, |k: int| le32(b, p + 4 + 4 * k) as u32)
    &&& q.normal_bits == (le32(b, p + 64) as u32, le32(b, p + 68) as u32, le32(b, p + 72) as u32)
    &&& q.level == level
}

/// A box of a collider's tree as stored: its center and half extents, the
/// counts of child boxes and quads, the distance to its next sibling (0
/// for the last), and its depth.
#[derive(Clone, Copy, PartialEq, Eq, Debug)]
pub struct AabbHeader {
    pub center: (i32, i32, i32),
    pub extents: (u16, u16, u16),
    pub child_aabb_count: u16,
    pub child_quad_count: u16,
    pub next_offset: u32,
    pub level: usize,
}

pub open spec fn i32_at(b: Seq<u8>, p: int) -> i32 {
    (le32(b, p) as u32) as i32
}

/// `h` is the box stored at `p` of `b`, at depth `level`.
pub open spec fn header_matches(h: AabbHeader, b: Seq<u8>, p: int, level: int) -> bool {
    &&& h.center == (i32_at(b, p), i32_at(b, p + 4), i32_at(b, p + 8))
    &&& h.extents == (le16(b, p + 12) as u16, le16(b, p + 14) as u16, le16(b, p + 16) as u16)
    &&& h.child_aabb_count == le16(b, p + 18)
    &&& h.child_quad_count == le16(b, p + 20)
    &&& h.next_offset == le32(b, p + 24)
    &&& h.level == level
}

/// The `n` quads that follow `p` at depth `level`: their places, or `None`
/// where the tree is too deep, they do not fit, or one cannot be read.
pub open spec fn quads_at(b: Seq<u8>, p: int, level: int, n: nat) -> Option<Seq<(int, int)>> {
    if level >= MAX_LEVEL || p < 0 || p + QUAD_SIZE * n > b.len() {
        None
    } else if forall|k: int| 0 <= k < n ==> #[trigger] quad_ok(b, p + QUAD_SIZE * k) {
        Some(Seq::new(n, |k: int| (p + QUAD_SIZE * k, level)))
    } else {
        None
    }
}

/// The boxes and quads of the chain of sibling boxes that starts at `p` at
/// depth `level`, in the order they are read (each box, then its children,
/// then its next sibling), as places and depths; `None` where the tree is
/// too deep or a part does not fit or cannot be read.
pub open spec fn parse_chain(b: Seq<u8>, p: int, level: int) -> Option<
    (Seq<(int, int)>, Seq<(int, int)>),
>
    decreases MAX_LEVEL - level, b.len() - p,
{
    if level < 0 || level >= MAX_LEVEL || p < 0 || p + AABB_SIZE > b.len() {
        None
    } else {
        let kids = if le16(b, p + 18) > 0 {
            parse_chain(b, p + AABB_SIZE, level + 1)
        } else {
            match quads_at(b, p + AABB_SIZE, level + 1, le16(b, p + 20)) {
                None => None,
                Some(qs) => Some((Seq::<(int, int)>::empty(), qs)),
            }
        };
        match kids {
            None => None,
            Some((bs, qs)) => {
                let next = le32(b, p + 24) as int;
                if next == 0 {
                    Some((seq![(p, level)] + bs, qs))
                } else if p + next + AABB_SIZE > b.len() {
                    None
                } else {
                    match parse_chain(b, p + next, level) {
                        None => None,
                        Some((bs2, qs2)) => Some((seq![(p, level)] + bs + bs2, qs + qs2)),
                    }
                }
            }
        }
    }
}

/// `v` is `old` followed by the boxes at the places `ps`.
pub open spec fn boxes_follow(v: Seq<AabbHeader>, old: Seq<AabbHeader>, b: Seq<u8>, ps: Seq<(int, int)>) -> bool {
    &&& v.len() == old.len() + ps.len()
    &&& v.subrange(0, old.len() as int) == old
    &&& forall|k: int|
        0 <= k < ps.len() ==> #[trigger] header_matches(v[old.len() + k], b, ps[k].0, ps[k].1)
}

/// `v` is `old` followed by the quads at the places `ps`.
pub open spec fn quads_follow(v: Seq<Quad>, old: Seq<Quad>, b: Seq<u8>, ps: Seq<(int, int)>) -> bool {
    &&& v.len() == old.len() + ps.len()
    &&& v.subrange(0, old.len() as int) == old
    &&& forall|k: int|
        0 <= k < ps.len() ==> #[trigger] quad_matches(v[old.len() + k], b, ps[k].0, ps[k].1)
}

/// Reads the quad at `p`.
fn read_quad(b: &[u8], p: usize, level: usize) -> (r: Option<Quad>)
    requires
        p + QUAD_SIZE <= b@.len(),
    ensures
        r is Some <==> quad_ok(b@, p as int),
        r matches Some(q) ==> quad_matches(q, b@, p as int, level as int),
{
    let n: usize = b.len();
    if read_u32_le(b, p + 52) != 0 || read_u32_le(b, p + 76) != 0 {
        return None;
    }
    let surface_bit: u64 = read_u48_le(b, p + 56);
    let tz: u32 = surface_bit.trailing_zeros();
    if surface_bit != 0 && tz >= 28 {
        return None;
    }
    let layers: u16 = read_u16_le(b, p + 62);
    let mut vertices_bits: Vec<u32> = Vec::with_capacity(12);
    let mut k: usize = 0;
    while k < 12
        invariant
            k <= 12,
            n == b@.len(),
            p + QUAD_SIZE <= b@.len(),
            vertices_bits@ == Seq::new(k as nat, |j: int| le32(b@, p + 4 + 4 * j) as u32),
        decreases 12 - k,
    {
        vertices_bits.push(read_u32_le(b, p + 4 + 4 * k));
        k = k + 1;
        assert(vertices_bits@ =~= Seq::new(k as nat, |j: int| le32(b@, p + 4 + 4 * j) as u32));
    }
    Some(
        Quad {
            surface: Surface::new(layers, surface_bit),
            vertices_bits,
            normal_bits: (read_u32_le(b, p + 64), read_u32_le(b, p + 68), read_u32_le(b, p + 72)),
            level,
        },
    )
}

/// Reads the box header at `p`.
fn read_header(b: &[u8], p: usize, level: usize) -> (r: AabbHeader)
    requires
        p + AABB_SIZE <= b@.len(),
    ensures
        header_matches(r, b@, p as int, level as int),
{
    let _n: usize = b.len();
    AabbHeader {
        center: (read_i32_le(b, p), read_i32_le(b, p + 4), read_i32_le(b, p + 8)),
        extents: (read_u16_le(b, p + 12), read_u16_le(b, p + 14), read_u16_le(b, p + 16)),
        child_aabb_count: read_u16_le(b, p + 18),
        child_quad_count: read_u16_le(b, p + 20),
        next_offset: read_u32_le(b, p + 24),
        level,
    }
}

/// Appends the `n` quads at `p` (see `quads_at`); false where they cannot
/// be read.
fn read_quads(b: &[u8], p: usize, level: usize, n: usize, quads: &mut Vec<Quad>) -> (ok: bool)
    ensures
        match quads_at(b@, p as int, level as int, n as nat) {
            Some(qs) => ok && quads_follow(final(quads)@, old(quads)@, b@, qs),
            None => !ok,
        },
{
    let len: usize = b.len();
    if level >= MAX_LEVEL || p > len || n > (len - p) / QUAD_SIZE {
        proof {
            if level < MAX_LEVEL && p <= len {
                assert(p + QUAD_SIZE * n > len) by (nonlinear_arith)
                    requires
                        n > (len - p) / 80,
                        QUAD_SIZE == 80,
                ;
            }
        }
        return false;
    }
    assert(p + QUAD_SIZE * n <= len) by (nonlinear_arith)
        requires
            n <= (len - p) / 80,
            p <= len,
            QUAD_SIZE == 80,
    ;
    let ghost old_quads = quads@;
    let mut k: usize = 0;
    while k < n
        invariant
            k <= n,
            len == b@.len(),
            p + QUAD_SIZE * n <= len,
            level < MAX_LEVEL,
            quads@.len() == old_quads.len() + k,
            quads@.subrange(0, old_quads.len() as int) == old_quads,
            forall|j: int| 0 <= j < k ==> #[trigger] quad_ok(b@, p + QUAD_SIZE * j),
            forall|j: int|
                0 <= j < k ==> #[trigger] quad_matches(
                    quads@[old_quads.len() + j],
                    b@,
                    p + QUAD_SIZE * j,
                    level as int,
                ),
        decreases n - k,
    {
        assert(p + QUAD_SIZE * k + QUAD_SIZE <= len) by (nonlinear_arith)
            requires
                k < n,
                p + QUAD_SIZE * n <= len,
                QUAD_SIZE == 80,
        ;
        match read_quad(b, p + QUAD_SIZE * k, level) {
            None => {
                return false;
            },
            Some(q) => {
                let ghost before = quads@;
                quads.push(q);
                assert(quads@.subrange(0, old_quads.len() as int) =~= before.subrange(
                    0,
                    old_quads.len() as int,
                ));
            },
        }
        k = k + 1;
    }
    proof {
        let qs = Seq::new(n as nat, |j: int| (p + QUAD_SIZE * j, level as int));
        assert(quads_at(b@, p as int, level as int, n as nat) == Some(qs));
        assert forall|j: int| 0 <= j < qs.len() implies #[trigger] quad_matches(
            quads@[old_quads.len() + j],
            b@,
            qs[j].0,
            qs[j].1,
        ) by {}
    }
    true
}


proof fn lemma_boxes_chain(
    v2: Seq<AabbHeader>,
    v1: Seq<AabbHeader>,
    v0: Seq<AabbHeader>,
    b: Seq<u8>,
    ps0: Seq<(int, int)>,
    ps1: Seq<(int, int)>,
)
    requires
        boxes_follow(v1, v0, b, ps0),
        boxes_follow(v2, v1, b, ps1),
    ensures
        boxes_follow(v2, v0, b, ps0 + ps1),
{
    assert(v2.subrange(0, v0.len() as int) =~= v1.subrange(0, v0.len() as int)) by {
        assert forall|i: int| 0 <= i < v0.len() implies v2[i] == v1[i] by {
            assert(v2.subrange(0, v1.len() as int)[i] == v1[i]);
        }
    }
    assert forall|k: int| 0 <= k < (ps0 + ps1).len() implies #[trigger] header_matches(
        v2[v0.len() + k],
        b,
        (ps0 + ps1)[k].0,
        (ps0 + ps1)[k].1,
    ) by {
        if k < ps0.len() {
            assert(v2.subrange(0, v1.len() as int)[v0.len() + k] == v1[v0.len() + k]);
            assert(header_matches(v1[v0.len() + k], b, ps0[k].0, ps0[k].1));
        } else {
            let j = k - ps0.len();
            assert(header_matches(v2[v1.len() + j], b, ps1[j].0, ps1[j].1));
        }
    }
}

proof fn lemma_quads_chain(
    v2: Seq<Quad>,
    v1: Seq<Quad>,
    v0: Seq<Quad>,
    b: Seq<u8>,
    ps0: Seq<(int, int)>,
    ps1: Seq<(int, int)>,
)
    requires
        quads_follow(v1, v0, b, ps0),
        quads_follow(v2, v1, b, ps1),
    ensures
        quads_follow(v2, v0, b, ps0 + ps1),
{
    assert(v2.subrange(0, v0.len() as int) =~= v1.subrange(0, v0.len() as int)) by {
        assert forall|i: int| 0 <= i < v0.len() implies v2[i] == v1[i] by {
            assert(v2.subrange(0, v1.len() as int)[i] == v1[i]);
        }
    }
    assert forall|k: int| 0 <= k < (ps0 + ps1).len() implies #[trigger] quad_matches(
        v2[v0.len() + k],
        b,
        (ps0 + ps1)[k].0,
        (ps0 + ps1)[k].1,
    ) by {
        if k < ps0.len() {
            assert(v2.subrange(0, v1.len() as int)[v0.len() + k] == v1[v0.len() + k]);
            assert(quad_matches(v1[v0.len() + k], b, ps0[k].0, ps0[k].1));
        } else {
            let j = k - ps0.len();
            assert(quad_matches(v2[v1.len() + j], b, ps1[j].0, ps1[j].1));
        }
    }
}

/// Appends the boxes and quads of the chain of sibling boxes at `p` (see
/// `parse_chain`); false where it cannot be read.
fn read_chain(
    b: &[u8],
    p: usize,
    level: usize,
    boxes: &mut Vec<AabbHeader>,
    quads: &mut Vec<Quad>,
) -> (ok: bool)
    ensures
        match parse_chain(b@, p as int, level as int) {
            Some((bs, qs)) => ok && boxes_follow(final(boxes)@, old(boxes)@, b@, bs) && quads_follow(
                final(quads)@,
                old(quads)@,
                b@,
                qs,
            ),
            None => !ok,
        },
    decreases MAX_LEVEL - level, b@.len() - p,
{
    let len: usize = b.len();
    if level >= MAX_LEVEL || p > len || len - p < AABB_SIZE {
        return false;
    }
    let h = read_header(b, p, level);
    let ghost b0 = boxes@;
    let ghost q0 = quads@;
    boxes.push(h);
    let ghost b1 = boxes@;
    proof {
        assert(b1.subrange(0, b0.len() as int) =~= b0);
        assert(header_matches(b1[b0.len() as int], b@, seq![(p as int, level as int)][0].0, seq![(p as int, level as int)][0].1));
        assert(boxes_follow(b1, b0, b@, seq![(p as int, level as int)]));
        assert(quads_follow(q0, q0, b@, Seq::empty())) by {
            assert(q0.subrange(0, q0.len() as int) =~= q0);
        }
    }
    let ok: bool = if h.child_aabb_count > 0 {
        read_chain(b, p + AABB_SIZE, level + 1, boxes, quads)
    } else {
        read_quads(b, p + AABB_SIZE, level + 1, h.child_quad_count as usize, quads)
    };
    if !ok {
        return false;
    }
    let ghost b2 = boxes@;
    let ghost q2 = quads@;
    let ghost kids = if h.child_aabb_count > 0 {
        parse_chain(b@, p + AABB_SIZE, level + 1)
    } else {
        match quads_at(b@, p + AABB_SIZE, level + 1, h.child_quad_count as nat) {
            None => None,
            Some(qs) => Some((Seq::<(int, int)>::empty(), qs)),
        }
    };
    assert(kids is Some);
    let ghost bs = kids->Some_0.0;
    let ghost qs = kids->Some_0.1;
    proof {
        if h.child_aabb_count == 0 {
            assert(boxes_follow(b2, b1, b@, bs)) by {
                assert(b2.subrange(0, b1.len() as int) =~= b1);
            }
            lemma_quads_chain(q2, q0, q0, b@, Seq::empty(), qs);
            assert(Seq::<(int, int)>::empty() + qs =~= qs);
        } else {
            assert(quads_follow(q2, q0, b@, qs));
        }
        lemma_boxes_chain(b2, b1, b0, b@, seq![(p as int, level as int)], bs);
    }
    if h.next_offset == 0 {
        return true;
    }
    let next: usize = h.next_offset as usize;
    if next > len - p || len - p - next < AABB_SIZE {
        return false;
    }
    let ok2: bool = read_chain(b, p + next, level, boxes, quads);
    if !ok2 {
        return false;
    }
    proof {
        let r2 = parse_chain(b@, p + next, level as int);
        let bs2 = r2->Some_0.0;
        let qs2 = r2->Some_0.1;
        lemma_boxes_chain(boxes@, b2, b0, b@, seq![(p as int, level as int)] + bs, bs2);
        lemma_quads_chain(quads@, q2, q0, b@, qs, qs2);
    }
    true
}


/// A collider's tree of boxes, kept flat: its boxes in the order they are
/// read (each box, then its children, then its next sibling), each with its
/// depth, and its quads in that order.
pub struct AABB {
    pub boxes: Vec<AabbHeader>,
    pub quads: Vec<Quad>,
}

/// `t` is the tree whose first box lies at `p` of `b`.
pub open spec fn tree_read(b: Seq<u8>, p: int, t: AABB) -> bool {
    &&& parse_chain(b, p, 1) matches Some((bs, qs))
    &&& boxes_follow(t.boxes@, Seq::empty(), b, bs)
    &&& quads_follow(t.quads@, Seq::empty(), b, qs)
}

impl AABB {
    /// Reads the tree whose first box lies at `first_header_offset`, or
    /// `None` where it cannot be read (see `parse_chain`).
    pub fn import_tree(base_buf: &[u8], first_header_offset: usize) -> (r: Option<AABB>)
        ensures
            r is Some <==> parse_chain(base_buf@, first_header_offset as int, 1) is Some,
            r matches Some(t) ==> tree_read(base_buf@, first_header_offset as int, t),
    {
        let mut boxes: Vec<AabbHeader> = Vec::new();
        let mut quads: Vec<Quad> = Vec::new();
        if read_chain(base_buf, first_header_offset, 1, &mut boxes, &mut quads) {
            Some(AABB { boxes, quads })
        } else {
            None
        }
    }

    /// The quads of the tree.
    pub fn quad_count(&self) -> (r: usize)
        ensures
            r == self.quads@.len(),
    {
        self.quads.len()
    }
}

/// A collider: its tree and the bone it follows.
pub struct Collider {
    pub aabb: AABB,
    pub bone: Option<u8>,
}

impl Collider {
    /// Bytes of the exported triangles: two per quad.
    pub fn triangles_size(&self) -> (r: usize)
        requires
            self.aabb.quads@.len() * COLLIDER_QUAD_TRIANGLES_SIZE <= usize::MAX,
        ensures
            r == self.aabb.quads@.len() * COLLIDER_QUAD_TRIANGLES_SIZE,
    {
        self.aabb.quad_count() * COLLIDER_QUAD_TRIANGLES_SIZE
    }

    /// Bytes of the exported layers: one `u16` per quad.
    pub fn layers_size(&self) -> (r: usize)
        requires
            self.aabb.quads@.len() * COLLIDER_QUAD_LAYERS_SIZE <= usize::MAX,
        ensures
            r == self.aabb.quads@.len() * COLLIDER_QUAD_LAYERS_SIZE,
    {
        self.aabb.quad_count() * COLLIDER_QUAD_LAYERS_SIZE
    }

    /// Bytes of the exported surface types: one per quad.
    pub fn surfaces_size(&self) -> (r: usize)
        ensures
            r == self.aabb.quads@.len(),
    {
        self.aabb.quad_count()
    }
}

/// A hitbox: its margin (as `f32` bits), its colliders, and the node count
/// of the model it fits when its colliders follow bones.
pub struct PPD {
    pub margin_bits: u32,
    pub colliders: Vec<Collider>,
    pub node_count: Option<usize>,
}

pub open spec fn collider_bytes(b: Seq<u8>) -> Seq<u8> {
    b.subrange(PPD_HEADER_SIZE as int, b.len() as int)
}

pub open spec fn collider_count(b: Seq<u8>) -> nat {
    le32(b, 4)
}

/// Where the tree of collider `i` starts in the collider part.
pub open spec fn collider_offset(b: Seq<u8>, i: int) -> int {
    le32(collider_bytes(b), 4 * i) as int
}

pub open spec fn bone_offset(b: Seq<u8>) -> nat {
    le32(collider_bytes(b), 4 * collider_count(b) as int)
}

pub open spec fn bone_bytes(b: Seq<u8>) -> Seq<u8> {
    b.subrange(PPD_HEADER_SIZE + bone_offset(b), b.len() as int)
}

/// The bones of the first `j` (bone, collider) pairs of the bone table `bb`,
/// in order; pairs whose collider is 99 are left out.
pub open spec fn bone_list(bb: Seq<u8>, j: nat) -> Seq<u8>
    decreases j,
{
    if j == 0 {
        Seq::empty()
    } else {
        let prev = bone_list(bb, (j - 1) as nat);
        if bb[3 + 2 * (j - 1)] != 99 {
            prev.push(bb[2 + 2 * (j - 1)])
        } else {
            prev
        }
    }
}

proof fn lemma_bone_list_prefix(bb: Seq<u8>, j: nat, k: nat)
    requires
        j <= k,
    ensures
        bone_list(bb, j).len() <= bone_list(bb, k).len(),
        bone_list(bb, k).subrange(0, bone_list(bb, j).len() as int) == bone_list(bb, j),
    decreases k,
{
    if j < k {
        lemma_bone_list_prefix(bb, j, (k - 1) as nat);
        let p = bone_list(bb, (k - 1) as nat);
        assert(bone_list(bb, k).subrange(0, bone_list(bb, j).len() as int) =~= p.subrange(
            0,
            bone_list(bb, j).len() as int,
        ));
    } else {
        assert(bone_list(bb, k).subrange(0, bone_list(bb, j).len() as int) =~= bone_list(bb, j));
    }
}

/// A hitbox can be read: the collider table and every tree lie in the file,
/// and a bone table gives each collider, in order, a bone of the model
/// (whose node count is the bone count plus `fix`); without a bone table
/// there is one collider.
pub open spec fn ppd_ok(b: Seq<u8>, fix: nat) -> bool {
    let cb = collider_bytes(b);
    let cc = collider_count(b);
    &&& b.len() >= PPD_HEADER_SIZE
    &&& 4 * cc + 4 <= cb.len()
    &&& forall|i: int| 0 <= i < cc ==> #[trigger] parse_chain(cb, collider_offset(b, i), 1) is Some
    &&& if bone_offset(b) > 0 {
        let bb = bone_bytes(b);
        &&& PPD_HEADER_SIZE + bone_offset(b) + 2 <= b.len()
        &&& bb[1] == cc
        &&& 2 + 2 * bb[0] <= bb.len()
        &&& bone_list(bb, bb[0] as nat).len() == cc
        &&& forall|i: int| 0 <= i < cc ==> #[trigger] bone_list(bb, bb[0] as nat)[i] < bb[0] + fix
    } else {
        cc == 1
    }
}

/// `x` is the hitbox that `b` holds.
pub open spec fn ppd_read(b: Seq<u8>, fix: nat, x: PPD) -> bool {
    let cb = collider_bytes(b);
    let bb = bone_bytes(b);
    &&& x.margin_bits == le32(b, 0)
    &&& x.colliders@.len() == collider_count(b)
    &&& forall|i: int|
        0 <= i < collider_count(b) ==> #[trigger] tree_read(
            cb,
            collider_offset(b, i),
            x.colliders@[i].aabb,
        )
    &&& forall|i: int|
        0 <= i < collider_count(b) ==> (#[trigger] x.colliders@[i]).bone == if bone_offset(b) > 0 {
            Some(bone_list(bb, bb[0] as nat)[i])
        } else {
            None
        }
    &&& x.node_count == if bone_offset(b) > 0 {
        Some((bb[0] + fix) as usize)
    } else {
        None
    }
}

/// Reads the bone table `bb` for `cc` colliders (see `ppd_ok`): the bone of
/// each collider, or `None`.
fn read_bones(bb: &[u8], cc: usize, fix: usize) -> (r: Option<Vec<u8>>)
    requires
        bb@.len() >= 2,
        fix + 255 <= usize::MAX,
    ensures
        r is Some <==> (bb@[1] == cc && 2 + 2 * bb@[0] <= bb@.len() && bone_list(bb@, bb@[0] as nat).len()
            == cc && forall|i: int|
            0 <= i < cc ==> #[trigger] bone_list(bb@, bb@[0] as nat)[i] < bb@[0] + fix),
        r matches Some(v) ==> v@ == bone_list(bb@, bb@[0] as nat),
{
    let n: usize = bb.len();
    let bc: usize = bb[0] as usize;
    if bb[1] as usize != cc {
        return None;
    }
    if 2 + 2 * bc > n {
        return None;
    }
    let node_count: usize = bc + fix;
    let mut bones: Vec<u8> = Vec::with_capacity(cc);
    let mut j: usize = 0;
    while j < bc
        invariant
            j <= bc,
            bc == bb@[0],
            n == bb@.len(),
            2 + 2 * bc <= n,
            node_count == bc + fix,
            bb@[1] == cc,
            bones@ == bone_list(bb@, j as nat),
            bones@.len() <= cc,
            forall|i: int| 0 <= i < bones@.len() ==> #[trigger] bones@[i] < node_count,
        decreases bc - j,
    {
        let bone: u8 = bb[2 + 2 * j];
        let collider: u8 = bb[3 + 2 * j];
        if collider != 99 {
            proof {
                lemma_bone_list_prefix(bb@, (j + 1) as nat, bc as nat);
            }
            if bone as usize >= node_count {
                assert(bone_list(bb@, (j + 1) as nat)[bones@.len() as int] == bone);
                assert(bone_list(bb@, bc as nat).len() == cc ==> bone_list(bb@, bc as nat)[bones@.len() as int] == bone);
                return None;
            }
            if bones.len() >= cc {
                return None;
            }
            bones.push(bone);
        }
        j = j + 1;
    }
    if bones.len() != cc {
        return None;
    }
    Some(bones)
}

impl PPD {
    /// Reads a hitbox whose model has `node_count_fix` nodes beyond its
    /// bones, or `None` where it cannot be read (see `ppd_ok`). The margin,
    /// corners and normals stay unscaled; the export scales them.
    pub fn import_scaled(buf: &[u8], node_count_fix: usize) -> (r: Option<PPD>)
        requires
            node_count_fix + 255 <= usize::MAX,
        ensures
            r is Some <==> ppd_ok(buf@, node_count_fix as nat),
            r matches Some(x) ==> ppd_read(buf@, node_count_fix as nat, x),
    {
        let n: usize = buf.len();
        if n < PPD_HEADER_SIZE {
            return None;
        }
        let margin_bits: u32 = read_u32_le(buf, 0);
        let cc: usize = read_u32_le(buf, 4) as usize;
        let cb = copy_range(buf, PPD_HEADER_SIZE, n);
        let cbn: usize = cb.len();
        if cbn < 4 || cc > (cbn - 4) / 4 {
            return None;
        }
        let bo: usize = read_u32_le(cb.as_slice(), 4 * cc) as usize;
        let bones: Option<Vec<u8>> = if bo > 0 {
            if bo > n - PPD_HEADER_SIZE || n - PPD_HEADER_SIZE - bo < 2 {
                return None;
            }
            let bb = copy_range(buf, PPD_HEADER_SIZE + bo, n);
            match read_bones(bb.as_slice(), cc, node_count_fix) {
                None => {
                    return None;
                },
                Some(v) => Some(v),
            }
        } else {
            if cc != 1 {
                return None;
            }
            None
        };
        let node_count: Option<usize> = if bo > 0 {
            let bb0: u8 = buf[PPD_HEADER_SIZE + bo];
            Some(bb0 as usize + node_count_fix)
        } else {
            None
        };
        let mut colliders: Vec<Collider> = Vec::with_capacity(cc);
        let mut i: usize = 0;
        while i < cc
            invariant
                i <= cc,
                cc == collider_count(buf@),
                cb@ == collider_bytes(buf@),
                cbn == cb@.len(),
                4 * cc + 4 <= cbn,
                bo == bone_offset(buf@),
                bo > 0 ==> (bones matches Some(v) && v@ == bone_list(bone_bytes(buf@), bone_bytes(buf@)[0] as nat) && v@.len() == cc),
                bo == 0 ==> bones is None,
                colliders@.len() == i,
                forall|j: int| 0 <= j < i ==> #[trigger] parse_chain(cb@, collider_offset(buf@, j), 1) is Some,
                forall|j: int|
                    0 <= j < i ==> #[trigger] tree_read(cb@, collider_offset(buf@, j), colliders@[j].aabb),
                forall|j: int|
                    0 <= j < i ==> (#[trigger] colliders@[j]).bone == if bo > 0 {
                        Some(bone_list(bone_bytes(buf@), bone_bytes(buf@)[0] as nat)[j])
                    } else {
                        None
                    },
            decreases cc - i,
        {
            let off: usize = read_u32_le(cb.as_slice(), 4 * i) as usize;
            assert(off == collider_offset(buf@, i as int));
            let aabb = match AABB::import_tree(cb.as_slice(), off) {
                None => {
                    assert(parse_chain(cb@, collider_offset(buf@, i as int), 1) is None);
                    return None;
                },
                Some(t) => t,
            };
            let bone: Option<u8> = match &bones {
                Some(v) => Some(v[i]),
                None => None,
            };
            colliders.push(Collider { aabb, bone });
            i = i + 1;
        }
        Some(PPD { margin_bits, colliders, node_count })
    }

    /// The node count of the model the hitbox fits, where its colliders
    /// follow bones.
    pub fn get_node_count(&self) -> (r: Option<usize>)
        ensures
            r == self.node_count,
    {
        self.node_count
    }
}

} // verus!
