//! Animations (LMT): per animation, a track of key frames for each animated
//! node. Times stay in frames and rotations and positions as `f32` bits;
//! the export converts them to seconds, quaternions and scaled positions.
use vstd::prelude::*;

use crate::bytes::{le16, le32, read_u16_le, read_u32_le};

verus! {

pub const LMT_FRAME_SIZE: usize = 28;

/// Bytes of an exported frame: its time, position and rotation quaternion.
pub const LMT_FRAME_STRIDE: usize = 32;

/// A key frame: its time in frames, its rotation (Euler angles) and its
/// position, as `f32` bits.
pub struct Frame {
    pub time_frames: u16,
    pub rot_bits: (u32, u32, u32),
    pub pos_bits: (u32, u32, u32),
}

/// The key frames of one node.
pub struct Track {
    pub node: u32,
    pub frames: Vec<Frame>,
}

/// An animation: where it lies, its duration in frames and its tracks.
pub struct Animation {
    pub offset: usize,
    pub duration_frames: u32,
    pub tracks: Vec<Track>,
}

/// The animations of a model; each has a track slot per node.
pub struct LMT {
    pub track_count_max: usize,
    pub animations: Vec<Animation>,
}

pub open spec fn anim_offset(b: Seq<u8>, i: int) -> int {
    le32(b, 4 + 8 * i) as int
}

pub open spec fn anim_duration(b: Seq<u8>, i: int) -> nat {
    le32(b, 8 + 8 * i)
}

/// Track slot `j` of the animation at `o`: the track's distance from `o`,
/// or 0 for none.
pub open spec fn slot(b: Seq<u8>, o: int, j: int) -> int {
    le32(b, o + 4 * j) as int
}

/// Where the tracks of the first `j` slots of the animation at `o` lie,
/// in slot order; empty slots are left out.
pub open spec fn track_positions(b: Seq<u8>, o: int, j: nat) -> Seq<int>
    decreases j,
{
    if j == 0 {
        Seq::empty()
    } else {
        let prev = track_positions(b, o, (j - 1) as nat);
        if slot(b, o, j - 1) != 0 {
            prev.push(o + slot(b, o, j - 1))
        } else {
            prev
        }
    }
}

pub open spec fn frame_pos(p: int, k: int) -> int {
    p + 4 + LMT_FRAME_SIZE * k
}

/// The track at `p` can be read: its frames lie in the data and none comes
/// after the animation's duration `d` (compared in frames).
pub open spec fn track_ok(b: Seq<u8>, p: int, d: nat) -> bool {
    &&& 0 <= p
    &&& p + 4 <= b.len()
    &&& p + 4 + LMT_FRAME_SIZE * le16(b, p + 2) <= b.len()
    &&& forall|k: int| 0 <= k < le16(b, p + 2) ==> #[trigger] le16(b, frame_pos(p, k) + 2) <= d
}

/// Animation `i` can be read: its slots and each of its tracks.
pub open spec fn anim_ok(b: Seq<u8>, i: int) -> bool {
    let o = anim_offset(b, i);
    let ps = track_positions(b, o, b[0] as nat);
    &&& o + 4 * b[0] <= b.len()
    &&& forall|k: int| 0 <= k < ps.len() ==> #[trigger] track_ok(b, ps[k], anim_duration(b, i))
}

/// The animations can be read: their headers and each animation.
pub open spec fn lmt_ok(b: Seq<u8>) -> bool {
    &&& b.len() >= 2
    &&& 4 + 8 * b[1] <= b.len()
    &&& forall|i: int| 0 <= i < b[1] ==> #[trigger] anim_ok(b, i)
}

pub open spec fn frame_matches(f: Frame, b: Seq<u8>, p: int) -> bool {
    &&& f.time_frames == le16(b, p + 2)
    &&& f.rot_bits == (le32(b, p + 4) as u32, le32(b, p + 8) as u32, le32(b, p + 12) as u32)
    &&& f.pos_bits == (le32(b, p + 16) as u32, le32(b, p + 20) as u32, le32(b, p + 24) as u32)
}

pub open spec fn track_matches(t: Track, b: Seq<u8>, p: int) -> bool {
    &&& t.node == le16(b, p)
    &&& t.frames@.len() == le16(b, p + 2)
    &&& forall|k: int|
        0 <= k < t.frames@.len() ==> #[trigger] frame_matches(t.frames@[k], b, frame_pos(p, k))
}

pub open spec fn anim_matches(a: Animation, b: Seq<u8>, i: int) -> bool {
    let ps = track_positions(b, anim_offset(b, i), b[0] as nat);
    &&& a.offset == anim_offset(b, i)
    &&& a.duration_frames == anim_duration(b, i)
    &&& a.tracks@.len() == ps.len()
    &&& forall|k: int| 0 <= k < ps.len() ==> #[trigger] track_matches(a.tracks@[k], b, ps[k])
}

/// `x` holds the animations of `b`.
pub open spec fn lmt_read(b: Seq<u8>, x: LMT) -> bool {
    &&& x.track_count_max == b[0]
    &&& x.animations@.len() == b[1]
    &&& forall|i: int| 0 <= i < b[1] ==> #[trigger] anim_matches(x.animations@[i], b, i)
}

/// Reads the track at `p` of an animation of duration `d`.
fn read_track(b: &[u8], p: usize, d: u32) -> (r: Option<Track>)
    ensures
        r is Some <==> track_ok(b@, p as int, d as nat),
        r matches Some(t) ==> track_matches(t, b@, p as int),
{
    let n: usize = b.len();
    if p > n || n - p < 4 {
        return None;
    }
    let node: u16 = read_u16_le(b, p);
    let fc: usize = read_u16_le(b, p + 2) as usize;
    if LMT_FRAME_SIZE * fc > n - p - 4 {
        return None;
    }
    let mut frames: Vec<Frame> = Vec::with_capacity(fc);
    let mut k: usize = 0;
    while k < fc
        invariant
            k <= fc,
            n == b@.len(),
            fc == le16(b@, p + 2),
            p + 4 + LMT_FRAME_SIZE * fc <= n,
            frames@.len() == k,
            forall|j: int| 0 <= j < k ==> #[trigger] le16(b@, frame_pos(p as int, j) + 2) <= d,
            forall|j: int| 0 <= j < k ==> #[trigger] frame_matches(frames@[j], b@, frame_pos(p as int, j)),
        decreases fc - k,
    {
        assert(p + 4 + LMT_FRAME_SIZE * k + LMT_FRAME_SIZE <= n) by (nonlinear_arith)
            requires
                k < fc,
                p + 4 + LMT_FRAME_SIZE * fc <= n,
                LMT_FRAME_SIZE == 28,
        ;
        let q: usize = p + 4 + LMT_FRAME_SIZE * k;
        let time: u16 = read_u16_le(b, q + 2);
        if time as u32 > d {
            assert(le16(b@, frame_pos(p as int, k as int) + 2) > d);
            return None;
        }
        frames.push(
            Frame {
                time_frames: time,
                rot_bits: (read_u32_le(b, q + 4), read_u32_le(b, q + 8), read_u32_le(b, q + 12)),
                pos_bits: (read_u32_le(b, q + 16), read_u32_le(b, q + 20), read_u32_le(b, q + 24)),
            },
        );
        k = k + 1;
    }
    Some(Track { node: node as u32, frames })
}

/// Reads animation `i`, whose header lies at `4 + 8 * i`.
fn read_animation(b: &[u8], i: usize, tcm: usize) -> (r: Option<Animation>)
    requires
        b@.len() >= 2,
        tcm == b@[0],
        4 + 8 * i + 8 <= b@.len(),
    ensures
        r is Some <==> anim_ok(b@, i as int),
        r matches Some(a) ==> anim_matches(a, b@, i as int),
{
    let n: usize = b.len();
    let o: usize = read_u32_le(b, 4 + 8 * i) as usize;
    let d: u32 = read_u32_le(b, 8 + 8 * i);
    if o > n || 4 * tcm > n - o {
        return None;
    }
    let ghost ps = track_positions(b@, o as int, tcm as nat);
    let mut tracks: Vec<Track> = Vec::with_capacity(tcm);
    let mut j: usize = 0;
    while j < tcm
        invariant
            j <= tcm,
            n == b@.len(),
            tcm == b@[0],
            o == anim_offset(b@, i as int),
            d == anim_duration(b@, i as int),
            o + 4 * tcm <= n,
            ps == track_positions(b@, o as int, tcm as nat),
            tracks@.len() == track_positions(b@, o as int, j as nat).len(),
            forall|k: int|
                0 <= k < tracks@.len() ==> #[trigger] track_ok(
                    b@,
                    track_positions(b@, o as int, j as nat)[k],
                    d as nat,
                ),
            forall|k: int|
                0 <= k < tracks@.len() ==> #[trigger] track_matches(
                    tracks@[k],
                    b@,
                    track_positions(b@, o as int, j as nat)[k],
                ),
        decreases tcm - j,
    {
        let t: usize = read_u32_le(b, o + 4 * j) as usize;
        let ghost prev = track_positions(b@, o as int, j as nat);
        proof {
            lemma_track_positions_prefix(b@, o as int, (j + 1) as nat, tcm as nat);
        }
        if t != 0 {
            if t > n - o {
                proof {
                    assert(track_positions(b@, o as int, (j + 1) as nat)[prev.len() as int] == o + t);
                    assert(ps[prev.len() as int] == o + t);
                    assert(!track_ok(b@, ps[prev.len() as int], d as nat));
                }
                return None;
            }
            match read_track(b, o + t, d) {
                None => {
                    proof {
                        assert(track_positions(b@, o as int, (j + 1) as nat)[prev.len() as int] == o + t);
                        assert(ps[prev.len() as int] == o + t);
                        assert(!track_ok(b@, ps[prev.len() as int], d as nat));
                    }
                    return None;
                },
                Some(tr) => {
                    tracks.push(tr);
                },
            }
        }
        j = j + 1;
    }
    Some(Animation { offset: o, duration_frames: d, tracks })
}

proof fn lemma_track_positions_prefix(b: Seq<u8>, o: int, j: nat, k: nat)
    requires
        j <= k,
    ensures
        track_positions(b, o, j).len() <= track_positions(b, o, k).len(),
        forall|m: int|
            0 <= m < track_positions(b, o, j).len() ==> #[trigger] track_positions(b, o, k)[m]
                == track_positions(b, o, j)[m],
    decreases k,
{
    if j < k {
        lemma_track_positions_prefix(b, o, j, (k - 1) as nat);
    }
}

/// Bytes that the exported frames of `ts` take.
pub open spec fn tracks_size(ts: Seq<Track>) -> nat
    decreases ts.len(),
{
    if ts.len() == 0 {
        0
    } else {
        tracks_size(ts.drop_last()) + ts.last().frames@.len() * (LMT_FRAME_STRIDE as nat)
    }
}

/// Bytes that the exported frames of the animations `xs` take.
pub open spec fn animations_size(xs: Seq<Animation>) -> nat
    decreases xs.len(),
{
    if xs.len() == 0 {
        0
    } else {
        animations_size(xs.drop_last()) + tracks_size(xs.last().tracks@)
    }
}

pub(crate) proof fn lemma_tracks_size_prefix(ts: Seq<Track>, i: int)
    requires
        0 <= i <= ts.len(),
    ensures
        tracks_size(ts.take(i)) <= tracks_size(ts),
    decreases ts.len(),
{
    if i < ts.len() {
        assert(ts.drop_last().take(i) =~= ts.take(i));
        lemma_tracks_size_prefix(ts.drop_last(), i);
    } else {
        assert(ts.take(i) =~= ts);
    }
}

pub(crate) proof fn lemma_animations_size_prefix(xs: Seq<Animation>, i: int)
    requires
        0 <= i <= xs.len(),
    ensures
        animations_size(xs.take(i)) <= animations_size(xs),
    decreases xs.len(),
{
    if i < xs.len() {
        assert(xs.drop_last().take(i) =~= xs.take(i));
        lemma_animations_size_prefix(xs.drop_last(), i);
    } else {
        assert(xs.take(i) =~= xs);
    }
}

impl Animation {
    /// Bytes that the exported frames of this animation take.
    pub fn size(&self) -> (r: usize)
        requires
            tracks_size(self.tracks@) <= usize::MAX,
        ensures
            r == tracks_size(self.tracks@),
    {
        let mut total: usize = 0;
        let mut i: usize = 0;
        while i < self.tracks.len()
            invariant
                i <= self.tracks@.len(),
                tracks_size(self.tracks@) <= usize::MAX,
                total == tracks_size(self.tracks@.take(i as int)),
            decreases self.tracks@.len() - i,
        {
            proof {
                assert(self.tracks@.take(i + 1).drop_last() =~= self.tracks@.take(i as int));
                lemma_tracks_size_prefix(self.tracks@, i + 1);
            }
            let frames: usize = self.tracks[i].frames.len();
            total = total + frames * LMT_FRAME_STRIDE;
            i = i + 1;
        }
        assert(self.tracks@.take(i as int) =~= self.tracks@);
        total
    }
}

impl LMT {
    /// Bytes that the exported frames of all animations take.
    pub fn size(&self) -> (r: usize)
        requires
            animations_size(self.animations@) <= usize::MAX,
        ensures
            r == animations_size(self.animations@),
    {
        let mut total: usize = 0;
        let mut i: usize = 0;
        while i < self.animations.len()
            invariant
                i <= self.animations@.len(),
                animations_size(self.animations@) <= usize::MAX,
                total == animations_size(self.animations@.take(i as int)),
            decreases self.animations@.len() - i,
        {
            proof {
                assert(self.animations@.take(i + 1).drop_last() =~= self.animations@.take(i as int));
                lemma_animations_size_prefix(self.animations@, i + 1);
            }
            let a: usize = self.animations[i].size();
            total = total + a;
            i = i + 1;
        }
        assert(self.animations@.take(i as int) =~= self.animations@);
        total
    }

    /// Reads the animations of a model, or `None` where they cannot be
    /// read (see `lmt_ok`).
    pub fn import(buf: &[u8]) -> (r: Option<LMT>)
        ensures
            r is Some <==> lmt_ok(buf@),
            r matches Some(x) ==> lmt_read(buf@, x),
    {
        let n: usize = buf.len();
        if n < 2 {
            return None;
        }
        let tcm: usize = buf[0] as usize;
        let ac: usize = buf[1] as usize;
        if 4 + 8 * ac > n {
            return None;
        }
        let mut animations: Vec<Animation> = Vec::with_capacity(ac);
        let mut i: usize = 0;
        while i < ac
            invariant
                i <= ac,
                n == buf@.len(),
                n >= 2,
                tcm == buf@[0],
                ac == buf@[1],
                4 + 8 * ac <= n,
                animations@.len() == i,
                forall|k: int| 0 <= k < i ==> #[trigger] anim_ok(buf@, k),
                forall|k: int| 0 <= k < i ==> #[trigger] anim_matches(animations@[k], buf@, k),
            decreases ac - i,
        {
            match read_animation(buf, i, tcm) {
                None => {
                    return None;
                },
                Some(a) => {
                    animations.push(a);
                },
            }
            i = i + 1;
        }
        Some(LMT { track_count_max: tcm, animations })
    }

    /// The nodes of the model the animations fit: one track slot each.
    pub fn get_node_count(&self) -> (r: usize)
        ensures
            r == self.track_count_max,
    {
        self.track_count_max
    }
}

} // verus!
