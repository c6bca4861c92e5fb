//! Animation sequences (LSQ): per animation, tracks of timed events that
//! start effects, play sounds or set flags. Times stay in frames and the
//! effects' placements as `f32` bits; the export converts them.
use vstd::prelude::*;

use crate::bbtools::stg::bits_at;
use crate::bytes::{bytes16, bytes32, copy_range, le16, le32, push_u16_le, push_u32_le, read_u16_le, read_u32_le};

verus! {

pub const TRACK_INFO_SIZE: usize = 12;

pub const FRAME_INFO_SIZE: usize = 8;

pub const EFFECT_SIZE: usize = 80;

pub const SOUND_SIZE: usize = 12;

/// Three `f32` values stored at `at`, as bits.
pub open spec fn triple_at(b: Seq<u8>, at: int) -> (u32, u32, u32) {
    (bits_at(b, at), bits_at(b, at + 4), bits_at(b, at + 8))
}

/// An effect started by a frame: its index, the joint it follows, its
/// flags, the delay before it follows the joint (in frames), and its
/// position, rotation and rotation of travel as `f32` bits.
#[derive(Clone, Copy, PartialEq, Eq, Debug)]
pub struct Effect {
    pub idx: u16,
    pub jnt: u8,
    pub flags: u32,
    pub delay_frames: u32,
    pub pos_bits: (u32, u32, u32),
    pub rot_bits: (u32, u32, u32),
    pub trans_rot_bits: (u32, u32, u32),
}

/// A sound played by a frame, at a joint.
#[derive(Clone, Copy, PartialEq, Eq, Debug)]
pub struct Sound {
    pub id: u16,
    pub jnt: u8,
    pub flags: u32,
}

/// What the frames of a track do.
pub enum EventType {
    Effect(Vec<Effect>),
    Sound(Vec<Sound>),
    MotionChangeable,
    Flag(u16),
    Light,
}

/// The kinds of event, without their contents.
pub enum EventKind {
    Effect,
    Sound,
    MotionChangeable,
    Flag,
    Light,
}

pub open spec fn kind_of(e: EventType) -> EventKind {
    match e {
        EventType::Effect(_) => EventKind::Effect,
        EventType::Sound(_) => EventKind::Sound,
        EventType::MotionChangeable => EventKind::MotionChangeable,
        EventType::Flag(_) => EventKind::Flag,
        EventType::Light => EventKind::Light,
    }
}

/// A timed event.
pub struct Frame {
    pub time_frames: u16,
    pub event: EventType,
}

/// The frames of one animation.
pub struct Track {
    pub animation_id: u32,
    pub frames: Vec<Frame>,
}

/// The effect, sound and flag tracks of a model's animations.
pub struct LSQ {
    pub animation_count: usize,
    pub effects: Vec<Track>,
    pub sounds: Vec<Track>,
    pub flags: Vec<Track>,
}

/// The bytes `from..to` of `b` are zero.
pub open spec fn zeros(b: Seq<u8>, from: int, to: int) -> bool {
    forall|k: int| from <= k < to ==> #[trigger] b[k] == 0
}

/// The effect record at `at` is valid: its index fits 16 bits and its
/// padding is zero.
pub open spec fn effect_ok(b: Seq<u8>, at: int) -> bool {
    &&& le32(b, at) <= 0xFFFF
    &&& le16(b, at + 6) == 0
    &&& le32(b, at + 12) == 0
    &&& zeros(b, at + 56, at + 80)
}

/// The effect record at `at`: it follows the second joint where flag 8 is
/// set, else the first.
pub open spec fn spec_effect(b: Seq<u8>, at: int) -> Effect {
    let flags = le32(b, at + 8) as u32;
    Effect {
        idx: le32(b, at) as u16,
        jnt: if flags & 8 == 8 {
            b[at + 5]
        } else {
            b[at + 4]
        },
        flags,
        delay_frames: le32(b, at + 16) as u32,
        pos_bits: triple_at(b, at + 20),
        rot_bits: triple_at(b, at + 32),
        trans_rot_bits: triple_at(b, at + 44),
    }
}

/// The sound record at `at` is valid: its id fits 16 bits and its joint 8.
pub open spec fn sound_ok(b: Seq<u8>, at: int) -> bool {
    le32(b, at) <= 0xFFFF && le32(b, at + 4) <= 0xFF
}

pub open spec fn spec_sound(b: Seq<u8>, at: int) -> Sound {
    Sound { id: le32(b, at) as u16, jnt: le32(b, at + 4) as u8, flags: le32(b, at + 8) as u32 }
}

/// The frame at `p`, which must end by `e`, can be read as events of the
/// kind of `kind`.
pub open spec fn frame_ok(b: Seq<u8>, p: int, e: int, kind: EventKind) -> bool {
    let n = le16(b, p + 2);
    &&& 0 <= p
    &&& p + 4 <= e
    &&& match kind {
        EventKind::Effect => p + 4 + EFFECT_SIZE * n <= e && forall|i: int|
            0 <= i < n ==> #[trigger] effect_ok(b, p + 4 + EFFECT_SIZE * i),
        EventKind::Sound => p + 4 + SOUND_SIZE * n <= e && forall|i: int|
            0 <= i < n ==> #[trigger] sound_ok(b, p + 4 + SOUND_SIZE * i),
        EventKind::Flag => n == 1 && p + 19 <= e && zeros(b, p + 6, p + 19),
        _ => true,
    }
}

/// `f` holds the frame at `p` read as events of the kind of `kind`.
pub open spec fn frame_matches(f: Frame, b: Seq<u8>, p: int, kind: EventKind) -> bool {
    let n = le16(b, p + 2);
    &&& f.time_frames == le16(b, p)
    &&& match kind {
        EventKind::Effect => f.event matches EventType::Effect(v) && v@.len() == n && forall|i: int|
            0 <= i < n ==> #[trigger] v@[i] == spec_effect(b, p + 4 + EFFECT_SIZE * i),
        EventKind::Sound => f.event matches EventType::Sound(v) && v@.len() == n && forall|i: int|
            0 <= i < n ==> #[trigger] v@[i] == spec_sound(b, p + 4 + SOUND_SIZE * i),
        EventKind::MotionChangeable => f.event is MotionChangeable,
        EventKind::Flag => f.event == EventType::Flag(le16(b, p + 4) as u16),
        EventKind::Light => f.event is Light,
    }
}

/// Where track `i` of the table in `b` starts, ends, and its animation.
pub open spec fn track_start(b: Seq<u8>, i: int) -> int {
    le32(b, 4 + TRACK_INFO_SIZE * i) as int
}

pub open spec fn track_end(b: Seq<u8>, i: int) -> int {
    track_start(b, i) + le32(b, 8 + TRACK_INFO_SIZE * i)
}

/// Where frame `j` of the track from `t` lies (its entry holds its offset
/// from `t`).
pub open spec fn frame_at(b: Seq<u8>, t: int, j: int) -> int {
    t + le32(b, t + 8 + FRAME_INFO_SIZE * j)
}

/// Frame `j` of the track from `t` to `e`: its entry's time matches the
/// frame's own, and the frame can be read.
pub open spec fn frame_entry_ok(b: Seq<u8>, t: int, e: int, j: int, kind: EventKind) -> bool {
    &&& frame_at(b, t, j) + 4 <= e
    &&& le16(b, frame_at(b, t, j)) == le16(b, t + 4 + FRAME_INFO_SIZE * j)
    &&& frame_ok(b, frame_at(b, t, j), e, kind)
}

/// Track `i` of the table in `b` can be read.
pub open spec fn track_ok(b: Seq<u8>, i: int, kind: EventKind) -> bool {
    let t = track_start(b, i);
    let e = track_end(b, i);
    &&& e <= b.len()
    &&& t + 4 <= e
    &&& t + 4 + FRAME_INFO_SIZE * le32(b, t) <= e
    &&& forall|j: int| 0 <= j < le32(b, t) ==> #[trigger] frame_entry_ok(b, t, e, j, kind)
}

pub open spec fn track_matches(x: Track, b: Seq<u8>, i: int, kind: EventKind) -> bool {
    let t = track_start(b, i);
    &&& x.animation_id == le32(b, 12 + TRACK_INFO_SIZE * i)
    &&& x.frames@.len() == le32(b, t)
    &&& forall|j: int|
        0 <= j < x.frames@.len() ==> #[trigger] frame_matches(x.frames@[j], b, frame_at(b, t, j), kind)
}

/// The track table in `b` (the track count at byte 1, then one entry per
/// track) and each of its tracks can be read.
pub open spec fn tracks_ok(b: Seq<u8>, kind: EventKind) -> bool {
    &&& b.len() >= 2
    &&& 4 + TRACK_INFO_SIZE * b[1] <= b.len()
    &&& forall|i: int| 0 <= i < b[1] ==> #[trigger] track_ok(b, i, kind)
}

pub open spec fn tracks_match(v: Seq<Track>, b: Seq<u8>, kind: EventKind) -> bool {
    &&& v.len() == b[1]
    &&& forall|i: int| 0 <= i < b[1] ==> #[trigger] track_matches(v[i], b, i, kind)
}

fn read_triple(b: &[u8], at: usize) -> (r: (u32, u32, u32))
    requires
        at + 12 <= b@.len(),
    ensures
        r == triple_at(b@, at as int),
{
    let n: usize = b.len();
    assert(at + 12 <= n);
    (read_u32_le(b, at), read_u32_le(b, at + 4), read_u32_le(b, at + 8))
}

impl Effect {
    /// Reads the effect record at `at`; `None` where it is not valid.
    pub fn import(b: &[u8], at: usize) -> (r: Option<Effect>)
        requires
            at + EFFECT_SIZE <= b@.len(),
        ensures
            r is Some <==> effect_ok(b@, at as int),
            r matches Some(x) ==> x == spec_effect(b@, at as int),
    {
        let n: usize = b.len();
        let idx: u32 = read_u32_le(b, at);
        if idx > 0xFFFF {
            return None;
        }
        if read_u16_le(b, at + 6) != 0 || read_u32_le(b, at + 12) != 0 {
            return None;
        }
        let mut k: usize = 56;
        while k < 80
            invariant
                n == b@.len(),
                at + 80 <= n,
                56 <= k <= 80,
                zeros(b@, at + 56, at + k),
            decreases 80 - k,
        {
            if b[at + k] != 0 {
                return None;
            }
            k = k + 1;
        }
        let flags: u32 = read_u32_le(b, at + 8);
        let jnt: u8 = if flags & 8 == 8 {
            b[at + 5]
        } else {
            b[at + 4]
        };
        Some(
            Effect {
                idx: idx as u16,
                jnt,
                flags,
                delay_frames: read_u32_le(b, at + 16),
                pos_bits: read_triple(b, at + 20),
                rot_bits: read_triple(b, at + 32),
                trans_rot_bits: read_triple(b, at + 44),
            },
        )
    }
}

impl Sound {
    /// Reads the sound record at `at`; `None` where it is not valid.
    pub fn import(b: &[u8], at: usize) -> (r: Option<Sound>)
        requires
            at + SOUND_SIZE <= b@.len(),
        ensures
            r is Some <==> sound_ok(b@, at as int),
            r matches Some(x) ==> x == spec_sound(b@, at as int),
    {
        let n: usize = b.len();
        assert(at + 12 <= n);
        let id: u32 = read_u32_le(b, at);
        let jnt: u32 = read_u32_le(b, at + 4);
        if id > 0xFFFF || jnt > 0xFF {
            return None;
        }
        Some(Sound { id: id as u16, jnt: jnt as u8, flags: read_u32_le(b, at + 8) })
    }

    /// Appends the id, the joint and the flags.
    pub fn write_sound(&self, writer: &mut Vec<u8>)
        ensures
            final(writer)@ == old(writer)@ + bytes16(self.id as nat) + seq![self.jnt] + bytes32(
                self.flags as nat,
            ),
    {
        push_u16_le(writer, self.id);
        writer.push(self.jnt);
        push_u32_le(writer, self.flags);
        assert(final(writer)@ =~= old(writer)@ + bytes16(self.id as nat) + seq![self.jnt] + bytes32(
            self.flags as nat,
        ));
    }
}

impl Frame {
    /// Reads the frame at `p`, which must end by `e`, as events of the kind
    /// of `kind`; `None` where it cannot be read (see `frame_ok`).
    pub fn import(b: &[u8], p: usize, e: usize, kind: &EventType) -> (r: Option<Frame>)
        requires
            e <= b@.len(),
        ensures
            r is Some <==> frame_ok(b@, p as int, e as int, kind_of(*kind)),
            r matches Some(f) ==> frame_matches(f, b@, p as int, kind_of(*kind)),
    {
        if p > e || e - p < 4 {
            return None;
        }
        let time_frames: u16 = read_u16_le(b, p);
        let n: usize = read_u16_le(b, p + 2) as usize;
        match kind {
            EventType::Effect(_) => {
                if (e - p - 4) / EFFECT_SIZE < n {
                    return None;
                }
                let mut effects: Vec<Effect> = Vec::with_capacity(n);
                let mut i: usize = 0;
                while i < n
                    invariant
                        e <= b@.len(),
                        *kind is Effect,
                        p + 4 <= e,
                        p + 4 + EFFECT_SIZE * n <= e,
                        n == le16(b@, p + 2),
                        i <= n,
                        effects@.len() == i,
                        forall|k: int| 0 <= k < i ==> #[trigger] effect_ok(b@, p + 4 + EFFECT_SIZE * k),
                        forall|k: int|
                            0 <= k < i ==> #[trigger] effects@[k] == spec_effect(
                                b@,
                                p + 4 + EFFECT_SIZE * k,
                            ),
                    decreases n - i,
                {
                    assert(p + 4 + EFFECT_SIZE * i + EFFECT_SIZE <= p + 4 + EFFECT_SIZE * n);
                    match Effect::import(b, p + 4 + EFFECT_SIZE * i) {
                        None => {
                            return None;
                        },
                        Some(x) => {
                            effects.push(x);
                        },
                    }
                    i = i + 1;
                }
                Some(Frame { time_frames, event: EventType::Effect(effects) })
            },
            EventType::Sound(_) => {
                if (e - p - 4) / SOUND_SIZE < n {
                    return None;
                }
                let mut sounds: Vec<Sound> = Vec::with_capacity(n);
                let mut i: usize = 0;
                while i < n
                    invariant
                        e <= b@.len(),
                        *kind is Sound,
                        p + 4 <= e,
                        p + 4 + SOUND_SIZE * n <= e,
                        n == le16(b@, p + 2),
                        i <= n,
                        sounds@.len() == i,
                        forall|k: int| 0 <= k < i ==> #[trigger] sound_ok(b@, p + 4 + SOUND_SIZE * k),
                        forall|k: int|
                            0 <= k < i ==> #[trigger] sounds@[k] == spec_sound(
                                b@,
                                p + 4 + SOUND_SIZE * k,
                            ),
                    decreases n - i,
                {
                    assert(p + 4 + SOUND_SIZE * i + SOUND_SIZE <= p + 4 + SOUND_SIZE * n);
                    match Sound::import(b, p + 4 + SOUND_SIZE * i) {
                        None => {
                            return None;
                        },
                        Some(x) => {
                            sounds.push(x);
                        },
                    }
                    i = i + 1;
                }
                Some(Frame { time_frames, event: EventType::Sound(sounds) })
            },
            EventType::MotionChangeable => Some(Frame { time_frames, event: EventType::MotionChangeable }),
            EventType::Flag(_) => {
                if n != 1 || e - p < 19 {
                    return None;
                }
                let flags: u16 = read_u16_le(b, p + 4);
                let mut k: usize = 6;
                while k < 19
                    invariant
                        e <= b@.len(),
                        *kind is Flag,
                        n == 1,
                        n == le16(b@, p + 2),
                        p + 19 <= e,
                        6 <= k <= 19,
                        zeros(b@, p + 6, p + k),
                    decreases 19 - k,
                {
                    if b[p + k] != 0 {
                        return None;
                    }
                    k = k + 1;
                }
                Some(Frame { time_frames, event: EventType::Flag(flags) })
            },
            EventType::Light => Some(Frame { time_frames, event: EventType::Light }),
        }
    }
}

impl Track {
    /// Reads track `i` of the table in `b`.
    fn import_one(b: &[u8], i: usize, kind: &EventType) -> (r: Option<Track>)
        requires
            4 + TRACK_INFO_SIZE * i + TRACK_INFO_SIZE <= b@.len(),
        ensures
            r is Some <==> track_ok(b@, i as int, kind_of(*kind)),
            r matches Some(x) ==> track_matches(x, b@, i as int, kind_of(*kind)),
    {
        let n: usize = b.len();
        let t: usize = read_u32_le(b, 4 + TRACK_INFO_SIZE * i) as usize;
        let len: usize = read_u32_le(b, 8 + TRACK_INFO_SIZE * i) as usize;
        let animation_id: u32 = read_u32_le(b, 12 + TRACK_INFO_SIZE * i);
        if t > n || len > n - t || len < 4 {
            return None;
        }
        let e: usize = t + len;
        let fc: usize = read_u32_le(b, t) as usize;
        if (len - 4) / FRAME_INFO_SIZE < fc {
            return None;
        }
        let mut frames: Vec<Frame> = Vec::with_capacity(fc);
        let mut j: usize = 0;
        while j < fc
            invariant
                n == b@.len(),
                e == t + len,
                e <= n,
                t == track_start(b@, i as int),
                e == track_end(b@, i as int),
                fc == le32(b@, t as int),
                t + 4 + FRAME_INFO_SIZE * fc <= e,
                j <= fc,
                frames@.len() == j,
                forall|k: int| 0 <= k < j ==> #[trigger] frame_entry_ok(b@, t as int, e as int, k, kind_of(*kind)),
                forall|k: int|
                    0 <= k < j ==> #[trigger] frame_matches(frames@[k], b@, frame_at(b@, t as int, k), kind_of(*kind)),
            decreases fc - j,
        {
            assert(t + 4 + FRAME_INFO_SIZE * j + FRAME_INFO_SIZE <= t + 4 + FRAME_INFO_SIZE * fc);
            let q: usize = t + 4 + FRAME_INFO_SIZE * j;
            let time: u16 = read_u16_le(b, q);
            let fo: usize = read_u32_le(b, q + 4) as usize;
            if fo > len || len - fo < 4 {
                assert(!frame_entry_ok(b@, t as int, e as int, j as int, kind_of(*kind)));
                return None;
            }
            let p: usize = t + fo;
            if read_u16_le(b, p) != time {
                assert(!frame_entry_ok(b@, t as int, e as int, j as int, kind_of(*kind)));
                return None;
            }
            match Frame::import(b, p, e, kind) {
                None => {
                    assert(!frame_entry_ok(b@, t as int, e as int, j as int, kind_of(*kind)));
                    return None;
                },
                Some(f) => {
                    frames.push(f);
                },
            }
            j = j + 1;
        }
        Some(Track { animation_id, frames })
    }

    /// Reads a track table: the track count at byte 1, one entry per track
    /// (where its data lies and its animation), and each track's frames as
    /// events of the kind of `kind`. `None` where it cannot be read (see
    /// `tracks_ok`).
    pub fn import_tracks(buf: &[u8], kind: &EventType) -> (r: Option<Vec<Track>>)
        ensures
            r is Some <==> tracks_ok(buf@, kind_of(*kind)),
            r matches Some(v) ==> tracks_match(v@, buf@, kind_of(*kind)),
    {
        let n: usize = buf.len();
        if n < 2 {
            return None;
        }
        let count: usize = buf[1] as usize;
        if 4 + TRACK_INFO_SIZE * count > n {
            return None;
        }
        let mut tracks: Vec<Track> = Vec::with_capacity(count);
        let mut i: usize = 0;
        while i < count
            invariant
                n == buf@.len(),
                n >= 2,
                count == buf@[1],
                4 + TRACK_INFO_SIZE * count <= n,
                i <= count,
                tracks@.len() == i,
                forall|k: int| 0 <= k < i ==> #[trigger] track_ok(buf@, k, kind_of(*kind)),
                forall|k: int| 0 <= k < i ==> #[trigger] track_matches(tracks@[k], buf@, k, kind_of(*kind)),
            decreases count - i,
        {
            match Track::import_one(buf, i, kind) {
                None => {
                    return None;
                },
                Some(x) => {
                    tracks.push(x);
                },
            }
            i = i + 1;
        }
        Some(tracks)
    }
}

/// The animation count that the track table at `o` states: its byte 0
/// where it has tracks, else none.
pub open spec fn stated_count(b: Seq<u8>, o: int) -> u8 {
    if b[o + 1] > 0 {
        b[o]
    } else {
        0
    }
}

pub open spec fn max_u8(x: u8, y: u8) -> u8 {
    if x >= y {
        x
    } else {
        y
    }
}

pub open spec fn effects_at(b: Seq<u8>) -> int {
    le32(b, 0) as int
}

pub open spec fn sounds_at(b: Seq<u8>) -> int {
    le32(b, 4) as int
}

pub open spec fn flags_at(b: Seq<u8>) -> int {
    le32(b, 12) as int
}

/// The number of animations: the largest count that a track table states.
pub open spec fn lsq_animation_count(b: Seq<u8>) -> u8 {
    max_u8(
        stated_count(b, effects_at(b)),
        max_u8(stated_count(b, sounds_at(b)), stated_count(b, flags_at(b))),
    )
}

/// A track table with tracks states the animation count.
pub open spec fn count_agrees(b: Seq<u8>, o: int) -> bool {
    b[o + 1] > 0 ==> b[o] == lsq_animation_count(b)
}

/// The sequence file can be read: a 20-byte header of table offsets (with
/// no motion or light tables), three track tables that agree on the
/// animation count, and their tracks.
pub open spec fn lsq_ok(b: Seq<u8>) -> bool {
    &&& b.len() >= 20
    &&& le32(b, 8) == 0
    &&& le32(b, 16) == 0
    &&& effects_at(b) + 2 <= b.len()
    &&& sounds_at(b) + 2 <= b.len()
    &&& flags_at(b) + 2 <= b.len()
    &&& count_agrees(b, effects_at(b))
    &&& count_agrees(b, sounds_at(b))
    &&& count_agrees(b, flags_at(b))
    &&& tracks_ok(b.subrange(effects_at(b), b.len() as int), EventKind::Effect)
    &&& tracks_ok(b.subrange(sounds_at(b), b.len() as int), EventKind::Sound)
    &&& tracks_ok(b.subrange(flags_at(b), b.len() as int), EventKind::Flag)
}

/// `x` holds the sequences of `b`.
pub open spec fn lsq_read(b: Seq<u8>, x: LSQ) -> bool {
    &&& x.animation_count == lsq_animation_count(b)
    &&& tracks_match(x.effects@, b.subrange(effects_at(b), b.len() as int), EventKind::Effect)
    &&& tracks_match(x.sounds@, b.subrange(sounds_at(b), b.len() as int), EventKind::Sound)
    &&& tracks_match(x.flags@, b.subrange(flags_at(b), b.len() as int), EventKind::Flag)
}

impl LSQ {
    /// Reads the effect, sound and flag tracks of a model's animations, or
    /// `None` where they cannot be read (see `lsq_ok`).
    pub fn import(buf: &[u8]) -> (r: Option<LSQ>)
        ensures
            r is Some <==> lsq_ok(buf@),
            r matches Some(x) ==> lsq_read(buf@, x),
    {
        let n: usize = buf.len();
        if n < 20 {
            return None;
        }
        let eo: usize = read_u32_le(buf, 0) as usize;
        let so: usize = read_u32_le(buf, 4) as usize;
        let mo: u32 = read_u32_le(buf, 8);
        let fo: usize = read_u32_le(buf, 12) as usize;
        let lo: u32 = read_u32_le(buf, 16);
        if mo != 0 || lo != 0 {
            return None;
        }
        if eo >= n - 1 || so >= n - 1 || fo >= n - 1 {
            return None;
        }
        let ec: u8 = if buf[eo + 1] > 0 {
            buf[eo]
        } else {
            0
        };
        let sc: u8 = if buf[so + 1] > 0 {
            buf[so]
        } else {
            0
        };
        let fc: u8 = if buf[fo + 1] > 0 {
            buf[fo]
        } else {
            0
        };
        let sfc: u8 = if sc >= fc {
            sc
        } else {
            fc
        };
        let count: u8 = if ec >= sfc {
            ec
        } else {
            sfc
        };
        assert(count == lsq_animation_count(buf@));
        if (buf[eo + 1] > 0 && buf[eo] != count) || (buf[so + 1] > 0 && buf[so] != count) || (buf[fo
            + 1] > 0 && buf[fo] != count) {
            return None;
        }
        let effects_buf = copy_range(buf, eo, n);
        let effects = match Track::import_tracks(effects_buf.as_slice(), &EventType::Effect(Vec::new())) {
            None => {
                return None;
            },
            Some(v) => v,
        };
        let sounds_buf = copy_range(buf, so, n);
        let sounds = match Track::import_tracks(sounds_buf.as_slice(), &EventType::Sound(Vec::new())) {
            None => {
                return None;
            },
            Some(v) => v,
        };
        let flags_buf = copy_range(buf, fo, n);
        let flags = match Track::import_tracks(flags_buf.as_slice(), &EventType::Flag(0)) {
            None => {
                return None;
            },
            Some(v) => v,
        };
        Some(LSQ { animation_count: count as usize, effects, sounds, flags })
    }
}

/// Bytes that an event takes once exported: a count and 47 bytes per
/// effect or 7 per sound, or 2 for flags.
pub open spec fn event_size(e: EventType) -> nat {
    match e {
        EventType::Effect(v) => 4 + v@.len() * 47,
        EventType::Sound(v) => 4 + v@.len() * 7,
        EventType::Flag(_) => 2,
        _ => 0,
    }
}

/// The export knows how to write the event.
pub open spec fn exportable(e: EventType) -> bool {
    e is Effect || e is Sound || e is Flag
}

pub open spec fn frames_size(fs: Seq<Frame>) -> nat
    decreases fs.len(),
{
    if fs.len() == 0 {
        0
    } else {
        frames_size(fs.drop_last()) + 4 + event_size(fs.last().event)
    }
}

pub open spec fn tracks_size(ts: Seq<Track>) -> nat
    decreases ts.len(),
{
    if ts.len() == 0 {
        0
    } else {
        tracks_size(ts.drop_last()) + 4 + frames_size(ts.last().frames@)
    }
}

pub open spec fn frames_exportable(fs: Seq<Frame>) -> bool {
    forall|i: int| 0 <= i < fs.len() ==> #[trigger] exportable(fs[i].event)
}

pub open spec fn tracks_exportable(ts: Seq<Track>) -> bool {
    forall|i: int| 0 <= i < ts.len() ==> #[trigger] frames_exportable(ts[i].frames@)
}

proof fn lemma_frames_size_prefix(fs: Seq<Frame>, i: int)
    requires
        0 <= i <= fs.len(),
    ensures
        frames_size(fs.take(i)) <= frames_size(fs),
    decreases fs.len(),
{
    if i < fs.len() {
        assert(fs.drop_last().take(i) =~= fs.take(i));
        lemma_frames_size_prefix(fs.drop_last(), i);
    } else {
        assert(fs.take(i) =~= fs);
    }
}

proof fn lemma_tracks_size_prefix(ts: Seq<Track>, i: int)
    requires
        0 <= i <= ts.len(),
    ensures
        tracks_size(ts.take(i)) <= tracks_size(ts),
    decreases ts.len(),
{
    if i < ts.len() {
        assert(ts.drop_last().take(i) =~= ts.take(i));
        lemma_tracks_size_prefix(ts.drop_last(), i);
    } else {
        assert(ts.take(i) =~= ts);
    }
}

impl Frame {
    /// Bytes that the frame takes once exported: its time and its event.
    pub fn size(&self) -> (r: usize)
        requires
            exportable(self.event),
            4 + event_size(self.event) <= usize::MAX,
        ensures
            r == 4 + event_size(self.event),
    {
        match &self.event {
            EventType::Effect(v) => 4 + (4 + v.len() * 47),
            EventType::Sound(v) => 4 + (4 + v.len() * 7),
            _ => 4 + 2,
        }
    }
}

impl Track {
    /// Bytes that the track takes once exported: its frame count and its
    /// frames.
    pub fn size(&self) -> (r: usize)
        requires
            frames_exportable(self.frames@),
            4 + frames_size(self.frames@) <= usize::MAX,
        ensures
            r == 4 + frames_size(self.frames@),
    {
        let mut total: usize = 4;
        let mut i: usize = 0;
        while i < self.frames.len()
            invariant
                i <= self.frames@.len(),
                frames_exportable(self.frames@),
                4 + frames_size(self.frames@) <= usize::MAX,
                total == 4 + frames_size(self.frames@.take(i as int)),
            decreases self.frames@.len() - i,
        {
            proof {
                assert(self.frames@.take(i + 1).drop_last() =~= self.frames@.take(i as int));
                lemma_frames_size_prefix(self.frames@, i + 1);
                assert(exportable(self.frames@[i as int].event));
            }
            let f: usize = self.frames[i].size();
            total = total + f;
            i = i + 1;
        }
        assert(self.frames@.take(i as int) =~= self.frames@);
        total
    }
}

/// Bytes that the tracks of `ts` take once exported.
fn tracks_total(ts: &Vec<Track>) -> (r: usize)
    requires
        tracks_exportable(ts@),
        tracks_size(ts@) <= usize::MAX,
    ensures
        r == tracks_size(ts@),
{
    let mut total: usize = 0;
    let mut i: usize = 0;
    while i < ts.len()
        invariant
            i <= ts@.len(),
            tracks_exportable(ts@),
            tracks_size(ts@) <= usize::MAX,
            total == tracks_size(ts@.take(i as int)),
        decreases ts@.len() - i,
    {
        proof {
            assert(ts@.take(i + 1).drop_last() =~= ts@.take(i as int));
            lemma_tracks_size_prefix(ts@, i + 1);
            assert(frames_exportable(ts@[i as int].frames@));
        }
        let t: usize = ts[i].size();
        total = total + t;
        i = i + 1;
    }
    assert(ts@.take(i as int) =~= ts@);
    total
}

impl LSQ {
    /// Bytes that all tracks take once exported: effects, sounds, flags.
    pub fn size(&self) -> (r: usize)
        requires
            tracks_exportable(self.effects@),
            tracks_exportable(self.sounds@),
            tracks_exportable(self.flags@),
            tracks_size(self.effects@) + tracks_size(self.sounds@) + tracks_size(self.flags@)
                <= usize::MAX,
        ensures
            r == tracks_size(self.effects@) + tracks_size(self.sounds@) + tracks_size(self.flags@),
    {
        tracks_total(&self.effects) + tracks_total(&self.sounds) + tracks_total(&self.flags)
    }
}

/// Every frame of a sequence read from a file holds an event that the
/// export can write, so its size is known.
pub proof fn lemma_read_exportable(b: Seq<u8>, x: LSQ)
    requires
        lsq_read(b, x),
    ensures
        tracks_exportable(x.effects@),
        tracks_exportable(x.sounds@),
        tracks_exportable(x.flags@),
{
    let eb = b.subrange(effects_at(b), b.len() as int);
    let sb = b.subrange(sounds_at(b), b.len() as int);
    let fb = b.subrange(flags_at(b), b.len() as int);
    assert forall|i: int| 0 <= i < x.effects@.len() implies #[trigger] frames_exportable(
        x.effects@[i].frames@,
    ) by {
        assert(track_matches(x.effects@[i], eb, i, EventKind::Effect));
        assert forall|j: int| 0 <= j < x.effects@[i].frames@.len() implies #[trigger] exportable(
            x.effects@[i].frames@[j].event,
        ) by {
            assert(frame_matches(
                x.effects@[i].frames@[j],
                eb,
                frame_at(eb, track_start(eb, i), j),
                EventKind::Effect,
            ));
        }
    }
    assert forall|i: int| 0 <= i < x.sounds@.len() implies #[trigger] frames_exportable(
        x.sounds@[i].frames@,
    ) by {
        assert(track_matches(x.sounds@[i], sb, i, EventKind::Sound));
        assert forall|j: int| 0 <= j < x.sounds@[i].frames@.len() implies #[trigger] exportable(
            x.sounds@[i].frames@[j].event,
        ) by {
            assert(frame_matches(
                x.sounds@[i].frames@[j],
                sb,
                frame_at(sb, track_start(sb, i), j),
                EventKind::Sound,
            ));
        }
    }
    assert forall|i: int| 0 <= i < x.flags@.len() implies #[trigger] frames_exportable(
        x.flags@[i].frames@,
    ) by {
        assert(track_matches(x.flags@[i], fb, i, EventKind::Flag));
        assert forall|j: int| 0 <= j < x.flags@[i].frames@.len() implies #[trigger] exportable(
            x.flags@[i].frames@[j].event,
        ) by {
            assert(frame_matches(
                x.flags@[i].frames@[j],
                fb,
                frame_at(fb, track_start(fb, i), j),
                EventKind::Flag,
            ));
        }
    }
}

} // verus!
