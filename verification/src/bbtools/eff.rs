//! Effects of the second title: effect placements, the timing of texture
//! animations (SEQ), texture animation frames (UV), effect records (EFE)
//! and weapon trails. Measurements stay as the `f32` bits of the game; the
//! export scales and converts them.
use vstd::prelude::*;

use crate::bbtools::stg::bits_at;
use crate::bbtools::xbe::{spec_section_offset, XBE};
use crate::bbtools::bin::{entry_offset, table_fits, BIN};
use crate::bbtools::lsq::zeros;
use crate::bytes::{
    le16, le32, le32_seq, lemma_with_prefix_empty_rest, lemma_with_prefix_join, list_outcome, read_i32_le,
    read_u16_le, read_u32_le, with_prefix, ByteReader, IoError,
};

verus! {

/// Three `f32` values stored at `at`, as bits.
pub open spec fn position_at(b: Seq<u8>, at: int) -> (u32, u32, u32) {
    (bits_at(b, at), bits_at(b, at + 4), bits_at(b, at + 8))
}

pub(crate) fn read_position(b: &[u8], at: usize) -> (r: (u32, u32, u32))
    requires
        at + 12 <= b@.len(),
    ensures
        r == position_at(b@, at as int),
{
    let n: usize = b.len();
    assert(at + 12 <= n);
    (read_u32_le(b, at), read_u32_le(b, at + 4), read_u32_le(b, at + 8))
}

/// An effect placed at a position (as `f32` bits, unscaled).
#[derive(Clone, Copy, PartialEq, Eq, Debug)]
pub struct EffectPosition {
    pub idx: u16,
    pub position: (u32, u32, u32),
}

/// The effect `id` (none for `u32::MAX`) at the `i`-th position of `pos`.
pub open spec fn effect_position(id: u32, pos: Seq<u8>, i: int) -> Option<EffectPosition> {
    if id == u32::MAX {
        None
    } else {
        Some(EffectPosition { idx: id as u16, position: position_at(pos, 12 * i) })
    }
}

/// What reading `n` placed effects from `pos` of `d` comes to: each is an
/// effect id followed, unless the id is none, by its position. `None` where
/// an id is neither none nor 16 bits; `Err` where the data ends first.
pub open spec fn placed_effects(d: Seq<u8>, pos: int, n: nat) -> Option<
    Result<Seq<Option<EffectPosition>>, IoError>,
>
    decreases n,
{
    if n == 0 {
        Some(Ok(Seq::empty()))
    } else if pos < 0 || pos + 4 > d.len() {
        Some(Err(IoError::UnexpectedEof))
    } else {
        let id = le32(d, pos);
        if id == 0xFFFF_FFFF {
            with_prefix(seq![None], placed_effects(d, pos + 4, (n - 1) as nat))
        } else if id > 0xFFFF {
            None
        } else if pos + 16 > d.len() {
            Some(Err(IoError::UnexpectedEof))
        } else {
            with_prefix(
                seq![Some(EffectPosition { idx: id as u16, position: position_at(d, pos + 4) })],
                placed_effects(d, pos + 16, (n - 1) as nat),
            )
        }
    }
}

/// Every effect id is either none or fits 16 bits.
pub open spec fn ids_ok(ids: Seq<u32>) -> bool {
    forall|i: int| 0 <= i < ids.len() ==> #[trigger] ids[i] == u32::MAX || ids[i] <= 0xFFFF
}

/// The placed effects of `ids` with the positions of `pos`.
pub open spec fn effect_positions(ids: Seq<u32>, pos: Seq<u8>) -> Seq<Option<EffectPosition>> {
    Seq::new(ids.len(), |i: int| effect_position(ids[i], pos, i))
}

/// `count` lights whose positions are stored one after the other from
/// `start` of `b`; the first has effect `first` and each next one `step`
/// more.
pub open spec fn stack_lights(b: Seq<u8>, start: int, count: nat, first: u16, step: u16) -> Seq<
    EffectPosition,
> {
    Seq::new(
        count,
        |i: int|
            EffectPosition { idx: (first + step * i) as u16, position: position_at(b, start + 12 * i) },
    )
}

impl EffectPosition {
    /// Pairs each effect id with its position; `None` where an id is
    /// neither none nor 16 bits.
    pub fn from_separate(ids: &[u32], pos: &[u8]) -> (r: Option<Vec<Option<EffectPosition>>>)
        requires
            pos@.len() >= 12 * ids@.len(),
        ensures
            r is Some <==> ids_ok(ids@),
            r matches Some(v) ==> v@ == effect_positions(ids@, pos@),
    {
        let count: usize = ids.len();
        let n: usize = pos.len();
        let mut out: Vec<Option<EffectPosition>> = Vec::with_capacity(count);
        let mut i: usize = 0;
        while i < count
            invariant
                count == ids@.len(),
                n == pos@.len(),
                pos@.len() >= 12 * count,
                i <= count,
                out@ == effect_positions(ids@, pos@).subrange(0, i as int),
                forall|j: int| 0 <= j < i ==> #[trigger] ids@[j] == u32::MAX || ids@[j] <= 0xFFFF,
            decreases count - i,
        {
            let id: u32 = ids[i];
            if id == u32::MAX {
                out.push(None);
            } else if id > 0xFFFF {
                return None;
            } else {
                assert(12 * i + 12 <= 12 * count);
                let position = read_position(pos, 12 * i);
                out.push(Some(EffectPosition { idx: id as u16, position }));
            }
            i = i + 1;
            assert(out@ =~= effect_positions(ids@, pos@).subrange(0, i as int));
        }
        assert(effect_positions(ids@, pos@).subrange(0, count as int) =~= effect_positions(ids@, pos@));
        Some(out)
    }

    /// Reads `count` effect ids at `idx_offset` of one section and as many
    /// positions at `pos_offset` of another; the reader ends after the
    /// positions. `None` where an id is neither none nor 16 bits.
    pub fn import_separate(
        xbe: &mut XBE,
        idx_section_name: &str,
        idx_offset: u32,
        pos_section_name: &str,
        pos_offset: u32,
        count: usize,
    ) -> (r: Option<Result<Vec<Option<EffectPosition>>, IoError>>)
        requires
            count <= 0xFFFF,
        ensures
            final(xbe).same_image(old(xbe)),
            ({
                let d = old(xbe).reader.data();
                let names = old(xbe).names();
                let secs = old(xbe).sections();
                match spec_section_offset(names, secs, idx_section_name@, idx_offset) {
                    Err(e) => r == Some(Err::<Vec<Option<EffectPosition>>, IoError>(e)),
                    Ok(p) => if p + 4 * count > d.len() {
                        r == Some(Err::<Vec<Option<EffectPosition>>, IoError>(IoError::UnexpectedEof))
                    } else {
                        match spec_section_offset(names, secs, pos_section_name@, pos_offset) {
                            Err(e) => r == Some(Err::<Vec<Option<EffectPosition>>, IoError>(e)),
                            Ok(q) => if q + 12 * count > d.len() {
                                r == Some(
                                    Err::<Vec<Option<EffectPosition>>, IoError>(IoError::UnexpectedEof),
                                )
                            } else {
                                let ids = le32_seq(d, p as int, count as nat);
                                &&& (r is Some <==> ids_ok(ids))
                                &&& (r matches Some(x) ==> (x matches Ok(v) && v@ == effect_positions(
                                    ids,
                                    d.subrange(q as int, q + 12 * count),
                                )))
                            },
                        }
                    },
                }
            }),
    {
        match xbe.seek_section_offset(idx_section_name, idx_offset) {
            Err(e) => {
                return Some(Err(e));
            },
            Ok(_) => {},
        }
        let ids = match xbe.reader.read_u32_into(count) {
            Err(e) => {
                return Some(Err(e));
            },
            Ok(v) => v,
        };
        match xbe.seek_section_offset(pos_section_name, pos_offset) {
            Err(e) => {
                return Some(Err(e));
            },
            Ok(_) => {},
        }
        let pos = match xbe.reader.read_exact(12 * count) {
            Err(e) => {
                return Some(Err(e));
            },
            Ok(v) => v,
        };
        match EffectPosition::from_separate(ids.as_slice(), pos.as_slice()) {
            None => None,
            Some(v) => Some(Ok(v)),
        }
    }

    /// Reads `count` placed effects from `start` of `d` (see
    /// `placed_effects`).
    pub fn placed_from(d: &[u8], start: u64, count: usize) -> (r: Option<Result<Vec<Option<EffectPosition>>, IoError>>)
        ensures
            list_outcome(r) == placed_effects(d@, start as int, count as nat),
    {
        let n: usize = d.len();
        let mut out: Vec<Option<EffectPosition>> = Vec::with_capacity(count);
        let mut pos: u64 = start;
        let mut i: usize = 0;
        while i < count
            invariant
                i <= count,
                n == d@.len(),
                placed_effects(d@, start as int, count as nat) == with_prefix(
                    out@,
                    placed_effects(d@, pos as int, (count - i) as nat),
                ),
            decreases count - i,
        {
            if pos > n as u64 || (n as u64) - pos < 4 {
                return Some(Err(IoError::UnexpectedEof));
            }
            let id: u32 = read_u32_le(d, pos as usize);
            if id == u32::MAX {
                proof {
                    assert(placed_effects(d@, pos as int, (count - i) as nat) == with_prefix(
                        seq![None],
                        placed_effects(d@, pos + 4, (count - i - 1) as nat),
                    ));
                    lemma_with_prefix_join(out@, seq![None], placed_effects(d@, pos + 4, (count - i - 1) as nat));
                }
                let ghost before = out@;
                out.push(None);
                assert(out@ =~= before + seq![None]);
                pos = pos + 4;
            } else if id > 0xFFFF {
                return None;
            } else {
                if (n as u64) - pos < 16 {
                    return Some(Err(IoError::UnexpectedEof));
                }
                let position = read_position(d, (pos + 4) as usize);
                let e = EffectPosition { idx: id as u16, position };
                proof {
                    assert(placed_effects(d@, pos as int, (count - i) as nat) == with_prefix(
                        seq![Some(e)],
                        placed_effects(d@, pos + 16, (count - i - 1) as nat),
                    ));
                    lemma_with_prefix_join(out@, seq![Some(e)], placed_effects(d@, pos + 16, (count - i - 1) as nat));
                }
                let ghost before = out@;
                out.push(Some(e));
                assert(out@ =~= before + seq![Some(e)]);
                pos = pos + 16;
            }
            i = i + 1;
        }
        proof {
            lemma_with_prefix_empty_rest(out@);
        }
        Some(Ok(out))
    }

    /// Reads `count` placed effects at `offset` of the named section (see
    /// `placed_effects`).
    pub fn import(xbe: &mut XBE, section_name: &str, offset: u32, count: usize) -> (r: Option<
        Result<Vec<Option<EffectPosition>>, IoError>,
    >)
        ensures
            final(xbe).same_image(old(xbe)),
            list_outcome(r) == match spec_section_offset(old(xbe).names(), old(xbe).sections(), section_name@, offset) {
                Err(e) => Some(Err(e)),
                Ok(p) => placed_effects(old(xbe).reader.data(), p as int, count as nat),
            },
    {
        let p: u64 = match xbe.seek_section_offset(section_name, offset) {
            Err(e) => {
                return Some(Err(e));
            },
            Ok(p) => p,
        };
        EffectPosition::placed_from(xbe.reader.as_slice(), p, count)
    }

    /// Reads `count` lights stored one after the other from `start` of a
    /// stack; the first has effect `first` and each next one `step` more.
    pub fn from_stack(stack: &[u8], start: usize, count: usize, first: u16, step: u16) -> (r: Vec<
        EffectPosition,
    >)
        requires
            start + 12 * count <= stack@.len(),
            first + step * count <= 0xFFFF,
        ensures
            r@ == stack_lights(stack@, start as int, count as nat, first, step),
    {
        let n: usize = stack.len();
        let mut out: Vec<EffectPosition> = Vec::with_capacity(count);
        let mut i: usize = 0;
        let mut idx: u16 = first;
        while i < count
            invariant
                n == stack@.len(),
                start + 12 * count <= stack@.len(),
                first + step * count <= 0xFFFF,
                i <= count,
                idx == first + step * i,
                out@ == stack_lights(stack@, start as int, count as nat, first, step).subrange(
                    0,
                    i as int,
                ),
            decreases count - i,
        {
            assert(start + 12 * i + 12 <= start + 12 * count);
            let position = read_position(stack, start + 12 * i);
            out.push(EffectPosition { idx, position });
            assert(first + step * i + step <= first + step * count) by (nonlinear_arith)
                requires
                    i < count,
            ;
            idx = idx + step;
            i = i + 1;
            assert(idx == first + step * i) by (nonlinear_arith)
                requires
                    idx == first + step * (i - 1) + step,
            ;
            assert(out@ =~= stack_lights(stack@, start as int, count as nat, first, step).subrange(
                0,
                i as int,
            ));
        }
        assert(stack_lights(stack@, start as int, count as nat, first, step).subrange(0, count as int)
            =~= stack_lights(stack@, start as int, count as nat, first, step));
        out
    }
}


pub const SMOKE_TRAIL_SIZE: usize = 56;

pub const TRACER_TRAIL_SIZE: usize = 44;

/// A weapon's trail: the texture animation it uses, its colours (RGBA) at
/// the start and at most, its section count, how its texture repeats (in
/// quarters: the scale is a quarter of this), its widths at the start and
/// end (`f32` bits, unscaled) and its flags.
#[derive(Clone, Copy, PartialEq, Eq, Debug)]
pub struct TrailEffect {
    pub uv_idx: usize,
    pub color_start: (u8, u8, u8, u8),
    pub color_max: (u8, u8, u8, u8),
    pub section_count: u8,
    pub texture_scale_quarters: u16,
    pub width_start_bits: u32,
    pub width_end_bits: u32,
    pub flags: u32,
}

/// The section count stored at `at` as a signed 32-bit value.
pub open spec fn signed_at(b: Seq<u8>, at: int) -> int {
    (le32(b, at) as u32) as i32 as int
}

/// The smoke trail record at `at` is valid: its section count fits a byte
/// and its last 32 bytes are zero.
pub open spec fn smoke_ok(b: Seq<u8>, at: int) -> bool {
    0 <= signed_at(b, at + 8) <= 0xFF && zeros(b, at + 24, at + 56)
}

/// The smoke trail at `at`: colours stored as ARGB, a texture that repeats
/// a quarter per section.
pub open spec fn spec_smoke(b: Seq<u8>, at: int, uv_idx: usize) -> TrailEffect {
    TrailEffect {
        uv_idx,
        color_start: (b[at + 1], b[at + 2], b[at + 3], b[at]),
        color_max: (b[at + 5], b[at + 6], b[at + 7], b[at + 4]),
        section_count: signed_at(b, at + 8) as u8,
        texture_scale_quarters: signed_at(b, at + 8) as u16,
        width_start_bits: bits_at(b, at + 12),
        width_end_bits: bits_at(b, at + 16),
        flags: le32(b, at + 20) as u32,
    }
}

/// The tracer trail record at `at` is valid: its section count fits a
/// byte, its alpha is zero and its last 32 bytes are zero.
pub open spec fn tracer_ok(b: Seq<u8>, at: int) -> bool {
    0 <= signed_at(b, at + 4) <= 0xFF && b[at] == 0 && zeros(b, at + 12, at + 44)
}

/// A tracer of one colour (opaque) and one width; its strongest colour is
/// a third of it.
pub open spec fn spec_tracer(uv_idx: usize, color: (u8, u8, u8, u8), section_count: u8, size_bits: u32) -> TrailEffect {
    TrailEffect {
        uv_idx,
        color_start: color,
        color_max: ((color.0 / 3) as u8, (color.1 / 3) as u8, (color.2 / 3) as u8, (color.3 / 3) as u8),
        section_count,
        texture_scale_quarters: 4,
        width_start_bits: size_bits,
        width_end_bits: size_bits,
        flags: 0,
    }
}

/// The tracer trail at `at`: colour stored as RGB after the alpha byte.
pub open spec fn spec_tracer_at(b: Seq<u8>, at: int, uv_idx: usize) -> TrailEffect {
    spec_tracer(uv_idx, (b[at + 1], b[at + 2], b[at + 3], 0xFF), signed_at(b, at + 4) as u8, bits_at(b, at + 8))
}

/// The trails with at least one section.
pub open spec fn has_sections(t: TrailEffect) -> bool {
    t.section_count > 0
}

/// The smoke trails stored one after the other in `b`.
pub open spec fn smoke_trails(b: Seq<u8>, uv_idx: usize) -> Seq<TrailEffect> {
    Seq::new(b.len() / SMOKE_TRAIL_SIZE as nat, |i: int| spec_smoke(b, SMOKE_TRAIL_SIZE * i, uv_idx))
}

/// The tracer trails stored one after the other in `b`.
pub open spec fn tracer_trails(b: Seq<u8>, uv_idx: usize) -> Seq<TrailEffect> {
    Seq::new(b.len() / TRACER_TRAIL_SIZE as nat, |i: int| spec_tracer_at(b, TRACER_TRAIL_SIZE * i, uv_idx))
}

fn zero_run(b: &[u8], from: usize, to: usize) -> (r: bool)
    requires
        from <= to <= b@.len(),
    ensures
        r == zeros(b@, from as int, to as int),
{
    let mut k: usize = from;
    while k < to
        invariant
            from <= k <= to <= b@.len(),
            zeros(b@, from as int, k as int),
        decreases to - k,
    {
        if b[k] != 0 {
            return false;
        }
        k = k + 1;
    }
    true
}

impl TrailEffect {
    /// Reads the smoke trail record at `at`; `None` where it is not valid.
    pub fn import_smoke(buf: &[u8], at: usize, uv_idx: usize) -> (r: Option<TrailEffect>)
        requires
            at + SMOKE_TRAIL_SIZE <= buf@.len(),
        ensures
            r is Some <==> smoke_ok(buf@, at as int),
            r matches Some(t) ==> t == spec_smoke(buf@, at as int, uv_idx),
    {
        let n: usize = buf.len();
        assert(at + 56 <= n);
        let section_count: i32 = read_i32_le(buf, at + 8);
        if section_count < 0 || section_count > 0xFF {
            return None;
        }
        if !zero_run(buf, at + 24, at + 56) {
            return None;
        }
        Some(
            TrailEffect {
                uv_idx,
                color_start: (buf[at + 1], buf[at + 2], buf[at + 3], buf[at]),
                color_max: (buf[at + 5], buf[at + 6], buf[at + 7], buf[at + 4]),
                section_count: section_count as u8,
                texture_scale_quarters: section_count as u16,
                width_start_bits: read_u32_le(buf, at + 12),
                width_end_bits: read_u32_le(buf, at + 16),
                flags: read_u32_le(buf, at + 20),
            },
        )
    }

    /// A tracer trail of one colour and one width.
    pub fn new_tracer(uv_idx: usize, color: (u8, u8, u8, u8), section_count: u8, size_bits: u32) -> (r:
        TrailEffect)
        ensures
            r == spec_tracer(uv_idx, color, section_count, size_bits),
    {
        TrailEffect {
            uv_idx,
            color_start: color,
            color_max: (color.0 / 3, color.1 / 3, color.2 / 3, color.3 / 3),
            section_count,
            texture_scale_quarters: 4,
            width_start_bits: size_bits,
            width_end_bits: size_bits,
            flags: 0,
        }
    }

    /// Reads the tracer trail record at `at`; `None` where it is not valid.
    pub fn import_tracer(buf: &[u8], at: usize, uv_idx: usize) -> (r: Option<TrailEffect>)
        requires
            at + TRACER_TRAIL_SIZE <= buf@.len(),
        ensures
            r is Some <==> tracer_ok(buf@, at as int),
            r matches Some(t) ==> t == spec_tracer_at(buf@, at as int, uv_idx),
    {
        let n: usize = buf.len();
        assert(at + 44 <= n);
        let section_count: i32 = read_i32_le(buf, at + 4);
        if section_count < 0 || section_count > 0xFF {
            return None;
        }
        if !zero_run(buf, at + 12, at + 44) || buf[at] != 0 {
            return None;
        }
        Some(
            TrailEffect::new_tracer(
                uv_idx,
                (buf[at + 1], buf[at + 2], buf[at + 3], 0xFF),
                section_count as u8,
                read_u32_le(buf, at + 8),
            ),
        )
    }

    /// Reads consecutive smoke trail records and keeps those with
    /// sections; `None` where the length is not a multiple of the record
    /// size or a record is not valid.
    pub fn import_smoke_multiple(buf: &[u8], uv_idx: usize) -> (r: Option<Vec<TrailEffect>>)
        ensures
            r is Some <==> (buf@.len() % SMOKE_TRAIL_SIZE as nat == 0 && forall|i: int|
                0 <= i < buf@.len() / SMOKE_TRAIL_SIZE as nat ==> #[trigger] smoke_ok(
                    buf@,
                    SMOKE_TRAIL_SIZE * i,
                )),
            r matches Some(v) ==> v@ == smoke_trails(buf@, uv_idx).filter(|t: TrailEffect| has_sections(t)),
    {
        let n: usize = buf.len();
        if n % SMOKE_TRAIL_SIZE != 0 {
            return None;
        }
        let count: usize = n / SMOKE_TRAIL_SIZE;
        let ghost all = smoke_trails(buf@, uv_idx);
        let mut out: Vec<TrailEffect> = Vec::new();
        let mut i: usize = 0;
        while i < count
            invariant
                n == buf@.len(),
                n % SMOKE_TRAIL_SIZE == 0,
                count == n / SMOKE_TRAIL_SIZE,
                all == smoke_trails(buf@, uv_idx),
                i <= count,
                forall|k: int| 0 <= k < i ==> #[trigger] smoke_ok(buf@, SMOKE_TRAIL_SIZE * k),
                out@ == all.take(i as int).filter(|t: TrailEffect| has_sections(t)),
            decreases count - i,
        {
            assert(SMOKE_TRAIL_SIZE * i + SMOKE_TRAIL_SIZE <= n) by (nonlinear_arith)
                requires
                    i < count,
                    count == n / SMOKE_TRAIL_SIZE,
                    n % SMOKE_TRAIL_SIZE == 0,
            ;
            let t = match TrailEffect::import_smoke(buf, SMOKE_TRAIL_SIZE * i, uv_idx) {
                None => {
                    return None;
                },
                Some(t) => t,
            };
            proof {
                assert(all.take(i + 1).drop_last() =~= all.take(i as int));
                assert(all.take(i + 1).last() == t);
                reveal(Seq::filter);
            }
            if t.section_count > 0 {
                out.push(t);
            }
            i = i + 1;
        }
        assert(all.take(count as int) =~= all);
        Some(out)
    }

    /// Reads consecutive tracer trail records and keeps those with
    /// sections; `None` where the length is not a multiple of the record
    /// size or a record is not valid.
    pub fn import_tracer_multiple(buf: &[u8], uv_idx: usize) -> (r: Option<Vec<TrailEffect>>)
        ensures
            r is Some <==> (buf@.len() % TRACER_TRAIL_SIZE as nat == 0 && forall|i: int|
                0 <= i < buf@.len() / TRACER_TRAIL_SIZE as nat ==> #[trigger] tracer_ok(
                    buf@,
                    TRACER_TRAIL_SIZE * i,
                )),
            r matches Some(v) ==> v@ == tracer_trails(buf@, uv_idx).filter(|t: TrailEffect| has_sections(t)),
    {
        let n: usize = buf.len();
        if n % TRACER_TRAIL_SIZE != 0 {
            return None;
        }
        let count: usize = n / TRACER_TRAIL_SIZE;
        let ghost all = tracer_trails(buf@, uv_idx);
        let mut out: Vec<TrailEffect> = Vec::new();
        let mut i: usize = 0;
        while i < count
            invariant
                n == buf@.len(),
                n % TRACER_TRAIL_SIZE == 0,
                count == n / TRACER_TRAIL_SIZE,
                all == tracer_trails(buf@, uv_idx),
                i <= count,
                forall|k: int| 0 <= k < i ==> #[trigger] tracer_ok(buf@, TRACER_TRAIL_SIZE * k),
                out@ == all.take(i as int).filter(|t: TrailEffect| has_sections(t)),
            decreases count - i,
        {
            assert(TRACER_TRAIL_SIZE * i + TRACER_TRAIL_SIZE <= n) by (nonlinear_arith)
                requires
                    i < count,
                    count == n / TRACER_TRAIL_SIZE,
                    n % TRACER_TRAIL_SIZE == 0,
            ;
            let t = match TrailEffect::import_tracer(buf, TRACER_TRAIL_SIZE * i, uv_idx) {
                None => {
                    return None;
                },
                Some(t) => t,
            };
            proof {
                assert(all.take(i + 1).drop_last() =~= all.take(i as int));
                assert(all.take(i + 1).last() == t);
                reveal(Seq::filter);
            }
            if t.section_count > 0 {
                out.push(t);
            }
            i = i + 1;
        }
        assert(all.take(count as int) =~= all);
        Some(out)
    }
}

pub const SEQUENCE_FRAME_SIZE: usize = 4;

/// What a frame of a texture animation's timing does: show the frame for
/// a number of game frames, or end the animation in one of three ways.
#[derive(Clone, Copy, PartialEq, Eq, Debug)]
pub enum SequenceFrameType {
    Delay(u16),
    Exit,
    Reset,
    Pause,
}

/// A frame of a texture animation's timing: which frame of the animation
/// to show, and for how long.
#[derive(Clone, Copy, PartialEq, Eq, Debug)]
pub struct SequenceFrame {
    pub frame_idx: u16,
    pub frame_type: SequenceFrameType,
}

/// The timing of a texture animation.
pub struct SEQ {
    pub idx: usize,
    pub frames: Vec<SequenceFrame>,
}

/// The meaning of a stored timing value: a positive delay, or -1, -2, -3
/// for exit, reset and pause; other values are not valid.
pub open spec fn frame_type_of(v: i16) -> Option<SequenceFrameType> {
    if v == -1 {
        Some(SequenceFrameType::Exit)
    } else if v == -2 {
        Some(SequenceFrameType::Reset)
    } else if v == -3 {
        Some(SequenceFrameType::Pause)
    } else if v > 0 {
        Some(SequenceFrameType::Delay(v as u16))
    } else {
        None
    }
}

/// The timing frame stored at `at`.
pub open spec fn sequence_frame_at(b: Seq<u8>, at: int) -> Option<SequenceFrame> {
    match frame_type_of((le16(b, at + 2) as u16) as i16) {
        None => None,
        Some(t) => Some(SequenceFrame { frame_idx: le16(b, at) as u16, frame_type: t }),
    }
}

/// The timing frames of `b` from frame `k` on: they are read until the
/// stated count or the first frame that is not a delay, which is kept.
/// `None` where a frame lies past the data or is not valid.
pub open spec fn sequence_frames(b: Seq<u8>, k: nat) -> Option<Seq<SequenceFrame>>
    decreases le32(b, 0) - k,
{
    if k >= le32(b, 0) {
        Some(Seq::empty())
    } else if 4 + 4 * k + 4 > b.len() {
        None
    } else {
        match sequence_frame_at(b, (4 + 4 * k) as int) {
            None => None,
            Some(f) => if f.frame_type is Delay {
                match sequence_frames(b, k + 1) {
                    None => None,
                    Some(rest) => Some(seq![f] + rest),
                }
            } else {
                Some(seq![f])
            },
        }
    }
}

fn frame_type_from(v: i16) -> (r: Option<SequenceFrameType>)
    ensures
        r == frame_type_of(v),
{
    if v == -1 {
        Some(SequenceFrameType::Exit)
    } else if v == -2 {
        Some(SequenceFrameType::Reset)
    } else if v == -3 {
        Some(SequenceFrameType::Pause)
    } else if v > 0 {
        Some(SequenceFrameType::Delay(v as u16))
    } else {
        None
    }
}

impl SequenceFrame {
    /// Reads the timing frame at `at`; `None` where its value is not valid.
    pub fn import(buf: &[u8], at: usize) -> (r: Option<SequenceFrame>)
        requires
            at + SEQUENCE_FRAME_SIZE <= buf@.len(),
        ensures
            r == sequence_frame_at(buf@, at as int),
    {
        let n: usize = buf.len();
        assert(at + 4 <= n);
        let value: u16 = read_u16_le(buf, at + 2);
        #[verifier::truncate]
        let signed: i16 = value as i16;
        match frame_type_from(signed) {
            None => None,
            Some(t) => Some(SequenceFrame { frame_idx: read_u16_le(buf, at), frame_type: t }),
        }
    }
}

impl SEQ {
    /// Reads the timing of texture animation `idx`; `None` where it cannot
    /// be read (see `sequence_frames`).
    pub fn import(buf: &[u8], idx: usize) -> (r: Option<SEQ>)
        ensures
            buf@.len() < 4 ==> r is None,
            buf@.len() >= 4 ==> (r is Some <==> sequence_frames(buf@, 0) is Some),
            r matches Some(x) ==> x.idx == idx && sequence_frames(buf@, 0) == Some(x.frames@),
    {
        let n: usize = buf.len();
        if n < 4 {
            return None;
        }
        let count: u32 = read_u32_le(buf, 0);
        let mut frames: Vec<SequenceFrame> = Vec::new();
        let mut k: u32 = 0;
        while k < count
            invariant
                n == buf@.len(),
                n >= 4,
                count == le32(buf@, 0),
                k <= count,
                sequence_frames(buf@, 0) == match sequence_frames(buf@, k as nat) {
                    None => None,
                    Some(rest) => Some(frames@ + rest),
                },
            decreases count - k,
        {
            if (n - 4) / 4 <= k as usize {
                return None;
            }
            let at: usize = 4 + 4 * (k as usize);
            let f = match SequenceFrame::import(buf, at) {
                None => {
                    return None;
                },
                Some(f) => f,
            };
            let ghost prev = frames@;
            frames.push(f);
            let is_delay: bool = match f.frame_type {
                SequenceFrameType::Delay(_) => true,
                _ => false,
            };
            if !is_delay {
                proof {
                    assert(sequence_frames(buf@, k as nat) == Some(seq![f]));
                    assert(prev + seq![f] =~= frames@);
                }
                return Some(SEQ { idx, frames });
            }
            proof {
                match sequence_frames(buf@, (k + 1) as nat) {
                    None => {},
                    Some(rest) => {
                        assert(prev + (seq![f] + rest) =~= frames@ + rest);
                    },
                }
            }
            k = k + 1;
        }
        assert(frames@ + Seq::<SequenceFrame>::empty() =~= frames@);
        Some(SEQ { idx, frames })
    }
}

pub const UVFRAME_SIZE: usize = 24;

/// A frame of a texture animation: the corners of its part of the texture
/// and its scale (`f32` bits; the export scales the scale).
#[derive(Clone, Copy, PartialEq, Eq, Debug)]
pub struct UVFrame {
    pub start_bits: (u32, u32),
    pub end_bits: (u32, u32),
    pub scale_bits: (u32, u32),
}

/// A texture animation: its texture, its offset (`f32` bits) and frames.
pub struct UV {
    pub idx: usize,
    pub texture: u16,
    pub offset_bits: (u32, u32),
    pub frames: Vec<UVFrame>,
}

pub open spec fn spec_uv_frame(b: Seq<u8>, at: int) -> UVFrame {
    UVFrame {
        start_bits: (bits_at(b, at), bits_at(b, at + 4)),
        end_bits: (bits_at(b, at + 8), bits_at(b, at + 12)),
        scale_bits: (bits_at(b, at + 16), bits_at(b, at + 20)),
    }
}

/// The texture animation can be read: its frames (count at byte 0) follow
/// a 16-byte header and its texture index (at byte 4) names a texture of
/// `textures`.
pub open spec fn uv_ok(b: Seq<u8>, textures: Seq<u16>) -> bool {
    &&& b.len() >= 16
    &&& 16 + UVFRAME_SIZE * le32(b, 0) <= b.len()
    &&& le32(b, 4) < textures.len()
}

/// `x` holds texture animation `idx` stored in `b`.
pub open spec fn uv_read(x: UV, b: Seq<u8>, idx: int, textures: Seq<u16>) -> bool {
    &&& x.idx == idx
    &&& x.texture == textures[le32(b, 4) as int]
    &&& x.offset_bits == (bits_at(b, 8), bits_at(b, 12))
    &&& x.frames@.len() == le32(b, 0)
    &&& forall|k: int|
        0 <= k < x.frames@.len() ==> #[trigger] x.frames@[k] == spec_uv_frame(b, 16 + UVFRAME_SIZE * k)
}

impl UVFrame {
    pub fn import(buf: &[u8], at: usize) -> (r: UVFrame)
        requires
            at + UVFRAME_SIZE <= buf@.len(),
        ensures
            r == spec_uv_frame(buf@, at as int),
    {
        let n: usize = buf.len();
        assert(at + 24 <= n);
        UVFrame {
            start_bits: (read_u32_le(buf, at), read_u32_le(buf, at + 4)),
            end_bits: (read_u32_le(buf, at + 8), read_u32_le(buf, at + 12)),
            scale_bits: (read_u32_le(buf, at + 16), read_u32_le(buf, at + 20)),
        }
    }
}

impl UV {
    /// Reads texture animation `idx`, whose texture index refers to
    /// `texture_list`; `None` where it cannot be read (see `uv_ok`).
    pub fn import(buf: &[u8], idx: usize, texture_list: &[u16]) -> (r: Option<UV>)
        ensures
            r is Some <==> uv_ok(buf@, texture_list@),
            r matches Some(x) ==> uv_read(x, buf@, idx as int, texture_list@),
    {
        let n: usize = buf.len();
        if n < 16 {
            return None;
        }
        let count: usize = read_u32_le(buf, 0) as usize;
        let texture_idx: usize = read_u32_le(buf, 4) as usize;
        if (n - 16) / UVFRAME_SIZE < count || texture_idx >= texture_list.len() {
            return None;
        }
        let mut frames: Vec<UVFrame> = Vec::with_capacity(count);
        let mut k: usize = 0;
        while k < count
            invariant
                n == buf@.len(),
                16 + UVFRAME_SIZE * count <= n,
                k <= count,
                frames@.len() == k,
                forall|m: int|
                    0 <= m < k ==> #[trigger] frames@[m] == spec_uv_frame(buf@, 16 + UVFRAME_SIZE * m),
            decreases count - k,
        {
            assert(16 + UVFRAME_SIZE * k + UVFRAME_SIZE <= 16 + UVFRAME_SIZE * count);
            frames.push(UVFrame::import(buf, 16 + UVFRAME_SIZE * k));
            k = k + 1;
        }
        Some(
            UV {
                idx,
                texture: texture_list[texture_idx],
                offset_bits: (read_u32_le(buf, 8), read_u32_le(buf, 12)),
                frames,
            },
        )
    }
}

/// Bytes of an effect record.
pub const EFFECT_RECORD_SIZE: usize = 308;

/// Parameters of an effect whose meaning depends on its type, kept as
/// `f32` bits (child effect, damping time, repetition).
pub const FREE_PARAMETER_COUNT: usize = 36;

/// How an effect is blended.
#[derive(Clone, Copy, PartialEq, Eq, Debug)]
pub enum BlendType {
    Alpha,
    Add,
    Sub,
}

/// What an effect draws: a texture animation and its timing (2D kinds), or
/// a model (3D kinds), once, repeated or as particles.
#[derive(Clone, Copy, PartialEq, Eq, Debug)]
pub enum EffectType {
    Sin2D(u8, u8),
    Rep2D(u8, u8),
    Par2D(u8, u8),
    ParLin(u8, u8),
    Gk,
    Sin3D(u16),
    Rep3D(u16),
    Par3D(u16),
}

/// The effect type stored as `v` with its texture animation, timing and
/// model; type 4 and types past 7 are not valid.
pub open spec fn spec_effect_type(v: nat, uv: u8, seq: u8, model: u16) -> Option<EffectType> {
    if v == 0 {
        Some(EffectType::Sin2D(uv, seq))
    } else if v == 1 {
        Some(EffectType::Rep2D(uv, seq))
    } else if v == 2 {
        Some(EffectType::Par2D(uv, seq))
    } else if v == 3 {
        Some(EffectType::ParLin(uv, seq))
    } else if v == 5 {
        Some(EffectType::Sin3D(model))
    } else if v == 6 {
        Some(EffectType::Rep3D(model))
    } else if v == 7 {
        Some(EffectType::Par3D(model))
    } else {
        None
    }
}

fn effect_type_from(v: u16, uv: u8, seq: u8, model: u16) -> (r: Option<EffectType>)
    ensures
        r == spec_effect_type(v as nat, uv, seq, model),
{
    if v == 0 {
        Some(EffectType::Sin2D(uv, seq))
    } else if v == 1 {
        Some(EffectType::Rep2D(uv, seq))
    } else if v == 2 {
        Some(EffectType::Par2D(uv, seq))
    } else if v == 3 {
        Some(EffectType::ParLin(uv, seq))
    } else if v == 5 {
        Some(EffectType::Sin3D(model))
    } else if v == 6 {
        Some(EffectType::Rep3D(model))
    } else if v == 7 {
        Some(EffectType::Par3D(model))
    } else {
        None
    }
}

impl EffectType {
    /// The number the export writes for the type.
    pub fn as_u8(&self) -> (r: u8)
        ensures
            spec_effect_type(r as nat, 0, 0, 0) is Some || r == 4,
            r < 8,
            *self is Sin2D <==> r == 0,
            *self is Rep2D <==> r == 1,
            *self is Par2D <==> r == 2,
            *self is ParLin <==> r == 3,
            *self is Gk <==> r == 4,
            *self is Sin3D <==> r == 5,
            *self is Rep3D <==> r == 6,
            *self is Par3D <==> r == 7,
    {
        match self {
            EffectType::Sin2D(_, _) => 0,
            EffectType::Rep2D(_, _) => 1,
            EffectType::Par2D(_, _) => 2,
            EffectType::ParLin(_, _) => 3,
            EffectType::Gk => 4,
            EffectType::Sin3D(_) => 5,
            EffectType::Rep3D(_) => 6,
            EffectType::Par3D(_) => 7,
        }
    }
}

/// A position, rotation and scale, as `f32` bits (the export scales them
/// and converts them to per-second rates).
#[derive(Clone, Copy, PartialEq, Eq, Debug)]
pub struct Transform {
    pub position_bits: (u32, u32, u32),
    pub rotation_bits: (u32, u32, u32),
    pub scale_bits: (u32, u32, u32),
}

pub open spec fn spec_transform(b: Seq<u8>, at: int) -> Transform {
    Transform {
        position_bits: position_at(b, at),
        rotation_bits: position_at(b, at + 12),
        scale_bits: position_at(b, at + 24),
    }
}

/// An effect: what it draws and how it blends, its life and delay (in
/// frames; a life of 0 lasts forever), priority and flags, its vertex
/// colour (RGBA), damping colour, initial transform, velocity and
/// acceleration, gravity, and its free parameters (`f32` bits).
pub struct Effect {
    pub effect_type: EffectType,
    pub blend_type: BlendType,
    pub life_frames: u32,
    pub delay_frames: u32,
    pub priority: u16,
    pub flags: u16,
    pub vertex_color: (u8, u8, u8, u8),
    pub damping_color_bits: (u32, u32, u32, u32),
    pub initial_transform: Transform,
    pub velocity_transform: Transform,
    pub acceleration_transform: Transform,
    pub acceleration_gravity_bits: (u32, u32, u32),
    pub free_bits: Vec<u32>,
}

/// The effect record at `at` is valid: its type is known, its blend type is
/// below 3, its joint and texture are unused, its texture animation and
/// timing fit a byte, its model index names a model of `models`, and its
/// life is below `u16::MAX`.
pub open spec fn effect_record_ok(b: Seq<u8>, at: int, models: Seq<u16>) -> bool {
    &&& spec_effect_type(le16(b, at), 0, 0, 0) is Some
    &&& b[at + 2] < 3
    &&& b[at + 3] == 0
    &&& le16(b, at + 6) == 0
    &&& le16(b, at + 8) <= 0xFF
    &&& le16(b, at + 10) <= 0xFF
    &&& le16(b, at + 12) < models.len()
    &&& le32(b, at + 36) < 0xFFFF
}

pub open spec fn spec_blend(v: u8) -> BlendType {
    if v == 0 {
        BlendType::Alpha
    } else if v == 1 {
        BlendType::Add
    } else {
        BlendType::Sub
    }
}

/// `e` holds the effect record at `at`.
pub open spec fn effect_record_matches(e: Effect, b: Seq<u8>, at: int, models: Seq<u16>) -> bool {
    &&& Some(e.effect_type) == spec_effect_type(
        le16(b, at),
        le16(b, at + 8) as u8,
        le16(b, at + 10) as u8,
        models[le16(b, at + 12) as int],
    )
    &&& e.blend_type == spec_blend(b[at + 2])
    &&& e.life_frames == le32(b, at + 36)
    &&& e.delay_frames == le32(b, at + 40)
    &&& e.priority == le16(b, at + 4)
    &&& e.flags == le16(b, at + 14)
    &&& e.vertex_color == (b[at + 18], b[at + 17], b[at + 16], b[at + 19])
    &&& e.damping_color_bits == (bits_at(b, at + 20), bits_at(b, at + 24), bits_at(b, at + 28), bits_at(b, at + 32))
    &&& e.initial_transform == spec_transform(b, at + 44)
    &&& e.velocity_transform == spec_transform(b, at + 80)
    &&& e.acceleration_transform == spec_transform(b, at + 116)
    &&& e.acceleration_gravity_bits == position_at(b, at + 152)
    &&& e.free_bits@ == le32_seq(b, at + 164, FREE_PARAMETER_COUNT as nat)
}

fn read_transform(b: &[u8], at: usize) -> (r: Transform)
    requires
        at + 36 <= b@.len(),
    ensures
        r == spec_transform(b@, at as int),
{
    let n: usize = b.len();
    assert(at + 36 <= n);
    Transform {
        position_bits: read_position(b, at),
        rotation_bits: read_position(b, at + 12),
        scale_bits: read_position(b, at + 24),
    }
}

impl Effect {
    /// Reads the effect record at `at`, whose model index refers to
    /// `model_list`; `None` where it is not valid (see `effect_record_ok`).
    /// The child effect id, a float among the free parameters, is checked
    /// where it is converted.
    pub fn import(buf: &[u8], at: usize, model_list: &[u16]) -> (r: Option<Effect>)
        requires
            at + EFFECT_RECORD_SIZE <= buf@.len(),
        ensures
            r is Some <==> effect_record_ok(buf@, at as int, model_list@),
            r matches Some(e) ==> effect_record_matches(e, buf@, at as int, model_list@),
    {
        let n: usize = buf.len();
        assert(at + 308 <= n);
        let blend: u8 = buf[at + 2];
        let uv: u16 = read_u16_le(buf, at + 8);
        let seq: u16 = read_u16_le(buf, at + 10);
        let model_idx: usize = read_u16_le(buf, at + 12) as usize;
        let life: u32 = read_u32_le(buf, at + 36);
        if blend >= 3 || buf[at + 3] != 0 || read_u16_le(buf, at + 6) != 0 || uv > 0xFF || seq > 0xFF
            || model_idx >= model_list.len() || life >= 0xFFFF {
            return None;
        }
        let kind: u16 = read_u16_le(buf, at);
        let effect_type = match effect_type_from(kind, uv as u8, seq as u8, model_list[model_idx]) {
            None => {
                assert(spec_effect_type(le16(buf@, at as int), 0, 0, 0) is None);
                return None;
            },
            Some(t) => t,
        };
        let blend_type = if blend == 0 {
            BlendType::Alpha
        } else if blend == 1 {
            BlendType::Add
        } else {
            BlendType::Sub
        };
        let mut free_bits: Vec<u32> = Vec::with_capacity(FREE_PARAMETER_COUNT);
        let mut k: usize = 0;
        while k < FREE_PARAMETER_COUNT
            invariant
                n == buf@.len(),
                at + 308 <= n,
                k <= FREE_PARAMETER_COUNT,
                free_bits@ == le32_seq(buf@, at + 164, k as nat),
            decreases FREE_PARAMETER_COUNT - k,
        {
            free_bits.push(read_u32_le(buf, at + 164 + 4 * k));
            k = k + 1;
            assert(free_bits@ =~= le32_seq(buf@, at + 164, k as nat));
        }
        Some(
            Effect {
                effect_type,
                blend_type,
                life_frames: life,
                delay_frames: read_u32_le(buf, at + 40),
                priority: read_u16_le(buf, at + 4),
                flags: read_u16_le(buf, at + 14),
                vertex_color: (buf[at + 18], buf[at + 17], buf[at + 16], buf[at + 19]),
                damping_color_bits: (
                    read_u32_le(buf, at + 20),
                    read_u32_le(buf, at + 24),
                    read_u32_le(buf, at + 28),
                    read_u32_le(buf, at + 32),
                ),
                initial_transform: read_transform(buf, at + 44),
                velocity_transform: read_transform(buf, at + 80),
                acceleration_transform: read_transform(buf, at + 116),
                acceleration_gravity_bits: read_position(buf, at + 152),
                free_bits,
            },
        )
    }
}

/// The effects of an effect file.
pub struct EFE {
    pub id: u16,
    pub effects: Vec<Effect>,
}

/// The effect file can be read: an effect count, one offset per effect,
/// and a valid effect record at each offset.
pub open spec fn efe_ok(b: Seq<u8>, models: Seq<u16>) -> bool {
    &&& b.len() >= 4
    &&& 4 + 4 * le32(b, 0) <= b.len()
    &&& forall|k: int|
        0 <= k < le32(b, 0) ==> {
            &&& #[trigger] le32(b, 4 + 4 * k) + EFFECT_RECORD_SIZE <= b.len()
            &&& effect_record_ok(b, le32(b, 4 + 4 * k) as int, models)
        }
}

/// `x` holds effect file `id` stored in `b`.
pub open spec fn efe_read(x: EFE, b: Seq<u8>, id: u16, models: Seq<u16>) -> bool {
    &&& x.id == id
    &&& x.effects@.len() == le32(b, 0)
    &&& forall|k: int|
        0 <= k < x.effects@.len() ==> #[trigger] effect_record_matches(
            x.effects@[k],
            b,
            le32(b, 4 + 4 * k) as int,
            models,
        )
}

impl EFE {
    /// Reads effect file `id`, whose model indices refer to `model_list`;
    /// `None` where it cannot be read (see `efe_ok`).
    pub fn import(buf: &[u8], id: u16, model_list: &[u16]) -> (r: Option<EFE>)
        ensures
            r is Some <==> efe_ok(buf@, model_list@),
            r matches Some(x) ==> efe_read(x, buf@, id, model_list@),
    {
        let n: usize = buf.len();
        if n < 4 {
            return None;
        }
        let count: usize = read_u32_le(buf, 0) as usize;
        if (n - 4) / 4 < count {
            return None;
        }
        let mut effects: Vec<Effect> = Vec::with_capacity(count);
        let mut k: usize = 0;
        while k < count
            invariant
                n == buf@.len(),
                n >= 4,
                count == le32(buf@, 0),
                4 + 4 * count <= n,
                k <= count,
                effects@.len() == k,
                forall|m: int|
                    0 <= m < k ==> {
                        &&& #[trigger] le32(buf@, 4 + 4 * m) + EFFECT_RECORD_SIZE <= buf@.len()
                        &&& effect_record_ok(buf@, le32(buf@, 4 + 4 * m) as int, model_list@)
                    },
                forall|m: int|
                    0 <= m < k ==> #[trigger] effect_record_matches(
                        effects@[m],
                        buf@,
                        le32(buf@, 4 + 4 * m) as int,
                        model_list@,
                    ),
            decreases count - k,
        {
            let off: usize = read_u32_le(buf, 4 + 4 * k) as usize;
            if off > n || n - off < EFFECT_RECORD_SIZE {
                return None;
            }
            match Effect::import(buf, off, model_list) {
                None => {
                    return None;
                },
                Some(e) => {
                    effects.push(e);
                },
            }
            k = k + 1;
        }
        Some(EFE { id, effects })
    }
}

/// File `i` of the archive whose table starts at byte 0 of `d` lies
/// within `d`.
pub open spec fn archive_file_fits(d: Seq<u8>, i: int) -> bool {
    le32(d, 4 + 8 * i) + le32(d, 8 + 8 * i) <= d.len()
}

/// File `i` of the archive whose table starts at byte 0 of `d`.
pub open spec fn archive_file(d: Seq<u8>, i: int) -> Seq<u8> {
    d.subrange(le32(d, 4 + 8 * i) as int, (le32(d, 4 + 8 * i) + le32(d, 8 + 8 * i)) as int)
}

/// Every file of the archive `d` lies within it.
pub open spec fn archive_fits(d: Seq<u8>) -> bool {
    &&& 4 + 8 * le32(d, 0) <= d.len()
    &&& forall|i: int| 0 <= i < le32(d, 0) ==> #[trigger] archive_file_fits(d, i)
}

/// `idxs` lists, in order, the files of the archive `d` that are not empty.
pub open spec fn nonempty_files(idxs: Seq<int>, d: Seq<u8>) -> bool {
    &&& forall|k: int|
        0 <= k < idxs.len() ==> 0 <= #[trigger] idxs[k] < le32(d, 0) && archive_file(d, idxs[k]).len()
            > 0
    &&& forall|k1: int, k2: int| 0 <= k1 < k2 < idxs.len() ==> idxs[k1] < idxs[k2]
    &&& forall|i: int|
        0 <= i < le32(d, 0) && #[trigger] archive_file(d, i).len() > 0 ==> exists|k: int|
            0 <= k < idxs.len() && idxs[k] == i
}

/// The effect pack's texture animations of one archive: one per file that
/// is not empty, in order.
pub open spec fn uv_list_read(v: Seq<UV>, d: Seq<u8>, textures: Seq<u16>) -> bool {
    exists|idxs: Seq<int>|
        #[trigger] nonempty_files(idxs, d) && idxs.len() == v.len() && forall|k: int|
            0 <= k < v.len() ==> #[trigger] uv_read(v[k], archive_file(d, idxs[k]), idxs[k], textures)
}

/// `x` holds the timing stored in `b` as number `idx`.
pub open spec fn seq_read(x: SEQ, b: Seq<u8>, idx: int) -> bool {
    &&& x.idx == idx
    &&& b.len() >= 4
    &&& sequence_frames(b, 0) == Some(x.frames@)
}

pub open spec fn seq_list_read(v: Seq<SEQ>, d: Seq<u8>) -> bool {
    exists|idxs: Seq<int>|
        #[trigger] nonempty_files(idxs, d) && idxs.len() == v.len() && forall|k: int|
            0 <= k < v.len() ==> #[trigger] seq_read(v[k], archive_file(d, idxs[k]), idxs[k])
}

/// The effect files: each file has an id in `ids` that fits 16 bits, and
/// there is one per file that is not empty, in order.
pub open spec fn efe_list_read(v: Seq<EFE>, d: Seq<u8>, ids: Seq<u32>, models: Seq<u16>) -> bool {
    &&& le32(d, 0) <= ids.len()
    &&& forall|i: int| 0 <= i < le32(d, 0) ==> #[trigger] ids[i] <= 0xFFFF
    &&& exists|idxs: Seq<int>|
        #[trigger] nonempty_files(idxs, d) && idxs.len() == v.len() && forall|k: int|
            0 <= k < v.len() ==> #[trigger] efe_read(
                v[k],
                archive_file(d, idxs[k]),
                ids[idxs[k]] as u16,
                models,
            )
}

/// What the files of one archive of an effect pack are read as: effect
/// files (with the effect id of each file and the models), animation
/// timings, or texture animations (with the textures).
pub enum ListKind {
    Effects(Seq<u32>, Seq<u16>),
    Timings,
    Animations(Seq<u16>),
}

/// What is checked of file `i` before it is read: an effect file needs an
/// effect id that fits 16 bits.
pub open spec fn file_pre(kind: ListKind, i: int) -> bool {
    match kind {
        ListKind::Effects(ids, _) => 0 <= i < ids.len() && ids[i] <= 0xFFFF,
        _ => true,
    }
}

/// A file that is not empty can be read as its kind.
pub open spec fn file_ok(kind: ListKind, b: Seq<u8>) -> bool {
    match kind {
        ListKind::Effects(_, models) => efe_ok(b, models),
        ListKind::Timings => b.len() >= 4 && sequence_frames(b, 0) is Some,
        ListKind::Animations(textures) => uv_ok(b, textures),
    }
}

/// `a`, and where it passes, `b`.
pub open spec fn and_then(a: Option<Result<(), IoError>>, b: Option<Result<(), IoError>>) -> Option<
    Result<(), IoError>,
> {
    if a matches Some(Ok(_)) {
        b
    } else {
        a
    }
}

/// How reading the first `n` files of the archive `d` in order ends: `None`
/// at a file that fails its check or, not empty, cannot be read as its
/// kind; `Err` at a file that lies past the data. The first file that
/// fails decides.
pub open spec fn list_end(d: Seq<u8>, kind: ListKind, n: nat) -> Option<Result<(), IoError>>
    decreases n,
{
    if n == 0 {
        Some(Ok(()))
    } else {
        let i = n - 1;
        and_then(
            list_end(d, kind, (n - 1) as nat),
            if !file_pre(kind, i) {
                None
            } else if !archive_file_fits(d, i) {
                Some(Err(IoError::UnexpectedEof))
            } else if archive_file(d, i).len() > 0 && !file_ok(kind, archive_file(d, i)) {
                None
            } else {
                Some(Ok(()))
            },
        )
    }
}

/// Once reading fails, reading more files ends the same way.
proof fn lemma_list_end_stays(d: Seq<u8>, kind: ListKind, n: nat, m: nat)
    requires
        n <= m,
        list_end(d, kind, n) != Some(Ok::<(), IoError>(())),
    ensures
        list_end(d, kind, m) == list_end(d, kind, n),
    decreases m,
{
    if n < m {
        lemma_list_end_stays(d, kind, n, (m - 1) as nat);
    }
}

/// How reading all files of the archive `d` ends.
pub open spec fn archive_end(d: Seq<u8>, kind: ListKind) -> Option<Result<(), IoError>> {
    list_end(d, kind, le32(d, 0) as nat)
}

/// What reading file `i` of `bin`, which holds the archive `d`, gives.
proof fn lemma_file_bytes(bin: BIN, d: Seq<u8>, i: int)
    requires
        bin.read_from(d, 0),
        d.len() < usize::MAX,
        0 <= i < bin.count(),
    ensures
        bin.file_offset(i) == le32(d, 4 + 8 * i),
        bin.file_offset(i) + bin.file_len(i) <= d.len() <==> archive_file_fits(d, i),
        archive_file_fits(d, i) ==> bin.file_len(i) == le32(d, 8 + 8 * i) && d.subrange(
            bin.file_offset(i) as int,
            (bin.file_offset(i) + bin.file_len(i)) as int,
        ) == archive_file(d, i),
{
    assert(bin.file_offset(i) == entry_offset(d, 4, i));
    assert(4 + 8 * i + 4 == 8 + 8 * i);
}

/// Reads the texture animations of the archive `bin`, skipping empty files.
fn import_uv_list(bin: &mut BIN, Ghost(d): Ghost<Seq<u8>>, textures: &[u16]) -> (r: Option<
    Result<Vec<UV>, IoError>,
>)
    requires
        old(bin).read_from(d, 0),
        table_fits(d, 0),
        d.len() < usize::MAX,
    ensures
        match archive_end(d, ListKind::Animations(textures@)) {
            None => r is None,
            Some(Err(e)) => r == Some(Err::<Vec<UV>, IoError>(e)),
            Some(Ok(_)) => r matches Some(Ok(v)) && archive_fits(d) && uv_list_read(v@, d, textures@),
        },
{
    let ghost kind = ListKind::Animations(textures@);
    let count: usize = bin.file_count();
    let mut out: Vec<UV> = Vec::new();
    let ghost mut idxs: Seq<int> = Seq::empty();
    let mut i: usize = 0;
    while i < count
        invariant
            bin.read_from(d, 0),
            d.len() < usize::MAX,
            table_fits(d, 0),
            count == bin.count(),
            count == le32(d, 0),
            i <= count,
            kind == ListKind::Animations(textures@),
            list_end(d, kind, i as nat) == Some(Ok::<(), IoError>(())),
            idxs.len() == out@.len(),
            forall|j: int| 0 <= j < i ==> #[trigger] archive_file_fits(d, j),
            forall|k: int|
                0 <= k < idxs.len() ==> 0 <= #[trigger] idxs[k] < i && archive_file(d, idxs[k]).len() > 0,
            forall|k1: int, k2: int| 0 <= k1 < k2 < idxs.len() ==> idxs[k1] < idxs[k2],
            forall|j: int|
                0 <= j < i && #[trigger] archive_file(d, j).len() > 0 ==> exists|k: int|
                    0 <= k < idxs.len() && idxs[k] == j,
            forall|k: int|
                0 <= k < out@.len() ==> #[trigger] uv_read(
                    out@[k],
                    archive_file(d, idxs[k]),
                    idxs[k],
                    textures@,
                ),
        decreases count - i,
    {
        proof {
            lemma_file_bytes(*bin, d, i as int);
        }
        let bytes = match bin.file_as_bytes(i) {
            Err(e) => {
                proof {
                    lemma_list_end_stays(d, kind, (i + 1) as nat, count as nat);
                }
                return Some(Err(e));
            },
            Ok(b) => b,
        };
        assert(bytes@ == archive_file(d, i as int));
        if bytes.len() != 0 {
            match UV::import(bytes.as_slice(), i, textures) {
                None => {
                    proof {
                        lemma_list_end_stays(d, kind, (i + 1) as nat, count as nat);
                    }
                    return None;
                },
                Some(u) => {
                    out.push(u);
                    proof {
                        let old_idxs = idxs;
                        idxs = idxs.push(i as int);
                        assert(idxs[idxs.len() - 1] == i);
                        assert forall|j: int|
                            0 <= j < i + 1 && #[trigger] archive_file(d, j).len() > 0 implies exists|k: int|
                            0 <= k < idxs.len() && idxs[k] == j by {
                            if j < i {
                                let k = choose|k: int| 0 <= k < old_idxs.len() && old_idxs[k] == j;
                                assert(idxs[k] == j);
                            } else {
                                assert(idxs[idxs.len() - 1] == j);
                            }
                        }
                    }
                },
            }
        }
        i = i + 1;
    }
    proof {
        assert(nonempty_files(idxs, d));
    }
    Some(Ok(out))
}

/// Reads the animation timings of the archive `bin`, skipping empty files.
fn import_seq_list(bin: &mut BIN, Ghost(d): Ghost<Seq<u8>>) -> (r: Option<Result<Vec<SEQ>, IoError>>)
    requires
        old(bin).read_from(d, 0),
        table_fits(d, 0),
        d.len() < usize::MAX,
    ensures
        match archive_end(d, ListKind::Timings) {
            None => r is None,
            Some(Err(e)) => r == Some(Err::<Vec<SEQ>, IoError>(e)),
            Some(Ok(_)) => r matches Some(Ok(v)) && archive_fits(d) && seq_list_read(v@, d),
        },
{
    let ghost kind = ListKind::Timings;
    let count: usize = bin.file_count();
    let mut out: Vec<SEQ> = Vec::new();
    let ghost mut idxs: Seq<int> = Seq::empty();
    let mut i: usize = 0;
    while i < count
        invariant
            bin.read_from(d, 0),
            d.len() < usize::MAX,
            table_fits(d, 0),
            count == bin.count(),
            count == le32(d, 0),
            i <= count,
            kind == ListKind::Timings,
            list_end(d, kind, i as nat) == Some(Ok::<(), IoError>(())),
            idxs.len() == out@.len(),
            forall|j: int| 0 <= j < i ==> #[trigger] archive_file_fits(d, j),
            forall|k: int|
                0 <= k < idxs.len() ==> 0 <= #[trigger] idxs[k] < i && archive_file(d, idxs[k]).len() > 0,
            forall|k1: int, k2: int| 0 <= k1 < k2 < idxs.len() ==> idxs[k1] < idxs[k2],
            forall|j: int|
                0 <= j < i && #[trigger] archive_file(d, j).len() > 0 ==> exists|k: int|
                    0 <= k < idxs.len() && idxs[k] == j,
            forall|k: int|
                0 <= k < out@.len() ==> #[trigger] seq_read(out@[k], archive_file(d, idxs[k]), idxs[k]),
        decreases count - i,
    {
        proof {
            lemma_file_bytes(*bin, d, i as int);
        }
        let bytes = match bin.file_as_bytes(i) {
            Err(e) => {
                proof {
                    lemma_list_end_stays(d, kind, (i + 1) as nat, count as nat);
                }
                return Some(Err(e));
            },
            Ok(b) => b,
        };
        assert(bytes@ == archive_file(d, i as int));
        if bytes.len() != 0 {
            match SEQ::import(bytes.as_slice(), i) {
                None => {
                    proof {
                        lemma_list_end_stays(d, kind, (i + 1) as nat, count as nat);
                    }
                    return None;
                },
                Some(u) => {
                    out.push(u);
                    proof {
                        let old_idxs = idxs;
                        idxs = idxs.push(i as int);
                        assert(idxs[idxs.len() - 1] == i);
                        assert forall|j: int|
                            0 <= j < i + 1 && #[trigger] archive_file(d, j).len() > 0 implies exists|k: int|
                            0 <= k < idxs.len() && idxs[k] == j by {
                            if j < i {
                                let k = choose|k: int| 0 <= k < old_idxs.len() && old_idxs[k] == j;
                                assert(idxs[k] == j);
                            } else {
                                assert(idxs[idxs.len() - 1] == j);
                            }
                        }
                    }
                },
            }
        }
        i = i + 1;
    }
    proof {
        assert(nonempty_files(idxs, d));
    }
    Some(Ok(out))
}

/// Reads the effect files of the archive `bin`, skipping empty files; file
/// `i` has effect id `effect_ids[i]`, which must fit 16 bits.
fn import_efe_list(
    bin: &mut BIN,
    Ghost(d): Ghost<Seq<u8>>,
    effect_ids: &[u32],
    model_list: &[u16],
) -> (r: Option<Result<Vec<EFE>, IoError>>)
    requires
        old(bin).read_from(d, 0),
        table_fits(d, 0),
        d.len() < usize::MAX,
    ensures
        match archive_end(d, ListKind::Effects(effect_ids@, model_list@)) {
            None => r is None,
            Some(Err(e)) => r == Some(Err::<Vec<EFE>, IoError>(e)),
            Some(Ok(_)) => r matches Some(Ok(v)) && archive_fits(d) && efe_list_read(
                v@,
                d,
                effect_ids@,
                model_list@,
            ),
        },
{
    let ghost kind = ListKind::Effects(effect_ids@, model_list@);
    let count: usize = bin.file_count();
    let mut out: Vec<EFE> = Vec::new();
    let ghost mut idxs: Seq<int> = Seq::empty();
    let mut i: usize = 0;
    while i < count
        invariant
            bin.read_from(d, 0),
            d.len() < usize::MAX,
            table_fits(d, 0),
            count == bin.count(),
            count == le32(d, 0),
            i <= count,
            kind == ListKind::Effects(effect_ids@, model_list@),
            list_end(d, kind, i as nat) == Some(Ok::<(), IoError>(())),
            idxs.len() == out@.len(),
            forall|j: int| 0 <= j < i ==> #[trigger] archive_file_fits(d, j),
            forall|k: int|
                0 <= k < idxs.len() ==> 0 <= #[trigger] idxs[k] < i && archive_file(d, idxs[k]).len() > 0,
            forall|k1: int, k2: int| 0 <= k1 < k2 < idxs.len() ==> idxs[k1] < idxs[k2],
            forall|j: int|
                0 <= j < i && #[trigger] archive_file(d, j).len() > 0 ==> exists|k: int|
                    0 <= k < idxs.len() && idxs[k] == j,
            forall|k: int|
                0 <= k < out@.len() ==> #[trigger] efe_read(
                    out@[k],
                    archive_file(d, idxs[k]),
                    effect_ids@[idxs[k]] as u16,
                    model_list@,
                ),
            i <= effect_ids@.len(),
            forall|j: int| 0 <= j < i ==> #[trigger] effect_ids@[j] <= 0xFFFF,
        decreases count - i,
    {
        if i >= effect_ids.len() || effect_ids[i] > 0xFFFF {
            proof {
                lemma_list_end_stays(d, kind, (i + 1) as nat, count as nat);
            }
            return None;
        }
        let id: u16 = effect_ids[i] as u16;
        proof {
            lemma_file_bytes(*bin, d, i as int);
        }
        let bytes = match bin.file_as_bytes(i) {
            Err(e) => {
                proof {
                    lemma_list_end_stays(d, kind, (i + 1) as nat, count as nat);
                }
                return Some(Err(e));
            },
            Ok(b) => b,
        };
        assert(bytes@ == archive_file(d, i as int));
        if bytes.len() != 0 {
            match EFE::import(bytes.as_slice(), id, model_list) {
                None => {
                    proof {
                        lemma_list_end_stays(d, kind, (i + 1) as nat, count as nat);
                    }
                    return None;
                },
                Some(u) => {
                    out.push(u);
                    proof {
                        let old_idxs = idxs;
                        idxs = idxs.push(i as int);
                        assert(idxs[idxs.len() - 1] == i);
                        assert forall|j: int|
                            0 <= j < i + 1 && #[trigger] archive_file(d, j).len() > 0 implies exists|k: int|
                            0 <= k < idxs.len() && idxs[k] == j by {
                            if j < i {
                                let k = choose|k: int| 0 <= k < old_idxs.len() && old_idxs[k] == j;
                                assert(idxs[k] == j);
                            } else {
                                assert(idxs[idxs.len() - 1] == j);
                            }
                        }
                    }
                },
            }
        }
        i = i + 1;
    }
    proof {
        assert(nonempty_files(idxs, d));
    }
    Some(Ok(out))
}

/// An effect pack: its effect files, animation timings, and two sets of
/// texture animations.
pub struct EFP {
    pub efe_list: Vec<EFE>,
    pub seq_list: Vec<SEQ>,
    pub uv1_list: Vec<UV>,
    pub uv2_list: Vec<UV>,
}

/// `x` holds the effect pack `d`: an archive of four archives (effect
/// files, timings, and the two sets of texture animations), every file of
/// which lies within its archive.
pub open spec fn efp_read(x: EFP, d: Seq<u8>, models: Seq<u16>, textures: Seq<u16>, ids: Seq<u32>) -> bool {
    &&& le32(d, 0) == 4
    &&& archive_fits(d)
    &&& archive_fits(archive_file(d, 0))
    &&& archive_fits(archive_file(d, 1))
    &&& archive_fits(archive_file(d, 2))
    &&& archive_fits(archive_file(d, 3))
    &&& efe_list_read(x.efe_list@, archive_file(d, 0), ids, models)
    &&& seq_list_read(x.seq_list@, archive_file(d, 1))
    &&& uv_list_read(x.uv1_list@, archive_file(d, 2), textures)
    &&& uv_list_read(x.uv2_list@, archive_file(d, 3), textures)
}

/// File `k` of the archive `d` lies within it and starts with a whole file
/// table.
pub open spec fn inner_fits(d: Seq<u8>, k: int) -> bool {
    archive_file_fits(d, k) && table_fits(archive_file(d, k), 0)
}

/// How reading the effect pack `d` ends: it must be an archive of four
/// archives that lie within it; then the two sets of texture animations,
/// the timings and the effect files are read, in that order.
pub open spec fn efp_end(d: Seq<u8>, models: Seq<u16>, textures: Seq<u16>, ids: Seq<u32>) -> Option<
    Result<(), IoError>,
> {
    if !table_fits(d, 0) {
        Some(Err(IoError::UnexpectedEof))
    } else if le32(d, 0) != 4 {
        None
    } else if !(inner_fits(d, 0) && inner_fits(d, 1) && inner_fits(d, 2) && inner_fits(d, 3)) {
        Some(Err(IoError::UnexpectedEof))
    } else {
        and_then(
            archive_end(archive_file(d, 2), ListKind::Animations(textures)),
            and_then(
                archive_end(archive_file(d, 3), ListKind::Animations(textures)),
                and_then(
                    archive_end(archive_file(d, 1), ListKind::Timings),
                    archive_end(archive_file(d, 0), ListKind::Effects(ids, models)),
                ),
            ),
        )
    }
}

/// Reads file `k` of `bin`, which holds the archive `d`, as an archive.
fn inner_archive(bin: &mut BIN, Ghost(d): Ghost<Seq<u8>>, k: usize) -> (r: Result<(BIN, Ghost<Seq<u8>>), IoError>)
    requires
        old(bin).read_from(d, 0),
        d.len() < usize::MAX,
        k < old(bin).count(),
    ensures
        final(bin).read_from(d, 0),
        final(bin).count() == old(bin).count(),
        !inner_fits(d, k as int) ==> r == Err::<(BIN, Ghost<Seq<u8>>), IoError>(IoError::UnexpectedEof),
        inner_fits(d, k as int) ==> r is Ok,
        r matches Ok((b, g)) ==> {
            &&& archive_file_fits(d, k as int)
            &&& g@ == archive_file(d, k as int)
            &&& b.read_from(g@, 0)
            &&& table_fits(g@, 0)
            &&& g@.len() < usize::MAX
        },
{
    proof {
        lemma_file_bytes(*bin, d, k as int);
    }
    let bytes = match bin.file_as_bytes(k) {
        Err(e) => {
            return Err(e);
        },
        Ok(b) => b,
    };
    let ghost g = bytes@;
    match BIN::from_reader(ByteReader::new(bytes)) {
        Err(e) => Err(e),
        Ok(b) => Ok((b, Ghost(g))),
    }
}

impl EFP {
    /// Reads an effect pack, whose effects name models of `model_list` and
    /// whose texture animations name textures of `texture_list`; effect
    /// file `i` has id `effect_ids[i]`. `None` where the pack does not hold
    /// four archives, an effect id does not fit 16 bits (or is missing), or
    /// a file cannot be read as its kind; `Err` where a file lies past the
    /// data.
    #[verifier::spinoff_prover]
    #[verifier::rlimit(60)]
    pub fn import(efp_data: Vec<u8>, model_list: &[u16], texture_list: &[u16], effect_ids: &[u32]) -> (r:
        Option<Result<EFP, IoError>>)
        requires
            efp_data@.len() < usize::MAX,
        ensures
            match efp_end(efp_data@, model_list@, texture_list@, effect_ids@) {
                None => r is None,
                Some(Err(e)) => r == Some(Err::<EFP, IoError>(e)),
                Some(Ok(_)) => r matches Some(Ok(x)) && efp_read(
                    x,
                    efp_data@,
                    model_list@,
                    texture_list@,
                    effect_ids@,
                ),
            },
    {
        let ghost d = efp_data@;
        let mut outer = match BIN::from_reader(ByteReader::new(efp_data)) {
            Err(e) => {
                return Some(Err(e));
            },
            Ok(b) => b,
        };
        if outer.file_count() != 4 {
            return None;
        }
        let (mut efe_bin, Ghost(de)) = match inner_archive(&mut outer, Ghost(d), 0) {
            Err(e) => {
                return Some(Err(e));
            },
            Ok(x) => x,
        };
        let (mut seq_bin, Ghost(ds)) = match inner_archive(&mut outer, Ghost(d), 1) {
            Err(e) => {
                return Some(Err(e));
            },
            Ok(x) => x,
        };
        let (mut uv1_bin, Ghost(d1)) = match inner_archive(&mut outer, Ghost(d), 2) {
            Err(e) => {
                return Some(Err(e));
            },
            Ok(x) => x,
        };
        let (mut uv2_bin, Ghost(d2)) = match inner_archive(&mut outer, Ghost(d), 3) {
            Err(e) => {
                return Some(Err(e));
            },
            Ok(x) => x,
        };
        assert(inner_fits(d, 0) && inner_fits(d, 1) && inner_fits(d, 2) && inner_fits(d, 3));
        assert(de == archive_file(d, 0) && ds == archive_file(d, 1) && d1 == archive_file(d, 2) && d2
            == archive_file(d, 3));
        assert(table_fits(d, 0) && le32(d, 0) == 4);
        let uv1_list = match import_uv_list(&mut uv1_bin, Ghost(d1), texture_list) {
            None => {
                assert(archive_end(d1, ListKind::Animations(texture_list@)) is None);
                assert(efp_end(d, model_list@, texture_list@, effect_ids@) is None);
                return None;
            },
            Some(Err(e)) => {
                assert(archive_end(d1, ListKind::Animations(texture_list@)) == Some(Err::<(), IoError>(e)));
                assert(efp_end(d, model_list@, texture_list@, effect_ids@) == Some(Err::<(), IoError>(e)));
                return Some(Err(e));
            },
            Some(Ok(v)) => v,
        };
        assert(archive_end(d1, ListKind::Animations(texture_list@)) matches Some(Ok(_)));
        let uv2_list = match import_uv_list(&mut uv2_bin, Ghost(d2), texture_list) {
            None => {
                assert(archive_end(d2, ListKind::Animations(texture_list@)) is None);
                assert(efp_end(d, model_list@, texture_list@, effect_ids@) is None);
                return None;
            },
            Some(Err(e)) => {
                assert(archive_end(d2, ListKind::Animations(texture_list@)) == Some(Err::<(), IoError>(e)));
                assert(efp_end(d, model_list@, texture_list@, effect_ids@) == Some(Err::<(), IoError>(e)));
                return Some(Err(e));
            },
            Some(Ok(v)) => v,
        };
        assert(archive_end(d2, ListKind::Animations(texture_list@)) matches Some(Ok(_)));
        let seq_list = match import_seq_list(&mut seq_bin, Ghost(ds)) {
            None => {
                assert(archive_end(ds, ListKind::Timings) is None);
                assert(efp_end(d, model_list@, texture_list@, effect_ids@) is None);
                return None;
            },
            Some(Err(e)) => {
                assert(archive_end(ds, ListKind::Timings) == Some(Err::<(), IoError>(e)));
                assert(efp_end(d, model_list@, texture_list@, effect_ids@) == Some(Err::<(), IoError>(e)));
                return Some(Err(e));
            },
            Some(Ok(v)) => v,
        };
        assert(archive_end(ds, ListKind::Timings) matches Some(Ok(_)));
        let efe_list = match import_efe_list(&mut efe_bin, Ghost(de), effect_ids, model_list) {
            None => {
                assert(archive_end(de, ListKind::Effects(effect_ids@, model_list@)) is None);
                assert(efp_end(d, model_list@, texture_list@, effect_ids@) is None);
                return None;
            },
            Some(Err(e)) => {
                assert(archive_end(de, ListKind::Effects(effect_ids@, model_list@)) == Some(Err::<(), IoError>(e)));
                assert(efp_end(d, model_list@, texture_list@, effect_ids@) == Some(Err::<(), IoError>(e)));
                return Some(Err(e));
            },
            Some(Ok(v)) => v,
        };
        assert(archive_end(de, ListKind::Effects(effect_ids@, model_list@)) matches Some(Ok(_)));
        proof {
            assert(archive_file_fits(d, 0));
            assert(archive_file_fits(d, 1));
            assert(archive_file_fits(d, 2));
            assert(archive_file_fits(d, 3));
            assert(archive_fits(d));
        }
        Some(Ok(EFP { efe_list, seq_list, uv1_list, uv2_list }))
    }
}

pub const EFFECT_LIGHT_SIZE: usize = 40;

/// A light that an effect gives off: its life and how long its colour
/// changes (in frames), how much its colour changes each frame and its
/// colour at the start (RGBA, `f32` bits, unscaled). A light whose colour
/// does not change has no change.
#[derive(Clone, Copy, PartialEq, Eq, Debug)]
pub struct EffectLight {
    pub life_frames: u16,
    pub color_add_count: u16,
    pub color_add_bits: (u32, u32, u32, u32),
    pub color_start_bits: (u32, u32, u32, u32),
}

/// Four `f32` values stored at `at`, as bits.
pub open spec fn quad_bits_at(b: Seq<u8>, at: int) -> (u32, u32, u32, u32) {
    (bits_at(b, at), bits_at(b, at + 4), bits_at(b, at + 8), bits_at(b, at + 12))
}

/// The light record at `at` is in use: its flags are 1.
pub open spec fn light_on(b: Seq<u8>, at: int) -> bool {
    le32(b, at) == 1
}

pub open spec fn spec_light(b: Seq<u8>, at: int) -> EffectLight {
    EffectLight {
        life_frames: le16(b, at + 6) as u16,
        color_add_count: le16(b, at + 4) as u16,
        color_add_bits: if le16(b, at + 4) == 0 {
            (0, 0, 0, 0)
        } else {
            quad_bits_at(b, at + 8)
        },
        color_start_bits: quad_bits_at(b, at + 24),
    }
}

fn read_quad_bits(b: &[u8], at: usize) -> (r: (u32, u32, u32, u32))
    requires
        at + 16 <= b@.len(),
    ensures
        r == quad_bits_at(b@, at as int),
{
    let n: usize = b.len();
    assert(at + 16 <= n);
    (read_u32_le(b, at), read_u32_le(b, at + 4), read_u32_le(b, at + 8), read_u32_le(b, at + 12))
}

impl EffectLight {
    /// Reads the light record at `at`; `None` where it is not in use.
    pub fn import(buf: &[u8], at: usize) -> (r: Option<EffectLight>)
        requires
            at + EFFECT_LIGHT_SIZE <= buf@.len(),
        ensures
            r is Some <==> light_on(buf@, at as int),
            r matches Some(l) ==> l == spec_light(buf@, at as int),
    {
        let n: usize = buf.len();
        assert(at + 40 <= n);
        if read_u32_le(buf, at) != 1 {
            return None;
        }
        let count: u16 = read_u16_le(buf, at + 4);
        let color_add_bits = if count == 0 {
            (0, 0, 0, 0)
        } else {
            read_quad_bits(buf, at + 8)
        };
        Some(
            EffectLight {
                life_frames: read_u16_le(buf, at + 6),
                color_add_count: count,
                color_add_bits,
                color_start_bits: read_quad_bits(buf, at + 24),
            },
        )
    }
}

/// A light in use, with its place in the light file.
#[derive(Clone, Copy, PartialEq, Eq, Debug)]
pub struct LID {
    pub idx: usize,
    pub light: EffectLight,
}

/// Why a light file was refused.
#[derive(Clone, Copy, PartialEq, Eq, Debug)]
pub enum LidError {
    Io(IoError),
    /// The file's records do not have the size of a light.
    InvalidLightSize,
}

/// The lights in use among the first `n` records of the light file `b`.
pub open spec fn lids(b: Seq<u8>, n: nat) -> Seq<LID>
    decreases n,
{
    if n == 0 {
        Seq::empty()
    } else {
        let prev = lids(b, (n - 1) as nat);
        let at = 8 + EFFECT_LIGHT_SIZE * (n - 1);
        if light_on(b, at) {
            prev.push(LID { idx: (n - 1) as usize, light: spec_light(b, at) })
        } else {
            prev
        }
    }
}

impl LID {
    /// Reads a light file: the record count and size, then the records;
    /// keeps the lights in use.
    pub fn import(buf: &[u8]) -> (r: Result<Vec<LID>, LidError>)
        ensures
            buf@.len() < 8 ==> r == Err::<Vec<LID>, LidError>(LidError::Io(IoError::UnexpectedEof)),
            buf@.len() >= 8 && le32(buf@, 4) != EFFECT_LIGHT_SIZE ==> r == Err::<Vec<LID>, LidError>(
                LidError::InvalidLightSize,
            ),
            buf@.len() >= 8 && le32(buf@, 4) == EFFECT_LIGHT_SIZE && 8 + EFFECT_LIGHT_SIZE * le32(buf@, 0)
                > buf@.len() ==> r == Err::<Vec<LID>, LidError>(LidError::Io(IoError::UnexpectedEof)),
            buf@.len() >= 8 && le32(buf@, 4) == EFFECT_LIGHT_SIZE && 8 + EFFECT_LIGHT_SIZE * le32(buf@, 0)
                <= buf@.len() ==> (r matches Ok(v) && v@ == lids(buf@, le32(buf@, 0))),
    {
        let n: usize = buf.len();
        if n < 8 {
            return Err(LidError::Io(IoError::UnexpectedEof));
        }
        let count: usize = read_u32_le(buf, 0) as usize;
        if read_u32_le(buf, 4) as usize != EFFECT_LIGHT_SIZE {
            return Err(LidError::InvalidLightSize);
        }
        if (n - 8) / EFFECT_LIGHT_SIZE < count {
            return Err(LidError::Io(IoError::UnexpectedEof));
        }
        let mut out: Vec<LID> = Vec::new();
        let mut i: usize = 0;
        while i < count
            invariant
                n == buf@.len(),
                8 + EFFECT_LIGHT_SIZE * count <= n,
                i <= count,
                out@ == lids(buf@, i as nat),
            decreases count - i,
        {
            assert(8 + EFFECT_LIGHT_SIZE * i + EFFECT_LIGHT_SIZE <= 8 + EFFECT_LIGHT_SIZE * count);
            if let Some(light) = EffectLight::import(buf, 8 + EFFECT_LIGHT_SIZE * i) {
                out.push(LID { idx: i, light });
            }
            i = i + 1;
        }
        Ok(out)
    }
}

} // verus!
