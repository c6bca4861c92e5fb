//! Cockpits of the second title: the effect lights placed in each cockpit,
//! the dials, and the models that make up a cockpit's monitors, chassis and
//! displays. Most of these tables are filled by the game's code on its
//! stack, so they are read by running that code (see `X86Context`).
//! Positions stay as the `f32` bits of the game; the export scales them.
use vstd::prelude::*;

use crate::bbtools::eff::{and_then, effect_positions, ids_ok, position_at, read_position, stack_lights, EffectPosition};
use crate::bbtools::obj::{spec_loc_a, spec_pos_rot, ModelConfig, ModelConfigFlags, PosRot};
use crate::bbtools::stg::bits_at;
use crate::bbtools::x86::{spec_run, spec_step, Ran, X86Context, X86State, STACK_LEN};
use crate::bbtools::xbe::{spec_pointer_offset, spec_section_offset, SectionView, XBE};
use crate::bytes::{
    bytes32, copy_range, le16, le32, le32_seq, push_u32_le, read_i32_le, read_u16_le, read_u32_le, IoError,
};

verus! {

pub const COCKPIT_COUNT: usize = 6;

pub const INDICATOR_LIGHT_COUNT: usize = 9;

pub const COMM_LIGHT_COUNT: usize = 5;

pub const PILOT_POSE_COUNT: usize = 7;

pub const DIAL_COUNT: usize = 6;

/// Effect of the first eject light; the others follow one by one.
pub const EJECT_LIGHT_EFFECT: u16 = 273;

/// Effect of every comm light.
pub const COMM_LIGHT_EFFECT: u16 = 289;

/// Bytes of the stack that the dial tables take: 12 bytes, then per cockpit
/// a model, a top speed, six scales and six bones.
pub const DIALS_STACK_SIZE: usize = 348;

/// The dials of a cockpit: the model that carries them, the top speed in
/// km/h (as `f32` bits), the bone of each dial and each dial's scale in
/// degrees (`u32::MAX` for none).
pub struct DialsConfig {
    pub model: u8,
    pub max_speed_bits: u32,
    pub bones: Vec<u8>,
    pub scale_degrees: Vec<u32>,
}

/// `d` holds the dials of cockpit `i` in the stack tables `s`.
pub open spec fn dials_match(d: DialsConfig, s: Seq<u8>, i: int) -> bool {
    &&& d.model == le32(s, 12 + 4 * i) as u8
    &&& d.max_speed_bits == bits_at(s, 36 + 4 * i)
    &&& d.scale_degrees@ == le32_seq(s, 60 + 24 * i, DIAL_COUNT as nat)
    &&& d.bones@ == Seq::new(DIAL_COUNT as nat, |k: int| le32(s, 204 + 24 * i + 4 * k) as u8)
}

/// `v` holds the dials of every cockpit in the stack tables `s`.
pub open spec fn all_dials_match(v: Seq<DialsConfig>, s: Seq<u8>) -> bool {
    &&& v.len() == COCKPIT_COUNT
    &&& forall|i: int| 0 <= i < COCKPIT_COUNT ==> #[trigger] dials_match(v[i], s, i)
}

/// The state of a fresh context whose stack pointer sits `stack_size`
/// bytes below the top of a zeroed stack.
pub open spec fn fresh_state(stack_size: usize) -> X86State {
    X86State {
        eax: 0,
        ebx: 0,
        ecx: 0,
        edx: 0,
        esi: 0,
        edi: 0,
        esp: -(stack_size as i32) as i32,
        ebp: 0,
        stack: Seq::new(STACK_LEN as nat, |i: int| 0u8),
        esp_min: -(stack_size as i32) as i32,
    }
}

/// A fresh context with `stack_size` bytes of stack, about to run the code
/// at `offset` of `.text`.
pub open spec fn start_at(names: Seq<Seq<char>>, secs: Seq<SectionView>, offset: u32, stack_size: usize) -> Ran {
    match spec_section_offset(names, secs, ".text"@, offset) {
        Err(e) => Ran::Fail(e),
        Ok(p) => Ran::At(fresh_state(stack_size), p as int, 0),
    }
}

/// Running on from where `r` ended until `target` bytes are counted; the
/// count starts again from zero when `restart`.
pub open spec fn then_run(secs: Seq<SectionView>, d: Seq<u8>, r: Ran, restart: bool, target: int) -> Ran {
    match r {
        Ran::At(st, p, n) => spec_run(
            st,
            secs,
            d,
            p,
            if restart {
                0
            } else {
                n
            },
            target,
        ),
        other => other,
    }
}

/// Moving the reader by `k` from where `r` ended.
pub open spec fn then_skip(r: Ran, k: int) -> Ran {
    match r {
        Ran::At(st, p, n) => if 0 <= p + k <= u64::MAX {
            Ran::At(st, p + k, n)
        } else {
            Ran::Fail(IoError::InvalidSeek)
        },
        other => other,
    }
}

/// Running one more instruction from where `r` ended and adding its count.
pub open spec fn then_step(secs: Seq<SectionView>, d: Seq<u8>, r: Ran) -> Ran {
    match r {
        Ran::At(st, p, n) => match spec_step(st, secs, d, p) {
            Ran::At(st2, p2, c) => Ran::At(st2, p2, n + c),
            other => other,
        },
        other => other,
    }
}

/// The part of the stack that was ever used: from the lowest stack pointer
/// to the top.
pub open spec fn used_stack(st: X86State) -> Seq<u8> {
    st.stack.subrange(st.esp_min + 0xFFFF, 0xFFFF)
}

/// Runs the game's code from the reader's position until it reports
/// `target` bytes; `None` where an instruction cannot be run.
fn run_from_zero(ctx: &mut X86Context, xbe: &mut XBE, target: usize) -> (r: Option<Result<(), IoError>>)
    requires
        old(ctx).wf(),
        old(ctx).is_bounded(),
        target <= 0x10000,
    ensures
        final(ctx).wf(),
        final(ctx).is_bounded(),
        final(xbe).same_image(old(xbe)),
        match spec_run(
            old(ctx).state(),
            old(xbe).sections(),
            old(xbe).reader.data(),
            old(xbe).reader.pos() as int,
            0,
            target as int,
        ) {
            Ran::Stop => r is None,
            Ran::Fail(e) => r == Some(Err::<(), IoError>(e)),
            Ran::At(st, p, _) => r == Some(Ok::<(), IoError>(())) && final(ctx).state() == st
                && final(xbe).reader.pos() == p,
        },
{
    match ctx.run_until(xbe, 0, target) {
        None => None,
        Some(Err(e)) => Some(Err(e)),
        Some(Ok(_)) => Some(Ok(())),
    }
}

/// Moves the reader by `offset`; `Err` where that leaves the positions a
/// reader can have.
fn skip(xbe: &mut XBE, offset: i64) -> (r: Result<(), IoError>)
    ensures
        final(xbe).same_image(old(xbe)),
        0 <= old(xbe).reader.pos() + offset <= u64::MAX ==> r is Ok && final(xbe).reader.pos()
            == old(xbe).reader.pos() + offset,
        !(0 <= old(xbe).reader.pos() + offset <= u64::MAX) ==> r == Err::<(), IoError>(
            IoError::InvalidSeek,
        ),
{
    xbe.reader.seek_relative(offset)
}

/// How running the code that fills the dial tables ends.
pub open spec fn dials_ran(names: Seq<Seq<char>>, secs: Seq<SectionView>, d: Seq<u8>) -> Ran {
    let r0 = start_at(names, secs, 0x63E80, 0);
    let r1 = then_skip(then_run(secs, d, r0, true, 524), 22);
    let r2 = then_skip(then_run(secs, d, r1, true, 48), 4);
    let r3 = then_skip(then_run(secs, d, r2, true, 35), 2);
    then_run(secs, d, r3, true, 19)
}

impl DialsConfig {
    /// Reads the dials of every cockpit from the stack tables; `None` where
    /// the stack is shorter than the tables.
    pub fn from_stack(stack: &[u8]) -> (r: Option<Vec<DialsConfig>>)
        ensures
            r is Some <==> stack@.len() >= DIALS_STACK_SIZE,
            r matches Some(v) ==> all_dials_match(v@, stack@),
    {
        let n: usize = stack.len();
        if n < DIALS_STACK_SIZE {
            return None;
        }
        let mut out: Vec<DialsConfig> = Vec::with_capacity(COCKPIT_COUNT);
        let mut i: usize = 0;
        while i < COCKPIT_COUNT
            invariant
                n == stack@.len(),
                n >= DIALS_STACK_SIZE,
                i <= COCKPIT_COUNT,
                out@.len() == i,
                forall|j: int| 0 <= j < i ==> #[trigger] dials_match(out@[j], stack@, j),
            decreases COCKPIT_COUNT - i,
        {
            #[verifier::truncate]
            let model: u8 = read_u32_le(stack, 12 + 4 * i) as u8;
            let max_speed_bits: u32 = read_u32_le(stack, 36 + 4 * i);
            let mut bones: Vec<u8> = Vec::with_capacity(DIAL_COUNT);
            let mut scale_degrees: Vec<u32> = Vec::with_capacity(DIAL_COUNT);
            let mut k: usize = 0;
            while k < DIAL_COUNT
                invariant
                    n == stack@.len(),
                    n >= DIALS_STACK_SIZE,
                    i < COCKPIT_COUNT,
                    k <= DIAL_COUNT,
                    scale_degrees@ == le32_seq(stack@, 60 + 24 * i, k as nat),
                    bones@ == Seq::new(k as nat, |m: int| le32(stack@, 204 + 24 * i + 4 * m) as u8),
                decreases DIAL_COUNT - k,
            {
                scale_degrees.push(read_u32_le(stack, 60 + 24 * i + 4 * k));
                #[verifier::truncate]
                let bone: u8 = read_u32_le(stack, 204 + 24 * i + 4 * k) as u8;
                bones.push(bone);
                k = k + 1;
                assert(scale_degrees@ =~= le32_seq(stack@, 60 + 24 * i, k as nat));
                assert(bones@ =~= Seq::new(k as nat, |m: int| le32(stack@, 204 + 24 * i + 4 * m) as u8));
            }
            out.push(DialsConfig { model, max_speed_bits, bones, scale_degrees });
            i = i + 1;
        }
        Some(out)
    }

    /// Runs the game's code that fills the dial tables and reads them.
    /// `None` where an instruction cannot be run or the tables do not fit
    /// the stack; `Err` where the executable ends too early or has no such
    /// code.
    pub fn import(xbe: &mut XBE) -> (r: Option<Result<Vec<DialsConfig>, IoError>>)
        ensures
            final(xbe).same_image(old(xbe)),
            match dials_ran(old(xbe).names(), old(xbe).sections(), old(xbe).reader.data()) {
                Ran::Stop => r is None,
                Ran::Fail(e) => r == Some(Err::<Vec<DialsConfig>, IoError>(e)),
                Ran::At(st, _, _) => if used_stack(st).len() >= DIALS_STACK_SIZE {
                    r matches Some(Ok(v)) && all_dials_match(v@, used_stack(st))
                } else {
                    r is None
                },
            },
    {
        match xbe.seek_section_offset(".text", 0x63E80) {
            Err(e) => {
                return Some(Err(e));
            },
            Ok(_) => {},
        }
        let mut ctx = X86Context::new(0);
        match run_from_zero(&mut ctx, xbe, 524) {
            Some(Ok(())) => {},
            Some(Err(e)) => {
                return Some(Err(e));
            },
            None => {
                return None;
            },
        }
        if let Err(e) = skip(xbe, 22) {
            return Some(Err(e));
        }
        match run_from_zero(&mut ctx, xbe, 48) {
            Some(Ok(())) => {},
            Some(Err(e)) => {
                return Some(Err(e));
            },
            None => {
                return None;
            },
        }
        if let Err(e) = skip(xbe, 4) {
            return Some(Err(e));
        }
        match run_from_zero(&mut ctx, xbe, 35) {
            Some(Ok(())) => {},
            Some(Err(e)) => {
                return Some(Err(e));
            },
            None => {
                return None;
            },
        }
        if let Err(e) = skip(xbe, 2) {
            return Some(Err(e));
        }
        match run_from_zero(&mut ctx, xbe, 19) {
            Some(Ok(())) => {},
            Some(Err(e)) => {
                return Some(Err(e));
            },
            None => {
                return None;
            },
        }
        let stack = ctx.get_stack();
        let dials = DialsConfig::from_stack(stack);
        match dials {
            None => None,
            Some(v) => {
                let ghost w = v@;
                let r: Option<Result<Vec<DialsConfig>, IoError>> = Some(Ok(v));
                assert(r matches Some(Ok(x)) && x@ == w);
                r
            },
        }
    }
}

/// The 12-byte model record at `at`: a record of layout A and its flags.
pub open spec fn flags_record(s: Seq<u8>, at: int) -> ModelConfigFlags {
    ModelConfigFlags { modcfg: spec_loc_a(s, at), flags: le32(s, at + 8) as u32 }
}

/// `count` model records stored one after the other from `at`.
pub open spec fn records(s: Seq<u8>, at: int, count: nat) -> Seq<ModelConfigFlags> {
    Seq::new(count, |i: int| flags_record(s, at + 12 * i))
}

/// The records lie within `s` and each names a model.
pub open spec fn records_ok(s: Seq<u8>, at: int, count: nat) -> bool {
    &&& 0 <= at
    &&& at + 12 * count <= s.len()
    &&& forall|i: int| 0 <= i < count ==> #[trigger] le16(s, at + 12 * i) != 0xFFFF
}

/// Reads `count` model records from `at`; `None` where they do not fit or
/// one names no model.
fn read_records(s: &[u8], at: usize, count: usize) -> (r: Option<Vec<ModelConfigFlags>>)
    requires
        count <= 0xFFFF,
    ensures
        r is Some <==> records_ok(s@, at as int, count as nat),
        r matches Some(v) ==> v@ == records(s@, at as int, count as nat),
{
    let n: usize = s.len();
    if at > n || (n - at) / 12 < count {
        return None;
    }
    let mut out: Vec<ModelConfigFlags> = Vec::with_capacity(count);
    let mut i: usize = 0;
    while i < count
        invariant
            n == s@.len(),
            at + 12 * count <= n,
            i <= count,
            out@ == records(s@, at as int, count as nat).subrange(0, i as int),
            forall|j: int| 0 <= j < i ==> #[trigger] le16(s@, at + 12 * j) != 0xFFFF,
        decreases count - i,
    {
        assert(at + 12 * i + 12 <= at + 12 * count);
        let p: usize = at + 12 * i;
        if read_u16_le(s, p) == 0xFFFF {
            return None;
        }
        let b = copy_range(s, p, p + 12);
        assert(le16(b@, 0) == le16(s@, p as int));
        let m = ModelConfigFlags::import_a(b.as_slice());
        assert(spec_loc_a(b@, 0) == spec_loc_a(s@, p as int));
        assert(le32(b@, 8) == le32(s@, p + 8));
        out.push(m);
        i = i + 1;
        assert(out@ =~= records(s@, at as int, count as nat).subrange(0, i as int));
    }
    assert(records(s@, at as int, count as nat).subrange(0, count as int) =~= records(s@, at as int, count as nat));
    Some(out)
}

/// The model whose sequence the game drops.
pub const SEQUENCE_DROPPED_MODEL: u16 = 1237;

/// A cockpit model as the scene uses it: without hitbox, and without
/// sequence for `SEQUENCE_DROPPED_MODEL`.
pub open spec fn fixed(m: ModelConfigFlags) -> ModelConfigFlags {
    ModelConfigFlags {
        modcfg: ModelConfig {
            hitbox: None,
            sequence: if m.modcfg.model == SEQUENCE_DROPPED_MODEL {
                None
            } else {
                m.modcfg.sequence
            },
            ..m.modcfg
        },
        ..m
    }
}

/// The chassis model that the second cockpit lacks in the game's tables.
pub open spec fn extra_chassis_model() -> ModelConfigFlags {
    ModelConfigFlags {
        modcfg: ModelConfig {
            model: 1268,
            animation: Some(121),
            sequence: None,
            hitbox: None,
            texture: None,
        },
        flags: 0,
    }
}

/// Where cockpit `c`'s records lie in the stack tables: the offset and
/// count of its monitor models, the offset and count of its chassis
/// models, and how many of the latter belong to the chassis (the rest are
/// display models).
pub open spec fn model_layout(c: int) -> (int, nat, int, nat, nat) {
    if c == 0 {
        (0xA4, 4, 0x260, 12, 8)
    } else if c == 1 {
        (0x14, 4, 0x38C, 14, 11)
    } else if c == 2 {
        (0x104, 5, 0x2F0, 13, 7)
    } else if c == 3 {
        (0xD4, 4, 0x140, 12, 8)
    } else if c == 4 {
        (0x74, 4, 0x1D0, 12, 8)
    } else {
        (0x44, 4, 0x434, 14, 8)
    }
}

fn layout_of(c: usize) -> (r: (usize, usize, usize, usize, usize))
    requires
        c < COCKPIT_COUNT,
    ensures
        model_layout(c as int) == (r.0 as int, r.1 as nat, r.2 as int, r.3 as nat, r.4 as nat),
{
    if c == 0 {
        (0xA4, 4, 0x260, 12, 8)
    } else if c == 1 {
        (0x14, 4, 0x38C, 14, 11)
    } else if c == 2 {
        (0x104, 5, 0x2F0, 13, 7)
    } else if c == 3 {
        (0xD4, 4, 0x140, 12, 8)
    } else if c == 4 {
        (0x74, 4, 0x1D0, 12, 8)
    } else {
        (0x44, 4, 0x434, 14, 8)
    }
}

/// The monitor records of cockpit `c` as the tables hold them; the third
/// cockpit's fifth one is really a chassis model.
pub open spec fn raw_monitors(s: Seq<u8>, c: int) -> Seq<ModelConfigFlags> {
    let (mo, mc, _, _, _) = model_layout(c);
    if c == 2 {
        records(s, mo, mc).remove(4)
    } else {
        records(s, mo, mc)
    }
}

/// The chassis and display records of cockpit `c`, with the second
/// cockpit's missing model put in and the third cockpit's misplaced one
/// put back.
pub open spec fn raw_chassis(s: Seq<u8>, c: int) -> Seq<ModelConfigFlags> {
    let (mo, mc, co, cc, _) = model_layout(c);
    if c == 1 {
        records(s, co, cc).insert(10, extra_chassis_model())
    } else if c == 2 {
        records(s, co, cc).update(1, records(s, mo, mc)[4])
    } else {
        records(s, co, cc)
    }
}

/// The models that make up a cockpit.
pub struct CockpitModels {
    pub monitor_models: Vec<ModelConfigFlags>,
    pub chassis_models: Vec<ModelConfigFlags>,
    pub display_models: Vec<ModelConfigFlags>,
}

/// The records of cockpit `c` can be read from the stack tables `s`.
pub open spec fn models_ok(s: Seq<u8>, c: int) -> bool {
    let (mo, mc, co, cc, _) = model_layout(c);
    records_ok(s, mo, mc) && records_ok(s, co, cc)
}

/// `m` holds the models of cockpit `c` in the stack tables `s`.
pub open spec fn models_match(m: CockpitModels, s: Seq<u8>, c: int) -> bool {
    let split = model_layout(c).4 as int;
    &&& m.monitor_models@ == raw_monitors(s, c).map_values(|x: ModelConfigFlags| fixed(x))
    &&& m.chassis_models@ == raw_chassis(s, c).map_values(|x: ModelConfigFlags| fixed(x)).take(split)
    &&& m.display_models@ == raw_chassis(s, c).map_values(|x: ModelConfigFlags| fixed(x)).skip(split)
}

fn fix(m: ModelConfigFlags) -> (r: ModelConfigFlags)
    ensures
        r == fixed(m),
{
    let sequence = if m.modcfg.model == SEQUENCE_DROPPED_MODEL {
        None
    } else {
        m.modcfg.sequence
    };
    ModelConfigFlags {
        modcfg: ModelConfig {
            model: m.modcfg.model,
            animation: m.modcfg.animation,
            sequence,
            hitbox: None,
            texture: m.modcfg.texture,
        },
        flags: m.flags,
    }
}

fn fix_all(v: &Vec<ModelConfigFlags>) -> (r: Vec<ModelConfigFlags>)
    ensures
        r@ == v@.map_values(|x: ModelConfigFlags| fixed(x)),
{
    let mut out: Vec<ModelConfigFlags> = Vec::with_capacity(v.len());
    let mut i: usize = 0;
    while i < v.len()
        invariant
            i <= v@.len(),
            out@ == v@.map_values(|x: ModelConfigFlags| fixed(x)).subrange(0, i as int),
        decreases v@.len() - i,
    {
        out.push(fix(v[i]));
        i = i + 1;
        assert(out@ =~= v@.map_values(|x: ModelConfigFlags| fixed(x)).subrange(0, i as int));
    }
    assert(v@.map_values(|x: ModelConfigFlags| fixed(x)).subrange(0, v@.len() as int) =~= v@.map_values(
        |x: ModelConfigFlags| fixed(x),
    ));
    out
}

impl CockpitModels {
    /// Reads the models of cockpit `c` from the stack tables; `None` where
    /// a record does not fit the stack or names no model.
    pub fn from_stack(stack: &[u8], c: usize) -> (r: Option<CockpitModels>)
        requires
            c < COCKPIT_COUNT,
        ensures
            r is Some <==> models_ok(stack@, c as int),
            r matches Some(m) ==> models_match(m, stack@, c as int),
    {
        let (mo, mc, co, cc, split) = layout_of(c);
        let mut monitors = match read_records(stack, mo, mc) {
            None => {
                return None;
            },
            Some(v) => v,
        };
        let mut chassis = match read_records(stack, co, cc) {
            None => {
                return None;
            },
            Some(v) => v,
        };
        if c == 1 {
            chassis.insert(
                10,
                ModelConfigFlags {
                    modcfg: ModelConfig {
                        model: 1268,
                        animation: Some(121),
                        sequence: None,
                        hitbox: None,
                        texture: None,
                    },
                    flags: 0,
                },
            );
        } else if c == 2 {
            let moved = monitors.remove(4);
            chassis.set(1, moved);
        }
        assert(monitors@ == raw_monitors(stack@, c as int));
        assert(chassis@ == raw_chassis(stack@, c as int));
        let monitor_models = fix_all(&monitors);
        let mut chassis_models = fix_all(&chassis);
        let display_models = chassis_models.split_off(split);
        Some(CockpitModels { monitor_models, chassis_models, display_models })
    }
}

/// `v` holds the models of every cockpit in the stack tables `s`.
pub open spec fn all_models_match(v: Seq<CockpitModels>, s: Seq<u8>) -> bool {
    &&& v.len() == COCKPIT_COUNT
    &&& forall|c: int| 0 <= c < COCKPIT_COUNT ==> #[trigger] models_match(v[c], s, c)
}

/// Every cockpit's records can be read from the stack tables `s`.
pub open spec fn all_models_ok(s: Seq<u8>) -> bool {
    forall|c: int| 0 <= c < COCKPIT_COUNT ==> #[trigger] models_ok(s, c)
}

/// How running the code that fills the cockpit model tables ends: it runs,
/// jumps over seven bytes, runs one instruction, jumps over 37 bytes, runs
/// one more, jumps over four and runs on to its end.
pub open spec fn models_ran(names: Seq<Seq<char>>, secs: Seq<SectionView>, d: Seq<u8>) -> Ran {
    let r0 = start_at(names, secs, 0x59E80, 64);
    let r1 = then_run(secs, d, r0, true, 3391);
    let r2 = then_step(secs, d, then_skip(r1, 7));
    let r3 = then_step(secs, d, then_skip(r2, 37));
    then_run(secs, d, then_skip(r3, 4), false, 3538)
}

/// Runs one instruction and adds its byte count to `done`.
fn step_count(ctx: &mut X86Context, xbe: &mut XBE, done: usize) -> (r: Option<Result<usize, IoError>>)
    requires
        old(ctx).wf(),
        old(ctx).is_bounded(),
        done <= 0x10000,
    ensures
        final(ctx).wf(),
        final(ctx).is_bounded(),
        final(xbe).same_image(old(xbe)),
        r matches Some(Ok(n)) ==> done < n <= done + 16,
        match spec_step(old(ctx).state(), old(xbe).sections(), old(xbe).reader.data(), old(xbe).reader.pos() as int) {
            Ran::Stop => r is None,
            Ran::Fail(e) => r == Some(Err::<usize, IoError>(e)),
            Ran::At(st, p, c) => r matches Some(Ok(k)) && k == done + c && final(ctx).state() == st
                && final(xbe).reader.pos() == p,
        },
{
    match ctx.step(xbe) {
        None => None,
        Some(Err(e)) => Some(Err(e)),
        Some(Ok(c)) => Some(Ok(done + c)),
    }
}

impl CockpitModels {
    #[verifier::rlimit(40)]
    /// Runs the game's code that fills the cockpit model tables (skipping
    /// the three jumps it takes) and reads every cockpit's models. `None`
    /// where an instruction cannot be run, the code does not end where it
    /// should, or the tables cannot be read; `Err` where the executable
    /// ends too early or has no such code.
    pub fn import(xbe: &mut XBE) -> (r: Option<Result<Vec<CockpitModels>, IoError>>)
        ensures
            final(xbe).same_image(old(xbe)),
            match models_ran(old(xbe).names(), old(xbe).sections(), old(xbe).reader.data()) {
                Ran::Stop => r is None,
                Ran::Fail(e) => r == Some(Err::<Vec<CockpitModels>, IoError>(e)),
                Ran::At(st, p, _) => {
                    let d = old(xbe).reader.data();
                    if p + 2 > d.len() {
                        r == Some(Err::<Vec<CockpitModels>, IoError>(IoError::UnexpectedEof))
                    } else if le16(d, p) != 0x0B7E || !all_models_ok(used_stack(st)) {
                        r is None
                    } else {
                        r matches Some(Ok(v)) && all_models_match(v@, used_stack(st))
                    }
                },
            },
    {
        let ghost names = xbe.names();
        let ghost secs = xbe.sections();
        let ghost d = xbe.reader.data();
        let ghost r0 = start_at(names, secs, 0x59E80, 64);
        let ghost r1 = then_run(secs, d, r0, true, 3391);
        let ghost r2 = then_step(secs, d, then_skip(r1, 7));
        let ghost r3 = then_step(secs, d, then_skip(r2, 37));
        let ghost r4 = then_run(secs, d, then_skip(r3, 4), false, 3538);
        assert(models_ran(names, secs, d) == r4);
        match xbe.seek_section_offset(".text", 0x59E80) {
            Err(e) => {
                return Some(Err(e));
            },
            Ok(_) => {},
        }
        let mut ctx = X86Context::new(64);
        assert(r0 == Ran::At(ctx.state(), xbe.reader.pos() as int, 0));
        let n: usize = match ctx.run_until(xbe, 0, 3391) {
            None => {
                return None;
            },
            Some(Err(e)) => {
                return Some(Err(e));
            },
            Some(Ok(n)) => n,
        };
        assert(r1 == Ran::At(ctx.state(), xbe.reader.pos() as int, n as int));
        if let Err(e) = skip(xbe, 7) {
            return Some(Err(e));
        }
        assert(then_skip(r1, 7) == Ran::At(ctx.state(), xbe.reader.pos() as int, n as int));
        let n: usize = match step_count(&mut ctx, xbe, n) {
            None => {
                return None;
            },
            Some(Err(e)) => {
                return Some(Err(e));
            },
            Some(Ok(n)) => n,
        };
        assert(r2 == Ran::At(ctx.state(), xbe.reader.pos() as int, n as int));
        if let Err(e) = skip(xbe, 37) {
            return Some(Err(e));
        }
        assert(then_skip(r2, 37) == Ran::At(ctx.state(), xbe.reader.pos() as int, n as int));
        let n: usize = match step_count(&mut ctx, xbe, n) {
            None => {
                return None;
            },
            Some(Err(e)) => {
                return Some(Err(e));
            },
            Some(Ok(n)) => n,
        };
        assert(r3 == Ran::At(ctx.state(), xbe.reader.pos() as int, n as int));
        if let Err(e) = skip(xbe, 4) {
            return Some(Err(e));
        }
        assert(then_skip(r3, 4) == Ran::At(ctx.state(), xbe.reader.pos() as int, n as int));
        match ctx.run_until(xbe, n, 3538) {
            None => {
                return None;
            },
            Some(Err(e)) => {
                return Some(Err(e));
            },
            Some(Ok(_)) => {},
        }
        assert(r4 matches Ran::At(st, p, _) && st == ctx.state() && p == xbe.reader.pos());
        let ghost st4 = ctx.state();
        match xbe.reader.read_u16() {
            Err(e) => {
                return Some(Err(e));
            },
            Ok(v) => {
                if v != 0x0B7E {
                    return None;
                }
            },
        }
        let stack = ctx.get_stack();
        let mut out: Vec<CockpitModels> = Vec::with_capacity(COCKPIT_COUNT);
        let mut c: usize = 0;
        while c < COCKPIT_COUNT
            invariant
                c <= COCKPIT_COUNT,
                out@.len() == c,
                xbe.same_image(old(xbe)),
                forall|k: int| 0 <= k < c ==> #[trigger] models_match(out@[k], stack@, k),
                forall|k: int| 0 <= k < c ==> #[trigger] models_ok(stack@, k),
                stack@ == used_stack(st4),
                models_ran(old(xbe).names(), old(xbe).sections(), old(xbe).reader.data()) matches Ran::At(
                    st,
                    p,
                    _,
                ) && st == st4 && p + 2 <= old(xbe).reader.data().len() && le16(old(xbe).reader.data(), p)
                    == 0x0B7E,
            decreases COCKPIT_COUNT - c,
        {
            match CockpitModels::from_stack(stack, c) {
                None => {
                    assert(!models_ok(stack@, c as int));
                    return None;
                },
                Some(m) => {
                    out.push(m);
                },
            }
            c = c + 1;
        }
        assert(all_models_match(out@, stack@));
        assert(all_models_ok(stack@));
        let ghost w = out@;
        let r: Option<Result<Vec<CockpitModels>, IoError>> = Some(Ok(out));
        assert(r matches Some(Ok(x)) && x@ == w);
        r
    }
}

/// The monitor, weapon, tuner and comm model pairs of cockpit `c`:
/// multi monitors, main weapons, sub weapons, tuner (model and bone) and
/// comms (chassis and display); `0xFF` stands for none.
pub open spec fn cockpit_pairs(c: int) -> ((u8, u8), (u8, u8), (u8, u8), (u8, u8), (u8, u8)) {
    if c == 0 {
        ((7, 0), (5, 9), (6, 10), (8, 7), (0xFF, 0xFF))
    } else if c == 1 {
        ((0xFF, 0), (5, 12), (6, 13), (8, 0xFF), (7, 10))
    } else if c == 2 {
        ((0xFF, 5), (0xFF, 10), (0xFF, 11), (9, 1), (0xFF, 0xFF))
    } else if c == 3 {
        ((0xFF, 0), (5, 9), (6, 10), (8, 5), (0xFF, 0xFF))
    } else if c == 4 {
        ((0xFF, 0), (5, 9), (6, 10), (8, 7), (0xFF, 0xFF))
    } else {
        ((0xFF, 0), (5, 8), (6, 9), (11, 1), (0xFF, 0xFF))
    }
}

fn pairs_of(c: usize) -> (r: ((u8, u8), (u8, u8), (u8, u8), (u8, u8), (u8, u8)))
    requires
        c < COCKPIT_COUNT,
    ensures
        r == cockpit_pairs(c as int),
{
    if c == 0 {
        ((7, 0), (5, 9), (6, 10), (8, 7), (0xFF, 0xFF))
    } else if c == 1 {
        ((0xFF, 0), (5, 12), (6, 13), (8, 0xFF), (7, 10))
    } else if c == 2 {
        ((0xFF, 5), (0xFF, 10), (0xFF, 11), (9, 1), (0xFF, 0xFF))
    } else if c == 3 {
        ((0xFF, 0), (5, 9), (6, 10), (8, 5), (0xFF, 0xFF))
    } else if c == 4 {
        ((0xFF, 0), (5, 9), (6, 10), (8, 7), (0xFF, 0xFF))
    } else {
        ((0xFF, 0), (5, 8), (6, 9), (11, 1), (0xFF, 0xFF))
    }
}

/// A cockpit: its offset and pilot poses, textures, effect lights, model
/// pairs, dials and models. Positions and rotations are `f32` bits as the
/// game stores them; the export scales and moves them.
pub struct Cockpit {
    pub id: u8,
    pub offset: (u32, u32, u32),
    pub pilot_poses: Vec<PosRot>,
    pub display_textures: (u16, u16),
    pub chassis_textures: (u16, u16),
    pub indicators_lights: Vec<Option<EffectPosition>>,
    pub eject_light: EffectPosition,
    pub comm_lights: Option<Vec<EffectPosition>>,
    pub multi_monitors: (u8, u8),
    pub mweps: (u8, u8),
    pub sweps: (u8, u8),
    pub tuner: (u8, u8),
    pub comms: (u8, u8),
    pub dials_config: DialsConfig,
    pub monitor_models: Vec<ModelConfigFlags>,
    pub chassis_models: Vec<ModelConfigFlags>,
    pub display_models: Vec<ModelConfigFlags>,
}

/// The parts of cockpit `c` that the game fixes: its id, textures, model
/// pairs, how many lights and poses it has, its eject light's effect, and
/// that only the second cockpit has comm lights.
pub open spec fn fixed_parts(k: Cockpit, c: int) -> bool {
    let (mm, mw, sw, tu, co) = cockpit_pairs(c);
    &&& k.id == c
    &&& k.chassis_textures == ((133 + 2 * c) as u16, (134 + 2 * c) as u16)
    &&& k.display_textures == ((145 + 2 * c) as u16, (146 + 2 * c) as u16)
    &&& k.multi_monitors == mm
    &&& k.mweps == mw
    &&& k.sweps == sw
    &&& k.tuner == tu
    &&& k.comms == co
    &&& k.pilot_poses@.len() == PILOT_POSE_COUNT
    &&& k.indicators_lights@.len() == INDICATOR_LIGHT_COUNT
    &&& k.eject_light.idx == EJECT_LIGHT_EFFECT + c
    &&& (k.comm_lights is Some <==> c == 1)
}

/// Cockpit `k` holds the models of cockpit `c` of the stack tables `s`.
pub open spec fn cockpit_models_of(k: Cockpit, s: Seq<u8>, c: int) -> bool {
    models_match(
        CockpitModels {
            monitor_models: k.monitor_models,
            chassis_models: k.chassis_models,
            display_models: k.display_models,
        },
        s,
        c,
    )
}

/// The cockpits' models are those of the stack tables `s`.
pub open spec fn cockpit_models_match(ks: Seq<Cockpit>, s: Seq<u8>) -> bool {
    forall|c: int| 0 <= c < ks.len() ==> #[trigger] cockpit_models_of(ks[c], s, c)
}

/// Cockpit `k` holds the dials of cockpit `c` of the stack tables `s`,
/// with the second cockpit's dial model one further.
pub open spec fn cockpit_dials_of(k: Cockpit, s: Seq<u8>, c: int) -> bool {
    &&& c == 1 ==> k.dials_config.model >= 1
    &&& dials_match(
        DialsConfig {
            model: if c == 1 {
                (k.dials_config.model - 1) as u8
            } else {
                k.dials_config.model
            },
            ..k.dials_config
        },
        s,
        c,
    )
}

/// The cockpits' dials are those of the stack tables `s`.
pub open spec fn cockpit_dials_match(ks: Seq<Cockpit>, s: Seq<u8>) -> bool {
    forall|c: int| 0 <= c < ks.len() ==> #[trigger] cockpit_dials_of(ks[c], s, c)
}

/// The cockpits' eject lights are stored from byte 4 of the stack `s`, and
/// the second cockpit's comm lights from byte 0x28 of the stack `t`.
pub open spec fn cockpit_lights_match(ks: Seq<Cockpit>, s: Seq<u8>, t: Seq<u8>) -> bool {
    &&& forall|c: int|
        0 <= c < ks.len() ==> #[trigger] ks[c].eject_light == stack_lights(
            s,
            4,
            COCKPIT_COUNT as nat,
            EJECT_LIGHT_EFFECT,
            1,
        )[c]
    &&& ks.len() > 1 ==> (ks[1].comm_lights matches Some(v) && v@ == stack_lights(
        t,
        0x28,
        COMM_LIGHT_COUNT as nat,
        COMM_LIGHT_EFFECT,
        0,
    ))
}

/// The indicator lights of all cockpits, nine each, as the executable
/// stores them: effect ids in one table of `.data`, positions in another.
pub open spec fn indicator_lights_in(names: Seq<Seq<char>>, secs: Seq<crate::bbtools::xbe::SectionView>, d: Seq<u8>) -> Seq<
    Option<EffectPosition>,
> {
    let p = spec_section_offset(names, secs, ".data"@, 0x36F78)->Ok_0;
    let q = spec_section_offset(names, secs, ".data"@, 0x37050)->Ok_0;
    effect_positions(le32_seq(d, p as int, 54), d.subrange(q as int, q + 648))
}

/// The cockpits' parts that are read from the executable directly: the
/// offset stored at byte 12 of `seg00`, seven pilot poses per cockpit from
/// `.data`, and nine indicator lights per cockpit.
pub open spec fn cockpit_data_match(ks: Seq<Cockpit>, names: Seq<Seq<char>>, secs: Seq<crate::bbtools::xbe::SectionView>, d: Seq<u8>) -> bool {
    let o = spec_section_offset(names, secs, "seg00"@, 12)->Ok_0;
    let p = spec_section_offset(names, secs, ".data"@, 0x105D0)->Ok_0;
    forall|c: int|
        0 <= c < ks.len() ==> {
            &&& #[trigger] ks[c].offset == position_at(d, o as int)
            &&& forall|k: int|
                0 <= k < PILOT_POSE_COUNT ==> #[trigger] ks[c].pilot_poses@[k] == spec_pos_rot(
                    d,
                    p + 24 * (7 * c + k),
                )
            &&& forall|k: int|
                0 <= k < INDICATOR_LIGHT_COUNT ==> #[trigger] ks[c].indicators_lights@[k]
                    == indicator_lights_in(names, secs, d)[9 * c + k]
        }
}

proof fn lemma_subrange_le32(d: Seq<u8>, p: int, n: int, at: int)
    requires
        0 <= p,
        p + n <= d.len(),
        0 <= at,
        at + 4 <= n,
    ensures
        le32(d.subrange(p, p + n), at) == le32(d, p + at),
{
    let s = d.subrange(p, p + n);
    assert(s[at] == d[p + at]);
    assert(s[at + 1] == d[p + at + 1]);
    assert(s[at + 2] == d[p + at + 2]);
    assert(s[at + 3] == d[p + at + 3]);
}

proof fn lemma_subrange_pos_rot(d: Seq<u8>, p: int, n: int, at: int)
    requires
        0 <= p,
        p + n <= d.len(),
        0 <= at,
        at + 24 <= n,
    ensures
        spec_pos_rot(d.subrange(p, p + n), at) == spec_pos_rot(d, p + at),
{
    lemma_subrange_le32(d, p, n, at);
    lemma_subrange_le32(d, p, n, at + 4);
    lemma_subrange_le32(d, p, n, at + 8);
    lemma_subrange_le32(d, p, n, at + 12);
    lemma_subrange_le32(d, p, n, at + 16);
    lemma_subrange_le32(d, p, n, at + 20);
}

/// Copies the lights.
fn copy_lights(v: &Vec<EffectPosition>) -> (r: Vec<EffectPosition>)
    ensures
        r@ == v@,
{
    let mut out: Vec<EffectPosition> = Vec::with_capacity(v.len());
    let mut i: usize = 0;
    while i < v.len()
        invariant
            i <= v@.len(),
            out@ == v@.subrange(0, i as int),
        decreases v@.len() - i,
    {
        out.push(v[i]);
        i = i + 1;
        assert(out@ =~= v@.subrange(0, i as int));
    }
    assert(v@.subrange(0, v@.len() as int) =~= v@);
    out
}

/// Puts cockpit `c` together from the parts read for all cockpits.
fn assemble(
    c: usize,
    offset: (u32, u32, u32),
    poses: &[u8],
    lights: &Vec<Option<EffectPosition>>,
    eject: &Vec<EffectPosition>,
    comm: &Vec<EffectPosition>,
    dials: DialsConfig,
    models: CockpitModels,
) -> (k: Cockpit)
    requires
        c < COCKPIT_COUNT,
        poses@.len() == COCKPIT_COUNT * PILOT_POSE_COUNT * 24,
        lights@.len() == COCKPIT_COUNT * INDICATOR_LIGHT_COUNT,
        eject@.len() == COCKPIT_COUNT,
        eject@[c as int].idx == EJECT_LIGHT_EFFECT + c,
    ensures
        fixed_parts(k, c as int),
        k.offset == offset,
        forall|j: int|
            0 <= j < PILOT_POSE_COUNT ==> #[trigger] k.pilot_poses@[j] == spec_pos_rot(
                poses@,
                24 * (7 * c + j),
            ),
        forall|j: int|
            0 <= j < INDICATOR_LIGHT_COUNT ==> #[trigger] k.indicators_lights@[j] == lights@[9 * c + j],
        k.eject_light == eject@[c as int],
        c == 1 ==> (k.comm_lights matches Some(v) && v@ == comm@),
        k.dials_config == dials,
        k.monitor_models == models.monitor_models,
        k.chassis_models == models.chassis_models,
        k.display_models == models.display_models,
{
    let mut pilot_poses: Vec<PosRot> = Vec::with_capacity(PILOT_POSE_COUNT);
    let mut j: usize = 0;
    while j < PILOT_POSE_COUNT
        invariant
            c < COCKPIT_COUNT,
            poses@.len() == COCKPIT_COUNT * PILOT_POSE_COUNT * 24,
            j <= PILOT_POSE_COUNT,
            pilot_poses@.len() == j,
            forall|m: int|
                0 <= m < j ==> #[trigger] pilot_poses@[m] == spec_pos_rot(poses@, 24 * (7 * c + m)),
        decreases PILOT_POSE_COUNT - j,
    {
        pilot_poses.push(PosRot::import(poses, 24 * (7 * c + j)));
        j = j + 1;
    }
    let mut indicators_lights: Vec<Option<EffectPosition>> = Vec::with_capacity(INDICATOR_LIGHT_COUNT);
    let mut j: usize = 0;
    while j < INDICATOR_LIGHT_COUNT
        invariant
            c < COCKPIT_COUNT,
            lights@.len() == COCKPIT_COUNT * INDICATOR_LIGHT_COUNT,
            j <= INDICATOR_LIGHT_COUNT,
            indicators_lights@.len() == j,
            forall|m: int| 0 <= m < j ==> #[trigger] indicators_lights@[m] == lights@[9 * c + m],
        decreases INDICATOR_LIGHT_COUNT - j,
    {
        indicators_lights.push(lights[9 * c + j]);
        j = j + 1;
    }
    let comm_lights = if c == 1 {
        Some(copy_lights(comm))
    } else {
        None
    };
    let (multi_monitors, mweps, sweps, tuner, comms) = pairs_of(c);
    let t: u16 = 2 * c as u16;
    Cockpit {
        id: c as u8,
        offset,
        pilot_poses,
        display_textures: (145 + t, 146 + t),
        chassis_textures: (133 + t, 134 + t),
        indicators_lights,
        eject_light: eject[c],
        comm_lights,
        multi_monitors,
        mweps,
        sweps,
        tuner,
        comms,
        dials_config: dials,
        monitor_models: models.monitor_models,
        chassis_models: models.chassis_models,
        display_models: models.display_models,
    }
}

/// Puts every cockpit together from the parts read for all cockpits.
#[verifier::rlimit(40)]
fn assemble_all(
    dials: Vec<DialsConfig>,
    models: Vec<CockpitModels>,
    offset: (u32, u32, u32),
    pb: &Vec<u8>,
    lights: &Vec<Option<EffectPosition>>,
    eject: &Vec<EffectPosition>,
    comm: &Vec<EffectPosition>,
    Ghost(d): Ghost<Seq<u8>>,
    Ghost(names): Ghost<Seq<Seq<char>>>,
    Ghost(secs): Ghost<Seq<SectionView>>,
    Ghost(o): Ghost<nat>,
    Ghost(p): Ghost<nat>,
    Ghost(dial_stack): Ghost<Seq<u8>>,
    Ghost(model_stack): Ghost<Seq<u8>>,
    Ghost(dials_raw): Ghost<Seq<DialsConfig>>,
    Ghost(es): Ghost<Seq<u8>>,
    Ghost(cs): Ghost<Seq<u8>>,
) -> (out: Vec<Cockpit>)
    requires
        dials@.len() == COCKPIT_COUNT,
        models@.len() == COCKPIT_COUNT,
        all_models_match(models@, model_stack),
        all_dials_match(dials_raw, dial_stack),
        dials@[1].model >= 1,
        dials@[1].model - 1 == dials_raw[1].model,
        dials@[1].bones == dials_raw[1].bones,
        dials@[1].scale_degrees == dials_raw[1].scale_degrees,
        dials@[1].max_speed_bits == dials_raw[1].max_speed_bits,
        forall|k: int| 0 <= k < COCKPIT_COUNT && k != 1 ==> #[trigger] dials@[k] == dials_raw[k],
        pb@ == d.subrange(p as int, p + 1008int),
        p + 1008 <= d.len(),
        offset == position_at(d, o as int),
        o == spec_section_offset(names, secs, "seg00"@, 12)->Ok_0,
        p == spec_section_offset(names, secs, ".data"@, 0x105D0)->Ok_0,
        lights@ == indicator_lights_in(names, secs, d),
        eject@ == stack_lights(es, 4, COCKPIT_COUNT as nat, EJECT_LIGHT_EFFECT, 1),
        comm@ == stack_lights(cs, 0x28, COMM_LIGHT_COUNT as nat, COMM_LIGHT_EFFECT, 0),
    ensures
        out@.len() == COCKPIT_COUNT,
        forall|c: int| 0 <= c < COCKPIT_COUNT ==> #[trigger] fixed_parts(out@[c], c),
        cockpit_data_match(out@, names, secs, d),
        cockpit_models_match(out@, model_stack),
        cockpit_dials_match(out@, dial_stack),
        cockpit_lights_match(out@, es, cs),
{
    let mut dials = dials;
    let mut models = models;
    let ghost dials0 = dials@;
    let ghost models0 = models@;
    let mut out: Vec<Cockpit> = Vec::with_capacity(COCKPIT_COUNT);
    let mut c: usize = 0;
    while c < COCKPIT_COUNT
        invariant
            c <= COCKPIT_COUNT,
            out@.len() == c,
            dials@ == dials0.skip(c as int),
            models@ == models0.skip(c as int),
            dials0.len() == COCKPIT_COUNT,
            models0.len() == COCKPIT_COUNT,
            all_models_match(models0, model_stack),
            all_dials_match(dials_raw, dial_stack),
            dials0[1].model >= 1,
            dials0[1].model - 1 == dials_raw[1].model,
            dials0[1].bones == dials_raw[1].bones,
            dials0[1].scale_degrees == dials_raw[1].scale_degrees,
            dials0[1].max_speed_bits == dials_raw[1].max_speed_bits,
            forall|k: int| 0 <= k < COCKPIT_COUNT && k != 1 ==> #[trigger] dials0[k] == dials_raw[k],
            pb@ == d.subrange(p as int, p + 1008int),
            p + 1008 <= d.len(),
            offset == position_at(d, o as int),
            o == spec_section_offset(names, secs, "seg00"@, 12)->Ok_0,
            p == spec_section_offset(names, secs, ".data"@, 0x105D0)->Ok_0,
            lights@ == indicator_lights_in(names, secs, d),
            eject@ == stack_lights(es, 4, COCKPIT_COUNT as nat, EJECT_LIGHT_EFFECT, 1),
            comm@ == stack_lights(cs, 0x28, COMM_LIGHT_COUNT as nat, COMM_LIGHT_EFFECT, 0),
            forall|k: int| 0 <= k < c ==> #[trigger] fixed_parts(out@[k], k),
            forall|k: int| 0 <= k < c ==> #[trigger] cockpit_models_of(out@[k], model_stack, k),
            forall|k: int| 0 <= k < c ==> #[trigger] cockpit_dials_of(out@[k], dial_stack, k),
            forall|k: int|
                0 <= k < c ==> #[trigger] out@[k].eject_light == stack_lights(
                    es,
                    4,
                    COCKPIT_COUNT as nat,
                    EJECT_LIGHT_EFFECT,
                    1,
                )[k],
            c > 1 ==> (out@[1].comm_lights matches Some(v) && v@ == stack_lights(
                cs,
                0x28,
                COMM_LIGHT_COUNT as nat,
                COMM_LIGHT_EFFECT,
                0,
            )),
            forall|k: int|
                0 <= k < c ==> {
                    &&& #[trigger] out@[k].offset == position_at(d, o as int)
                    &&& forall|j: int|
                        0 <= j < PILOT_POSE_COUNT ==> #[trigger] out@[k].pilot_poses@[j]
                            == spec_pos_rot(d, p + 24 * (7 * k + j))
                    &&& forall|j: int|
                        0 <= j < INDICATOR_LIGHT_COUNT ==> #[trigger] out@[k].indicators_lights@[j]
                            == indicator_lights_in(names, secs, d)[9 * k + j]
                },
        decreases COCKPIT_COUNT - c,
    {
        let dc = dials.remove(0);
        let m = models.remove(0);
        assert(dc == dials0[c as int]);
        assert(m == models0[c as int]);
        assert(models_match(models0[c as int], model_stack, c as int));
        let k = assemble(c, offset, pb.as_slice(), lights, eject, comm, dc, m);
        proof {
            assert forall|j: int| 0 <= j < PILOT_POSE_COUNT implies #[trigger] k.pilot_poses@[j]
                == spec_pos_rot(d, p + 24 * (7 * c + j)) by {
                lemma_subrange_pos_rot(d, p as int, 1008, 24 * (7 * c + j));
            }
            assert(cockpit_models_of(k, model_stack, c as int));
            assert(dials_match(dials_raw[c as int], dial_stack, c as int));
            assert(cockpit_dials_of(k, dial_stack, c as int));
        }
        out.push(k);
        c = c + 1;
        assert(dials@ =~= dials0.skip(c as int));
        assert(models@ =~= models0.skip(c as int));
    }
    proof {
        assert(cockpit_models_match(out@, model_stack));
        assert(cockpit_dials_match(out@, dial_stack));
        assert(cockpit_lights_match(out@, es, cs));
        assert(cockpit_data_match(out@, names, secs, d));
    }
    out
}

/// The stack that a run ended with (empty where it did not end).
pub open spec fn ran_stack(r: Ran) -> Seq<u8> {
    match r {
        Ran::At(st, _, _) => used_stack(st),
        _ => Seq::empty(),
    }
}

/// How a run that must leave `need` bytes of stack ends: `Some(Ok(()))`
/// where it does, `None` where an instruction cannot be run or the stack is
/// shorter, `Err` where a read fails.
pub open spec fn stack_stage(r: Ran, need: nat) -> Option<Result<(), IoError>> {
    match r {
        Ran::Stop => None,
        Ran::Fail(e) => Some(Err(e)),
        Ran::At(st, _, _) => if used_stack(st).len() >= need {
            Some(Ok(()))
        } else {
            None
        },
    }
}

/// How reading `len` bytes at `offset` of a section ends.
pub open spec fn read_stage(names: Seq<Seq<char>>, secs: Seq<SectionView>, d: Seq<u8>, name: Seq<char>, offset: u32, len: nat) -> Option<Result<(), IoError>> {
    match spec_section_offset(names, secs, name, offset) {
        Err(e) => Some(Err(e)),
        Ok(o) => if o + len <= d.len() {
            Some(Ok(()))
        } else {
            Some(Err(IoError::UnexpectedEof))
        },
    }
}

/// How reading the indicator lights ends: their effect ids must be none or
/// fit 16 bits.
pub open spec fn lights_stage(names: Seq<Seq<char>>, secs: Seq<SectionView>, d: Seq<u8>) -> Option<Result<(), IoError>> {
    match spec_section_offset(names, secs, ".data"@, 0x36F78) {
        Err(e) => Some(Err(e)),
        Ok(p) => if p + 4 * 54 > d.len() {
            Some(Err(IoError::UnexpectedEof))
        } else {
            match spec_section_offset(names, secs, ".data"@, 0x37050) {
                Err(e) => Some(Err(e)),
                Ok(q) => if q + 12 * 54 > d.len() {
                    Some(Err(IoError::UnexpectedEof))
                } else if ids_ok(le32_seq(d, p as int, 54)) {
                    Some(Ok(()))
                } else {
                    None
                },
            }
        },
    }
}

/// How reading the cockpit models ends (see `CockpitModels::import`).
pub open spec fn models_stage(names: Seq<Seq<char>>, secs: Seq<SectionView>, d: Seq<u8>) -> Option<Result<(), IoError>> {
    match models_ran(names, secs, d) {
        Ran::Stop => None,
        Ran::Fail(e) => Some(Err(e)),
        Ran::At(st, p, _) => if p + 2 > d.len() {
            Some(Err(IoError::UnexpectedEof))
        } else if le16(d, p) != 0x0B7E || !all_models_ok(used_stack(st)) {
            None
        } else {
            Some(Ok(()))
        },
    }
}

/// The run that fills the eject lights.
pub open spec fn eject_ran(names: Seq<Seq<char>>, secs: Seq<SectionView>, d: Seq<u8>) -> Ran {
    then_run(secs, d, start_at(names, secs, 0x5C6EE, 0x4C), true, 144)
}

/// The run that fills the comm lights.
pub open spec fn comm_ran(names: Seq<Seq<char>>, secs: Seq<SectionView>, d: Seq<u8>) -> Ran {
    then_run(secs, d, start_at(names, secs, 0x6A2FC, 0x64), true, 120)
}

/// How reading the cockpits ends: the indicator lights, the dials, the
/// offset, the pilot poses, the eject and comm lights and the models, in
/// that order; the first part that fails decides. The second cockpit's dial
/// model must not be the last one a byte holds.
#[verifier::opaque]
pub open spec fn cockpits_end(names: Seq<Seq<char>>, secs: Seq<SectionView>, d: Seq<u8>) -> Option<Result<(), IoError>> {
    and_then(lights_stage(names, secs, d),
    and_then(stack_stage(dials_ran(names, secs, d), DIALS_STACK_SIZE as nat),
    and_then(read_stage(names, secs, d, "seg00"@, 12, 12),
    and_then(read_stage(names, secs, d, ".data"@, 0x105D0, 1008),
    and_then(stack_stage(eject_ran(names, secs, d), (4 + 12 * COCKPIT_COUNT) as nat),
    and_then(stack_stage(comm_ran(names, secs, d), (0x28 + 12 * COMM_LIGHT_COUNT) as nat),
    and_then(models_stage(names, secs, d),
    if le32(ran_stack(dials_ran(names, secs, d)), 16) as u8 == 255 {
        None
    } else {
        Some(Ok(()))
    })))))))
}

impl Cockpit {
    /// Reads every cockpit: its indicator lights, dials, offset, pilot
    /// poses, eject and comm lights and models, running the game's code
    /// where it fills tables on its stack. `None` where an instruction
    /// cannot be run, a table does not fit the stack, an effect id or model
    /// record is not valid, or the game's code does not end where it
    /// should; `Err` where the executable ends too early or has no such
    /// section.
    #[verifier::spinoff_prover]
    #[verifier::rlimit(60)]
    pub fn import(xbe: &mut XBE) -> (r: Option<Result<Vec<Cockpit>, IoError>>)
        ensures
            final(xbe).same_image(old(xbe)),
            ({
                let names = old(xbe).names();
                let secs = old(xbe).sections();
                let d = old(xbe).reader.data();
                match cockpits_end(names, secs, d) {
                    None => r is None,
                    Some(Err(e)) => r == Some(Err::<Vec<Cockpit>, IoError>(e)),
                    Some(Ok(_)) => r matches Some(Ok(ks)) && {
                        &&& ks@.len() == COCKPIT_COUNT
                        &&& forall|c: int| 0 <= c < COCKPIT_COUNT ==> #[trigger] fixed_parts(ks@[c], c)
                        &&& cockpit_data_match(ks@, names, secs, d)
                        &&& cockpit_models_match(ks@, ran_stack(models_ran(names, secs, d)))
                        &&& cockpit_dials_match(ks@, ran_stack(dials_ran(names, secs, d)))
                        &&& cockpit_lights_match(
                            ks@,
                            ran_stack(eject_ran(names, secs, d)),
                            ran_stack(comm_ran(names, secs, d)),
                        )
                    },
                }
            }),
    {
        let ghost d = xbe.reader.data();
        let ghost names = xbe.names();
        let ghost secs = xbe.sections();
        let lights = match EffectPosition::import_separate(
            xbe,
            ".data",
            0x36F78,
            ".data",
            0x37050,
            COCKPIT_COUNT * INDICATOR_LIGHT_COUNT,
        ) {
            None => {
                proof {
                    reveal(cockpits_end);
                }
                return None;
            },
            Some(Err(e)) => {
                proof {
                    reveal(cockpits_end);
                }
                return Some(Err(e));
            },
            Some(Ok(v)) => v,
        };
        assert(lights@ == indicator_lights_in(names, secs, d));
        assert(lights_stage(names, secs, d) == Some(Ok::<(), IoError>(())));
        let mut dials = match DialsConfig::import(xbe) {
            None => {
                proof {
                    reveal(cockpits_end);
                }
                return None;
            },
            Some(Err(e)) => {
                proof {
                    reveal(cockpits_end);
                }
                return Some(Err(e));
            },
            Some(Ok(v)) => v,
        };
        let ghost dial_stack = ran_stack(dials_ran(names, secs, d));
        assert(all_dials_match(dials@, dial_stack));
        assert(stack_stage(dials_ran(names, secs, d), DIALS_STACK_SIZE as nat) == Some(Ok::<(), IoError>(())));
        match xbe.seek_section_offset("seg00", 12) {
            Err(e) => {
                proof {
                    reveal(cockpits_end);
                }
                return Some(Err(e));
            },
            Ok(_) => {},
        }
        let ghost o = xbe.reader.pos();
        let ob = match xbe.reader.read_exact(12) {
            Err(e) => {
                proof {
                    reveal(cockpits_end);
                }
                return Some(Err(e));
            },
            Ok(b) => b,
        };
        assert(read_stage(names, secs, d, "seg00"@, 12, 12) == Some(Ok::<(), IoError>(())));
        let offset = read_position(ob.as_slice(), 0);
        proof {
            lemma_subrange_le32(d, o as int, 12, 0);
            lemma_subrange_le32(d, o as int, 12, 4);
            lemma_subrange_le32(d, o as int, 12, 8);
        }
        assert(offset == position_at(d, o as int));
        match xbe.seek_section_offset(".data", 0x105D0) {
            Err(e) => {
                proof {
                    reveal(cockpits_end);
                }
                return Some(Err(e));
            },
            Ok(_) => {},
        }
        let ghost p = xbe.reader.pos();
        let pb = match xbe.reader.read_exact(COCKPIT_COUNT * PILOT_POSE_COUNT * 24) {
            Err(e) => {
                proof {
                    reveal(cockpits_end);
                }
                return Some(Err(e));
            },
            Ok(b) => b,
        };
        assert(read_stage(names, secs, d, ".data"@, 0x105D0, 1008) == Some(Ok::<(), IoError>(())));
        match xbe.seek_section_offset(".text", 0x5C6EE) {
            Err(e) => {
                proof {
                    reveal(cockpits_end);
                }
                return Some(Err(e));
            },
            Ok(_) => {},
        }
        let mut ectx = X86Context::new(0x4C);
        assert(start_at(names, secs, 0x5C6EE, 0x4C) == Ran::At(ectx.state(), xbe.reader.pos() as int, 0));
        match ectx.run_until(xbe, 0, 144) {
            None => {
                proof {
                    reveal(cockpits_end);
                }
                return None;
            },
            Some(Err(e)) => {
                proof {
                    reveal(cockpits_end);
                }
                return Some(Err(e));
            },
            Some(Ok(_)) => {},
        }
        let es = ectx.get_stack();
        assert(es@ == ran_stack(eject_ran(names, secs, d)));
        if es.len() < 4 + 12 * COCKPIT_COUNT {
            proof {
                reveal(cockpits_end);
            }
            return None;
        }
        assert(stack_stage(eject_ran(names, secs, d), (4 + 12 * COCKPIT_COUNT) as nat) == Some(Ok::<(), IoError>(())));
        let eject = EffectPosition::from_stack(es, 4, COCKPIT_COUNT, EJECT_LIGHT_EFFECT, 1);
        let mut cctx = X86Context::new(0x64);
        match xbe.seek_section_offset(".text", 0x6A2FC) {
            Err(e) => {
                proof {
                    reveal(cockpits_end);
                }
                return Some(Err(e));
            },
            Ok(_) => {},
        }
        assert(start_at(names, secs, 0x6A2FC, 0x64) == Ran::At(cctx.state(), xbe.reader.pos() as int, 0));
        match cctx.run_until(xbe, 0, 120) {
            None => {
                proof {
                    reveal(cockpits_end);
                }
                return None;
            },
            Some(Err(e)) => {
                proof {
                    reveal(cockpits_end);
                }
                return Some(Err(e));
            },
            Some(Ok(_)) => {},
        }
        let cs = cctx.get_stack();
        assert(cs@ == ran_stack(comm_ran(names, secs, d)));
        if cs.len() < 0x28 + 12 * COMM_LIGHT_COUNT {
            proof {
                reveal(cockpits_end);
            }
            return None;
        }
        assert(stack_stage(comm_ran(names, secs, d), (0x28 + 12 * COMM_LIGHT_COUNT) as nat) == Some(Ok::<(), IoError>(())));
        let comm = EffectPosition::from_stack(cs, 0x28, COMM_LIGHT_COUNT, COMM_LIGHT_EFFECT, 0);
        let mut models = match CockpitModels::import(xbe) {
            None => {
                proof {
                    reveal(cockpits_end);
                }
                return None;
            },
            Some(Err(e)) => {
                proof {
                    reveal(cockpits_end);
                }
                return Some(Err(e));
            },
            Some(Ok(v)) => v,
        };
        let ghost model_stack = ran_stack(models_ran(names, secs, d));
        assert(all_models_match(models@, model_stack));
        assert(models_stage(names, secs, d) == Some(Ok::<(), IoError>(())));
        let ghost dials_raw = dials@;
        assert(dials_match(dials_raw[1], dial_stack, 1));
        let mut d1 = dials.remove(1);
        assert(d1.model == le32(dial_stack, 16) as u8);
        if d1.model == 255 {
            proof {
                reveal(cockpits_end);
            }
            return None;
        }
        d1.model = d1.model + 1;
        dials.insert(1, d1);
        let ghost dials0 = dials@;
        let ghost models0 = models@;
        assert(forall|c: int|
            0 <= c < COCKPIT_COUNT && c != 1 ==> #[trigger] dials0[c] == dials_raw[c]);
        let out = assemble_all(
            dials,
            models,
            offset,
            &pb,
            &lights,
            &eject,
            &comm,
            Ghost(d),
            Ghost(names),
            Ghost(secs),
            Ghost(o),
            Ghost(p),
            Ghost(dial_stack),
            Ghost(model_stack),
            Ghost(dials_raw),
            Ghost(es@),
            Ghost(cs@),
        );
        proof {
            reveal(cockpits_end);
            assert(cockpits_end(names, secs, d) == Some(Ok::<(), IoError>(())));
        }
        let ghost w = out@;
        let r: Option<Result<Vec<Cockpit>, IoError>> = Some(Ok(out));
        assert(r matches Some(Ok(x)) && x@ == w);
        r
    }

    /// The models of the cockpit: monitors, then chassis, then displays.
    pub fn get_model_configs(&self) -> (r: Vec<ModelConfig>)
        ensures
            r@ == (self.monitor_models@ + self.chassis_models@ + self.display_models@).map_values(
                |m: ModelConfigFlags| m.modcfg,
            ),
    {
        let ghost all = self.monitor_models@ + self.chassis_models@ + self.display_models@;
        let mut mcs: Vec<ModelConfig> = Vec::new();
        let mut i: usize = 0;
        while i < self.monitor_models.len()
            invariant
                i <= self.monitor_models@.len(),
                mcs@ == all.map_values(|m: ModelConfigFlags| m.modcfg).subrange(0, i as int),
                all == self.monitor_models@ + self.chassis_models@ + self.display_models@,
            decreases self.monitor_models@.len() - i,
        {
            mcs.push(self.monitor_models[i].modcfg);
            i = i + 1;
            assert(mcs@ =~= all.map_values(|m: ModelConfigFlags| m.modcfg).subrange(0, i as int));
        }
        let ghost base = self.monitor_models@.len();
        let mut i: usize = 0;
        while i < self.chassis_models.len()
            invariant
                i <= self.chassis_models@.len(),
                base == self.monitor_models@.len(),
                mcs@ == all.map_values(|m: ModelConfigFlags| m.modcfg).subrange(0, base + i),
                all == self.monitor_models@ + self.chassis_models@ + self.display_models@,
            decreases self.chassis_models@.len() - i,
        {
            mcs.push(self.chassis_models[i].modcfg);
            i = i + 1;
            assert(mcs@ =~= all.map_values(|m: ModelConfigFlags| m.modcfg).subrange(0, base + i));
        }
        let ghost base = self.monitor_models@.len() + self.chassis_models@.len();
        let mut i: usize = 0;
        while i < self.display_models.len()
            invariant
                i <= self.display_models@.len(),
                base == self.monitor_models@.len() + self.chassis_models@.len(),
                mcs@ == all.map_values(|m: ModelConfigFlags| m.modcfg).subrange(0, base + i),
                all == self.monitor_models@ + self.chassis_models@ + self.display_models@,
            decreases self.display_models@.len() - i,
        {
            mcs.push(self.display_models[i].modcfg);
            i = i + 1;
            assert(mcs@ =~= all.map_values(|m: ModelConfigFlags| m.modcfg).subrange(0, base + i));
        }
        assert(mcs@ =~= all.map_values(|m: ModelConfigFlags| m.modcfg));
        mcs
    }
}

pub const OS_ANIM_SIZE: usize = 64;

pub const OS_DRAW_SIZE: usize = 64;

pub const OS_DRAW_COUNT: usize = 112;

pub const OS_DRAW_ANIM_COUNT: usize = 16;

/// Bytes of an on-screen display: its duration, its draw commands and
/// their animation slots.
pub const OS_SIZE: usize = 4 + OS_DRAW_SIZE * 112 + OS_ANIM_SIZE * 112 * 16;

/// Why an on-screen display could not be read.
#[derive(Clone, Copy, PartialEq, Eq, Debug)]
pub enum OsError {
    /// The data does not have the size of a display.
    WrongSize,
    /// An animation's command is not a single bit of the low byte.
    UnknownAnimCommand,
    /// An animation starts before the display.
    NegativeAnimTime,
    /// A draw command is not one of the five kinds.
    UnknownDrawCommand,
    /// A text, sprite or lines id does not fit a byte.
    InvalidDrawId,
    /// A draw command is set but has no animations.
    CommandWithoutAnimations,
}

/// A colour stored as BGRA, in RGBA order.
pub open spec fn color_at(b: Seq<u8>, at: int) -> (u8, u8, u8, u8) {
    (b[at + 2], b[at + 1], b[at], b[at + 3])
}

/// Two `f32` values stored at `at`, as bits.
pub open spec fn pair_at(b: Seq<u8>, at: int) -> (u32, u32) {
    (bits_at(b, at), bits_at(b, at + 4))
}

fn read_color(b: &[u8], at: usize) -> (r: (u8, u8, u8, u8))
    requires
        at + 4 <= b@.len(),
    ensures
        r == color_at(b@, at as int),
{
    let n: usize = b.len();
    assert(at + 4 <= n);
    (b[at + 2], b[at + 1], b[at], b[at + 3])
}

fn read_pair(b: &[u8], at: usize) -> (r: (u32, u32))
    requires
        at + 8 <= b@.len(),
    ensures
        r == pair_at(b@, at as int),
{
    let n: usize = b.len();
    assert(at + 8 <= n);
    (read_u32_le(b, at), read_u32_le(b, at + 4))
}

/// What an animation of a draw command does (points and scale as `f32`
/// bits, colours in RGBA order).
#[derive(Clone, Copy, PartialEq, Eq, Debug)]
pub enum OSAnimType {
    Start,
    Points { vertices: ((u32, u32), (u32, u32), (u32, u32), (u32, u32)) },
    Rotate { clockwise: bool },
    Color { color: (u8, u8, u8, u8) },
    Colors { colors: ((u8, u8, u8, u8), (u8, u8, u8, u8), (u8, u8, u8, u8), (u8, u8, u8, u8)) },
    Text,
    Scale { scale_bits: u32 },
    Stop,
}

/// The animation that `command` stores at `at`: one bit per kind.
pub open spec fn spec_anim_type(command: u32, b: Seq<u8>, at: int) -> Result<OSAnimType, OsError> {
    if command == 0x01 {
        Ok(OSAnimType::Start)
    } else if command == 0x02 {
        Ok(
            OSAnimType::Points {
                vertices: (pair_at(b, at), pair_at(b, at + 8), pair_at(b, at + 16), pair_at(b, at + 24)),
            },
        )
    } else if command == 0x04 {
        Ok(OSAnimType::Rotate { clockwise: le32(b, at + 4) != 0 })
    } else if command == 0x08 {
        Ok(OSAnimType::Color { color: color_at(b, at) })
    } else if command == 0x10 {
        Ok(
            OSAnimType::Colors {
                colors: (color_at(b, at), color_at(b, at + 4), color_at(b, at + 8), color_at(b, at + 12)),
            },
        )
    } else if command == 0x20 {
        Ok(OSAnimType::Text)
    } else if command == 0x40 {
        Ok(OSAnimType::Scale { scale_bits: bits_at(b, at) })
    } else if command == 0x80 {
        Ok(OSAnimType::Stop)
    } else {
        Err(OsError::UnknownAnimCommand)
    }
}

/// The bytes that the export writes for an animation kind: a tag, then its
/// values.
pub open spec fn anim_type_bytes(t: OSAnimType) -> Seq<u8> {
    match t {
        OSAnimType::Start => seq![0u8],
        OSAnimType::Points { vertices: (a, b, c, d) } => seq![1u8] + bytes32(a.0 as nat) + bytes32(a.1 as nat)
            + bytes32(b.0 as nat) + bytes32(b.1 as nat) + bytes32(c.0 as nat) + bytes32(c.1 as nat) + bytes32(
            d.0 as nat,
        ) + bytes32(d.1 as nat),
        OSAnimType::Rotate { clockwise } => seq![2u8, if clockwise { 1u8 } else { 0u8 }],
        OSAnimType::Color { color } => seq![3u8, color.0, color.1, color.2, color.3],
        OSAnimType::Colors { colors: (a, b, c, d) } => seq![
            4u8,
            a.0,
            a.1,
            a.2,
            a.3,
            b.0,
            b.1,
            b.2,
            b.3,
            c.0,
            c.1,
            c.2,
            c.3,
            d.0,
            d.1,
            d.2,
            d.3,
        ],
        OSAnimType::Text => seq![5u8],
        OSAnimType::Scale { scale_bits } => seq![6u8] + bytes32(scale_bits as nat),
        OSAnimType::Stop => seq![7u8],
    }
}

fn push_color(w: &mut Vec<u8>, c: (u8, u8, u8, u8))
    ensures
        final(w)@ == old(w)@ + seq![c.0, c.1, c.2, c.3],
{
    w.push(c.0);
    w.push(c.1);
    w.push(c.2);
    w.push(c.3);
    assert(final(w)@ =~= old(w)@ + seq![c.0, c.1, c.2, c.3]);
}

fn push_pair(w: &mut Vec<u8>, p: (u32, u32))
    ensures
        final(w)@ == old(w)@ + bytes32(p.0 as nat) + bytes32(p.1 as nat),
{
    push_u32_le(w, p.0);
    push_u32_le(w, p.1);
}

impl OSAnimType {
    /// Reads the animation that `command` stores at `at`.
    pub fn import(command: u32, buf: &[u8], at: usize) -> (r: Result<OSAnimType, OsError>)
        requires
            at + 32 <= buf@.len(),
        ensures
            r == spec_anim_type(command, buf@, at as int),
    {
        let n: usize = buf.len();
        assert(at + 32 <= n);
        if command == 0x01 {
            Ok(OSAnimType::Start)
        } else if command == 0x02 {
            Ok(
                OSAnimType::Points {
                    vertices: (
                        read_pair(buf, at),
                        read_pair(buf, at + 8),
                        read_pair(buf, at + 16),
                        read_pair(buf, at + 24),
                    ),
                },
            )
        } else if command == 0x04 {
            Ok(OSAnimType::Rotate { clockwise: read_u32_le(buf, at + 4) != 0 })
        } else if command == 0x08 {
            Ok(OSAnimType::Color { color: read_color(buf, at) })
        } else if command == 0x10 {
            Ok(
                OSAnimType::Colors {
                    colors: (
                        read_color(buf, at),
                        read_color(buf, at + 4),
                        read_color(buf, at + 8),
                        read_color(buf, at + 12),
                    ),
                },
            )
        } else if command == 0x20 {
            Ok(OSAnimType::Text)
        } else if command == 0x40 {
            Ok(OSAnimType::Scale { scale_bits: read_u32_le(buf, at) })
        } else if command == 0x80 {
            Ok(OSAnimType::Stop)
        } else {
            Err(OsError::UnknownAnimCommand)
        }
    }

    /// Appends the tag of the kind and its values.
    pub fn write(&self, writer: &mut Vec<u8>)
        ensures
            final(writer)@ == old(writer)@ + anim_type_bytes(*self),
    {
        match self {
            OSAnimType::Start => {
                writer.push(0);
                assert(final(writer)@ =~= old(writer)@ + anim_type_bytes(*self));
            },
            OSAnimType::Points { vertices } => {
                writer.push(1);
                push_pair(writer, vertices.0);
                push_pair(writer, vertices.1);
                push_pair(writer, vertices.2);
                push_pair(writer, vertices.3);
                assert(final(writer)@ =~= old(writer)@ + anim_type_bytes(*self));
            },
            OSAnimType::Rotate { clockwise } => {
                writer.push(2);
                writer.push(if *clockwise {
                    1
                } else {
                    0
                });
                assert(final(writer)@ =~= old(writer)@ + anim_type_bytes(*self));
            },
            OSAnimType::Color { color } => {
                writer.push(3);
                push_color(writer, *color);
                assert(final(writer)@ =~= old(writer)@ + anim_type_bytes(*self));
            },
            OSAnimType::Colors { colors } => {
                writer.push(4);
                push_color(writer, colors.0);
                push_color(writer, colors.1);
                push_color(writer, colors.2);
                push_color(writer, colors.3);
                assert(final(writer)@ =~= old(writer)@ + anim_type_bytes(*self));
            },
            OSAnimType::Text => {
                writer.push(5);
                assert(final(writer)@ =~= old(writer)@ + anim_type_bytes(*self));
            },
            OSAnimType::Scale { scale_bits } => {
                writer.push(6);
                push_u32_le(writer, *scale_bits);
                assert(final(writer)@ =~= old(writer)@ + anim_type_bytes(*self));
            },
            OSAnimType::Stop => {
                writer.push(7);
                assert(final(writer)@ =~= old(writer)@ + anim_type_bytes(*self));
            },
        }
    }
}

/// An animation of a draw command: when it starts and how long it lasts
/// (in frames), and what it does.
#[derive(Clone, Copy, PartialEq, Eq, Debug)]
pub struct OSAnim {
    pub time_frames: i32,
    pub duration_frames: i32,
    pub command: OSAnimType,
}

/// The animation commands: one bit of the low byte each.
pub open spec fn one_hot_byte(c: u32) -> bool {
    c == 0x01 || c == 0x02 || c == 0x04 || c == 0x08 || c == 0x10 || c == 0x20 || c == 0x40 || c == 0x80
}

/// The animation slot at `at`: empty where its command is zero.
pub open spec fn spec_anim(b: Seq<u8>, at: int) -> Result<Option<OSAnim>, OsError> {
    let command = le32(b, at) as u32;
    let time = (le32(b, at + 4) as u32) as i32;
    if command == 0 {
        Ok(None)
    } else if !one_hot_byte(command) {
        Err(OsError::UnknownAnimCommand)
    } else if time < 0 {
        Err(OsError::NegativeAnimTime)
    } else {
        match spec_anim_type(command, b, at + 12) {
            Err(e) => Err(e),
            Ok(t) => Ok(
                Some(
                    OSAnim {
                        time_frames: time,
                        duration_frames: (le32(b, at + 8) as u32) as i32,
                        command: t,
                    },
                ),
            ),
        }
    }
}

impl OSAnim {
    /// Reads the animation slot at `at`.
    pub fn import(buf: &[u8], at: usize) -> (r: Result<Option<OSAnim>, OsError>)
        requires
            at + OS_ANIM_SIZE <= buf@.len(),
        ensures
            r == spec_anim(buf@, at as int),
    {
        let n: usize = buf.len();
        assert(at + 64 <= n);
        let command: u32 = read_u32_le(buf, at);
        let time: i32 = read_i32_le(buf, at + 4);
        let duration: i32 = read_i32_le(buf, at + 8);
        if command == 0 {
            return Ok(None);
        }
        if !(command == 0x01 || command == 0x02 || command == 0x04 || command == 0x08 || command == 0x10
            || command == 0x20 || command == 0x40 || command == 0x80) {
            return Err(OsError::UnknownAnimCommand);
        }
        if time < 0 {
            return Err(OsError::NegativeAnimTime);
        }
        match OSAnimType::import(command, buf, at + 12) {
            Err(e) => Err(e),
            Ok(t) => Ok(Some(OSAnim { time_frames: time, duration_frames: duration, command: t })),
        }
    }
}

/// What a draw command draws (positions and angles as `f32` bits, colours
/// in RGBA order): a text, a quad, a line, a sprite or a set of lines.
#[derive(Clone, Copy, PartialEq, Eq, Debug)]
pub enum OSDrawType {
    Text { id: u8, length: i32, position: (u32, u32), color: (u8, u8, u8, u8) },
    Quad {
        vertices: ((u32, u32), (u32, u32), (u32, u32), (u32, u32)),
        colors: ((u8, u8, u8, u8), (u8, u8, u8, u8), (u8, u8, u8, u8), (u8, u8, u8, u8)),
    },
    Line { start: (u32, u32), end: (u32, u32), color: (u8, u8, u8, u8) },
    SpriteDef {
        id: u8,
        start: (u32, u32),
        end: (u32, u32),
        start2: (u32, u32),
        end2: (u32, u32),
        color: (u8, u8, u8, u8),
    },
    LinesDef { id: u8, position: (u32, u32), angle_bits: u32, scale_bits: u32, color: (u8, u8, u8, u8) },
}

/// The draw command of kind `command` stored at `at`.
pub open spec fn spec_draw_type(command: u32, b: Seq<u8>, at: int) -> Result<OSDrawType, OsError> {
    if command == 1 {
        if le32(b, at + 8) > 0xFF {
            Err(OsError::InvalidDrawId)
        } else {
            Ok(
                OSDrawType::Text {
                    id: le32(b, at + 8) as u8,
                    length: (le32(b, at + 12) as u32) as i32,
                    position: pair_at(b, at),
                    color: color_at(b, at + 52),
                },
            )
        }
    } else if command == 2 {
        Ok(
            OSDrawType::Quad {
                vertices: (pair_at(b, at), pair_at(b, at + 8), pair_at(b, at + 16), pair_at(b, at + 24)),
                colors: (color_at(b, at + 32), color_at(b, at + 36), color_at(b, at + 40), color_at(b, at + 44)),
            },
        )
    } else if command == 3 {
        Ok(OSDrawType::Line { start: pair_at(b, at), end: pair_at(b, at + 8), color: color_at(b, at + 16) })
    } else if command == 4 {
        if le32(b, at + 36) > 0xFF {
            Err(OsError::InvalidDrawId)
        } else {
            Ok(
                OSDrawType::SpriteDef {
                    id: le32(b, at + 36) as u8,
                    start: pair_at(b, at),
                    end: pair_at(b, at + 8),
                    start2: pair_at(b, at + 16),
                    end2: pair_at(b, at + 24),
                    color: color_at(b, at + 32),
                },
            )
        }
    } else if command == 5 {
        if le32(b, at + 20) > 0xFF {
            Err(OsError::InvalidDrawId)
        } else {
            Ok(
                OSDrawType::LinesDef {
                    id: le32(b, at + 20) as u8,
                    position: pair_at(b, at),
                    angle_bits: bits_at(b, at + 12),
                    scale_bits: bits_at(b, at + 16),
                    color: color_at(b, at + 8),
                },
            )
        }
    } else {
        Err(OsError::UnknownDrawCommand)
    }
}

pub open spec fn pair_bytes(p: (u32, u32)) -> Seq<u8> {
    bytes32(p.0 as nat) + bytes32(p.1 as nat)
}

pub open spec fn color_bytes(c: (u8, u8, u8, u8)) -> Seq<u8> {
    seq![c.0, c.1, c.2, c.3]
}

/// The bytes that the export writes for a draw command: a tag, then its
/// values.
pub open spec fn draw_type_bytes(t: OSDrawType) -> Seq<u8> {
    match t {
        OSDrawType::Text { id, length, position, color } => seq![0u8, id] + bytes32(
            (length as u32) as nat,
        ) + pair_bytes(position) + color_bytes(color),
        OSDrawType::Quad { vertices: (a, b, c, d), colors: (e, f, g, h) } => seq![1u8] + pair_bytes(a)
            + pair_bytes(b) + pair_bytes(c) + pair_bytes(d) + color_bytes(e) + color_bytes(f) + color_bytes(
            g,
        ) + color_bytes(h),
        OSDrawType::Line { start, end, color } => seq![2u8] + pair_bytes(start) + pair_bytes(end)
            + color_bytes(color),
        OSDrawType::SpriteDef { id, start, end, start2, end2, color } => seq![3u8, id] + pair_bytes(start)
            + pair_bytes(end) + pair_bytes(start2) + pair_bytes(end2) + color_bytes(color),
        OSDrawType::LinesDef { id, position, angle_bits, scale_bits, color } => seq![4u8, id]
            + pair_bytes(position) + bytes32(angle_bits as nat) + bytes32(scale_bits as nat)
            + color_bytes(color),
    }
}

impl OSDrawType {
    /// Reads the draw command of kind `command` stored at `at`.
    pub fn import(command: u32, buf: &[u8], at: usize) -> (r: Result<OSDrawType, OsError>)
        requires
            at + 56 <= buf@.len(),
        ensures
            r == spec_draw_type(command, buf@, at as int),
    {
        let n: usize = buf.len();
        assert(at + 56 <= n);
        if command == 1 {
            let id: u32 = read_u32_le(buf, at + 8);
            if id > 0xFF {
                return Err(OsError::InvalidDrawId);
            }
            Ok(
                OSDrawType::Text {
                    id: id as u8,
                    length: read_i32_le(buf, at + 12),
                    position: read_pair(buf, at),
                    color: read_color(buf, at + 52),
                },
            )
        } else if command == 2 {
            Ok(
                OSDrawType::Quad {
                    vertices: (
                        read_pair(buf, at),
                        read_pair(buf, at + 8),
                        read_pair(buf, at + 16),
                        read_pair(buf, at + 24),
                    ),
                    colors: (
                        read_color(buf, at + 32),
                        read_color(buf, at + 36),
                        read_color(buf, at + 40),
                        read_color(buf, at + 44),
                    ),
                },
            )
        } else if command == 3 {
            Ok(
                OSDrawType::Line {
                    start: read_pair(buf, at),
                    end: read_pair(buf, at + 8),
                    color: read_color(buf, at + 16),
                },
            )
        } else if command == 4 {
            let id: u32 = read_u32_le(buf, at + 36);
            if id > 0xFF {
                return Err(OsError::InvalidDrawId);
            }
            Ok(
                OSDrawType::SpriteDef {
                    id: id as u8,
                    start: read_pair(buf, at),
                    end: read_pair(buf, at + 8),
                    start2: read_pair(buf, at + 16),
                    end2: read_pair(buf, at + 24),
                    color: read_color(buf, at + 32),
                },
            )
        } else if command == 5 {
            let id: u32 = read_u32_le(buf, at + 20);
            if id > 0xFF {
                return Err(OsError::InvalidDrawId);
            }
            Ok(
                OSDrawType::LinesDef {
                    id: id as u8,
                    position: read_pair(buf, at),
                    angle_bits: read_u32_le(buf, at + 12),
                    scale_bits: read_u32_le(buf, at + 16),
                    color: read_color(buf, at + 8),
                },
            )
        } else {
            Err(OsError::UnknownDrawCommand)
        }
    }

    /// Appends the tag of the kind and its values.
    #[verifier::spinoff_prover]
    #[verifier::rlimit(30)]
    pub fn write(&self, writer: &mut Vec<u8>)
        ensures
            final(writer)@ == old(writer)@ + draw_type_bytes(*self),
    {
        match self {
            OSDrawType::Text { id, length, position, color } => {
                writer.push(0);
                writer.push(*id);
                push_u32_le(writer, *length as u32);
                push_pair(writer, *position);
                push_color(writer, *color);
                assert(final(writer)@ =~= old(writer)@ + draw_type_bytes(*self));
            },
            OSDrawType::Quad { vertices, colors } => {
                writer.push(1);
                push_pair(writer, vertices.0);
                push_pair(writer, vertices.1);
                push_pair(writer, vertices.2);
                push_pair(writer, vertices.3);
                push_color(writer, colors.0);
                push_color(writer, colors.1);
                push_color(writer, colors.2);
                push_color(writer, colors.3);
                assert(final(writer)@ =~= old(writer)@ + draw_type_bytes(*self));
            },
            OSDrawType::Line { start, end, color } => {
                writer.push(2);
                push_pair(writer, *start);
                push_pair(writer, *end);
                push_color(writer, *color);
                assert(final(writer)@ =~= old(writer)@ + draw_type_bytes(*self));
            },
            OSDrawType::SpriteDef { id, start, end, start2, end2, color } => {
                writer.push(3);
                writer.push(*id);
                push_pair(writer, *start);
                push_pair(writer, *end);
                push_pair(writer, *start2);
                push_pair(writer, *end2);
                push_color(writer, *color);
                assert(final(writer)@ =~= old(writer)@ + draw_type_bytes(*self));
            },
            OSDrawType::LinesDef { id, position, angle_bits, scale_bits, color } => {
                writer.push(4);
                writer.push(*id);
                push_pair(writer, *position);
                push_u32_le(writer, *angle_bits);
                push_u32_le(writer, *scale_bits);
                push_color(writer, *color);
                assert(final(writer)@ =~= old(writer)@ + draw_type_bytes(*self));
            },
        }
    }
}

/// A draw command of an on-screen display with its animations.
pub struct OSDraw {
    pub command: OSDrawType,
    pub animations: Vec<OSAnim>,
}

/// The draw record at `at`: none where it is unset (command zero and no
/// animations), else its command and how many animation slots it uses (at
/// most 16).
pub open spec fn spec_draw_head(b: Seq<u8>, at: int) -> Result<Option<(OSDrawType, nat)>, OsError> {
    let command = le32(b, at) as u32;
    let count = (le32(b, at + 4) as u32) as i32;
    if count <= 0 || command == 0 {
        if command != 0 {
            Err(OsError::CommandWithoutAnimations)
        } else {
            Ok(None)
        }
    } else {
        match spec_draw_type(command, b, at + 8) {
            Err(e) => Err(e),
            Ok(t) => Ok(
                Some(
                    (
                        t,
                        if count > 16 {
                            16
                        } else {
                            count as nat
                        },
                    ),
                ),
            ),
        }
    }
}

impl OSDraw {
    /// Reads the draw record at `at`, without its animations, and how many
    /// animation slots it uses.
    pub fn import(buf: &[u8], at: usize) -> (r: Result<Option<(OSDraw, usize)>, OsError>)
        requires
            at + OS_DRAW_SIZE <= buf@.len(),
        ensures
            match spec_draw_head(buf@, at as int) {
                Err(e) => r == Err::<Option<(OSDraw, usize)>, OsError>(e),
                Ok(None) => r matches Ok(None),
                Ok(Some((t, c))) => r matches Ok(Some((d, k))) && d.command == t && d.animations@.len()
                    == 0 && k == c,
            },
    {
        let n: usize = buf.len();
        assert(at + 64 <= n);
        let command: u32 = read_u32_le(buf, at);
        let count: i32 = read_i32_le(buf, at + 4);
        if count <= 0 || command == 0 {
            if command != 0 {
                return Err(OsError::CommandWithoutAnimations);
            }
            return Ok(None);
        }
        let t = match OSDrawType::import(command, buf, at + 8) {
            Err(e) => {
                return Err(e);
            },
            Ok(t) => t,
        };
        let k: usize = if count > 16 {
            16
        } else {
            count as usize
        };
        Ok(Some((OSDraw { command: t, animations: Vec::new() }, k)))
    }
}

/// An on-screen display: how long it runs (in frames) and its draw
/// commands.
pub struct OS {
    pub duration_frames: u32,
    pub draw_commands: Vec<OSDraw>,
}

/// Where the animation slots start.
pub open spec fn os_anims_at() -> int {
    4 + OS_DRAW_SIZE * OS_DRAW_COUNT
}

/// The animations in the first `k` slots of draw command `i`, skipping
/// empty slots.
pub open spec fn spec_draw_anims(b: Seq<u8>, i: int, k: nat) -> Result<Seq<OSAnim>, OsError>
    decreases k,
{
    if k == 0 {
        Ok(Seq::empty())
    } else {
        match spec_draw_anims(b, i, (k - 1) as nat) {
            Err(e) => Err(e),
            Ok(prev) => match spec_anim(
                b,
                os_anims_at() + OS_ANIM_SIZE * (OS_DRAW_ANIM_COUNT * i + k - 1),
            ) {
                Err(e) => Err(e),
                Ok(None) => Ok(prev),
                Ok(Some(a)) => Ok(prev.push(a)),
            },
        }
    }
}

/// The first `n` draw commands that are set, each with its animations.
pub open spec fn spec_draws(b: Seq<u8>, n: nat) -> Result<Seq<(OSDrawType, Seq<OSAnim>)>, OsError>
    decreases n,
{
    if n == 0 {
        Ok(Seq::empty())
    } else {
        match spec_draws(b, (n - 1) as nat) {
            Err(e) => Err(e),
            Ok(prev) => match spec_draw_head(b, 4 + OS_DRAW_SIZE * (n - 1)) {
                Err(e) => Err(e),
                Ok(None) => Ok(prev),
                Ok(Some((t, c))) => match spec_draw_anims(b, n - 1, c) {
                    Err(e) => Err(e),
                    Ok(anims) => Ok(prev.push((t, anims))),
                },
            },
        }
    }
}

pub open spec fn draw_view(d: OSDraw) -> (OSDrawType, Seq<OSAnim>) {
    (d.command, d.animations@)
}

/// Once a draw command cannot be read, neither can the display.
proof fn lemma_draws_err(b: Seq<u8>, n: nat, m: nat)
    requires
        n <= m,
        spec_draws(b, n) is Err,
    ensures
        spec_draws(b, m) == spec_draws(b, n),
    decreases m,
{
    if n < m {
        lemma_draws_err(b, n, (m - 1) as nat);
    }
}

/// Once an animation slot cannot be read, neither can the draw command.
proof fn lemma_anims_err(b: Seq<u8>, i: int, k: nat, m: nat)
    requires
        k <= m,
        spec_draw_anims(b, i, k) is Err,
    ensures
        spec_draw_anims(b, i, m) == spec_draw_anims(b, i, k),
    decreases m,
{
    if k < m {
        lemma_anims_err(b, i, k, (m - 1) as nat);
    }
}

/// Reads the animations in the first `count` slots of draw command `i`.
fn read_draw_anims(buf: &[u8], i: usize, count: usize) -> (r: Result<Vec<OSAnim>, OsError>)
    requires
        buf@.len() == OS_SIZE,
        i < OS_DRAW_COUNT,
        count <= OS_DRAW_ANIM_COUNT,
    ensures
        match spec_draw_anims(buf@, i as int, count as nat) {
            Err(e) => r == Err::<Vec<OSAnim>, OsError>(e),
            Ok(a) => r matches Ok(v) && v@ == a,
        },
{
    let mut out: Vec<OSAnim> = Vec::new();
    let mut j: usize = 0;
    while j < count
        invariant
            buf@.len() == OS_SIZE,
            i < OS_DRAW_COUNT,
            count <= 16,
            j <= count,
            spec_draw_anims(buf@, i as int, j as nat) matches Ok(a) && out@ == a,
        decreases count - j,
    {
        assert(os_anims_at() + OS_ANIM_SIZE * (OS_DRAW_ANIM_COUNT * i + j) + OS_ANIM_SIZE <= OS_SIZE) by (nonlinear_arith)
            requires
                i < 112,
                j < 16,
        ;
        match OSAnim::import(buf, 4 + OS_DRAW_SIZE * OS_DRAW_COUNT + OS_ANIM_SIZE * (OS_DRAW_ANIM_COUNT * i + j)) {
            Err(e) => {
                proof {
                    lemma_anims_err(buf@, i as int, (j + 1) as nat, count as nat);
                }
                return Err(e);
            },
            Ok(None) => {},
            Ok(Some(a)) => {
                out.push(a);
            },
        }
        j = j + 1;
    }
    Ok(out)
}

impl OS {
    /// Reads an on-screen display: its duration, then 112 draw records,
    /// then 16 animation slots per draw record.
    pub fn import(buf: &[u8]) -> (r: Result<OS, OsError>)
        ensures
            buf@.len() != OS_SIZE ==> r == Err::<OS, OsError>(OsError::WrongSize),
            buf@.len() == OS_SIZE ==> match spec_draws(buf@, OS_DRAW_COUNT as nat) {
                Err(e) => r == Err::<OS, OsError>(e),
                Ok(v) => r matches Ok(os) && os.duration_frames == le32(buf@, 0) && os.draw_commands@.map_values(
                    |d: OSDraw| draw_view(d),
                ) == v,
            },
    {
        let n: usize = buf.len();
        if n != OS_SIZE {
            return Err(OsError::WrongSize);
        }
        let duration_frames: u32 = read_u32_le(buf, 0);
        let mut draws: Vec<OSDraw> = Vec::new();
        let mut i: usize = 0;
        while i < OS_DRAW_COUNT
            invariant
                n == buf@.len(),
                n == OS_SIZE,
                i <= OS_DRAW_COUNT,
                spec_draws(buf@, i as nat) matches Ok(v) && draws@.map_values(|d: OSDraw| draw_view(d))
                    == v,
            decreases OS_DRAW_COUNT - i,
        {
            let ghost prev = draws@.map_values(|d: OSDraw| draw_view(d));
            let head = match OSDraw::import(buf, 4 + OS_DRAW_SIZE * i) {
                Err(e) => {
                    proof {
                        lemma_draws_err(buf@, (i + 1) as nat, OS_DRAW_COUNT as nat);
                    }
                    return Err(e);
                },
                Ok(h) => h,
            };
            match head {
                None => {},
                Some((draw, count)) => {
                    let anims = match read_draw_anims(buf, i, count) {
                        Err(e) => {
                            proof {
                                lemma_draws_err(buf@, (i + 1) as nat, OS_DRAW_COUNT as nat);
                            }
                            return Err(e);
                        },
                        Ok(a) => a,
                    };
                    let d = OSDraw { command: draw.command, animations: anims };
                    draws.push(d);
                    assert(draws@.map_values(|d: OSDraw| draw_view(d)) =~= prev.push(
                        draw_view(draws@[draws@.len() - 1]),
                    ));
                },
            }
            i = i + 1;
        }
        Ok(OS { duration_frames, draw_commands: draws })
    }
}

/// A line of a lines definition: its two ends (`f32` bits).
#[derive(Clone, Copy, PartialEq, Eq, Debug)]
pub struct Line(pub (u32, u32), pub (u32, u32));

pub open spec fn spec_line(b: Seq<u8>, at: int) -> Line {
    Line(pair_at(b, at), pair_at(b, at + 8))
}

/// The lines of entry `k` of the table `t` (a line count and a pointer per
/// entry), read from the executable `d` with sections `secs`.
pub open spec fn linesdef_entry(d: Seq<u8>, secs: Seq<SectionView>, t: Seq<u8>, k: int) -> Result<
    Seq<Line>,
    IoError,
> {
    let count = le32(t, 8 * k);
    if count == 0 {
        Ok(Seq::empty())
    } else {
        match spec_pointer_offset(secs, le32(t, 8 * k + 4) as u32) {
            Err(e) => Err(e),
            Ok(o) => if o + 16 * count > d.len() {
                Err(IoError::UnexpectedEof)
            } else {
                Ok(Seq::new(count, |j: int| spec_line(d, o + 16 * j)))
            },
        }
    }
}

/// The first `n` entries of the table `t`; the first entry that cannot be
/// read decides the error.
pub open spec fn linesdefs(d: Seq<u8>, secs: Seq<SectionView>, t: Seq<u8>, n: nat) -> Result<
    Seq<Seq<Line>>,
    IoError,
>
    decreases n,
{
    if n == 0 {
        Ok(Seq::empty())
    } else {
        match linesdefs(d, secs, t, (n - 1) as nat) {
            Err(e) => Err(e),
            Ok(prev) => match linesdef_entry(d, secs, t, n - 1) {
                Err(e) => Err(e),
                Ok(lines) => Ok(prev.push(lines)),
            },
        }
    }
}

proof fn lemma_linesdefs_err(d: Seq<u8>, secs: Seq<SectionView>, t: Seq<u8>, n: nat, m: nat)
    requires
        n <= m,
        linesdefs(d, secs, t, n) is Err,
    ensures
        linesdefs(d, secs, t, m) == linesdefs(d, secs, t, n),
    decreases m,
{
    if n < m {
        lemma_linesdefs_err(d, secs, t, n, (m - 1) as nat);
    }
}

/// The bytes of the lines, one after the other.
pub open spec fn lines_bytes(ls: Seq<Line>) -> Seq<u8>
    decreases ls.len(),
{
    if ls.len() == 0 {
        Seq::empty()
    } else {
        lines_bytes(ls.drop_last()) + pair_bytes(ls.last().0) + pair_bytes(ls.last().1)
    }
}

/// The bytes of the entries: each entry's line count (as `u32`) and lines.
pub open spec fn entries_bytes(es: Seq<Seq<Line>>) -> Seq<u8>
    decreases es.len(),
{
    if es.len() == 0 {
        Seq::empty()
    } else {
        entries_bytes(es.drop_last()) + bytes32((es.last().len() as u32) as nat) + lines_bytes(es.last())
    }
}

fn read_lines(b: &[u8], count: usize) -> (r: Vec<Line>)
    requires
        16 * count <= b@.len(),
    ensures
        r@ == Seq::new(count as nat, |j: int| spec_line(b@, 16 * j)),
{
    let n: usize = b.len();
    let mut out: Vec<Line> = Vec::with_capacity(count);
    let mut j: usize = 0;
    while j < count
        invariant
            n == b@.len(),
            16 * count <= b@.len(),
            j <= count,
            out@ == Seq::new(j as nat, |m: int| spec_line(b@, 16 * m)),
        decreases count - j,
    {
        assert(16 * j + 16 <= 16 * count);
        out.push(Line(read_pair(b, 16 * j), read_pair(b, 16 * j + 8)));
        j = j + 1;
        assert(out@ =~= Seq::new(j as nat, |m: int| spec_line(b@, 16 * m)));
    }
    out
}

proof fn lemma_subrange_line(d: Seq<u8>, o: int, n: int, j: int)
    requires
        0 <= o,
        o + n <= d.len(),
        0 <= j,
        16 * j + 16 <= n,
    ensures
        spec_line(d.subrange(o, o + n), 16 * j) == spec_line(d, o + 16 * j),
{
    lemma_subrange_le32(d, o, n, 16 * j);
    lemma_subrange_le32(d, o, n, 16 * j + 4);
    lemma_subrange_le32(d, o, n, 16 * j + 8);
    lemma_subrange_le32(d, o, n, 16 * j + 12);
}

/// Appends the lines, one after the other.
fn write_lines(lines: &Vec<Line>, writer: &mut Vec<u8>)
    ensures
        final(writer)@ == old(writer)@ + lines_bytes(lines@),
{
    let ghost w1 = writer@;
    let mut j: usize = 0;
    while j < lines.len()
        invariant
            j <= lines@.len(),
            writer@ == w1 + lines_bytes(lines@.take(j as int)),
        decreases lines@.len() - j,
    {
        push_pair(writer, lines[j].0);
        push_pair(writer, lines[j].1);
        proof {
            assert(lines@.take(j + 1).drop_last() =~= lines@.take(j as int));
        }
        j = j + 1;
    }
    assert(lines@.take(j as int) =~= lines@);
}

impl Line {
    /// Reads `entry_count` lines definitions: a table of line counts and
    /// pointers at `offset` of the named section, and the lines behind each
    /// pointer. The reader ends after the last lines read.
    pub fn import_linesdefs(xbe: &mut XBE, section_name: &str, offset: u32, entry_count: usize) -> (r:
        Result<Vec<Vec<Line>>, IoError>)
        requires
            entry_count <= 0xFFFF,
        ensures
            final(xbe).same_image(old(xbe)),
            ({
                let d = old(xbe).reader.data();
                let secs = old(xbe).sections();
                match spec_section_offset(old(xbe).names(), secs, section_name@, offset) {
                    Err(e) => r == Err::<Vec<Vec<Line>>, IoError>(e),
                    Ok(p) => if p + 8 * entry_count > d.len() {
                        r == Err::<Vec<Vec<Line>>, IoError>(IoError::UnexpectedEof)
                    } else {
                        match linesdefs(d, secs, d.subrange(p as int, p + 8 * entry_count), entry_count as nat) {
                            Err(e) => r == Err::<Vec<Vec<Line>>, IoError>(e),
                            Ok(v) => r matches Ok(x) && x@.map_values(|l: Vec<Line>| l@) == v,
                        }
                    },
                }
            }),
    {
        let ghost d = xbe.reader.data();
        let ghost secs = xbe.sections();
        match xbe.seek_section_offset(section_name, offset) {
            Err(e) => {
                return Err(e);
            },
            Ok(_) => {},
        }
        let ghost p = xbe.reader.pos();
        let n: usize = xbe.reader.len();
        let table = match xbe.reader.read_exact(8 * entry_count) {
            Err(e) => {
                return Err(e);
            },
            Ok(t) => t,
        };
        let mut entries: Vec<Vec<Line>> = Vec::with_capacity(entry_count);
        let mut k: usize = 0;
        while k < entry_count
            invariant
                xbe.same_image(old(xbe)),
                d == old(xbe).reader.data(),
                secs == old(xbe).sections(),
                n == d.len(),
                spec_section_offset(old(xbe).names(), secs, section_name@, offset) == Ok::<u64, IoError>(p as u64),
                p + 8 * entry_count <= d.len(),
                table@ == d.subrange(p as int, p + 8 * entry_count),
                table@.len() == 8 * entry_count,
                k <= entry_count,
                linesdefs(d, secs, table@, k as nat) matches Ok(v) && entries@.map_values(
                    |l: Vec<Line>| l@,
                ) == v,
            decreases entry_count - k,
        {
            let ghost prev = entries@.map_values(|l: Vec<Line>| l@);
            let count: u32 = read_u32_le(table.as_slice(), 8 * k);
            let ptr: u32 = read_u32_le(table.as_slice(), 8 * k + 4);
            let mut lines: Vec<Line> = Vec::new();
            if count > 0 {
                match xbe.seek_pointer_offset(ptr) {
                    Err(e) => {
                        proof {
                            lemma_linesdefs_err(d, secs, table@, (k + 1) as nat, entry_count as nat);
                        }
                        return Err(e);
                    },
                    Ok(_) => {},
                }
                let ghost o = xbe.reader.pos();
                if count as u64 > (n / 16) as u64 {
                    proof {
                        lemma_linesdefs_err(d, secs, table@, (k + 1) as nat, entry_count as nat);
                    }
                    return Err(IoError::UnexpectedEof);
                }
                let bytes = match xbe.reader.read_exact(16 * count as usize) {
                    Err(e) => {
                        proof {
                            lemma_linesdefs_err(d, secs, table@, (k + 1) as nat, entry_count as nat);
                        }
                        return Err(e);
                    },
                    Ok(b) => b,
                };
                lines = read_lines(bytes.as_slice(), count as usize);
                proof {
                    assert forall|j: int| 0 <= j < count implies #[trigger] lines@[j] == spec_line(
                        d,
                        o + 16 * j,
                    ) by {
                        lemma_subrange_line(d, o as int, 16 * count, j);
                    }
                    assert(lines@ =~= Seq::new(count as nat, |j: int| spec_line(d, o + 16 * j)));
                }
            } else {
                assert(lines@ =~= Seq::<Line>::empty());
            }
            entries.push(lines);
            k = k + 1;
            assert(entries@.map_values(|l: Vec<Line>| l@) =~= prev.push(entries@[entries@.len() - 1]@));
        }
        assert(table@ == d.subrange(p as int, p + 8 * entry_count));
        Ok(entries)
    }

    /// Appends the entry count and, per entry, its line count and lines.
    pub fn write_linesdefs(entries: &Vec<Vec<Line>>, writer: &mut Vec<u8>)
        ensures
            final(writer)@ == old(writer)@ + bytes32((entries@.len() as u32) as nat) + entries_bytes(
                entries@.map_values(|l: Vec<Line>| l@),
            ),
    {
        let ghost es = entries@.map_values(|l: Vec<Line>| l@);
        #[verifier::truncate]
        let n: u32 = entries.len() as u32;
        push_u32_le(writer, n);
        let ghost w0 = writer@;
        let mut k: usize = 0;
        while k < entries.len()
            invariant
                k <= entries@.len(),
                es == entries@.map_values(|l: Vec<Line>| l@),
                writer@ == w0 + entries_bytes(es.take(k as int)),
            decreases entries@.len() - k,
        {
            let lines = &entries[k];
            #[verifier::truncate]
            let c: u32 = lines.len() as u32;
            push_u32_le(writer, c);
            write_lines(lines, writer);
            proof {
                assert(es.take(k + 1).drop_last() =~= es.take(k as int));
                assert(es.take(k + 1).last() == lines@);
            }
            k = k + 1;
        }
        assert(es.take(k as int) =~= es);
    }
}

pub const OS_SPRITE_SIZE: usize = 64;

/// A sprite's colour: an entry of the palette, or a colour (RGBA).
#[derive(Clone, Copy, PartialEq, Eq, Debug)]
pub enum OSSpriteColor {
    Pallete(u32),
    Color((u8, u8, u8, u8)),
}

/// A sprite of the cockpit's displays: its texture and frame, where it is
/// drawn, its origin and size, rotation and scale (`f32` bits), and its
/// colour.
#[derive(Clone, Copy, PartialEq, Eq, Debug)]
pub struct OSSprite {
    pub ui_idx: u32,
    pub frame_idx: u32,
    pub position: (u32, u32),
    pub origin: (u32, u32),
    pub size: (u32, u32),
    pub rotation_bits: u32,
    pub scale_bits: u32,
    pub color: OSSpriteColor,
}

/// The first place of `x` in `s` from `i` on, or the length of `s`.
pub open spec fn first_index(s: Seq<u32>, x: u32, i: int) -> int
    decreases s.len() - i,
{
    if i >= s.len() {
        s.len() as int
    } else if s[i] == x {
        i
    } else {
        first_index(s, x, i + 1)
    }
}

proof fn lemma_first_index(s: Seq<u32>, x: u32, i: int)
    requires
        0 <= i <= s.len(),
    ensures
        i <= first_index(s, x, i) <= s.len(),
        first_index(s, x, i) < s.len() ==> s[first_index(s, x, i)] == x,
        forall|j: int| i <= j < first_index(s, x, i) ==> s[j] != x,
    decreases s.len() - i,
{
    if i < s.len() && s[i] != x {
        lemma_first_index(s, x, i + 1);
    }
}

/// The sprite record at `at`, whose colour pointer is found in `pointers`.
pub open spec fn spec_sprite(b: Seq<u8>, at: int, pointers: Seq<u32>) -> OSSprite {
    OSSprite {
        ui_idx: le32(b, at) as u32,
        frame_idx: le32(b, at + 4) as u32,
        position: pair_at(b, at + 8),
        origin: pair_at(b, at + 16),
        size: pair_at(b, at + 24),
        rotation_bits: bits_at(b, at + 32),
        scale_bits: bits_at(b, at + 36),
        color: OSSpriteColor::Pallete(first_index(pointers, le32(b, at + 52) as u32, 0) as u32),
    }
}

proof fn lemma_subrange_sprite(d: Seq<u8>, p: int, n: int, at: int, pointers: Seq<u32>)
    requires
        0 <= p,
        p + n <= d.len(),
        0 <= at,
        at + 64 <= n,
    ensures
        spec_sprite(d.subrange(p, p + n), at, pointers) == spec_sprite(d, p + at, pointers),
        le32(d.subrange(p, p + n), at + 52) == le32(d, p + at + 52),
{
    lemma_subrange_le32(d, p, n, at);
    lemma_subrange_le32(d, p, n, at + 4);
    lemma_subrange_le32(d, p, n, at + 8);
    lemma_subrange_le32(d, p, n, at + 12);
    lemma_subrange_le32(d, p, n, at + 16);
    lemma_subrange_le32(d, p, n, at + 20);
    lemma_subrange_le32(d, p, n, at + 24);
    lemma_subrange_le32(d, p, n, at + 28);
    lemma_subrange_le32(d, p, n, at + 32);
    lemma_subrange_le32(d, p, n, at + 36);
    lemma_subrange_le32(d, p, n, at + 52);
}

impl OSSprite {
    /// Reads the sprite record at `at`; its colour is the first palette
    /// entry of `color_pointers` that equals its colour pointer. `None`
    /// where no entry does.
    pub fn import(buf: &[u8], at: usize, color_pointers: &[u32]) -> (r: Option<OSSprite>)
        requires
            at + OS_SPRITE_SIZE <= buf@.len(),
        ensures
            r is Some <==> color_pointers@.contains(le32(buf@, at + 52) as u32),
            r matches Some(x) ==> x == spec_sprite(buf@, at as int, color_pointers@),
    {
        let n: usize = buf.len();
        assert(at + 64 <= n);
        let pointer: u32 = read_u32_le(buf, at + 52);
        let mut k: usize = 0;
        while k < color_pointers.len() && color_pointers[k] != pointer
            invariant
                k <= color_pointers@.len(),
                forall|j: int| 0 <= j < k ==> color_pointers@[j] != pointer,
            decreases color_pointers@.len() - k,
        {
            k = k + 1;
        }
        proof {
            lemma_first_index(color_pointers@, pointer, 0);
        }
        if k >= color_pointers.len() {
            assert(!color_pointers@.contains(pointer));
            return None;
        }
        proof {
            let f = first_index(color_pointers@, pointer, 0);
            if f < k {
                assert(color_pointers@[f] != pointer);
            }
            if f > k {
                assert(color_pointers@[k as int] != pointer);
            }
        }
        assert(k == first_index(color_pointers@, pointer, 0));
        #[verifier::truncate]
        let palette: u32 = k as u32;
        Some(
            OSSprite {
                ui_idx: read_u32_le(buf, at),
                frame_idx: read_u32_le(buf, at + 4),
                position: read_pair(buf, at + 8),
                origin: read_pair(buf, at + 16),
                size: read_pair(buf, at + 24),
                rotation_bits: read_u32_le(buf, at + 32),
                scale_bits: read_u32_le(buf, at + 36),
                color: OSSpriteColor::Pallete(palette),
            },
        )
    }

    /// Reads `count` sprite records at `offset` of the named section.
    /// `None` where a colour pointer is not in `color_pointers`.
    pub fn import_multiple(
        xbe: &mut XBE,
        section_name: &str,
        offset: u32,
        count: usize,
        color_pointers: &[u32],
    ) -> (r: Option<Result<Vec<OSSprite>, IoError>>)
        requires
            count <= 0xFFFF,
        ensures
            final(xbe).same_image(old(xbe)),
            ({
                let d = old(xbe).reader.data();
                match spec_section_offset(old(xbe).names(), old(xbe).sections(), section_name@, offset) {
                    Err(e) => r == Some(Err::<Vec<OSSprite>, IoError>(e)),
                    Ok(p) => if p + OS_SPRITE_SIZE * count > d.len() {
                        r == Some(Err::<Vec<OSSprite>, IoError>(IoError::UnexpectedEof))
                    } else {
                        &&& (r is Some <==> forall|k: int|
                            0 <= k < count ==> color_pointers@.contains(
                                #[trigger] le32(d, p + OS_SPRITE_SIZE * k + 52) as u32,
                            ))
                        &&& (r matches Some(x) ==> (x matches Ok(v) && v@.len() == count && forall|k: int|
                            0 <= k < count ==> #[trigger] v@[k] == spec_sprite(
                                d,
                                p + OS_SPRITE_SIZE * k,
                                color_pointers@,
                            )))
                    },
                }
            }),
    {
        let ghost d = xbe.reader.data();
        match xbe.seek_section_offset(section_name, offset) {
            Err(e) => {
                return Some(Err(e));
            },
            Ok(_) => {},
        }
        let p: u64 = xbe.reader.stream_position();
        let bytes = match xbe.reader.read_exact(OS_SPRITE_SIZE * count) {
            Err(e) => {
                return Some(Err(e));
            },
            Ok(b) => b,
        };
        let mut sprites: Vec<OSSprite> = Vec::with_capacity(count);
        let mut k: usize = 0;
        while k < count
            invariant
                xbe.same_image(old(xbe)),
                d == old(xbe).reader.data(),
                spec_section_offset(old(xbe).names(), old(xbe).sections(), section_name@, offset) == Ok::<u64, IoError>(p),
                bytes@ == d.subrange(p as int, p + OS_SPRITE_SIZE * count),
                p + OS_SPRITE_SIZE * count <= d.len(),
                k <= count,
                sprites@.len() == k,
                forall|j: int|
                    0 <= j < k ==> color_pointers@.contains(
                        #[trigger] le32(d, p + OS_SPRITE_SIZE * j + 52) as u32,
                    ),
                forall|j: int|
                    0 <= j < k ==> #[trigger] sprites@[j] == spec_sprite(
                        d,
                        p + OS_SPRITE_SIZE * j,
                        color_pointers@,
                    ),
            decreases count - k,
        {
            assert(OS_SPRITE_SIZE * k + OS_SPRITE_SIZE <= OS_SPRITE_SIZE * count);
            proof {
                lemma_subrange_sprite(d, p as int, OS_SPRITE_SIZE * count, OS_SPRITE_SIZE * k, color_pointers@);
            }
            match OSSprite::import(bytes.as_slice(), OS_SPRITE_SIZE * k, color_pointers) {
                None => {
                    assert(!color_pointers@.contains(le32(d, p + OS_SPRITE_SIZE * k + 52) as u32));
                    return None;
                },
                Some(x) => {
                    sprites.push(x);
                },
            }
            k = k + 1;
        }
        Some(Ok(sprites))
    }
}

pub const LIGHT_SIZE: usize = 16;

pub const POINT_LIGHT_SIZE: usize = 32;

pub const SCENE_LIGHT_SIZE: usize = 40;

/// A light's colour (RGB) and energy, as `f32` bits (the export scales the
/// colour of point lights).
#[derive(Clone, Copy, PartialEq, Eq, Debug)]
pub struct Light {
    pub color_bits: (u32, u32, u32),
    pub energy_bits: u32,
}

/// A light at a position of the cockpit (`f32` bits, unscaled and not yet
/// moved by the cockpit's position).
#[derive(Clone, Copy, PartialEq, Eq, Debug)]
pub struct PointLight {
    pub position_bits: (u32, u32, u32),
    pub light: Light,
}

/// The lighting of a cockpit's scene: ambient light, sun light and the
/// sun's yaw and pitch (`f32` bits).
#[derive(Clone, Copy, PartialEq, Eq, Debug)]
pub struct SceneLight {
    pub ambient_light: Light,
    pub sun_light: Light,
    pub sun_yaw_bits: u32,
    pub sun_pitch_bits: u32,
}

pub open spec fn spec_light(b: Seq<u8>, at: int) -> Light {
    Light { color_bits: position_at(b, at), energy_bits: bits_at(b, at + 12) }
}

pub open spec fn spec_point_light(b: Seq<u8>, at: int) -> PointLight {
    PointLight { position_bits: position_at(b, at + 4), light: spec_light(b, at + 16) }
}

pub open spec fn spec_scene_light(b: Seq<u8>, at: int) -> SceneLight {
    SceneLight {
        ambient_light: spec_light(b, at),
        sun_light: spec_light(b, at + 16),
        sun_yaw_bits: bits_at(b, at + 32),
        sun_pitch_bits: bits_at(b, at + 36),
    }
}

impl Light {
    pub fn import(buf: &[u8], at: usize) -> (r: Light)
        requires
            at + LIGHT_SIZE <= buf@.len(),
        ensures
            r == spec_light(buf@, at as int),
    {
        let n: usize = buf.len();
        assert(at + 16 <= n);
        Light { color_bits: read_position(buf, at), energy_bits: read_u32_le(buf, at + 12) }
    }
}

impl PointLight {
    pub fn import(buf: &[u8], at: usize) -> (r: PointLight)
        requires
            at + POINT_LIGHT_SIZE <= buf@.len(),
        ensures
            r == spec_point_light(buf@, at as int),
    {
        let n: usize = buf.len();
        assert(at + 32 <= n);
        PointLight { position_bits: read_position(buf, at + 4), light: Light::import(buf, at + 16) }
    }
}

impl SceneLight {
    pub fn import(buf: &[u8], at: usize) -> (r: SceneLight)
        requires
            at + SCENE_LIGHT_SIZE <= buf@.len(),
        ensures
            r == spec_scene_light(buf@, at as int),
    {
        let n: usize = buf.len();
        assert(at + 40 <= n);
        SceneLight {
            ambient_light: Light::import(buf, at),
            sun_light: Light::import(buf, at + 16),
            sun_yaw_bits: read_u32_le(buf, at + 32),
            sun_pitch_bits: read_u32_le(buf, at + 36),
        }
    }
}

/// The point lights of a cockpit.
pub struct COC {
    pub idx: usize,
    pub lights: Vec<PointLight>,
}

/// The scene lighting of a cockpit.
pub struct AMB {
    pub idx: usize,
    pub light: SceneLight,
}

impl COC {
    /// Reads the point lights of file `idx`: a count, then the lights.
    /// `None` where the data ends first.
    pub fn import(buf: &[u8], idx: usize) -> (r: Option<COC>)
        ensures
            r is Some <==> buf@.len() >= 4 && 4 + POINT_LIGHT_SIZE * le32(buf@, 0) <= buf@.len(),
            r matches Some(c) ==> c.idx == idx && c.lights@ == Seq::new(
                le32(buf@, 0),
                |k: int| spec_point_light(buf@, 4 + POINT_LIGHT_SIZE * k),
            ),
    {
        let n: usize = buf.len();
        if n < 4 {
            return None;
        }
        let count: usize = read_u32_le(buf, 0) as usize;
        if (n - 4) / POINT_LIGHT_SIZE < count {
            return None;
        }
        let mut lights: Vec<PointLight> = Vec::with_capacity(count);
        let mut k: usize = 0;
        while k < count
            invariant
                n == buf@.len(),
                count == le32(buf@, 0),
                4 + POINT_LIGHT_SIZE * count <= n,
                k <= count,
                lights@ == Seq::new(k as nat, |m: int| spec_point_light(buf@, 4 + POINT_LIGHT_SIZE * m)),
            decreases count - k,
        {
            assert(4 + POINT_LIGHT_SIZE * k + POINT_LIGHT_SIZE <= 4 + POINT_LIGHT_SIZE * count);
            lights.push(PointLight::import(buf, 4 + POINT_LIGHT_SIZE * k));
            k = k + 1;
            assert(lights@ =~= Seq::new(k as nat, |m: int| spec_point_light(buf@, 4 + POINT_LIGHT_SIZE * m)));
        }
        Some(COC { idx, lights })
    }
}

impl AMB {
    /// Reads the scene lighting of file `idx`; `None` where the data is
    /// shorter than a scene light.
    pub fn import(buf: &[u8], idx: usize) -> (r: Option<AMB>)
        ensures
            r is Some <==> buf@.len() >= SCENE_LIGHT_SIZE,
            r matches Some(a) ==> a.idx == idx && a.light == spec_scene_light(buf@, 0),
    {
        if buf.len() < SCENE_LIGHT_SIZE {
            return None;
        }
        Some(AMB { idx, light: SceneLight::import(buf, 0) })
    }
}

/// A scene light from a time on (in frames).
#[derive(Clone, Copy, PartialEq, Eq, Debug)]
pub struct SceneLightFrame(pub u32, pub SceneLight);

/// A point light from a time on (in frames).
#[derive(Clone, Copy, PartialEq, Eq, Debug)]
pub struct PointLightFrame(pub u32, pub PointLight);

/// How a cockpit's lighting changes: its scene light frames, and the
/// frames of each point light.
pub struct LightingAnimation {
    pub scene_frames: Vec<SceneLightFrame>,
    pub point_frames: Vec<Vec<PointLightFrame>>,
}

/// The lighting animations of the cockpits, and the most point lights any
/// of them has.
pub struct CockpitLighting {
    pub point_light_max: usize,
    pub animations: Vec<LightingAnimation>,
}

impl CockpitLighting {
    pub fn new() -> (r: CockpitLighting)
        ensures
            r.point_light_max == 0,
            r.animations@.len() == 0,
    {
        CockpitLighting { point_light_max: 0, animations: Vec::new() }
    }

    /// Adds an animation; the most point lights grows to its count.
    pub fn add_animation(&mut self, animation: LightingAnimation)
        ensures
            final(self).animations@ == old(self).animations@.push(animation),
            final(self).point_light_max == if animation.point_frames@.len() > old(
                self,
            ).point_light_max {
                animation.point_frames@.len()
            } else {
                old(self).point_light_max as nat
            },
    {
        if animation.point_frames.len() > self.point_light_max {
            self.point_light_max = animation.point_frames.len();
        }
        self.animations.push(animation);
    }

    /// Adds the still lighting of a scene light and point lights: one frame
    /// at time zero for the scene and for each point light.
    pub fn add_amb_coc(&mut self, amb: &AMB, coc: &COC)
        ensures
            final(self).animations@.len() == old(self).animations@.len() + 1,
            forall|k: int|
                0 <= k < old(self).animations@.len() ==> #[trigger] final(self).animations@[k]
                    == old(self).animations@[k],
            ({
                let a = final(self).animations@.last();
                &&& a.scene_frames@ == seq![SceneLightFrame(0, amb.light)]
                &&& a.point_frames@.len() == coc.lights@.len()
                &&& forall|k: int|
                    0 <= k < coc.lights@.len() ==> #[trigger] a.point_frames@[k]@ == seq![
                        PointLightFrame(0, coc.lights@[k]),
                    ]
            }),
            final(self).point_light_max == if coc.lights@.len() > old(self).point_light_max {
                coc.lights@.len()
            } else {
                old(self).point_light_max as nat
            },
    {
        let mut point_frames: Vec<Vec<PointLightFrame>> = Vec::with_capacity(coc.lights.len());
        let mut k: usize = 0;
        while k < coc.lights.len()
            invariant
                k <= coc.lights@.len(),
                point_frames@.len() == k,
                forall|m: int|
                    0 <= m < k ==> #[trigger] point_frames@[m]@ == seq![PointLightFrame(0, coc.lights@[m])],
            decreases coc.lights@.len() - k,
        {
            let mut one: Vec<PointLightFrame> = Vec::with_capacity(1);
            one.push(PointLightFrame(0, coc.lights[k]));
            assert(one@ =~= seq![PointLightFrame(0, coc.lights@[k as int])]);
            point_frames.push(one);
            k = k + 1;
        }
        let mut scene_frames: Vec<SceneLightFrame> = Vec::with_capacity(1);
        scene_frames.push(SceneLightFrame(0, amb.light));
        assert(scene_frames@ =~= seq![SceneLightFrame(0, amb.light)]);
        self.add_animation(LightingAnimation { scene_frames, point_frames });
    }
}

} // verus!
