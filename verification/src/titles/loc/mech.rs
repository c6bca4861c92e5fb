//! Mechs of the second title: the weapon loadouts that the executable holds
//! for each mech.
use vstd::prelude::*;

use crate::bbtools::xbe::{spec_pointer_offset, spec_section_offset, spec_u32_table, SectionView, XBE};
use crate::bbtools::stg::bits_at;
use crate::bytes::{
    clipped, le16, le32, lemma_with_prefix_empty_rest, lemma_with_prefix_join, list_outcome, read_u16_le,
    read_u32_le, until_delim, with_prefix, ByteReader, IoError,
};
use crate::bbtools::eff::{placed_effects, position_at, read_position, EffectPosition};
use crate::bbtools::obj::{opt_id, spec_loc_a, spec_pointer_records, MechModelConfig, ModelConfig, RecordKind};
use crate::bbtools::{godot_bytes, pascal_bytes, write_godot_path, write_pascal_string};
use crate::bytes::{bytes16, bytes32, lemma_concat_step, push_u16_le, push_u32_le};
use crate::decimal::{dec, zero_pad};
use crate::titles::sb::numbered_name;
use crate::titles::loc::wep::{names_entry, push_path_at, opt_path_bytes, push_opt_path, push_triple, triple_bytes};

verus! {

pub const MECH_COUNT: usize = 35;

pub const LOADOUT_SLOT_COUNT: usize = 9;

/// The weapons a mech can carry, which it starts with, which are fixed, its
/// tanks, and its class.
pub struct Loadout {
    pub mwep_ids: Vec<u8>,
    pub mwep_presets: [u8; 3],
    pub mwep_fixeds: [bool; 3],
    pub swep_ids: Vec<u8>,
    pub swep_presets: [u8; 3],
    pub swep_fixeds: [bool; 3],
    pub tank_count_max: u8,
    pub tank_count_preset: u8,
    /// 0 light, 1 medium, 2 heavy.
    pub weight_type: u8,
    /// 0 standard, 1 support, 2 scout, 3 assault.
    pub class_type: u8,
    pub profile_description: u8,
    pub mounts: u8,
}

/// The entries of a list that are not terminators (values below `0xFE`).
pub open spec fn kept(s: Seq<u8>) -> Seq<u8>
    decreases s.len(),
{
    if s.len() == 0 {
        Seq::empty()
    } else if s.last() < 0xFE {
        kept(s.drop_last()).push(s.last())
    } else {
        kept(s.drop_last())
    }
}

/// The index of the first `v` in `s` from `i` on.
pub open spec fn first_index(s: Seq<u8>, v: u8, i: int) -> Option<int>
    decreases s.len() - i,
{
    if i < 0 || i >= s.len() {
        None
    } else if s[i] == v {
        Some(i)
    } else {
        first_index(s, v, i + 1)
    }
}

/// The slot of weapon `v` in the list `ids`, as a byte, or `0xFF` when it is
/// not there.
pub open spec fn preset_index(ids: Seq<u8>, v: u8) -> u8 {
    match first_index(ids, v, 0) {
        Some(i) => i as u8,
        None => 0xFF,
    }
}

/// The tank counts of a raw tank list: the entries kept, each plus one.
pub open spec fn tank_counts(raw: Seq<u8>) -> Seq<u8> {
    kept(raw).map_values(|v: u8| (v + 1) as u8)
}

/// The largest entry, or 0 for none.
pub open spec fn max_or_zero(s: Seq<u8>) -> u8
    decreases s.len(),
{
    if s.len() == 0 {
        0
    } else {
        let m = max_or_zero(s.drop_last());
        if s.last() > m {
            s.last()
        } else {
            m
        }
    }
}

/// What a mech's loadout is read from: its three raw lists (each up to and
/// with its `0xFE` terminator), its preset and fixed slots, and its class
/// bytes.
pub struct LoadoutParts {
    pub mweps: Seq<u8>,
    pub sweps: Seq<u8>,
    pub tanks: Seq<u8>,
    pub preset: Seq<u8>,
    pub fixed: Seq<u8>,
    pub weight_type: u8,
    pub class_type: u8,
    pub profile_description: u8,
    pub mounts: u8,
}

/// `l` is the loadout made of `p`.
pub open spec fn loadout_matches(l: Loadout, p: LoadoutParts) -> bool {
    let tanks = tank_counts(p.tanks);
    &&& l.mwep_ids@ == kept(p.mweps)
    &&& l.swep_ids@ == kept(p.sweps)
    &&& forall|j: int|
        0 <= j < 3 ==> #[trigger] l.mwep_presets@[j] == preset_index(kept(p.mweps), p.preset[j])
    &&& forall|j: int|
        0 <= j < 3 ==> #[trigger] l.swep_presets@[j] == preset_index(kept(p.sweps), p.preset[3 + j])
    &&& forall|j: int| 0 <= j < 3 ==> #[trigger] l.mwep_fixeds@[j] == (p.fixed[j] != 0)
    &&& forall|j: int| 0 <= j < 3 ==> #[trigger] l.swep_fixeds@[j] == (p.fixed[3 + j] != 0)
    &&& l.tank_count_max == max_or_zero(tanks)
    &&& l.tank_count_preset == if p.preset[7] < tanks.len() {
        tanks[p.preset[7] as int]
    } else {
        0u8
    }
    &&& l.weight_type == p.weight_type
    &&& l.class_type == p.class_type
    &&& l.profile_description == p.profile_description
    &&& l.mounts == p.mounts
}

fn keep_entries(raw: &[u8]) -> (r: Vec<u8>)
    ensures
        r@ == kept(raw@),
{
    let mut out: Vec<u8> = Vec::new();
    let mut i: usize = 0;
    while i < raw.len()
        invariant
            i <= raw@.len(),
            out@ == kept(raw@.subrange(0, i as int)),
        decreases raw@.len() - i,
    {
        assert(raw@.subrange(0, i + 1).drop_last() =~= raw@.subrange(0, i as int));
        if raw[i] < 0xFE {
            out.push(raw[i]);
        }
        i = i + 1;
    }
    assert(raw@.subrange(0, raw@.len() as int) =~= raw@);
    out
}

fn find_preset(ids: &[u8], v: u8) -> (r: u8)
    ensures
        r == preset_index(ids@, v),
{
    let mut i: usize = 0;
    while i < ids.len()
        invariant
            i <= ids@.len(),
            first_index(ids@, v, 0) == first_index(ids@, v, i as int),
        decreases ids@.len() - i,
    {
        if ids[i] == v {
            return i as u8;
        }
        i = i + 1;
    }
    0xFF
}

impl Loadout {
    /// Makes a mech's loadout from what the executable holds for it (see
    /// `loadout_matches`).
    pub fn from_parts(
        mwep_raw: &[u8],
        swep_raw: &[u8],
        tanks_raw: &[u8],
        preset: &[u8],
        fixed: &[u8],
        weight_type: u8,
        class_type: u8,
        profile_description: u8,
        mounts: u8,
    ) -> (r: Self)
        requires
            preset@.len() == LOADOUT_SLOT_COUNT,
            fixed@.len() == LOADOUT_SLOT_COUNT,
        ensures
            loadout_matches(
                r,
                LoadoutParts {
                    mweps: mwep_raw@,
                    sweps: swep_raw@,
                    tanks: tanks_raw@,
                    preset: preset@,
                    fixed: fixed@,
                    weight_type,
                    class_type,
                    profile_description,
                    mounts,
                },
            ),
    {
        let mwep_ids = keep_entries(mwep_raw);
        let swep_ids = keep_entries(swep_raw);
        let kept_tanks = keep_entries(tanks_raw);
        proof {
            lemma_kept_below(tanks_raw@);
        }
        let mut tanks: Vec<u8> = Vec::new();
        let mut max: u8 = 0;
        let mut i: usize = 0;
        while i < kept_tanks.len()
            invariant
                i <= kept_tanks@.len(),
                kept_tanks@ == kept(tanks_raw@),
                tanks@ == kept_tanks@.subrange(0, i as int).map_values(|v: u8| (v + 1) as u8),
                max == max_or_zero(tanks@),
                forall|j: int| 0 <= j < kept_tanks@.len() ==> kept_tanks@[j] < 0xFE,
            decreases kept_tanks@.len() - i,
        {
            let t: u8 = kept_tanks[i].wrapping_add(1);
            let ghost before = tanks@;
            tanks.push(t);
            assert(tanks@.drop_last() =~= before);
            if t > max {
                max = t;
            }
            i = i + 1;
            assert(tanks@ =~= kept_tanks@.subrange(0, i as int).map_values(|v: u8| (v + 1) as u8));
        }
        assert(kept_tanks@.subrange(0, kept_tanks@.len() as int) =~= kept_tanks@);
        let tank_count_preset: u8 = if (preset[7] as usize) < tanks.len() {
            tanks[preset[7] as usize]
        } else {
            0
        };
        let mwep_presets: [u8; 3] = [
            find_preset(mwep_ids.as_slice(), preset[0]),
            find_preset(mwep_ids.as_slice(), preset[1]),
            find_preset(mwep_ids.as_slice(), preset[2]),
        ];
        let swep_presets: [u8; 3] = [
            find_preset(swep_ids.as_slice(), preset[3]),
            find_preset(swep_ids.as_slice(), preset[4]),
            find_preset(swep_ids.as_slice(), preset[5]),
        ];
        let mwep_fixeds: [bool; 3] = [fixed[0] != 0, fixed[1] != 0, fixed[2] != 0];
        let swep_fixeds: [bool; 3] = [fixed[3] != 0, fixed[4] != 0, fixed[5] != 0];
        Loadout {
            mwep_ids,
            mwep_presets,
            mwep_fixeds,
            swep_ids,
            swep_presets,
            swep_fixeds,
            tank_count_max: max,
            tank_count_preset,
            weight_type,
            class_type,
            profile_description,
            mounts,
        }
    }
}

/// A preset slot names the first place of its weapon in the list.
pub proof fn lemma_preset_index(ids: Seq<u8>, v: u8)
    requires
        ids.len() <= 0xFF,
    ensures
        preset_index(ids, v) != 0xFF ==> preset_index(ids, v) < ids.len() && ids[preset_index(ids, v) as int]
            == v,
        preset_index(ids, v) == 0xFF ==> forall|j: int| 0 <= j < ids.len() ==> ids[j] != v,
{
    lemma_first_index(ids, v, 0);
}

pub proof fn lemma_first_index(s: Seq<u8>, v: u8, i: int)
    requires
        0 <= i,
    ensures
        first_index(s, v, i) matches Some(k) ==> i <= k < s.len() && s[k] == v && forall|j: int|
            i <= j < k ==> s[j] != v,
        first_index(s, v, i) is None ==> forall|j: int| i <= j < s.len() ==> s[j] != v,
    decreases s.len() - i,
{
    if i < s.len() && s[i] != v {
        lemma_first_index(s, v, i + 1);
    }
}

pub proof fn lemma_kept_below(s: Seq<u8>)
    ensures
        forall|j: int| 0 <= j < kept(s).len() ==> kept(s)[j] < 0xFE,
    decreases s.len(),
{
    if s.len() > 0 {
        lemma_kept_below(s.drop_last());
        let k = kept(s.drop_last());
        if s.last() < 0xFE {
            assert forall|j: int| 0 <= j < kept(s).len() implies kept(s)[j] < 0xFE by {
                if j < k.len() {
                    assert(kept(s)[j] == k[j]);
                }
            }
        }
    }
}

/// `bytes` followed by `fill` up to nine bytes.
pub open spec fn padded(bytes: Seq<u8>, fill: u8) -> Seq<u8> {
    bytes + Seq::new((LOADOUT_SLOT_COUNT - bytes.len()) as nat, |i: int| fill)
}

/// The preset slots behind a pointer: none set (`0xFF`) for a null pointer,
/// else the up to nine bytes there, the rest unset.
pub open spec fn preset_at(data: Seq<u8>, secs: Seq<SectionView>, ptr: u32) -> Result<Seq<u8>, IoError> {
    if ptr == 0 {
        Ok(padded(Seq::empty(), 0xFF))
    } else {
        match spec_pointer_offset(secs, ptr) {
            Err(e) => Err(e),
            Ok(p) => Ok(padded(clipped(data, p as int, p + LOADOUT_SLOT_COUNT), 0xFF)),
        }
    }
}

/// The presets behind the first `n` pointers of `t`, or the first error.
pub open spec fn presets_from(data: Seq<u8>, secs: Seq<SectionView>, t: Seq<u32>, n: nat) -> Result<
    Seq<Seq<u8>>,
    IoError,
>
    decreases n,
{
    if n == 0 {
        Ok(Seq::empty())
    } else {
        match presets_from(data, secs, t, (n - 1) as nat) {
            Err(e) => Err(e),
            Ok(prev) => match preset_at(data, secs, t[n - 1]) {
                Err(e) => Err(e),
                Ok(p) => Ok(prev.push(p)),
            },
        }
    }
}

/// The fixed slots behind a pointer: the up to nine bytes there, the rest
/// zero; all zero for a null pointer or one that no section lies under.
pub open spec fn fixed_at(data: Seq<u8>, secs: Seq<SectionView>, ptr: u32) -> Seq<u8> {
    match spec_pointer_offset(secs, ptr) {
        Ok(p) => if ptr != 0 {
            padded(clipped(data, p as int, p + LOADOUT_SLOT_COUNT), 0)
        } else {
            padded(Seq::empty(), 0)
        },
        Err(_) => padded(Seq::empty(), 0),
    }
}

/// The raw list behind a pointer: empty for a null pointer, else the bytes
/// up to and with the first `0xFE` (or the end of the data).
pub open spec fn list_at(data: Seq<u8>, secs: Seq<SectionView>, ptr: u32) -> Result<Seq<u8>, IoError> {
    if ptr == 0 {
        Ok(Seq::empty())
    } else {
        match spec_pointer_offset(secs, ptr) {
            Err(e) => Err(e),
            Ok(p) => Ok(
                if p >= data.len() {
                    Seq::empty()
                } else {
                    data.subrange(p as int, until_delim(data, p as int, 0xFE))
                },
            ),
        }
    }
}

/// What reading loadout records comes to: an error, a mount count that
/// does not fit in a byte (where the reader stops), or the records.
pub enum RecordsRead {
    Failed(IoError),
    BadMount,
    Read(Seq<LoadoutParts>),
}

/// The 24-byte loadout record at `pos`: three list pointers, five bytes
/// skipped, weight, class and profile bytes, and the mount count.
pub open spec fn record_at(data: Seq<u8>, secs: Seq<SectionView>, pos: int, preset: Seq<u8>, fixed: Seq<u8>) -> RecordsRead {
    if pos + 24 > data.len() {
        RecordsRead::Failed(IoError::UnexpectedEof)
    } else if le32(data, pos + 20) > u8::MAX {
        RecordsRead::BadMount
    } else {
        match list_at(data, secs, le32(data, pos) as u32) {
            Err(e) => RecordsRead::Failed(e),
            Ok(mweps) => match list_at(data, secs, le32(data, pos + 4) as u32) {
                Err(e) => RecordsRead::Failed(e),
                Ok(sweps) => match list_at(data, secs, le32(data, pos + 8) as u32) {
                    Err(e) => RecordsRead::Failed(e),
                    Ok(tanks) => RecordsRead::Read(
                        seq![
                            LoadoutParts {
                                mweps,
                                sweps,
                                tanks,
                                preset,
                                fixed,
                                weight_type: data[pos + 17],
                                class_type: data[pos + 18],
                                profile_description: data[pos + 19],
                                mounts: le32(data, pos + 20) as u8,
                            },
                        ],
                    ),
                },
            },
        }
    }
}

/// The first `n` records from `base`, one every 24 bytes, or the first
/// failure.
pub open spec fn records_from(
    data: Seq<u8>,
    secs: Seq<SectionView>,
    base: int,
    presets: Seq<Seq<u8>>,
    fixeds: Seq<Seq<u8>>,
    n: nat,
) -> RecordsRead
    decreases n,
{
    if n == 0 {
        RecordsRead::Read(Seq::empty())
    } else {
        match records_from(data, secs, base, presets, fixeds, (n - 1) as nat) {
            RecordsRead::Read(prev) => match record_at(
                data,
                secs,
                base + 24 * (n - 1),
                presets[n - 1],
                fixeds[n - 1],
            ) {
                RecordsRead::Read(one) => RecordsRead::Read(prev + one),
                other => other,
            },
            other => other,
        }
    }
}

pub proof fn lemma_records_fail_stays(
    data: Seq<u8>,
    secs: Seq<SectionView>,
    base: int,
    presets: Seq<Seq<u8>>,
    fixeds: Seq<Seq<u8>>,
    k: nat,
    m: nat,
)
    requires
        k <= m,
        !(records_from(data, secs, base, presets, fixeds, k) is Read),
    ensures
        records_from(data, secs, base, presets, fixeds, m) == records_from(data, secs, base, presets, fixeds, k),
    decreases m,
{
    if k < m {
        lemma_records_fail_stays(data, secs, base, presets, fixeds, k, (m - 1) as nat);
    }
}

pub proof fn lemma_presets_err_stays(data: Seq<u8>, secs: Seq<SectionView>, t: Seq<u32>, k: nat, m: nat)
    requires
        k <= m,
        presets_from(data, secs, t, k) is Err,
    ensures
        presets_from(data, secs, t, m) == presets_from(data, secs, t, k),
    decreases m,
{
    if k < m {
        lemma_presets_err_stays(data, secs, t, k, (m - 1) as nat);
    }
}

pub proof fn lemma_presets_shape(data: Seq<u8>, secs: Seq<SectionView>, t: Seq<u32>, n: nat)
    ensures
        presets_from(data, secs, t, n) matches Ok(w) ==> w.len() == n && forall|j: int|
            0 <= j < n ==> (#[trigger] w[j]).len() == LOADOUT_SLOT_COUNT,
    decreases n,
{
    if n > 0 {
        lemma_presets_shape(data, secs, t, (n - 1) as nat);
    }
}

/// What reading the loadouts of the executable `x` comes to: the preset
/// table, the fixed table, then the records.
pub open spec fn spec_loadouts(x: XBE) -> RecordsRead {
    let data = x.reader.data();
    let secs = x.sections();
    match spec_u32_table(data, x.names(), secs, ".data"@, 0x61D70, MECH_COUNT as nat) {
        Err(e) => RecordsRead::Failed(e),
        Ok(t1) => match presets_from(data, secs, t1, MECH_COUNT as nat) {
            Err(e) => RecordsRead::Failed(e),
            Ok(presets) => match spec_u32_table(data, x.names(), secs, ".data"@, 0x61E00, MECH_COUNT as nat) {
                Err(e) => RecordsRead::Failed(e),
                Ok(t2) => match spec_section_offset(x.names(), secs, ".data"@, 0x668E0) {
                    Err(e) => RecordsRead::Failed(e),
                    Ok(base) => records_from(
                        data,
                        secs,
                        base as int,
                        presets,
                        Seq::new(MECH_COUNT as nat, |i: int| fixed_at(data, secs, t2[i])),
                        MECH_COUNT as nat,
                    ),
                },
            },
        },
    }
}

/// The result of reading the loadouts, as `spec_loadouts` gives it.
pub open spec fn loadouts_read(x: XBE, r: Option<Result<Vec<Loadout>, IoError>>) -> bool {
    match spec_loadouts(x) {
        RecordsRead::Failed(e) => r == Some(Err::<Vec<Loadout>, IoError>(e)),
        RecordsRead::BadMount => r is None,
        RecordsRead::Read(parts) => r matches Some(Ok(v)) && v@.len() == parts.len() && forall|i: int|
            0 <= i < parts.len() ==> #[trigger] loadout_matches(v@[i], parts[i]),
    }
}

/// Nine bytes read at the reader's position, and `fill` where the data ends.
fn read_slots(reader: &mut ByteReader, fill: u8) -> (r: Vec<u8>)
    ensures
        final(reader).data() == old(reader).data(),
        r@ == padded(clipped(old(reader).data(), old(reader).pos() as int, old(reader).pos() + LOADOUT_SLOT_COUNT), fill),
{
    let mut out = reader.read_some(LOADOUT_SLOT_COUNT);
    let ghost got = out@;
    proof {
        assert(got.len() <= LOADOUT_SLOT_COUNT);
    }
    while out.len() < LOADOUT_SLOT_COUNT
        invariant
            got.len() <= out@.len() <= LOADOUT_SLOT_COUNT,
            out@ == got + Seq::new((out@.len() - got.len()) as nat, |i: int| fill),
        decreases LOADOUT_SLOT_COUNT - out@.len(),
    {
        out.push(fill);
        assert(out@ =~= got + Seq::new((out@.len() - got.len()) as nat, |i: int| fill));
    }
    out
}

/// The raw list behind a pointer (see `list_at`).
fn read_list(xbe: &mut XBE, ptr: u32) -> (r: Result<Vec<u8>, IoError>)
    ensures
        final(xbe).same_image(old(xbe)),
        match (r, list_at(old(xbe).reader.data(), old(xbe).sections(), ptr)) {
            (Ok(v), Ok(w)) => v@ == w,
            (Err(e), Err(f)) => e == f,
            _ => false,
        },
{
    if ptr == 0 {
        return Ok(Vec::new());
    }
    match xbe.seek_pointer_offset(ptr) {
        Err(e) => Err(e),
        Ok(_) => Ok(xbe.reader.read_until(0xFE)),
    }
}

impl Loadout {
    /// Reads the loadouts of all mechs from the executable. `None` stands
    /// for a record whose mount count does not fit in a byte (see
    /// `spec_loadouts`).
    pub fn try_import(xbe: &mut XBE) -> (r: Option<Result<Vec<Self>, IoError>>)
        ensures
            final(xbe).same_image(old(xbe)),
            loadouts_read(*old(xbe), r),
    {
        let ghost x0 = *xbe;
        let ghost data = x0.reader.data();
        let ghost secs = x0.sections();
        /*** Presets ***/
        let t1 = match xbe.read_u32_table(".data", 0x61D70, MECH_COUNT) {
            Ok(t) => t,
            Err(e) => {
                return Some(Err(e));
            },
        };
        let mut presets: Vec<Vec<u8>> = Vec::with_capacity(MECH_COUNT);
        let mut i: usize = 0;
        while i < MECH_COUNT
            invariant
                i <= MECH_COUNT,
                t1@.len() == MECH_COUNT,
                xbe.same_image(&x0),
                x0 == *old(xbe),
                data == x0.reader.data(),
                secs == x0.sections(),
                spec_u32_table(data, x0.names(), secs, ".data"@, 0x61D70, MECH_COUNT as nat) == Ok::<
                    Seq<u32>,
                    IoError,
                >(t1@),
                presets_from(data, secs, t1@, i as nat) matches Ok(w) && presets@.len() == w.len()
                    && forall|j: int| 0 <= j < w.len() ==> (#[trigger] presets@[j])@ == w[j],
            decreases MECH_COUNT - i,
        {
            let ptr: u32 = t1[i];
            let preset: Vec<u8> = if ptr != 0 {
                match xbe.seek_pointer_offset(ptr) {
                    Err(e) => {
                        proof {
                            lemma_presets_err_stays(data, secs, t1@, (i + 1) as nat, MECH_COUNT as nat);
                        }
                        return Some(Err(e));
                    },
                    Ok(_) => {},
                }
                read_slots(&mut xbe.reader, 0xFF)
            } else {
                let v = read_slots_empty(0xFF);
                v
            };
            presets.push(preset);
            i = i + 1;
        }
        /*** Fixed slots ***/
        let t2 = match xbe.read_u32_table(".data", 0x61E00, MECH_COUNT) {
            Ok(t) => t,
            Err(e) => {
                return Some(Err(e));
            },
        };
        let ghost fs = Seq::new(MECH_COUNT as nat, |k: int| fixed_at(data, secs, t2@[k]));
        let mut fixeds: Vec<Vec<u8>> = Vec::with_capacity(MECH_COUNT);
        let mut i: usize = 0;
        while i < MECH_COUNT
            invariant
                i <= MECH_COUNT,
                t2@.len() == MECH_COUNT,
                xbe.same_image(&x0),
                data == x0.reader.data(),
                secs == x0.sections(),
                fs == Seq::new(MECH_COUNT as nat, |k: int| fixed_at(data, secs, t2@[k])),
                fixeds@.len() == i,
                forall|j: int| 0 <= j < i ==> (#[trigger] fixeds@[j])@ == fs[j],
            decreases MECH_COUNT - i,
        {
            let ptr: u32 = t2[i];
            let fixed: Vec<u8> = if ptr != 0 && xbe.seek_pointer_offset(ptr).is_ok() {
                read_slots(&mut xbe.reader, 0)
            } else {
                read_slots_empty(0)
            };
            fixeds.push(fixed);
            i = i + 1;
        }
        /*** Records ***/
        let base: u64 = match xbe.seek_section_offset(".data", 0x668E0) {
            Ok(p) => p,
            Err(e) => {
                return Some(Err(e));
            },
        };
        let ghost ps = presets_from(data, secs, t1@, MECH_COUNT as nat)->Ok_0;
        proof {
            lemma_presets_shape(data, secs, t1@, MECH_COUNT as nat);
        }
        assert(spec_loadouts(x0) == records_from(data, secs, base as int, ps, fs, MECH_COUNT as nat));
        let mut loadouts: Vec<Loadout> = Vec::with_capacity(MECH_COUNT);
        let mut i: usize = 0;
        while i < MECH_COUNT
            invariant
                i <= MECH_COUNT,
                xbe.same_image(&x0),
                x0 == *old(xbe),
                data == x0.reader.data(),
                secs == x0.sections(),
                base <= 0x2_0000_0000,
                xbe.reader.pos() == base + 24 * i,
                spec_loadouts(x0) == records_from(data, secs, base as int, ps, fs, MECH_COUNT as nat),
                presets@.len() == MECH_COUNT,
                ps.len() == MECH_COUNT,
                forall|j: int| 0 <= j < MECH_COUNT ==> (#[trigger] ps[j]).len() == LOADOUT_SLOT_COUNT,
                forall|j: int| 0 <= j < MECH_COUNT ==> (#[trigger] fs[j]).len() == LOADOUT_SLOT_COUNT,
                forall|j: int| 0 <= j < MECH_COUNT ==> (#[trigger] presets@[j])@ == ps[j],
                fixeds@.len() == MECH_COUNT,
                forall|j: int| 0 <= j < MECH_COUNT ==> (#[trigger] fixeds@[j])@ == fs[j],
                records_from(data, secs, base as int, ps, fs, i as nat) matches RecordsRead::Read(w)
                    && loadouts@.len() == w.len() && forall|j: int|
                    0 <= j < w.len() ==> #[trigger] loadout_matches(loadouts@[j], w[j]),
            decreases MECH_COUNT - i,
        {
            let ghost pos = xbe.reader.pos() as int;
            proof {
                if pos + 24 > data.len() {
                    lemma_records_fail_stays(data, secs, base as int, ps, fs, (i + 1) as nat, MECH_COUNT as nat);
                }
            }
            let mweps_pointer = match xbe.reader.read_u32() {
                Ok(v) => v,
                Err(e) => {
                    return Some(Err(e));
                },
            };
            let sweps_pointer = match xbe.reader.read_u32() {
                Ok(v) => v,
                Err(e) => {
                    return Some(Err(e));
                },
            };
            let tanks_pointer = match xbe.reader.read_u32() {
                Ok(v) => v,
                Err(e) => {
                    return Some(Err(e));
                },
            };
            match xbe.reader.seek_relative(5) {
                Ok(_) => {},
                Err(e) => {
                    return Some(Err(e));
                },
            }
            let weight_type = match xbe.reader.read_u8() {
                Ok(v) => v,
                Err(e) => {
                    return Some(Err(e));
                },
            };
            let class_type = match xbe.reader.read_u8() {
                Ok(v) => v,
                Err(e) => {
                    return Some(Err(e));
                },
            };
            let profile_description = match xbe.reader.read_u8() {
                Ok(v) => v,
                Err(e) => {
                    return Some(Err(e));
                },
            };
            let mounts = match xbe.reader.read_u32() {
                Ok(v) => v,
                Err(e) => {
                    return Some(Err(e));
                },
            };
            if mounts > 0xFF {
                proof {
                    lemma_records_fail_stays(data, secs, base as int, ps, fs, (i + 1) as nat, MECH_COUNT as nat);
                }
                return None;
            }
            let here: u64 = xbe.reader.stream_position();
            let mweps = match read_list(xbe, mweps_pointer) {
                Ok(v) => v,
                Err(e) => {
                    proof {
                        lemma_records_fail_stays(data, secs, base as int, ps, fs, (i + 1) as nat, MECH_COUNT as nat);
                    }
                    return Some(Err(e));
                },
            };
            let sweps = match read_list(xbe, sweps_pointer) {
                Ok(v) => v,
                Err(e) => {
                    proof {
                        lemma_records_fail_stays(data, secs, base as int, ps, fs, (i + 1) as nat, MECH_COUNT as nat);
                    }
                    return Some(Err(e));
                },
            };
            let tanks = match read_list(xbe, tanks_pointer) {
                Ok(v) => v,
                Err(e) => {
                    proof {
                        lemma_records_fail_stays(data, secs, base as int, ps, fs, (i + 1) as nat, MECH_COUNT as nat);
                    }
                    return Some(Err(e));
                },
            };
            xbe.reader.seek(here);
            let loadout = Loadout::from_parts(
                mweps.as_slice(),
                sweps.as_slice(),
                tanks.as_slice(),
                presets[i].as_slice(),
                fixeds[i].as_slice(),
                weight_type,
                class_type,
                profile_description,
                mounts as u8,
            );
            loadouts.push(loadout);
            i = i + 1;
        }
        Some(Ok(loadouts))
    }

    /// Reads the loadouts of all mechs, where every mount count fits in a
    /// byte (see `try_import`).
    pub fn import(xbe: &mut XBE) -> (r: Result<Vec<Self>, IoError>)
        requires
            !(spec_loadouts(*old(xbe)) is BadMount),
        ensures
            final(xbe).same_image(old(xbe)),
            loadouts_read(*old(xbe), Some(r)),
    {
        match Self::try_import(xbe) {
            Some(r) => r,
            None => vstd::pervasive::unreached(),
        }
    }
}

/// Nine bytes of `fill`.
fn read_slots_empty(fill: u8) -> (r: Vec<u8>)
    ensures
        r@ == padded(Seq::empty(), fill),
{
    let mut out: Vec<u8> = Vec::with_capacity(LOADOUT_SLOT_COUNT);
    while out.len() < LOADOUT_SLOT_COUNT
        invariant
            out@.len() <= LOADOUT_SLOT_COUNT,
            out@ == Seq::new(out@.len(), |i: int| fill),
        decreases LOADOUT_SLOT_COUNT - out@.len(),
    {
        out.push(fill);
        assert(out@ =~= Seq::new(out@.len(), |i: int| fill));
    }
    assert(padded(Seq::empty(), fill) =~= out@);
    out
}

pub const ENGINE_DATA_SIZE: usize = 192;

/// The bits of the `f32` 10000.0, the secondary tank of mechs without one.
pub const NO_SUB_TANK_BITS: u32 = 0x461C_4000;

/// The generation of each cockpit type.
pub open spec fn mech_generation(cockpit_type: u8) -> u8 {
    if cockpit_type == 1 || cockpit_type == 3 || cockpit_type == 5 {
        1
    } else if cockpit_type == 2 {
        2
    } else {
        0
    }
}

/// The bits of an `f32` that compares greater than zero: a positive number
/// (normal, subnormal or infinite), not zero and not NaN.
pub open spec fn positive_bits(v: u32) -> bool {
    0 < v <= 0x7F80_0000
}

/// The engine and body of a mech, as its engine file holds them. Values are
/// the `f32` bits of the file, unscaled; the export writes them as they
/// are.
pub struct EngineData {
    pub id: u8,
    pub weight_bits: u32,
    pub tier_r_bits: u32,
    /// Reverse, then first to fifth gear.
    pub gears_bits: Vec<u32>,
    pub gear_f_bits: u32,
    pub brake_bits: u32,
    pub rpm_min_bits: u32,
    /// Revolutions and torque.
    pub override_multiplier: (u32, u32),
    pub wheel_torque_bits: u32,
    pub wheel_start_speed_bits: u32,
    pub drag_coefficient_bits: u32,
    pub rpm_rate_bits: u32,
    /// Width and height.
    pub drag_size: (u32, u32),
    pub internal_resistance_bits: u32,
    /// Four points of revolutions and torque.
    pub engine_curve: Vec<(u32, u32)>,
    pub turn_speed_bits: u32,
    pub balancer_bits: u32,
    pub health_torso: u16,
    pub health_leg_l: u16,
    pub health_leg_r: u16,
    pub health_opt_armor: u16,
    pub tank_capacity_main_bits: u32,
    pub tank_capacity_sub_bits: u32,
    pub resistance_front_bits: u32,
    pub resistance_side_bits: u32,
    pub resistance_rear_bits: u32,
    pub cockpit_type: u8,
    pub ticket_cost: u8,
    pub slope_gear_a: u8,
    pub slope_gear_b: u8,
    pub loadout_weight_max: u8,
    pub loadout_weight_standard: u8,
}

/// The engine record at `at` is valid: its id, ticket cost, slope gears
/// and loadout weights fit a byte and its cockpit type is one of six.
pub open spec fn engine_ok(b: Seq<u8>, at: int) -> bool {
    &&& le32(b, at) <= 0xFF
    &&& le32(b, at + 156) < 6
    &&& le32(b, at + 160) <= 0xFF
    &&& le32(b, at + 164) <= 0xFF
    &&& le32(b, at + 168) <= 0xFF
    &&& le32(b, at + 176) <= 0xFF
    &&& le32(b, at + 180) <= 0xFF
}

/// `e` holds the engine record at `at`; a secondary tank that is not
/// positive becomes 10000.
pub open spec fn engine_matches(e: EngineData, b: Seq<u8>, at: int) -> bool {
    &&& e.id == le32(b, at)
    &&& e.weight_bits == bits_at(b, at + 4)
    &&& e.tier_r_bits == bits_at(b, at + 8)
    &&& e.gears_bits@ == Seq::new(6, |k: int| bits_at(b, at + 12 + 4 * k))
    &&& e.gear_f_bits == bits_at(b, at + 36)
    &&& e.brake_bits == bits_at(b, at + 40)
    &&& e.rpm_min_bits == bits_at(b, at + 44)
    &&& e.override_multiplier == (bits_at(b, at + 48), bits_at(b, at + 52))
    &&& e.wheel_torque_bits == bits_at(b, at + 56)
    &&& e.wheel_start_speed_bits == bits_at(b, at + 60)
    &&& e.drag_coefficient_bits == bits_at(b, at + 64)
    &&& e.rpm_rate_bits == bits_at(b, at + 68)
    &&& e.drag_size == (bits_at(b, at + 76), bits_at(b, at + 72))
    &&& e.internal_resistance_bits == bits_at(b, at + 80)
    &&& e.engine_curve@ == Seq::new(4, |k: int| (bits_at(b, at + 84 + 8 * k), bits_at(b, at + 88 + 8 * k)))
    &&& e.turn_speed_bits == bits_at(b, at + 116)
    &&& e.balancer_bits == bits_at(b, at + 120)
    &&& e.health_torso == le16(b, at + 124)
    &&& e.health_leg_l == le16(b, at + 126)
    &&& e.health_leg_r == le16(b, at + 128)
    &&& e.health_opt_armor == le16(b, at + 130)
    &&& e.tank_capacity_main_bits == bits_at(b, at + 136)
    &&& e.tank_capacity_sub_bits == if positive_bits(bits_at(b, at + 140)) {
        bits_at(b, at + 140)
    } else {
        NO_SUB_TANK_BITS
    }
    &&& e.resistance_front_bits == bits_at(b, at + 148)
    &&& e.resistance_side_bits == bits_at(b, at + 184)
    &&& e.resistance_rear_bits == bits_at(b, at + 188)
    &&& e.cockpit_type == le32(b, at + 156)
    &&& e.ticket_cost == le32(b, at + 160)
    &&& e.slope_gear_a == le32(b, at + 164)
    &&& e.slope_gear_b == le32(b, at + 168)
    &&& e.loadout_weight_max == le32(b, at + 176)
    &&& e.loadout_weight_standard == le32(b, at + 180)
}

impl EngineData {
    /// Reads the engine record at `at`; `None` where it is not valid (see
    /// `engine_ok`).
    pub fn from(buf: &[u8], at: usize) -> (r: Option<EngineData>)
        requires
            at + ENGINE_DATA_SIZE <= buf@.len(),
        ensures
            r is Some <==> engine_ok(buf@, at as int),
            r matches Some(e) ==> engine_matches(e, buf@, at as int),
    {
        let n: usize = buf.len();
        assert(at + 192 <= n);
        let id: u32 = read_u32_le(buf, at);
        let cockpit_type: u32 = read_u32_le(buf, at + 156);
        let ticket_cost: u32 = read_u32_le(buf, at + 160);
        let slope_gear_a: u32 = read_u32_le(buf, at + 164);
        let slope_gear_b: u32 = read_u32_le(buf, at + 168);
        let weight_max: u32 = read_u32_le(buf, at + 176);
        let weight_standard: u32 = read_u32_le(buf, at + 180);
        if id > 0xFF || cockpit_type >= 6 || ticket_cost > 0xFF || slope_gear_a > 0xFF || slope_gear_b
            > 0xFF || weight_max > 0xFF || weight_standard > 0xFF {
            return None;
        }
        let mut gears_bits: Vec<u32> = Vec::with_capacity(6);
        let mut k: usize = 0;
        while k < 6
            invariant
                n == buf@.len(),
                at + 192 <= n,
                k <= 6,
                gears_bits@ == Seq::new(k as nat, |m: int| bits_at(buf@, at + 12 + 4 * m)),
            decreases 6 - k,
        {
            gears_bits.push(read_u32_le(buf, at + 12 + 4 * k));
            k = k + 1;
            assert(gears_bits@ =~= Seq::new(k as nat, |m: int| bits_at(buf@, at + 12 + 4 * m)));
        }
        let mut engine_curve: Vec<(u32, u32)> = Vec::with_capacity(4);
        let mut k: usize = 0;
        while k < 4
            invariant
                n == buf@.len(),
                at + 192 <= n,
                k <= 4,
                engine_curve@ == Seq::new(
                    k as nat,
                    |m: int| (bits_at(buf@, at + 84 + 8 * m), bits_at(buf@, at + 88 + 8 * m)),
                ),
            decreases 4 - k,
        {
            engine_curve.push((read_u32_le(buf, at + 84 + 8 * k), read_u32_le(buf, at + 88 + 8 * k)));
            k = k + 1;
            assert(engine_curve@ =~= Seq::new(
                k as nat,
                |m: int| (bits_at(buf@, at + 84 + 8 * m), bits_at(buf@, at + 88 + 8 * m)),
            ));
        }
        let sub: u32 = read_u32_le(buf, at + 140);
        let tank_capacity_sub_bits: u32 = if 0 < sub && sub <= 0x7F80_0000 {
            sub
        } else {
            NO_SUB_TANK_BITS
        };
        Some(
            EngineData {
                id: id as u8,
                weight_bits: read_u32_le(buf, at + 4),
                tier_r_bits: read_u32_le(buf, at + 8),
                gears_bits,
                gear_f_bits: read_u32_le(buf, at + 36),
                brake_bits: read_u32_le(buf, at + 40),
                rpm_min_bits: read_u32_le(buf, at + 44),
                override_multiplier: (read_u32_le(buf, at + 48), read_u32_le(buf, at + 52)),
                wheel_torque_bits: read_u32_le(buf, at + 56),
                wheel_start_speed_bits: read_u32_le(buf, at + 60),
                drag_coefficient_bits: read_u32_le(buf, at + 64),
                rpm_rate_bits: read_u32_le(buf, at + 68),
                drag_size: (read_u32_le(buf, at + 76), read_u32_le(buf, at + 72)),
                internal_resistance_bits: read_u32_le(buf, at + 80),
                engine_curve,
                turn_speed_bits: read_u32_le(buf, at + 116),
                balancer_bits: read_u32_le(buf, at + 120),
                health_torso: read_u16_le(buf, at + 124),
                health_leg_l: read_u16_le(buf, at + 126),
                health_leg_r: read_u16_le(buf, at + 128),
                health_opt_armor: read_u16_le(buf, at + 130),
                tank_capacity_main_bits: read_u32_le(buf, at + 136),
                tank_capacity_sub_bits,
                resistance_front_bits: read_u32_le(buf, at + 148),
                resistance_side_bits: read_u32_le(buf, at + 184),
                resistance_rear_bits: read_u32_le(buf, at + 188),
                cockpit_type: cockpit_type as u8,
                ticket_cost: ticket_cost as u8,
                slope_gear_a: slope_gear_a as u8,
                slope_gear_b: slope_gear_b as u8,
                loadout_weight_max: weight_max as u8,
                loadout_weight_standard: weight_standard as u8,
            },
        )
    }

    /// The generation of the mech's cockpit type.
    pub fn get_generation(&self) -> (r: u8)
        requires
            self.cockpit_type < 6,
        ensures
            r == mech_generation(self.cockpit_type),
    {
        let generations: [u8; 6] = [0, 1, 2, 1, 0, 1];
        generations[self.cockpit_type as usize]
    }
}

/// Where entry `i` of the engine file starts: after the count, the 35
/// sizes and the entries before it.
pub open spec fn entry_pos(b: Seq<u8>, i: nat) -> int
    decreases i,
{
    if i == 0 {
        4 + 4 * MECH_COUNT
    } else {
        entry_pos(b, (i - 1) as nat) + le32(b, 4 + 4 * (i - 1))
    }
}

/// Where the engine records among the first `n` entries start: the
/// entries of another size are skipped.
pub open spec fn engine_starts(b: Seq<u8>, n: nat) -> Seq<int>
    decreases n,
{
    if n == 0 {
        Seq::empty()
    } else if le32(b, 4 + 4 * (n - 1)) == ENGINE_DATA_SIZE {
        engine_starts(b, (n - 1) as nat).push(entry_pos(b, (n - 1) as nat))
    } else {
        engine_starts(b, (n - 1) as nat)
    }
}

/// How reading the first `n` entries ends: all read, the data ends inside
/// a record, or a record is not valid; the first entry that fails decides.
pub enum EngineReadEnd {
    Done,
    Short,
    Invalid,
}

pub open spec fn engine_read_end(b: Seq<u8>, n: nat) -> EngineReadEnd
    decreases n,
{
    if n == 0 {
        EngineReadEnd::Done
    } else {
        match engine_read_end(b, (n - 1) as nat) {
            EngineReadEnd::Done => if le32(b, 4 + 4 * (n - 1)) != ENGINE_DATA_SIZE {
                EngineReadEnd::Done
            } else if entry_pos(b, (n - 1) as nat) + ENGINE_DATA_SIZE > b.len() {
                EngineReadEnd::Short
            } else if !engine_ok(b, entry_pos(b, (n - 1) as nat)) {
                EngineReadEnd::Invalid
            } else {
                EngineReadEnd::Done
            },
            e => e,
        }
    }
}

proof fn lemma_engine_end_stays(b: Seq<u8>, n: nat, m: nat)
    requires
        n <= m,
        !(engine_read_end(b, n) is Done),
    ensures
        engine_read_end(b, m) == engine_read_end(b, n),
    decreases m,
{
    if n < m {
        lemma_engine_end_stays(b, n, (m - 1) as nat);
    }
}

proof fn lemma_entry_pos_bound(b: Seq<u8>, i: nat)
    requires
        b.len() >= 4 + 4 * MECH_COUNT,
        i <= MECH_COUNT,
    ensures
        entry_pos(b, i) <= 4 + 4 * MECH_COUNT + 0xFFFF_FFFF * i,
        entry_pos(b, i) >= 4 + 4 * MECH_COUNT,
    decreases i,
{
    if i > 0 {
        lemma_entry_pos_bound(b, (i - 1) as nat);
        crate::bytes::lemma_le32_bound(b, 4 + 4 * (i - 1));
    }
}

impl EngineData {
    /// Reads the engine file: the entry count (35), the size of each entry,
    /// then the entries; entries of another size than a record are
    /// skipped. `None` where the count is not 35 or a record is not valid;
    /// `Err` where the data ends first.
    pub fn import(buf: &[u8]) -> (r: Option<Result<Vec<EngineData>, IoError>>)
        ensures
            buf@.len() < 4 ==> r == Some(Err::<Vec<EngineData>, IoError>(IoError::UnexpectedEof)),
            buf@.len() >= 4 && le32(buf@, 0) != MECH_COUNT ==> r is None,
            buf@.len() >= 4 && le32(buf@, 0) == MECH_COUNT && buf@.len() < 4 + 4 * MECH_COUNT ==> r == Some(
                Err::<Vec<EngineData>, IoError>(IoError::UnexpectedEof),
            ),
            buf@.len() >= 4 + 4 * MECH_COUNT && le32(buf@, 0) == MECH_COUNT ==> match engine_read_end(
                buf@,
                MECH_COUNT as nat,
            ) {
                EngineReadEnd::Short => r == Some(Err::<Vec<EngineData>, IoError>(IoError::UnexpectedEof)),
                EngineReadEnd::Invalid => r is None,
                EngineReadEnd::Done => r matches Some(Ok(v)) && v@.len() == engine_starts(
                    buf@,
                    MECH_COUNT as nat,
                ).len() && forall|k: int|
                    0 <= k < v@.len() ==> #[trigger] engine_matches(
                        v@[k],
                        buf@,
                        engine_starts(buf@, MECH_COUNT as nat)[k],
                    ),
            },
    {
        let n: usize = buf.len();
        if n < 4 {
            return Some(Err(IoError::UnexpectedEof));
        }
        if read_u32_le(buf, 0) as usize != MECH_COUNT {
            return None;
        }
        if n < 4 + 4 * MECH_COUNT {
            return Some(Err(IoError::UnexpectedEof));
        }
        let mut out: Vec<EngineData> = Vec::new();
        let mut pos: u64 = (4 + 4 * MECH_COUNT) as u64;
        let mut i: usize = 0;
        while i < MECH_COUNT
            invariant
                n == buf@.len(),
                n >= 4 + 4 * MECH_COUNT,
                le32(buf@, 0) == MECH_COUNT,
                i <= MECH_COUNT,
                pos == entry_pos(buf@, i as nat),
                engine_read_end(buf@, i as nat) is Done,
                out@.len() == engine_starts(buf@, i as nat).len(),
                forall|k: int|
                    0 <= k < out@.len() ==> #[trigger] engine_matches(
                        out@[k],
                        buf@,
                        engine_starts(buf@, i as nat)[k],
                    ),
            decreases MECH_COUNT - i,
        {
            proof {
                lemma_entry_pos_bound(buf@, i as nat);
                if i < MECH_COUNT {
                    lemma_entry_pos_bound(buf@, (i + 1) as nat);
                }
            }
            let size: u32 = read_u32_le(buf, 4 + 4 * i);
            if size as usize == ENGINE_DATA_SIZE {
                if pos > n as u64 || (n as u64) - pos < ENGINE_DATA_SIZE as u64 {
                    proof {
                        lemma_engine_end_stays(buf@, (i + 1) as nat, MECH_COUNT as nat);
                    }
                    return Some(Err(IoError::UnexpectedEof));
                }
                match EngineData::from(buf, pos as usize) {
                    None => {
                        proof {
                            lemma_engine_end_stays(buf@, (i + 1) as nat, MECH_COUNT as nat);
                        }
                        return None;
                    },
                    Some(e) => {
                        out.push(e);
                    },
                }
            }
            pos = pos + size as u64;
            i = i + 1;
        }
        Some(Ok(out))
    }
}


/// The size of a mech's parts record.
pub const MECH_PARTS_SIZE: usize = 32;

/// The body parts of a mech as the executable lists them: the mech's id
/// plus one, the `f32` bits of its collider's depth offset and size
/// (unscaled), its manipulator and weapon mount models, and a byte whose
/// use is unknown.
#[derive(Clone, Copy, PartialEq, Eq, Debug)]
pub struct MechParts {
    pub id: u8,
    pub collider_offset_z_bits: u32,
    pub manipulator: u8,
    pub collider_size_bits: (u32, u32, u32),
    pub weapon_mount: u8,
    pub _unknown: u8,
}

/// The parts record at `pos`: id, depth offset, manipulator, size (three
/// values), weapon mount, unknown, four bytes each.
pub open spec fn part_at(d: Seq<u8>, pos: int) -> MechParts {
    MechParts {
        id: le32(d, pos) as u8,
        collider_offset_z_bits: bits_at(d, pos + 4),
        manipulator: le32(d, pos + 8) as u8,
        collider_size_bits: position_at(d, pos + 12),
        weapon_mount: le32(d, pos + 24) as u8,
        _unknown: le32(d, pos + 28) as u8,
    }
}

/// What reading `n` parts records from `pos` of `d` comes to. The fields
/// are read in order and each id field must fit a byte: `None` at the
/// first that does not, `Err` where the data ends before a field.
pub open spec fn parts_from(d: Seq<u8>, pos: int, n: nat) -> Option<Result<Seq<MechParts>, IoError>>
    decreases n,
{
    if n == 0 {
        Some(Ok(Seq::empty()))
    } else if pos < 0 || pos + 4 > d.len() {
        Some(Err(IoError::UnexpectedEof))
    } else if le32(d, pos) > 0xFF {
        None
    } else if pos + 12 > d.len() {
        Some(Err(IoError::UnexpectedEof))
    } else if le32(d, pos + 8) > 0xFF {
        None
    } else if pos + 28 > d.len() {
        Some(Err(IoError::UnexpectedEof))
    } else if le32(d, pos + 24) > 0xFF {
        None
    } else if pos + 32 > d.len() {
        Some(Err(IoError::UnexpectedEof))
    } else if le32(d, pos + 28) > 0xFF {
        None
    } else {
        with_prefix(seq![part_at(d, pos)], parts_from(d, pos + 32, (n - 1) as nat))
    }
}

/// What reading the parts of all mechs from the executable `x` comes to.
pub open spec fn parts_read(x: XBE) -> Option<Result<Seq<MechParts>, IoError>> {
    match spec_section_offset(x.names(), x.sections(), ".data"@, 0x57A40) {
        Err(e) => Some(Err(e)),
        Ok(p) => parts_from(x.reader.data(), p as int, MECH_COUNT as nat),
    }
}

impl MechParts {
    /// Reads `count` parts records from `start` of `d` (see `parts_from`).
    pub fn from_bytes(d: &[u8], start: u64, count: usize) -> (r: Option<Result<Vec<MechParts>, IoError>>)
        ensures
            list_outcome(r) == parts_from(d@, start as int, count as nat),
    {
        let n: usize = d.len();
        let mut out: Vec<MechParts> = Vec::with_capacity(count);
        let mut pos: u64 = start;
        let mut i: usize = 0;
        while i < count
            invariant
                i <= count,
                n == d@.len(),
                parts_from(d@, start as int, count as nat) == with_prefix(
                    out@,
                    parts_from(d@, pos as int, (count - i) as nat),
                ),
            decreases count - i,
        {
            if pos > n as u64 || (n as u64) - pos < 4 {
                return Some(Err(IoError::UnexpectedEof));
            }
            let at: usize = pos as usize;
            let id: u32 = read_u32_le(d, at);
            if id > 0xFF {
                return None;
            }
            if n - at < 12 {
                return Some(Err(IoError::UnexpectedEof));
            }
            let manipulator: u32 = read_u32_le(d, at + 8);
            if manipulator > 0xFF {
                return None;
            }
            if n - at < 28 {
                return Some(Err(IoError::UnexpectedEof));
            }
            let weapon_mount: u32 = read_u32_le(d, at + 24);
            if weapon_mount > 0xFF {
                return None;
            }
            if n - at < 32 {
                return Some(Err(IoError::UnexpectedEof));
            }
            let unknown: u32 = read_u32_le(d, at + 28);
            if unknown > 0xFF {
                return None;
            }
            let part = MechParts {
                id: id as u8,
                collider_offset_z_bits: read_u32_le(d, at + 4),
                manipulator: manipulator as u8,
                collider_size_bits: read_position(d, at + 12),
                weapon_mount: weapon_mount as u8,
                _unknown: unknown as u8,
            };
            proof {
                assert(part == part_at(d@, pos as int));
                assert(parts_from(d@, pos as int, (count - i) as nat) == with_prefix(
                    seq![part],
                    parts_from(d@, pos + 32, (count - i - 1) as nat),
                ));
                lemma_with_prefix_join(out@, seq![part], parts_from(d@, pos + 32, (count - i - 1) as nat));
            }
            let ghost before = out@;
            out.push(part);
            assert(out@ =~= before + seq![part]);
            pos = pos + 32;
            i = i + 1;
        }
        proof {
            lemma_with_prefix_empty_rest(out@);
        }
        Some(Ok(out))
    }

    /// Reads the parts of all mechs from the executable (see `parts_read`).
    pub fn import(xbe: &mut XBE) -> (r: Option<Result<Vec<MechParts>, IoError>>)
        ensures
            final(xbe).same_image(old(xbe)),
            list_outcome(r) == parts_read(*old(xbe)),
    {
        let p: u64 = match xbe.seek_section_offset(".data", 0x57A40) {
            Err(e) => {
                return Some(Err(e));
            },
            Ok(p) => p,
        };
        MechParts::from_bytes(xbe.reader.as_slice(), p, MECH_COUNT)
    }
}

/// The offset in `.data` of the mech model records' pointer table.
pub const MECH_MODELS_OFFSET: u32 = 0x581C0;
/// The offset in `.data` of the weapon mount models' pointer table.
pub const WEAPON_MOUNTS_OFFSET: u32 = 0x5824C;
/// The number of weapon mount models.
pub const WEAPON_MOUNT_COUNT: usize = 6;
/// The offset in `.data` of the manipulator models' pointer table.
pub const MANIPULATORS_OFFSET: u32 = 0x58264;
/// The number of manipulator models.
pub const MANIPULATOR_COUNT: usize = 3;
/// The offset in `.data` of the mechs' eye effects.
pub const EYES_OFFSET: u32 = 0x56118;
/// The offset in `.data` of the mechs' manufacturers.
pub const MANUFACTURERS_OFFSET: u32 = 0x345C0;
/// The offset in `.data` of the mechs' paint colours.
pub const PAINT_OFFSET: u32 = 0x61E90;
/// Paint schemes per mech; the first is the mech's own models, each next
/// one the models two ids further.
pub const MECH_CAMO_COUNT: usize = 4;
/// Painted areas per scheme.
pub const MECH_PAINT_AREA_COUNT: usize = 11;
/// Colour components (hue, saturation, lightness, as `f32` bits) per mech.
pub const MECH_PAINT_BITS: usize = 132;

/// The tables of the executable that mechs are assembled from: models,
/// weapon mounts, manipulators, loadouts, parts, eye effects,
/// manufacturers and paint colours (as `f32` bits).
pub struct MechTables {
    pub mech_models: Vec<MechModelConfig>,
    pub weapon_mounts: Vec<ModelConfig>,
    pub manipulators: Vec<ModelConfig>,
    pub loadouts: Vec<Loadout>,
    pub parts: Vec<MechParts>,
    pub eyes: Vec<Option<EffectPosition>>,
    pub manufacturers: Vec<u32>,
    pub paint_bits: Vec<u32>,
}

/// `v` are the mech model records `w`.
pub open spec fn mech_models_match(v: Seq<MechModelConfig>, w: Seq<Seq<u8>>) -> bool {
    &&& v.len() == w.len()
    &&& forall|i: int|
        0 <= i < w.len() ==> (#[trigger] v[i]).emblem_model == opt_id(le16(w[i], 0)) && v[i].chassis
            == spec_loc_a(w[i], 2) && v[i].hatch == spec_loc_a(w[i], 10)
}

/// `v` are the model records of layout A `w`.
pub open spec fn models_match(v: Seq<ModelConfig>, w: Seq<Seq<u8>>) -> bool {
    &&& v.len() == w.len()
    &&& forall|i: int| 0 <= i < w.len() ==> #[trigger] v[i] == spec_loc_a(w[i], 0)
}

/// `v` are the loadouts made of `p`.
pub open spec fn loadouts_match(v: Seq<Loadout>, p: Seq<LoadoutParts>) -> bool {
    &&& v.len() == p.len()
    &&& forall|i: int| 0 <= i < p.len() ==> #[trigger] loadout_matches(v[i], p[i])
}

/// The loadouts of `x` as an outcome: `None` for a mount count that does
/// not fit a byte.
pub open spec fn loadouts_outcome(x: XBE) -> Option<Result<Seq<LoadoutParts>, IoError>> {
    match spec_loadouts(x) {
        RecordsRead::Failed(e) => Some(Err(e)),
        RecordsRead::BadMount => None,
        RecordsRead::Read(p) => Some(Ok(p)),
    }
}

/// The eye effects of the mechs of `x`.
pub open spec fn eyes_read(x: XBE) -> Option<Result<Seq<Option<EffectPosition>>, IoError>> {
    match spec_section_offset(x.names(), x.sections(), ".data"@, EYES_OFFSET) {
        Err(e) => Some(Err(e)),
        Ok(p) => placed_effects(x.reader.data(), p as int, MECH_COUNT as nat),
    }
}

/// `prev`, then `next` where `prev` went through: the first failure of
/// the two.
pub open spec fn then_step<T>(prev: Option<Result<(), IoError>>, next: Option<Result<T, IoError>>) -> Option<
    Result<(), IoError>,
> {
    match prev {
        Some(Ok(_)) => match next {
            None => None,
            Some(Err(e)) => Some(Err(e)),
            Some(Ok(_)) => Some(Ok(())),
        },
        other => other,
    }
}

/// How reading the mech tables of `x` ends, step by step in the order the
/// reader takes them: mech models, weapon mounts, manipulators, loadouts,
/// parts, eyes, manufacturers, paint colours. `None` where a step meets a
/// record it does not take.
pub open spec fn mech_tables_outcome(x: XBE) -> Option<Result<(), IoError>> {
    let d = x.reader.data();
    let s1 = then_step(Some(Ok(())), spec_pointer_records(x, ".data"@, MECH_MODELS_OFFSET, MECH_COUNT as nat, RecordKind::Mech));
    let s2 = then_step(s1, spec_pointer_records(x, ".data"@, WEAPON_MOUNTS_OFFSET, WEAPON_MOUNT_COUNT as nat, RecordKind::ModelA));
    let s3 = then_step(s2, spec_pointer_records(x, ".data"@, MANIPULATORS_OFFSET, MANIPULATOR_COUNT as nat, RecordKind::ModelA));
    let s4 = then_step(s3, loadouts_outcome(x));
    let s5 = then_step(s4, parts_read(x));
    let s6 = then_step(s5, eyes_read(x));
    let s7 = then_step(s6, Some(spec_u32_table(d, x.names(), x.sections(), ".data"@, MANUFACTURERS_OFFSET, MECH_COUNT as nat)));
    then_step(s7, Some(spec_u32_table(d, x.names(), x.sections(), ".data"@, PAINT_OFFSET, (MECH_COUNT * MECH_PAINT_BITS) as nat)))
}

/// `t` holds what each step of reading the tables of `x` gave.
pub open spec fn tables_match(t: MechTables, x: XBE) -> bool {
    let d = x.reader.data();
    &&& spec_pointer_records(x, ".data"@, MECH_MODELS_OFFSET, MECH_COUNT as nat, RecordKind::Mech) matches Some(Ok(w))
        && mech_models_match(t.mech_models@, w)
    &&& spec_pointer_records(x, ".data"@, WEAPON_MOUNTS_OFFSET, WEAPON_MOUNT_COUNT as nat, RecordKind::ModelA) matches Some(Ok(w))
        && models_match(t.weapon_mounts@, w)
    &&& spec_pointer_records(x, ".data"@, MANIPULATORS_OFFSET, MANIPULATOR_COUNT as nat, RecordKind::ModelA) matches Some(Ok(w))
        && models_match(t.manipulators@, w)
    &&& loadouts_outcome(x) matches Some(Ok(p)) && loadouts_match(t.loadouts@, p)
    &&& parts_read(x) == Some(Ok::<Seq<MechParts>, IoError>(t.parts@))
    &&& eyes_read(x) == Some(Ok::<Seq<Option<EffectPosition>>, IoError>(t.eyes@))
    &&& spec_u32_table(d, x.names(), x.sections(), ".data"@, MANUFACTURERS_OFFSET, MECH_COUNT as nat) == Ok::<Seq<u32>, IoError>(t.manufacturers@)
    &&& spec_u32_table(d, x.names(), x.sections(), ".data"@, PAINT_OFFSET, (MECH_COUNT * MECH_PAINT_BITS) as nat) == Ok::<Seq<u32>, IoError>(t.paint_bits@)
}

/// The result of reading the mech tables of `x`.
pub open spec fn mech_tables_read(x: XBE, r: Option<Result<MechTables, IoError>>) -> bool {
    match mech_tables_outcome(x) {
        None => r is None,
        Some(Err(e)) => r == Some(Err::<MechTables, IoError>(e)),
        Some(Ok(_)) => r matches Some(Ok(t)) && tables_match(t, x),
    }
}

/// Reads the tables that mechs are assembled from (see
/// `mech_tables_outcome`).
pub fn read_mech_tables(xbe: &mut XBE) -> (r: Option<Result<MechTables, IoError>>)
    ensures
        final(xbe).same_image(old(xbe)),
        mech_tables_read(*old(xbe), r),
{
    let ghost x0 = *xbe;
    let mech_models = match MechModelConfig::import_pointers(xbe, ".data", MECH_MODELS_OFFSET, MECH_COUNT) {
        None => {
            return None;
        },
        Some(Err(e)) => {
            return Some(Err(e));
        },
        Some(Ok(v)) => v,
    };
    assert(spec_pointer_records(*xbe, ".data"@, WEAPON_MOUNTS_OFFSET, WEAPON_MOUNT_COUNT as nat, RecordKind::ModelA)
        == spec_pointer_records(x0, ".data"@, WEAPON_MOUNTS_OFFSET, WEAPON_MOUNT_COUNT as nat, RecordKind::ModelA));
    let weapon_mounts = match ModelConfig::import_pointers(xbe, ".data", WEAPON_MOUNTS_OFFSET, WEAPON_MOUNT_COUNT) {
        None => {
            return None;
        },
        Some(Err(e)) => {
            return Some(Err(e));
        },
        Some(Ok(v)) => v,
    };
    assert(spec_pointer_records(*xbe, ".data"@, MANIPULATORS_OFFSET, MANIPULATOR_COUNT as nat, RecordKind::ModelA)
        == spec_pointer_records(x0, ".data"@, MANIPULATORS_OFFSET, MANIPULATOR_COUNT as nat, RecordKind::ModelA));
    let manipulators = match ModelConfig::import_pointers(xbe, ".data", MANIPULATORS_OFFSET, MANIPULATOR_COUNT) {
        None => {
            return None;
        },
        Some(Err(e)) => {
            return Some(Err(e));
        },
        Some(Ok(v)) => v,
    };
    assert(spec_loadouts(*xbe) == spec_loadouts(x0));
    let loadouts = match Loadout::try_import(xbe) {
        None => {
            return None;
        },
        Some(Err(e)) => {
            return Some(Err(e));
        },
        Some(Ok(v)) => v,
    };
    assert(parts_read(*xbe) == parts_read(x0));
    let parts = match MechParts::import(xbe) {
        None => {
            return None;
        },
        Some(Err(e)) => {
            return Some(Err(e));
        },
        Some(Ok(v)) => v,
    };
    assert(eyes_read(*xbe) == eyes_read(x0));
    let eyes = match EffectPosition::import(xbe, ".data", EYES_OFFSET, MECH_COUNT) {
        None => {
            return None;
        },
        Some(Err(e)) => {
            return Some(Err(e));
        },
        Some(Ok(v)) => v,
    };
    let manufacturers = match xbe.read_u32_table(".data", MANUFACTURERS_OFFSET, MECH_COUNT) {
        Err(e) => {
            return Some(Err(e));
        },
        Ok(v) => v,
    };
    let paint_bits = match xbe.read_u32_table(".data", PAINT_OFFSET, MECH_COUNT * MECH_PAINT_BITS) {
        Err(e) => {
            return Some(Err(e));
        },
        Ok(v) => v,
    };
    let t = MechTables { mech_models, weapon_mounts, manipulators, loadouts, parts, eyes, manufacturers, paint_bits };
    Some(Ok(t))
}

/// `a` and `b` are the same loadout.
pub open spec fn same_loadout(a: Loadout, b: Loadout) -> bool {
    &&& a.mwep_ids@ == b.mwep_ids@
    &&& a.mwep_presets == b.mwep_presets
    &&& a.mwep_fixeds == b.mwep_fixeds
    &&& a.swep_ids@ == b.swep_ids@
    &&& a.swep_presets == b.swep_presets
    &&& a.swep_fixeds == b.swep_fixeds
    &&& a.tank_count_max == b.tank_count_max
    &&& a.tank_count_preset == b.tank_count_preset
    &&& a.weight_type == b.weight_type
    &&& a.class_type == b.class_type
    &&& a.profile_description == b.profile_description
    &&& a.mounts == b.mounts
}

impl Loadout {
    /// A copy of the loadout.
    pub fn copy(&self) -> (r: Loadout)
        ensures
            same_loadout(r, *self),
    {
        let mwep_ids = crate::bytes::copy_range(self.mwep_ids.as_slice(), 0, self.mwep_ids.len());
        let swep_ids = crate::bytes::copy_range(self.swep_ids.as_slice(), 0, self.swep_ids.len());
        assert(mwep_ids@ =~= self.mwep_ids@);
        assert(swep_ids@ =~= self.swep_ids@);
        Loadout {
            mwep_ids,
            mwep_presets: self.mwep_presets,
            mwep_fixeds: self.mwep_fixeds,
            swep_ids,
            swep_presets: self.swep_presets,
            swep_fixeds: self.swep_fixeds,
            tank_count_max: self.tank_count_max,
            tank_count_preset: self.tank_count_preset,
            weight_type: self.weight_type,
            class_type: self.class_type,
            profile_description: self.profile_description,
            mounts: self.mounts,
        }
    }
}

/// The factions (as flags) that field each mech.
pub open spec fn mech_faction_flags() -> Seq<u8> {
    seq![
        0x9u8, 0x9, 0x1, 0x1, 0x0, 0x2, 0x2, 0x2, 0x1, 0x1, 0x2, 0x2, 0x2, 0x1, 0x2, 0x2, 0x8, 0x8, 0x8,
        0x1, 0x1, 0x1, 0x1, 0x4, 0x1, 0x4, 0x4, 0x4, 0x8, 0x4, 0x4, 0x2, 0x0, 0x0, 0x0,
    ]
}

/// The faction flags of mech `id`.
pub fn faction_flags(id: usize) -> (r: u8)
    requires
        id < MECH_COUNT,
    ensures
        r == mech_faction_flags()[id as int],
{
    let flags: [u8; 35] = [
        0x9, 0x9, 0x1, 0x1, 0x0, 0x2, 0x2, 0x2, 0x1, 0x1, 0x2, 0x2, 0x2, 0x1, 0x2, 0x2, 0x8, 0x8, 0x8,
        0x1, 0x1, 0x1, 0x1, 0x4, 0x1, 0x4, 0x4, 0x4, 0x8, 0x4, 0x4, 0x2, 0x0, 0x0, 0x0,
    ];
    assert(flags@ =~= mech_faction_flags());
    flags[id]
}

/// A model of a paint scheme: the same record with the model `2 * c`
/// further.
pub open spec fn camo_model(m: ModelConfig, c: int) -> ModelConfig {
    ModelConfig {
        model: (m.model + 2 * c) as u16,
        animation: m.animation,
        sequence: m.sequence,
        hitbox: m.hitbox,
        texture: m.texture,
    }
}

/// The models of paint scheme `c` of a mech: chassis and hatch `2 * c`
/// further, the emblem the same.
pub open spec fn camo(mc: MechModelConfig, c: int) -> MechModelConfig {
    MechModelConfig { emblem_model: mc.emblem_model, chassis: camo_model(mc.chassis, c), hatch: camo_model(mc.hatch, c) }
}

fn camo_exec(mc: MechModelConfig, c: u16) -> (r: MechModelConfig)
    requires
        c < 4,
        mc.chassis.model + 6 <= 0xFFFF,
        mc.hatch.model + 6 <= 0xFFFF,
    ensures
        r == camo(mc, c as int),
{
    let mut chassis = mc.chassis;
    chassis.model = mc.chassis.model + 2 * c;
    let mut hatch = mc.hatch;
    hatch.model = mc.hatch.model + 2 * c;
    MechModelConfig { emblem_model: mc.emblem_model, chassis, hatch }
}

fn copy_u32_range(v: &[u32], start: usize, end: usize) -> (r: Vec<u32>)
    requires
        start <= end <= v@.len(),
    ensures
        r@ == v@.subrange(start as int, end as int),
{
    let mut out: Vec<u32> = Vec::with_capacity(end - start);
    let mut k: usize = start;
    while k < end
        invariant
            start <= k <= end <= v@.len(),
            out@ == v@.subrange(start as int, k as int),
        decreases end - k,
    {
        out.push(v[k]);
        k = k + 1;
        assert(out@ =~= v@.subrange(start as int, k as int));
    }
    out
}

/// A mech: its text ids, the models of its four paint schemes, its
/// manipulator and weapon mount models, manufacturer, factions, parts,
/// engine record, loadout, eye effect and paint colours (hue, saturation
/// and lightness of each area of each scheme, as `f32` bits).
pub struct Mech {
    pub name_text: u16,
    pub description_text: u16,
    pub modcfgs: Vec<MechModelConfig>,
    pub manipulator: ModelConfig,
    pub weapon_mount: ModelConfig,
    pub manufacturer: u8,
    pub faction_flags: u8,
    pub parts: MechParts,
    pub data: EngineData,
    pub loadout: Loadout,
    pub eye: EffectPosition,
    pub paint_bits: Vec<u32>,
}

/// The engine record `e` makes a mech out of the tables `t`: its id names
/// an entry of every table, its manufacturer fits a byte, its parts carry
/// the next id, its models leave room for the paint schemes, its parts
/// name a manipulator and a weapon mount, and it has an eye effect and
/// paint colours.
pub open spec fn mech_ok(t: MechTables, e: EngineData) -> bool {
    let id = e.id as int;
    &&& id < MECH_COUNT
    &&& id < t.manufacturers@.len()
    &&& id < t.parts@.len()
    &&& id < t.mech_models@.len()
    &&& id < t.loadouts@.len()
    &&& id < t.eyes@.len()
    &&& t.manufacturers@[id] <= 0xFF
    &&& e.id + 1 == t.parts@[id].id
    &&& t.mech_models@[id].chassis.model + 6 <= 0xFFFF
    &&& t.mech_models@[id].hatch.model + 6 <= 0xFFFF
    &&& t.parts@[id].manipulator < t.manipulators@.len()
    &&& t.parts@[id].weapon_mount < t.weapon_mounts@.len()
    &&& t.eyes@[id] is Some
    &&& MECH_PAINT_BITS * (id + 1) <= t.paint_bits@.len()
}

/// `m` is the mech that engine record `e` makes out of the tables `t`.
pub open spec fn mech_matches(m: Mech, t: MechTables, e: EngineData) -> bool {
    let id = e.id as int;
    let part = t.parts@[id];
    &&& m.name_text == id + 1399
    &&& m.description_text == id + 688
    &&& m.modcfgs@.len() == MECH_CAMO_COUNT
    &&& forall|c: int| 0 <= c < MECH_CAMO_COUNT ==> #[trigger] m.modcfgs@[c] == camo(t.mech_models@[id], c)
    &&& m.manipulator == t.manipulators@[part.manipulator as int]
    &&& m.weapon_mount == t.weapon_mounts@[part.weapon_mount as int]
    &&& m.manufacturer == t.manufacturers@[id]
    &&& m.faction_flags == mech_faction_flags()[id]
    &&& m.parts == part
    &&& m.data == e
    &&& same_loadout(m.loadout, t.loadouts@[id])
    &&& Some(m.eye) == t.eyes@[id]
    &&& m.paint_bits@ == t.paint_bits@.subrange(MECH_PAINT_BITS * id, MECH_PAINT_BITS * (id + 1))
}

impl Mech {
    /// Makes the mech of engine record `e` out of the tables `t`; `None`
    /// where they do not fit together (see `mech_ok`).
    pub fn assemble(t: &MechTables, e: EngineData) -> (r: Option<Mech>)
        ensures
            r is Some <==> mech_ok(*t, e),
            r matches Some(m) ==> mech_matches(m, *t, e),
    {
        let id: usize = e.id as usize;
        if id >= MECH_COUNT || id >= t.manufacturers.len() || id >= t.parts.len() || id >= t.mech_models.len()
            || id >= t.loadouts.len() || id >= t.eyes.len() {
            return None;
        }
        let manufacturer: u32 = t.manufacturers[id];
        if manufacturer > 0xFF {
            return None;
        }
        let part: MechParts = t.parts[id];
        if e.id + 1 != part.id {
            return None;
        }
        let mc: MechModelConfig = t.mech_models[id];
        if mc.chassis.model > 0xFFFF - 6 || mc.hatch.model > 0xFFFF - 6 {
            return None;
        }
        let mi: usize = part.manipulator as usize;
        let wi: usize = part.weapon_mount as usize;
        if mi >= t.manipulators.len() || wi >= t.weapon_mounts.len() {
            return None;
        }
        let eye: EffectPosition = match t.eyes[id] {
            None => {
                return None;
            },
            Some(p) => p,
        };
        if t.paint_bits.len() / MECH_PAINT_BITS < id + 1 {
            return None;
        }
        let mut modcfgs: Vec<MechModelConfig> = Vec::with_capacity(MECH_CAMO_COUNT);
        let mut c: u16 = 0;
        while c < 4
            invariant
                c <= 4,
                mc == t.mech_models@[id as int],
                mc.chassis.model + 6 <= 0xFFFF,
                mc.hatch.model + 6 <= 0xFFFF,
                modcfgs@.len() == c,
                forall|k: int| 0 <= k < c ==> #[trigger] modcfgs@[k] == camo(mc, k),
            decreases 4 - c,
        {
            modcfgs.push(camo_exec(mc, c));
            c = c + 1;
        }
        let paint_bits = copy_u32_range(t.paint_bits.as_slice(), MECH_PAINT_BITS * id, MECH_PAINT_BITS * (id + 1));
        let m = Mech {
            name_text: id as u16 + 1399,
            description_text: id as u16 + 688,
            modcfgs,
            manipulator: t.manipulators[mi],
            weapon_mount: t.weapon_mounts[wi],
            manufacturer: manufacturer as u8,
            faction_flags: faction_flags(id),
            parts: part,
            data: e,
            loadout: t.loadouts[id].copy(),
            eye,
            paint_bits,
        };
        Some(m)
    }
}

/// Makes the mech of each engine record out of the tables `t`, in order;
/// `None` where a record does not fit them (see `mech_ok`).
pub fn assemble_mechs(t: &MechTables, engine: Vec<EngineData>) -> (r: Option<Vec<Mech>>)
    ensures
        r is Some <==> forall|k: int| 0 <= k < engine@.len() ==> mech_ok(*t, #[trigger] engine@[k]),
        r matches Some(ms) ==> ms@.len() == engine@.len() && forall|k: int|
            0 <= k < engine@.len() ==> mech_matches(#[trigger] ms@[k], *t, engine@[k]),
{
    let ghost e0 = engine@;
    let mut rest = engine;
    let mut out: Vec<Mech> = Vec::with_capacity(rest.len());
    while rest.len() > 0
        invariant
            e0 == engine@,
            out@.len() + rest@.len() == e0.len(),
            rest@ == e0.subrange(out@.len() as int, e0.len() as int),
            forall|j: int| 0 <= j < out@.len() ==> mech_ok(*t, #[trigger] e0[j]),
            forall|j: int| 0 <= j < out@.len() ==> mech_matches(#[trigger] out@[j], *t, e0[j]),
        decreases rest@.len(),
    {
        let ghost k = out@.len() as int;
        let e = rest.remove(0);
        assert(e == e0[k]);
        match Mech::assemble(t, e) {
            None => {
                assert(0 <= k < e0.len() && !mech_ok(*t, e0[k]));
                return None;
            },
            Some(m) => {
                out.push(m);
            },
        }
        assert(rest@ =~= e0.subrange(out@.len() as int, e0.len() as int));
    }
    Some(out)
}

/// How reading the engine file `b` ends (see `EngineData::import`): `None`
/// where the entry count is not 35 or a record is not valid.
pub open spec fn engine_status(b: Seq<u8>) -> Option<Result<(), IoError>> {
    if b.len() < 4 {
        Some(Err(IoError::UnexpectedEof))
    } else if le32(b, 0) != MECH_COUNT {
        None
    } else if b.len() < 4 + 4 * MECH_COUNT {
        Some(Err(IoError::UnexpectedEof))
    } else {
        match engine_read_end(b, MECH_COUNT as nat) {
            EngineReadEnd::Short => Some(Err(IoError::UnexpectedEof)),
            EngineReadEnd::Invalid => None,
            EngineReadEnd::Done => Some(Ok(())),
        }
    }
}

/// `v` are the engine records of the engine file `b`.
pub open spec fn engines_match(v: Seq<EngineData>, b: Seq<u8>) -> bool {
    &&& v.len() == engine_starts(b, MECH_COUNT as nat).len()
    &&& forall|k: int| 0 <= k < v.len() ==> #[trigger] engine_matches(v[k], b, engine_starts(b, MECH_COUNT as nat)[k])
}

/// `r` is what assembling a mech for each engine record of `v` out of the
/// tables `t` gives: the mechs, or `None` where a record does not fit.
pub open spec fn mechs_assembled(t: MechTables, v: Seq<EngineData>, r: Option<Result<Vec<Mech>, IoError>>) -> bool {
    match r {
        Some(Ok(ms)) => {
            &&& forall|k: int| 0 <= k < v.len() ==> mech_ok(t, #[trigger] v[k])
            &&& ms@.len() == v.len()
            &&& forall|k: int| 0 <= k < v.len() ==> mech_matches(#[trigger] ms@[k], t, v[k])
        },
        None => !(forall|k: int| 0 <= k < v.len() ==> mech_ok(t, #[trigger] v[k])),
        Some(Err(_)) => false,
    }
}

impl Mech {
    /// Reads the mechs: the engine file `engine_file` first, then the
    /// tables of the executable, then one mech per engine record. `None`
    /// where a reader meets a record it does not take or a record does not
    /// fit the tables; `Err` where the data ends first or a table cannot be
    /// found.
    pub fn import(xbe: &mut XBE, engine_file: &[u8]) -> (r: Option<Result<Vec<Mech>, IoError>>)
        ensures
            final(xbe).same_image(old(xbe)),
            match engine_status(engine_file@) {
                None => r is None,
                Some(Err(e)) => r == Some(Err::<Vec<Mech>, IoError>(e)),
                Some(Ok(_)) => match mech_tables_outcome(*old(xbe)) {
                    None => r is None,
                    Some(Err(e)) => r == Some(Err::<Vec<Mech>, IoError>(e)),
                    Some(Ok(_)) => exists|v: Seq<EngineData>, t: MechTables|
                        #![trigger engines_match(v, engine_file@), tables_match(t, *old(xbe))]
                        engines_match(v, engine_file@) && tables_match(t, *old(xbe)) && mechs_assembled(t, v, r),
                },
            },
    {
        let ghost x0 = *xbe;
        let engine = match EngineData::import(engine_file) {
            None => {
                return None;
            },
            Some(Err(e)) => {
                return Some(Err(e));
            },
            Some(Ok(v)) => v,
        };
        let ghost v = engine@;
        assert(engines_match(v, engine_file@));
        let tables = match read_mech_tables(xbe) {
            None => {
                return None;
            },
            Some(Err(e)) => {
                return Some(Err(e));
            },
            Some(Ok(t)) => t,
        };
        assert(tables_match(tables, x0));
        let r = match assemble_mechs(&tables, engine) {
            None => None,
            Some(ms) => Some(Ok(ms)),
        };
        assert(mechs_assembled(tables, v, r));
        r
    }

    /// The id of the mech.
    pub fn get_id(&self) -> (r: u8)
        ensures
            r == self.data.id,
    {
        self.data.id
    }

    /// The models of the mech: chassis and hatch of each paint scheme, then
    /// the manipulator and the weapon mount.
    pub fn get_model_configs(&self) -> (r: Vec<ModelConfig>)
        requires
            self.modcfgs@.len() == MECH_CAMO_COUNT,
        ensures
            r@ == seq![
                self.modcfgs@[0].chassis,
                self.modcfgs@[0].hatch,
                self.modcfgs@[1].chassis,
                self.modcfgs@[1].hatch,
                self.modcfgs@[2].chassis,
                self.modcfgs@[2].hatch,
                self.modcfgs@[3].chassis,
                self.modcfgs@[3].hatch,
                self.manipulator,
                self.weapon_mount,
            ],
    {
        let mut r: Vec<ModelConfig> = Vec::with_capacity(10);
        let mut c: usize = 0;
        while c < MECH_CAMO_COUNT
            invariant
                c <= MECH_CAMO_COUNT,
                self.modcfgs@.len() == MECH_CAMO_COUNT,
                r@.len() == 2 * c,
                forall|k: int| 0 <= k < c ==> r@[2 * k] == self.modcfgs@[k].chassis && r@[2 * k + 1] == self.modcfgs@[k].hatch,
            decreases MECH_CAMO_COUNT - c,
        {
            r.push(self.modcfgs[c].chassis);
            r.push(self.modcfgs[c].hatch);
            c = c + 1;
        }
        r.push(self.manipulator);
        r.push(self.weapon_mount);
        assert(r@ =~= seq![
            self.modcfgs@[0].chassis,
            self.modcfgs@[0].hatch,
            self.modcfgs@[1].chassis,
            self.modcfgs@[1].hatch,
            self.modcfgs@[2].chassis,
            self.modcfgs@[2].hatch,
            self.modcfgs@[3].chassis,
            self.modcfgs@[3].hatch,
            self.manipulator,
            self.weapon_mount,
        ]) by {
            assert(r@[0] == self.modcfgs@[0].chassis);
            assert(r@[2] == self.modcfgs@[1].chassis);
            assert(r@[4] == self.modcfgs@[2].chassis);
            assert(r@[6] == self.modcfgs@[3].chassis);
        }
        r
    }
}

/// The values of `v`, four little-endian bytes each.
pub open spec fn u32s_bytes(v: Seq<u32>) -> Seq<u8>
    decreases v.len(),
{
    if v.len() == 0 {
        Seq::empty()
    } else {
        u32s_bytes(v.drop_last()) + bytes32(v.last() as nat)
    }
}

/// The pairs of `v`, each value as four little-endian bytes.
pub open spec fn pairs_bytes(v: Seq<(u32, u32)>) -> Seq<u8>
    decreases v.len(),
{
    if v.len() == 0 {
        Seq::empty()
    } else {
        pairs_bytes(v.drop_last()) + bytes32(v.last().0 as nat) + bytes32(v.last().1 as nat)
    }
}

/// The engine paths of the weapons `ids`, each taken from `paths` by id.
pub open spec fn paths_bytes(ids: Seq<u8>, paths: Seq<String>) -> Seq<u8>
    decreases ids.len(),
{
    if ids.len() == 0 {
        Seq::empty()
    } else {
        paths_bytes(ids.drop_last(), paths) + godot_bytes(paths[ids.last() as int]@)
    }
}

/// The translation key of text `n`.
pub open spec fn loc_key(n: u16) -> Seq<char> {
    "loc:"@ + zero_pad(dec(n as nat), 4)
}

/// Three flags, one byte each.
pub open spec fn flags_bytes(b: [bool; 3]) -> Seq<u8> {
    Seq::new(3, |k: int| if b@[k] { 1u8 } else { 0u8 })
}

/// A list of weapons as the mech's configuration holds it: the count (as
/// a byte), the weapons' paths, the three preset slots and the three fixed
/// flags.
pub open spec fn weapon_list_bytes(ids: Seq<u8>, paths: Seq<String>, presets: [u8; 3], fixeds: [bool; 3]) -> Seq<u8> {
    seq![ids.len() as u8] + paths_bytes(ids, paths) + presets@ + flags_bytes(fixeds)
}

/// The engine, transmission, movement, health, resistance and tank values
/// of a mech's configuration, as the engine record holds them.
pub open spec fn engine_config_bytes(e: EngineData) -> Seq<u8> {
    bytes32(e.rpm_min_bits as nat) + bytes32(e.rpm_rate_bits as nat) + pairs_bytes(e.engine_curve@) + bytes32(
        e.override_multiplier.0 as nat,
    ) + bytes32(e.override_multiplier.1 as nat) + bytes32(e.tier_r_bits as nat) + u32s_bytes(e.gears_bits@)
        + bytes32(e.gear_f_bits as nat) + bytes32(e.wheel_torque_bits as nat) + bytes32(
        e.wheel_start_speed_bits as nat,
    ) + bytes32(e.internal_resistance_bits as nat) + seq![e.slope_gear_a, e.slope_gear_b] + bytes32(
        e.weight_bits as nat,
    ) + bytes32(e.brake_bits as nat) + bytes32(e.drag_coefficient_bits as nat) + bytes32(e.drag_size.0 as nat)
        + bytes32(e.drag_size.1 as nat) + bytes32(e.turn_speed_bits as nat) + bytes32(e.balancer_bits as nat)
        + bytes16(e.health_torso as nat) + bytes16(e.health_leg_r as nat) + bytes16(e.health_leg_l as nat)
        + bytes16(e.health_opt_armor as nat) + bytes32(e.resistance_front_bits as nat) + bytes32(
        e.resistance_side_bits as nat,
    ) + bytes32(e.resistance_rear_bits as nat) + bytes32(e.tank_capacity_main_bits as nat) + bytes32(
        e.tank_capacity_sub_bits as nat,
    ) + seq![e.loadout_weight_max, e.loadout_weight_standard]
}

/// The configuration file of mech `m`: its id, the keys of its name and
/// description, its kind (cockpit type and generation, manufacturer,
/// factions, weight, class, profile, mounts, ticket cost), its engine
/// values, its main and sub weapons (paths from `mwep_paths` and
/// `swep_paths` by weapon id) and its tank counts.
pub open spec fn mech_config_bytes(m: Mech, mwep_paths: Seq<String>, swep_paths: Seq<String>) -> Seq<u8> {
    let e = m.data;
    let l = m.loadout;
    seq![e.id] + pascal_bytes(loc_key(m.name_text)) + pascal_bytes(loc_key(m.description_text)) + seq![
        e.cockpit_type,
        mech_generation(e.cockpit_type),
        m.manufacturer,
        m.faction_flags,
        l.weight_type,
        l.class_type,
        l.profile_description,
        l.mounts,
        e.ticket_cost,
    ] + engine_config_bytes(e) + weapon_list_bytes(l.mwep_ids@, mwep_paths, l.mwep_presets, l.mwep_fixeds)
        + weapon_list_bytes(l.swep_ids@, swep_paths, l.swep_presets, l.swep_fixeds) + seq![
        l.tank_count_max,
        l.tank_count_preset,
    ]
}

pub(crate) fn push_u32s(w: &mut Vec<u8>, v: &Vec<u32>)
    ensures
        final(w)@ == old(w)@ + u32s_bytes(v@),
{
    let ghost w0 = w@;
    let mut k: usize = 0;
    while k < v.len()
        invariant
            k <= v@.len(),
            w@ == w0 + u32s_bytes(v@.subrange(0, k as int)),
        decreases v@.len() - k,
    {
        push_u32_le(w, v[k]);
        k = k + 1;
        assert(v@.subrange(0, k as int).drop_last() =~= v@.subrange(0, k - 1));
        assert(w@ =~= w0 + u32s_bytes(v@.subrange(0, k as int)));
    }
    assert(v@.subrange(0, k as int) =~= v@);
}

fn push_pairs(w: &mut Vec<u8>, v: &Vec<(u32, u32)>)
    ensures
        final(w)@ == old(w)@ + pairs_bytes(v@),
{
    let ghost w0 = w@;
    let mut k: usize = 0;
    while k < v.len()
        invariant
            k <= v@.len(),
            w@ == w0 + pairs_bytes(v@.subrange(0, k as int)),
        decreases v@.len() - k,
    {
        let (a, b) = v[k];
        push_u32_le(w, a);
        push_u32_le(w, b);
        k = k + 1;
        assert(v@.subrange(0, k as int).drop_last() =~= v@.subrange(0, k - 1));
        assert(w@ =~= w0 + pairs_bytes(v@.subrange(0, k as int)));
    }
    assert(v@.subrange(0, k as int) =~= v@);
}

pub(crate) fn push_paths(w: &mut Vec<u8>, ids: &Vec<u8>, paths: &[String])
    requires
        forall|i: int| 0 <= i < ids@.len() ==> (#[trigger] ids@[i]) < paths@.len(),
    ensures
        final(w)@ == old(w)@ + paths_bytes(ids@, paths@),
{
    let ghost w0 = w@;
    let mut k: usize = 0;
    while k < ids.len()
        invariant
            k <= ids@.len(),
            forall|i: int| 0 <= i < ids@.len() ==> (#[trigger] ids@[i]) < paths@.len(),
            w@ == w0 + paths_bytes(ids@.subrange(0, k as int), paths@),
        decreases ids@.len() - k,
    {
        let id: usize = ids[k] as usize;
        write_godot_path(paths[id].as_str(), w);
        k = k + 1;
        assert(ids@.subrange(0, k as int).drop_last() =~= ids@.subrange(0, k - 1));
        assert(w@ =~= w0 + paths_bytes(ids@.subrange(0, k as int), paths@));
    }
    assert(ids@.subrange(0, k as int) =~= ids@);
}

fn push_loc_key(w: &mut Vec<u8>, n: u16)
    ensures
        final(w)@ == old(w)@ + pascal_bytes(loc_key(n)),
{
    let key = numbered_name("loc:", n as u64, 4, "");
    proof {
        reveal_strlit("");
        assert(key@ =~= loc_key(n));
    }
    write_pascal_string(key.as_str(), w);
}

fn push_weapon_list(w: &mut Vec<u8>, ids: &Vec<u8>, paths: &[String], presets: [u8; 3], fixeds: [bool; 3])
    requires
        forall|i: int| 0 <= i < ids@.len() ==> (#[trigger] ids@[i]) < paths@.len(),
    ensures
        final(w)@ == old(w)@ + weapon_list_bytes(ids@, paths@, presets, fixeds),
{
    let ghost w0 = w@;
    #[verifier::truncate]
    let count: u8 = ids.len() as u8;
    w.push(count);
    push_paths(w, ids, paths);
    w.push(presets[0]);
    w.push(presets[1]);
    w.push(presets[2]);
    w.push(if fixeds[0] { 1 } else { 0 });
    w.push(if fixeds[1] { 1 } else { 0 });
    w.push(if fixeds[2] { 1 } else { 0 });
    assert(w@ =~= w0 + weapon_list_bytes(ids@, paths@, presets, fixeds));
}

/// Appends nine bytes.
fn push_nine(w: &mut Vec<u8>, b: [u8; 9])
    ensures
        final(w)@ == old(w)@ + b@,
{
    let ghost w0 = w@;
    let mut k: usize = 0;
    while k < 9
        invariant
            k <= 9,
            w@ == w0 + b@.subrange(0, k as int),
        decreases 9 - k,
    {
        w.push(b[k]);
        k = k + 1;
        assert(w@ =~= w0 + b@.subrange(0, k as int));
    }
    assert(b@.subrange(0, 9) =~= b@);
}

/// Appends two bytes.
pub(crate) fn push_two(w: &mut Vec<u8>, a: u8, b: u8)
    ensures
        final(w)@ == old(w)@ + seq![a, b],
{
    let ghost w0 = w@;
    w.push(a);
    w.push(b);
    assert(w@ =~= w0 + seq![a, b]);
}

fn push_engine_config(w: &mut Vec<u8>, e: &EngineData)
    ensures
        final(w)@ == old(w)@ + engine_config_bytes(*e),
{
    let ghost w0 = w@;
    push_u32_le(w, e.rpm_min_bits);
    let ghost mut acc: Seq<u8> = bytes32(e.rpm_min_bits as nat);
    assert(w@ == w0 + acc);
    push_u32_le(w, e.rpm_rate_bits);
    proof {
        lemma_concat_step(w0, acc, bytes32(e.rpm_rate_bits as nat));
        acc = acc + bytes32(e.rpm_rate_bits as nat);
    }
    push_pairs(w, &e.engine_curve);
    proof {
        lemma_concat_step(w0, acc, pairs_bytes(e.engine_curve@));
        acc = acc + pairs_bytes(e.engine_curve@);
    }
    push_u32_le(w, e.override_multiplier.0);
    proof {
        lemma_concat_step(w0, acc, bytes32(e.override_multiplier.0 as nat));
        acc = acc + bytes32(e.override_multiplier.0 as nat);
    }
    push_u32_le(w, e.override_multiplier.1);
    proof {
        lemma_concat_step(w0, acc, bytes32(e.override_multiplier.1 as nat));
        acc = acc + bytes32(e.override_multiplier.1 as nat);
    }
    push_u32_le(w, e.tier_r_bits);
    proof {
        lemma_concat_step(w0, acc, bytes32(e.tier_r_bits as nat));
        acc = acc + bytes32(e.tier_r_bits as nat);
    }
    push_u32s(w, &e.gears_bits);
    proof {
        lemma_concat_step(w0, acc, u32s_bytes(e.gears_bits@));
        acc = acc + u32s_bytes(e.gears_bits@);
    }
    push_u32_le(w, e.gear_f_bits);
    proof {
        lemma_concat_step(w0, acc, bytes32(e.gear_f_bits as nat));
        acc = acc + bytes32(e.gear_f_bits as nat);
    }
    push_u32_le(w, e.wheel_torque_bits);
    proof {
        lemma_concat_step(w0, acc, bytes32(e.wheel_torque_bits as nat));
        acc = acc + bytes32(e.wheel_torque_bits as nat);
    }
    push_u32_le(w, e.wheel_start_speed_bits);
    proof {
        lemma_concat_step(w0, acc, bytes32(e.wheel_start_speed_bits as nat));
        acc = acc + bytes32(e.wheel_start_speed_bits as nat);
    }
    push_u32_le(w, e.internal_resistance_bits);
    proof {
        lemma_concat_step(w0, acc, bytes32(e.internal_resistance_bits as nat));
        acc = acc + bytes32(e.internal_resistance_bits as nat);
    }
    push_two(w, e.slope_gear_a, e.slope_gear_b);
    proof {
        lemma_concat_step(w0, acc, seq![e.slope_gear_a, e.slope_gear_b]);
        acc = acc + seq![e.slope_gear_a, e.slope_gear_b];
    }
    push_u32_le(w, e.weight_bits);
    proof {
        lemma_concat_step(w0, acc, bytes32(e.weight_bits as nat));
        acc = acc + bytes32(e.weight_bits as nat);
    }
    push_u32_le(w, e.brake_bits);
    proof {
        lemma_concat_step(w0, acc, bytes32(e.brake_bits as nat));
        acc = acc + bytes32(e.brake_bits as nat);
    }
    push_u32_le(w, e.drag_coefficient_bits);
    proof {
        lemma_concat_step(w0, acc, bytes32(e.drag_coefficient_bits as nat));
        acc = acc + bytes32(e.drag_coefficient_bits as nat);
    }
    push_u32_le(w, e.drag_size.0);
    proof {
        lemma_concat_step(w0, acc, bytes32(e.drag_size.0 as nat));
        acc = acc + bytes32(e.drag_size.0 as nat);
    }
    push_u32_le(w, e.drag_size.1);
    proof {
        lemma_concat_step(w0, acc, bytes32(e.drag_size.1 as nat));
        acc = acc + bytes32(e.drag_size.1 as nat);
    }
    push_u32_le(w, e.turn_speed_bits);
    proof {
        lemma_concat_step(w0, acc, bytes32(e.turn_speed_bits as nat));
        acc = acc + bytes32(e.turn_speed_bits as nat);
    }
    push_u32_le(w, e.balancer_bits);
    proof {
        lemma_concat_step(w0, acc, bytes32(e.balancer_bits as nat));
        acc = acc + bytes32(e.balancer_bits as nat);
    }
    push_u16_le(w, e.health_torso);
    proof {
        lemma_concat_step(w0, acc, bytes16(e.health_torso as nat));
        acc = acc + bytes16(e.health_torso as nat);
    }
    push_u16_le(w, e.health_leg_r);
    proof {
        lemma_concat_step(w0, acc, bytes16(e.health_leg_r as nat));
        acc = acc + bytes16(e.health_leg_r as nat);
    }
    push_u16_le(w, e.health_leg_l);
    proof {
        lemma_concat_step(w0, acc, bytes16(e.health_leg_l as nat));
        acc = acc + bytes16(e.health_leg_l as nat);
    }
    push_u16_le(w, e.health_opt_armor);
    proof {
        lemma_concat_step(w0, acc, bytes16(e.health_opt_armor as nat));
        acc = acc + bytes16(e.health_opt_armor as nat);
    }
    push_u32_le(w, e.resistance_front_bits);
    proof {
        lemma_concat_step(w0, acc, bytes32(e.resistance_front_bits as nat));
        acc = acc + bytes32(e.resistance_front_bits as nat);
    }
    push_u32_le(w, e.resistance_side_bits);
    proof {
        lemma_concat_step(w0, acc, bytes32(e.resistance_side_bits as nat));
        acc = acc + bytes32(e.resistance_side_bits as nat);
    }
    push_u32_le(w, e.resistance_rear_bits);
    proof {
        lemma_concat_step(w0, acc, bytes32(e.resistance_rear_bits as nat));
        acc = acc + bytes32(e.resistance_rear_bits as nat);
    }
    push_u32_le(w, e.tank_capacity_main_bits);
    proof {
        lemma_concat_step(w0, acc, bytes32(e.tank_capacity_main_bits as nat));
        acc = acc + bytes32(e.tank_capacity_main_bits as nat);
    }
    push_u32_le(w, e.tank_capacity_sub_bits);
    proof {
        lemma_concat_step(w0, acc, bytes32(e.tank_capacity_sub_bits as nat));
        acc = acc + bytes32(e.tank_capacity_sub_bits as nat);
    }
    push_two(w, e.loadout_weight_max, e.loadout_weight_standard);
    proof {
        lemma_concat_step(w0, acc, seq![e.loadout_weight_max, e.loadout_weight_standard]);
        acc = acc + seq![e.loadout_weight_max, e.loadout_weight_standard];
    }
    assert(acc == engine_config_bytes(*e));
}

impl Mech {
    /// The mech's configuration file (see `mech_config_bytes`); the path of
    /// weapon `id` is `mwep_paths[id]` or `swep_paths[id]`.
    pub fn config_bytes(&self, mwep_paths: &[String], swep_paths: &[String]) -> (r: Vec<u8>)
        requires
            self.data.cockpit_type < 6,
            forall|i: int| 0 <= i < self.loadout.mwep_ids@.len() ==> (#[trigger] self.loadout.mwep_ids@[i]) < mwep_paths@.len(),
            forall|i: int| 0 <= i < self.loadout.swep_ids@.len() ==> (#[trigger] self.loadout.swep_ids@[i]) < swep_paths@.len(),
        ensures
            r@ == mech_config_bytes(*self, mwep_paths@, swep_paths@),
    {
        let mut w: Vec<u8> = Vec::new();
        let ghost w0 = w@;
        w.push(self.data.id);
        let ghost mut acc: Seq<u8> = seq![self.data.id];
        assert(w@ =~= w0 + acc);
        push_loc_key(&mut w, self.name_text);
        proof {
            lemma_concat_step(w0, acc, pascal_bytes(loc_key(self.name_text)));
            acc = acc + pascal_bytes(loc_key(self.name_text));
        }
        push_loc_key(&mut w, self.description_text);
        proof {
            lemma_concat_step(w0, acc, pascal_bytes(loc_key(self.description_text)));
            acc = acc + pascal_bytes(loc_key(self.description_text));
        }
        let generation: u8 = self.data.get_generation();
        let info: [u8; 9] = [
            self.data.cockpit_type,
            generation,
            self.manufacturer,
            self.faction_flags,
            self.loadout.weight_type,
            self.loadout.class_type,
            self.loadout.profile_description,
            self.loadout.mounts,
            self.data.ticket_cost,
        ];
        push_nine(&mut w, info);
        proof {
            assert(info@ =~= seq![
                self.data.cockpit_type,
                mech_generation(self.data.cockpit_type),
                self.manufacturer,
                self.faction_flags,
                self.loadout.weight_type,
                self.loadout.class_type,
                self.loadout.profile_description,
                self.loadout.mounts,
                self.data.ticket_cost,
            ]);
            lemma_concat_step(w0, acc, info@);
            acc = acc + info@;
        }
        push_engine_config(&mut w, &self.data);
        proof {
            lemma_concat_step(w0, acc, engine_config_bytes(self.data));
            acc = acc + engine_config_bytes(self.data);
        }
        push_weapon_list(&mut w, &self.loadout.mwep_ids, mwep_paths, self.loadout.mwep_presets, self.loadout.mwep_fixeds);
        proof {
            lemma_concat_step(w0, acc, weapon_list_bytes(self.loadout.mwep_ids@, mwep_paths@, self.loadout.mwep_presets, self.loadout.mwep_fixeds));
            acc = acc + weapon_list_bytes(self.loadout.mwep_ids@, mwep_paths@, self.loadout.mwep_presets, self.loadout.mwep_fixeds);
        }
        push_weapon_list(&mut w, &self.loadout.swep_ids, swep_paths, self.loadout.swep_presets, self.loadout.swep_fixeds);
        proof {
            lemma_concat_step(w0, acc, weapon_list_bytes(self.loadout.swep_ids@, swep_paths@, self.loadout.swep_presets, self.loadout.swep_fixeds));
            acc = acc + weapon_list_bytes(self.loadout.swep_ids@, swep_paths@, self.loadout.swep_presets, self.loadout.swep_fixeds);
        }
        push_two(&mut w, self.loadout.tank_count_max, self.loadout.tank_count_preset);
        proof {
            lemma_concat_step(w0, acc, seq![self.loadout.tank_count_max, self.loadout.tank_count_preset]);
            acc = acc + seq![self.loadout.tank_count_max, self.loadout.tank_count_preset];
        }
        assert(w@ =~= acc);
        assert(acc == mech_config_bytes(*self, mwep_paths@, swep_paths@));
        w
    }
}

/// The mech's scene file: its id, the paths of the chassis and hatch models
/// of each paint scheme, of its emblem (or a zero length), manipulator and
/// weapon mount (from `model_paths` by model id), of its eye effect (from
/// `effect_paths`), then where its eye shows and its collider's size and
/// offset, as `f32` bits.
pub open spec fn mech_scene_bytes(
    m: Mech,
    model_paths: Seq<String>,
    effect_paths: Seq<String>,
    eye_position_bits: (u32, u32, u32),
    collider_size_bits: (u32, u32, u32),
    collider_offset_bits: (u32, u32, u32),
) -> Seq<u8> {
    seq![m.data.id]
        + godot_bytes(model_paths[m.modcfgs@[0].chassis.model as int]@)
        + godot_bytes(model_paths[m.modcfgs@[0].hatch.model as int]@)
        + godot_bytes(model_paths[m.modcfgs@[1].chassis.model as int]@)
        + godot_bytes(model_paths[m.modcfgs@[1].hatch.model as int]@)
        + godot_bytes(model_paths[m.modcfgs@[2].chassis.model as int]@)
        + godot_bytes(model_paths[m.modcfgs@[2].hatch.model as int]@)
        + godot_bytes(model_paths[m.modcfgs@[3].chassis.model as int]@)
        + godot_bytes(model_paths[m.modcfgs@[3].hatch.model as int]@)
        + opt_path_bytes(m.modcfgs@[0].emblem_model, model_paths)
        + godot_bytes(model_paths[m.manipulator.model as int]@)
        + godot_bytes(model_paths[m.weapon_mount.model as int]@)
        + godot_bytes(effect_paths[m.eye.idx as int]@)
        + triple_bytes(eye_position_bits)
        + triple_bytes(collider_size_bits)
        + triple_bytes(collider_offset_bits)
}

impl Mech {
    /// The mech's scene file (see `mech_scene_bytes`); the eye position and
    /// the collider come scaled, as the export computes them.
    #[verifier::spinoff_prover]
    #[verifier::rlimit(50)]
    pub fn scene_bytes(
        &self,
        model_paths: &[String],
        effect_paths: &[String],
        eye_position_bits: (u32, u32, u32),
        collider_size_bits: (u32, u32, u32),
        collider_offset_bits: (u32, u32, u32),
    ) -> (r: Vec<u8>)
        requires
            self.modcfgs@.len() == MECH_CAMO_COUNT,
            forall|c: int|
                0 <= c < MECH_CAMO_COUNT ==> (#[trigger] self.modcfgs@[c]).chassis.model < model_paths@.len()
                    && self.modcfgs@[c].hatch.model < model_paths@.len(),
            names_entry(self.modcfgs@[0].emblem_model, model_paths@),
            self.manipulator.model < model_paths@.len(),
            self.weapon_mount.model < model_paths@.len(),
            self.eye.idx < effect_paths@.len(),
        ensures
            r@ == mech_scene_bytes(
                *self,
                model_paths@,
                effect_paths@,
                eye_position_bits,
                collider_size_bits,
                collider_offset_bits,
            ),
    {
        let mut w: Vec<u8> = Vec::new();
        let ghost w0 = w@;
        assert(self.modcfgs@[0].chassis.model < model_paths@.len());
        assert(self.modcfgs@[1].chassis.model < model_paths@.len());
        assert(self.modcfgs@[2].chassis.model < model_paths@.len());
        assert(self.modcfgs@[3].chassis.model < model_paths@.len());
        w.push(self.data.id);
        let ghost mut acc: Seq<u8> = seq![self.data.id];
        assert(w@ =~= w0 + acc);
        push_path_at(&mut w, model_paths, self.modcfgs[0].chassis.model as usize);
        proof {
            lemma_concat_step(w0, acc, godot_bytes(model_paths@[self.modcfgs@[0].chassis.model as int]@));
            acc = acc + godot_bytes(model_paths@[self.modcfgs@[0].chassis.model as int]@);
        }
        push_path_at(&mut w, model_paths, self.modcfgs[0].hatch.model as usize);
        proof {
            lemma_concat_step(w0, acc, godot_bytes(model_paths@[self.modcfgs@[0].hatch.model as int]@));
            acc = acc + godot_bytes(model_paths@[self.modcfgs@[0].hatch.model as int]@);
        }
        push_path_at(&mut w, model_paths, self.modcfgs[1].chassis.model as usize);
        proof {
            lemma_concat_step(w0, acc, godot_bytes(model_paths@[self.modcfgs@[1].chassis.model as int]@));
            acc = acc + godot_bytes(model_paths@[self.modcfgs@[1].chassis.model as int]@);
        }
        push_path_at(&mut w, model_paths, self.modcfgs[1].hatch.model as usize);
        proof {
            lemma_concat_step(w0, acc, godot_bytes(model_paths@[self.modcfgs@[1].hatch.model as int]@));
            acc = acc + godot_bytes(model_paths@[self.modcfgs@[1].hatch.model as int]@);
        }
        push_path_at(&mut w, model_paths, self.modcfgs[2].chassis.model as usize);
        proof {
            lemma_concat_step(w0, acc, godot_bytes(model_paths@[self.modcfgs@[2].chassis.model as int]@));
            acc = acc + godot_bytes(model_paths@[self.modcfgs@[2].chassis.model as int]@);
        }
        push_path_at(&mut w, model_paths, self.modcfgs[2].hatch.model as usize);
        proof {
            lemma_concat_step(w0, acc, godot_bytes(model_paths@[self.modcfgs@[2].hatch.model as int]@));
            acc = acc + godot_bytes(model_paths@[self.modcfgs@[2].hatch.model as int]@);
        }
        push_path_at(&mut w, model_paths, self.modcfgs[3].chassis.model as usize);
        proof {
            lemma_concat_step(w0, acc, godot_bytes(model_paths@[self.modcfgs@[3].chassis.model as int]@));
            acc = acc + godot_bytes(model_paths@[self.modcfgs@[3].chassis.model as int]@);
        }
        push_path_at(&mut w, model_paths, self.modcfgs[3].hatch.model as usize);
        proof {
            lemma_concat_step(w0, acc, godot_bytes(model_paths@[self.modcfgs@[3].hatch.model as int]@));
            acc = acc + godot_bytes(model_paths@[self.modcfgs@[3].hatch.model as int]@);
        }
        push_opt_path(&mut w, self.modcfgs[0].emblem_model, model_paths);
        proof {
            lemma_concat_step(w0, acc, opt_path_bytes(self.modcfgs@[0].emblem_model, model_paths@));
            acc = acc + opt_path_bytes(self.modcfgs@[0].emblem_model, model_paths@);
        }
        push_path_at(&mut w, model_paths, self.manipulator.model as usize);
        proof {
            lemma_concat_step(w0, acc, godot_bytes(model_paths@[self.manipulator.model as int]@));
            acc = acc + godot_bytes(model_paths@[self.manipulator.model as int]@);
        }
        push_path_at(&mut w, model_paths, self.weapon_mount.model as usize);
        proof {
            lemma_concat_step(w0, acc, godot_bytes(model_paths@[self.weapon_mount.model as int]@));
            acc = acc + godot_bytes(model_paths@[self.weapon_mount.model as int]@);
        }
        push_path_at(&mut w, effect_paths, self.eye.idx as usize);
        proof {
            lemma_concat_step(w0, acc, godot_bytes(effect_paths@[self.eye.idx as int]@));
            acc = acc + godot_bytes(effect_paths@[self.eye.idx as int]@);
        }
        push_triple(&mut w, eye_position_bits);
        proof {
            lemma_concat_step(w0, acc, triple_bytes(eye_position_bits));
            acc = acc + triple_bytes(eye_position_bits);
        }
        push_triple(&mut w, collider_size_bits);
        proof {
            lemma_concat_step(w0, acc, triple_bytes(collider_size_bits));
            acc = acc + triple_bytes(collider_size_bits);
        }
        push_triple(&mut w, collider_offset_bits);
        proof {
            lemma_concat_step(w0, acc, triple_bytes(collider_offset_bits));
            acc = acc + triple_bytes(collider_offset_bits);
        }
        assert(w@ =~= acc);
        assert(acc == mech_scene_bytes(
            *self,
            model_paths@,
            effect_paths@,
            eye_position_bits,
            collider_size_bits,
            collider_offset_bits,
        ));
        w
    }
}

} // verus!
