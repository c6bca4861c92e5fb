//! Weapons of the second title: their kinds, the tables of names and of
//! model lookups in the executable, and the rules that tie a weapon to its
//! texts and its projectile collider, and the weapon data records.
use vstd::prelude::*;

use crate::bbtools::xbe::{spec_c_string, spec_pointer_offset, spec_u32_table, SectionView, XbeError, XBE};
use crate::bytes::{bytes32, copy_range, le16, le32, push_u32_le, read_u16_le, read_u32_le, IoError};
use crate::bbtools::eff::TrailEffect;
use crate::bbtools::obj::{spec_loc_b, spec_pointer_records, ModelConfig, ModelConfigFlags, RecordKind};
use crate::titles::loc::mech::{models_match, paths_bytes, push_paths};
use crate::bbtools::{godot_bytes, write_godot_path};
use crate::bytes::lemma_concat_step;

verus! {

/// The kinds of weapons.
#[derive(Clone, Copy, PartialEq, Eq, Structural, Debug)]
pub enum WeaponType {
    /// Main weapons.
    MWEP,
    /// Sub weapons.
    SWEP,
    /// Chaff weapons.
    CWEP,
}

impl WeaponType {
    pub fn to_str(&self) -> (r: &'static str)
        ensures
            *self == WeaponType::MWEP ==> r@ == "MWEP"@,
            *self == WeaponType::SWEP ==> r@ == "SWEP"@,
            *self == WeaponType::CWEP ==> r@ == "CWEP"@,
    {
        match self {
            WeaponType::MWEP => "MWEP",
            WeaponType::SWEP => "SWEP",
            WeaponType::CWEP => "CWEP",
        }
    }

    /// The number of the kind in exported files.
    pub fn as_u8(&self) -> (r: u8)
        ensures
            r == match *self {
                WeaponType::MWEP => 0u8,
                WeaponType::SWEP => 1u8,
                WeaponType::CWEP => 2u8,
            },
    {
        match self {
            WeaponType::MWEP => 0,
            WeaponType::SWEP => 1,
            WeaponType::CWEP => 2,
        }
    }
}

/// Where a weapon's models are found: the index of its projectile model
/// and the index of its weapon model.
#[derive(Clone, Copy, PartialEq, Eq, Structural, Debug)]
pub struct WeaponLookup(pub u32, pub u32);

/// The names behind the first `n` pointers of `t`, or the first error met
/// reading them.
pub open spec fn names_from(data: Seq<u8>, secs: Seq<SectionView>, t: Seq<u32>, n: nat) -> Result<
    Seq<Seq<char>>,
    XbeError,
>
    decreases n,
{
    if n == 0 {
        Ok(Seq::empty())
    } else {
        match names_from(data, secs, t, (n - 1) as nat) {
            Err(e) => Err(e),
            Ok(prev) => match spec_c_string(data, secs, t[n - 1]) {
                Err(e) => Err(e),
                Ok(s) => Ok(prev.push(s)),
            },
        }
    }
}

pub proof fn lemma_names_err_stays(data: Seq<u8>, secs: Seq<SectionView>, t: Seq<u32>, k: nat, m: nat)
    requires
        k <= m,
        names_from(data, secs, t, k) is Err,
    ensures
        names_from(data, secs, t, m) == names_from(data, secs, t, k),
    decreases m,
{
    if k < m {
        lemma_names_err_stays(data, secs, t, k, (m - 1) as nat);
    }
}

/// The names of a table of `count` pointers to zero-terminated UTF-8 strings.
pub open spec fn spec_weapon_names(x: XBE, section: Seq<char>, offset: u32, count: nat) -> Result<
    Seq<Seq<char>>,
    XbeError,
> {
    match spec_u32_table(x.reader.data(), x.names(), x.sections(), section, offset, count) {
        Err(e) => Err(XbeError::Io(e)),
        Ok(t) => names_from(x.reader.data(), x.sections(), t, count),
    }
}

/// Reads the names behind a table of `count` pointers at `offset` of the
/// named section.
pub fn read_weapon_names(xbe: &mut XBE, section_name: &str, offset: u32, count: usize) -> (r: Result<
    Vec<String>,
    XbeError,
>)
    ensures
        final(xbe).same_image(old(xbe)),
        match (r, spec_weapon_names(*old(xbe), section_name@, offset, count as nat)) {
            (Ok(v), Ok(w)) => v@.len() == w.len() && forall|i: int|
                0 <= i < w.len() ==> (#[trigger] v@[i])@ == w[i],
            (Err(e), Err(f)) => e == f,
            _ => false,
        },
{
    let ghost x0 = *xbe;
    let pointers = match xbe.read_u32_table(section_name, offset, count) {
        Ok(t) => t,
        Err(e) => {
            return Err(XbeError::Io(e));
        },
    };
    let ghost t = pointers@;
    let mut strings: Vec<String> = Vec::with_capacity(count);
    let mut i: usize = 0;
    while i < pointers.len()
        invariant
            i <= pointers@.len(),
            pointers@.len() == count,
            t == pointers@,
            xbe.same_image(&x0),
            x0 == *old(xbe),
            spec_u32_table(x0.reader.data(), x0.names(), x0.sections(), section_name@, offset, count as nat)
                == Ok::<Seq<u32>, IoError>(t),
            names_from(x0.reader.data(), x0.sections(), t, i as nat) matches Ok(w) && strings@.len()
                == w.len() && forall|j: int| 0 <= j < w.len() ==> (#[trigger] strings@[j])@ == w[j],
        decreases pointers@.len() - i,
    {
        match xbe.read_c_string(pointers[i]) {
            Ok(s) => {
                strings.push(s);
            },
            Err(e) => {
                proof {
                    lemma_names_err_stays(x0.reader.data(), x0.sections(), t, (i + 1) as nat, count as nat);
                }
                return Err(e);
            },
        }
        i = i + 1;
    }
    Ok(strings)
}

/// The lookup behind a pointer: the two `u32` values it points to, or
/// zeros when no section lies under the pointer.
pub open spec fn lookup_at(data: Seq<u8>, secs: Seq<SectionView>, ptr: u32) -> Result<(u32, u32), IoError> {
    match spec_pointer_offset(secs, ptr) {
        Err(_) => Ok((0, 0)),
        Ok(p) => if p + 8 > data.len() {
            Err(IoError::UnexpectedEof)
        } else {
            Ok((le32(data, p as int) as u32, le32(data, p + 4) as u32))
        },
    }
}

/// The lookups behind the first `n` pointers of `t`, or the first error.
pub open spec fn lookups_from(data: Seq<u8>, secs: Seq<SectionView>, t: Seq<u32>, n: nat) -> Result<
    Seq<(u32, u32)>,
    IoError,
>
    decreases n,
{
    if n == 0 {
        Ok(Seq::empty())
    } else {
        match lookups_from(data, secs, t, (n - 1) as nat) {
            Err(e) => Err(e),
            Ok(prev) => match lookup_at(data, secs, t[n - 1]) {
                Err(e) => Err(e),
                Ok(l) => Ok(prev.push(l)),
            },
        }
    }
}

pub proof fn lemma_lookups_err_stays(data: Seq<u8>, secs: Seq<SectionView>, t: Seq<u32>, k: nat, m: nat)
    requires
        k <= m,
        lookups_from(data, secs, t, k) is Err,
    ensures
        lookups_from(data, secs, t, m) == lookups_from(data, secs, t, k),
    decreases m,
{
    if k < m {
        lemma_lookups_err_stays(data, secs, t, k, (m - 1) as nat);
    }
}

/// The lookups of a table of `count` pointers.
pub open spec fn spec_weapon_lookups(x: XBE, section: Seq<char>, offset: u32, count: nat) -> Result<
    Seq<(u32, u32)>,
    IoError,
> {
    match spec_u32_table(x.reader.data(), x.names(), x.sections(), section, offset, count) {
        Err(e) => Err(e),
        Ok(t) => lookups_from(x.reader.data(), x.sections(), t, count),
    }
}

/// Reads the lookups behind a table of `count` pointers at `offset` of the
/// named section; a pointer that no section lies under gives zeros.
pub fn read_weapon_lookups(xbe: &mut XBE, section_name: &str, offset: u32, count: usize) -> (r: Result<
    Vec<WeaponLookup>,
    IoError,
>)
    ensures
        final(xbe).same_image(old(xbe)),
        match (r, spec_weapon_lookups(*old(xbe), section_name@, offset, count as nat)) {
            (Ok(v), Ok(w)) => v@.len() == w.len() && forall|i: int|
                0 <= i < w.len() ==> (#[trigger] v@[i]).0 == w[i].0 && v@[i].1 == w[i].1,
            (Err(e), Err(f)) => e == f,
            _ => false,
        },
{
    let ghost x0 = *xbe;
    let pointers = match xbe.read_u32_table(section_name, offset, count) {
        Ok(t) => t,
        Err(e) => {
            return Err(e);
        },
    };
    let ghost t = pointers@;
    let mut lookups: Vec<WeaponLookup> = Vec::with_capacity(count);
    let mut i: usize = 0;
    while i < pointers.len()
        invariant
            i <= pointers@.len(),
            pointers@.len() == count,
            t == pointers@,
            xbe.same_image(&x0),
            x0 == *old(xbe),
            spec_u32_table(x0.reader.data(), x0.names(), x0.sections(), section_name@, offset, count as nat)
                == Ok::<Seq<u32>, IoError>(t),
            lookups_from(x0.reader.data(), x0.sections(), t, i as nat) matches Ok(w) && lookups@.len()
                == w.len() && forall|j: int|
                0 <= j < w.len() ==> (#[trigger] lookups@[j]).0 == w[j].0 && lookups@[j].1 == w[j].1,
        decreases pointers@.len() - i,
    {
        let lookup = if xbe.seek_pointer_offset(pointers[i]).is_ok() {
            let a = match xbe.reader.read_u32() {
                Ok(v) => v,
                Err(e) => {
                    proof {
                        lemma_lookups_err_stays(x0.reader.data(), x0.sections(), t, (i + 1) as nat, count as nat);
                    }
                    return Err(e);
                },
            };
            let b = match xbe.reader.read_u32() {
                Ok(v) => v,
                Err(e) => {
                    proof {
                        lemma_lookups_err_stays(x0.reader.data(), x0.sections(), t, (i + 1) as nat, count as nat);
                    }
                    return Err(e);
                },
            };
            WeaponLookup(a, b)
        } else {
            WeaponLookup(0, 0)
        };
        lookups.push(lookup);
        i = i + 1;
    }
    Ok(lookups)
}

/// The numbers of a weapon's name text and description text.
pub fn weapon_text_ids(weapon_type: WeaponType, id: u16) -> (r: (u16, u16))
    requires
        id + 1472 <= u16::MAX,
    ensures
        r == match weapon_type {
            WeaponType::MWEP => ((id + 1449) as u16, (id + 739) as u16),
            _ => ((id + 1472) as u16, (id + 762) as u16),
        },
{
    match weapon_type {
        WeaponType::MWEP => (id + 1449, id + 739),
        WeaponType::SWEP | WeaponType::CWEP => (id + 1472, id + 762),
    }
}

/// The projectile collider of a projectile model: colliders come in pairs
/// of models from model 1186 on.
pub fn projectile_collider_index(model: u16) -> (r: usize)
    requires
        model >= 1186,
    ensures
        r == (model - 1186) / 2,
{
    (model as usize - 1186) / 2
}

/// A weapon's collider takes its radius from its tracer trail: the weapon
/// fires the invisible projectile (collider 2), is neither melee nor
/// shield (flags `0x0108_0000`), and is a main weapon other than the spear
/// (weapon 21).
pub fn uses_tracer_radius(collider_idx: usize, weapon_flags: u32, id: usize, weapon_type: WeaponType) -> (r: bool)
    ensures
        r == (collider_idx == 2 && weapon_flags & 0x0108_0000u32 == 0 && id != 21 && weapon_type
            == WeaponType::MWEP),
{
    collider_idx == 2 && weapon_flags & 0x0108_0000 == 0 && (id != 21 && weapon_type
        == WeaponType::MWEP)
}


pub const WEAPON_DATA_SIZE: usize = 84;

/// A weapon's data record as stored: ids and counts as integers, the `f32`
/// values as their bits, times in frames and the volley spread in degrees.
/// The export converts the times to seconds and the spread to radians,
/// scales the muzzle offset, and halves the damage range of weapons that
/// `halves_damage_range`.
pub struct WeaponData {
    pub id: u8,
    pub initial_velocity_bits: u32,
    pub boost_max_bits: u32,
    pub boost_rate_bits: u32,
    pub gravity_acceleration_bits: u32,
    /// Per frame.
    pub torso_turn_rate_bits: u32,
    pub damage_range_bits: u32,
    pub range_max_bits: u32,
    pub range_min_bits: u32,
    pub damage_max: u16,
    pub rapid_fire: u16,
    pub firing_interval_frames: u16,
    pub reload_interval_frames: u16,
    pub volley_count: u8,
    pub volley_interval_frames: u16,
    pub impact_effect: u8,
    pub projectile_count: u16,
    pub magazine_count: u8,
    pub damage_min: u16,
    pub weight: u8,
    pub fire_probability: u8,
    pub fire_damage: u8,
    pub tracking: u8,
    pub volley_spread_degrees: u16,
    pub muzzle_offset_bits: (u32, u32),
    pub recoil_bits: u32,
    pub damage_type: u8,
    pub charge_delay_frames: u16,
    pub category: u8,
    pub flying_effect: u8,
    pub muzzle_count: (u8, u8),
    /// The weapon pushes the mech back: its flying type is the rail (20).
    pub mech_recoil: bool,
}

/// A record can be read: byte-sized values fit a byte, its life is 1 and
/// its two unknown bytes are zero.
pub open spec fn weapon_data_ok(b: Seq<u8>) -> bool {
    &&& le16(b, 0) <= 0xFF
    &&& le16(b, 2) == 1
    &&& b[48] == 0
    &&& b[60] == 0
    &&& le16(b, 44) <= 0xFF
    &&& le16(b, 52) <= 0xFF
    &&& le16(b, 76) <= 0xFF
    &&& le16(b, 58) <= 0xFF
}

/// The least damage: the most damage less the falloff, at least 0.
pub open spec fn spec_damage_min(damage_max: nat, falloff: nat) -> u16 {
    if damage_max >= falloff {
        (damage_max - falloff) as u16
    } else {
        0
    }
}

/// `w` is the record in the 84 bytes `b`.
pub open spec fn weapon_data_matches(w: WeaponData, b: Seq<u8>) -> bool {
    &&& w.id == le16(b, 0)
    &&& w.initial_velocity_bits == le32(b, 4)
    &&& w.boost_max_bits == le32(b, 8)
    &&& w.boost_rate_bits == le32(b, 12)
    &&& w.gravity_acceleration_bits == le32(b, 16)
    &&& w.torso_turn_rate_bits == le32(b, 20)
    &&& w.damage_range_bits == le32(b, 24)
    &&& w.range_max_bits == le32(b, 28)
    &&& w.range_min_bits == le32(b, 32)
    &&& w.damage_max == le16(b, 36)
    &&& w.rapid_fire == if le16(b, 38) >= 1 { le16(b, 38) as u16 } else { 1u16 }
    &&& w.firing_interval_frames == le16(b, 40)
    &&& w.reload_interval_frames == le16(b, 42)
    &&& w.volley_count == le16(b, 44)
    &&& w.volley_interval_frames == le16(b, 46)
    &&& w.impact_effect == b[49]
    &&& w.projectile_count == le16(b, 50)
    &&& w.magazine_count == le16(b, 52)
    &&& w.damage_min == spec_damage_min(le16(b, 36), le16(b, 54))
    &&& w.weight == b[56]
    &&& w.fire_probability == b[57]
    &&& w.fire_damage == le16(b, 58)
    &&& w.tracking == b[61]
    &&& w.volley_spread_degrees == le16(b, 62)
    &&& w.muzzle_offset_bits == (le32(b, 64) as u32, le32(b, 68) as u32)
    &&& w.recoil_bits == le32(b, 72)
    &&& w.damage_type == le16(b, 76)
    &&& w.charge_delay_frames == le16(b, 78)
    &&& w.category == b[80]
    &&& w.flying_effect == b[81]
    &&& w.muzzle_count == (b[82], b[83])
    &&& w.mech_recoil == (b[81] == 20)
}

/// Artillery (0), mortars (4) and MLRS (10) do damage over half the stored range.
pub fn halves_damage_range(category: u8) -> (r: bool)
    ensures
        r == (category == 0 || category == 4 || category == 10),
{
    category == 0 || category == 4 || category == 10
}

pub open spec fn spec_thrust_effect(category: u8) -> Option<u16> {
    match category {
        3 => Some(560u16),
        8 => Some(561u16),
        _ => None,
    }
}

pub open spec fn spec_mech_impact_effect(damage_type: u8, impact_effect: u8) -> Option<u16> {
    match damage_type {
        2 => match impact_effect {
            7 | 8 | 9 => Some(569u16),
            19 => Some(638u16),
            23 => Some(627u16),
            _ => None,
        },
        4 => if impact_effect == 13 {
            Some(618u16)
        } else {
            Some(545u16)
        },
        7 => Some(545u16),
        _ => None,
    }
}

/// The records behind a count: the 84-byte records that follow it, each
/// one readable.
pub open spec fn weapon_list_ok(b: Seq<u8>) -> bool {
    &&& b.len() >= 4
    &&& (b.len() - 4) % (WEAPON_DATA_SIZE as int) == 0
    &&& forall|k: int|
        0 <= k < (b.len() - 4) / (WEAPON_DATA_SIZE as int) ==> #[trigger] weapon_data_ok(
            weapon_record(b, k),
        )
}

pub open spec fn weapon_record(b: Seq<u8>, k: int) -> Seq<u8> {
    b.subrange(4 + 84 * k, 4 + 84 * k + 84)
}

impl WeaponData {
    /// Reads a record, or `None` where it cannot be read (see `weapon_data_ok`).
    pub fn import(buf: &[u8]) -> (r: Option<Self>)
        requires
            buf@.len() == WEAPON_DATA_SIZE,
        ensures
            r is Some <==> weapon_data_ok(buf@),
            r matches Some(w) ==> weapon_data_matches(w, buf@),
    {
        let id: u16 = read_u16_le(buf, 0);
        let life: u16 = read_u16_le(buf, 2);
        let volley_count: u16 = read_u16_le(buf, 44);
        let magazine_count: u16 = read_u16_le(buf, 52);
        let damage_type: u16 = read_u16_le(buf, 76);
        let fire_damage: u16 = read_u16_le(buf, 58);
        if id > 0xFF || life != 1 || buf[48] != 0 || buf[60] != 0 || volley_count > 0xFF
            || magazine_count > 0xFF || damage_type > 0xFF || fire_damage > 0xFF {
            return None;
        }
        let damage_max: u16 = read_u16_le(buf, 36);
        let damage_falloff: u16 = read_u16_le(buf, 54);
        let damage_min: u16 = if damage_max >= damage_falloff {
            damage_max - damage_falloff
        } else {
            0
        };
        let rapid: u16 = read_u16_le(buf, 38);
        Some(
            WeaponData {
                id: id as u8,
                initial_velocity_bits: read_u32_le(buf, 4),
                boost_max_bits: read_u32_le(buf, 8),
                boost_rate_bits: read_u32_le(buf, 12),
                gravity_acceleration_bits: read_u32_le(buf, 16),
                torso_turn_rate_bits: read_u32_le(buf, 20),
                damage_range_bits: read_u32_le(buf, 24),
                range_max_bits: read_u32_le(buf, 28),
                range_min_bits: read_u32_le(buf, 32),
                damage_max,
                rapid_fire: if rapid >= 1 {
                    rapid
                } else {
                    1
                },
                firing_interval_frames: read_u16_le(buf, 40),
                reload_interval_frames: read_u16_le(buf, 42),
                volley_count: volley_count as u8,
                volley_interval_frames: read_u16_le(buf, 46),
                impact_effect: buf[49],
                projectile_count: read_u16_le(buf, 50),
                magazine_count: magazine_count as u8,
                damage_min,
                weight: buf[56],
                fire_probability: buf[57],
                fire_damage: fire_damage as u8,
                tracking: buf[61],
                volley_spread_degrees: read_u16_le(buf, 62),
                muzzle_offset_bits: (read_u32_le(buf, 64), read_u32_le(buf, 68)),
                recoil_bits: read_u32_le(buf, 72),
                damage_type: damage_type as u8,
                charge_delay_frames: read_u16_le(buf, 78),
                category: buf[80],
                flying_effect: buf[81],
                muzzle_count: (buf[82], buf[83]),
                mech_recoil: buf[81] == 20,
            },
        )
    }

    /// Reads the records that follow a count, or `None` where the records
    /// are not whole or one cannot be read (see `weapon_list_ok`).
    pub fn import_multiple(buf: &[u8]) -> (r: Option<Vec<Self>>)
        ensures
            r is Some <==> weapon_list_ok(buf@),
            r matches Some(v) ==> v@.len() == (buf@.len() - 4) / (WEAPON_DATA_SIZE as int)
                && forall|k: int|
                0 <= k < v@.len() ==> #[trigger] weapon_data_matches(v@[k], weapon_record(buf@, k)),
    {
        let n: usize = buf.len();
        if n < 4 || (n - 4) % WEAPON_DATA_SIZE != 0 {
            return None;
        }
        let count: usize = (n - 4) / WEAPON_DATA_SIZE;
        let mut list: Vec<WeaponData> = Vec::with_capacity(count);
        let mut k: usize = 0;
        while k < count
            invariant
                k <= count,
                n == buf@.len(),
                n >= 4,
                (n - 4) % 84 == 0,
                count == (n - 4) / 84,
                list@.len() == k,
                forall|j: int| 0 <= j < k ==> #[trigger] weapon_data_ok(weapon_record(buf@, j)),
                forall|j: int|
                    0 <= j < k ==> #[trigger] weapon_data_matches(list@[j], weapon_record(buf@, j)),
            decreases count - k,
        {
            assert(4 + 84 * k + 84 <= n) by (nonlinear_arith)
                requires
                    k < count,
                    count == (n - 4) / 84,
                    (n - 4) % 84 == 0,
                    n >= 4,
            ;
            let rec = copy_range(buf, 4 + 84 * k, 4 + 84 * k + 84);
            assert(rec@ == weapon_record(buf@, k as int));
            match WeaponData::import(rec.as_slice()) {
                None => {
                    assert(!weapon_data_ok(weapon_record(buf@, k as int)));
                    return None;
                },
                Some(w) => {
                    list.push(w);
                },
            }
            k = k + 1;
        }
        Some(list)
    }

    /// The thrust effect of missiles (category 3) and cruise missiles (8).
    pub fn get_thrust_effect(&self) -> (r: Option<u16>)
        ensures
            r == spec_thrust_effect(self.category),
    {
        match self.category {
            3 => Some(560),
            8 => Some(561),
            _ => None,
        }
    }

    /// The effect of a hit on a mech: by damage type (2 proximity, 4
    /// artillery, 7 MLRS) and impact effect.
    pub fn get_mech_impact_effect(&self) -> (r: Option<u16>)
        ensures
            r == spec_mech_impact_effect(self.damage_type, self.impact_effect),
    {
        match self.damage_type {
            2 => match self.impact_effect {
                7 | 8 | 9 => Some(569),
                19 => Some(638),
                23 => Some(627),
                _ => None,
            },
            4 => {
                if self.impact_effect == 13 {
                    Some(618)
                } else {
                    Some(545)
                }
            },
            7 => Some(545),
            _ => None,
        }
    }
}

/// The shape that a projectile collides with, its measures as `f32` bits:
/// a sphere, a capsule or a box, each at a position, the last two turned by
/// a rotation (a quaternion).
#[derive(Clone, Copy, PartialEq, Eq, Debug)]
pub enum ProjectileCollider {
    Sphere { position: (u32, u32, u32), radius_bits: u32 },
    Capsule { position: (u32, u32, u32), rotation: (u32, u32, u32, u32), radius_bits: u32, height_bits: u32 },
    Box { position: (u32, u32, u32), rotation: (u32, u32, u32, u32), size: (u32, u32, u32) },
}

pub open spec fn triple_bytes(v: (u32, u32, u32)) -> Seq<u8> {
    bytes32(v.0 as nat) + bytes32(v.1 as nat) + bytes32(v.2 as nat)
}

pub open spec fn quad_bytes(v: (u32, u32, u32, u32)) -> Seq<u8> {
    bytes32(v.0 as nat) + bytes32(v.1 as nat) + bytes32(v.2 as nat) + bytes32(v.3 as nat)
}

/// How a collider is written: its kind (0 sphere, 1 capsule, 2 box), then
/// its position, rotation and measures, little-endian.
pub open spec fn collider_bytes(c: ProjectileCollider) -> Seq<u8> {
    match c {
        ProjectileCollider::Sphere { position, radius_bits } => seq![0u8] + triple_bytes(position) + bytes32(
            radius_bits as nat,
        ),
        ProjectileCollider::Capsule { position, rotation, radius_bits, height_bits } => seq![1u8] + triple_bytes(
            position,
        ) + quad_bytes(rotation) + bytes32(radius_bits as nat) + bytes32(height_bits as nat),
        ProjectileCollider::Box { position, rotation, size } => seq![2u8] + triple_bytes(position) + quad_bytes(
            rotation,
        ) + triple_bytes(size),
    }
}

pub(crate) fn push_triple(w: &mut Vec<u8>, v: (u32, u32, u32))
    ensures
        final(w)@ == old(w)@ + triple_bytes(v),
{
    let ghost w0 = w@;
    push_u32_le(w, v.0);
    push_u32_le(w, v.1);
    push_u32_le(w, v.2);
    assert(w@ =~= w0 + triple_bytes(v));
}

fn push_quad(w: &mut Vec<u8>, v: (u32, u32, u32, u32))
    ensures
        final(w)@ == old(w)@ + quad_bytes(v),
{
    let ghost w0 = w@;
    push_u32_le(w, v.0);
    push_u32_le(w, v.1);
    push_u32_le(w, v.2);
    push_u32_le(w, v.3);
    assert(w@ =~= w0 + quad_bytes(v));
}

impl ProjectileCollider {
    /// Appends the collider as the export writes it (see `collider_bytes`).
    #[verifier::spinoff_prover]
    pub fn write(&self, writer: &mut Vec<u8>)
        ensures
            final(writer)@ == old(writer)@ + collider_bytes(*self),
    {
        let ghost w0 = writer@;
        match *self {
            ProjectileCollider::Sphere { position, radius_bits } => {
                writer.push(0);
                push_triple(writer, position);
                push_u32_le(writer, radius_bits);
            },
            ProjectileCollider::Capsule { position, rotation, radius_bits, height_bits } => {
                writer.push(1);
                push_triple(writer, position);
                push_quad(writer, rotation);
                push_u32_le(writer, radius_bits);
                push_u32_le(writer, height_bits);
            },
            ProjectileCollider::Box { position, rotation, size } => {
                writer.push(2);
                push_triple(writer, position);
                push_quad(writer, rotation);
                push_triple(writer, size);
            },
        }
        assert(writer@ =~= w0 + collider_bytes(*self));
    }
}

/// The effects of a weapon: on the mech, when charging and firing (muzzle
/// flashes, smoke, casing, lights and where they show, as `f32` bits), and
/// along the projectile's flight (flare, smoke, thrust, impact on a mech,
/// trails).
pub struct WeaponEffects {
    pub mech: Option<u16>,
    pub charging: Option<u16>,
    pub firing: Vec<u16>,
    pub smoke: Option<u16>,
    pub casing: Option<u16>,
    pub lights: Vec<u8>,
    pub lights_offset_bits: (u32, u32, u32),
    pub flare: Option<u16>,
    pub flying: Vec<u16>,
    pub thrust: Option<u16>,
    pub mech_impact: Option<u16>,
    pub smoke_trail: Option<u16>,
    pub tracer_trail: Option<u16>,
}

/// `a` and `b` are the same effects.
pub open spec fn same_effects(a: WeaponEffects, b: WeaponEffects) -> bool {
    &&& a.mech == b.mech
    &&& a.charging == b.charging
    &&& a.firing@ == b.firing@
    &&& a.smoke == b.smoke
    &&& a.casing == b.casing
    &&& a.lights@ == b.lights@
    &&& a.lights_offset_bits == b.lights_offset_bits
    &&& a.flare == b.flare
    &&& a.flying@ == b.flying@
    &&& a.thrust == b.thrust
    &&& a.mech_impact == b.mech_impact
    &&& a.smoke_trail == b.smoke_trail
    &&& a.tracer_trail == b.tracer_trail
}

fn copy_u16s(v: &Vec<u16>) -> (r: Vec<u16>)
    ensures
        r@ == v@,
{
    let mut out: Vec<u16> = Vec::with_capacity(v.len());
    let mut k: usize = 0;
    while k < v.len()
        invariant
            k <= v@.len(),
            out@ == v@.subrange(0, k as int),
        decreases v@.len() - k,
    {
        out.push(v[k]);
        k = k + 1;
        assert(out@ =~= v@.subrange(0, k as int));
    }
    assert(out@ =~= v@);
    out
}

impl WeaponEffects {
    /// A copy of the effects.
    pub fn copy(&self) -> (r: WeaponEffects)
        ensures
            same_effects(r, *self),
    {
        let lights = copy_range(self.lights.as_slice(), 0, self.lights.len());
        assert(lights@ =~= self.lights@);
        WeaponEffects {
            mech: self.mech,
            charging: self.charging,
            firing: copy_u16s(&self.firing),
            smoke: self.smoke,
            casing: self.casing,
            lights,
            lights_offset_bits: self.lights_offset_bits,
            flare: self.flare,
            flying: copy_u16s(&self.flying),
            thrust: self.thrust,
            mech_impact: self.mech_impact,
            smoke_trail: self.smoke_trail,
            tracer_trail: self.tracer_trail,
        }
    }
}

/// The tables of the executable that weapons of a kind are assembled from:
/// projectile models, weapon models with their flags, the lookups that tie
/// a weapon to both, and the weapons' names.
pub struct WeaponTables {
    pub projectile_models: Vec<ModelConfig>,
    pub weapon_models: Vec<ModelConfigFlags>,
    pub lookups: Vec<WeaponLookup>,
    pub names: Vec<String>,
}

/// Where the tables of a kind of weapon lie in `.data`, and how many
/// entries they have: weapon models, lookups, names.
pub open spec fn weapon_table_places(ty: WeaponType) -> (u32, nat, u32, nat, u32, nat) {
    match ty {
        WeaponType::MWEP => (0x58620, 26, 0x58480, 26, 0x58AE0, 26),
        _ => (0x58998, 32, 0x58790, 33, 0x58B48, 33),
    }
}

/// How reading the weapon tables of kind `ty` from `x` ends, in the order
/// the reader takes them: projectile models, weapon models, lookups,
/// names. `None` where a model record has no model.
pub open spec fn weapon_tables_outcome(x: XBE, ty: WeaponType) -> Option<Result<(), XbeError>> {
    let (wm, wmc, lk, lkc, nm, nmc) = weapon_table_places(ty);
    match spec_pointer_records(x, ".data"@, 0x58A90, 15, RecordKind::ModelA) {
        None => None,
        Some(Err(e)) => Some(Err(XbeError::Io(e))),
        Some(Ok(_)) => match spec_pointer_records(x, ".data"@, wm, wmc, RecordKind::FlagsB) {
            None => None,
            Some(Err(e)) => Some(Err(XbeError::Io(e))),
            Some(Ok(_)) => match spec_weapon_lookups(x, ".data"@, lk, lkc) {
                Err(e) => Some(Err(XbeError::Io(e))),
                Ok(_) => match spec_weapon_names(x, ".data"@, nm, nmc) {
                    Err(e) => Some(Err(e)),
                    Ok(_) => Some(Ok(())),
                },
            },
        },
    }
}

/// `t` holds what each step of reading the weapon tables of kind `ty` from
/// `x` gave.
pub open spec fn weapon_tables_match(t: WeaponTables, x: XBE, ty: WeaponType) -> bool {
    let (wm, wmc, lk, lkc, nm, nmc) = weapon_table_places(ty);
    &&& spec_pointer_records(x, ".data"@, 0x58A90, 15, RecordKind::ModelA) matches Some(Ok(w)) && models_match(
        t.projectile_models@,
        w,
    )
    &&& spec_pointer_records(x, ".data"@, wm, wmc, RecordKind::FlagsB) matches Some(Ok(w)) && t.weapon_models@.len()
        == w.len() && forall|i: int|
        0 <= i < w.len() ==> (#[trigger] t.weapon_models@[i]).modcfg == spec_loc_b(w[i], 0)
            && t.weapon_models@[i].flags == le32(w[i], 8)
    &&& spec_weapon_lookups(x, ".data"@, lk, lkc) matches Ok(w) && t.lookups@.len() == w.len() && forall|i: int|
        0 <= i < w.len() ==> (#[trigger] t.lookups@[i]).0 == w[i].0 && t.lookups@[i].1 == w[i].1
    &&& spec_weapon_names(x, ".data"@, nm, nmc) matches Ok(w) && t.names@.len() == w.len() && forall|i: int|
        0 <= i < w.len() ==> (#[trigger] t.names@[i])@ == w[i]
}

/// The result of reading the weapon tables of kind `ty` from `x`.
pub open spec fn weapon_tables_read(x: XBE, ty: WeaponType, r: Option<Result<WeaponTables, XbeError>>) -> bool {
    match weapon_tables_outcome(x, ty) {
        None => r is None,
        Some(Err(e)) => r == Some(Err::<WeaponTables, XbeError>(e)),
        Some(Ok(_)) => r matches Some(Ok(t)) && weapon_tables_match(t, x, ty),
    }
}

/// Reads the tables that weapons of kind `weapon_type` are assembled from
/// (see `weapon_tables_outcome`).
pub fn read_weapon_tables(xbe: &mut XBE, weapon_type: WeaponType) -> (r: Option<Result<WeaponTables, XbeError>>)
    ensures
        final(xbe).same_image(old(xbe)),
        weapon_tables_read(*old(xbe), weapon_type, r),
{
    let ghost x0 = *xbe;
    let (wm, wmc, lk, lkc, nm, nmc): (u32, usize, u32, usize, u32, usize) = match weapon_type {
        WeaponType::MWEP => (0x58620, 26, 0x58480, 26, 0x58AE0, 26),
        WeaponType::SWEP | WeaponType::CWEP => (0x58998, 32, 0x58790, 33, 0x58B48, 33),
    };
    let projectile_models = match ModelConfig::import_pointers(xbe, ".data", 0x58A90, 15) {
        None => {
            return None;
        },
        Some(Err(e)) => {
            return Some(Err(XbeError::Io(e)));
        },
        Some(Ok(v)) => v,
    };
    assert(spec_pointer_records(*xbe, ".data"@, wm, wmc as nat, RecordKind::FlagsB) == spec_pointer_records(
        x0,
        ".data"@,
        wm,
        wmc as nat,
        RecordKind::FlagsB,
    ));
    let weapon_models = match ModelConfigFlags::import_pointers_b(xbe, ".data", wm, wmc) {
        None => {
            return None;
        },
        Some(Err(e)) => {
            return Some(Err(XbeError::Io(e)));
        },
        Some(Ok(v)) => v,
    };
    assert(spec_weapon_lookups(*xbe, ".data"@, lk, lkc as nat) == spec_weapon_lookups(x0, ".data"@, lk, lkc as nat));
    let lookups = match read_weapon_lookups(xbe, ".data", lk, lkc) {
        Err(e) => {
            return Some(Err(XbeError::Io(e)));
        },
        Ok(v) => v,
    };
    assert(spec_weapon_names(*xbe, ".data"@, nm, nmc as nat) == spec_weapon_names(x0, ".data"@, nm, nmc as nat));
    let names = match read_weapon_names(xbe, ".data", nm, nmc) {
        Err(e) => {
            return Some(Err(e));
        },
        Ok(v) => v,
    };
    Some(Ok(WeaponTables { projectile_models, weapon_models, lookups, names }))
}

/// A weapon: its kind, data record, effects, name, text ids, weapon and
/// projectile models, and projectile collider. Where the collider's radius
/// is a quarter of the starting width of the weapon's tracer trail, the
/// bits of that width come with it; the export sets the radius.
pub struct Weapon {
    pub wep_type: WeaponType,
    pub data: WeaponData,
    pub effects: WeaponEffects,
    pub display_name: String,
    pub name_text: u16,
    pub description_text: u16,
    pub weapon_modcfg: ModelConfigFlags,
    pub projectile_modcfg: ModelConfig,
    pub projectile_collider: ProjectileCollider,
    pub tracer_width_bits: Option<u32>,
}

/// The collider of a weapon takes its radius from its tracer trail (see
/// `uses_tracer_radius`).
pub open spec fn tracer_sets_radius(collider_idx: int, weapon_flags: u32, id: int, ty: WeaponType) -> bool {
    collider_idx == 2 && weapon_flags & 0x0108_0000u32 == 0 && id != 21 && ty == WeaponType::MWEP
}

/// The collider of the projectile model of `t` that weapon `d` fires.
pub open spec fn collider_of(t: WeaponTables, d: WeaponData) -> int {
    (t.projectile_models@[t.lookups@[d.id as int].0 as int].model - 1186) / 2
}

/// The data record `d` makes a weapon of kind `ty` out of the tables `t`,
/// the effects, the tracer trails and the colliders: its id names a
/// lookup, effects and a name, the lookup names a weapon and a projectile
/// model, the projectile model a collider, and where the tracer sets the
/// radius the collider is a sphere and the weapon has a tracer trail.
pub open spec fn weapon_ok(
    t: WeaponTables,
    ty: WeaponType,
    effects: Seq<WeaponEffects>,
    tracers: Seq<TrailEffect>,
    colliders: Seq<ProjectileCollider>,
    d: WeaponData,
) -> bool {
    let id = d.id as int;
    let lk = t.lookups@[id];
    let ci = collider_of(t, d);
    &&& id < t.lookups@.len()
    &&& lk.1 < t.weapon_models@.len()
    &&& lk.0 < t.projectile_models@.len()
    &&& id < effects.len()
    &&& t.projectile_models@[lk.0 as int].model >= 1186
    &&& ci < colliders.len()
    &&& tracer_sets_radius(ci, t.weapon_models@[lk.1 as int].flags, id, ty) ==> (colliders[ci] is Sphere
        && (effects[id].tracer_trail matches Some(k) && k < tracers.len()))
    &&& id < t.names@.len()
}

/// `w` is the weapon that data record `d` makes (see `weapon_ok`).
pub open spec fn weapon_matches(
    w: Weapon,
    t: WeaponTables,
    ty: WeaponType,
    effects: Seq<WeaponEffects>,
    tracers: Seq<TrailEffect>,
    colliders: Seq<ProjectileCollider>,
    d: WeaponData,
) -> bool {
    let id = d.id as int;
    let lk = t.lookups@[id];
    let ci = collider_of(t, d);
    let wm = t.weapon_models@[lk.1 as int];
    &&& w.wep_type == ty
    &&& w.data == d
    &&& same_effects(w.effects, effects[id])
    &&& w.display_name@ == t.names@[id]@
    &&& (w.name_text, w.description_text) == match ty {
        WeaponType::MWEP => ((id + 1449) as u16, (id + 739) as u16),
        _ => ((id + 1472) as u16, (id + 762) as u16),
    }
    &&& w.weapon_modcfg == wm
    &&& w.projectile_modcfg == t.projectile_models@[lk.0 as int]
    &&& w.projectile_collider == colliders[ci]
    &&& w.tracer_width_bits == if tracer_sets_radius(ci, wm.flags, id, ty) {
        Some(tracers[effects[id].tracer_trail->Some_0 as int].width_start_bits)
    } else {
        None
    }
}

impl Weapon {
    /// Makes the weapon of data record `d` (see `weapon_ok`).
    pub fn assemble(
        t: &WeaponTables,
        weapon_type: WeaponType,
        effects: &[WeaponEffects],
        tracers: &[TrailEffect],
        colliders: &[ProjectileCollider],
        d: WeaponData,
    ) -> (r: Option<Weapon>)
        ensures
            r is Some <==> weapon_ok(*t, weapon_type, effects@, tracers@, colliders@, d),
            r matches Some(w) ==> weapon_matches(w, *t, weapon_type, effects@, tracers@, colliders@, d),
    {
        let id: usize = d.id as usize;
        if id >= t.lookups.len() {
            return None;
        }
        let lk: WeaponLookup = t.lookups[id];
        let wi: usize = lk.1 as usize;
        let pi: usize = lk.0 as usize;
        if wi >= t.weapon_models.len() || pi >= t.projectile_models.len() || id >= effects.len() {
            return None;
        }
        let weapon_modcfg: ModelConfigFlags = t.weapon_models[wi];
        let projectile_modcfg: ModelConfig = t.projectile_models[pi];
        if projectile_modcfg.model < 1186 {
            return None;
        }
        let ci: usize = projectile_collider_index(projectile_modcfg.model);
        if ci >= colliders.len() {
            return None;
        }
        let collider: ProjectileCollider = colliders[ci];
        let tracer_width_bits: Option<u32> = if uses_tracer_radius(ci, weapon_modcfg.flags, id, weapon_type) {
            match collider {
                ProjectileCollider::Sphere { .. } => {},
                _ => {
                    return None;
                },
            }
            match effects[id].tracer_trail {
                None => {
                    return None;
                },
                Some(k) => {
                    if k as usize >= tracers.len() {
                        return None;
                    }
                    Some(tracers[k as usize].width_start_bits)
                },
            }
        } else {
            None
        };
        if id >= t.names.len() {
            return None;
        }
        let (name_text, description_text) = weapon_text_ids(weapon_type, d.id as u16);
        let w = Weapon {
            wep_type: weapon_type,
            data: d,
            effects: effects[id].copy(),
            display_name: t.names[id].clone(),
            name_text,
            description_text,
            weapon_modcfg,
            projectile_modcfg,
            projectile_collider: collider,
            tracer_width_bits,
        };
        Some(w)
    }

    /// The id of the weapon.
    pub fn get_id(&self) -> (r: u8)
        ensures
            r == self.data.id,
    {
        self.data.id
    }

    /// The weapon's model, then its projectile's.
    pub fn get_model_configs(&self) -> (r: Vec<ModelConfig>)
        ensures
            r@ == seq![self.weapon_modcfg.modcfg, self.projectile_modcfg],
    {
        let mut r: Vec<ModelConfig> = Vec::with_capacity(2);
        r.push(self.weapon_modcfg.modcfg);
        r.push(self.projectile_modcfg);
        assert(r@ =~= seq![self.weapon_modcfg.modcfg, self.projectile_modcfg]);
        r
    }
}

/// `r` is what assembling a weapon for each data record of `data` gives:
/// `None` where the effects are not one per record or a record does not
/// fit (see `weapon_ok`).
pub open spec fn weapons_assembled(
    t: WeaponTables,
    ty: WeaponType,
    data: Seq<WeaponData>,
    effects: Seq<WeaponEffects>,
    tracers: Seq<TrailEffect>,
    colliders: Seq<ProjectileCollider>,
    r: Option<Vec<Weapon>>,
) -> bool {
    let ok = data.len() == effects.len() && forall|k: int|
        0 <= k < data.len() ==> weapon_ok(t, ty, effects, tracers, colliders, #[trigger] data[k]);
    match r {
        None => !ok,
        Some(ws) => ok && ws@.len() == data.len() && forall|k: int|
            0 <= k < data.len() ==> weapon_matches(#[trigger] ws@[k], t, ty, effects, tracers, colliders, data[k]),
    }
}

/// Makes the weapon of each data record, in order (see `weapon_ok`); the
/// effects come one per record.
pub fn assemble_weapons(
    t: &WeaponTables,
    weapon_type: WeaponType,
    data: Vec<WeaponData>,
    effects: &[WeaponEffects],
    tracers: &[TrailEffect],
    colliders: &[ProjectileCollider],
) -> (r: Option<Vec<Weapon>>)
    ensures
        weapons_assembled(*t, weapon_type, data@, effects@, tracers@, colliders@, r),
{
    if data.len() != effects.len() {
        return None;
    }
    let ghost d0 = data@;
    let mut rest = data;
    let mut out: Vec<Weapon> = Vec::with_capacity(rest.len());
    while rest.len() > 0
        invariant
            d0 == data@,
            d0.len() == effects@.len(),
            out@.len() + rest@.len() == d0.len(),
            rest@ == d0.subrange(out@.len() as int, d0.len() as int),
            forall|j: int| 0 <= j < out@.len() ==> weapon_ok(*t, weapon_type, effects@, tracers@, colliders@, #[trigger] d0[j]),
            forall|j: int|
                0 <= j < out@.len() ==> weapon_matches(#[trigger] out@[j], *t, weapon_type, effects@, tracers@, colliders@, d0[j]),
        decreases rest@.len(),
    {
        let ghost k = out@.len() as int;
        let d = rest.remove(0);
        assert(d == d0[k]);
        match Weapon::assemble(t, weapon_type, effects, tracers, colliders, d) {
            None => {
                assert(0 <= k < d0.len() && !weapon_ok(*t, weapon_type, effects@, tracers@, colliders@, d0[k]));
                return None;
            },
            Some(w) => {
                out.push(w);
            },
        }
        assert(rest@ =~= d0.subrange(out@.len() as int, d0.len() as int));
    }
    Some(out)
}

impl Weapon {
    /// Reads the weapon tables of kind `weapon_type` from the executable,
    /// then makes the weapon of each data record (see
    /// `weapon_tables_outcome` and `weapon_ok`).
    pub fn import(
        xbe: &mut XBE,
        weapon_data: Vec<WeaponData>,
        weapon_type: WeaponType,
        weapon_effects: &[WeaponEffects],
        tracers: &[TrailEffect],
        projectile_colliders: &[ProjectileCollider],
    ) -> (r: Option<Result<Vec<Weapon>, XbeError>>)
        ensures
            final(xbe).same_image(old(xbe)),
            match weapon_tables_outcome(*old(xbe), weapon_type) {
                None => r is None,
                Some(Err(e)) => r == Some(Err::<Vec<Weapon>, XbeError>(e)),
                Some(Ok(_)) => exists|t: WeaponTables|
                    #![trigger weapon_tables_match(t, *old(xbe), weapon_type)]
                    weapon_tables_match(t, *old(xbe), weapon_type) && weapons_assembled(
                        t,
                        weapon_type,
                        weapon_data@,
                        weapon_effects@,
                        tracers@,
                        projectile_colliders@,
                        match r {
                            Some(Ok(ws)) => Some(ws),
                            _ => None,
                        },
                    ) && !(r matches Some(Err(_))),
            },
    {
        let ghost x0 = *xbe;
        let t = match read_weapon_tables(xbe, weapon_type) {
            None => {
                return None;
            },
            Some(Err(e)) => {
                return Some(Err(e));
            },
            Some(Ok(t)) => t,
        };
        assert(weapon_tables_match(t, x0, weapon_type));
        let ws = assemble_weapons(&t, weapon_type, weapon_data, weapon_effects, tracers, projectile_colliders);
        match ws {
            None => None,
            Some(v) => Some(Ok(v)),
        }
    }
}

/// The number of a kind of weapon in exported files.
pub open spec fn type_number(ty: WeaponType) -> u8 {
    match ty {
        WeaponType::MWEP => 0u8,
        WeaponType::SWEP => 1u8,
        WeaponType::CWEP => 2u8,
    }
}

/// The engine path of effect `idx` taken from `paths`, or a zero length for
/// none.
pub open spec fn opt_path_bytes(idx: Option<u16>, paths: Seq<String>) -> Seq<u8> {
    match idx {
        Some(i) => godot_bytes(paths[i as int]@),
        None => bytes32(0),
    }
}

/// The engine paths of the effects `ids`, each taken from `paths`.
pub open spec fn effect_paths_bytes(ids: Seq<u16>, paths: Seq<String>) -> Seq<u8>
    decreases ids.len(),
{
    if ids.len() == 0 {
        Seq::empty()
    } else {
        effect_paths_bytes(ids.drop_last(), paths) + godot_bytes(paths[ids.last() as int]@)
    }
}

/// The count of `ids` (as a little-endian `u32`), then their paths.
pub open spec fn counted_paths_bytes(ids: Seq<u16>, paths: Seq<String>) -> Seq<u8> {
    bytes32((ids.len() as u32) as nat) + effect_paths_bytes(ids, paths)
}

/// Every id given names an entry of `paths`.
pub open spec fn names_entry(idx: Option<u16>, paths: Seq<String>) -> bool {
    idx matches Some(i) ==> i < paths.len()
}

/// Appends the engine path `paths[idx]`.
pub(crate) fn push_path_at(w: &mut Vec<u8>, paths: &[String], idx: usize)
    requires
        idx < paths@.len(),
    ensures
        final(w)@ == old(w)@ + godot_bytes(paths@[idx as int]@),
{
    write_godot_path(paths[idx].as_str(), w);
}

pub(crate) fn push_opt_path(w: &mut Vec<u8>, idx: Option<u16>, paths: &[String])
    requires
        names_entry(idx, paths@),
    ensures
        final(w)@ == old(w)@ + opt_path_bytes(idx, paths@),
{
    match idx {
        Some(i) => write_godot_path(paths[i as usize].as_str(), w),
        None => push_u32_le(w, 0),
    }
}

fn push_counted_paths(w: &mut Vec<u8>, ids: &Vec<u16>, paths: &[String])
    requires
        forall|k: int| 0 <= k < ids@.len() ==> (#[trigger] ids@[k]) < paths@.len(),
    ensures
        final(w)@ == old(w)@ + counted_paths_bytes(ids@, paths@),
{
    let ghost w0 = w@;
    #[verifier::truncate]
    let count: u32 = ids.len() as u32;
    push_u32_le(w, count);
    let ghost w1 = w@;
    let mut k: usize = 0;
    while k < ids.len()
        invariant
            k <= ids@.len(),
            forall|j: int| 0 <= j < ids@.len() ==> (#[trigger] ids@[j]) < paths@.len(),
            w@ == w1 + effect_paths_bytes(ids@.subrange(0, k as int), paths@),
        decreases ids@.len() - k,
    {
        write_godot_path(paths[ids[k] as usize].as_str(), w);
        k = k + 1;
        assert(ids@.subrange(0, k as int).drop_last() =~= ids@.subrange(0, k - 1));
        assert(w@ =~= w1 + effect_paths_bytes(ids@.subrange(0, k as int), paths@));
    }
    assert(ids@.subrange(0, k as int) =~= ids@);
    assert(w@ =~= w0 + counted_paths_bytes(ids@, paths@));
}

fn push_counted_lights(w: &mut Vec<u8>, ids: &Vec<u8>, paths: &[String])
    requires
        forall|k: int| 0 <= k < ids@.len() ==> (#[trigger] ids@[k]) < paths@.len(),
    ensures
        final(w)@ == old(w)@ + bytes32((ids@.len() as u32) as nat) + paths_bytes(ids@, paths@),
{
    let ghost w0 = w@;
    #[verifier::truncate]
    let count: u32 = ids.len() as u32;
    push_u32_le(w, count);
    push_paths(w, ids, paths);
    assert(w@ =~= w0 + bytes32((ids@.len() as u32) as nat) + paths_bytes(ids@, paths@));
}

/// The weapon's scene file: its id and kind, its model's flags and path,
/// the paths of its mech, charging, firing, smoke and casing effects
/// (from `effect_paths` by effect id), where its lights show (as `f32`
/// bits) and the paths of its lights (from `light_paths`).
pub open spec fn weapon_scene_bytes(w: Weapon, model_paths: Seq<String>, effect_paths: Seq<String>, light_paths: Seq<String>) -> Seq<u8> {
    seq![w.data.id] + seq![type_number(w.wep_type)] + bytes32(w.weapon_modcfg.flags as nat) + godot_bytes(
        model_paths[w.weapon_modcfg.modcfg.model as int]@,
    ) + opt_path_bytes(w.effects.mech, effect_paths) + opt_path_bytes(w.effects.charging, effect_paths)
        + counted_paths_bytes(w.effects.firing@, effect_paths) + opt_path_bytes(w.effects.smoke, effect_paths)
        + opt_path_bytes(w.effects.casing, effect_paths) + triple_bytes(w.effects.lights_offset_bits) + (bytes32(
        (w.effects.lights@.len() as u32) as nat,
    ) + paths_bytes(w.effects.lights@, light_paths))
}

/// The projectile's scene file: the weapon's id and kind, the projectile
/// model's path, its collider, and the paths of its flare, flying, thrust
/// and mech impact effects (from `effect_paths`), its smoke trail (from
/// `smoke_trail_paths`) and its tracer trail (from `tracer_trail_paths`).
pub open spec fn projectile_scene_bytes(
    w: Weapon,
    model_paths: Seq<String>,
    effect_paths: Seq<String>,
    smoke_trail_paths: Seq<String>,
    tracer_trail_paths: Seq<String>,
) -> Seq<u8> {
    seq![w.data.id] + seq![type_number(w.wep_type)] + godot_bytes(model_paths[w.projectile_modcfg.model as int]@)
        + collider_bytes(w.projectile_collider) + opt_path_bytes(w.effects.flare, effect_paths)
        + counted_paths_bytes(w.effects.flying@, effect_paths) + opt_path_bytes(w.effects.thrust, effect_paths)
        + opt_path_bytes(w.effects.mech_impact, effect_paths) + opt_path_bytes(w.effects.smoke_trail, smoke_trail_paths)
        + opt_path_bytes(w.effects.tracer_trail, tracer_trail_paths)
}

impl Weapon {
    /// The weapon's scene file (see `weapon_scene_bytes`): the path of
    /// model `m` is `model_paths[m]`, of effect `e` `effect_paths[e]`, of
    /// light `l` `light_paths[l]`.
    #[verifier::spinoff_prover]
    #[verifier::rlimit(50)]
    pub fn weapon_scene(&self, model_paths: &[String], effect_paths: &[String], light_paths: &[String]) -> (r: Vec<u8>)
        requires
            self.weapon_modcfg.modcfg.model < model_paths@.len(),
            names_entry(self.effects.mech, effect_paths@),
            names_entry(self.effects.charging, effect_paths@),
            names_entry(self.effects.smoke, effect_paths@),
            names_entry(self.effects.casing, effect_paths@),
            forall|k: int| 0 <= k < self.effects.firing@.len() ==> (#[trigger] self.effects.firing@[k]) < effect_paths@.len(),
            forall|k: int| 0 <= k < self.effects.lights@.len() ==> (#[trigger] self.effects.lights@[k]) < light_paths@.len(),
        ensures
            r@ == weapon_scene_bytes(*self, model_paths@, effect_paths@, light_paths@),
    {
        let mut w: Vec<u8> = Vec::new();
        let ghost w0 = w@;
        w.push(self.data.id);
        let ghost mut acc: Seq<u8> = seq![self.data.id];
        assert(w@ =~= w0 + acc);
        w.push(self.wep_type.as_u8());
        proof {
            lemma_concat_step(w0, acc, seq![type_number(self.wep_type)]);
            acc = acc + seq![type_number(self.wep_type)];
        }
        push_u32_le(&mut w, self.weapon_modcfg.flags);
        proof {
            lemma_concat_step(w0, acc, bytes32(self.weapon_modcfg.flags as nat));
            acc = acc + bytes32(self.weapon_modcfg.flags as nat);
        }
        push_path_at(&mut w, model_paths, self.weapon_modcfg.modcfg.model as usize);
        proof {
            lemma_concat_step(w0, acc, godot_bytes(model_paths@[self.weapon_modcfg.modcfg.model as int]@));
            acc = acc + godot_bytes(model_paths@[self.weapon_modcfg.modcfg.model as int]@);
        }
        push_opt_path(&mut w, self.effects.mech, effect_paths);
        proof {
            lemma_concat_step(w0, acc, opt_path_bytes(self.effects.mech, effect_paths@));
            acc = acc + opt_path_bytes(self.effects.mech, effect_paths@);
        }
        push_opt_path(&mut w, self.effects.charging, effect_paths);
        proof {
            lemma_concat_step(w0, acc, opt_path_bytes(self.effects.charging, effect_paths@));
            acc = acc + opt_path_bytes(self.effects.charging, effect_paths@);
        }
        push_counted_paths(&mut w, &self.effects.firing, effect_paths);
        proof {
            lemma_concat_step(w0, acc, counted_paths_bytes(self.effects.firing@, effect_paths@));
            acc = acc + counted_paths_bytes(self.effects.firing@, effect_paths@);
        }
        push_opt_path(&mut w, self.effects.smoke, effect_paths);
        proof {
            lemma_concat_step(w0, acc, opt_path_bytes(self.effects.smoke, effect_paths@));
            acc = acc + opt_path_bytes(self.effects.smoke, effect_paths@);
        }
        push_opt_path(&mut w, self.effects.casing, effect_paths);
        proof {
            lemma_concat_step(w0, acc, opt_path_bytes(self.effects.casing, effect_paths@));
            acc = acc + opt_path_bytes(self.effects.casing, effect_paths@);
        }
        push_triple(&mut w, self.effects.lights_offset_bits);
        proof {
            lemma_concat_step(w0, acc, triple_bytes(self.effects.lights_offset_bits));
            acc = acc + triple_bytes(self.effects.lights_offset_bits);
        }
        push_counted_lights(&mut w, &self.effects.lights, light_paths);
        proof {
            lemma_concat_step(w0, acc, bytes32((self.effects.lights@.len() as u32) as nat) + paths_bytes(self.effects.lights@, light_paths@));
            acc = acc + bytes32((self.effects.lights@.len() as u32) as nat) + paths_bytes(self.effects.lights@, light_paths@);
        }
        assert(w@ =~= acc);
        assert(acc == weapon_scene_bytes(*self, model_paths@, effect_paths@, light_paths@));
        w
    }

    /// The projectile's scene file (see `projectile_scene_bytes`).
    #[verifier::spinoff_prover]
    #[verifier::rlimit(50)]
    pub fn projectile_scene(
        &self,
        model_paths: &[String],
        effect_paths: &[String],
        smoke_trail_paths: &[String],
        tracer_trail_paths: &[String],
    ) -> (r: Vec<u8>)
        requires
            self.projectile_modcfg.model < model_paths@.len(),
            names_entry(self.effects.flare, effect_paths@),
            names_entry(self.effects.thrust, effect_paths@),
            names_entry(self.effects.mech_impact, effect_paths@),
            names_entry(self.effects.smoke_trail, smoke_trail_paths@),
            names_entry(self.effects.tracer_trail, tracer_trail_paths@),
            forall|k: int| 0 <= k < self.effects.flying@.len() ==> (#[trigger] self.effects.flying@[k]) < effect_paths@.len(),
        ensures
            r@ == projectile_scene_bytes(*self, model_paths@, effect_paths@, smoke_trail_paths@, tracer_trail_paths@),
    {
        let mut w: Vec<u8> = Vec::new();
        let ghost w0 = w@;
        w.push(self.data.id);
        let ghost mut acc: Seq<u8> = seq![self.data.id];
        assert(w@ =~= w0 + acc);
        w.push(self.wep_type.as_u8());
        proof {
            lemma_concat_step(w0, acc, seq![type_number(self.wep_type)]);
            acc = acc + seq![type_number(self.wep_type)];
        }
        push_path_at(&mut w, model_paths, self.projectile_modcfg.model as usize);
        proof {
            lemma_concat_step(w0, acc, godot_bytes(model_paths@[self.projectile_modcfg.model as int]@));
            acc = acc + godot_bytes(model_paths@[self.projectile_modcfg.model as int]@);
        }
        self.projectile_collider.write(&mut w);
        proof {
            lemma_concat_step(w0, acc, collider_bytes(self.projectile_collider));
            acc = acc + collider_bytes(self.projectile_collider);
        }
        push_opt_path(&mut w, self.effects.flare, effect_paths);
        proof {
            lemma_concat_step(w0, acc, opt_path_bytes(self.effects.flare, effect_paths@));
            acc = acc + opt_path_bytes(self.effects.flare, effect_paths@);
        }
        push_counted_paths(&mut w, &self.effects.flying, effect_paths);
        proof {
            lemma_concat_step(w0, acc, counted_paths_bytes(self.effects.flying@, effect_paths@));
            acc = acc + counted_paths_bytes(self.effects.flying@, effect_paths@);
        }
        push_opt_path(&mut w, self.effects.thrust, effect_paths);
        proof {
            lemma_concat_step(w0, acc, opt_path_bytes(self.effects.thrust, effect_paths@));
            acc = acc + opt_path_bytes(self.effects.thrust, effect_paths@);
        }
        push_opt_path(&mut w, self.effects.mech_impact, effect_paths);
        proof {
            lemma_concat_step(w0, acc, opt_path_bytes(self.effects.mech_impact, effect_paths@));
            acc = acc + opt_path_bytes(self.effects.mech_impact, effect_paths@);
        }
        push_opt_path(&mut w, self.effects.smoke_trail, smoke_trail_paths);
        proof {
            lemma_concat_step(w0, acc, opt_path_bytes(self.effects.smoke_trail, smoke_trail_paths@));
            acc = acc + opt_path_bytes(self.effects.smoke_trail, smoke_trail_paths@);
        }
        push_opt_path(&mut w, self.effects.tracer_trail, tracer_trail_paths);
        proof {
            lemma_concat_step(w0, acc, opt_path_bytes(self.effects.tracer_trail, tracer_trail_paths@));
            acc = acc + opt_path_bytes(self.effects.tracer_trail, tracer_trail_paths@);
        }
        assert(w@ =~= acc);
        assert(acc == projectile_scene_bytes(*self, model_paths@, effect_paths@, smoke_trail_paths@, tracer_trail_paths@));
        w
    }
}

} // verus!
