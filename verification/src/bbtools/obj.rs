//! Model configuration records (which model, animation, sequence, hitbox
//! and texture go together) and the database that collects them.
use vstd::prelude::*;

use crate::bbtools::xbe::{spec_pointer_offset, spec_u32_table, SectionView, XBE};
use crate::bytes::{clipped, copy_range, le16, le32, read_i16_le, read_u16_le, read_u32_le, IoError};
use std::collections::BTreeMap;

verus! {

broadcast use vstd::laws_cmp::group_laws_cmp;

pub const SB_MODEL_CONFIG_SIZE: usize = 10;

pub const POS_ROT_SIZE: usize = 24;

/// A position and a rotation (Euler angles), each three `f32` values kept
/// as their bits.
#[derive(Clone, Copy, PartialEq, Eq, Debug)]
pub struct PosRot(pub (u32, u32, u32), pub (u32, u32, u32));

/// The position and rotation stored at `at`.
pub open spec fn spec_pos_rot(b: Seq<u8>, at: int) -> PosRot {
    PosRot(
        (le32(b, at) as u32, le32(b, at + 4) as u32, le32(b, at + 8) as u32),
        (le32(b, at + 12) as u32, le32(b, at + 16) as u32, le32(b, at + 20) as u32),
    )
}

impl PosRot {
    /// Reads the position and rotation stored at `at`.
    pub fn import(buf: &[u8], at: usize) -> (r: Self)
        requires
            at + POS_ROT_SIZE <= buf@.len(),
        ensures
            r == spec_pos_rot(buf@, at as int),
    {
        let n: usize = buf.len();
        assert(at + 24 <= n);
        PosRot(
            (read_u32_le(buf, at), read_u32_le(buf, at + 4), read_u32_le(buf, at + 8)),
            (read_u32_le(buf, at + 12), read_u32_le(buf, at + 16), read_u32_le(buf, at + 20)),
        )
    }
}

pub const LOC_MODEL_CONFIG_SIZE: usize = 8;

pub const MECH_MODEL_CONFIG_SIZE: usize = 20;

pub const WEAPON_MODEL_CONFIG_SIZE: usize = 24;

pub const MODEL_CONFIG_FLAGS_SIZE: usize = 12;

/// An id, or none when it is `u16::MAX`.
pub open spec fn opt_id(v: nat) -> Option<u16> {
    if v != 0xFFFF {
        Some(v as u16)
    } else {
        None
    }
}

fn opt_id_exec(v: u16) -> (r: Option<u16>)
    ensures
        r == opt_id(v as nat),
{
    if v != u16::MAX {
        Some(v)
    } else {
        None
    }
}

#[derive(Copy, Clone)]
pub struct ModelConfig {
    pub model: u16,
    pub animation: Option<u16>,
    pub sequence: Option<u16>,
    pub hitbox: Option<u16>,
    pub texture: Option<u16>,
}

/// The record with the given ids in the given byte positions.
pub open spec fn spec_model_config(
    buf: Seq<u8>,
    base: int,
    animation: int,
    sequence: int,
    texture: Option<int>,
    hitbox: int,
) -> ModelConfig {
    ModelConfig {
        model: le16(buf, base) as u16,
        animation: opt_id(le16(buf, base + animation)),
        sequence: opt_id(le16(buf, base + sequence)),
        texture: match texture {
            Some(t) => opt_id(le16(buf, base + t)),
            None => None,
        },
        hitbox: opt_id(le16(buf, base + hitbox)),
    }
}

/// The record layout of the first title, variant A: model, animation, sequence, texture, hitbox.
pub open spec fn spec_sb_a(buf: Seq<u8>) -> ModelConfig {
    spec_model_config(buf, 0, 2, 4, Some(6), 8)
}

/// The record layout of the first title, variant B: model, animation, texture, hitbox, sequence.
pub open spec fn spec_sb_b(buf: Seq<u8>) -> ModelConfig {
    spec_model_config(buf, 0, 2, 8, Some(4), 6)
}

/// The record layout of the second title, variant A: model, animation, sequence, hitbox.
pub open spec fn spec_loc_a(buf: Seq<u8>, base: int) -> ModelConfig {
    spec_model_config(buf, base, 2, 4, None, 6)
}

/// The record layout of the second title, variant B: model, animation, hitbox, sequence.
pub open spec fn spec_loc_b(buf: Seq<u8>, base: int) -> ModelConfig {
    spec_model_config(buf, base, 2, 6, None, 4)
}

impl ModelConfig {
    /// Reads a record of the first title (layout A). The model id must not be `u16::MAX`.
    pub fn import_sb_a(buf: &[u8]) -> (r: Self)
        requires
            buf@.len() == SB_MODEL_CONFIG_SIZE,
            le16(buf@, 0) != 0xFFFF,
        ensures
            r == spec_sb_a(buf@),
    {
        let model: u16 = read_u16_le(buf, 0);
        let animation: u16 = read_u16_le(buf, 2);
        let sequence: u16 = read_u16_le(buf, 4);
        let texture: u16 = read_u16_le(buf, 6);
        let hitbox: u16 = read_u16_le(buf, 8);
        ModelConfig {
            model,
            animation: opt_id_exec(animation),
            sequence: opt_id_exec(sequence),
            texture: opt_id_exec(texture),
            hitbox: opt_id_exec(hitbox),
        }
    }

    /// Reads a record of the first title (layout B). The model id must not be `u16::MAX`.
    pub fn import_sb_b(buf: &[u8]) -> (r: Self)
        requires
            buf@.len() == SB_MODEL_CONFIG_SIZE,
            le16(buf@, 0) != 0xFFFF,
        ensures
            r == spec_sb_b(buf@),
    {
        let model: u16 = read_u16_le(buf, 0);
        let animation: u16 = read_u16_le(buf, 2);
        let texture: u16 = read_u16_le(buf, 4);
        let hitbox: u16 = read_u16_le(buf, 6);
        let sequence: u16 = read_u16_le(buf, 8);
        ModelConfig {
            model,
            animation: opt_id_exec(animation),
            sequence: opt_id_exec(sequence),
            texture: opt_id_exec(texture),
            hitbox: opt_id_exec(hitbox),
        }
    }

    /// Reads a record of the second title (layout A). The model id must not be `u16::MAX`.
    pub fn import_loc_a(buf: &[u8]) -> (r: Self)
        requires
            buf@.len() == LOC_MODEL_CONFIG_SIZE,
            le16(buf@, 0) != 0xFFFF,
        ensures
            r == spec_loc_a(buf@, 0),
    {
        let model: u16 = read_u16_le(buf, 0);
        let animation: u16 = read_u16_le(buf, 2);
        let sequence: u16 = read_u16_le(buf, 4);
        let hitbox: u16 = read_u16_le(buf, 6);
        ModelConfig {
            model,
            animation: opt_id_exec(animation),
            sequence: opt_id_exec(sequence),
            texture: None,
            hitbox: opt_id_exec(hitbox),
        }
    }

    /// Reads a record of the second title (layout B). The model id must not be `u16::MAX`.
    pub fn import_loc_b(buf: &[u8]) -> (r: Self)
        requires
            buf@.len() == LOC_MODEL_CONFIG_SIZE,
            le16(buf@, 0) != 0xFFFF,
        ensures
            r == spec_loc_b(buf@, 0),
    {
        let model: u16 = read_u16_le(buf, 0);
        let animation: u16 = read_u16_le(buf, 2);
        let hitbox: u16 = read_u16_le(buf, 4);
        let sequence: u16 = read_u16_le(buf, 6);
        ModelConfig {
            model,
            animation: opt_id_exec(animation),
            sequence: opt_id_exec(sequence),
            texture: None,
            hitbox: opt_id_exec(hitbox),
        }
    }
}

/// The emblem, chassis and hatch models of a mech.
#[derive(Copy, Clone)]
pub struct MechModelConfig {
    pub emblem_model: Option<u16>,
    pub chassis: ModelConfig,
    pub hatch: ModelConfig,
}

impl MechModelConfig {
    /// Reads a 20-byte record: the emblem id, then two records of layout A,
    /// then two zero bytes. Both model ids must be set and the last two
    /// bytes zero.
    pub fn from(buf: &[u8]) -> (r: Self)
        requires
            buf@.len() == MECH_MODEL_CONFIG_SIZE,
            le16(buf@, 18) == 0,
            le16(buf@, 2) != 0xFFFF,
            le16(buf@, 10) != 0xFFFF,
        ensures
            r.emblem_model == opt_id(le16(buf@, 0)),
            r.chassis == spec_loc_a(buf@, 2),
            r.hatch == spec_loc_a(buf@, 10),
    {
        let emblem_model: u16 = read_u16_le(buf, 0);
        let chassis_buf = crate::bytes::copy_range(buf, 2, 10);
        let hatch_buf = crate::bytes::copy_range(buf, 10, 18);
        let chassis = ModelConfig::import_loc_a(chassis_buf.as_slice());
        let hatch = ModelConfig::import_loc_a(hatch_buf.as_slice());
        MechModelConfig { emblem_model: opt_id_exec(emblem_model), chassis, hatch }
    }
}

/// The projectile and weapon models of a weapon.
#[derive(Copy, Clone)]
pub struct WeaponModelConfig {
    pub projectile: Option<ModelConfig>,
    pub weapon: Option<ModelConfig>,
    pub _attr0: u16,
    pub _attr1: u16,
}

impl WeaponModelConfig {
    /// Reads a 24-byte record: two records of layout B (absent when their
    /// model id is `u16::MAX`) and two attributes.
    pub fn import_sb(buf: &[u8]) -> (r: Self)
        requires
            buf@.len() == WEAPON_MODEL_CONFIG_SIZE,
        ensures
            r.projectile == if le16(buf@, 0) == 0xFFFF {
                None
            } else {
                Some(spec_sb_b(buf@.subrange(0, 10)))
            },
            r.weapon == if le16(buf@, 10) == 0xFFFF {
                None
            } else {
                Some(spec_sb_b(buf@.subrange(10, 20)))
            },
            r._attr0 == le16(buf@, 20),
            r._attr1 == le16(buf@, 22),
    {
        let projectile_model_id: u16 = read_u16_le(buf, 0);
        let projectile = if projectile_model_id == u16::MAX {
            None
        } else {
            let b = crate::bytes::copy_range(buf, 0, 10);
            Some(ModelConfig::import_sb_b(b.as_slice()))
        };
        let weapon_model_id: u16 = read_u16_le(buf, 10);
        let weapon = if weapon_model_id == u16::MAX {
            None
        } else {
            let b = crate::bytes::copy_range(buf, 10, 20);
            Some(ModelConfig::import_sb_b(b.as_slice()))
        };
        WeaponModelConfig {
            projectile,
            weapon,
            _attr0: read_u16_le(buf, 20),
            _attr1: read_u16_le(buf, 22),
        }
    }
}

/// Model id of the `i`-th 12-byte record.
pub open spec fn flags_record_model(buf: Seq<u8>, i: int) -> nat {
    le16(buf, 12 * i)
}

/// A model record with its flags.
#[derive(Copy, Clone)]
pub struct ModelConfigFlags {
    pub modcfg: ModelConfig,
    pub flags: u32,
}

impl ModelConfigFlags {
    /// Reads a 12-byte record: a record of layout A and the flags.
    pub fn import_a(buf: &[u8]) -> (r: Self)
        requires
            buf@.len() == MODEL_CONFIG_FLAGS_SIZE,
            le16(buf@, 0) != 0xFFFF,
        ensures
            r.modcfg == spec_loc_a(buf@, 0),
            r.flags == le32(buf@, 8),
    {
        let b = crate::bytes::copy_range(buf, 0, 8);
        ModelConfigFlags { modcfg: ModelConfig::import_loc_a(b.as_slice()), flags: read_u32_le(buf, 8) }
    }

    /// Reads a 12-byte record: a record of layout B and the flags.
    pub fn import_b(buf: &[u8]) -> (r: Self)
        requires
            buf@.len() == MODEL_CONFIG_FLAGS_SIZE,
            le16(buf@, 0) != 0xFFFF,
        ensures
            r.modcfg == spec_loc_b(buf@, 0),
            r.flags == le32(buf@, 8),
    {
        let b = crate::bytes::copy_range(buf, 0, 8);
        ModelConfigFlags { modcfg: ModelConfig::import_loc_b(b.as_slice()), flags: read_u32_le(buf, 8) }
    }

    /// Reads `count` consecutive records of `import_a`.
    pub fn import_multiple_a(buf: &[u8], count: usize) -> (r: Vec<Self>)
        requires
            count * MODEL_CONFIG_FLAGS_SIZE <= buf@.len(),
            forall|i: int| 0 <= i < count ==> #[trigger] flags_record_model(buf@, i) != 0xFFFF,
        ensures
            r@.len() == count,
            forall|i: int|
                0 <= i < count ==> (#[trigger] r@[i]).modcfg == spec_loc_a(buf@, 12 * i)
                    && r@[i].flags == le32(buf@, 12 * i + 8),
    {
        let n: usize = buf.len();
        let mut model_configs: Vec<ModelConfigFlags> = Vec::with_capacity(count);
        let mut i: usize = 0;
        while i < count
            invariant
                count * 12 <= buf@.len(),
                n == buf@.len(),
                i <= count,
                model_configs@.len() == i,
                forall|j: int| 0 <= j < count ==> #[trigger] flags_record_model(buf@, j) != 0xFFFF,
                forall|j: int|
                    0 <= j < i ==> (#[trigger] model_configs@[j]).modcfg == spec_loc_a(buf@, 12 * j)
                        && model_configs@[j].flags == le32(buf@, 12 * j + 8),
            decreases count - i,
        {
            assert(12 * i + 12 <= 12 * count) by (nonlinear_arith)
                requires
                    i < count,
            ;
            let b = crate::bytes::copy_range(buf, 12 * i, 12 * i + 12);
            assert(flags_record_model(buf@, i as int) != 0xFFFF);
            assert(le16(b@, 0) == le16(buf@, 12 * i));
            let m = ModelConfigFlags::import_a(b.as_slice());
            assert(spec_loc_a(b@, 0) == spec_loc_a(buf@, 12 * i));
            assert(le32(b@, 8) == le32(buf@, 12 * i + 8));
            model_configs.push(m);
            i = i + 1;
        }
        model_configs
    }
}

/// Whether registering `mc` into `m` is allowed: a model registered again
/// must come with the same animation, sequence, texture and hitbox.
pub open spec fn compatible(m: Map<u16, ModelConfig>, mc: ModelConfig) -> bool {
    m.contains_key(mc.model) ==> {
        let old = m[mc.model];
        &&& old.animation == mc.animation
        &&& old.sequence == mc.sequence
        &&& old.texture == mc.texture
        &&& old.hitbox == mc.hitbox
    }
}

/// The database after registering the first `n` records of `mcs` in order.
pub open spec fn registered(m: Map<u16, ModelConfig>, mcs: Seq<ModelConfig>, n: nat) -> Map<
    u16,
    ModelConfig,
>
    decreases n,
{
    if n == 0 {
        m
    } else {
        let prev = registered(m, mcs, (n - 1) as nat);
        prev.insert(mcs[n - 1].model, mcs[n - 1])
    }
}

/// Every record of `mcs` is compatible with the database it is registered into.
pub open spec fn all_compatible(m: Map<u16, ModelConfig>, mcs: Seq<ModelConfig>) -> bool {
    forall|i: nat| i < mcs.len() ==> compatible(#[trigger] registered(m, mcs, i), mcs[i as int])
}

/// The sequence that the animation table gives to animation `a`, looking
/// at the models with ids below `k`: that of the last one (by id) that uses
/// the animation, none when no model does.
pub open spec fn last_sequence(m: Map<u16, ModelConfig>, a: u16, k: int) -> Option<u16>
    decreases k,
{
    if k <= 0 {
        None
    } else {
        let prev = last_sequence(m, a, k - 1);
        let key = (k - 1) as u16;
        if m.contains_key(key) && m[key].animation == Some(a) {
            m[key].sequence
        } else {
            prev
        }
    }
}

/// Entry `a` of the animation table after looking at the models with ids below `k`.
pub open spec fn table_entry(m: Map<u16, ModelConfig>, a: int, k: int) -> Option<u16> {
    if 0 <= a < 0x10000 {
        last_sequence(m, a as u16, k)
    } else {
        None
    }
}

/// Whether the animation table can be built: every animation is below
/// `count`, and models that share an animation agree on its sequence once
/// one of them (in id order) gave it one.
pub open spec fn sequence_table_ok(m: Map<u16, ModelConfig>, count: nat) -> bool {
    forall|k: u16|
        #![trigger m[k]]
        m.contains_key(k) && m[k].animation is Some ==> {
            let a = m[k].animation->Some_0;
            &&& (a as nat) < count
            &&& last_sequence(m, a, k as int) is Some ==> last_sequence(m, a, k as int)
                == m[k].sequence
        }
}

/// Model records by model id.
pub struct ModelConfigDB {
    configs: BTreeMap<u16, ModelConfig>,
}

impl View for ModelConfigDB {
    type V = Map<u16, ModelConfig>;

    closed spec fn view(&self) -> Map<u16, ModelConfig> {
        self.configs@
    }
}

impl ModelConfigDB {
    pub fn new() -> (r: Self)
        ensures
            r@ == Map::<u16, ModelConfig>::empty(),
    {
        ModelConfigDB { configs: BTreeMap::new() }
    }

    /// Records `mc` under its model id. A model registered again must come
    /// with the same animation, sequence, texture and hitbox.
    pub fn register(&mut self, mc: &ModelConfig)
        requires
            compatible(old(self)@, *mc),
        ensures
            final(self)@ == old(self)@.insert(mc.model, *mc),
    {
        // A previous copy is identical but for the model id itself (the precondition).
        let _previous = self.configs.insert(mc.model, *mc);
    }

    /// Registers the records in order.
    pub fn register_multiple(&mut self, mcs: &[ModelConfig])
        requires
            all_compatible(old(self)@, mcs@),
        ensures
            final(self)@ == registered(old(self)@, mcs@, mcs@.len()),
            forall|i: int|
                0 <= i < mcs@.len() ==> #[trigger] final(self)@.contains_key(mcs@[i].model)
                    && final(self)@[mcs@[i].model] == mcs@[i],
    {
        proof {
            lemma_register_multiple_finds(old(self)@, mcs@);
        }
        let mut i: usize = 0;
        while i < mcs.len()
            invariant
                i <= mcs@.len(),
                all_compatible(old(self)@, mcs@),
                self@ == registered(old(self)@, mcs@, i as nat),
            decreases mcs@.len() - i,
        {
            assert(compatible(registered(old(self)@, mcs@, i as nat), mcs@[i as int]));
            self.register(&mcs[i]);
            i = i + 1;
        }
    }

    /// For each animation below `animation_count`, the sequence that the
    /// models using it give (the last by model id), or none.
    pub fn get_sequence_table(&self, animation_count: usize) -> (r: Vec<Option<u16>>)
        requires
            sequence_table_ok(self@, animation_count as nat),
        ensures
            r@ == Seq::new(animation_count as nat, |a: int| table_entry(self@, a, 0x10000)),
    {
        let mut sequence_table: Vec<Option<u16>> = Vec::with_capacity(animation_count);
        let mut j: usize = 0;
        while j < animation_count
            invariant
                j <= animation_count,
                sequence_table@ == Seq::new(j as nat, |a: int| None::<u16>),
            decreases animation_count - j,
        {
            sequence_table.push(None);
            j = j + 1;
            assert(sequence_table@ =~= Seq::new(j as nat, |a: int| None::<u16>));
        }
        assert(sequence_table@ =~= Seq::new(
            animation_count as nat,
            |a: int| table_entry(self@, a, 0),
        ));
        // Visit the models in id order.
        let mut k: u32 = 0;
        while k < 0x10000
            invariant
                k <= 0x10000,
                sequence_table_ok(self@, animation_count as nat),
                sequence_table@ == Seq::new(
                    animation_count as nat,
                    |a: int| table_entry(self@, a, k as int),
                ),
            decreases 0x10000 - k,
        {
            let key: u16 = k as u16;
            let ghost before = sequence_table@;
            match self.configs.get(&key) {
                Some(config) => {
                    assert(self@.contains_key(key) && self@[key] == *config);
                    match config.animation {
                        Some(animation) => {
                            assert(self@[key].animation is Some);
                            let a: usize = animation as usize;
                            sequence_table.set(a, config.sequence);
                            assert(sequence_table@ =~= Seq::new(
                                animation_count as nat,
                                |b: int| table_entry(self@, b, k + 1),
                            )) by {
                                assert forall|b: int| 0 <= b < animation_count implies
                                    sequence_table@[b] == table_entry(self@, b, k + 1) by {
                                    if b < 0x10000 {
                                        assert(last_sequence(self@, b as u16, k + 1) == if self@.contains_key(key) && self@[key].animation == Some(b as u16) {
                                            self@[key].sequence
                                        } else {
                                            last_sequence(self@, b as u16, k as int)
                                        });
                                        if b != a {
                                            assert(b as u16 != animation);
                                        }
                                    }
                                }
                            }
                        },
                        None => {
                            assert(sequence_table@ =~= Seq::new(
                                animation_count as nat,
                                |b: int| table_entry(self@, b, k + 1),
                            )) by {
                                assert forall|b: int| 0 <= b < animation_count implies
                                    sequence_table@[b] == table_entry(self@, b, k + 1) by {
                                    if b < 0x10000 {
                                        if b < 0x10000 {
                                assert(last_sequence(self@, b as u16, k + 1) == last_sequence(self@, b as u16, k as int));
                            }
                                    }
                                }
                            }
                        },
                    }
                },
                None => {
                    assert(!self@.contains_key(key));
                    assert(sequence_table@ =~= Seq::new(
                        animation_count as nat,
                        |b: int| table_entry(self@, b, k + 1),
                    )) by {
                        assert forall|b: int| 0 <= b < animation_count implies
                            sequence_table@[b] == table_entry(self@, b, k + 1) by {
                            if b < 0x10000 {
                                assert(last_sequence(self@, b as u16, k + 1) == last_sequence(self@, b as u16, k as int));
                            }
                        }
                    }
                },
            }
            k = k + 1;
        }
        sequence_table
    }

    /// The record of model `id`, if registered.
    pub fn get_model(&self, id: u16) -> (r: Option<&ModelConfig>)
        ensures
            self@.contains_key(id) ==> r == Some(&self@[id]),
            !self@.contains_key(id) ==> r is None,
    {
        self.configs.get(&id)
    }
}

/// A registered record is found again under its model id.
pub proof fn lemma_register_then_get(db: Map<u16, ModelConfig>, mc: ModelConfig)
    ensures
        db.insert(mc.model, mc).contains_key(mc.model),
        db.insert(mc.model, mc)[mc.model] == mc,
{
}

/// Registering a record leaves the records of the other models as they were.
pub proof fn lemma_register_keeps_others(db: Map<u16, ModelConfig>, mc: ModelConfig, id: u16)
    requires
        id != mc.model,
    ensures
        db.insert(mc.model, mc).contains_key(id) == db.contains_key(id),
        db.contains_key(id) ==> db.insert(mc.model, mc)[id] == db[id],
{
}

/// Registering a record again changes nothing, and a registered record can
/// always be registered again.
pub proof fn lemma_register_idempotent(db: Map<u16, ModelConfig>, mc: ModelConfig)
    ensures
        db.insert(mc.model, mc).insert(mc.model, mc) == db.insert(mc.model, mc),
        compatible(db.insert(mc.model, mc), mc),
{
    assert(db.insert(mc.model, mc).insert(mc.model, mc) =~= db.insert(mc.model, mc));
}

proof fn lemma_registered_prefix(m: Map<u16, ModelConfig>, a: Seq<ModelConfig>, b: Seq<ModelConfig>, n: nat)
    requires
        n <= a.len(),
    ensures
        registered(m, a + b, n) == registered(m, a, n),
    decreases n,
{
    if n > 0 {
        lemma_registered_prefix(m, a, b, (n - 1) as nat);
        assert((a + b)[n - 1] == a[n - 1]);
    }
}

proof fn lemma_registered_suffix(m: Map<u16, ModelConfig>, a: Seq<ModelConfig>, b: Seq<ModelConfig>, k: nat)
    requires
        k <= b.len(),
    ensures
        registered(m, a + b, a.len() + k) == registered(registered(m, a, a.len()), b, k),
    decreases k,
{
    if k == 0 {
        lemma_registered_prefix(m, a, b, a.len());
    } else {
        lemma_registered_suffix(m, a, b, (k - 1) as nat);
        assert((a + b)[a.len() + k - 1] == b[k - 1]);
        assert((a.len() + k - 1) as nat == (a.len() + (k - 1)) as nat);
    }
}

/// Registering the records of `a` and then those of `b` is registering
/// those of `a` followed by `b`, and is allowed exactly when both steps are.
pub proof fn lemma_register_multiple_concat(m: Map<u16, ModelConfig>, a: Seq<ModelConfig>, b: Seq<ModelConfig>)
    ensures
        registered(m, a + b, (a + b).len()) == registered(registered(m, a, a.len()), b, b.len()),
        all_compatible(m, a + b) <==> all_compatible(m, a) && all_compatible(
            registered(m, a, a.len()),
            b,
        ),
{
    lemma_registered_suffix(m, a, b, b.len());
    if all_compatible(m, a + b) {
        assert forall|i: nat| i < a.len() implies compatible(#[trigger] registered(m, a, i), a[i as int]) by {
            lemma_registered_prefix(m, a, b, i);
            assert(compatible(registered(m, a + b, i), (a + b)[i as int]));
        }
        assert forall|j: nat| j < b.len() implies compatible(
            #[trigger] registered(registered(m, a, a.len()), b, j),
            b[j as int],
        ) by {
            lemma_registered_suffix(m, a, b, j);
            assert(compatible(registered(m, a + b, a.len() + j), (a + b)[(a.len() + j) as int]));
        }
    }
    if all_compatible(m, a) && all_compatible(registered(m, a, a.len()), b) {
        assert forall|i: nat| i < (a + b).len() implies compatible(
            #[trigger] registered(m, a + b, i),
            (a + b)[i as int],
        ) by {
            if i < a.len() {
                lemma_registered_prefix(m, a, b, i);
                assert(compatible(registered(m, a, i), a[i as int]));
            } else {
                let j = (i - a.len()) as nat;
                lemma_registered_suffix(m, a, b, j);
                assert(compatible(registered(registered(m, a, a.len()), b, j), b[j as int]));
            }
        }
    }
}

proof fn lemma_registered_finds(m: Map<u16, ModelConfig>, mcs: Seq<ModelConfig>, i: nat, n: nat)
    requires
        i < n <= mcs.len(),
        all_compatible(m, mcs),
    ensures
        registered(m, mcs, n).contains_key(mcs[i as int].model),
        registered(m, mcs, n)[mcs[i as int].model] == mcs[i as int],
    decreases n,
{
    if n > i + 1 {
        lemma_registered_finds(m, mcs, i, (n - 1) as nat);
        let prev = registered(m, mcs, (n - 1) as nat);
        assert(compatible(prev, mcs[n - 1]));
    }
}

/// After registering records that may be registered in order, each
/// record is found under its model id.
pub proof fn lemma_register_multiple_finds(m: Map<u16, ModelConfig>, mcs: Seq<ModelConfig>)
    requires
        all_compatible(m, mcs),
    ensures
        forall|i: int|
            0 <= i < mcs.len() ==> #[trigger] registered(m, mcs, mcs.len()).contains_key(mcs[i].model)
                && registered(m, mcs, mcs.len())[mcs[i].model] == mcs[i],
{
    assert forall|i: int| 0 <= i < mcs.len() implies #[trigger] registered(m, mcs, mcs.len()).contains_key(
        mcs[i].model,
    ) && registered(m, mcs, mcs.len())[mcs[i].model] == mcs[i] by {
        lemma_registered_finds(m, mcs, i as nat, mcs.len());
    }
}

/// The kinds of records that tables of pointers lead to.
#[derive(PartialEq, Eq, Structural, Clone, Copy, Debug)]
pub enum RecordKind {
    /// A model record of layout A (8 bytes).
    ModelA,
    /// A mech's models (20 bytes).
    Mech,
    /// A model record of layout B with flags (12 bytes).
    FlagsB,
}

pub open spec fn record_size(kind: RecordKind) -> nat {
    match kind {
        RecordKind::ModelA => LOC_MODEL_CONFIG_SIZE as nat,
        RecordKind::Mech => MECH_MODEL_CONFIG_SIZE as nat,
        RecordKind::FlagsB => MODEL_CONFIG_FLAGS_SIZE as nat,
    }
}

/// A record that its reader takes: the model ids are set (and a mech
/// record ends with two zero bytes).
pub open spec fn record_ok(kind: RecordKind, rec: Seq<u8>) -> bool {
    match kind {
        RecordKind::ModelA | RecordKind::FlagsB => le16(rec, 0) != 0xFFFF,
        RecordKind::Mech => le16(rec, 18) == 0 && le16(rec, 2) != 0xFFFF && le16(rec, 10) != 0xFFFF,
    }
}

/// The records behind the first `n` pointers of `t`. The reader fills one
/// buffer again and again: where the data ends before a record does, the
/// rest of the buffer keeps the bytes of the record before (zeros at
/// first). `None` where a record is one its reader does not take.
pub open spec fn pointer_records(
    data: Seq<u8>,
    secs: Seq<SectionView>,
    t: Seq<u32>,
    kind: RecordKind,
    n: nat,
) -> Option<Result<Seq<Seq<u8>>, IoError>>
    decreases n,
{
    if n == 0 {
        Some(Ok(Seq::empty()))
    } else {
        match pointer_records(data, secs, t, kind, (n - 1) as nat) {
            None => None,
            Some(Err(e)) => Some(Err(e)),
            Some(Ok(prev)) => match spec_pointer_offset(secs, t[n - 1]) {
                Err(e) => Some(Err(e)),
                Ok(p) => {
                    let size = record_size(kind);
                    let last = if n == 1 {
                        Seq::new(size, |i: int| 0u8)
                    } else {
                        prev.last()
                    };
                    let got = clipped(data, p as int, p + size);
                    let rec = got + last.subrange(got.len() as int, size as int);
                    if record_ok(kind, rec) {
                        Some(Ok(prev.push(rec)))
                    } else {
                        None
                    }
                },
            },
        }
    }
}

pub proof fn lemma_pointer_records_stop(
    data: Seq<u8>,
    secs: Seq<SectionView>,
    t: Seq<u32>,
    kind: RecordKind,
    k: nat,
    m: nat,
)
    requires
        k <= m,
        !(pointer_records(data, secs, t, kind, k) matches Some(Ok(_))),
    ensures
        pointer_records(data, secs, t, kind, m) == pointer_records(data, secs, t, kind, k),
    decreases m,
{
    if k < m {
        lemma_pointer_records_stop(data, secs, t, kind, k, (m - 1) as nat);
    }
}

pub proof fn lemma_pointer_records_shape(
    data: Seq<u8>,
    secs: Seq<SectionView>,
    t: Seq<u32>,
    kind: RecordKind,
    n: nat,
)
    ensures
        pointer_records(data, secs, t, kind, n) matches Some(Ok(w)) ==> w.len() == n && forall|j: int|
            0 <= j < n ==> (#[trigger] w[j]).len() == record_size(kind) && record_ok(kind, w[j]),
    decreases n,
{
    if n > 0 {
        lemma_pointer_records_shape(data, secs, t, kind, (n - 1) as nat);
    }
}

/// What reading the records behind a table of `count` pointers at `offset`
/// of the named section comes to.
pub open spec fn spec_pointer_records(
    x: XBE,
    section: Seq<char>,
    offset: u32,
    count: nat,
    kind: RecordKind,
) -> Option<Result<Seq<Seq<u8>>, IoError>> {
    match spec_u32_table(x.reader.data(), x.names(), x.sections(), section, offset, count) {
        Err(e) => Some(Err(e)),
        Ok(t) => pointer_records(x.reader.data(), x.sections(), t, kind, count),
    }
}

fn record_ok_check(kind: RecordKind, rec: &[u8]) -> (r: bool)
    requires
        rec@.len() == record_size(kind),
    ensures
        r == record_ok(kind, rec@),
{
    match kind {
        RecordKind::ModelA | RecordKind::FlagsB => read_u16_le(rec, 0) != 0xFFFF,
        RecordKind::Mech => read_u16_le(rec, 18) == 0 && read_u16_le(rec, 2) != 0xFFFF && read_u16_le(
            rec,
            10,
        ) != 0xFFFF,
    }
}

/// Reads the records behind a table of `count` pointers at `offset` of the
/// named section (see `pointer_records`).
pub fn read_pointer_records(
    xbe: &mut XBE,
    section_name: &str,
    offset: u32,
    count: usize,
    kind: RecordKind,
) -> (r: Option<Result<Vec<Vec<u8>>, IoError>>)
    ensures
        final(xbe).same_image(old(xbe)),
        match spec_pointer_records(*old(xbe), section_name@, offset, count as nat, kind) {
            None => r is None,
            Some(Err(e)) => r == Some(Err::<Vec<Vec<u8>>, IoError>(e)),
            Some(Ok(w)) => r matches Some(Ok(v)) && v@.len() == w.len() && forall|i: int|
                0 <= i < w.len() ==> (#[trigger] v@[i])@ == w[i],
        },
{
    let ghost x0 = *xbe;
    let pointers = match xbe.read_u32_table(section_name, offset, count) {
        Ok(t) => t,
        Err(e) => {
            return Some(Err(e));
        },
    };
    let ghost t = pointers@;
    let size: usize = match kind {
        RecordKind::ModelA => LOC_MODEL_CONFIG_SIZE,
        RecordKind::Mech => MECH_MODEL_CONFIG_SIZE,
        RecordKind::FlagsB => MODEL_CONFIG_FLAGS_SIZE,
    };
    let mut buf: Vec<u8> = Vec::new();
    while buf.len() < size
        invariant
            buf@.len() <= size,
            buf@ == Seq::new(buf@.len(), |i: int| 0u8),
        decreases size - buf@.len(),
    {
        buf.push(0);
        assert(buf@ =~= Seq::new(buf@.len(), |i: int| 0u8));
    }
    let mut records: Vec<Vec<u8>> = Vec::with_capacity(count);
    let mut i: usize = 0;
    while i < pointers.len()
        invariant
            i <= pointers@.len(),
            pointers@.len() == count,
            t == pointers@,
            size == record_size(kind),
            buf@.len() == size,
            xbe.same_image(&x0),
            x0 == *old(xbe),
            spec_u32_table(x0.reader.data(), x0.names(), x0.sections(), section_name@, offset, count as nat)
                == Ok::<Seq<u32>, IoError>(t),
            pointer_records(x0.reader.data(), x0.sections(), t, kind, i as nat) matches Some(Ok(w))
                && records@.len() == w.len() && forall|j: int| 0 <= j < w.len() ==> (#[trigger] records@[j])@ == w[j],
            i == 0 ==> buf@ == Seq::new(size as nat, |k: int| 0u8),
            i > 0 ==> buf@ == records@.last()@,
        decreases pointers@.len() - i,
    {
        match xbe.seek_pointer_offset(pointers[i]) {
            Err(e) => {
                proof {
                    lemma_pointer_records_stop(x0.reader.data(), x0.sections(), t, kind, (i + 1) as nat, count as nat);
                }
                return Some(Err(e));
            },
            Ok(_) => {},
        }
        let got = xbe.reader.read_some(size);
        let mut rec: Vec<u8> = Vec::with_capacity(size);
        crate::bytes::push_bytes(&mut rec, got.as_slice());
        let mut k: usize = got.len();
        let ghost g = got@;
        while k < size
            invariant
                g.len() <= k <= size,
                buf@.len() == size,
                rec@ == g + buf@.subrange(g.len() as int, k as int),
            decreases size - k,
        {
            rec.push(buf[k]);
            k = k + 1;
            assert(rec@ =~= g + buf@.subrange(g.len() as int, k as int));
        }
        if !record_ok_check(kind, rec.as_slice()) {
            proof {
                lemma_pointer_records_stop(x0.reader.data(), x0.sections(), t, kind, (i + 1) as nat, count as nat);
            }
            return None;
        }
        buf = copy_vec(&rec);
        records.push(rec);
        i = i + 1;
    }
    Some(Ok(records))
}

fn copy_vec(v: &Vec<u8>) -> (r: Vec<u8>)
    ensures
        r@ == v@,
{
    crate::bytes::copy_range(v.as_slice(), 0, v.len())
}

impl ModelConfig {
    /// Reads the records of layout A behind a table of `count` pointers at
    /// `offset` of the named section. `None` where a record has no model
    /// (see `pointer_records`).
    pub fn import_pointers(xbe: &mut XBE, section_name: &str, offset: u32, count: usize) -> (r: Option<
        Result<Vec<Self>, IoError>,
    >)
        ensures
            final(xbe).same_image(old(xbe)),
            match spec_pointer_records(*old(xbe), section_name@, offset, count as nat, RecordKind::ModelA) {
                None => r is None,
                Some(Err(e)) => r == Some(Err::<Vec<Self>, IoError>(e)),
                Some(Ok(w)) => r matches Some(Ok(v)) && v@.len() == w.len() && forall|i: int|
                    0 <= i < w.len() ==> #[trigger] v@[i] == spec_loc_a(w[i], 0),
            },
    {
        let ghost x0 = *xbe;
        let records = match read_pointer_records(xbe, section_name, offset, count, RecordKind::ModelA) {
            None => {
                return None;
            },
            Some(Err(e)) => {
                return Some(Err(e));
            },
            Some(Ok(v)) => v,
        };
        let ghost w = spec_pointer_records(x0, section_name@, offset, count as nat, RecordKind::ModelA)->Some_0->Ok_0;
        proof {
            lemma_pointer_records_shape(x0.reader.data(), x0.sections(), spec_u32_table(x0.reader.data(), x0.names(), x0.sections(), section_name@, offset, count as nat)->Ok_0, RecordKind::ModelA, count as nat);
        }
        let mut out: Vec<Self> = Vec::with_capacity(records.len());
        let mut i: usize = 0;
        while i < records.len()
            invariant
                i <= records@.len(),
                records@.len() == w.len(),
                forall|j: int| 0 <= j < w.len() ==> (#[trigger] records@[j])@ == w[j],
                forall|j: int| 0 <= j < w.len() ==> (#[trigger] w[j]).len() == record_size(RecordKind::ModelA) && record_ok(RecordKind::ModelA, w[j]),
                out@.len() == i,
                forall|j: int| 0 <= j < i ==> #[trigger] out@[j] == spec_loc_a(w[j], 0),
            decreases records@.len() - i,
        {
            out.push(ModelConfig::import_loc_a(records[i].as_slice()));
            i = i + 1;
        }
        Some(Ok(out))
    }
}

impl MechModelConfig {
    /// Reads the mech records behind a table of `count` pointers at `offset`
    /// of the named section. `None` where a record is not one (see
    /// `pointer_records`).
    pub fn import_pointers(xbe: &mut XBE, section_name: &str, offset: u32, count: usize) -> (r: Option<
        Result<Vec<Self>, IoError>,
    >)
        ensures
            final(xbe).same_image(old(xbe)),
            match spec_pointer_records(*old(xbe), section_name@, offset, count as nat, RecordKind::Mech) {
                None => r is None,
                Some(Err(e)) => r == Some(Err::<Vec<Self>, IoError>(e)),
                Some(Ok(w)) => r matches Some(Ok(v)) && v@.len() == w.len() && forall|i: int|
                    0 <= i < w.len() ==> (#[trigger] v@[i]).emblem_model == opt_id(le16(w[i], 0))
                        && v@[i].chassis == spec_loc_a(w[i], 2) && v@[i].hatch == spec_loc_a(w[i], 10),
            },
    {
        let ghost x0 = *xbe;
        let records = match read_pointer_records(xbe, section_name, offset, count, RecordKind::Mech) {
            None => {
                return None;
            },
            Some(Err(e)) => {
                return Some(Err(e));
            },
            Some(Ok(v)) => v,
        };
        let ghost w = spec_pointer_records(x0, section_name@, offset, count as nat, RecordKind::Mech)->Some_0->Ok_0;
        proof {
            lemma_pointer_records_shape(x0.reader.data(), x0.sections(), spec_u32_table(x0.reader.data(), x0.names(), x0.sections(), section_name@, offset, count as nat)->Ok_0, RecordKind::Mech, count as nat);
        }
        let mut out: Vec<Self> = Vec::with_capacity(records.len());
        let mut i: usize = 0;
        while i < records.len()
            invariant
                i <= records@.len(),
                records@.len() == w.len(),
                forall|j: int| 0 <= j < w.len() ==> (#[trigger] records@[j])@ == w[j],
                forall|j: int| 0 <= j < w.len() ==> (#[trigger] w[j]).len() == record_size(RecordKind::Mech) && record_ok(RecordKind::Mech, w[j]),
                out@.len() == i,
                forall|j: int| 0 <= j < i ==> (#[trigger] out@[j]).emblem_model == opt_id(le16(w[j], 0))
                    && out@[j].chassis == spec_loc_a(w[j], 2) && out@[j].hatch == spec_loc_a(w[j], 10),
            decreases records@.len() - i,
        {
            out.push(MechModelConfig::from(records[i].as_slice()));
            i = i + 1;
        }
        Some(Ok(out))
    }
}

impl ModelConfigFlags {
    /// Reads the records of layout B with flags behind a table of `count`
    /// pointers at `offset` of the named section. `None` where a record has
    /// no model (see `pointer_records`).
    pub fn import_pointers_b(xbe: &mut XBE, section_name: &str, offset: u32, count: usize) -> (r: Option<
        Result<Vec<Self>, IoError>,
    >)
        ensures
            final(xbe).same_image(old(xbe)),
            match spec_pointer_records(*old(xbe), section_name@, offset, count as nat, RecordKind::FlagsB) {
                None => r is None,
                Some(Err(e)) => r == Some(Err::<Vec<Self>, IoError>(e)),
                Some(Ok(w)) => r matches Some(Ok(v)) && v@.len() == w.len() && forall|i: int|
                    0 <= i < w.len() ==> (#[trigger] v@[i]).modcfg == spec_loc_b(w[i], 0) && v@[i].flags
                        == le32(w[i], 8),
            },
    {
        let ghost x0 = *xbe;
        let records = match read_pointer_records(xbe, section_name, offset, count, RecordKind::FlagsB) {
            None => {
                return None;
            },
            Some(Err(e)) => {
                return Some(Err(e));
            },
            Some(Ok(v)) => v,
        };
        let ghost w = spec_pointer_records(x0, section_name@, offset, count as nat, RecordKind::FlagsB)->Some_0->Ok_0;
        proof {
            lemma_pointer_records_shape(x0.reader.data(), x0.sections(), spec_u32_table(x0.reader.data(), x0.names(), x0.sections(), section_name@, offset, count as nat)->Ok_0, RecordKind::FlagsB, count as nat);
        }
        let mut out: Vec<Self> = Vec::with_capacity(records.len());
        let mut i: usize = 0;
        while i < records.len()
            invariant
                i <= records@.len(),
                records@.len() == w.len(),
                forall|j: int| 0 <= j < w.len() ==> (#[trigger] records@[j])@ == w[j],
                forall|j: int| 0 <= j < w.len() ==> (#[trigger] w[j]).len() == record_size(RecordKind::FlagsB) && record_ok(RecordKind::FlagsB, w[j]),
                out@.len() == i,
                forall|j: int| 0 <= j < i ==> (#[trigger] out@[j]).modcfg == spec_loc_b(w[j], 0) && out@[j].flags == le32(w[j], 8),
            decreases records@.len() - i,
        {
            out.push(ModelConfigFlags::import_b(records[i].as_slice()));
            i = i + 1;
        }
        Some(Ok(out))
    }
}

pub const SB_OBJ_SIZE: usize = 92;

pub const LOC_OBJ_SIZE: usize = 96;

/// What the scan of a mission's objects of the first title does with an
/// object, by its model id.
#[derive(PartialEq, Eq, Structural, Clone, Copy, Debug)]
pub enum SbObjectKind {
    /// `u16::MAX` ends the list.
    End,
    /// Models 833 to 856 are skyboxes.
    Skybox,
    /// Models whose parts do not match (a destroyed radio tower, an empty
    /// skeleton, a helicopter with a container, a bomber) are left out.
    Skipped,
    Kept,
}

pub open spec fn spec_sb_object_kind(model_id: u16) -> SbObjectKind {
    if model_id == 0xFFFF {
        SbObjectKind::End
    } else if 833 <= model_id <= 856 {
        SbObjectKind::Skybox
    } else if model_id == 277 || model_id == 542 || model_id == 384 || model_id == 357 {
        SbObjectKind::Skipped
    } else {
        SbObjectKind::Kept
    }
}

pub fn sb_object_kind(model_id: u16) -> (r: SbObjectKind)
    ensures
        r == spec_sb_object_kind(model_id),
{
    if model_id == u16::MAX {
        SbObjectKind::End
    } else if model_id >= 833 && model_id <= 856 {
        SbObjectKind::Skybox
    } else if model_id == 277 || model_id == 542 || model_id == 384 || model_id == 357 {
        SbObjectKind::Skipped
    } else {
        SbObjectKind::Kept
    }
}

/// Objects of the second title that are kept: debug and cockpit models
/// (ids up to 805 and from 1236 on) are left out.
pub fn loc_object_kept(model_id: u16) -> (r: bool)
    ensures
        r == (805 < model_id && model_id < 1236),
{
    model_id > 805 && model_id < 1236
}

/// The objects of the first title's list `buf` end with bytes 46 to 92 zero.
pub open spec fn sb_object_tail_zero(buf: Seq<u8>, k: int) -> bool {
    forall|i: int| SB_OBJ_SIZE * k + 46 <= i < SB_OBJ_SIZE * k + SB_OBJ_SIZE ==> buf[i] == 0
}

/// The skybox texture among the objects of `buf` from object `k` on: the
/// texture of the first skybox before the end marker. The outer `None`
/// stands for a skybox whose record does not end in zeros, which the
/// reader does not take.
pub open spec fn skybox_from(buf: Seq<u8>, k: nat) -> Option<Option<u16>>
    decreases buf.len() / (SB_OBJ_SIZE as nat) - k,
{
    if k >= buf.len() / (SB_OBJ_SIZE as nat) {
        Some(None)
    } else {
        let model = le16(buf, SB_OBJ_SIZE * k + 2) as u16;
        match spec_sb_object_kind(model) {
            SbObjectKind::End => Some(None),
            SbObjectKind::Skybox => if sb_object_tail_zero(buf, k as int) {
                Some(spec_sb_a(buf.subrange(SB_OBJ_SIZE * k + 2, SB_OBJ_SIZE * k + 12)).texture)
            } else {
                None
            },
            _ => skybox_from(buf, k + 1),
        }
    }
}

/// The texture of the mission's skybox (see `skybox_from`); the outer
/// `None` where the skybox record does not end in zeros.
pub fn find_sb_skybox_texture(buf: &[u8]) -> (r: Option<Option<u16>>)
    ensures
        r == skybox_from(buf@, 0),
{
    let len: usize = buf.len();
    let n: usize = len / SB_OBJ_SIZE;
    let mut k: usize = 0;
    while k < n
        invariant
            k <= n,
            len == buf@.len(),
            n == buf@.len() / (SB_OBJ_SIZE as nat),
            skybox_from(buf@, 0) == skybox_from(buf@, k as nat),
        decreases n - k,
    {
        assert(SB_OBJ_SIZE * k + SB_OBJ_SIZE <= len) by (nonlinear_arith)
            requires
                k < n,
                n == len / 92,
        ;
        let base: usize = SB_OBJ_SIZE * k;
        let model_id: u16 = read_u16_le(buf, base + 2);
        match sb_object_kind(model_id) {
            SbObjectKind::End => {
                return Some(None);
            },
            SbObjectKind::Skybox => {
                let mut i: usize = base + 46;
                while i < base + SB_OBJ_SIZE
                    invariant
                        base + 46 <= i <= base + SB_OBJ_SIZE,
                        base == SB_OBJ_SIZE * k,
                        base + SB_OBJ_SIZE <= len,
                        len == buf@.len(),
                        k < n,
                        n == buf@.len() / (SB_OBJ_SIZE as nat),
                        model_id == le16(buf@, base + 2),
                        spec_sb_object_kind(model_id) == SbObjectKind::Skybox,
                        skybox_from(buf@, 0) == skybox_from(buf@, k as nat),
                        forall|j: int| base + 46 <= j < i ==> buf@[j] == 0,
                    decreases base + SB_OBJ_SIZE - i,
                {
                    if buf[i] != 0 {
                        assert(!sb_object_tail_zero(buf@, k as int));
                        return None;
                    }
                    i = i + 1;
                }
                let cfg_buf = crate::bytes::copy_range(buf, base + 2, base + 12);
                let cfg = ModelConfig::import_sb_a(cfg_buf.as_slice());
                return Some(cfg.texture);
            },
            _ => {},
        }
        k = k + 1;
    }
    Some(None)
}

/// The texture of the mission's skybox, when there is one, where the
/// skybox record ends in zeros (see `find_sb_skybox_texture`).
pub fn get_sb_skybox_texture(buf: &[u8]) -> (r: Option<u16>)
    requires
        skybox_from(buf@, 0) is Some,
    ensures
        Some(r) == skybox_from(buf@, 0),
{
    match find_sb_skybox_texture(buf) {
        Some(t) => t,
        None => vstd::pervasive::unreached(),
    }
}

/// A placed object of a mission: its life, model, position and rotation
/// (`f32` bits, unscaled), how it draws, its spawn slot, team, ticket value
/// and flags.
#[derive(Copy, Clone)]
pub struct OBJ {
    pub life: i16,
    pub modcfg: ModelConfig,
    pub attr0: u16,
    pub position_bits: (u32, u32, u32),
    pub rotation_bits: (u32, u32, u32),
    pub alpha_clip: i8,
    pub shadow_flag: i8,
    pub npc_spawn_idx: u16,
    pub team_id: i8,
    pub ticket_value: i8,
    pub attr1: u16,
    pub flags: u32,
}

/// The object of the first title stored at `base` of `b`.
pub open spec fn sb_obj_at(b: Seq<u8>, base: int) -> OBJ {
    OBJ {
        life: (le16(b, base) as u16) as i16,
        modcfg: spec_sb_a(b.subrange(base + 2, base + 12)),
        attr0: 0,
        position_bits: (le32(b, base + 12) as u32, le32(b, base + 16) as u32, le32(b, base + 20) as u32),
        rotation_bits: (le32(b, base + 24) as u32, le32(b, base + 28) as u32, le32(b, base + 32) as u32),
        alpha_clip: b[base + 37] as i8,
        shadow_flag: b[base + 38] as i8,
        npc_spawn_idx: le16(b, base + 38) as u16,
        team_id: b[base + 40] as i8,
        ticket_value: b[base + 41] as i8,
        attr1: le16(b, base + 42) as u16,
        flags: le32(b, base + 40) as u32,
    }
}

/// The object of the second title stored at `base` of `b`.
pub open spec fn loc_obj_at(b: Seq<u8>, base: int) -> OBJ {
    OBJ {
        life: (le16(b, base) as u16) as i16,
        modcfg: spec_loc_a(b.subrange(base + 2, base + 10), 0),
        attr0: le16(b, base + 10) as u16,
        position_bits: (le32(b, base + 12) as u32, le32(b, base + 16) as u32, le32(b, base + 20) as u32),
        rotation_bits: (le32(b, base + 24) as u32, le32(b, base + 28) as u32, le32(b, base + 32) as u32),
        alpha_clip: b[base + 36] as i8,
        shadow_flag: b[base + 37] as i8,
        npc_spawn_idx: le16(b, base + 38) as u16,
        team_id: b[base + 40] as i8,
        ticket_value: b[base + 41] as i8,
        attr1: le16(b, base + 42) as u16,
        flags: le32(b, base + 44) as u32,
    }
}

/// `a` in front of what `o` holds, where it holds something.
pub open spec fn prepend(a: Seq<OBJ>, o: Option<Seq<OBJ>>) -> Option<Seq<OBJ>> {
    match o {
        Some(r) => Some(a + r),
        None => None,
    }
}

/// The objects of the first title's list `buf` from object `k` on, up to
/// the end marker: skyboxes and objects with mismatched parts are left
/// out. `None` where a kept object's record does not end in zeros.
pub open spec fn sb_objects_from(buf: Seq<u8>, k: nat) -> Option<Seq<OBJ>>
    decreases buf.len() / (SB_OBJ_SIZE as nat) - k,
{
    if k >= buf.len() / (SB_OBJ_SIZE as nat) {
        Some(Seq::empty())
    } else {
        let model = le16(buf, SB_OBJ_SIZE * k + 2) as u16;
        match spec_sb_object_kind(model) {
            SbObjectKind::End => Some(Seq::empty()),
            SbObjectKind::Kept => if sb_object_tail_zero(buf, k as int) {
                prepend(seq![sb_obj_at(buf, SB_OBJ_SIZE * k)], sb_objects_from(buf, k + 1))
            } else {
                None
            },
            _ => sb_objects_from(buf, k + 1),
        }
    }
}

/// Bytes 48 to 96 of the second title's object `k` of `buf` are zero.
pub open spec fn loc_object_tail_zero(buf: Seq<u8>, k: int) -> bool {
    forall|i: int| LOC_OBJ_SIZE * k + 48 <= i < LOC_OBJ_SIZE * k + LOC_OBJ_SIZE ==> buf[i] == 0
}

/// The objects of the second title's list `buf` from object `k` on: the
/// end marker may only be the last object, every other record must end in
/// zeros (`None` otherwise), and debug and cockpit models are left out.
/// The objects of the second title's list `buf`: a whole number of
/// records (`None` otherwise), read by `loc_objects_from`.
pub open spec fn loc_objects(buf: Seq<u8>) -> Option<Seq<OBJ>> {
    if buf.len() % (LOC_OBJ_SIZE as nat) != 0 {
        None
    } else {
        loc_objects_from(buf, 0)
    }
}

pub open spec fn loc_objects_from(buf: Seq<u8>, k: nat) -> Option<Seq<OBJ>>
    decreases buf.len() / (LOC_OBJ_SIZE as nat) - k,
{
    let n = buf.len() / (LOC_OBJ_SIZE as nat);
    if k >= n {
        Some(Seq::empty())
    } else if le16(buf, LOC_OBJ_SIZE * k + 2) == 0xFFFF {
        if k + 1 == n {
            Some(Seq::empty())
        } else {
            None
        }
    } else if !loc_object_tail_zero(buf, k as int) {
        None
    } else {
        let o = loc_obj_at(buf, LOC_OBJ_SIZE * k);
        if 805 < o.modcfg.model < 1236 {
            prepend(seq![o], loc_objects_from(buf, k + 1))
        } else {
            loc_objects_from(buf, k + 1)
        }
    }
}

proof fn lemma_prepend_assoc(a: Seq<OBJ>, b: Seq<OBJ>, o: Option<Seq<OBJ>>)
    ensures
        prepend(a, prepend(b, o)) == prepend(a + b, o),
{
    match o {
        Some(r) => {
            assert(a + (b + r) =~= (a + b) + r);
        },
        None => {},
    }
}

impl OBJ {
    /// Reads the object of the first title at `base`.
    fn read_sb(buf: &[u8], base: usize) -> (r: OBJ)
        requires
            base + SB_OBJ_SIZE <= buf@.len(),
            le16(buf@, base + 2) != 0xFFFF,
        ensures
            r == sb_obj_at(buf@, base as int),
    {
        let _n: usize = buf.len();
        let cfg_buf = copy_range(buf, base + 2, base + 12);
        assert(le16(cfg_buf@, 0) == le16(buf@, base + 2));
        OBJ {
            life: read_i16_le(buf, base),
            modcfg: ModelConfig::import_sb_a(cfg_buf.as_slice()),
            attr0: 0,
            position_bits: (read_u32_le(buf, base + 12), read_u32_le(buf, base + 16), read_u32_le(buf, base + 20)),
            rotation_bits: (read_u32_le(buf, base + 24), read_u32_le(buf, base + 28), read_u32_le(buf, base + 32)),
            alpha_clip: buf[base + 37] as i8,
            shadow_flag: buf[base + 38] as i8,
            npc_spawn_idx: read_u16_le(buf, base + 38),
            team_id: buf[base + 40] as i8,
            ticket_value: buf[base + 41] as i8,
            attr1: read_u16_le(buf, base + 42),
            flags: read_u32_le(buf, base + 40),
        }
    }

    /// Reads the object of the second title at `base`.
    fn read_loc(buf: &[u8], base: usize) -> (r: OBJ)
        requires
            base + LOC_OBJ_SIZE <= buf@.len(),
            le16(buf@, base + 2) != 0xFFFF,
        ensures
            r == loc_obj_at(buf@, base as int),
    {
        let _n: usize = buf.len();
        let cfg_buf = copy_range(buf, base + 2, base + 10);
        assert(le16(cfg_buf@, 0) == le16(buf@, base + 2));
        OBJ {
            life: read_i16_le(buf, base),
            modcfg: ModelConfig::import_loc_a(cfg_buf.as_slice()),
            attr0: read_u16_le(buf, base + 10),
            position_bits: (read_u32_le(buf, base + 12), read_u32_le(buf, base + 16), read_u32_le(buf, base + 20)),
            rotation_bits: (read_u32_le(buf, base + 24), read_u32_le(buf, base + 28), read_u32_le(buf, base + 32)),
            alpha_clip: buf[base + 36] as i8,
            shadow_flag: buf[base + 37] as i8,
            npc_spawn_idx: read_u16_le(buf, base + 38),
            team_id: buf[base + 40] as i8,
            ticket_value: buf[base + 41] as i8,
            attr1: read_u16_le(buf, base + 42),
            flags: read_u32_le(buf, base + 44),
        }
    }

    /// The objects of a mission of the first title (see `sb_objects_from`);
    /// `None` where a kept object's record does not end in zeros.
    pub fn find_sb_objects(buf: &[u8]) -> (r: Option<Vec<OBJ>>)
        ensures
            match sb_objects_from(buf@, 0) {
                None => r is None,
                Some(s) => r matches Some(v) && v@ == s,
            },
    {
        let len: usize = buf.len();
        let n: usize = len / SB_OBJ_SIZE;
        let mut out: Vec<OBJ> = Vec::new();
        let mut k: usize = 0;
        while k < n
            invariant
                k <= n,
                len == buf@.len(),
                n == buf@.len() / (SB_OBJ_SIZE as nat),
                sb_objects_from(buf@, 0) == prepend(out@, sb_objects_from(buf@, k as nat)),
            decreases n - k,
        {
            assert(SB_OBJ_SIZE * k + SB_OBJ_SIZE <= len) by (nonlinear_arith)
                requires
                    k < n,
                    n == len / 92,
            ;
            let base: usize = SB_OBJ_SIZE * k;
            let model_id: u16 = read_u16_le(buf, base + 2);
            match sb_object_kind(model_id) {
                SbObjectKind::End => {
                    assert(out@ + Seq::<OBJ>::empty() =~= out@);
                    return Some(out);
                },
                SbObjectKind::Kept => {
                    let mut i: usize = base + 46;
                    while i < base + SB_OBJ_SIZE
                        invariant
                            base + 46 <= i <= base + SB_OBJ_SIZE,
                            base == SB_OBJ_SIZE * k,
                            base + SB_OBJ_SIZE <= len,
                            len == buf@.len(),
                            k < n,
                            n == buf@.len() / (SB_OBJ_SIZE as nat),
                            model_id == le16(buf@, base + 2),
                            spec_sb_object_kind(model_id) == SbObjectKind::Kept,
                            sb_objects_from(buf@, 0) == prepend(out@, sb_objects_from(buf@, k as nat)),
                            forall|j: int| base + 46 <= j < i ==> buf@[j] == 0,
                        decreases base + SB_OBJ_SIZE - i,
                    {
                        if buf[i] != 0 {
                            assert(!sb_object_tail_zero(buf@, k as int));
                            return None;
                        }
                        i = i + 1;
                    }
                    assert(sb_object_tail_zero(buf@, k as int));
                    let o = OBJ::read_sb(buf, base);
                    proof {
                        lemma_prepend_assoc(out@, seq![o], sb_objects_from(buf@, (k + 1) as nat));
                    }
                    out.push(o);
                },
                _ => {},
            }
            k = k + 1;
        }
        assert(out@ + Seq::<OBJ>::empty() =~= out@);
        Some(out)
    }

    /// The objects of a mission of the first title, where every kept
    /// object's record ends in zeros (see `find_sb_objects`).
    pub fn import_sb_objects(buf: &[u8]) -> (r: Vec<OBJ>)
        requires
            sb_objects_from(buf@, 0) is Some,
        ensures
            Some(r@) == sb_objects_from(buf@, 0),
    {
        match OBJ::find_sb_objects(buf) {
            Some(v) => v,
            None => vstd::pervasive::unreached(),
        }
    }

    /// The objects of a mission of the second title (see `loc_objects`);
    /// `None` where the list is not whole records, the end marker is not
    /// last or a record does not end in zeros.
    pub fn find_loc_objects(buf: &[u8]) -> (r: Option<Vec<OBJ>>)
        ensures
            match loc_objects(buf@) {
                None => r is None,
                Some(s) => r matches Some(v) && v@ == s,
            },
    {
        let len: usize = buf.len();
        if len % LOC_OBJ_SIZE != 0 {
            return None;
        }
        let n: usize = len / LOC_OBJ_SIZE;
        let mut out: Vec<OBJ> = Vec::new();
        let mut k: usize = 0;
        while k < n
            invariant
                k <= n,
                len == buf@.len(),
                n == buf@.len() / (LOC_OBJ_SIZE as nat),
                buf@.len() % (LOC_OBJ_SIZE as nat) == 0,
                loc_objects_from(buf@, 0) == prepend(out@, loc_objects_from(buf@, k as nat)),
            decreases n - k,
        {
            assert(LOC_OBJ_SIZE * k + LOC_OBJ_SIZE <= len) by (nonlinear_arith)
                requires
                    k < n,
                    n == len / 96,
            ;
            let base: usize = LOC_OBJ_SIZE * k;
            let model_id: u16 = read_u16_le(buf, base + 2);
            if model_id == u16::MAX {
                if k + 1 != n {
                    return None;
                }
            } else {
                let mut i: usize = base + 48;
                while i < base + LOC_OBJ_SIZE
                    invariant
                        base + 48 <= i <= base + LOC_OBJ_SIZE,
                        base == LOC_OBJ_SIZE * k,
                        base + LOC_OBJ_SIZE <= len,
                        len == buf@.len(),
                        k < n,
                        n == buf@.len() / (LOC_OBJ_SIZE as nat),
                        model_id == le16(buf@, base + 2),
                        model_id != 0xFFFF,
                        loc_objects_from(buf@, 0) == prepend(out@, loc_objects_from(buf@, k as nat)),
                        forall|j: int| base + 48 <= j < i ==> buf@[j] == 0,
                    decreases base + LOC_OBJ_SIZE - i,
                {
                    if buf[i] != 0 {
                        assert(!loc_object_tail_zero(buf@, k as int));
                        return None;
                    }
                    i = i + 1;
                }
                assert(loc_object_tail_zero(buf@, k as int));
                let o = OBJ::read_loc(buf, base);
                if loc_object_kept(o.modcfg.model) {
                    proof {
                        lemma_prepend_assoc(out@, seq![o], loc_objects_from(buf@, (k + 1) as nat));
                    }
                    out.push(o);
                }
            }
            k = k + 1;
        }
        assert(out@ + Seq::<OBJ>::empty() =~= out@);
        Some(out)
    }

    /// The objects of a mission of the second title, where the list is whole
    /// records, the end marker is last and every record ends in zeros (see
    /// `find_loc_objects`).
    pub fn import_loc_objects(buf: &[u8]) -> (r: Vec<OBJ>)
        requires
            loc_objects(buf@) is Some,
        ensures
            Some(r@) == loc_objects(buf@),
    {
        match OBJ::find_loc_objects(buf) {
            Some(v) => v,
            None => vstd::pervasive::unreached(),
        }
    }
}

} // verus!
