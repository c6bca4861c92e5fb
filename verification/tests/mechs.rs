use bbtools::bbtools::eff::EffectPosition;
use bbtools::bbtools::obj::{MechModelConfig, ModelConfig};
use bbtools::bbtools::xbe::XBE;
use bbtools::bytes::{ByteReader, IoError};
use bbtools::titles::loc::mech::{
    assemble_mechs, faction_flags, read_mech_tables, EngineData, Loadout, Mech, MechParts, MechTables,
    ENGINE_DATA_SIZE, MECH_COUNT, MECH_PAINT_BITS, MECH_PARTS_SIZE, NO_SUB_TANK_BITS,
};

fn put32(b: &mut [u8], at: usize, v: u32) {
    b[at..at + 4].copy_from_slice(&v.to_le_bytes());
}

fn record(id: u32, cockpit_type: u32, sub_tank: f32) -> Vec<u8> {
    let mut b = vec![0u8; ENGINE_DATA_SIZE];
    put32(&mut b, 0, id);
    put32(&mut b, 4, 42.5f32.to_bits());
    for k in 0..6 {
        put32(&mut b, 12 + 4 * k, (k as f32).to_bits());
    }
    put32(&mut b, 72, 3.0f32.to_bits());
    put32(&mut b, 76, 2.0f32.to_bits());
    b[124..126].copy_from_slice(&1200u16.to_le_bytes());
    put32(&mut b, 140, sub_tank.to_bits());
    put32(&mut b, 156, cockpit_type);
    put32(&mut b, 160, 9);
    put32(&mut b, 176, 120);
    b
}

#[test]
fn engine_record_is_read() {
    let b = record(7, 2, 500.0);
    let e = EngineData::from(&b, 0).unwrap();
    assert_eq!(e.id, 7);
    assert_eq!(f32::from_bits(e.weight_bits), 42.5);
    assert_eq!(e.gears_bits.len(), 6);
    assert_eq!(f32::from_bits(e.gears_bits[5]), 5.0);
    assert_eq!(e.drag_size, (2.0f32.to_bits(), 3.0f32.to_bits()));
    assert_eq!(e.health_torso, 1200);
    assert_eq!(f32::from_bits(e.tank_capacity_sub_bits), 500.0);
    assert_eq!(e.cockpit_type, 2);
    assert_eq!(e.ticket_cost, 9);
    assert_eq!(e.loadout_weight_max, 120);
    assert_eq!(e.get_generation(), 2);
}

#[test]
fn engine_without_sub_tank_gets_ten_thousand() {
    let b = record(1, 1, 0.0);
    let e = EngineData::from(&b, 0).unwrap();
    assert_eq!(e.tank_capacity_sub_bits, NO_SUB_TANK_BITS);
    assert_eq!(f32::from_bits(NO_SUB_TANK_BITS), 10000.0);
    assert_eq!(e.get_generation(), 1);
}

#[test]
fn engine_record_with_bad_cockpit_is_refused() {
    let b = record(1, 6, 1.0);
    assert!(EngineData::from(&b, 0).is_none());
    let b = record(256, 0, 1.0);
    assert!(EngineData::from(&b, 0).is_none());
}

fn engine_file(sizes: &[u32], records: &[Vec<u8>]) -> Vec<u8> {
    let mut f = Vec::new();
    f.extend_from_slice(&(MECH_COUNT as u32).to_le_bytes());
    for s in sizes {
        f.extend_from_slice(&s.to_le_bytes());
    }
    for r in records {
        f.extend_from_slice(r);
    }
    f
}

#[test]
fn engine_file_skips_entries_of_other_sizes() {
    let mut sizes = vec![0u32; MECH_COUNT];
    sizes[0] = ENGINE_DATA_SIZE as u32;
    sizes[1] = 8;
    sizes[2] = ENGINE_DATA_SIZE as u32;
    let records = vec![record(0, 0, 1.0), vec![0xAA; 8], record(2, 5, 1.0)];
    let v = EngineData::import(&engine_file(&sizes, &records)).unwrap().unwrap();
    assert_eq!(v.len(), 2);
    assert_eq!(v[0].id, 0);
    assert_eq!(v[1].id, 2);
    assert_eq!(v[1].get_generation(), 1);
}

#[test]
fn engine_file_errors() {
    assert!(matches!(EngineData::import(&[1, 0]), Some(Err(IoError::UnexpectedEof))));
    assert!(EngineData::import(&[34, 0, 0, 0]).is_none());
    let mut sizes = vec![0u32; MECH_COUNT];
    sizes[0] = ENGINE_DATA_SIZE as u32;
    let short = engine_file(&sizes, &[vec![0u8; 100]]);
    assert!(matches!(EngineData::import(&short), Some(Err(IoError::UnexpectedEof))));
    let bad = engine_file(&sizes, &[record(0, 9, 1.0)]);
    assert!(EngineData::import(&bad).is_none());
}

fn parts_record(id: u32, manipulator: u32, weapon_mount: u32) -> Vec<u8> {
    let mut b = vec![0u8; MECH_PARTS_SIZE];
    put32(&mut b, 0, id);
    put32(&mut b, 4, 1.5f32.to_bits());
    put32(&mut b, 8, manipulator);
    put32(&mut b, 12, 2.0f32.to_bits());
    put32(&mut b, 16, 4.0f32.to_bits());
    put32(&mut b, 20, 6.0f32.to_bits());
    put32(&mut b, 24, weapon_mount);
    put32(&mut b, 28, 7);
    b
}

#[test]
fn mech_parts_are_read_in_order() {
    let mut d = vec![0xEEu8; 3];
    d.extend(parts_record(1, 2, 5));
    d.extend(parts_record(2, 0, 1));
    let v = MechParts::from_bytes(&d, 3, 2).unwrap().unwrap();
    assert_eq!(v.len(), 2);
    assert_eq!(v[0].id, 1);
    assert_eq!(f32::from_bits(v[0].collider_offset_z_bits), 1.5);
    assert_eq!(v[0].manipulator, 2);
    assert_eq!(v[0].collider_size_bits, (2.0f32.to_bits(), 4.0f32.to_bits(), 6.0f32.to_bits()));
    assert_eq!(v[0].weapon_mount, 5);
    assert_eq!(v[0]._unknown, 7);
    assert_eq!(v[1].id, 2);
    assert_eq!(v[1].weapon_mount, 1);
}

#[test]
fn mech_parts_refused_or_cut_short() {
    let d = parts_record(256, 0, 0);
    assert!(MechParts::from_bytes(&d, 0, 1).is_none());
    let d = parts_record(1, 0, 300);
    assert!(MechParts::from_bytes(&d, 0, 1).is_none());
    let d = parts_record(1, 0, 0);
    assert_eq!(MechParts::from_bytes(&d[..20], 0, 1).unwrap().err(), Some(IoError::UnexpectedEof));
    // the bad weapon mount is met before the data ends
    let d = parts_record(1, 0, 300);
    assert!(MechParts::from_bytes(&d[..30], 0, 1).is_none());
}

#[test]
fn placed_effects_skip_positions_of_none() {
    let mut d = Vec::new();
    d.extend_from_slice(&u32::MAX.to_le_bytes());
    d.extend_from_slice(&12u32.to_le_bytes());
    for v in [1.0f32, 2.0, 3.0] {
        d.extend_from_slice(&v.to_bits().to_le_bytes());
    }
    let v = EffectPosition::placed_from(&d, 0, 2).unwrap().unwrap();
    assert_eq!(v[0], None);
    assert_eq!(
        v[1],
        Some(EffectPosition { idx: 12, position: (1.0f32.to_bits(), 2.0f32.to_bits(), 3.0f32.to_bits()) })
    );
    assert_eq!(EffectPosition::placed_from(&d, 0, 3).unwrap().err(), Some(IoError::UnexpectedEof));
    let mut bad = d.clone();
    bad[4..8].copy_from_slice(&0x1_0000u32.to_le_bytes());
    assert!(EffectPosition::placed_from(&bad, 0, 2).is_none());
}

fn model(id: u16) -> ModelConfig {
    ModelConfig { model: id, animation: None, sequence: None, hitbox: None, texture: None }
}

fn loadout() -> Loadout {
    Loadout {
        mwep_ids: vec![3, 4],
        mwep_presets: [0, 1, 0xFF],
        mwep_fixeds: [false, true, false],
        swep_ids: vec![9],
        swep_presets: [0, 0xFF, 0xFF],
        swep_fixeds: [false, false, false],
        tank_count_max: 2,
        tank_count_preset: 1,
        weight_type: 1,
        class_type: 2,
        profile_description: 3,
        mounts: 4,
    }
}

fn tables() -> MechTables {
    let mut parts = Vec::new();
    for i in 0..MECH_COUNT {
        parts.push(MechParts {
            id: i as u8 + 1,
            collider_offset_z_bits: 0,
            manipulator: (i % 3) as u8,
            collider_size_bits: (0, 0, 0),
            weapon_mount: (i % 6) as u8,
            _unknown: 0,
        });
    }
    MechTables {
        mech_models: (0..MECH_COUNT)
            .map(|i| MechModelConfig {
                emblem_model: Some(900),
                chassis: model(100 + 10 * i as u16),
                hatch: model(101 + 10 * i as u16),
            })
            .collect(),
        weapon_mounts: (0..6).map(|i| model(500 + i)).collect(),
        manipulators: (0..3).map(|i| model(600 + i)).collect(),
        loadouts: (0..MECH_COUNT).map(|_| loadout()).collect(),
        parts,
        eyes: (0..MECH_COUNT)
            .map(|i| Some(EffectPosition { idx: 40 + i as u16, position: (1, 2, 3) }))
            .collect(),
        manufacturers: (0..MECH_COUNT as u32).map(|i| i % 5).collect(),
        paint_bits: (0..(MECH_COUNT * MECH_PAINT_BITS) as u32).collect(),
    }
}

fn engines(ids: &[u32]) -> Vec<EngineData> {
    ids.iter().map(|&id| EngineData::from(&record(id, 1, 1.0), 0).unwrap()).collect()
}

#[test]
fn mechs_are_assembled_from_the_tables() {
    let t = tables();
    let ms = assemble_mechs(&t, engines(&[0, 4])).unwrap();
    assert_eq!(ms.len(), 2);
    let m = &ms[1];
    assert_eq!(m.get_id(), 4);
    assert_eq!(m.name_text, 1403);
    assert_eq!(m.description_text, 692);
    for c in 0..4u16 {
        assert_eq!(m.modcfgs[c as usize].chassis.model, 140 + 2 * c);
        assert_eq!(m.modcfgs[c as usize].hatch.model, 141 + 2 * c);
        assert_eq!(m.modcfgs[c as usize].emblem_model, Some(900));
    }
    assert_eq!(m.manipulator.model, 601);
    assert_eq!(m.weapon_mount.model, 504);
    assert_eq!(m.manufacturer, 4);
    assert_eq!(m.faction_flags, 0);
    assert_eq!(ms[0].faction_flags, 9);
    assert_eq!(m.parts.id, 5);
    assert_eq!(m.eye.idx, 44);
    assert_eq!(m.loadout.mwep_ids, vec![3, 4]);
    assert_eq!(m.loadout.mounts, 4);
    assert_eq!(m.paint_bits.len(), MECH_PAINT_BITS);
    assert_eq!(m.paint_bits[0], 4 * MECH_PAINT_BITS as u32);
    assert_eq!(m.data.ticket_cost, 9);
    let models: Vec<u16> = m.get_model_configs().iter().map(|mc| mc.model).collect();
    assert_eq!(models, vec![140, 141, 142, 143, 144, 145, 146, 147, 601, 504]);
}

#[test]
fn mechs_that_do_not_fit_the_tables() {
    let mut t = tables();
    t.manufacturers[3] = 256;
    assert!(assemble_mechs(&t, engines(&[0, 3])).is_none());
    let mut t = tables();
    t.parts[2].id = 7;
    assert!(assemble_mechs(&t, engines(&[2])).is_none());
    let mut t = tables();
    t.eyes[1] = None;
    assert!(assemble_mechs(&t, engines(&[1])).is_none());
    let t = tables();
    assert!(assemble_mechs(&t, engines(&[35])).is_none());
    assert_eq!(assemble_mechs(&t, Vec::new()).unwrap().len(), 0);
}

#[test]
fn faction_flags_of_mechs() {
    assert_eq!(faction_flags(0), 0x9);
    assert_eq!(faction_flags(16), 0x8);
    assert_eq!(faction_flags(34), 0x0);
}

#[test]
fn mech_tables_need_a_data_section() {
    let mut x = XBE { title_id: 0, reader: ByteReader::new(vec![0; 16]), names: vec![], sections: vec![] };
    assert_eq!(read_mech_tables(&mut x).unwrap().err(), Some(IoError::SectionNotFound));
    let mut sizes = vec![0u32; MECH_COUNT];
    sizes[0] = ENGINE_DATA_SIZE as u32;
    let file = engine_file(&sizes, &[record(0, 0, 1.0)]);
    assert_eq!(Mech::import(&mut x, &file).unwrap().err(), Some(IoError::SectionNotFound));
    assert!(Mech::import(&mut x, &[1, 0, 0, 0]).is_none());
}

fn pascal(s: &str) -> Vec<u8> {
    let mut v = (s.len() as u32).to_le_bytes().to_vec();
    v.extend_from_slice(s.as_bytes());
    v
}

#[test]
fn mech_configuration_file() {
    let t = tables();
    let ms = assemble_mechs(&t, engines(&[4])).unwrap();
    let m = &ms[0];
    let mweps: Vec<String> = (0..10).map(|i| format!("/w/m{}.weapon", i)).collect();
    let sweps: Vec<String> = (0..10).map(|i| format!("s{}.weapon", i)).collect();
    let b = m.config_bytes(&mweps, &sweps);
    let mut expect = vec![4u8];
    expect.extend(pascal("loc:1403"));
    expect.extend(pascal("loc:0692"));
    expect.extend([1, 1, 4, 0, 1, 2, 3, 4, 9]);
    assert_eq!(&b[..expect.len()], &expect[..]);
    // engine values: rpm, curve, multiplier, tier, six gears, ...
    let engine_start = expect.len();
    let gears_start = engine_start + 4 + 4 + 32 + 8 + 4;
    assert_eq!(&b[gears_start + 20..gears_start + 24], &5.0f32.to_bits().to_le_bytes());
    // main weapons, sub weapons, tank counts
    let mut tail = vec![2u8];
    tail.extend(pascal("res:///w/m3.weapon"));
    tail.extend(pascal("res:///w/m4.weapon"));
    tail.extend([0, 1, 0xFF, 0, 1, 0]);
    tail.push(1);
    tail.extend(pascal("s9.weapon"));
    tail.extend([0, 0xFF, 0xFF, 0, 0, 0]);
    tail.extend([2, 1]);
    assert_eq!(&b[b.len() - tail.len()..], &tail[..]);
    let engine_len = b.len() - tail.len() - engine_start;
    assert_eq!(engine_len, 4 + 4 + 32 + 8 + 4 + 24 + 4 * 4 + 2 + 4 * 7 + 2 * 4 + 4 * 5 + 2);
}

#[test]
fn mech_scene_file() {
    let t = tables();
    let ms = assemble_mechs(&t, engines(&[1])).unwrap();
    let m = &ms[0];
    let models: Vec<String> = (0..1000).map(|i| format!("m{}", i)).collect();
    let effects: Vec<String> = (0..100).map(|i| format!("/e/{}", i)).collect();
    let b = m.scene_bytes(&models, &effects, (1, 2, 3), (4, 5, 6), (7, 8, 9));
    let mut expect = vec![1u8];
    for c in 0..4 {
        expect.extend(pascal(&format!("m{}", 110 + 2 * c)));
        expect.extend(pascal(&format!("m{}", 111 + 2 * c)));
    }
    expect.extend(pascal("m900"));
    expect.extend(pascal("m601"));
    expect.extend(pascal("m501"));
    expect.extend(pascal("res:///e/41"));
    for v in 1u32..=9 {
        expect.extend(v.to_le_bytes());
    }
    assert_eq!(b, expect);
}
