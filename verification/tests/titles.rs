use bbtools::bbtools::bin::BIN;
use bbtools::bbtools::stg::create_tilemap;
use bbtools::bbtools::obj::{
    find_sb_skybox_texture, get_sb_skybox_texture, loc_object_kept, sb_object_kind, MechModelConfig,
    ModelConfig, ModelConfigDB, ModelConfigFlags, SbObjectKind, WeaponModelConfig,
};
use bbtools::bbtools::text::{read_utf16_string, sanitize_string, write_translations_to_csv, Translation};
use bbtools::bbtools::xpr::{XPRFormat, XprError, XPR};
use bbtools::bytes::{ByteReader, IoError};
use bbtools::titles::loc::mech::Loadout;
use bbtools::titles::loc::wep::{
    assemble_weapons, halves_damage_range, projectile_collider_index, read_weapon_tables, uses_tracer_radius,
    weapon_text_ids, ProjectileCollider, Weapon, WeaponData, WeaponEffects, WeaponLookup, WeaponTables, WeaponType,
};
use bbtools::bbtools::eff::TrailEffect;
use bbtools::bbtools::xbe::{XbeError, XBE};
use bbtools::titles::sb::{
    add_ground_layer, advance_kind, can_add_ground_layer, fix_projectile_hitbox, get_dds_object_path,
    get_gltf_path, hitbox_node_count_fix, numbered_name, prepare_texture, AdvanceKind,
};

fn texture(format: XPRFormat, levels: usize, w: usize, h: usize, data: Vec<u8>) -> XPR {
    XPR { format, levels, width: w, height: h, depth: 1, layers: 1, data, dds_path: None }
}

fn model(model: u16, animation: Option<u16>, sequence: Option<u16>) -> ModelConfig {
    ModelConfig { model, animation, sequence, hitbox: None, texture: None }
}

#[test]
fn asset_paths() {
    assert_eq!(numbered_name("mission", 7, 2, ".stg"), "mission07.stg");
    assert_eq!(numbered_name("", 12345, 3, ""), "12345");
    assert_eq!(get_gltf_path(42), "/proprietary/sb/models/0042.gltf");
    assert_eq!(get_dds_object_path(1234), "/proprietary/sb/textures/objects/1234.dds");
}

#[test]
fn advance_files_by_index() {
    assert_eq!(advance_kind(0), AdvanceKind::Texture);
    assert_eq!(advance_kind(29), AdvanceKind::Texture);
    assert_eq!(advance_kind(30), AdvanceKind::Model);
    assert_eq!(advance_kind(54), AdvanceKind::Model);
    assert_eq!(advance_kind(55), AdvanceKind::Text);
}

#[test]
fn hitbox_fixes() {
    assert_eq!(hitbox_node_count_fix(5), 1);
    assert_eq!(hitbox_node_count_fix(324), 4);
    assert_eq!(hitbox_node_count_fix(645), 2);
    assert_eq!(hitbox_node_count_fix(655), 6);
    assert_eq!(hitbox_node_count_fix(6), 0);
    let mut p = model(683, Some(1), None);
    fix_projectile_hitbox(&mut p);
    assert_eq!(p.hitbox, Some(487));
    assert_eq!(p.animation, Some(1));
    let mut q = model(683, None, None);
    q.hitbox = Some(3);
    fix_projectile_hitbox(&mut q);
    assert_eq!(q.hitbox, Some(3));
    let mut r = model(684, None, None);
    fix_projectile_hitbox(&mut r);
    assert_eq!(r.hitbox, None);
}

#[test]
fn textures_are_prepared_for_the_engine() {
    let mut dxt1 = texture(XPRFormat::DXT1, 1, 4, 4, vec![0xFF, 0xFF, 0, 0, 0, 0, 0, 0]);
    assert_eq!(prepare_texture(&mut dxt1), Ok(()));
    assert!(dxt1.format == XPRFormat::DXT3);
    assert_eq!(dxt1.data.len(), 16);
    // An opaque block: all alpha set, then the DXT1 block unchanged.
    assert_eq!(&dxt1.data[0..8], &[0xFF; 8]);
    assert_eq!(&dxt1.data[8..16], &[0xFF, 0xFF, 0, 0, 0, 0, 0, 0]);
    let mut bad = texture(XPRFormat::DXT1, 1, 4, 4, vec![0; 7]);
    assert!(prepare_texture(&mut bad).is_err());
    let mut argb = texture(XPRFormat::ARGB, 1, 2, 2, (0..16).collect());
    assert!(argb.can_unswizzle());
    assert_eq!(prepare_texture(&mut argb), Ok(()));
    assert!(argb.format == XPRFormat::ARGB_LIN);
    assert_eq!(argb.width, 2);
    // Two by two texels of four bytes: the swizzled order of a 2x2 block
    // is already linear.
    assert_eq!(argb.data, (0..16).collect::<Vec<u8>>());
    let mut l16 = texture(XPRFormat::L16_LIN, 1, 1, 1, vec![1, 2]);
    assert_eq!(prepare_texture(&mut l16), Ok(()));
    assert!(l16.format == XPRFormat::L16_LIN);
    assert_eq!(l16.data, vec![1, 2]);
}

#[test]
fn ground_layers_stack() {
    // nothing yet: the next one becomes the base
    let g = texture(XPRFormat::DXT3, 1, 4, 4, vec![3; 16]);
    let r = add_ground_layer(None, Some(g)).unwrap().unwrap();
    assert_eq!(r.layers, 1);
    let b = texture(XPRFormat::DXT3, 1, 4, 4, vec![3; 16]);
    let r = add_ground_layer(Some(b), None).unwrap().unwrap();
    assert_eq!(r.data, vec![3; 16]);
    assert!(add_ground_layer(None, None).unwrap().is_none());
    // a base twice as large drops its top level first
    let mut bdata = vec![1u8; 64];
    bdata.extend_from_slice(&[2; 16]);
    let base = texture(XPRFormat::DXT3, 2, 8, 8, bdata);
    let mut gdata = vec![3u8; 16];
    gdata.extend_from_slice(&[4; 16]);
    let next = texture(XPRFormat::DXT3, 2, 4, 4, gdata);
    assert!(can_add_ground_layer(&base, &next));
    let r = add_ground_layer(Some(base), Some(next)).unwrap().unwrap();
    assert_eq!((r.width, r.height, r.levels, r.layers), (4, 4, 1, 2));
    let mut expected = vec![2u8; 16];
    expected.extend_from_slice(&[3; 16]);
    assert_eq!(r.data, expected);
    // sizes that do not line up
    let base = texture(XPRFormat::DXT3, 1, 8, 8, vec![0; 64]);
    let next = texture(XPRFormat::DXT3, 1, 2, 2, vec![0; 16]);
    assert!(can_add_ground_layer(&base, &next));
    assert_eq!(add_ground_layer(Some(base), Some(next)).err(), Some(XprError::WidthMismatch));
    let base = texture(XPRFormat::DXT3, 1, 8, 8, vec![0; 64]);
    let next = texture(XPRFormat::DXT3, 1, 8, 4, vec![0; 32]);
    assert_eq!(add_ground_layer(Some(base), Some(next)).err(), Some(XprError::HeightMismatch));
    // a swizzled texture with mipmaps has no known pitch
    let base = texture(XPRFormat::ARGB, 2, 8, 8, vec![0; 320]);
    let next = texture(XPRFormat::DXT3, 1, 8, 8, vec![0; 64]);
    assert!(!can_add_ground_layer(&base, &next));
}

#[test]
fn weapon_rules() {
    assert_eq!(WeaponType::MWEP.to_str(), "MWEP");
    assert_eq!(WeaponType::SWEP.to_str(), "SWEP");
    assert_eq!(WeaponType::CWEP.to_str(), "CWEP");
    assert_eq!(WeaponType::MWEP.as_u8(), 0);
    assert_eq!(WeaponType::CWEP.as_u8(), 2);
    assert_eq!(weapon_text_ids(WeaponType::MWEP, 3), (1452, 742));
    assert_eq!(weapon_text_ids(WeaponType::SWEP, 3), (1475, 765));
    assert_eq!(weapon_text_ids(WeaponType::CWEP, 0), (1472, 762));
    assert_eq!(projectile_collider_index(1186), 0);
    assert_eq!(projectile_collider_index(1191), 2);
    assert!(uses_tracer_radius(2, 0, 3, WeaponType::MWEP));
    assert!(!uses_tracer_radius(2, 0x0008_0000, 3, WeaponType::MWEP));
    assert!(!uses_tracer_radius(2, 0, 21, WeaponType::MWEP));
    assert!(!uses_tracer_radius(2, 0, 3, WeaponType::SWEP));
    assert!(!uses_tracer_radius(1, 0, 3, WeaponType::MWEP));
}

#[test]
fn loadout_from_parts() {
    let mweps = [4, 9, 0xFF, 2, 0xFE];
    let sweps = [7, 0xFE];
    let tanks = [0, 2, 1, 0xFE];
    let preset = [9, 5, 4, 7, 7, 0, 0, 1, 0];
    let fixed = [0, 1, 0, 0, 0, 2, 0, 0, 0];
    let l = Loadout::from_parts(&mweps, &sweps, &tanks, &preset, &fixed, 1, 3, 12, 2);
    assert_eq!(l.mwep_ids, vec![4, 9, 2]);
    assert_eq!(l.swep_ids, vec![7]);
    assert_eq!(l.mwep_presets, [1, 0xFF, 0]);
    assert_eq!(l.swep_presets, [0, 0, 0xFF]);
    assert_eq!(l.mwep_fixeds, [false, true, false]);
    assert_eq!(l.swep_fixeds, [false, false, true]);
    // tank counts are the entries plus one: 1, 3, 2
    assert_eq!(l.tank_count_max, 3);
    assert_eq!(l.tank_count_preset, 3);
    assert_eq!((l.weight_type, l.class_type, l.profile_description, l.mounts), (1, 3, 12, 2));
    let empty = Loadout::from_parts(&[], &[], &[0xFE], &[0xFF; 9], &[0; 9], 0, 0, 0, 0);
    assert!(empty.mwep_ids.is_empty());
    assert_eq!(empty.tank_count_max, 0);
    assert_eq!(empty.tank_count_preset, 0);
    assert_eq!(empty.mwep_presets, [0xFF; 3]);
}

fn bin_bytes(files: &[&[u8]]) -> Vec<u8> {
    let mut b = b"BIN0".to_vec();
    b.extend_from_slice(&(files.len() as u32).to_le_bytes());
    let mut at = 8 + 8 * files.len() as u32;
    for f in files {
        b.extend_from_slice(&at.to_le_bytes());
        b.extend_from_slice(&(f.len() as u32).to_le_bytes());
        at += f.len() as u32;
    }
    for f in files {
        b.extend_from_slice(f);
    }
    b
}

#[test]
fn archive_files() {
    let mut bin = BIN::open(bin_bytes(&[b"abc", b"", b"hello"])).unwrap();
    assert_eq!(bin.file_count(), 3);
    assert_eq!(bin.file_length(0), 3);
    assert_eq!(bin.file_length(2), 5);
    assert_eq!(bin.file_as_bytes(2), Ok(b"hello".to_vec()));
    assert_eq!(bin.file_as_bytes(1), Ok(vec![]));
    assert_eq!(bin.file_as_bytes(3), Err(IoError::InvalidFileIndex));
    let mut out = vec![b'>'];
    assert_eq!(bin.copy_file(0, &mut out), Ok(true));
    assert_eq!(out, b">abc".to_vec());
    assert_eq!(bin.copy_file(9, &mut out), Err(IoError::InvalidFileIndex));
    assert_eq!(out, b">abc".to_vec());
}

#[test]
fn archive_errors_and_short_files() {
    assert_eq!(BIN::open(vec![1, 2]).err(), Some(IoError::UnexpectedEof));
    assert_eq!(BIN::open(b"BINX\0\0\0\0".to_vec()).err(), Some(IoError::BadMagic));
    // the table promises two entries but holds one
    let mut t = b"BIN0".to_vec();
    t.extend_from_slice(&2u32.to_le_bytes());
    t.extend_from_slice(&[0; 8]);
    assert_eq!(BIN::open(t).err(), Some(IoError::UnexpectedEof));
    // a file that runs past the data
    let mut b = bin_bytes(&[b"abcd"]);
    b.truncate(b.len() - 2);
    let mut bin = BIN::open(b).unwrap();
    assert_eq!(bin.file_as_bytes(0), Err(IoError::UnexpectedEof));
    let mut out = Vec::new();
    assert_eq!(bin.copy_file(0, &mut out), Ok(false));
    assert_eq!(out, b"ab".to_vec());
}

#[test]
fn csv_escapes() {
    assert_eq!(sanitize_string("plain text"), "plain text");
    assert_eq!(sanitize_string("say \"hi\""), "say \"\"hi\"\"");
    assert_eq!(sanitize_string("a\tb\x0Bc\x07"), "a\\tb\\vc\\a");
    let ts = vec![
        Translation { jp: None, en: Some("Only \"en\"".to_string()) },
        Translation { jp: None, en: None },
    ];
    assert_eq!(
        write_translations_to_csv("loc", &ts),
        "keys,ja,en\nloc0000,\"Only \"\"en\"\"\",\"Only \"\"en\"\"\"\n"
    );
    assert_eq!(write_translations_to_csv("x", &[]), "keys,ja,en\n");
}

#[test]
fn utf16_strings() {
    let mut r = ByteReader::new(vec![0x41, 0, 0x42, 0, 0, 0, 0x43, 0]);
    assert_eq!(read_utf16_string(&mut r), Ok("AB".to_string()));
    assert_eq!(r.stream_position(), 6);
    // no terminator before the end
    assert_eq!(read_utf16_string(&mut r), Err(IoError::UnexpectedEof));
    // a lone surrogate is replaced
    let mut r = ByteReader::new(vec![0x00, 0xD8, 0, 0]);
    assert_eq!(read_utf16_string(&mut r), Ok("\u{FFFD}".to_string()));
}

#[test]
fn model_records() {
    let buf = [1u8, 0, 2, 0, 3, 0, 4, 0, 0xFF, 0xFF];
    let a = ModelConfig::import_sb_a(&buf);
    assert_eq!((a.model, a.animation, a.sequence, a.texture, a.hitbox), (1, Some(2), Some(3), Some(4), None));
    let b = ModelConfig::import_sb_b(&buf);
    assert_eq!((b.model, b.animation, b.texture, b.hitbox, b.sequence), (1, Some(2), Some(3), Some(4), None));
    let la = ModelConfig::import_loc_a(&buf[..8]);
    assert_eq!((la.animation, la.sequence, la.hitbox, la.texture), (Some(2), Some(3), Some(4), None));
    let lb = ModelConfig::import_loc_b(&buf[..8]);
    assert_eq!((lb.animation, lb.hitbox, lb.sequence), (Some(2), Some(3), Some(4)));
    let mech = MechModelConfig::from(&[0xFF, 0xFF, 1, 0, 2, 0, 3, 0, 4, 0, 5, 0, 6, 0, 7, 0, 8, 0, 0, 0]);
    assert_eq!(mech.emblem_model, None);
    assert_eq!(mech.chassis.model, 1);
    assert_eq!(mech.hatch.model, 5);
    assert_eq!(mech.hatch.hitbox, Some(8));
    let mut w = vec![0xFFu8, 0xFF, 0, 0, 0, 0, 0, 0, 0, 0];
    w.extend_from_slice(&[9, 0, 1, 0, 2, 0, 3, 0, 4, 0, 5, 0, 6, 0]);
    let wm = WeaponModelConfig::import_sb(&w);
    assert!(wm.projectile.is_none());
    assert_eq!(wm.weapon.unwrap().model, 9);
    assert_eq!(wm.weapon.unwrap().sequence, Some(4));
    assert_eq!((wm._attr0, wm._attr1), (5, 6));
    let mut f = vec![1u8, 0, 2, 0, 3, 0, 4, 0, 0x10, 0, 0, 0];
    f.extend_from_slice(&[7, 0, 0xFF, 0xFF, 0, 0, 0, 0, 1, 0, 0, 0x80]);
    let fs = ModelConfigFlags::import_multiple_a(&f, 2);
    assert_eq!(fs.len(), 2);
    assert_eq!(fs[0].flags, 0x10);
    assert_eq!(fs[1].modcfg.model, 7);
    assert_eq!(fs[1].modcfg.animation, None);
    assert_eq!(fs[1].flags, 0x8000_0001);
    let fb = ModelConfigFlags::import_b(&f[..12]);
    assert_eq!((fb.modcfg.hitbox, fb.modcfg.sequence), (Some(3), Some(4)));
}

#[test]
fn model_database() {
    let mut db = ModelConfigDB::new();
    assert!(db.get_model(1).is_none());
    db.register(&model(1, Some(0), Some(10)));
    db.register_multiple(&[model(3, Some(2), Some(30)), model(2, Some(0), Some(10)), model(5, None, None)]);
    // registering the same record again changes nothing
    db.register(&model(3, Some(2), Some(30)));
    assert_eq!(db.get_model(3).unwrap().sequence, Some(30));
    assert_eq!(db.get_model(2).unwrap().animation, Some(0));
    assert!(db.get_model(4).is_none());
    // each animation takes the sequence of the models that use it
    assert_eq!(db.get_sequence_table(4), vec![Some(10), None, Some(30), None]);
}

fn objects(models: &[u16]) -> Vec<u8> {
    let mut b = vec![0u8; 92 * models.len()];
    for (k, m) in models.iter().enumerate() {
        b[92 * k + 2..92 * k + 4].copy_from_slice(&m.to_le_bytes());
    }
    b
}

#[test]
fn mission_objects() {
    assert_eq!(sb_object_kind(0xFFFF), SbObjectKind::End);
    assert_eq!(sb_object_kind(833), SbObjectKind::Skybox);
    assert_eq!(sb_object_kind(856), SbObjectKind::Skybox);
    assert_eq!(sb_object_kind(857), SbObjectKind::Kept);
    assert_eq!(sb_object_kind(277), SbObjectKind::Skipped);
    assert_eq!(sb_object_kind(357), SbObjectKind::Skipped);
    assert!(!loc_object_kept(805));
    assert!(loc_object_kept(806));
    assert!(loc_object_kept(1235));
    assert!(!loc_object_kept(1236));
    let mut b = objects(&[10, 840, 845]);
    b[92 + 8..92 + 10].copy_from_slice(&77u16.to_le_bytes());
    assert_eq!(find_sb_skybox_texture(&b), Some(Some(77)));
    assert_eq!(get_sb_skybox_texture(&b), Some(77));
    let ended = objects(&[10, 0xFFFF, 840]);
    assert_eq!(find_sb_skybox_texture(&ended), Some(None));
    assert_eq!(find_sb_skybox_texture(&objects(&[])), Some(None));
    let mut dirty = objects(&[840]);
    dirty[60] = 1;
    assert_eq!(find_sb_skybox_texture(&dirty), None);
}

fn weapon_record(id: u16, category: u8, damage_type: u16, impact: u8) -> Vec<u8> {
    let mut b = vec![0u8; 84];
    b[0..2].copy_from_slice(&id.to_le_bytes());
    b[2..4].copy_from_slice(&1u16.to_le_bytes());
    b[4..8].copy_from_slice(&0x4120_0000u32.to_le_bytes());
    b[36..38].copy_from_slice(&100u16.to_le_bytes());
    b[40..42].copy_from_slice(&20u16.to_le_bytes());
    b[44..46].copy_from_slice(&3u16.to_le_bytes());
    b[49] = impact;
    b[54..56].copy_from_slice(&30u16.to_le_bytes());
    b[62..64].copy_from_slice(&45u16.to_le_bytes());
    b[76..78].copy_from_slice(&damage_type.to_le_bytes());
    b[80] = category;
    b[81] = 20;
    b[82] = 2;
    b[83] = 1;
    b
}

#[test]
fn weapon_data_records() {
    let w = WeaponData::import(&weapon_record(7, 3, 2, 19)).unwrap();
    assert_eq!(w.id, 7);
    assert_eq!(w.initial_velocity_bits, 0x4120_0000);
    assert_eq!(w.damage_max, 100);
    assert_eq!(w.damage_min, 70);
    assert_eq!(w.rapid_fire, 1);
    assert_eq!(w.firing_interval_frames, 20);
    assert_eq!(w.volley_count, 3);
    assert_eq!(w.volley_spread_degrees, 45);
    assert_eq!(w.muzzle_count, (2, 1));
    assert!(w.mech_recoil);
    assert_eq!(w.get_thrust_effect(), Some(560));
    assert_eq!(w.get_mech_impact_effect(), Some(638));
    // falloff beyond the most damage leaves none
    let mut b = weapon_record(7, 8, 4, 13);
    b[54..56].copy_from_slice(&300u16.to_le_bytes());
    let w = WeaponData::import(&b).unwrap();
    assert_eq!(w.damage_min, 0);
    assert_eq!(w.get_thrust_effect(), Some(561));
    assert_eq!(w.get_mech_impact_effect(), Some(618));
    let w = WeaponData::import(&weapon_record(1, 1, 4, 2)).unwrap();
    assert_eq!(w.get_thrust_effect(), None);
    assert_eq!(w.get_mech_impact_effect(), Some(545));
    let w = WeaponData::import(&weapon_record(1, 1, 7, 0)).unwrap();
    assert_eq!(w.get_mech_impact_effect(), Some(545));
    let w = WeaponData::import(&weapon_record(1, 1, 2, 8)).unwrap();
    assert_eq!(w.get_mech_impact_effect(), Some(569));
    let w = WeaponData::import(&weapon_record(1, 1, 1, 8)).unwrap();
    assert_eq!(w.get_mech_impact_effect(), None);
    assert!(halves_damage_range(0) && halves_damage_range(4) && halves_damage_range(10));
    assert!(!halves_damage_range(3));
    // records the reader does not take
    assert!(WeaponData::import(&weapon_record(300, 1, 2, 8)).is_none());
    let mut b = weapon_record(1, 1, 2, 8);
    b[2] = 2;
    assert!(WeaponData::import(&b).is_none());
    let mut b = weapon_record(1, 1, 2, 8);
    b[60] = 1;
    assert!(WeaponData::import(&b).is_none());
}

#[test]
fn weapon_data_lists() {
    let mut list = 2u32.to_le_bytes().to_vec();
    list.extend_from_slice(&weapon_record(1, 3, 2, 7));
    list.extend_from_slice(&weapon_record(2, 8, 4, 13));
    let v = WeaponData::import_multiple(&list).unwrap();
    assert_eq!(v.len(), 2);
    assert_eq!(v[1].id, 2);
    list.push(0);
    assert!(WeaponData::import_multiple(&list).is_none());
    assert!(WeaponData::import_multiple(&[0, 0]).is_none());
    assert_eq!(WeaponData::import_multiple(&[0, 0, 0, 0]).unwrap().len(), 0);
}

#[test]
fn ground_tile_maps() {
    // as many tiles as textures: tiles in order
    let mut r = ByteReader::new(vec![9, 9]);
    let (x, identity) = create_tilemap(2, 2, 4, &mut r).unwrap();
    assert!(identity);
    assert!(x.format == XPRFormat::L16_LIN);
    assert_eq!((x.width, x.height), (2, 2));
    assert_eq!(x.data, vec![0, 0, 1, 0, 2, 0, 3, 0]);
    assert_eq!(r.stream_position(), 0);
    // otherwise read from the data
    let mut r = ByteReader::new(vec![1, 0, 0, 0, 2, 0, 1, 0, 7]);
    let (x, identity) = create_tilemap(2, 2, 3, &mut r).unwrap();
    assert!(!identity);
    assert_eq!(x.data, vec![1, 0, 0, 0, 2, 0, 1, 0]);
    // a value naming no texture
    let mut r = ByteReader::new(vec![1, 0, 0, 0, 3, 0, 1, 0]);
    assert_eq!(create_tilemap(2, 2, 3, &mut r).err(), Some(IoError::InvalidTileMapValue));
    // too little data
    let mut r = ByteReader::new(vec![1, 0, 0, 0]);
    assert_eq!(create_tilemap(2, 2, 3, &mut r).err(), Some(IoError::UnexpectedEof));
}

#[test]
fn projectile_colliders_are_written() {
    let mut out = vec![0xAA];
    ProjectileCollider::Sphere { position: (1, 2, 3), radius_bits: 0x3F80_0000 }.write(&mut out);
    assert_eq!(out.len(), 1 + 1 + 16);
    assert_eq!(out[1], 0);
    assert_eq!(&out[2..6], &[1, 0, 0, 0]);
    assert_eq!(&out[14..18], &0x3F80_0000u32.to_le_bytes());
    let mut out = Vec::new();
    ProjectileCollider::Capsule { position: (0, 0, 0), rotation: (0, 0, 0, 9), radius_bits: 5, height_bits: 6 }
        .write(&mut out);
    assert_eq!(out.len(), 1 + 12 + 16 + 8);
    assert_eq!(out[0], 1);
    assert_eq!(out[25], 9);
    assert_eq!(out[33], 6);
    let mut out = Vec::new();
    ProjectileCollider::Box { position: (0, 0, 0), rotation: (0, 0, 0, 0), size: (7, 8, 9) }.write(&mut out);
    assert_eq!(out.len(), 1 + 12 + 16 + 12);
    assert_eq!(out[0], 2);
    assert_eq!(out[37], 9);
}

fn effects(tracer: Option<u16>) -> WeaponEffects {
    WeaponEffects {
        mech: None,
        charging: Some(3),
        firing: vec![10, 11],
        smoke: None,
        casing: Some(4),
        lights: vec![1, 2],
        lights_offset_bits: (0, 0, 0),
        flare: None,
        flying: vec![],
        thrust: Some(5),
        mech_impact: None,
        smoke_trail: None,
        tracer_trail: tracer,
    }
}

fn trail(width: f32) -> TrailEffect {
    TrailEffect {
        uv_idx: 33,
        color_start: (0, 0, 0, 0),
        color_max: (0, 0, 0, 0),
        section_count: 4,
        texture_scale_quarters: 4,
        width_start_bits: width.to_bits(),
        width_end_bits: 0,
        flags: 0,
    }
}

fn weapon_tables() -> WeaponTables {
    let m = |id: u16| ModelConfig { model: id, animation: None, sequence: None, hitbox: None, texture: None };
    WeaponTables {
        // projectile models 1186 and 1190: colliders 0 and 2
        projectile_models: vec![m(1186), m(1190)],
        weapon_models: vec![
            ModelConfigFlags { modcfg: m(700), flags: 0 },
            ModelConfigFlags { modcfg: m(701), flags: 0x0008_0000 },
        ],
        lookups: vec![WeaponLookup(0, 0), WeaponLookup(1, 0), WeaponLookup(1, 1)],
        names: vec!["Rifle".to_string(), "Cannon".to_string(), "Blade".to_string()],
    }
}

fn colliders() -> Vec<ProjectileCollider> {
    vec![
        ProjectileCollider::Box { position: (0, 0, 0), rotation: (0, 0, 0, 0), size: (1, 1, 1) },
        ProjectileCollider::Sphere { position: (0, 0, 0), radius_bits: 0 },
        ProjectileCollider::Sphere { position: (0, 0, 0), radius_bits: 0 },
    ]
}

fn weapon_data(id: u16) -> WeaponData {
    WeaponData::import(&weapon_record(id, 1, 2, 8)).unwrap()
}

#[test]
fn weapons_are_assembled_from_the_tables() {
    let t = weapon_tables();
    let fx = vec![effects(None), effects(Some(1)), effects(None)];
    let tracers = vec![trail(1.0), trail(8.0)];
    let ws = assemble_weapons(
        &t,
        WeaponType::MWEP,
        vec![weapon_data(0), weapon_data(1), weapon_data(2)],
        &fx,
        &tracers,
        &colliders(),
    )
    .unwrap();
    assert_eq!(ws.len(), 3);
    assert_eq!(ws[0].get_id(), 0);
    assert_eq!(ws[0].display_name, "Rifle");
    assert_eq!((ws[0].name_text, ws[0].description_text), (1449, 739));
    assert_eq!(ws[0].projectile_collider, colliders()[0]);
    assert_eq!(ws[0].tracer_width_bits, None);
    // the invisible projectile of a plain main weapon takes its tracer's width
    assert_eq!(ws[1].tracer_width_bits, Some(8.0f32.to_bits()));
    assert_eq!(ws[1].effects.firing, vec![10, 11]);
    let models: Vec<u16> = ws[1].get_model_configs().iter().map(|m| m.model).collect();
    assert_eq!(models, vec![700, 1190]);
    // a melee weapon keeps its collider
    assert_eq!(ws[2].tracer_width_bits, None);
    assert_eq!(ws[2].weapon_modcfg.flags, 0x0008_0000);
    let sub = assemble_weapons(&t, WeaponType::SWEP, vec![weapon_data(1)], &fx[..1], &tracers, &colliders());
    assert!(sub.is_none());
    let sub = assemble_weapons(
        &t,
        WeaponType::SWEP,
        vec![weapon_data(1), weapon_data(0)],
        &fx[..2],
        &tracers,
        &colliders(),
    )
    .unwrap();
    assert_eq!(sub[0].tracer_width_bits, None);
    assert_eq!((sub[0].name_text, sub[0].description_text), (1473, 763));
}

#[test]
fn weapons_that_do_not_fit_the_tables() {
    let t = weapon_tables();
    let tracers = vec![trail(1.0)];
    // no tracer trail for the invisible projectile
    let fx = vec![effects(None), effects(None)];
    assert!(assemble_weapons(&t, WeaponType::MWEP, vec![weapon_data(1), weapon_data(0)], &fx, &tracers, &colliders())
        .is_none());
    // a tracer trail that is not there
    let fx = vec![effects(None), effects(Some(4))];
    assert!(assemble_weapons(&t, WeaponType::MWEP, vec![weapon_data(1), weapon_data(0)], &fx, &tracers, &colliders())
        .is_none());
    // effects not one per record
    let fx = vec![effects(None)];
    assert!(assemble_weapons(&t, WeaponType::MWEP, vec![weapon_data(0), weapon_data(0)], &fx, &tracers, &colliders())
        .is_none());
    // a lookup that names no weapon model
    let mut bad = weapon_tables();
    bad.lookups[0] = WeaponLookup(0, 5);
    let fx = vec![effects(None)];
    assert!(assemble_weapons(&bad, WeaponType::MWEP, vec![weapon_data(0)], &fx, &tracers, &colliders()).is_none());
}

#[test]
fn weapon_tables_need_a_data_section() {
    let mut x = XBE { title_id: 0, reader: ByteReader::new(vec![0; 16]), names: vec![], sections: vec![] };
    assert_eq!(
        read_weapon_tables(&mut x, WeaponType::MWEP).unwrap().err(),
        Some(XbeError::Io(IoError::SectionNotFound))
    );
    let r = Weapon::import(&mut x, vec![], WeaponType::SWEP, &[], &[], &[]);
    assert_eq!(r.unwrap().err(), Some(XbeError::Io(IoError::SectionNotFound)));
}

fn pascal_str(s: &str) -> Vec<u8> {
    let mut v = (s.len() as u32).to_le_bytes().to_vec();
    v.extend_from_slice(s.as_bytes());
    v
}

#[test]
fn weapon_scene_files() {
    let t = weapon_tables();
    let fx = vec![effects(None), effects(Some(1)), effects(None)];
    let tracers = vec![trail(1.0), trail(8.0)];
    let ws = assemble_weapons(&t, WeaponType::MWEP, vec![weapon_data(0), weapon_data(1)], &fx[..2], &tracers, &colliders())
        .unwrap();
    let w = &ws[1];
    let models: Vec<String> = (0..2000).map(|i| format!("/m/{}", i)).collect();
    let paths: Vec<String> = (0..20).map(|i| format!("e{}", i)).collect();
    let lights: Vec<String> = (0..5).map(|i| format!("l{}", i)).collect();
    let b = w.weapon_scene(&models, &paths, &lights);
    let mut expect = vec![1u8, 0];
    expect.extend(0u32.to_le_bytes());
    expect.extend(pascal_str("res:///m/700"));
    expect.extend(0u32.to_le_bytes());
    expect.extend(pascal_str("e3"));
    expect.extend(2u32.to_le_bytes());
    expect.extend(pascal_str("e10"));
    expect.extend(pascal_str("e11"));
    expect.extend(0u32.to_le_bytes());
    expect.extend(pascal_str("e4"));
    expect.extend([0u8; 12]);
    expect.extend(2u32.to_le_bytes());
    expect.extend(pascal_str("l1"));
    expect.extend(pascal_str("l2"));
    assert_eq!(b, expect);
    let smoke: Vec<String> = vec!["s0".to_string()];
    let tracer_paths: Vec<String> = vec!["t0".to_string(), "t1".to_string()];
    let b = w.projectile_scene(&models, &paths, &smoke, &tracer_paths);
    let mut expect = vec![1u8, 0];
    expect.extend(pascal_str("res:///m/1190"));
    let mut collider = Vec::new();
    colliders()[2].write(&mut collider);
    expect.extend(collider);
    expect.extend(0u32.to_le_bytes());
    expect.extend(0u32.to_le_bytes());
    expect.extend(pascal_str("e5"));
    expect.extend(0u32.to_le_bytes());
    expect.extend(0u32.to_le_bytes());
    expect.extend(pascal_str("t1"));
    assert_eq!(b, expect);
}
