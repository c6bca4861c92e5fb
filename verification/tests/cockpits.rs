use bbtools::bbtools::obj::PosRot;
use bbtools::bbtools::xbe::{Section, XBE};
use bbtools::bytes::{ByteReader, IoError};
use bbtools::bbtools::eff::EffectPosition;
use bbtools::titles::loc::cockpit::{
    CockpitLighting, Cockpit, CockpitModels, DialsConfig, Line, OSAnimType, OSDrawType,
    OSSprite, OSSpriteColor, OsError, PointLightFrame, SceneLightFrame, AMB, COC, COCKPIT_COUNT,
    COMM_LIGHT_EFFECT, DIALS_STACK_SIZE, EJECT_LIGHT_EFFECT, OS, OS_SIZE,
};

fn put32(b: &mut [u8], at: usize, v: u32) {
    b[at..at + 4].copy_from_slice(&v.to_le_bytes());
}

fn put16(b: &mut [u8], at: usize, v: u16) {
    b[at..at + 2].copy_from_slice(&v.to_le_bytes());
}

const TEXT_SIZE: usize = 0x6A400;
const DATA_SIZE: usize = 0x37300;
const SEG_SIZE: usize = 0x20;

/// An image whose `.text` is all `push eax` but for the two bytes that end
/// the cockpit model code, whose `.data` holds indicator lights and pilot
/// poses, and whose `seg00` holds the cockpit offset.
fn cockpit_image() -> XBE {
    let text_at = 0;
    let data_at = TEXT_SIZE;
    let seg_at = TEXT_SIZE + DATA_SIZE;
    let mut d = vec![0x50u8; TEXT_SIZE];
    let end = 0x59E80 + 3391 + 7 + 1 + 37 + 1 + 4 + 145;
    d[end] = 0x7E;
    d[end + 1] = 0x0B;
    d.extend(vec![0u8; DATA_SIZE + SEG_SIZE]);
    // indicator lights: the first is none, the second has effect 12
    put32(&mut d, data_at + 0x36F78, u32::MAX);
    put32(&mut d, data_at + 0x36F78 + 4, 12);
    put32(&mut d, data_at + 0x37050 + 12, 1.5f32.to_bits());
    // the second pose of the second cockpit
    put32(&mut d, data_at + 0x105D0 + 24 * 8, 2.0f32.to_bits());
    // the cockpit offset
    put32(&mut d, seg_at + 12, 3.0f32.to_bits());
    put32(&mut d, seg_at + 20, (-1.0f32).to_bits());
    let section = |vaddr: u32, faddr: usize, size: usize| Section {
        vaddr,
        vsize: size as u32,
        faddr: faddr as u32,
        fsize: size as u32,
        hash_provided: vec![],
        hash_actual: vec![],
    };
    XBE {
        title_id: 0x4343_0003,
        reader: ByteReader::new(d),
        names: vec![".text".to_string(), ".data".to_string(), "seg00".to_string()],
        sections: vec![
            section(0x10000, text_at, TEXT_SIZE),
            section(0x100000, data_at, DATA_SIZE),
            section(0x200000, seg_at, SEG_SIZE),
        ],
    }
}

#[test]
fn cockpits_from_executable() {
    let mut x = cockpit_image();
    let cs = Cockpit::import(&mut x).unwrap().unwrap();
    assert_eq!(cs.len(), COCKPIT_COUNT);
    for (i, c) in cs.iter().enumerate() {
        assert_eq!(c.id as usize, i);
        assert_eq!(c.chassis_textures, (133 + 2 * i as u16, 134 + 2 * i as u16));
        assert_eq!(c.display_textures, (145 + 2 * i as u16, 146 + 2 * i as u16));
        assert_eq!(c.eject_light.idx, EJECT_LIGHT_EFFECT + i as u16);
        assert_eq!(c.comm_lights.is_some(), i == 1);
        assert_eq!(c.pilot_poses.len(), 7);
        assert_eq!(c.indicators_lights.len(), 9);
        assert_eq!(c.offset, (3.0f32.to_bits(), 0, (-1.0f32).to_bits()));
        assert_eq!(c.dials_config.bones.len(), 6);
    }
    assert_eq!(cs[0].indicators_lights[0], None);
    assert_eq!(
        cs[0].indicators_lights[1],
        Some(EffectPosition { idx: 12, position: (1.5f32.to_bits(), 0, 0) })
    );
    assert_eq!(cs[1].pilot_poses[1], PosRot((2.0f32.to_bits(), 0, 0), (0, 0, 0)));
    let comm = cs[1].comm_lights.as_ref().unwrap();
    assert_eq!(comm.len(), 5);
    assert!(comm.iter().all(|l| l.idx == COMM_LIGHT_EFFECT));
    // the stack tables are all zero: every dial model is 0 but the second
    // cockpit's, which is one further
    assert_eq!(cs[0].dials_config.model, 0);
    assert_eq!(cs[1].dials_config.model, 1);
    // model counts: monitors, chassis and displays
    let counts: Vec<(usize, usize, usize)> = cs
        .iter()
        .map(|c| (c.monitor_models.len(), c.chassis_models.len(), c.display_models.len()))
        .collect();
    assert_eq!(counts, vec![(4, 8, 4), (4, 11, 4), (4, 7, 6), (4, 8, 4), (4, 8, 4), (4, 8, 6)]);
    assert_eq!(cs[1].chassis_models[10].modcfg.model, 1268);
    assert_eq!(cs[1].chassis_models[10].modcfg.animation, Some(121));
    assert_eq!(cs[0].tuner, (8, 7));
    assert_eq!(cs[1].comms, (7, 10));
    assert_eq!(cs[2].multi_monitors, (0xFF, 5));
    let all = cs[2].get_model_configs();
    assert_eq!(all.len(), 4 + 7 + 6);
}

#[test]
fn cockpit_code_must_end_in_place() {
    let mut x = cockpit_image();
    let end = 0x59E80 + 3391 + 7 + 1 + 37 + 1 + 4 + 145;
    let mut d = x.reader.as_slice().to_vec();
    d[end] = 0x50;
    x.reader = ByteReader::new(d);
    assert!(Cockpit::import(&mut x).is_none());
}

#[test]
fn cockpit_sections_must_exist() {
    let mut x = cockpit_image();
    x.names[2] = "seg01".to_string();
    assert_eq!(Cockpit::import(&mut x).unwrap().err(), Some(IoError::SectionNotFound));
}

#[test]
fn unknown_instruction_stops_the_run() {
    let mut x = cockpit_image();
    let mut d = x.reader.as_slice().to_vec();
    d[0x63E80] = 0x90;
    x.reader = ByteReader::new(d);
    assert!(DialsConfig::import(&mut x).is_none());
}

#[test]
fn dials_from_stack_tables() {
    let mut s = vec![0u8; DIALS_STACK_SIZE];
    put32(&mut s, 12 + 4 * 2, 0x1_0007);
    put32(&mut s, 36 + 4 * 2, 120.0f32.to_bits());
    put32(&mut s, 60 + 24 * 2 + 4, u32::MAX);
    put32(&mut s, 204 + 24 * 2 + 20, 0x1FF);
    let dials = DialsConfig::from_stack(&s).unwrap();
    assert_eq!(dials.len(), 6);
    assert_eq!(dials[2].model, 7);
    assert_eq!(dials[2].max_speed_bits, 120.0f32.to_bits());
    assert_eq!(dials[2].scale_degrees[1], u32::MAX);
    assert_eq!(dials[2].bones[5], 0xFF);
    assert!(DialsConfig::from_stack(&s[..DIALS_STACK_SIZE - 1]).is_none());
}

#[test]
fn cockpit_models_from_stack_tables() {
    let mut s = vec![0u8; 0x500];
    // third cockpit: its fifth monitor record moves to the second chassis slot
    put16(&mut s, 0x104 + 12 * 4, 1237);
    put16(&mut s, 0x104 + 12 * 4 + 4, 9);
    put16(&mut s, 0x104 + 12 * 4 + 6, 3);
    let m = CockpitModels::from_stack(&s, 2).unwrap();
    assert_eq!(m.monitor_models.len(), 4);
    assert_eq!(m.chassis_models[1].modcfg.model, 1237);
    assert_eq!(m.chassis_models[1].modcfg.sequence, None);
    assert_eq!(m.chassis_models[1].modcfg.hitbox, None);
    assert_eq!(m.chassis_models.len(), 7);
    assert_eq!(m.display_models.len(), 6);
    // a record that names no model
    put16(&mut s, 0x260, 0xFFFF);
    assert!(CockpitModels::from_stack(&s, 0).is_none());
    assert!(CockpitModels::from_stack(&s[..0x100], 5).is_none());
}

#[test]
fn effect_positions_pair_ids_and_positions() {
    let ids = [u32::MAX, 5, 0x10000];
    let mut pos = vec![0u8; 36];
    put32(&mut pos, 12, 4.0f32.to_bits());
    assert!(EffectPosition::from_separate(&ids, &pos).is_none());
    let v = EffectPosition::from_separate(&ids[..2], &pos).unwrap();
    assert_eq!(v, vec![None, Some(EffectPosition { idx: 5, position: (4.0f32.to_bits(), 0, 0) })]);
    let lights = EffectPosition::from_stack(&pos, 0, 3, 10, 2);
    assert_eq!(lights.iter().map(|l| l.idx).collect::<Vec<u16>>(), vec![10, 12, 14]);
    assert_eq!(lights[1].position.0, 4.0f32.to_bits());
}

const ANIMS_AT: usize = 4 + 64 * 112;

fn anim_at(draw: usize, slot: usize) -> usize {
    ANIMS_AT + 64 * (16 * draw + slot)
}

fn display() -> Vec<u8> {
    let mut b = vec![0u8; OS_SIZE];
    put32(&mut b, 0, 90);
    // draw 0: a text with two slots, a colour animation then an empty slot
    let d = 4;
    put32(&mut b, d, 1);
    put32(&mut b, d + 4, 2);
    put32(&mut b, d + 8, 1.5f32.to_bits());
    put32(&mut b, d + 16, 5);
    put32(&mut b, d + 20, 10);
    b[d + 8 + 52..d + 8 + 56].copy_from_slice(&[1, 2, 3, 4]);
    let a = anim_at(0, 0);
    put32(&mut b, a, 0x08);
    put32(&mut b, a + 4, 3);
    put32(&mut b, a + 8, 6);
    b[a + 12..a + 16].copy_from_slice(&[10, 20, 30, 40]);
    // draw 3: a set of lines with 20 slots (16 are used), points in slot 15
    let d = 4 + 64 * 3;
    put32(&mut b, d, 5);
    put32(&mut b, d + 4, 20);
    put32(&mut b, d + 8 + 20, 7);
    put32(&mut b, d + 8 + 16, 2.0f32.to_bits());
    let a = anim_at(3, 15);
    put32(&mut b, a, 0x02);
    put32(&mut b, a + 12, 0.25f32.to_bits());
    // slot 16 of draw 3 is past the 16 that are read
    put32(&mut b, anim_at(4, 0), 0);
    b
}

#[test]
fn on_screen_display() {
    let os = OS::import(&display()).unwrap();
    assert_eq!(os.duration_frames, 90);
    assert_eq!(os.draw_commands.len(), 2);
    let text = &os.draw_commands[0];
    assert_eq!(
        text.command,
        OSDrawType::Text { id: 5, length: 10, position: (1.5f32.to_bits(), 0), color: (3, 2, 1, 4) }
    );
    assert_eq!(text.animations.len(), 1);
    assert_eq!(text.animations[0].time_frames, 3);
    assert_eq!(text.animations[0].duration_frames, 6);
    assert_eq!(text.animations[0].command, OSAnimType::Color { color: (30, 20, 10, 40) });
    let lines = &os.draw_commands[1];
    match lines.command {
        OSDrawType::LinesDef { id, scale_bits, .. } => {
            assert_eq!(id, 7);
            assert_eq!(scale_bits, 2.0f32.to_bits());
        }
        _ => panic!("not a set of lines"),
    }
    assert_eq!(lines.animations.len(), 1);
    assert_eq!(
        lines.animations[0].command,
        OSAnimType::Points { vertices: ((0.25f32.to_bits(), 0), (0, 0), (0, 0), (0, 0)) }
    );
}

#[test]
fn on_screen_display_errors() {
    assert_eq!(OS::import(&display()[..OS_SIZE - 1]).err(), Some(OsError::WrongSize));
    let mut b = display();
    put32(&mut b, 4 + 64 * 5, 2);
    assert_eq!(OS::import(&b).err(), Some(OsError::CommandWithoutAnimations));
    let mut b = display();
    put32(&mut b, 4 + 64 * 5, 6);
    put32(&mut b, 4 + 64 * 5 + 4, 1);
    assert_eq!(OS::import(&b).err(), Some(OsError::UnknownDrawCommand));
    let mut b = display();
    put32(&mut b, 4 + 16, 256);
    assert_eq!(OS::import(&b).err(), Some(OsError::InvalidDrawId));
    let mut b = display();
    put32(&mut b, anim_at(0, 1), 0x03);
    assert_eq!(OS::import(&b).err(), Some(OsError::UnknownAnimCommand));
    let mut b = display();
    put32(&mut b, anim_at(0, 0) + 4, u32::MAX);
    assert_eq!(OS::import(&b).err(), Some(OsError::NegativeAnimTime));
    // a set command with a slot count of zero, then an unset one with slots
    let mut b = display();
    put32(&mut b, 4 + 64 * 7 + 4, 3);
    assert_eq!(OS::import(&b).unwrap().draw_commands.len(), 2);
}

#[test]
fn on_screen_display_bytes() {
    let mut w = Vec::new();
    OSDrawType::Line { start: (1, 2), end: (3, 4), color: (5, 6, 7, 8) }.write(&mut w);
    assert_eq!(w, vec![2, 1, 0, 0, 0, 2, 0, 0, 0, 3, 0, 0, 0, 4, 0, 0, 0, 5, 6, 7, 8]);
    let mut w = vec![9];
    OSDrawType::Text { id: 3, length: -1, position: (0, 0), color: (1, 1, 1, 1) }.write(&mut w);
    assert_eq!(w[..7].to_vec(), vec![9, 0, 3, 0xFF, 0xFF, 0xFF, 0xFF]);
    assert_eq!(w.len(), 1 + 2 + 4 + 8 + 4);
    let mut w = Vec::new();
    OSAnimType::Rotate { clockwise: true }.write(&mut w);
    OSAnimType::Scale { scale_bits: 0x01020304 }.write(&mut w);
    OSAnimType::Stop.write(&mut w);
    assert_eq!(w, vec![2, 1, 6, 4, 3, 2, 1, 7]);
}

#[test]
fn lines_definitions() {
    let mut x = cockpit_image();
    let mut d = x.reader.as_slice().to_vec();
    let data = TEXT_SIZE;
    put32(&mut d, data + 0x100, 2);
    put32(&mut d, data + 0x104, 0x100000 + 0x200);
    put32(&mut d, data + 0x108, 0);
    put32(&mut d, data + 0x10C, 0);
    put32(&mut d, data + 0x110, 1);
    put32(&mut d, data + 0x114, 0x100000 + 0x300);
    put32(&mut d, data + 0x200, 1.0f32.to_bits());
    put32(&mut d, data + 0x21C, 2.0f32.to_bits());
    put32(&mut d, data + 0x30C, 3.0f32.to_bits());
    x.reader = ByteReader::new(d);
    let defs = Line::import_linesdefs(&mut x, ".data", 0x100, 3).unwrap();
    assert_eq!(defs.len(), 3);
    assert_eq!(defs[0], vec![Line((1.0f32.to_bits(), 0), (0, 0)), Line((0, 0), (0, 2.0f32.to_bits()))]);
    assert_eq!(defs[1].len(), 0);
    assert_eq!(defs[2], vec![Line((0, 0), (0, 3.0f32.to_bits()))]);
    let mut w = Vec::new();
    Line::write_linesdefs(&defs, &mut w);
    assert_eq!(w.len(), 4 + (4 + 32) + 4 + (4 + 16));
    assert_eq!(w[0..8].to_vec(), vec![3, 0, 0, 0, 2, 0, 0, 0]);
    assert_eq!(w[8..12].to_vec(), 1.0f32.to_bits().to_le_bytes().to_vec());
    // a pointer outside every section
    let mut d = x.reader.as_slice().to_vec();
    put32(&mut d, data + 0x114, 0x900000);
    x.reader = ByteReader::new(d);
    assert_eq!(Line::import_linesdefs(&mut x, ".data", 0x100, 3).err(), Some(IoError::PointerOutsideSections));
}

#[test]
fn sprites() {
    let mut b = vec![0u8; 128];
    put32(&mut b, 0, 4);
    put32(&mut b, 4, 9);
    put32(&mut b, 8, 1.5f32.to_bits());
    put32(&mut b, 36, 2.0f32.to_bits());
    put32(&mut b, 52, 0xABC0);
    put32(&mut b, 64 + 52, 0xABC4);
    let pointers = [0xABC4, 0xABC0, 0xABC0];
    let sp = OSSprite::import(&b, 0, &pointers).unwrap();
    assert_eq!(sp.ui_idx, 4);
    assert_eq!(sp.frame_idx, 9);
    assert_eq!(sp.position, (1.5f32.to_bits(), 0));
    assert_eq!(sp.scale_bits, 2.0f32.to_bits());
    assert_eq!(sp.color, OSSpriteColor::Pallete(1));
    assert_eq!(OSSprite::import(&b, 64, &pointers).unwrap().color, OSSpriteColor::Pallete(0));
    assert!(OSSprite::import(&b, 0, &[1, 2]).is_none());
}

#[test]
fn cockpit_lights() {
    let mut b = vec![0u8; 4 + 64];
    put32(&mut b, 0, 2);
    put32(&mut b, 4 + 4, 5.0f32.to_bits());
    put32(&mut b, 4 + 32 + 28, 0.5f32.to_bits());
    let coc = COC::import(&b, 3).unwrap();
    assert_eq!(coc.idx, 3);
    assert_eq!(coc.lights.len(), 2);
    assert_eq!(coc.lights[0].position_bits.0, 5.0f32.to_bits());
    assert_eq!(coc.lights[1].light.energy_bits, 0.5f32.to_bits());
    assert!(COC::import(&b[..60], 3).is_none());
    let mut a = vec![0u8; 40];
    put32(&mut a, 32, 1.0f32.to_bits());
    let amb = AMB::import(&a, 1).unwrap();
    assert_eq!(amb.light.sun_yaw_bits, 1.0f32.to_bits());
    assert!(AMB::import(&a[..39], 1).is_none());
    let mut lighting = CockpitLighting::new();
    lighting.add_amb_coc(&amb, &coc);
    assert_eq!(lighting.point_light_max, 2);
    assert_eq!(lighting.animations.len(), 1);
    assert_eq!(lighting.animations[0].scene_frames, vec![SceneLightFrame(0, amb.light)]);
    assert_eq!(lighting.animations[0].point_frames[1], vec![PointLightFrame(0, coc.lights[1])]);
    let empty = COC::import(&[0, 0, 0, 0], 0).unwrap();
    lighting.add_amb_coc(&amb, &empty);
    assert_eq!(lighting.point_light_max, 2);
    assert_eq!(lighting.animations.len(), 2);
}
