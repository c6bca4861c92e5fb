use bbtools::bbtools::eff::{
    BlendType, EffectType, SequenceFrame, SequenceFrameType, TrailEffect, EFE, EFFECT_RECORD_SIZE,
    EFP, LID, LidError, SEQ, SMOKE_TRAIL_SIZE, TRACER_TRAIL_SIZE, UV,
};
use bbtools::bytes::IoError;

fn put16(b: &mut [u8], at: usize, v: u16) {
    b[at..at + 2].copy_from_slice(&v.to_le_bytes());
}

fn put32(b: &mut [u8], at: usize, v: u32) {
    b[at..at + 4].copy_from_slice(&v.to_le_bytes());
}

fn smoke(sections: i32) -> Vec<u8> {
    let mut b = vec![0u8; SMOKE_TRAIL_SIZE];
    b[0..8].copy_from_slice(&[0x80, 10, 20, 30, 0xFF, 40, 50, 60]);
    put32(&mut b, 8, sections as u32);
    put32(&mut b, 12, 2.0f32.to_bits());
    put32(&mut b, 16, 0.5f32.to_bits());
    put32(&mut b, 20, 7);
    b
}

fn tracer(sections: i32) -> Vec<u8> {
    let mut b = vec![0u8; TRACER_TRAIL_SIZE];
    b[0..4].copy_from_slice(&[0, 90, 60, 31]);
    put32(&mut b, 4, sections as u32);
    put32(&mut b, 8, 1.25f32.to_bits());
    b
}

#[test]
fn smoke_trails() {
    let t = TrailEffect::import_smoke(&smoke(6), 0, 3).unwrap();
    assert_eq!(t.color_start, (10, 20, 30, 0x80));
    assert_eq!(t.color_max, (40, 50, 60, 0xFF));
    assert_eq!(t.section_count, 6);
    assert_eq!(t.texture_scale_quarters, 6);
    assert_eq!(t.width_start_bits, 2.0f32.to_bits());
    assert_eq!(t.width_end_bits, 0.5f32.to_bits());
    assert_eq!(t.flags, 7);
    assert_eq!(t.uv_idx, 3);
    assert!(TrailEffect::import_smoke(&smoke(256), 0, 3).is_none());
    assert!(TrailEffect::import_smoke(&smoke(-1), 0, 3).is_none());
    let mut b = smoke(1);
    b[30] = 1;
    assert!(TrailEffect::import_smoke(&b, 0, 3).is_none());
    let mut all = smoke(2);
    all.extend(smoke(0));
    all.extend(smoke(5));
    let kept = TrailEffect::import_smoke_multiple(&all, 1).unwrap();
    assert_eq!(kept.iter().map(|t| t.section_count).collect::<Vec<u8>>(), vec![2, 5]);
    assert!(TrailEffect::import_smoke_multiple(&all[..all.len() - 1], 1).is_none());
}

#[test]
fn tracer_trails() {
    let t = TrailEffect::import_tracer(&tracer(4), 0, 2).unwrap();
    assert_eq!(t.color_start, (90, 60, 31, 0xFF));
    assert_eq!(t.color_max, (30, 20, 10, 85));
    assert_eq!(t.texture_scale_quarters, 4);
    assert_eq!(t.width_start_bits, 1.25f32.to_bits());
    assert_eq!(t.width_end_bits, 1.25f32.to_bits());
    assert_eq!(t.flags, 0);
    assert_eq!(t, TrailEffect::new_tracer(2, (90, 60, 31, 0xFF), 4, 1.25f32.to_bits()));
    let mut b = tracer(4);
    b[0] = 1;
    assert!(TrailEffect::import_tracer(&b, 0, 2).is_none());
    let mut all = tracer(0);
    all.extend(tracer(3));
    let kept = TrailEffect::import_tracer_multiple(&all, 2).unwrap();
    assert_eq!(kept.len(), 1);
    assert_eq!(kept[0].section_count, 3);
    assert_eq!(TrailEffect::import_tracer_multiple(&[], 2).unwrap().len(), 0);
}

fn seq_bytes(values: &[(u16, i16)], count: u32) -> Vec<u8> {
    let mut b = vec![0u8; 4 + 4 * values.len()];
    put32(&mut b, 0, count);
    for (k, (idx, v)) in values.iter().enumerate() {
        put16(&mut b, 4 + 4 * k, *idx);
        put16(&mut b, 6 + 4 * k, *v as u16);
    }
    b
}

#[test]
fn sequence_timing() {
    let b = seq_bytes(&[(0, 3), (1, 5), (2, -2), (3, 9)], 4);
    let s = SEQ::import(&b, 7).unwrap();
    assert_eq!(s.idx, 7);
    assert_eq!(
        s.frames,
        vec![
            SequenceFrame { frame_idx: 0, frame_type: SequenceFrameType::Delay(3) },
            SequenceFrame { frame_idx: 1, frame_type: SequenceFrameType::Delay(5) },
            SequenceFrame { frame_idx: 2, frame_type: SequenceFrameType::Reset },
        ]
    );
    let b = seq_bytes(&[(0, 3), (1, 5)], 2);
    assert_eq!(SEQ::import(&b, 0).unwrap().frames.len(), 2);
    let b = seq_bytes(&[(0, -1)], 1);
    assert_eq!(SEQ::import(&b, 0).unwrap().frames[0].frame_type, SequenceFrameType::Exit);
    let b = seq_bytes(&[(0, -3)], 1);
    assert_eq!(SEQ::import(&b, 0).unwrap().frames[0].frame_type, SequenceFrameType::Pause);
    assert!(SEQ::import(&seq_bytes(&[(0, 0)], 1), 0).is_none());
    assert!(SEQ::import(&seq_bytes(&[(0, -4)], 1), 0).is_none());
    assert!(SEQ::import(&seq_bytes(&[(0, 2)], 2), 0).is_none());
    assert!(SEQ::import(&[1, 0], 0).is_none());
}

#[test]
fn texture_animations() {
    let mut b = vec![0u8; 16 + 2 * 24];
    put32(&mut b, 0, 2);
    put32(&mut b, 4, 1);
    put32(&mut b, 8, 0.5f32.to_bits());
    put32(&mut b, 16 + 24 + 8, 1.0f32.to_bits());
    put32(&mut b, 16 + 24 + 20, 3.0f32.to_bits());
    let uv = UV::import(&b, 4, &[10, 11]).unwrap();
    assert_eq!(uv.idx, 4);
    assert_eq!(uv.texture, 11);
    assert_eq!(uv.offset_bits, (0.5f32.to_bits(), 0));
    assert_eq!(uv.frames.len(), 2);
    assert_eq!(uv.frames[1].end_bits.0, 1.0f32.to_bits());
    assert_eq!(uv.frames[1].scale_bits.1, 3.0f32.to_bits());
    assert!(UV::import(&b, 4, &[10]).is_none());
    assert!(UV::import(&b[..60], 4, &[10, 11]).is_none());
}

fn effect_record(kind: u16, blend: u8, model_idx: u16) -> Vec<u8> {
    let mut b = vec![0u8; EFFECT_RECORD_SIZE];
    put16(&mut b, 0, kind);
    b[2] = blend;
    put16(&mut b, 4, 9);
    put16(&mut b, 8, 12);
    put16(&mut b, 10, 13);
    put16(&mut b, 12, model_idx);
    put16(&mut b, 14, 0x40);
    b[16..20].copy_from_slice(&[1, 2, 3, 4]);
    put32(&mut b, 36, 60);
    put32(&mut b, 40, 5);
    put32(&mut b, 44, 2.5f32.to_bits());
    put32(&mut b, 164 + 4 * 6, 3.0f32.to_bits());
    b
}

#[test]
fn effect_files() {
    let mut f = vec![0u8; 12];
    put32(&mut f, 0, 2);
    put32(&mut f, 4, 12);
    put32(&mut f, 8, 12 + EFFECT_RECORD_SIZE as u32);
    f.extend(effect_record(1, 1, 0));
    f.extend(effect_record(6, 0, 1));
    let efe = EFE::import(&f, 77, &[500, 501]).unwrap();
    assert_eq!(efe.id, 77);
    assert_eq!(efe.effects.len(), 2);
    let e = &efe.effects[0];
    assert_eq!(e.effect_type, EffectType::Rep2D(12, 13));
    assert_eq!(e.effect_type.as_u8(), 1);
    assert_eq!(e.blend_type, BlendType::Add);
    assert_eq!(e.priority, 9);
    assert_eq!(e.flags, 0x40);
    assert_eq!(e.vertex_color, (3, 2, 1, 4));
    assert_eq!(e.life_frames, 60);
    assert_eq!(e.delay_frames, 5);
    assert_eq!(e.initial_transform.position_bits.0, 2.5f32.to_bits());
    assert_eq!(e.free_bits.len(), 36);
    assert_eq!(e.free_bits[6], 3.0f32.to_bits());
    assert_eq!(efe.effects[1].effect_type, EffectType::Rep3D(501));
    assert_eq!(efe.effects[1].blend_type, BlendType::Alpha);
    // a model index past the list, an unknown type, a blend type past 2
    assert!(EFE::import(&f, 77, &[500]).is_none());
    let mut g = f.clone();
    put16(&mut g, 12, 4);
    assert!(EFE::import(&g, 77, &[500, 501]).is_none());
    let mut g = f.clone();
    g[12 + 2] = 3;
    assert!(EFE::import(&g, 77, &[500, 501]).is_none());
    assert!(EFE::import(&f[..100], 77, &[500, 501]).is_none());
}

/// An archive without magic: the count, the offset and length of each
/// file, then the files.
fn archive(files: &[Vec<u8>]) -> Vec<u8> {
    let mut b = Vec::new();
    b.extend_from_slice(&(files.len() as u32).to_le_bytes());
    let mut off = 4 + 8 * files.len();
    for f in files {
        b.extend_from_slice(&(off as u32).to_le_bytes());
        b.extend_from_slice(&(f.len() as u32).to_le_bytes());
        off += f.len();
    }
    for f in files {
        b.extend_from_slice(f);
    }
    b
}

fn one_effect_file() -> Vec<u8> {
    let mut f = vec![0u8; 8];
    put32(&mut f, 0, 1);
    put32(&mut f, 4, 8);
    f.extend(effect_record(5, 0, 0));
    f
}

fn one_uv_file(texture: u32) -> Vec<u8> {
    let mut b = vec![0u8; 16 + 24];
    put32(&mut b, 0, 1);
    put32(&mut b, 4, texture);
    b
}

fn effect_pack() -> Vec<u8> {
    let efe = archive(&[vec![], one_effect_file()]);
    let seq = archive(&[seq_bytes(&[(0, -1)], 1), vec![], seq_bytes(&[(2, 4)], 1)]);
    let uv1 = archive(&[one_uv_file(0)]);
    let uv2 = archive(&[vec![], one_uv_file(1), one_uv_file(0)]);
    archive(&[efe, seq, uv1, uv2])
}

#[test]
fn effect_packs() {
    let p = EFP::import(effect_pack(), &[300], &[20, 21], &[5, 6]).unwrap().unwrap();
    assert_eq!(p.efe_list.len(), 1);
    assert_eq!(p.efe_list[0].id, 6);
    assert_eq!(p.efe_list[0].effects[0].effect_type, EffectType::Sin3D(300));
    assert_eq!(p.seq_list.iter().map(|s| s.idx).collect::<Vec<usize>>(), vec![0, 2]);
    assert_eq!(p.uv1_list.len(), 1);
    assert_eq!(p.uv1_list[0].texture, 20);
    assert_eq!(p.uv2_list.iter().map(|u| (u.idx, u.texture)).collect::<Vec<(usize, u16)>>(), vec![(1, 21), (2, 20)]);
    // effect ids must cover every effect file and fit 16 bits
    assert!(EFP::import(effect_pack(), &[300], &[20, 21], &[5]).is_none());
    assert!(EFP::import(effect_pack(), &[300], &[20, 21], &[5, 0x10000]).is_none());
    // a texture animation names a texture that is not there
    assert!(EFP::import(effect_pack(), &[300], &[20], &[5, 6]).is_none());
    // three archives instead of four
    let three = archive(&[vec![0, 0, 0, 0], vec![0, 0, 0, 0], vec![0, 0, 0, 0]]);
    assert!(EFP::import(three, &[], &[], &[]).is_none());
    // a file past the data
    let mut cut = effect_pack();
    cut.truncate(cut.len() - 1);
    assert_eq!(EFP::import(cut, &[300], &[20, 21], &[5, 6]).unwrap().err(), Some(IoError::UnexpectedEof));
}

fn light(flags: u32, count: u16) -> Vec<u8> {
    let mut b = vec![0u8; 40];
    put32(&mut b, 0, flags);
    put16(&mut b, 4, count);
    put16(&mut b, 6, 30);
    put32(&mut b, 8, 0.1f32.to_bits());
    put32(&mut b, 24, 1.0f32.to_bits());
    b
}

#[test]
fn light_files() {
    let mut f = vec![0u8; 8];
    put32(&mut f, 0, 3);
    put32(&mut f, 4, 40);
    f.extend(light(1, 0));
    f.extend(light(0, 2));
    f.extend(light(1, 2));
    let v = LID::import(&f).unwrap();
    assert_eq!(v.iter().map(|l| l.idx).collect::<Vec<usize>>(), vec![0, 2]);
    assert_eq!(v[0].light.life_frames, 30);
    assert_eq!(v[0].light.color_add_bits, (0, 0, 0, 0));
    assert_eq!(v[1].light.color_add_count, 2);
    assert_eq!(v[1].light.color_add_bits.0, 0.1f32.to_bits());
    assert_eq!(v[1].light.color_start_bits.0, 1.0f32.to_bits());
    let mut g = f.clone();
    put32(&mut g, 4, 36);
    assert_eq!(LID::import(&g), Err(LidError::InvalidLightSize));
    assert_eq!(LID::import(&f[..f.len() - 1]), Err(LidError::Io(IoError::UnexpectedEof)));
    assert_eq!(LID::import(&f[..6]), Err(LidError::Io(IoError::UnexpectedEof)));
}
