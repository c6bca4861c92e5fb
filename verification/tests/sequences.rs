use bbtools::bbtools::lsq::{EventType, Frame, Sound, Track, LSQ};

fn put16(b: &mut Vec<u8>, at: usize, v: u16) {
    b[at..at + 2].copy_from_slice(&v.to_le_bytes());
}

fn put32(b: &mut Vec<u8>, at: usize, v: u32) {
    b[at..at + 4].copy_from_slice(&v.to_le_bytes());
}

/// A sequence of two animations: one effect track (one frame, one effect),
/// one sound track (two frames, a sound each) and an empty flag table.
fn sample() -> Vec<u8> {
    let mut b = vec![0u8; 204];
    put32(&mut b, 0, 20);
    put32(&mut b, 4, 132);
    put32(&mut b, 12, 200);
    // effects table
    b[20] = 2;
    b[21] = 1;
    put32(&mut b, 24, 16);
    put32(&mut b, 28, 96);
    put32(&mut b, 32, 1);
    put32(&mut b, 36, 1);
    put16(&mut b, 40, 7);
    put32(&mut b, 44, 12);
    put16(&mut b, 48, 7);
    put16(&mut b, 50, 1);
    let e = 52;
    put32(&mut b, e, 5);
    b[e + 4] = 3;
    b[e + 5] = 4;
    put32(&mut b, e + 8, 8);
    put32(&mut b, e + 16, 10);
    put32(&mut b, e + 20, 1.0f32.to_bits());
    put32(&mut b, e + 36, 2.0f32.to_bits());
    put32(&mut b, e + 52, 3.0f32.to_bits());
    // sounds table
    b[132] = 2;
    b[133] = 1;
    put32(&mut b, 136, 16);
    put32(&mut b, 140, 52);
    put32(&mut b, 144, 0);
    put32(&mut b, 148, 2);
    put16(&mut b, 152, 0);
    put32(&mut b, 156, 20);
    put16(&mut b, 160, 30);
    put32(&mut b, 164, 36);
    put16(&mut b, 168, 0);
    put16(&mut b, 170, 1);
    put32(&mut b, 172, 40);
    put32(&mut b, 176, 2);
    put32(&mut b, 180, 0xABCD);
    put16(&mut b, 184, 30);
    put16(&mut b, 186, 1);
    put32(&mut b, 188, 41);
    put32(&mut b, 192, 0);
    b
}

#[test]
fn sequence_reads_tracks() {
    let x = LSQ::import(&sample()).unwrap();
    assert_eq!(x.animation_count, 2);
    assert_eq!(x.effects.len(), 1);
    assert_eq!(x.sounds.len(), 1);
    assert_eq!(x.flags.len(), 0);
    let t = &x.effects[0];
    assert_eq!(t.animation_id, 1);
    assert_eq!(t.frames.len(), 1);
    assert_eq!(t.frames[0].time_frames, 7);
    match &t.frames[0].event {
        EventType::Effect(v) => {
            assert_eq!(v.len(), 1);
            assert_eq!(v[0].idx, 5);
            assert_eq!(v[0].jnt, 4);
            assert_eq!(v[0].flags, 8);
            assert_eq!(v[0].delay_frames, 10);
            assert_eq!(v[0].pos_bits, (1.0f32.to_bits(), 0, 0));
            assert_eq!(v[0].rot_bits.1, 2.0f32.to_bits());
            assert_eq!(v[0].trans_rot_bits.2, 3.0f32.to_bits());
        }
        _ => panic!("not an effect"),
    }
    let s = &x.sounds[0];
    assert_eq!(s.frames.len(), 2);
    assert_eq!(s.frames[1].time_frames, 30);
    match &s.frames[0].event {
        EventType::Sound(v) => assert_eq!(v[0], Sound { id: 40, jnt: 2, flags: 0xABCD }),
        _ => panic!("not a sound"),
    }
}

#[test]
fn sequence_sizes() {
    let x = LSQ::import(&sample()).unwrap();
    assert_eq!(x.effects[0].frames[0].size(), 55);
    assert_eq!(x.effects[0].size(), 59);
    assert_eq!(x.sounds[0].size(), 34);
    assert_eq!(x.size(), 93);
}

#[test]
fn sequence_checks() {
    let mut b = sample();
    put16(&mut b, 48, 8);
    assert!(LSQ::import(&b).is_none(), "frame time differs from its entry");
    let mut b = sample();
    b[52 + 60] = 1;
    assert!(LSQ::import(&b).is_none(), "effect padding");
    let mut b = sample();
    put32(&mut b, 8, 4);
    assert!(LSQ::import(&b).is_none(), "motion table");
    let mut b = sample();
    b[132] = 3;
    assert!(LSQ::import(&b).is_none(), "counts disagree");
    let mut b = sample();
    put32(&mut b, 176, 0x100);
    assert!(LSQ::import(&b).is_none(), "sound joint");
    assert!(LSQ::import(&sample()[..150]).is_none());
}

#[test]
fn flag_frames() {
    let mut b = vec![0u8; 19];
    put16(&mut b, 0, 4);
    put16(&mut b, 2, 1);
    put16(&mut b, 4, 0x8001);
    let f = Frame::import(&b, 0, 19, &EventType::Flag(0)).unwrap();
    assert_eq!(f.time_frames, 4);
    assert!(matches!(f.event, EventType::Flag(0x8001)));
    assert!(Frame::import(&b, 0, 18, &EventType::Flag(0)).is_none());
    b[10] = 1;
    assert!(Frame::import(&b, 0, 19, &EventType::Flag(0)).is_none());
    let table = vec![0u8, 0, 0, 0];
    assert_eq!(Track::import_tracks(&table, &EventType::Flag(0)).unwrap().len(), 0);
}

#[test]
fn sound_bytes() {
    let mut w = vec![9u8];
    Sound { id: 0x1234, jnt: 7, flags: 0xAABBCCDD }.write_sound(&mut w);
    assert_eq!(w, vec![9, 0x34, 0x12, 7, 0xDD, 0xCC, 0xBB, 0xAA]);
}
