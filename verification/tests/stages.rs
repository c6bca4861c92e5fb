use bbtools::bbtools::stg::{StgColor, StgError, F32_HALF_BITS, F32_NAN_BITS, LOC_STG_SIZE, SB_STG_SIZE, STG};

fn put32(b: &mut [u8], at: usize, v: u32) {
    b[at..at + 4].copy_from_slice(&v.to_le_bytes());
}

fn putf(b: &mut [u8], at: usize, v: f32) {
    put32(b, at, v.to_bits());
}

fn sb_record() -> Vec<u8> {
    let mut b = vec![0u8; SB_STG_SIZE];
    putf(&mut b, 0, 0.25);
    putf(&mut b, 28, 0.75);
    b[80..84].copy_from_slice(&[10, 20, 30, 40]);
    putf(&mut b, 84, 100.0);
    putf(&mut b, 88, 900.0);
    putf(&mut b, 100, 1.5);
    putf(&mut b, 120, 5.0);
    putf(&mut b, 132, 2.0);
    put32(&mut b, 204, 1);
    put32(&mut b, 208, 0);
    putf(&mut b, 220, -7.0);
    putf(&mut b, 232, 3.0);
    putf(&mut b, 240, 0.2);
    b
}

fn loc_record() -> Vec<u8> {
    let mut b = vec![0u8; LOC_STG_SIZE];
    putf(&mut b, 16, 0.5);
    putf(&mut b, 48, 0.125);
    putf(&mut b, 84, 12.0);
    putf(&mut b, 96, -1.0);
    putf(&mut b, 104, 8.0);
    put32(&mut b, 112, 1);
    put32(&mut b, 116, 600);
    put32(&mut b, 128, 1);
    put32(&mut b, 132, 1);
    put32(&mut b, 136, 1);
    putf(&mut b, 196, 4.0);
    put32(&mut b, 204, 7);
    put32(&mut b, 216, 300);
    put32(&mut b, 220, 200);
    putf(&mut b, 260, 0.9);
    b
}

#[test]
fn stage_of_first_title() {
    let s = STG::import(&sb_record()).unwrap().unwrap();
    assert_eq!(s.world_light.0, 0.25f32.to_bits());
    assert_eq!(s.world_ambient.3, 0.75f32.to_bits());
    assert_eq!(s.world_specular, (0, 0, 0, 0));
    assert_eq!(s.fog_color, StgColor::Bytes(30, 20, 10, 40));
    assert_eq!(s.fog_start, 100.0f32.to_bits());
    assert_eq!(s.fog_end, 900.0f32.to_bits());
    assert_eq!(s.shadow_yaw, 1.5f32.to_bits());
    assert_eq!(s.shadow_start, 5.0f32.to_bits());
    assert_eq!(s.wave_speed, 2.0f32.to_bits());
    assert!(s.draw_rain);
    assert!(!s.draw_sun);
    assert!(s.draw_terrain && s.draw_water && s.draw_shadows);
    assert_eq!(s.start_pos.0, (-7.0f32).to_bits());
    assert_eq!(s.start_yaw, 3.0f32.to_bits());
    assert_eq!(s.terrain_scale, 0.2f32.to_bits());
    assert_eq!(s.sun_color.2, F32_HALF_BITS);
    assert_eq!(F32_HALF_BITS, 0.5f32.to_bits());
    assert_eq!(s.ticket_a, 0);
}

#[test]
fn stage_of_second_title() {
    let s = STG::import(&loc_record()).unwrap().unwrap();
    assert_eq!(s.world_specular.0, 0.5f32.to_bits());
    assert_eq!(s.fog_color, StgColor::Bits(0.125f32.to_bits(), 0, 0, 0));
    assert_eq!(s.sky_height, 12.0f32.to_bits());
    assert_eq!(s.sky_velocity.1 .0, (-1.0f32).to_bits());
    assert_eq!(s.water_height, 8.0f32.to_bits());
    assert!(s.draw_rain && s.draw_terrain && s.draw_water && s.draw_sun);
    assert!(!s.draw_shadows);
    assert_eq!(s.tactics_time, 600);
    assert_eq!(s.sun_back_size, 4.0f32.to_bits());
    assert_eq!(s.ticket_a, 300);
    assert_eq!(s.ticket_b, 200);
    assert_eq!(s.water_color.3, 0.9f32.to_bits());
    assert_eq!(s.start_yaw, F32_NAN_BITS);
    assert!(f32::from_bits(F32_NAN_BITS).is_nan());
    assert_eq!(s.terrain_scale, 0);
}

#[test]
fn stage_record_checks() {
    let mut b = loc_record();
    put32(&mut b, 128, 0);
    assert!(STG::import(&b).is_none());
    let mut b = loc_record();
    put32(&mut b, 204, 256);
    assert!(STG::import(&b).is_none());
    let mut b = loc_record();
    put32(&mut b, 212, 1);
    assert!(STG::import(&b).is_none());
    assert_eq!(STG::import(&[0u8; 100]).unwrap().err(), Some(StgError::IncorrectSize));
}
