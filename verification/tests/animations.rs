use bbtools::bbtools::lmt::{LMT, LMT_FRAME_SIZE};

fn push_u16(buf: &mut Vec<u8>, v: u16) {
    buf.extend_from_slice(&v.to_le_bytes());
}

fn push_u32(buf: &mut Vec<u8>, v: u32) {
    buf.extend_from_slice(&v.to_le_bytes());
}

fn push_frame(buf: &mut Vec<u8>, index: u16, time: u16, rot: [f32; 3], pos: [f32; 3]) {
    push_u16(buf, index);
    push_u16(buf, time);
    for r in rot {
        push_u32(buf, r.to_bits());
    }
    for p in pos {
        push_u32(buf, p.to_bits());
    }
}

/// Two node slots, one animation of 10 frames whose first slot holds a
/// track of two key frames and whose second slot is empty.
fn sample(last_time: u16) -> Vec<u8> {
    let mut buf: Vec<u8> = vec![2, 1, 0, 0];
    push_u32(&mut buf, 12);
    push_u32(&mut buf, 10);
    push_u32(&mut buf, 8);
    push_u32(&mut buf, 0);
    push_u16(&mut buf, 3);
    push_u16(&mut buf, 2);
    push_frame(&mut buf, 0, 0, [0.0, 0.5, 1.0], [1.0, 2.0, 3.0]);
    push_frame(&mut buf, 1, last_time, [0.25, 0.0, 0.0], [4.0, 5.0, 6.0]);
    buf
}

#[test]
fn lmt_reads_tracks_and_frames() {
    let buf = sample(10);
    assert_eq!(buf.len(), 20 + 4 + 2 * LMT_FRAME_SIZE);
    let lmt = LMT::import(&buf).unwrap();
    assert_eq!(lmt.get_node_count(), 2);
    assert_eq!(lmt.animations.len(), 1);
    let anim = &lmt.animations[0];
    assert_eq!(anim.offset, 12);
    assert_eq!(anim.duration_frames, 10);
    assert_eq!(anim.tracks.len(), 1);
    let track = &anim.tracks[0];
    assert_eq!(track.node, 3);
    assert_eq!(track.frames.len(), 2);
    assert_eq!(track.frames[1].time_frames, 10);
    assert_eq!(track.frames[0].rot_bits.1, 0.5f32.to_bits());
    assert_eq!(track.frames[1].pos_bits, (4.0f32.to_bits(), 5.0f32.to_bits(), 6.0f32.to_bits()));
}

#[test]
fn lmt_size_counts_exported_frames() {
    let lmt = LMT::import(&sample(7)).unwrap();
    assert_eq!(lmt.size(), 64);
    assert_eq!(lmt.animations[0].size(), 64);
}

#[test]
fn lmt_rejects_frame_after_duration() {
    assert!(LMT::import(&sample(11)).is_none());
}

#[test]
fn lmt_rejects_truncated_data() {
    let buf = sample(10);
    assert!(LMT::import(&buf[..buf.len() - 1]).is_none());
    assert!(LMT::import(&buf[..1]).is_none());
    assert!(LMT::import(&buf[..8]).is_none());
}

#[test]
fn lmt_without_animations() {
    let lmt = LMT::import(&[5, 0, 0, 0]).unwrap();
    assert_eq!(lmt.get_node_count(), 5);
    assert_eq!(lmt.size(), 0);
}
