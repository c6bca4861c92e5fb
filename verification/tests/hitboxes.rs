use bbtools::bbtools::ppd::{Surface, AABB, PPD};

fn put16(b: &mut [u8], at: usize, v: u16) {
    b[at..at + 2].copy_from_slice(&v.to_le_bytes());
}

fn put32(b: &mut [u8], at: usize, v: u32) {
    b[at..at + 4].copy_from_slice(&v.to_le_bytes());
}

fn put_box(b: &mut [u8], at: usize, boxes: u16, quads: u16, next: u32) {
    put32(b, at, (-3i32) as u32);
    put32(b, at + 4, 5);
    put32(b, at + 8, 7);
    put16(b, at + 12, 10);
    put16(b, at + 14, 11);
    put16(b, at + 16, 12);
    put16(b, at + 18, boxes);
    put16(b, at + 20, quads);
    put32(b, at + 24, next);
}

fn put_quad(b: &mut [u8], at: usize, surface_bit: u64, layers: u16) {
    for k in 0..12 {
        put32(b, at + 4 + 4 * k, 100 + k as u32);
    }
    b[at + 56..at + 62].copy_from_slice(&surface_bit.to_le_bytes()[..6]);
    put16(b, at + 62, layers);
    put32(b, at + 64, 0x3F80_0000);
}

/// A collider part (after the 16-byte header) whose tree starts at `at`: a
/// box with one child box holding two quads, then a sibling box with one
/// quad.
fn tree_at(at: usize) -> Vec<u8> {
    let mut cb = vec![0u8; at + 336];
    put_box(&mut cb, at, 1, 0, 224);
    put_box(&mut cb, at + 32, 0, 2, 0);
    put_quad(&mut cb, at + 64, 1 << 5, 3);
    put_quad(&mut cb, at + 144, 0, 4);
    put_box(&mut cb, at + 224, 0, 1, 0);
    put_quad(&mut cb, at + 256, 1 << 27, 5);
    cb
}

fn tree_part() -> Vec<u8> {
    tree_at(8)
}

fn hitbox(collider_count: u32, bones: Option<&[u8]>) -> Vec<u8> {
    let mut b = vec![0u8; 16];
    put32(&mut b, 0, 0x3F00_0000);
    put32(&mut b, 4, collider_count);
    let mut cb = tree_at(16);
    // collider offsets, then the bone offset, in the first 16 bytes
    let table_len = 4 * collider_count as usize + 4;
    assert!(table_len <= 16);
    for i in 0..collider_count as usize {
        put32(&mut cb, 4 * i, 16);
    }
    let bone_offset = if bones.is_some() { cb.len() as u32 } else { 0 };
    put32(&mut cb, 4 * collider_count as usize, bone_offset);
    b.extend_from_slice(&cb);
    if let Some(t) = bones {
        b.extend_from_slice(t);
    }
    b
}

#[test]
fn surfaces() {
    assert_eq!(Surface::new(7, 0), Surface(7, 0xFF));
    assert_eq!(Surface::new(7, 1 << 5), Surface(7, 5));
    assert_eq!(Surface::new(7, (1 << 9) | (1 << 20)), Surface(7, 9));
}

#[test]
fn tree_is_read_in_order() {
    let t = AABB::import_tree(&tree_part(), 8).unwrap();
    assert_eq!(t.boxes.len(), 3);
    assert_eq!(t.boxes[0].level, 1);
    assert_eq!(t.boxes[0].center, (-3, 5, 7));
    assert_eq!(t.boxes[0].extents, (10, 11, 12));
    assert_eq!(t.boxes[0].next_offset, 224);
    assert_eq!(t.boxes[1].level, 2);
    assert_eq!(t.boxes[1].child_quad_count, 2);
    assert_eq!(t.boxes[2].level, 1);
    assert_eq!(t.quad_count(), 3);
    assert_eq!(t.quads[0].level, 3);
    assert_eq!(t.quads[0].surface, Surface(3, 5));
    assert_eq!(t.quads[1].surface, Surface(4, 0xFF));
    assert_eq!(t.quads[2].level, 2);
    assert_eq!(t.quads[2].surface, Surface(5, 27));
    assert_eq!(t.quads[0].vertices_bits, (100..112).collect::<Vec<u32>>());
    assert_eq!(t.quads[0].normal_bits, (0x3F80_0000, 0, 0));
}

#[test]
fn unreadable_trees() {
    // a surface type past the known ones
    let mut cb = tree_part();
    put_quad(&mut cb, 264, 1 << 30, 5);
    assert!(AABB::import_tree(&cb, 8).is_none());
    // padding that is not zero
    let mut cb = tree_part();
    cb[72 + 53] = 1;
    assert!(AABB::import_tree(&cb, 8).is_none());
    // a sibling past the end
    let mut cb = tree_part();
    put32(&mut cb, 8 + 24, 400);
    assert!(AABB::import_tree(&cb, 8).is_none());
    // quads past the end
    let mut cb = tree_part();
    put16(&mut cb, 232 + 20, 2);
    assert!(AABB::import_tree(&cb, 8).is_none());
}

#[test]
fn trees_too_deep_are_not_read() {
    let depth = 300;
    let mut cb = vec![0u8; 32 * depth + 80];
    for k in 0..depth {
        put_box(&mut cb, 32 * k, 1, 0, 0);
    }
    assert!(AABB::import_tree(&cb, 0).is_none());
    // a shallow nest is fine
    let mut cb = vec![0u8; 32 * 3];
    put_box(&mut cb, 0, 1, 0, 0);
    put_box(&mut cb, 32, 1, 0, 0);
    put_box(&mut cb, 64, 0, 0, 0);
    let t = AABB::import_tree(&cb, 0).unwrap();
    assert_eq!(t.boxes.iter().map(|h| h.level).collect::<Vec<_>>(), vec![1, 2, 3]);
}

#[test]
fn hitbox_without_bones() {
    let b = hitbox(1, None);
    let p = PPD::import_scaled(&b, 0).unwrap();
    assert_eq!(p.margin_bits, 0x3F00_0000);
    assert_eq!(p.colliders.len(), 1);
    assert_eq!(p.colliders[0].bone, None);
    assert_eq!(p.get_node_count(), None);
    let c = &p.colliders[0];
    assert_eq!(c.triangles_size(), 3 * 72);
    assert_eq!(c.layers_size(), 3 * 2);
    assert_eq!(c.surfaces_size(), 3);
    // two colliders need a bone table
    assert!(PPD::import_scaled(&hitbox(2, None), 0).is_none());
    assert!(PPD::import_scaled(&b[..10], 0).is_none());
}

#[test]
fn hitbox_with_bones() {
    // three pairs; the second names no collider
    let bones = [3u8, 2, 4, 0, 9, 99, 7, 1];
    let b = hitbox(1, None);
    assert!(PPD::import_scaled(&b, 0).is_some());
    let b = hitbox(2, Some(&bones[..]));
    let p = PPD::import_scaled(&b, 5).unwrap();
    assert_eq!(p.colliders.len(), 2);
    assert_eq!(p.colliders[0].bone, Some(4));
    assert_eq!(p.colliders[1].bone, Some(7));
    assert_eq!(p.get_node_count(), Some(8));
    assert_eq!(p.colliders[1].aabb.quad_count(), 3);
    // a bone past the model's nodes
    assert!(PPD::import_scaled(&b, 0).is_none());
    // a collider count that does not match
    let mut bad = bones;
    bad[1] = 3;
    assert!(PPD::import_scaled(&hitbox(2, Some(&bad[..])), 5).is_none());
    // fewer bones than colliders
    let mut bad = bones;
    bad[7] = 99;
    assert!(PPD::import_scaled(&hitbox(2, Some(&bad[..])), 5).is_none());
}
