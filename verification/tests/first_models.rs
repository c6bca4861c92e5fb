use bbtools::bbtools::obj::{ModelConfig, ModelConfigDB, OBJ};
use bbtools::bbtools::x86::X86Context;
use bbtools::bbtools::xbo::{RawPosition, XboError};
use bbtools::sbtools::xbo::{VertexFormat, XBO};

fn put16(b: &mut [u8], at: usize, v: u16) {
    b[at..at + 2].copy_from_slice(&v.to_le_bytes());
}

fn put32(b: &mut [u8], at: usize, v: u32) {
    b[at..at + 4].copy_from_slice(&v.to_le_bytes());
}

/// A model with one mesh of one position-and-normal vertex and three indices.
fn first_model() -> Vec<u8> {
    let mut b = vec![0u8; 0xCC];
    // Model part at 0x50, 110 bytes (its offset doubles as the first magic).
    put32(&mut b, 0, 0x50);
    put32(&mut b, 4, 110);
    // Index part at 0xBE: its stored length leaves out the table.
    put32(&mut b, 24, 0xBE);
    put32(&mut b, 28, 6);
    put32(&mut b, 0x58, 8);
    put32(&mut b, 0x5C, 0x18);
    let m = 0x50;
    b[m] = 2;
    put32(&mut b, m + 16, 50);
    put32(&mut b, m + 20, 60);
    b[m + 24] = 0xFF;
    b[m + 25] = 0;
    put32(&mut b, m + 26, 1.5f32.to_bits());
    put32(&mut b, m + 38, 0.25f32.to_bits());
    let mesh = m + 50;
    put32(&mut b, mesh, 2.0f32.to_bits());
    put32(&mut b, mesh + 24, 0x12);
    put32(&mut b, mesh + 28, 12);
    put16(&mut b, mesh + 36, 48);
    put16(&mut b, mesh + 38, 1);
    put16(&mut b, mesh + 40, 1);
    b[mesh + 44] = 12;
    put16(&mut b, mesh + 48, 1);
    put16(&mut b, mesh + 50, 2);
    put16(&mut b, mesh + 52, 3);
    put16(&mut b, mesh + 54, 4);
    let idx = 0xBE;
    put32(&mut b, idx, 8);
    put32(&mut b, idx + 4, 6);
    put16(&mut b, idx + 8, 0);
    put16(&mut b, idx + 10, 1);
    put16(&mut b, idx + 12, 2);
    b
}

#[test]
fn first_title_model_is_read() {
    let x = XBO::import(&first_model()).ok().unwrap();
    assert_eq!(x.parents, vec![0xFF, 0]);
    assert_eq!(f32::from_bits(x.position_bits.0), 1.5);
    assert_eq!(f32::from_bits(x.rotation_bits.0), 0.25);
    assert_eq!(x.specials, vec![0xFF; 32]);
    assert!(x.mirrors.is_none());
    assert_eq!(x.meshes.len(), 1);
    let mesh = &x.meshes[0];
    assert_eq!(mesh.format, VertexFormat::Sha);
    assert_eq!(f32::from_bits(mesh.position_bits.0), 2.0);
    assert_eq!(mesh.triangle_count, 1);
    assert_eq!(mesh.vertex_count, 1);
    assert_eq!(mesh.indices, vec![0, 1, 2]);
    assert_eq!(mesh.vertices.len(), 1);
    assert_eq!(mesh.vertices[0].position, RawPosition::Short(1, 2, 3));
    assert_eq!(mesh.vertices[0].normal, (1, 2, 3));
    assert!(mesh.vertices[0].uv.is_none());
    assert!(mesh.vertices[0].color.is_none());
}

#[test]
fn first_title_model_errors() {
    assert!(matches!(XBO::try_import(&[0u8; 0x20]), Some(Err(XboError::MissingHeader))));
    let mut b = first_model();
    b.push(0);
    assert!(matches!(XBO::try_import(&b), Some(Err(XboError::BufWrongSize))));
    let mut b = first_model();
    b[0x58] = 9;
    assert!(matches!(XBO::try_import(&b), Some(Err(XboError::BadMagic1))));
    // A stride that the format does not allow cannot be read.
    let mut b = first_model();
    b[0x50 + 50 + 44] = 6;
    put32(&mut b, 0x50 + 50 + 28, 6);
    assert!(XBO::try_import(&b).is_none());
}

fn sb_record(model: u16, texture: u16) -> Vec<u8> {
    let mut r = vec![0u8; 92];
    put16(&mut r, 0, 7);
    put16(&mut r, 2, model);
    put16(&mut r, 4, 0xFFFF);
    put16(&mut r, 6, 0xFFFF);
    put16(&mut r, 8, texture);
    put16(&mut r, 10, 0xFFFF);
    put32(&mut r, 12, 4.0f32.to_bits());
    put32(&mut r, 40, 0x0102_0304);
    r
}

#[test]
fn first_title_objects() {
    let mut b = Vec::new();
    b.extend(sb_record(100, 5));
    b.extend(sb_record(840, 9)); // a skybox
    b.extend(sb_record(277, 1)); // mismatched parts
    b.extend(sb_record(101, 6));
    b.extend(sb_record(0xFFFF, 0));
    b.extend(sb_record(102, 7)); // after the end marker
    let objs = OBJ::find_sb_objects(&b).unwrap();
    assert_eq!(objs.len(), 2);
    assert_eq!(objs[0].modcfg.model, 100);
    assert_eq!(objs[0].modcfg.texture, Some(5));
    assert!(objs[0].modcfg.animation.is_none());
    assert_eq!(objs[0].life, 7);
    assert_eq!(f32::from_bits(objs[0].position_bits.0), 4.0);
    assert_eq!(objs[0].flags, 0x0102_0304);
    assert_eq!(objs[1].modcfg.model, 101);
    assert_eq!(OBJ::import_sb_objects(&b).len(), 2);
    let mut bad = sb_record(100, 5);
    bad[60] = 1;
    assert!(OBJ::find_sb_objects(&bad).is_none());
}

fn loc_record(model: u16) -> Vec<u8> {
    let mut r = vec![0u8; 96];
    put16(&mut r, 2, model);
    put16(&mut r, 4, 3);
    put16(&mut r, 6, 0xFFFF);
    put16(&mut r, 8, 0xFFFF);
    put16(&mut r, 10, 0x55);
    put32(&mut r, 44, 9);
    r
}

#[test]
fn second_title_objects() {
    let mut b = Vec::new();
    b.extend(loc_record(900));
    b.extend(loc_record(100)); // a debug model
    b.extend(loc_record(1300)); // a cockpit model
    b.extend(loc_record(1000));
    b.extend(loc_record(0xFFFF));
    let objs = OBJ::find_loc_objects(&b).unwrap();
    assert_eq!(objs.len(), 2);
    assert_eq!(objs[0].modcfg.model, 900);
    assert_eq!(objs[0].modcfg.animation, Some(3));
    assert_eq!(objs[0].attr0, 0x55);
    assert_eq!(objs[0].flags, 9);
    assert_eq!(objs[1].modcfg.model, 1000);
    assert_eq!(OBJ::import_loc_objects(&b).len(), 2);
    // The end marker must be last, and the list whole records.
    let mut early = loc_record(0xFFFF);
    early.extend(loc_record(900));
    assert!(OBJ::find_loc_objects(&early).is_none());
    assert!(OBJ::find_loc_objects(&b[..95]).is_none());
}

#[test]
fn stack_writes_show_in_the_used_stack() {
    let mut ctx = X86Context::new(8);
    assert_eq!(ctx.get_stack_from(4), &[0u8, 0, 0, 0]);
    ctx.write_stack(4, &[1, 2, 3, 4]);
    assert_eq!(ctx.get_stack(), &[0u8, 0, 0, 0, 1, 2, 3, 4]);
    assert_eq!(ctx.get_stack_from(4), &[1u8, 2, 3, 4]);
}

fn mc(model: u16, texture: Option<u16>) -> ModelConfig {
    ModelConfig { model, animation: None, sequence: None, hitbox: None, texture }
}

#[test]
fn register_multiple_in_parts_and_lookup() {
    let a = vec![mc(1, Some(2)), mc(3, None)];
    let b = vec![mc(1, Some(2)), mc(4, Some(5))];
    let mut whole = ModelConfigDB::new();
    let mut ab = a.clone();
    ab.extend(b.iter().copied());
    whole.register_multiple(&ab);
    let mut parts = ModelConfigDB::new();
    parts.register_multiple(&a);
    parts.register_multiple(&b);
    for m in ab.iter() {
        let w = whole.get_model(m.model).unwrap();
        let p = parts.get_model(m.model).unwrap();
        assert_eq!(w.texture, m.texture);
        assert_eq!(p.texture, m.texture);
        assert_eq!(w.model, p.model);
    }
    assert!(whole.get_model(2).is_none());
}

#[test]
fn first_title_model_sizes_faces_and_document() {
    let mut x = XBO::import(&first_model()).ok().unwrap();
    assert_eq!(x.size(), (32, 6));
    let l = x.gltf_layout();
    assert_eq!(l.buffer_length, 38);
    assert_eq!(l.views.len(), 2);
    assert_eq!(l.views[0].byte_stride, Some(32));
    assert_eq!(l.views[1].byte_offset, 32);
    assert_eq!(l.accessors.len(), 5);
    assert_eq!(l.accessors[3].byte_offset, Some(20));
    assert_eq!(l.accessors[4].count, 3);
    assert_eq!(l.primitives[0].indices, Some(4));
    assert_eq!(l.primitives[0].mode, bbtools::bbtools::xbo::PrimitiveMode::TriangleStrip);
    assert_eq!(l.nodes.len(), 2);
    assert_eq!(l.nodes[0].children, vec![1]);
    assert!(l.nodes[1].children.is_empty());
    assert!(l.nodes[0].mirror.is_none());
    x.flip_faces();
    assert_eq!(x.meshes[0].indices, vec![0, 0, 1, 2]);
    assert_eq!(x.size(), (32, 8));
}
