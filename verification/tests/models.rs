use bbtools::bbtools::xbo::{
    primitive_mode, MeshXBO, PrimitiveMode, RawPosition, XboError, XBO,
};

fn put16(b: &mut [u8], at: usize, v: u16) {
    b[at..at + 2].copy_from_slice(&v.to_le_bytes());
}

fn put32(b: &mut [u8], at: usize, v: u32) {
    b[at..at + 4].copy_from_slice(&v.to_le_bytes());
}

/// A mesh of two vertices with a float position, a normal, a color and
/// texture coordinates (stride 26).
fn mesh_bytes() -> Vec<u8> {
    let mut m = vec![0u8; 48 + 52];
    put32(&mut m, 0, 0x3F80_0000);
    put32(&mut m, 24, 0x0002 | 0x0010 | 0x0040 | 0x0100);
    put32(&mut m, 28, 52);
    put16(&mut m, 32, 5);
    put16(&mut m, 36, 48);
    put16(&mut m, 38, 1);
    put16(&mut m, 40, 2);
    m[44] = 26;
    for v in 0..2usize {
        let p = 48 + 26 * v;
        put32(&mut m, p, 1 + v as u32);
        put32(&mut m, p + 4, 2);
        put32(&mut m, p + 8, 3);
        put16(&mut m, p + 12, 1);
        put16(&mut m, p + 14, (-1i16) as u16);
        put16(&mut m, p + 16, 0);
        m[p + 18..p + 22].copy_from_slice(&[10, 20, 30, 40]);
        put16(&mut m, p + 22, 100);
        put16(&mut m, p + 24, (-100i16) as u16);
    }
    m
}

/// A model with a root and one mesh, a special table, a mirror table and
/// three indices.
fn model_bytes(with_indices: bool) -> Vec<u8> {
    let mesh = mesh_bytes();
    let model_len = 50 + mesh.len();
    let mut b = vec![0u8; 0x50 + model_len];
    put32(&mut b, 0, 0x50);
    put32(&mut b, 4, model_len as u32);
    b[0x50] = 2; // nodes
    put32(&mut b, 0x58, 8);
    put32(&mut b, 0x5C, 0x18);
    // mesh table (relative to the model part)
    put32(&mut b, 0x50 + 16, 50);
    put32(&mut b, 0x50 + 20, mesh.len() as u32);
    // parents
    b[0x50 + 24] = 0xFF;
    b[0x50 + 25] = 0;
    // root transform
    put32(&mut b, 0x50 + 26, 0x4000_0000);
    put32(&mut b, 0x50 + 42, 0x3F00_0000);
    b[0x50 + 50..].copy_from_slice(&mesh);
    // specials: nodes of kinds 0 and 3
    let s = b.len();
    b.extend_from_slice(&2u32.to_le_bytes());
    b.extend_from_slice(&0b1001u32.to_le_bytes());
    b.extend_from_slice(&[1, 0, 0, 0]);
    put32(&mut b, 8, s as u32);
    put32(&mut b, 12, 12);
    // mirrors
    let r = b.len();
    b.extend_from_slice(&[0, 0]);
    put32(&mut b, 16, r as u32);
    put32(&mut b, 20, 2);
    if with_indices {
        let i = b.len();
        b.extend_from_slice(&8u32.to_le_bytes());
        b.extend_from_slice(&6u32.to_le_bytes());
        b.extend_from_slice(&[0, 0, 1, 0, 1, 0]);
        put32(&mut b, 24, i as u32);
        put32(&mut b, 28, 6);
    }
    b
}

#[test]
fn primitive_modes() {
    assert_eq!(primitive_mode(1), Some(PrimitiveMode::Points));
    assert_eq!(primitive_mode(5), Some(PrimitiveMode::Triangles));
    assert_eq!(primitive_mode(7), Some(PrimitiveMode::TriangleFan));
    assert_eq!(primitive_mode(0), None);
    assert_eq!(primitive_mode(8), None);
}

#[test]
fn mesh_vertices_are_read() {
    let m = MeshXBO::import(3, &mesh_bytes(), vec![0, 1]).unwrap();
    assert_eq!(m.index, 3);
    assert_eq!(m.primative_mode, PrimitiveMode::Triangles);
    assert_eq!(m.position_bits, (0x3F80_0000, 0, 0));
    assert_eq!(m.triangle_count, 1);
    assert_eq!(m.indices, vec![0, 1]);
    assert_eq!(m.vertices.len(), 2);
    let v = m.vertices[1];
    assert_eq!(v.position, Some(RawPosition::Float(2, 2, 3)));
    assert_eq!(v.normal, Some((1, -1, 0)));
    assert_eq!(v.color, Some((30, 20, 10, 40)));
    assert_eq!(v.uv, Some((100, -100)));
    assert_eq!(m.stride_size(), 8 + 12 + 12 + 4 + 8);
    assert!(m.has_texcoords());
}

#[test]
fn short_positions_and_missing_parts() {
    // position as three i16 values, nothing else: stride 6
    let mut m = vec![0u8; 48 + 6];
    put32(&mut m, 24, 0x0002);
    put32(&mut m, 28, 6);
    put16(&mut m, 32, 4);
    put16(&mut m, 36, 48);
    put16(&mut m, 40, 1);
    m[44] = 6;
    put16(&mut m, 48, (-5i16) as u16);
    put16(&mut m, 50, 7);
    put16(&mut m, 52, 9);
    let mesh = MeshXBO::import(0, &m, vec![]).unwrap();
    assert_eq!(mesh.primative_mode, PrimitiveMode::LineStrip);
    assert_eq!(mesh.vertices[0].position, Some(RawPosition::Short(-5, 7, 9)));
    assert_eq!(mesh.vertices[0].normal, None);
    assert!(!mesh.has_texcoords());
    // a stride that leaves 8 bytes for the position is not read
    let mut bad = m.clone();
    bad[44] = 8;
    put32(&mut bad, 28, 8);
    bad.extend_from_slice(&[0, 0]);
    assert!(MeshXBO::import(0, &bad, vec![]).is_none());
    // an unsupported primitive type
    let mut bad = m.clone();
    put16(&mut bad, 32, 9);
    assert!(MeshXBO::import(0, &bad, vec![]).is_none());
    // data that does not make up the mesh
    let mut bad = m.clone();
    bad.push(0);
    assert!(MeshXBO::import(0, &bad, vec![]).is_none());
}

#[test]
fn model_is_read() {
    let b = model_bytes(true);
    let x = XBO::try_import(&b).unwrap().unwrap();
    assert_eq!(x.get_node_count(), 2);
    assert_eq!(x.parents, vec![0xFF, 0]);
    assert_eq!(x.position_bits, (0x4000_0000, 0, 0));
    assert_eq!(x.rotation_bits, (0, 0x3F00_0000, 0));
    assert_eq!(x.meshes.len(), 1);
    assert_eq!(x.meshes[0].indices, vec![0, 1, 1]);
    assert_eq!(x.meshes[0].vertices.len(), 2);
    let mut specials = vec![0xFFu8; 32];
    specials[0] = 1;
    specials[3] = 0;
    assert_eq!(x.specials, specials);
    // node 1 names node 0, which named itself, so node 0 now names node 1
    assert_eq!(x.mirrors, Some(vec![1, 0]));
    assert!(XBO::import(&b).is_ok());
}

#[test]
fn faces_flip_and_sizes() {
    let mut x = XBO::try_import(&model_bytes(true)).unwrap().unwrap();
    assert_eq!(x.size(), (2 * 44, 6));
    x.flip_faces();
    assert_eq!(x.meshes[0].indices, vec![0, 0, 1, 1]);
    assert_eq!(x.size(), (2 * 44, 8));
    assert_eq!(x.meshes[0].vertices.len(), 2);
}

#[test]
fn model_without_indices() {
    let b = model_bytes(false);
    let x = XBO::try_import(&b).unwrap().unwrap();
    assert!(x.meshes[0].indices.is_empty());
    // a model that claims 0x19A bytes and has no indices runs to the end
    let mut u = b.clone();
    put32(&mut u, 4, 0x19A);
    let y = XBO::try_import(&u).unwrap().unwrap();
    assert_eq!(y.meshes[0].vertices.len(), 2);
    assert_eq!(y.parents, vec![0xFF, 0]);
}

#[test]
fn model_errors() {
    let b = model_bytes(true);
    assert_eq!(XBO::try_import(&b[..0x5F]).unwrap().err(), Some(XboError::MissingHeader));
    let mut bad = b.clone();
    bad[0] = 0x51;
    assert_eq!(XBO::try_import(&bad).unwrap().err(), Some(XboError::BadMagic0));
    let mut bad = b.clone();
    bad[0x58] = 9;
    assert_eq!(XBO::try_import(&bad).unwrap().err(), Some(XboError::BadMagic1));
    let mut bad = b.clone();
    bad[0x5C] = 0;
    assert_eq!(XBO::import(&bad).err(), Some(XboError::BadMagic2));
    let mut long = b.clone();
    long.push(0);
    assert_eq!(XBO::try_import(&long).unwrap().err(), Some(XboError::BufWrongSize));
}

#[test]
fn malformed_models_are_none() {
    let b = model_bytes(true);
    // no nodes
    let mut bad = b.clone();
    bad[0x50] = 0;
    assert!(XBO::try_import(&bad).is_none());
    // a mirror that names no node
    let r = u32::from_le_bytes(b[16..20].try_into().unwrap()) as usize;
    let mut bad = b.clone();
    bad[r] = 5;
    assert!(XBO::try_import(&bad).is_none());
    // more kinds than the special count
    let s = u32::from_le_bytes(b[8..12].try_into().unwrap()) as usize;
    let mut bad = b.clone();
    bad[s] = 1;
    assert!(XBO::try_import(&bad).is_none());
    // an index list of odd length
    let n = b.len();
    let mut bad = b.clone();
    bad[n - 14 + 4] = 5;
    assert!(XBO::try_import(&bad).is_none());
}
