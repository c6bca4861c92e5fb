use bbtools::bbtools::ppd::Surface;
use bbtools::bbtools::stg::{import_bmp, BmpError, GAD};
use bbtools::bytes::IoError;

fn gad_bytes(w: u16, h: u16, records: &[(u64, u16)]) -> Vec<u8> {
    let mut b = Vec::new();
    b.extend_from_slice(&w.to_le_bytes());
    b.extend_from_slice(&h.to_le_bytes());
    for (bit, layers) in records {
        b.extend_from_slice(&bit.to_le_bytes()[..6]);
        b.extend_from_slice(&layers.to_le_bytes());
    }
    b
}

#[test]
fn ground_attributes() {
    let b = gad_bytes(2, 2, &[(0, 1), (1 << 3, 2), (1 << 27, 3), ((1 << 4) | (1 << 9), 4)]);
    let g = GAD::import(&b).unwrap().unwrap();
    assert_eq!(g.size, (2, 2));
    assert_eq!(g.get_attribute(0, 0), Surface(1, 0xFF));
    assert_eq!(g.get_attribute(1, 0), Surface(2, 3));
    assert_eq!(g.get_attribute(0, 1), Surface(3, 27));
    assert_eq!(g.get_attribute(1, 1), Surface(4, 4));
    let mut g = g;
    g.set_attribute(1, 1, Surface(9, 9));
    assert_eq!(g.get_attribute(1, 1), Surface(9, 9));
    assert_eq!(g.attributes.len(), 4);
}

#[test]
fn ground_attribute_errors() {
    assert_eq!(GAD::import(&[2, 0, 2]).unwrap().err(), Some(IoError::UnexpectedEof));
    // three of four records
    let b = gad_bytes(2, 2, &[(0, 1), (0, 2), (0, 3)]);
    assert_eq!(GAD::import(&b).unwrap().err(), Some(IoError::UnexpectedEof));
    // a surface type that does not exist
    let b = gad_bytes(2, 2, &[(0, 1), (1 << 40, 2), (0, 3), (0, 4)]);
    assert!(GAD::import(&b).is_none());
    // an empty grid
    assert_eq!(GAD::import(&gad_bytes(0, 5, &[])).unwrap().unwrap().attributes.len(), 0);
}

/// A 2 by 2 bitmap with 24 bits per pixel, rows bottom up.
fn bmp_bytes() -> Vec<u8> {
    let mut b = vec![0u8; 54];
    b[0] = b'B';
    b[1] = b'M';
    b[10..14].copy_from_slice(&54u32.to_le_bytes());
    b[14..18].copy_from_slice(&40u32.to_le_bytes());
    b[18..22].copy_from_slice(&2u32.to_le_bytes());
    b[22..26].copy_from_slice(&2u32.to_le_bytes());
    b[26..28].copy_from_slice(&1u16.to_le_bytes());
    b[28..30].copy_from_slice(&24u16.to_le_bytes());
    // bottom row, then top row: (blue, green, red) per pixel
    b.extend_from_slice(&[1, 0, 10, 2, 0, 20]);
    b.extend_from_slice(&[3, 0, 30, 4, 0, 40]);
    b
}

#[test]
fn height_bitmap_is_read_top_down() {
    let (ground, water) = import_bmp(&bmp_bytes(), 2, 2).unwrap();
    assert_eq!(ground, vec![30, 40, 10, 20]);
    assert_eq!(water, vec![3, 4, 1, 2]);
    // a partial row at the end is left out
    let mut b = bmp_bytes();
    b.extend_from_slice(&[9, 9, 9]);
    let (ground, _) = import_bmp(&b, 2, 2).unwrap();
    assert_eq!(ground, vec![30, 40, 10, 20]);
    // data that starts past the end holds no rows
    let mut b = bmp_bytes();
    b[10..14].copy_from_slice(&500u32.to_le_bytes());
    assert_eq!(import_bmp(&b, 2, 2).unwrap().0.len(), 0);
}

#[test]
fn height_bitmap_errors() {
    let b = bmp_bytes();
    assert_eq!(import_bmp(&b[..1], 2, 2).err(), Some(BmpError::UnexpectedEof));
    let mut bad = b.clone();
    bad[0] = b'X';
    assert_eq!(import_bmp(&bad, 2, 2).err(), Some(BmpError::BadMagic));
    assert_eq!(import_bmp(&b[..17], 2, 2).err(), Some(BmpError::UnexpectedEof));
    let mut bad = b.clone();
    bad[14] = 12;
    assert_eq!(import_bmp(&bad, 2, 2).err(), Some(BmpError::InvalidInfoHeaderSize));
    assert_eq!(import_bmp(&b, 3, 2).err(), Some(BmpError::WrongWidth));
    assert_eq!(import_bmp(&b, 2, 3).err(), Some(BmpError::WrongHeight));
    let mut bad = b.clone();
    bad[26] = 2;
    assert_eq!(import_bmp(&bad, 2, 2).err(), Some(BmpError::InvalidPlanes));
    let mut bad = b.clone();
    bad[28] = 32;
    assert_eq!(import_bmp(&bad, 2, 2).err(), Some(BmpError::BitsPerPixel));
    let mut bad = b.clone();
    bad[30] = 1;
    assert_eq!(import_bmp(&bad, 2, 2).err(), Some(BmpError::Compressed));
    assert_eq!(import_bmp(&b[..31], 2, 2).err(), Some(BmpError::UnexpectedEof));
}
