use bbtools::bbtools::swizzle::{generate_swizzle_masks, unswizzle_fits_check, unswizzle_image};
use bbtools::bbtools::xpr::{
    convert_dxt1_blocks, pitch_fits_check, shift_one, XPRFormat, XprError, DDS_PixelFormat, DXT1,
    DXT3, XPR,
};

fn xpr_file(format: u8, levels: u8, log_w: u8, log_h: u8, ext: u32, data: &[u8]) -> Vec<u8> {
    let mut b = vec![0u8; 36];
    b[0..4].copy_from_slice(b"XPR0");
    let end = (36 + data.len()) as u32;
    b[4..8].copy_from_slice(&end.to_le_bytes());
    b[8..12].copy_from_slice(&36u32.to_le_bytes());
    b[14] = 4;
    b[24] = 0x20;
    b[25] = format;
    b[26] = levels | (log_w << 4);
    b[27] = log_h;
    b[28..32].copy_from_slice(&ext.to_le_bytes());
    b.extend_from_slice(data);
    b
}

fn texture(format: XPRFormat, levels: usize, w: usize, h: usize, data: Vec<u8>) -> XPR {
    XPR { format, levels, width: w, height: h, depth: 1, layers: 1, data, dds_path: None }
}

#[test]
fn format_codes() {
    assert!(XPRFormat::from(0x06) == XPRFormat::ARGB);
    assert!(XPRFormat::from(0x0C) == XPRFormat::DXT1);
    assert!(XPRFormat::from(0x35) == XPRFormat::L16_LIN);
    assert!(XPRFormat::from(0x99) == XPRFormat::Unknown);
    assert!(XPRFormat::GB.is_swizzled());
    assert!(!XPRFormat::GB_LIN.is_swizzled());
    assert!(XPRFormat::ARGB_LIN.has_ext_dimensions());
    assert_eq!(XPRFormat::ARGB.bytes_per_pixel(), 4);
    assert_eq!(XPRFormat::GB_LIN.bytes_per_pixel(), 2);
    assert_eq!(XPRFormat::DXT1.bytes_per_pixel(), 0);
    assert_eq!(shift_one(5), 32);
}

#[test]
fn import_xpr_reads_header_and_data() {
    let buf = xpr_file(0x0C, 3, 3, 2, 0, &[1, 2, 3, 4, 5, 6, 7, 8]);
    let x = XPR::import_xpr(&buf).unwrap();
    assert!(x.format == XPRFormat::DXT1);
    assert_eq!(x.levels, 3);
    assert_eq!(x.width, 8);
    assert_eq!(x.height, 4);
    assert_eq!(x.depth, 1);
    assert_eq!(x.layers, 1);
    assert_eq!(x.data, vec![1, 2, 3, 4, 5, 6, 7, 8]);
}

#[test]
fn import_xpr_linear_size_from_ext_word() {
    let ext: u32 = (9) | (4 << 12);
    let buf = xpr_file(0x12, 1, 0, 0, ext, &[0; 4]);
    let x = XPR::import_xpr(&buf).unwrap();
    assert_eq!(x.width, 10);
    assert_eq!(x.height, 5);
    assert_eq!(x.depth, 1);
}

#[test]
fn import_xpr_errors() {
    assert_eq!(XPR::import_xpr(&[0; 10]).err(), Some(XprError::MissingHeader));
    let mut bad = xpr_file(0x0C, 1, 1, 1, 0, &[0; 8]);
    bad[0] = b'Y';
    assert_eq!(XPR::import_xpr(&bad).err(), Some(XprError::BadMagic));
    let mut empty = xpr_file(0x0C, 1, 1, 1, 0, &[0; 8]);
    empty[4..8].copy_from_slice(&36u32.to_le_bytes());
    assert_eq!(XPR::import_xpr(&empty).err(), Some(XprError::FileEmpty));
    let mut small = xpr_file(0x0C, 1, 1, 1, 0, &[0; 8]);
    small[4..8].copy_from_slice(&100u32.to_le_bytes());
    assert_eq!(XPR::import_xpr(&small).err(), Some(XprError::BufTooSmall));
    let mut not_tex = xpr_file(0x0C, 1, 1, 1, 0, &[0; 8]);
    not_tex[14] = 5;
    assert_eq!(XPR::import_xpr(&not_tex).err(), Some(XprError::NotTexture));
    let mut dims = xpr_file(0x0C, 1, 1, 1, 0, &[0; 8]);
    dims[24] = 0x30;
    assert_eq!(XPR::import_xpr(&dims).err(), Some(XprError::BadDimensionCount));
    let unknown = xpr_file(0x77, 1, 1, 1, 0, &[0; 8]);
    assert_eq!(XPR::import_xpr(&unknown).err(), Some(XprError::UnknownFormat));
}

#[test]
fn import_xraw_keeps_top_level() {
    let mut buf = vec![0u8; 16];
    buf[0..4].copy_from_slice(b"XRAW");
    buf[4] = 0x20;
    buf[5] = 0x35;
    buf[6] = 0x13;
    buf[7] = 0x01;
    buf.extend_from_slice(&[1, 2, 3, 4, 5, 6, 7, 8, 9, 10]);
    let x = XPR::import_xraw(&buf).unwrap();
    assert_eq!(x.width, 2);
    assert_eq!(x.height, 2);
    assert_eq!(x.levels, 1);
    assert_eq!(x.data, vec![1, 2, 3, 4, 5, 6, 7, 8]);
    let mut bad = buf.clone();
    bad[4] = 0x10;
    assert_eq!(XPR::import_xraw(&bad).err(), Some(XprError::BadDimensionCount));
    assert_eq!(XPR::import_xraw(&buf[0..8]).err(), Some(XprError::MissingHeader));
    let mut magic = buf.clone();
    magic[1] = 0;
    assert_eq!(XPR::import_xraw(&magic).err(), Some(XprError::BadMagic));
}

#[test]
fn l16_texture_bytes_are_little_endian() {
    let x = XPR::new_l16_lin(2, 1, vec![0x1234, 0xABCD]);
    assert_eq!(x.data, vec![0x34, 0x12, 0xCD, 0xAB]);
    assert!(x.format == XPRFormat::L16_LIN);
    let a = XPR::new_argb_lin(1, 1, vec![1, 2, 3, 4]);
    assert!(a.format == XPRFormat::ARGB_LIN);
    assert_eq!(a.data_bytes(), &[1, 2, 3, 4]);
}

#[test]
fn pitch_values() {
    assert_eq!(texture(XPRFormat::DXT1, 1, 8, 8, vec![]).get_pitch(), 32);
    assert_eq!(texture(XPRFormat::DXT1, 1, 1, 1, vec![]).get_pitch(), 8);
    assert_eq!(texture(XPRFormat::DXT3, 1, 8, 4, vec![]).get_pitch(), 32);
    assert_eq!(texture(XPRFormat::ARGB_LIN, 1, 3, 3, vec![]).get_pitch(), 36);
    assert_eq!(texture(XPRFormat::GB_LIN, 1, 3, 3, vec![]).get_pitch(), 18);
    assert!(pitch_fits_check(1024, 1024));
    assert!(!pitch_fits_check(usize::MAX, 2));
}

#[test]
fn discard_mipmaps_keeps_top_level() {
    let mut x = texture(XPRFormat::DXT1, 3, 4, 4, (0..24).collect());
    x.discard_mipmaps();
    assert_eq!(x.levels, 1);
    assert_eq!(x.data, (0..8).collect::<Vec<u8>>());
    let mut single = texture(XPRFormat::DXT1, 1, 4, 4, (0..24).collect());
    single.discard_mipmaps();
    assert_eq!(single.data.len(), 24);
    // A second drop changes nothing.
    x.discard_mipmaps();
    assert_eq!(x.levels, 1);
    assert_eq!(x.data, (0..8).collect::<Vec<u8>>());
}

#[test]
fn discard_top_mipmap_halves() {
    let mut x = texture(XPRFormat::DXT1, 2, 8, 4, (0..24).collect());
    x.discard_top_mipmap();
    assert_eq!(x.levels, 1);
    assert_eq!(x.width, 4);
    assert_eq!(x.height, 2);
    assert_eq!(x.data, (16..24).collect::<Vec<u8>>());
}

#[test]
fn extend_layers_errors_and_append() {
    let mut a = texture(XPRFormat::DXT1, 1, 4, 4, vec![1; 8]);
    assert_eq!(a.extend_layers(texture(XPRFormat::DXT1, 1, 8, 4, vec![])), Err(XprError::WidthMismatch));
    assert_eq!(a.extend_layers(texture(XPRFormat::DXT1, 1, 4, 8, vec![])), Err(XprError::HeightMismatch));
    assert_eq!(a.extend_layers(texture(XPRFormat::DXT1, 2, 4, 4, vec![])), Err(XprError::LevelsMismatch));
    let mut deep = texture(XPRFormat::DXT1, 1, 4, 4, vec![]);
    deep.depth = 2;
    assert_eq!(a.extend_layers(deep), Err(XprError::DepthMismatch));
    assert_eq!(a.extend_layers(texture(XPRFormat::DXT1, 1, 4, 4, vec![2; 8])), Ok(()));
    assert_eq!(a.layers, 2);
    assert_eq!(a.data.len(), 16);
    assert_eq!(a.data[8], 2);
}

#[test]
fn dxt1_block_roundtrip() {
    let b = DXT1::from(&[0x01, 0x02, 0x03, 0x04, 0x05, 0x06, 0x07, 0x08]);
    assert_eq!(b.color0, 0x0201);
    assert_eq!(b.color1, 0x0403);
    assert_eq!(b.codes, 0x08070605);
    assert_eq!(b.into(), vec![0x01, 0x02, 0x03, 0x04, 0x05, 0x06, 0x07, 0x08]);
}

#[test]
fn dxt3_alpha_of_opaque_block() {
    let d = DXT3::from(DXT1 { color0: 2, color1: 1, codes: 0xFFFF_FFFF });
    assert_eq!(d.alpha, u64::MAX);
}

#[test]
fn dxt3_alpha_marks_code_three_transparent() {
    // color0 <= color1: three-color mode; texel 0 has code 3, the others code 0.
    let d = DXT3::from(DXT1 { color0: 1, color1: 2, codes: 0x3 });
    assert_eq!(d.alpha, 0xFFFF_FFFF_FFFF_FFF0);
    let bytes = d.into();
    assert_eq!(bytes.len(), 16);
    assert_eq!(&bytes[8..16], &[1, 0, 2, 0, 3, 0, 0, 0]);
    let back = DXT3::from_bytes(&bytes);
    assert_eq!(back.alpha, 0xFFFF_FFFF_FFFF_FFF0);
    assert_eq!(back.dxt1.codes, 3);
}

#[test]
fn dxt1_to_dxt3_keeps_colors_and_doubles() {
    let data: Vec<u8> = vec![2, 0, 1, 0, 0, 0, 0, 0, 1, 0, 2, 0, 3, 0, 0, 0];
    let out = convert_dxt1_blocks(&data);
    assert_eq!(out.len(), 32);
    assert_eq!(&out[8..16], &data[0..8]);
    assert_eq!(&out[24..32], &data[8..16]);
    let mut x = texture(XPRFormat::DXT1, 1, 8, 4, data.clone());
    assert_eq!(x.convert_dxt1_to_dxt3(), Ok(()));
    assert!(x.format == XPRFormat::DXT3);
    assert_eq!(x.data, out);
    assert_eq!(x.convert_dxt1_to_dxt3(), Err(XprError::NotDxt1));
    let mut odd = texture(XPRFormat::DXT1, 1, 8, 4, vec![0; 7]);
    assert_eq!(odd.convert_dxt1_to_dxt3(), Err(XprError::BadDxt1Length));
}

#[test]
fn swizzle_masks_interleave() {
    assert_eq!(generate_swizzle_masks(4, 4, 1), (0b0101, 0b1010, 0));
    assert_eq!(generate_swizzle_masks(8, 2, 1), (0b1101, 0b0010, 0));
    assert_eq!(generate_swizzle_masks(2, 2, 2), (0b001, 0b010, 0b100));
    assert_eq!(generate_swizzle_masks(1, 1, 1), (0, 0, 0));
    let (x, y, z) = generate_swizzle_masks(16, 4, 2);
    assert_eq!(x & y, 0);
    assert_eq!(x ^ y ^ z, 0b1111111);
}

#[test]
fn unswizzle_2x2() {
    // Swizzled order of a 2x2 image: (0,0) (1,0) (0,1) (1,1).
    let src: Vec<u8> = vec![10, 11, 20, 21, 30, 31, 40, 41];
    let out = unswizzle_image(&src, 2, 2, 2);
    assert_eq!(out, vec![10, 11, 20, 21, 30, 31, 40, 41]);
    assert!(unswizzle_fits_check(2, 2, 2, 8));
    assert!(!unswizzle_fits_check(2, 2, 2, 7));
}

#[test]
fn unswizzle_4x2_and_zero_tail() {
    // 4x2: x mask 0b101, y mask 0b010. Texel (x, y) comes from offset
    // deposit(x into 0b101) + deposit(y into 0b010).
    let src: Vec<u8> = (0..10).collect();
    let out = unswizzle_image(&src, 4, 2, 1);
    assert_eq!(out, vec![0, 1, 4, 5, 2, 3, 6, 7, 0, 0]);
}

#[test]
fn convert_argb_to_linear() {
    let data: Vec<u8> = (0..16).collect();
    let mut x = texture(XPRFormat::ARGB, 1, 2, 2, data.clone());
    assert!(x.can_unswizzle());
    assert_eq!(x.convert_argb_to_argb_lin(), Ok(()));
    assert!(x.format == XPRFormat::ARGB_LIN);
    assert_eq!(x.data, data);
    assert_eq!(x.convert_argb_to_argb_lin(), Err(XprError::NotArgb));
    let mut gb = texture(XPRFormat::GB, 1, 4, 2, (0..16).collect());
    assert_eq!(gb.convert_gb_to_gb_lin(), Ok(()));
    assert_eq!(gb.data, vec![0, 1, 2, 3, 8, 9, 10, 11, 4, 5, 6, 7, 12, 13, 14, 15]);
    assert_eq!(gb.convert_gb_to_gb_lin(), Err(XprError::NotGb));
    let short = texture(XPRFormat::ARGB, 1, 4, 4, vec![0; 8]);
    assert!(!short.can_unswizzle());
}

#[test]
fn dds_file_layout() {
    let x = texture(XPRFormat::DXT1, 1, 4, 4, vec![7; 8]);
    let bytes = x.dds_bytes();
    assert_eq!(&bytes[0..4], b"DDS ");
    assert_eq!(&bytes[4..8], &124u32.to_le_bytes());
    assert_eq!(&bytes[bytes.len() - 8..], &[7; 8]);
    // Height, then width, then the pitch of one 4x4 block.
    let y = texture(XPRFormat::DXT1, 1, 8, 4, vec![7; 16]);
    let b = y.dds_bytes();
    assert_eq!(&b[12..16], &4u32.to_le_bytes());
    assert_eq!(&b[16..20], &8u32.to_le_bytes());
    assert_eq!(&b[20..24], &16u32.to_le_bytes());
    // The DX10 extension names DXGI format 71 (BC1) and one layer.
    assert_eq!(&b[128..132], &71u32.to_le_bytes());
    assert_eq!(&b[140..144], &1u32.to_le_bytes());
    let mut w = Vec::new();
    DDS_PixelFormat::new().write(&mut w);
    assert_eq!(w.len(), 32);
    assert_eq!(&w[0..4], &32u32.to_le_bytes());
}

#[test]
fn dds_path_is_relative() {
    let mut x = texture(XPRFormat::DXT1, 1, 4, 4, vec![]);
    assert_eq!(x.path_to_dds("/base/file.gltf"), None);
    x.set_dds_path(String::from("/base/tex/a.dds"));
    assert_eq!(x.path_to_dds("/base/file.gltf"), Some(String::from("tex/a.dds")));
    assert_eq!(x.path_to_dds("/base"), Some(String::from("tex/a.dds")));
    assert_eq!(x.path_to_dds("/other/dir"), Some(String::from("../../base/tex/a.dds")));
}
