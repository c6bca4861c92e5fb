use bbtools::bbtools::stg::{MissionText, Skybox};
use bbtools::bbtools::{
    write_godot_option_path, write_godot_path, write_pascal_option_string, write_pascal_string,
    FileSlice,
};
use bbtools::bytes::{copy_range, find_after_delim, push_bytes, ByteReader, IoError};
use bbtools::decimal::{decimal_digits, push_decimal, string_push_str};

#[test]
fn pascal_string_is_length_prefixed() {
    let mut out = Vec::new();
    write_pascal_string("héllo", &mut out);
    assert_eq!(out, vec![6, 0, 0, 0, b'h', 0xC3, 0xA9, b'l', b'l', b'o']);
}

#[test]
fn pascal_option_string_none_is_empty_string() {
    let mut out = Vec::new();
    write_pascal_option_string(None, &mut out);
    assert_eq!(out, vec![0, 0, 0, 0]);
    let mut out2 = Vec::new();
    write_pascal_option_string(Some("ab"), &mut out2);
    assert_eq!(out2, vec![2, 0, 0, 0, b'a', b'b']);
}

#[test]
fn godot_path_rooted_goes_under_res() {
    let mut out = Vec::new();
    write_godot_path("/a/b.dds", &mut out);
    let mut expected = vec![14, 0, 0, 0];
    expected.extend_from_slice(b"res:///a/b.dds");
    assert_eq!(out, expected);
}

#[test]
fn godot_path_relative_is_kept() {
    let mut out = Vec::new();
    write_godot_path("a/b.dds", &mut out);
    let mut expected = vec![7, 0, 0, 0];
    expected.extend_from_slice(b"a/b.dds");
    assert_eq!(out, expected);
}

#[test]
fn godot_option_path_none_writes_zero() {
    let mut out = vec![9];
    write_godot_option_path(None, &mut out);
    assert_eq!(out, vec![9, 0, 0, 0, 0]);
    let mut out2 = Vec::new();
    write_godot_option_path(Some("/x"), &mut out2);
    let mut expected = vec![8, 0, 0, 0];
    expected.extend_from_slice(b"res:///x");
    assert_eq!(out2, expected);
}

#[test]
fn file_slice_reads_offset_and_length() {
    let f = FileSlice::from(&[0x10, 0, 0, 0, 0x20, 0, 0, 0]);
    assert_eq!(f.offset(), 16);
    assert_eq!(f.length(), 32);
    assert_eq!(f.get_end(), 48);
    assert_eq!(f.as_range(), 16..48);
}

#[test]
fn file_slice_set_end_then_get_end() {
    let mut f = FileSlice::from(&[4, 0, 0, 0, 4, 0, 0, 0]);
    f.set_end(20);
    assert_eq!(f.get_end(), 20);
    assert_eq!(f.length(), 16);
    f.set_end(2);
    assert_eq!(f.length(), 16);
}

#[test]
fn file_slice_table() {
    let buf = [1, 0, 0, 0, 2, 0, 0, 0, 3, 0, 0, 0, 4, 0, 0, 0];
    let files = FileSlice::from_bytes(&buf);
    assert_eq!(files.len(), 2);
    assert_eq!(files[1].offset(), 3);
    assert_eq!(files[1].length(), 4);
    assert_eq!(FileSlice::buffer_size(3), 24);
    let f = FileSlice::from_at(&buf, 8);
    assert_eq!(f.offset(), 3);
}

#[test]
fn byte_reader_reads_little_endian() {
    let mut r = ByteReader::new(vec![0x34, 0x12, 0x78, 0x56, 0x34, 0x12, 0xFF]);
    assert_eq!(r.read_u16(), Ok(0x1234));
    assert_eq!(r.read_u32(), Ok(0x12345678));
    assert_eq!(r.read_i8(), Ok(-1));
    assert_eq!(r.read_u8(), Err(IoError::UnexpectedEof));
    assert_eq!(r.stream_position(), 7);
}

#[test]
fn byte_reader_seek_and_until() {
    let mut r = ByteReader::new(vec![1, 2, 0, 3, 4]);
    assert_eq!(r.read_until(0), vec![1, 2, 0]);
    assert_eq!(r.read_until(0), vec![3, 4]);
    assert_eq!(r.read_until(0), Vec::<u8>::new());
    r.seek(1);
    assert_eq!(r.read_some(10), vec![2, 0, 3, 4]);
    assert_eq!(r.seek_relative(-10), Err(IoError::InvalidSeek));
    assert_eq!(r.seek_relative(-2), Ok(()));
    assert_eq!(r.read_exact(2), Ok(vec![3, 4]));
    assert_eq!(r.read_exact(1), Err(IoError::UnexpectedEof));
}

#[test]
fn byte_reader_u32_table() {
    let mut r = ByteReader::new(vec![1, 0, 0, 0, 2, 0, 0, 0, 9]);
    assert_eq!(r.read_u32_into(2), Ok(vec![1, 2]));
    assert_eq!(r.read_u32_into(1), Err(IoError::UnexpectedEof));
    assert_eq!(r.read_i32(), Err(IoError::UnexpectedEof));
    assert_eq!(r.len(), 9);
    assert_eq!(r.as_slice()[8], 9);
}

#[test]
fn byte_helpers() {
    let mut w = vec![1];
    push_bytes(&mut w, &[2, 3]);
    assert_eq!(w, vec![1, 2, 3]);
    assert_eq!(copy_range(&[5, 6, 7, 8], 1, 3), vec![6, 7]);
    assert_eq!(find_after_delim(&[5, 0, 7, 0], 1, 0), 2);
    assert_eq!(find_after_delim(&[5, 6], 0, 0), 2);
}

#[test]
fn decimal_text() {
    assert_eq!(decimal_digits(0), vec!['0']);
    assert_eq!(decimal_digits(907), vec!['9', '0', '7']);
    let mut s = String::from("x");
    push_decimal(&mut s, 7, 4);
    assert_eq!(s, "x0007");
    push_decimal(&mut s, 123456, 4);
    assert_eq!(s, "x0007123456");
    string_push_str(&mut s, "!");
    assert_eq!(s, "x0007123456!");
}

#[test]
fn skybox_write_formats() {
    let mut out = Vec::new();
    Skybox::Spherical { texture_path: String::from("/s.dds") }.write(&mut out);
    let mut expected = vec![1, 12, 0, 0, 0];
    expected.extend_from_slice(b"res:///s.dds");
    assert_eq!(out, expected);
    let mut out2 = Vec::new();
    Skybox::DualFlat { texture_paths: [String::from("a"), String::from("b")] }.write(&mut out2);
    assert_eq!(out2, vec![0, 1, 0, 0, 0, b'a', 1, 0, 0, 0, b'b']);
}

#[test]
fn mission_text_keys() {
    let t = MissionText::new_loc(3);
    assert_eq!(t.title, 1236);
    assert_eq!(t.attack_objective, Some(1265));
    assert_eq!(t.defense_objective, Some(1266));
    let mut out = Vec::new();
    t.write_prefixed(Some(7), &mut out);
    let mut expected = vec![8, 0, 0, 0];
    expected.extend_from_slice(b"loc:0007");
    assert_eq!(out, expected);
    let s = MissionText::new_sb(2);
    let mut out2 = Vec::new();
    s.write(&mut out2);
    let mut expected2 = vec![7, 0, 0, 0];
    expected2.extend_from_slice(b"sb:0002");
    expected2.extend_from_slice(&[0; 17]);
    assert_eq!(out2, expected2);
}

#[test]
fn mission_text_symmetric_targets() {
    let t = MissionText::new_loc(10);
    assert!(t.symmetric_targets);
    assert_eq!(t.attack_targets, Some(1276));
    assert_eq!(t.defense_targets, Some(1275));
    let none = MissionText::new_loc(0);
    assert_eq!(none.attack_objective, None);
}
