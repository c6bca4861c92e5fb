use bbtools::bbtools::obj::{ModelConfig, ModelConfigFlags};
use bbtools::bytes::ByteReader;
use bbtools::bbtools::text::{import_translations, read_utf16_string, write_translations_to_csv};
use bbtools::bbtools::x86::X86Context;
use bbtools::bbtools::xbe::{XbeError, XBE};
use bbtools::bytes::IoError;
use bbtools::titles::loc::mech::Loadout;
use bbtools::titles::loc::wep::{read_weapon_lookups, read_weapon_names, WeaponLookup};
use sha1::{Digest, Sha1};

const BASE: u32 = 0x10000;
const HEADER_SIZE: usize = 0x1000;
const TEXT_FILE: usize = 0x1000;
const RDATA_FILE: usize = 0x1100;
const RDATA_VADDR: u32 = 0x30000;

fn put32(b: &mut [u8], at: usize, v: u32) {
    b[at..at + 4].copy_from_slice(&v.to_le_bytes());
}

fn put16(b: &mut [u8], at: usize, v: u16) {
    b[at..at + 2].copy_from_slice(&v.to_le_bytes());
}

fn hash_with_len(chunk: &[u8]) -> Vec<u8> {
    let mut h = Sha1::new();
    h.update((chunk.len() as u32).to_le_bytes());
    h.update(chunk);
    h.finalize().to_vec()
}

/// An image with a `.text` section (four instructions) and a `.rdata`
/// section (tables of names, lookups, translations and model records),
/// and the decrypted signature that carries the header hash. Every hash
/// matches.
fn image() -> (Vec<u8>, Vec<u8>) {
    let mut d = vec![0u8; 0x1200];
    d[0..4].copy_from_slice(b"XBEH");
    put32(&mut d, 0x104, BASE);
    put32(&mut d, 0x108, HEADER_SIZE as u32);
    put32(&mut d, 0x118, BASE + 0x200);
    put32(&mut d, 0x208, 0x4343_0002);
    put32(&mut d, 0x11C, 2);
    put32(&mut d, 0x120, BASE + 0x300);
    d[0x400..0x405].copy_from_slice(b".text");
    d[0x408..0x40E].copy_from_slice(b".rdata");
    // .text: mov [esp+4], 0x11223344; sub esp, 0x10; mov eax, 0x12345678; mov [esp], eax
    let code: [u8; 23] = [
        0xC7, 0x44, 0x24, 0x04, 0x44, 0x33, 0x22, 0x11, 0x81, 0xEC, 0x10, 0x00, 0x00, 0x00, 0xB8,
        0x78, 0x56, 0x34, 0x12, 0x89, 0x44, 0x24, 0x00,
    ];
    d[TEXT_FILE..TEXT_FILE + code.len()].copy_from_slice(&code);
    let r = RDATA_FILE;
    // weapon names
    put32(&mut d, r, RDATA_VADDR + 0x40);
    put32(&mut d, r + 4, RDATA_VADDR + 0x48);
    d[r + 0x40..r + 0x43].copy_from_slice(b"Gun");
    d[r + 0x48..r + 0x4D].copy_from_slice(b"Sword");
    // weapon lookups: one found, one outside every section
    put32(&mut d, r + 0x10, RDATA_VADDR + 0x60);
    put32(&mut d, r + 0x14, 0x50000);
    put32(&mut d, r + 0x60, 7);
    put32(&mut d, r + 0x64, 8);
    // translations: (jp, en), (none, none), (jp, none)
    put32(&mut d, r + 0x20, RDATA_VADDR + 0x80);
    put32(&mut d, r + 0x24, RDATA_VADDR + 0xA0);
    put32(&mut d, r + 0x30, RDATA_VADDR + 0x80);
    put16(&mut d, r + 0x80, 0x3042);
    put16(&mut d, r + 0x82, 0x3044);
    put16(&mut d, r + 0xA0, b'H' as u16);
    put16(&mut d, r + 0xA2, b'i' as u16);
    // model records behind pointers
    put32(&mut d, r + 0xC0, RDATA_VADDR + 0xD0);
    put32(&mut d, r + 0xC4, RDATA_VADDR + 0xD8);
    put16(&mut d, r + 0xD0, 5);
    put16(&mut d, r + 0xD2, 1);
    put16(&mut d, r + 0xD4, 2);
    put16(&mut d, r + 0xD6, 0xFFFF);
    put16(&mut d, r + 0xD8, 6);
    put16(&mut d, r + 0xDA, 0xFFFF);
    put16(&mut d, r + 0xDC, 3);
    put16(&mut d, r + 0xDE, 4);
    // a record whose model is not set
    put32(&mut d, r + 0xE8, RDATA_VADDR + 0xF0);
    put16(&mut d, r + 0xF0, 0xFFFF);
    // section table
    let sections = [
        (0x20000u32, 0x200u32, TEXT_FILE as u32, 0x100u32, BASE + 0x400),
        (RDATA_VADDR, 0x100, RDATA_FILE as u32, 0x100, BASE + 0x408),
    ];
    for (k, (vaddr, vsize, faddr, fsize, name)) in sections.iter().enumerate() {
        let e = 0x300 + 56 * k;
        put32(&mut d, e + 4, *vaddr);
        put32(&mut d, e + 8, *vsize);
        put32(&mut d, e + 12, *faddr);
        put32(&mut d, e + 16, *fsize);
        put32(&mut d, e + 20, *name);
        let h = hash_with_len(&d[*faddr as usize..(*faddr + *fsize) as usize]);
        d[e + 36..e + 56].copy_from_slice(&h);
    }
    let mut sig = vec![0u8; 255];
    let h = hash_with_len(&d[260..HEADER_SIZE]);
    sig[235..255].copy_from_slice(&h);
    (d, sig)
}

fn xbe() -> XBE {
    let (d, sig) = image();
    XBE::import_with_signature(d, sig).unwrap()
}

#[test]
fn image_reads_title_and_sections() {
    let x = xbe();
    assert_eq!(x.title_id, 0x4343_0002);
    assert_eq!(x.names, vec!["headers".to_string(), ".text".to_string(), ".rdata".to_string()]);
    assert_eq!(x.sections.len(), 3);
    assert_eq!(x.sections[0].vaddr, BASE);
    assert_eq!(x.sections[0].fsize, HEADER_SIZE as u32);
    assert_eq!(x.sections[2].faddr, RDATA_FILE as u32);
    assert!(x.is_valid());
    assert!(x.sections.iter().all(|s| s.is_hash_ok()));
}

#[test]
fn changed_byte_breaks_a_hash() {
    let (mut d, sig) = image();
    d[RDATA_FILE + 0xFF] ^= 1;
    let x = XBE::import_with_signature(d, sig).unwrap();
    assert!(!x.is_valid());
    assert!(x.sections[0].is_hash_ok());
    assert!(!x.sections[2].is_hash_ok());
}

#[test]
fn pointer_offsets() {
    let x = xbe();
    assert_eq!(x.get_pointer_offset(RDATA_VADDR + 0x48), Ok((RDATA_FILE + 0x48) as u64));
    assert_eq!(x.get_pointer_offset(BASE + 0x208), Ok(0x208));
    assert_eq!(x.get_pointer_offset(0), Err(IoError::NullPointer));
    assert_eq!(x.get_pointer_offset(0x50000), Err(IoError::PointerOutsideSections));
    // inside the section in memory, past what the file stores
    assert_eq!(x.get_pointer_offset(0x20150), Err(IoError::OffsetOutsideSection));
}

#[test]
fn section_offsets_and_data() {
    let mut x = xbe();
    assert_eq!(x.seek_section_offset(".rdata", 8), Ok((RDATA_FILE + 8) as u64));
    assert_eq!(x.reader.stream_position(), (RDATA_FILE + 8) as u64);
    assert_eq!(x.seek_section_offset(".bss", 0), Err(IoError::SectionNotFound));
    assert_eq!(x.seek_section_offset(".rdata", 0x100), Err(IoError::OffsetOutsideSection));
    let text = x.get_section_data(".text").unwrap();
    assert_eq!(text.len(), 0x200);
    assert_eq!(text[0], 0xC7);
    assert!(text[0x100..].iter().all(|b| *b == 0));
    assert_eq!(x.get_section_data(".rdata").unwrap().len(), 0x100);
    assert_eq!(x.get_section_data("nope"), Err(IoError::SectionNotFound));
}

#[test]
fn strings_and_tables() {
    let mut x = xbe();
    assert_eq!(x.read_c_string(BASE + 0x400), Ok(".text".to_string()));
    assert_eq!(x.read_c_string(0), Err(XbeError::Io(IoError::NullPointer)));
    assert_eq!(
        x.read_u32_table(".rdata", 0, 2),
        Ok(vec![RDATA_VADDR + 0x40, RDATA_VADDR + 0x48])
    );
    assert_eq!(x.read_u32_table(".rdata", 0xFC, 2), Err(IoError::UnexpectedEof));
    assert_eq!(x.read_u32_table(".data", 0, 1), Err(IoError::SectionNotFound));
}

#[test]
fn image_import_errors() {
    assert_eq!(XBE::import(vec![0x58, 0x42]).err(), Some(XbeError::Io(IoError::UnexpectedEof)));
    assert_eq!(XBE::import(b"XBEXabcd".to_vec()).err(), Some(XbeError::BadMagic));
    assert_eq!(
        XBE::import(b"XBEHabcd".to_vec()).err(),
        Some(XbeError::Io(IoError::UnexpectedEof))
    );
    // a zero signature decrypts to zero, which has no 255 bytes
    let (mut d, _) = image();
    for b in d[4..260].iter_mut() {
        *b = 0;
    }
    assert_eq!(XBE::import(d).err(), Some(XbeError::BadSignatureLength));
    let (d, sig) = image();
    assert_eq!(
        XBE::import_with_signature(d[..0x120].to_vec(), sig.clone()).err(),
        Some(XbeError::Io(IoError::UnexpectedEof))
    );
    let (mut d, sig) = image();
    put32(&mut d, 0x108, 100);
    assert_eq!(
        XBE::import_with_signature(d, sig.clone()).err(),
        Some(XbeError::Io(IoError::ShortSection))
    );
    let (mut d, sig) = image();
    d[0x400] = 0xFF;
    assert_eq!(XBE::import_with_signature(d, sig.clone()).err(), Some(XbeError::NameNotUtf8));
    let (mut d, sig) = image();
    put32(&mut d, 0x300 + 20, 0x90000);
    assert_eq!(
        XBE::import_with_signature(d, sig).err(),
        Some(XbeError::Io(IoError::PointerOutsideSections))
    );
}

#[test]
fn weapon_tables() {
    let mut x = xbe();
    assert_eq!(
        read_weapon_names(&mut x, ".rdata", 0, 2),
        Ok(vec!["Gun".to_string(), "Sword".to_string()])
    );
    assert_eq!(
        read_weapon_lookups(&mut x, ".rdata", 0x10, 2),
        Ok(vec![WeaponLookup(7, 8), WeaponLookup(0, 0)])
    );
    // the lookup table's second pointer leads nowhere, so its name read fails
    assert_eq!(
        read_weapon_names(&mut x, ".rdata", 0x10, 2),
        Err(XbeError::Io(IoError::PointerOutsideSections))
    );
    assert_eq!(
        read_weapon_names(&mut x, ".nope", 0, 1),
        Err(XbeError::Io(IoError::SectionNotFound))
    );
}

#[test]
fn translations_and_their_csv() {
    let mut x = xbe();
    let ts = import_translations(&mut x, ".rdata", 0x20, 3).unwrap();
    assert_eq!(ts.len(), 3);
    assert_eq!(ts[0].jp.as_deref(), Some("あい"));
    assert_eq!(ts[0].en.as_deref(), Some("Hi"));
    assert_eq!(ts[1].jp, None);
    assert_eq!(ts[1].en, None);
    assert_eq!(ts[2].jp.as_deref(), Some("あい"));
    assert_eq!(ts[2].en, None);
    let csv = write_translations_to_csv("sb", &ts);
    assert_eq!(csv, "keys,ja,en\nsb0000,\"あい\",\"Hi\"\nsb0002,\"あい\",\"あい\"\n");
    assert_eq!(
        import_translations(&mut x, ".rdata", 0xF8, 2).err(),
        Some(IoError::UnexpectedEof)
    );
}

#[test]
fn model_records_behind_pointers() {
    let mut x = xbe();
    let v = ModelConfig::import_pointers(&mut x, ".rdata", 0xC0, 2).unwrap().unwrap();
    assert_eq!(v.len(), 2);
    assert_eq!(v[0].model, 5);
    assert_eq!(v[0].animation, Some(1));
    assert_eq!(v[0].sequence, Some(2));
    assert_eq!(v[0].hitbox, None);
    assert_eq!(v[0].texture, None);
    assert_eq!(v[1].model, 6);
    assert_eq!(v[1].animation, None);
    assert_eq!(v[1].sequence, Some(3));
    assert_eq!(v[1].hitbox, Some(4));
    // a record whose model is not set is not taken
    assert!(ModelConfig::import_pointers(&mut x, ".rdata", 0xE8, 1).is_none());
    let f = ModelConfigFlags::import_pointers_b(&mut x, ".rdata", 0xC0, 1).unwrap().unwrap();
    assert_eq!(f[0].modcfg.model, 5);
    assert_eq!(f[0].modcfg.hitbox, Some(2));
    assert_eq!(f[0].modcfg.sequence, None);
    assert_eq!(f[0].flags, 0xFFFF_0006);
    assert!(matches!(
        ModelConfig::import_pointers(&mut x, ".nope", 0, 1),
        Some(Err(IoError::SectionNotFound))
    ));
}

#[test]
fn loadouts_need_the_data_section() {
    let mut x = xbe();
    assert!(matches!(Loadout::try_import(&mut x), Some(Err(IoError::SectionNotFound))));
    assert!(matches!(Loadout::import(&mut x), Err(IoError::SectionNotFound)));
}

#[test]
fn interpreter_runs_stack_setup() {
    let mut x = xbe();
    x.seek_section_offset(".text", 0).unwrap();
    let mut ctx = X86Context::new(0x100);
    let mut counts = Vec::new();
    for _ in 0..4 {
        assert!(ctx.can_execute(&x));
        counts.push(ctx.execute_instruction(&mut x).unwrap());
    }
    assert_eq!(counts, vec![8, 6, 5, 4]);
    assert_eq!(x.reader.stream_position(), (TEXT_FILE + 23) as u64);
    let stack = ctx.get_stack();
    assert_eq!(stack.len(), 0x110);
    assert_eq!(&stack[0..4], &0x12345678u32.to_le_bytes());
    assert_eq!(&stack[0x14..0x18], &0x11223344u32.to_le_bytes());
    // the next bytes are zeros, which are no instruction the interpreter knows
    assert!(!ctx.can_execute(&x));
}

#[test]
fn interpreter_stack_pointer() {
    let mut ctx = X86Context::new(0x20);
    assert_eq!(ctx.get_stack_offset(0), 0xFFFF - 0x20);
    ctx.adjust_stack_pointer(-8);
    assert_eq!(ctx.get_stack_offset(4), 0xFFFF - 0x28 + 4);
    ctx.adjust_stack_pointer(16);
    assert_eq!(ctx.get_stack().len(), 0x28);
}

#[test]
fn utf16_string_pairs_and_replacement() {
    let units: [u16; 8] = [0xD834, 0xDD1E, 0x006d, 0x0075, 0xD800, 0x0069, 0x0063, 0];
    let mut bytes: Vec<u8> = Vec::new();
    for u in units {
        bytes.extend_from_slice(&u.to_le_bytes());
    }
    let mut r = ByteReader::new(bytes);
    let s = read_utf16_string(&mut r).ok().unwrap();
    assert_eq!(s, "\u{1D11E}mu\u{FFFD}ic");
}
