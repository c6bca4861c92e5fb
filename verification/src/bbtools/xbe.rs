//! Xbox executables (XBE): the header, the section table, the SHA-1 hash of
//! every section and the signature that carries the hash of the header.
//! Pointers of the running game are translated into file positions through
//! the sections' virtual and file ranges.
use vstd::prelude::*;

use crate::bytes::{
    bytes32, clipped, copy_range, find_after_delim, le32, le32_seq, push_u32_le, read_u32_le, str_eq,
    string_from_utf8, until_delim, ByteReader, IoError,
};
use num_bigint::BigUint;
use sha1::{digest::DynDigest, Digest, Sha1};
use vstd::arithmetic::power::pow;
use vstd::utf8::{decode_utf8, valid_utf8};

verus! {

pub const XBE_MAGIC: [u8; 4] = [0x58, 0x42, 0x45, 0x48];  // "XBEH"

pub const XBE_SECTION_SIZE: usize = 56;

/// Where the hashed part of the header starts: after the magic and the signature.
pub const XBE_HEADER_SHA_OFFSET: u32 = 260;

pub const XBE_PUBLIC_KEY_EXPONENT: [u8; 4] = [0x01, 0x00, 0x01, 0x00];

pub const XBE_PUBLIC_KEY_MODULUS: [u8; 256] = [
    0xd3, 0xd7, 0x4e, 0xe5, 0x66, 0x3d, 0xd7, 0xe6, 0xc2, 0xd4, 0xa3, 0xa1, 0xf2, 0x17, 0x36, 0xd4,
    0x2e, 0x52, 0xf6, 0xd2, 0x02, 0x10, 0xf5, 0x64, 0x9c, 0x34, 0x7b, 0xff, 0xef, 0x7f, 0xc2, 0xee,
    0xbd, 0x05, 0x8b, 0xde, 0x79, 0xb4, 0x77, 0x8e, 0x5b, 0x8c, 0x14, 0x99, 0xe3, 0xae, 0xc6, 0x73,
    0x72, 0x73, 0xb5, 0xfb, 0x01, 0x5b, 0x58, 0x46, 0x6d, 0xfc, 0x8a, 0xd6, 0x95, 0xda, 0xed, 0x1b,
    0x2e, 0x2f, 0xa2, 0x29, 0xe1, 0x3f, 0xf1, 0xb9, 0x5b, 0x64, 0x51, 0x2e, 0xa2, 0xc0, 0xf7, 0xba,
    0xb3, 0x3e, 0x8a, 0x75, 0xff, 0x06, 0x92, 0x5c, 0x07, 0x26, 0x75, 0x79, 0x10, 0x5d, 0x47, 0xbe,
    0xd1, 0x6a, 0x52, 0x90, 0x0b, 0xae, 0x6a, 0x0b, 0x33, 0x44, 0x93, 0x5e, 0xf9, 0x9d, 0xfb, 0x15,
    0xd9, 0xa4, 0x1c, 0xcf, 0x6f, 0xe4, 0x71, 0x94, 0xbe, 0x13, 0x00, 0xa8, 0x52, 0xca, 0x07, 0xbd,
    0x27, 0x98, 0x01, 0xa1, 0x9e, 0x4f, 0xa3, 0xed, 0x9f, 0xa0, 0xaa, 0x73, 0xc4, 0x71, 0xf3, 0xe9,
    0x4e, 0x72, 0x42, 0x9c, 0xf0, 0x39, 0xce, 0xbe, 0x03, 0x76, 0xfa, 0x2b, 0x89, 0x14, 0x9a, 0x81,
    0x16, 0xc1, 0x80, 0x8c, 0x3e, 0x6b, 0xaa, 0x05, 0xec, 0x67, 0x5a, 0xcf, 0xa5, 0x70, 0xbd, 0x60,
    0x0c, 0xe8, 0x37, 0x9d, 0xeb, 0xf4, 0x52, 0xea, 0x4e, 0x60, 0x9f, 0xe4, 0x69, 0xcf, 0x52, 0xdb,
    0x68, 0xf5, 0x11, 0xcb, 0x57, 0x8f, 0x9d, 0xa1, 0x38, 0x0a, 0x0c, 0x47, 0x1b, 0xb4, 0x6c, 0x5a,
    0x53, 0x6e, 0x26, 0x98, 0xf1, 0x88, 0xae, 0x7c, 0x96, 0xbc, 0xf6, 0xbf, 0xb0, 0x47, 0x9a, 0x8d,
    0xe4, 0xb3, 0xe2, 0x98, 0x85, 0x61, 0xb1, 0xca, 0x5f, 0xf7, 0x98, 0x51, 0x2d, 0x83, 0x81, 0x76,
    0x0c, 0x88, 0xba, 0xd4, 0xc2, 0xd5, 0x3c, 0x14, 0xc7, 0x72, 0xda, 0x7e, 0xbd, 0x1b, 0x4b, 0xa4,
];

/// Value of a byte sequence read least significant byte first.
pub open spec fn le_nat(s: Seq<u8>) -> nat
    decreases s.len(),
{
    if s.len() == 0 {
        0
    } else {
        (s[0] + 256 * le_nat(s.drop_first())) as nat
    }
}

/// The shortest big-endian bytes of `n` (a single zero byte for zero).
pub open spec fn be_bytes(n: nat) -> Seq<u8>
    decreases n,
{
    if n < 256 {
        seq![n as u8]
    } else {
        be_bytes(n / 256).push((n % 256) as u8)
    }
}

/// The SHA-1 digest of a byte sequence.
pub uninterp spec fn sha1_digest(data: Seq<u8>) -> Seq<u8>;

/// Calls `BigUint::modpow` of num-bigint on the three little-endian numbers
/// (read by `BigUint::from_bytes_le`) and returns `BigUint::to_bytes_be` of
/// the result: `base ^ exponent mod modulus`, in its shortest big-endian
/// bytes. `modpow` panics on a zero modulus, which `requires` leaves out.
#[verifier::external_body]
fn modpow_le(base: &[u8], exponent: &[u8], modulus: &[u8]) -> (r: Vec<u8>)
    requires
        le_nat(modulus@) > 0,
    ensures
        r@ == be_bytes(
            (pow(le_nat(base@) as int, le_nat(exponent@)) % (le_nat(modulus@) as int)) as nat,
        ),
{
    let s = BigUint::from_bytes_le(base);
    let e = BigUint::from_bytes_le(exponent);
    let n = BigUint::from_bytes_le(modulus);
    s.modpow(&e, &n).to_bytes_be()
}

/// Feeds `prefix` and then `data` to a `Sha1` hasher of the sha1 crate
/// (`new_with_prefix`, `chain_update`) and returns what `DynDigest::finalize_into`
/// writes: the 20-byte SHA-1 digest of the two concatenated. `finalize_into`
/// fails only on an output buffer whose length is not 20, which this one has.
#[verifier::external_body]
fn sha1_of(prefix: &[u8], data: &[u8]) -> (r: Vec<u8>)
    ensures
        r@ == sha1_digest(prefix@ + data@),
        r@.len() == 20,
{
    let mut out: [u8; 20] = [0; 20];
    let _ = DynDigest::finalize_into(Sha1::new_with_prefix(prefix).chain_update(data), &mut out);
    out.to_vec()
}

/// One section of the image: where it lies in memory and in the file, and
/// its SHA-1 hash as stored in the file and as computed from the file.
pub struct Section {
    /// Virtual address.
    pub vaddr: u32,
    pub vsize: u32,
    /// File address.
    pub faddr: u32,
    pub fsize: u32,
    /// The hash that the file states.
    pub hash_provided: Vec<u8>,
    /// The hash of the section as read (should match `hash_provided`).
    pub hash_actual: Vec<u8>,
}

pub struct SectionView {
    pub vaddr: u32,
    pub vsize: u32,
    pub faddr: u32,
    pub fsize: u32,
    pub hash_provided: Seq<u8>,
    pub hash_actual: Seq<u8>,
}

impl View for Section {
    type V = SectionView;

    open spec fn view(&self) -> SectionView {
        SectionView {
            vaddr: self.vaddr,
            vsize: self.vsize,
            faddr: self.faddr,
            fsize: self.fsize,
            hash_provided: self.hash_provided@,
            hash_actual: self.hash_actual@,
        }
    }
}

pub open spec fn views(secs: Seq<Section>) -> Seq<SectionView> {
    secs.map_values(|s: Section| s@)
}

/// The section lies over `pointer` in memory.
pub open spec fn covers(s: SectionView, pointer: u32) -> bool {
    s.vaddr <= pointer && pointer - s.vaddr < s.vsize
}

/// Index of the first section at or after `i` that lies over `pointer`,
/// or the number of sections.
pub open spec fn first_cover(secs: Seq<SectionView>, pointer: u32, i: int) -> int
    decreases secs.len() - i,
{
    if i < 0 || i >= secs.len() {
        secs.len() as int
    } else if covers(secs[i], pointer) {
        i
    } else {
        first_cover(secs, pointer, i + 1)
    }
}

pub proof fn lemma_first_cover(secs: Seq<SectionView>, pointer: u32, i: int)
    requires
        0 <= i <= secs.len(),
    ensures
        i <= first_cover(secs, pointer, i) <= secs.len(),
        first_cover(secs, pointer, i) < secs.len() ==> covers(
            secs[first_cover(secs, pointer, i)],
            pointer,
        ),
    decreases secs.len() - i,
{
    if i < secs.len() && !covers(secs[i], pointer) {
        lemma_first_cover(secs, pointer, i + 1);
    }
}

/// The file position of a pointer of the running game.
pub open spec fn spec_pointer_offset(secs: Seq<SectionView>, pointer: u32) -> Result<u64, IoError> {
    if pointer == 0 {
        Err(IoError::NullPointer)
    } else {
        let k = first_cover(secs, pointer, 0);
        if k >= secs.len() {
            Err(IoError::PointerOutsideSections)
        } else {
            let s = secs[k];
            let offset = pointer - s.vaddr;
            if offset >= s.fsize {
                Err(IoError::OffsetOutsideSection)
            } else {
                Ok((offset + s.faddr) as u64)
            }
        }
    }
}

/// Index of the first name equal to `name` at or after `i`, or the number of names.
pub open spec fn name_index(names: Seq<Seq<char>>, name: Seq<char>, i: int) -> int
    decreases names.len() - i,
{
    if i < 0 || i >= names.len() {
        names.len() as int
    } else if names[i] == name {
        i
    } else {
        name_index(names, name, i + 1)
    }
}

/// The file position of `offset` inside the named section.
pub open spec fn spec_section_offset(
    names: Seq<Seq<char>>,
    secs: Seq<SectionView>,
    name: Seq<char>,
    offset: u32,
) -> Result<u64, IoError> {
    let k = name_index(names, name, 0);
    if k >= names.len() || k >= secs.len() {
        Err(IoError::SectionNotFound)
    } else if offset >= secs[k].fsize {
        Err(IoError::OffsetOutsideSection)
    } else {
        Ok((offset + secs[k].faddr) as u64)
    }
}

/// The section table after adding a section under `name`: a section of the
/// same name is replaced in place, a new name goes at the end.
pub open spec fn insert_named(
    names: Seq<Seq<char>>,
    secs: Seq<SectionView>,
    name: Seq<char>,
    sec: SectionView,
) -> (Seq<Seq<char>>, Seq<SectionView>) {
    let k = name_index(names, name, 0);
    if k < names.len() {
        (names, secs.update(k, sec))
    } else {
        (names.push(name), secs.push(sec))
    }
}

/// Errors of reading an executable image.
#[derive(Debug, PartialEq, Eq, Structural, Clone, Copy)]
pub enum XbeError {
    Io(IoError),
    /// The file does not start with "XBEH".
    BadMagic,
    /// The decrypted signature does not have the 255 bytes that carry the header hash.
    BadSignatureLength,
    /// A section name does not end with a zero byte.
    NameNotTerminated,
    /// A section name is not valid UTF-8.
    NameNotUtf8,
}

/// What an image holds once read: its title and its named sections.
pub struct XbeParts {
    pub title_id: u32,
    pub names: Seq<Seq<char>>,
    pub sections: Seq<SectionView>,
}

/// The bytes that the reader returns from `start` up to and including the
/// first zero byte (empty when `start` lies past the end).
pub open spec fn c_string_bytes(data: Seq<u8>, start: int) -> Seq<u8> {
    if start >= data.len() {
        Seq::empty()
    } else {
        data.subrange(start, until_delim(data, start, 0))
    }
}

/// The hash of `len` bytes at `start`, prefixed by `len` as four bytes; none
/// when fewer bytes are there.
pub open spec fn hash_of_range(data: Seq<u8>, start: nat, len: nat) -> Option<Seq<u8>> {
    let chunk = clipped(data, start as int, (start + len) as int);
    if chunk.len() != len {
        None
    } else {
        Some(sha1_digest(bytes32(len) + chunk))
    }
}

/// Reads the section table entry at `e` and adds its section.
#[verifier::opaque]
pub open spec fn parse_entry(
    data: Seq<u8>,
    e: int,
    names: Seq<Seq<char>>,
    secs: Seq<SectionView>,
) -> Result<(Seq<Seq<char>>, Seq<SectionView>), XbeError> {
    match spec_pointer_offset(secs, le32(data, e + 20) as u32) {
        Err(err) => Err(XbeError::Io(err)),
        Ok(noff) => {
            let nb = c_string_bytes(data, noff as int);
            if nb.len() == 0 || nb.last() != 0 {
                Err(XbeError::NameNotTerminated)
            } else if !valid_utf8(nb.drop_last()) {
                Err(XbeError::NameNotUtf8)
            } else {
                let faddr = le32(data, e + 12) as u32;
                let fsize = le32(data, e + 16) as u32;
                match hash_of_range(data, faddr as nat, fsize as nat) {
                    None => Err(XbeError::Io(IoError::ShortSection)),
                    Some(h) => {
                        let sec = SectionView {
                            vaddr: le32(data, e + 4) as u32,
                            vsize: le32(data, e + 8) as u32,
                            faddr,
                            fsize,
                            hash_provided: data.subrange(e + 36, e + 56),
                            hash_actual: h,
                        };
                        Ok(insert_named(names, secs, decode_utf8(nb.drop_last()), sec))
                    },
                }
            }
        },
    }
}

/// Reads the first `k` entries of the section table at `table`.
pub open spec fn parse_entries(
    data: Seq<u8>,
    table: int,
    k: nat,
    names0: Seq<Seq<char>>,
    secs0: Seq<SectionView>,
) -> Result<(Seq<Seq<char>>, Seq<SectionView>), XbeError>
    decreases k,
{
    if k == 0 {
        Ok((names0, secs0))
    } else {
        match parse_entries(data, table, (k - 1) as nat, names0, secs0) {
            Err(e) => Err(e),
            Ok(p) => parse_entry(data, table + 56 * (k - 1), p.0, p.1),
        }
    }
}

/// Once reading an entry failed, reading more entries fails the same way.
pub proof fn lemma_parse_entries_err(
    data: Seq<u8>,
    table: int,
    k: nat,
    k2: nat,
    names0: Seq<Seq<char>>,
    secs0: Seq<SectionView>,
)
    requires
        k <= k2,
        parse_entries(data, table, k, names0, secs0) is Err,
    ensures
        parse_entries(data, table, k2, names0, secs0) == parse_entries(data, table, k, names0, secs0),
    decreases k2 - k,
{
    if k < k2 {
        lemma_parse_entries_err(data, table, k, (k2 - 1) as nat, names0, secs0);
    }
}

/// Reads an image whose first 260 bytes (magic and signature) were
/// consumed and whose decrypted signature is `sig`.
pub open spec fn spec_import_rest(data: Seq<u8>, sig: Seq<u8>) -> Result<XbeParts, XbeError> {
    if data.len() < 0x124 {
        Err(XbeError::Io(IoError::UnexpectedEof))
    } else {
        let header_size = le32(data, 0x108) as u32;
        let cert = le32(data, 0x118) as u32;
        let count = le32(data, 0x11C) as u32;
        let table_addr = le32(data, 0x120) as u32;
        if header_size < 260 {
            Err(XbeError::Io(IoError::ShortSection))
        } else {
            match hash_of_range(data, 260, (header_size - 260) as nat) {
                None => Err(XbeError::Io(IoError::ShortSection)),
                Some(h) => {
                    let header = SectionView {
                        vaddr: le32(data, 0x104) as u32,
                        vsize: header_size,
                        faddr: 0,
                        fsize: header_size,
                        hash_provided: sig.subrange(235, 255),
                        hash_actual: h,
                    };
                    let names0 = seq!["headers"@];
                    let secs0 = seq![header];
                    match spec_pointer_offset(secs0, ((cert + 8) % 0x1_0000_0000) as u32) {
                        Err(e) => Err(XbeError::Io(e)),
                        Ok(toff) => if toff + 4 > data.len() {
                            Err(XbeError::Io(IoError::UnexpectedEof))
                        } else {
                            match spec_pointer_offset(secs0, table_addr) {
                                Err(e) => Err(XbeError::Io(e)),
                                Ok(tab) => if tab + 56 * count > data.len() {
                                    Err(XbeError::Io(IoError::UnexpectedEof))
                                } else {
                                    match parse_entries(
                                        data,
                                        tab as int,
                                        count as nat,
                                        names0,
                                        secs0,
                                    ) {
                                        Err(e) => Err(e),
                                        Ok(p) => Ok(
                                            XbeParts {
                                                title_id: le32(data, toff as int) as u32,
                                                names: p.0,
                                                sections: p.1,
                                            },
                                        ),
                                    }
                                },
                            }
                        },
                    }
                },
            }
        }
    }
}

impl Section {
    /// The stored hash matches the computed one.
    pub fn is_hash_ok(&self) -> (r: bool)
        ensures
            r == (self.hash_actual@ == self.hash_provided@),
    {
        if self.hash_actual.len() != self.hash_provided.len() {
            return false;
        }
        let mut i: usize = 0;
        while i < self.hash_actual.len()
            invariant
                self.hash_actual@.len() == self.hash_provided@.len(),
                i <= self.hash_actual@.len(),
                forall|j: int| 0 <= j < i ==> self.hash_actual@[j] == self.hash_provided@[j],
            decreases self.hash_actual@.len() - i,
        {
            if self.hash_actual[i] != self.hash_provided[i] {
                return false;
            }
            i = i + 1;
        }
        assert(self.hash_actual@ =~= self.hash_provided@);
        true
    }
}

/// The hash of `len` bytes of `data` at `start`, prefixed by `len`.
fn hash_range(data: &[u8], start: u64, len: u32) -> (r: Option<Vec<u8>>)
    ensures
        r matches Some(h) ==> hash_of_range(data@, start as nat, len as nat) == Some(h@),
        r is None ==> hash_of_range(data@, start as nat, len as nat) is None,
{
    let n: usize = data.len();
    let chunk: Vec<u8> = if start >= n as u64 {
        Vec::new()
    } else if (n as u64) - start <= len as u64 {
        copy_range(data, start as usize, n)
    } else {
        copy_range(data, start as usize, start as usize + len as usize)
    };
    if chunk.len() as u64 != len as u64 {
        return None;
    }
    let mut prefix: Vec<u8> = Vec::new();
    push_u32_le(&mut prefix, len);
    Some(sha1_of(prefix.as_slice(), chunk.as_slice()))
}

/// Index of the first section that lies over `pointer`, or the number of sections.
fn find_cover(secs: &Vec<Section>, pointer: u32) -> (k: usize)
    ensures
        k == first_cover(views(secs@), pointer, 0),
{
    let mut i: usize = 0;
    while i < secs.len()
        invariant
            i <= secs@.len(),
            first_cover(views(secs@), pointer, 0) == first_cover(views(secs@), pointer, i as int),
        decreases secs@.len() - i,
    {
        let s = &secs[i];
        assert(views(secs@)[i as int] == secs@[i as int]@);
        if pointer >= s.vaddr && pointer - s.vaddr < s.vsize {
            return i;
        }
        i = i + 1;
    }
    i
}

/// The file position of `pointer` given the sections `secs`.
fn pointer_offset_in(secs: &Vec<Section>, pointer: u32) -> (r: Result<u64, IoError>)
    ensures
        r == spec_pointer_offset(views(secs@), pointer),
{
    if pointer == 0 {
        return Err(IoError::NullPointer);
    }
    let k: usize = find_cover(secs, pointer);
    if k >= secs.len() {
        return Err(IoError::PointerOutsideSections);
    }
    let s = &secs[k];
    proof {
        lemma_first_cover(views(secs@), pointer, 0);
    }
    assert(views(secs@)[k as int] == secs@[k as int]@);
    let offset: u32 = pointer - s.vaddr;
    if offset >= s.fsize {
        return Err(IoError::OffsetOutsideSection);
    }
    Ok(offset as u64 + s.faddr as u64)
}

/// Index of the first name equal to `name`, or the number of names.
fn find_name(names: &Vec<String>, name: &str) -> (k: usize)
    ensures
        k == name_index(names@.map_values(|s: String| s@), name@, 0),
{
    let ghost ns = names@.map_values(|s: String| s@);
    let mut i: usize = 0;
    while i < names.len()
        invariant
            i <= names@.len(),
            ns == names@.map_values(|s: String| s@),
            name_index(ns, name@, 0) == name_index(ns, name@, i as int),
        decreases names@.len() - i,
    {
        assert(ns[i as int] == names@[i as int]@);
        if str_eq(names[i].as_str(), name) {
            return i;
        }
        i = i + 1;
    }
    i
}

/// An executable image held in memory.
pub struct XBE {
    pub title_id: u32,
    pub reader: ByteReader,
    /// Section names, one per section, in table order.
    pub names: Vec<String>,
    pub sections: Vec<Section>,
}

impl XBE {
    /// The section names, in table order.
    pub open spec fn names(&self) -> Seq<Seq<char>> {
        self.names@.map_values(|s: String| s@)
    }

    /// The sections, in table order.
    pub open spec fn sections(&self) -> Seq<SectionView> {
        views(self.sections@)
    }

    /// The table has one name per section.
    pub open spec fn wf(&self) -> bool {
        self.names@.len() == self.sections@.len()
    }

    pub open spec fn parts(&self) -> XbeParts {
        XbeParts { title_id: self.title_id, names: self.names(), sections: self.sections() }
    }

    /// The image (title, sections and bytes) is the same in both.
    pub open spec fn same_image(&self, other: &XBE) -> bool {
        &&& self.title_id == other.title_id
        &&& self.names() == other.names()
        &&& self.sections() == other.sections()
        &&& self.reader.data() == other.reader.data()
        &&& self.wf() == other.wf()
    }

    /// The file position of a pointer of the running game: the first section
    /// (in table order) that lies over the pointer decides.
    pub fn get_pointer_offset(&self, pointer: u32) -> (r: Result<u64, IoError>)
        ensures
            r == spec_pointer_offset(self.sections(), pointer),
    {
        pointer_offset_in(&self.sections, pointer)
    }

    /// Moves the reader to the file position of `pointer`; the reader stays
    /// where it was when the pointer has none.
    pub fn seek_pointer_offset(&mut self, pointer: u32) -> (r: Result<u64, IoError>)
        ensures
            final(self).same_image(old(self)),
            r == spec_pointer_offset(old(self).sections(), pointer),
            r matches Ok(p) ==> final(self).reader.pos() == p,
            r is Err ==> final(self).reader.pos() == old(self).reader.pos(),
    {
        let offset = pointer_offset_in(&self.sections, pointer);
        match offset {
            Ok(p) => {
                self.reader.seek(p);
                Ok(p)
            },
            Err(e) => Err(e),
        }
    }

    /// Moves the reader to `offset` inside the named section.
    pub fn seek_section_offset(&mut self, section_name: &str, offset: u32) -> (r: Result<
        u64,
        IoError,
    >)
        ensures
            final(self).same_image(old(self)),
            r == spec_section_offset(old(self).names(), old(self).sections(), section_name@, offset),
            r matches Ok(p) ==> final(self).reader.pos() == p,
            r is Err ==> final(self).reader.pos() == old(self).reader.pos(),
    {
        let k: usize = find_name(&self.names, section_name);
        if k >= self.names.len() || k >= self.sections.len() {
            return Err(IoError::SectionNotFound);
        }
        assert(self.sections()[k as int] == self.sections@[k as int]@);
        let fsize: u32 = self.sections[k].fsize;
        let faddr: u32 = self.sections[k].faddr;
        if offset >= fsize {
            return Err(IoError::OffsetOutsideSection);
        }
        let fpos: u64 = offset as u64 + faddr as u64;
        self.reader.seek(fpos);
        Ok(fpos)
    }

    /// The stored bytes of the named section, padded with zeros to its size
    /// in memory; the reader ends after the stored bytes it read.
    pub fn get_section_data(&mut self, section_name: &str) -> (r: Result<Vec<u8>, IoError>)
        ensures
            final(self).same_image(old(self)),
            match (r, spec_section_data(old(self).reader.data(), old(self).names(), old(self).sections(), section_name@)) {
                (Ok(v), Ok(w)) => v@ == w,
                (Err(e), Err(f)) => e == f,
                _ => false,
            },
    {
        let k: usize = find_name(&self.names, section_name);
        if k >= self.names.len() || k >= self.sections.len() {
            return Err(IoError::SectionNotFound);
        }
        assert(self.sections()[k as int] == self.sections@[k as int]@);
        let fsize: u32 = self.sections[k].fsize;
        let faddr: u32 = self.sections[k].faddr;
        let vsize: u32 = self.sections[k].vsize;
        self.reader.seek(faddr as u64);
        let mut data = self.reader.read_some(fsize as usize);
        if data.len() != fsize as usize {
            return Err(IoError::ShortSection);
        }
        let ghost chunk = data@;
        data.resize(vsize as usize, 0);
        assert(data@ =~= resized(chunk, vsize as nat));
        Ok(data)
    }

    /// Reads the zero-terminated UTF-8 string behind `pointer`; the reader
    /// ends after the string's zero byte.
    pub fn read_c_string(&mut self, pointer: u32) -> (r: Result<String, XbeError>)
        ensures
            final(self).same_image(old(self)),
            match (r, spec_c_string(old(self).reader.data(), old(self).sections(), pointer)) {
                (Ok(s), Ok(t)) => s@ == t,
                (Err(e), Err(f)) => e == f,
                _ => false,
            },
    {
        match self.seek_pointer_offset(pointer) {
            Err(e) => {
                return Err(XbeError::Io(e));
            },
            Ok(_) => {},
        }
        let name_bytes = self.reader.read_until(0);
        let nlen: usize = name_bytes.len();
        if nlen == 0 || name_bytes[nlen - 1] != 0 {
            return Err(XbeError::NameNotTerminated);
        }
        let name_str = copy_range(name_bytes.as_slice(), 0, nlen - 1);
        assert(name_str@ =~= name_bytes@.drop_last());
        match string_from_utf8(name_str) {
            None => Err(XbeError::NameNotUtf8),
            Some(s) => Ok(s),
        }
    }

    /// Reads `count` little-endian `u32` values at `offset` inside the named
    /// section (a table of pointers, most often).
    pub fn read_u32_table(&mut self, section_name: &str, offset: u32, count: usize) -> (r: Result<
        Vec<u32>,
        IoError,
    >)
        ensures
            final(self).same_image(old(self)),
            match (
                r,
                spec_u32_table(
                    old(self).reader.data(),
                    old(self).names(),
                    old(self).sections(),
                    section_name@,
                    offset,
                    count as nat,
                ),
            ) {
                (Ok(v), Ok(w)) => v@ == w,
                (Err(e), Err(f)) => e == f,
                _ => false,
            },
    {
        match self.seek_section_offset(section_name, offset) {
            Err(e) => {
                return Err(e);
            },
            Ok(_) => {},
        }
        self.reader.read_u32_into(count)
    }

    /// Every section's hash matches the hash that the image states for it.
    pub fn is_valid(&self) -> (r: bool)
        ensures
            r == (forall|i: int|
                0 <= i < self.sections().len() ==> (#[trigger] self.sections()[i]).hash_actual
                    == self.sections()[i].hash_provided),
    {
        let mut i: usize = 0;
        while i < self.sections.len()
            invariant
                i <= self.sections@.len(),
                forall|j: int|
                    0 <= j < i ==> (#[trigger] self.sections()[j]).hash_actual
                        == self.sections()[j].hash_provided,
            decreases self.sections@.len() - i,
        {
            assert(self.sections()[i as int] == self.sections@[i as int]@);
            if !self.sections[i].is_hash_ok() {
                return false;
            }
            i = i + 1;
        }
        true
    }

    /// Reads an image. Once the magic and the 256 signature bytes are read,
    /// the signature is decrypted with the public key; it must decrypt to the
    /// 255 bytes whose last 20 are the header's hash, and the rest is read by
    /// `import_with_signature`.
    pub fn import(data: Vec<u8>) -> (r: Result<Self, XbeError>)
        ensures
            data@.len() < 4 ==> r == Err::<Self, XbeError>(XbeError::Io(IoError::UnexpectedEof)),
            data@.len() >= 4 && data@.subrange(0, 4) != XBE_MAGIC@ ==> r == Err::<
                Self,
                XbeError,
            >(XbeError::BadMagic),
            data@.len() >= 4 && data@.subrange(0, 4) == XBE_MAGIC@ && data@.len() < 260 ==> r
                == Err::<Self, XbeError>(XbeError::Io(IoError::UnexpectedEof)),
            data@.len() >= 260 && data@.subrange(0, 4) == XBE_MAGIC@ ==> {
                let sig = be_bytes(
                    (pow(le_nat(data@.subrange(4, 260)) as int, le_nat(XBE_PUBLIC_KEY_EXPONENT@))
                        % (le_nat(XBE_PUBLIC_KEY_MODULUS@) as int)) as nat,
                );
                &&& sig.len() != 255 ==> r == Err::<Self, XbeError>(XbeError::BadSignatureLength)
                &&& sig.len() == 255 ==> match (r, spec_import_rest(data@, sig)) {
                    (Ok(x), Ok(p)) => x.parts() == p && x.reader.data() == data@ && x.reader.pos() == 0 && x.wf(),
                    (Err(e), Err(f)) => e == f,
                    _ => false,
                }
            },
    {
        if data.len() < 4 {
            return Err(XbeError::Io(IoError::UnexpectedEof));
        }
        if !(data[0] == XBE_MAGIC[0] && data[1] == XBE_MAGIC[1] && data[2] == XBE_MAGIC[2]
            && data[3] == XBE_MAGIC[3]) {
            proof {
                assert(data@.subrange(0, 4) != XBE_MAGIC@) by {
                    if data@.subrange(0, 4) == XBE_MAGIC@ {
                        assert(data@.subrange(0, 4)[0] == data@[0]);
                        assert(data@.subrange(0, 4)[1] == data@[1]);
                        assert(data@.subrange(0, 4)[2] == data@[2]);
                        assert(data@.subrange(0, 4)[3] == data@[3]);
                    }
                }
            }
            return Err(XbeError::BadMagic);
        }
        assert(data@.subrange(0, 4) =~= XBE_MAGIC@);
        if data.len() < 260 {
            return Err(XbeError::Io(IoError::UnexpectedEof));
        }
        let unsigned_signature = copy_range(data.as_slice(), 4, 260);
        proof {
            lemma_le_nat_first(XBE_PUBLIC_KEY_MODULUS@);
        }
        let signature = modpow_le(
            unsigned_signature.as_slice(),
            XBE_PUBLIC_KEY_EXPONENT.as_slice(),
            XBE_PUBLIC_KEY_MODULUS.as_slice(),
        );
        if signature.len() != 255 {
            return Err(XbeError::BadSignatureLength);
        }
        Self::import_with_signature(data, signature)
    }

    /// Reads an image whose magic and signature were checked, given the
    /// decrypted signature.
    #[verifier::rlimit(40)]
    pub fn import_with_signature(data: Vec<u8>, signature: Vec<u8>) -> (r: Result<Self, XbeError>)
        requires
            data@.len() >= 260,
            signature@.len() == 255,
        ensures
            match (r, spec_import_rest(data@, signature@)) {
                (Ok(x), Ok(p)) => x.parts() == p && x.reader.data() == data@ && x.reader.pos() == 0 && x.wf(),
                (Err(e), Err(f)) => e == f,
                _ => false,
            },
    {
        if data.len() < 0x124 {
            return Err(XbeError::Io(IoError::UnexpectedEof));
        }
        let header_addr: u32 = read_u32_le(data.as_slice(), 0x104);
        let header_size: u32 = read_u32_le(data.as_slice(), 0x108);
        let certificate_address: u32 = read_u32_le(data.as_slice(), 0x118);
        let section_count: u32 = read_u32_le(data.as_slice(), 0x11C);
        let section_address: u32 = read_u32_le(data.as_slice(), 0x120);

        if header_size < XBE_HEADER_SHA_OFFSET {
            return Err(XbeError::Io(IoError::ShortSection));
        }
        let hash = match hash_range(data.as_slice(), 260, header_size - XBE_HEADER_SHA_OFFSET) {
            None => {
                return Err(XbeError::Io(IoError::ShortSection));
            },
            Some(h) => h,
        };
        // The last 20 bytes of the signature carry the provided hash.
        let provided = copy_range(signature.as_slice(), 235, 255);
        let header_section = Section {
            vaddr: header_addr,
            vsize: header_size,
            faddr: 0,
            fsize: header_size,
            hash_provided: provided,
            hash_actual: hash,
        };
        let mut names: Vec<String> = Vec::new();
        names.push(String::from_str("headers"));
        let mut sections: Vec<Section> = Vec::new();
        sections.push(header_section);
        let ghost names0 = names@.map_values(|s: String| s@);
        let ghost secs0 = views(sections@);
        assert(names0 =~= seq!["headers"@]);
        assert(secs0 =~= seq![header_section@]);

        // The title id.
        let title_offset = match pointer_offset_in(&sections, certificate_address.wrapping_add(8)) {
            Err(e) => {
                return Err(XbeError::Io(e));
            },
            Ok(o) => o,
        };
        assert(certificate_address.wrapping_add(8) == ((certificate_address + 8) % 0x1_0000_0000) as u32);
        if title_offset > data.len() as u64 || (data.len() as u64) - title_offset < 4 {
            return Err(XbeError::Io(IoError::UnexpectedEof));
        }
        let title_id: u32 = read_u32_le(data.as_slice(), title_offset as usize);

        // The section table.
        let table = match pointer_offset_in(&sections, section_address) {
            Err(e) => {
                return Err(XbeError::Io(e));
            },
            Ok(o) => o,
        };
        if table > data.len() as u64 || (data.len() as u64) - table < 56 * (section_count as u64) {
            return Err(XbeError::Io(IoError::UnexpectedEof));
        }
        let table: usize = table as usize;
        let count: usize = section_count as usize;

        match Self::parse_table(&data, table, count, &mut names, &mut sections) {
            Err(err) => {
                return Err(err);
            },
            Ok(()) => {},
        }
        Ok(XBE { title_id, reader: ByteReader::new(data), names, sections })
    }

    /// Reads the `count` entries of the section table at `table`.
    fn parse_table(
        data: &Vec<u8>,
        table: usize,
        count: usize,
        names: &mut Vec<String>,
        sections: &mut Vec<Section>,
    ) -> (r: Result<(), XbeError>)
        requires
            table + 56 * count <= data@.len(),
            old(names)@.len() == old(sections)@.len(),
        ensures
            match (
                r,
                parse_entries(
                    data@,
                    table as int,
                    count as nat,
                    old(names)@.map_values(|s: String| s@),
                    views(old(sections)@),
                ),
            ) {
                (Ok(()), Ok(p)) => p == (final(names)@.map_values(|s: String| s@), views(
                    final(sections)@,
                )) && final(names)@.len() == final(sections)@.len(),
                (Err(x), Err(y)) => x == y,
                _ => false,
            },
    {
        let ghost names0 = names@.map_values(|s: String| s@);
        let ghost secs0 = views(sections@);
        let n: usize = data.len();
        let mut i: usize = 0;
        while i < count
            invariant
                table + 56 * count <= data@.len(),
                data@.len() == n,
                names0 == old(names)@.map_values(|s: String| s@),
                secs0 == views(old(sections)@),
                i <= count,
                names@.len() == sections@.len(),
                parse_entries(data@, table as int, i as nat, names0, secs0) == Ok::<
                    (Seq<Seq<char>>, Seq<SectionView>),
                    XbeError,
                >((names@.map_values(|s: String| s@), views(sections@))),
            decreases count - i,
        {
            assert(56 * i + 56 <= 56 * count) by (nonlinear_arith)
                requires
                    i < count,
            ;
            assert(table + 56 * i + 56 <= n);
            let e: usize = table + 56 * i;
            let ghost pre = (names@.map_values(|s: String| s@), views(sections@));
            let r = Self::add_entry(data, e, names, sections);
            assert(parse_entries(data@, table as int, (i + 1) as nat, names0, secs0) == parse_entry(
                data@,
                table + 56 * i,
                pre.0,
                pre.1,
            ));
            match r {
                Err(err) => {
                    assert(parse_entry(data@, table + 56 * i, pre.0, pre.1) == Err::<(Seq<Seq<char>>, Seq<SectionView>), XbeError>(err));
                    assert(parse_entries(data@, table as int, (i + 1) as nat, names0, secs0) is Err);
                    proof {
                        lemma_parse_entries_err(data@, table as int, (i + 1) as nat, count as nat, names0, secs0);
                    }
                    return Err(err);
                },
                Ok(()) => {},
            }
            i = i + 1;
        }
        Ok(())
    }

    /// Reads the section table entry at `e` and adds its section.
    fn add_entry(data: &Vec<u8>, e: usize, names: &mut Vec<String>, sections: &mut Vec<Section>) -> (r: Result<(), XbeError>)
        requires
            e + 56 <= data@.len(),
            old(names)@.len() == old(sections)@.len(),
        ensures
            match (r, parse_entry(data@, e as int, old(names)@.map_values(|s: String| s@), views(old(sections)@))) {
                (Ok(()), Ok(p)) => p == (final(names)@.map_values(|s: String| s@), views(final(sections)@))
                    && final(names)@.len() == final(sections)@.len(),
                (Err(x), Err(y)) => x == y,
                _ => false,
            },
    {
        reveal(parse_entry);
        let n: usize = data.len();
        let name_address: u32 = read_u32_le(data.as_slice(), e + 20);
        let noff = match pointer_offset_in(sections, name_address) {
            Err(err) => {
                return Err(XbeError::Io(err));
            },
            Ok(o) => o,
        };
        let name_bytes: Vec<u8> = if noff >= data.len() as u64 {
            Vec::new()
        } else {
            let end: usize = find_after_delim(data.as_slice(), noff as usize, 0);
            copy_range(data.as_slice(), noff as usize, end)
        };
        let nlen: usize = name_bytes.len();
        if nlen == 0 || name_bytes[nlen - 1] != 0 {
            return Err(XbeError::NameNotTerminated);
        }
        let name_str = copy_range(name_bytes.as_slice(), 0, nlen - 1);
        assert(name_str@ =~= name_bytes@.drop_last());
        let name = match string_from_utf8(name_str) {
            None => {
                return Err(XbeError::NameNotUtf8);
            },
            Some(s) => s,
        };
        let faddr: u32 = read_u32_le(data.as_slice(), e + 12);
        let fsize: u32 = read_u32_le(data.as_slice(), e + 16);
        let hash = match hash_range(data.as_slice(), faddr as u64, fsize) {
            None => {
                return Err(XbeError::Io(IoError::ShortSection));
            },
            Some(h) => h,
        };
        let section = Section {
            vaddr: read_u32_le(data.as_slice(), e + 4),
            vsize: read_u32_le(data.as_slice(), e + 8),
            faddr,
            fsize,
            hash_provided: copy_range(data.as_slice(), e + 36, e + 56),
            hash_actual: hash,
        };
        let ghost old_names = names@;
        let ghost old_secs = sections@;
        let k: usize = find_name(names, name.as_str());
        if k < names.len() {
            sections.set(k, section);
            assert(views(sections@) =~= views(old_secs).update(k as int, section@));
        } else {
            names.push(name);
            sections.push(section);
            assert(views(sections@) =~= views(old_secs).push(section@));
            assert(names@.map_values(|s: String| s@) =~= old_names.map_values(|s: String| s@).push(name@));
        }
        Ok(())
    }
}

/// `s` cut or padded with zero bytes to `n` bytes.
pub open spec fn resized(s: Seq<u8>, n: nat) -> Seq<u8> {
    if n <= s.len() {
        s.subrange(0, n as int)
    } else {
        s + Seq::new((n - s.len()) as nat, |i: int| 0u8)
    }
}

/// The named section's stored bytes, padded with zeros (or cut) to its size in memory.
pub open spec fn spec_section_data(
    data: Seq<u8>,
    names: Seq<Seq<char>>,
    secs: Seq<SectionView>,
    name: Seq<char>,
) -> Result<Seq<u8>, IoError> {
    let k = name_index(names, name, 0);
    if k >= names.len() || k >= secs.len() {
        Err(IoError::SectionNotFound)
    } else {
        let s = secs[k];
        let chunk = clipped(data, s.faddr as int, s.faddr + s.fsize);
        if chunk.len() != s.fsize {
            Err(IoError::ShortSection)
        } else {
            Ok(resized(chunk, s.vsize as nat))
        }
    }
}

/// The zero-terminated UTF-8 string behind a pointer.
pub open spec fn spec_c_string(data: Seq<u8>, secs: Seq<SectionView>, pointer: u32) -> Result<
    Seq<char>,
    XbeError,
> {
    match spec_pointer_offset(secs, pointer) {
        Err(e) => Err(XbeError::Io(e)),
        Ok(o) => {
            let nb = c_string_bytes(data, o as int);
            if nb.len() == 0 || nb.last() != 0 {
                Err(XbeError::NameNotTerminated)
            } else if !valid_utf8(nb.drop_last()) {
                Err(XbeError::NameNotUtf8)
            } else {
                Ok(decode_utf8(nb.drop_last()))
            }
        },
    }
}

/// `count` little-endian `u32` values at `offset` inside the named section.
pub open spec fn spec_u32_table(
    data: Seq<u8>,
    names: Seq<Seq<char>>,
    secs: Seq<SectionView>,
    name: Seq<char>,
    offset: u32,
    count: nat,
) -> Result<Seq<u32>, IoError> {
    match spec_section_offset(names, secs, name, offset) {
        Err(e) => Err(e),
        Ok(p) => if p + 4 * count > data.len() {
            Err(IoError::UnexpectedEof)
        } else {
            Ok(le32_seq(data, p as int, count))
        },
    }
}

/// A little-endian number is at least its first byte.
pub proof fn lemma_le_nat_first(s: Seq<u8>)
    requires
        s.len() > 0,
    ensures
        le_nat(s) >= s[0],
{
}

} // verus!
