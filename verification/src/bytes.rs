//! Little-endian integer encoding on byte sequences.
//!
//! The decoding and encoding themselves are done by `byteorder`; the wrappers
//! below state what each call returns as arithmetic over the bytes.
use vstd::prelude::*;

use byteorder::{ByteOrder, LittleEndian, WriteBytesExt};
use vstd::utf8::{decode_utf8, valid_utf8};

verus! {

/// Value of the two bytes of `s` that start at `i`, least significant first.
pub open spec fn le16(s: Seq<u8>, i: int) -> nat {
    (s[i] + 256 * s[i + 1]) as nat
}

/// Value of the three bytes of `s` that start at `i`, least significant first.
pub open spec fn le24(s: Seq<u8>, i: int) -> nat {
    (le16(s, i) + 65536 * s[i + 2]) as nat
}

/// Value of the four bytes of `s` that start at `i`, least significant first.
pub open spec fn le32(s: Seq<u8>, i: int) -> nat {
    (le16(s, i) + 65536 * le16(s, i + 2)) as nat
}

/// Value of the six bytes of `s` that start at `i`, least significant first.
pub open spec fn le48(s: Seq<u8>, i: int) -> nat {
    (le32(s, i) + 0x1_0000_0000 * le16(s, i + 4)) as nat
}

/// Value of the eight bytes of `s` that start at `i`, least significant first.
pub open spec fn le64(s: Seq<u8>, i: int) -> nat {
    (le32(s, i) + 0x1_0000_0000 * le32(s, i + 4)) as nat
}

/// The two bytes that encode `v` (taken modulo 2^16), least significant first.
pub open spec fn bytes16(v: nat) -> Seq<u8> {
    seq![(v % 256) as u8, ((v / 256) % 256) as u8]
}

/// The four bytes that encode `v` (taken modulo 2^32), least significant first.
pub open spec fn bytes32(v: nat) -> Seq<u8> {
    bytes16(v % 65536) + bytes16((v / 65536) % 65536)
}

/// The eight bytes that encode `v` (taken modulo 2^64), least significant first.
pub open spec fn bytes64(v: nat) -> Seq<u8> {
    bytes32(v % 0x1_0000_0000) + bytes32((v / 0x1_0000_0000) % 0x1_0000_0000)
}

pub proof fn lemma_le16_bound(s: Seq<u8>, i: int)
    requires
        0 <= i,
        i + 2 <= s.len(),
    ensures
        le16(s, i) < 0x1_0000,
{
}

pub proof fn lemma_le32_bound(s: Seq<u8>, i: int)
    requires
        0 <= i,
        i + 4 <= s.len(),
    ensures
        le32(s, i) < 0x1_0000_0000,
{
}

/// Decoding the bytes that `bytes16` produced gives the value back.
pub proof fn lemma_le16_of_bytes16(v: nat)
    requires
        v < 0x1_0000,
    ensures
        le16(bytes16(v), 0) == v,
        bytes16(v).len() == 2,
{
}

/// Decoding the bytes that `bytes32` produced gives the value back.
pub proof fn lemma_le32_of_bytes32(v: nat)
    requires
        v < 0x1_0000_0000,
    ensures
        le32(bytes32(v), 0) == v,
        bytes32(v).len() == 4,
{
    lemma_le16_of_bytes16(v % 65536);
    lemma_le16_of_bytes16((v / 65536) % 65536);
    let s = bytes32(v);
    assert(s[0] == bytes16(v % 65536)[0]);
    assert(s[1] == bytes16(v % 65536)[1]);
    assert(s[2] == bytes16((v / 65536) % 65536)[0]);
    assert(s[3] == bytes16((v / 65536) % 65536)[1]);
}

/// Encoding the value of two bytes gives the bytes back.
pub proof fn lemma_bytes16_of_le16(s: Seq<u8>, i: int)
    requires
        0 <= i,
        i + 2 <= s.len(),
    ensures
        bytes16(le16(s, i)) == s.subrange(i, i + 2),
{
    assert(bytes16(le16(s, i)) =~= s.subrange(i, i + 2));
}

/// Encoding the value of four bytes gives the bytes back.
pub proof fn lemma_bytes32_of_le32(s: Seq<u8>, i: int)
    requires
        0 <= i,
        i + 4 <= s.len(),
    ensures
        bytes32(le32(s, i)) == s.subrange(i, i + 4),
{
    lemma_bytes16_of_le16(s, i);
    lemma_bytes16_of_le16(s, i + 2);
    assert(le32(s, i) % 65536 == le16(s, i));
    assert((le32(s, i) / 65536) % 65536 == le16(s, i + 2));
    assert(bytes32(le32(s, i)) =~= s.subrange(i, i + 4));
}

/// Calls `LittleEndian::read_u16` of byteorder on `buf[off..off + 2]`:
/// the result is the little-endian value of those two bytes.
#[verifier::external_body]
pub(crate) fn read_u16_le(buf: &[u8], off: usize) -> (r: u16)
    requires
        off + 2 <= buf@.len(),
    ensures
        r == le16(buf@, off as int),
{
    LittleEndian::read_u16(&buf[off..off + 2])
}

/// Calls `LittleEndian::read_u24` of byteorder on `buf[off..off + 3]`:
/// the result is the little-endian value of those three bytes.
#[verifier::external_body]
pub(crate) fn read_u24_le(buf: &[u8], off: usize) -> (r: u32)
    requires
        off + 3 <= buf@.len(),
    ensures
        r == le24(buf@, off as int),
{
    LittleEndian::read_u24(&buf[off..off + 3])
}

/// Calls `LittleEndian::read_u32` of byteorder on `buf[off..off + 4]`:
/// the result is the little-endian value of those four bytes.
#[verifier::external_body]
pub(crate) fn read_u32_le(buf: &[u8], off: usize) -> (r: u32)
    requires
        off + 4 <= buf@.len(),
    ensures
        r == le32(buf@, off as int),
{
    LittleEndian::read_u32(&buf[off..off + 4])
}

/// Calls `LittleEndian::read_u48` of byteorder on `buf[off..off + 6]`:
/// the result is the little-endian value of those six bytes.
#[verifier::external_body]
pub(crate) fn read_u48_le(buf: &[u8], off: usize) -> (r: u64)
    requires
        off + 6 <= buf@.len(),
    ensures
        r == le48(buf@, off as int),
{
    LittleEndian::read_u48(&buf[off..off + 6])
}

/// Calls `LittleEndian::read_u64` of byteorder on `buf[off..off + 8]`:
/// the result is the little-endian value of those eight bytes.
#[verifier::external_body]
pub(crate) fn read_u64_le(buf: &[u8], off: usize) -> (r: u64)
    requires
        off + 8 <= buf@.len(),
    ensures
        r == le64(buf@, off as int),
{
    LittleEndian::read_u64(&buf[off..off + 8])
}

/// Calls `LittleEndian::read_i16` of byteorder on `buf[off..off + 2]`:
/// the result is the two's complement reading of the little-endian value.
#[verifier::external_body]
pub(crate) fn read_i16_le(buf: &[u8], off: usize) -> (r: i16)
    requires
        off + 2 <= buf@.len(),
    ensures
        r == (le16(buf@, off as int) as u16) as i16,
{
    LittleEndian::read_i16(&buf[off..off + 2])
}

/// Calls `LittleEndian::read_i32` of byteorder on `buf[off..off + 4]`:
/// the result is the two's complement reading of the little-endian value.
#[verifier::external_body]
pub(crate) fn read_i32_le(buf: &[u8], off: usize) -> (r: i32)
    requires
        off + 4 <= buf@.len(),
    ensures
        r == (le32(buf@, off as int) as u32) as i32,
{
    LittleEndian::read_i32(&buf[off..off + 4])
}

/// Calls `LittleEndian::write_u16` of byteorder on `buf[off..off + 2]`:
/// those two bytes become the encoding of `v`, the others stay.
#[verifier::external_body]
pub(crate) fn write_u16_at(buf: &mut Vec<u8>, off: usize, v: u16)
    requires
        off + 2 <= old(buf)@.len(),
    ensures
        final(buf)@ == old(buf)@.subrange(0, off as int) + bytes16(v as nat) + old(buf)@.subrange(
            off + 2,
            old(buf)@.len() as int,
        ),
{
    LittleEndian::write_u16(&mut buf[off..off + 2], v)
}

/// Calls `LittleEndian::write_u32` of byteorder on `buf[off..off + 4]`:
/// those four bytes become the encoding of `v`, the others stay.
#[verifier::external_body]
pub(crate) fn write_u32_at(buf: &mut Vec<u8>, off: usize, v: u32)
    requires
        off + 4 <= old(buf)@.len(),
    ensures
        final(buf)@ == old(buf)@.subrange(0, off as int) + bytes32(v as nat) + old(buf)@.subrange(
            off + 4,
            old(buf)@.len() as int,
        ),
{
    LittleEndian::write_u32(&mut buf[off..off + 4], v)
}

/// Calls `WriteBytesExt::write_u16::<LittleEndian>` of byteorder on a `Vec<u8>`,
/// which appends the two bytes that encode `v` (writing to a vector cannot fail).
#[verifier::external_body]
pub(crate) fn push_u16_le(w: &mut Vec<u8>, v: u16)
    ensures
        final(w)@ == old(w)@ + bytes16(v as nat),
{
    let _ = w.write_u16::<LittleEndian>(v);
}

/// Calls `WriteBytesExt::write_u32::<LittleEndian>` of byteorder on a `Vec<u8>`,
/// which appends the four bytes that encode `v` (writing to a vector cannot fail).
#[verifier::external_body]
pub(crate) fn push_u32_le(w: &mut Vec<u8>, v: u32)
    ensures
        final(w)@ == old(w)@ + bytes32(v as nat),
{
    let _ = w.write_u32::<LittleEndian>(v);
}

/// Calls `WriteBytesExt::write_u64::<LittleEndian>` of byteorder on a `Vec<u8>`,
/// which appends the eight bytes that encode `v` (writing to a vector cannot fail).
#[verifier::external_body]
pub(crate) fn push_u64_le(w: &mut Vec<u8>, v: u64)
    ensures
        final(w)@ == old(w)@ + bytes64(v as nat),
{
    let _ = w.write_u64::<LittleEndian>(v);
}

/// Appends the bytes of `s` to `w`.
pub fn push_bytes(w: &mut Vec<u8>, s: &[u8])
    ensures
        final(w)@ == old(w)@ + s@,
{
    let mut i: usize = 0;
    while i < s.len()
        invariant
            i <= s@.len(),
            w@ == old(w)@ + s@.subrange(0, i as int),
        decreases s@.len() - i,
    {
        w.push(s[i]);
        i = i + 1;
        assert(w@ =~= old(w)@ + s@.subrange(0, i as int));
    }
    assert(s@.subrange(0, s@.len() as int) =~= s@);
}

/// A copy of `buf[start..end]`.
pub fn copy_range(buf: &[u8], start: usize, end: usize) -> (r: Vec<u8>)
    requires
        start <= end <= buf@.len(),
    ensures
        r@ == buf@.subrange(start as int, end as int),
{
    let mut r: Vec<u8> = Vec::with_capacity(end - start);
    let mut i: usize = start;
    while i < end
        invariant
            start <= i <= end <= buf@.len(),
            r@ == buf@.subrange(start as int, i as int),
        decreases end - i,
    {
        r.push(buf[i]);
        i = i + 1;
        assert(r@ =~= buf@.subrange(start as int, i as int));
    }
    r
}


/// Calls `String::from_utf8` of std: the bytes decode when they are valid
/// UTF-8, into the characters that they encode.
#[verifier::external_body]
pub(crate) fn string_from_utf8(bytes: Vec<u8>) -> (r: Option<String>)
    ensures
        r is Some <==> valid_utf8(bytes@),
        r matches Some(s) ==> s@ == decode_utf8(bytes@),
{
    String::from_utf8(bytes).ok()
}

/// Calls `<str as PartialEq>::eq` of std: two strings are equal when they
/// hold the same characters.
#[verifier::external_body]
pub(crate) fn str_eq(a: &str, b: &str) -> (r: bool)
    ensures
        r == (a@ == b@),
{
    a == b
}

/// Errors of reads and seeks on in-memory data, and of lookups of file
/// positions inside an executable image.
#[derive(Debug, PartialEq, Eq, Structural, Clone, Copy)]
pub enum IoError {
    /// Fewer bytes were left than the read needed.
    UnexpectedEof,
    /// A relative seek would move before the start, or past the largest position.
    InvalidSeek,
    /// No section carries the requested name.
    SectionNotFound,
    /// The offset lies past the stored part of the section.
    OffsetOutsideSection,
    /// The pointer is zero.
    NullPointer,
    /// No section covers the pointer.
    PointerOutsideSections,
    /// The data ends before the stored part of the section does.
    ShortSection,
    /// The requested file index is past the end of the file table.
    InvalidFileIndex,
    /// The data does not start with the magic of its format.
    BadMagic,
    /// A tile map names a tile that is not there.
    InvalidTileMapValue,
}

/// Index one past the first `delim` at or after `start` in `s`, or `s.len()`
/// when no such byte follows.
pub open spec fn until_delim(s: Seq<u8>, start: int, delim: u8) -> int
    decreases s.len() - start,
{
    if start < 0 || start >= s.len() {
        s.len() as int
    } else if s[start] == delim {
        start + 1
    } else {
        until_delim(s, start + 1, delim)
    }
}

pub proof fn lemma_until_delim_bounds(s: Seq<u8>, start: int, delim: u8)
    requires
        0 <= start <= s.len(),
    ensures
        start <= until_delim(s, start, delim) <= s.len(),
        start < s.len() ==> start < until_delim(s, start, delim),
    decreases s.len() - start,
{
    if start < s.len() && s[start] != delim {
        lemma_until_delim_bounds(s, start + 1, delim);
    }
}

/// The bytes `s[start..end]` clipped to the end of `s` (empty when `start`
/// lies at or past the end).
pub open spec fn clipped(s: Seq<u8>, start: int, end: int) -> Seq<u8> {
    if start >= s.len() {
        Seq::empty()
    } else if end >= s.len() {
        s.subrange(start, s.len() as int)
    } else {
        s.subrange(start, end)
    }
}

/// Little-endian `u32` values of consecutive 4-byte groups of `s` starting at `start`.
pub open spec fn le32_seq(s: Seq<u8>, start: int, count: nat) -> Seq<u32> {
    Seq::new(count, |k: int| le32(s, start + 4 * k) as u32)
}

/// Index one past the first `delim` at or after `start`, or the length of
/// `data` when no such byte follows.
pub fn find_after_delim(data: &[u8], start: usize, delim: u8) -> (end: usize)
    requires
        start <= data@.len(),
    ensures
        end == until_delim(data@, start as int, delim),
        start <= end <= data@.len(),
{
    let len: usize = data.len();
    let mut i: usize = start;
    while i < len && data[i] != delim
        invariant
            len == data@.len(),
            start <= i <= len,
            until_delim(data@, start as int, delim) == until_delim(data@, i as int, delim),
        decreases len - i,
    {
        i = i + 1;
    }
    if i < len {
        i + 1
    } else {
        i
    }
}

/// A cursor over bytes held in memory: a stand-in for a buffered file
/// reader that can seek anywhere and reads until the data ends.
pub struct ByteReader {
    data: Vec<u8>,
    pos: u64,
}

impl ByteReader {
    /// The bytes being read.
    pub closed spec fn data(&self) -> Seq<u8> {
        self.data@
    }

    /// The current position.
    pub closed spec fn pos(&self) -> nat {
        self.pos as nat
    }

    pub fn new(data: Vec<u8>) -> (r: Self)
        ensures
            r.data() == data@,
            r.pos() == 0,
    {
        ByteReader { data, pos: 0 }
    }

    pub fn as_slice(&self) -> (s: &[u8])
        ensures
            s@ == self.data(),
    {
        self.data.as_slice()
    }

    pub fn len(&self) -> (n: usize)
        ensures
            n == self.data().len(),
    {
        self.data.len()
    }

    pub fn stream_position(&self) -> (p: u64)
        ensures
            p == self.pos(),
    {
        self.pos
    }

    /// Moves to the absolute position `pos` (which may lie past the end).
    pub fn seek(&mut self, pos: u64) -> (r: u64)
        ensures
            final(self).data() == old(self).data(),
            final(self).pos() == pos,
            r == pos,
    {
        self.pos = pos;
        pos
    }

    /// Moves by `offset` from the current position.
    pub fn seek_relative(&mut self, offset: i64) -> (r: Result<(), IoError>)
        ensures
            final(self).data() == old(self).data(),
            0 <= old(self).pos() + offset <= u64::MAX ==> r is Ok && final(self).pos() == old(self).pos() + offset,
            !(0 <= old(self).pos() + offset <= u64::MAX) ==> r == Err::<(), IoError>(
                IoError::InvalidSeek,
            ) && final(self).pos() == old(self).pos(),
    {
        if offset >= 0 {
            let o: u64 = offset as u64;
            if self.pos <= u64::MAX - o {
                self.pos = self.pos + o;
                Ok(())
            } else {
                Err(IoError::InvalidSeek)
            }
        } else {
            let o: u64 = (-(offset as i128)) as u64;
            if self.pos >= o {
                self.pos = self.pos - o;
                Ok(())
            } else {
                Err(IoError::InvalidSeek)
            }
        }
    }

    /// Reads exactly `n` bytes, or fails with `UnexpectedEof` (and does not
    /// move) when fewer are left.
    pub fn read_exact(&mut self, n: usize) -> (r: Result<Vec<u8>, IoError>)
        ensures
            final(self).data() == old(self).data(),
            old(self).pos() + n <= old(self).data().len() ==> r is Ok && r->Ok_0@ == old(self).data().subrange(old(self).pos() as int, old(self).pos() + n) && final(self).pos()
                == old(self).pos() + n,
            !(old(self).pos() + n <= old(self).data().len()) ==> r == Err::<Vec<u8>, IoError>(
                IoError::UnexpectedEof,
            ) && final(self).pos() == old(self).pos(),
    {
        let len: usize = self.data.len();
        if self.pos > len as u64 || (len - self.pos as usize) < n {
            return Err(IoError::UnexpectedEof);
        }
        let start: usize = self.pos as usize;
        let out = copy_range(self.data.as_slice(), start, start + n);
        self.pos = (start + n) as u64;
        Ok(out)
    }

    pub fn read_u8(&mut self) -> (r: Result<u8, IoError>)
        ensures
            final(self).data() == old(self).data(),
            old(self).pos() + 1 <= old(self).data().len() ==> r == Ok::<u8, IoError>(
                old(self).data()[old(self).pos() as int],
            ) && final(self).pos() == old(self).pos() + 1,
            !(old(self).pos() + 1 <= old(self).data().len()) ==> r == Err::<u8, IoError>(
                IoError::UnexpectedEof,
            ) && final(self).pos() == old(self).pos(),
    {
        if self.pos >= self.data.len() as u64 {
            return Err(IoError::UnexpectedEof);
        }
        let b: u8 = self.data[self.pos as usize];
        self.pos = self.pos + 1;
        Ok(b)
    }

    pub fn read_i8(&mut self) -> (r: Result<i8, IoError>)
        ensures
            final(self).data() == old(self).data(),
            old(self).pos() + 1 <= old(self).data().len() ==> r == Ok::<i8, IoError>(
                old(self).data()[old(self).pos() as int] as i8,
            ) && final(self).pos() == old(self).pos() + 1,
            !(old(self).pos() + 1 <= old(self).data().len()) ==> r == Err::<i8, IoError>(
                IoError::UnexpectedEof,
            ) && final(self).pos() == old(self).pos(),
    {
        match self.read_u8() {
            Ok(b) => Ok(b as i8),
            Err(e) => Err(e),
        }
    }

    pub fn read_u16(&mut self) -> (r: Result<u16, IoError>)
        ensures
            final(self).data() == old(self).data(),
            old(self).pos() + 2 <= old(self).data().len() ==> r == Ok::<u16, IoError>(
                le16(old(self).data(), old(self).pos() as int) as u16,
            ) && final(self).pos() == old(self).pos() + 2,
            !(old(self).pos() + 2 <= old(self).data().len()) ==> r == Err::<u16, IoError>(
                IoError::UnexpectedEof,
            ) && final(self).pos() == old(self).pos(),
    {
        if self.pos > self.data.len() as u64 || self.data.len() - (self.pos as usize) < 2 {
            return Err(IoError::UnexpectedEof);
        }
        let v: u16 = read_u16_le(self.data.as_slice(), self.pos as usize);
        self.pos = self.pos + 2;
        Ok(v)
    }

    pub fn read_u32(&mut self) -> (r: Result<u32, IoError>)
        ensures
            final(self).data() == old(self).data(),
            old(self).pos() + 4 <= old(self).data().len() ==> r == Ok::<u32, IoError>(
                le32(old(self).data(), old(self).pos() as int) as u32,
            ) && final(self).pos() == old(self).pos() + 4,
            !(old(self).pos() + 4 <= old(self).data().len()) ==> r == Err::<u32, IoError>(
                IoError::UnexpectedEof,
            ) && final(self).pos() == old(self).pos(),
    {
        if self.pos > self.data.len() as u64 || self.data.len() - (self.pos as usize) < 4 {
            return Err(IoError::UnexpectedEof);
        }
        let v: u32 = read_u32_le(self.data.as_slice(), self.pos as usize);
        self.pos = self.pos + 4;
        Ok(v)
    }

    pub fn read_i32(&mut self) -> (r: Result<i32, IoError>)
        ensures
            final(self).data() == old(self).data(),
            old(self).pos() + 4 <= old(self).data().len() ==> r == Ok::<i32, IoError>(
                (le32(old(self).data(), old(self).pos() as int) as u32) as i32,
            ) && final(self).pos() == old(self).pos() + 4,
            !(old(self).pos() + 4 <= old(self).data().len()) ==> r == Err::<i32, IoError>(
                IoError::UnexpectedEof,
            ) && final(self).pos() == old(self).pos(),
    {
        if self.pos > self.data.len() as u64 || self.data.len() - (self.pos as usize) < 4 {
            return Err(IoError::UnexpectedEof);
        }
        let v: i32 = read_i32_le(self.data.as_slice(), self.pos as usize);
        self.pos = self.pos + 4;
        Ok(v)
    }

    /// Reads up to `n` bytes: as many as are left, at most `n`.
    pub fn read_some(&mut self, n: usize) -> (r: Vec<u8>)
        ensures
            final(self).data() == old(self).data(),
            r@ == clipped(old(self).data(), old(self).pos() as int, old(self).pos() + n),
            final(self).pos() == old(self).pos() + r@.len(),
    {
        let len: usize = self.data.len();
        if self.pos >= len as u64 {
            return Vec::new();
        }
        let start: usize = self.pos as usize;
        let end: usize = if len - start < n {
            len
        } else {
            start + n
        };
        let out = copy_range(self.data.as_slice(), start, end);
        self.pos = end as u64;
        out
    }

    /// Reads until the end of the data or past the first `delim`, which is
    /// kept as the last byte.
    pub fn read_until(&mut self, delim: u8) -> (r: Vec<u8>)
        ensures
            final(self).data() == old(self).data(),
            old(self).pos() >= old(self).data().len() ==> r@ == Seq::<u8>::empty() && final(self).pos() == old(self).pos(),
            old(self).pos() < old(self).data().len() ==> r@ == old(self).data().subrange(
                old(self).pos() as int,
                until_delim(old(self).data(), old(self).pos() as int, delim),
            ) && final(self).pos() == until_delim(old(self).data(), old(self).pos() as int, delim),
    {
        let len: usize = self.data.len();
        if self.pos >= len as u64 {
            return Vec::new();
        }
        let start: usize = self.pos as usize;
        let end: usize = find_after_delim(self.data.as_slice(), start, delim);
        let out = copy_range(self.data.as_slice(), start, end);
        self.pos = end as u64;
        out
    }

    /// Reads `count` little-endian `u32` values, or fails with
    /// `UnexpectedEof` (and does not move) when fewer bytes are left.
    pub fn read_u32_into(&mut self, count: usize) -> (r: Result<Vec<u32>, IoError>)
        ensures
            final(self).data() == old(self).data(),
            old(self).pos() + 4 * count <= old(self).data().len() ==> r is Ok && r->Ok_0@
                == le32_seq(old(self).data(), old(self).pos() as int, count as nat) && final(self).pos() == old(self).pos() + 4 * count,
            !(old(self).pos() + 4 * count <= old(self).data().len()) ==> r == Err::<
                Vec<u32>,
                IoError,
            >(IoError::UnexpectedEof) && final(self).pos() == old(self).pos(),
    {
        let len: usize = self.data.len();
        if self.pos > len as u64 || (len - self.pos as usize) / 4 < count {
            return Err(IoError::UnexpectedEof);
        }
        let start: usize = self.pos as usize;
        let mut out: Vec<u32> = Vec::with_capacity(count);
        let mut k: usize = 0;
        while k < count
            invariant
                start + 4 * count <= len == self.data@.len(),
                k <= count,
                out@ =~= le32_seq(self.data@, start as int, k as nat),
            decreases count - k,
        {
            let v: u32 = read_u32_le(self.data.as_slice(), start + 4 * k);
            out.push(v);
            k = k + 1;
        }
        self.pos = (start + 4 * count) as u64;
        Ok(out)
    }
}


/// The outcome of reading a list, as plain values: `None` where the reader
/// rejects what it found, else the first error or the items.
pub open spec fn list_outcome<T>(r: Option<Result<Vec<T>, IoError>>) -> Option<Result<Seq<T>, IoError>> {
    match r {
        None => None,
        Some(Err(e)) => Some(Err(e)),
        Some(Ok(v)) => Some(Ok(v@)),
    }
}

/// `r` with the items of `a` read before it: a failure stays as it is.
pub open spec fn with_prefix<T>(a: Seq<T>, r: Option<Result<Seq<T>, IoError>>) -> Option<
    Result<Seq<T>, IoError>,
> {
    match r {
        Some(Ok(s)) => Some(Ok(a + s)),
        other => other,
    }
}

pub proof fn lemma_with_prefix_join<T>(a: Seq<T>, b: Seq<T>, r: Option<Result<Seq<T>, IoError>>)
    ensures
        with_prefix(a, with_prefix(b, r)) == with_prefix(a + b, r),
{
    match r {
        Some(Ok(s)) => {
            assert(a + (b + s) =~= (a + b) + s);
        },
        _ => {},
    }
}

pub proof fn lemma_with_prefix_empty_rest<T>(a: Seq<T>)
    ensures
        with_prefix(a, Some(Ok::<Seq<T>, IoError>(Seq::empty()))) == Some(Ok::<Seq<T>, IoError>(a)),
{
    assert(a + Seq::<T>::empty() =~= a);
}

/// Bytes appended after `acc` follow `w0 + acc`.
pub proof fn lemma_concat_step(w0: Seq<u8>, acc: Seq<u8>, b: Seq<u8>)
    ensures
        (w0 + acc) + b == w0 + (acc + b),
{
    vstd::seq_lib::lemma_concat_associative(w0, acc, b);
}

} // verus!
