//! Readers and writers shared by the tools of both titles: length-prefixed
//! strings for the engine's asset files, and the offset/length pairs of
//! file tables.
pub mod bin;
pub mod eff;
pub mod gltf_layout;
pub mod lmt;
pub mod lsq;
pub mod obj;
pub mod ppd;
pub mod swizzle;
pub mod text;
pub mod xact;
pub mod stg;
pub mod x86;
pub mod xpr;
pub mod xbe;
pub mod xbo;
pub mod xsb;

use vstd::prelude::*;

use vstd::utf8::encode_utf8;

use crate::bytes::{bytes32, le32, push_bytes, push_u32_le, read_u32_le};

verus! {

/// Appends the UTF-8 bytes of `pstr` prefixed with their count as a
/// little-endian `u32`.
pub fn write_pascal_string(pstr: &str, writer: &mut Vec<u8>)
    ensures
        final(writer)@ == old(writer)@ + bytes32((encode_utf8(pstr@).len() as u32) as nat)
            + encode_utf8(pstr@),
{
    let bytes: &[u8] = pstr.as_bytes();
    push_u32_le(writer, bytes.len() as u32);
    push_bytes(writer, bytes);
}

/// Writes the string, or an empty string when there is none.
pub fn write_pascal_option_string(pstr_option: Option<&str>, writer: &mut Vec<u8>)
    ensures
        final(writer)@ == old(writer)@ + match pstr_option {
            Some(s) => bytes32((encode_utf8(s@).len() as u32) as nat) + encode_utf8(s@),
            None => bytes32(0),
        },
{
    match pstr_option {
        Some(s) => write_pascal_string(s, writer),
        None => {
            write_pascal_string("", writer);
            proof {
                reveal_strlit("");
                assert(""@ =~= Seq::<char>::empty());
                assert(encode_utf8(Seq::<char>::empty()) =~= Seq::<u8>::empty()) by {
                    reveal_with_fuel(encode_utf8, 1);
                }
            }
        },
    }
}

/// The bytes of a length-prefixed string (see `write_pascal_string`).
pub open spec fn pascal_bytes(s: Seq<char>) -> Seq<u8> {
    bytes32((encode_utf8(s).len() as u32) as nat) + encode_utf8(s)
}

/// The bytes of a path for the engine (see `write_godot_path`).
pub open spec fn godot_bytes(path: Seq<char>) -> Seq<u8> {
    pascal_bytes(godot_path(path))
}

/// A path is rooted when it starts with `/`.
pub open spec fn has_root(path: Seq<char>) -> bool {
    path.len() > 0 && path[0] == '/'
}

/// The text of a path as the engine reads it: rooted paths are put under `res://`.
pub open spec fn godot_path(path: Seq<char>) -> Seq<char> {
    if has_root(path) {
        "res://"@ + path
    } else {
        path
    }
}

/// Writes a path for the engine: a rooted path is put under `res://`.
pub fn write_godot_path(path: &str, writer: &mut Vec<u8>)
    ensures
        final(writer)@ == old(writer)@ + bytes32(
            (encode_utf8(godot_path(path@)).len() as u32) as nat,
        ) + encode_utf8(godot_path(path@)),
{
    let rooted: bool = path.unicode_len() > 0 && path.get_char(0) == '/';
    if rooted {
        let mut path_string = String::from_str("res://");
        path_string.append(path);
        write_pascal_string(path_string.as_str(), writer);
    } else {
        write_pascal_string(path, writer);
    }
}

/// Writes a path for the engine, or a zero length when there is none.
pub fn write_godot_option_path(path_option: Option<&str>, writer: &mut Vec<u8>)
    ensures
        final(writer)@ == old(writer)@ + match path_option {
            Some(p) => bytes32(
                (encode_utf8(godot_path(p@)).len() as u32) as nat,
            ) + encode_utf8(godot_path(p@)),
            None => bytes32(0),
        },
{
    match path_option {
        Some(path) => write_godot_path(path, writer),
        None => push_u32_le(writer, 0),
    }
}

pub const FILE_VEC_SIZE: usize = 8;

/// The end of the file slice whose offset and length are the little-endian
/// `u32` values at `at` and `at + 4` of `b`: their sum, or the largest
/// `usize` where the sum does not fit.
pub open spec fn slice_end(b: Seq<u8>, at: int) -> nat {
    if le32(b, at) + le32(b, at + 4) <= usize::MAX {
        le32(b, at) + le32(b, at + 4)
    } else {
        usize::MAX as nat
    }
}

/// Where a file lies inside an archive: its offset and its length.
pub struct FileSlice {
    offset: usize,
    length: usize,
}

impl FileSlice {
    pub closed spec fn spec_offset(&self) -> nat {
        self.offset as nat
    }

    pub closed spec fn spec_length(&self) -> nat {
        self.length as nat
    }

    /// The end does not overflow.
    #[verifier::type_invariant]
    spec fn fits(&self) -> bool {
        self.offset + self.length <= usize::MAX
    }

    /// Reads the offset and the length, both little-endian `u32`, from 8 bytes.
    /// (Where `usize` has 32 bits and the end would not fit, the length is cut
    /// so that the end is the largest `usize`; with 64 bits that never happens.)
    pub fn from(buf: &[u8]) -> (r: Self)
        requires
            buf@.len() == 8,
        ensures
            r.spec_offset() == le32(buf@, 0),
            le32(buf@, 0) + le32(buf@, 4) <= usize::MAX ==> r.spec_length() == le32(buf@, 4),
            le32(buf@, 0) + le32(buf@, 4) > usize::MAX ==> r.spec_length() == usize::MAX - le32(buf@, 0),
    {
        let offset: u32 = read_u32_le(buf, 0);
        let length: u32 = read_u32_le(buf, 4);
        let offset: usize = offset as usize;
        let length: usize = if length as usize <= usize::MAX - offset {
            length as usize
        } else {
            usize::MAX - offset
        };
        FileSlice { offset, length }
    }

    pub fn offset(&self) -> (r: usize)
        ensures
            r == self.spec_offset(),
    {
        self.offset
    }

    pub fn length(&self) -> (r: usize)
        ensures
            r == self.spec_length(),
    {
        self.length
    }

    pub fn get_end(&self) -> (r: usize)
        ensures
            r == self.spec_offset() + self.spec_length(),
    {
        proof {
            use_type_invariant(self);
        }
        self.offset + self.length
    }

    /// Moves the end to `end`; an end before the offset is ignored.
    pub fn set_end(&mut self, end: usize)
        ensures
            final(self).spec_offset() == old(self).spec_offset(),
            end >= old(self).spec_offset() ==> final(self).spec_length() == end - old(self).spec_offset(),
            end < old(self).spec_offset() ==> final(self).spec_length() == old(self).spec_length(),
    {
        if end >= self.offset {
            self.length = end - self.offset;
        }
    }

    /// The range `offset..offset + length`.
    pub fn as_range(&self) -> (r: core::ops::Range<usize>)
        ensures
            r.start == self.spec_offset(),
            r.end == self.spec_offset() + self.spec_length(),
    {
        proof {
            use_type_invariant(self);
        }
        core::ops::Range { start: self.offset, end: self.offset + self.length }
    }

    /// Reads the slice stored at `at` in `buf`.
    pub fn from_at(buf: &[u8], at: usize) -> (r: Self)
        requires
            at + 8 <= buf@.len(),
        ensures
            r.spec_offset() == le32(buf@, at as int),
            r.spec_offset() + r.spec_length() == slice_end(buf@, at as int),
    {
        let n: usize = buf.len();
        assert(at + 8 <= n);
        let entry = crate::bytes::copy_range(buf, at, at + 8);
        assert(le32(entry@, 0) == le32(buf@, at as int));
        assert(le32(entry@, 4) == le32(buf@, at + 4));
        FileSlice::from(entry.as_slice())
    }

    /// Bytes that a table of `file_count` entries takes.
    pub fn buffer_size(file_count: u32) -> (r: usize)
        requires
            file_count * FILE_VEC_SIZE <= usize::MAX,
        ensures
            r == file_count * FILE_VEC_SIZE,
    {
        file_count as usize * FILE_VEC_SIZE
    }

    /// Reads a table of entries; its length must be a multiple of 8.
    pub fn from_bytes(buf: &[u8]) -> (r: Vec<FileSlice>)
        requires
            buf@.len() % 8 == 0,
        ensures
            r@.len() == buf@.len() / 8,
            forall|i: int|
                0 <= i < r@.len() ==> (#[trigger] r@[i]).spec_offset() == le32(buf@, 8 * i)
                    && (le32(buf@, 8 * i) + le32(buf@, 8 * i + 4) <= usize::MAX ==> r@[i].spec_length() == le32(buf@, 8 * i + 4))
                    && (le32(buf@, 8 * i) + le32(buf@, 8 * i + 4) > usize::MAX ==> r@[i].spec_offset() + r@[i].spec_length() == usize::MAX),
    {
        let n: usize = buf.len();
        let count: usize = n / FILE_VEC_SIZE;
        let mut files: Vec<FileSlice> = Vec::with_capacity(count);
        let mut i: usize = 0;
        while i < count
            invariant
                count == buf@.len() / 8,
                n == buf@.len(),
                buf@.len() % 8 == 0,
                i <= count,
                files@.len() == i,
                forall|j: int|
                    0 <= j < i ==> (#[trigger] files@[j]).spec_offset() == le32(buf@, 8 * j)
                        && (le32(buf@, 8 * j) + le32(buf@, 8 * j + 4) <= usize::MAX ==> files@[j].spec_length() == le32(buf@, 8 * j + 4))
                        && (le32(buf@, 8 * j) + le32(buf@, 8 * j + 4) > usize::MAX ==> files@[j].spec_offset() + files@[j].spec_length() == usize::MAX),
            decreases count - i,
        {
            assert(8 * i + 8 <= buf@.len()) by (nonlinear_arith)
                requires
                    i < count,
                    count == buf@.len() / 8,
                    buf@.len() % 8 == 0,
            ;
            let entry = crate::bytes::copy_range(buf, 8 * i, 8 * i + 8);
            let f = FileSlice::from(entry.as_slice());
            assert(le32(entry@, 0) == le32(buf@, 8 * i));
            assert(le32(entry@, 4) == le32(buf@, 8 * i + 4));
            files.push(f);
            i = i + 1;
        }
        files
    }
}

} // verus!
