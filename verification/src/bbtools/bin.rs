//! BIN archives: a count, a table of file offsets and lengths, and the files.
use vstd::prelude::*;

use crate::bbtools::{FileSlice, FILE_VEC_SIZE};
use crate::bytes::{clipped, le32, push_bytes, ByteReader, IoError};

verus! {

pub const BIN_MAGIC: [u8; 4] = [0x42, 0x49, 0x4e, 0x30];  // "BIN0"

/// An archive held in memory: its bytes and its file table.
pub struct BIN {
    reader: ByteReader,
    files: Vec<FileSlice>,
}

/// The offset and the end of entry `i` of a file table that starts at `at`.
pub open spec fn entry_offset(d: Seq<u8>, at: int, i: int) -> nat {
    le32(d, at + 8 * i)
}

/// The file table that starts at `pos` of `d`: the count, then that many
/// entries; `None` when the data ends first.
pub open spec fn table_fits(d: Seq<u8>, pos: int) -> bool {
    pos + 4 <= d.len() && pos + 4 + 8 * le32(d, pos) <= d.len()
}

impl BIN {
    /// The archive's bytes.
    pub closed spec fn data(&self) -> Seq<u8> {
        self.reader.data()
    }

    /// The file count.
    pub closed spec fn count(&self) -> nat {
        self.files@.len()
    }

    /// Where file `i` starts.
    pub closed spec fn file_offset(&self, i: int) -> nat {
        self.files@[i].spec_offset()
    }

    /// How long file `i` is.
    pub closed spec fn file_len(&self, i: int) -> nat {
        self.files@[i].spec_length()
    }

    /// `self` holds the table that starts at `pos` of `d`.
    pub open spec fn read_from(&self, d: Seq<u8>, pos: int) -> bool {
        &&& self.data() == d
        &&& self.count() == le32(d, pos)
        &&& forall|i: int|
            0 <= i < self.count() ==> #[trigger] self.file_offset(i) == entry_offset(d, pos + 4, i)
                && (entry_offset(d, pos + 4, i) + le32(d, pos + 4 + 8 * i + 4) <= usize::MAX
                ==> self.file_len(i) == le32(d, pos + 4 + 8 * i + 4))
                && (entry_offset(d, pos + 4, i) + le32(d, pos + 4 + 8 * i + 4) > usize::MAX
                ==> self.file_offset(i) + self.file_len(i) == usize::MAX)
    }

    /// Reads the file table at the reader's position.
    pub fn from_reader(reader: ByteReader) -> (r: Result<BIN, IoError>)
        ensures
            table_fits(reader.data(), reader.pos() as int) ==> (r matches Ok(b) && b.read_from(
                reader.data(),
                reader.pos() as int,
            )),
            !table_fits(reader.data(), reader.pos() as int) ==> r == Err::<BIN, IoError>(
                IoError::UnexpectedEof,
            ),
    {
        let mut reader = reader;
        let _n: usize = reader.len();
        let ghost d = reader.data();
        let ghost pos = reader.pos() as int;
        let file_count: u32 = match reader.read_u32() {
            Ok(v) => v,
            Err(e) => {
                return Err(e);
            },
        };
        if file_count as usize > usize::MAX / FILE_VEC_SIZE {
            return Err(IoError::UnexpectedEof);
        }
        let table = match reader.read_exact(FileSlice::buffer_size(file_count)) {
            Ok(t) => t,
            Err(e) => {
                return Err(e);
            },
        };
        let files = FileSlice::from_bytes(table.as_slice());
        let b = BIN { reader, files };
        assert forall|i: int| 0 <= i < b.count() implies #[trigger] b.file_offset(i) == entry_offset(d, pos + 4, i)
            && (entry_offset(d, pos + 4, i) + le32(d, pos + 4 + 8 * i + 4) <= usize::MAX
            ==> b.file_len(i) == le32(d, pos + 4 + 8 * i + 4))
            && (entry_offset(d, pos + 4, i) + le32(d, pos + 4 + 8 * i + 4) > usize::MAX
            ==> b.file_offset(i) + b.file_len(i) == usize::MAX) by {
            assert(le32(table@, 8 * i) == le32(d, pos + 4 + 8 * i));
            assert(le32(table@, 8 * i + 4) == le32(d, pos + 4 + 8 * i + 4));
        }
        Ok(b)
    }

    /// Reads an archive: the magic, then the file table.
    pub fn open(data: Vec<u8>) -> (r: Result<BIN, IoError>)
        ensures
            data@.len() < 4 ==> r == Err::<BIN, IoError>(IoError::UnexpectedEof),
            data@.len() >= 4 && data@.subrange(0, 4) != BIN_MAGIC@ ==> r == Err::<BIN, IoError>(
                IoError::BadMagic,
            ),
            data@.len() >= 4 && data@.subrange(0, 4) == BIN_MAGIC@ && !table_fits(data@, 4) ==> r
                == Err::<BIN, IoError>(IoError::UnexpectedEof),
            data@.len() >= 4 && data@.subrange(0, 4) == BIN_MAGIC@ && table_fits(data@, 4) ==> (r matches Ok(b)
                && b.read_from(data@, 4)),
    {
        let ghost d = data@;
        let mut reader = ByteReader::new(data);
        let magic = match reader.read_exact(4) {
            Ok(m) => m,
            Err(e) => {
                return Err(e);
            },
        };
        if !(magic[0] == BIN_MAGIC[0] && magic[1] == BIN_MAGIC[1] && magic[2] == BIN_MAGIC[2]
            && magic[3] == BIN_MAGIC[3]) {
            assert(magic@ != BIN_MAGIC@);
            return Err(IoError::BadMagic);
        }
        assert(magic@ =~= BIN_MAGIC@);
        BIN::from_reader(reader)
    }

    pub fn file_count(&self) -> (r: usize)
        ensures
            r == self.count(),
    {
        self.files.len()
    }

    pub fn file_length(&self, file_index: usize) -> (r: usize)
        requires
            file_index < self.count(),
        ensures
            r == self.file_len(file_index as int),
    {
        self.files[file_index].length()
    }

    /// Appends as much of the file as the data holds to `writer`, and tells
    /// whether that was all of it.
    pub fn copy_file(&mut self, file_index: usize, writer: &mut Vec<u8>) -> (r: Result<bool, IoError>)
        ensures
            final(self).data() == old(self).data(),
            final(self).count() == old(self).count(),
            forall|i: int| 0 <= i < old(self).count() ==> #[trigger] final(self).file_offset(i) == old(self).file_offset(i)
                && final(self).file_len(i) == old(self).file_len(i),
            file_index >= old(self).count() ==> r == Err::<bool, IoError>(IoError::InvalidFileIndex)
                && final(writer)@ == old(writer)@,
            file_index < old(self).count() ==> {
                let off = old(self).file_offset(file_index as int);
                let got = clipped(old(self).data(), off as int, (off + old(self).file_len(file_index as int)) as int);
                &&& final(writer)@ == old(writer)@ + got
                &&& r == Ok::<bool, IoError>(got.len() == old(self).file_len(file_index as int))
            },
    {
        if file_index >= self.files.len() {
            return Err(IoError::InvalidFileIndex);
        }
        let offset = self.files[file_index].offset();
        let length = self.files[file_index].length();
        self.reader.seek(offset as u64);
        let got = self.reader.read_some(length);
        push_bytes(writer, got.as_slice());
        Ok(got.len() == length)
    }

    /// The bytes of a file, or `UnexpectedEof` when the data ends first.
    pub fn file_as_bytes(&mut self, file_index: usize) -> (r: Result<Vec<u8>, IoError>)
        ensures
            final(self).data() == old(self).data(),
            final(self).count() == old(self).count(),
            forall|i: int| 0 <= i < old(self).count() ==> #[trigger] final(self).file_offset(i) == old(self).file_offset(i)
                && final(self).file_len(i) == old(self).file_len(i),
            file_index >= old(self).count() ==> r == Err::<Vec<u8>, IoError>(IoError::InvalidFileIndex),
            file_index < old(self).count() ==> {
                let off = old(self).file_offset(file_index as int);
                let end = (off + old(self).file_len(file_index as int)) as int;
                &&& end <= old(self).data().len() ==> (r matches Ok(v) && v@ == old(self).data().subrange(
                    off as int,
                    end,
                ))
                &&& end > old(self).data().len() ==> r == Err::<Vec<u8>, IoError>(IoError::UnexpectedEof)
            },
    {
        if file_index >= self.files.len() {
            return Err(IoError::InvalidFileIndex);
        }
        let offset = self.files[file_index].offset();
        let length = self.files[file_index].length();
        self.reader.seek(offset as u64);
        self.reader.read_exact(length)
    }
}

} // verus!
