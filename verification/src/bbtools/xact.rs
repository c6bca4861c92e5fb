//! Xbox audio banks: wave banks (XWB) that hold the tracks, and the WAV
//! files that the tracks are written as.
//!
//! ADPCM here is the Xbox's own ADPCM (format code 0x0069), not IMA ADPCM.
use vstd::prelude::*;

use crate::bbtools::{slice_end, FileSlice};
use crate::bytes::{
    bytes16, bytes32, copy_range, find_after_delim, le16, le32, push_bytes, push_u16_le,
    push_u32_le, read_u32_le, until_delim,
};
use vstd::utf8::{decode_utf8, valid_utf8};

verus! {

pub const RIFF_MAGIC: [u8; 4] = [0x52, 0x49, 0x46, 0x46];  // "RIFF"

pub const WAVE_MAGIC: [u8; 8] = [0x57, 0x41, 0x56, 0x45, 0x66, 0x6d, 0x74, 0x20];  // "WAVEfmt "

pub const DATA_MAGIC: [u8; 4] = [0x64, 0x61, 0x74, 0x61];  // "data"

pub const SMPL_MAGIC: [u8; 4] = [0x53, 0x4d, 0x50, 0x4c];  // "SMPL"

pub const SMPL_HEADER_SIZE: usize = 36;

pub const SMPL_LOOP_SIZE: usize = 24;

pub const TRACK_SIZE: usize = 24;

pub const XWB_MAGIC: [u8; 4] = [0x57, 0x42, 0x4e, 0x44];  // "WBND"

/// The result of `String::from_utf8_lossy` of std on `bytes`.
pub uninterp spec fn lossy_utf8(bytes: Seq<u8>) -> Seq<char>;

/// Calls `String::from_utf8_lossy` of std: valid UTF-8 decodes into the
/// characters it encodes; other bytes are replaced as std documents.
#[verifier::external_body]
pub(crate) fn utf8_lossy(bytes: &[u8]) -> (r: String)
    ensures
        r@ == lossy_utf8(bytes@),
        valid_utf8(bytes@) ==> r@ == decode_utf8(bytes@),
{
    String::from_utf8_lossy(bytes).into_owned()
}

/// The bytes of a NUL-terminated string that starts at `start` of `s`
/// (those before the first NUL).
pub open spec fn c_string_at(s: Seq<u8>, start: int) -> Seq<u8> {
    s.subrange(start, until_delim(s, start, 0) - 1)
}

/// A NUL follows `start` in `s`.
pub open spec fn has_nul_at(s: Seq<u8>, start: int) -> bool {
    let e = until_delim(s, start, 0);
    start < e && s[e - 1] == 0
}

/// Reads the NUL-terminated string at `start`, lossily decoded, or `None`
/// when no NUL follows.
pub fn read_c_string_at(s: &[u8], start: usize) -> (r: Option<String>)
    requires
        start <= s@.len(),
    ensures
        r is Some <==> has_nul_at(s@, start as int),
        r matches Some(t) ==> t@ == lossy_utf8(c_string_at(s@, start as int)),
{
    let e = find_after_delim(s, start, 0);
    proof {
        crate::bytes::lemma_until_delim_bounds(s@, start as int, 0);
    }
    if start < e && s[e - 1] == 0 {
        let bytes = copy_range(s, start, e - 1);
        Some(utf8_lossy(bytes.as_slice()))
    } else {
        None
    }
}

/// How a track's samples are encoded.
#[derive(PartialEq, Eq, Structural, Clone, Copy, Debug)]
pub enum Codec {
    PCM,
    ADPCM,
    WMA,
    Unknown,
}

pub open spec fn spec_codec(codec: u8) -> Codec {
    match codec {
        0 => Codec::PCM,
        1 => Codec::ADPCM,
        2 => Codec::WMA,
        _ => Codec::Unknown,
    }
}

pub open spec fn spec_wave_format_code(c: Codec) -> u16 {
    match c {
        Codec::PCM => 0x0001,
        Codec::ADPCM => 0x0069,
        _ => 0,
    }
}

impl Codec {
    pub fn from(codec: u8) -> (r: Self)
        ensures
            r == spec_codec(codec),
    {
        match codec {
            0 => Codec::PCM,
            1 => Codec::ADPCM,
            2 => Codec::WMA,
            _ => Codec::Unknown,
        }
    }

    /// The codec's name, as it is shown to users.
    pub fn name(&self) -> (r: &'static str)
        ensures
            *self == Codec::PCM ==> r@ == "PCM"@,
            *self == Codec::ADPCM ==> r@ == "ADPCM"@,
            *self == Codec::WMA ==> r@ == "WMA"@,
            *self == Codec::Unknown ==> r@ == "Unknown"@,
    {
        match self {
            Codec::PCM => "PCM",
            Codec::ADPCM => "ADPCM",
            Codec::WMA => "WMA",
            _ => "Unknown",
        }
    }

    /// The `wFormatTag` of the WAV header.
    pub fn wave_format_code(&self) -> (r: u16)
        ensures
            r == spec_wave_format_code(*self),
    {
        match self {
            Codec::PCM => 0x0001,
            Codec::ADPCM => 0x0069,
            _ => 0,
        }
    }

    /// The extension of the exported file.
    pub fn extension(&self) -> (r: &'static str)
        ensures
            *self == Codec::PCM ==> r@ == "wav"@,
            *self == Codec::ADPCM ==> r@ == "xwav"@,
            *self == Codec::WMA ==> r@ == "wma"@,
            *self == Codec::Unknown ==> r@ == ""@,
    {
        match self {
            Codec::PCM => "wav",
            Codec::ADPCM => "xwav",
            Codec::WMA => "wma",
            _ => "",
        }
    }
}

/// Errors of reading audio banks.
#[derive(Debug, PartialEq, Eq, Structural, Clone, Copy)]
pub enum XactError {
    BadMagic,
    BadVersion,
    UnknownFlags,
    TrackHeaderSizeIncorrect,
    TrackCountIncorrect,
    UnsupportedVersion,
    /// The last event of a sound that plays events is not a play event.
    LastEventNotPlay,
    /// A sound that plays events has none.
    NoEvents,
}

/// A track of a wave bank: its format, its samples and the region it loops.
pub struct Track {
    pub name: Option<String>,
    pub flags: u8,
    pub duration: u32,
    pub codec: Codec,
    pub channels: u16,
    pub samples_per_sec: u32,
    pub bits_per_sample: u16,
    pub data: Vec<u8>,
    pub loop_region: FileSlice,
}

/// Rust's integer division, which rounds towards zero.
pub open spec fn trunc_div(n: int, d: int) -> int {
    if n >= 0 {
        n / d
    } else {
        -((-n) / d)
    }
}

impl Track {
    pub open spec fn spec_name(&self) -> Option<Seq<char>> {
        match self.name {
            Some(n) => Some(n@),
            None => None,
        }
    }

    /// Bytes per sample frame.
    pub open spec fn spec_block_alignment(&self) -> int {
        self.channels * match self.codec {
            Codec::PCM => (self.bits_per_sample / 8) as int,
            Codec::ADPCM => self.bits_per_sample * 9,
            _ => 0int,
        }
    }

    /// Samples per ADPCM block (the ADPCM formula's `dw`).
    pub open spec fn spec_adpcm_samples(&self) -> int {
        let a = self.spec_block_alignment();
        let c = self.channels as int;
        trunc_div((a - 7 * c) * 8, 4 * c) + 2
    }

    pub open spec fn spec_avg_bytes_per_sec(&self) -> int {
        match self.codec {
            Codec::PCM => self.spec_block_alignment() * self.samples_per_sec,
            Codec::ADPCM => (self.samples_per_sec / (self.spec_adpcm_samples() as u32))
                * self.spec_block_alignment(),
            _ => 0,
        }
    }

    /// The header's arithmetic stays within its integer types, and an ADPCM
    /// track has channels and at least one sample per block.
    pub open spec fn header_ok(&self) -> bool {
        &&& self.bits_per_sample * 9 <= u16::MAX
        &&& 0 <= self.spec_block_alignment() <= u16::MAX
        &&& self.codec == Codec::ADPCM ==> self.channels > 0 && self.spec_adpcm_samples() > 0
        &&& 0 <= self.spec_avg_bytes_per_sec() <= u32::MAX
    }

    /// The `fmt ` chunk of the WAV file.
    #[verifier::opaque]
    pub open spec fn wave_header(&self) -> Seq<u8> {
        bytes16(spec_wave_format_code(self.codec) as nat) + bytes16(self.channels as nat) + bytes32(
            self.samples_per_sec as nat,
        ) + bytes32(self.spec_avg_bytes_per_sec() as nat) + bytes16(
            self.spec_block_alignment() as nat,
        ) + bytes16(self.bits_per_sample as nat) + if self.codec == Codec::ADPCM {
            bytes16(64) + seq![0u8, 0u8]
        } else {
            Seq::empty()
        }
    }

    /// The sampler chunk of the WAV file: empty when the track does not
    /// loop, else the sample period and one loop over the loop region.
    #[verifier::opaque]
    pub open spec fn smpl_block(&self) -> Seq<u8> {
        if self.loop_region.spec_length() == 0 {
            Seq::empty()
        } else {
            Seq::new(12, |i: int| 0u8) + bytes32((1000000000u32 / self.samples_per_sec) as nat)
                + Seq::new(12, |i: int| 0u8) + bytes32(1) + Seq::new(4, |i: int| 0u8) + Seq::new(
                8,
                |i: int| 0u8,
            ) + bytes32((self.loop_region.spec_offset() as u32) as nat) + bytes32(
                ((self.loop_region.spec_offset() + self.loop_region.spec_length()) as u32) as nat,
            ) + Seq::new(8, |i: int| 0u8)
        }
    }

    pub proof fn lemma_chunk_lens(&self)
        ensures
            self.wave_header().len() == if self.codec == Codec::ADPCM { 20int } else { 16int },
            self.smpl_block().len() == if self.loop_region.spec_length() == 0 { 0int } else { 60int },
    {
        reveal(Track::wave_header);
        reveal(Track::smpl_block);
    }

    /// The size in the RIFF header is the size of the WAV file less its
    /// first 8 bytes.
    pub proof fn lemma_riff_size(&self)
        ensures
            self.wav_bytes().len() == self.riff_size() + 8,
    {
        self.lemma_chunk_lens();
        lemma_riff_len(
            self.riff_size() as u32,
            self.wave_header(),
            self.data@,
            self.smpl_block(),
        );
    }

    /// The size that the RIFF header gives: the file less its first 8 bytes.
    pub open spec fn riff_size(&self) -> int {
        let base = 8 + 4 + self.wave_header().len() + 4 + 4 + self.data@.len() as int;
        if self.smpl_block().len() == 0 {
            base
        } else {
            base + 4 + 4 + self.smpl_block().len()
        }
    }

    /// The WAV file of the track.
    pub open spec fn wav_bytes(&self) -> Seq<u8> {
        riff_file(self.riff_size() as u32, self.wave_header(), self.data@, self.smpl_block())
    }

    /// The file that a track is exported as: WMA data as it is, the others
    /// as a WAV file.
    pub open spec fn file_bytes(&self) -> Seq<u8> {
        if self.codec == Codec::WMA {
            self.data@
        } else {
            self.wav_bytes()
        }
    }

    /// The track can be written: its header computes within its types, a
    /// looping track has a sample rate, and the sizes fit.
    pub open spec fn write_ok(&self) -> bool {
        self.codec != Codec::WMA ==> {
            &&& self.header_ok()
            &&& self.loop_region.spec_length() != 0 ==> self.samples_per_sec > 0
            &&& self.data@.len() + 128 <= usize::MAX
        }
    }

    /// Whether the track can be written (see `write_ok`).
    pub fn can_write(&self) -> (r: bool)
        ensures
            r == self.write_ok(),
    {
        if self.codec == Codec::WMA {
            return true;
        }
        let bits: u64 = self.bits_per_sample as u64;
        if bits * 9 > 0xFFFF {
            return false;
        }
        let per_channel: u64 = match self.codec {
            Codec::PCM => bits / 8,
            Codec::ADPCM => bits * 9,
            _ => 0,
        };
        let c: u64 = self.channels as u64;
        assert(c * per_channel <= 0xFFFF * 0xFFFF) by (nonlinear_arith)
            requires
                c <= 0xFFFF,
                per_channel <= 0xFFFF,
        ;
        let align: u64 = c * per_channel;
        assert(align == self.spec_block_alignment());
        if align > 0xFFFF {
            return false;
        }
        let sps: u64 = self.samples_per_sec as u64;
        let avg: u64 = match self.codec {
            Codec::PCM => {
                assert(align * sps <= 0xFFFF * 0xFFFF_FFFF) by (nonlinear_arith)
                    requires
                        align <= 0xFFFF,
                        sps <= 0xFFFF_FFFF,
                ;
                align * sps
            },
            Codec::ADPCM => {
                if c == 0 {
                    return false;
                }
                let a: i64 = align as i64;
                let ci: i64 = c as i64;
                let num: i64 = (a - 7 * ci) * 8;
                let den: i64 = 4 * ci;
                let q: i64 = if num >= 0 {
                    num / den
                } else {
                    -((-num) / den)
                };
                let dw: i64 = q + 2;
                assert(dw == self.spec_adpcm_samples());
                if dw <= 0 {
                    return false;
                }
                let d: u64 = dw as u64;
                let per: u64 = sps / d;
                assert(per <= sps) by (nonlinear_arith)
                    requires
                        per == sps / d,
                        d >= 1,
                ;
                assert(per * align <= 0xFFFF_FFFF * 0xFFFF) by (nonlinear_arith)
                    requires
                        per <= sps,
                        sps <= 0xFFFF_FFFF,
                        align <= 0xFFFF,
                ;
                per * align
            },
            _ => 0,
        };
        assert(avg == self.spec_avg_bytes_per_sec());
        if avg > 0xFFFF_FFFF {
            return false;
        }
        if self.loop_region.length() != 0 && self.samples_per_sec == 0 {
            return false;
        }
        self.data.len() <= usize::MAX - 128
    }

    pub fn get_block_alignment(&self) -> (r: u16)
        requires
            self.header_ok(),
        ensures
            r == self.spec_block_alignment(),
    {
        let per_channel: u16 = match self.codec {
            Codec::PCM => self.bits_per_sample / 8,
            Codec::ADPCM => self.bits_per_sample * 9,
            _ => 0,
        };
        assert(self.channels * per_channel == self.spec_block_alignment());
        self.channels * per_channel
    }

    pub fn get_avg_bytes_per_sec(&self) -> (r: u32)
        requires
            self.header_ok(),
        ensures
            r == self.spec_avg_bytes_per_sec(),
    {
        match self.codec {
            Codec::PCM => {
                let align: u32 = self.get_block_alignment() as u32;
                align * self.samples_per_sec
            },
            Codec::ADPCM => {
                let a: i32 = self.get_block_alignment() as i32;
                let c: i32 = self.channels as i32;
                let num: i32 = (a - 7 * c) * 8;
                let den: i32 = 4 * c;
                let q: i32 = if num >= 0 {
                    num / den
                } else {
                    -((-num) / den)
                };
                let dw: i32 = q + 2;
                let align: u32 = self.get_block_alignment() as u32;
                (self.samples_per_sec / dw as u32) * align
            },
            _ => 0,
        }
    }

    /// The `fmt ` chunk of the WAV file.
    pub fn get_wave_header(&self) -> (r: Vec<u8>)
        requires
            self.header_ok(),
        ensures
            r@ == self.wave_header(),
    {
        reveal(Track::wave_header);
        let mut buf: Vec<u8> = Vec::with_capacity(20);
        push_u16_le(&mut buf, self.codec.wave_format_code());
        push_u16_le(&mut buf, self.channels);
        push_u32_le(&mut buf, self.samples_per_sec);
        push_u32_le(&mut buf, self.get_avg_bytes_per_sec());
        push_u16_le(&mut buf, self.get_block_alignment());
        push_u16_le(&mut buf, self.bits_per_sample);
        let ghost base = buf@;
        if self.codec == Codec::ADPCM {
            // The extra size is overwritten by the nibbles per block, so the
            // last two bytes stay zero.
            push_u16_le(&mut buf, 64);
            buf.push(0);
            buf.push(0);
            assert(buf@ =~= base + (bytes16(64) + seq![0u8, 0u8]));
        } else {
            assert(buf@ =~= base + Seq::<u8>::empty());
        }
        buf
    }

    /// The sampler chunk of the WAV file.
    pub fn get_smpl_block(&self) -> (r: Vec<u8>)
        requires
            self.loop_region.spec_length() != 0 ==> self.samples_per_sec > 0,
        ensures
            r@ == self.smpl_block(),
    {
        reveal(Track::smpl_block);
        if self.loop_region.length() == 0 {
            return Vec::new();
        }
        let mut buf: Vec<u8> = Vec::with_capacity(SMPL_HEADER_SIZE + SMPL_LOOP_SIZE);
        push_zeros(&mut buf, 12);
        push_u32_le(&mut buf, 1000000000 / self.samples_per_sec);
        push_zeros(&mut buf, 12);
        push_u32_le(&mut buf, 1);
        push_zeros(&mut buf, 4);
        push_zeros(&mut buf, 8);
        push_u32_le(&mut buf, self.loop_region.offset() as u32);
        push_u32_le(&mut buf, self.loop_region.get_end() as u32);
        push_zeros(&mut buf, 8);
        assert(buf@ =~= self.smpl_block());
        buf
    }

    /// Appends the track's file to `writer` (see `file_bytes`) and returns
    /// the number of bytes written.
    pub fn write(&self, writer: &mut Vec<u8>) -> (r: usize)
        requires
            self.write_ok(),
        ensures
            final(writer)@ == old(writer)@ + self.file_bytes(),
            r == self.file_bytes().len(),
    {
        if self.codec == Codec::WMA {
            push_bytes(writer, self.data.as_slice());
            return self.data.len();
        }
        let wave_header = self.get_wave_header();
        let smpl_block = self.get_smpl_block();
        proof {
            self.lemma_chunk_lens();
        }
        let wav_base_size: usize = 8 + 4 + wave_header.len() + 4 + 4 + self.data.len();
        let wav_size: usize = if smpl_block.len() == 0 {
            wav_base_size
        } else {
            wav_base_size + 4 + 4 + smpl_block.len()
        };
        write_riff(
            writer,
            wav_size as u32,
            wave_header.as_slice(),
            self.data.as_slice(),
            smpl_block.as_slice(),
        );
        let mut bytes_written: usize = 8 + 12 + wave_header.len() + 8 + self.data.len();
        if smpl_block.len() != 0 {
            bytes_written = bytes_written + 8 + smpl_block.len();
        }
        assert(wav_size == self.riff_size());
        assert(self.file_bytes() == riff_file(wav_size as u32, wave_header@, self.data@, smpl_block@));
        proof {
            lemma_riff_len(wav_size as u32, wave_header@, self.data@, smpl_block@);
        }
        bytes_written
    }
}

/// A WAV file: the RIFF header with `size`, the `fmt ` chunk, the `data`
/// chunk, and the sampler chunk when there is one.
pub open spec fn riff_file(size: u32, fmt: Seq<u8>, data: Seq<u8>, smpl: Seq<u8>) -> Seq<u8> {
    RIFF_MAGIC@ + bytes32(size as nat) + WAVE_MAGIC@ + bytes32(fmt.len()) + fmt + DATA_MAGIC@
        + bytes32((data.len() as u32) as nat) + data + if smpl.len() == 0 {
        Seq::empty()
    } else {
        SMPL_MAGIC@ + bytes32(smpl.len()) + smpl
    }
}

proof fn lemma_riff_len(size: u32, fmt: Seq<u8>, data: Seq<u8>, smpl: Seq<u8>)
    ensures
        riff_file(size, fmt, data, smpl).len() == 28 + fmt.len() + data.len() + if smpl.len() == 0 {
            0
        } else {
            8 + smpl.len()
        },
{
    assert(RIFF_MAGIC@.len() == 4);
    assert(WAVE_MAGIC@.len() == 8);
    assert(DATA_MAGIC@.len() == 4);
    assert(SMPL_MAGIC@.len() == 4);
}

fn write_riff(writer: &mut Vec<u8>, size: u32, fmt: &[u8], data: &[u8], smpl: &[u8])
    requires
        fmt@.len() <= u32::MAX,
        smpl@.len() <= u32::MAX,
    ensures
        final(writer)@ == old(writer)@ + riff_file(size, fmt@, data@, smpl@),
{
    let ghost w0 = writer@;
    push_bytes(writer, RIFF_MAGIC.as_slice());
    push_u32_le(writer, size);
    push_bytes(writer, WAVE_MAGIC.as_slice());
    push_u32_le(writer, fmt.len() as u32);
    push_bytes(writer, fmt);
    push_bytes(writer, DATA_MAGIC.as_slice());
    push_u32_le(writer, data.len() as u32);
    push_bytes(writer, data);
    let ghost w1 = writer@;
    assert(w1 =~= w0 + (RIFF_MAGIC@ + bytes32(size as nat) + WAVE_MAGIC@ + bytes32(fmt@.len())
        + fmt@ + DATA_MAGIC@ + bytes32((data@.len() as u32) as nat) + data@));
    if smpl.len() != 0 {
        push_bytes(writer, SMPL_MAGIC.as_slice());
        push_u32_le(writer, smpl.len() as u32);
        push_bytes(writer, smpl);
    }
    assert(writer@ =~= w0 + riff_file(size, fmt@, data@, smpl@));
}

/// Appends `n` zero bytes.
fn push_zeros(w: &mut Vec<u8>, n: usize)
    ensures
        final(w)@ == old(w)@ + Seq::new(n as nat, |i: int| 0u8),
{
    let mut i: usize = 0;
    while i < n
        invariant
            i <= n,
            w@ == old(w)@ + Seq::new(i as nat, |j: int| 0u8),
        decreases n - i,
    {
        w.push(0);
        i = i + 1;
        assert(w@ =~= old(w)@ + Seq::new(i as nat, |j: int| 0u8));
    }
}

/// What reading a bank comes to: data that the reader cannot take
/// (`Malformed`), a refusal with an error, or the bank.
pub enum ReadOutcome {
    Malformed,
    Refused(XactError),
    Parsed,
}

/// The wave bank header of an XWB file.
pub open spec fn xwb_bank_header(b: Seq<u8>) -> Seq<u8> {
    b.subrange(le32(b, 8) as int, slice_end(b, 8) as int)
}

/// The table of track headers of an XWB file.
pub open spec fn xwb_track_table(b: Seq<u8>) -> Seq<u8> {
    b.subrange(le32(b, 16) as int, slice_end(b, 16) as int)
}

/// The track data of an XWB file.
pub open spec fn xwb_track_data(b: Seq<u8>) -> Seq<u8> {
    b.subrange(le32(b, 32) as int, slice_end(b, 32) as int)
}

/// Entry `i` of a table of track headers.
pub open spec fn track_header(table: Seq<u8>, i: int) -> Seq<u8> {
    table.subrange(TRACK_SIZE * i, TRACK_SIZE * i + TRACK_SIZE)
}

/// The number of tracks that the wave bank header gives.
pub open spec fn xwb_track_count(b: Seq<u8>) -> nat {
    le32(xwb_bank_header(b), 4)
}

/// The bank's name: the NUL-terminated string in bytes 8 to 24 of its header.
pub open spec fn xwb_name(b: Seq<u8>) -> Seq<char> {
    lossy_utf8(c_string_at(xwb_bank_header(b).subrange(8, 24), 0))
}

/// A track header can be read: no block alignment is given and the track's
/// data lies inside the track data.
pub open spec fn track_ok(h: Seq<u8>, data: Seq<u8>) -> bool {
    let fb = le32(h, 4) as u32;
    &&& (fb >> 23u32) & 0xFFu32 == 0
    &&& slice_end(h, 8) <= data.len()
}

/// `t` is the track that header `h` describes over the track data `data`.
pub open spec fn track_matches(t: Track, h: Seq<u8>, data: Seq<u8>) -> bool {
    let fd = le32(h, 0) as u32;
    let fb = le32(h, 4) as u32;
    let codec = spec_codec(fb as u8 & 0x3u8);
    &&& t.name is None
    &&& t.duration == fd & 0xFFF_FFFFu32
    &&& t.flags == ((fd >> 28u32) & 0xFu32) as u8
    &&& t.codec == codec
    &&& t.channels == ((fb >> 2u32) & 0x7u32) as u16
    &&& t.samples_per_sec == (fb >> 5u32) & 0x3FFFFu32
    &&& t.bits_per_sample == if codec == Codec::ADPCM {
        4u16
    } else if (fb >> 31u32) & 0x1u32 == 0x1u32 {
        16u16
    } else {
        8u16
    }
    &&& t.data@ == data.subrange(le32(h, 8) as int, slice_end(h, 8) as int)
    &&& t.loop_region.spec_offset() == le32(h, 16)
    &&& t.loop_region.spec_offset() + t.loop_region.spec_length() == slice_end(h, 16)
}

/// What reading the wave bank `b` comes to, check by check in the order the
/// reader makes them.
pub open spec fn xwb_outcome(b: Seq<u8>) -> ReadOutcome {
    if b.len() < 4 {
        ReadOutcome::Malformed
    } else if b.subrange(0, 4) != XWB_MAGIC@ {
        ReadOutcome::Refused(XactError::BadMagic)
    } else if b.len() < 8 {
        ReadOutcome::Malformed
    } else if le32(b, 4) != 3 {
        ReadOutcome::Refused(XactError::BadVersion)
    } else if b.len() < 40 || slice_end(b, 8) > b.len() {
        ReadOutcome::Malformed
    } else {
        let w = xwb_bank_header(b);
        if w.len() < 4 {
            ReadOutcome::Malformed
        } else if le32(w, 0) != 0 && le32(w, 0) != 1 {
            ReadOutcome::Refused(XactError::UnknownFlags)
        } else if w.len() < 28 || !has_nul_at(w.subrange(8, 24), 0) {
            ReadOutcome::Malformed
        } else if le32(w, 24) != TRACK_SIZE {
            ReadOutcome::Refused(XactError::TrackHeaderSizeIncorrect)
        } else if w.len() < 36 || slice_end(b, 16) > b.len() || slice_end(b, 32) > b.len()
            || le32(w, 4) * TRACK_SIZE > usize::MAX {
            ReadOutcome::Malformed
        } else if le32(w, 4) * TRACK_SIZE != xwb_track_table(b).len() {
            ReadOutcome::Refused(XactError::TrackCountIncorrect)
        } else if forall|i: int|
            0 <= i < le32(w, 4) ==> #[trigger] track_ok(
                track_header(xwb_track_table(b), i),
                xwb_track_data(b),
            ) {
            ReadOutcome::Parsed
        } else {
            ReadOutcome::Malformed
        }
    }
}

/// Every track header of the XWB file `b` can be read.
pub open spec fn xwb_tracks_ok(b: Seq<u8>) -> bool {
    forall|i: int|
        0 <= i < xwb_track_count(b) ==> #[trigger] track_ok(
            track_header(xwb_track_table(b), i),
            xwb_track_data(b),
        )
}

/// A wave bank: its name and its tracks.
pub struct XWB {
    pub name: String,
    pub tracks: Vec<Track>,
}

/// `x` is the bank that the XWB file `b` holds.
pub open spec fn xwb_read(b: Seq<u8>, x: XWB) -> bool {
    &&& x.name@ == xwb_name(b)
    &&& x.tracks@.len() == xwb_track_count(b)
    &&& forall|i: int|
        0 <= i < x.tracks@.len() ==> #[trigger] track_matches(
            x.tracks@[i],
            track_header(xwb_track_table(b), i),
            xwb_track_data(b),
        )
}

/// Reads one track header.
fn import_track(h: &[u8], data: &[u8]) -> (r: Option<Track>)
    requires
        h@.len() == TRACK_SIZE,
    ensures
        r is Some <==> track_ok(h@, data@),
        r matches Some(t) ==> track_matches(t, h@, data@),
{
    let flags_duration: u32 = read_u32_le(h, 0);
    let duration: u32 = flags_duration & 0xFFF_FFFF;
    let flags: u32 = (flags_duration >> 28) & 0xF;
    let format_bits: u32 = read_u32_le(h, 4);
    let codec = Codec::from(format_bits as u8 & 0x3);
    let channels: u32 = (format_bits >> 2) & 0x7;
    let samples_per_sec: u32 = (format_bits >> 5) & 0x3FFFF;
    let block_alignment: u32 = (format_bits >> 23) & 0xFF;
    let bits_per_sample: u16 = if codec == Codec::ADPCM {
        4
    } else if (format_bits >> 31) & 0x1 == 0x1 {
        16
    } else {
        8
    };
    let play_region = FileSlice::from_at(h, 8);
    let end: usize = play_region.get_end();
    if end > data.len() || block_alignment != 0 {
        return None;
    }
    let samples = copy_range(data, play_region.offset(), end);
    assert(channels <= 7 && flags <= 15) by (bit_vector)
        requires
            channels == (format_bits >> 2u32) & 0x7u32,
            flags == (flags_duration >> 28u32) & 0xFu32,
    ;
    Some(
        Track {
            name: None,
            flags: flags as u8,
            duration: duration,
            codec: codec,
            channels: channels as u16,
            samples_per_sec: samples_per_sec,
            bits_per_sample: bits_per_sample,
            data: samples,
            loop_region: FileSlice::from_at(h, 16),
        },
    )
}

impl XWB {
    /// Reads a wave bank. `None` stands for data that the reader cannot
    /// take (see `xwb_outcome`); otherwise the bank, or the check it fails.
    pub fn try_import(buf: &[u8]) -> (r: Option<Result<XWB, XactError>>)
        ensures
            match xwb_outcome(buf@) {
                ReadOutcome::Malformed => r is None,
                ReadOutcome::Refused(e) => r == Some(Err::<XWB, XactError>(e)),
                ReadOutcome::Parsed => r matches Some(Ok(x)) && xwb_read(buf@, x),
            },
    {
        let n: usize = buf.len();
        if n < 4 {
            return None;
        }
        let magic = copy_range(buf, 0, 4);
        if !(magic[0] == XWB_MAGIC[0] && magic[1] == XWB_MAGIC[1] && magic[2] == XWB_MAGIC[2]
            && magic[3] == XWB_MAGIC[3]) {
            assert(magic@ != XWB_MAGIC@);
            return Some(Err(XactError::BadMagic));
        }
        assert(magic@ =~= XWB_MAGIC@);
        if n < 8 {
            return None;
        }
        let version: u32 = read_u32_le(buf, 4);
        if version != 3 {
            return Some(Err(XactError::BadVersion));
        }
        if n < 40 {
            return None;
        }
        let wavebank_file = FileSlice::from_at(buf, 8);
        let track_header_file = FileSlice::from_at(buf, 16);
        let track_data_file = FileSlice::from_at(buf, 32);
        let wb_end: usize = wavebank_file.get_end();
        if wb_end > n {
            return None;
        }
        let wavebank = copy_range(buf, wavebank_file.offset(), wb_end);
        let wn: usize = wavebank.len();
        if wn < 4 {
            return None;
        }
        let wavebank_flags: u32 = read_u32_le(wavebank.as_slice(), 0);
        if wavebank_flags != 0 && wavebank_flags != 1 {
            return Some(Err(XactError::UnknownFlags));
        }
        if wn < 28 {
            return None;
        }
        let track_count: u32 = read_u32_le(wavebank.as_slice(), 4);
        let name_window = copy_range(wavebank.as_slice(), 8, 24);
        let name = match read_c_string_at(name_window.as_slice(), 0) {
            Some(s) => s,
            None => {
                return None;
            },
        };
        let track_header_size: u32 = read_u32_le(wavebank.as_slice(), 24);
        if track_header_size as usize != TRACK_SIZE {
            return Some(Err(XactError::TrackHeaderSizeIncorrect));
        }
        if wn < 36 {
            return None;
        }
        let th_end: usize = track_header_file.get_end();
        let td_end: usize = track_data_file.get_end();
        if th_end > n || td_end > n {
            return None;
        }
        let count: usize = match (track_count as usize).checked_mul(TRACK_SIZE) {
            Some(_) => track_count as usize,
            None => {
                return None;
            },
        };
        let table = copy_range(buf, track_header_file.offset(), th_end);
        let track_data = copy_range(buf, track_data_file.offset(), td_end);
        if count * TRACK_SIZE != table.len() {
            return Some(Err(XactError::TrackCountIncorrect));
        }
        assert(xwb_outcome(buf@) == if xwb_tracks_ok(buf@) {
            ReadOutcome::Parsed
        } else {
            ReadOutcome::Malformed
        });
        let mut tracks: Vec<Track> = Vec::with_capacity(count);
        let mut i: usize = 0;
        while i < count
            invariant
                i <= count,
                count * TRACK_SIZE <= usize::MAX,
                name@ == xwb_name(buf@),
                xwb_outcome(buf@) == if xwb_tracks_ok(buf@) {
                    ReadOutcome::Parsed
                } else {
                    ReadOutcome::Malformed
                },
                count == le32(wavebank@, 4),
                wavebank@ == xwb_bank_header(buf@),
                table@ == xwb_track_table(buf@),
                track_data@ == xwb_track_data(buf@),
                table@.len() == count * TRACK_SIZE,
                tracks@.len() == i,
                forall|j: int|
                    0 <= j < i ==> #[trigger] track_ok(track_header(table@, j), track_data@),
                forall|j: int|
                    0 <= j < i ==> #[trigger] track_matches(
                        tracks@[j],
                        track_header(table@, j),
                        track_data@,
                    ),
            decreases count - i,
        {
            let h = copy_range(table.as_slice(), TRACK_SIZE * i, TRACK_SIZE * i + TRACK_SIZE);
            assert(h@ == track_header(table@, i as int));
            match import_track(h.as_slice(), track_data.as_slice()) {
                Some(t) => {
                    tracks.push(t);
                },
                None => {
                    assert(!track_ok(track_header(xwb_track_table(buf@), i as int), xwb_track_data(buf@)));
                    return None;
                },
            }
            i = i + 1;
        }
        Some(Ok(XWB { name, tracks }))
    }

    /// Reads a wave bank that the reader can take: the bank, or the check
    /// it fails (see `try_import`).
    pub fn import(buf: &[u8]) -> (r: Result<XWB, XactError>)
        requires
            !(xwb_outcome(buf@) is Malformed),
        ensures
            match xwb_outcome(buf@) {
                ReadOutcome::Refused(e) => r == Err::<XWB, XactError>(e),
                _ => r matches Ok(x) && xwb_read(buf@, x),
            },
    {
        match Self::try_import(buf) {
            Some(r) => r,
            None => vstd::pervasive::unreached(),
        }
    }
}

} // verus!
