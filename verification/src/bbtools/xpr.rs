//! Xbox textures (XPR and raw XRAW images) and their conversion to DDS:
//! header parsing, the DXT1 to DXT3 block conversion, unswizzling of
//! swizzled formats, and the DDS header.
use vstd::prelude::*;

use crate::bytes::{
    bytes16, bytes32, bytes64, copy_range, le16, le32, push_bytes, push_u32_le, push_u64_le,
    read_u16_le, read_u32_le,
};
use crate::bbtools::swizzle::{unswizzle_fits, unswizzle_fits_check, unswizzle_image, unswizzled};
use crate::paths::{diff_paths, has_extension, opt_view, path_has_extension, path_popped, pop_path, relative_path};
use byteorder::{ByteOrder, LittleEndian};

verus! {

pub const DXT1_SIZE: usize = 8;

pub const DXT3_SIZE: usize = 16;

pub const DDS_MAGIC: [u8; 4] = [0x44, 0x44, 0x53, 0x20];  // "DDS "

pub const XPR_MAGIC: [u8; 4] = [0x58, 0x50, 0x52, 0x30];  // "XPR0"

pub const XRAW_MAGIC: [u8; 4] = [0x58, 0x52, 0x41, 0x57];  // "XRAW"

pub const XPR_HEADER_SIZE: usize = 36;

pub const XRAW_HEAD_SIZE: usize = 16;

/// 2 to the power `n`.
pub open spec fn exp2(n: nat) -> nat
    decreases n,
{
    if n == 0 {
        1
    } else {
        2 * exp2((n - 1) as nat)
    }
}

pub proof fn lemma_exp2_mono(a: nat, b: nat)
    requires
        a <= b,
    ensures
        exp2(a) <= exp2(b),
    decreases b,
{
    if a < b {
        lemma_exp2_mono(a, (b - 1) as nat);
    }
}

pub proof fn lemma_exp2_15()
    ensures
        exp2(15) == 0x8000,
{
    reveal_with_fuel(exp2, 16);
}

/// `1 << n` for `n < 16`.
pub fn shift_one(n: u8) -> (r: usize)
    requires
        n < 16,
    ensures
        r == exp2(n as nat),
        r <= 0x8000,
{
    let mut r: usize = 1;
    let mut i: u8 = 0;
    while i < n
        invariant
            i <= n < 16,
            r == exp2(i as nat),
        decreases n - i,
    {
        proof {
            lemma_exp2_mono(i as nat, 14);
            reveal_with_fuel(exp2, 16);
        }
        r = r * 2;
        i = i + 1;
    }
    proof {
        lemma_exp2_mono(n as nat, 15);
        lemma_exp2_15();
    }
    r
}

/// A DXT1 block: two colors and sixteen 2-bit codes.
pub struct DXT1 {
    pub color0: u16,
    pub color1: u16,
    pub codes: u32,
}

impl DXT1 {
    /// Reads a block from its 8 bytes.
    pub fn from(buf: &[u8]) -> (r: Self)
        requires
            buf@.len() == DXT1_SIZE,
        ensures
            r.color0 == le16(buf@, 0),
            r.color1 == le16(buf@, 2),
            r.codes == le32(buf@, 4),
    {
        DXT1 { color0: read_u16_le(buf, 0), color1: read_u16_le(buf, 2), codes: read_u32_le(buf, 4) }
    }

    /// The block's 8 bytes.
    pub fn into(self) -> (r: Vec<u8>)
        ensures
            r@ == dxt1_bytes(self.color0, self.color1, self.codes),
    {
        let mut buf: Vec<u8> = Vec::new();
        crate::bytes::push_u16_le(&mut buf, self.color0);
        crate::bytes::push_u16_le(&mut buf, self.color1);
        push_u32_le(&mut buf, self.codes);
        buf
    }
}

pub open spec fn dxt1_bytes(color0: u16, color1: u16, codes: u32) -> Seq<u8> {
    bytes16(color0 as nat) + bytes16(color1 as nat) + bytes32(codes as nat)
}

/// The alpha of the first `n` texels: fully opaque (`0xF`) for every texel
/// whose code is not 3, transparent for code 3.
pub open spec fn alpha_bits(codes: u32, n: nat) -> u64
    decreases n,
{
    if n == 0 {
        0
    } else {
        let i = (n - 1) as nat;
        let prev = alpha_bits(codes, i);
        if (codes >> ((2 * i) as u32)) & 3 != 3 {
            prev | (0xFu64 << ((4 * i) as u64))
        } else {
            prev
        }
    }
}

/// The explicit alpha that keeps the look of a DXT1 block: a block in
/// 3-color mode (`color0 <= color1`) makes code 3 transparent, any other
/// block is opaque.
pub open spec fn dxt3_alpha(color0: u16, color1: u16, codes: u32) -> u64 {
    if color0 <= color1 {
        alpha_bits(codes, 16)
    } else {
        u64::MAX
    }
}

proof fn lemma_nibble_of_zero(si: u64)
    requires
        si < 64,
    ensures
        (0u64 >> si) & 0xF == 0,
{
    assert((0u64 >> si) & 0xF == 0) by (bit_vector);
}

proof fn lemma_nibble_of_max(si: u64)
    requires
        si < 64,
        si % 4 == 0,
    ensures
        (u64::MAX >> si) & 0xF == 0xF,
{
    assert(si < 64 && si % 4 == 0 ==> (0xFFFF_FFFF_FFFF_FFFFu64 >> si) & 0xF == 0xF) by (bit_vector);
}

proof fn lemma_nibble_set(a: u64, sk: u64, si: u64)
    requires
        sk < 64,
        si < 64,
        sk % 4 == 0,
        si % 4 == 0,
    ensures
        ((a | (0xFu64 << sk)) >> si) & 0xF == if si == sk {
            0xFu64
        } else {
            (a >> si) & 0xF
        },
{
    assert(sk < 64 && si < 64 && sk % 4 == 0 && si % 4 == 0 ==> ((a | (0xFu64 << sk)) >> si) & 0xF == if si
        == sk {
        0xFu64
    } else {
        (a >> si) & 0xF
    }) by (bit_vector);
}

/// The 4-bit alpha of texel `i` in a DXT3 alpha word.
pub open spec fn texel_alpha(alpha: u64, i: nat) -> u64 {
    (alpha >> ((4 * i) as u64)) & 0xF
}

/// The 2-bit code of texel `i` in a DXT1 code word.
pub open spec fn texel_code(codes: u32, i: nat) -> u32 {
    (codes >> ((2 * i) as u32)) & 3
}

proof fn lemma_alpha_bits_nibbles(codes: u32, n: nat)
    requires
        n <= 16,
    ensures
        forall|i: nat|
            i < 16 ==> #[trigger] texel_alpha(alpha_bits(codes, n), i) == if i < n && texel_code(codes, i) != 3 {
                0xFu64
            } else {
                0u64
            },
    decreases n,
{
    if n == 0 {
        assert forall|i: nat| i < 16 implies #[trigger] texel_alpha(alpha_bits(codes, n), i) == 0u64 by {
            lemma_nibble_of_zero((4 * i) as u64);
        }
    } else {
        let k = (n - 1) as nat;
        lemma_alpha_bits_nibbles(codes, k);
        let prev = alpha_bits(codes, k);
        assert forall|i: nat| i < 16 implies #[trigger] texel_alpha(alpha_bits(codes, n), i) == if i < n
            && texel_code(codes, i) != 3 {
            0xFu64
        } else {
            0u64
        } by {
            assert(texel_alpha(prev, i) == if i < k && texel_code(codes, i) != 3 {
                0xFu64
            } else {
                0u64
            });
            if texel_code(codes, k) != 3 {
                lemma_nibble_set(prev, (4 * k) as u64, (4 * i) as u64);
            }
        }
    }
}

/// The alpha of each texel of the DXT3 block made from a DXT1 block: in
/// 3-color mode (`color0 <= color1`) a texel whose 2-bit code is 3 (the
/// transparent black of that mode) gets alpha 0 and every other texel,
/// codes 0 to 2, alpha 0xF; in 4-color mode every texel gets 0xF.
pub proof fn lemma_dxt3_alpha_texels(color0: u16, color1: u16, codes: u32, i: nat)
    requires
        i < 16,
    ensures
        texel_alpha(dxt3_alpha(color0, color1, codes), i) == if color0 <= color1 && texel_code(codes, i) == 3 {
            0u64
        } else {
            0xFu64
        },
{
    if color0 <= color1 {
        lemma_alpha_bits_nibbles(codes, 16);
        assert(texel_alpha(alpha_bits(codes, 16), i) == if i < 16 && texel_code(codes, i) != 3 {
            0xFu64
        } else {
            0u64
        });
    } else {
        lemma_nibble_of_max((4 * i) as u64);
    }
}

/// A DXT3 block: 4-bit alpha per texel and a DXT1 color block.
pub struct DXT3 {
    pub alpha: u64,
    pub dxt1: DXT1,
}

impl DXT3 {
    /// The DXT3 block that looks like the DXT1 block.
    pub fn from(dxt1: DXT1) -> (r: Self)
        ensures
            r.alpha == dxt3_alpha(dxt1.color0, dxt1.color1, dxt1.codes),
            r.dxt1 == dxt1,
            forall|i: nat|
                i < 16 ==> #[trigger] texel_alpha(r.alpha, i) == if dxt1.color0 <= dxt1.color1 && texel_code(
                    dxt1.codes,
                    i,
                ) == 3 {
                    0u64
                } else {
                    0xFu64
                },
    {
        proof {
            assert forall|i: nat| i < 16 implies #[trigger] texel_alpha(
                dxt3_alpha(dxt1.color0, dxt1.color1, dxt1.codes),
                i,
            ) == if dxt1.color0 <= dxt1.color1 && texel_code(dxt1.codes, i) == 3 {
                0u64
            } else {
                0xFu64
            } by {
                lemma_dxt3_alpha_texels(dxt1.color0, dxt1.color1, dxt1.codes, i);
            }
        }
        let mut alpha: u64 = u64::MAX;
        if dxt1.color0 <= dxt1.color1 {
            alpha = 0;
            let mut i: u32 = 0;
            while i < 16
                invariant
                    i <= 16,
                    alpha == alpha_bits(dxt1.codes, i as nat),
                decreases 16 - i,
            {
                let c: u32 = i * 2;
                if ((dxt1.codes >> c) & 3) != 3 {
                    let a: u64 = (i * 4) as u64;
                    alpha = alpha | (0xFu64 << a);
                }
                i = i + 1;
            }
        }
        DXT3 { alpha, dxt1 }
    }

    /// Reads a block from its 16 bytes.
    pub fn from_bytes(buf: &[u8]) -> (r: Self)
        requires
            buf@.len() == DXT3_SIZE,
        ensures
            r.alpha == crate::bytes::le64(buf@, 0),
            r.dxt1.color0 == le16(buf@, 8),
            r.dxt1.color1 == le16(buf@, 10),
            r.dxt1.codes == le32(buf@, 12),
    {
        DXT3 {
            alpha: crate::bytes::read_u64_le(buf, 0),
            dxt1: DXT1 {
                color0: read_u16_le(buf, 8),
                color1: read_u16_le(buf, 10),
                codes: read_u32_le(buf, 12),
            },
        }
    }

    /// The block's 16 bytes: the alpha, then the color block.
    pub fn into(self) -> (r: Vec<u8>)
        ensures
            r@ == bytes64(self.alpha as nat) + dxt1_bytes(
                self.dxt1.color0,
                self.dxt1.color1,
                self.dxt1.codes,
            ),
    {
        let mut buf: Vec<u8> = Vec::new();
        push_u64_le(&mut buf, self.alpha);
        let color = self.dxt1.into();
        push_bytes(&mut buf, color.as_slice());
        buf
    }
}

/// The DXT3 block made from the DXT1 block `b` (8 bytes).
pub open spec fn dxt3_block(b: Seq<u8>) -> Seq<u8> {
    bytes64(dxt3_alpha(le16(b, 0) as u16, le16(b, 2) as u16, le32(b, 4) as u32) as nat)
        + dxt1_bytes(le16(b, 0) as u16, le16(b, 2) as u16, le32(b, 4) as u32)
}

/// The DXT3 blocks made from the first `k` DXT1 blocks of `d`.
pub open spec fn dxt3_data(d: Seq<u8>, k: nat) -> Seq<u8>
    decreases k,
{
    if k == 0 {
        Seq::empty()
    } else {
        dxt3_data(d, (k - 1) as nat) + dxt3_block(d.subrange(8 * (k - 1), (8 * k) as int))
    }
}

/// Converting DXT1 blocks to DXT3 doubles the size and keeps every block's
/// colors: the second half of each DXT3 block is the DXT1 block.
pub proof fn lemma_dxt3_keeps_colors(d: Seq<u8>, k: nat)
    requires
        8 * k <= d.len(),
    ensures
        dxt3_data(d, k).len() == 16 * k,
        forall|j: int|
            0 <= j < k ==> #[trigger] dxt3_data(d, k).subrange(16 * j + 8, 16 * j + 16) == d.subrange(
                8 * j,
                8 * j + 8,
            ),
    decreases k,
{
    if k > 0 {
        let kk = (k - 1) as nat;
        lemma_dxt3_keeps_colors(d, kk);
        let b = d.subrange(8 * kk as int, 8 * kk as int + 8);
        crate::bytes::lemma_bytes16_of_le16(b, 0);
        crate::bytes::lemma_bytes16_of_le16(b, 2);
        crate::bytes::lemma_bytes32_of_le32(b, 4);
        crate::bytes::lemma_le16_bound(b, 0);
        crate::bytes::lemma_le16_bound(b, 2);
        crate::bytes::lemma_le32_bound(b, 4);
        assert(dxt1_bytes(le16(b, 0) as u16, le16(b, 2) as u16, le32(b, 4) as u32) =~= b);
        let prev = dxt3_data(d, kk);
        let blk = dxt3_block(b);
        assert(bytes64(dxt3_alpha(le16(b, 0) as u16, le16(b, 2) as u16, le32(b, 4) as u32) as nat).len() == 8);
        assert forall|j: int| 0 <= j < k implies #[trigger] dxt3_data(d, k).subrange(16 * j + 8, 16 * j + 16)
            == d.subrange(8 * j, 8 * j + 8) by {
            if j < kk {
                assert(dxt3_data(d, k).subrange(16 * j + 8, 16 * j + 16) =~= prev.subrange(16 * j + 8, 16 * j + 16));
            } else {
                assert(dxt3_data(d, k).subrange(16 * j + 8, 16 * j + 16) =~= blk.subrange(8, 16));
                assert(blk.subrange(8, 16) =~= b);
            }
        }
    }
}

/// Turns DXT1 blocks into the DXT3 blocks that look the same.
pub fn convert_dxt1_blocks(data: &[u8]) -> (r: Vec<u8>)
    requires
        data@.len() % 8 == 0,
    ensures
        r@ == dxt3_data(data@, data@.len() / 8),
{
    let n: usize = data.len();
    let count: usize = n / DXT1_SIZE;
    let mut out: Vec<u8> = Vec::new();
    let mut k: usize = 0;
    while k < count
        invariant
            n == data@.len(),
            count == n / 8,
            n % 8 == 0,
            k <= count,
            out@ == dxt3_data(data@, k as nat),
        decreases count - k,
    {
        assert(8 * k + 8 <= n) by (nonlinear_arith)
            requires
                k < count,
                count == n / 8,
                n % 8 == 0,
        ;
        let block = copy_range(data, 8 * k, 8 * k + 8);
        let dxt1 = DXT1::from(block.as_slice());
        let dxt3 = DXT3::from(dxt1);
        let bytes = dxt3.into();
        push_bytes(&mut out, bytes.as_slice());
        k = k + 1;
    }
    out
}

/// These correspond to the Xbox formats `X_D3DFMT_*`.
#[allow(non_camel_case_types)]
#[derive(PartialEq, Eq, Structural, Clone, Copy, Debug)]
pub enum XPRFormat {
    Unknown,
    ARGB,
    DXT1,
    DXT3,
    ARGB_LIN,
    GB_LIN,
    GB,
    L16_LIN,
}

pub open spec fn spec_format(code: u8) -> XPRFormat {
    if code == 0x06 {
        XPRFormat::ARGB
    } else if code == 0x0C {
        XPRFormat::DXT1
    } else if code == 0x0E {
        XPRFormat::DXT3
    } else if code == 0x12 {
        XPRFormat::ARGB_LIN
    } else if code == 0x17 {
        XPRFormat::GB_LIN
    } else if code == 0x28 {
        XPRFormat::GB
    } else if code == 0x35 {
        XPRFormat::L16_LIN
    } else {
        XPRFormat::Unknown
    }
}

/// The `X_D3DFMT` code of each known format (0x06: ARGB, 0x0C: DXT1, 0x0E: DXT3, 0x12: ARGB_LIN, 0x17: GB_LIN, 0x28: GB, 0x35: L16_LIN).
pub open spec fn d3d_format_code(f: XPRFormat) -> Option<u8> {
    match f {
        XPRFormat::ARGB => Some(0x06u8),
        XPRFormat::DXT1 => Some(0x0Cu8),
        XPRFormat::DXT3 => Some(0x0Eu8),
        XPRFormat::ARGB_LIN => Some(0x12u8),
        XPRFormat::GB_LIN => Some(0x17u8),
        XPRFormat::GB => Some(0x28u8),
        XPRFormat::L16_LIN => Some(0x35u8),
        XPRFormat::Unknown => None,
    }
}

/// Each known format is read from its own code and from no other: the
/// format of a code is the one whose code it is, and every known format
/// has a code that gives it.
pub proof fn lemma_format_codes(code: u8, f: XPRFormat)
    ensures
        spec_format(code) != XPRFormat::Unknown ==> d3d_format_code(spec_format(code)) == Some(code),
        d3d_format_code(f) matches Some(c) ==> spec_format(c) == f,
        spec_format(code) == XPRFormat::Unknown <==> !(exists|g: XPRFormat| d3d_format_code(g) == Some(code)),
{
    if spec_format(code) == XPRFormat::Unknown {
        assert forall|g: XPRFormat| d3d_format_code(g) != Some(code) by {
            if d3d_format_code(g) == Some(code) {
                assert(spec_format(code) == g);
            }
        }
    } else {
        assert(d3d_format_code(spec_format(code)) == Some(code));
    }
}

impl XPRFormat {
    pub fn from(format: u8) -> (r: Self)
        ensures
            r == spec_format(format),
            r != XPRFormat::Unknown ==> d3d_format_code(r) == Some(format),
    {
        match format {
            0x06 => XPRFormat::ARGB,
            0x0C => XPRFormat::DXT1,
            0x0E => XPRFormat::DXT3,
            0x12 => XPRFormat::ARGB_LIN,
            0x17 => XPRFormat::GB_LIN,
            0x28 => XPRFormat::GB,
            0x35 => XPRFormat::L16_LIN,
            _ => XPRFormat::Unknown,
        }
    }

    /// Only linear ARGB stores its size in the extended dimension word.
    pub fn has_ext_dimensions(&self) -> (r: bool)
        ensures
            r == (*self == XPRFormat::ARGB_LIN),
    {
        match self {
            XPRFormat::ARGB_LIN => true,
            _ => false,
        }
    }

    pub fn is_swizzled(&self) -> (r: bool)
        ensures
            r == (*self == XPRFormat::ARGB || *self == XPRFormat::GB),
    {
        match self {
            XPRFormat::ARGB | XPRFormat::GB => true,
            _ => false,
        }
    }

    /// Bytes per pixel of the uncompressed formats (0 for the others).
    pub fn bytes_per_pixel(&self) -> (r: usize)
        ensures
            r == spec_bytes_per_pixel(*self),
    {
        match self {
            XPRFormat::ARGB_LIN | XPRFormat::ARGB => 4,
            XPRFormat::GB_LIN | XPRFormat::GB => 2,
            _ => 0,
        }
    }
}

pub open spec fn spec_bytes_per_pixel(f: XPRFormat) -> nat {
    match f {
        XPRFormat::ARGB_LIN | XPRFormat::ARGB => 4,
        XPRFormat::GB_LIN | XPRFormat::GB => 2,
        _ => 0,
    }
}

/// Errors of reading and converting textures.
#[derive(Debug, PartialEq, Eq, Structural, Clone, Copy)]
pub enum XprError {
    MissingHeader,
    BadMagic,
    FileEmpty,
    BufTooSmall,
    /// The resource is not a texture.
    NotTexture,
    /// The texture does not have two dimensions.
    BadDimensionCount,
    UnknownFormat,
    WidthMismatch,
    HeightMismatch,
    LevelsMismatch,
    DepthMismatch,
    NotDxt1,
    /// The data is not a whole number of DXT1 blocks.
    BadDxt1Length,
    NotArgb,
    NotGb,
}

/// A texture: its format, mipmap levels, size, layers and pixel data.
pub struct XPR {
    pub format: XPRFormat,
    /// MipMaps
    pub levels: usize,
    /// X
    pub width: usize,
    /// Y
    pub height: usize,
    /// Z
    pub depth: usize,
    /// ArraySize
    pub layers: usize,
    pub data: Vec<u8>,
    /// Where the texture was last written as DDS.
    pub dds_path: Option<String>,
}

/// What `import_xpr` reads from a buffer.
pub struct XprHeader {
    pub format: XPRFormat,
    pub levels: nat,
    pub width: nat,
    pub height: nat,
    pub depth: nat,
    pub start: nat,
    pub end: nat,
}

/// The texture header of an XPR file (the checks are made by `spec_import_xpr`).
pub open spec fn spec_xpr_header(buf: Seq<u8>) -> XprHeader {
    let format = spec_format(buf[25]);
    let ext = le32(buf, 28);
    XprHeader {
        format,
        levels: (buf[26] % 16) as nat,
        width: if format == XPRFormat::ARGB_LIN {
            ext % 4096 + 1
        } else {
            exp2((buf[26] / 16) as nat)
        },
        height: if format == XPRFormat::ARGB_LIN {
            (ext / 4096) % 4096 + 1
        } else {
            exp2((buf[27] % 16) as nat)
        },
        depth: if format == XPRFormat::ARGB_LIN {
            (ext / 0x100_0000) % 4096 + 1
        } else {
            exp2((buf[27] / 16) as nat)
        },
        start: le32(buf, 8),
        end: le32(buf, 4),
    }
}

/// The result of reading an XPR file: its header, or the first check that fails.
pub open spec fn spec_import_xpr(buf: Seq<u8>) -> Result<XprHeader, XprError> {
    if buf.len() < XPR_HEADER_SIZE {
        Err(XprError::MissingHeader)
    } else if buf.subrange(0, 4) != XPR_MAGIC@ {
        Err(XprError::BadMagic)
    } else if le32(buf, 4) <= le32(buf, 8) {
        Err(XprError::FileEmpty)
    } else if buf.len() < le32(buf, 4) {
        Err(XprError::BufTooSmall)
    } else if le16(buf, 14) != 4 {
        Err(XprError::NotTexture)
    } else if buf[24] / 16 != 2 {
        Err(XprError::BadDimensionCount)
    } else if spec_format(buf[25]) == XPRFormat::Unknown {
        Err(XprError::UnknownFormat)
    } else {
        Ok(spec_xpr_header(buf))
    }
}

/// Bytes of the top mipmap level.
pub open spec fn spec_pitch(format: XPRFormat, width: nat, height: nat) -> nat {
    match format {
        XPRFormat::DXT1 => {
            let bw = if (width + 3) / 4 > 1 { (width + 3) / 4 } else { 1 };
            let bh = if (height + 3) / 4 > 1 { (height + 3) / 4 } else { 1 };
            (bw * bh * 8) as nat
        },
        XPRFormat::DXT3 => {
            let bw = if (width + 3) / 4 > 1 { (width + 3) / 4 } else { 1 };
            let bh = if (height + 3) / 4 > 1 { (height + 3) / 4 } else { 1 };
            (bw * bh * 16) as nat
        },
        XPRFormat::ARGB_LIN => ((width * height * 32 + 7) / 8) as nat,
        _ => ((width * height * 16 + 7) / 8) as nat,
    }
}

/// The formats whose pitch is known (the others are not supported).
pub open spec fn pitch_known(format: XPRFormat) -> bool {
    format == XPRFormat::DXT1 || format == XPRFormat::DXT3 || format == XPRFormat::ARGB_LIN
        || format == XPRFormat::GB_LIN || format == XPRFormat::L16_LIN
}

/// Computing the pitch does not overflow.
pub open spec fn pitch_fits(width: nat, height: nat) -> bool {
    width + 3 <= usize::MAX && height + 3 <= usize::MAX && width * height * 32 + 7 <= usize::MAX
        && ((width + 3) / 4 + 1) * ((height + 3) / 4 + 1) * 16 <= usize::MAX
}

/// The two bytes of each value, in order.
pub open spec fn u16s_bytes(values: Seq<u16>) -> Seq<u8> {
    Seq::new(
        2 * values.len(),
        |i: int|
            if i % 2 == 0 {
                (values[i / 2] % 256) as u8
            } else {
                (values[i / 2] / 256) as u8
            },
    )
}

/// Calls `LittleEndian::write_u16_into` of byteorder on a zeroed buffer of
/// two bytes per value: the values' little-endian bytes, in order.
#[verifier::external_body]
fn u16s_to_le_bytes(values: &[u16]) -> (r: Vec<u8>)
    requires
        2 * values@.len() <= usize::MAX,
    ensures
        r@ == u16s_bytes(values@),
{
    let mut data: Vec<u8> = vec![0; values.len() * 2];
    LittleEndian::write_u16_into(values, &mut data);
    data
}

impl XPR {
    pub open spec fn data(&self) -> Seq<u8> {
        self.data@
    }

    pub open spec fn dds_path(&self) -> Option<Seq<char>> {
        match self.dds_path {
            Some(p) => Some(p@),
            None => None,
        }
    }

    pub fn data_bytes(&self) -> (r: &[u8])
        ensures
            r@ == self.data(),
    {
        self.data.as_slice()
    }

    /// Reads an XPR texture file: its header, and the pixel data between
    /// the start and end offsets that the header gives.
    pub fn import_xpr(buf: &[u8]) -> (r: Result<Self, XprError>)
        ensures
            match (r, spec_import_xpr(buf@)) {
                (Ok(x), Ok(h)) => x.format == h.format && x.levels == h.levels && x.width == h.width
                    && x.height == h.height && x.depth == h.depth && x.layers == 1 && x.data()
                    == buf@.subrange(h.start as int, h.end as int) && x.dds_path() is None,
                (Err(e), Err(f)) => e == f,
                _ => false,
            },
    {
        if buf.len() < XPR_HEADER_SIZE {
            return Err(XprError::MissingHeader);
        }
        if !(buf[0] == XPR_MAGIC[0] && buf[1] == XPR_MAGIC[1] && buf[2] == XPR_MAGIC[2] && buf[3]
            == XPR_MAGIC[3]) {
            assert(buf@.subrange(0, 4) != XPR_MAGIC@) by {
                if buf@.subrange(0, 4) == XPR_MAGIC@ {
                    assert(buf@.subrange(0, 4)[0] == buf@[0]);
                    assert(buf@.subrange(0, 4)[1] == buf@[1]);
                    assert(buf@.subrange(0, 4)[2] == buf@[2]);
                    assert(buf@.subrange(0, 4)[3] == buf@[3]);
                }
            }
            return Err(XprError::BadMagic);
        }
        assert(buf@.subrange(0, 4) =~= XPR_MAGIC@);
        let file_end: usize = read_u32_le(buf, 4) as usize;
        let file_start: usize = read_u32_le(buf, 8) as usize;
        if file_end <= file_start {
            return Err(XprError::FileEmpty);
        }
        if buf.len() < file_end {
            return Err(XprError::BufTooSmall);
        }
        let xpr_class: u16 = read_u16_le(buf, 14);
        if xpr_class != 4 {
            return Err(XprError::NotTexture);
        }
        let dimension_count: u8 = buf[24] / 16;
        if dimension_count != 2 {
            return Err(XprError::BadDimensionCount);
        }
        let format = XPRFormat::from(buf[25]);
        let mut xpr = XPR {
            format,
            levels: (buf[26] % 16) as usize,
            width: shift_one(buf[26] / 16),
            height: shift_one(buf[27] % 16),
            depth: shift_one(buf[27] / 16),
            layers: 1,
            data: copy_range(buf, file_start, file_end),
            dds_path: None,
        };
        if xpr.format == XPRFormat::Unknown {
            return Err(XprError::UnknownFormat);
        }
        if xpr.format.has_ext_dimensions() {
            let ext_dimension: u32 = read_u32_le(buf, 28);
            xpr.width = (ext_dimension % 4096) as usize + 1;
            xpr.height = ((ext_dimension / 4096) % 4096) as usize + 1;
            xpr.depth = ((ext_dimension / 0x100_0000) % 4096) as usize + 1;
        }
        Ok(xpr)
    }

    /// Reads a raw XRAW texture: a 16-byte header and the top level of
    /// 16-bit pixels (mipmaps are dropped). The buffer must hold the top level.
    pub fn import_xraw(buf: &[u8]) -> (r: Result<Self, XprError>)
        requires
            buf@.len() >= XRAW_HEAD_SIZE && buf@.subrange(0, 4) == XRAW_MAGIC@ && buf@[4] / 16 == 2
                ==> XRAW_HEAD_SIZE + exp2((buf@[6] / 16) as nat) * exp2((buf@[7] % 16) as nat) * 2
                <= buf@.len(),
        ensures
            buf@.len() < XRAW_HEAD_SIZE ==> r == Err::<Self, XprError>(XprError::MissingHeader),
            buf@.len() >= XRAW_HEAD_SIZE && buf@.subrange(0, 4) != XRAW_MAGIC@ ==> r == Err::<
                Self,
                XprError,
            >(XprError::BadMagic),
            buf@.len() >= XRAW_HEAD_SIZE && buf@.subrange(0, 4) == XRAW_MAGIC@ && buf@[4] / 16 != 2
                ==> r == Err::<Self, XprError>(XprError::BadDimensionCount),
            buf@.len() >= XRAW_HEAD_SIZE && buf@.subrange(0, 4) == XRAW_MAGIC@ && buf@[4] / 16 == 2
                ==> (r matches Ok(x) && x.format == spec_format(buf@[5]) && x.levels == 1 && x.width
                == exp2((buf@[6] / 16) as nat) && x.height == exp2((buf@[7] % 16) as nat) && x.depth
                == exp2((buf@[7] / 16) as nat) && x.layers == 1 && x.data() == buf@.subrange(
                XRAW_HEAD_SIZE as int,
                XRAW_HEAD_SIZE + x.width * x.height * 2,
            ) && x.dds_path() is None),
    {
        if buf.len() < XRAW_HEAD_SIZE {
            return Err(XprError::MissingHeader);
        }
        if !(buf[0] == XRAW_MAGIC[0] && buf[1] == XRAW_MAGIC[1] && buf[2] == XRAW_MAGIC[2] && buf[3]
            == XRAW_MAGIC[3]) {
            assert(buf@.subrange(0, 4) != XRAW_MAGIC@) by {
                if buf@.subrange(0, 4) == XRAW_MAGIC@ {
                    assert(buf@.subrange(0, 4)[0] == buf@[0]);
                    assert(buf@.subrange(0, 4)[1] == buf@[1]);
                    assert(buf@.subrange(0, 4)[2] == buf@[2]);
                    assert(buf@.subrange(0, 4)[3] == buf@[3]);
                }
            }
            return Err(XprError::BadMagic);
        }
        assert(buf@.subrange(0, 4) =~= XRAW_MAGIC@);
        let dimension_count: u8 = buf[4] / 16;
        if dimension_count != 2 {
            return Err(XprError::BadDimensionCount);
        }
        let width: usize = shift_one(buf[6] / 16);
        let height: usize = shift_one(buf[7] % 16);
        assert(width * height <= 0x8000 * 0x8000) by (nonlinear_arith)
            requires
                width <= 0x8000,
                height <= 0x8000,
        ;
        let top_level_end: usize = XRAW_HEAD_SIZE + width * height * 2;
        Ok(
            XPR {
                format: XPRFormat::from(buf[5]),
                levels: 1,
                width,
                height,
                depth: shift_one(buf[7] / 16),
                layers: 1,
                data: copy_range(buf, XRAW_HEAD_SIZE, top_level_end),
                dds_path: None,
            },
        )
    }

    /// A single-level linear ARGB texture.
    pub fn new_argb_lin(width: usize, height: usize, data: Vec<u8>) -> (r: Self)
        ensures
            r.format == XPRFormat::ARGB_LIN,
            r.levels == 1,
            r.width == width,
            r.height == height,
            r.depth == 1,
            r.layers == 1,
            r.data() == data@,
            r.dds_path() is None,
    {
        XPR {
            format: XPRFormat::ARGB_LIN,
            levels: 1,
            width,
            height,
            depth: 1,
            layers: 1,
            data,
            dds_path: None,
        }
    }

    /// A single-level linear 16-bit luminance texture of the given values.
    pub fn new_l16_lin(width: usize, height: usize, values: Vec<u16>) -> (r: Self)
        requires
            2 * values@.len() <= usize::MAX,
        ensures
            r.format == XPRFormat::L16_LIN,
            r.levels == 1,
            r.width == width,
            r.height == height,
            r.depth == 1,
            r.layers == 1,
            r.data() == u16s_bytes(values@),
            r.dds_path() is None,
    {
        let data = u16s_to_le_bytes(values.as_slice());
        XPR {
            format: XPRFormat::L16_LIN,
            levels: 1,
            width,
            height,
            depth: 1,
            layers: 1,
            data,
            dds_path: None,
        }
    }

    /// Bytes of the top mipmap level. Only the compressed and linear
    /// formats are supported.
    pub fn get_pitch(&self) -> (r: usize)
        requires
            pitch_known(self.format),
            pitch_fits(self.width as nat, self.height as nat),
        ensures
            r == spec_pitch(self.format, self.width as nat, self.height as nat),
    {
        let w: usize = self.width;
        let h: usize = self.height;
        assert(((w + 3) / 4) * ((h + 3) / 4) * 16 <= ((w + 3) / 4 + 1) * ((h + 3) / 4 + 1) * 16)
            by (nonlinear_arith);
        assert(w * h * 16 <= w * h * 32) by (nonlinear_arith);
        match self.format {
            XPRFormat::DXT1 => {
                let bw: usize = if (w + 3) / 4 > 1 { (w + 3) / 4 } else { 1 };
                let bh: usize = if (h + 3) / 4 > 1 { (h + 3) / 4 } else { 1 };
                assert(bw * bh * 8 <= ((w + 3) / 4 + 1) * ((h + 3) / 4 + 1) * 16)
                    by (nonlinear_arith)
                    requires
                        bw <= (w + 3) / 4 + 1,
                        bh <= (h + 3) / 4 + 1,
                ;
                bw * bh * DXT1_SIZE
            },
            XPRFormat::DXT3 => {
                let bw: usize = if (w + 3) / 4 > 1 { (w + 3) / 4 } else { 1 };
                let bh: usize = if (h + 3) / 4 > 1 { (h + 3) / 4 } else { 1 };
                assert(bw * bh * 16 <= ((w + 3) / 4 + 1) * ((h + 3) / 4 + 1) * 16)
                    by (nonlinear_arith)
                    requires
                        bw <= (w + 3) / 4 + 1,
                        bh <= (h + 3) / 4 + 1,
                ;
                bw * bh * DXT3_SIZE
            },
            XPRFormat::ARGB_LIN => (w * h * 32 + 7) / 8,
            _ => (w * h * 16 + 7) / 8,
        }
    }

    /// Drops the top mipmap level of a single-layer 2D texture with more
    /// than one level: its bytes go and the size halves.
    pub fn discard_top_mipmap(&mut self)
        requires
            old(self).levels > 1 && old(self).depth <= 1 && old(self).layers <= 1 ==> pitch_known(
                old(self).format,
            ) && pitch_fits(old(self).width as nat, old(self).height as nat) && spec_pitch(
                old(self).format,
                old(self).width as nat,
                old(self).height as nat,
            ) <= old(self).data().len(),
        ensures
            final(self).format == old(self).format,
            final(self).depth == old(self).depth,
            final(self).layers == old(self).layers,
            final(self).dds_path() == old(self).dds_path(),
            !(old(self).levels > 1 && old(self).depth <= 1 && old(self).layers <= 1) ==> final(self).levels == old(self).levels && final(self).width == old(self).width && final(self).height
                == old(self).height && final(self).data() == old(self).data(),
            old(self).levels > 1 && old(self).depth <= 1 && old(self).layers <= 1 ==> final(self).levels == old(self).levels - 1 && final(self).width == old(self).width / 2 && final(self).height == old(self).height / 2 && final(self).data() == old(self).data().subrange(
                spec_pitch(old(self).format, old(self).width as nat, old(self).height as nat) as int,
                old(self).data().len() as int,
            ),
    {
        if self.levels <= 1 {
            return;
        }
        if self.depth > 1 {
            return;
        }
        if self.layers > 1 {
            return;
        }
        let pitch: usize = self.get_pitch();
        let n: usize = self.data.len();
        self.data = copy_range(self.data.as_slice(), pitch, n);
        self.levels = self.levels - 1;
        self.width = self.width / 2;
        self.height = self.height / 2;
    }

    /// Keeps only the top mipmap level of a single-layer 2D texture with
    /// more than one level.
    pub fn discard_mipmaps(&mut self)
        requires
            old(self).levels > 1 && old(self).depth <= 1 && old(self).layers <= 1 ==> pitch_known(
                old(self).format,
            ) && pitch_fits(old(self).width as nat, old(self).height as nat),
        ensures
            final(self).format == old(self).format,
            final(self).width == old(self).width,
            final(self).height == old(self).height,
            final(self).depth == old(self).depth,
            final(self).layers == old(self).layers,
            final(self).dds_path() == old(self).dds_path(),
            mipmaps_dropped(*old(self), *final(self)),
            !(old(self).levels > 1 && old(self).depth <= 1 && old(self).layers <= 1) ==> final(self).levels == old(self).levels && final(self).data() == old(self).data(),
            old(self).levels > 1 && old(self).depth <= 1 && old(self).layers <= 1 ==> final(self).levels == 1 && final(self).data() == if spec_pitch(
                old(self).format,
                old(self).width as nat,
                old(self).height as nat,
            ) <= old(self).data().len() {
                old(self).data().subrange(
                    0,
                    spec_pitch(old(self).format, old(self).width as nat, old(self).height as nat)
                        as int,
                )
            } else {
                old(self).data()
            },
    {
        if self.levels <= 1 {
            return;
        }
        if self.depth > 1 {
            return;
        }
        if self.layers > 1 {
            return;
        }
        let pitch: usize = self.get_pitch();
        self.data.truncate(pitch);
        self.levels = 1;
    }

    /// Appends the layers of `layer`, which must have the same width,
    /// height, levels and depth.
    pub fn extend_layers(&mut self, layer: XPR) -> (r: Result<(), XprError>)
        requires
            old(self).layers + layer.layers <= usize::MAX,
        ensures
            final(self).format == old(self).format,
            final(self).width == old(self).width,
            final(self).height == old(self).height,
            final(self).depth == old(self).depth,
            final(self).levels == old(self).levels,
            final(self).dds_path() == old(self).dds_path(),
            old(self).width != layer.width ==> r == Err::<(), XprError>(XprError::WidthMismatch),
            old(self).width == layer.width && old(self).height != layer.height ==> r == Err::<
                (),
                XprError,
            >(XprError::HeightMismatch),
            old(self).width == layer.width && old(self).height == layer.height && old(self).levels
                != layer.levels ==> r == Err::<(), XprError>(XprError::LevelsMismatch),
            old(self).width == layer.width && old(self).height == layer.height && old(self).levels
                == layer.levels && old(self).depth != layer.depth ==> r == Err::<(), XprError>(
                XprError::DepthMismatch,
            ),
            r is Err ==> final(self).layers == old(self).layers && final(self).data() == old(self).data(),
            old(self).width == layer.width && old(self).height == layer.height && old(self).levels
                == layer.levels && old(self).depth == layer.depth ==> r is Ok && final(self).layers
                == old(self).layers + layer.layers && final(self).data() == old(self).data()
                + layer.data(),
    {
        if self.width != layer.width {
            return Err(XprError::WidthMismatch);
        }
        if self.height != layer.height {
            return Err(XprError::HeightMismatch);
        }
        if self.levels != layer.levels {
            return Err(XprError::LevelsMismatch);
        }
        if self.depth != layer.depth {
            return Err(XprError::DepthMismatch);
        }
        self.layers = self.layers + layer.layers;
        let mut more = layer.data;
        self.data.append(&mut more);
        Ok(())
    }

    /// Turns a DXT1 texture into DXT3: every 8-byte block becomes the
    /// 16-byte block with the same look.
    pub fn convert_dxt1_to_dxt3(&mut self) -> (r: Result<(), XprError>)
        ensures
            final(self).width == old(self).width,
            final(self).height == old(self).height,
            final(self).depth == old(self).depth,
            final(self).levels == old(self).levels,
            final(self).layers == old(self).layers,
            final(self).dds_path() == old(self).dds_path(),
            old(self).format != XPRFormat::DXT1 ==> r == Err::<(), XprError>(XprError::NotDxt1),
            old(self).format == XPRFormat::DXT1 && old(self).data().len() % 8 != 0 ==> r == Err::<
                (),
                XprError,
            >(XprError::BadDxt1Length),
            r is Err ==> final(self).format == old(self).format && final(self).data() == old(self).data(),
            old(self).format == XPRFormat::DXT1 && old(self).data().len() % 8 == 0 ==> r is Ok
                && final(self).format == XPRFormat::DXT3 && final(self).data() == dxt3_data(
                old(self).data(),
                old(self).data().len() / 8,
            ),
    {
        if self.format != XPRFormat::DXT1 {
            return Err(XprError::NotDxt1);
        }
        let n: usize = self.data.len();
        if n % DXT1_SIZE != 0 {
            return Err(XprError::BadDxt1Length);
        }
        let out = convert_dxt1_blocks(self.data.as_slice());
        self.data = out;
        self.format = XPRFormat::DXT3;
        Ok(())
    }
}

impl XPR {
    /// The swizzled data can be copied into rows: the sizes fit the masks
    /// and every texel read and written lies inside the data.
    pub open spec fn unswizzle_ready(&self) -> bool {
        let bpp = spec_bytes_per_pixel(self.format);
        &&& self.width <= u32::MAX
        &&& self.height <= u32::MAX
        &&& self.width * bpp <= usize::MAX
        &&& unswizzle_fits(
            self.width as u32,
            self.height as u32,
            bpp,
            self.data@.len(),
            self.data@.len(),
        )
    }

    /// Whether `unswizzle_ready` holds.
    pub fn can_unswizzle(&self) -> (r: bool)
        ensures
            r == self.unswizzle_ready(),
    {
        let bpp = self.format.bytes_per_pixel();
        if self.width > 0xffff_ffff || self.height > 0xffff_ffff {
            return false;
        }
        match self.width.checked_mul(bpp) {
            None => {
                return false;
            },
            Some(_) => {},
        }
        unswizzle_fits_check(self.width as u32, self.height as u32, bpp, self.data.len())
    }

    fn unswizzle_to(&mut self, target: XPRFormat)
        requires
            old(self).unswizzle_ready(),
        ensures
            final(self).format == target,
            unswizzled(
                old(self).data(),
                old(self).width as u32,
                old(self).height as u32,
                spec_bytes_per_pixel(old(self).format),
                final(self).data(),
            ),
            final(self).width == old(self).width,
            final(self).height == old(self).height,
            final(self).depth == old(self).depth,
            final(self).levels == old(self).levels,
            final(self).layers == old(self).layers,
            final(self).dds_path() == old(self).dds_path(),
    {
        let bpp = self.format.bytes_per_pixel();
        let unswizzled_data = unswizzle_image(
            self.data.as_slice(),
            self.width as u32,
            self.height as u32,
            bpp,
        );
        self.data = unswizzled_data;
        self.format = target;
    }

    /// Copies swizzled ARGB data into linear rows (see `unswizzled`).
    pub fn convert_argb_to_argb_lin(&mut self) -> (r: Result<(), XprError>)
        requires
            old(self).format == XPRFormat::ARGB ==> old(self).unswizzle_ready(),
        ensures
            final(self).width == old(self).width,
            final(self).height == old(self).height,
            final(self).depth == old(self).depth,
            final(self).levels == old(self).levels,
            final(self).layers == old(self).layers,
            final(self).dds_path() == old(self).dds_path(),
            old(self).format != XPRFormat::ARGB ==> r == Err::<(), XprError>(XprError::NotArgb)
                && final(self).format == old(self).format && final(self).data() == old(self).data(),
            old(self).format == XPRFormat::ARGB ==> r is Ok && final(self).format
                == XPRFormat::ARGB_LIN && unswizzled(
                old(self).data(),
                old(self).width as u32,
                old(self).height as u32,
                4,
                final(self).data(),
            ),
    {
        if self.format != XPRFormat::ARGB {
            return Err(XprError::NotArgb);
        }
        self.unswizzle_to(XPRFormat::ARGB_LIN);
        Ok(())
    }

    /// Copies swizzled GB data into linear rows (see `unswizzled`).
    pub fn convert_gb_to_gb_lin(&mut self) -> (r: Result<(), XprError>)
        requires
            old(self).format == XPRFormat::GB ==> old(self).unswizzle_ready(),
        ensures
            final(self).width == old(self).width,
            final(self).height == old(self).height,
            final(self).depth == old(self).depth,
            final(self).levels == old(self).levels,
            final(self).layers == old(self).layers,
            final(self).dds_path() == old(self).dds_path(),
            old(self).format != XPRFormat::GB ==> r == Err::<(), XprError>(XprError::NotGb)
                && final(self).format == old(self).format && final(self).data() == old(self).data(),
            old(self).format == XPRFormat::GB ==> r is Ok && final(self).format == XPRFormat::GB_LIN
                && unswizzled(
                old(self).data(),
                old(self).width as u32,
                old(self).height as u32,
                2,
                final(self).data(),
            ),
    {
        if self.format != XPRFormat::GB {
            return Err(XprError::NotGb);
        }
        self.unswizzle_to(XPRFormat::GB_LIN);
        Ok(())
    }
}

impl XPR {
    /// The directory that `path_to_dds` measures from: `path` without its
    /// last component when that component has an extension.
    pub open spec fn spec_dds_base(path: Seq<char>) -> Seq<char> {
        if path_has_extension(path) {
            path_popped(path)
        } else {
            path
        }
    }

    /// The path of the texture's DDS file relative to where `path` lies, or
    /// `None` when the texture was not written as DDS.
    pub fn path_to_dds(&self, path: &str) -> (r: Option<String>)
        ensures
            opt_view(r) == match self.dds_path() {
                Some(d) => relative_path(d, Self::spec_dds_base(path@)),
                None => None,
            },
    {
        let from_path: String = if has_extension(path) {
            pop_path(path)
        } else {
            String::from_str(path)
        };
        match &self.dds_path {
            Some(d) => diff_paths(d.as_str(), from_path.as_str()),
            None => None,
        }
    }
}

/// `b` is a single-layer 2D texture with mipmaps below its top level.
pub open spec fn has_mipmaps(b: XPR) -> bool {
    b.levels > 1 && b.depth <= 1 && b.layers <= 1
}

/// `a` is `b` without its top mipmap level (see `discard_top_mipmap`).
pub open spec fn top_dropped(b: XPR, a: XPR) -> bool {
    &&& a.format == b.format
    &&& a.depth == b.depth
    &&& a.layers == b.layers
    &&& a.dds_path() == b.dds_path()
    &&& !has_mipmaps(b) ==> a.levels == b.levels && a.width == b.width && a.height == b.height
        && a.data() == b.data()
    &&& has_mipmaps(b) ==> a.levels == b.levels - 1 && a.width == b.width / 2 && a.height
        == b.height / 2 && a.data() == b.data().subrange(
        spec_pitch(b.format, b.width as nat, b.height as nat) as int,
        b.data().len() as int,
    )
}

/// `a` is `b` with only its top mipmap level (see `discard_mipmaps`).
pub open spec fn mipmaps_dropped(b: XPR, a: XPR) -> bool {
    &&& a.format == b.format
    &&& a.width == b.width
    &&& a.height == b.height
    &&& a.depth == b.depth
    &&& a.layers == b.layers
    &&& a.dds_path() == b.dds_path()
    &&& !has_mipmaps(b) ==> a.levels == b.levels && a.data() == b.data()
    &&& has_mipmaps(b) ==> a.levels == 1 && a.data() == if spec_pitch(
        b.format,
        b.width as nat,
        b.height as nat,
    ) <= b.data().len() {
        b.data().subrange(0, spec_pitch(b.format, b.width as nat, b.height as nat) as int)
    } else {
        b.data()
    }
}

/// Dropping the mipmaps a second time changes nothing: after the first
/// time the texture has one level, or had none to drop.
pub proof fn lemma_discard_mipmaps_idempotent(a: XPR, b: XPR, c: XPR)
    requires
        mipmaps_dropped(a, b),
        mipmaps_dropped(b, c),
    ensures
        c.format == b.format,
        c.width == b.width,
        c.height == b.height,
        c.depth == b.depth,
        c.layers == b.layers,
        c.levels == b.levels,
        c.data() == b.data(),
        c.dds_path() == b.dds_path(),
{
}

/// The error of adding `l` as layers of `b`: the first size that differs.
pub open spec fn layer_error(b: XPR, l: XPR) -> Option<XprError> {
    if b.width != l.width {
        Some(XprError::WidthMismatch)
    } else if b.height != l.height {
        Some(XprError::HeightMismatch)
    } else if b.levels != l.levels {
        Some(XprError::LevelsMismatch)
    } else if b.depth != l.depth {
        Some(XprError::DepthMismatch)
    } else {
        None
    }
}

/// `a` is `b` with the layers of `l` after its own (see `extend_layers`).
pub open spec fn layer_added(b: XPR, l: XPR, a: XPR) -> bool {
    &&& a.format == b.format
    &&& a.width == b.width
    &&& a.height == b.height
    &&& a.depth == b.depth
    &&& a.levels == b.levels
    &&& a.dds_path() == b.dds_path()
    &&& a.layers == b.layers + l.layers
    &&& a.data() == b.data() + l.data()
}

pub proof fn lemma_pitch_fits_half(w: nat, h: nat)
    requires
        pitch_fits(w, h),
    ensures
        pitch_fits(w / 2, h / 2),
{
    assert((w / 2) * (h / 2) <= w * h) by (nonlinear_arith);
    assert(((w / 2 + 3) / 4 + 1) * ((h / 2 + 3) / 4 + 1) <= ((w + 3) / 4 + 1) * ((h + 3) / 4 + 1))
        by (nonlinear_arith);
}

/// Whether `pitch_fits(width, height)` holds.
pub fn pitch_fits_check(width: usize, height: usize) -> (r: bool)
    ensures
        r == pitch_fits(width as nat, height as nat),
{
    if width > usize::MAX - 3 || height > usize::MAX - 3 {
        return false;
    }
    let area: usize = match width.checked_mul(height) {
        Some(a) => a,
        None => {
            assert(width * height * 32 + 7 > usize::MAX) by (nonlinear_arith)
                requires
                    width * height > usize::MAX,
            ;
            return false;
        },
    };
    if area > (usize::MAX - 7) / 32 {
        return false;
    }
    let bw: usize = (width + 3) / 4 + 1;
    let bh: usize = (height + 3) / 4 + 1;
    let blocks: usize = match bw.checked_mul(bh) {
        Some(b) => b,
        None => {
            assert(bw * bh * 16 > usize::MAX) by (nonlinear_arith)
                requires
                    bw * bh > usize::MAX,
            ;
            return false;
        },
    };
    if blocks > usize::MAX / 16 {
        return false;
    }
    true
}

pub const DDS_PIXELFORMAT_SIZE: u32 = 32;

pub const DDS_SIZE: u32 = 124;

pub const DDS_4CC_DX10: [u8; 4] = [0x44, 0x58, 0x31, 0x30];  // "DX10"

#[allow(non_camel_case_types)]
pub struct DDS_PixelFormat {
    pub flags: u32,
    pub code: [u8; 4],
    pub rgb_bit_count: u32,
    pub r_bit_mask: u32,
    pub g_bit_mask: u32,
    pub b_bit_mask: u32,
    pub a_bit_mask: u32,
}

/// The 32 bytes of a pixel format.
pub open spec fn pixel_format_bytes(p: DDS_PixelFormat) -> Seq<u8> {
    bytes32(32) + bytes32(p.flags as nat) + p.code@ + bytes32(p.rgb_bit_count as nat) + bytes32(
        p.r_bit_mask as nat,
    ) + bytes32(p.g_bit_mask as nat) + bytes32(p.b_bit_mask as nat) + bytes32(p.a_bit_mask as nat)
}

impl DDS_PixelFormat {
    /// An empty pixel format: no flags, no code, no masks.
    pub fn new() -> (r: Self)
        ensures
            r.flags == 0,
            r.code@ == seq![0u8, 0u8, 0u8, 0u8],
            r.rgb_bit_count == 0,
            r.r_bit_mask == 0,
            r.g_bit_mask == 0,
            r.b_bit_mask == 0,
            r.a_bit_mask == 0,
    {
        let r = DDS_PixelFormat {
            flags: 0,
            code: [0, 0, 0, 0],
            rgb_bit_count: 0,
            r_bit_mask: 0,
            g_bit_mask: 0,
            b_bit_mask: 0,
            a_bit_mask: 0,
        };
        assert(r.code@ =~= seq![0u8, 0u8, 0u8, 0u8]);
        r
    }

    pub fn write(&self, writer: &mut Vec<u8>)
        ensures
            final(writer)@ == old(writer)@ + pixel_format_bytes(*self),
    {
        push_u32_le(writer, DDS_PIXELFORMAT_SIZE);
        push_u32_le(writer, self.flags);
        push_bytes(writer, self.code.as_slice());
        push_u32_le(writer, self.rgb_bit_count);
        push_u32_le(writer, self.r_bit_mask);
        push_u32_le(writer, self.g_bit_mask);
        push_u32_le(writer, self.b_bit_mask);
        push_u32_le(writer, self.a_bit_mask);
        assert(final(writer)@ =~= old(writer)@ + pixel_format_bytes(*self));
    }
}

#[allow(non_camel_case_types)]
pub struct DDS_dx10 {
    pub dxgi_format: u32,
    pub resource_dimension: u32,
    pub misc_flags: [u32; 2],
    pub array_size: u32,
}

/// The 20 bytes of the DX10 extension (note the order of the last three words).
pub open spec fn dx10_bytes(d: DDS_dx10) -> Seq<u8> {
    bytes32(d.dxgi_format as nat) + bytes32(d.resource_dimension as nat) + bytes32(
        d.misc_flags@[0] as nat,
    ) + bytes32(d.array_size as nat) + bytes32(d.misc_flags@[1] as nat)
}

impl DDS_dx10 {
    pub fn write(&self, writer: &mut Vec<u8>)
        ensures
            final(writer)@ == old(writer)@ + dx10_bytes(*self),
    {
        push_u32_le(writer, self.dxgi_format);
        push_u32_le(writer, self.resource_dimension);
        push_u32_le(writer, self.misc_flags[0]);
        push_u32_le(writer, self.array_size);
        push_u32_le(writer, self.misc_flags[1]);
        assert(final(writer)@ =~= old(writer)@ + dx10_bytes(*self));
    }
}

/// A DDS header with its DX10 extension.
pub struct DDS {
    pub flags: u32,
    pub height: u32,
    pub width: u32,
    pub pitch: u32,
    pub depth: u32,
    pub levels: u32,
    pub format: DDS_PixelFormat,
    pub caps: [u32; 4],
    pub dx10: DDS_dx10,
}

/// The formats that have a DDS equivalent.
pub open spec fn dds_known(format: XPRFormat) -> bool {
    pitch_known(format)
}

/// The DDS header bytes (after the magic).
pub open spec fn dds_header_bytes(d: DDS) -> Seq<u8> {
    bytes32(124) + bytes32(d.flags as nat) + bytes32(d.height as nat) + bytes32(d.width as nat)
        + bytes32(d.pitch as nat) + bytes32(d.depth as nat) + bytes32(d.levels as nat) + Seq::new(
        44,
        |i: int| 0u8,
    ) + pixel_format_bytes(d.format) + bytes32(d.caps@[0] as nat) + bytes32(d.caps@[1] as nat)
        + bytes32(d.caps@[2] as nat) + bytes32(d.caps@[3] as nat) + bytes32(0) + if d.format.code@
        == DDS_4CC_DX10@ {
        dx10_bytes(d.dx10)
    } else {
        Seq::empty()
    }
}

/// The header flags: caps, height, width, pixel format; a depth for volume
/// textures; how the pitch is counted.
pub open spec fn spec_dds_flags(format: XPRFormat, depth: u32) -> u32 {
    if format == XPRFormat::DXT1 || format == XPRFormat::DXT3 {
        if depth > 1 {
            0x881007
        } else {
            0x81007
        }
    } else {
        if depth > 1 {
            0x80100F
        } else {
            0x100F
        }
    }
}

/// The first capability word: a texture, complex when it has depth or
/// mipmaps, with mipmaps when it has levels.
pub open spec fn spec_dds_caps0(depth: u32, levels: u32) -> u32 {
    if levels > 1 {
        0x401008
    } else if depth > 1 {
        0x1008
    } else {
        0x1000
    }
}

/// The DXGI format of each texture format.
pub open spec fn spec_dxgi(format: XPRFormat) -> u32 {
    match format {
        XPRFormat::DXT1 => 71,
        XPRFormat::DXT3 => 74,
        XPRFormat::ARGB_LIN => 87,
        XPRFormat::GB_LIN => 49,
        _ => 57,
    }
}

/// `d` is the DDS header that describes the texture `x`.
pub open spec fn dds_describes(d: DDS, x: XPR) -> bool {
    &&& d.flags == spec_dds_flags(x.format, x.depth as u32)
    &&& d.height == x.height as u32
    &&& d.width == x.width as u32
    &&& d.pitch == spec_pitch(x.format, x.width as nat, x.height as nat) as u32
    &&& d.depth == x.depth as u32
    &&& d.levels == x.levels as u32
    &&& d.caps@ == seq![
        spec_dds_caps0(x.depth as u32, x.levels as u32),
        if x.depth as u32 > 1 { 0x200000u32 } else { 0u32 },
        0u32,
        0u32,
    ]
    &&& d.format.code@ == DDS_4CC_DX10@
    &&& d.format.flags == match x.format {
        XPRFormat::ARGB_LIN => 0x45u32,
        XPRFormat::GB_LIN | XPRFormat::L16_LIN => 0x44u32,
        _ => 0x4u32,
    }
    &&& d.format.rgb_bit_count == match x.format {
        XPRFormat::ARGB_LIN => 32,
        XPRFormat::GB_LIN | XPRFormat::L16_LIN => 16,
        _ => 0u32,
    }
    &&& d.format.a_bit_mask == if x.format == XPRFormat::ARGB_LIN { 0xFF000000u32 } else { 0 }
    &&& d.format.r_bit_mask == match x.format {
        XPRFormat::ARGB_LIN => 0x00FF0000,
        XPRFormat::GB_LIN => 0x00FF,
        XPRFormat::L16_LIN => 0xFFFF,
        _ => 0u32,
    }
    &&& d.format.g_bit_mask == match x.format {
        XPRFormat::ARGB_LIN => 0x0000FF00,
        XPRFormat::GB_LIN => 0xFF00,
        _ => 0u32,
    }
    &&& d.format.b_bit_mask == if x.format == XPRFormat::ARGB_LIN { 0x000000FFu32 } else { 0 }
    &&& d.dx10.dxgi_format == spec_dxgi(x.format)
    &&& d.dx10.resource_dimension == 3
    &&& d.dx10.misc_flags@ == seq![0u32, 0u32]
    &&& d.dx10.array_size == x.layers as u32
}


/// The DDS header of a texture gives its pitch, size and layer count, is
/// complex exactly when the texture has depth or mipmaps, says mipmaps
/// exactly when it has them, and says depth (in its flags and second
/// capability word) exactly when it has depth.
pub proof fn lemma_dds_header_law(d: DDS, x: XPR)
    requires
        dds_describes(d, x),
    ensures
        d.pitch == spec_pitch(x.format, x.width as nat, x.height as nat) as u32,
        d.width == x.width as u32,
        d.height == x.height as u32,
        d.dx10.array_size == x.layers as u32,
        (d.caps@[0] & 0x8 != 0) == (x.depth as u32 > 1 || x.levels as u32 > 1),
        (d.caps@[0] & 0x400000 != 0) == (x.levels as u32 > 1),
        (d.flags & 0x800000 != 0) == (x.depth as u32 > 1),
        (d.caps@[1] & 0x200000 != 0) == (x.depth as u32 > 1),
{
    let c0 = d.caps@[0];
    let c1 = d.caps@[1];
    let f = d.flags;
    assert((0x401008u32 & 0x8u32) != 0 && (0x1008u32 & 0x8u32) != 0 && (0x1000u32 & 0x8u32) == 0
        && (0x401008u32 & 0x400000u32) != 0 && (0x1008u32 & 0x400000u32) == 0 && (0x1000u32
        & 0x400000u32) == 0 && (0x881007u32 & 0x800000u32) != 0 && (0x81007u32 & 0x800000u32) == 0
        && (0x80100Fu32 & 0x800000u32) != 0 && (0x100Fu32 & 0x800000u32) == 0 && (0x200000u32
        & 0x200000u32) != 0 && (0u32 & 0x200000u32) == 0) by (bit_vector);
}

impl DDS {
    /// The DDS header that describes the texture.
    pub fn from(xpr: &XPR) -> (r: Self)
        requires
            dds_known(xpr.format),
            pitch_fits(xpr.width as nat, xpr.height as nat),
        ensures
            dds_describes(r, *xpr),
    {
        assert(0x1u32 | 0x2u32 | 0x4u32 | 0x1000u32 == 0x1007u32 && (0x1007u32 | 0x800000u32)
            == 0x801007u32 && (0x1007u32 | 0x80000u32) == 0x81007u32 && (0x801007u32 | 0x80000u32)
            == 0x881007u32 && (0x1007u32 | 0x8u32) == 0x100Fu32 && (0x801007u32 | 0x8u32)
            == 0x80100Fu32 && (0x1000u32 | 0x8u32) == 0x1008u32 && (0x1008u32 | 0x400000u32)
            == 0x401008u32 && (0u32 | 0x200000u32) == 0x200000u32 && (0u32 | 0x4u32) == 0x4u32 && (
        0x4u32 | 0x1u32 | 0x40u32) == 0x45u32 && (0x4u32 | 0x40u32) == 0x44u32) by (bit_vector);
        let mut dds = DDS {
            flags: 0x1 | 0x2 | 0x4 | 0x1000,
            height: xpr.height as u32,
            width: xpr.width as u32,
            pitch: 0,
            depth: xpr.depth as u32,
            levels: xpr.levels as u32,
            format: DDS_PixelFormat::new(),
            caps: [0x1000, 0, 0, 0],
            dx10: DDS_dx10 {
                dxgi_format: 0,
                resource_dimension: 3,
                misc_flags: [0, 0],
                array_size: xpr.layers as u32,
            },
        };
        if dds.depth > 1 || dds.levels > 1 {
            // A complex texture.
            dds.caps[0] = dds.caps[0] | 0x8;
        }
        if dds.levels > 1 {
            // A mipmap texture.
            dds.caps[0] = dds.caps[0] | 0x400000;
        }
        if dds.depth > 1 {
            // A 3D volume texture.
            dds.caps[1] = dds.caps[1] | 0x200000;
            dds.flags = dds.flags | 0x800000;
        }
        dds.format.code = DDS_4CC_DX10;
        dds.format.flags = dds.format.flags | 0x4;
        let pitch: usize = xpr.get_pitch();
        match xpr.format {
            XPRFormat::DXT1 => {
                dds.flags = dds.flags | 0x80000;
                dds.dx10.dxgi_format = 71;
            },
            XPRFormat::DXT3 => {
                dds.flags = dds.flags | 0x80000;
                dds.dx10.dxgi_format = 74;
            },
            XPRFormat::ARGB_LIN => {
                dds.flags = dds.flags | 0x8;
                dds.format.flags = dds.format.flags | 0x1 | 0x40;
                dds.dx10.dxgi_format = 87;
                dds.format.rgb_bit_count = 32;
                dds.format.a_bit_mask = 0xFF000000;
                dds.format.r_bit_mask = 0x00FF0000;
                dds.format.g_bit_mask = 0x0000FF00;
                dds.format.b_bit_mask = 0x000000FF;
            },
            XPRFormat::GB_LIN => {
                dds.flags = dds.flags | 0x8;
                dds.format.flags = dds.format.flags | 0x40;
                dds.dx10.dxgi_format = 49;
                dds.format.rgb_bit_count = 16;
                dds.format.g_bit_mask = 0xFF00;
                dds.format.r_bit_mask = 0x00FF;
            },
            _ => {
                dds.flags = dds.flags | 0x8;
                dds.format.flags = dds.format.flags | 0x40;
                dds.dx10.dxgi_format = 57;
                dds.format.rgb_bit_count = 16;
                dds.format.r_bit_mask = 0xFFFF;
            },
        }
        dds.pitch = pitch as u32;
        assert(dds.caps@ =~= seq![
            spec_dds_caps0(xpr.depth as u32, xpr.levels as u32),
            if xpr.depth as u32 > 1 { 0x200000u32 } else { 0u32 },
            0u32,
            0u32,
        ]);
        assert(dds.dx10.misc_flags@ =~= seq![0u32, 0u32]);
        dds
    }

    /// Writes the header (after the magic).
    #[verifier::rlimit(60)]
    pub fn write(&self, writer: &mut Vec<u8>)
        ensures
            final(writer)@ == old(writer)@ + dds_header_bytes(*self),
    {
        let ghost w0 = writer@;
        assert(writer@ =~= w0 + Seq::empty());
        push_word(writer, DDS_SIZE, Ghost(w0), Ghost(Seq::empty()));
        let ghost p = bytes32(124);
        assert(Seq::<u8>::empty() + bytes32(124) =~= p);
        push_word(writer, self.flags, Ghost(w0), Ghost(p));
        let ghost p = p + bytes32(self.flags as nat);
        push_word(writer, self.height, Ghost(w0), Ghost(p));
        let ghost p = p + bytes32(self.height as nat);
        push_word(writer, self.width, Ghost(w0), Ghost(p));
        let ghost p = p + bytes32(self.width as nat);
        push_word(writer, self.pitch, Ghost(w0), Ghost(p));
        let ghost p = p + bytes32(self.pitch as nat);
        push_word(writer, self.depth, Ghost(w0), Ghost(p));
        let ghost p = p + bytes32(self.depth as nat);
        push_word(writer, self.levels, Ghost(w0), Ghost(p));
        let ghost p = p + bytes32(self.levels as nat);
        // Reserved
        push_zero_words(writer, 11);
        proof {
            vstd::seq_lib::lemma_concat_associative(w0, p, Seq::new(44, |i: int| 0u8));
        }
        let ghost p = p + Seq::new(44, |i: int| 0u8);
        self.format.write(writer);
        proof {
            vstd::seq_lib::lemma_concat_associative(w0, p, pixel_format_bytes(self.format));
        }
        let ghost p = p + pixel_format_bytes(self.format);
        push_word(writer, self.caps[0], Ghost(w0), Ghost(p));
        let ghost p = p + bytes32(self.caps@[0] as nat);
        push_word(writer, self.caps[1], Ghost(w0), Ghost(p));
        let ghost p = p + bytes32(self.caps@[1] as nat);
        push_word(writer, self.caps[2], Ghost(w0), Ghost(p));
        let ghost p = p + bytes32(self.caps@[2] as nat);
        push_word(writer, self.caps[3], Ghost(w0), Ghost(p));
        let ghost p = p + bytes32(self.caps@[3] as nat);
        // Reserved
        push_word(writer, 0, Ghost(w0), Ghost(p));
        let ghost p = p + bytes32(0);
        let c = self.format.code;
        if c[0] == DDS_4CC_DX10[0] && c[1] == DDS_4CC_DX10[1] && c[2] == DDS_4CC_DX10[2] && c[3]
            == DDS_4CC_DX10[3] {
            assert(self.format.code@ =~= DDS_4CC_DX10@);
            self.dx10.write(writer);
            proof {
                vstd::seq_lib::lemma_concat_associative(w0, p, dx10_bytes(self.dx10));
            }
        } else {
            assert(self.format.code@ != DDS_4CC_DX10@) by {
                if self.format.code@ == DDS_4CC_DX10@ {
                    assert(self.format.code@[0] == DDS_4CC_DX10@[0]);
                    assert(self.format.code@[1] == DDS_4CC_DX10@[1]);
                    assert(self.format.code@[2] == DDS_4CC_DX10@[2]);
                    assert(self.format.code@[3] == DDS_4CC_DX10@[3]);
                }
            }
            assert(p + Seq::<u8>::empty() =~= p);
        }
    }
}

/// Appends the four bytes of `v`, keeping track of what was written since `w0`.
fn push_word(writer: &mut Vec<u8>, v: u32, Ghost(w0): Ghost<Seq<u8>>, Ghost(p): Ghost<Seq<u8>>)
    requires
        old(writer)@ == w0 + p,
    ensures
        final(writer)@ == w0 + (p + bytes32(v as nat)),
{
    push_u32_le(writer, v);
    proof {
        vstd::seq_lib::lemma_concat_associative(w0, p, bytes32(v as nat));
    }
}

/// Appends `n` zero words.
fn push_zero_words(writer: &mut Vec<u8>, n: usize)
    requires
        n <= 64,
    ensures
        final(writer)@ == old(writer)@ + Seq::new((4 * n) as nat, |j: int| 0u8),
{
    let ghost w1 = writer@;
    let mut i: usize = 0;
    while i < n
        invariant
            i <= n <= 64,
            writer@ == w1 + Seq::new((4 * i) as nat, |j: int| 0u8),
        decreases n - i,
    {
        push_u32_le(writer, 0);
        assert(bytes32(0) =~= seq![0u8, 0u8, 0u8, 0u8]);
        i = i + 1;
        assert(writer@ =~= w1 + Seq::new((4 * i) as nat, |j: int| 0u8));
    }
}

impl XPR {
    /// The bytes of the DDS file of the texture: the magic, the header and the data.
    pub fn dds_bytes(&self) -> (r: Vec<u8>)
        requires
            dds_known(self.format),
            pitch_fits(self.width as nat, self.height as nat),
        ensures
            exists|d: DDS|
                #![trigger dds_header_bytes(d)]
                dds_describes(d, *self) && r@ == DDS_MAGIC@ + dds_header_bytes(d) + self.data(),
    {
        let mut writer: Vec<u8> = Vec::new();
        push_bytes(&mut writer, DDS_MAGIC.as_slice());
        let dds = DDS::from(self);
        dds.write(&mut writer);
        push_bytes(&mut writer, self.data.as_slice());
        assert(writer@ =~= DDS_MAGIC@ + dds_header_bytes(dds) + self.data());
        writer
    }

    /// Records where the texture was written as DDS.
    pub fn set_dds_path(&mut self, path: String)
        ensures
            final(self).dds_path() == Some(path@),
            final(self).format == old(self).format,
            final(self).width == old(self).width,
            final(self).height == old(self).height,
            final(self).depth == old(self).depth,
            final(self).levels == old(self).levels,
            final(self).layers == old(self).layers,
            final(self).data() == old(self).data(),
    {
        self.dds_path = Some(path);
    }
}

} // verus!
