//! Textures as the first title's tools read them: six formats, no layers,
//! raw XRAW files that keep all their data, and the plain DDS header (no
//! DX10 extension).
use vstd::prelude::*;

use crate::bbtools::swizzle::{unswizzle_fits, unswizzle_image, unswizzled};
use crate::bbtools::xpr::{
    convert_dxt1_blocks, dxt3_data, exp2, pitch_fits, pixel_format_bytes, shift_one,
    DDS_PixelFormat, XprError, DDS_MAGIC, XPR_HEADER_SIZE, XPR_MAGIC, XRAW_HEAD_SIZE, XRAW_MAGIC,
};
use crate::bytes::{bytes32, copy_range, le16, le32, push_bytes, push_u32_le, read_u16_le, read_u32_le};

verus! {

/// These correspond to the Xbox formats `X_D3DFMT_*`.
#[allow(non_camel_case_types)]
#[derive(PartialEq, Eq, Structural, Clone, Copy, Debug)]
pub enum XPRFormat {
    Unknown,
    ARGB,
    DXT1,
    DXT3,
    ARGB_LIN,
    GB_LIN,
    GB,
}

pub open spec fn spec_format(code: u8) -> XPRFormat {
    match code {
        0x06 => XPRFormat::ARGB,
        0x0C => XPRFormat::DXT1,
        0x0E => XPRFormat::DXT3,
        0x12 => XPRFormat::ARGB_LIN,
        0x17 => XPRFormat::GB_LIN,
        0x28 => XPRFormat::GB,
        _ => XPRFormat::Unknown,
    }
}

pub open spec fn spec_bytes_per_pixel(f: XPRFormat) -> nat {
    match f {
        XPRFormat::ARGB | XPRFormat::ARGB_LIN => 4,
        XPRFormat::GB_LIN | XPRFormat::GB => 2,
        _ => 0,
    }
}

/// The `X_D3DFMT` code of each known format (0x06: ARGB, 0x0C: DXT1, 0x0E: DXT3, 0x12: ARGB_LIN, 0x17: GB_LIN, 0x28: GB).
pub open spec fn d3d_format_code(f: XPRFormat) -> Option<u8> {
    match f {
        XPRFormat::ARGB => Some(0x06u8),
        XPRFormat::DXT1 => Some(0x0Cu8),
        XPRFormat::DXT3 => Some(0x0Eu8),
        XPRFormat::ARGB_LIN => Some(0x12u8),
        XPRFormat::GB_LIN => Some(0x17u8),
        XPRFormat::GB => Some(0x28u8),
        XPRFormat::Unknown => None,
    }
}

/// Each known format is read from its own code and from no other: the
/// format of a code is the one whose code it is, and every known format
/// has a code that gives it.
pub proof fn lemma_format_codes(code: u8, f: XPRFormat)
    ensures
        spec_format(code) != XPRFormat::Unknown ==> d3d_format_code(spec_format(code)) == Some(code),
        d3d_format_code(f) matches Some(c) ==> spec_format(c) == f,
        spec_format(code) == XPRFormat::Unknown <==> !(exists|g: XPRFormat| d3d_format_code(g) == Some(code)),
{
    if spec_format(code) == XPRFormat::Unknown {
        assert forall|g: XPRFormat| d3d_format_code(g) != Some(code) by {
            if d3d_format_code(g) == Some(code) {
                assert(spec_format(code) == g);
            }
        }
    } else {
        assert(d3d_format_code(spec_format(code)) == Some(code));
    }
}

impl XPRFormat {
    pub fn from(format: u8) -> (r: Self)
        ensures
            r == spec_format(format),
            r != XPRFormat::Unknown ==> d3d_format_code(r) == Some(format),
    {
        match format {
            0x06 => XPRFormat::ARGB,
            0x0C => XPRFormat::DXT1,
            0x0E => XPRFormat::DXT3,
            0x12 => XPRFormat::ARGB_LIN,
            0x17 => XPRFormat::GB_LIN,
            0x28 => XPRFormat::GB,
            _ => XPRFormat::Unknown,
        }
    }

    /// Only linear ARGB stores its size in the extended dimension word.
    pub fn has_ext_dimensions(&self) -> (r: bool)
        ensures
            r == (*self == XPRFormat::ARGB_LIN),
    {
        match self {
            XPRFormat::ARGB_LIN => true,
            _ => false,
        }
    }

    pub fn is_swizzled(&self) -> (r: bool)
        ensures
            r == (*self == XPRFormat::ARGB),
    {
        match self {
            XPRFormat::ARGB => true,
            _ => false,
        }
    }

    /// Bytes per pixel of the uncompressed formats (0 for the others).
    pub fn bytes_per_pixel(&self) -> (r: usize)
        ensures
            r == spec_bytes_per_pixel(*self),
    {
        match self {
            XPRFormat::ARGB => 4,
            XPRFormat::ARGB_LIN => 4,
            XPRFormat::GB_LIN => 2,
            XPRFormat::GB => 2,
            _ => 0,
        }
    }
}

/// A texture: its format, mipmap levels, size and pixel data.
pub struct XPR {
    pub format: XPRFormat,
    pub levels: usize,
    pub width: usize,
    pub height: usize,
    pub depth: usize,
    pub data: Vec<u8>,
}

/// The result of reading an XPR file: the texture, or the first check that
/// fails. The size comes from the extended dimension word for linear ARGB,
/// else from the powers of two of the header.
pub open spec fn import_xpr_result(buf: Seq<u8>, x: XPR) -> bool {
    let format = spec_format(buf[25]);
    let ext = le32(buf, 28);
    &&& x.format == format
    &&& x.levels == buf[26] % 16
    &&& x.width == if format == XPRFormat::ARGB_LIN { ext % 4096 + 1 } else { exp2((buf[26] / 16) as nat) }
    &&& x.height == if format == XPRFormat::ARGB_LIN {
        (ext / 4096) % 4096 + 1
    } else {
        exp2((buf[27] % 16) as nat)
    }
    &&& x.depth == if format == XPRFormat::ARGB_LIN {
        (ext / 0x100_0000) % 4096 + 1
    } else {
        exp2((buf[27] / 16) as nat)
    }
    &&& x.data@ == buf.subrange(le32(buf, 8) as int, le32(buf, 4) as int)
}

/// The first check that an XPR file fails, if any.
pub open spec fn import_xpr_error(buf: Seq<u8>) -> Option<XprError> {
    if buf.len() < XPR_HEADER_SIZE {
        Some(XprError::MissingHeader)
    } else if buf.subrange(0, 4) != XPR_MAGIC@ {
        Some(XprError::BadMagic)
    } else if le32(buf, 4) <= le32(buf, 8) {
        Some(XprError::FileEmpty)
    } else if buf.len() < le32(buf, 4) {
        Some(XprError::BufTooSmall)
    } else if le16(buf, 14) != 4 {
        Some(XprError::NotTexture)
    } else if buf[24] / 16 != 2 {
        Some(XprError::BadDimensionCount)
    } else if spec_format(buf[25]) == XPRFormat::Unknown {
        Some(XprError::UnknownFormat)
    } else {
        None
    }
}

proof fn lemma_magic(buf: Seq<u8>, magic: Seq<u8>)
    requires
        buf.len() >= 4,
        magic.len() == 4,
    ensures
        (buf.subrange(0, 4) == magic) == (buf[0] == magic[0] && buf[1] == magic[1] && buf[2]
            == magic[2] && buf[3] == magic[3]),
{
    if buf[0] == magic[0] && buf[1] == magic[1] && buf[2] == magic[2] && buf[3] == magic[3] {
        assert(buf.subrange(0, 4) =~= magic);
    }
    if buf.subrange(0, 4) == magic {
        assert(buf.subrange(0, 4)[0] == buf[0]);
        assert(buf.subrange(0, 4)[1] == buf[1]);
        assert(buf.subrange(0, 4)[2] == buf[2]);
        assert(buf.subrange(0, 4)[3] == buf[3]);
    }
}

impl XPR {
    /// Reads an XPR texture file: its header, and the pixel data between
    /// the start and end offsets that the header gives.
    pub fn import_xpr(buf: &[u8]) -> (r: Result<Self, XprError>)
        ensures
            match import_xpr_error(buf@) {
                Some(e) => r == Err::<Self, XprError>(e),
                None => r matches Ok(x) && import_xpr_result(buf@, x),
            },
    {
        if buf.len() < XPR_HEADER_SIZE {
            return Err(XprError::MissingHeader);
        }
        proof {
            lemma_magic(buf@, XPR_MAGIC@);
        }
        if !(buf[0] == XPR_MAGIC[0] && buf[1] == XPR_MAGIC[1] && buf[2] == XPR_MAGIC[2] && buf[3]
            == XPR_MAGIC[3]) {
            return Err(XprError::BadMagic);
        }
        let file_end: usize = read_u32_le(buf, 4) as usize;
        let file_start: usize = read_u32_le(buf, 8) as usize;
        if file_end <= file_start {
            return Err(XprError::FileEmpty);
        }
        if buf.len() < file_end {
            return Err(XprError::BufTooSmall);
        }
        if read_u16_le(buf, 14) != 4 {
            return Err(XprError::NotTexture);
        }
        if buf[24] / 16 != 2 {
            return Err(XprError::BadDimensionCount);
        }
        let mut xpr = XPR {
            format: XPRFormat::from(buf[25]),
            levels: (buf[26] % 16) as usize,
            width: shift_one(buf[26] / 16),
            height: shift_one(buf[27] % 16),
            depth: shift_one(buf[27] / 16),
            data: copy_range(buf, file_start, file_end),
        };
        if xpr.format == XPRFormat::Unknown {
            return Err(XprError::UnknownFormat);
        }
        if xpr.format.has_ext_dimensions() {
            let ext_dimension: u32 = read_u32_le(buf, 28);
            xpr.width = (ext_dimension % 4096) as usize + 1;
            xpr.height = ((ext_dimension / 4096) % 4096) as usize + 1;
            xpr.depth = ((ext_dimension / 0x100_0000) % 4096) as usize + 1;
        }
        Ok(xpr)
    }

    /// Reads a raw XRAW texture: a 16-byte header and all the data after it.
    pub fn import_xraw(buf: &[u8]) -> (r: Result<Self, XprError>)
        ensures
            buf@.len() < XRAW_HEAD_SIZE ==> r == Err::<Self, XprError>(XprError::MissingHeader),
            buf@.len() >= XRAW_HEAD_SIZE && buf@.subrange(0, 4) != XRAW_MAGIC@ ==> r == Err::<
                Self,
                XprError,
            >(XprError::BadMagic),
            buf@.len() >= XRAW_HEAD_SIZE && buf@.subrange(0, 4) == XRAW_MAGIC@ && buf@[4] / 16 != 2
                ==> r == Err::<Self, XprError>(XprError::BadDimensionCount),
            buf@.len() >= XRAW_HEAD_SIZE && buf@.subrange(0, 4) == XRAW_MAGIC@ && buf@[4] / 16 == 2
                ==> (r matches Ok(x) && x.format == spec_format(buf@[5]) && x.levels == buf@[6] % 16
                && x.width == exp2((buf@[6] / 16) as nat) && x.height == exp2((buf@[7] % 16) as nat)
                && x.depth == exp2((buf@[7] / 16) as nat) && x.data@ == buf@.subrange(
                XRAW_HEAD_SIZE as int,
                buf@.len() as int,
            )),
    {
        if buf.len() < XRAW_HEAD_SIZE {
            return Err(XprError::MissingHeader);
        }
        proof {
            lemma_magic(buf@, XRAW_MAGIC@);
        }
        if !(buf[0] == XRAW_MAGIC[0] && buf[1] == XRAW_MAGIC[1] && buf[2] == XRAW_MAGIC[2] && buf[3]
            == XRAW_MAGIC[3]) {
            return Err(XprError::BadMagic);
        }
        if buf[4] / 16 != 2 {
            return Err(XprError::BadDimensionCount);
        }
        Ok(
            XPR {
                format: XPRFormat::from(buf[5]),
                levels: (buf[6] % 16) as usize,
                width: shift_one(buf[6] / 16),
                height: shift_one(buf[7] % 16),
                depth: shift_one(buf[7] / 16),
                data: copy_range(buf, XRAW_HEAD_SIZE, buf.len()),
            },
        )
    }

    /// Turns a DXT1 texture into DXT3: every 8-byte block becomes the
    /// 16-byte block with the same look.
    pub fn convert_dxt1_to_dxt3(&mut self) -> (r: Result<(), XprError>)
        ensures
            final(self).width == old(self).width,
            final(self).height == old(self).height,
            final(self).depth == old(self).depth,
            final(self).levels == old(self).levels,
            old(self).format != XPRFormat::DXT1 ==> r == Err::<(), XprError>(XprError::NotDxt1),
            old(self).format == XPRFormat::DXT1 && old(self).data@.len() % 8 != 0 ==> r == Err::<
                (),
                XprError,
            >(XprError::BadDxt1Length),
            r is Err ==> final(self).format == old(self).format && final(self).data@ == old(self).data@,
            old(self).format == XPRFormat::DXT1 && old(self).data@.len() % 8 == 0 ==> r is Ok
                && final(self).format == XPRFormat::DXT3 && final(self).data@ == dxt3_data(
                old(self).data@,
                old(self).data@.len() / 8,
            ),
    {
        if self.format != XPRFormat::DXT1 {
            return Err(XprError::NotDxt1);
        }
        if self.data.len() % 8 != 0 {
            return Err(XprError::BadDxt1Length);
        }
        self.data = convert_dxt1_blocks(self.data.as_slice());
        self.format = XPRFormat::DXT3;
        Ok(())
    }

    /// The swizzled data can be copied into rows (see `unswizzle_fits`).
    pub open spec fn unswizzle_ready(&self) -> bool {
        let bpp = spec_bytes_per_pixel(self.format);
        &&& self.width <= u32::MAX
        &&& self.height <= u32::MAX
        &&& self.width * bpp <= usize::MAX
        &&& unswizzle_fits(self.width as u32, self.height as u32, bpp, self.data@.len(), self.data@.len())
    }

    /// Whether `unswizzle_ready` holds.
    pub fn can_unswizzle(&self) -> (r: bool)
        ensures
            r == self.unswizzle_ready(),
    {
        let bpp = self.format.bytes_per_pixel();
        if self.width > 0xffff_ffff || self.height > 0xffff_ffff {
            return false;
        }
        match self.width.checked_mul(bpp) {
            None => {
                return false;
            },
            Some(_) => {},
        }
        crate::bbtools::swizzle::unswizzle_fits_check(
            self.width as u32,
            self.height as u32,
            bpp,
            self.data.len(),
        )
    }

    fn unswizzle_to(&mut self, target: XPRFormat)
        requires
            old(self).unswizzle_ready(),
        ensures
            final(self).format == target,
            unswizzled(
                old(self).data@,
                old(self).width as u32,
                old(self).height as u32,
                spec_bytes_per_pixel(old(self).format),
                final(self).data@,
            ),
            final(self).width == old(self).width,
            final(self).height == old(self).height,
            final(self).depth == old(self).depth,
            final(self).levels == old(self).levels,
    {
        let bpp = self.format.bytes_per_pixel();
        let unswizzled_data = unswizzle_image(
            self.data.as_slice(),
            self.width as u32,
            self.height as u32,
            bpp,
        );
        self.data = unswizzled_data;
        self.format = target;
    }

    /// Copies swizzled ARGB data into linear rows (see `unswizzled`).
    pub fn convert_argb_to_argb_lin(&mut self) -> (r: Result<(), XprError>)
        requires
            old(self).format == XPRFormat::ARGB ==> old(self).unswizzle_ready(),
        ensures
            final(self).width == old(self).width,
            final(self).height == old(self).height,
            final(self).depth == old(self).depth,
            final(self).levels == old(self).levels,
            old(self).format != XPRFormat::ARGB ==> r == Err::<(), XprError>(XprError::NotArgb)
                && final(self).format == old(self).format && final(self).data@ == old(self).data@,
            old(self).format == XPRFormat::ARGB ==> r is Ok && final(self).format
                == XPRFormat::ARGB_LIN && unswizzled(
                old(self).data@,
                old(self).width as u32,
                old(self).height as u32,
                4,
                final(self).data@,
            ),
    {
        if self.format != XPRFormat::ARGB {
            return Err(XprError::NotArgb);
        }
        self.unswizzle_to(XPRFormat::ARGB_LIN);
        Ok(())
    }

    /// Copies swizzled GB data into linear rows (see `unswizzled`).
    pub fn convert_gb_to_gb_lin(&mut self) -> (r: Result<(), XprError>)
        requires
            old(self).format == XPRFormat::GB ==> old(self).unswizzle_ready(),
        ensures
            final(self).width == old(self).width,
            final(self).height == old(self).height,
            final(self).depth == old(self).depth,
            final(self).levels == old(self).levels,
            old(self).format != XPRFormat::GB ==> r == Err::<(), XprError>(XprError::NotGb)
                && final(self).format == old(self).format && final(self).data@ == old(self).data@,
            old(self).format == XPRFormat::GB ==> r is Ok && final(self).format == XPRFormat::GB_LIN
                && unswizzled(
                old(self).data@,
                old(self).width as u32,
                old(self).height as u32,
                2,
                final(self).data@,
            ),
    {
        if self.format != XPRFormat::GB {
            return Err(XprError::NotGb);
        }
        self.unswizzle_to(XPRFormat::GB_LIN);
        Ok(())
    }
}

/// The fields of a DDS header as these tools fill them.
pub struct DDS {
    pub flags: u32,
    pub height: u32,
    pub width: u32,
    pub pitch: u32,
    pub depth: u32,
    pub levels: u32,
    pub format: DDS_PixelFormat,
    pub caps: [u32; 4],
}

/// The formats with a pitch: the compressed and the linear ones.
pub open spec fn has_pitch(f: XPRFormat) -> bool {
    f == XPRFormat::DXT1 || f == XPRFormat::DXT3 || f == XPRFormat::ARGB_LIN || f == XPRFormat::GB_LIN
}

/// The DDS header fields for a texture.
pub open spec fn dds_matches(d: DDS, x: XPR) -> bool {
    let w = x.width as nat;
    let h = x.height as nat;
    let blocks = ((w + 3) / 4) * ((h + 3) / 4);
    &&& d.height == x.height as u32
    &&& d.width == x.width as u32
    &&& d.depth == x.depth as u32
    &&& d.levels == x.levels as u32
    &&& d.caps@ == seq![0u32, 0u32, 0u32, 0u32]
    &&& d.flags == match x.format {
        XPRFormat::DXT1 | XPRFormat::DXT3 => 0x81007u32,
        XPRFormat::ARGB_LIN | XPRFormat::GB_LIN => 0x100Fu32,
        _ => 0x1007u32,
    }
    &&& d.format.flags == match x.format {
        XPRFormat::DXT1 | XPRFormat::DXT3 => 0x4u32,
        XPRFormat::ARGB_LIN => 0x41u32,
        XPRFormat::GB_LIN => 0x40u32,
        _ => 0u32,
    }
    &&& d.format.code@ == match x.format {
        XPRFormat::DXT1 => seq![0x44u8, 0x58u8, 0x54u8, 0x31u8],
        XPRFormat::DXT3 => seq![0x44u8, 0x58u8, 0x54u8, 0x33u8],
        _ => seq![0u8, 0u8, 0u8, 0u8],
    }
    &&& d.format.rgb_bit_count == match x.format {
        XPRFormat::ARGB_LIN => 32u32,
        XPRFormat::GB_LIN => 16u32,
        _ => 0u32,
    }
    &&& d.format.a_bit_mask == if x.format == XPRFormat::ARGB_LIN { 0xFF000000u32 } else { 0u32 }
    &&& d.format.r_bit_mask == if x.format == XPRFormat::ARGB_LIN { 0x00FF0000u32 } else { 0u32 }
    &&& d.format.g_bit_mask == if x.format == XPRFormat::ARGB_LIN || x.format == XPRFormat::GB_LIN {
        0x0000FF00u32
    } else {
        0u32
    }
    &&& d.format.b_bit_mask == if x.format == XPRFormat::ARGB_LIN || x.format == XPRFormat::GB_LIN {
        0x000000FFu32
    } else {
        0u32
    }
    &&& d.pitch == match x.format {
        XPRFormat::DXT1 => (blocks * 8) as u32,
        XPRFormat::DXT3 => (blocks * 16) as u32,
        XPRFormat::ARGB_LIN => ((w * h * 32 + 7) / 8) as u32,
        XPRFormat::GB_LIN => ((w * h * 16 + 7) / 8) as u32,
        _ => 0u32,
    }
}

/// The first 28 bytes of a DDS header: its size, flags, sizes, pitch and levels.
pub open spec fn dds_head(d: DDS) -> Seq<u8> {
    bytes32(124) + bytes32(d.flags as nat) + bytes32(d.height as nat) + bytes32(d.width as nat)
        + bytes32(d.pitch as nat) + bytes32(d.depth as nat) + bytes32(d.levels as nat)
}

/// The last 20 bytes of a DDS header: the capabilities and a reserved word.
pub open spec fn dds_tail(d: DDS) -> Seq<u8> {
    bytes32(d.caps@[0] as nat) + bytes32(d.caps@[1] as nat) + bytes32(d.caps@[2] as nat) + bytes32(
        d.caps@[3] as nat,
    ) + Seq::new(4, |i: int| 0u8)
}

/// The 124 bytes of a DDS header.
pub open spec fn dds_header_bytes(d: DDS) -> Seq<u8> {
    dds_head(d) + Seq::new(44, |i: int| 0u8) + pixel_format_bytes(d.format) + dds_tail(d)
}

impl DDS {
    /// The DDS header fields for a texture (see `dds_matches`).
    pub fn from(xpr: &XPR) -> (r: Self)
        requires
            has_pitch(xpr.format) ==> pitch_fits(xpr.width as nat, xpr.height as nat),
        ensures
            dds_matches(r, *xpr),
    {
        let mut format = DDS_PixelFormat::new();
        let mut flags: u32 = 0x1007;
        let mut pitch: u32 = 0;
        let w: usize = xpr.width;
        let h: usize = xpr.height;
        match xpr.format {
            XPRFormat::DXT1 => {
                flags = 0x81007;
                format.flags = 0x4;
                format.code = [0x44, 0x58, 0x54, 0x31];
                assert(((w + 3) / 4) * ((h + 3) / 4) * 8 <= ((w + 3) / 4 + 1) * ((h + 3) / 4 + 1) * 16)
                    by (nonlinear_arith);
                pitch = (((w + 3) / 4) * ((h + 3) / 4) * 8) as u32;
            },
            XPRFormat::DXT3 => {
                flags = 0x81007;
                format.flags = 0x4;
                format.code = [0x44, 0x58, 0x54, 0x33];
                assert(((w + 3) / 4) * ((h + 3) / 4) * 16 <= ((w + 3) / 4 + 1) * ((h + 3) / 4 + 1) * 16)
                    by (nonlinear_arith);
                pitch = (((w + 3) / 4) * ((h + 3) / 4) * 16) as u32;
            },
            XPRFormat::ARGB_LIN => {
                flags = 0x100F;
                format.flags = 0x41;
                format.rgb_bit_count = 32;
                format.a_bit_mask = 0xFF000000;
                format.r_bit_mask = 0x00FF0000;
                format.g_bit_mask = 0x0000FF00;
                format.b_bit_mask = 0x000000FF;
                pitch = ((w * h * 32 + 7) / 8) as u32;
            },
            XPRFormat::GB_LIN => {
                flags = 0x100F;
                format.flags = 0x40;
                format.rgb_bit_count = 16;
                format.g_bit_mask = 0xFF00;
                format.b_bit_mask = 0x00FF;
                assert(w * h * 16 <= w * h * 32) by (nonlinear_arith);
                pitch = ((w * h * 16 + 7) / 8) as u32;
            },
            _ => {},
        }
        let caps: [u32; 4] = [0, 0, 0, 0];
        assert(caps@ =~= seq![0u32, 0u32, 0u32, 0u32]);
        assert(format.code@ =~= match xpr.format {
            XPRFormat::DXT1 => seq![0x44u8, 0x58u8, 0x54u8, 0x31u8],
            XPRFormat::DXT3 => seq![0x44u8, 0x58u8, 0x54u8, 0x33u8],
            _ => seq![0u8, 0u8, 0u8, 0u8],
        });
        DDS {
            flags,
            height: xpr.height as u32,
            width: xpr.width as u32,
            pitch,
            depth: xpr.depth as u32,
            levels: xpr.levels as u32,
            format,
            caps,
        }
    }

    /// The header's 124 bytes.
    #[verifier::rlimit(60)]
    pub fn into(self) -> (r: Vec<u8>)
        ensures
            r@ == dds_header_bytes(self),
    {
        let mut buf: Vec<u8> = Vec::with_capacity(124);
        push_u32_le(&mut buf, 124);
        push_u32_le(&mut buf, self.flags);
        push_u32_le(&mut buf, self.height);
        push_u32_le(&mut buf, self.width);
        push_u32_le(&mut buf, self.pitch);
        push_u32_le(&mut buf, self.depth);
        push_u32_le(&mut buf, self.levels);
        assert(buf@ =~= dds_head(self));
        let ghost b0 = buf@;
        let mut i: usize = 0;
        while i < 44
            invariant
                i <= 44,
                buf@ == b0 + Seq::new(i as nat, |k: int| 0u8),
            decreases 44 - i,
        {
            buf.push(0);
            i = i + 1;
            assert(buf@ =~= b0 + Seq::new(i as nat, |k: int| 0u8));
        }
        self.format.write(&mut buf);
        let ghost b2 = buf@;
        push_u32_le(&mut buf, self.caps[0]);
        push_u32_le(&mut buf, self.caps[1]);
        push_u32_le(&mut buf, self.caps[2]);
        push_u32_le(&mut buf, self.caps[3]);
        push_u32_le(&mut buf, 0);
        assert(bytes32(0) =~= Seq::new(4, |k: int| 0u8));
        assert(buf@ =~= b2 + dds_tail(self));
        assert(buf@ =~= dds_header_bytes(self));
        buf
    }
}

impl XPR {
    /// The bytes of the texture's DDS file: the magic, the header and the data.
    pub fn dds_bytes(&self) -> (r: Vec<u8>)
        requires
            has_pitch(self.format) ==> pitch_fits(self.width as nat, self.height as nat),
        ensures
            exists|d: DDS|
                dds_matches(d, *self) && r@ == DDS_MAGIC@ + #[trigger] dds_header_bytes(d) + self.data@,
    {
        let mut writer: Vec<u8> = Vec::new();
        push_bytes(&mut writer, DDS_MAGIC.as_slice());
        let dds = DDS::from(self);
        let ghost d = dds;
        let header = dds.into();
        push_bytes(&mut writer, header.as_slice());
        push_bytes(&mut writer, self.data.as_slice());
        assert(writer@ =~= DDS_MAGIC@ + dds_header_bytes(d) + self.data@);
        writer
    }
}

} // verus!
