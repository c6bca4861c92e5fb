//! The parts of mission data that hold no measurements: the skybox
//! textures, the text keys of a mission's title and objectives, the
//! ground's tile map, its collision attributes, and the bytes of its
//! height map.
use vstd::prelude::*;

use crate::bbtools::{godot_path, write_godot_path, write_pascal_option_string};
use crate::bbtools::xpr::{u16s_bytes, XPRFormat, XPR};
use crate::bbtools::ppd::{spec_surface, surface_ok, Surface};
use crate::bytes::{bytes32, le16, le32, le48, read_u16_le, read_u32_le, read_u48_le, ByteReader, IoError};
use crate::decimal::{dec, push_decimal, zero_pad};
use vstd::utf8::encode_utf8;

verus! {

pub const SKYBOX_DUAL_FLAT_COUNT: usize = 2;

/// The bytes that `write_godot_path` writes for `path`.
pub open spec fn godot_path_bytes(path: Seq<char>) -> Seq<u8> {
    bytes32((encode_utf8(godot_path(path)).len() as u32) as nat) + encode_utf8(godot_path(path))
}

/// The sky of a mission: two flat layers or one sphere, each with its texture.
pub enum Skybox {
    DualFlat { texture_paths: [String; SKYBOX_DUAL_FLAT_COUNT] },
    Spherical { texture_path: String },
}

impl Skybox {
    /// Writes the kind (0 for flat layers, 1 for a sphere) and the texture paths.
    pub fn write(&self, writer: &mut Vec<u8>)
        ensures
            final(writer)@ == old(writer)@ + match self {
                Skybox::DualFlat { texture_paths } => seq![0u8] + godot_path_bytes(
                    texture_paths[0]@,
                ) + godot_path_bytes(texture_paths[1]@),
                Skybox::Spherical { texture_path } => seq![1u8] + godot_path_bytes(
                    texture_path@,
                ),
            },
    {
        match self {
            Skybox::DualFlat { texture_paths } => {
                writer.push(0);
                write_godot_path(texture_paths[0].as_str(), writer);
                write_godot_path(texture_paths[1].as_str(), writer);
            },
            Skybox::Spherical { texture_path } => {
                writer.push(1);
                write_godot_path(texture_path.as_str(), writer);
            },
        }
    }
}

/// The text keys of a mission: `prefix:NNNN` for the title and for each
/// objective or target text that the mission has.
pub struct MissionText {
    pub prefix: String,
    pub title: u16,
    pub attack_objective: Option<u16>,
    pub defense_objective: Option<u16>,
    pub symmetric_targets: bool,
    pub attack_targets: Option<u16>,
    pub defense_targets: Option<u16>,
}

/// The key of text `t`: the prefix, a colon and `t` with at least four digits.
pub open spec fn text_key(prefix: Seq<char>, t: u16) -> Seq<char> {
    prefix + seq![':'] + zero_pad(dec(t as nat), 4)
}

/// What `write_pascal_option_string` writes for an optional key.
pub open spec fn option_key_bytes(prefix: Seq<char>, text: Option<u16>) -> Seq<u8> {
    match text {
        Some(t) => bytes32((encode_utf8(text_key(prefix, t)).len() as u32) as nat) + encode_utf8(
            text_key(prefix, t),
        ),
        None => bytes32(0),
    }
}

/// The texts of the second title's missions: which missions have objective
/// texts and which have target texts, by mission id.
pub open spec fn loc_mission_text(id: usize) -> (Option<u16>, Option<u16>, bool, Option<u16>, Option<u16>) {
    if id == 3 {
        (Some(1265), Some(1266), false, None, None)
    } else if id == 4 {
        (None, None, true, Some(1267), Some(1268))
    } else if id == 5 {
        (None, None, false, Some(1269), Some(1270))
    } else if id == 6 {
        (Some(1271), Some(1272), false, None, None)
    } else if id == 9 {
        (None, None, false, Some(1273), Some(1274))
    } else if id == 10 {
        (None, None, true, Some(1276), Some(1275))
    } else if id == 15 {
        (Some(1277), Some(1278), false, None, None)
    } else if id == 16 {
        (Some(1279), Some(1279), false, None, None)
    } else if id == 17 {
        (Some(1280), Some(1280), false, None, None)
    } else if id == 22 {
        (None, None, false, Some(1281), Some(1282))
    } else if id == 23 {
        (None, None, false, Some(1283), Some(1284))
    } else if id == 24 || id == 25 || id == 26 {
        (None, None, false, Some(1285), Some(1286))
    } else {
        (None, None, false, None, None)
    }
}

/// How the second title numbers its mission texts: a mission has
/// objective texts or target texts, not both; the defender's objective is
/// the attacker's or the one after it; target texts come as a pair,
/// attacker first (the defender's is the next text), except for mission
/// 10, whose pair is the other way round; only missions with targets can
/// be symmetric; every such text lies in 1265..=1286; and the texts of a
/// later mission all come after those of an earlier one (missions 24 to
/// 26 share theirs).
pub proof fn lemma_loc_mission_texts(id: usize, other: usize)
    ensures
        ({
            let (ao, dobj, sym, at, dt) = loc_mission_text(id);
            &&& !(ao is Some && at is Some)
            &&& ao is Some <==> dobj is Some
            &&& at is Some <==> dt is Some
            &&& sym ==> at is Some
            &&& ao matches Some(a) ==> 1265 <= a <= 1286 && (dobj->Some_0 == a || dobj->Some_0 == a + 1)
            &&& at matches Some(a) ==> 1265 <= a <= 1286 && if id == 10 {
                a == dt->Some_0 + 1
            } else {
                dt->Some_0 == a + 1
            }
        }),
        ({
            let a = mission_text_span(loc_mission_text(id));
            let b = mission_text_span(loc_mission_text(other));
            id < other && a is Some && b is Some && !(24 <= id && other <= 26) ==> a->Some_0.1 < b->Some_0.0
        }),
{
}

/// The least and the greatest objective or target text of a mission,
/// where it has any.
pub open spec fn mission_text_span(t: (Option<u16>, Option<u16>, bool, Option<u16>, Option<u16>)) -> Option<(u16, u16)> {
    match (t.0, t.1, t.3, t.4) {
        (Some(a), Some(d), _, _) => Some(if a <= d { (a, d) } else { (d, a) }),
        (_, _, Some(a), Some(d)) => Some(if a <= d { (a, d) } else { (d, a) }),
        _ => None,
    }
}

impl MissionText {
    /// The texts of mission `id` of the second title: the title is text
    /// `id + 1233`.
    pub fn new_loc(id: usize) -> (r: Self)
        requires
            (id as u16) + 1233 <= u16::MAX,
        ensures
            r.prefix@ == "loc"@,
            r.title == (id as u16) + 1233,
            (r.attack_objective, r.defense_objective, r.symmetric_targets, r.attack_targets, r.defense_targets)
                == loc_mission_text(id),
    {
        let mut text = MissionText {
            prefix: String::from_str("loc"),
            title: id as u16 + 1233,
            attack_objective: None,
            defense_objective: None,
            symmetric_targets: false,
            attack_targets: None,
            defense_targets: None,
        };
        if id == 3 {
            text.attack_objective = Some(1265);
            text.defense_objective = Some(1266);
        } else if id == 4 {
            text.symmetric_targets = true;
            text.attack_targets = Some(1267);
            text.defense_targets = Some(1268);
        } else if id == 5 {
            text.attack_targets = Some(1269);
            text.defense_targets = Some(1270);
        } else if id == 6 {
            text.attack_objective = Some(1271);
            text.defense_objective = Some(1272);
        } else if id == 9 {
            text.attack_targets = Some(1273);
            text.defense_targets = Some(1274);
        } else if id == 10 {
            text.symmetric_targets = true;
            text.attack_targets = Some(1276);
            text.defense_targets = Some(1275);
        } else if id == 15 {
            text.attack_objective = Some(1277);
            text.defense_objective = Some(1278);
        } else if id == 16 {
            text.attack_objective = Some(1279);
            text.defense_objective = Some(1279);
        } else if id == 17 {
            text.attack_objective = Some(1280);
            text.defense_objective = Some(1280);
        } else if id == 22 {
            text.attack_targets = Some(1281);
            text.defense_targets = Some(1282);
        } else if id == 23 {
            text.attack_targets = Some(1283);
            text.defense_targets = Some(1284);
        } else if id == 24 || id == 25 || id == 26 {
            text.attack_targets = Some(1285);
            text.defense_targets = Some(1286);
        }
        text
    }

    /// The texts of mission `id` of the first title: only the title, text
    /// `id` (taken modulo 2^16).
    pub fn new_sb(id: usize) -> (r: Self)
        ensures
            r.prefix@ == "sb"@,
            r.title == id as u16,
            r.attack_objective is None,
            r.defense_objective is None,
            !r.symmetric_targets,
            r.attack_targets is None,
            r.defense_targets is None,
    {
        MissionText {
            prefix: String::from_str("sb"),
            title: id as u16,
            attack_objective: None,
            defense_objective: None,
            symmetric_targets: false,
            attack_targets: None,
            defense_targets: None,
        }
    }

    /// Writes the key of `text`, or an empty string when there is none.
    pub fn write_prefixed(&self, text: Option<u16>, writer: &mut Vec<u8>)
        ensures
            final(writer)@ == old(writer)@ + option_key_bytes(self.prefix@, text),
    {
        match text {
            Some(t) => {
                let mut key = self.prefix.clone();
                crate::decimal::string_push(&mut key, ':');
                push_decimal(&mut key, t as u64, 4);
                assert(key@ =~= text_key(self.prefix@, t));
                write_pascal_option_string(Some(key.as_str()), writer);
            },
            None => {
                write_pascal_option_string(None, writer);
            },
        }
    }

    /// Writes the title key, the two objective keys, the symmetry flag and
    /// the two target keys.
    pub fn write(&self, writer: &mut Vec<u8>)
        ensures
            final(writer)@ == old(writer)@ + option_key_bytes(self.prefix@, Some(self.title))
                + option_key_bytes(self.prefix@, self.attack_objective) + option_key_bytes(
                self.prefix@,
                self.defense_objective,
            ) + seq![
                if self.symmetric_targets {
                    1u8
                } else {
                    0u8
                },
            ] + option_key_bytes(self.prefix@, self.attack_targets) + option_key_bytes(
                self.prefix@,
                self.defense_targets,
            ),
    {
        self.write_prefixed(Some(self.title), writer);
        self.write_prefixed(self.attack_objective, writer);
        self.write_prefixed(self.defense_objective, writer);
        writer.push(if self.symmetric_targets {
            1u8
        } else {
            0u8
        });
        self.write_prefixed(self.attack_targets, writer);
        self.write_prefixed(self.defense_targets, writer);
        assert(final(writer)@ =~= old(writer)@ + option_key_bytes(self.prefix@, Some(self.title))
            + option_key_bytes(self.prefix@, self.attack_objective) + option_key_bytes(
            self.prefix@,
            self.defense_objective,
        ) + seq![
            if self.symmetric_targets {
                1u8
            } else {
                0u8
            },
        ] + option_key_bytes(self.prefix@, self.attack_targets) + option_key_bytes(
            self.prefix@,
            self.defense_targets,
        ));
    }
}


/// The tile numbers stored at `p` of `d`: `n` little-endian `u16` values.
pub open spec fn tile_values(d: Seq<u8>, p: int, n: nat) -> Seq<u16> {
    Seq::new(n, |k: int| le16(d, p + 2 * k) as u16)
}

/// The tile map that numbers the tiles in order.
pub open spec fn identity_tiles(n: nat) -> Seq<u16> {
    Seq::new(n, |k: int| k as u16)
}

/// `x` is the single-level 16-bit texture of `values` at the given size.
pub open spec fn tilemap_texture(x: XPR, width: usize, height: usize, values: Seq<u16>) -> bool {
    &&& x.format == XPRFormat::L16_LIN
    &&& x.levels == 1
    &&& x.width == width
    &&& x.height == height
    &&& x.depth == 1
    &&& x.layers == 1
    &&& x.data() == u16s_bytes(values)
}

/// Makes the tile map of a ground of `width` by `height` tiles over
/// `tile_count` tile textures. Where there are as many tiles as textures
/// each tile gets its own texture in order, and the result says so (the
/// tiles then keep no random rotation); otherwise the map is read from the
/// reader, and each value must name a texture. The values of the in-order
/// map are cut to 16 bits.
pub fn create_tilemap(width: usize, height: usize, tile_count: usize, reader: &mut ByteReader) -> (r:
    Result<(XPR, bool), IoError>)
    requires
        2 * (width * height) <= usize::MAX,
    ensures
        final(reader).data() == old(reader).data(),
        width * height == tile_count ==> final(reader).pos() == old(reader).pos() && (r matches Ok(
            (x, identity),
        ) && identity && tilemap_texture(x, width, height, identity_tiles(tile_count as nat))),
        width * height != tile_count ==> {
            let d = old(reader).data();
            let p = old(reader).pos() as int;
            let n = (width * height) as nat;
            &&& n > 0 && p + 2 * n > d.len() ==> r == Err::<(XPR, bool), IoError>(IoError::UnexpectedEof)
            &&& (n == 0 || p + 2 * n <= d.len()) && (exists|k: int|
                0 <= k < n && #[trigger] le16(d, p + 2 * k) >= tile_count) ==> r == Err::<
                (XPR, bool),
                IoError,
            >(IoError::InvalidTileMapValue)
            &&& (n == 0 || p + 2 * n <= d.len()) && (forall|k: int|
                0 <= k < n ==> #[trigger] le16(d, p + 2 * k) < tile_count) ==> (r matches Ok(
                (x, identity),
            ) && !identity && tilemap_texture(x, width, height, tile_values(d, p, n)))
        },
{
    let n: usize = width * height;
    if n == tile_count {
        let mut values: Vec<u16> = Vec::with_capacity(n);
        let mut i: usize = 0;
        while i < n
            invariant
                i <= n,
                n == tile_count,
                n == width * height,
                2 * n <= usize::MAX,
                values@ == identity_tiles(i as nat),
            decreases n - i,
        {
            values.push(#[verifier::truncate] (i as u16));
            i = i + 1;
            assert(values@ =~= identity_tiles(i as nat));
        }
        return Ok((XPR::new_l16_lin(width, height, values), true));
    }
    let ghost d = reader.data();
    let ghost p = reader.pos() as int;
    let mut values: Vec<u16> = Vec::with_capacity(n);
    let mut k: usize = 0;
    while k < n
        invariant
            k <= n,
            n == width * height,
            n != tile_count,
            2 * n <= usize::MAX,
            d == old(reader).data(),
            p == old(reader).pos(),
            reader.data() == d,
            reader.pos() == p + 2 * k,
            k > 0 ==> p + 2 * k <= d.len(),
            values@ == tile_values(d, p, k as nat),
        decreases n - k,
    {
        let v = match reader.read_u16() {
            Ok(v) => v,
            Err(e) => {
                assert(p + 2 * n > d.len());
                return Err(e);
            },
        };
        values.push(v);
        k = k + 1;
        assert(values@ =~= tile_values(d, p, k as nat));
    }
    let mut j: usize = 0;
    while j < n
        invariant
            j <= n,
            n == width * height,
            n != tile_count,
            2 * n <= usize::MAX,
            d == old(reader).data(),
            p == old(reader).pos(),
            reader.data() == d,
            n > 0 ==> p + 2 * n <= d.len(),
            values@ == tile_values(d, p, n as nat),
            forall|i: int| 0 <= i < j ==> #[trigger] le16(d, p + 2 * i) < tile_count,
        decreases n - j,
    {
        if values[j] as usize >= tile_count {
            assert(le16(d, p + 2 * j) >= tile_count);
            return Err(IoError::InvalidTileMapValue);
        }
        j = j + 1;
    }
    Ok((XPR::new_l16_lin(width, height, values), false))
}


/// The collision attributes of a mission's ground: one surface per vertex
/// of a grid of `size.0` by `size.1`, row by row.
pub struct GAD {
    pub size: (usize, usize),
    pub attributes: Vec<Surface>,
}

/// The number of attribute records of a file `f` (the grid size it gives).
pub open spec fn gad_length(f: Seq<u8>) -> nat {
    le16(f, 0) * le16(f, 2)
}

/// The attribute records that `f` holds in full, up to the grid size.
pub open spec fn gad_available(f: Seq<u8>) -> nat {
    let whole = ((f.len() - 4) / 8) as nat;
    if whole < gad_length(f) {
        whole
    } else {
        gad_length(f)
    }
}

/// Reading the attributes of `f` stops on a record whose surface does not
/// exist: the reader does not take it.
pub open spec fn gad_malformed(f: Seq<u8>) -> bool {
    f.len() >= 4 && exists|k: int|
        0 <= k < gad_available(f) && !#[trigger] surface_ok(le48(f, 4 + 8 * k) as u64)
}

/// `g` holds the attributes of the file `f`.
pub open spec fn gad_read(f: Seq<u8>, g: GAD) -> bool {
    &&& g.size == (le16(f, 0) as usize, le16(f, 2) as usize)
    &&& g.attributes@.len() == gad_length(f)
    &&& forall|k: int|
        0 <= k < gad_length(f) ==> #[trigger] g.attributes@[k] == spec_surface(
            le16(f, 4 + 8 * k + 6) as u16,
            le48(f, 4 + 8 * k) as u64,
        )
}

impl GAD {
    /// Reads the attributes of a ground: the grid width and height as
    /// `u16`, then per vertex the surface bit (48 bits) and the layers.
    /// `None` stands for a surface that does not exist (see
    /// `gad_malformed`); data that ends early gives `UnexpectedEof`.
    pub fn import(f: &[u8]) -> (r: Option<Result<GAD, IoError>>)
        ensures
            f@.len() < 4 ==> r == Some(Err::<GAD, IoError>(IoError::UnexpectedEof)),
            f@.len() >= 4 && gad_malformed(f@) ==> r is None,
            f@.len() >= 4 && !gad_malformed(f@) && gad_available(f@) < gad_length(f@) ==> r == Some(
                Err::<GAD, IoError>(IoError::UnexpectedEof),
            ),
            f@.len() >= 4 && !gad_malformed(f@) && gad_available(f@) == gad_length(f@) ==> (r matches Some(
                Ok(g),
            ) && gad_read(f@, g)),
    {
        let n: usize = f.len();
        if n < 4 {
            return Some(Err(IoError::UnexpectedEof));
        }
        let w: usize = read_u16_le(f, 0) as usize;
        let h: usize = read_u16_le(f, 2) as usize;
        assert(w * h <= 0xFFFF * 0xFFFF) by (nonlinear_arith)
            requires
                w <= 0xFFFF,
                h <= 0xFFFF,
        ;
        let length: usize = w * h;
        let mut attributes: Vec<Surface> = Vec::new();
        let mut k: usize = 0;
        while k < length
            invariant
                k <= length,
                n == f@.len(),
                n >= 4,
                length == gad_length(f@),
                k <= gad_available(f@),
                forall|j: int| 0 <= j < k ==> #[trigger] surface_ok(le48(f@, 4 + 8 * j) as u64),
                attributes@.len() == k,
                forall|j: int|
                    0 <= j < k ==> #[trigger] attributes@[j] == spec_surface(
                        le16(f@, 4 + 8 * j + 6) as u16,
                        le48(f@, 4 + 8 * j) as u64,
                    ),
            decreases length - k,
        {
            if k > (n - 4) / 8 || n - 4 - 8 * k < 8 {
                assert(gad_available(f@) == k);
                assert(!gad_malformed(f@));
                return Some(Err(IoError::UnexpectedEof));
            }
            let p: usize = 4 + 8 * k;
            let surface_bit: u64 = read_u48_le(f, p);
            let layers: u16 = read_u16_le(f, p + 6);
            let tz: u32 = surface_bit.trailing_zeros();
            if surface_bit != 0 && tz >= 28 {
                assert(!surface_ok(le48(f@, 4 + 8 * k) as u64));
                return None;
            }
            attributes.push(Surface::new(layers, surface_bit));
            k = k + 1;
        }
        Some(Ok(GAD { size: (w, h), attributes }))
    }

    /// The attribute of vertex (`x`, `y`).
    pub fn get_attribute(&self, x: usize, y: usize) -> (r: Surface)
        requires
            y * self.size.0 + x < self.attributes@.len(),
        ensures
            r == self.attributes@[y * self.size.0 + x],
    {
        let _n: usize = self.attributes.len();
        self.attributes[y * self.size.0 + x]
    }

    /// Sets the attribute of vertex (`x`, `y`).
    pub fn set_attribute(&mut self, x: usize, y: usize, attribute: Surface)
        requires
            y * old(self).size.0 + x < old(self).attributes@.len(),
        ensures
            final(self).size == old(self).size,
            final(self).attributes@ == old(self).attributes@.update(
                y * old(self).size.0 + x,
                attribute,
            ),
    {
        let _n: usize = self.attributes.len();
        let i: usize = y * self.size.0 + x;
        self.attributes.set(i, attribute);
    }
}


pub const BMP_MAGIC: [u8; 2] = [0x42, 0x4D];  // "BM"

/// Errors of reading a height map bitmap.
#[derive(Debug, PartialEq, Eq, Structural, Clone, Copy)]
pub enum BmpError {
    UnexpectedEof,
    BadMagic,
    InvalidInfoHeaderSize,
    WrongWidth,
    WrongHeight,
    InvalidPlanes,
    /// Not 24 bits per pixel.
    BitsPerPixel,
    Compressed,
}

/// The checks of a height map's header, in the order they are made: an
/// uncompressed 24-bit bitmap of the ground's size.
pub open spec fn bmp_header_check(f: Seq<u8>, width: nat, height: nat) -> Result<(), BmpError> {
    if f.len() < 2 {
        Err(BmpError::UnexpectedEof)
    } else if f.subrange(0, 2) != BMP_MAGIC@ {
        Err(BmpError::BadMagic)
    } else if f.len() < 18 {
        Err(BmpError::UnexpectedEof)
    } else if le32(f, 14) != 40 {
        Err(BmpError::InvalidInfoHeaderSize)
    } else if f.len() < 26 {
        Err(BmpError::UnexpectedEof)
    } else if le32(f, 18) != width {
        Err(BmpError::WrongWidth)
    } else if le32(f, 22) != height {
        Err(BmpError::WrongHeight)
    } else if f.len() < 28 {
        Err(BmpError::UnexpectedEof)
    } else if le16(f, 26) != 1 {
        Err(BmpError::InvalidPlanes)
    } else if f.len() < 30 {
        Err(BmpError::UnexpectedEof)
    } else if le16(f, 28) != 24 {
        Err(BmpError::BitsPerPixel)
    } else if f.len() < 34 {
        Err(BmpError::UnexpectedEof)
    } else if le32(f, 30) != 0 {
        Err(BmpError::Compressed)
    } else {
        Ok(())
    }
}

/// The pixel data: from the offset the header gives to the end.
pub open spec fn bmp_data(f: Seq<u8>) -> Seq<u8> {
    if le32(f, 10) <= f.len() {
        f.subrange(le32(f, 10) as int, f.len() as int)
    } else {
        Seq::empty()
    }
}

/// The whole rows of `width` pixels of 3 bytes in the data.
pub open spec fn bmp_rows(f: Seq<u8>, width: nat) -> nat {
    bmp_data(f).len() / (3 * width)
}

/// Byte `c` of each pixel (0 blue, 2 red), top row first: the file stores
/// the rows bottom up.
pub open spec fn bmp_channel(f: Seq<u8>, width: nat, c: int) -> Seq<u8> {
    let d = bmp_data(f);
    let rows = bmp_rows(f, width);
    Seq::new(
        rows * width,
        |k: int| d[(rows - 1 - k / (width as int)) * (3 * width) + 3 * (k % (width as int)) + c],
    )
}

/// Reads a height map bitmap of a ground of `width` by `height`: the
/// ground heights (the red byte of each pixel) and the water heights (the
/// blue byte), top row first. The heights are scaled on export.
pub fn import_bmp(f: &[u8], width: usize, height: usize) -> (r: Result<(Vec<u8>, Vec<u8>), BmpError>)
    requires
        width > 0,
        3 * width <= usize::MAX,
    ensures
        match bmp_header_check(f@, width as nat, height as nat) {
            Err(e) => r == Err::<(Vec<u8>, Vec<u8>), BmpError>(e),
            Ok(_) => r matches Ok((ground, water)) && ground@ == bmp_channel(f@, width as nat, 2)
                && water@ == bmp_channel(f@, width as nat, 0),
        },
{
    let n: usize = f.len();
    if n < 2 {
        return Err(BmpError::UnexpectedEof);
    }
    if !(f[0] == BMP_MAGIC[0] && f[1] == BMP_MAGIC[1]) {
        assert(f@.subrange(0, 2) != BMP_MAGIC@) by {
            if f@.subrange(0, 2) == BMP_MAGIC@ {
                assert(f@.subrange(0, 2)[0] == f@[0]);
                assert(f@.subrange(0, 2)[1] == f@[1]);
            }
        }
        return Err(BmpError::BadMagic);
    }
    assert(f@.subrange(0, 2) =~= BMP_MAGIC@);
    if n < 18 {
        return Err(BmpError::UnexpectedEof);
    }
    let data_offset: usize = read_u32_le(f, 10) as usize;
    if read_u32_le(f, 14) != 40 {
        return Err(BmpError::InvalidInfoHeaderSize);
    }
    if n < 26 {
        return Err(BmpError::UnexpectedEof);
    }
    if read_u32_le(f, 18) as usize != width {
        return Err(BmpError::WrongWidth);
    }
    if read_u32_le(f, 22) as usize != height {
        return Err(BmpError::WrongHeight);
    }
    if n < 28 {
        return Err(BmpError::UnexpectedEof);
    }
    if read_u16_le(f, 26) != 1 {
        return Err(BmpError::InvalidPlanes);
    }
    if n < 30 {
        return Err(BmpError::UnexpectedEof);
    }
    if read_u16_le(f, 28) != 24 {
        return Err(BmpError::BitsPerPixel);
    }
    if n < 34 {
        return Err(BmpError::UnexpectedEof);
    }
    if read_u32_le(f, 30) != 0 {
        return Err(BmpError::Compressed);
    }
    let d: Vec<u8> = if data_offset <= n {
        crate::bytes::copy_range(f, data_offset, n)
    } else {
        Vec::new()
    };
    assert(d@ == bmp_data(f@));
    let dn: usize = d.len();
    let row_len: usize = 3 * width;
    let rows: usize = dn / row_len;
    assert(rows * row_len <= dn) by (nonlinear_arith)
        requires
            row_len > 0,
            rows == dn / row_len,
    ;
    let ghost w = width as int;
    let ghost rl = row_len as int;
    let ghost g_spec = bmp_channel(f@, width as nat, 2);
    let ghost b_spec = bmp_channel(f@, width as nat, 0);
    let mut ground: Vec<u8> = Vec::new();
    let mut water: Vec<u8> = Vec::new();
    let mut r: usize = 0;
    while r < rows
        invariant
            r <= rows,
            rows == bmp_rows(f@, width as nat),
            d@ == bmp_data(f@),
            dn == d@.len(),
            width > 0,
            row_len == 3 * width,
            rl == row_len,
            w == width,
            rows * row_len <= dn,
            g_spec == bmp_channel(f@, width as nat, 2),
            b_spec == bmp_channel(f@, width as nat, 0),
            ground@.len() == r * width,
            water@.len() == r * width,
            forall|k: int| 0 <= k < r * width ==> #[trigger] ground@[k] == g_spec[k],
            forall|k: int| 0 <= k < r * width ==> #[trigger] water@[k] == b_spec[k],
        decreases rows - r,
    {
        let src: usize = rows - 1 - r;
        let mut c: usize = 0;
        while c < width
            invariant
                c <= width,
                r < rows,
                src == rows - 1 - r,
                rows == bmp_rows(f@, width as nat),
                d@ == bmp_data(f@),
                dn == d@.len(),
                width > 0,
                row_len == 3 * width,
                rl == row_len,
                w == width,
                rows * row_len <= dn,
                g_spec == bmp_channel(f@, width as nat, 2),
                b_spec == bmp_channel(f@, width as nat, 0),
                ground@.len() == r * width + c,
                water@.len() == r * width + c,
                forall|k: int| 0 <= k < r * width + c ==> #[trigger] ground@[k] == g_spec[k],
                forall|k: int| 0 <= k < r * width + c ==> #[trigger] water@[k] == b_spec[k],
            decreases width - c,
        {
            assert(src * row_len + 3 * c + 3 <= rows * row_len) by (nonlinear_arith)
                requires
                    src < rows,
                    c < width,
                    row_len == 3 * width,
            ;
            let pos: usize = src * row_len + 3 * c;
            let ghost k = r * width + c;
            proof {
                vstd::arithmetic::div_mod::lemma_fundamental_div_mod_converse(
                    k,
                    w,
                    r as int,
                    c as int,
                );
                assert(k < rows * width) by (nonlinear_arith)
                    requires
                        k == r * width + c,
                        r < rows,
                        c < width,
                ;
                assert(g_spec[k] == d@[pos + 2]);
                assert(b_spec[k] == d@[pos as int]);
            }
            ground.push(d[pos + 2]);
            water.push(d[pos]);
            c = c + 1;
        }
        assert((r + 1) * width == r * width + width) by (nonlinear_arith);
        r = r + 1;
    }
    assert(ground@ =~= g_spec);
    assert(water@ =~= b_spec);
    Ok((ground, water))
}

/// Bytes of a stage record of the first title.
pub const SB_STG_SIZE: usize = 316;

/// Bytes of a stage record of the second title.
pub const LOC_STG_SIZE: usize = 264;

/// Stage records per mission of the second title.
pub const LOC_STG_COUNT: usize = 4;

/// The bits of the `f32` 0.5.
pub const F32_HALF_BITS: u32 = 0x3F00_0000;

/// The bits of `f32::NAN`.
pub const F32_NAN_BITS: u32 = 0x7FC0_0000;

/// The `f32` bits stored at `at`.
pub open spec fn bits_at(b: Seq<u8>, at: int) -> u32 {
    le32(b, at) as u32
}

/// Four `f32` values stored one after the other at `at`, as bits.
pub open spec fn quad_at(b: Seq<u8>, at: int) -> (u32, u32, u32, u32) {
    (bits_at(b, at), bits_at(b, at + 4), bits_at(b, at + 8), bits_at(b, at + 12))
}

/// The 32-bit flag at `at` is set.
pub open spec fn flag_at(b: Seq<u8>, at: int) -> bool {
    le32(b, at) != 0
}

/// A colour of a stage: four bytes taken in the order blue, green, red,
/// alpha of the record (each to be divided by 255), or four `f32` values
/// as bits.
#[derive(Debug, Clone, Copy, PartialEq, Eq)]
pub enum StgColor {
    Bytes(u8, u8, u8, u8),
    Bits(u32, u32, u32, u32),
}

/// The lighting, fog, shadow, sky and water settings of a mission stage.
/// Measurements are kept as the `f32` bits of the record, unscaled; the
/// export multiplies `sky_height`, the fog, sky fog and shadow distances,
/// the sun sizes, `wave_scale` and `start_pos` by the object scale, and
/// `wave_speed` by the seconds per frame.
pub struct STG {
    pub world_light: (u32, u32, u32, u32),
    pub world_specular: (u32, u32, u32, u32),
    pub world_ambient: (u32, u32, u32, u32),
    pub fog_color: StgColor,
    pub sun_color: (u32, u32, u32, u32),
    pub water_color: (u32, u32, u32, u32),
    pub sky_height: u32,
    pub sky_velocity: ((u32, u32), (u32, u32)),
    pub water_height: u32,
    pub tactics_time: u32,
    pub draw_rain: bool,
    pub draw_shadows: bool,
    pub draw_terrain: bool,
    pub draw_water: bool,
    pub draw_sun: bool,
    pub fog_start: u32,
    pub fog_end: u32,
    pub sky_fog_start: u32,
    pub sky_fog_end: u32,
    pub shadow_start: u32,
    pub shadow_end: u32,
    pub shadow_yaw: u32,
    pub shadow_pitch: u32,
    pub sun_flash_power: u32,
    pub sun_back_size: u32,
    pub sun_front_size: u32,
    pub ticket_a: u32,
    pub ticket_b: u32,
    pub terrain_scale: u32,
    pub start_pos: (u32, u32, u32),
    pub start_yaw: u32,
    pub wave_speed: u32,
    pub wave_scale: u32,
}

/// The stage that a record of the first title holds; what it does not hold
/// takes the title's fixed values.
pub open spec fn sb_stg(b: Seq<u8>) -> STG {
    STG {
        world_light: quad_at(b, 0),
        world_specular: (0, 0, 0, 0),
        world_ambient: quad_at(b, 16),
        fog_color: StgColor::Bytes(b[82], b[81], b[80], b[83]),
        sun_color: (F32_HALF_BITS, F32_HALF_BITS, F32_HALF_BITS, F32_HALF_BITS),
        water_color: (F32_HALF_BITS, F32_HALF_BITS, F32_HALF_BITS, F32_HALF_BITS),
        sky_height: 0,
        sky_velocity: ((0, 0), (0, 0)),
        water_height: 0,
        tactics_time: 0,
        draw_rain: flag_at(b, 204),
        draw_shadows: true,
        draw_terrain: true,
        draw_water: true,
        draw_sun: flag_at(b, 208),
        fog_start: bits_at(b, 84),
        fog_end: bits_at(b, 88),
        sky_fog_start: 0,
        sky_fog_end: 0,
        shadow_start: bits_at(b, 120),
        shadow_end: bits_at(b, 124),
        shadow_yaw: bits_at(b, 100),
        shadow_pitch: bits_at(b, 104),
        sun_flash_power: bits_at(b, 212),
        sun_back_size: 0,
        sun_front_size: 0,
        ticket_a: 0,
        ticket_b: 0,
        terrain_scale: bits_at(b, 240),
        start_pos: (bits_at(b, 220), bits_at(b, 224), bits_at(b, 228)),
        start_yaw: bits_at(b, 232),
        wave_speed: bits_at(b, 132),
        wave_scale: bits_at(b, 136),
    }
}

/// A record of the second title can be read: its sky and terrain flags
/// agree, its water texture fits a byte and its area size is zero.
pub open spec fn loc_stg_ok(b: Seq<u8>) -> bool {
    &&& flag_at(b, 128) == flag_at(b, 132)
    &&& le32(b, 204) <= 255
    &&& le32(b, 212) == 0
}

/// The stage that a record of the second title holds.
pub open spec fn loc_stg(b: Seq<u8>) -> STG {
    STG {
        world_light: quad_at(b, 0),
        world_specular: quad_at(b, 16),
        world_ambient: quad_at(b, 32),
        fog_color: StgColor::Bits(bits_at(b, 48), bits_at(b, 52), bits_at(b, 56), bits_at(b, 60)),
        sun_color: quad_at(b, 64),
        water_color: quad_at(b, 248),
        sky_height: bits_at(b, 84),
        sky_velocity: ((bits_at(b, 88), bits_at(b, 92)), (bits_at(b, 96), bits_at(b, 100))),
        water_height: bits_at(b, 104),
        tactics_time: le32(b, 116) as u32,
        draw_rain: flag_at(b, 112),
        draw_shadows: flag_at(b, 124),
        draw_terrain: flag_at(b, 132),
        draw_water: flag_at(b, 136),
        draw_sun: true,
        fog_start: bits_at(b, 148),
        fog_end: bits_at(b, 152),
        sky_fog_start: bits_at(b, 156),
        sky_fog_end: bits_at(b, 160),
        shadow_start: bits_at(b, 176),
        shadow_end: bits_at(b, 180),
        shadow_yaw: bits_at(b, 184),
        shadow_pitch: bits_at(b, 188),
        sun_flash_power: bits_at(b, 192),
        sun_back_size: bits_at(b, 196),
        sun_front_size: bits_at(b, 200),
        ticket_a: le32(b, 216) as u32,
        ticket_b: le32(b, 220) as u32,
        terrain_scale: 0,
        start_pos: (F32_NAN_BITS, F32_NAN_BITS, F32_NAN_BITS),
        start_yaw: F32_NAN_BITS,
        wave_speed: 0,
        wave_scale: 0,
    }
}

/// Why a stage record was refused.
#[derive(Debug, PartialEq, Eq)]
pub enum StgError {
    /// The record has neither title's size.
    IncorrectSize,
}

fn read_quad(buf: &[u8], at: usize) -> (r: (u32, u32, u32, u32))
    requires
        at + 16 <= buf@.len(),
    ensures
        r == quad_at(buf@, at as int),
{
    let n: usize = buf.len();
    assert(at + 16 <= n);
    (read_u32_le(buf, at), read_u32_le(buf, at + 4), read_u32_le(buf, at + 8), read_u32_le(buf, at + 12))
}

impl STG {
    /// Reads a stage record of the first title.
    pub fn import_sb_buf(buf: &[u8]) -> (r: STG)
        requires
            buf@.len() >= SB_STG_SIZE,
        ensures
            r == sb_stg(buf@),
    {
        STG {
            world_light: read_quad(buf, 0),
            world_specular: (0, 0, 0, 0),
            world_ambient: read_quad(buf, 16),
            fog_color: StgColor::Bytes(buf[82], buf[81], buf[80], buf[83]),
            sun_color: (F32_HALF_BITS, F32_HALF_BITS, F32_HALF_BITS, F32_HALF_BITS),
            water_color: (F32_HALF_BITS, F32_HALF_BITS, F32_HALF_BITS, F32_HALF_BITS),
            sky_height: 0,
            sky_velocity: ((0, 0), (0, 0)),
            water_height: 0,
            tactics_time: 0,
            draw_rain: read_u32_le(buf, 204) != 0,
            draw_shadows: true,
            draw_terrain: true,
            draw_water: true,
            draw_sun: read_u32_le(buf, 208) != 0,
            fog_start: read_u32_le(buf, 84),
            fog_end: read_u32_le(buf, 88),
            sky_fog_start: 0,
            sky_fog_end: 0,
            shadow_start: read_u32_le(buf, 120),
            shadow_end: read_u32_le(buf, 124),
            shadow_yaw: read_u32_le(buf, 100),
            shadow_pitch: read_u32_le(buf, 104),
            sun_flash_power: read_u32_le(buf, 212),
            sun_back_size: 0,
            sun_front_size: 0,
            ticket_a: 0,
            ticket_b: 0,
            terrain_scale: read_u32_le(buf, 240),
            start_pos: (read_u32_le(buf, 220), read_u32_le(buf, 224), read_u32_le(buf, 228)),
            start_yaw: read_u32_le(buf, 232),
            wave_speed: read_u32_le(buf, 132),
            wave_scale: read_u32_le(buf, 136),
        }
    }

    /// Reads a stage record of the second title, or `None` where it fails
    /// the checks of `loc_stg_ok`.
    pub fn import_loc_buf(buf: &[u8]) -> (r: Option<STG>)
        requires
            buf@.len() >= LOC_STG_SIZE,
        ensures
            r is Some <==> loc_stg_ok(buf@),
            r matches Some(x) ==> x == loc_stg(buf@),
    {
        let draw_sky: bool = read_u32_le(buf, 128) != 0;
        let draw_terrain: bool = read_u32_le(buf, 132) != 0;
        if draw_sky != draw_terrain {
            return None;
        }
        if read_u32_le(buf, 204) > 255 {
            return None;
        }
        if read_u32_le(buf, 212) != 0 {
            return None;
        }
        Some(
            STG {
                world_light: read_quad(buf, 0),
                world_specular: read_quad(buf, 16),
                world_ambient: read_quad(buf, 32),
                fog_color: StgColor::Bits(
                    read_u32_le(buf, 48),
                    read_u32_le(buf, 52),
                    read_u32_le(buf, 56),
                    read_u32_le(buf, 60),
                ),
                sun_color: read_quad(buf, 64),
                water_color: read_quad(buf, 248),
                sky_height: read_u32_le(buf, 84),
                sky_velocity: (
                    (read_u32_le(buf, 88), read_u32_le(buf, 92)),
                    (read_u32_le(buf, 96), read_u32_le(buf, 100)),
                ),
                water_height: read_u32_le(buf, 104),
                tactics_time: read_u32_le(buf, 116),
                draw_rain: read_u32_le(buf, 112) != 0,
                draw_shadows: read_u32_le(buf, 124) != 0,
                draw_terrain,
                draw_water: read_u32_le(buf, 136) != 0,
                draw_sun: true,
                fog_start: read_u32_le(buf, 148),
                fog_end: read_u32_le(buf, 152),
                sky_fog_start: read_u32_le(buf, 156),
                sky_fog_end: read_u32_le(buf, 160),
                shadow_start: read_u32_le(buf, 176),
                shadow_end: read_u32_le(buf, 180),
                shadow_yaw: read_u32_le(buf, 184),
                shadow_pitch: read_u32_le(buf, 188),
                sun_flash_power: read_u32_le(buf, 192),
                sun_back_size: read_u32_le(buf, 196),
                sun_front_size: read_u32_le(buf, 200),
                ticket_a: read_u32_le(buf, 216),
                ticket_b: read_u32_le(buf, 220),
                terrain_scale: 0,
                start_pos: (F32_NAN_BITS, F32_NAN_BITS, F32_NAN_BITS),
                start_yaw: F32_NAN_BITS,
                wave_speed: 0,
                wave_scale: 0,
            },
        )
    }

    /// Reads a stage record of either title, told apart by its size: `Err`
    /// for any other size, `None` for a record of the second title that
    /// fails its checks.
    pub fn import(buf: &[u8]) -> (r: Option<Result<STG, StgError>>)
        ensures
            buf@.len() == SB_STG_SIZE ==> r == Some(Ok::<STG, StgError>(sb_stg(buf@))),
            buf@.len() == LOC_STG_SIZE ==> (r is Some <==> loc_stg_ok(buf@)),
            buf@.len() == LOC_STG_SIZE ==> (r matches Some(x) ==> x == Ok::<STG, StgError>(loc_stg(buf@))),
            buf@.len() != SB_STG_SIZE && buf@.len() != LOC_STG_SIZE ==> r == Some(
                Err::<STG, StgError>(StgError::IncorrectSize),
            ),
    {
        let n: usize = buf.len();
        if n == SB_STG_SIZE {
            Some(Ok(STG::import_sb_buf(buf)))
        } else if n == LOC_STG_SIZE {
            match STG::import_loc_buf(buf) {
                Some(s) => Some(Ok(s)),
                None => None,
            }
        } else {
            Some(Err(StgError::IncorrectSize))
        }
    }
}

} // verus!
