//! The first title: where its assets go, and the rules its unpacking
//! follows (how ground textures are stacked, which textures are converted,
//! and the fixes some files need).
use vstd::prelude::*;

use crate::bbtools::obj::ModelConfig;
use crate::bbtools::xpr::{
    has_mipmaps, layer_added, layer_error, lemma_pitch_fits_half, mipmaps_dropped, pitch_fits,
    pitch_fits_check, pitch_known, spec_pitch, top_dropped, dxt3_data, XPRFormat, XprError, XPR,
};
use crate::bbtools::swizzle::unswizzled;
use crate::decimal::{dec, push_decimal, string_push_str, zero_pad};

verus! {

pub const TITLE_PREFIX: &'static str = "sb";

pub const TITLE_ID: u32 = 0x43430002;

pub const GAME_MISSION_COUNT: usize = 24;

/// The first files of ADVANCE.bin are textures, up to this index.
pub const ADVANCE_TEXTURE_END: usize = 30;

/// Then come models, up to this index; text follows.
pub const ADVANCE_MODEL_END: usize = 55;

/// `prefix`, `n` in decimal on `width` digits, and `suffix`.
pub fn numbered_name(prefix: &str, n: u64, width: usize, suffix: &str) -> (r: String)
    ensures
        r@ == prefix@ + zero_pad(dec(n as nat), width as nat) + suffix@,
{
    let mut s = String::new();
    string_push_str(&mut s, prefix);
    push_decimal(&mut s, n, width);
    string_push_str(&mut s, suffix);
    assert(s@ =~= prefix@ + zero_pad(dec(n as nat), width as nat) + suffix@);
    s
}

/// The engine path of model `idx`.
pub fn get_gltf_path(idx: usize) -> (r: String)
    ensures
        r@ == "/proprietary/sb/models/"@ + zero_pad(dec(idx as nat), 4) + ".gltf"@,
{
    numbered_name("/proprietary/sb/models/", idx as u64, 4, ".gltf")
}

/// The engine path of object texture `idx`.
pub fn get_dds_object_path(idx: usize) -> (r: String)
    ensures
        r@ == "/proprietary/sb/textures/objects/"@ + zero_pad(dec(idx as nat), 4) + ".dds"@,
{
    numbered_name("/proprietary/sb/textures/objects/", idx as u64, 4, ".dds")
}

/// What a file of ADVANCE.bin holds.
#[derive(PartialEq, Eq, Structural, Clone, Copy, Debug)]
pub enum AdvanceKind {
    Texture,
    Model,
    Text,
}

pub fn advance_kind(file_index: usize) -> (r: AdvanceKind)
    ensures
        r == if file_index < ADVANCE_TEXTURE_END {
            AdvanceKind::Texture
        } else if file_index < ADVANCE_MODEL_END {
            AdvanceKind::Model
        } else {
            AdvanceKind::Text
        },
{
    if file_index < ADVANCE_TEXTURE_END {
        AdvanceKind::Texture
    } else if file_index < ADVANCE_MODEL_END {
        AdvanceKind::Model
    } else {
        AdvanceKind::Text
    }
}

/// Extra nodes that some hitbox files of ATARI.bin need.
pub fn hitbox_node_count_fix(file_index: usize) -> (r: u32)
    ensures
        r == match file_index {
            5 | 7 | 20 => 1u32,
            322 | 324 => 4u32,
            645 => 2u32,
            655 => 6u32,
            _ => 0u32,
        },
{
    match file_index {
        5 => 1,
        7 => 1,
        20 => 1,
        322 => 4,
        324 => 4,
        645 => 2,
        655 => 6,
        _ => 0,
    }
}

/// Model 683, a projectile, has no hitbox in the executable: it gets
/// hitbox 487.
pub fn fix_projectile_hitbox(projectile: &mut ModelConfig)
    ensures
        old(projectile).model == 683 && old(projectile).hitbox is None ==> *final(projectile)
            == (ModelConfig { hitbox: Some(487u16), ..*old(projectile) }),
        !(old(projectile).model == 683 && old(projectile).hitbox is None) ==> *final(projectile)
            == *old(projectile),
{
    if projectile.model == 683 && projectile.hitbox.is_none() {
        projectile.hitbox = Some(487);
    }
}

/// A texture is converted for the engine: swizzled ARGB into linear rows,
/// DXT1 into DXT3; the others stay as they are.
pub fn prepare_texture(xpr: &mut XPR) -> (r: Result<(), XprError>)
    requires
        old(xpr).format == XPRFormat::ARGB ==> old(xpr).unswizzle_ready(),
    ensures
        final(xpr).width == old(xpr).width,
        final(xpr).height == old(xpr).height,
        final(xpr).levels == old(xpr).levels,
        final(xpr).layers == old(xpr).layers,
        final(xpr).depth == old(xpr).depth,
        final(xpr).dds_path() == old(xpr).dds_path(),
        old(xpr).format == XPRFormat::ARGB ==> r is Ok && final(xpr).format == XPRFormat::ARGB_LIN
            && unswizzled(
            old(xpr).data(),
            old(xpr).width as u32,
            old(xpr).height as u32,
            4,
            final(xpr).data(),
        ),
        old(xpr).format == XPRFormat::DXT1 ==> (r is Ok <==> old(xpr).data().len() % 8 == 0),
        old(xpr).format == XPRFormat::DXT1 && old(xpr).data().len() % 8 == 0 ==> final(xpr).format
            == XPRFormat::DXT3 && final(xpr).data() == dxt3_data(
            old(xpr).data(),
            old(xpr).data().len() / 8,
        ),
        old(xpr).format == XPRFormat::DXT1 && old(xpr).data().len() % 8 != 0 ==> r == Err::<
            (),
            XprError,
        >(XprError::BadDxt1Length) && final(xpr).format == old(xpr).format && final(xpr).data()
            == old(xpr).data(),
        old(xpr).format != XPRFormat::ARGB && old(xpr).format != XPRFormat::DXT1 ==> r is Ok
            && final(xpr).format == old(xpr).format && final(xpr).data() == old(xpr).data(),
{
    match xpr.format {
        XPRFormat::ARGB => xpr.convert_argb_to_argb_lin(),
        XPRFormat::DXT1 => xpr.convert_dxt1_to_dxt3(),
        _ => Ok(()),
    }
}

/// A ground texture of half the size of the base in both directions.
pub open spec fn halves(b: XPR, g: XPR) -> bool {
    b.width == g.width * 2 && b.height == g.height * 2
}

/// Dropping the mipmaps of `x` can be done: its pitch is known and fits.
pub open spec fn mipmaps_droppable(x: XPR) -> bool {
    has_mipmaps(x) ==> pitch_known(x.format) && pitch_fits(x.width as nat, x.height as nat)
}

/// The base texture `b` can take the ground texture `g` as layers.
pub open spec fn ground_layer_ok(b: XPR, g: XPR) -> bool {
    &&& mipmaps_droppable(b)
    &&& mipmaps_droppable(g)
    &&& halves(b, g) && has_mipmaps(b) ==> spec_pitch(b.format, b.width as nat, b.height as nat)
        <= b.data().len()
    &&& b.layers + g.layers <= usize::MAX
}

/// Whether `ground_layer_ok(base, next)` holds.
pub fn can_add_ground_layer(base: &XPR, next: &XPR) -> (r: bool)
    ensures
        r == ground_layer_ok(*base, *next),
{
    if !mipmaps_droppable_check(base) || !mipmaps_droppable_check(next) {
        return false;
    }
    if base.layers > usize::MAX - next.layers {
        return false;
    }
    let halve: bool = next.width <= usize::MAX / 2 && next.height <= usize::MAX / 2
        && base.width == next.width * 2 && base.height == next.height * 2;
    if halve && base.levels > 1 && base.depth <= 1 && base.layers <= 1 {
        return base.get_pitch() <= base.data.len();
    }
    true
}

fn mipmaps_droppable_check(x: &XPR) -> (r: bool)
    ensures
        r == mipmaps_droppable(*x),
{
    if x.levels > 1 && x.depth <= 1 && x.layers <= 1 {
        let known: bool = match x.format {
            XPRFormat::DXT1 | XPRFormat::DXT3 | XPRFormat::ARGB_LIN | XPRFormat::GB_LIN
            | XPRFormat::L16_LIN => true,
            _ => false,
        };
        known && pitch_fits_check(x.width, x.height)
    } else {
        true
    }
}

/// Stacks the ground textures of a mission: the first becomes the base;
/// each next one drops its mipmaps and becomes a layer of the base, which
/// first drops its top level when it is twice as large (one mission has a
/// base twice the size of its other textures) and then its mipmaps.
pub fn add_ground_layer(base: Option<XPR>, next: Option<XPR>) -> (r: Result<Option<XPR>, XprError>)
    requires
        base matches Some(b) && next matches Some(g) ==> ground_layer_ok(b, g),
    ensures
        match (base, next) {
            (None, n) => r == Ok::<Option<XPR>, XprError>(n),
            (Some(b), None) => r == Ok::<Option<XPR>, XprError>(Some(b)),
            (Some(b), Some(g)) => exists|b1: XPR, b2: XPR, g2: XPR|
                #![trigger mipmaps_dropped(b1, b2), mipmaps_dropped(g, g2)]
                (if halves(b, g) {
                    top_dropped(b, b1)
                } else {
                    b1 == b
                }) && mipmaps_dropped(b1, b2) && mipmaps_dropped(g, g2) && match layer_error(b2, g2) {
                    Some(e) => r == Err::<Option<XPR>, XprError>(e),
                    None => r matches Ok(Some(x)) && layer_added(b2, g2, x),
                },
        },
{
    match base {
        None => Ok(next),
        Some(mut bt) => match next {
            None => Ok(Some(bt)),
            Some(mut gt) => {
                let ghost b0 = bt;
                let ghost g0 = gt;
                if gt.width <= usize::MAX / 2 && gt.height <= usize::MAX / 2 && bt.width == gt.width
                    * 2 && bt.height == gt.height * 2 {
                    bt.discard_top_mipmap();
                }
                let ghost b1 = bt;
                proof {
                    if halves(b0, g0) && has_mipmaps(b0) {
                        lemma_pitch_fits_half(b0.width as nat, b0.height as nat);
                    }
                }
                bt.discard_mipmaps();
                let ghost b2 = bt;
                gt.discard_mipmaps();
                let ghost g2 = gt;
                match bt.extend_layers(gt) {
                    Ok(()) => {
                        assert(mipmaps_dropped(b1, b2) && mipmaps_dropped(g0, g2));
                        Ok(Some(bt))
                    },
                    Err(e) => {
                        assert(mipmaps_dropped(b1, b2) && mipmaps_dropped(g0, g2));
                        Err(e)
                    },
                }
            },
        },
    }
}

} // verus!
