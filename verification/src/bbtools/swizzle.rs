//! Swizzled texel layouts: the bit masks that interleave the x, y and z
//! coordinates of a texel into its offset, and the copy of a swizzled image
//! into linear rows.
use vstd::prelude::*;

use crate::bbtools::xpr::{exp2, lemma_exp2_mono};

verus! {

/// The number of bit levels `j` with `2^j < n`: the ceiling of log2 `n`, and
/// 0 for `n <= 1`.
pub open spec fn nbits(n: nat) -> nat
    decreases n,
{
    if n <= 1 {
        0
    } else {
        1 + nbits(((n + 1) / 2) as nat)
    }
}

pub proof fn lemma_nbits(n: nat, j: nat)
    ensures
        (exp2(j) < n) == (j < nbits(n)),
    decreases n,
{
    lemma_exp2_mono(0, j);
    if n > 1 && j > 0 {
        lemma_nbits(((n + 1) / 2) as nat, (j - 1) as nat);
    }
}

/// The masks `(x, y, z)` and the number `m` of mask bits handed out after the
/// first `j` bit levels: at each level, each coordinate whose extent exceeds
/// `2^level` takes the next mask bit, in the order x, y, z.
pub open spec fn swizzle_state(w: nat, h: nat, d: nat, j: nat) -> (nat, nat, nat, nat)
    decreases j,
{
    if j == 0 {
        (0, 0, 0, 0)
    } else {
        let s = swizzle_state(w, h, d, (j - 1) as nat);
        let b = exp2((j - 1) as nat);
        let m0 = s.3;
        let x = if b < w { s.0 + exp2(m0) } else { s.0 };
        let m1 = if b < w { m0 + 1 } else { m0 };
        let y = if b < h { s.1 + exp2(m1) } else { s.1 };
        let m2 = if b < h { m1 + 1 } else { m1 };
        let z = if b < d { s.2 + exp2(m2) } else { s.2 };
        let m3 = if b < d { m2 + 1 } else { m2 };
        (x, y, z, m3)
    }
}

pub open spec fn min_nat(a: nat, b: nat) -> nat {
    if a < b { a } else { b }
}

pub open spec fn max3(a: nat, b: nat, c: nat) -> nat {
    if a >= b && a >= c {
        a
    } else if b >= c {
        b
    } else {
        c
    }
}

/// The swizzle masks of a `w` by `h` by `d` box.
pub open spec fn spec_masks(w: u32, h: u32, d: u32) -> (u32, u32, u32) {
    let s = swizzle_state(w as nat, h as nat, d as nat, max3(nbits(w as nat), nbits(h as nat), nbits(d as nat)));
    (s.0 as u32, s.1 as u32, s.2 as u32)
}

/// The masks fit in 32 bits (with room for the last mask bit).
pub open spec fn masks_fit(w: nat, h: nat, d: nat) -> bool {
    nbits(w) + nbits(h) + nbits(d) <= 31
}

pub proof fn lemma_state_count(w: nat, h: nat, d: nat, j: nat)
    ensures
        swizzle_state(w, h, d, j).3 == min_nat(j, nbits(w)) + min_nat(j, nbits(h)) + min_nat(j, nbits(d)),
        swizzle_state(w, h, d, j).0 + swizzle_state(w, h, d, j).1 + swizzle_state(w, h, d, j).2 + 1
            == exp2(swizzle_state(w, h, d, j).3),
    decreases j,
{
    if j > 0 {
        let jj = (j - 1) as nat;
        lemma_state_count(w, h, d, jj);
        lemma_nbits(w, jj);
        lemma_nbits(h, jj);
        lemma_nbits(d, jj);
        let s = swizzle_state(w, h, d, jj);
        assert(exp2(s.3 + 1) == 2 * exp2(s.3));
        assert(exp2(s.3 + 2) == 2 * exp2(s.3 + 1));
    }
}

pub proof fn lemma_exp2_31()
    ensures
        exp2(31) == 0x8000_0000,
{
    reveal_with_fuel(exp2, 32);
}

/// Handing mask bit `mb` to `a` keeps the three masks disjoint, below the
/// next mask bit and summing to it minus one.
proof fn lemma_hand_out(a: u32, b: u32, c: u32, mb: u32, nb: u32)
    by (bit_vector)
    requires
        mb >= 1,
        mb & ((mb - 1) as u32) == 0,
        a < mb,
        b < mb,
        c < mb,
        a & b == 0,
        a & c == 0,
        b & c == 0,
        b & a == 0,
        c & a == 0,
        c & b == 0,
        a + b + c + 1 == mb,
        mb < 0x8000_0000,
        nb == mb * 2,
    ensures
        a | mb == a + mb,
        (a | mb) & b == 0,
        (a | mb) & c == 0,
        b & (a | mb) == 0,
        c & (a | mb) == 0,
        (a | mb) < nb,
        b < nb,
        c < nb,
        nb & ((nb - 1) as u32) == 0,
        (a | mb) + b + c + 1 == nb,
{
}

proof fn lemma_disjoint_xor(a: u32, b: u32, c: u32)
    by (bit_vector)
    requires
        a & b == 0,
        a & c == 0,
        b & c == 0,
        a + b + c < 0x1_0000_0000,
    ensures
        a ^ b ^ c == a + b + c,
{
}

/// The swizzle masks of a box: for each coordinate, the bits of a texel
/// offset that hold that coordinate. The masks do not overlap and together
/// cover the low `nbits(width) + nbits(height) + nbits(depth)` bits.
pub fn generate_swizzle_masks(width: u32, height: u32, depth: u32) -> (r: (u32, u32, u32))
    requires
        masks_fit(width as nat, height as nat, depth as nat),
    ensures
        r == spec_masks(width, height, depth),
        r.0 & r.1 == 0,
        r.0 & r.2 == 0,
        r.1 & r.2 == 0,
        (r.0 ^ r.1 ^ r.2) + 1 == exp2(nbits(width as nat) + nbits(height as nat) + nbits(depth as nat)),
{
    let ghost w = width as nat;
    let ghost h = height as nat;
    let ghost d = depth as nat;
    let ghost levels = max3(nbits(w), nbits(h), nbits(d));
    let mut x = 0u32;
    let mut y = 0u32;
    let mut z = 0u32;
    let mut bit = 1u32;
    let mut mask_bit = 1u32;
    let ghost mut j: nat = 0;
    proof {
        assert(mask_bit & ((mask_bit - 1) as u32) == 0 && x & y == 0 && x & z == 0 && y & z == 0
            && y & x == 0 && z & x == 0 && z & y == 0) by (bit_vector)
            requires
                mask_bit == 1,
                x == 0,
                y == 0,
                z == 0,
        ;
        lemma_exp2_31();
    }
    loop
        invariant
            w == width,
            h == height,
            d == depth,
            levels == max3(nbits(w), nbits(h), nbits(d)),
            masks_fit(w, h, d),
            exp2(31) == 0x8000_0000,
            j <= levels,
            bit == exp2(j),
            x == swizzle_state(w, h, d, j).0,
            y == swizzle_state(w, h, d, j).1,
            z == swizzle_state(w, h, d, j).2,
            mask_bit == exp2(swizzle_state(w, h, d, j).3),
            mask_bit >= 1,
            mask_bit & ((mask_bit - 1) as u32) == 0,
            x < mask_bit,
            y < mask_bit,
            z < mask_bit,
            x & y == 0,
            x & z == 0,
            y & z == 0,
            y & x == 0,
            z & x == 0,
            z & y == 0,
            x + y + z + 1 == mask_bit,
        ensures
            j == levels,
            x == swizzle_state(w, h, d, j).0,
            y == swizzle_state(w, h, d, j).1,
            z == swizzle_state(w, h, d, j).2,
            mask_bit == exp2(swizzle_state(w, h, d, j).3),
            x & y == 0,
            x & z == 0,
            y & z == 0,
            x + y + z + 1 == mask_bit,
        decreases levels - j,
    {
        let mut done = true;
        let ghost s = swizzle_state(w, h, d, j);
        proof {
            lemma_nbits(w, j);
            lemma_nbits(h, j);
            lemma_nbits(d, j);
            lemma_state_count(w, h, d, j);
            lemma_state_count(w, h, d, j + 1);
        }
        let ghost m0 = s.3;
        if bit < width {
            proof {
                lemma_exp2_mono(m0 + 1, 31);
                lemma_exp2_mono(m0, 30);
                assert(exp2(m0 + 1) == 2 * exp2(m0));
                lemma_hand_out(x, y, z, mask_bit, (mask_bit * 2) as u32);
            }
            x |= mask_bit;
            mask_bit = mask_bit * 2;
            done = false;
        }
        let ghost m1 = if exp2(j) < w { m0 + 1 } else { m0 };
        if bit < height {
            proof {
                lemma_exp2_mono(m1 + 1, 31);
                lemma_exp2_mono(m1, 30);
                assert(exp2(m1 + 1) == 2 * exp2(m1));
                lemma_hand_out(y, x, z, mask_bit, (mask_bit * 2) as u32);
            }
            y |= mask_bit;
            mask_bit = mask_bit * 2;
            done = false;
        }
        let ghost m2 = if exp2(j) < h { m1 + 1 } else { m1 };
        if bit < depth {
            proof {
                lemma_exp2_mono(m2 + 1, 31);
                lemma_exp2_mono(m2, 30);
                assert(exp2(m2 + 1) == 2 * exp2(m2));
                lemma_hand_out(z, x, y, mask_bit, (mask_bit * 2) as u32);
            }
            z |= mask_bit;
            mask_bit = mask_bit * 2;
            done = false;
        }
        if done {
            break;
        }
        proof {
            lemma_exp2_mono(j + 1, 31);
        }
        bit = bit * 2;
        proof {
            j = j + 1;
        }
    }
    proof {
        lemma_state_count(w, h, d, j);
        lemma_disjoint_xor(x, y, z);
    }
    (x, y, z)
}

/// The offset bits of coordinate `k` along one axis: starting from 0, each
/// step moves to the next value whose bits all lie in `mask`, by the wrapping
/// step `(o - mask) & mask`.
pub open spec fn swizzle_offset(mask: u32, k: nat) -> u32
    decreases k,
{
    if k == 0 {
        0
    } else {
        swizzle_offset(mask, (k - 1) as nat).wrapping_sub(mask) & mask
    }
}

proof fn lemma_and_le(a: u32, m: u32)
    by (bit_vector)
    ensures
        a & m <= m,
{
}

pub proof fn lemma_offset_le(mask: u32, k: nat)
    ensures
        swizzle_offset(mask, k) <= mask,
    decreases k,
{
    if k > 0 {
        lemma_and_le(swizzle_offset(mask, (k - 1) as nat).wrapping_sub(mask), mask);
    }
}

/// Index of byte `i` of texel `(x, y)` in linear rows of `row_pitch` bytes.
pub open spec fn linear_index(row_pitch: nat, bpp: nat, x: nat, y: nat, i: nat) -> int {
    (y * row_pitch + x * bpp + i) as int
}

/// Index of byte `i` of texel `(x, y)` in a swizzled image.
pub open spec fn swizzled_index(mask_x: u32, mask_y: u32, bpp: nat, x: nat, y: nat, i: nat) -> int {
    ((swizzle_offset(mask_x, x) + swizzle_offset(mask_y, y)) * bpp + i) as int
}

/// Copying a swizzled `w` by `h` image of `bpp`-byte texels, read from
/// `src_len` bytes, into linear rows of `dst_len` bytes stays within both
/// buffers.
pub open spec fn unswizzle_fits(w: u32, h: u32, bpp: nat, src_len: nat, dst_len: nat) -> bool {
    let masks = spec_masks(w, h, 1);
    &&& masks_fit(w as nat, h as nat, 1)
    &&& w * h * bpp <= dst_len
    &&& forall|y: nat| y < h ==> #[trigger] swizzle_offset(masks.1, y) * bpp <= src_len
    &&& forall|x: nat, y: nat|
        x < w && y < h ==> (#[trigger] swizzle_offset(masks.0, x) + #[trigger] swizzle_offset(
            masks.1,
            y,
        )) * bpp + bpp <= src_len
}

proof fn lemma_texel_in_row(w: nat, bpp: nat, x: nat, y: nat, i: nat)
    by (nonlinear_arith)
    requires
        x < w,
        i < bpp,
    ensures
        y * (w * bpp) <= y * (w * bpp) + x * bpp + i,
        y * (w * bpp) + x * bpp + i < (y + 1) * (w * bpp),
{
}

proof fn lemma_texel_fits_row(w: nat, bpp: nat, x: nat, y: nat)
    by (nonlinear_arith)
    requires
        x < w,
    ensures
        y * (w * bpp) + x * bpp + bpp <= (y + 1) * (w * bpp),
        x * bpp + bpp <= w * bpp,
{
}

proof fn lemma_mul_le(a: nat, b: nat, c: nat)
    by (nonlinear_arith)
    requires
        a <= b,
    ensures
        a * c <= b * c,
{
}

proof fn lemma_rows_le(w: nat, h: nat, bpp: nat, y: nat)
    by (nonlinear_arith)
    requires
        y < h,
    ensures
        (y + 1) * (w * bpp) <= h * (w * bpp),
        h * (w * bpp) == w * h * bpp,
{
}

proof fn lemma_distrib(a: nat, b: nat, c: nat)
    by (nonlinear_arith)
    ensures
        (a + b) * c == a * c + b * c,
{
}

proof fn lemma_state_flat(w: nat, h: nat, j: nat)
    ensures
        swizzle_state(w, h, 1, j).2 == 0,
    decreases j,
{
    if j > 0 {
        lemma_state_flat(w, h, (j - 1) as nat);
        lemma_exp2_mono(0, (j - 1) as nat);
    }
}

/// Copies `n` bytes of `src` from `from` into `dst` at `at`.
fn copy_bytes(dst: &mut Vec<u8>, at: usize, src: &[u8], from: usize, n: usize)
    requires
        at + n <= old(dst)@.len(),
        from + n <= src@.len(),
    ensures
        final(dst)@.len() == old(dst)@.len(),
        forall|k: int|
            0 <= k < final(dst)@.len() ==> #[trigger] final(dst)@[k] == if at <= k < at + n {
                src@[from + k - at]
            } else {
                old(dst)@[k]
            },
{
    let dst_len = dst.len();
    let src_len = src.len();
    let mut i: usize = 0;
    while i < n
        invariant
            i <= n,
            dst_len == dst@.len(),
            src_len == src@.len(),
            at + n <= dst_len,
            from + n <= src_len,
            dst@.len() == old(dst)@.len(),
            forall|k: int|
                0 <= k < dst@.len() ==> #[trigger] dst@[k] == if at <= k < at + i {
                    src@[from + k - at]
                } else {
                    old(dst)@[k]
                },
        decreases n - i,
    {
        dst.set(at + i, src[from + i]);
        i = i + 1;
    }
}

/// Copies a swizzled image out of `src_base` into rows of `row_pitch` bytes
/// in `dst_base`: byte `i` of texel `(x, y)` goes to
/// `linear_index(row_pitch, bpp, x, y, i)` from
/// `swizzled_index(mask_x, mask_y, bpp, x, y, i)`. The bytes after the last
/// row are left as they were.
fn unswizzle_box(
    src_base: &[u8],
    dst_base: &mut Vec<u8>,
    width: u32,
    height: u32,
    depth: u32,
    row_pitch: usize,
    slice_pitch: u32,
    bytes_per_pixel: usize,
)
    requires
        depth == 1,
        row_pitch == width * bytes_per_pixel,
        unswizzle_fits(
            width,
            height,
            bytes_per_pixel as nat,
            src_base@.len(),
            old(dst_base)@.len(),
        ),
    ensures
        final(dst_base)@.len() == old(dst_base)@.len(),
        forall|x: nat, y: nat, i: nat|
            x < width && y < height && i < bytes_per_pixel ==> #[trigger] final(dst_base)@[linear_index(
                row_pitch as nat,
                bytes_per_pixel as nat,
                x,
                y,
                i,
            )] == src_base@[swizzled_index(
                spec_masks(width, height, 1).0,
                spec_masks(width, height, 1).1,
                bytes_per_pixel as nat,
                x,
                y,
                i,
            )],
        forall|k: int|
            height * row_pitch <= k < final(dst_base)@.len() ==> #[trigger] final(dst_base)@[k]
                == old(dst_base)@[k],
{
    let (mask_x, mask_y, mask_z) = generate_swizzle_masks(width, height, depth);
    let ghost w = width as nat;
    let ghost h = height as nat;
    let ghost bpp = bytes_per_pixel as nat;
    let ghost rp = row_pitch as nat;
    let dst_len: usize = dst_base.len();
    let src_len: usize = src_base.len();
    let ghost len = dst_len as nat;
    let ghost slen = src_len as nat;
    let ghost dst0 = dst_base@;
    proof {
        lemma_state_flat(w, h, max3(nbits(w), nbits(h), nbits(1)));
    }
    let mut off_z = 0u32;
    let mut z = 0u32;
    while z < depth
        invariant
            depth == 1,
            z <= 1,
            off_z == 0,
            w == width,
            h == height,
            bpp == bytes_per_pixel,
            rp == row_pitch,
            rp == w * bpp,
            (mask_x, mask_y, mask_z) == spec_masks(width, height, 1),
            mask_z == 0,
            unswizzle_fits(width, height, bpp, slen, len),
            slen == src_base@.len(),
            slen == src_len,
            len == dst_len,
            dst_base@.len() == len,
            z == 0 ==> dst_base@ == dst0,
            z == 1 ==> forall|x: nat, y: nat, i: nat|
                x < w && y < h && i < bpp ==> #[trigger] dst_base@[linear_index(rp, bpp, x, y, i)]
                    == src_base@[swizzled_index(mask_x, mask_y, bpp, x, y, i)],
            forall|k: int| h * rp <= k < len ==> #[trigger] dst_base@[k] == dst0[k],
        decreases depth - z,
    {
        let mut off_y = 0u32;
        let mut y = 0u32;
        while y < height
            invariant
                z == 0,
                off_z == 0,
                w == width,
                h == height,
                bpp == bytes_per_pixel,
                rp == row_pitch,
                rp == w * bpp,
                (mask_x, mask_y, mask_z) == spec_masks(width, height, 1),
                unswizzle_fits(width, height, bpp, slen, len),
                slen == src_base@.len(),
                slen == src_len,
                len == dst_len,
                dst_base@.len() == len,
                y <= height,
                off_y == swizzle_offset(mask_y, y as nat),
                forall|x: nat, yy: nat, i: nat|
                    x < w && yy < y && i < bpp ==> #[trigger] dst_base@[linear_index(rp, bpp, x, yy, i)]
                        == src_base@[swizzled_index(mask_x, mask_y, bpp, x, yy, i)],
                forall|k: int| y * rp <= k < len ==> #[trigger] dst_base@[k] == dst0[k],
            decreases height - y,
        {
            let ghost yn = y as nat;
            proof {
                lemma_offset_le(mask_y, yn);
                lemma_rows_le(w, h, bpp, yn);
                lemma_mul_le(yn, h, rp);
                assert(mask_y == spec_masks(width, height, 1).1);
                assert(swizzle_offset(spec_masks(width, height, 1).1, yn) * bpp <= slen);
            }
            let src_offset = (off_y + off_z) as usize * bytes_per_pixel;
            let dst_offset = (z * slice_pitch + y) as usize * row_pitch;
            let mut off_x = 0u32;
            let mut x = 0u32;
            while x < width
                invariant
                    z == 0,
                    w == width,
                    h == height,
                    bpp == bytes_per_pixel,
                    rp == row_pitch,
                    rp == w * bpp,
                    (mask_x, mask_y, mask_z) == spec_masks(width, height, 1),
                    unswizzle_fits(width, height, bpp, slen, len),
                    slen == src_base@.len(),
                slen == src_len,
                len == dst_len,
                    dst_base@.len() == len,
                    yn == y,
                    y < height,
                    x <= width,
                    src_offset == swizzle_offset(mask_y, yn) * bpp,
                    dst_offset == yn * rp,
                    (yn + 1) * rp <= h * rp,
                    h * rp == w * h * bpp,
                    off_x == swizzle_offset(mask_x, x as nat),
                    forall|xx: nat, yy: nat, i: nat|
                        xx < w && yy < yn && i < bpp ==> #[trigger] dst_base@[linear_index(
                            rp,
                            bpp,
                            xx,
                            yy,
                            i,
                        )] == src_base@[swizzled_index(mask_x, mask_y, bpp, xx, yy, i)],
                    forall|xx: nat, i: nat|
                        xx < x && i < bpp ==> #[trigger] dst_base@[linear_index(rp, bpp, xx, yn, i)]
                            == src_base@[swizzled_index(mask_x, mask_y, bpp, xx, yn, i)],
                    forall|k: int| yn * rp + x * bpp <= k < len ==> #[trigger] dst_base@[k] == dst0[k],
                decreases width - x,
            {
                let ghost xn = x as nat;
                let ghost before = dst_base@;
                proof {
                    lemma_offset_le(mask_x, xn);
                    lemma_texel_fits_row(w, bpp, xn, yn);
                    lemma_distrib(swizzle_offset(mask_x, xn) as nat, swizzle_offset(mask_y, yn) as nat, bpp);
                    assert(mask_x == spec_masks(width, height, 1).0);
                    assert(mask_y == spec_masks(width, height, 1).1);
                    assert((swizzle_offset(spec_masks(width, height, 1).0, xn) + swizzle_offset(spec_masks(width, height, 1).1, yn)) * bpp + bpp <= slen);
                    lemma_mul_le(swizzle_offset(mask_x, xn) as nat, (swizzle_offset(mask_x, xn) + swizzle_offset(mask_y, yn)) as nat, bpp);
                }
                let src_idx = off_x as usize * bytes_per_pixel;
                let dst_idx = x as usize * bytes_per_pixel;
                copy_bytes(dst_base, dst_offset + dst_idx, src_base, src_offset + src_idx, bytes_per_pixel);
                proof {
                    assert forall|xx: nat, yy: nat, i: nat|
                        xx < w && yy < yn && i < bpp implies #[trigger] dst_base@[linear_index(
                            rp,
                            bpp,
                            xx,
                            yy,
                            i,
                        )] == src_base@[swizzled_index(mask_x, mask_y, bpp, xx, yy, i)] by {
                        lemma_texel_in_row(w, bpp, xx, yy, i);
                        lemma_mul_le(yy + 1, yn, rp);
                        assert(before[linear_index(rp, bpp, xx, yy, i)] == src_base@[swizzled_index(
                            mask_x,
                            mask_y,
                            bpp,
                            xx,
                            yy,
                            i,
                        )]);
                    }
                    assert forall|xx: nat, i: nat|
                        xx < xn + 1 && i < bpp implies #[trigger] dst_base@[linear_index(
                            rp,
                            bpp,
                            xx,
                            yn,
                            i,
                        )] == src_base@[swizzled_index(mask_x, mask_y, bpp, xx, yn, i)] by {
                        lemma_texel_in_row(w, bpp, xx, yn, i);
                        if xx < xn {
                            lemma_mul_le(xx + 1, xn, bpp);
                            lemma_distrib(xx, 1, bpp);
                            assert(before[linear_index(rp, bpp, xx, yn, i)] == src_base@[swizzled_index(
                                mask_x,
                                mask_y,
                                bpp,
                                xx,
                                yn,
                                i,
                            )]);
                        } else {
                            lemma_distrib(swizzle_offset(mask_x, xn) as nat, swizzle_offset(mask_y, yn) as nat, bpp);
                        }
                    }
                    lemma_distrib(xn, 1, bpp);
                    assert forall|k: int| yn * rp + (xn + 1) * bpp <= k < len implies #[trigger] dst_base@[k]
                        == dst0[k] by {
                        assert(before[k] == dst0[k]);
                    }
                }
                off_x = off_x.wrapping_sub(mask_x) & mask_x;
                x = x + 1;
            }
            proof {
                lemma_distrib(yn, 1, rp);
            }
            off_y = off_y.wrapping_sub(mask_y) & mask_y;
            y = y + 1;
        }
        off_z = off_z.wrapping_sub(mask_z) & mask_z;
        z = z + 1;
        proof {
            assert(0u32.wrapping_sub(0u32) & 0u32 == 0) by (bit_vector);
        }
    }
}

/// `dst` is the swizzled `w` by `h` image of `bpp`-byte texels in `src`,
/// copied into linear rows, with zeros after the last row.
pub open spec fn unswizzled(src: Seq<u8>, w: u32, h: u32, bpp: nat, dst: Seq<u8>) -> bool {
    let masks = spec_masks(w, h, 1);
    &&& dst.len() == src.len()
    &&& forall|x: nat, y: nat, i: nat|
        x < w && y < h && i < bpp ==> #[trigger] dst[linear_index((w * bpp) as nat, bpp, x, y, i)]
            == src[swizzled_index(masks.0, masks.1, bpp, x, y, i)]
    &&& forall|k: int| w * h * bpp <= k < dst.len() ==> #[trigger] dst[k] == 0
}

/// Copies the swizzled `width` by `height` image of `bpp`-byte texels in
/// `src` into linear rows.
pub fn unswizzle_image(src: &[u8], width: u32, height: u32, bpp: usize) -> (r: Vec<u8>)
    requires
        width * bpp <= usize::MAX,
        unswizzle_fits(width, height, bpp as nat, src@.len(), src@.len()),
    ensures
        unswizzled(src@, width, height, bpp as nat, r@),
{
    let mut dst: Vec<u8> = vec![0u8; src.len()];
    let row_pitch: usize = width as usize * bpp;
    unswizzle_box(src, &mut dst, width, height, 1, row_pitch, 0, bpp);
    proof {
        let w = width as nat;
        let h = height as nat;
        let b = bpp as nat;
        assert(h * (w * b) == w * h * b) by (nonlinear_arith);
    }
    dst
}

/// The number of bit levels below `n`, as `nbits`.
fn count_levels(n: u32) -> (r: u32)
    ensures
        r == nbits(n as nat),
        r <= 32,
{
    let mut b: u64 = 1;
    let mut k: u32 = 0;
    proof {
        lemma_exp2_31();
    }
    while b < n as u64
        invariant
            b == exp2(k as nat),
            k == 0 || exp2((k - 1) as nat) < n,
            k <= 32,
            exp2(31) == 0x8000_0000,
        decreases 64 - k,
    {
        proof {
            if k >= 32 {
                lemma_exp2_mono(31, (k - 1) as nat);
            }
        }
        b = b * 2;
        k = k + 1;
    }
    proof {
        lemma_nbits(n as nat, k as nat);
        if k > 0 {
            lemma_nbits(n as nat, (k - 1) as nat);
        }
    }
    k
}

/// The largest offset of the first `n` coordinates along an axis.
fn max_offset(mask: u32, n: u32) -> (r: u32)
    ensures
        r <= mask,
        forall|k: nat| k < n ==> #[trigger] swizzle_offset(mask, k) <= r,
        n > 0 ==> exists|k: nat| k < n && #[trigger] swizzle_offset(mask, k) == r,
{
    let mut best: u32 = 0;
    let mut off: u32 = 0;
    let mut k: u32 = 0;
    while k < n
        invariant
            k <= n,
            off == swizzle_offset(mask, k as nat),
            best <= mask,
            forall|j: nat| j < k ==> #[trigger] swizzle_offset(mask, j) <= best,
            k > 0 ==> exists|j: nat| j < k && #[trigger] swizzle_offset(mask, j) == best,
        decreases n - k,
    {
        proof {
            lemma_offset_le(mask, k as nat);
        }
        if off > best || k == 0 {
            best = off;
        }
        proof {
            assert(swizzle_offset(mask, k as nat) <= best);
        }
        off = off.wrapping_sub(mask) & mask;
        k = k + 1;
    }
    best
}

/// Whether `unswizzle_fits(w, h, bpp, len, len)` holds.
pub fn unswizzle_fits_check(w: u32, h: u32, bpp: usize, len: usize) -> (r: bool)
    ensures
        r == unswizzle_fits(w, h, bpp as nat, len as nat, len as nat),
{
    if count_levels(w) + count_levels(h) > 31 {
        return false;
    }
    proof {
        assert(nbits(1) == 0);
    }
    let (mask_x, mask_y, _mask_z) = generate_swizzle_masks(w, h, 1);
    let ghost b = bpp as nat;
    assert(w * h <= 0xffff_ffff * 0xffff_ffffu64) by (nonlinear_arith);
    let wh: u128 = w as u128 * h as u128;
    assert(wh * b <= 0xffff_ffff * 0xffff_ffffu64 * 0xffff_ffff_ffff_ffffu64) by (nonlinear_arith)
        requires
            wh <= 0xffff_ffff * 0xffff_ffffu64,
            b <= 0xffff_ffff_ffff_ffffu64,
    ;
    if wh * bpp as u128 > len as u128 {
        return false;
    }
    let max_x = max_offset(mask_x, w);
    let max_y = max_offset(mask_y, h);
    let ghost masks = spec_masks(w, h, 1);
    assert(max_y * b <= 0xffff_ffff * 0xffff_ffff_ffff_ffffu64) by (nonlinear_arith)
        requires
            max_y <= 0xffff_ffffu32,
            b <= 0xffff_ffff_ffff_ffffu64,
    ;
    assert((max_x + max_y) * b + b <= 0x2_0000_0000 * 0xffff_ffff_ffff_ffffu64) by (nonlinear_arith)
        requires
            max_x <= 0xffff_ffffu32,
            max_y <= 0xffff_ffffu32,
            b <= 0xffff_ffff_ffff_ffffu64,
    ;
    if h > 0 && max_y as u128 * bpp as u128 > len as u128 {
        proof {
            let y = choose|y: nat| y < h && #[trigger] swizzle_offset(mask_y, y) == max_y;
            assert(swizzle_offset(masks.1, y) * b > len);
        }
        return false;
    }
    if w > 0 && h > 0 && (max_x as u128 + max_y as u128) * bpp as u128 + bpp as u128 > len as u128 {
        proof {
            let x = choose|x: nat| x < w && #[trigger] swizzle_offset(mask_x, x) == max_x;
            let y = choose|y: nat| y < h && #[trigger] swizzle_offset(mask_y, y) == max_y;
            assert((swizzle_offset(masks.0, x) + swizzle_offset(masks.1, y)) * b + b > len);
        }
        return false;
    }
    proof {
        assert forall|y: nat| y < h implies #[trigger] swizzle_offset(masks.1, y) * b <= len by {
            lemma_mul_le(swizzle_offset(mask_y, y) as nat, max_y as nat, b);
        }
        assert forall|x: nat, y: nat| x < w && y < h implies (#[trigger] swizzle_offset(masks.0, x)
            + #[trigger] swizzle_offset(masks.1, y)) * b + b <= len by {
            lemma_mul_le(
                (swizzle_offset(mask_x, x) + swizzle_offset(mask_y, y)) as nat,
                (max_x + max_y) as nat,
                b,
            );
        }
    }
    true
}

} // verus!
