//! Per-pixel color arithmetic on packed RGBA8 buffers: channel swapping and
//! conversion from straight alpha to premultiplied alpha, all in place.

use vstd::prelude::*;

verus! {

/// The color-channel product: `floor(a * b / 255)`, the scaling used when a
/// color channel is multiplied by an alpha value. Both inputs are at most
/// 255, so the result is too.
pub open spec fn mul_color(a: u8, b: u8) -> u8 {
    ((a * b) / 255) as u8
}

/// The alpha byte of the pixel that byte `i` belongs to.
pub open spec fn alpha_of(s: Seq<u8>, i: int) -> u8 {
    s[4 * (i / 4) + 3]
}

/// The buffer with the first and third byte of every four-byte pixel
/// exchanged (red and blue swapped); green and alpha are untouched.
pub open spec fn swapped(s: Seq<u8>) -> Seq<u8> {
    Seq::new(s.len(), |i: int|
        if i % 4 == 0 {
            s[i + 2]
        } else if i % 4 == 2 {
            s[i - 2]
        } else {
            s[i]
        })
}

/// The buffer with each color channel multiplied by its pixel's alpha;
/// the alpha bytes themselves are unchanged.
pub open spec fn premultiplied(s: Seq<u8>) -> Seq<u8> {
    Seq::new(s.len(), |i: int|
        if i % 4 == 3 {
            s[i]
        } else {
            mul_color(s[i], alpha_of(s, i))
        })
}

/// The buffer with red and blue swapped and each color channel multiplied by
/// its pixel's alpha, in one pass; the alpha bytes are unchanged.
pub open spec fn swapped_premultiplied(s: Seq<u8>) -> Seq<u8> {
    Seq::new(s.len(), |i: int|
        if i % 4 == 0 {
            mul_color(s[i + 2], alpha_of(s, i))
        } else if i % 4 == 1 {
            mul_color(s[i], alpha_of(s, i))
        } else if i % 4 == 2 {
            mul_color(s[i - 2], alpha_of(s, i))
        } else {
            s[i]
        })
}

/// Every alpha byte among the first `n` bytes is 255.
pub open spec fn opaque_upto(s: Seq<u8>, n: int) -> bool {
    forall|i: int| 0 <= i < n && i % 4 == 3 ==> s[i] == 255
}

/// Every pixel's alpha byte is 255; vacuously true of an empty buffer.
pub open spec fn all_opaque(s: Seq<u8>) -> bool {
    opaque_upto(s, s.len() as int)
}

/// `floor(a * b / 255)`, with the intermediate product held in 32 bits.
pub fn multiply_u8_color(a: u8, b: u8) -> (r: u8)
    ensures
        r == mul_color(a, b),
{
    proof {
        assert((a as int) * (b as int) <= 255 * 255) by (nonlinear_arith)
            requires
                a <= 255,
                b <= 255,
        ;
    }
    ((a as u32) * (b as u32) / 255) as u8
}

/// Exchanges the first and third byte of every four-byte pixel in place,
/// swapping the red and blue channels; green and alpha are untouched.
pub fn rgba8_byte_swap_colors_inplace(pixels: &mut Vec<u8>)
    requires
        old(pixels)@.len() % 4 == 0,
    ensures
        final(pixels)@ == swapped(old(pixels)@),
{
    let ghost s0 = pixels@;
    let n = pixels.len();
    let mut i: usize = 0;
    while i < n
        invariant
            pixels@.len() == n,
            s0.len() == n,
            n % 4 == 0,
            i % 4 == 0,
            i <= n,
            forall|j: int| 0 <= j < i ==> pixels@[j] == swapped(s0)[j],
            forall|j: int| i <= j < n ==> pixels@[j] == s0[j],
        decreases n - i,
    {
        let b = pixels[i];
        let c = pixels[i + 2];
        pixels.set(i, c);
        pixels.set(i + 2, b);
        i = i + 4;
    }
    proof {
        assert(pixels@ =~= swapped(s0));
    }
}

/// Multiplies each pixel's three color channels by its alpha in place,
/// leaving channel order and the alpha bytes unchanged. Returns whether
/// every pixel's alpha was 255 — `true` for an empty buffer.
pub fn rgba8_premultiply_inplace(pixels: &mut Vec<u8>) -> (opaque: bool)
    requires
        old(pixels)@.len() % 4 == 0,
    ensures
        final(pixels)@ == premultiplied(old(pixels)@),
        opaque == all_opaque(old(pixels)@),
{
    let ghost s0 = pixels@;
    let n = pixels.len();
    let mut is_opaque = true;
    let mut i: usize = 0;
    while i < n
        invariant
            pixels@.len() == n,
            s0.len() == n,
            n % 4 == 0,
            i % 4 == 0,
            i <= n,
            is_opaque == opaque_upto(s0, i as int),
            forall|j: int| 0 <= j < i ==> pixels@[j] == premultiplied(s0)[j],
            forall|j: int| i <= j < n ==> pixels@[j] == s0[j],
        decreases n - i,
    {
        let a = pixels[i + 3];
        let c0 = multiply_u8_color(pixels[i], a);
        let c1 = multiply_u8_color(pixels[i + 1], a);
        let c2 = multiply_u8_color(pixels[i + 2], a);
        pixels.set(i, c0);
        pixels.set(i + 1, c1);
        pixels.set(i + 2, c2);
        is_opaque = is_opaque && a == 255;
        proof {
            let ii = i as int;
            assert(4 * (ii / 4) == ii);
            if opaque_upto(s0, ii) && s0[ii + 3] == 255 {
                assert forall|j: int| 0 <= j < ii + 4 && j % 4 == 3 implies s0[j] == 255 by {
                    if ii <= j {
                        assert(j == ii + 3);
                    }
                }
            }
            if opaque_upto(s0, ii + 4) {
                assert((ii + 3) % 4 == 3);
                assert(s0[ii + 3] == 255);
            }
        }
        i = i + 4;
    }
    proof {
        assert(pixels@ =~= premultiplied(s0));
    }
    is_opaque
}

/// Swaps red and blue and multiplies each color channel by its pixel's alpha
/// in one pass, in place, turning straight-alpha RGBA into premultiplied
/// data with the first and third channels exchanged; alpha is unchanged.
pub fn rgba8_byte_swap_and_premultiply_inplace(pixels: &mut Vec<u8>)
    requires
        old(pixels)@.len() % 4 == 0,
    ensures
        final(pixels)@ == swapped_premultiplied(old(pixels)@),
{
    let ghost s0 = pixels@;
    let n = pixels.len();
    let mut i: usize = 0;
    while i < n
        invariant
            pixels@.len() == n,
            s0.len() == n,
            n % 4 == 0,
            i % 4 == 0,
            i <= n,
            forall|j: int| 0 <= j < i ==> pixels@[j] == swapped_premultiplied(s0)[j],
            forall|j: int| i <= j < n ==> pixels@[j] == s0[j],
        decreases n - i,
    {
        let a = pixels[i + 3];
        let b = pixels[i];
        let c0 = multiply_u8_color(pixels[i + 2], a);
        let c1 = multiply_u8_color(pixels[i + 1], a);
        let c2 = multiply_u8_color(b, a);
        pixels.set(i, c0);
        pixels.set(i + 1, c1);
        pixels.set(i + 2, c2);
        proof {
            assert(4 * ((i as int) / 4) == i as int);
        }
        i = i + 4;
    }
    proof {
        assert(pixels@ =~= swapped_premultiplied(s0));
    }
}

/// For a byte index at the start of a pixel, places the other three bytes of
/// that pixel relative to it.
proof fn lemma_pixel_offsets(i: int)
    requires
        i % 4 == 0,
    ensures
        4 * (i / 4) == i,
        (i + 1) % 4 == 1 && (i + 1) / 4 == i / 4,
        (i + 2) % 4 == 2 && (i + 2) / 4 == i / 4,
        (i + 3) % 4 == 3 && (i + 3) / 4 == i / 4,
{
}

/// The channel swap is its own inverse: swapping red and blue twice gives
/// back the original buffer, for every buffer of whole pixels.
pub proof fn lemma_byte_swap_involutive(s: Seq<u8>)
    requires
        s.len() % 4 == 0,
    ensures
        swapped(swapped(s)) == s,
{
    assert forall|i: int| 0 <= i < s.len() implies swapped(swapped(s))[i] == s[i] by {
        let r = i % 4;
        lemma_pixel_offsets(i - r);
    }
    assert(swapped(swapped(s)) =~= s);
}

/// The color-channel product is commutative, has 255 as its unit and 0 as
/// its absorbing value, and maps full intensity at full alpha to itself.
pub proof fn lemma_multiply_laws(a: u8, b: u8)
    ensures
        mul_color(a, b) == mul_color(b, a),
        mul_color(a, 255) == a,
        mul_color(a, 0) == 0,
        mul_color(255, 255) == 255,
{
    assert((a as int) * 255 / 255 == a as int) by (nonlinear_arith);
    assert((a as int) * 0 == 0);
}

/// Premultiplying at the extreme alpha values: an alpha byte is never
/// changed; a color channel under alpha 255 keeps its value, and under
/// alpha 0 becomes 0.
pub proof fn lemma_premultiply_extremes(s: Seq<u8>, i: int)
    requires
        s.len() % 4 == 0,
        0 <= i < s.len(),
    ensures
        i % 4 == 3 ==> premultiplied(s)[i] == s[i],
        i % 4 != 3 && alpha_of(s, i) == 255 ==> premultiplied(s)[i] == s[i],
        i % 4 != 3 && alpha_of(s, i) == 0 ==> premultiplied(s)[i] == 0,
{
    lemma_multiply_laws(s[i], alpha_of(s, i));
}

/// Swapping and premultiplying in one pass gives the same buffer as
/// premultiplying and then swapping, and the same as swapping and then
/// premultiplying, for every buffer of whole pixels.
pub proof fn lemma_swap_premultiply_commutes(s: Seq<u8>)
    requires
        s.len() % 4 == 0,
    ensures
        swapped_premultiplied(s) == swapped(premultiplied(s)),
        swapped_premultiplied(s) == premultiplied(swapped(s)),
{
    assert forall|i: int| 0 <= i < s.len() implies swapped_premultiplied(s)[i] == swapped(
        premultiplied(s),
    )[i] by {
        let r = i % 4;
        lemma_pixel_offsets(i - r);
    }
    assert forall|i: int| 0 <= i < s.len() implies swapped_premultiplied(s)[i] == premultiplied(
        swapped(s),
    )[i] by {
        let r = i % 4;
        lemma_pixel_offsets(i - r);
    }
    assert(swapped_premultiplied(s) =~= swapped(premultiplied(s)));
    assert(swapped_premultiplied(s) =~= premultiplied(swapped(s)));
}

} // verus!
