//! Extraction of a sub-rectangle from a packed RGBA8 buffer. When the
//! requested bytes are contiguous in the source the result borrows from it;
//! otherwise the rows are gathered into an owned copy.

use vstd::prelude::*;
use vstd::slice::slice_index_get;
use vstd::slice::slice_subrange;
use crate::geom::Rect;
use crate::geom::Size2D;

verus! {

/// The rectangle lies fully inside the buffer bounds `(0, 0)..size`.
pub open spec fn rect_in_bounds(size: Size2D, rect: Rect) -> bool {
    &&& rect.origin.x + rect.size.width <= size.width
    &&& rect.origin.y + rect.size.height <= size.height
}

/// The byte offset in the source buffer where row `r` of the target
/// rectangle starts.
pub open spec fn row_start(size: Size2D, rect: Rect, r: int) -> int {
    ((rect.origin.y + r) * size.width + rect.origin.x) * 4
}

/// The bytes of row `r` of the target rectangle.
pub open spec fn extracted_row(pixels: Seq<u8>, size: Size2D, rect: Rect, r: int) -> Seq<u8> {
    pixels.subrange(row_start(size, rect, r), row_start(size, rect, r) + rect.size.width * 4)
}

/// The first `n` rows of the target rectangle, gathered in order.
pub open spec fn extracted_rows(pixels: Seq<u8>, size: Size2D, rect: Rect, n: int) -> Seq<u8>
    decreases n,
{
    if n <= 0 {
        Seq::empty()
    } else {
        extracted_rows(pixels, size, rect, n - 1) + extracted_row(pixels, size, rect, n - 1)
    }
}

/// All bytes of the target rectangle, row-major: each source row's slice of
/// `rect.size.width` pixels, rows appended in order.
pub open spec fn extracted(pixels: Seq<u8>, size: Size2D, rect: Rect) -> Seq<u8> {
    extracted_rows(pixels, size, rect, rect.size.height as int)
}

/// Each requested row lies inside the buffer, and its start offset can be
/// written with the row and column contributions separated.
proof fn lemma_row_in_bounds(size: Size2D, rect: Rect, plen: int, r: int)
    requires
        rect_in_bounds(size, rect),
        plen == size.width * size.height * 4,
        0 <= r < rect.size.height,
    ensures
        0 <= row_start(size, rect, r),
        row_start(size, rect, r) + rect.size.width * 4 <= plen,
        row_start(size, rect, r) == (rect.origin.y + r) * (size.width * 4) + rect.origin.x * 4,
        0 <= (rect.origin.y + r) * (size.width * 4),
{
    let wi = size.width as int;
    let hi = size.height as int;
    let xi = rect.origin.x as int;
    let yi = rect.origin.y as int;
    let rwi = rect.size.width as int;
    let rhi = rect.size.height as int;
    assert(0 <= (yi + r) * (wi * 4) && 0 <= ((yi + r) * wi + xi) * 4 && ((yi + r) * wi + xi) * 4
        + rwi * 4 <= wi * hi * 4 && ((yi + r) * wi + xi) * 4 == (yi + r) * (wi * 4) + xi * 4)
        by (nonlinear_arith)
        requires
            0 <= xi,
            0 <= yi,
            0 <= wi,
            0 <= hi,
            0 <= rwi,
            0 <= r < rhi,
            xi + rwi <= wi,
            yi + rhi <= hi,
    ;
}

/// The first `n` rows hold `n` times `rect.size.width * 4` bytes.
pub proof fn lemma_extracted_rows_len(pixels: Seq<u8>, size: Size2D, rect: Rect, n: int)
    requires
        rect_in_bounds(size, rect),
        pixels.len() == size.width * size.height * 4,
        0 <= n <= rect.size.height,
    ensures
        extracted_rows(pixels, size, rect, n).len() == n * (rect.size.width * 4),
    decreases n,
{
    let rw4 = rect.size.width * 4;
    if n == 0 {
        assert(extracted_rows(pixels, size, rect, 0).len() == 0);
        assert(0 * rw4 == 0);
    } else {
        lemma_extracted_rows_len(pixels, size, rect, n - 1);
        lemma_row_in_bounds(size, rect, pixels.len() as int, n - 1);
        assert(extracted_rows(pixels, size, rect, n) == extracted_rows(pixels, size, rect, n - 1)
            + extracted_row(pixels, size, rect, n - 1));
        assert(extracted_row(pixels, size, rect, n - 1).len() == rw4);
        assert((n - 1) * rw4 + rw4 == n * rw4) by (nonlinear_arith);
        assert(extracted_rows(pixels, size, rect, n).len() == n * rw4);
    }
}

/// The extracted rectangle holds `rect.size.width * rect.size.height * 4`
/// bytes.
pub proof fn lemma_extracted_len(pixels: Seq<u8>, size: Size2D, rect: Rect)
    requires
        rect_in_bounds(size, rect),
        pixels.len() == size.width * size.height * 4,
    ensures
        extracted(pixels, size, rect).len() == rect.size.width * rect.size.height * 4,
{
    lemma_extracted_rows_len(pixels, size, rect, rect.size.height as int);
    let rwi = rect.size.width as int;
    let rhi = rect.size.height as int;
    assert(rhi * (rwi * 4) == rwi * rhi * 4) by (nonlinear_arith);
}

/// For a full-width rectangle, the first `n` extracted rows are one
/// contiguous byte range of the source.
proof fn lemma_rows_contiguous(pixels: Seq<u8>, size: Size2D, rect: Rect, n: int)
    requires
        rect.origin.x == 0,
        rect.size.width == size.width,
        1 <= rect.size.height,
        rect_in_bounds(size, rect),
        pixels.len() == size.width * size.height * 4,
        0 <= n <= rect.size.height,
    ensures
        extracted_rows(pixels, size, rect, n) == pixels.subrange(
            row_start(size, rect, 0),
            row_start(size, rect, 0) + n * (size.width * 4),
        ),
    decreases n,
{
    let wi = size.width as int;
    let yi = rect.origin.y as int;
    let start = row_start(size, rect, 0);
    lemma_row_in_bounds(size, rect, pixels.len() as int, 0);
    if n == 0 {
        assert(extracted_rows(pixels, size, rect, 0) =~= pixels.subrange(start, start + 0 * (wi
            * 4)));
    } else {
        lemma_rows_contiguous(pixels, size, rect, n - 1);
        lemma_row_in_bounds(size, rect, pixels.len() as int, n - 1);
        lemma_row_in_bounds(size, rect, pixels.len() as int, 0);
        assert((yi + (n - 1)) * (wi * 4) == yi * (wi * 4) + (n - 1) * (wi * 4)
            && yi * (wi * 4) + n * (wi * 4) == yi * (wi * 4) + (n - 1) * (wi * 4) + wi * 4
            && (yi * wi + 0) * 4 == yi * (wi * 4)) by (nonlinear_arith);
        assert(row_start(size, rect, n - 1) == start + (n - 1) * (wi * 4));
        assert(extracted_rows(pixels, size, rect, n) =~= pixels.subrange(
            start,
            start + n * (wi * 4),
        ));
    }
}

/// A rectangle that spans the full buffer width is one contiguous byte range
/// of the source: extraction equals the direct byte slice of that range.
pub proof fn lemma_full_width_contiguous(pixels: Seq<u8>, size: Size2D, rect: Rect)
    requires
        rect.origin.x == 0,
        rect.size.width == size.width,
        1 <= rect.size.height,
        rect_in_bounds(size, rect),
        pixels.len() == size.width * size.height * 4,
    ensures
        extracted(pixels, size, rect) == pixels.subrange(
            row_start(size, rect, 0),
            row_start(size, rect, 0) + rect.size.height * (size.width * 4),
        ),
{
    lemma_rows_contiguous(pixels, size, rect, rect.size.height as int);
}

/// A rectangle one row tall is one contiguous byte range of the source:
/// extraction equals the direct byte slice of that range.
pub proof fn lemma_single_row_contiguous(pixels: Seq<u8>, size: Size2D, rect: Rect)
    requires
        rect.size.height == 1,
        rect_in_bounds(size, rect),
        pixels.len() == size.width * size.height * 4,
    ensures
        extracted(pixels, size, rect) == pixels.subrange(
            row_start(size, rect, 0),
            row_start(size, rect, 0) + rect.size.width * 4,
        ),
{
    lemma_row_in_bounds(size, rect, pixels.len() as int, 0);
    reveal_with_fuel(extracted_rows, 2);
    assert(extracted(pixels, size, rect) =~= extracted_row(pixels, size, rect, 0));
}

/// The result of rectangle extraction: a borrowed, zero-copy view into the
/// source buffer when the requested bytes are contiguous there, or an owned
/// copy gathered row by row. Either way the bytes are the same; callers may
/// treat both uniformly through `as_slice`.
pub enum PixelSlice<'a> {
    Borrowed(&'a [u8]),
    Owned(Vec<u8>),
}

impl<'a> View for PixelSlice<'a> {
    type V = Seq<u8>;

    open spec fn view(&self) -> Seq<u8> {
        match self {
            PixelSlice::Borrowed(s) => s@,
            PixelSlice::Owned(v) => v@,
        }
    }
}

impl<'a> PixelSlice<'a> {
    /// True of a borrowed, zero-copy view into the source buffer.
    pub open spec fn is_borrowed(&self) -> bool {
        match self {
            PixelSlice::Borrowed(_) => true,
            PixelSlice::Owned(_) => false,
        }
    }

    /// The bytes as a plain slice, whichever variant holds them.
    pub fn as_slice(&self) -> (r: &[u8])
        ensures
            r@ == self@,
    {
        match self {
            PixelSlice::Borrowed(s) => s,
            PixelSlice::Owned(v) => v.as_slice(),
        }
    }

    /// The number of bytes held.
    pub fn len(&self) -> (n: usize)
        ensures
            n == self@.len(),
    {
        match self {
            PixelSlice::Borrowed(s) => s.len(),
            PixelSlice::Owned(v) => v.len(),
        }
    }
}

/// Extracts the pixel data of `rect` from a buffer of dimensions `size`,
/// preserving the row-major RGBA8 layout of the sub-image. When the
/// rectangle spans the full buffer width or is one row tall, the requested
/// bytes are contiguous in the source and the result borrows them
/// (zero-copy); otherwise each source row's relevant bytes are copied,
/// rows appended in order.
#[verifier::loop_isolation(false)]
pub fn rgba8_get_rect<'a>(pixels: &'a [u8], size: Size2D, rect: Rect) -> (r: PixelSlice<'a>)
    requires
        !rect.is_empty(),
        rect_in_bounds(size, rect),
        pixels@.len() == size.width * size.height * 4,
    ensures
        r@ == extracted(pixels@, size, rect),
        r@.len() == rect.size.width * rect.size.height * 4,
        (rect.origin.x == 0 && rect.size.width == size.width) || rect.size.height == 1
            ==> r.is_borrowed(),
{
    let plen = pixels.len();
    let x = rect.origin.x as usize;
    let y = rect.origin.y as usize;
    let rw = rect.size.width as usize;
    let rh = rect.size.height as usize;
    let sw = size.width as usize;
    proof {
        lemma_extracted_len(pixels@, size, rect);
        lemma_row_in_bounds(size, rect, plen as int, 0);
        let wi = size.width as int;
        let hi = size.height as int;
        let xi = rect.origin.x as int;
        let yi = rect.origin.y as int;
        let rwi = rect.size.width as int;
        let rhi = rect.size.height as int;
        assert(wi * 4 <= wi * hi * 4 && yi * (wi * 4) + wi * 4 <= wi * hi * 4 && rwi * rhi * 4
            <= wi * hi * 4 && ((yi * wi + xi) * 4) + rwi * rhi * 4 <= wi * hi * 4)
            by (nonlinear_arith)
            requires
                0 <= xi,
                0 <= yi,
                1 <= rwi,
                1 <= rhi,
                xi + rwi <= wi,
                yi + rhi <= hi,
        ;
    }
    let row_length = sw * 4;
    let first_column_start = x * 4;
    let first_row_start = y * row_length;
    let area_bytes = rw * rh * 4;
    if (rect.origin.x == 0 && rect.size.width == size.width) || rect.size.height == 1 {
        let start = first_column_start + first_row_start;
        proof {
            let wi = size.width as int;
            let yi = rect.origin.y as int;
            let rwi = rect.size.width as int;
            let rhi = rect.size.height as int;
            if rect.size.height == 1 {
                lemma_single_row_contiguous(pixels@, size, rect);
                assert(rwi * 1 * 4 == rwi * 4) by (nonlinear_arith);
            } else {
                lemma_full_width_contiguous(pixels@, size, rect);
                assert(rwi * rhi * 4 == rhi * (wi * 4)) by (nonlinear_arith)
                    requires
                        rwi == wi,
                ;
            }
        }
        return PixelSlice::Borrowed(slice_subrange(pixels, start, start + area_bytes));
    }
    let mut data: Vec<u8> = Vec::new();
    let mut row: usize = 0;
    while row < rh
        invariant
            row <= rh,
            data@ == extracted_rows(pixels@, size, rect, row as int),
        decreases rh - row,
    {
        proof {
            lemma_row_in_bounds(size, rect, plen as int, row as int);
        }
        let rs = (y + row) * row_length + first_column_start;
        let row_bytes = rw * 4;
        let mut c: usize = 0;
        while c < row_bytes
            invariant
                c <= row_bytes,
                row < rh,
                rs == row_start(size, rect, row as int),
                data@ == extracted_rows(pixels@, size, rect, row as int) + pixels@.subrange(
                    rs as int,
                    rs + c,
                ),
            decreases row_bytes - c,
        {
            let byte = *slice_index_get(pixels, rs + c);
            data.push(byte);
            proof {
                assert(pixels@.subrange(rs as int, rs + c + 1) =~= pixels@.subrange(
                    rs as int,
                    rs + c,
                ).push(byte));
            }
            c = c + 1;
        }
        proof {
            assert(pixels@.subrange(rs as int, rs + row_bytes) == extracted_row(
                pixels@,
                size,
                rect,
                row as int,
            ));
        }
        row = row + 1;
    }
    PixelSlice::Owned(data)
}

} // verus!
