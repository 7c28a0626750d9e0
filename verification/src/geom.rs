//! Plain geometry types for pixel regions — a size, an unsigned point, a
//! rectangle, and a signed placement point — and clipping of a placement
//! rectangle against a surface.

use vstd::prelude::*;

verus! {

/// Width and height of a pixel region, in pixels.
#[derive(Clone, Copy, PartialEq, Eq, Structural, Debug)]
pub struct Size2D {
    pub width: u32,
    pub height: u32,
}

/// A point in surface coordinates; both coordinates are non-negative.
#[derive(Clone, Copy, PartialEq, Eq, Structural, Debug)]
pub struct Point2D {
    pub x: u32,
    pub y: u32,
}

/// An axis-aligned rectangle: an origin and a size.
#[derive(Clone, Copy, PartialEq, Eq, Structural, Debug)]
pub struct Rect {
    pub origin: Point2D,
    pub size: Size2D,
}

/// A candidate placement origin; either coordinate may be negative, which
/// places part of the rectangle off the surface.
#[derive(Clone, Copy, PartialEq, Eq, Structural, Debug)]
pub struct IntPoint {
    pub x: i32,
    pub y: i32,
}

impl Size2D {
    /// A size is empty when either dimension is zero.
    pub open spec fn is_empty(self) -> bool {
        self.width == 0 || self.height == 0
    }
}

impl Rect {
    /// A rectangle is empty when either dimension of its size is zero.
    pub open spec fn is_empty(self) -> bool {
        self.size.is_empty()
    }
}

/// The origin coordinate after the clamping step: a negative coordinate is
/// reset to zero.
pub open spec fn clamped_origin(o: int) -> int {
    if o < 0 {
        0
    } else {
        o
    }
}

/// The extent after the clamping step: a negative origin reduces the extent
/// by the off-surface amount, saturating at zero.
pub open spec fn clamped_extent(o: int, e: int) -> int {
    if o < 0 {
        if e + o < 0 {
            0
        } else {
            e + o
        }
    } else {
        e
    }
}

/// The extent of the visible part of one axis: the clamped interval
/// `[clamped_origin, clamped_origin + clamped_extent)` intersected with
/// `[0, bound)`.
pub open spec fn visible_extent(o: int, e: int, bound: int) -> int {
    let co = clamped_origin(o);
    let ce = clamped_extent(o, e);
    if co + ce <= bound {
        ce
    } else if co <= bound {
        bound - co
    } else {
        0
    }
}

/// The visible part of a candidate rectangle, in surface coordinates:
/// `Some` of the clipped rectangle when it is non-empty, `None` otherwise.
pub open spec fn clip_spec(origin: IntPoint, size: Size2D, surface: Size2D) -> Option<Rect> {
    let x = clamped_origin(origin.x as int);
    let y = clamped_origin(origin.y as int);
    let w = visible_extent(origin.x as int, size.width as int, surface.width as int);
    let h = visible_extent(origin.y as int, size.height as int, surface.height as int);
    if w > 0 && h > 0 {
        Some(Rect {
            origin: Point2D { x: x as u32, y: y as u32 },
            size: Size2D { width: w as u32, height: h as u32 },
        })
    } else {
        None
    }
}

/// One axis of clipping: clamp a negative origin to zero, shrink the extent
/// by the off-surface amount (saturating at zero), and intersect with
/// `[0, bound)`. Returns the clamped origin and the visible extent.
fn clip_axis(o: i32, e: u32, bound: u32) -> (r: (u32, u32))
    ensures
        r.0 == clamped_origin(o as int),
        r.1 == visible_extent(o as int, e as int, bound as int),
{
    let co: u32;
    let ce: u32;
    if o < 0 {
        let off: u32 = (-(o as i64)) as u32;
        co = 0;
        ce = if e <= off {
            0
        } else {
            e - off
        };
    } else {
        co = o as u32;
        ce = e;
    }
    let ve: u32 = if co >= bound {
        0
    } else if ce <= bound - co {
        ce
    } else {
        bound - co
    };
    (co, ve)
}

/// Clips the candidate rectangle `(origin, size)` — whose origin may be
/// negative — against the surface `(0, 0)..surface`. Returns the visible
/// rectangle in surface coordinates, or `None` when nothing is visible.
pub fn clip(origin: IntPoint, size: Size2D, surface: Size2D) -> (r: Option<Rect>)
    ensures
        r == clip_spec(origin, size, surface),
{
    let (x, w) = clip_axis(origin.x, size.width, surface.width);
    let (y, h) = clip_axis(origin.y, size.height, surface.height);
    if w > 0 && h > 0 {
        Some(Rect { origin: Point2D { x, y }, size: Size2D { width: w, height: h } })
    } else {
        None
    }
}

} // verus!
