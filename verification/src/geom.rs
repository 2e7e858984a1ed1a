//! Integer screen-space geometry.
//!
//! Display positions and extents are whole "display units" (the caller picks
//! the granularity, typically one unit per pixel). A single `Vec2` type
//! serves for points, extents and deltas; a `Rect` is the axis-aligned box
//! between its two corners.

use vstd::prelude::*;

use crate::fixed::trunc_div;

verus! {

/// Magnitude bound on any screen-space value the geometry handles: wide
/// enough for a region mapped to screen from the farthest storable
/// coordinate, small enough that sums never overflow `i64`.
pub const SCREEN_LIMIT: i64 = 3_000_000_000_000;

#[derive(Clone, Copy, PartialEq, Eq, Structural, Debug)]
pub struct Vec2 {
    pub x: i64,
    pub y: i64,
}

#[derive(Clone, Copy, PartialEq, Eq, Structural, Debug)]
pub struct Rect {
    pub min: Vec2,
    pub max: Vec2,
}

pub open spec fn vec2_in_range(v: Vec2) -> bool {
    &&& -SCREEN_LIMIT <= v.x <= SCREEN_LIMIT
    &&& -SCREEN_LIMIT <= v.y <= SCREEN_LIMIT
}

pub open spec fn rect_in_range(r: Rect) -> bool {
    vec2_in_range(r.min) && vec2_in_range(r.max)
}

/// A rectangle whose corners are ordered; `intersect` of disjoint
/// rectangles can produce an unordered (empty) one.
pub open spec fn rect_ordered(r: Rect) -> bool {
    r.min.x <= r.max.x && r.min.y <= r.max.y
}

pub open spec fn spec_width(r: Rect) -> int {
    r.max.x - r.min.x
}

pub open spec fn spec_height(r: Rect) -> int {
    r.max.y - r.min.y
}

/// Containment, inclusive on all four edges.
pub open spec fn spec_contains(r: Rect, p: Vec2) -> bool {
    r.min.x <= p.x <= r.max.x && r.min.y <= p.y <= r.max.y
}

pub open spec fn spec_intersect(a: Rect, b: Rect) -> Rect {
    Rect {
        min: Vec2 {
            x: if a.min.x >= b.min.x {
                a.min.x
            } else {
                b.min.x
            },
            y: if a.min.y >= b.min.y {
                a.min.y
            } else {
                b.min.y
            },
        },
        max: Vec2 {
            x: if a.max.x <= b.max.x {
                a.max.x
            } else {
                b.max.x
            },
            y: if a.max.y <= b.max.y {
                a.max.y
            } else {
                b.max.y
            },
        },
    }
}

/// The rectangle of extent `size` whose centre is `center`, up to the
/// rounding of halving an odd extent: the extent is kept exact, the
/// centre may land one unit toward the origin.
pub open spec fn spec_from_center_size(center: Vec2, size: Vec2) -> Rect {
    Rect {
        min: Vec2 {
            x: (center.x - trunc_div(size.x as int, 2)) as i64,
            y: (center.y - trunc_div(size.y as int, 2)) as i64,
        },
        max: Vec2 {
            x: (center.x - trunc_div(size.x as int, 2) + size.x) as i64,
            y: (center.y - trunc_div(size.y as int, 2) + size.y) as i64,
        },
    }
}

pub open spec fn spec_from_two_pos(a: Vec2, b: Vec2) -> Rect {
    Rect {
        min: Vec2 {
            x: if a.x <= b.x {
                a.x
            } else {
                b.x
            },
            y: if a.y <= b.y {
                a.y
            } else {
                b.y
            },
        },
        max: Vec2 {
            x: if a.x >= b.x {
                a.x
            } else {
                b.x
            },
            y: if a.y >= b.y {
                a.y
            } else {
                b.y
            },
        },
    }
}

impl Rect {
    pub fn width(&self) -> (w: i64)
        requires
            rect_in_range(*self),
        ensures
            w == spec_width(*self),
    {
        self.max.x - self.min.x
    }

    pub fn height(&self) -> (h: i64)
        requires
            rect_in_range(*self),
        ensures
            h == spec_height(*self),
    {
        self.max.y - self.min.y
    }

    pub fn contains(&self, p: Vec2) -> (b: bool)
        ensures
            b == spec_contains(*self, p),
    {
        self.min.x <= p.x && p.x <= self.max.x && self.min.y <= p.y && p.y <= self.max.y
    }

    pub fn intersect(&self, other: &Rect) -> (r: Rect)
        ensures
            r == spec_intersect(*self, *other),
    {
        Rect {
            min: Vec2 {
                x: if self.min.x >= other.min.x {
                    self.min.x
                } else {
                    other.min.x
                },
                y: if self.min.y >= other.min.y {
                    self.min.y
                } else {
                    other.min.y
                },
            },
            max: Vec2 {
                x: if self.max.x <= other.max.x {
                    self.max.x
                } else {
                    other.max.x
                },
                y: if self.max.y <= other.max.y {
                    self.max.y
                } else {
                    other.max.y
                },
            },
        }
    }

    pub fn from_center_size(center: Vec2, size: Vec2) -> (r: Rect)
        requires
            vec2_in_range(center),
            vec2_in_range(size),
        ensures
            r == spec_from_center_size(center, size),
    {
        let hx: i64 = crate::fixed::half(size.x);
        let hy: i64 = crate::fixed::half(size.y);
        Rect {
            min: Vec2 { x: center.x - hx, y: center.y - hy },
            max: Vec2 { x: center.x - hx + size.x, y: center.y - hy + size.y },
        }
    }

    pub fn from_two_pos(a: Vec2, b: Vec2) -> (r: Rect)
        ensures
            r == spec_from_two_pos(a, b),
    {
        Rect {
            min: Vec2 {
                x: if a.x <= b.x {
                    a.x
                } else {
                    b.x
                },
                y: if a.y <= b.y {
                    a.y
                } else {
                    b.y
                },
            },
            max: Vec2 {
                x: if a.x >= b.x {
                    a.x
                } else {
                    b.x
                },
                y: if a.y >= b.y {
                    a.y
                } else {
                    b.y
                },
            },
        }
    }
}

} // verus!
