//! Mapping between the on-screen display rectangle and stored fractional
//! coordinates, and the geometry of the edit tool: hit testing, the 3x3
//! handle grid, and applying a resize/move drag to a segment.

use vstd::prelude::*;

use crate::fixed::COORD_LIMIT;
use crate::fixed::DISPLAY_LIMIT;
use crate::fixed::SCALE;
use crate::fixed::abs_i;
use crate::fixed::clamp_coord;
use crate::fixed::coord_in_range;
use crate::fixed::half;
use crate::fixed::lemma_scale_in_unit;
use crate::fixed::lemma_trunc_div_bound;
use crate::fixed::mul_div;
use crate::fixed::spec_clamp_coord;
use crate::fixed::trunc_div;
use crate::geom::Rect;
use crate::geom::Vec2;
use crate::geom::rect_in_range;
use crate::geom::rect_ordered;
use crate::geom::spec_contains;
use crate::geom::spec_from_center_size;
use crate::geom::spec_height;
use crate::geom::spec_width;
use crate::project::Segment;
use crate::project::seg_in_range;

verus! {

/// The display rectangle the rendering layer lays the image out in:
/// non-degenerate and within display bounds.
pub open spec fn display_rect_wf(r: Rect) -> bool {
    &&& -DISPLAY_LIMIT <= r.min.x <= DISPLAY_LIMIT
    &&& -DISPLAY_LIMIT <= r.min.y <= DISPLAY_LIMIT
    &&& 0 < spec_width(r) <= DISPLAY_LIMIT
    &&& 0 < spec_height(r) <= DISPLAY_LIMIT
}

/// `inner` lies within `outer` on both axes.
pub open spec fn rect_within(inner: Rect, outer: Rect) -> bool {
    &&& outer.min.x <= inner.min.x && inner.max.x <= outer.max.x
    &&& outer.min.y <= inner.min.y && inner.max.y <= outer.max.y
}

/// Screen rectangle of a segment laid out in `image_rect`: the stored
/// fractions scaled by the display extent.
pub open spec fn spec_to_screen(image_rect: Rect, seg: Segment) -> Rect {
    spec_from_center_size(
        Vec2 {
            x: (image_rect.min.x + trunc_div(
                seg.center.x * spec_width(image_rect),
                SCALE as int,
            )) as i64,
            y: (image_rect.min.y + trunc_div(
                seg.center.y * spec_height(image_rect),
                SCALE as int,
            )) as i64,
        },
        Vec2 {
            x: trunc_div(seg.size.x * spec_width(image_rect), SCALE as int) as i64,
            y: trunc_div(seg.size.y * spec_height(image_rect), SCALE as int) as i64,
        },
    )
}

/// A scaled coordinate keeps the storable magnitude: `|c| <= COORD_LIMIT`
/// and `0 < w <= DISPLAY_LIMIT` give `|c * w / SCALE| <= COORD_LIMIT`.
pub proof fn lemma_mul_div_coord(c: int, w: int)
    requires
        -COORD_LIMIT <= c <= COORD_LIMIT,
        0 < w <= DISPLAY_LIMIT,
    ensures
        -COORD_LIMIT <= trunc_div(c * w, SCALE as int) <= COORD_LIMIT,
{
    let s = SCALE as int;
    if c >= 0 {
        assert(0 <= c * w <= COORD_LIMIT * s) by (nonlinear_arith)
            requires
                0 <= c <= COORD_LIMIT,
                0 < w <= s,
        ;
        vstd::arithmetic::div_mod::lemma_div_pos_is_pos(c * w, s);
        vstd::arithmetic::div_mod::lemma_div_is_ordered(c * w, COORD_LIMIT * s, s);
        vstd::arithmetic::div_mod::lemma_div_multiples_vanish(COORD_LIMIT as int, s);
    } else {
        assert(0 <= (-c) * w <= COORD_LIMIT * s) by (nonlinear_arith)
            requires
                0 <= -c <= COORD_LIMIT,
                0 < w <= s,
        ;
        assert((-c) * w == -(c * w)) by (nonlinear_arith);
        vstd::arithmetic::div_mod::lemma_div_pos_is_pos(-(c * w), s);
        vstd::arithmetic::div_mod::lemma_div_is_ordered(-(c * w), COORD_LIMIT * s, s);
        vstd::arithmetic::div_mod::lemma_div_multiples_vanish(COORD_LIMIT as int, s);
    }
}

/// Map a segment to its on-screen rectangle.
pub fn fun_name(image_rect: Rect, segment: &Segment) -> (r: Rect)
    requires
        display_rect_wf(image_rect),
        seg_in_range(*segment),
    ensures
        r == spec_to_screen(image_rect, *segment),
        rect_in_range(r),
{
    let w: i64 = image_rect.width();
    let h: i64 = image_rect.height();
    proof {
        lemma_mul_div_coord(segment.center.x as int, w as int);
        lemma_mul_div_coord(segment.center.y as int, h as int);
        lemma_mul_div_coord(segment.size.x as int, w as int);
        lemma_mul_div_coord(segment.size.y as int, h as int);
    }
    let cx: i64 = image_rect.min.x + mul_div(segment.center.x, w, SCALE);
    let cy: i64 = image_rect.min.y + mul_div(segment.center.y, h, SCALE);
    let sx: i64 = mul_div(segment.size.x, w, SCALE);
    let sy: i64 = mul_div(segment.size.y, h, SCALE);
    proof {
        lemma_trunc_div_bound(sx as int, 2, COORD_LIMIT as int);
        lemma_trunc_div_bound(sy as int, 2, COORD_LIMIT as int);
    }
    Rect::from_center_size(Vec2 { x: cx, y: cy }, Vec2 { x: sx, y: sy })
}

/// Normalized centre of a screen rectangle within `display`: the exact
/// (un-truncated) pixel midpoint scaled by the extent, i.e. the doubled
/// numerator over the doubled display extent.
pub open spec fn spec_to_normalized_center(display: Rect, rect: Rect) -> Vec2 {
    Vec2 {
        x: spec_clamp_coord(
            trunc_div(
                (rect.min.x + rect.max.x - 2 * display.min.x) * (SCALE as int),
                2 * spec_width(display),
            ),
        ) as i64,
        y: spec_clamp_coord(
            trunc_div(
                (rect.min.y + rect.max.y - 2 * display.min.y) * (SCALE as int),
                2 * spec_height(display),
            ),
        ) as i64,
    }
}

/// Normalized extent of a screen rectangle within `display`, rounded
/// down to a whole even count of fixed-point units so that the box
/// `centre ± extent/2` never rounds past the centre's own rounding.
pub open spec fn spec_to_normalized_size(display: Rect, rect: Rect) -> Vec2 {
    Vec2 {
        x: spec_clamp_coord(
            2 * trunc_div(spec_width(rect) * (SCALE as int), 2 * spec_width(display)),
        ) as i64,
        y: spec_clamp_coord(
            2 * trunc_div(spec_height(rect) * (SCALE as int), 2 * spec_height(display)),
        ) as i64,
    }
}

/// Containment of the normalized box, stated on doubled coordinates:
/// the west/top edge `centre - extent/2` is at least `0` and the
/// east/bottom edge `centre + extent/2` at most `1`.
pub open spec fn norm_box_within_unit(center: Vec2, size: Vec2) -> bool {
    &&& 0 <= 2 * center.x - size.x && 2 * center.x + size.x <= 2 * SCALE
    &&& 0 <= 2 * center.y - size.y && 2 * center.y + size.y <= 2 * SCALE
}

/// One axis of the containment argument: for `m <= a <= b <= m + dw`,
/// the centre `(a + b - 2m) * S / (2 dw)` and the even extent
/// `2 * ((b - a) * S / (2 dw))` stay inside `[0, S]`, and the box they
/// span stays inside the unit interval.
proof fn lemma_normalized_axis(a: int, b: int, m: int, dw: int)
    requires
        m <= a <= b <= m + dw,
        1 <= dw,
    ensures
        ({
            let c = trunc_div((a + b - 2 * m) * (SCALE as int), 2 * dw);
            let s = 2 * trunc_div((b - a) * (SCALE as int), 2 * dw);
            &&& 0 <= c <= SCALE
            &&& 0 <= s <= SCALE
            &&& s <= 2 * c
            &&& 2 * c + s <= 2 * SCALE
        }),
{
    let sc = SCALE as int;
    let u = a + b - 2 * m;
    let v = b - a;
    let d = 2 * dw;
    vstd::arithmetic::mul::lemma_mul_nonnegative(u, sc);
    vstd::arithmetic::mul::lemma_mul_nonnegative(v, sc);
    vstd::arithmetic::div_mod::lemma_div_pos_is_pos(u * sc, d);
    vstd::arithmetic::div_mod::lemma_div_pos_is_pos(v * sc, d);
    // c <= SCALE: u <= d, so u * sc <= d * sc and (d * sc) / d == sc.
    vstd::arithmetic::mul::lemma_mul_inequality(u, d, sc);
    vstd::arithmetic::div_mod::lemma_div_is_ordered(u * sc, d * sc, d);
    vstd::arithmetic::div_mod::lemma_div_multiples_vanish(sc, d);
    assert(d * sc == sc * d) by (nonlinear_arith);
    // s <= SCALE: v <= dw, so v * sc <= dw * sc == d * (sc / 2).
    vstd::arithmetic::mul::lemma_mul_inequality(v, dw, sc);
    vstd::arithmetic::div_mod::lemma_div_is_ordered(v * sc, dw * sc, d);
    vstd::arithmetic::div_mod::lemma_div_multiples_vanish(500_000, d);
    assert(dw * sc == d * 500_000) by (nonlinear_arith)
        requires
            d == 2 * dw,
            sc == 1_000_000,
    ;
    // s <= 2c: v <= u, so (v * sc) / d <= (u * sc) / d.
    vstd::arithmetic::mul::lemma_mul_inequality(v, u, sc);
    vstd::arithmetic::div_mod::lemma_div_is_ordered(v * sc, u * sc, d);
    // 2c + s <= 2 * SCALE: superadditivity, then (u + v) <= d.
    crate::fixed::lemma_div_superadd(u * sc, v * sc, d);
    vstd::arithmetic::mul::lemma_mul_inequality(u + v, d, sc);
    assert(u * sc + v * sc == (u + v) * sc) by (nonlinear_arith);
    vstd::arithmetic::div_mod::lemma_div_is_ordered((u + v) * sc, d * sc, d);
}

/// Convert a screen rectangle to normalized centre and extent. Callers
/// clip the rectangle to the display first; when the clipped rectangle
/// indeed lies within the display, every stored component lands in the
/// unit range `[0, SCALE]` and the stored box itself lies within the
/// unit square — a region clipped at creation is stored fully within
/// bounds.
pub fn to_normalized(display: Rect, rect: Rect) -> (r: (Vec2, Vec2))
    requires
        display_rect_wf(display),
        rect_in_range(rect),
    ensures
        r.0 == spec_to_normalized_center(display, rect),
        r.1 == spec_to_normalized_size(display, rect),
        coord_in_range(r.0.x as int) && coord_in_range(r.0.y as int),
        coord_in_range(r.1.x as int) && coord_in_range(r.1.y as int),
        rect_ordered(rect) && rect_within(rect, display) ==> {
            &&& 0 <= r.0.x <= SCALE && 0 <= r.0.y <= SCALE
            &&& 0 <= r.1.x <= SCALE && 0 <= r.1.y <= SCALE
            &&& norm_box_within_unit(r.0, r.1)
        },
{
    let w: i64 = rect.width();
    let h: i64 = rect.height();
    let dw: i64 = display.width();
    let dh: i64 = display.height();
    let ux: i64 = rect.min.x + rect.max.x - 2 * display.min.x;
    let uy: i64 = rect.min.y + rect.max.y - 2 * display.min.y;
    let nx: i64 = clamp_coord(mul_div(ux, SCALE, 2 * dw));
    let ny: i64 = clamp_coord(mul_div(uy, SCALE, 2 * dh));
    let tx: i64 = mul_div(w, SCALE, 2 * dw);
    let ty: i64 = mul_div(h, SCALE, 2 * dh);
    proof {
        crate::fixed::lemma_double_trunc_div_bound(
            w * SCALE,
            2 * dw as int,
            crate::fixed::MUL_LIMIT * DISPLAY_LIMIT as int,
        );
        crate::fixed::lemma_double_trunc_div_bound(
            h * SCALE,
            2 * dh as int,
            crate::fixed::MUL_LIMIT * DISPLAY_LIMIT as int,
        );
    }
    let nw: i64 = clamp_coord(2 * tx);
    let nh: i64 = clamp_coord(2 * ty);
    proof {
        if rect_ordered(rect) && rect_within(rect, display) {
            lemma_normalized_axis(
                rect.min.x as int,
                rect.max.x as int,
                display.min.x as int,
                dw as int,
            );
            lemma_normalized_axis(
                rect.min.y as int,
                rect.max.y as int,
                display.min.y as int,
                dh as int,
            );
        }
    }
    (Vec2 { x: nx, y: ny }, Vec2 { x: nw, y: nh })
}

/// The 3x3 handle cell of a pointer within a rectangle: `0`, `1` or `2`
/// per axis from the near edge, `3` exactly on the far edge.
pub open spec fn spec_cell(rect: Rect, p: Vec2) -> (int, int) {
    (
        trunc_div((p.x - rect.min.x) * 3, spec_width(rect)),
        trunc_div((p.y - rect.min.y) * 3, spec_height(rect)),
    )
}

/// Which handle cell of `rect` the pointer is over.
pub fn cell_of(rect: Rect, p: Vec2) -> (r: (i64, i64))
    requires
        rect_in_range(rect),
        spec_width(rect) > 0,
        spec_height(rect) > 0,
        spec_contains(rect, p),
    ensures
        r.0 == spec_cell(rect, p).0 && r.1 == spec_cell(rect, p).1,
        0 <= r.0 <= 3 && 0 <= r.1 <= 3,
{
    let w: i64 = rect.width();
    let h: i64 = rect.height();
    proof {
        lemma_scale_in_unit((p.x - rect.min.x) as int, 3, w as int);
        lemma_scale_in_unit((p.y - rect.min.y) as int, 3, h as int);
    }
    (mul_div(p.x - rect.min.x, 3, w), mul_div(p.y - rect.min.y, 3, h))
}

/// The highlighted segment among `segs` under pointer `p`: the last one
/// in list order whose screen rectangle contains the pointer.
pub open spec fn spec_hit(segs: Seq<Segment>, image_rect: Rect, p: Vec2) -> Option<int>
    decreases segs.len(),
{
    if segs.len() == 0 {
        None
    } else if spec_contains(spec_to_screen(image_rect, segs.last()), p) {
        Some(segs.len() - 1)
    } else {
        spec_hit(segs.drop_last(), image_rect, p)
    }
}

/// What the hit index means: it is the largest index whose screen
/// rectangle contains the pointer, and `None` means no rectangle does.
pub proof fn lemma_spec_hit(segs: Seq<Segment>, image_rect: Rect, p: Vec2)
    ensures
        match spec_hit(segs, image_rect, p) {
            Some(i) => 0 <= i < segs.len() && spec_contains(
                spec_to_screen(image_rect, segs[i]),
                p,
            ) && forall|j: int|
                i < j < segs.len() ==> !spec_contains(
                    spec_to_screen(image_rect, #[trigger] segs[j]),
                    p,
                ),
            None => forall|j: int|
                0 <= j < segs.len() ==> !spec_contains(
                    spec_to_screen(image_rect, #[trigger] segs[j]),
                    p,
                ),
        },
    decreases segs.len(),
{
    if segs.len() > 0 && !spec_contains(spec_to_screen(image_rect, segs.last()), p) {
        lemma_spec_hit(segs.drop_last(), image_rect, p);
        assert(forall|j: int|
            0 <= j < segs.len() - 1 ==> segs.drop_last()[j] == #[trigger] segs[j]);
    }
}

/// The highlighted segment under the pointer — later entries override
/// earlier ones, so the most recently created overlapping segment wins.
pub fn hit_test(segments: &Vec<Segment>, image_rect: Rect, pointer: Vec2) -> (r: Option<usize>)
    requires
        display_rect_wf(image_rect),
        forall|i: int|
            0 <= i < segments@.len() ==> seg_in_range(#[trigger] segments@[i]),
    ensures
        match r {
            Some(i) => spec_hit(segments@, image_rect, pointer) == Some(i as int),
            None => spec_hit(segments@, image_rect, pointer) is None,
        },
{
    let mut i: usize = segments.len();
    proof {
        assert(segments@.take(i as int) =~= segments@);
    }
    while i > 0
        invariant
            0 <= i <= segments@.len(),
            display_rect_wf(image_rect),
            forall|k: int|
                0 <= k < segments@.len() ==> seg_in_range(#[trigger] segments@[k]),
            spec_hit(segments@, image_rect, pointer) == spec_hit(
                segments@.take(i as int),
                image_rect,
                pointer,
            ),
        decreases i,
    {
        let rect = fun_name(image_rect, &segments[i - 1]);
        proof {
            assert(segments@.take(i as int).last() == segments@[i - 1]);
            assert(segments@.take(i as int).drop_last() =~= segments@.take(i - 1));
        }
        if rect.contains(pointer) {
            return Some(i - 1);
        }
        i = i - 1;
    }
    proof {
        assert(segments@.take(0) =~= Seq::<Segment>::empty());
    }
    None
}

/// The cursor icon for a 3x3 handle cell, the classic edge/corner-handle
/// convention: corners resize diagonally, edges on one axis, the centre
/// moves; anything outside the grid keeps the plain cursor.
pub open spec fn spec_icon_for_cell(cx: int, cy: int) -> crate::project::CursorHint {
    if cx == 0 && cy == 0 {
        crate::project::CursorHint::ResizeNorthWest
    } else if cx == 1 && cy == 0 {
        crate::project::CursorHint::ResizeNorth
    } else if cx == 2 && cy == 0 {
        crate::project::CursorHint::ResizeNorthEast
    } else if cx == 0 && cy == 1 {
        crate::project::CursorHint::ResizeWest
    } else if cx == 1 && cy == 1 {
        crate::project::CursorHint::Move
    } else if cx == 2 && cy == 1 {
        crate::project::CursorHint::ResizeEast
    } else if cx == 0 && cy == 2 {
        crate::project::CursorHint::ResizeSouthWest
    } else if cx == 1 && cy == 2 {
        crate::project::CursorHint::ResizeSouth
    } else if cx == 2 && cy == 2 {
        crate::project::CursorHint::ResizeSouthEast
    } else {
        crate::project::CursorHint::Plain
    }
}

pub fn icon_for_cell(cx: i64, cy: i64) -> (r: crate::project::CursorHint)
    ensures
        r == spec_icon_for_cell(cx as int, cy as int),
{
    if cx == 0 && cy == 0 {
        crate::project::CursorHint::ResizeNorthWest
    } else if cx == 1 && cy == 0 {
        crate::project::CursorHint::ResizeNorth
    } else if cx == 2 && cy == 0 {
        crate::project::CursorHint::ResizeNorthEast
    } else if cx == 0 && cy == 1 {
        crate::project::CursorHint::ResizeWest
    } else if cx == 1 && cy == 1 {
        crate::project::CursorHint::Move
    } else if cx == 2 && cy == 1 {
        crate::project::CursorHint::ResizeEast
    } else if cx == 0 && cy == 2 {
        crate::project::CursorHint::ResizeSouthWest
    } else if cx == 1 && cy == 2 {
        crate::project::CursorHint::ResizeSouth
    } else if cx == 2 && cy == 2 {
        crate::project::CursorHint::ResizeSouthEast
    } else {
        crate::project::CursorHint::Plain
    }
}

/// A normalized drag delta: the screen delta scaled into fractions of the
/// display extent, saturated into storable range.
pub open spec fn spec_norm_delta(delta: int, extent: int) -> int
    recommends
        extent > 0,
{
    spec_clamp_coord(trunc_div(delta * (SCALE as int), extent))
}

/// Scale a screen-space drag delta into normalized units.
pub fn norm_delta(delta: i64, extent: i64) -> (r: i64)
    requires
        -crate::geom::SCREEN_LIMIT <= delta <= crate::geom::SCREEN_LIMIT,
        0 < extent <= DISPLAY_LIMIT,
    ensures
        r == spec_norm_delta(delta as int, extent as int),
        coord_in_range(r as int),
{
    clamp_coord(mul_div(delta, SCALE, extent))
}

/// A handle direction component: `0` moves, `1`/`-1` resize, `2` from a
/// grab exactly on the trailing edge.
pub open spec fn dir_component(v: int) -> bool {
    -1 <= v <= 2
}

/// The segment after a drag of normalized delta `dn` on the handle
/// `dir`: the centre cell moves the whole segment; any other handle
/// resizes by the delta along its axes and shifts the centre by half of
/// it, keeping the opposite edge anchored.
pub open spec fn spec_drag_seg(seg: Segment, dir: Vec2, dn: Vec2) -> Segment {
    if dir.x == 0 && dir.y == 0 {
        Segment {
            center: Vec2 {
                x: spec_clamp_coord(seg.center.x + dn.x) as i64,
                y: spec_clamp_coord(seg.center.y + dn.y) as i64,
            },
            size: seg.size,
            label_id: seg.label_id,
        }
    } else {
        Segment {
            center: Vec2 {
                x: spec_clamp_coord(
                    seg.center.x + trunc_div(dn.x * abs_i(dir.x as int), 2),
                ) as i64,
                y: spec_clamp_coord(
                    seg.center.y + trunc_div(dn.y * abs_i(dir.y as int), 2),
                ) as i64,
            },
            size: Vec2 {
                x: spec_clamp_coord(seg.size.x + dn.x * dir.x) as i64,
                y: spec_clamp_coord(seg.size.y + dn.y * dir.y) as i64,
            },
            label_id: seg.label_id,
        }
    }
}

/// Apply an in-progress edit drag to a segment: `delta` is the screen
/// motion since the last frame, `display_size` the display rectangle's
/// extent the drag is measured against.
pub fn apply_edit_drag(seg: &mut Segment, dir: Vec2, delta: Vec2, display_size: Vec2)
    requires
        seg_in_range(*old(seg)),
        dir_component(dir.x as int) && dir_component(dir.y as int),
        -crate::geom::SCREEN_LIMIT <= delta.x <= crate::geom::SCREEN_LIMIT,
        -crate::geom::SCREEN_LIMIT <= delta.y <= crate::geom::SCREEN_LIMIT,
        0 < display_size.x <= DISPLAY_LIMIT,
        0 < display_size.y <= DISPLAY_LIMIT,
    ensures
        *final(seg) == spec_drag_seg(
            *old(seg),
            dir,
            Vec2 {
                x: spec_norm_delta(delta.x as int, display_size.x as int) as i64,
                y: spec_norm_delta(delta.y as int, display_size.y as int) as i64,
            },
        ),
        seg_in_range(*final(seg)),
{
    let dnx: i64 = norm_delta(delta.x, display_size.x);
    let dny: i64 = norm_delta(delta.y, display_size.y);
    if dir.x == 0 && dir.y == 0 {
        seg.center.x = crate::fixed::add_coord(seg.center.x, dnx);
        seg.center.y = crate::fixed::add_coord(seg.center.y, dny);
    } else {
        proof {
            assert(-2 * COORD_LIMIT <= dnx * dir.x <= 2 * COORD_LIMIT) by (nonlinear_arith)
                requires
                    -COORD_LIMIT <= dnx <= COORD_LIMIT,
                    -1 <= dir.x <= 2,
            ;
            assert(-2 * COORD_LIMIT <= dny * dir.y <= 2 * COORD_LIMIT) by (nonlinear_arith)
                requires
                    -COORD_LIMIT <= dny <= COORD_LIMIT,
                    -1 <= dir.y <= 2,
            ;
        }
        let rx: i64 = dnx * dir.x;
        let ry: i64 = dny * dir.y;
        let ax: i64 = if dir.x >= 0 {
            dir.x
        } else {
            -dir.x
        };
        let ay: i64 = if dir.y >= 0 {
            dir.y
        } else {
            -dir.y
        };
        proof {
            assert(-2 * COORD_LIMIT <= dnx * ax <= 2 * COORD_LIMIT) by (nonlinear_arith)
                requires
                    -COORD_LIMIT <= dnx <= COORD_LIMIT,
                    0 <= ax <= 2,
            ;
            assert(-2 * COORD_LIMIT <= dny * ay <= 2 * COORD_LIMIT) by (nonlinear_arith)
                requires
                    -COORD_LIMIT <= dny <= COORD_LIMIT,
                    0 <= ay <= 2,
            ;
        }
        let px: i64 = dnx * ax;
        let py: i64 = dny * ay;
        let sx: i64 = half(px);
        let sy: i64 = half(py);
        proof {
            lemma_trunc_div_bound(px as int, 2, 2 * COORD_LIMIT as int);
            lemma_trunc_div_bound(py as int, 2, 2 * COORD_LIMIT as int);
        }
        seg.size.x = crate::fixed::add_coord(seg.size.x, rx);
        seg.size.y = crate::fixed::add_coord(seg.size.y, ry);
        seg.center.x = crate::fixed::add_coord(seg.center.x, sx);
        seg.center.y = crate::fixed::add_coord(seg.center.y, sy);
    }
}

/// Dragging the east edge handle keeps the west edge anchored: with the
/// east handle, an even normalized delta `d` grows the width by exactly
/// `d` and shifts the centre by `d / 2`, so the west edge — doubled
/// coordinates `2 * center.x - size.x` — is unchanged, and the vertical
/// axis is untouched. (An odd delta is split at the fixed-point
/// resolution, moving the west edge by at most half a unit.)
pub proof fn lemma_east_drag_anchors_west(seg: Segment, d: int, dy: int)
    requires
        seg_in_range(seg),
        -COORD_LIMIT <= d <= COORD_LIMIT,
        d % 2 == 0,
        -COORD_LIMIT <= seg.size.x + d <= COORD_LIMIT,
        -COORD_LIMIT <= 2 * seg.center.x + d <= 2 * COORD_LIMIT,
    ensures
        ({
            let dragged = spec_drag_seg(
                seg,
                Vec2 { x: 1, y: 0 },
                Vec2 { x: d as i64, y: dy as i64 },
            );
            &&& dragged.size.x == seg.size.x + d
            &&& 2 * dragged.center.x - dragged.size.x == 2 * seg.center.x - seg.size.x
            &&& dragged.center.y == seg.center.y
            &&& dragged.size.y == seg.size.y
        }),
{
    let k = d / 2;
    vstd::arithmetic::div_mod::lemma_fundamental_div_mod(d, 2);
    assert(d == 2 * k);
    assert(trunc_div(d, 2) == k) by {
        if d >= 0 {
        } else {
            vstd::arithmetic::div_mod::lemma_div_multiples_vanish(-k, 2);
            assert((-d) / 2 == -k);
        }
    }
    assert(d * 1 == d);
    assert(abs_i(1) == 1);
    assert(seg.center.x + k <= COORD_LIMIT);
    assert(-COORD_LIMIT <= seg.center.x + k);
}

} // verus!
