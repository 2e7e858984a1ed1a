use labelel::colors::{color_for, Rgb};
use labelel::fixed::{clamp_unit, SCALE};
use labelel::geom::{Rect, Vec2};
use labelel::mapper::{
    apply_edit_drag, cell_of, fun_name, hit_test, icon_for_cell, norm_delta, to_normalized,
};
use labelel::project::{CursorHint, Segment};

fn v(x: i64, y: i64) -> Vec2 {
    Vec2 { x, y }
}

fn rect(ax: i64, ay: i64, bx: i64, by: i64) -> Rect {
    Rect { min: v(ax, ay), max: v(bx, by) }
}

fn seg(cx: i64, cy: i64, w: i64, h: i64, label_id: u32) -> Segment {
    Segment { center: v(cx, cy), size: v(w, h), label_id }
}

#[test]
fn clamping_is_idempotent_on_each_component() {
    for raw in [-5i64, 0, 1, 999_999, SCALE, SCALE + 7, 3 * SCALE] {
        let once = clamp_unit(raw);
        assert_eq!(clamp_unit(once), once);
    }
    assert_eq!(clamp_unit(-5), 0);
    assert_eq!(clamp_unit(SCALE + 7), SCALE);
    assert_eq!(clamp_unit(123), 123);
}

#[test]
fn segment_maps_to_screen_rectangle() {
    let display = rect(0, 0, 100, 100);
    let s = seg(500_000, 500_000, 200_000, 200_000, 0);
    let r = fun_name(display, &s);
    assert_eq!(r, rect(40, 40, 60, 60));

    let display = rect(10, 20, 110, 220);
    let r = fun_name(display, &s);
    assert_eq!(r.min, v(50, 100));
    assert_eq!(r.max, v(70, 140));
}

#[test]
fn screen_rectangle_maps_back_to_fractions() {
    let display = rect(0, 0, 100, 100);
    let (center, size) = to_normalized(display, rect(40, 40, 60, 60));
    assert_eq!(center, v(500_000, 500_000));
    assert_eq!(size, v(200_000, 200_000));
}

#[test]
fn clipped_creation_stays_inside_the_unit_square() {
    let display = rect(0, 0, 100, 100);
    let requested = rect(-50, -50, 50, 50);
    let clipped = requested.intersect(&display);
    assert_eq!(clipped, rect(0, 0, 50, 50));
    let (center, size) = to_normalized(display, clipped);
    assert_eq!(center, v(250_000, 250_000));
    assert_eq!(size, v(500_000, 500_000));
    for c in [center.x, center.y, size.x, size.y] {
        assert!(0 <= c && c <= SCALE);
    }
}

#[test]
fn handle_cells_follow_the_three_by_three_grid() {
    let r = rect(0, 0, 90, 90);
    assert_eq!(cell_of(r, v(10, 10)), (0, 0));
    assert_eq!(cell_of(r, v(45, 10)), (1, 0));
    assert_eq!(cell_of(r, v(80, 45)), (2, 1));
    assert_eq!(cell_of(r, v(45, 45)), (1, 1));
    assert_eq!(cell_of(r, v(45, 80)), (1, 2));
    assert_eq!(cell_of(r, v(90, 90)), (3, 3));
}

#[test]
fn cursor_icons_match_the_handle_convention() {
    assert_eq!(icon_for_cell(0, 0), CursorHint::ResizeNorthWest);
    assert_eq!(icon_for_cell(1, 0), CursorHint::ResizeNorth);
    assert_eq!(icon_for_cell(2, 0), CursorHint::ResizeNorthEast);
    assert_eq!(icon_for_cell(0, 1), CursorHint::ResizeWest);
    assert_eq!(icon_for_cell(1, 1), CursorHint::Move);
    assert_eq!(icon_for_cell(2, 1), CursorHint::ResizeEast);
    assert_eq!(icon_for_cell(0, 2), CursorHint::ResizeSouthWest);
    assert_eq!(icon_for_cell(1, 2), CursorHint::ResizeSouth);
    assert_eq!(icon_for_cell(2, 2), CursorHint::ResizeSouthEast);
    assert_eq!(icon_for_cell(3, 1), CursorHint::Plain);
}

#[test]
fn hit_test_picks_the_last_overlapping_segment() {
    let display = rect(0, 0, 100, 100);
    let segs = vec![
        seg(500_000, 500_000, 400_000, 400_000, 0),
        seg(500_000, 500_000, 200_000, 200_000, 1),
    ];
    assert_eq!(hit_test(&segs, display, v(50, 50)), Some(1));
    assert_eq!(hit_test(&segs, display, v(35, 35)), Some(0));
    assert_eq!(hit_test(&segs, display, v(5, 5)), None);
    assert_eq!(hit_test(&vec![], display, v(50, 50)), None);
}

#[test]
fn east_drag_grows_width_and_anchors_the_west_edge() {
    let mut s = seg(500_000, 500_000, 200_000, 200_000, 0);
    let west_before = 2 * s.center.x - s.size.x;
    apply_edit_drag(&mut s, v(1, 0), v(10, 0), v(100, 100));
    assert_eq!(s.size.x, 300_000);
    assert_eq!(s.center.x, 550_000);
    assert_eq!(2 * s.center.x - s.size.x, west_before);
    assert_eq!(s.size.y, 200_000);
    assert_eq!(s.center.y, 500_000);
}

#[test]
fn centre_drag_moves_without_resizing() {
    let mut s = seg(500_000, 500_000, 200_000, 200_000, 0);
    apply_edit_drag(&mut s, v(0, 0), v(-10, 5), v(100, 100));
    assert_eq!(s.center, v(400_000, 550_000));
    assert_eq!(s.size, v(200_000, 200_000));
}

#[test]
fn north_drag_resizes_vertically_only() {
    let mut s = seg(500_000, 500_000, 200_000, 200_000, 0);
    apply_edit_drag(&mut s, v(0, -1), v(0, -10), v(100, 100));
    assert_eq!(s.size, v(200_000, 300_000));
    assert_eq!(s.center, v(500_000, 450_000));
    assert_eq!(2 * s.center.y + s.size.y, 1_200_000);
}

#[test]
fn normalized_deltas_scale_by_display_extent() {
    assert_eq!(norm_delta(10, 100), 100_000);
    assert_eq!(norm_delta(-10, 100), -100_000);
    assert_eq!(norm_delta(1, 3), 333_333);
}

#[test]
fn palette_colors_cycle_by_id() {
    assert_eq!(color_for(0), Rgb { r: 255, g: 0, b: 0 });
    assert_eq!(color_for(1), Rgb { r: 0, g: 255, b: 0 });
    assert_eq!(color_for(8), Rgb { r: 0, g: 255, b: 128 });
    assert_eq!(color_for(9), color_for(0));
    assert_eq!(color_for(10), color_for(1));
}

#[test]
fn narrow_clips_keep_the_box_inside_the_unit_square() {
    let display = rect(0, 0, 3, 3);
    let clipped = rect(-5, -5, 1, 1).intersect(&display);
    assert_eq!(clipped, rect(0, 0, 1, 1));
    let (center, size) = to_normalized(display, clipped);
    assert_eq!(center, v(166_666, 166_666));
    assert_eq!(size, v(333_332, 333_332));
    assert!(2 * center.x - size.x >= 0);
    assert!(2 * center.x + size.x <= 2 * SCALE);
}
