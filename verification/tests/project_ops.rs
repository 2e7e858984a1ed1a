use labelel::errors::LabelConflict;
use labelel::geom::{Rect, Vec2};
use labelel::project::{CursorHint, Image, Input, Project, Segment, Tool};

fn v(x: i64, y: i64) -> Vec2 {
    Vec2 { x, y }
}

fn seg(cx: i64, cy: i64, w: i64, h: i64, label_id: u32) -> Segment {
    Segment { center: v(cx, cy), size: v(w, h), label_id }
}

fn image(name: &str, segments: Vec<Segment>) -> Image {
    Image {
        file_path: format!("images/{}", name).into_bytes(),
        file_name: name.as_bytes().to_vec(),
        labels_file_path: format!("labels/{}.txt", name).into_bytes(),
        segments,
        uri: format!("file://images/{}", name).into_bytes(),
    }
}

fn project_with(images: Vec<Image>) -> Project {
    Project {
        original_yaml: b"train: images".to_vec(),
        labels: vec![],
        images,
        image_index: 0,
        label_id: None,
        rect_size: v(64, 64),
        tool: Tool::Stamp,
        drag_start_pos: None,
        edit_drag: None,
        add_label_modal: None,
        yaml_file_path: b"data.yaml".to_vec(),
    }
}

fn idle_input() -> Input {
    Input {
        left: false,
        right: false,
        accept: false,
        delete: false,
        clone: false,
        tool: None,
        hover_pos: None,
        scroll_delta: v(0, 0),
        clicked: false,
        drag_started: false,
        dragged: false,
        drag_stopped: false,
        pointer_down: false,
        drag_delta: v(0, 0),
    }
}

fn display() -> Rect {
    Rect { min: v(0, 0), max: v(100, 100) }
}

#[test]
fn navigation_saturates_at_both_ends() {
    let n = 5;
    let mut p = project_with((0..n).map(|i| image(&format!("{}.png", i), vec![])).collect());
    for _ in 0..(n + 5) {
        p.advance();
    }
    assert_eq!(p.image_index, n - 1);
    for _ in 0..(n + 5) {
        p.back();
    }
    assert_eq!(p.image_index, 0);
}

#[test]
fn navigation_on_empty_project_stays_at_zero() {
    let mut p = project_with(vec![]);
    p.advance();
    assert_eq!(p.image_index, 0);
    p.back();
    assert_eq!(p.image_index, 0);
}

#[test]
fn set_image_index_clamps_into_the_list() {
    let mut p = project_with(vec![image("a.png", vec![]), image("b.png", vec![])]);
    p.set_image_index(1);
    assert_eq!(p.image_index, 1);
    p.set_image_index(99);
    assert_eq!(p.image_index, 1);
    p.set_image_index(0);
    assert_eq!(p.image_index, 0);
}

#[test]
fn adding_a_taken_label_id_reports_a_conflict() {
    let mut p = project_with(vec![]);
    assert!(p.add_label(1, b"cat".to_vec()).is_ok());
    assert_eq!(p.labels.len(), 1);
    let r = p.add_label(1, b"dog".to_vec());
    assert!(matches!(r, Err(LabelConflict)));
    assert_eq!(p.labels.len(), 1);
    assert_eq!(p.labels[0].1.name, b"cat".to_vec());
}

#[test]
fn proposed_ids_follow_the_count() {
    let mut p = project_with(vec![]);
    assert_eq!(p.propose_next_id(), 1);
    p.add_label(1, b"cat".to_vec()).unwrap();
    assert_eq!(p.propose_next_id(), 2);
}

#[test]
fn lookup_finds_labels_by_id() {
    let mut p = project_with(vec![]);
    p.add_label(3, b"cat".to_vec()).unwrap();
    p.add_label(7, b"dog".to_vec()).unwrap();
    assert_eq!(p.lookup(3), Some(0));
    assert_eq!(p.lookup(7), Some(1));
    assert_eq!(p.lookup(4), None);
}

#[test]
fn tool_switch_and_navigation_inputs_apply() {
    let mut p = project_with(vec![image("a.png", vec![]), image("b.png", vec![])]);
    let mut input = idle_input();
    input.tool = Some(Tool::Edit);
    input.right = true;
    p.handle_global(input);
    assert_eq!(p.tool, Tool::Edit);
    assert_eq!(p.image_index, 1);
    let mut input = idle_input();
    input.left = true;
    p.handle_global(input);
    assert_eq!(p.tool, Tool::Edit);
    assert_eq!(p.image_index, 0);
}

#[test]
fn stamping_appends_a_clipped_segment() {
    let mut p = project_with(vec![image("a.png", vec![])]);
    p.label_id = Some(2);
    p.rect_size = v(20, 20);
    let mut input = idle_input();
    input.hover_pos = Some(v(50, 50));
    input.accept = true;
    let out = p.frame_step(input, display(), false);
    assert_eq!(p.images[0].segments.len(), 1);
    assert_eq!(p.images[0].segments[0], seg(500_000, 500_000, 200_000, 200_000, 2));
    assert_eq!(out.highlighted, None);
    assert_eq!(p.image_index, 0);
}

#[test]
fn stamping_without_an_armed_label_does_nothing() {
    let mut p = project_with(vec![image("a.png", vec![])]);
    let mut input = idle_input();
    input.hover_pos = Some(v(50, 50));
    input.accept = true;
    p.frame_step(input, display(), false);
    assert_eq!(p.images[0].segments.len(), 0);
}

#[test]
fn quick_advance_moves_on_after_stamping() {
    let mut p = project_with(vec![image("a.png", vec![]), image("b.png", vec![])]);
    p.label_id = Some(0);
    let mut input = idle_input();
    input.hover_pos = Some(v(50, 50));
    input.clicked = true;
    p.frame_step(input, display(), true);
    assert_eq!(p.images[0].segments.len(), 1);
    assert_eq!(p.image_index, 1);
}

#[test]
fn scrolling_adjusts_the_stamp_extent_with_a_floor() {
    let mut p = project_with(vec![image("a.png", vec![])]);
    p.rect_size = v(64, 64);
    let mut input = idle_input();
    input.scroll_delta = v(8, 40);
    p.frame_step(input, display(), false);
    assert_eq!(p.rect_size, v(64 + 10 + 2, 64 + 10));

    let mut input = idle_input();
    input.scroll_delta = v(0, -1000);
    p.frame_step(input, display(), false);
    assert_eq!(p.rect_size, v(2, 2));
}

#[test]
fn drag_tool_creates_a_segment_between_anchor_and_release() {
    let mut p = project_with(vec![image("a.png", vec![])]);
    p.tool = Tool::Drag;
    p.label_id = Some(1);
    let mut input = idle_input();
    input.hover_pos = Some(v(20, 30));
    input.drag_started = true;
    p.frame_step(input, display(), false);
    assert_eq!(p.drag_start_pos, Some(v(20, 30)));

    let mut input = idle_input();
    input.hover_pos = Some(v(60, 70));
    input.drag_stopped = true;
    p.frame_step(input, display(), false);
    assert_eq!(p.drag_start_pos, None);
    assert_eq!(p.images[0].segments.len(), 1);
    assert_eq!(p.images[0].segments[0], seg(400_000, 500_000, 400_000, 400_000, 1));
}

#[test]
fn deleting_the_sole_segment_leaves_an_empty_list() {
    let mut p = project_with(vec![image(
        "a.png",
        vec![seg(500_000, 500_000, 200_000, 200_000, 0)],
    )]);
    p.tool = Tool::Edit;
    let mut input = idle_input();
    input.hover_pos = Some(v(50, 50));
    input.delete = true;
    let out = p.frame_step(input, display(), false);
    assert_eq!(out.highlighted, Some(0));
    assert_eq!(p.images[0].segments.len(), 0);
    assert_eq!(p.images[0].sidecar_bytes(), None);
}

#[test]
fn style_match_arms_the_label_and_copies_the_extent() {
    let mut p = project_with(vec![image(
        "a.png",
        vec![seg(500_000, 500_000, 200_000, 300_000, 7)],
    )]);
    p.tool = Tool::Edit;
    let mut input = idle_input();
    input.hover_pos = Some(v(50, 50));
    input.clone = true;
    p.frame_step(input, display(), false);
    assert_eq!(p.images[0].segments.len(), 1);
    assert_eq!(p.label_id, Some(7));
    assert_eq!(p.rect_size, v(20, 30));
}

#[test]
fn edit_drag_captures_and_applies_over_frames() {
    let mut p = project_with(vec![image(
        "a.png",
        vec![seg(500_000, 500_000, 200_000, 200_000, 0)],
    )]);
    p.tool = Tool::Edit;

    let mut input = idle_input();
    input.hover_pos = Some(v(59, 50));
    input.pointer_down = true;
    let out = p.frame_step(input, display(), false);
    assert_eq!(out.cursor, CursorHint::ResizeEast);
    let drag = p.edit_drag.expect("drag should be captured");
    assert_eq!(drag.segment_index, 0);
    assert_eq!(drag.dir, v(1, 0));

    let mut input = idle_input();
    input.dragged = true;
    input.drag_delta = v(10, 0);
    let out = p.frame_step(input, display(), false);
    assert_eq!(out.cursor, CursorHint::ResizeEast);
    assert_eq!(p.images[0].segments[0], seg(550_000, 500_000, 300_000, 200_000, 0));

    let mut input = idle_input();
    input.drag_stopped = true;
    p.frame_step(input, display(), false);
    assert_eq!(p.edit_drag, None);
}

#[test]
fn stale_drag_state_is_inert_outside_edit_mode() {
    let mut p = project_with(vec![image(
        "a.png",
        vec![seg(500_000, 500_000, 200_000, 200_000, 0)],
    )]);
    p.tool = Tool::Edit;
    let mut input = idle_input();
    input.hover_pos = Some(v(50, 50));
    input.pointer_down = true;
    p.frame_step(input, display(), false);
    assert!(p.edit_drag.is_some());

    p.tool = Tool::Stamp;
    let mut input = idle_input();
    input.dragged = true;
    input.drag_delta = v(10, 0);
    p.frame_step(input, display(), false);
    assert!(p.edit_drag.is_some());
    assert_eq!(p.images[0].segments[0], seg(500_000, 500_000, 200_000, 200_000, 0));
}

#[test]
fn quick_advance_applies_to_drag_creation_too() {
    let mut p = project_with(vec![image("a.png", vec![]), image("b.png", vec![])]);
    p.tool = Tool::Drag;
    p.label_id = Some(0);
    let mut input = idle_input();
    input.hover_pos = Some(v(10, 10));
    input.drag_started = true;
    p.frame_step(input, display(), true);
    let mut input = idle_input();
    input.hover_pos = Some(v(30, 30));
    input.drag_stopped = true;
    p.frame_step(input, display(), true);
    assert_eq!(p.images[0].segments.len(), 1);
    assert_eq!(p.image_index, 1);
}

#[test]
fn cursor_stays_plain_outside_edit_mode() {
    let mut p = project_with(vec![image(
        "a.png",
        vec![seg(500_000, 500_000, 200_000, 200_000, 0)],
    )]);
    let mut input = idle_input();
    input.hover_pos = Some(v(50, 50));
    let out = p.frame_step(input, display(), false);
    assert_eq!(out.cursor, CursorHint::Plain);
    assert_eq!(out.highlighted, Some(0));
}

#[test]
fn delete_and_style_match_only_act_in_edit_mode() {
    let mut p = project_with(vec![image(
        "a.png",
        vec![seg(500_000, 500_000, 200_000, 200_000, 7)],
    )]);
    let mut input = idle_input();
    input.hover_pos = Some(v(50, 50));
    input.delete = true;
    input.clone = true;
    let out = p.frame_step(input, display(), false);
    assert_eq!(out.highlighted, Some(0));
    assert_eq!(p.images[0].segments.len(), 1);
    assert_eq!(p.label_id, None);
    assert_eq!(p.rect_size, v(64, 64));
}
