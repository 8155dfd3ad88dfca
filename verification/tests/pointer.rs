use petbuddy::pointer::{DragDir, PointerState, TickInput, TickOutput};

fn input(hit: bool, left_down: bool) -> TickInput {
    TickInput { unchanged: false, hit, left_down, leftward: false, past_threshold: false }
}

fn ready() -> PointerState {
    let mut s = PointerState::new();
    s.on_rects_reported(2);
    s
}

#[test]
fn before_rects_are_reported_nothing_passes_through() {
    let mut s = PointerState::new();
    let out = s.tick(input(false, false));
    assert!(!out.skipped);
    assert!(!out.ignore_mouse);
    assert_eq!(out.hover, Some(false));
    // An empty report keeps the whole window interactive.
    s.on_rects_reported(0);
    let out = s.tick(TickInput { unchanged: true, ..input(false, false) });
    assert!(!out.skipped);
    assert!(!out.ignore_mouse);
}

#[test]
fn clicks_pass_through_off_the_pet() {
    let mut s = ready();
    let out = s.tick(input(false, false));
    assert!(out.ignore_mouse);
    assert_eq!(out.hover, Some(false));
    let out = s.tick(input(true, false));
    assert!(!out.ignore_mouse);
    assert_eq!(out.hover, Some(true));
    // No change of hover: nothing reported.
    let out = s.tick(input(true, false));
    assert_eq!(out.hover, None);
}

#[test]
fn unchanged_ticks_are_skipped_until_rects_change() {
    let mut s = ready();
    s.tick(input(true, false));
    let before = s;
    let out = s.tick(TickInput { unchanged: true, ..input(true, false) });
    assert!(out.skipped);
    assert_eq!(s, before);
    s.on_rects_reported(1);
    let out = s.tick(TickInput { unchanged: true, ..input(true, false) });
    assert!(!out.skipped);
}

#[test]
fn press_arm_drag_release() {
    let mut s = ready();
    // Press over the pet: armed, press recorded.
    let out = s.tick(input(true, true));
    assert!(out.record_press);
    assert!(s.drag.armed && !s.drag.active);
    // Small move: still armed, nothing moves.
    let out = s.tick(input(true, true));
    assert!(!out.move_window && !out.drag_start);
    // Past the threshold to the left: the drag starts.
    let out = s.tick(TickInput { leftward: true, past_threshold: true, ..input(true, true) });
    assert!(out.drag_start && out.move_window);
    assert_eq!(out.drag_dir, Some(DragDir::Left));
    assert!(s.drag.active);
    // Keep dragging left: moves, no new direction.
    let out = s.tick(TickInput { unchanged: true, leftward: true, ..input(true, true) });
    assert!(!out.skipped && out.move_window);
    assert_eq!(out.drag_dir, None);
    // Turn right: the new direction is reported.
    let out = s.tick(input(true, true));
    assert_eq!(out.drag_dir, Some(DragDir::Right));
    // Release: the drag ends.
    let out = s.tick(input(true, false));
    assert!(out.drag_end);
    assert!(!s.drag.active && !s.drag.armed && s.drag.dir.is_none());
}

#[test]
fn a_click_without_moving_is_no_drag() {
    let mut s = ready();
    s.tick(input(true, true));
    let out = s.tick(input(true, false));
    assert!(!out.drag_end);
    assert!(!s.drag.armed);
}

#[test]
fn a_press_off_the_pet_arms_nothing() {
    let mut s = ready();
    let out = s.tick(input(false, true));
    assert!(!out.record_press);
    assert!(!s.drag.armed);
    let out: TickOutput = s.tick(TickInput { past_threshold: true, ..input(true, true) });
    assert!(!out.drag_start);
}

#[test]
fn drag_direction_names() {
    assert_eq!(DragDir::Left.name(), "left");
    assert_eq!(DragDir::Right.name(), "right");
}
