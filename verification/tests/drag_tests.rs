use winsnap::drag::{hook_start, moved_enough, poll_start, DragKind, DragState, PollEnd, MIN_H, MIN_W};
use winsnap::snap::SnapCandidate;

fn moving_state() -> DragState {
    let mut s = DragState::new();
    // Frame (100,100)-(900,700); visible part inset 7 on the left/right, 7 at the bottom.
    s.begin_move(42, (500, 300), (100, 100, 900, 700), (107, 100, 893, 693));
    s
}

#[test]
fn start_requests() {
    assert_eq!(hook_start(1, true), Some(DragKind::Move));
    assert_eq!(hook_start(2, true), Some(DragKind::Resize));
    assert_eq!(hook_start(1, false), None);
    assert_eq!(hook_start(0, true), None);
    assert_eq!(poll_start(true, true, false), Some(DragKind::Move));
    assert_eq!(poll_start(true, false, true), Some(DragKind::Resize));
    assert_eq!(poll_start(true, true, true), None);
    assert_eq!(poll_start(false, true, false), None);
}

#[test]
fn begin_move_records_visible_rect() {
    let s = moving_state();
    assert_eq!(s.mode, 1);
    assert_eq!(s.hwnd, 42);
    assert_eq!((s.vis_off_l, s.vis_off_t, s.vis_w, s.vis_h), (7, 0, 786, 593));
    assert_eq!((s.snap_h, s.snap_v, s.left_up_count), (0, 0, 0));
    assert_eq!(s.drag_offset((450, 310)), (-50, 10));
}

#[test]
fn begin_resize_picks_handle() {
    let mut s = DragState::new();
    s.begin_resize(7, (890, 690), (100, 100, 900, 700));
    assert_eq!(s.mode, 2);
    assert_eq!(s.ht, 17);
    s.begin_resize(7, (105, 400), (100, 100, 900, 700));
    assert_eq!(s.ht, 10);
}

#[test]
fn small_moves_are_ignored() {
    assert!(!moved_enough(1, -1));
    assert!(moved_enough(2, 0));
    assert!(moved_enough(0, -2));
}

#[test]
fn move_follows_cursor_when_free() {
    let mut s = moving_state();
    let cands: Vec<SnapCandidate> = Vec::new();
    assert_eq!(s.move_step(-50, 10, (1920, 1080), true, &cands), (50, 110));
    assert_eq!((s.snap_h, s.snap_v), (0, 0));
}

#[test]
fn move_snaps_to_screen_edge_and_escapes() {
    let mut s = moving_state();
    let cands: Vec<SnapCandidate> = Vec::new();
    // Visible left edge would be at 9: too far to snap.
    assert_eq!(s.move_step(-98, 0, (1920, 1080), true, &cands), (2, 100));
    assert_eq!(s.snap_h, 0);
    // Visible left edge at 7: snaps to the screen's left edge.
    assert_eq!(s.move_step(-100, 0, (1920, 1080), true, &cands), (-7, 100));
    assert_eq!(s.snap_h, 1);
    // Dragged back to 27 px away: stays snapped.
    assert_eq!(s.move_step(-80, 0, (1920, 1080), true, &cands), (-7, 100));
    assert_eq!(s.snap_h, 1);
    // 47 px away: lets go.
    assert_eq!(s.move_step(-60, 0, (1920, 1080), true, &cands), (40, 100));
    assert_eq!(s.snap_h, 0);
}

#[test]
fn move_snaps_bottom_edge() {
    let mut s = moving_state();
    let cands: Vec<SnapCandidate> = Vec::new();
    // Visible bottom at 693 + 385 = 1078, 2 px above the screen's bottom (1080).
    assert_eq!(s.move_step(0, 385, (1920, 1080), true, &cands), (100, 487));
    assert_eq!(s.snap_v, 2);
}

#[test]
fn screen_snapping_off_never_snaps() {
    let mut s = moving_state();
    let cands: Vec<SnapCandidate> = Vec::new();
    assert_eq!(s.move_step(-100, 0, (1920, 1080), false, &cands), (0, 100));
    assert_eq!(s.snap_h, 0);
}

#[test]
fn move_snaps_to_candidate_edge() {
    let mut s = moving_state();
    // A window to the right whose visible left edge is at 900.
    let cand = SnapCandidate::new(9, 0, (893, 50, 1500, 800), (900, 50, 1493, 793));
    let cands = vec![cand];
    // Visible right edge 893 + 4 = 897: 3 px from the candidate's left edge.
    assert_eq!(s.move_step(4, 0, (1920, 1080), false, &cands), (107, 100));
    assert_eq!(s.snap_h, 2);
}

#[test]
fn resize_keeps_minimum_size() {
    let mut s = DragState::new();
    s.begin_resize(7, (890, 690), (100, 100, 900, 700));
    assert_eq!(s.resize_step(50, 20), (100, 100, 850, 620));
    assert_eq!(s.resize_step(-1000, -1000), (100, 100, MIN_W, MIN_H));
    s.begin_resize(7, (105, 400), (100, 100, 900, 700));
    assert_eq!(s.ht, 10);
    assert_eq!(s.resize_step(-30, 5), (70, 100, 830, 600));
    assert_eq!(s.resize_step(1000, 0), (1100, 100, 100, 600));
}

#[test]
fn left_release_is_debounced() {
    let mut s = moving_state();
    assert_eq!(s.poll_end(true, false, false), PollEnd::Continue);
    assert_eq!(s.left_up_count, 1);
    assert_eq!(s.poll_end(true, false, false), PollEnd::Continue);
    assert_eq!(s.left_up_count, 2);
    assert_eq!(s.poll_end(true, false, false), PollEnd::Ended { was_move: true });
    assert_eq!((s.mode, s.hwnd, s.left_up_count), (0, 0, 0));
}

#[test]
fn press_clears_release_count() {
    let mut s = moving_state();
    assert_eq!(s.poll_end(true, false, false), PollEnd::Continue);
    assert_eq!(s.poll_end(true, true, false), PollEnd::Continue);
    assert_eq!(s.left_up_count, 0);
}

#[test]
fn alt_release_ends_at_once() {
    let mut s = moving_state();
    assert_eq!(s.poll_end(false, true, false), PollEnd::Ended { was_move: true });
    let mut r = DragState::new();
    r.begin_resize(7, (890, 690), (100, 100, 900, 700));
    assert_eq!(r.poll_end(true, false, true), PollEnd::Continue);
    assert_eq!(r.poll_end(true, false, false), PollEnd::Ended { was_move: false });
}

#[test]
fn lost_window_drops_drag() {
    let mut s = DragState::new();
    s.begin_move(0, (0, 0), (0, 0, 10, 10), (0, 0, 10, 10));
    assert_eq!(s.poll_end(true, true, false), PollEnd::Lost);
    assert_eq!(s.mode, 0);
}
