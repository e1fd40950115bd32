use winsnap::geometry::{
    centered_origin, dwm_frame_offsets, edge_target, pos_by_key, resize_direction, scaled_frame,
    visible_size, visual_or_frame,
};

/// The resize direction computed with double-precision thirds.
fn float_direction(cx: i32, cy: i32, l: i32, t: i32, r: i32, b: i32) -> u32 {
    let w = r - l;
    let h = b - t;
    if w <= 0 || h <= 0 {
        return 11;
    }
    let rx = (cx - l) as f64 / w as f64;
    let ry = (cy - t) as f64 / h as f64;
    let e = 0.33;
    let horiz = if rx < e { -1 } else if rx > 1.0 - e { 1 } else { 0 };
    let vert = if ry < e { -1 } else if ry > 1.0 - e { 1 } else { 0 };
    match (horiz, vert) {
        (-1, -1) => 13,
        (0, -1) => 12,
        (1, -1) => 14,
        (-1, 0) => 10,
        (1, 0) => 11,
        (-1, 1) => 16,
        (0, 1) => 15,
        (1, 1) => 17,
        _ => 17,
    }
}

#[test]
fn resize_direction_regions() {
    assert_eq!(resize_direction(50, 50, 0, 0, 100, 100), 17);
    assert_eq!(resize_direction(5, 50, 0, 0, 100, 100), 10);
    assert_eq!(resize_direction(95, 50, 0, 0, 100, 100), 11);
    assert_eq!(resize_direction(50, 5, 0, 0, 100, 100), 12);
    assert_eq!(resize_direction(5, 5, 0, 0, 100, 100), 13);
    assert_eq!(resize_direction(95, 5, 0, 0, 100, 100), 14);
    assert_eq!(resize_direction(50, 95, 0, 0, 100, 100), 15);
    assert_eq!(resize_direction(5, 95, 0, 0, 100, 100), 16);
    assert_eq!(resize_direction(95, 95, 0, 0, 100, 100), 17);
}

#[test]
fn resize_direction_boundaries() {
    // 32/100 is below 0.33, 33/100 is not; 67/100 is past 1 - 0.33, 66/100 is not.
    assert_eq!(resize_direction(32, 50, 0, 0, 100, 100), 10);
    assert_eq!(resize_direction(33, 50, 0, 0, 100, 100), 17);
    assert_eq!(resize_direction(66, 50, 0, 0, 100, 100), 17);
    assert_eq!(resize_direction(67, 50, 0, 0, 100, 100), 11);
    // An empty frame gives the right edge.
    assert_eq!(resize_direction(5, 5, 10, 10, 10, 50), 11);
    assert_eq!(resize_direction(5, 5, 10, 10, 50, 5), 11);
}

#[test]
fn resize_direction_matches_float_thirds() {
    for &(l, t, r, b) in &[(0, 0, 100, 100), (-50, 20, 250, 320), (0, 0, 3, 7), (10, 10, 1010, 775), (0, 0, 1, 1)] {
        for cx in (l - 20)..(r + 20) {
            for cy in [t - 3, t, t + (b - t) / 3, t + (b - t) / 2, b - 1, b + 2] {
                assert_eq!(
                    resize_direction(cx, cy, l, t, r, b),
                    float_direction(cx, cy, l, t, r, b),
                    "cursor ({cx},{cy}) frame ({l},{t},{r},{b})"
                );
            }
        }
    }
}

#[test]
fn keypad_grid() {
    let frame = (100, 100, 900, 700); // 800 x 600
    let screen = (1920, 1080);
    let off = (7, 0, 7, 7);
    assert_eq!(pos_by_key('7', frame, screen, off), Some((-7, 0)));
    assert_eq!(pos_by_key('8', frame, screen, off), Some((560, 0)));
    assert_eq!(pos_by_key('9', frame, screen, off), Some((1127, 0)));
    assert_eq!(pos_by_key('4', frame, screen, off), Some((-7, 240)));
    assert_eq!(pos_by_key('5', frame, screen, off), Some((560, 240)));
    assert_eq!(pos_by_key('6', frame, screen, off), Some((1127, 240)));
    assert_eq!(pos_by_key('1', frame, screen, off), Some((-7, 487)));
    assert_eq!(pos_by_key('2', frame, screen, off), Some((560, 487)));
    assert_eq!(pos_by_key('3', frame, screen, off), Some((1127, 487)));
    assert_eq!(pos_by_key('0', frame, screen, off), None);
    assert_eq!(pos_by_key('a', frame, screen, off), None);
}

#[test]
fn keypad_centre_rounds_towards_zero() {
    // A frame wider than the screen: (1000 - 1101) / 2 rounds towards zero.
    assert_eq!(pos_by_key('5', (0, 0, 1101, 501), (1000, 1000), (0, 0, 0, 0)), Some((-50, 249)));
}

#[test]
fn screen_edges() {
    let frame = (100, 50, 900, 650);
    let screen = (1920, 1080);
    let off = (7, 0, 7, 7);
    assert_eq!(edge_target(0, frame, screen, off), Some((-7, 50)));
    assert_eq!(edge_target(1, frame, screen, off), Some((1127, 50)));
    assert_eq!(edge_target(2, frame, screen, off), Some((100, 0)));
    assert_eq!(edge_target(3, frame, screen, off), Some((100, 487)));
    assert_eq!(edge_target(4, frame, screen, off), None);
}

#[test]
fn frame_insets() {
    let frame = (100, 100, 900, 700);
    assert_eq!(dwm_frame_offsets(frame, None, 8), (0, 0, 0, 0));
    assert_eq!(dwm_frame_offsets(frame, Some(frame), 8), (0, 0, 0, 0));
    assert_eq!(dwm_frame_offsets(frame, Some((107, 100, 893, 693)), 8), (7, 0, 7, 7));
    // Right and bottom reported as 0 fall back to the system border.
    assert_eq!(dwm_frame_offsets(frame, Some((107, 101, 900, 700)), 8), (7, 1, 8, 8));
    // Negative left/top insets are clamped at 0.
    assert_eq!(dwm_frame_offsets(frame, Some((95, 98, 893, 693)), 8), (0, 0, 7, 7));
}

#[test]
fn visible_rect_choice() {
    let frame = (0, 0, 10, 10);
    assert_eq!(visual_or_frame(Some((1, 1, 9, 9)), frame), (1, 1, 9, 9));
    assert_eq!(visual_or_frame(Some((1, 1, 1, 9)), frame), frame);
    assert_eq!(visual_or_frame(None, frame), frame);
}

#[test]
fn proportional_scaling() {
    let frame = (100, 100, 900, 700);
    let off = (7, 0, 7, 7);
    assert_eq!(visible_size(frame, off), Some((786, 593)));
    assert_eq!(visible_size((0, 0, 10, 10), (5, 0, 5, 0)), None);
    let wa = (0, 0, 1920, 1040);
    // 786 * 1.1 and 593 * 1.1, rounded.
    assert_eq!(scaled_frame(865, 652, wa, off), (520, 194, 1399, 853));
    // Capped at the work area: the visible part fills it exactly.
    assert_eq!(scaled_frame(5000, 5000, wa, off), (-7, 0, 1927, 1047));
}

#[test]
fn centring() {
    assert_eq!(centered_origin((0, 0, 800, 600), (0, 0, 1920, 1040)), Some((560, 220)));
    assert_eq!(centered_origin((0, 0, 3000, 600), (0, 0, 1920, 1040)), Some((0, 220)));
    assert_eq!(centered_origin((0, 0, 0, 600), (0, 0, 1920, 1040)), None);
    assert_eq!(centered_origin((0, 0, 800, 600), (1920, 0, 3840, 1040)), Some((2480, 220)));
}

#[test]
fn keypad_sides_match_edge_keys() {
    let frame = (130, 40, 930, 640);
    let screen = (2560, 1440);
    let off = (8, 1, 8, 8);
    assert_eq!(pos_by_key('4', frame, screen, off).unwrap().0, edge_target(0, frame, screen, off).unwrap().0);
    assert_eq!(pos_by_key('6', frame, screen, off).unwrap().0, edge_target(1, frame, screen, off).unwrap().0);
    assert_eq!(pos_by_key('8', frame, screen, off).unwrap().1, edge_target(2, frame, screen, off).unwrap().1);
    assert_eq!(pos_by_key('2', frame, screen, off).unwrap().1, edge_target(3, frame, screen, off).unwrap().1);
}

#[test]
fn scaling_gives_requested_visible_size() {
    let off = (7, 0, 7, 7);
    let wa = (0, 0, 1920, 1040);
    let r = scaled_frame(865, 652, wa, off);
    assert_eq!(visible_size(r, off), Some((865, 652)));
    let r = scaled_frame(3000, 300, wa, off);
    assert_eq!(visible_size(r, off), Some((1920, 300)));
}

#[test]
fn centred_window_stays_inside() {
    let wa = (1920, 0, 3840, 1040);
    let frame = (0, 0, 1919, 1039);
    let (x, y) = centered_origin(frame, wa).unwrap();
    assert!(x >= 1920 && x + 1919 <= 3840);
    assert!(y >= 0 && y + 1039 <= 1040);
}
