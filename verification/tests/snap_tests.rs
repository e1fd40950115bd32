use winsnap::snap::{
    collect_snap_candidates, is_desktop_class, refresh_candidate_visibility, snap_anchor_x,
    snap_anchor_y, snap_correction, subtract_range, ScreenEdge, SnapCandidate, SnapWin, WindowProbe,
};

fn probe(hwnd: isize, frame: (i32, i32, i32, i32), visual: (i32, i32, i32, i32), caption: bool) -> WindowProbe {
    WindowProbe {
        hwnd,
        visible: true,
        is_desktop: false,
        iconic: false,
        is_console: false,
        cloaked: false,
        frame,
        visual,
        desktop_layer: false,
        has_caption: caption,
    }
}

#[test]
fn subtract_range_cuts_intervals() {
    assert_eq!(subtract_range(vec![(0, 100)], 20, 30), vec![(0, 20), (30, 100)]);
    assert_eq!(subtract_range(vec![(0, 100)], -5, 200), Vec::<(i32, i32)>::new());
    assert_eq!(subtract_range(vec![(0, 10), (20, 30)], 5, 25), vec![(0, 5), (25, 30)]);
    assert_eq!(subtract_range(vec![(0, 10)], 10, 20), vec![(0, 10)]);
}

#[test]
fn screen_anchor_x() {
    let none: Vec<SnapCandidate> = Vec::new();
    // Visible left at 5 while moving left: the screen's left edge, 5 px away.
    assert_eq!(snap_anchor_x(-10, 5, 800, 100, 600, 1920, true, &none), Some((0, 1, 5)));
    // Visible right at 1915 while moving right: the right edge, 5 px away.
    assert_eq!(snap_anchor_x(10, 1115, 800, 100, 600, 1920, true, &none), Some((1120, 2, 5)));
    // Screen snapping off and no candidates: nothing.
    assert_eq!(snap_anchor_x(10, 1115, 800, 100, 600, 1920, false, &none), None);
}

#[test]
fn screen_anchor_y() {
    let none: Vec<SnapCandidate> = Vec::new();
    assert_eq!(snap_anchor_y(0, 3, 600, 100, 800, 1080, true, &none), Some((0, 1, 3)));
    assert_eq!(snap_anchor_y(5, 478, 600, 100, 800, 1080, true, &none), Some((480, 2, 2)));
}

#[test]
fn anchor_ignores_edges_moved_away_from() {
    let none: Vec<SnapCandidate> = Vec::new();
    // Moving right, 20 px right of the left edge: the left edge is not eligible.
    assert_eq!(snap_anchor_x(5, 20, 800, 100, 600, 1920, true, &none), Some((1120, 2, 1100)));
}

#[test]
fn hidden_candidate_edges_give_no_anchor() {
    let mut c = SnapCandidate::new(9, 0, (1000, 0, 1600, 900), (1000, 0, 1600, 900));
    let all = vec![c];
    assert_eq!(snap_anchor_x(0, 205, 800, 100, 600, 1920, false, &all), Some((1000 - 800, 2, 5)));
    c.vis_l = false;
    c.vis_r = false;
    let hidden = vec![c];
    assert_eq!(snap_anchor_x(0, 205, 800, 100, 600, 1920, false, &hidden), None);
}

#[test]
fn covered_edge_becomes_invisible() {
    // A candidate at z = 1 with a window above it covering its whole left edge.
    let cand = SnapCandidate::new(2, 1, (500, 100, 1100, 700), (500, 100, 1100, 700));
    let above = SnapWin::new(1, (400, 0, 700, 800), (400, 0, 700, 800), false);
    let me = SnapWin::new(2, (500, 100, 1100, 700), (500, 100, 1100, 700), false);
    let mut cands = vec![cand];
    refresh_candidate_visibility(&mut cands, &[above, me]);
    assert!(!cands[0].vis_l);
    assert!(cands[0].vis_r);
    // Top edge: 200 of 600 px covered, 400 visible (at least a third).
    assert!(cands[0].vis_t);
    assert!(cands[0].vis_b);
}

#[test]
fn desktop_layer_hides_nothing() {
    let cand = SnapCandidate::new(2, 1, (500, 100, 1100, 700), (500, 100, 1100, 700));
    let wall = SnapWin::new(1, (0, 0, 1920, 1080), (0, 0, 1920, 1080), true);
    let mut cands = vec![cand];
    refresh_candidate_visibility(&mut cands, &[wall]);
    assert!(cands[0].vis_l && cands[0].vis_t && cands[0].vis_r && cands[0].vis_b);
}

#[test]
fn correction_snaps_near_edges() {
    let frame = (3, 100, 803, 700);
    let visual = (10, 100, 796, 693);
    // Visible left at 10: too far.
    assert_eq!(snap_correction(frame, visual, (1920, 1080), true), None);
    let frame = (-2, 100, 798, 700);
    let visual = (5, 100, 791, 693);
    assert_eq!(snap_correction(frame, visual, (1920, 1080), true), Some((ScreenEdge::Left, (-7, 100))));
    assert_eq!(snap_correction(frame, visual, (1920, 1080), false), None);
    // Visible right at 1915.
    let frame = (1122, 100, 1922, 700);
    let visual = (1129, 100, 1915, 693);
    assert_eq!(snap_correction(frame, visual, (1920, 1080), true), Some((ScreenEdge::Right, (1127, 100))));
    // Visible top at -4.
    let frame = (300, -4, 1100, 596);
    let visual = (307, -4, 1093, 589);
    assert_eq!(snap_correction(frame, visual, (1920, 1080), true), Some((ScreenEdge::Top, (300, 0))));
    // Visible bottom at 1084.
    let frame = (300, 491, 1100, 1091);
    let visual = (307, 491, 1093, 1084);
    assert_eq!(snap_correction(frame, visual, (1920, 1080), true), Some((ScreenEdge::Bottom, (300, 487))));
}

#[test]
fn collecting_candidates() {
    let mut hidden = probe(5, (0, 0, 100, 100), (0, 0, 100, 100), true);
    hidden.visible = false;
    let mut minimised = probe(6, (0, 0, 100, 100), (0, 0, 100, 100), true);
    minimised.iconic = true;
    let tool = probe(7, (10, 10, 200, 200), (10, 10, 200, 200), false);
    let dragged = probe(8, (300, 300, 900, 800), (307, 300, 893, 793), true);
    let empty = probe(9, (0, 0, 0, 100), (0, 0, 0, 100), true);
    let other = probe(10, (1000, 0, 1600, 900), (1007, 0, 1593, 893), true);
    let mut wall = probe(11, (0, 0, 1920, 1080), (0, 0, 1920, 1080), false);
    wall.desktop_layer = true;
    let probes = vec![hidden, minimised, tool, dragged, empty, other, wall];
    let (cands, wins) = collect_snap_candidates(&probes, 8);
    let hw: Vec<isize> = wins.iter().map(|w| w.hwnd).collect();
    assert_eq!(hw, vec![7, 8, 10, 11]);
    assert!(wins[3].desktop);
    assert_eq!(cands.len(), 1);
    assert_eq!(cands[0].hwnd, 10);
    assert_eq!(cands[0].z, 2);
    assert_eq!(cands[0].visual_rect(), (1007, 0, 1593, 893));
}

#[test]
fn desktop_classes() {
    assert!(is_desktop_class("Progman"));
    assert!(is_desktop_class("WorkerW"));
    assert!(!is_desktop_class("progman"));
    assert!(!is_desktop_class("Notepad"));
}
