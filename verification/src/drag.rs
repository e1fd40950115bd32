//! The Alt+mouse drag: Alt+left drag moves a window (snapping its visible
//! edges to anchors), Alt+right drag resizes it from the handle under the
//! cursor. The state lives in `DragState`; each poll of the mouse is one or
//! more of the steps below, and the caller performs the window moves and
//! reads the cursor and window rectangles in between.

use vstd::prelude::*;
use crate::geometry::{fits_i32, resize_code, resize_direction, Rect};
use crate::snap::{
    abs_int, anchor_checks_x, anchor_checks_y, anchor_fold, anchor_fold_fits, anchor_result,
    candidates_fit, lemma_snap_x_nearest, lemma_snap_y_nearest,
    no_anchor, snap_anchor_x, snap_anchor_y, SnapCandidate, SNAP_ESCAPE, SNAP_THRESHOLD,
};

verus! {

/// Drag mode values.
pub const MODE_IDLE: u32 = 0;
pub const MODE_MOVE: u32 = 1;
pub const MODE_RESIZE: u32 = 2;

/// Smallest size a resize drag leaves a window with.
pub const MIN_W: i32 = 100;
pub const MIN_H: i32 = 100;

/// What a press asks to start.
#[derive(Clone, Copy, Debug, PartialEq, Eq, Structural)]
pub enum DragKind {
    Move,
    Resize,
}

/// State of the Alt+mouse drag.
#[derive(Clone, Copy)]
pub struct DragState {
    /// 0 idle, 1 moving, 2 resizing.
    pub mode: u32,
    /// Window being dragged (0 for none).
    pub hwnd: isize,
    /// Cursor position when the drag started.
    pub start_mx: i32,
    pub start_my: i32,
    /// Frame rectangle of the window when the drag started.
    pub win: Rect,
    /// Resize handle (hit-test code 10..=17).
    pub ht: u32,
    /// Consecutive polls that saw the left button up during a move.
    pub left_up_count: u32,
    /// Horizontal snap: 0 free, 1 left edge snapped, 2 right edge snapped.
    pub snap_h: i32,
    /// Vertical snap: 0 free, 1 top edge snapped, 2 bottom edge snapped.
    pub snap_v: i32,
    /// Visible rectangle of the moved window relative to its frame: offset
    /// of the visible left/top edge from the frame's, and visible size.
    pub vis_off_l: i32,
    pub vis_off_t: i32,
    pub vis_w: i32,
    pub vis_h: i32,
}

impl DragState {
    /// The mode and the snap states take only their defined values.
    pub open spec fn wf(&self) -> bool {
        &&& self.mode <= 2
        &&& 0 <= self.snap_h <= 2
        &&& 0 <= self.snap_v <= 2
    }

    /// Idle, with everything zero.
    pub fn new() -> (s: Self)
        ensures
            s.wf(),
            s.mode == MODE_IDLE,
            s.hwnd == 0,
            s.snap_h == 0 && s.snap_v == 0,
            s.left_up_count == 0,
    {
        DragState {
            mode: 0,
            hwnd: 0,
            start_mx: 0,
            start_my: 0,
            win: (0, 0, 0, 0),
            ht: 0,
            left_up_count: 0,
            snap_h: 0,
            snap_v: 0,
            vis_off_l: 0,
            vis_off_t: 0,
            vis_w: 0,
            vis_h: 0,
        }
    }

    /// Starts moving the window `hwnd`: records the cursor, the frame
    /// `frame` and the visible rectangle `visual` (as offsets and size),
    /// clears the release count and both snaps.
    pub fn begin_move(&mut self, hwnd: isize, cursor: (i32, i32), frame: Rect, visual: Rect)
        requires
            fits_i32(visual.0 - frame.0),
            fits_i32(visual.1 - frame.1),
            fits_i32(visual.2 - visual.0),
            fits_i32(visual.3 - visual.1),
        ensures
            final(self).wf(),
            final(self).mode == MODE_MOVE,
            final(self).hwnd == hwnd,
            final(self).start_mx == cursor.0 && final(self).start_my == cursor.1,
            final(self).win == frame,
            final(self).ht == old(self).ht,
            final(self).left_up_count == 0,
            final(self).snap_h == 0 && final(self).snap_v == 0,
            final(self).vis_off_l == visual.0 - frame.0,
            final(self).vis_off_t == visual.1 - frame.1,
            final(self).vis_w == visual.2 - visual.0,
            final(self).vis_h == visual.3 - visual.1,
    {
        self.hwnd = hwnd;
        self.start_mx = cursor.0;
        self.start_my = cursor.1;
        self.win = frame;
        self.mode = MODE_MOVE;
        self.left_up_count = 0;
        self.snap_h = 0;
        self.snap_v = 0;
        self.vis_off_l = visual.0 - frame.0;
        self.vis_off_t = visual.1 - frame.1;
        self.vis_w = visual.2 - visual.0;
        self.vis_h = visual.3 - visual.1;
    }

    /// Starts resizing the window `hwnd` from the handle under the cursor;
    /// the release count, the snaps and the visible rectangle are kept.
    pub fn begin_resize(&mut self, hwnd: isize, cursor: (i32, i32), frame: Rect)
        requires
            old(self).wf(),
            fits_i32(frame.2 - frame.0),
            fits_i32(frame.3 - frame.1),
            frame.2 - frame.0 > 0 && frame.3 - frame.1 > 0 ==> fits_i32(cursor.0 - frame.0) && fits_i32(cursor.1 - frame.1),
        ensures
            final(self).wf(),
            final(self).mode == MODE_RESIZE,
            final(self).hwnd == hwnd,
            final(self).start_mx == cursor.0 && final(self).start_my == cursor.1,
            final(self).win == frame,
            final(self).ht == resize_code(cursor.0 as int, cursor.1 as int, frame.0 as int, frame.1 as int, frame.2 as int, frame.3 as int),
            final(self).left_up_count == old(self).left_up_count,
            final(self).snap_h == old(self).snap_h && final(self).snap_v == old(self).snap_v,
            final(self).vis_off_l == old(self).vis_off_l && final(self).vis_off_t == old(self).vis_off_t,
            final(self).vis_w == old(self).vis_w && final(self).vis_h == old(self).vis_h,
    {
        let ht = resize_direction(cursor.0, cursor.1, frame.0, frame.1, frame.2, frame.3);
        self.hwnd = hwnd;
        self.start_mx = cursor.0;
        self.start_my = cursor.1;
        self.win = frame;
        self.ht = ht;
        self.mode = MODE_RESIZE;
    }

    /// How far the cursor has moved since the drag started.
    pub fn drag_offset(&self, cursor: (i32, i32)) -> (r: (i32, i32))
        requires
            fits_i32(cursor.0 - self.start_mx),
            fits_i32(cursor.1 - self.start_my),
        ensures
            r.0 == cursor.0 - self.start_mx,
            r.1 == cursor.1 - self.start_my,
    {
        (cursor.0 - self.start_mx, cursor.1 - self.start_my)
    }
}

/// A drag to start from a click that the low-level mouse hook reported
/// (`req` 1 left, 2 right) while Alt is held.
pub open spec fn hook_start_spec(req: u32, alt: bool) -> Option<DragKind> {
    if req == 1 && alt {
        Some(DragKind::Move)
    } else if req == 2 && alt {
        Some(DragKind::Resize)
    } else {
        None
    }
}

/// A drag to start from the polled button states: Alt with only the left
/// button moves, Alt with only the right button resizes.
pub open spec fn poll_start_spec(alt: bool, left: bool, right: bool) -> Option<DragKind> {
    if alt && left && !right {
        Some(DragKind::Move)
    } else if alt && right && !left {
        Some(DragKind::Resize)
    } else {
        None
    }
}

/// The drag that the hook's click request `req` (1 left, 2 right, 0 none)
/// starts, given whether Alt is held.
pub fn hook_start(req: u32, alt: bool) -> (r: Option<DragKind>)
    ensures
        r == hook_start_spec(req, alt),
{
    if req == 1 && alt {
        Some(DragKind::Move)
    } else if req == 2 && alt {
        Some(DragKind::Resize)
    } else {
        None
    }
}

/// The drag that the polled state of Alt and the two buttons starts.
pub fn poll_start(alt: bool, left: bool, right: bool) -> (r: Option<DragKind>)
    ensures
        r == poll_start_spec(alt, left, right),
{
    if alt && left && !right {
        Some(DragKind::Move)
    } else if alt && right && !left {
        Some(DragKind::Resize)
    } else {
        None
    }
}

/// How a poll during a drag ends up.
#[derive(Clone, Copy, Debug, PartialEq, Eq, Structural)]
pub enum PollEnd {
    /// The window handle was lost: the drag is dropped.
    Lost,
    /// The drag ended; `was_move` when it was a move (whose release gets the
    /// end-of-drag snap correction).
    Ended { was_move: bool },
    /// The drag goes on.
    Continue,
}

/// Whether the buttons, taken at face value, end a drag in `mode`: releasing
/// Alt ends any drag, releasing the left button ends a move, releasing the
/// right button ends a resize.
pub open spec fn release_seen(mode: u32, alt: bool, left: bool, right: bool) -> bool {
    if !alt {
        true
    } else if mode == 1 {
        !left
    } else if mode == 2 {
        !right
    } else {
        true
    }
}

/// Outcome and next state of one poll during a drag. A move is only ended by
/// the left button when it has been seen up on three polls in a row while
/// Alt stays held (a shorter gap is hook jitter); seeing it down clears the
/// count. An ended or lost drag goes idle.
pub open spec fn poll_end_spec(s: DragState, alt: bool, left: bool, right: bool) -> (PollEnd, DragState) {
    if s.hwnd == 0 {
        (PollEnd::Lost, DragState { mode: 0, ..s })
    } else {
        let seen = release_seen(s.mode, alt, left, right);
        let (end, count) = if s.mode == 1 && seen && !alt {
            (true, s.left_up_count)
        } else if s.mode == 1 && seen && alt {
            if s.left_up_count < 2 {
                (false, ((s.left_up_count + 1) % 0x1_0000_0000) as u32)
            } else {
                (true, 0u32)
            }
        } else if s.mode == 1 {
            (seen, 0u32)
        } else {
            (seen, s.left_up_count)
        };
        if end {
            (PollEnd::Ended { was_move: s.mode == 1 }, DragState { mode: 0, hwnd: 0, left_up_count: count, ..s })
        } else {
            (PollEnd::Continue, DragState { left_up_count: count, ..s })
        }
    }
}

impl DragState {
    /// Decides whether the drag goes on, given Alt and the two buttons (see
    /// `poll_end_spec`).
    pub fn poll_end(&mut self, alt: bool, left: bool, right: bool) -> (r: PollEnd)
        requires
            old(self).wf(),
        ensures
            (r, *final(self)) == poll_end_spec(*old(self), alt, left, right),
            final(self).wf(),
    {
        if self.hwnd == 0 {
            self.mode = MODE_IDLE;
            return PollEnd::Lost;
        }
        let mode = self.mode;
        let mut should_end = if !alt {
            true
        } else if mode == 1 {
            !left
        } else if mode == 2 {
            !right
        } else {
            true
        };
        if mode == 1 && should_end && !alt {
        } else if mode == 1 && should_end && alt {
            let count = self.left_up_count;
            self.left_up_count = count.wrapping_add(1);
            if count < 2 {
                should_end = false;
            } else {
                self.left_up_count = 0;
            }
        } else if mode == 1 {
            self.left_up_count = 0;
        }
        if should_end {
            self.mode = MODE_IDLE;
            self.hwnd = 0;
            PollEnd::Ended { was_move: mode == 1 }
        } else {
            PollEnd::Continue
        }
    }
}

// ── Laws of ending a drag ──

/// Law: while Alt is held, a move drag survives the left button being seen
/// up on two polls in a row and ends on the third; the window is released
/// and the drag goes idle.
pub proof fn lemma_release_debounce(s: DragState, right: bool)
    requires
        s.wf(),
        s.mode == MODE_MOVE,
        s.hwnd != 0,
        s.left_up_count == 0,
    ensures
        ({
            let (e1, s1) = poll_end_spec(s, true, false, right);
            let (e2, s2) = poll_end_spec(s1, true, false, right);
            let (e3, s3) = poll_end_spec(s2, true, false, right);
            &&& e1 == PollEnd::Continue && e2 == PollEnd::Continue
            &&& e3 == (PollEnd::Ended { was_move: true })
            &&& s3.mode == MODE_IDLE && s3.hwnd == 0 && s3.left_up_count == 0
        }),
{
}

/// Law: seeing the left button down again during a move clears the count
/// of releases, so jitter never accumulates across presses.
pub proof fn lemma_press_resets_release_count(s: DragState, right: bool)
    requires
        s.wf(),
        s.mode == MODE_MOVE,
        s.hwnd != 0,
    ensures
        poll_end_spec(s, true, true, right) == (PollEnd::Continue, DragState { left_up_count: 0, ..s }),
{
}

/// Law: letting go of Alt ends any drag at once.
pub proof fn lemma_alt_release_ends(s: DragState, left: bool, right: bool)
    requires
        s.wf(),
        s.mode != MODE_IDLE,
        s.hwnd != 0,
    ensures
        poll_end_spec(s, false, left, right).0 == (PollEnd::Ended { was_move: s.mode == MODE_MOVE }),
        poll_end_spec(s, false, left, right).1.mode == MODE_IDLE,
{
}

/// Whether the cursor has moved far enough (2 pixels on some axis) for the
/// window to follow.
pub fn moved_enough(dx: i32, dy: i32) -> (r: bool)
    requires
        dx != i32::MIN,
        -2 < dx < 2 ==> dy != i32::MIN,
    ensures
        r == !(abs_int(dx as int) < 2 && abs_int(dy as int) < 2),
{
    let ax = if dx < 0 { -dx } else { dx };
    if ax < 2 {
        let ay = if dy < 0 { -dy } else { dy };
        !(ay < 2)
    } else {
        true
    }
}

// ── Moving with snapping ──

/// One axis of snapping. A free edge (`snapped == 0`) snaps when the
/// nearest anchor `ans` is within the threshold; a snapped edge follows the
/// nearest anchor and lets go beyond the escape distance or when there is
/// none. Gives the new near-edge position and snap state.
pub open spec fn axis_snap(snapped: int, ans: Option<(int, int, int)>, v: int) -> (int, int) {
    match ans {
        Some((t, dir, dist)) => {
            if snapped == 0 {
                if dist <= SNAP_THRESHOLD {
                    (t, dir)
                } else {
                    (v, 0)
                }
            } else if dist > SNAP_ESCAPE {
                (v, 0)
            } else {
                (t, dir)
            }
        },
        None => (v, 0),
    }
}

/// The horizontal anchor answer for the window moved by `dx`: searched
/// with the drag offset while free, at rest while snapped.
pub open spec fn x_answer(s: DragState, dx: int, dy: int, sw: int, on: bool, cands: Seq<SnapCandidate>) -> Option<(int, int, int)> {
    let vx0 = s.win.0 + dx + s.vis_off_l;
    let vy0 = s.win.1 + dy + s.vis_off_t;
    anchor_result(anchor_fold(
        no_anchor(),
        anchor_checks_x(vx0, s.vis_w as int, vy0, s.vis_h as int, sw, on, cands),
        if s.snap_h == 0 { dx } else { 0 },
    ))
}

/// New visible left edge and horizontal snap state.
pub open spec fn x_outcome(s: DragState, dx: int, dy: int, sw: int, on: bool, cands: Seq<SnapCandidate>) -> (int, int) {
    axis_snap(s.snap_h as int, x_answer(s, dx, dy, sw, on, cands), s.win.0 + dx + s.vis_off_l)
}

/// The vertical anchor answer, for the window whose visible left edge is
/// already at `vx`.
pub open spec fn y_answer(s: DragState, dy: int, vx: int, sh: int, on: bool, cands: Seq<SnapCandidate>) -> Option<(int, int, int)> {
    let vy0 = s.win.1 + dy + s.vis_off_t;
    anchor_result(anchor_fold(
        no_anchor(),
        anchor_checks_y(vy0, s.vis_h as int, vx, s.vis_w as int, sh, on, cands),
        if s.snap_v == 0 { dy } else { 0 },
    ))
}

/// New frame position and snap states for a move by `(dx, dy)` on an
/// `sw x sh` screen: horizontal snapping first, vertical snapping against
/// the window as placed horizontally.
pub open spec fn move_spec(s: DragState, dx: int, dy: int, sw: int, sh: int, on: bool, cands: Seq<SnapCandidate>) -> (int, int, int, int) {
    let (vx, snap_h) = x_outcome(s, dx, dy, sw, on, cands);
    let (vy, snap_v) = axis_snap(s.snap_v as int, y_answer(s, dy, vx, sh, on, cands), s.win.1 + dy + s.vis_off_t);
    (vx - s.vis_off_l, vy - s.vis_off_t, snap_h, snap_v)
}

/// The arithmetic of a move step stays within `i32`.
pub open spec fn move_fits(s: DragState, dx: int, dy: int, sw: int, sh: int, on: bool, cands: Seq<SnapCandidate>) -> bool {
    let nx0 = s.win.0 + dx;
    let ny0 = s.win.1 + dy;
    let vx0 = nx0 + s.vis_off_l;
    let vy0 = ny0 + s.vis_off_t;
    let (vx, _h) = x_outcome(s, dx, dy, sw, on, cands);
    let (vy, _v) = axis_snap(s.snap_v as int, y_answer(s, dy, vx, sh, on, cands), vy0);
    &&& fits_i32(nx0) && fits_i32(ny0) && fits_i32(vx0) && fits_i32(vy0)
    &&& fits_i32(vx0 + s.vis_w) && fits_i32(vy0 + s.vis_h)
    &&& candidates_fit(cands)
    &&& anchor_fold_fits(
        no_anchor(),
        anchor_checks_x(vx0, s.vis_w as int, vy0, s.vis_h as int, sw, on, cands),
        if s.snap_h == 0 { dx } else { 0 },
    )
    &&& fits_i32(vx) && fits_i32(vx - s.vis_off_l) && fits_i32(vx + s.vis_w)
    &&& anchor_fold_fits(
        no_anchor(),
        anchor_checks_y(vy0, s.vis_h as int, vx, s.vis_w as int, sh, on, cands),
        if s.snap_v == 0 { dy } else { 0 },
    )
    &&& fits_i32(vy) && fits_i32(vy - s.vis_off_t)
}

/// Law: a move step snaps a free axis to the nearest anchor within
/// `SNAP_THRESHOLD`, keeps a snapped axis on the nearest anchor (searched at
/// rest) as long as it is within `SNAP_ESCAPE`, and otherwise lets the axis
/// follow the cursor, free. Horizontally: the new frame left is the anchor's
/// visible left less the left inset, and the snap state is the anchor's
/// direction; vertically the same, searched against the window as placed
/// horizontally.
pub proof fn lemma_move_snaps_and_lets_go(s: DragState, dx: int, dy: int, sw: int, sh: int, on: bool, cands: Seq<SnapCandidate>)
    ensures
        ({
            let m = move_spec(s, dx, dy, sw, sh, on, cands);
            let limit_h = if s.snap_h == 0 { SNAP_THRESHOLD as int } else { SNAP_ESCAPE as int };
            match x_answer(s, dx, dy, sw, on, cands) {
                Some((t, dir, dist)) => if dist <= limit_h {
                    m.0 == t - s.vis_off_l && m.2 == dir
                } else {
                    m.0 == s.win.0 + dx && m.2 == 0
                },
                None => m.0 == s.win.0 + dx && m.2 == 0,
            }
        }),
        ({
            let m = move_spec(s, dx, dy, sw, sh, on, cands);
            let limit_v = if s.snap_v == 0 { SNAP_THRESHOLD as int } else { SNAP_ESCAPE as int };
            match y_answer(s, dy, m.0 + s.vis_off_l, sh, on, cands) {
                Some((t, dir, dist)) => if dist <= limit_v {
                    m.1 == t - s.vis_off_t && m.3 == dir
                } else {
                    m.1 == s.win.1 + dy && m.3 == 0
                },
                None => m.1 == s.win.1 + dy && m.3 == 0,
            }
        }),
{
}

proof fn lemma_axis_snap(snapped: int, ans: Option<(int, int, int)>, v: int)
    requires
        ans matches Some((t, dir, dist)) ==> dist == abs_int(v - t) && (dir == 1 || dir == 2),
    ensures
        0 <= axis_snap(snapped, ans, v).1 <= 2,
        axis_snap(snapped, ans, v).1 == 0 ==> axis_snap(snapped, ans, v).0 == v,
        abs_int(axis_snap(snapped, ans, v).0 - v) <= SNAP_ESCAPE,
        snapped == 0 ==> abs_int(axis_snap(snapped, ans, v).0 - v) <= SNAP_THRESHOLD,
{
}

impl DragState {
    /// One step of a move drag by `(dx, dy)` on a screen of `screen`, with
    /// screen snapping `screen_on` and the window-snap candidates `cands`:
    /// returns the frame position to move the window to and updates both
    /// snap states (see `move_spec`). A free axis follows the cursor
    /// exactly; a snapped axis stays within `SNAP_ESCAPE` of it, and a newly
    /// snapped one within `SNAP_THRESHOLD`.
    pub fn move_step(&mut self, dx: i32, dy: i32, screen: (i32, i32), screen_on: bool, cands: &[SnapCandidate]) -> (r: (i32, i32))
        requires
            old(self).wf(),
            move_fits(*old(self), dx as int, dy as int, screen.0 as int, screen.1 as int, screen_on, cands@),
        ensures
            final(self).wf(),
            (r.0 as int, r.1 as int, final(self).snap_h as int, final(self).snap_v as int)
                == move_spec(*old(self), dx as int, dy as int, screen.0 as int, screen.1 as int, screen_on, cands@),
            *final(self) == (DragState { snap_h: final(self).snap_h, snap_v: final(self).snap_v, ..*old(self) }),
            final(self).snap_h == 0 ==> r.0 == old(self).win.0 + dx,
            final(self).snap_v == 0 ==> r.1 == old(self).win.1 + dy,
            abs_int(r.0 - (old(self).win.0 + dx)) <= SNAP_ESCAPE,
            abs_int(r.1 - (old(self).win.1 + dy)) <= SNAP_ESCAPE,
            old(self).snap_h == 0 ==> abs_int(r.0 - (old(self).win.0 + dx)) <= SNAP_THRESHOLD,
            old(self).snap_v == 0 ==> abs_int(r.1 - (old(self).win.1 + dy)) <= SNAP_THRESHOLD,
    {
        let ghost s0 = *self;
        let mut nx = self.win.0 + dx;
        let mut ny = self.win.1 + dy;
        let off_l = self.vis_off_l;
        let off_t = self.vis_off_t;
        let vw = self.vis_w;
        let vh = self.vis_h;
        let mut vx = nx + off_l;
        let mut vy = ny + off_t;
        let ghost vx0 = vx as int;
        let ghost vy0 = vy as int;
        let ghost xd: int = if s0.snap_h == 0 { dx as int } else { 0 };
        proof {
            lemma_snap_x_nearest(xd, vx0, vw as int, vy0, vh as int, screen.0 as int, screen_on, cands@);
            lemma_axis_snap(s0.snap_h as int, x_answer(s0, dx as int, dy as int, screen.0 as int, screen_on, cands@), vx0);
        }
        let sh = self.snap_h;
        if sh == 0 {
            let a = snap_anchor_x(dx, vx, vw, vy, vh, screen.0, screen_on, cands);
            if let Some((target_vx, dir, dist)) = a {
                if dist <= SNAP_THRESHOLD {
                    vx = target_vx;
                    nx = vx - off_l;
                    self.snap_h = dir;
                }
            }
        } else {
            let a = snap_anchor_x(0, vx, vw, vy, vh, screen.0, screen_on, cands);
            match a {
                Some((target_vx, dir, dist)) => {
                    if dist > SNAP_ESCAPE {
                        self.snap_h = 0;
                    } else {
                        vx = target_vx;
                        nx = vx - off_l;
                        if dir != sh {
                            self.snap_h = dir;
                        }
                    }
                },
                None => {
                    self.snap_h = 0;
                },
            }
        }
        assert((vx as int, self.snap_h as int) == x_outcome(s0, dx as int, dy as int, screen.0 as int, screen_on, cands@));
        let ghost yd: int = if s0.snap_v == 0 { dy as int } else { 0 };
        proof {
            lemma_snap_y_nearest(yd, vy0, vh as int, vx as int, vw as int, screen.1 as int, screen_on, cands@);
            lemma_axis_snap(s0.snap_v as int, y_answer(s0, dy as int, vx as int, screen.1 as int, screen_on, cands@), vy0);
        }
        let sv = self.snap_v;
        if sv == 0 {
            let a = snap_anchor_y(dy, vy, vh, vx, vw, screen.1, screen_on, cands);
            if let Some((target_vy, dir, dist)) = a {
                if dist <= SNAP_THRESHOLD {
                    vy = target_vy;
                    ny = vy - off_t;
                    self.snap_v = dir;
                }
            }
        } else {
            let a = snap_anchor_y(0, vy, vh, vx, vw, screen.1, screen_on, cands);
            match a {
                Some((target_vy, dir, dist)) => {
                    if dist > SNAP_ESCAPE {
                        self.snap_v = 0;
                    } else {
                        vy = target_vy;
                        ny = vy - off_t;
                        if dir != sv {
                            self.snap_v = dir;
                        }
                    }
                },
                None => {
                    self.snap_v = 0;
                },
            }
        }
        (nx, ny)
    }
}

// ── Resizing ──

/// Frame edges after the edges named by handle `ht` followed the cursor by
/// `(dx, dy)`, before the minimum size is enforced.
pub open spec fn resize_follow(f: Rect, ht: u32, dx: int, dy: int) -> (int, int, int, int) {
    let moves_l = ht == 10 || ht == 13 || ht == 16;
    let moves_r = ht == 11 || ht == 14 || ht == 17;
    let moves_t = ht == 12 || ht == 13 || ht == 14;
    let moves_b = ht == 15 || ht == 16 || ht == 17;
    (
        if moves_l { f.0 + dx } else { f.0 as int },
        if moves_t { f.1 + dy } else { f.1 as int },
        if moves_r { f.2 + dx } else { f.2 as int },
        if moves_b { f.3 + dy } else { f.3 as int },
    )
}

/// New frame `(left, top, right, bottom)` for a resize by `(dx, dy)` from
/// handle `ht` of the frame `f`: the edges named by the handle follow the
/// cursor, then the right and bottom edges are pushed out so that the
/// window keeps at least `MIN_W x MIN_H`.
pub open spec fn resize_spec(f: Rect, ht: u32, dx: int, dy: int) -> (int, int, int, int) {
    let (nl, nt, nr, nb) = resize_follow(f, ht, dx, dy);
    (nl, nt, if nr - nl < MIN_W { nl + MIN_W } else { nr }, if nb - nt < MIN_H { nt + MIN_H } else { nb })
}

pub open spec fn resize_fits(f: Rect, ht: u32, dx: int, dy: int) -> bool {
    let p = resize_follow(f, ht, dx, dy);
    let r = resize_spec(f, ht, dx, dy);
    &&& fits_i32(p.0) && fits_i32(p.1) && fits_i32(p.2) && fits_i32(p.3)
    &&& fits_i32(p.2 - p.0) && fits_i32(p.3 - p.1)
    &&& (p.2 - p.0 < MIN_W ==> fits_i32(p.0 + MIN_W))
    &&& (p.3 - p.1 < MIN_H ==> fits_i32(p.1 + MIN_H))
    &&& fits_i32(r.2 - r.0) && fits_i32(r.3 - r.1)
}

/// Law: a resize moves exactly the edges of the handle it started from. With
/// the frame `f = (l, t, r, b)` and the result `(left, top, right, bottom)`:
/// a handle on the left side (10, 13, 16) puts the left edge at `l + dx`, one
/// on the right side (11, 14, 17) puts the right edge at `r + dx`, and the
/// other handles leave the left edge at `l`; likewise the top handles (12,
/// 13, 14) put the top edge at `t + dy`, the bottom ones (15, 16, 17) the
/// bottom edge at `b + dy`, and the others leave the top at `t`. An edge that
/// the handle does not move stays where it was, unless the window would be
/// narrower than `MIN_W` (lower than `MIN_H`): then the right (bottom) edge
/// is pushed out to exactly that size.
pub proof fn lemma_resize_moves_handle_edges(f: Rect, ht: u32, dx: int, dy: int)
    ensures
        ({
            let (l, t, r, b) = (f.0 as int, f.1 as int, f.2 as int, f.3 as int);
            let n = resize_spec(f, ht, dx, dy);
            let left = ht == 10 || ht == 13 || ht == 16;
            let right = ht == 11 || ht == 14 || ht == 17;
            let top = ht == 12 || ht == 13 || ht == 14;
            let bottom = ht == 15 || ht == 16 || ht == 17;
            &&& n.0 == (if left { l + dx } else { l })
            &&& n.1 == (if top { t + dy } else { t })
            &&& n.2 - n.0 >= MIN_W
            &&& n.3 - n.1 >= MIN_H
            &&& right && r + dx - n.0 >= MIN_W ==> n.2 == r + dx
            &&& !right && r - n.0 >= MIN_W ==> n.2 == r
            &&& bottom && b + dy - n.1 >= MIN_H ==> n.3 == b + dy
            &&& !bottom && b - n.1 >= MIN_H ==> n.3 == b
            &&& n.2 - n.0 > MIN_W ==> n.2 == (if right { r + dx } else { r })
            &&& n.3 - n.1 > MIN_H ==> n.3 == (if bottom { b + dy } else { b })
        }),
{
}

impl DragState {
    /// Position and size `(x, y, w, h)` for one step of a resize drag by
    /// `(dx, dy)` from the recorded frame and handle (see `resize_spec`).
    /// The result is never smaller than `MIN_W x MIN_H`.
    pub fn resize_step(&self, dx: i32, dy: i32) -> (r: (i32, i32, i32, i32))
        requires
            resize_fits(self.win, self.ht, dx as int, dy as int),
        ensures
            ({
                let n = resize_spec(self.win, self.ht, dx as int, dy as int);
                r.0 == n.0 && r.1 == n.1 && r.2 == n.2 - n.0 && r.3 == n.3 - n.1
            }),
            r.2 >= MIN_W,
            r.3 >= MIN_H,
    {
        let (l, t, r, b) = self.win;
        let ht = self.ht;
        let (mut nl, mut nt, mut nr, mut nb) = (l, t, r, b);
        if ht == 10 {
            nl = l + dx;
        } else if ht == 11 {
            nr = r + dx;
        } else if ht == 12 {
            nt = t + dy;
        } else if ht == 13 {
            nl = l + dx;
            nt = t + dy;
        } else if ht == 14 {
            nr = r + dx;
            nt = t + dy;
        } else if ht == 15 {
            nb = b + dy;
        } else if ht == 16 {
            nl = l + dx;
            nb = b + dy;
        } else if ht == 17 {
            nr = r + dx;
            nb = b + dy;
        }
        if nr - nl < MIN_W {
            nr = nl + MIN_W;
        }
        if nb - nt < MIN_H {
            nb = nt + MIN_H;
        }
        (nl, nt, nr - nl, nb - nt)
    }
}

} // verus!
