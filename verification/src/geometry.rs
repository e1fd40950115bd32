//! Rectangle arithmetic for placing windows: resize handles, the numeric
//! keypad grid, screen-edge targets, invisible DWM borders, proportional
//! scaling inside the work area and centring.
//!
//! A window has a frame rectangle (what the window manager positions) and a
//! visible rectangle (what DWM draws, without the invisible resize border).
//! The insets `(lo, to, ro, bo)` are the distances from each frame edge in to
//! the visible edge.

use vstd::prelude::*;

verus! {

pub open spec fn fits_i32(x: int) -> bool {
    i32::MIN <= x <= i32::MAX
}

/// A rectangle `(left, top, right, bottom)`.
pub type Rect = (i32, i32, i32, i32);

/// Integer division rounding towards zero, as Rust's `/` does.
pub open spec fn tdiv(a: int, b: int) -> int {
    if a >= 0 {
        a / b
    } else {
        -((-a) / b)
    }
}

/// Remainder of `tdiv`, with the sign of `a`, as Rust's `%` does.
pub open spec fn trem(a: int, b: int) -> int {
    a - b * tdiv(a, b)
}

pub open spec fn max_int(a: int, b: int) -> int {
    if a >= b {
        a
    } else {
        b
    }
}

pub open spec fn min_int(a: int, b: int) -> int {
    if a <= b {
        a
    } else {
        b
    }
}

// ── Resize handle under the cursor ──

/// Which third of a side of length `len` the offset `a` falls in: -1 when
/// `a / len < 0.33`, 1 when `a / len > 1 - 0.33`, 0 otherwise.
///
/// Both comparisons are decided exactly in integers. Taken in double
/// precision they fall the same way for every `i32` input: `a / len` is at
/// least `1 / (100 len)` away from 0.33 and from 0.67 unless equal to one of
/// them, far more than the rounding of either side, and the double nearest
/// 0.67 lies above `1 - 0.33` as computed in doubles.
pub open spec fn third_of(a: int, len: int) -> int {
    if 100 * a < 33 * len {
        -1
    } else if 100 * a >= 67 * len {
        1
    } else {
        0
    }
}

/// Hit-test code of the resize handle at horizontal third `h` and vertical
/// third `v`: 10 left, 11 right, 12 top, 13 top-left, 14 top-right,
/// 15 bottom, 16 bottom-left, 17 bottom-right (also the middle).
pub open spec fn handle_code(h: int, v: int) -> u32 {
    if h == -1 && v == -1 {
        13
    } else if h == 0 && v == -1 {
        12
    } else if h == 1 && v == -1 {
        14
    } else if h == -1 && v == 0 {
        10
    } else if h == 1 && v == 0 {
        11
    } else if h == -1 && v == 1 {
        16
    } else if h == 0 && v == 1 {
        15
    } else {
        17
    }
}

/// Resize handle for the cursor `(cx, cy)` over the frame `(l, t, r, b)`;
/// an empty frame gives the right edge.
pub open spec fn resize_code(cx: int, cy: int, l: int, t: int, r: int, b: int) -> u32 {
    let w = r - l;
    let h = b - t;
    if w <= 0 || h <= 0 {
        11
    } else {
        handle_code(third_of(cx - l, w), third_of(cy - t, h))
    }
}

fn third(a: i32, len: i32) -> (r: i32)
    requires
        len > 0,
    ensures
        r == third_of(a as int, len as int),
{
    let a100 = (a as i64) * 100;
    if a100 < (len as i64) * 33 {
        -1
    } else if a100 >= (len as i64) * 67 {
        1
    } else {
        0
    }
}

/// The resize direction (a hit-test code 10..=17) for the cursor at
/// `(cx, cy)` over the window frame `(l, t, r, b)`: the outer thirds of each
/// side pick that side, the middle third none; the centre of the window and
/// an empty frame fall back to bottom-right and right respectively.
pub fn resize_direction(cx: i32, cy: i32, l: i32, t: i32, r: i32, b: i32) -> (d: u32)
    requires
        fits_i32(r - l),
        fits_i32(b - t),
        r - l > 0 && b - t > 0 ==> fits_i32(cx - l) && fits_i32(cy - t),
    ensures
        d == resize_code(cx as int, cy as int, l as int, t as int, r as int, b as int),
        10 <= d <= 17,
{
    let w = r - l;
    let h = b - t;
    if w <= 0 || h <= 0 {
        return 11;
    }
    let horiz = third(cx - l, w);
    let vert = third(cy - t, h);
    if horiz == -1 && vert == -1 {
        13
    } else if horiz == 0 && vert == -1 {
        12
    } else if horiz == 1 && vert == -1 {
        14
    } else if horiz == -1 && vert == 0 {
        10
    } else if horiz == 1 && vert == 0 {
        11
    } else if horiz == -1 && vert == 1 {
        16
    } else if horiz == 0 && vert == 1 {
        15
    } else {
        17
    }
}

/// Law: a resize grabs the side or corner nearest the cursor. Over a
/// non-empty frame `(l, t, r, b)`, a cursor in the left third of the width
/// picks a left handle (10, 13, 16), one in the right third a right handle
/// (11, 14, 17), and one in the middle third neither, except at the very
/// centre, which falls back to bottom-right (17); likewise the top third
/// picks a top handle (12, 13, 14), the bottom third a bottom one (15, 16,
/// 17), and the middle third neither (again except the centre). Thirds are
/// taken at 33 % and 67 %.
pub proof fn lemma_resize_nearest_handle(cx: int, cy: int, l: int, t: int, r: int, b: int)
    requires
        r - l > 0,
        b - t > 0,
    ensures
        ({
            let d = resize_code(cx, cy, l, t, r, b);
            let w = r - l;
            let h = b - t;
            let in_left = 100 * (cx - l) < 33 * w;
            let in_right = 100 * (cx - l) >= 67 * w;
            let in_top = 100 * (cy - t) < 33 * h;
            let in_bottom = 100 * (cy - t) >= 67 * h;
            let centre = !in_left && !in_right && !in_top && !in_bottom;
            &&& in_left ==> (d == 10 || d == 13 || d == 16)
            &&& in_right ==> (d == 11 || d == 14 || d == 17)
            &&& !in_left && !in_right && !centre ==> (d == 12 || d == 15)
            &&& in_top ==> (d == 12 || d == 13 || d == 14)
            &&& in_bottom ==> (d == 15 || d == 16 || d == 17)
            &&& !in_top && !in_bottom && !centre ==> (d == 10 || d == 11)
            &&& centre ==> d == 17
        }),
{
}

// ── Visible rectangle ──

/// The visible rectangle of the frame `f` with insets `off`.
pub open spec fn inset(f: Rect, off: Rect) -> (int, int, int, int) {
    (f.0 + off.0, f.1 + off.1, f.2 - off.2, f.3 - off.3)
}

/// The insets of the visible rectangle inside the frame `frame`, given the
/// extended frame bounds `dwm` that DWM reported (`None` when it reported
/// none) and the system resize-border width `sys_border`:
/// no report or a frame that coincides with its visible rectangle gives no
/// insets; otherwise left and top are clamped at 0, and a right or bottom
/// inset that is not positive is taken to be `sys_border`.
pub open spec fn frame_insets(frame: Rect, dwm: Option<Rect>, sys_border: int) -> (int, int, int, int) {
    match dwm {
        None => (0, 0, 0, 0),
        Some(dr) => {
            let lo = dr.0 - frame.0;
            let to = dr.1 - frame.1;
            let ro = frame.2 - dr.2;
            let bo = frame.3 - dr.3;
            if lo == 0 && to == 0 && ro == 0 && bo == 0 {
                (0, 0, 0, 0)
            } else {
                (max_int(lo, 0), max_int(to, 0), if ro > 0 { ro } else { sys_border }, if bo > 0 { bo } else { sys_border })
            }
        },
    }
}

pub open spec fn dwm_insets_fit(frame: Rect, dwm: Option<Rect>) -> bool {
    match dwm {
        None => true,
        Some(dr) => fits_i32(dr.0 - frame.0) && fits_i32(dr.1 - frame.1) && fits_i32(frame.2 - dr.2) && fits_i32(frame.3 - dr.3),
    }
}

/// Insets `(lo, to, ro, bo)` of a window's visible rectangle inside its frame
/// `frame`, from the bounds `dwm` that DWM reported for it (if any) and the
/// system resize-border width `sys_border` (see `frame_insets`).
pub fn dwm_frame_offsets(frame: Rect, dwm: Option<Rect>, sys_border: i32) -> (r: Rect)
    requires
        dwm_insets_fit(frame, dwm),
    ensures
        (r.0 as int, r.1 as int, r.2 as int, r.3 as int) == frame_insets(frame, dwm, sys_border as int),
{
    match dwm {
        None => (0, 0, 0, 0),
        Some(dr) => {
            let lo = dr.0 - frame.0;
            let to = dr.1 - frame.1;
            let ro = frame.2 - dr.2;
            let bo = frame.3 - dr.3;
            if lo == 0 && to == 0 && ro == 0 && bo == 0 {
                (0, 0, 0, 0)
            } else {
                (
                    if lo >= 0 { lo } else { 0 },
                    if to >= 0 { to } else { 0 },
                    if ro > 0 { ro } else { sys_border },
                    if bo > 0 { bo } else { sys_border },
                )
            }
        },
    }
}

/// The visible rectangle of a window: the bounds DWM reported when there are
/// some and they are not empty, the frame `frame` otherwise.
pub fn visual_or_frame(dwm: Option<Rect>, frame: Rect) -> (r: Rect)
    ensures
        r == (match dwm {
            Some(dr) => if dr.2 > dr.0 && dr.3 > dr.1 { dr } else { frame },
            None => frame,
        }),
{
    match dwm {
        Some(dr) => {
            if dr.2 > dr.0 && dr.3 > dr.1 {
                dr
            } else {
                frame
            }
        },
        None => frame,
    }
}

// ── Numeric keypad grid ──

pub open spec fn is_keypad_digit(key: char) -> bool {
    key == '1' || key == '2' || key == '3' || key == '4' || key == '5' || key == '6' || key == '7'
        || key == '8' || key == '9'
}

/// Column of a keypad digit: 0 left (1, 4, 7), 1 centre (2, 5, 8), 2 right (3, 6, 9).
pub open spec fn key_column(key: char) -> int {
    if key == '1' || key == '4' || key == '7' {
        0
    } else if key == '2' || key == '5' || key == '8' {
        1
    } else {
        2
    }
}

/// Row of a keypad digit: 0 top (7, 8, 9), 1 middle (4, 5, 6), 2 bottom (1, 2, 3).
pub open spec fn key_row(key: char) -> int {
    if key == '7' || key == '8' || key == '9' {
        0
    } else if key == '4' || key == '5' || key == '6' {
        1
    } else {
        2
    }
}

/// Frame coordinate along one axis for grid position `pos` (0 start,
/// 1 centre, 2 end) on a screen of length `screen`, for a frame of length
/// `size` whose visible part is inset by `lo` at the start and `hi` at the end.
pub open spec fn grid_coord(pos: int, screen: int, size: int, lo: int, hi: int) -> int {
    if pos == 0 {
        -lo
    } else if pos == 1 {
        tdiv(screen - size, 2)
    } else {
        screen - size + hi
    }
}

pub open spec fn grid_coord_fits(pos: int, screen: int, size: int, lo: int, hi: int) -> bool {
    if pos == 0 {
        fits_i32(-lo)
    } else if pos == 1 {
        fits_i32(screen - size)
    } else {
        fits_i32(screen - size) && fits_i32(screen - size + hi)
    }
}

/// Frame position for keypad digit `key` of the frame `f` on a screen of
/// `sw x sh` with visible insets `off`: the visible rectangle goes to the
/// matching cell of a 3 x 3 grid (flush with the screen edges, or centred).
pub open spec fn key_target(key: char, f: Rect, sw: int, sh: int, off: Rect) -> Option<(int, int)> {
    if is_keypad_digit(key) {
        Some((
            grid_coord(key_column(key), sw, f.2 - f.0, off.0 as int, off.2 as int),
            grid_coord(key_row(key), sh, f.3 - f.1, off.1 as int, off.3 as int),
        ))
    } else {
        None
    }
}

pub open spec fn key_target_fits(key: char, f: Rect, sw: int, sh: int, off: Rect) -> bool {
    &&& fits_i32(f.2 - f.0)
    &&& fits_i32(f.3 - f.1)
    &&& is_keypad_digit(key) ==> grid_coord_fits(key_column(key), sw, f.2 - f.0, off.0 as int, off.2 as int)
        && grid_coord_fits(key_row(key), sh, f.3 - f.1, off.1 as int, off.3 as int)
}

fn grid_coord_exec(pos: u8, screen: i32, size: i32, lo: i32, hi: i32) -> (r: i32)
    requires
        pos <= 2,
        grid_coord_fits(pos as int, screen as int, size as int, lo as int, hi as int),
    ensures
        r == grid_coord(pos as int, screen as int, size as int, lo as int, hi as int),
{
    if pos == 0 {
        -lo
    } else if pos == 1 {
        (screen - size) / 2
    } else {
        screen - size + hi
    }
}

/// Where keypad digit `key` ('1'..='9') moves the frame `frame` on a screen
/// of `screen = (sw, sh)` whose visible insets are `off`: the visible
/// rectangle goes flush to the screen's left, top, right or bottom edge, or
/// is centred, following the keypad layout (7 top-left, 5 centre, 3
/// bottom-right). Any other key gives `None`.
pub fn pos_by_key(key: char, frame: Rect, screen: (i32, i32), off: Rect) -> (r: Option<(i32, i32)>)
    requires
        key_target_fits(key, frame, screen.0 as int, screen.1 as int, off),
    ensures
        r matches Some(p) ==> key_target(key, frame, screen.0 as int, screen.1 as int, off) == Some((p.0 as int, p.1 as int)),
        r is None <==> !is_keypad_digit(key),
        r matches Some(p) ==> (key_column(key) == 0 ==> p.0 + off.0 == 0),
        r matches Some(p) ==> (key_column(key) == 2 ==> p.0 + (frame.2 - frame.0) - off.2 == screen.0),
        r matches Some(p) ==> (key_row(key) == 0 ==> p.1 + off.1 == 0),
        r matches Some(p) ==> (key_row(key) == 2 ==> p.1 + (frame.3 - frame.1) - off.3 == screen.1),
{
    let w = frame.2 - frame.0;
    let h = frame.3 - frame.1;
    let (col, row): (u8, u8) = if key == '1' {
        (0, 2)
    } else if key == '2' {
        (1, 2)
    } else if key == '3' {
        (2, 2)
    } else if key == '4' {
        (0, 1)
    } else if key == '5' {
        (1, 1)
    } else if key == '6' {
        (2, 1)
    } else if key == '7' {
        (0, 0)
    } else if key == '8' {
        (1, 0)
    } else if key == '9' {
        (2, 0)
    } else {
        return None;
    };
    let x = grid_coord_exec(col, screen.0, w, off.0, off.2);
    let y = grid_coord_exec(row, screen.1, h, off.1, off.3);
    Some((x, y))
}

// ── Screen edges ──

/// Frame position that puts the visible edge `dir` (0 left, 1 right, 2 top,
/// 3 bottom) of the frame `f` with insets `off` flush with the same edge of a
/// `sw x sh` screen, keeping the other coordinate.
pub open spec fn edge_target_spec(dir: u32, f: Rect, sw: int, sh: int, off: Rect) -> Option<(int, int)> {
    let w = f.2 - f.0;
    let h = f.3 - f.1;
    if dir == 0 {
        Some((-off.0, f.1 as int))
    } else if dir == 1 {
        Some((sw - w + off.2, f.1 as int))
    } else if dir == 2 {
        Some((f.0 as int, -off.1))
    } else if dir == 3 {
        Some((f.0 as int, sh - h + off.3))
    } else {
        None
    }
}

pub open spec fn edge_target_fits(dir: u32, f: Rect, sw: int, sh: int, off: Rect) -> bool {
    &&& fits_i32(f.2 - f.0)
    &&& fits_i32(f.3 - f.1)
    &&& dir == 0 ==> fits_i32(-off.0)
    &&& dir == 1 ==> fits_i32(sw - (f.2 - f.0)) && fits_i32(sw - (f.2 - f.0) + off.2)
    &&& dir == 2 ==> fits_i32(-off.1)
    &&& dir == 3 ==> fits_i32(sh - (f.3 - f.1)) && fits_i32(sh - (f.3 - f.1) + off.3)
}

/// The frame position that sends the window flush against the screen edge
/// `dir` (0 left, 1 right, 2 top, 3 bottom): its visible edge lands on the
/// screen edge and the other coordinate is kept. Other directions give
/// `None`.
pub fn edge_target(dir: u32, frame: Rect, screen: (i32, i32), off: Rect) -> (r: Option<(i32, i32)>)
    requires
        edge_target_fits(dir, frame, screen.0 as int, screen.1 as int, off),
    ensures
        r matches Some(p) ==> edge_target_spec(dir, frame, screen.0 as int, screen.1 as int, off) == Some((p.0 as int, p.1 as int)),
        r is None <==> dir > 3,
        r matches Some(p) ==> (dir == 0 ==> p.0 + off.0 == 0),
        r matches Some(p) ==> (dir == 1 ==> p.0 + (frame.2 - frame.0) - off.2 == screen.0),
        r matches Some(p) ==> (dir == 2 ==> p.1 + off.1 == 0),
        r matches Some(p) ==> (dir == 3 ==> p.1 + (frame.3 - frame.1) - off.3 == screen.1),
{
    let w = frame.2 - frame.0;
    let h = frame.3 - frame.1;
    if dir == 0 {
        Some((-off.0, frame.1))
    } else if dir == 1 {
        Some((screen.0 - w + off.2, frame.1))
    } else if dir == 2 {
        Some((frame.0, -off.1))
    } else if dir == 3 {
        Some((frame.0, screen.1 - h + off.3))
    } else {
        None
    }
}

// ── Proportional scaling ──

/// Visible size of the frame `f` with insets `off`, when both sides are positive.
pub open spec fn visible_size_spec(f: Rect, off: Rect) -> Option<(int, int)> {
    let vw = (f.2 - f.0) - off.0 - off.2;
    let vh = (f.3 - f.1) - off.1 - off.3;
    if vw <= 0 || vh <= 0 {
        None
    } else {
        Some((vw, vh))
    }
}

pub open spec fn visible_size_fits(f: Rect, off: Rect) -> bool {
    &&& fits_i32(f.2 - f.0)
    &&& fits_i32(f.3 - f.1)
    &&& fits_i32((f.2 - f.0) - off.0)
    &&& fits_i32((f.2 - f.0) - off.0 - off.2)
    &&& fits_i32((f.3 - f.1) - off.1)
    &&& fits_i32((f.3 - f.1) - off.1 - off.3)
}

/// Width and height of the visible part of the frame `frame` with insets
/// `off`; `None` when either is not positive (nothing to scale).
pub fn visible_size(frame: Rect, off: Rect) -> (r: Option<(i32, i32)>)
    requires
        visible_size_fits(frame, off),
    ensures
        r matches Some(p) ==> visible_size_spec(frame, off) == Some((p.0 as int, p.1 as int)),
        r is None <==> visible_size_spec(frame, off) is None,
{
    let vw = (frame.2 - frame.0) - off.0 - off.2;
    let vh = (frame.3 - frame.1) - off.1 - off.3;
    if vw <= 0 || vh <= 0 {
        None
    } else {
        Some((vw, vh))
    }
}

/// Frame of a window whose visible part is resized to `nw x nh` (each
/// capped at the work area `wa`) and centred in `wa`, with insets `off`.
pub open spec fn scaled_frame_spec(nw: int, nh: int, wa: Rect, off: Rect) -> (int, int, int, int) {
    let ww = wa.2 - wa.0;
    let wh = wa.3 - wa.1;
    let w = min_int(nw, ww);
    let h = min_int(nh, wh);
    let vx = wa.0 + tdiv(ww - w, 2);
    let vy = wa.1 + tdiv(wh - h, 2);
    let fx = vx - off.0;
    let fy = vy - off.1;
    (fx, fy, fx + (w + off.0 + off.2), fy + (h + off.1 + off.3))
}

pub open spec fn scaled_frame_fits(nw: int, nh: int, wa: Rect, off: Rect) -> bool {
    let ww = wa.2 - wa.0;
    let wh = wa.3 - wa.1;
    let w = min_int(nw, ww);
    let h = min_int(nh, wh);
    let vx = wa.0 + tdiv(ww - w, 2);
    let vy = wa.1 + tdiv(wh - h, 2);
    &&& fits_i32(ww) && fits_i32(wh)
    &&& fits_i32(ww - w) && fits_i32(wh - h)
    &&& fits_i32(vx) && fits_i32(vy)
    &&& fits_i32(vx - off.0) && fits_i32(vy - off.1)
    &&& fits_i32(w + off.0) && fits_i32(w + off.0 + off.2)
    &&& fits_i32(h + off.1) && fits_i32(h + off.1 + off.3)
    &&& fits_i32(vx - off.0 + (w + off.0 + off.2))
    &&& fits_i32(vy - off.1 + (h + off.1 + off.3))
}

/// The frame `(left, top, right, bottom)` for a window whose visible part is
/// scaled to `nw x nh`: each side is capped at the work area `wa`, the
/// visible part is centred in `wa`, and the insets `off` are added back.
/// The visible part never exceeds the work area.
pub fn scaled_frame(nw: i32, nh: i32, wa: Rect, off: Rect) -> (r: Rect)
    requires
        scaled_frame_fits(nw as int, nh as int, wa, off),
    ensures
        (r.0 as int, r.1 as int, r.2 as int, r.3 as int) == scaled_frame_spec(nw as int, nh as int, wa, off),
        (r.2 - off.2) - (r.0 + off.0) == min_int(nw as int, wa.2 - wa.0),
        (r.3 - off.3) - (r.1 + off.1) == min_int(nh as int, wa.3 - wa.1),
        (r.2 - off.2) - (r.0 + off.0) <= wa.2 - wa.0,
        (r.3 - off.3) - (r.1 + off.1) <= wa.3 - wa.1,
{
    let ww = wa.2 - wa.0;
    let wh = wa.3 - wa.1;
    let w = if nw <= ww { nw } else { ww };
    let h = if nh <= wh { nh } else { wh };
    let vx = wa.0 + (ww - w) / 2;
    let vy = wa.1 + (wh - h) / 2;
    let fx = vx - off.0;
    let fy = vy - off.1;
    let fw = w + off.0 + off.2;
    let fh = h + off.1 + off.3;
    (fx, fy, fx + fw, fy + fh)
}

// ── Centring ──

/// Top-left corner that centres the frame `f` in the work area `wa`,
/// clamped at 0 on each axis; `None` for an empty frame.
pub open spec fn centered_spec(f: Rect, wa: Rect) -> Option<(int, int)> {
    let w = f.2 - f.0;
    let h = f.3 - f.1;
    if w <= 0 || h <= 0 {
        None
    } else {
        Some((
            max_int(wa.0 + tdiv((wa.2 - wa.0) - w, 2), 0),
            max_int(wa.1 + tdiv((wa.3 - wa.1) - h, 2), 0),
        ))
    }
}

pub open spec fn centered_fits(f: Rect, wa: Rect) -> bool {
    let w = f.2 - f.0;
    let h = f.3 - f.1;
    &&& fits_i32(w) && fits_i32(h)
    &&& w > 0 && h > 0 ==> {
        &&& fits_i32(wa.2 - wa.0) && fits_i32(wa.3 - wa.1)
        &&& fits_i32((wa.2 - wa.0) - w) && fits_i32((wa.3 - wa.1) - h)
        &&& fits_i32(wa.0 + tdiv((wa.2 - wa.0) - w, 2))
        &&& fits_i32(wa.1 + tdiv((wa.3 - wa.1) - h, 2))
    }
}

/// Where to move the frame `frame` so that it is centred in the work area
/// `wa` (never left of or above 0); `None` for an empty frame, which is
/// left alone.
pub fn centered_origin(frame: Rect, wa: Rect) -> (r: Option<(i32, i32)>)
    requires
        centered_fits(frame, wa),
    ensures
        r matches Some(p) ==> centered_spec(frame, wa) == Some((p.0 as int, p.1 as int)),
        r is None <==> centered_spec(frame, wa) is None,
        r matches Some(p) ==> p.0 >= 0 && p.1 >= 0,
{
    let w = frame.2 - frame.0;
    let h = frame.3 - frame.1;
    if w <= 0 || h <= 0 {
        return None;
    }
    let nx = wa.0 + ((wa.2 - wa.0) - w) / 2;
    let ny = wa.1 + ((wa.3 - wa.1) - h) / 2;
    Some((if nx >= 0 { nx } else { 0 }, if ny >= 0 { ny } else { 0 }))
}

// ── Laws across placements ──

/// Law: each keypad digit places the visible rectangle in the grid cell of
/// the key's own position on the keypad: 1, 4, 7 flush with the screen's
/// left edge, 3, 6, 9 with its right edge, 2, 5, 8 centred across; 7, 8, 9
/// flush with the top, 1, 2, 3 with the bottom, 4, 5, 6 centred down. Any
/// other character places nothing.
pub proof fn lemma_keypad_cells(key: char, f: Rect, sw: int, sh: int, off: Rect)
    ensures
        ({
            let w = f.2 - f.0;
            let h = f.3 - f.1;
            let r = key_target(key, f, sw, sh, off);
            &&& !('1' <= key <= '9') ==> r is None
            &&& '1' <= key <= '9' ==> r is Some
            &&& (key == '1' || key == '4' || key == '7') ==> r.unwrap().0 + off.0 == 0
            &&& (key == '2' || key == '5' || key == '8') ==> r.unwrap().0 == tdiv(sw - w, 2)
            &&& (key == '3' || key == '6' || key == '9') ==> r.unwrap().0 + w - off.2 == sw
            &&& (key == '7' || key == '8' || key == '9') ==> r.unwrap().1 + off.1 == 0
            &&& (key == '4' || key == '5' || key == '6') ==> r.unwrap().1 == tdiv(sh - h, 2)
            &&& (key == '1' || key == '2' || key == '3') ==> r.unwrap().1 + h - off.3 == sh
        }),
{
}

/// Law: the keypad's side cells agree with the screen-edge keys: 4 and 6
/// put the visible left/right edge where Alt+Left/Right does, 8 and 2 the
/// visible top/bottom edge where Alt+Up/Down does.
pub proof fn lemma_keypad_matches_edges(f: Rect, sw: int, sh: int, off: Rect)
    ensures
        key_target('4', f, sw, sh, off).unwrap().0 == edge_target_spec(0, f, sw, sh, off).unwrap().0,
        key_target('6', f, sw, sh, off).unwrap().0 == edge_target_spec(1, f, sw, sh, off).unwrap().0,
        key_target('8', f, sw, sh, off).unwrap().1 == edge_target_spec(2, f, sw, sh, off).unwrap().1,
        key_target('2', f, sw, sh, off).unwrap().1 == edge_target_spec(3, f, sw, sh, off).unwrap().1,
{
}

/// Law: after proportional scaling, the window's visible size is exactly
/// the requested size capped at the work area.
pub proof fn lemma_scaled_visible_size(nw: int, nh: int, wa: Rect, off: Rect)
    requires
        min_int(nw, wa.2 - wa.0) > 0,
        min_int(nh, wa.3 - wa.1) > 0,
    ensures
        ({
            let r = scaled_frame_spec(nw, nh, wa, off);
            &&& (r.2 - r.0) - off.0 - off.2 == min_int(nw, wa.2 - wa.0)
            &&& (r.3 - r.1) - off.1 - off.3 == min_int(nh, wa.3 - wa.1)
        }),
{
}

/// Law: scaled up to (or past) the work area, the window's visible part
/// covers the work area exactly, edge to edge.
pub proof fn lemma_scaled_fills_work_area(nw: int, nh: int, wa: Rect, off: Rect)
    requires
        nw >= wa.2 - wa.0,
        nh >= wa.3 - wa.1,
    ensures
        ({
            let r = scaled_frame_spec(nw, nh, wa, off);
            &&& r.0 + off.0 == wa.0 && r.1 + off.1 == wa.1
            &&& r.2 - off.2 == wa.2 && r.3 - off.3 == wa.3
        }),
{
    assert(tdiv(0, 2) == 0);
}

/// Law: a window no larger than the work area is centred inside it (when
/// the work area does not reach left of or above the origin).
pub proof fn lemma_centered_inside(f: Rect, wa: Rect)
    requires
        0 < f.2 - f.0 <= wa.2 - wa.0,
        0 < f.3 - f.1 <= wa.3 - wa.1,
        wa.0 >= 0,
        wa.1 >= 0,
    ensures
        ({
            let p = centered_spec(f, wa).unwrap();
            &&& wa.0 <= p.0 && p.0 + (f.2 - f.0) <= wa.2
            &&& wa.1 <= p.1 && p.1 + (f.3 - f.1) <= wa.3
        }),
{
}

} // verus!
