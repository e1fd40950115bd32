//! Snapping a dragged window to screen edges and to the visible edges of
//! other windows. Visibility of a candidate's edges is decided by clipping
//! each edge, as an interval, against the windows stacked above it.

use vstd::prelude::*;
use crate::geometry::{fits_i32, Rect};

verus! {

/// Snapping triggers within this many pixels of an anchor.
pub const SNAP_THRESHOLD: i32 = 7;
/// A snapped edge lets go once dragged this many pixels away.
pub const SNAP_ESCAPE: i32 = 30;

/// A window that may be snapped to. Its frame rectangle is refreshed every
/// frame of the drag; the offsets between frame and visible (DWM) rectangle
/// are recorded once when the drag starts.
#[derive(Clone, Copy)]
pub struct SnapCandidate {
    /// Raw window handle.
    pub hwnd: isize,
    /// Index in the Z-ordered snapshot of all windows (0 is topmost).
    pub z: usize,
    /// Current frame rectangle.
    pub frame: Rect,
    /// Insets of the visible rectangle inside the frame (left, top, right, bottom).
    pub lo: i32,
    pub to: i32,
    pub ro: i32,
    pub bo: i32,
    /// Whether each edge is visible enough to snap to.
    pub vis_l: bool,
    pub vis_t: bool,
    pub vis_r: bool,
    pub vis_b: bool,
}

/// A window of the Z-ordered snapshot taken when the drag starts: it may hide
/// the edges of the candidates below it. Desktop-layer windows hide nothing.
pub struct SnapWin {
    pub hwnd: isize,
    /// Current frame rectangle.
    pub frame: Rect,
    /// Insets of the visible rectangle inside the frame (left, top, right, bottom).
    pub lo: i32,
    pub to: i32,
    pub ro: i32,
    pub bo: i32,
    pub desktop: bool,
}

/// The insets of `visual` inside `frame` on each side fit in `i32`.
pub open spec fn insets_fit(frame: Rect, visual: Rect) -> bool {
    &&& fits_i32(visual.0 - frame.0)
    &&& fits_i32(visual.1 - frame.1)
    &&& fits_i32(frame.2 - visual.2)
    &&& fits_i32(frame.3 - visual.3)
}

/// Frame rectangle moved in by the recorded insets.
pub open spec fn inset_rect(frame: Rect, lo: int, to: int, ro: int, bo: int) -> (int, int, int, int) {
    (frame.0 + lo, frame.1 + to, frame.2 - ro, frame.3 - bo)
}

pub open spec fn rect_fits(r: (int, int, int, int)) -> bool {
    fits_i32(r.0) && fits_i32(r.1) && fits_i32(r.2) && fits_i32(r.3)
}

impl SnapCandidate {
    /// The visible rectangle: current frame moved in by the recorded insets.
    pub open spec fn visual(&self) -> (int, int, int, int) {
        inset_rect(self.frame, self.lo as int, self.to as int, self.ro as int, self.bo as int)
    }

    /// A candidate whose visible rectangle is `visual` while its frame is
    /// `frame`; all four edges start out visible.
    pub fn new(hwnd: isize, z: usize, frame: Rect, visual: Rect) -> (c: Self)
        requires
            insets_fit(frame, visual),
        ensures
            c.hwnd == hwnd,
            c.z == z,
            c.frame == frame,
            c.visual() == (visual.0 as int, visual.1 as int, visual.2 as int, visual.3 as int),
            c.vis_l && c.vis_t && c.vis_r && c.vis_b,
    {
        SnapCandidate {
            hwnd,
            z,
            frame,
            lo: visual.0 - frame.0,
            to: visual.1 - frame.1,
            ro: frame.2 - visual.2,
            bo: frame.3 - visual.3,
            vis_l: true,
            vis_t: true,
            vis_r: true,
            vis_b: true,
        }
    }

    /// Current visible rectangle.
    pub fn visual_rect(&self) -> (r: Rect)
        requires
            rect_fits(self.visual()),
        ensures
            (r.0 as int, r.1 as int, r.2 as int, r.3 as int) == self.visual(),
    {
        (self.frame.0 + self.lo, self.frame.1 + self.to, self.frame.2 - self.ro, self.frame.3 - self.bo)
    }
}

impl SnapWin {
    pub open spec fn visual(&self) -> (int, int, int, int) {
        inset_rect(self.frame, self.lo as int, self.to as int, self.ro as int, self.bo as int)
    }

    /// A snapshot window whose visible rectangle is `visual` while its frame
    /// is `frame`.
    pub fn new(hwnd: isize, frame: Rect, visual: Rect, desktop: bool) -> (w: Self)
        requires
            insets_fit(frame, visual),
        ensures
            w.hwnd == hwnd,
            w.frame == frame,
            w.desktop == desktop,
            w.visual() == (visual.0 as int, visual.1 as int, visual.2 as int, visual.3 as int),
    {
        SnapWin {
            hwnd,
            frame,
            lo: visual.0 - frame.0,
            to: visual.1 - frame.1,
            ro: frame.2 - visual.2,
            bo: frame.3 - visual.3,
            desktop,
        }
    }

    /// Current visible rectangle.
    pub fn visual_rect(&self) -> (r: Rect)
        requires
            rect_fits(self.visual()),
        ensures
            (r.0 as int, r.1 as int, r.2 as int, r.3 as int) == self.visual(),
    {
        (self.frame.0 + self.lo, self.frame.1 + self.to, self.frame.2 - self.ro, self.frame.3 - self.bo)
    }
}

// ── Interval clipping ──

/// Whether `x` lies in one of the half-open intervals `[s, e)`.
pub open spec fn covered(ranges: Seq<(i32, i32)>, x: int) -> bool {
    exists|i: int| 0 <= i < ranges.len() && ranges[i].0 <= x < #[trigger] ranges[i].1
}

/// What is left of `[s, e)` once `[lo, hi)` is taken out.
pub open spec fn subtract_one(r: (i32, i32), lo: i32, hi: i32) -> Seq<(i32, i32)> {
    if hi <= r.0 || lo >= r.1 {
        seq![r]
    } else {
        (if r.0 < lo { seq![(r.0, lo)] } else { seq![] }) + (if r.1 > hi { seq![(hi, r.1)] } else { seq![] })
    }
}

/// Every interval with `[lo, hi)` taken out, in order.
pub open spec fn subtract_spec(ranges: Seq<(i32, i32)>, lo: i32, hi: i32) -> Seq<(i32, i32)>
    decreases ranges.len(),
{
    if ranges.len() == 0 {
        seq![]
    } else {
        subtract_spec(ranges.drop_last(), lo, hi) + subtract_one(ranges.last(), lo, hi)
    }
}

proof fn lemma_covered_concat(a: Seq<(i32, i32)>, b: Seq<(i32, i32)>, x: int)
    ensures
        covered(a + b, x) == (covered(a, x) || covered(b, x)),
{
    if covered(a + b, x) {
        let i = choose|i: int| 0 <= i < (a + b).len() && (a + b)[i].0 <= x < #[trigger] (a + b)[i].1;
        if i < a.len() {
            assert(a[i] == (a + b)[i]);
        } else {
            assert(b[i - a.len()] == (a + b)[i]);
        }
    }
    if covered(a, x) {
        let i = choose|i: int| 0 <= i < a.len() && a[i].0 <= x < #[trigger] a[i].1;
        assert((a + b)[i] == a[i]);
    }
    if covered(b, x) {
        let i = choose|i: int| 0 <= i < b.len() && b[i].0 <= x < #[trigger] b[i].1;
        assert((a + b)[i + a.len()] == b[i]);
    }
}

proof fn lemma_covered_single(r: (i32, i32), x: int)
    ensures
        covered(seq![r], x) == (r.0 <= x < r.1),
{
    if r.0 <= x < r.1 {
        assert(seq![r][0] == r);
    }
}

proof fn lemma_subtract_one_covers(r: (i32, i32), lo: i32, hi: i32, x: int)
    ensures
        covered(subtract_one(r, lo, hi), x) == (r.0 <= x < r.1 && !(lo <= x < hi)),
{
    lemma_covered_single(r, x);
    if !(hi <= r.0 || lo >= r.1) {
        let a: Seq<(i32, i32)> = if r.0 < lo { seq![(r.0, lo)] } else { seq![] };
        let b: Seq<(i32, i32)> = if r.1 > hi { seq![(hi, r.1)] } else { seq![] };
        lemma_covered_concat(a, b, x);
        lemma_covered_single((r.0, lo), x);
        lemma_covered_single((hi, r.1), x);
    }
}

/// Law: clipping takes out exactly `[lo, hi)`: a point stays covered iff it
/// was covered before and lies outside the cut.
pub proof fn lemma_subtract_covers(ranges: Seq<(i32, i32)>, lo: i32, hi: i32, x: int)
    ensures
        covered(subtract_spec(ranges, lo, hi), x) == (covered(ranges, x) && !(lo <= x < hi)),
    decreases ranges.len(),
{
    if ranges.len() > 0 {
        lemma_subtract_covers(ranges.drop_last(), lo, hi, x);
        lemma_subtract_one_covers(ranges.last(), lo, hi, x);
        lemma_covered_concat(subtract_spec(ranges.drop_last(), lo, hi), subtract_one(ranges.last(), lo, hi), x);
        assert(ranges =~= ranges.drop_last() + seq![ranges.last()]);
        lemma_covered_concat(ranges.drop_last(), seq![ranges.last()], x);
        lemma_covered_single(ranges.last(), x);
    }
}

/// Takes `[lo, hi)` out of every interval `[s, e)` of `ranges` (the 1-D
/// projection of clipping an edge against a rectangle above it).
pub fn subtract_range(ranges: Vec<(i32, i32)>, lo: i32, hi: i32) -> (out: Vec<(i32, i32)>)
    ensures
        out@ == subtract_spec(ranges@, lo, hi),
{
    let mut out: Vec<(i32, i32)> = Vec::new();
    let mut i: usize = 0;
    while i < ranges.len()
        invariant
            i <= ranges.len(),
            out@ == subtract_spec(ranges@.take(i as int), lo, hi),
        decreases ranges.len() - i,
    {
        let (s, e) = ranges[i];
        let ghost before = out@;
        if hi <= s || lo >= e {
            out.push((s, e));
        } else {
            if s < lo {
                out.push((s, lo));
            }
            if e > hi {
                out.push((hi, e));
            }
        }
        proof {
            assert(ranges@.take(i + 1).drop_last() =~= ranges@.take(i as int));
            assert(ranges@.take(i + 1).last() == (s, e));
            assert(out@ =~= before + subtract_one((s, e), lo, hi));
        }
        i = i + 1;
    }
    proof {
        assert(ranges@.take(ranges.len() as int) =~= ranges@);
    }
    out
}


// ── Edge visibility ──

/// Length of `[s, e)`, 0 when empty.
pub open spec fn piece_len(r: (i32, i32)) -> int {
    if r.1 - r.0 > 0 {
        r.1 - r.0
    } else {
        0
    }
}

/// Total length of the intervals.
pub open spec fn visible_len(ranges: Seq<(i32, i32)>) -> int
    decreases ranges.len(),
{
    if ranges.len() == 0 {
        0
    } else {
        visible_len(ranges.drop_last()) + piece_len(ranges.last())
    }
}

/// The sum of the lengths, and three times it, fit in `i32`, and so does
/// each interval's length.
pub open spec fn visible_len_fits(ranges: Seq<(i32, i32)>) -> bool {
    &&& forall|i: int| 0 <= i < ranges.len() ==> #[trigger] fits_i32(ranges[i].1 - ranges[i].0)
    &&& fits_i32(3 * visible_len(ranges))
}

/// An edge of length `total` counts as visible when at least a third of it
/// (and at least one pixel's worth) is left uncovered.
pub open spec fn edge_visible_spec(ranges: Seq<(i32, i32)>, total: int) -> bool {
    3 * visible_len(ranges) >= if total > 1 { total } else { 1 }
}

proof fn lemma_visible_len_nonneg(ranges: Seq<(i32, i32)>)
    ensures
        visible_len(ranges) >= 0,
    decreases ranges.len(),
{
    if ranges.len() > 0 {
        lemma_visible_len_nonneg(ranges.drop_last());
    }
}

proof fn lemma_visible_len_prefix(ranges: Seq<(i32, i32)>, i: int)
    requires
        0 <= i <= ranges.len(),
    ensures
        0 <= visible_len(ranges.take(i)) <= visible_len(ranges),
    decreases ranges.len() - i,
{
    lemma_visible_len_nonneg(ranges.take(i));
    if i < ranges.len() {
        lemma_visible_len_prefix(ranges, i + 1);
        assert(ranges.take(i + 1).drop_last() =~= ranges.take(i));
    } else {
        assert(ranges.take(i) =~= ranges);
    }
}

/// Whether the uncovered parts of an edge of length `total` add up to at least
/// a third of it.
fn edge_visible(ranges: &[(i32, i32)], total: i32) -> (r: bool)
    requires
        visible_len_fits(ranges@),
    ensures
        r == edge_visible_spec(ranges@, total as int),
{
    let mut vis: i32 = 0;
    let mut i: usize = 0;
    while i < ranges.len()
        invariant
            i <= ranges.len(),
            visible_len_fits(ranges@),
            vis as int == visible_len(ranges@.take(i as int)),
        decreases ranges.len() - i,
    {
        let (s, e) = ranges[i];
        assert(fits_i32(ranges@[i as int].1 - ranges@[i as int].0));
        let d = e - s;
        let piece = if d > 0 { d } else { 0 };
        proof {
            assert(ranges@.take(i + 1).drop_last() =~= ranges@.take(i as int));
            assert(ranges@.take(i + 1).last() == (s, e));
            lemma_visible_len_prefix(ranges@, i + 1);
            lemma_visible_len_nonneg(ranges@);
        }
        vis = vis + piece;
        i = i + 1;
    }
    proof {
        assert(ranges@.take(ranges.len() as int) =~= ranges@);
        lemma_visible_len_nonneg(ranges@);
    }
    let floor = if total > 1 { total } else { 1 };
    vis * 3 >= floor
}

/// The four edges' uncovered intervals: left and right as vertical spans,
/// top and bottom as horizontal spans.
pub struct EdgeSpans {
    pub left: Seq<(i32, i32)>,
    pub right: Seq<(i32, i32)>,
    pub top: Seq<(i32, i32)>,
    pub bottom: Seq<(i32, i32)>,
}

/// Whether window `w` takes part in hiding the candidate's edges.
pub open spec fn hides(cand: SnapCandidate, w: SnapWin) -> bool {
    w.hwnd != cand.hwnd && !w.desktop
}

/// The candidate's edge spans after clipping against the windows `wins`
/// (in order): an edge loses the span of a window whose area covers the
/// edge's line.
pub open spec fn clip_edges(cand: SnapCandidate, wins: Seq<SnapWin>) -> EdgeSpans
    decreases wins.len(),
{
    let (cl, ct, cr, cb) = cand.visual();
    if wins.len() == 0 {
        EdgeSpans {
            left: seq![(ct as i32, cb as i32)],
            right: seq![(ct as i32, cb as i32)],
            top: seq![(cl as i32, cr as i32)],
            bottom: seq![(cl as i32, cr as i32)],
        }
    } else {
        let e = clip_edges(cand, wins.drop_last());
        let w = wins.last();
        if !hides(cand, w) {
            e
        } else {
            let (wl, wt, wr, wb) = w.visual();
            EdgeSpans {
                left: if wl <= cl < wr { subtract_spec(e.left, wt as i32, wb as i32) } else { e.left },
                right: if wl <= cr < wr { subtract_spec(e.right, wt as i32, wb as i32) } else { e.right },
                top: if wt <= ct < wb { subtract_spec(e.top, wl as i32, wr as i32) } else { e.top },
                bottom: if wt <= cb < wb { subtract_spec(e.bottom, wl as i32, wr as i32) } else { e.bottom },
            }
        }
    }
}

/// The windows above the candidate in the snapshot.
pub open spec fn windows_above(cand: SnapCandidate, all: Seq<SnapWin>) -> Seq<SnapWin> {
    all.take(if cand.z < all.len() { cand.z as int } else { all.len() as int })
}

/// The candidate with each edge's visibility recomputed against the windows
/// above it.
pub open spec fn refreshed(cand: SnapCandidate, all: Seq<SnapWin>) -> SnapCandidate {
    let (cl, ct, cr, cb) = cand.visual();
    let e = clip_edges(cand, windows_above(cand, all));
    SnapCandidate {
        vis_l: edge_visible_spec(e.left, cb - ct),
        vis_r: edge_visible_spec(e.right, cb - ct),
        vis_t: edge_visible_spec(e.top, cr - cl),
        vis_b: edge_visible_spec(e.bottom, cr - cl),
        ..cand
    }
}

/// The arithmetic of recomputing the candidate's edges stays within `i32`:
/// its visible rectangle and size, the visible rectangles of the windows
/// above it that hide edges, and the edge span sums.
pub open spec fn refresh_fits(cand: SnapCandidate, all: Seq<SnapWin>) -> bool {
    let (cl, ct, cr, cb) = cand.visual();
    let above = windows_above(cand, all);
    let e = clip_edges(cand, above);
    &&& rect_fits(cand.visual())
    &&& fits_i32(cb - ct)
    &&& fits_i32(cr - cl)
    &&& forall|i: int| 0 <= i < above.len() && #[trigger] hides(cand, above[i]) ==> rect_fits(above[i].visual())
    &&& visible_len_fits(e.left)
    &&& visible_len_fits(e.right)
    &&& visible_len_fits(e.top)
    &&& visible_len_fits(e.bottom)
}

fn refresh_one(cand: SnapCandidate, all: &[SnapWin]) -> (r: SnapCandidate)
    requires
        refresh_fits(cand, all@),
    ensures
        r == refreshed(cand, all@),
{
    let (cl, ct, cr, cb) = cand.visual_rect();
    let h = cb - ct;
    let w = cr - cl;
    let mut ys_l: Vec<(i32, i32)> = vec![(ct, cb)];
    let mut ys_r: Vec<(i32, i32)> = vec![(ct, cb)];
    let mut xs_t: Vec<(i32, i32)> = vec![(cl, cr)];
    let mut xs_b: Vec<(i32, i32)> = vec![(cl, cr)];
    let n: usize = if cand.z < all.len() { cand.z } else { all.len() };
    let ghost above = windows_above(cand, all@);
    let mut j: usize = 0;
    while j < n
        invariant
            j <= n,
            n == above.len(),
            above == windows_above(cand, all@),
            n <= all.len(),
            refresh_fits(cand, all@),
            (cl as int, ct as int, cr as int, cb as int) == cand.visual(),
            ({
                let e = clip_edges(cand, above.take(j as int));
                ys_l@ == e.left && ys_r@ == e.right && xs_t@ == e.top && xs_b@ == e.bottom
            }),
        decreases n - j,
    {
        proof {
            assert(above.take(j + 1).drop_last() =~= above.take(j as int));
            assert(above.take(j + 1).last() == above[j as int]);
            assert(above[j as int] == all@[j as int]);
        }
        let w2 = &all[j];
        if w2.hwnd != cand.hwnd && !w2.desktop {
            assert(hides(cand, above[j as int]));
            let (wl, wt, wr, wb) = w2.visual_rect();
            if wl <= cl && cl < wr {
                ys_l = subtract_range(ys_l, wt, wb);
            }
            if wl <= cr && cr < wr {
                ys_r = subtract_range(ys_r, wt, wb);
            }
            if wt <= ct && ct < wb {
                xs_t = subtract_range(xs_t, wl, wr);
            }
            if wt <= cb && cb < wb {
                xs_b = subtract_range(xs_b, wl, wr);
            }
        }
        j = j + 1;
    }
    assert(above.take(n as int) =~= above);
    let mut out = cand;
    out.vis_l = edge_visible(ys_l.as_slice(), h);
    out.vis_r = edge_visible(ys_r.as_slice(), h);
    out.vis_t = edge_visible(xs_t.as_slice(), w);
    out.vis_b = edge_visible(xs_b.as_slice(), w);
    out
}

/// Some window among the first `n` of `wins` that may hide the candidate's
/// edges (not the candidate itself, not a desktop-layer window) covers the
/// point `(x, y)` with its visible rectangle.
pub open spec fn point_hidden(cand: SnapCandidate, wins: Seq<SnapWin>, n: int, x: int, y: int) -> bool {
    exists|i: int|
        0 <= i < n && wins[i].hwnd != cand.hwnd && !wins[i].desktop && (#[trigger] wins[i].visual()).0 <= x
            < wins[i].visual().2 && wins[i].visual().1 <= y < wins[i].visual().3
}

/// The visible rectangles of the first `n` windows fit in `i32`.
pub open spec fn wins_fit(wins: Seq<SnapWin>, n: int) -> bool {
    forall|i: int| 0 <= i < n ==> #[trigger] rect_fits(wins[i].visual())
}

proof fn lemma_point_hidden_step(cand: SnapCandidate, wins: Seq<SnapWin>, x: int, y: int)
    requires
        wins.len() > 0,
    ensures
        point_hidden(cand, wins, wins.len() as int, x, y) == (point_hidden(
            cand,
            wins.drop_last(),
            wins.len() - 1,
            x,
            y,
        ) || ({
            let w = wins.last();
            w.hwnd != cand.hwnd && !w.desktop && w.visual().0 <= x < w.visual().2 && w.visual().1 <= y
                < w.visual().3
        })),
{
    let n = wins.len() as int;
    let init = wins.drop_last();
    if point_hidden(cand, wins, n, x, y) {
        let i = choose|i: int|
            0 <= i < n && wins[i].hwnd != cand.hwnd && !wins[i].desktop && (#[trigger] wins[i].visual()).0
                <= x < wins[i].visual().2 && wins[i].visual().1 <= y < wins[i].visual().3;
        if i < n - 1 {
            assert(init[i] == wins[i]);
            assert(init[i].visual() == wins[i].visual());
        }
    }
    if point_hidden(cand, init, n - 1, x, y) {
        let i = choose|i: int|
            0 <= i < n - 1 && init[i].hwnd != cand.hwnd && !init[i].desktop && (#[trigger] init[i].visual()).0
                <= x < init[i].visual().2 && init[i].visual().1 <= y < init[i].visual().3;
        assert(init[i] == wins[i]);
        assert(wins[i].visual() == init[i].visual());
    }
    if ({
        let w = wins.last();
        w.hwnd != cand.hwnd && !w.desktop && w.visual().0 <= x < w.visual().2 && w.visual().1 <= y < w.visual().3
    }) {
        assert(wins[n - 1].visual() == wins.last().visual());
    }
}

/// The spans kept for each edge are exactly the edge's points that no
/// hiding window covers.
proof fn lemma_clip_covers(cand: SnapCandidate, wins: Seq<SnapWin>, p: int)
    requires
        rect_fits(cand.visual()),
        wins_fit(wins, wins.len() as int),
    ensures
        ({
            let (cl, ct, cr, cb) = cand.visual();
            let e = clip_edges(cand, wins);
            let n = wins.len() as int;
            &&& covered(e.left, p) == (ct <= p < cb && !point_hidden(cand, wins, n, cl, p))
            &&& covered(e.right, p) == (ct <= p < cb && !point_hidden(cand, wins, n, cr, p))
            &&& covered(e.top, p) == (cl <= p < cr && !point_hidden(cand, wins, n, p, ct))
            &&& covered(e.bottom, p) == (cl <= p < cr && !point_hidden(cand, wins, n, p, cb))
        }),
    decreases wins.len(),
{
    let (cl, ct, cr, cb) = cand.visual();
    if wins.len() == 0 {
        lemma_covered_single((ct as i32, cb as i32), p);
        lemma_covered_single((cl as i32, cr as i32), p);
    } else {
        let init = wins.drop_last();
        assert forall|i: int| 0 <= i < init.len() implies #[trigger] rect_fits(init[i].visual()) by {
            assert(init[i] == wins[i]);
            assert(rect_fits(wins[i].visual()));
        }
        lemma_clip_covers(cand, init, p);
        let w = wins.last();
        assert(rect_fits(wins[wins.len() - 1].visual()));
        let (wl, wt, wr, wb) = w.visual();
        let e = clip_edges(cand, init);
        lemma_subtract_covers(e.left, wt as i32, wb as i32, p);
        lemma_subtract_covers(e.right, wt as i32, wb as i32, p);
        lemma_subtract_covers(e.top, wl as i32, wr as i32, p);
        lemma_subtract_covers(e.bottom, wl as i32, wr as i32, p);
        lemma_point_hidden_step(cand, wins, cl, p);
        lemma_point_hidden_step(cand, wins, cr, p);
        lemma_point_hidden_step(cand, wins, p, ct);
        lemma_point_hidden_step(cand, wins, p, cb);
    }
}

/// Intervals of positive total length cover some point.
proof fn lemma_visible_len_covers(ranges: Seq<(i32, i32)>)
    requires
        visible_len(ranges) > 0,
    ensures
        exists|x: int| #[trigger] covered(ranges, x),
    decreases ranges.len(),
{
    let last = ranges.last();
    if piece_len(last) > 0 {
        assert(ranges[ranges.len() - 1].0 <= last.0 < ranges[ranges.len() - 1].1);
        assert(covered(ranges, last.0 as int));
    } else {
        lemma_visible_len_covers(ranges.drop_last());
        let x = choose|x: int| #[trigger] covered(ranges.drop_last(), x);
        let i = choose|i: int| 0 <= i < ranges.drop_last().len() && ranges.drop_last()[i].0 <= x < #[trigger] ranges.drop_last()[i].1;
        assert(ranges[i] == ranges.drop_last()[i]);
        assert(covered(ranges, x));
    }
}

/// Spans that nobody crosses stay as they started.
proof fn lemma_clip_untouched(cand: SnapCandidate, wins: Seq<SnapWin>)
    ensures
        ({
            let (cl, ct, cr, cb) = cand.visual();
            let e = clip_edges(cand, wins);
            &&& (forall|i: int| 0 <= i < wins.len() && #[trigger] hides(cand, wins[i]) ==> !(wins[i].visual().0 <= cl < wins[i].visual().2))
                ==> e.left == seq![(ct as i32, cb as i32)]
            &&& (forall|i: int| 0 <= i < wins.len() && #[trigger] hides(cand, wins[i]) ==> !(wins[i].visual().0 <= cr < wins[i].visual().2))
                ==> e.right == seq![(ct as i32, cb as i32)]
            &&& (forall|i: int| 0 <= i < wins.len() && #[trigger] hides(cand, wins[i]) ==> !(wins[i].visual().1 <= ct < wins[i].visual().3))
                ==> e.top == seq![(cl as i32, cr as i32)]
            &&& (forall|i: int| 0 <= i < wins.len() && #[trigger] hides(cand, wins[i]) ==> !(wins[i].visual().1 <= cb < wins[i].visual().3))
                ==> e.bottom == seq![(cl as i32, cr as i32)]
        }),
    decreases wins.len(),
{
    if wins.len() > 0 {
        let init = wins.drop_last();
        lemma_clip_untouched(cand, init);
        let (cl, ct, cr, cb) = cand.visual();
        assert forall|i: int| 0 <= i < init.len() && #[trigger] hides(cand, init[i]) implies wins[i] == init[i] by {}
        assert(wins[wins.len() - 1] == wins.last());
        assert((forall|i: int| 0 <= i < wins.len() && #[trigger] hides(cand, wins[i]) ==> !(wins[i].visual().0 <= cl < wins[i].visual().2))
            ==> (forall|i: int| 0 <= i < init.len() && #[trigger] hides(cand, init[i]) ==> !(init[i].visual().0 <= cl < init[i].visual().2))) by {
            assert forall|i: int| 0 <= i < init.len() implies init[i] == wins[i] by {}
        }
        assert((forall|i: int| 0 <= i < wins.len() && #[trigger] hides(cand, wins[i]) ==> !(wins[i].visual().0 <= cr < wins[i].visual().2))
            ==> (forall|i: int| 0 <= i < init.len() && #[trigger] hides(cand, init[i]) ==> !(init[i].visual().0 <= cr < init[i].visual().2))) by {
            assert forall|i: int| 0 <= i < init.len() implies init[i] == wins[i] by {}
        }
        assert((forall|i: int| 0 <= i < wins.len() && #[trigger] hides(cand, wins[i]) ==> !(wins[i].visual().1 <= ct < wins[i].visual().3))
            ==> (forall|i: int| 0 <= i < init.len() && #[trigger] hides(cand, init[i]) ==> !(init[i].visual().1 <= ct < init[i].visual().3))) by {
            assert forall|i: int| 0 <= i < init.len() implies init[i] == wins[i] by {}
        }
        assert((forall|i: int| 0 <= i < wins.len() && #[trigger] hides(cand, wins[i]) ==> !(wins[i].visual().1 <= cb < wins[i].visual().3))
            ==> (forall|i: int| 0 <= i < init.len() && #[trigger] hides(cand, init[i]) ==> !(init[i].visual().1 <= cb < init[i].visual().3))) by {
            assert forall|i: int| 0 <= i < init.len() implies init[i] == wins[i] by {}
        }
    }
}

/// How many windows of the snapshot lie above the candidate: its depth `z`,
/// or the whole snapshot when that is shorter.
pub open spec fn depth_of(cand: SnapCandidate, all: Seq<SnapWin>) -> int {
    if cand.z < all.len() {
        cand.z as int
    } else {
        all.len() as int
    }
}

/// Law: an edge is clipped exactly by the windows above the candidate (the
/// first `z` of the snapshot) that may hide it, i.e. neither the candidate
/// itself nor a desktop-layer window. A point of an edge is kept iff none of
/// them covers it; an edge all of whose points are covered is hidden; and
/// an edge that none of them crosses keeps its visibility whenever it is at
/// least one pixel long.
pub proof fn lemma_refresh_clips_by_windows_above(cand: SnapCandidate, all: Seq<SnapWin>)
    requires
        rect_fits(cand.visual()),
        wins_fit(all, all.len() as int),
    ensures
        ({
            let (cl, ct, cr, cb) = cand.visual();
            let n = depth_of(cand, all);
            let e = clip_edges(cand, windows_above(cand, all));
            let c = refreshed(cand, all);
            &&& forall|p: int| #[trigger] covered(e.left, p) == (ct <= p < cb && !point_hidden(cand, all, n, cl, p))
            &&& forall|p: int| #[trigger] covered(e.right, p) == (ct <= p < cb && !point_hidden(cand, all, n, cr, p))
            &&& forall|p: int| #[trigger] covered(e.top, p) == (cl <= p < cr && !point_hidden(cand, all, n, p, ct))
            &&& forall|p: int| #[trigger] covered(e.bottom, p) == (cl <= p < cr && !point_hidden(cand, all, n, p, cb))
            &&& (forall|p: int| ct <= p < cb ==> #[trigger] point_hidden(cand, all, n, cl, p)) ==> !c.vis_l
            &&& (forall|p: int| ct <= p < cb ==> #[trigger] point_hidden(cand, all, n, cr, p)) ==> !c.vis_r
            &&& (forall|p: int| cl <= p < cr ==> #[trigger] point_hidden(cand, all, n, p, ct)) ==> !c.vis_t
            &&& (forall|p: int| cl <= p < cr ==> #[trigger] point_hidden(cand, all, n, p, cb)) ==> !c.vis_b
            &&& (forall|i: int| 0 <= i < n && all[i].hwnd != cand.hwnd && !all[i].desktop ==> !((#[trigger] all[i].visual()).0 <= cl < all[i].visual().2))
                ==> c.vis_l == (cb - ct >= 1)
            &&& (forall|i: int| 0 <= i < n && all[i].hwnd != cand.hwnd && !all[i].desktop ==> !((#[trigger] all[i].visual()).0 <= cr < all[i].visual().2))
                ==> c.vis_r == (cb - ct >= 1)
            &&& (forall|i: int| 0 <= i < n && all[i].hwnd != cand.hwnd && !all[i].desktop ==> !((#[trigger] all[i].visual()).1 <= ct < all[i].visual().3))
                ==> c.vis_t == (cr - cl >= 1)
            &&& (forall|i: int| 0 <= i < n && all[i].hwnd != cand.hwnd && !all[i].desktop ==> !((#[trigger] all[i].visual()).1 <= cb < all[i].visual().3))
                ==> c.vis_b == (cr - cl >= 1)
        }),
{
    let (cl, ct, cr, cb) = cand.visual();
    let n = depth_of(cand, all);
    let above = windows_above(cand, all);
    assert(above.len() == n);
    assert forall|i: int| 0 <= i < above.len() implies #[trigger] rect_fits(above[i].visual()) by {
        assert(above[i] == all[i]);
        assert(rect_fits(all[i].visual()));
    }
    let e = clip_edges(cand, above);
    assert forall|x: int, y: int| point_hidden(cand, above, n, x, y) == point_hidden(cand, all, n, x, y) by {
        if point_hidden(cand, above, n, x, y) {
            let i = choose|i: int|
                0 <= i < n && above[i].hwnd != cand.hwnd && !above[i].desktop && (#[trigger] above[i].visual()).0
                    <= x < above[i].visual().2 && above[i].visual().1 <= y < above[i].visual().3;
            assert(above[i] == all[i]);
            assert(all[i].visual() == above[i].visual());
        }
        if point_hidden(cand, all, n, x, y) {
            let i = choose|i: int|
                0 <= i < n && all[i].hwnd != cand.hwnd && !all[i].desktop && (#[trigger] all[i].visual()).0
                    <= x < all[i].visual().2 && all[i].visual().1 <= y < all[i].visual().3;
            assert(above[i] == all[i]);
            assert(above[i].visual() == all[i].visual());
        }
    }
    assert forall|p: int| #[trigger] covered(e.left, p) == (ct <= p < cb && !point_hidden(cand, all, n, cl, p)) by {
        lemma_clip_covers(cand, above, p);
    }
    assert forall|p: int| #[trigger] covered(e.right, p) == (ct <= p < cb && !point_hidden(cand, all, n, cr, p)) by {
        lemma_clip_covers(cand, above, p);
    }
    assert forall|p: int| #[trigger] covered(e.top, p) == (cl <= p < cr && !point_hidden(cand, all, n, p, ct)) by {
        lemma_clip_covers(cand, above, p);
    }
    assert forall|p: int| #[trigger] covered(e.bottom, p) == (cl <= p < cr && !point_hidden(cand, all, n, p, cb)) by {
        lemma_clip_covers(cand, above, p);
    }
    if forall|p: int| ct <= p < cb ==> #[trigger] point_hidden(cand, all, n, cl, p) {
        if visible_len(e.left) > 0 {
            lemma_visible_len_covers(e.left);
            let x = choose|x: int| #[trigger] covered(e.left, x);
            lemma_clip_covers(cand, above, x);
        }
    }
    if forall|p: int| ct <= p < cb ==> #[trigger] point_hidden(cand, all, n, cr, p) {
        if visible_len(e.right) > 0 {
            lemma_visible_len_covers(e.right);
            let x = choose|x: int| #[trigger] covered(e.right, x);
            lemma_clip_covers(cand, above, x);
        }
    }
    if forall|p: int| cl <= p < cr ==> #[trigger] point_hidden(cand, all, n, p, ct) {
        if visible_len(e.top) > 0 {
            lemma_visible_len_covers(e.top);
            let x = choose|x: int| #[trigger] covered(e.top, x);
            lemma_clip_covers(cand, above, x);
        }
    }
    if forall|p: int| cl <= p < cr ==> #[trigger] point_hidden(cand, all, n, p, cb) {
        if visible_len(e.bottom) > 0 {
            lemma_visible_len_covers(e.bottom);
            let x = choose|x: int| #[trigger] covered(e.bottom, x);
            lemma_clip_covers(cand, above, x);
        }
    }
    lemma_clip_untouched(cand, above);
    assert forall|i: int| 0 <= i < above.len() && #[trigger] hides(cand, above[i]) implies above[i] == all[i] by {}
    let ys: Seq<(i32, i32)> = seq![(ct as i32, cb as i32)];
    let xs: Seq<(i32, i32)> = seq![(cl as i32, cr as i32)];
    assert(ys.drop_last() =~= Seq::<(i32, i32)>::empty());
    assert(xs.drop_last() =~= Seq::<(i32, i32)>::empty());
    assert(visible_len(Seq::<(i32, i32)>::empty()) == 0);
    assert(visible_len(ys) == piece_len((ct as i32, cb as i32)));
    assert(visible_len(xs) == piece_len((cl as i32, cr as i32)));
}

/// Windows from position `a` on that do not cross the left edge's line
/// leave the left edge's spans as they were after the first `a`.
proof fn lemma_clip_left_suffix(cand: SnapCandidate, wins: Seq<SnapWin>, a: int)
    requires
        0 <= a <= wins.len(),
        forall|j: int| a <= j < wins.len() && #[trigger] hides(cand, wins[j]) ==> !(wins[j].visual().0 <= cand.visual().0
            < wins[j].visual().2),
    ensures
        clip_edges(cand, wins).left == clip_edges(cand, wins.take(a)).left,
    decreases wins.len() - a,
{
    if wins.len() > a {
        let pre = wins.drop_last();
        assert forall|j: int| a <= j < pre.len() && #[trigger] hides(cand, pre[j]) implies !(pre[j].visual().0
            <= cand.visual().0 < pre[j].visual().2) by {
            assert(pre[j] == wins[j]);
        }
        lemma_clip_left_suffix(cand, pre, a);
        assert(pre.take(a) =~= wins.take(a));
        assert(wins[wins.len() - 1] == wins.last());
    } else {
        assert(wins.take(a) =~= wins);
    }
}

/// Law: an edge counts as visible when at least a third of it is left
/// uncovered. Where exactly one window above the candidate that may hide
/// it crosses the line of the left edge, the left edge is visible iff three
/// times its length less the part that window covers reaches its length
/// (and at least one pixel).
pub proof fn lemma_refresh_third_rule(cand: SnapCandidate, all: Seq<SnapWin>, i: int)
    requires
        rect_fits(cand.visual()),
        wins_fit(all, all.len() as int),
        cand.visual().1 <= cand.visual().3,
        0 <= i < depth_of(cand, all),
        all[i].hwnd != cand.hwnd && !all[i].desktop,
        all[i].visual().0 <= cand.visual().0 < all[i].visual().2,
        forall|j: int|
            0 <= j < depth_of(cand, all) && j != i && all[j].hwnd != cand.hwnd && !all[j].desktop ==> !((#[trigger] all[j].visual()).0
                <= cand.visual().0 < all[j].visual().2),
    ensures
        ({
            let (cl, ct, cr, cb) = cand.visual();
            let (wl, wt, wr, wb) = all[i].visual();
            let lo = if wt > ct { wt } else { ct };
            let hi = if wb < cb { wb } else { cb };
            let covered_part = if hi > lo { hi - lo } else { 0 };
            let len = cb - ct;
            refreshed(cand, all).vis_l == (3 * (len - covered_part) >= if len > 1 { len } else { 1 })
        }),
{
    let (cl, ct, cr, cb) = cand.visual();
    let above = windows_above(cand, all);
    assert(above.len() == depth_of(cand, all));
    assert(above[i] == all[i]);
    let w = all[i];
    assert(rect_fits(all[i].visual()));
    let (wl, wt, wr, wb) = w.visual();
    let pre = above.take(i);
    assert forall|j: int| 0 <= j < pre.len() && #[trigger] hides(cand, pre[j]) implies !(pre[j].visual().0 <= cl
        < pre[j].visual().2) by {
        assert(pre[j] == all[j]);
    }
    lemma_clip_untouched(cand, pre);
    let one = above.take(i + 1);
    assert(one.drop_last() =~= pre);
    assert(one.last() == all[i]);
    let start: Seq<(i32, i32)> = seq![(ct as i32, cb as i32)];
    assert(clip_edges(cand, pre).left == start);
    assert(start.drop_last() =~= Seq::<(i32, i32)>::empty());
    assert(subtract_spec(Seq::<(i32, i32)>::empty(), wt as i32, wb as i32) =~= Seq::<(i32, i32)>::empty());
    assert(start.last() == (ct as i32, cb as i32));
    assert(subtract_spec(start, wt as i32, wb as i32) =~= subtract_one((ct as i32, cb as i32), wt as i32, wb as i32));
    assert(clip_edges(cand, one).left == subtract_one((ct as i32, cb as i32), wt as i32, wb as i32));
    assert forall|j: int| i + 1 <= j < above.len() && #[trigger] hides(cand, above[j]) implies !(above[j].visual().0
        <= cl < above[j].visual().2) by {
        assert(above[j] == all[j]);
    }
    lemma_clip_left_suffix(cand, above, i + 1);
    let pieces = subtract_one((ct as i32, cb as i32), wt as i32, wb as i32);
    assert(visible_len(Seq::<(i32, i32)>::empty()) == 0);
    if wb <= ct || wt >= cb {
        assert(pieces == start);
        assert(visible_len(start) == piece_len((ct as i32, cb as i32)));
    } else {
        let p1: Seq<(i32, i32)> = if ct < wt { seq![(ct as i32, wt as i32)] } else { seq![] };
        let p2: Seq<(i32, i32)> = if cb > wb { seq![(wb as i32, cb as i32)] } else { seq![] };
        assert(pieces == p1 + p2);
        if ct < wt && cb > wb {
            assert((p1 + p2).drop_last() =~= p1);
            assert(p1.drop_last() =~= Seq::<(i32, i32)>::empty());
            assert(visible_len(p1) == wt - ct);
            assert(visible_len(p1 + p2) == (wt - ct) + (cb - wb));
        } else if ct < wt {
            assert(p1 + p2 =~= p1);
            assert(p1.drop_last() =~= Seq::<(i32, i32)>::empty());
        } else if cb > wb {
            assert(p1 + p2 =~= p2);
            assert(p2.drop_last() =~= Seq::<(i32, i32)>::empty());
        } else {
            assert(p1 + p2 =~= Seq::<(i32, i32)>::empty());
        }
    }
}

/// Law: only the windows above a candidate decide its edges. Two snapshots
/// that agree on their first `z` windows (those above a candidate at depth
/// `z`) give the candidate the same visibility, whatever lies below it.
pub proof fn lemma_refresh_only_windows_above(cand: SnapCandidate, all1: Seq<SnapWin>, all2: Seq<SnapWin>)
    requires
        cand.z <= all1.len(),
        cand.z <= all2.len(),
        all1.take(cand.z as int) == all2.take(cand.z as int),
    ensures
        refreshed(cand, all1).vis_l == refreshed(cand, all2).vis_l,
        refreshed(cand, all1).vis_r == refreshed(cand, all2).vis_r,
        refreshed(cand, all1).vis_t == refreshed(cand, all2).vis_t,
        refreshed(cand, all1).vis_b == refreshed(cand, all2).vis_b,
        refreshed(cand, all1) == refreshed(cand, all2),
{
}

/// Law: nothing hides the edges of the topmost candidate (depth 0): each of
/// its edges that is at least one pixel long stays visible, whatever the
/// snapshot holds.
pub proof fn lemma_refresh_topmost_visible(cand: SnapCandidate, all: Seq<SnapWin>)
    requires
        cand.z == 0,
        rect_fits(cand.visual()),
    ensures
        cand.visual().3 > cand.visual().1 ==> refreshed(cand, all).vis_l && refreshed(cand, all).vis_r,
        cand.visual().2 > cand.visual().0 ==> refreshed(cand, all).vis_t && refreshed(cand, all).vis_b,
        refreshed(cand, all).hwnd == cand.hwnd && refreshed(cand, all).frame == cand.frame,
{
    let (cl, ct, cr, cb) = cand.visual();
    assert(windows_above(cand, all) =~= Seq::<SnapWin>::empty());
    let e = clip_edges(cand, Seq::<SnapWin>::empty());
    let ys: Seq<(i32, i32)> = seq![(ct as i32, cb as i32)];
    let xs: Seq<(i32, i32)> = seq![(cl as i32, cr as i32)];
    assert(e.left == ys && e.right == ys && e.top == xs && e.bottom == xs);
    assert(ys.drop_last() =~= Seq::<(i32, i32)>::empty());
    assert(xs.drop_last() =~= Seq::<(i32, i32)>::empty());
    assert(visible_len(Seq::<(i32, i32)>::empty()) == 0);
    assert(visible_len(ys) == piece_len((ct as i32, cb as i32)));
    assert(visible_len(xs) == piece_len((cl as i32, cr as i32)));
}

/// Recomputes each candidate's edge visibility for the current frame: every
/// edge is clipped against the visible rectangles of all windows above the
/// candidate (desktop-layer windows and the candidate itself excepted); an
/// edge stays usable for snapping when at least a third of it is uncovered.
pub fn refresh_candidate_visibility(cands: &mut Vec<SnapCandidate>, all: &[SnapWin])
    requires
        forall|i: int| 0 <= i < old(cands)@.len() ==> #[trigger] refresh_fits(old(cands)@[i], all@),
    ensures
        final(cands)@.len() == old(cands)@.len(),
        forall|i: int|
            0 <= i < old(cands)@.len() ==> #[trigger] final(cands)@[i] == refreshed(old(cands)@[i], all@),
{
    let mut i: usize = 0;
    while i < cands.len()
        invariant
            i <= cands.len(),
            cands@.len() == old(cands)@.len(),
            forall|k: int| 0 <= k < old(cands)@.len() ==> #[trigger] refresh_fits(old(cands)@[k], all@),
            forall|k: int| 0 <= k < i ==> #[trigger] cands@[k] == refreshed(old(cands)@[k], all@),
            forall|k: int| i <= k < cands@.len() ==> #[trigger] cands@[k] == old(cands)@[k],
        decreases cands.len() - i,
    {
        let c = cands[i];
        assert(c == old(cands)@[i as int]);
        let r = refresh_one(c, all);
        cands.set(i, r);
        i = i + 1;
    }
}

// ── Snap anchors ──

/// One anchor considered while snapping along an axis: the distance is
/// `|da - db|`; the anchor is only eligible when `edge` is already within the
/// threshold of `target`, the drag is at rest, or it moves towards `target`;
/// taking it places the window's near edge at `ra - rb`.
pub struct AnchorCheck {
    pub da: int,
    pub db: int,
    pub edge: int,
    pub target: int,
    pub ra: int,
    pub rb: int,
    pub dir: int,
}

/// Best anchor so far: distance and (position, direction).
pub type AnchorBest = (int, Option<(int, int)>);

pub open spec fn abs_int(x: int) -> int {
    if x < 0 {
        -x
    } else {
        x
    }
}

/// Whether the anchor may be taken while dragging by `d` along the axis.
pub open spec fn eligible(ck: AnchorCheck, d: int) -> bool {
    abs_int(ck.target - ck.edge) <= SNAP_THRESHOLD || d == 0 || (ck.target - ck.edge) * d > 0
}

/// Considering one anchor: it replaces the best so far when eligible and
/// strictly closer.
pub open spec fn anchor_step(st: AnchorBest, ck: AnchorCheck, d: int) -> AnchorBest {
    if eligible(ck, d) && abs_int(ck.da - ck.db) < st.0 {
        (abs_int(ck.da - ck.db), Some((ck.ra - ck.rb, ck.dir)))
    } else {
        st
    }
}

/// The best anchor after considering `cks` in order, starting from `st`.
pub open spec fn anchor_fold(st: AnchorBest, cks: Seq<AnchorCheck>, d: int) -> AnchorBest
    decreases cks.len(),
{
    if cks.len() == 0 {
        st
    } else {
        anchor_step(anchor_fold(st, cks.drop_last(), d), cks.last(), d)
    }
}

/// The `i32` arithmetic of considering one anchor does not overflow.
pub open spec fn anchor_step_fits(st: AnchorBest, ck: AnchorCheck, d: int) -> bool {
    &&& fits_i32(ck.da - ck.db) && ck.da - ck.db != i32::MIN
    &&& fits_i32(ck.target - ck.edge) && ck.target - ck.edge != i32::MIN
    &&& (eligible(ck, d) && abs_int(ck.da - ck.db) < st.0 ==> fits_i32(ck.ra - ck.rb))
}

pub open spec fn anchor_fold_fits(st: AnchorBest, cks: Seq<AnchorCheck>, d: int) -> bool
    decreases cks.len(),
{
    if cks.len() == 0 {
        true
    } else {
        anchor_fold_fits(st, cks.drop_last(), d) && anchor_step_fits(
            anchor_fold(st, cks.drop_last(), d),
            cks.last(),
            d,
        )
    }
}

pub open spec fn check(da: int, db: int, edge: int, target: int, ra: int, rb: int, dir: int) -> AnchorCheck {
    AnchorCheck { da, db, edge, target, ra, rb, dir }
}

/// The screen anchors along an axis for a window whose near edge is at `v`
/// and whose size is `size`, on a screen of extent `extent`.
pub open spec fn screen_checks(v: int, size: int, extent: int) -> Seq<AnchorCheck> {
    seq![
        check(v, 0, v, 0, 0, 0, 1),
        check(extent, v + size, v + size, extent, extent, size, 2),
    ]
}

/// The anchors of one candidate whose near and far edges on this axis are
/// `lo` and `hi`: adjacent (near to far, far to near) and same-side
/// alignment, each only for an edge that is visible.
pub open spec fn candidate_checks(v: int, size: int, lo: int, hi: int, vis_lo: bool, vis_hi: bool) -> Seq<AnchorCheck> {
    let far = v + size;
    (if vis_hi { seq![check(v, hi, v, hi, hi, 0, 1)] } else { seq![] })
    + (if vis_lo { seq![check(far, lo, far, lo, lo, size, 2)] } else { seq![] })
    + (if vis_lo { seq![check(v, lo, v, lo, lo, 0, 1)] } else { seq![] })
    + (if vis_hi { seq![check(far, hi, far, hi, hi, size, 2)] } else { seq![] })
}

/// Horizontal anchors of the candidates that overlap the dragged window
/// vertically (touching counts).
pub open spec fn candidate_checks_x(
    vx: int,
    vw: int,
    vt: int,
    vh: int,
    cands: Seq<SnapCandidate>,
) -> Seq<AnchorCheck>
    decreases cands.len(),
{
    if cands.len() == 0 {
        seq![]
    } else {
        let c = cands.last();
        let (cl, ct, cr, cb) = c.visual();
        candidate_checks_x(vx, vw, vt, vh, cands.drop_last()) + if vt <= cb && ct <= vt + vh {
            candidate_checks(vx, vw, cl, cr, c.vis_l, c.vis_r)
        } else {
            seq![]
        }
    }
}

/// Vertical anchors of the candidates that overlap the dragged window
/// horizontally (touching counts).
pub open spec fn candidate_checks_y(
    vy: int,
    vh: int,
    vx: int,
    vw: int,
    cands: Seq<SnapCandidate>,
) -> Seq<AnchorCheck>
    decreases cands.len(),
{
    if cands.len() == 0 {
        seq![]
    } else {
        let c = cands.last();
        let (cl, ct, cr, cb) = c.visual();
        candidate_checks_y(vy, vh, vx, vw, cands.drop_last()) + if vx <= cr && cl <= vx + vw {
            candidate_checks(vy, vh, ct, cb, c.vis_t, c.vis_b)
        } else {
            seq![]
        }
    }
}

/// All anchors along the x axis, screen edges first.
pub open spec fn anchor_checks_x(
    vx: int,
    vw: int,
    vt: int,
    vh: int,
    sw: int,
    screen_on: bool,
    cands: Seq<SnapCandidate>,
) -> Seq<AnchorCheck> {
    (if screen_on { screen_checks(vx, vw, sw) } else { seq![] }) + candidate_checks_x(vx, vw, vt, vh, cands)
}

/// All anchors along the y axis, screen edges first.
pub open spec fn anchor_checks_y(
    vy: int,
    vh: int,
    vx: int,
    vw: int,
    sht: int,
    screen_on: bool,
    cands: Seq<SnapCandidate>,
) -> Seq<AnchorCheck> {
    (if screen_on { screen_checks(vy, vh, sht) } else { seq![] }) + candidate_checks_y(vy, vh, vx, vw, cands)
}

pub open spec fn no_anchor() -> AnchorBest {
    (i32::MAX as int, None)
}

/// The snapping answer from the best anchor: target position, direction,
/// distance.
pub open spec fn anchor_result(best: AnchorBest) -> Option<(int, int, int)> {
    match best.1 {
        Some((t, dir)) => Some((t, dir, best.0)),
        None => None,
    }
}

pub open spec fn as_int3(r: Option<(i32, i32, i32)>) -> Option<(int, int, int)> {
    match r {
        Some((a, b, c)) => Some((a as int, b as int, c as int)),
        None => None,
    }
}

/// The visible rectangles of the candidates fit in `i32`.
pub open spec fn candidates_fit(cands: Seq<SnapCandidate>) -> bool {
    forall|i: int| 0 <= i < cands.len() ==> #[trigger] rect_fits(cands[i].visual())
}

proof fn lemma_anchor_fold_concat(st: AnchorBest, a: Seq<AnchorCheck>, b: Seq<AnchorCheck>, d: int)
    ensures
        anchor_fold(st, a + b, d) == anchor_fold(anchor_fold(st, a, d), b, d),
        anchor_fold_fits(st, a + b, d) == (anchor_fold_fits(st, a, d) && anchor_fold_fits(
            anchor_fold(st, a, d),
            b,
            d,
        )),
    decreases b.len(),
{
    if b.len() == 0 {
        assert(a + b =~= a);
    } else {
        lemma_anchor_fold_concat(st, a, b.drop_last(), d);
        assert((a + b).drop_last() =~= a + b.drop_last());
        assert((a + b).last() == b.last());
    }
}

proof fn lemma_anchor_fold_single(st: AnchorBest, ck: AnchorCheck, d: int)
    ensures
        anchor_fold(st, seq![ck], d) == anchor_step(st, ck, d),
        anchor_fold_fits(st, seq![ck], d) == anchor_step_fits(st, ck, d),
{
    assert(seq![ck].drop_last() =~= Seq::<AnchorCheck>::empty());
    assert(seq![ck].last() == ck);
    assert(anchor_fold(st, Seq::<AnchorCheck>::empty(), d) == st);
    assert(anchor_fold_fits(st, Seq::<AnchorCheck>::empty(), d));
}

/// Considers one anchor in `i32` arithmetic.
fn consider(
    best_dist: i32,
    best: Option<(i32, i32)>,
    d: i32,
    da: i32,
    db: i32,
    edge: i32,
    target: i32,
    ra: i32,
    rb: i32,
    dir: i32,
) -> (r: (i32, Option<(i32, i32)>))
    requires
        anchor_step_fits(
            (best_dist as int, as_pair(best)),
            check(da as int, db as int, edge as int, target as int, ra as int, rb as int, dir as int),
            d as int,
        ),
    ensures
        (r.0 as int, as_pair(r.1)) == anchor_step(
            (best_dist as int, as_pair(best)),
            check(da as int, db as int, edge as int, target as int, ra as int, rb as int, dir as int),
            d as int,
        ),
{
    let diff = da - db;
    let dist = if diff < 0 { -diff } else { diff };
    let gap = target - edge;
    let gap_abs = if gap < 0 { -gap } else { gap };
    let g64 = gap as i64;
    let d64 = d as i64;
    assert(-0x4000_0000_0000_0000 <= g64 * d64 <= 0x4000_0000_0000_0000) by (nonlinear_arith)
        requires
            -0x8000_0000 <= g64 <= 0x7fff_ffff,
            -0x8000_0000 <= d64 <= 0x7fff_ffff,
    ;
    let near = gap_abs <= SNAP_THRESHOLD || d == 0 || g64 * d64 > 0;
    if near && dist < best_dist {
        (dist, Some((ra - rb, dir)))
    } else {
        (best_dist, best)
    }
}

pub open spec fn as_pair(p: Option<(i32, i32)>) -> Option<(int, int)> {
    match p {
        Some((a, b)) => Some((a as int, b as int)),
        None => None,
    }
}

/// Considers the anchors of one candidate whose near/far edges on this axis
/// are `lo`/`hi`, for a window at `v` of size `size` whose far edge is `far`.
fn consider_candidate(
    st: (i32, Option<(i32, i32)>),
    d: i32,
    v: i32,
    size: i32,
    far: i32,
    lo: i32,
    hi: i32,
    vis_lo: bool,
    vis_hi: bool,
) -> (r: (i32, Option<(i32, i32)>))
    requires
        far == v + size,
        anchor_fold_fits(
            (st.0 as int, as_pair(st.1)),
            candidate_checks(v as int, size as int, lo as int, hi as int, vis_lo, vis_hi),
            d as int,
        ),
    ensures
        (r.0 as int, as_pair(r.1)) == anchor_fold(
            (st.0 as int, as_pair(st.1)),
            candidate_checks(v as int, size as int, lo as int, hi as int, vis_lo, vis_hi),
            d as int,
        ),
{
    let ghost s0 = (st.0 as int, as_pair(st.1));
    let ghost c1: Seq<AnchorCheck> = if vis_hi { seq![check(v as int, hi as int, v as int, hi as int, hi as int, 0, 1)] } else { seq![] };
    let ghost c2: Seq<AnchorCheck> = if vis_lo { seq![check(far as int, lo as int, far as int, lo as int, lo as int, size as int, 2)] } else { seq![] };
    let ghost c3: Seq<AnchorCheck> = if vis_lo { seq![check(v as int, lo as int, v as int, lo as int, lo as int, 0, 1)] } else { seq![] };
    let ghost c4: Seq<AnchorCheck> = if vis_hi { seq![check(far as int, hi as int, far as int, hi as int, hi as int, size as int, 2)] } else { seq![] };
    proof {
        assert(candidate_checks(v as int, size as int, lo as int, hi as int, vis_lo, vis_hi) == c1 + c2 + c3 + c4);
        lemma_anchor_fold_concat(s0, c1 + c2 + c3, c4, d as int);
        lemma_anchor_fold_concat(s0, c1 + c2, c3, d as int);
        lemma_anchor_fold_concat(s0, c1, c2, d as int);
        assert(anchor_fold(s0, Seq::<AnchorCheck>::empty(), d as int) == s0);
        assert(anchor_fold_fits(s0, Seq::<AnchorCheck>::empty(), d as int));
    }
    let mut cur = st;
    let ghost s1 = anchor_fold(s0, c1, d as int);
    if vis_hi {
        proof { lemma_anchor_fold_single(s0, c1[0], d as int); assert(c1 =~= seq![c1[0]]); }
        cur = consider(cur.0, cur.1, d, v, hi, v, hi, hi, 0, 1);
    } else {
        assert(anchor_fold(s0, c1, d as int) == s0);
    }
    assert((cur.0 as int, as_pair(cur.1)) == s1);
    let ghost s2 = anchor_fold(s1, c2, d as int);
    if vis_lo {
        proof { lemma_anchor_fold_single(s1, c2[0], d as int); assert(c2 =~= seq![c2[0]]); }
        cur = consider(cur.0, cur.1, d, far, lo, far, lo, lo, size, 2);
    } else {
        assert(anchor_fold(s1, c2, d as int) == s1);
    }
    assert((cur.0 as int, as_pair(cur.1)) == s2);
    let ghost s3 = anchor_fold(s2, c3, d as int);
    if vis_lo {
        proof { lemma_anchor_fold_single(s2, c3[0], d as int); assert(c3 =~= seq![c3[0]]); }
        cur = consider(cur.0, cur.1, d, v, lo, v, lo, lo, 0, 1);
    } else {
        assert(anchor_fold(s2, c3, d as int) == s2);
    }
    assert((cur.0 as int, as_pair(cur.1)) == s3);
    if vis_hi {
        proof { lemma_anchor_fold_single(s3, c4[0], d as int); assert(c4 =~= seq![c4[0]]); }
        cur = consider(cur.0, cur.1, d, far, hi, far, hi, hi, size, 2);
    } else {
        assert(anchor_fold(s3, c4, d as int) == s3);
    }
    cur
}

proof fn lemma_checks_x_concat(vx: int, vw: int, vt: int, vh: int, a: Seq<SnapCandidate>, b: Seq<SnapCandidate>)
    ensures
        candidate_checks_x(vx, vw, vt, vh, a + b) == candidate_checks_x(vx, vw, vt, vh, a)
            + candidate_checks_x(vx, vw, vt, vh, b),
    decreases b.len(),
{
    if b.len() == 0 {
        assert(a + b =~= a);
        assert(candidate_checks_x(vx, vw, vt, vh, a) + Seq::<AnchorCheck>::empty() =~= candidate_checks_x(vx, vw, vt, vh, a));
    } else {
        lemma_checks_x_concat(vx, vw, vt, vh, a, b.drop_last());
        assert((a + b).drop_last() =~= a + b.drop_last());
        assert((a + b).last() == b.last());
        let one = {
            let c = b.last();
            let (cl, ct, cr, cb) = c.visual();
            if vt <= cb && ct <= vt + vh { candidate_checks(vx, vw, cl, cr, c.vis_l, c.vis_r) } else { seq![] }
        };
        assert(candidate_checks_x(vx, vw, vt, vh, a) + candidate_checks_x(vx, vw, vt, vh, b.drop_last()) + one
            =~= candidate_checks_x(vx, vw, vt, vh, a) + (candidate_checks_x(vx, vw, vt, vh, b.drop_last()) + one));
    }
}

proof fn lemma_checks_y_concat(vy: int, vh: int, vx: int, vw: int, a: Seq<SnapCandidate>, b: Seq<SnapCandidate>)
    ensures
        candidate_checks_y(vy, vh, vx, vw, a + b) == candidate_checks_y(vy, vh, vx, vw, a)
            + candidate_checks_y(vy, vh, vx, vw, b),
    decreases b.len(),
{
    if b.len() == 0 {
        assert(a + b =~= a);
        assert(candidate_checks_y(vy, vh, vx, vw, a) + Seq::<AnchorCheck>::empty() =~= candidate_checks_y(vy, vh, vx, vw, a));
    } else {
        lemma_checks_y_concat(vy, vh, vx, vw, a, b.drop_last());
        assert((a + b).drop_last() =~= a + b.drop_last());
        assert((a + b).last() == b.last());
        let one = {
            let c = b.last();
            let (cl, ct, cr, cb) = c.visual();
            if vx <= cr && cl <= vx + vw { candidate_checks(vy, vh, ct, cb, c.vis_t, c.vis_b) } else { seq![] }
        };
        assert(candidate_checks_y(vy, vh, vx, vw, a) + candidate_checks_y(vy, vh, vx, vw, b.drop_last()) + one
            =~= candidate_checks_y(vy, vh, vx, vw, a) + (candidate_checks_y(vy, vh, vx, vw, b.drop_last()) + one));
    }
}

/// Horizontal snap anchor nearest to the dragged window, as (target visible
/// left, direction 1 = left edge / 2 = right edge, distance).
///
/// The window's visible rectangle is `vx, vt` with size `vw x vh`; `dx` is
/// the drag offset. Screen left/right edges are anchors when `screen_on`;
/// each candidate overlapping the window vertically (touching counts)
/// offers adjacent (left to its right, right to its left) and same-side
/// alignment, each only with its visible edges. An anchor is eligible when
/// already within the threshold, when the drag is at rest, or when the edge
/// moves towards it; the nearest eligible anchor wins, the first on ties.
pub fn snap_anchor_x(
    dx: i32,
    vx: i32,
    vw: i32,
    vt: i32,
    vh: i32,
    sw: i32,
    screen_on: bool,
    candidates: &[SnapCandidate],
) -> (r: Option<(i32, i32, i32)>)
    requires
        fits_i32(vx + vw),
        fits_i32(vt + vh),
        candidates_fit(candidates@),
        anchor_fold_fits(no_anchor(), anchor_checks_x(vx as int, vw as int, vt as int, vh as int, sw as int, screen_on, candidates@), dx as int),
    ensures
        as_int3(r) == anchor_result(anchor_fold(no_anchor(), anchor_checks_x(vx as int, vw as int, vt as int, vh as int, sw as int, screen_on, candidates@), dx as int)),
{
    let vis_r = vx + vw;
    let vis_b = vt + vh;
    let ghost d = dx as int;
    let ghost scr: Seq<AnchorCheck> = if screen_on { screen_checks(vx as int, vw as int, sw as int) } else { seq![] };
    let ghost all_c = candidate_checks_x(vx as int, vw as int, vt as int, vh as int, candidates@);
    proof {
        lemma_anchor_fold_concat(no_anchor(), scr, all_c, d);
    }
    let mut st: (i32, Option<(i32, i32)>) = (i32::MAX, None);
    if screen_on {
        let ghost c0 = check(vx as int, 0, vx as int, 0, 0, 0, 1);
        let ghost c1 = check(sw as int, vis_r as int, vis_r as int, sw as int, sw as int, vw as int, 2);
        proof {
            assert(scr =~= seq![c0] + seq![c1]);
            lemma_anchor_fold_concat(no_anchor(), seq![c0], seq![c1], d);
            lemma_anchor_fold_single(no_anchor(), c0, d);
            lemma_anchor_fold_single(anchor_step(no_anchor(), c0, d), c1, d);
        }
        st = consider(st.0, st.1, dx, vx, 0, vx, 0, 0, 0, 1);
        st = consider(st.0, st.1, dx, sw, vis_r, vis_r, sw, sw, vw, 2);
    } else {
        assert(anchor_fold(no_anchor(), scr, d) == no_anchor());
    }
    proof {
        assert(candidates@.skip(0) =~= candidates@);
        assert(candidates@.take(0) =~= Seq::<SnapCandidate>::empty());
        assert(candidate_checks_x(vx as int, vw as int, vt as int, vh as int, Seq::<SnapCandidate>::empty()) =~= Seq::<AnchorCheck>::empty());
        assert(scr + Seq::<AnchorCheck>::empty() =~= scr);
    }
    let mut i: usize = 0;
    while i < candidates.len()
        invariant
            i <= candidates.len(),
            vis_r == vx + vw,
            vis_b == vt + vh,
            d == dx as int,
            candidates_fit(candidates@),
            (st.0 as int, as_pair(st.1)) == anchor_fold(no_anchor(), scr + candidate_checks_x(vx as int, vw as int, vt as int, vh as int, candidates@.take(i as int)), d),
            anchor_fold_fits((st.0 as int, as_pair(st.1)), candidate_checks_x(vx as int, vw as int, vt as int, vh as int, candidates@.skip(i as int)), d),
        decreases candidates.len() - i,
    {
        let ghost s_before = (st.0 as int, as_pair(st.1));
        let c = candidates[i];
        assert(c == candidates@[i as int]);
        assert(rect_fits(candidates@[i as int].visual()));
        let (cl, ct, cr, cb) = c.visual_rect();
        let ghost one: Seq<AnchorCheck> = if vt <= cb && ct <= vis_b { candidate_checks(vx as int, vw as int, cl as int, cr as int, c.vis_l, c.vis_r) } else { seq![] };
        proof {
            let tk = candidates@.take(i as int);
            let sk = candidates@.skip(i as int);
            assert(candidates@.take(i + 1) =~= tk + seq![candidates@[i as int]]);
            assert(sk =~= seq![candidates@[i as int]] + candidates@.skip(i + 1));
            lemma_checks_x_concat(vx as int, vw as int, vt as int, vh as int, tk, seq![candidates@[i as int]]);
            lemma_checks_x_concat(vx as int, vw as int, vt as int, vh as int, seq![candidates@[i as int]], candidates@.skip(i + 1));
            assert(seq![candidates@[i as int]].drop_last() =~= Seq::<SnapCandidate>::empty());
            assert(seq![candidates@[i as int]].last() == candidates@[i as int]);
            assert(candidate_checks_x(vx as int, vw as int, vt as int, vh as int, Seq::<SnapCandidate>::empty()) =~= Seq::<AnchorCheck>::empty());
            assert(Seq::<AnchorCheck>::empty() + one =~= one);
            assert(candidate_checks_x(vx as int, vw as int, vt as int, vh as int, seq![candidates@[i as int]]) =~= one);
            assert(candidate_checks_x(vx as int, vw as int, vt as int, vh as int, sk) == one + candidate_checks_x(vx as int, vw as int, vt as int, vh as int, candidates@.skip(i + 1)));
            lemma_anchor_fold_concat(s_before, one, candidate_checks_x(vx as int, vw as int, vt as int, vh as int, candidates@.skip(i + 1)), d);
            assert(anchor_fold_fits(s_before, one, d));
            lemma_anchor_fold_concat(no_anchor(), scr + candidate_checks_x(vx as int, vw as int, vt as int, vh as int, tk), one, d);
            assert(scr + candidate_checks_x(vx as int, vw as int, vt as int, vh as int, tk) + one =~= scr + candidate_checks_x(vx as int, vw as int, vt as int, vh as int, candidates@.take(i + 1)));
        }
        if vt <= cb && ct <= vis_b {
            assert(one == candidate_checks(vx as int, vw as int, cl as int, cr as int, c.vis_l, c.vis_r));
            assert(s_before == (st.0 as int, as_pair(st.1)));
            st = consider_candidate(st, dx, vx, vw, vis_r, cl, cr, c.vis_l, c.vis_r);
        } else {
            assert(anchor_fold(s_before, one, d) == s_before);
        }
        i = i + 1;
    }
    proof {
        assert(candidates@.take(candidates.len() as int) =~= candidates@);
    }
    match st.1 {
        Some((target, dir)) => Some((target, dir, st.0)),
        None => None,
    }
}

/// Vertical snap anchor nearest to the dragged window, as (target visible
/// top, direction 1 = top edge / 2 = bottom edge, distance): the vertical
/// counterpart of `snap_anchor_x`, with candidates that overlap the window
/// horizontally (touching counts).
pub fn snap_anchor_y(
    dy: i32,
    vy: i32,
    vh: i32,
    vx: i32,
    vw: i32,
    sht: i32,
    screen_on: bool,
    candidates: &[SnapCandidate],
) -> (r: Option<(i32, i32, i32)>)
    requires
        fits_i32(vy + vh),
        fits_i32(vx + vw),
        candidates_fit(candidates@),
        anchor_fold_fits(no_anchor(), anchor_checks_y(vy as int, vh as int, vx as int, vw as int, sht as int, screen_on, candidates@), dy as int),
    ensures
        as_int3(r) == anchor_result(anchor_fold(no_anchor(), anchor_checks_y(vy as int, vh as int, vx as int, vw as int, sht as int, screen_on, candidates@), dy as int)),
{
    let vis_b = vy + vh;
    let vis_r = vx + vw;
    let ghost d = dy as int;
    let ghost scr: Seq<AnchorCheck> = if screen_on { screen_checks(vy as int, vh as int, sht as int) } else { seq![] };
    let ghost all_c = candidate_checks_y(vy as int, vh as int, vx as int, vw as int, candidates@);
    proof {
        lemma_anchor_fold_concat(no_anchor(), scr, all_c, d);
    }
    let mut st: (i32, Option<(i32, i32)>) = (i32::MAX, None);
    if screen_on {
        let ghost c0 = check(vy as int, 0, vy as int, 0, 0, 0, 1);
        let ghost c1 = check(sht as int, vis_b as int, vis_b as int, sht as int, sht as int, vh as int, 2);
        proof {
            assert(scr =~= seq![c0] + seq![c1]);
            lemma_anchor_fold_concat(no_anchor(), seq![c0], seq![c1], d);
            lemma_anchor_fold_single(no_anchor(), c0, d);
            lemma_anchor_fold_single(anchor_step(no_anchor(), c0, d), c1, d);
        }
        st = consider(st.0, st.1, dy, vy, 0, vy, 0, 0, 0, 1);
        st = consider(st.0, st.1, dy, sht, vis_b, vis_b, sht, sht, vh, 2);
    } else {
        assert(anchor_fold(no_anchor(), scr, d) == no_anchor());
    }
    proof {
        assert(candidates@.skip(0) =~= candidates@);
        assert(candidates@.take(0) =~= Seq::<SnapCandidate>::empty());
        assert(candidate_checks_y(vy as int, vh as int, vx as int, vw as int, Seq::<SnapCandidate>::empty()) =~= Seq::<AnchorCheck>::empty());
        assert(scr + Seq::<AnchorCheck>::empty() =~= scr);
    }
    let mut i: usize = 0;
    while i < candidates.len()
        invariant
            i <= candidates.len(),
            vis_r == vx + vw,
            vis_b == vy + vh,
            d == dy as int,
            candidates_fit(candidates@),
            (st.0 as int, as_pair(st.1)) == anchor_fold(no_anchor(), scr + candidate_checks_y(vy as int, vh as int, vx as int, vw as int, candidates@.take(i as int)), d),
            anchor_fold_fits((st.0 as int, as_pair(st.1)), candidate_checks_y(vy as int, vh as int, vx as int, vw as int, candidates@.skip(i as int)), d),
        decreases candidates.len() - i,
    {
        let ghost s_before = (st.0 as int, as_pair(st.1));
        let c = candidates[i];
        assert(c == candidates@[i as int]);
        assert(rect_fits(candidates@[i as int].visual()));
        let (cl, ct, cr, cb) = c.visual_rect();
        let ghost one: Seq<AnchorCheck> = if vx <= cr && cl <= vis_r { candidate_checks(vy as int, vh as int, ct as int, cb as int, c.vis_t, c.vis_b) } else { seq![] };
        proof {
            let tk = candidates@.take(i as int);
            let sk = candidates@.skip(i as int);
            assert(candidates@.take(i + 1) =~= tk + seq![candidates@[i as int]]);
            assert(sk =~= seq![candidates@[i as int]] + candidates@.skip(i + 1));
            lemma_checks_y_concat(vy as int, vh as int, vx as int, vw as int, tk, seq![candidates@[i as int]]);
            lemma_checks_y_concat(vy as int, vh as int, vx as int, vw as int, seq![candidates@[i as int]], candidates@.skip(i + 1));
            assert(seq![candidates@[i as int]].drop_last() =~= Seq::<SnapCandidate>::empty());
            assert(seq![candidates@[i as int]].last() == candidates@[i as int]);
            assert(candidate_checks_y(vy as int, vh as int, vx as int, vw as int, Seq::<SnapCandidate>::empty()) =~= Seq::<AnchorCheck>::empty());
            assert(Seq::<AnchorCheck>::empty() + one =~= one);
            assert(candidate_checks_y(vy as int, vh as int, vx as int, vw as int, seq![candidates@[i as int]]) =~= one);
            lemma_anchor_fold_concat(s_before, one, candidate_checks_y(vy as int, vh as int, vx as int, vw as int, candidates@.skip(i + 1)), d);
            lemma_anchor_fold_concat(no_anchor(), scr + candidate_checks_y(vy as int, vh as int, vx as int, vw as int, tk), one, d);
            assert(scr + candidate_checks_y(vy as int, vh as int, vx as int, vw as int, tk) + one =~= scr + candidate_checks_y(vy as int, vh as int, vx as int, vw as int, candidates@.take(i + 1)));
        }
        if vx <= cr && cl <= vis_r {
            st = consider_candidate(st, dy, vy, vh, vis_b, ct, cb, c.vis_t, c.vis_b);
        } else {
            assert(anchor_fold(s_before, one, d) == s_before);
        }
        i = i + 1;
    }
    proof {
        assert(candidates@.take(candidates.len() as int) =~= candidates@);
    }
    match st.1 {
        Some((target, dir)) => Some((target, dir, st.0)),
        None => None,
    }
}

// ── Laws of anchor selection ──

/// Taking the anchor moves the window's near edge `v` by exactly the
/// anchor's distance, in direction 1 or 2.
pub open spec fn check_moves_by_dist(ck: AnchorCheck, v: int) -> bool {
    abs_int(ck.da - ck.db) == abs_int(v - (ck.ra - ck.rb)) && (ck.dir == 1 || ck.dir == 2)
}

pub open spec fn best_consistent(st: AnchorBest, v: int) -> bool {
    match st.1 {
        Some((t, dir)) => st.0 == abs_int(v - t) && (dir == 1 || dir == 2),
        None => st.0 == i32::MAX,
    }
}

proof fn lemma_fold_laws(st: AnchorBest, cks: Seq<AnchorCheck>, d: int, v: int)
    requires
        best_consistent(st, v),
        forall|k: int| 0 <= k < cks.len() ==> #[trigger] check_moves_by_dist(cks[k], v),
    ensures
        best_consistent(anchor_fold(st, cks, d), v),
        anchor_fold(st, cks, d).0 <= st.0,
        forall|k: int|
            0 <= k < cks.len() && #[trigger] eligible(cks[k], d) ==> anchor_fold(st, cks, d).0 <= abs_int(
                cks[k].da - cks[k].db,
            ),
    decreases cks.len(),
{
    if cks.len() > 0 {
        let pre = cks.drop_last();
        assert forall|k: int| 0 <= k < pre.len() implies #[trigger] check_moves_by_dist(pre[k], v) by {
            assert(pre[k] == cks[k]);
        }
        lemma_fold_laws(st, pre, d, v);
        assert(check_moves_by_dist(cks[cks.len() - 1], v));
        assert forall|k: int| 0 <= k < cks.len() && #[trigger] eligible(cks[k], d) implies anchor_fold(st, cks, d).0
            <= abs_int(cks[k].da - cks[k].db) by {
            if k < cks.len() - 1 {
                assert(pre[k] == cks[k]);
            }
        }
    }
}

proof fn lemma_candidate_checks_move(v: int, size: int, lo: int, hi: int, vis_lo: bool, vis_hi: bool)
    ensures
        forall|k: int|
            0 <= k < candidate_checks(v, size, lo, hi, vis_lo, vis_hi).len() ==> #[trigger] check_moves_by_dist(
                candidate_checks(v, size, lo, hi, vis_lo, vis_hi)[k],
                v,
            ),
{
    let cs = candidate_checks(v, size, lo, hi, vis_lo, vis_hi);
    assert forall|k: int| 0 <= k < cs.len() implies #[trigger] check_moves_by_dist(cs[k], v) by {
        let ck = cs[k];
        assert(ck.dir == 1 ==> ck.da == v && ck.rb == 0 && ck.ra == ck.db);
        assert(ck.dir == 2 ==> ck.da == v + size && ck.rb == size && ck.ra == ck.db);
    }
}

proof fn lemma_checks_x_move(vx: int, vw: int, vt: int, vh: int, cands: Seq<SnapCandidate>)
    ensures
        forall|k: int|
            0 <= k < candidate_checks_x(vx, vw, vt, vh, cands).len() ==> #[trigger] check_moves_by_dist(
                candidate_checks_x(vx, vw, vt, vh, cands)[k],
                vx,
            ),
    decreases cands.len(),
{
    if cands.len() > 0 {
        lemma_checks_x_move(vx, vw, vt, vh, cands.drop_last());
        let c = cands.last();
        let (cl, ct, cr, cb) = c.visual();
        lemma_candidate_checks_move(vx, vw, cl, cr, c.vis_l, c.vis_r);
        let a = candidate_checks_x(vx, vw, vt, vh, cands.drop_last());
        let b: Seq<AnchorCheck> = if vt <= cb && ct <= vt + vh { candidate_checks(vx, vw, cl, cr, c.vis_l, c.vis_r) } else { seq![] };
        assert forall|k: int| 0 <= k < (a + b).len() implies #[trigger] check_moves_by_dist((a + b)[k], vx) by {
            if k < a.len() {
                assert((a + b)[k] == a[k]);
            } else {
                assert((a + b)[k] == b[k - a.len()]);
            }
        }
    }
}

proof fn lemma_checks_y_move(vy: int, vh: int, vx: int, vw: int, cands: Seq<SnapCandidate>)
    ensures
        forall|k: int|
            0 <= k < candidate_checks_y(vy, vh, vx, vw, cands).len() ==> #[trigger] check_moves_by_dist(
                candidate_checks_y(vy, vh, vx, vw, cands)[k],
                vy,
            ),
    decreases cands.len(),
{
    if cands.len() > 0 {
        lemma_checks_y_move(vy, vh, vx, vw, cands.drop_last());
        let c = cands.last();
        let (cl, ct, cr, cb) = c.visual();
        lemma_candidate_checks_move(vy, vh, ct, cb, c.vis_t, c.vis_b);
        let a = candidate_checks_y(vy, vh, vx, vw, cands.drop_last());
        let b: Seq<AnchorCheck> = if vx <= cr && cl <= vx + vw { candidate_checks(vy, vh, ct, cb, c.vis_t, c.vis_b) } else { seq![] };
        assert forall|k: int| 0 <= k < (a + b).len() implies #[trigger] check_moves_by_dist((a + b)[k], vy) by {
            if k < a.len() {
                assert((a + b)[k] == a[k]);
            } else {
                assert((a + b)[k] == b[k - a.len()]);
            }
        }
    }
}

proof fn lemma_all_checks_move(scr: Seq<AnchorCheck>, rest: Seq<AnchorCheck>, v: int)
    requires
        forall|k: int| 0 <= k < scr.len() ==> #[trigger] check_moves_by_dist(scr[k], v),
        forall|k: int| 0 <= k < rest.len() ==> #[trigger] check_moves_by_dist(rest[k], v),
    ensures
        forall|k: int| 0 <= k < (scr + rest).len() ==> #[trigger] check_moves_by_dist((scr + rest)[k], v),
{
    assert forall|k: int| 0 <= k < (scr + rest).len() implies #[trigger] check_moves_by_dist((scr + rest)[k], v) by {
        if k < scr.len() {
            assert((scr + rest)[k] == scr[k]);
        } else {
            assert((scr + rest)[k] == rest[k - scr.len()]);
        }
    }
}

/// What the answer of an anchor search promises: the reported distance is
/// exactly how far the near edge moves to the target, the direction is 1
/// or 2, no eligible anchor is nearer, and there is no answer only when no
/// eligible anchor is nearer than `i32::MAX`.
pub open spec fn nearest_anchor_answer(cks: Seq<AnchorCheck>, d: int, v: int) -> bool {
    let r = anchor_result(anchor_fold(no_anchor(), cks, d));
    &&& r matches Some((t, dir, dist)) ==> {
        &&& dist == abs_int(v - t)
        &&& dir == 1 || dir == 2
        &&& forall|k: int| 0 <= k < cks.len() && #[trigger] eligible(cks[k], d) ==> dist <= abs_int(cks[k].da - cks[k].db)
    }
    &&& r is None ==> forall|k: int|
        0 <= k < cks.len() && #[trigger] eligible(cks[k], d) ==> abs_int(cks[k].da - cks[k].db) >= i32::MAX
}

/// Law: horizontal snapping picks the nearest eligible anchor, and the window
/// moves by exactly the distance it reports.
pub proof fn lemma_snap_x_nearest(
    dx: int,
    vx: int,
    vw: int,
    vt: int,
    vh: int,
    sw: int,
    screen_on: bool,
    cands: Seq<SnapCandidate>,
)
    ensures
        nearest_anchor_answer(anchor_checks_x(vx, vw, vt, vh, sw, screen_on, cands), dx, vx),
{
    let scr: Seq<AnchorCheck> = if screen_on { screen_checks(vx, vw, sw) } else { seq![] };
    assert forall|k: int| 0 <= k < scr.len() implies #[trigger] check_moves_by_dist(scr[k], vx) by {}
    lemma_checks_x_move(vx, vw, vt, vh, cands);
    lemma_all_checks_move(scr, candidate_checks_x(vx, vw, vt, vh, cands), vx);
    lemma_fold_laws(no_anchor(), anchor_checks_x(vx, vw, vt, vh, sw, screen_on, cands), dx, vx);
}

/// Law: vertical snapping picks the nearest eligible anchor, and the window
/// moves by exactly the distance it reports.
pub proof fn lemma_snap_y_nearest(
    dy: int,
    vy: int,
    vh: int,
    vx: int,
    vw: int,
    sht: int,
    screen_on: bool,
    cands: Seq<SnapCandidate>,
)
    ensures
        nearest_anchor_answer(anchor_checks_y(vy, vh, vx, vw, sht, screen_on, cands), dy, vy),
{
    let scr: Seq<AnchorCheck> = if screen_on { screen_checks(vy, vh, sht) } else { seq![] };
    assert forall|k: int| 0 <= k < scr.len() implies #[trigger] check_moves_by_dist(scr[k], vy) by {}
    lemma_checks_y_move(vy, vh, vx, vw, cands);
    lemma_all_checks_move(scr, candidate_checks_y(vy, vh, vx, vw, cands), vy);
    lemma_fold_laws(no_anchor(), anchor_checks_y(vy, vh, vx, vw, sht, screen_on, cands), dy, vy);
}
/// Law: a candidate whose left and right edges are both hidden offers no
/// horizontal anchor, so horizontal snapping is the same without it.
pub proof fn lemma_hidden_candidate_ignored_x(
    vx: int,
    vw: int,
    vt: int,
    vh: int,
    sw: int,
    screen_on: bool,
    cands: Seq<SnapCandidate>,
    i: int,
)
    requires
        0 <= i < cands.len(),
        !cands[i].vis_l,
        !cands[i].vis_r,
    ensures
        anchor_checks_x(vx, vw, vt, vh, sw, screen_on, cands) == anchor_checks_x(vx, vw, vt, vh, sw, screen_on, cands.remove(i)),
{
    let a = cands.take(i);
    let one = seq![cands[i]];
    let b = cands.skip(i + 1);
    assert(cands =~= a + one + b);
    assert(cands.remove(i) =~= a + b);
    lemma_checks_x_concat(vx, vw, vt, vh, a + one, b);
    lemma_checks_x_concat(vx, vw, vt, vh, a, one);
    lemma_checks_x_concat(vx, vw, vt, vh, a, b);
    assert(one.drop_last() =~= Seq::<SnapCandidate>::empty());
    assert(one.last() == cands[i]);
    let (cl, ct, cr, cb) = cands[i].visual();
    assert(candidate_checks(vx, vw, cl, cr, false, false) =~= Seq::<AnchorCheck>::empty());
    assert(candidate_checks_x(vx, vw, vt, vh, Seq::<SnapCandidate>::empty()) =~= Seq::<AnchorCheck>::empty());
    assert(Seq::<AnchorCheck>::empty() + Seq::<AnchorCheck>::empty() =~= Seq::<AnchorCheck>::empty());
    assert(candidate_checks_x(vx, vw, vt, vh, one) =~= Seq::<AnchorCheck>::empty());
    assert(candidate_checks_x(vx, vw, vt, vh, a) + Seq::<AnchorCheck>::empty() =~= candidate_checks_x(vx, vw, vt, vh, a));
}

/// Law: a candidate whose top and bottom edges are both hidden offers no
/// vertical anchor, so vertical snapping is the same without it.
pub proof fn lemma_hidden_candidate_ignored_y(
    vy: int,
    vh: int,
    vx: int,
    vw: int,
    sht: int,
    screen_on: bool,
    cands: Seq<SnapCandidate>,
    i: int,
)
    requires
        0 <= i < cands.len(),
        !cands[i].vis_t,
        !cands[i].vis_b,
    ensures
        anchor_checks_y(vy, vh, vx, vw, sht, screen_on, cands) == anchor_checks_y(vy, vh, vx, vw, sht, screen_on, cands.remove(i)),
{
    let a = cands.take(i);
    let one = seq![cands[i]];
    let b = cands.skip(i + 1);
    assert(cands =~= a + one + b);
    assert(cands.remove(i) =~= a + b);
    lemma_checks_y_concat(vy, vh, vx, vw, a + one, b);
    lemma_checks_y_concat(vy, vh, vx, vw, a, one);
    lemma_checks_y_concat(vy, vh, vx, vw, a, b);
    assert(one.drop_last() =~= Seq::<SnapCandidate>::empty());
    assert(one.last() == cands[i]);
    let (cl, ct, cr, cb) = cands[i].visual();
    assert(candidate_checks(vy, vh, ct, cb, false, false) =~= Seq::<AnchorCheck>::empty());
    assert(candidate_checks_y(vy, vh, vx, vw, Seq::<SnapCandidate>::empty()) =~= Seq::<AnchorCheck>::empty());
    assert(Seq::<AnchorCheck>::empty() + Seq::<AnchorCheck>::empty() =~= Seq::<AnchorCheck>::empty());
    assert(candidate_checks_y(vy, vh, vx, vw, one) =~= Seq::<AnchorCheck>::empty());
    assert(candidate_checks_y(vy, vh, vx, vw, a) + Seq::<AnchorCheck>::empty() =~= candidate_checks_y(vy, vh, vx, vw, a));
}

// ── Laws of the anchors offered ──

/// A drag by `d` may take an anchor at `target` for an edge now at `edge`:
/// the edge is already within the threshold of it, the drag is at rest, or
/// the edge moves towards it.
pub open spec fn may_snap(edge: int, target: int, d: int) -> bool {
    abs_int(target - edge) <= SNAP_THRESHOLD || d == 0 || (target - edge) * d > 0
}

/// `r` is an answer whose distance is at most `dist`.
pub open spec fn snaps_within(r: Option<(int, int, int)>, dist: int) -> bool {
    match r {
        Some((_t, _dir, k)) => k <= dist,
        None => false,
    }
}

/// What one candidate with near and far edges `lo`, `hi` on the axis
/// promises for a window whose near edge is at `v` and whose size is
/// `size`: each of the four pairings of a window edge with a visible
/// candidate edge (near to far, far to near, near to near, far to far) that
/// the drag may take bounds the answer's distance.
pub open spec fn edges_bound(
    r: Option<(int, int, int)>,
    d: int,
    v: int,
    size: int,
    lo: int,
    hi: int,
    vis_lo: bool,
    vis_hi: bool,
) -> bool {
    &&& vis_hi && may_snap(v, hi, d) && abs_int(v - hi) < i32::MAX ==> snaps_within(r, abs_int(v - hi))
    &&& vis_lo && may_snap(v + size, lo, d) && abs_int(v + size - lo) < i32::MAX ==> snaps_within(
        r,
        abs_int(v + size - lo),
    )
    &&& vis_lo && may_snap(v, lo, d) && abs_int(v - lo) < i32::MAX ==> snaps_within(r, abs_int(v - lo))
    &&& vis_hi && may_snap(v + size, hi, d) && abs_int(v + size - hi) < i32::MAX ==> snaps_within(
        r,
        abs_int(v + size - hi),
    )
}

/// What the screen promises along an axis of extent `extent`: the near edge
/// against 0 and the far edge against `extent` bound the answer's distance
/// when the drag may take them.
pub open spec fn screen_bound(r: Option<(int, int, int)>, d: int, v: int, size: int, extent: int) -> bool {
    &&& may_snap(v, 0, d) && abs_int(v) < i32::MAX ==> snaps_within(r, abs_int(v))
    &&& may_snap(v + size, extent, d) && abs_int(extent - (v + size)) < i32::MAX ==> snaps_within(
        r,
        abs_int(extent - (v + size)),
    )
}

/// An answer moves the near edge from `v` to the answer's position by
/// exactly the reported distance, with direction 1 or 2.
pub open spec fn answer_moves(r: Option<(int, int, int)>, v: int) -> bool {
    match r {
        Some((t, dir, dist)) => dist == abs_int(v - t) && (dir == 1 || dir == 2),
        None => true,
    }
}

proof fn lemma_candidate_checks_has(v: int, size: int, lo: int, hi: int, vis_lo: bool, vis_hi: bool)
    ensures
        vis_hi ==> candidate_checks(v, size, lo, hi, vis_lo, vis_hi).contains(check(v, hi, v, hi, hi, 0, 1)),
        vis_lo ==> candidate_checks(v, size, lo, hi, vis_lo, vis_hi).contains(
            check(v + size, lo, v + size, lo, lo, size, 2),
        ),
        vis_lo ==> candidate_checks(v, size, lo, hi, vis_lo, vis_hi).contains(check(v, lo, v, lo, lo, 0, 1)),
        vis_hi ==> candidate_checks(v, size, lo, hi, vis_lo, vis_hi).contains(
            check(v + size, hi, v + size, hi, hi, size, 2),
        ),
{
    let c1: Seq<AnchorCheck> = if vis_hi { seq![check(v, hi, v, hi, hi, 0, 1)] } else { seq![] };
    let c2: Seq<AnchorCheck> = if vis_lo { seq![check(v + size, lo, v + size, lo, lo, size, 2)] } else { seq![] };
    let c3: Seq<AnchorCheck> = if vis_lo { seq![check(v, lo, v, lo, lo, 0, 1)] } else { seq![] };
    let c4: Seq<AnchorCheck> = if vis_hi { seq![check(v + size, hi, v + size, hi, hi, size, 2)] } else { seq![] };
    let cs = candidate_checks(v, size, lo, hi, vis_lo, vis_hi);
    assert(cs == c1 + c2 + c3 + c4);
    if vis_hi {
        assert(cs[0] == check(v, hi, v, hi, hi, 0, 1));
        let k = (c1.len() + c2.len() + c3.len()) as int;
        assert(cs[k] == check(v + size, hi, v + size, hi, hi, size, 2));
    }
    if vis_lo {
        assert(cs[c1.len() as int] == check(v + size, lo, v + size, lo, lo, size, 2));
        assert(cs[(c1.len() + c2.len()) as int] == check(v, lo, v, lo, lo, 0, 1));
    }
}

proof fn lemma_checks_x_has(vx: int, vw: int, vt: int, vh: int, cands: Seq<SnapCandidate>, i: int, ck: AnchorCheck)
    requires
        0 <= i < cands.len(),
        vt <= cands[i].visual().3 && cands[i].visual().1 <= vt + vh,
        candidate_checks(vx, vw, cands[i].visual().0, cands[i].visual().2, cands[i].vis_l, cands[i].vis_r).contains(ck),
    ensures
        candidate_checks_x(vx, vw, vt, vh, cands).contains(ck),
    decreases cands.len(),
{
    let a = candidate_checks_x(vx, vw, vt, vh, cands.drop_last());
    let c = cands.last();
    let (cl, ct, cr, cb) = c.visual();
    let b: Seq<AnchorCheck> = if vt <= cb && ct <= vt + vh { candidate_checks(vx, vw, cl, cr, c.vis_l, c.vis_r) } else { seq![] };
    assert(candidate_checks_x(vx, vw, vt, vh, cands) == a + b);
    if i == cands.len() - 1 {
        let j = choose|j: int| 0 <= j < b.len() && b[j] == ck;
        assert((a + b)[a.len() + j] == ck);
    } else {
        assert(cands.drop_last()[i] == cands[i]);
        lemma_checks_x_has(vx, vw, vt, vh, cands.drop_last(), i, ck);
        let j = choose|j: int| 0 <= j < a.len() && a[j] == ck;
        assert((a + b)[j] == ck);
    }
}

proof fn lemma_checks_y_has(vy: int, vh: int, vx: int, vw: int, cands: Seq<SnapCandidate>, i: int, ck: AnchorCheck)
    requires
        0 <= i < cands.len(),
        vx <= cands[i].visual().2 && cands[i].visual().0 <= vx + vw,
        candidate_checks(vy, vh, cands[i].visual().1, cands[i].visual().3, cands[i].vis_t, cands[i].vis_b).contains(ck),
    ensures
        candidate_checks_y(vy, vh, vx, vw, cands).contains(ck),
    decreases cands.len(),
{
    let a = candidate_checks_y(vy, vh, vx, vw, cands.drop_last());
    let c = cands.last();
    let (cl, ct, cr, cb) = c.visual();
    let b: Seq<AnchorCheck> = if vx <= cr && cl <= vx + vw { candidate_checks(vy, vh, ct, cb, c.vis_t, c.vis_b) } else { seq![] };
    assert(candidate_checks_y(vy, vh, vx, vw, cands) == a + b);
    if i == cands.len() - 1 {
        let j = choose|j: int| 0 <= j < b.len() && b[j] == ck;
        assert((a + b)[a.len() + j] == ck);
    } else {
        assert(cands.drop_last()[i] == cands[i]);
        lemma_checks_y_has(vy, vh, vx, vw, cands.drop_last(), i, ck);
        let j = choose|j: int| 0 <= j < a.len() && a[j] == ck;
        assert((a + b)[j] == ck);
    }
}

/// An eligible anchor among the checks bounds the answer.
proof fn lemma_fold_bound(scr: Seq<AnchorCheck>, rest: Seq<AnchorCheck>, d: int, v: int, ck: AnchorCheck)
    requires
        (scr + rest).contains(ck),
        eligible(ck, d),
        abs_int(ck.da - ck.db) < i32::MAX,
        forall|k: int| 0 <= k < (scr + rest).len() ==> #[trigger] check_moves_by_dist((scr + rest)[k], v),
    ensures
        snaps_within(anchor_result(anchor_fold(no_anchor(), scr + rest, d)), abs_int(ck.da - ck.db)),
{
    let cks = scr + rest;
    lemma_fold_laws(no_anchor(), cks, d, v);
    let k = choose|k: int| 0 <= k < cks.len() && cks[k] == ck;
    assert(eligible(cks[k], d));
}

proof fn lemma_contains_right(a: Seq<AnchorCheck>, b: Seq<AnchorCheck>, ck: AnchorCheck)
    requires
        b.contains(ck),
    ensures
        (a + b).contains(ck),
{
    let j = choose|j: int| 0 <= j < b.len() && b[j] == ck;
    assert((a + b)[a.len() + j] == ck);
}

/// The answer `(t, dir)` takes one of the pairings of a window edge with a
/// visible candidate edge `lo` or `hi` that the drag may take: direction 1
/// puts the window's near edge (at `v`) on the candidate edge, direction 2
/// its far edge (at `v + size`).
pub open spec fn edge_pairing(t: int, dir: int, d: int, v: int, size: int, lo: int, hi: int, vis_lo: bool, vis_hi: bool) -> bool {
    ||| dir == 1 && vis_hi && t == hi && may_snap(v, hi, d)
    ||| dir == 1 && vis_lo && t == lo && may_snap(v, lo, d)
    ||| dir == 2 && vis_lo && t + size == lo && may_snap(v + size, lo, d)
    ||| dir == 2 && vis_hi && t + size == hi && may_snap(v + size, hi, d)
}

/// The answer `(t, dir)` takes a screen edge that the drag may take: the
/// near edge on 0 or the far edge on `extent`.
pub open spec fn screen_pairing(t: int, dir: int, d: int, v: int, size: int, extent: int) -> bool {
    ||| dir == 1 && t == 0 && may_snap(v, 0, d)
    ||| dir == 2 && t + size == extent && may_snap(v + size, extent, d)
}

/// The answer of a fold comes from one of its eligible checks.
proof fn lemma_fold_origin(st: AnchorBest, cks: Seq<AnchorCheck>, d: int)
    ensures
        anchor_fold(st, cks, d).1 != st.1 ==> exists|k: int|
            0 <= k < cks.len() && eligible(#[trigger] cks[k], d) && anchor_fold(st, cks, d).1 == Some(
                (cks[k].ra - cks[k].rb, cks[k].dir),
            ),
    decreases cks.len(),
{
    if cks.len() > 0 {
        let pre = cks.drop_last();
        lemma_fold_origin(st, pre, d);
        let f = anchor_fold(st, pre, d);
        if anchor_fold(st, cks, d) != f {
            assert(eligible(cks[cks.len() - 1], d));
        } else if f.1 != st.1 {
            let k = choose|k: int|
                0 <= k < pre.len() && eligible(#[trigger] pre[k], d) && f.1 == Some((pre[k].ra - pre[k].rb, pre[k].dir));
            assert(cks[k] == pre[k]);
        }
    }
}

proof fn lemma_candidate_checks_from(v: int, size: int, lo: int, hi: int, vis_lo: bool, vis_hi: bool, k: int, d: int)
    requires
        0 <= k < candidate_checks(v, size, lo, hi, vis_lo, vis_hi).len(),
        eligible(candidate_checks(v, size, lo, hi, vis_lo, vis_hi)[k], d),
    ensures
        ({
            let ck = candidate_checks(v, size, lo, hi, vis_lo, vis_hi)[k];
            edge_pairing(ck.ra - ck.rb, ck.dir, d, v, size, lo, hi, vis_lo, vis_hi)
        }),
{
    let c1: Seq<AnchorCheck> = if vis_hi { seq![check(v, hi, v, hi, hi, 0, 1)] } else { seq![] };
    let c2: Seq<AnchorCheck> = if vis_lo { seq![check(v + size, lo, v + size, lo, lo, size, 2)] } else { seq![] };
    let c3: Seq<AnchorCheck> = if vis_lo { seq![check(v, lo, v, lo, lo, 0, 1)] } else { seq![] };
    let c4: Seq<AnchorCheck> = if vis_hi { seq![check(v + size, hi, v + size, hi, hi, size, 2)] } else { seq![] };
    let cs = candidate_checks(v, size, lo, hi, vis_lo, vis_hi);
    assert(cs == c1 + c2 + c3 + c4);
    let a = c1.len() as int;
    let b = a + c2.len();
    let c = b + c3.len();
    if k < a {
        assert(cs[k] == c1[k]);
    } else if k < b {
        assert(cs[k] == c2[k - a]);
    } else if k < c {
        assert(cs[k] == c3[k - b]);
    } else {
        assert(cs[k] == c4[k - c]);
    }
}

proof fn lemma_checks_x_from(vx: int, vw: int, vt: int, vh: int, cands: Seq<SnapCandidate>, k: int, d: int)
    requires
        0 <= k < candidate_checks_x(vx, vw, vt, vh, cands).len(),
        eligible(candidate_checks_x(vx, vw, vt, vh, cands)[k], d),
    ensures
        exists|i: int|
            0 <= i < cands.len() && vt <= (#[trigger] cands[i]).visual().3 && cands[i].visual().1 <= vt + vh
                && edge_pairing(
                candidate_checks_x(vx, vw, vt, vh, cands)[k].ra - candidate_checks_x(vx, vw, vt, vh, cands)[k].rb,
                candidate_checks_x(vx, vw, vt, vh, cands)[k].dir,
                d,
                vx,
                vw,
                cands[i].visual().0,
                cands[i].visual().2,
                cands[i].vis_l,
                cands[i].vis_r,
            ),
    decreases cands.len(),
{
    let all = candidate_checks_x(vx, vw, vt, vh, cands);
    let ck = all[k];
    let a = candidate_checks_x(vx, vw, vt, vh, cands.drop_last());
    let c = cands.last();
    let (cl, ct, cr, cb) = c.visual();
    let b: Seq<AnchorCheck> = if vt <= cb && ct <= vt + vh { candidate_checks(vx, vw, cl, cr, c.vis_l, c.vis_r) } else { seq![] };
    assert(all == a + b);
    let last = cands.len() - 1;
    assert(cands[last] == c);
    if k < a.len() {
        assert(a[k] == ck);
        lemma_checks_x_from(vx, vw, vt, vh, cands.drop_last(), k, d);
        let i = choose|i: int|
            0 <= i < cands.drop_last().len() && vt <= (#[trigger] cands.drop_last()[i]).visual().3
                && cands.drop_last()[i].visual().1 <= vt + vh && edge_pairing(
                ck.ra - ck.rb,
                ck.dir,
                d,
                vx,
                vw,
                cands.drop_last()[i].visual().0,
                cands.drop_last()[i].visual().2,
                cands.drop_last()[i].vis_l,
                cands.drop_last()[i].vis_r,
            );
        assert(cands[i] == cands.drop_last()[i]);
    } else {
        assert(b[k - a.len()] == ck);
        lemma_candidate_checks_from(vx, vw, cl, cr, c.vis_l, c.vis_r, k - a.len(), d);
    }
}

proof fn lemma_checks_y_from(vy: int, vh: int, vx: int, vw: int, cands: Seq<SnapCandidate>, k: int, d: int)
    requires
        0 <= k < candidate_checks_y(vy, vh, vx, vw, cands).len(),
        eligible(candidate_checks_y(vy, vh, vx, vw, cands)[k], d),
    ensures
        exists|i: int|
            0 <= i < cands.len() && vx <= (#[trigger] cands[i]).visual().2 && cands[i].visual().0 <= vx + vw
                && edge_pairing(
                candidate_checks_y(vy, vh, vx, vw, cands)[k].ra - candidate_checks_y(vy, vh, vx, vw, cands)[k].rb,
                candidate_checks_y(vy, vh, vx, vw, cands)[k].dir,
                d,
                vy,
                vh,
                cands[i].visual().1,
                cands[i].visual().3,
                cands[i].vis_t,
                cands[i].vis_b,
            ),
    decreases cands.len(),
{
    let all = candidate_checks_y(vy, vh, vx, vw, cands);
    let ck = all[k];
    let a = candidate_checks_y(vy, vh, vx, vw, cands.drop_last());
    let c = cands.last();
    let (cl, ct, cr, cb) = c.visual();
    let b: Seq<AnchorCheck> = if vx <= cr && cl <= vx + vw { candidate_checks(vy, vh, ct, cb, c.vis_t, c.vis_b) } else { seq![] };
    assert(all == a + b);
    let last = cands.len() - 1;
    assert(cands[last] == c);
    if k < a.len() {
        assert(a[k] == ck);
        lemma_checks_y_from(vy, vh, vx, vw, cands.drop_last(), k, d);
        let i = choose|i: int|
            0 <= i < cands.drop_last().len() && vx <= (#[trigger] cands.drop_last()[i]).visual().2
                && cands.drop_last()[i].visual().0 <= vx + vw && edge_pairing(
                ck.ra - ck.rb,
                ck.dir,
                d,
                vy,
                vh,
                cands.drop_last()[i].visual().1,
                cands.drop_last()[i].visual().3,
                cands.drop_last()[i].vis_t,
                cands.drop_last()[i].vis_b,
            );
        assert(cands[i] == cands.drop_last()[i]);
    } else {
        assert(b[k - a.len()] == ck);
        lemma_candidate_checks_from(vy, vh, ct, cb, c.vis_t, c.vis_b, k - a.len(), d);
    }
}

/// Law: horizontal snapping only ever answers with an anchor it offers: the
/// answer's position and direction pair the window's left or right edge
/// with a screen edge (when screen snapping is on) or with a visible left or
/// right edge of a candidate that overlaps the window vertically (touching
/// counts), one that the drag may take.
pub proof fn lemma_snap_x_answer_offered(
    dx: int,
    vx: int,
    vw: int,
    vt: int,
    vh: int,
    sw: int,
    screen_on: bool,
    cands: Seq<SnapCandidate>,
)
    ensures
        anchor_result(anchor_fold(no_anchor(), anchor_checks_x(vx, vw, vt, vh, sw, screen_on, cands), dx)) matches Some(
            (t, dir, _dist),
        ) ==> (screen_on && screen_pairing(t, dir, dx, vx, vw, sw)) || exists|i: int|
            0 <= i < cands.len() && vt <= (#[trigger] cands[i]).visual().3 && cands[i].visual().1 <= vt + vh
                && edge_pairing(t, dir, dx, vx, vw, cands[i].visual().0, cands[i].visual().2, cands[i].vis_l, cands[i].vis_r),
{
    let scr: Seq<AnchorCheck> = if screen_on { screen_checks(vx, vw, sw) } else { seq![] };
    let rest = candidate_checks_x(vx, vw, vt, vh, cands);
    let cks = scr + rest;
    lemma_fold_origin(no_anchor(), cks, dx);
    if anchor_fold(no_anchor(), cks, dx).1 != no_anchor().1 {
        let k = choose|k: int|
            0 <= k < cks.len() && eligible(#[trigger] cks[k], dx) && anchor_fold(no_anchor(), cks, dx).1 == Some(
                (cks[k].ra - cks[k].rb, cks[k].dir),
            );
        if k < scr.len() {
            assert(cks[k] == scr[k]);
        } else {
            assert(cks[k] == rest[k - scr.len()]);
            lemma_checks_x_from(vx, vw, vt, vh, cands, k - scr.len(), dx);
        }
    }
}

/// Law: vertical snapping only ever answers with an anchor it offers: the
/// counterpart of `lemma_snap_x_answer_offered` for the top and bottom
/// edges, with candidates that overlap the window horizontally.
pub proof fn lemma_snap_y_answer_offered(
    dy: int,
    vy: int,
    vh: int,
    vx: int,
    vw: int,
    sht: int,
    screen_on: bool,
    cands: Seq<SnapCandidate>,
)
    ensures
        anchor_result(anchor_fold(no_anchor(), anchor_checks_y(vy, vh, vx, vw, sht, screen_on, cands), dy)) matches Some(
            (t, dir, _dist),
        ) ==> (screen_on && screen_pairing(t, dir, dy, vy, vh, sht)) || exists|i: int|
            0 <= i < cands.len() && vx <= (#[trigger] cands[i]).visual().2 && cands[i].visual().0 <= vx + vw
                && edge_pairing(t, dir, dy, vy, vh, cands[i].visual().1, cands[i].visual().3, cands[i].vis_t, cands[i].vis_b),
{
    let scr: Seq<AnchorCheck> = if screen_on { screen_checks(vy, vh, sht) } else { seq![] };
    let rest = candidate_checks_y(vy, vh, vx, vw, cands);
    let cks = scr + rest;
    lemma_fold_origin(no_anchor(), cks, dy);
    if anchor_fold(no_anchor(), cks, dy).1 != no_anchor().1 {
        let k = choose|k: int|
            0 <= k < cks.len() && eligible(#[trigger] cks[k], dy) && anchor_fold(no_anchor(), cks, dy).1 == Some(
                (cks[k].ra - cks[k].rb, cks[k].dir),
            );
        if k < scr.len() {
            assert(cks[k] == scr[k]);
        } else {
            assert(cks[k] == rest[k - scr.len()]);
            lemma_checks_y_from(vy, vh, vx, vw, cands, k - scr.len(), dy);
        }
    }
}

/// Law: horizontal snapping offers every anchor it should. The answer is
/// never farther than the screen's left and right edges (when screen
/// snapping is on) nor than any pairing of the window's left or right edge
/// with a visible left or right edge of a candidate that overlaps the window
/// vertically (touching counts), each whenever the drag may take it; and the
/// answer moves the window's left edge by exactly the distance it reports.
pub proof fn lemma_snap_x_offers_all_edges(
    dx: int,
    vx: int,
    vw: int,
    vt: int,
    vh: int,
    sw: int,
    screen_on: bool,
    cands: Seq<SnapCandidate>,
)
    ensures
        answer_moves(anchor_result(anchor_fold(no_anchor(), anchor_checks_x(vx, vw, vt, vh, sw, screen_on, cands), dx)), vx),
        screen_on ==> screen_bound(
            anchor_result(anchor_fold(no_anchor(), anchor_checks_x(vx, vw, vt, vh, sw, screen_on, cands), dx)),
            dx,
            vx,
            vw,
            sw,
        ),
        forall|i: int|
            0 <= i < cands.len() && vt <= (#[trigger] cands[i]).visual().3 && cands[i].visual().1 <= vt + vh
                ==> edges_bound(
                anchor_result(anchor_fold(no_anchor(), anchor_checks_x(vx, vw, vt, vh, sw, screen_on, cands), dx)),
                dx,
                vx,
                vw,
                cands[i].visual().0,
                cands[i].visual().2,
                cands[i].vis_l,
                cands[i].vis_r,
            ),
{
    let scr: Seq<AnchorCheck> = if screen_on { screen_checks(vx, vw, sw) } else { seq![] };
    let rest = candidate_checks_x(vx, vw, vt, vh, cands);
    let r = anchor_result(anchor_fold(no_anchor(), scr + rest, dx));
    assert forall|k: int| 0 <= k < scr.len() implies #[trigger] check_moves_by_dist(scr[k], vx) by {}
    lemma_checks_x_move(vx, vw, vt, vh, cands);
    lemma_all_checks_move(scr, rest, vx);
    lemma_snap_x_nearest(dx, vx, vw, vt, vh, sw, screen_on, cands);
    if screen_on {
        let c0 = check(vx, 0, vx, 0, 0, 0, 1);
        let c1 = check(sw, vx + vw, vx + vw, sw, sw, vw, 2);
        assert(scr[0] == c0 && scr[1] == c1);
        assert((scr + rest)[0] == c0 && (scr + rest)[1] == c1);
        if may_snap(vx, 0, dx) && abs_int(vx) < i32::MAX {
            lemma_fold_bound(scr, rest, dx, vx, c0);
        }
        if may_snap(vx + vw, sw, dx) && abs_int(sw - (vx + vw)) < i32::MAX {
            lemma_fold_bound(scr, rest, dx, vx, c1);
        }
    }
    assert forall|i: int|
        0 <= i < cands.len() && vt <= (#[trigger] cands[i]).visual().3 && cands[i].visual().1 <= vt + vh
            implies edges_bound(r, dx, vx, vw, cands[i].visual().0, cands[i].visual().2, cands[i].vis_l, cands[i].vis_r) by {
        let (cl, ct, cr, cb) = cands[i].visual();
        let vl = cands[i].vis_l;
        let vr = cands[i].vis_r;
        lemma_candidate_checks_has(vx, vw, cl, cr, vl, vr);
        let k1 = check(vx, cr, vx, cr, cr, 0, 1);
        let k2 = check(vx + vw, cl, vx + vw, cl, cl, vw, 2);
        let k3 = check(vx, cl, vx, cl, cl, 0, 1);
        let k4 = check(vx + vw, cr, vx + vw, cr, cr, vw, 2);
        if vr && may_snap(vx, cr, dx) && abs_int(vx - cr) < i32::MAX {
            lemma_checks_x_has(vx, vw, vt, vh, cands, i, k1);
            lemma_contains_right(scr, rest, k1);
            lemma_fold_bound(scr, rest, dx, vx, k1);
        }
        if vl && may_snap(vx + vw, cl, dx) && abs_int(vx + vw - cl) < i32::MAX {
            lemma_checks_x_has(vx, vw, vt, vh, cands, i, k2);
            lemma_contains_right(scr, rest, k2);
            lemma_fold_bound(scr, rest, dx, vx, k2);
        }
        if vl && may_snap(vx, cl, dx) && abs_int(vx - cl) < i32::MAX {
            lemma_checks_x_has(vx, vw, vt, vh, cands, i, k3);
            lemma_contains_right(scr, rest, k3);
            lemma_fold_bound(scr, rest, dx, vx, k3);
        }
        if vr && may_snap(vx + vw, cr, dx) && abs_int(vx + vw - cr) < i32::MAX {
            lemma_checks_x_has(vx, vw, vt, vh, cands, i, k4);
            lemma_contains_right(scr, rest, k4);
            lemma_fold_bound(scr, rest, dx, vx, k4);
        }
    }
}

/// Law: vertical snapping offers every anchor it should: the counterpart of
/// `lemma_snap_x_offers_all_edges` for the top and bottom edges, with
/// candidates that overlap the window horizontally (touching counts).
pub proof fn lemma_snap_y_offers_all_edges(
    dy: int,
    vy: int,
    vh: int,
    vx: int,
    vw: int,
    sht: int,
    screen_on: bool,
    cands: Seq<SnapCandidate>,
)
    ensures
        answer_moves(anchor_result(anchor_fold(no_anchor(), anchor_checks_y(vy, vh, vx, vw, sht, screen_on, cands), dy)), vy),
        screen_on ==> screen_bound(
            anchor_result(anchor_fold(no_anchor(), anchor_checks_y(vy, vh, vx, vw, sht, screen_on, cands), dy)),
            dy,
            vy,
            vh,
            sht,
        ),
        forall|i: int|
            0 <= i < cands.len() && vx <= (#[trigger] cands[i]).visual().2 && cands[i].visual().0 <= vx + vw
                ==> edges_bound(
                anchor_result(anchor_fold(no_anchor(), anchor_checks_y(vy, vh, vx, vw, sht, screen_on, cands), dy)),
                dy,
                vy,
                vh,
                cands[i].visual().1,
                cands[i].visual().3,
                cands[i].vis_t,
                cands[i].vis_b,
            ),
{
    let scr: Seq<AnchorCheck> = if screen_on { screen_checks(vy, vh, sht) } else { seq![] };
    let rest = candidate_checks_y(vy, vh, vx, vw, cands);
    let r = anchor_result(anchor_fold(no_anchor(), scr + rest, dy));
    assert forall|k: int| 0 <= k < scr.len() implies #[trigger] check_moves_by_dist(scr[k], vy) by {}
    lemma_checks_y_move(vy, vh, vx, vw, cands);
    lemma_all_checks_move(scr, rest, vy);
    lemma_snap_y_nearest(dy, vy, vh, vx, vw, sht, screen_on, cands);
    if screen_on {
        let c0 = check(vy, 0, vy, 0, 0, 0, 1);
        let c1 = check(sht, vy + vh, vy + vh, sht, sht, vh, 2);
        assert(scr[0] == c0 && scr[1] == c1);
        assert((scr + rest)[0] == c0 && (scr + rest)[1] == c1);
        if may_snap(vy, 0, dy) && abs_int(vy) < i32::MAX {
            lemma_fold_bound(scr, rest, dy, vy, c0);
        }
        if may_snap(vy + vh, sht, dy) && abs_int(sht - (vy + vh)) < i32::MAX {
            lemma_fold_bound(scr, rest, dy, vy, c1);
        }
    }
    assert forall|i: int|
        0 <= i < cands.len() && vx <= (#[trigger] cands[i]).visual().2 && cands[i].visual().0 <= vx + vw
            implies edges_bound(r, dy, vy, vh, cands[i].visual().1, cands[i].visual().3, cands[i].vis_t, cands[i].vis_b) by {
        let (cl, ct, cr, cb) = cands[i].visual();
        let vt = cands[i].vis_t;
        let vb = cands[i].vis_b;
        lemma_candidate_checks_has(vy, vh, ct, cb, vt, vb);
        let k1 = check(vy, cb, vy, cb, cb, 0, 1);
        let k2 = check(vy + vh, ct, vy + vh, ct, ct, vh, 2);
        let k3 = check(vy, ct, vy, ct, ct, 0, 1);
        let k4 = check(vy + vh, cb, vy + vh, cb, cb, vh, 2);
        if vb && may_snap(vy, cb, dy) && abs_int(vy - cb) < i32::MAX {
            lemma_checks_y_has(vy, vh, vx, vw, cands, i, k1);
            lemma_contains_right(scr, rest, k1);
            lemma_fold_bound(scr, rest, dy, vy, k1);
        }
        if vt && may_snap(vy + vh, ct, dy) && abs_int(vy + vh - ct) < i32::MAX {
            lemma_checks_y_has(vy, vh, vx, vw, cands, i, k2);
            lemma_contains_right(scr, rest, k2);
            lemma_fold_bound(scr, rest, dy, vy, k2);
        }
        if vt && may_snap(vy, ct, dy) && abs_int(vy - ct) < i32::MAX {
            lemma_checks_y_has(vy, vh, vx, vw, cands, i, k3);
            lemma_contains_right(scr, rest, k3);
            lemma_fold_bound(scr, rest, dy, vy, k3);
        }
        if vb && may_snap(vy + vh, cb, dy) && abs_int(vy + vh - cb) < i32::MAX {
            lemma_checks_y_has(vy, vh, vx, vw, cands, i, k4);
            lemma_contains_right(scr, rest, k4);
            lemma_fold_bound(scr, rest, dy, vy, k4);
        }
    }
}

// ── End-of-drag correction ──

/// A screen edge.
#[derive(Clone, Copy, Debug, PartialEq, Eq, Structural)]
pub enum ScreenEdge {
    Left,
    Right,
    Top,
    Bottom,
}

/// The correction applied when a move drag is released: with screen
/// snapping on, the first of the visible left, right, top and bottom edges
/// (in that order) that lies within `SNAP_THRESHOLD` of the same screen
/// edge is made flush with it; gives that edge and the new frame position.
pub open spec fn correction_spec(frame: Rect, visual: Rect, sw: int, sh: int, on: bool) -> Option<(ScreenEdge, (int, int))> {
    let (l, t, r, b) = frame;
    let (vl, vt, vr, vb) = visual;
    let vw = vr - vl;
    let vh = vb - vt;
    let lo = vl - l;
    let to = vt - t;
    if !on {
        None
    } else if abs_int(vl as int) <= SNAP_THRESHOLD {
        Some((ScreenEdge::Left, (-lo, t as int)))
    } else if abs_int(sw - vr) <= SNAP_THRESHOLD {
        Some((ScreenEdge::Right, (sw - vw - lo, t as int)))
    } else if abs_int(vt as int) <= SNAP_THRESHOLD {
        Some((ScreenEdge::Top, (l as int, -to)))
    } else if abs_int(sh - vb) <= SNAP_THRESHOLD {
        Some((ScreenEdge::Bottom, (l as int, sh - vh - to)))
    } else {
        None
    }
}

pub open spec fn correction_fits(frame: Rect, visual: Rect, sw: int, sh: int, on: bool) -> bool {
    let (l, t, r, b) = frame;
    let (vl, vt, vr, vb) = visual;
    let vw = vr - vl;
    let vh = vb - vt;
    let lo = vl - l;
    let to = vt - t;
    on ==> {
        &&& fits_i32(vw) && fits_i32(vh) && fits_i32(lo) && fits_i32(to)
        &&& vl != i32::MIN && vt != i32::MIN
        &&& fits_i32(sw - vr) && sw - vr != i32::MIN
        &&& fits_i32(sh - vb) && sh - vb != i32::MIN
        &&& abs_int(vl as int) <= SNAP_THRESHOLD ==> fits_i32(-lo)
        &&& abs_int(sw - vr) <= SNAP_THRESHOLD ==> fits_i32(sw - vw) && fits_i32(sw - vw - lo)
        &&& abs_int(vt as int) <= SNAP_THRESHOLD ==> fits_i32(-to)
        &&& abs_int(sh - vb) <= SNAP_THRESHOLD ==> fits_i32(sh - vh) && fits_i32(sh - vh - to)
    }
}

/// The end-of-drag snap correction for a window with frame `frame` and
/// visible rectangle `visual` on a `screen` of `(sw, sh)`, when screen
/// snapping `screen_on` is enabled (see `correction_spec`): the edge made
/// flush and the frame position to move to, or `None` for no move. The
/// corrected visible edge lies exactly on the screen edge, and the window
/// moves by at most `SNAP_THRESHOLD` along one axis.
pub fn snap_correction(frame: Rect, visual: Rect, screen: (i32, i32), screen_on: bool) -> (r: Option<(ScreenEdge, (i32, i32))>)
    requires
        correction_fits(frame, visual, screen.0 as int, screen.1 as int, screen_on),
    ensures
        r matches Some((e, p)) ==> correction_spec(frame, visual, screen.0 as int, screen.1 as int, screen_on)
            == Some((e, (p.0 as int, p.1 as int))),
        r is None <==> correction_spec(frame, visual, screen.0 as int, screen.1 as int, screen_on) is None,
        r matches Some((e, p)) ==> (e == ScreenEdge::Left ==> p.0 + (visual.0 - frame.0) == 0 && p.1 == frame.1),
        r matches Some((e, p)) ==> (e == ScreenEdge::Right ==> p.0 + (visual.0 - frame.0) + (visual.2 - visual.0) == screen.0 && p.1 == frame.1),
        r matches Some((e, p)) ==> (e == ScreenEdge::Top ==> p.1 + (visual.1 - frame.1) == 0 && p.0 == frame.0),
        r matches Some((e, p)) ==> (e == ScreenEdge::Bottom ==> p.1 + (visual.1 - frame.1) + (visual.3 - visual.1) == screen.1 && p.0 == frame.0),
        r matches Some((e, p)) ==> abs_int(p.0 - frame.0) <= SNAP_THRESHOLD && abs_int(p.1 - frame.1) <= SNAP_THRESHOLD,
{
    if !screen_on {
        return None;
    }
    let (l, t, _r, _b) = frame;
    let (vl, vt, vr, vb) = visual;
    let vw = vr - vl;
    let vh = vb - vt;
    let lo = vl - l;
    let to = vt - t;
    let (sw, sh) = screen;
    let dist_left = if vl < 0 { -vl } else { vl };
    let dr = sw - vr;
    let dist_right = if dr < 0 { -dr } else { dr };
    let dist_top = if vt < 0 { -vt } else { vt };
    let db = sh - vb;
    let dist_bottom = if db < 0 { -db } else { db };
    if dist_left <= SNAP_THRESHOLD {
        Some((ScreenEdge::Left, (-lo, t)))
    } else if dist_right <= SNAP_THRESHOLD {
        Some((ScreenEdge::Right, (sw - vw - lo, t)))
    } else if dist_top <= SNAP_THRESHOLD {
        Some((ScreenEdge::Top, (l, -to)))
    } else if dist_bottom <= SNAP_THRESHOLD {
        Some((ScreenEdge::Bottom, (l, sh - vh - to)))
    } else {
        None
    }
}

// ── Collecting the windows of a drag ──

/// What is known about one top-level window when a drag starts, in Z order.
#[derive(Clone, Copy)]
pub struct WindowProbe {
    pub hwnd: isize,
    /// The window is visible.
    pub visible: bool,
    /// The window is the desktop window itself.
    pub is_desktop: bool,
    /// The window is minimised.
    pub iconic: bool,
    /// The window is this program's own console.
    pub is_console: bool,
    /// DWM cloaks the window (it is not shown).
    pub cloaked: bool,
    /// Frame rectangle.
    pub frame: Rect,
    /// Visible rectangle.
    pub visual: Rect,
    /// The window belongs to the desktop layer (wallpaper, icons).
    pub desktop_layer: bool,
    /// The window has a caption.
    pub has_caption: bool,
}

/// A window takes part in snapping (as something that may hide edges):
/// visible, not the desktop window, not minimised, not the own console,
/// not cloaked, and with a non-empty frame and visible rectangle.
pub open spec fn probe_kept(p: WindowProbe) -> bool {
    &&& p.visible && !p.is_desktop && !p.iconic && !p.is_console && !p.cloaked
    &&& p.frame.2 - p.frame.0 > 0 && p.frame.3 - p.frame.1 > 0
    &&& p.visual.2 - p.visual.0 > 0 && p.visual.3 - p.visual.1 > 0
}

/// A kept window is also a snap candidate when it has a caption and is not
/// the dragged window.
pub open spec fn probe_candidate(p: WindowProbe, drag: isize) -> bool {
    probe_kept(p) && p.has_caption && p.hwnd != drag
}

/// The snapshot entry of a kept window.
pub open spec fn probe_win(p: WindowProbe) -> SnapWin {
    SnapWin {
        hwnd: p.hwnd,
        frame: p.frame,
        lo: (p.visual.0 - p.frame.0) as i32,
        to: (p.visual.1 - p.frame.1) as i32,
        ro: (p.frame.2 - p.visual.2) as i32,
        bo: (p.frame.3 - p.visual.3) as i32,
        desktop: p.desktop_layer,
    }
}

/// The candidate entry of a window at index `z` of the snapshot.
pub open spec fn probe_cand(p: WindowProbe, z: int) -> SnapCandidate {
    SnapCandidate {
        hwnd: p.hwnd,
        z: z as usize,
        frame: p.frame,
        lo: (p.visual.0 - p.frame.0) as i32,
        to: (p.visual.1 - p.frame.1) as i32,
        ro: (p.frame.2 - p.visual.2) as i32,
        bo: (p.frame.3 - p.visual.3) as i32,
        vis_l: true,
        vis_t: true,
        vis_r: true,
        vis_b: true,
    }
}

/// Snapshot and candidates collected from the probes, in Z order.
pub open spec fn collect_spec(probes: Seq<WindowProbe>, drag: isize) -> (Seq<SnapCandidate>, Seq<SnapWin>)
    decreases probes.len(),
{
    if probes.len() == 0 {
        (seq![], seq![])
    } else {
        let (cands, wins) = collect_spec(probes.drop_last(), drag);
        let p = probes.last();
        if probe_kept(p) {
            (
                if probe_candidate(p, drag) { cands.push(probe_cand(p, wins.len() as int)) } else { cands },
                wins.push(probe_win(p)),
            )
        } else {
            (cands, wins)
        }
    }
}

/// The size and inset arithmetic of every probe stays within `i32`.
pub open spec fn probes_fit(probes: Seq<WindowProbe>) -> bool {
    forall|i: int| 0 <= i < probes.len() ==> {
        let p = #[trigger] probes[i];
        &&& fits_i32(p.frame.2 - p.frame.0) && fits_i32(p.frame.3 - p.frame.1)
        &&& fits_i32(p.visual.2 - p.visual.0) && fits_i32(p.visual.3 - p.visual.1)
        &&& insets_fit(p.frame, p.visual)
    }
}

/// Each candidate names its own window in the snapshot, the candidates come
/// in increasing Z order, and the dragged window is never one of them.
pub open spec fn candidates_indexed(cands: Seq<SnapCandidate>, wins: Seq<SnapWin>, drag: isize) -> bool {
    &&& forall|i: int| 0 <= i < cands.len() ==> (#[trigger] cands[i]).z < wins.len() && wins[cands[i].z as int].hwnd == cands[i].hwnd
    &&& forall|i: int, j: int| 0 <= i < j < cands.len() ==> #[trigger] cands[i].z < #[trigger] cands[j].z
    &&& forall|i: int| 0 <= i < cands.len() ==> (#[trigger] cands[i]).hwnd != drag
}

proof fn lemma_collect_indexed(probes: Seq<WindowProbe>, drag: isize)
    requires
        probes.len() <= usize::MAX,
    ensures
        candidates_indexed(collect_spec(probes, drag).0, collect_spec(probes, drag).1, drag),
        collect_spec(probes, drag).1.len() <= probes.len(),
    decreases probes.len(),
{
    if probes.len() > 0 {
        lemma_collect_indexed(probes.drop_last(), drag);
        let (cands, wins) = collect_spec(probes.drop_last(), drag);
        let p = probes.last();
        if probe_candidate(p, drag) {
            let c2 = cands.push(probe_cand(p, wins.len() as int));
            let w2 = wins.push(probe_win(p));
            assert forall|i: int| 0 <= i < c2.len() implies (#[trigger] c2[i]).z < w2.len() && w2[c2[i].z as int].hwnd == c2[i].hwnd by {
                if i < cands.len() {
                    assert(c2[i] == cands[i]);
                }
            }
            assert forall|i: int, j: int| 0 <= i < j < c2.len() implies #[trigger] c2[i].z < #[trigger] c2[j].z by {
                assert(c2[i] == cands[i]);
                if j < cands.len() {
                    assert(c2[j] == cands[j]);
                }
            }
            assert forall|i: int| 0 <= i < c2.len() implies (#[trigger] c2[i]).hwnd != drag by {
                if i < cands.len() {
                    assert(c2[i] == cands[i]);
                }
            }
        } else if probe_kept(p) {
            let w2 = wins.push(probe_win(p));
            assert forall|i: int| 0 <= i < cands.len() implies (#[trigger] cands[i]).z < w2.len() && w2[cands[i].z as int].hwnd == cands[i].hwnd by {
                assert(w2[cands[i].z as int] == wins[cands[i].z as int]);
            }
        }
    }
}

/// Builds the Z-ordered snapshot of the windows that take part in snapping
/// and the snap candidates among them from the probes of all top-level
/// windows (see `collect_spec`), with `drag` the window being dragged. Each
/// candidate records its index in the snapshot; all its edges start out
/// visible.
pub fn collect_snap_candidates(probes: &[WindowProbe], drag: isize) -> (r: (Vec<SnapCandidate>, Vec<SnapWin>))
    requires
        probes_fit(probes@),
    ensures
        (r.0@, r.1@) == collect_spec(probes@, drag),
        candidates_indexed(r.0@, r.1@, drag),
{
    let mut cands: Vec<SnapCandidate> = Vec::new();
    let mut wins: Vec<SnapWin> = Vec::new();
    let mut i: usize = 0;
    while i < probes.len()
        invariant
            i <= probes.len(),
            probes_fit(probes@),
            (cands@, wins@) == collect_spec(probes@.take(i as int), drag),
            wins.len() <= i,
        decreases probes.len() - i,
    {
        let p = probes[i];
        proof {
            assert(probes@.take(i + 1).drop_last() =~= probes@.take(i as int));
            assert(probes@.take(i + 1).last() == probes@[i as int]);
            assert(p == probes@[i as int]);
        }
        let skip = !p.visible || p.is_desktop || p.iconic || p.is_console || p.cloaked
            || p.frame.2 - p.frame.0 <= 0 || p.frame.3 - p.frame.1 <= 0
            || p.visual.2 - p.visual.0 <= 0 || p.visual.3 - p.visual.1 <= 0;
        if !skip {
            let z = wins.len();
            let w = SnapWin::new(p.hwnd, p.frame, p.visual, p.desktop_layer);
            assert(w == probe_win(p));
            wins.push(w);
            if p.has_caption && p.hwnd != drag {
                let c = SnapCandidate::new(p.hwnd, z, p.frame, p.visual);
                assert(c == probe_cand(p, z as int));
                cands.push(c);
            }
        }
        i = i + 1;
    }
    proof {
        assert(probes@.take(probes.len() as int) =~= probes@);
        lemma_collect_indexed(probes@, drag);
    }
    (cands, wins)
}

/// Whether a window class name marks the desktop layer (`Progman` or
/// `WorkerW`), whose windows hide no edges.
pub fn is_desktop_class(name: &str) -> (r: bool)
    ensures
        r == (name@ == "Progman"@ || name@ == "WorkerW"@),
{
    crate::text::str_eq(name, "Progman") || crate::text::str_eq(name, "WorkerW")
}

} // verus!
