//! Console log helpers: local timestamps (fixed UTC+8), colouring, window
//! labels and the text describing a window's rectangle change.

use vstd::prelude::*;
use crate::style::{paint_spec, Style};
use crate::geometry::{tdiv, trem};
use crate::text::{int_str, int_str_zero_padded, push_char, push_int, push_str, push_zero_padded};

verus! {

pub const CLR_INTERACT: u8 = 96;
pub const CLR_SCALE: u8 = 95;
pub const CLR_POSITION: u8 = 92;
pub const CLR_NUDGE: u8 = 93;
pub const CLR_SUCCESS: u8 = 92;
pub const CLR_FAIL: u8 = 91;
pub const CLR_PAUSE: u8 = 93;
pub const CLR_RESUME: u8 = 92;
pub const CLR_TIP: u8 = 93;

// ── Calendar ──

/// Gregorian leap year.
pub open spec fn is_leap_year(y: int) -> bool {
    (y % 4 == 0 && y % 100 != 0) || y % 400 == 0
}

pub open spec fn days_in_year(y: int) -> int {
    if is_leap_year(y) {
        366
    } else {
        365
    }
}

/// Days in month `m` (1 = January).
pub open spec fn month_len(m: int, leap: bool) -> int {
    if m == 2 {
        if leap {
            29
        } else {
            28
        }
    } else if m == 4 || m == 6 || m == 9 || m == 11 {
        30
    } else {
        31
    }
}

/// Year containing day `d` counted from the start of year `y`, and the day
/// within that year; a negative day stays in year `y`.
pub open spec fn split_year(d: int, y: int) -> (int, int)
    decreases d,
{
    if d < days_in_year(y) {
        (y, d)
    } else {
        split_year(d - days_in_year(y), y + 1)
    }
}

/// Month (1-based) containing day `d` counted from the start of month `m`,
/// and the day within it; a negative day stays in month `m`.
pub open spec fn split_month(d: int, leap: bool, m: int) -> (int, int)
    decreases 13 - m,
{
    if m >= 13 || d < month_len(m, leap) {
        (m, d)
    } else {
        split_month(d - month_len(m, leap), leap, m + 1)
    }
}

/// `secs` since the Unix epoch shown as UTC+8 local time,
/// `YYYY-MM-DD hh:mm:ss`; the offset is added with wrap-around.
pub open spec fn local_time_text(secs: i64) -> Seq<char> {
    let total = secs.wrapping_add(28800i64) as int;
    let days = tdiv(total, 86400);
    let t = trem(total, 86400);
    let (y, dy) = split_year(days, 1970);
    let (mo, dm) = split_month(dy, is_leap_year(y), 1);
    int_str_zero_padded(y, 4) + seq!['-'] + int_str_zero_padded(mo, 2) + seq!['-']
        + int_str_zero_padded(dm + 1, 2) + seq![' '] + int_str_zero_padded(tdiv(t, 3600), 2)
        + seq![':'] + int_str_zero_padded(tdiv(trem(t, 3600), 60), 2) + seq![':']
        + int_str_zero_padded(trem(t, 60), 2)
}

fn is_leap(y: i64) -> (r: bool)
    ensures
        r == is_leap_year(y as int),
{
    let m: u64 = if y < 0 { (0i128 - (y as i128)) as u64 } else { y as u64 };
    proof {
        assert(((m as int) % 4 == 0) == ((y as int) % 4 == 0)) by (nonlinear_arith)
            requires m as int == if y < 0 { -(y as int) } else { y as int };
        assert(((m as int) % 100 == 0) == ((y as int) % 100 == 0)) by (nonlinear_arith)
            requires m as int == if y < 0 { -(y as int) } else { y as int };
        assert(((m as int) % 400 == 0) == ((y as int) % 400 == 0)) by (nonlinear_arith)
            requires m as int == if y < 0 { -(y as int) } else { y as int };
    }
    (m % 4 == 0 && m % 100 != 0) || m % 400 == 0
}

/// Quotient and remainder of `a` by `b > 0`, rounding towards zero.
fn div_rem(a: i64, b: i64) -> (r: (i64, i64))
    requires
        b >= 2,
    ensures
        r.0 as int == tdiv(a as int, b as int),
        r.1 as int == trem(a as int, b as int),
        -(b as int) < r.1 < b,
        a >= 0 ==> r.1 >= 0,
        a >= 0 ==> 0 <= r.0 <= a,
        a < 0 ==> a <= r.0 <= 0,
{
    let neg = a < 0;
    let m: u64 = if neg { (0i128 - (a as i128)) as u64 } else { a as u64 };
    let bu = b as u64;
    let q = m / bu;
    let rm = m % bu;
    proof {
        assert(m as int == bu * q + rm) by (nonlinear_arith)
            requires q == (m as int) / (bu as int), rm == (m as int) % (bu as int), bu > 0;
        assert(q * 2 <= m) by (nonlinear_arith)
            requires q == (m as int) / (bu as int), bu >= 2;
        if neg {
            assert(tdiv(a as int, b as int) == -(q as int));
            assert((b as int) * (-(q as int)) == -((bu as int) * (q as int))) by (nonlinear_arith)
                requires b as int == bu as int;
        } else {
            assert(tdiv(a as int, b as int) == q as int);
        }
    }
    if neg {
        (0i64 - (q as i64), 0i64 - (rm as i64))
    } else {
        (q as i64, rm as i64)
    }
}

fn month_len_exec(m: i64, leap: bool) -> (r: i64)
    ensures
        r == month_len(m as int, leap),
{
    if m == 2 {
        if leap {
            29
        } else {
            28
        }
    } else if m == 4 || m == 6 || m == 9 || m == 11 {
        30
    } else {
        31
    }
}

/// The local time (UTC+8) of `secs` since the Unix epoch as
/// `YYYY-MM-DD hh:mm:ss`, e.g. `0` gives `1970-01-01 08:00:00`.
pub fn format_local_time(secs: i64) -> (r: String)
    ensures
        r@ == local_time_text(secs),
{
    let total = secs.wrapping_add(28800i64);
    let (days, t) = div_rem(total, 86400);
    let mut y: i64 = 1970;
    let mut d: i64 = days;
    let mut yd: i64 = if is_leap(y) { 366 } else { 365 };
    while d >= yd
        invariant
            split_year(days as int, 1970) == split_year(d as int, y as int),
            yd as int == days_in_year(y as int),
            1970 <= y,
            (y - 1970) * 365 <= days - d,
            d <= days,
            days <= 0x8000_0000_0000_0000int / 86400,
        decreases d,
    {
        d = d - yd;
        y = y + 1;
        yd = if is_leap(y) { 366 } else { 365 };
    }
    let leap = is_leap(y);
    let ghost d0 = d as int;
    assert(split_year(days as int, 1970) == (y as int, d0));
    let mut mo: i64 = 1;
    let mut md: i64 = month_len_exec(mo, leap);
    while mo <= 12 && d >= md
        invariant
            split_month(d0, leap, 1) == split_month(d as int, leap, mo as int),
            leap == is_leap_year(y as int),
            md == month_len(mo as int, leap),
            1 <= mo <= 13,
            d <= days,
        decreases 13 - mo,
    {
        d = d - md;
        mo = mo + 1;
        md = month_len_exec(mo, leap);
    }
    let (h, rest) = div_rem(t, 3600);
    let (mi, _) = div_rem(rest, 60);
    let (_, s) = div_rem(t, 60);
    let mut out = String::new();
    push_zero_padded(&mut out, y, 4);
    push_char(&mut out, '-');
    push_zero_padded(&mut out, mo, 2);
    push_char(&mut out, '-');
    push_zero_padded(&mut out, d + 1, 2);
    push_char(&mut out, ' ');
    push_zero_padded(&mut out, h, 2);
    push_char(&mut out, ':');
    push_zero_padded(&mut out, mi, 2);
    push_char(&mut out, ':');
    push_zero_padded(&mut out, s, 2);
    assert(out@ =~= local_time_text(secs));
    out
}


// ── Clock ──

#[verifier::external_type_specification]
#[verifier::external_body]
pub struct ExSystemTime(std::time::SystemTime);

/// Calls `std::time::SystemTime::now`; nothing is claimed of the reading.
#[verifier::external_body]
fn system_time_now() -> std::time::SystemTime {
    std::time::SystemTime::now()
}

/// Calls `SystemTime::duration_since(UNIX_EPOCH)`, `None` for a time before
/// the epoch; nothing is claimed of the duration.
#[verifier::external_body]
fn since_unix_epoch(t: std::time::SystemTime) -> Option<std::time::Duration> {
    t.duration_since(std::time::UNIX_EPOCH).ok()
}

/// Calls `Duration::as_secs`; nothing is claimed of the count.
#[verifier::external_body]
fn whole_secs(d: std::time::Duration) -> u64 {
    d.as_secs()
}

/// The current local time (UTC+8) as `YYYY-MM-DD hh:mm:ss`; a clock set
/// before 1970 counts as the epoch.
pub fn now() -> (r: String)
    ensures
        exists|secs: u64| r@ == #[trigger] local_time_text(secs as i64),
{
    let secs: u64 = match since_unix_epoch(system_time_now()) {
        Some(d) => whole_secs(d),
        None => 0,
    };
    let r = format_local_time(secs as i64);
    assert(r@ == local_time_text(secs as i64));
    r
}

// ── Colours and labels ──

/// `text` in ANSI colour `clr`.
pub fn c(text: &str, clr: u8) -> (r: String)
    ensures
        r@ == paint_spec(crate::style::plain_style(clr), text@),
{
    Style::new(clr).paint(text)
}

/// The colours windows are labelled with.
pub open spec fn label_colours() -> Seq<u8> {
    seq![94u8, 91, 93, 92, 96, 95, 31, 32, 33, 34, 35, 36]
}

/// The label colour of a window handle: stable for the same handle.
pub open spec fn handle_colour(h: usize) -> u8 {
    label_colours()[(h.wrapping_mul(3) % 12) as int]
}

pub open spec fn bracketed(s: Seq<char>) -> Seq<char> {
    seq!['['] + s + seq![']']
}

/// A window label: `[process]` in the handle's colour, a space, the title.
pub open spec fn win_info_text(h: usize, process: Seq<char>, title: Seq<char>) -> Seq<char> {
    paint_spec(crate::style::plain_style(handle_colour(h)), bracketed(process)) + seq![' '] + title
}

/// Labels a window for the log: its process name in brackets, coloured by
/// the handle value `hwnd`, followed by its title.
pub fn win_info(hwnd: usize, process: &str, title: &str) -> (r: String)
    ensures
        r@ == win_info_text(hwnd, process@, title@),
{
    let colours: [u8; 12] = [94, 91, 93, 92, 96, 95, 31, 32, 33, 34, 35, 36];
    let idx = hwnd.wrapping_mul(3) % 12;
    assert(colours@ =~= label_colours());
    let clr = colours[idx];
    let mut label = String::new();
    push_char(&mut label, '[');
    push_str(&mut label, process);
    push_char(&mut label, ']');
    assert(label@ =~= bracketed(process@));
    let mut out = Style::new(clr).paint(label.as_str());
    push_char(&mut out, ' ');
    push_str(&mut out, title);
    out
}

/// Rectangle `(l, t, r, b)` as `(l,t,wxh)`.
pub open spec fn rect_text(r: (i32, i32, i32, i32)) -> Seq<char> {
    seq!['('] + int_str(r.0 as int) + seq![','] + int_str(r.1 as int) + seq![','] + int_str(
        r.2 - r.0,
    ) + seq!['x'] + int_str(r.3 - r.1) + seq![')']
}

/// Width and height of `r` fit in `i32`.
pub open spec fn rect_size_fits(r: (i32, i32, i32, i32)) -> bool {
    i32::MIN <= r.2 - r.0 <= i32::MAX && i32::MIN <= r.3 - r.1 <= i32::MAX
}

fn push_rect(s: &mut String, r: (i32, i32, i32, i32))
    requires
        rect_size_fits(r),
    ensures
        final(s)@ == old(s)@ + rect_text(r),
{
    push_char(s, '(');
    push_int(s, r.0 as i64);
    push_char(s, ',');
    push_int(s, r.1 as i64);
    push_char(s, ',');
    push_int(s, (r.2 - r.0) as i64);
    push_char(s, 'x');
    push_int(s, (r.3 - r.1) as i64);
    push_char(s, ')');
    assert(final(s)@ =~= old(s)@ + rect_text(r));
}

/// A rectangle change as `(l,t,wxh) -> (l,t,wxh)`.
pub fn format_change(old: (i32, i32, i32, i32), new: (i32, i32, i32, i32)) -> (r: String)
    requires
        rect_size_fits(old),
        rect_size_fits(new),
    ensures
        r@ == rect_text(old) + seq![' ', '-', '>', ' '] + rect_text(new),
{
    let mut out = String::new();
    push_rect(&mut out, old);
    push_char(&mut out, ' ');
    push_char(&mut out, '-');
    push_char(&mut out, '>');
    push_char(&mut out, ' ');
    push_rect(&mut out, new);
    assert(out@ =~= rect_text(old) + seq![' ', '-', '>', ' '] + rect_text(new));
    out
}

/// A log line `[stamp] [mode] [action] info change`, with mode and action in
/// their colours.
pub open spec fn change_line_text(
    stamp: Seq<char>,
    mode: Seq<char>,
    mode_clr: u8,
    action: Seq<char>,
    action_clr: u8,
    info: Seq<char>,
    change: Seq<char>,
) -> Seq<char> {
    bracketed(stamp) + seq![' '] + paint_spec(crate::style::plain_style(mode_clr), bracketed(mode)) + seq![' ']
        + paint_spec(crate::style::plain_style(action_clr), bracketed(action)) + seq![' '] + info + seq![' ']
        + change
}

/// Builds the line that logs a window's rectangle change.
pub fn change_line(
    stamp: &str,
    mode: &str,
    mode_clr: u8,
    action: &str,
    action_clr: u8,
    info: &str,
    change: &str,
) -> (r: String)
    ensures
        r@ == change_line_text(stamp@, mode@, mode_clr, action@, action_clr, info@, change@),
{
    let mut out = String::new();
    push_char(&mut out, '[');
    push_str(&mut out, stamp);
    push_char(&mut out, ']');
    push_char(&mut out, ' ');
    let mut m = String::new();
    push_char(&mut m, '[');
    push_str(&mut m, mode);
    push_char(&mut m, ']');
    let mp = c(m.as_str(), mode_clr);
    push_str(&mut out, mp.as_str());
    push_char(&mut out, ' ');
    let mut a = String::new();
    push_char(&mut a, '[');
    push_str(&mut a, action);
    push_char(&mut a, ']');
    let ap = c(a.as_str(), action_clr);
    push_str(&mut out, ap.as_str());
    push_char(&mut out, ' ');
    push_str(&mut out, info);
    push_char(&mut out, ' ');
    push_str(&mut out, change);
    assert(m@ =~= bracketed(mode@));
    assert(a@ =~= bracketed(action@));
    assert(out@ =~= change_line_text(stamp@, mode@, mode_clr, action@, action_clr, info@, change@));
    out
}

/// A log line `[stamp] [交互] [action] detail info change` for an interactive
/// action with a detail, the mode and action in their colours.
pub open spec fn detail_line_text(
    stamp: Seq<char>,
    action: Seq<char>,
    action_clr: u8,
    detail: Seq<char>,
    info: Seq<char>,
    change: Seq<char>,
) -> Seq<char> {
    bracketed(stamp) + seq![' '] + paint_spec(crate::style::plain_style(CLR_INTERACT), "[交互]"@) + seq![' ']
        + paint_spec(crate::style::plain_style(action_clr), bracketed(action)) + seq![' '] + detail + seq![' ']
        + info + seq![' '] + change
}

/// Builds the line that logs an interactive action with a detail (such as
/// the direction of a scaling step) and the window's rectangle change.
pub fn detail_line(stamp: &str, action: &str, action_clr: u8, detail: &str, info: &str, change: &str) -> (r: String)
    ensures
        r@ == detail_line_text(stamp@, action@, action_clr, detail@, info@, change@),
{
    let mut out = String::new();
    push_char(&mut out, '[');
    push_str(&mut out, stamp);
    push_char(&mut out, ']');
    push_char(&mut out, ' ');
    let mp = c("[交互]", CLR_INTERACT);
    push_str(&mut out, mp.as_str());
    push_char(&mut out, ' ');
    let mut a = String::new();
    push_char(&mut a, '[');
    push_str(&mut a, action);
    push_char(&mut a, ']');
    let ap = c(a.as_str(), action_clr);
    push_str(&mut out, ap.as_str());
    push_char(&mut out, ' ');
    push_str(&mut out, detail);
    push_char(&mut out, ' ');
    push_str(&mut out, info);
    push_char(&mut out, ' ');
    push_str(&mut out, change);
    assert(a@ =~= bracketed(action@));
    assert(out@ =~= detail_line_text(stamp@, action@, action_clr, detail@, info@, change@));
    out
}

} // verus!
