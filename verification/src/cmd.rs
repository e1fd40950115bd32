//! The one-shot command line mode (`--cmd snap|list|screen|restore`):
//! finding the target window, laying it out in the work area, and the JSON
//! that is printed.

use vstd::prelude::*;
use crate::geometry::{fits_i32, tdiv, Rect};
use crate::text::{chars_vec, dec_str, digit_char, int_str, push_char, push_dec, push_int, push_str, str_eq};

verus! {

/// A top-level window as the command line mode lists it.
pub struct WinInfo {
    pub hwnd: isize,
    pub pid: u32,
    pub title: String,
    pub x: i32,
    pub y: i32,
    pub w: i32,
    pub h: i32,
}

impl Clone for WinInfo {
    fn clone(&self) -> (r: Self)
        ensures
            r == *self,
    {
        WinInfo {
            hwnd: self.hwnd,
            pid: self.pid,
            title: self.title.clone(),
            x: self.x,
            y: self.y,
            w: self.w,
            h: self.h,
        }
    }
}

// ── Which windows count ──

/// Titles of browser placeholder pages that are never a target.
pub open spec fn placeholder_title(t: Seq<char>) -> bool {
    t == "还原页面"@ || t == "Restore pages"@ || t == "新标签页"@ || t == "New Tab"@
}

/// A window worth targeting: larger than 100 x 100, with a title that is
/// not empty and not a placeholder.
pub open spec fn meaningful(w: WinInfo) -> bool {
    w.w > 100 && w.h > 100 && w.title@.len() > 0 && !placeholder_title(w.title@)
}

/// Whether the window is worth targeting (see `meaningful`).
pub fn is_meaningful(w: &WinInfo) -> (r: bool)
    ensures
        r == meaningful(*w),
{
    if !(w.w > 100 && w.h > 100) {
        return false;
    }
    let t = w.title.as_str();
    if t.is_empty() {
        return false;
    }
    proof {
        reveal_strlit("还原页面");
        reveal_strlit("Restore pages");
        reveal_strlit("新标签页");
        reveal_strlit("New Tab");
    }
    !(str_eq(t, "还原页面") || str_eq(t, "Restore pages") || str_eq(t, "新标签页") || str_eq(t, "New Tab"))
}

// ── Choosing by process ──

pub open spec fn area(w: WinInfo) -> int {
    w.w * w.h
}

/// A window of process `p` is in the pool when it is meaningful or when
/// `any` (no window of `p` is meaningful).
pub open spec fn in_pool(w: WinInfo, p: u32, any: bool) -> bool {
    w.pid == p && (any || meaningful(w))
}

/// The pool's window of largest area, the last one on ties.
pub open spec fn largest_in_pool(ws: Seq<WinInfo>, p: u32, any: bool) -> Option<WinInfo>
    decreases ws.len(),
{
    if ws.len() == 0 {
        None
    } else {
        let prev = largest_in_pool(ws.drop_last(), p, any);
        let w = ws.last();
        if in_pool(w, p, any) {
            match prev {
                None => Some(w),
                Some(m) => if area(w) >= area(m) { Some(w) } else { Some(m) },
            }
        } else {
            prev
        }
    }
}

pub open spec fn has_meaningful(ws: Seq<WinInfo>, p: u32) -> bool {
    exists|i: int| 0 <= i < ws.len() && ws[i].pid == p && meaningful(ws[i])
}

/// The target for process `p`: among its windows (only the meaningful ones
/// when it has any) the one of largest area, the last one on ties.
pub open spec fn pick_by_pid_spec(ws: Seq<WinInfo>, p: u32) -> Option<WinInfo> {
    largest_in_pool(ws, p, !has_meaningful(ws, p))
}

/// The areas of the windows that `pick_by_pid_spec` compares fit in `i32`.
pub open spec fn pid_areas_fit(ws: Seq<WinInfo>, p: u32) -> bool {
    forall|i: int| 0 <= i < ws.len() && in_pool(#[trigger] ws[i], p, !has_meaningful(ws, p)) ==> fits_i32(area(ws[i]))
}

proof fn lemma_largest_is_some(ws: Seq<WinInfo>, p: u32, any: bool, i: int)
    requires
        0 <= i < ws.len(),
        in_pool(ws[i], p, any),
    ensures
        largest_in_pool(ws, p, any) is Some,
    decreases ws.len(),
{
    if i < ws.len() - 1 {
        assert(ws.drop_last()[i] == ws[i]);
        lemma_largest_is_some(ws.drop_last(), p, any, i);
    }
}

proof fn lemma_largest_in_pool(ws: Seq<WinInfo>, p: u32, any: bool)
    ensures
        largest_in_pool(ws, p, any) matches Some(m) ==> in_pool(m, p, any) && exists|i: int| 0 <= i < ws.len() && ws[i] == m,
    decreases ws.len(),
{
    if ws.len() > 0 {
        lemma_largest_in_pool(ws.drop_last(), p, any);
        if let Some(m) = largest_in_pool(ws.drop_last(), p, any) {
            let i = choose|i: int| 0 <= i < ws.drop_last().len() && ws.drop_last()[i] == m;
            assert(ws[i] == m);
        }
        assert(ws[ws.len() - 1] == ws.last());
    }
}

proof fn lemma_largest_max(ws: Seq<WinInfo>, p: u32, any: bool)
    ensures
        largest_in_pool(ws, p, any) matches Some(m) ==> forall|i: int|
            0 <= i < ws.len() && in_pool(#[trigger] ws[i], p, any) ==> area(ws[i]) <= area(m),
        largest_in_pool(ws, p, any) is None ==> forall|i: int| 0 <= i < ws.len() ==> !in_pool(#[trigger] ws[i], p, any),
    decreases ws.len(),
{
    if ws.len() > 0 {
        let pre = ws.drop_last();
        lemma_largest_max(pre, p, any);
        let n = ws.len() - 1;
        assert(ws[n] == ws.last());
        if let Some(m) = largest_in_pool(ws, p, any) {
            assert forall|i: int| 0 <= i < ws.len() && in_pool(#[trigger] ws[i], p, any) implies area(ws[i]) <= area(m) by {
                if i < n {
                    assert(ws[i] == pre[i]);
                }
            }
        } else {
            assert forall|i: int| 0 <= i < ws.len() implies !in_pool(#[trigger] ws[i], p, any) by {
                if i < n {
                    assert(ws[i] == pre[i]);
                }
            }
        }
    }
}

/// Law: the window picked for a process id belongs to that process and is
/// one of the windows listed; when the process has a meaningful window the
/// pick is meaningful and no meaningful window of the process is larger,
/// otherwise no window of the process is larger. There is no pick exactly
/// when the process has no window.
pub proof fn lemma_pick_by_pid_largest(ws: Seq<WinInfo>, p: u32)
    ensures
        pick_by_pid_spec(ws, p) is None <==> forall|i: int| 0 <= i < ws.len() ==> (#[trigger] ws[i]).pid != p,
        pick_by_pid_spec(ws, p) matches Some(m) ==> {
            &&& m.pid == p
            &&& exists|i: int| 0 <= i < ws.len() && ws[i] == m
            &&& (exists|i: int| 0 <= i < ws.len() && ws[i].pid == p && meaningful(ws[i])) ==> meaningful(m)
            &&& forall|i: int|
                0 <= i < ws.len() && (#[trigger] ws[i]).pid == p && (meaningful(ws[i]) || !(exists|j: int|
                    0 <= j < ws.len() && ws[j].pid == p && meaningful(ws[j]))) ==> area(ws[i]) <= area(m)
        },
{
    let any = !has_meaningful(ws, p);
    lemma_largest_in_pool(ws, p, any);
    lemma_largest_max(ws, p, any);
    if exists|i: int| 0 <= i < ws.len() && ws[i].pid == p {
        let i = choose|i: int| 0 <= i < ws.len() && ws[i].pid == p;
        if any {
            lemma_largest_is_some(ws, p, any, i);
        } else {
            let j = choose|j: int| 0 <= j < ws.len() && ws[j].pid == p && meaningful(ws[j]);
            lemma_largest_is_some(ws, p, any, j);
        }
    }
}

/// Law: a title search answers with the first meaningful window whose
/// lowered title contains the query, and with nothing exactly when no
/// meaningful window's title does.
pub proof fn lemma_title_match_first(ws: Seq<WinInfo>, lowered: Seq<Seq<char>>, query: Seq<char>)
    requires
        lowered.len() == ws.len(),
    ensures
        first_title_match_spec(ws, lowered, query) matches Some(m) ==> exists|i: int|
            0 <= i < ws.len() && ws[i] == m && meaningful(ws[i]) && contains_spec(lowered[i], query) && forall|j: int|
                0 <= j < i ==> !(meaningful(#[trigger] ws[j]) && contains_spec(lowered[j], query)),
        first_title_match_spec(ws, lowered, query) is None ==> forall|i: int|
            0 <= i < ws.len() ==> !(meaningful(#[trigger] ws[i]) && contains_spec(lowered[i], query)),
    decreases ws.len(),
{
    if ws.len() > 0 && !(meaningful(ws[0]) && contains_spec(lowered[0], query)) {
        let ws1 = ws.drop_first();
        let lo1 = lowered.drop_first();
        lemma_title_match_first(ws1, lo1, query);
        if let Some(m) = first_title_match_spec(ws1, lo1, query) {
            let i = choose|i: int|
                0 <= i < ws1.len() && ws1[i] == m && meaningful(ws1[i]) && contains_spec(lo1[i], query) && forall|j: int|
                    0 <= j < i ==> !(meaningful(#[trigger] ws1[j]) && contains_spec(lo1[j], query));
            assert(ws[i + 1] == ws1[i] && lowered[i + 1] == lo1[i]);
            assert forall|j: int| 0 <= j < i + 1 implies !(meaningful(#[trigger] ws[j]) && contains_spec(lowered[j], query)) by {
                if j > 0 {
                    assert(ws[j] == ws1[j - 1] && lowered[j] == lo1[j - 1]);
                }
            }
        } else {
            assert forall|i: int| 0 <= i < ws.len() implies !(meaningful(#[trigger] ws[i]) && contains_spec(lowered[i], query)) by {
                if i > 0 {
                    assert(ws[i] == ws1[i - 1] && lowered[i] == lo1[i - 1]);
                }
            }
        }
    }
}

/// The target window of process `p` among `wins` (see `pick_by_pid_spec`).
pub fn pick_by_pid(wins: &[WinInfo], p: u32) -> (r: Option<WinInfo>)
    requires
        pid_areas_fit(wins@, p),
    ensures
        r == pick_by_pid_spec(wins@, p),
{
    let mut any_good = false;
    let mut i: usize = 0;
    while i < wins.len()
        invariant
            i <= wins.len(),
            any_good == exists|k: int| 0 <= k < i && wins@[k].pid == p && meaningful(wins@[k]),
        decreases wins.len() - i,
    {
        if wins[i].pid == p && is_meaningful(&wins[i]) {
            any_good = true;
        }
        i = i + 1;
    }
    let any = !any_good;
    let mut best: Option<usize> = None;
    let mut best_area: i32 = 0;
    let mut j: usize = 0;
    while j < wins.len()
        invariant
            j <= wins.len(),
            any == !has_meaningful(wins@, p),
            pid_areas_fit(wins@, p),
            match best {
                None => largest_in_pool(wins@.take(j as int), p, any) is None,
                Some(b) => b < j && largest_in_pool(wins@.take(j as int), p, any) == Some(wins@[b as int])
                    && best_area == area(wins@[b as int]),
            },
        decreases wins.len() - j,
    {
        proof {
            assert(wins@.take(j + 1).drop_last() =~= wins@.take(j as int));
            assert(wins@.take(j + 1).last() == wins@[j as int]);
        }
        let wj = &wins[j];
        let keep = wj.pid == p && (any || is_meaningful(wj));
        if keep {
            let a = wj.w * wj.h;
            match best {
                None => {
                    best = Some(j);
                    best_area = a;
                },
                Some(_) => {
                    if a >= best_area {
                        best = Some(j);
                        best_area = a;
                    }
                },
            }
        }
        j = j + 1;
    }
    proof {
        assert(wins@.take(wins.len() as int) =~= wins@);
    }
    match best {
        None => None,
        Some(b) => Some(wins[b].clone()),
    }
}

// ── Substring search ──

/// Whether `needle` occurs in `hay` as a contiguous run.
pub open spec fn contains_spec(hay: Seq<char>, needle: Seq<char>) -> bool {
    exists|k: int| 0 <= k && k + needle.len() <= hay.len() && #[trigger] hay.subrange(k, k + needle.len()) == needle
}

fn matches_at(hay: &Vec<char>, needle: &Vec<char>, k: usize) -> (r: bool)
    requires
        k + needle.len() <= hay.len(),
    ensures
        r == (hay@.subrange(k as int, k + needle.len()) == needle@),
{
    let mut j: usize = 0;
    while j < needle.len()
        invariant
            k + needle.len() <= hay.len(),
            j <= needle.len(),
            forall|m: int| 0 <= m < j ==> hay@[k + m] == needle@[m],
        decreases needle.len() - j,
    {
        if hay[k + j] != needle[j] {
            proof {
                assert(hay@.subrange(k as int, k + needle.len())[j as int] != needle@[j as int]);
            }
            return false;
        }
        j = j + 1;
    }
    proof {
        assert(hay@.subrange(k as int, k + needle.len()) =~= needle@);
    }
    true
}

/// Whether `needle` occurs in `hay` (the empty string occurs everywhere).
pub fn contains(hay: &str, needle: &str) -> (r: bool)
    ensures
        r == contains_spec(hay@, needle@),
{
    let h = chars_vec(hay);
    let n = chars_vec(needle);
    if n.len() > h.len() {
        return false;
    }
    let last = h.len() - n.len();
    let mut k: usize = 0;
    loop
        invariant
            last == h.len() - n.len(),
            n.len() <= h.len(),
            h@ == hay@,
            n@ == needle@,
            k <= last,
            forall|m: int| 0 <= m < k ==> #[trigger] h@.subrange(m, m + n@.len()) != n@,
        ensures
            forall|m: int| 0 <= m <= last ==> #[trigger] h@.subrange(m, m + n@.len()) != n@,
        decreases last - k,
    {
        if matches_at(&h, &n, k) {
            return true;
        }
        if k == last {
            break;
        }
        k = k + 1;
    }
    proof {
        assert forall|m: int| 0 <= m && m + needle@.len() <= hay@.len() implies #[trigger] hay@.subrange(m, m + needle@.len()) != needle@ by {
            assert(m <= last);
        }
    }
    false
}

// ── Choosing by title ──

/// What `str::to_lowercase` returns for a string: the Unicode lowercase
/// mapping, which depends on the string alone.
pub uninterp spec fn lowercase(s: Seq<char>) -> Seq<char>;

/// `str::to_lowercase`: the lowercase form of `s`, as named by `lowercase`.
#[verifier::external_body]
fn to_lowercase(s: &str) -> (r: String)
    ensures
        r@ == lowercase(s@),
{
    s.to_lowercase()
}

/// The first meaningful window among `ws` whose title, in the matching
/// entry of `lowered`, contains `query`.
pub open spec fn first_title_match_spec(ws: Seq<WinInfo>, lowered: Seq<Seq<char>>, query: Seq<char>) -> Option<WinInfo>
    decreases ws.len(),
{
    if ws.len() == 0 {
        None
    } else if meaningful(ws[0]) && contains_spec(lowered[0], query) {
        Some(ws[0])
    } else {
        first_title_match_spec(ws.drop_first(), lowered.drop_first(), query)
    }
}

pub open spec fn views(ss: Seq<String>) -> Seq<Seq<char>> {
    Seq::new(ss.len(), |i: int| ss[i]@)
}

/// The first meaningful window among `wins` whose title, as given in the
/// matching entry of `lowered_titles`, contains `query`.
pub fn first_title_match(wins: &[WinInfo], lowered_titles: &[String], query: &str) -> (r: Option<WinInfo>)
    requires
        lowered_titles.len() == wins.len(),
    ensures
        r == first_title_match_spec(wins@, views(lowered_titles@), query@),
{
    proof {
        assert(wins@.skip(0) =~= wins@);
        assert(views(lowered_titles@).skip(0) =~= views(lowered_titles@));
    }
    let mut i: usize = 0;
    while i < wins.len()
        invariant
            lowered_titles.len() == wins.len(),
            i <= wins.len(),
            first_title_match_spec(wins@, views(lowered_titles@), query@)
                == first_title_match_spec(wins@.skip(i as int), views(lowered_titles@).skip(i as int), query@),
        decreases wins.len() - i,
    {
        proof {
            let ws = wins@.skip(i as int);
            let ls = views(lowered_titles@).skip(i as int);
            assert(ws.drop_first() =~= wins@.skip(i + 1));
            assert(ls.drop_first() =~= views(lowered_titles@).skip(i + 1));
            assert(ws[0] == wins@[i as int]);
            assert(ls[0] == lowered_titles@[i as int]@);
        }
        if is_meaningful(&wins[i]) && contains(lowered_titles[i].as_str(), query) {
            return Some(wins[i].clone());
        }
        i = i + 1;
    }
    None
}

/// Lowercase forms of the windows' titles.
pub open spec fn lowered_titles_of(ws: Seq<WinInfo>) -> Seq<Seq<char>> {
    Seq::new(ws.len(), |i: int| lowercase(ws[i].title@))
}

/// Lowercase forms of the windows' titles.
fn lower_titles(wins: &[WinInfo]) -> (r: Vec<String>)
    ensures
        r.len() == wins.len(),
        views(r@) == lowered_titles_of(wins@),
{
    let mut out: Vec<String> = Vec::new();
    let mut i: usize = 0;
    while i < wins.len()
        invariant
            i <= wins.len(),
            out.len() == i,
            forall|k: int| 0 <= k < i ==> (#[trigger] out@[k])@ == lowercase(wins@[k].title@),
        decreases wins.len() - i,
    {
        let l = to_lowercase(wins[i].title.as_str());
        out.push(l);
        i = i + 1;
    }
    proof {
        assert(views(out@) =~= lowered_titles_of(wins@));
    }
    out
}

/// The target window for the command line: by process id when one is
/// given (see `pick_by_pid`), else the first meaningful window whose title
/// contains `title`, ignoring case; `None` when neither is given or nothing
/// matches.
pub fn find_window(wins: &[WinInfo], pid: Option<u32>, title: Option<&str>) -> (r: Option<WinInfo>)
    requires
        pid matches Some(p) ==> pid_areas_fit(wins@, p),
    ensures
        pid matches Some(p) ==> r == pick_by_pid_spec(wins@, p),
        pid is None ==> (title matches Some(t) ==> r == first_title_match_spec(wins@, lowered_titles_of(wins@), lowercase(t@))),
        pid is None && title is None ==> r is None,
{
    match pid {
        Some(p) => pick_by_pid(wins, p),
        None => match title {
            Some(t) => {
                let tl = to_lowercase(t);
                let lowered = lower_titles(wins);
                first_title_match(wins, lowered.as_slice(), tl.as_str())
            },
            None => None,
        },
    }
}

// ── JSON output ──

/// Hexadecimal digit for `d < 16`, upper or lower case.
pub open spec fn hex_digit(d: nat, upper: bool) -> char {
    if d < 10 {
        digit_char(d)
    } else if upper {
        (55 + d) as char
    } else {
        (87 + d) as char
    }
}

/// Upper-case hexadecimal digits of `n` without leading zeros (`{:X}`).
pub open spec fn hex_str(n: nat) -> Seq<char>
    decreases n,
{
    if n < 16 {
        seq![hex_digit(n, true)]
    } else {
        hex_str(n / 16).push(hex_digit(n % 16, true))
    }
}

fn hex_char(d: u64, upper: bool) -> (c: char)
    requires
        d < 16,
    ensures
        c == hex_digit(d as nat, upper),
{
    let b: u8 = if d < 10 {
        48u8 + (d as u8)
    } else if upper {
        55u8 + (d as u8)
    } else {
        87u8 + (d as u8)
    };
    b as char
}

fn push_hex(s: &mut String, n: u64)
    ensures
        final(s)@ == old(s)@ + hex_str(n as nat),
    decreases n,
{
    if n >= 16 {
        push_hex(s, n / 16);
    }
    push_char(s, hex_char(n % 16, true));
    proof {
        assert(hex_str(n as nat) == if n < 16 { seq![hex_digit(n as nat, true)] } else {
            hex_str((n / 16) as nat).push(hex_digit((n % 16) as nat, true))
        });
    }
}

/// A window handle as printed: the bits of the handle in upper-case hex.
pub open spec fn handle_hex(h: isize) -> Seq<char> {
    hex_str((h as usize) as nat)
}

fn push_handle(s: &mut String, h: isize)
    ensures
        final(s)@ == old(s)@ + handle_hex(h),
{
    let u: usize = h as usize;
    push_hex(s, u as u64);
}

/// The JSON escape of one character: quote, backslash, newline, carriage
/// return and tab get their short escapes, other control characters
/// `\u00XX` (lower-case hex), everything else stands for itself.
pub open spec fn json_escape_char(c: char) -> Seq<char> {
    if c == '"' {
        seq!['\\', '"']
    } else if c == '\\' {
        seq!['\\', '\\']
    } else if c == '\n' {
        seq!['\\', 'n']
    } else if c == '\r' {
        seq!['\\', 'r']
    } else if c == '\t' {
        seq!['\\', 't']
    } else if (c as u32) < 0x20 {
        seq!['\\', 'u', '0', '0', hex_digit((c as u32 / 16) as nat, false), hex_digit((c as u32 % 16) as nat, false)]
    } else {
        seq![c]
    }
}

pub open spec fn json_escape(s: Seq<char>) -> Seq<char>
    decreases s.len(),
{
    if s.len() == 0 {
        seq![]
    } else {
        json_escape(s.drop_last()) + json_escape_char(s.last())
    }
}

/// `s` as a JSON string literal.
pub open spec fn json_string(s: Seq<char>) -> Seq<char> {
    seq!['"'] + json_escape(s) + seq!['"']
}

/// Value of a hexadecimal digit of either case.
pub open spec fn hex_val(c: char) -> Option<nat> {
    let v = c as u32;
    if 0x30 <= v <= 0x39 {
        Some((v - 0x30) as nat)
    } else if 0x61 <= v <= 0x66 {
        Some((v - 0x57) as nat)
    } else if 0x41 <= v <= 0x46 {
        Some((v - 0x37) as nat)
    } else {
        None
    }
}

/// The number written by the four hex digits of `b` from position `i`.
pub open spec fn hex4(b: Seq<char>, i: int) -> Option<nat> {
    if 0 <= i && i + 4 <= b.len() && hex_val(b[i]) is Some && hex_val(b[i + 1]) is Some
        && hex_val(b[i + 2]) is Some && hex_val(b[i + 3]) is Some {
        Some(
            hex_val(b[i])->0 * 4096 + hex_val(b[i + 1])->0 * 256 + hex_val(b[i + 2])->0 * 16 + hex_val(
                b[i + 3],
            )->0,
        )
    } else {
        None
    }
}

/// The character with code point `cp`, where there is one.
pub open spec fn char_of(cp: nat) -> Option<char> {
    if cp <= 0x10ffff && !(0xd800 <= cp <= 0xdfff) {
        Some(cp as char)
    } else {
        None
    }
}

/// The first character that the body `b` of a JSON string literal stands
/// for, with the number of characters of `b` that write it; `None` where `b`
/// does not start with a valid character or escape (RFC 8259, section 7).
pub open spec fn json_unescape_step(b: Seq<char>) -> Option<(char, nat)> {
    if b.len() == 0 {
        None
    } else if b[0] != '\\' {
        if b[0] == '"' || (b[0] as u32) < 0x20 {
            None
        } else {
            Some((b[0], 1))
        }
    } else if b.len() < 2 {
        None
    } else if b[1] == '"' {
        Some(('"', 2))
    } else if b[1] == '\\' {
        Some(('\\', 2))
    } else if b[1] == '/' {
        Some(('/', 2))
    } else if b[1] == 'b' {
        Some(('\x08', 2))
    } else if b[1] == 'f' {
        Some(('\x0c', 2))
    } else if b[1] == 'n' {
        Some(('\n', 2))
    } else if b[1] == 'r' {
        Some(('\r', 2))
    } else if b[1] == 't' {
        Some(('\t', 2))
    } else if b[1] != 'u' {
        None
    } else {
        match hex4(b, 2) {
            None => None,
            Some(hi) => if 0xd800 <= hi <= 0xdbff {
                // A high surrogate must be followed by an escaped low one.
                if b.len() >= 12 && b[6] == '\\' && b[7] == 'u' {
                    match hex4(b, 8) {
                        Some(lo) => if 0xdc00 <= lo <= 0xdfff {
                            match char_of((0x10000 + (hi - 0xd800) * 0x400 + (lo - 0xdc00)) as nat) {
                                Some(ch) => Some((ch, 12)),
                                None => None,
                            }
                        } else {
                            None
                        },
                        None => None,
                    }
                } else {
                    None
                }
            } else {
                match char_of(hi) {
                    Some(ch) => Some((ch, 6)),
                    None => None,
                }
            },
        }
    }
}

/// The text that the body `b` of a JSON string literal stands for; `None`
/// where `b` is not a valid body.
pub open spec fn json_unescape(b: Seq<char>) -> Option<Seq<char>>
    decreases b.len(),
{
    match json_unescape_step(b) {
        None => if b.len() == 0 {
            Some(seq![])
        } else {
            None
        },
        Some((ch, k)) => if 1 <= k <= b.len() {
            match json_unescape(b.subrange(k as int, b.len() as int)) {
                Some(t) => Some(seq![ch] + t),
                None => None,
            }
        } else {
            None
        },
    }
}

/// The text that a JSON string literal (quotes included) stands for.
pub open spec fn json_decode(lit: Seq<char>) -> Option<Seq<char>> {
    if lit.len() >= 2 && lit[0] == '"' && lit.last() == '"' {
        json_unescape(lit.subrange(1, lit.len() - 1))
    } else {
        None
    }
}

proof fn lemma_hex_digit_val(d: nat)
    requires
        d < 16,
    ensures
        hex_val(hex_digit(d, false)) == Some(d),
        (hex_digit(d, false) as u32) >= 0x30,
{
}

proof fn lemma_code_char(c: char)
    ensures
        char_of(c as u32 as nat) == Some(c),
{
}

proof fn lemma_escape_char_printable(c: char)
    ensures
        forall|i: int| 0 <= i < json_escape_char(c).len() ==> (#[trigger] json_escape_char(c)[i] as u32) >= 0x20,
{
    if (c as u32) < 0x20 && c != '\n' && c != '\r' && c != '\t' {
        lemma_hex_digit_val((c as u32 / 16) as nat);
        lemma_hex_digit_val((c as u32 % 16) as nat);
    }
}

/// Decoding reads the escape of `c` back as `c`, whatever follows it.
proof fn lemma_unescape_char(c: char, rest: Seq<char>)
    ensures
        json_unescape(json_escape_char(c) + rest) == match json_unescape(rest) {
            Some(t) => Some(seq![c] + t),
            None => None,
        },
{
    let e = json_escape_char(c);
    let b = e + rest;
    if (c as u32) < 0x20 && c != '\n' && c != '\r' && c != '\t' {
        let v = c as u32;
        lemma_hex_digit_val((v / 16) as nat);
        lemma_hex_digit_val((v % 16) as nat);
        lemma_code_char(c);
        assert(b[0] == '\\' && b[1] == 'u' && b[2] == '0' && b[3] == '0');
        assert(b[4] == hex_digit((v / 16) as nat, false) && b[5] == hex_digit((v % 16) as nat, false));
        assert(hex4(b, 2) == Some(v as nat));
        assert(json_unescape_step(b) == Some((c, 6nat)));
    } else {
        assert(json_unescape_step(b) == Some((c, e.len())));
    }
    assert(b.subrange(e.len() as int, b.len() as int) =~= rest);
}

proof fn lemma_escape_concat(a: Seq<char>, b: Seq<char>)
    ensures
        json_escape(a + b) == json_escape(a) + json_escape(b),
    decreases b.len(),
{
    if b.len() == 0 {
        assert(a + b =~= a);
        assert(json_escape(a) + json_escape(b) =~= json_escape(a));
    } else {
        lemma_escape_concat(a, b.drop_last());
        assert((a + b).drop_last() =~= a + b.drop_last());
        assert((a + b).last() == b.last());
    }
}

proof fn lemma_unescape_escape(s: Seq<char>)
    ensures
        json_unescape(json_escape(s)) == Some(s),
    decreases s.len(),
{
    if s.len() == 0 {
        assert(json_escape(s) =~= Seq::<char>::empty());
        assert(json_unescape_step(Seq::<char>::empty()) is None);
    } else {
        let first = seq![s[0]];
        let rest = s.drop_first();
        assert(first + rest =~= s);
        lemma_escape_concat(first, rest);
        assert(first.drop_last() =~= Seq::<char>::empty());
        assert(json_escape(Seq::<char>::empty()) =~= Seq::<char>::empty());
        assert(json_escape(first) =~= json_escape_char(s[0]));
        lemma_unescape_escape(rest);
        lemma_unescape_char(s[0], json_escape(rest));
        assert(seq![s[0]] + rest =~= s);
    }
}

/// Law: the literal that `serde_json_title` writes is a JSON string that
/// decodes back to exactly the title and holds no raw control character.
pub proof fn lemma_json_string_decodes(s: Seq<char>)
    ensures
        json_decode(json_string(s)) == Some(s),
        forall|i: int| 0 <= i < json_string(s).len() ==> (#[trigger] json_string(s)[i] as u32) >= 0x20,
{
    let lit = json_string(s);
    assert(lit.subrange(1, lit.len() - 1) =~= json_escape(s));
    lemma_unescape_escape(s);
    lemma_escape_printable(s);
    assert forall|i: int| 0 <= i < lit.len() implies (#[trigger] lit[i] as u32) >= 0x20 by {
        if 1 <= i < lit.len() - 1 {
            assert(lit[i] == json_escape(s)[i - 1]);
        }
    }
}

proof fn lemma_escape_printable(s: Seq<char>)
    ensures
        forall|i: int| 0 <= i < json_escape(s).len() ==> (#[trigger] json_escape(s)[i] as u32) >= 0x20,
    decreases s.len(),
{
    if s.len() > 0 {
        lemma_escape_printable(s.drop_last());
        lemma_escape_char_printable(s.last());
        let a = json_escape(s.drop_last());
        let e = json_escape_char(s.last());
        assert forall|i: int| 0 <= i < json_escape(s).len() implies (#[trigger] json_escape(s)[i] as u32) >= 0x20 by {
            if i < a.len() {
                assert(json_escape(s)[i] == a[i]);
            } else {
                assert(json_escape(s)[i] == e[i - a.len()]);
            }
        }
    }
}

/// A window title as a JSON string literal, quotes included (see
/// `json_escape_char`).
pub fn serde_json_title(s: &str) -> (r: String)
    ensures
        r@ == json_string(s@),
        json_decode(r@) == Some(s@),
        forall|i: int| 0 <= i < r@.len() ==> (#[trigger] r@[i] as u32) >= 0x20,
{
    proof {
        lemma_json_string_decodes(s@);
    }
    let mut out = String::new();
    push_char(&mut out, '"');
    let ghost start = out@;
    for c in it: s.chars()
        invariant
            it.seq() == s@,
            out@ == start + json_escape(s@.take(it.index() as int)),
    {
        let ghost before = out@;
        if c == '"' {
            push_str(&mut out, "\\\"");
            proof { reveal_strlit("\\\""); }
        } else if c == '\\' {
            push_str(&mut out, "\\\\");
            proof { reveal_strlit("\\\\"); }
        } else if c == '\n' {
            push_str(&mut out, "\\n");
            proof { reveal_strlit("\\n"); }
        } else if c == '\r' {
            push_str(&mut out, "\\r");
            proof { reveal_strlit("\\r"); }
        } else if c == '\t' {
            push_str(&mut out, "\\t");
            proof { reveal_strlit("\\t"); }
        } else if (c as u32) < 0x20 {
            let v = c as u32;
            push_str(&mut out, "\\u00");
            proof { reveal_strlit("\\u00"); }
            push_char(&mut out, hex_char((v / 16) as u64, false));
            push_char(&mut out, hex_char((v % 16) as u64, false));
        } else {
            push_char(&mut out, c);
        }
        proof {
            let t = s@.take(it.index() + 1);
            assert(t.drop_last() =~= s@.take(it.index() as int));
            assert(t.last() == c);
            assert(out@ =~= before + json_escape_char(c));
            assert(out@ =~= start + json_escape(t));
        }
    }
    proof {
        assert(s@.take(s@.len() as int) =~= s@);
    }
    push_char(&mut out, '"');
    out
}

/// One window of the `list` output.
pub open spec fn window_json_spec(w: WinInfo) -> Seq<char> {
    "{\"hwnd\":\""@ + handle_hex(w.hwnd) + "\",\"pid\":"@ + dec_str(w.pid as nat) + ",\"title\":"@
        + json_string(w.title@) + ",\"x\":"@ + int_str(w.x as int) + ",\"y\":"@ + int_str(w.y as int)
        + ",\"w\":"@ + int_str(w.w as int) + ",\"h\":"@ + int_str(w.h as int) + "}"@
}

/// One window of the `list` output: handle (hex), process id, title and
/// frame position and size.
pub fn window_json(w: &WinInfo) -> (r: String)
    ensures
        r@ == window_json_spec(*w),
{
    let mut out = String::new();
    push_str(&mut out, "{\"hwnd\":\"");
    push_handle(&mut out, w.hwnd);
    push_str(&mut out, "\",\"pid\":");
    push_dec(&mut out, w.pid as u64);
    push_str(&mut out, ",\"title\":");
    let t = serde_json_title(w.title.as_str());
    push_str(&mut out, t.as_str());
    push_str(&mut out, ",\"x\":");
    push_int(&mut out, w.x as i64);
    push_str(&mut out, ",\"y\":");
    push_int(&mut out, w.y as i64);
    push_str(&mut out, ",\"w\":");
    push_int(&mut out, w.w as i64);
    push_str(&mut out, ",\"h\":");
    push_int(&mut out, w.h as i64);
    push_str(&mut out, "}");
    proof {
        assert(out@ =~= window_json_spec(*w));
    }
    out
}

/// A window is listed when it belongs to process `pid` (if given), its
/// lowercased title `lowered` contains the lowercased query (if given), and
/// it is larger than 50 x 50.
pub open spec fn listed(w: WinInfo, lowered: Seq<char>, pid: Option<u32>, query: Option<Seq<char>>) -> bool {
    &&& pid matches Some(p) ==> w.pid == p
    &&& query matches Some(q) ==> contains_spec(lowered, q)
    &&& w.w > 50 && w.h > 50
}

/// The listed windows, in order.
pub open spec fn listed_windows(ws: Seq<WinInfo>, lowered: Seq<Seq<char>>, pid: Option<u32>, query: Option<Seq<char>>) -> Seq<WinInfo>
    decreases ws.len(),
{
    if ws.len() == 0 {
        seq![]
    } else {
        let rest = listed_windows(ws.drop_last(), lowered.drop_last(), pid, query);
        if listed(ws.last(), lowered.last(), pid, query) {
            rest.push(ws.last())
        } else {
            rest
        }
    }
}

/// The JSON entries of `ws`, separated by commas.
pub open spec fn entries_json(ws: Seq<WinInfo>) -> Seq<char>
    decreases ws.len(),
{
    if ws.len() == 0 {
        seq![]
    } else if ws.len() == 1 {
        window_json_spec(ws[0])
    } else {
        entries_json(ws.drop_last()) + seq![','] + window_json_spec(ws.last())
    }
}

/// The `list` output: how many windows are listed, and the first `top` of them.
pub open spec fn list_json_spec(sel: Seq<WinInfo>, top: nat) -> Seq<char> {
    "{\"count\":"@ + dec_str(sel.len()) + ",\"windows\":["@
        + entries_json(sel.take(if top < sel.len() { top as int } else { sel.len() as int })) + "]}"@
}

pub open spec fn opt_view(q: Option<&str>) -> Option<Seq<char>> {
    match q {
        Some(t) => Some(t@),
        None => None,
    }
}

/// The `list` output for the windows `wins`, whose lowercased titles are
/// `lowered_titles`, filtered by process `pid` and by the lowercased title
/// query `query` when given (see `listed`), showing at most `top`.
pub fn list_json(wins: &[WinInfo], lowered_titles: &[String], pid: Option<u32>, query: Option<&str>, top: usize) -> (r: String)
    requires
        lowered_titles.len() == wins.len(),
    ensures
        r@ == list_json_spec(listed_windows(wins@, views(lowered_titles@), pid, opt_view(query)), top as nat),
{
    let ghost lw = views(lowered_titles@);
    let ghost q = opt_view(query);
    let mut sel: Vec<usize> = Vec::new();
    let ghost mut chosen: Seq<WinInfo> = seq![];
    let mut i: usize = 0;
    while i < wins.len()
        invariant
            lowered_titles.len() == wins.len(),
            lw == views(lowered_titles@),
            q == opt_view(query),
            i <= wins.len(),
            sel.len() <= i,
            chosen == listed_windows(wins@.take(i as int), lw.take(i as int), pid, q),
            chosen.len() == sel.len(),
            forall|k: int| 0 <= k < sel.len() ==> (#[trigger] sel@[k]) < wins.len() && chosen[k] == wins@[sel@[k] as int],
        decreases wins.len() - i,
    {
        proof {
            assert(wins@.take(i + 1).drop_last() =~= wins@.take(i as int));
            assert(lw.take(i + 1).drop_last() =~= lw.take(i as int));
            assert(wins@.take(i + 1).last() == wins@[i as int]);
            assert(lw.take(i + 1).last() == lowered_titles@[i as int]@);
        }
        let w = &wins[i];
        let by_pid = match pid {
            Some(p) => w.pid == p,
            None => true,
        };
        let by_title = match query {
            Some(t) => contains(lowered_titles[i].as_str(), t),
            None => true,
        };
        if by_pid && by_title && w.w > 50 && w.h > 50 {
            sel.push(i);
            proof {
                chosen = chosen.push(wins@[i as int]);
            }
        }
        i = i + 1;
    }
    proof {
        assert(wins@.take(wins.len() as int) =~= wins@);
        assert(lw.take(wins.len() as int) =~= lw);
    }
    let mut out = String::new();
    push_str(&mut out, "{\"count\":");
    push_dec(&mut out, sel.len() as u64);
    push_str(&mut out, ",\"windows\":[");
    let n = if top < sel.len() { top } else { sel.len() };
    let ghost head = out@;
    let mut j: usize = 0;
    while j < n
        invariant
            n <= sel.len(),
            j <= n,
            chosen.len() == sel.len(),
            forall|k: int| 0 <= k < sel.len() ==> (#[trigger] sel@[k]) < wins.len() && chosen[k] == wins@[sel@[k] as int],
            out@ == head + entries_json(chosen.take(j as int)),
        decreases n - j,
    {
        let ghost before = out@;
        if j > 0 {
            push_char(&mut out, ',');
        }
        let e = window_json(&wins[sel[j]]);
        push_str(&mut out, e.as_str());
        proof {
            let t = chosen.take(j + 1);
            assert(t.drop_last() =~= chosen.take(j as int));
            assert(t.last() == chosen[j as int]);
            if j == 0 {
                assert(t.len() == 1);
                assert(t[0] == chosen[0]);
                assert(entries_json(chosen.take(0)) =~= Seq::<char>::empty());
                assert(out@ =~= head + entries_json(t));
            } else {
                assert(out@ =~= head + entries_json(t));
            }
        }
        j = j + 1;
    }
    push_str(&mut out, "]}");
    proof {
        assert(out@ =~= list_json_spec(chosen, top as nat));
    }
    out
}

/// Lowercased query, when there is one.
fn lower_query(q: Option<&str>) -> (r: Option<String>)
    ensures
        match q {
            Some(t) => r matches Some(l) && l@ == lowercase(t@),
            None => r is None,
        },
{
    match q {
        Some(t) => Some(to_lowercase(t)),
        None => None,
    }
}

pub open spec fn lowered_query(q: Option<&str>) -> Option<Seq<char>> {
    match q {
        Some(t) => Some(lowercase(t@)),
        None => None,
    }
}

/// The `list` output for the windows `wins`: those of process `pid` (when
/// given) whose title contains `title` ignoring case (when given) and that
/// are larger than 50 x 50; all are counted, at most `top` are shown.
pub fn list_windows_json(wins: &[WinInfo], pid: Option<u32>, title: Option<&str>, top: usize) -> (r: String)
    ensures
        r@ == list_json_spec(listed_windows(wins@, lowered_titles_of(wins@), pid, lowered_query(title)), top as nat),
{
    let lowered = lower_titles(wins);
    let q = lower_query(title);
    match q {
        Some(l) => list_json(wins, lowered.as_slice(), pid, Some(l.as_str()), top),
        None => list_json(wins, lowered.as_slice(), pid, None, top),
    }
}

/// The `screen` output: virtual screen size and the work area's four
/// numbers, printed under the keys x, y, w and h.
pub open spec fn screen_json_spec(sw: i32, sh: i32, wa: Rect) -> Seq<char> {
    "{\"screen\":{\"w\":"@ + int_str(sw as int) + ",\"h\":"@ + int_str(sh as int) + "},\"workArea\":{\"x\":"@
        + int_str(wa.0 as int) + ",\"y\":"@ + int_str(wa.1 as int) + ",\"w\":"@ + int_str(wa.2 as int)
        + ",\"h\":"@ + int_str(wa.3 as int) + "}}"@
}

/// The `screen` output for a virtual screen of `sw x sh` and the work area
/// `wa` as `(left, top, right, bottom)`.
pub fn screen_json(sw: i32, sh: i32, wa: Rect) -> (r: String)
    ensures
        r@ == screen_json_spec(sw, sh, wa),
{
    let mut out = String::new();
    push_str(&mut out, "{\"screen\":{\"w\":");
    push_int(&mut out, sw as i64);
    push_str(&mut out, ",\"h\":");
    push_int(&mut out, sh as i64);
    push_str(&mut out, "},\"workArea\":{\"x\":");
    push_int(&mut out, wa.0 as i64);
    push_str(&mut out, ",\"y\":");
    push_int(&mut out, wa.1 as i64);
    push_str(&mut out, ",\"w\":");
    push_int(&mut out, wa.2 as i64);
    push_str(&mut out, ",\"h\":");
    push_int(&mut out, wa.3 as i64);
    push_str(&mut out, "}}");
    proof {
        assert(out@ =~= screen_json_spec(sw, sh, wa));
    }
    out
}

pub open spec fn bool_str(b: bool) -> Seq<char> {
    if b {
        "true"@
    } else {
        "false"@
    }
}

/// The `snap` output.
pub open spec fn snap_json_spec(w: WinInfo, align: Seq<char>, rect: Rect, ok: bool) -> Seq<char> {
    "{\"hwnd\":\""@ + handle_hex(w.hwnd) + "\",\"pid\":"@ + dec_str(w.pid as nat) + ",\"title\":"@
        + json_string(w.title@) + ",\"align\":\""@ + align + "\",\"rect\":{\"x\":"@ + int_str(rect.0 as int)
        + ",\"y\":"@ + int_str(rect.1 as int) + ",\"w\":"@ + int_str(rect.2 as int) + ",\"h\":"@
        + int_str(rect.3 as int) + "},\"ok\":"@ + bool_str(ok) + "}"@
}

/// The `snap` output: the window, the layout asked for, the rectangle
/// `(x, y, w, h)` it was given and whether moving it succeeded.
pub fn snap_json(w: &WinInfo, align: &str, rect: Rect, ok: bool) -> (r: String)
    ensures
        r@ == snap_json_spec(*w, align@, rect, ok),
{
    let mut out = String::new();
    push_str(&mut out, "{\"hwnd\":\"");
    push_handle(&mut out, w.hwnd);
    push_str(&mut out, "\",\"pid\":");
    push_dec(&mut out, w.pid as u64);
    push_str(&mut out, ",\"title\":");
    let t = serde_json_title(w.title.as_str());
    push_str(&mut out, t.as_str());
    push_str(&mut out, ",\"align\":\"");
    push_str(&mut out, align);
    push_str(&mut out, "\",\"rect\":{\"x\":");
    push_int(&mut out, rect.0 as i64);
    push_str(&mut out, ",\"y\":");
    push_int(&mut out, rect.1 as i64);
    push_str(&mut out, ",\"w\":");
    push_int(&mut out, rect.2 as i64);
    push_str(&mut out, ",\"h\":");
    push_int(&mut out, rect.3 as i64);
    push_str(&mut out, "},\"ok\":");
    if ok {
        push_str(&mut out, "true");
    } else {
        push_str(&mut out, "false");
    }
    push_str(&mut out, "}");
    proof {
        assert(out@ =~= snap_json_spec(*w, align@, rect, ok));
    }
    out
}

/// The `restore` output.
pub open spec fn restore_json_spec(w: WinInfo) -> Seq<char> {
    "{\"hwnd\":\""@ + handle_hex(w.hwnd) + "\",\"pid\":"@ + dec_str(w.pid as nat) + ",\"restored\":true}"@
}

/// The `restore` output for the restored window.
pub fn restore_json(w: &WinInfo) -> (r: String)
    ensures
        r@ == restore_json_spec(*w),
{
    let mut out = String::new();
    push_str(&mut out, "{\"hwnd\":\"");
    push_handle(&mut out, w.hwnd);
    push_str(&mut out, "\",\"pid\":");
    push_dec(&mut out, w.pid as u64);
    push_str(&mut out, ",\"restored\":true}");
    proof {
        assert(out@ =~= restore_json_spec(*w));
    }
    out
}

// ── Command line arguments ──

/// Index of the first of `args` from `i` on that equals `flag`.
pub open spec fn first_index_from(args: Seq<Seq<char>>, flag: Seq<char>, i: int) -> Option<int>
    decreases args.len() - i,
{
    if i < 0 || i >= args.len() {
        None
    } else if args[i] == flag {
        Some(i)
    } else {
        first_index_from(args, flag, i + 1)
    }
}

/// The argument right after the first occurrence of `flag`, if both exist.
pub open spec fn arg_after(args: Seq<Seq<char>>, flag: Seq<char>) -> Option<Seq<char>> {
    match first_index_from(args, flag, 0) {
        Some(i) => if i + 1 < args.len() { Some(args[i + 1]) } else { None },
        None => None,
    }
}

/// Index of the argument right after the first occurrence of `flag`.
pub fn arg_value(args: &[String], flag: &str) -> (r: Option<usize>)
    ensures
        match arg_after(views(args@), flag@) {
            Some(v) => r matches Some(k) && k < args.len() && args@[k as int]@ == v,
            None => r is None,
        },
{
    let ghost a = views(args@);
    let mut i: usize = 0;
    while i < args.len()
        invariant
            a == views(args@),
            i <= args.len(),
            first_index_from(a, flag@, 0) == first_index_from(a, flag@, i as int),
        decreases args.len() - i,
    {
        if str_eq(args[i].as_str(), flag) {
            assert(a[i as int] == flag@);
            if i + 1 < args.len() {
                return Some(i + 1);
            } else {
                return None;
            }
        }
        i = i + 1;
    }
    None
}

pub open spec fn is_digit(c: char) -> bool {
    48 <= (c as u32) <= 57
}

pub open spec fn all_digits(s: Seq<char>) -> bool {
    forall|i: int| 0 <= i < s.len() ==> #[trigger] is_digit(s[i])
}

/// Value of a run of decimal digits.
pub open spec fn digits_value(s: Seq<char>) -> int
    decreases s.len(),
{
    if s.len() == 0 {
        0
    } else {
        digits_value(s.drop_last()) * 10 + ((s.last() as u32) - 48)
    }
}

/// What the standard library's integer parsing gives for `s`: an optional
/// `+` (or `-` when `signed`), then at least one ASCII digit and nothing
/// else, with a value between `lo` and `hi`.
pub open spec fn parse_int_spec(s: Seq<char>, signed: bool, lo: int, hi: int) -> Option<int> {
    if s.len() == 0 {
        None
    } else {
        let neg = s[0] == '-' && signed;
        let digits = if s[0] == '+' || neg { s.drop_first() } else { s };
        if digits.len() == 0 || !all_digits(digits) {
            None
        } else {
            let v = if neg { -digits_value(digits) } else { digits_value(digits) };
            if lo <= v <= hi {
                Some(v)
            } else {
                None
            }
        }
    }
}

/// Values above this are all too large for the numbers parsed here.
pub const PARSE_CAP: u128 = 0x4_0000_0000_0000_0000;

proof fn lemma_digits_value_nonneg(s: Seq<char>)
    requires
        forall|i: int| 0 <= i < s.len() ==> #[trigger] is_digit(s[i]),
    ensures
        digits_value(s) >= 0,
    decreases s.len(),
{
    if s.len() > 0 {
        assert(is_digit(s[s.len() - 1]));
        let p = s.drop_last();
        assert forall|i: int| 0 <= i < p.len() implies #[trigger] is_digit(p[i]) by {
            assert(p[i] == s[i]);
        }
        lemma_digits_value_nonneg(p);
    }
}

proof fn lemma_digits_value_dec_str(n: nat)
    ensures
        digits_value(dec_str(n)) == n,
        all_digits(dec_str(n)),
    decreases n,
{
    crate::text::lemma_dec_str_digits(n);
    assert((digit_char(n % 10) as u32) == 48 + n % 10);
    if n >= 10 {
        lemma_digits_value_dec_str(n / 10);
        let d = dec_str(n);
        assert(d.drop_last() =~= dec_str(n / 10));
        assert(d.last() == digit_char(n % 10));
        assert(digits_value(d) == digits_value(d.drop_last()) * 10 + ((d.last() as u32) - 48));
    } else {
        let d = dec_str(n);
        assert(d.drop_last() =~= Seq::<char>::empty());
        assert(digits_value(d.drop_last()) == 0);
        assert(d.last() == digit_char(n));
        assert(digits_value(d) == digits_value(d.drop_last()) * 10 + ((d.last() as u32) - 48));
    }
    let d = dec_str(n);
    assert forall|i: int| 0 <= i < d.len() implies #[trigger] is_digit(d[i]) by {
        assert(48 <= (d[i]) as u32 <= 57);
    }
}

/// Law: a number written in decimal reads back as the same number, so a
/// process id recorded as text is found again by parsing it.
pub proof fn lemma_parse_dec_roundtrip(n: nat, signed: bool, hi: int)
    requires
        n <= hi,
    ensures
        parse_int_spec(dec_str(n), signed, 0, hi) == Some(n as int),
{
    lemma_digits_value_dec_str(n);
    crate::text::lemma_dec_str_len_pos(n);
    let d = dec_str(n);
    assert(is_digit(d[0]));
}

/// Parses `s` as the standard library parses integers (see
/// `parse_int_spec`), for bounds `lo..=hi` within `i128`.
fn parse_int(s: &str, signed: bool, lo: i128, hi: i128) -> (r: Option<i128>)
    requires
        -(PARSE_CAP as int) < lo,
        hi < PARSE_CAP,
    ensures
        match parse_int_spec(s@, signed, lo as int, hi as int) {
            Some(v) => r == Some(v as i128),
            None => r is None,
        },
{
    let cs = chars_vec(s);
    if cs.len() == 0 {
        return None;
    }
    let neg = cs[0] == '-' && signed;
    let start: usize = if cs[0] == '+' || neg { 1 } else { 0 };
    let ghost digits = if cs@[0] == '+' || neg { s@.drop_first() } else { s@ };
    proof {
        assert(digits =~= s@.skip(start as int));
    }
    if start >= cs.len() {
        return None;
    }
    let mut acc: u128 = 0;
    let mut i: usize = start;
    while i < cs.len()
        invariant
            cs@ == s@,
            s@.len() > 0,
            neg == (s@[0] == '-' && signed),
            start == (if s@[0] == '+' || neg { 1int } else { 0int }),
            digits == (if s@[0] == '+' || neg { s@.drop_first() } else { s@ }),
            start <= i <= cs.len(),
            digits =~= s@.skip(start as int),
            forall|k: int| 0 <= k < i - start ==> #[trigger] is_digit(digits[k]),
            acc <= PARSE_CAP,
            acc < PARSE_CAP ==> acc == digits_value(digits.take(i - start)),
            acc == PARSE_CAP ==> digits_value(digits.take(i - start)) >= PARSE_CAP,
        decreases cs.len() - i,
    {
        let c = cs[i];
        let ghost pre = digits.take(i - start);
        let ghost nxt = digits.take(i - start + 1);
        proof {
            assert(nxt.drop_last() =~= pre);
            assert(nxt.last() == c);
            assert(digits[i - start] == c);
        }
        if !((c as u32) >= 48 && (c as u32) <= 57) {
            proof {
                assert(!is_digit(digits[i - start]));
                assert(0 <= i - start < digits.len());
                assert(!all_digits(digits));
            }
            return None;
        }
        let d = ((c as u32) - 48) as u128;
        proof {
            assert forall|k: int| 0 <= k < pre.len() implies #[trigger] is_digit(pre[k]) by {
                assert(pre[k] == digits[k]);
            }
            lemma_digits_value_nonneg(pre);
            assert(digits_value(nxt) == digits_value(pre) * 10 + d);
        }
        if acc < PARSE_CAP {
            let next = acc * 10 + d;
            acc = if next >= PARSE_CAP { PARSE_CAP } else { next };
        }
        i = i + 1;
    }
    proof {
        assert(digits.take(i - start) =~= digits);
    }
    if acc >= PARSE_CAP {
        return None;
    }
    let v: i128 = if neg { 0i128 - (acc as i128) } else { acc as i128 };
    if lo <= v && v <= hi {
        Some(v)
    } else {
        None
    }
}

/// `s` parsed as a `u32` (`str::parse::<u32>`, errors as `None`).
pub fn parse_u32(s: &str) -> (r: Option<u32>)
    ensures
        match parse_int_spec(s@, false, 0, u32::MAX as int) {
            Some(v) => r == Some(v as u32),
            None => r is None,
        },
{
    match parse_int(s, false, 0, u32::MAX as i128) {
        Some(v) => Some(v as u32),
        None => None,
    }
}

/// `s` parsed as an `i32` (`str::parse::<i32>`, errors as `None`).
pub fn parse_i32(s: &str) -> (r: Option<i32>)
    ensures
        match parse_int_spec(s@, true, i32::MIN as int, i32::MAX as int) {
            Some(v) => r == Some(v as i32),
            None => r is None,
        },
{
    match parse_int(s, true, i32::MIN as i128, i32::MAX as i128) {
        Some(v) => Some(v as i32),
        None => None,
    }
}

/// `s` parsed as a `usize` (`str::parse::<usize>`, errors as `None`).
pub fn parse_usize(s: &str) -> (r: Option<usize>)
    ensures
        match parse_int_spec(s@, false, 0, usize::MAX as int) {
            Some(v) => r == Some(v as usize),
            None => r is None,
        },
{
    match parse_int(s, false, 0, usize::MAX as i128) {
        Some(v) => Some(v as usize),
        None => None,
    }
}

/// The options of the command line mode.
pub struct CmdArgs {
    /// The sub-command after `--cmd` (empty when missing).
    pub sub: String,
    /// `--pid`, when given and a valid `u32`.
    pub pid: Option<u32>,
    /// `--title`, when given.
    pub title: Option<String>,
    /// `--align` (default `proportional`).
    pub align: String,
    /// The text after `--scale`, when given (parsed as a float by the caller).
    pub scale: Option<String>,
    /// `--gap` (default 8; also when not a valid `i32`).
    pub gap: i32,
    /// `--top` (default 100; also when not a valid `usize`).
    pub top: usize,
}

pub open spec fn text_or(v: Option<Seq<char>>, d: Seq<char>) -> Seq<char> {
    match v {
        Some(t) => t,
        None => d,
    }
}

pub open spec fn parsed_or(v: Option<Seq<char>>, signed: bool, lo: int, hi: int, d: int) -> int {
    match v {
        Some(t) => match parse_int_spec(t, signed, lo, hi) {
            Some(n) => n,
            None => d,
        },
        None => d,
    }
}

/// Reads the options: each is the argument after the first occurrence of
/// its flag (see the fields of `CmdArgs` for defaults).
pub fn parse_cmd_args(args: &[String]) -> (r: CmdArgs)
    ensures
        ({
            let a = views(args@);
            &&& r.sub@ == text_or(arg_after(a, "--cmd"@), ""@)
            &&& (match arg_after(a, "--pid"@) {
                Some(t) => match parse_int_spec(t, false, 0, u32::MAX as int) {
                    Some(n) => r.pid == Some(n as u32),
                    None => r.pid is None,
                },
                None => r.pid is None,
            })
            &&& (match arg_after(a, "--title"@) {
                Some(t) => r.title matches Some(x) && x@ == t,
                None => r.title is None,
            })
            &&& r.align@ == text_or(arg_after(a, "--align"@), "proportional"@)
            &&& (match arg_after(a, "--scale"@) {
                Some(t) => r.scale matches Some(x) && x@ == t,
                None => r.scale is None,
            })
            &&& r.gap as int == parsed_or(arg_after(a, "--gap"@), true, i32::MIN as int, i32::MAX as int, 8)
            &&& r.top as int == parsed_or(arg_after(a, "--top"@), false, 0, usize::MAX as int, 100)
        }),
{
    let sub = match arg_value(args, "--cmd") {
        Some(k) => args[k].clone(),
        None => {
            proof {
                reveal_strlit("");
            }
            String::new()
        },
    };
    let pid = match arg_value(args, "--pid") {
        Some(k) => parse_u32(args[k].as_str()),
        None => None,
    };
    let title = match arg_value(args, "--title") {
        Some(k) => Some(args[k].clone()),
        None => None,
    };
    let align = match arg_value(args, "--align") {
        Some(k) => args[k].clone(),
        None => "proportional".to_owned(),
    };
    let scale = match arg_value(args, "--scale") {
        Some(k) => Some(args[k].clone()),
        None => None,
    };
    let gap = match arg_value(args, "--gap") {
        Some(k) => match parse_i32(args[k].as_str()) {
            Some(g) => g,
            None => 8,
        },
        None => 8,
    };
    let top = match arg_value(args, "--top") {
        Some(k) => match parse_usize(args[k].as_str()) {
            Some(t) => t,
            None => 100,
        },
        None => 100,
    };
    CmdArgs { sub, pid, title, align, scale, gap, top }
}

/// The sub-commands.
#[derive(Clone, Copy, Debug, PartialEq, Eq, Structural)]
pub enum Command {
    Screen,
    List,
    Snap,
    Restore,
    /// Anything else: print the usage and exit with 1.
    Usage,
}

pub open spec fn command_spec(sub: Seq<char>) -> Command {
    if sub == "screen"@ {
        Command::Screen
    } else if sub == "list"@ {
        Command::List
    } else if sub == "snap"@ {
        Command::Snap
    } else if sub == "restore"@ {
        Command::Restore
    } else {
        Command::Usage
    }
}

/// The sub-command named by `sub`.
pub fn command_of(sub: &str) -> (r: Command)
    ensures
        r == command_spec(sub@),
{
    if str_eq(sub, "screen") {
        Command::Screen
    } else if str_eq(sub, "list") {
        Command::List
    } else if str_eq(sub, "snap") {
        Command::Snap
    } else if str_eq(sub, "restore") {
        Command::Restore
    } else {
        Command::Usage
    }
}

// ── Layout of the `snap` command ──

/// Layouts of `--align`.
#[derive(Clone, Copy, Debug, PartialEq, Eq, Structural)]
pub enum Align {
    Left,
    Right,
    LeftEdge,
    RightEdge,
    Center,
    Proportional,
    /// `full`, and any name not listed: the whole area inside the gap.
    Full,
}

pub open spec fn align_spec(s: Seq<char>) -> Align {
    if s == "left"@ {
        Align::Left
    } else if s == "right"@ {
        Align::Right
    } else if s == "left-edge"@ {
        Align::LeftEdge
    } else if s == "right-edge"@ {
        Align::RightEdge
    } else if s == "center"@ {
        Align::Center
    } else if s == "proportional"@ {
        Align::Proportional
    } else {
        Align::Full
    }
}

/// The layout named by `--align`.
pub fn parse_align(s: &str) -> (r: Align)
    ensures
        r == align_spec(s@),
{
    if str_eq(s, "left") {
        Align::Left
    } else if str_eq(s, "right") {
        Align::Right
    } else if str_eq(s, "left-edge") {
        Align::LeftEdge
    } else if str_eq(s, "right-edge") {
        Align::RightEdge
    } else if str_eq(s, "center") {
        Align::Center
    } else if str_eq(s, "proportional") {
        Align::Proportional
    } else {
        Align::Full
    }
}

/// The size that a scale factor multiplies for `center` (the area inside
/// the gap) and `proportional` (the whole area); other layouts use no
/// factor. `wa` is read as `(x, y, w, h)`.
pub open spec fn scale_basis_spec(align: Align, wa: Rect, gap: int) -> Option<(int, int)> {
    match align {
        Align::Center => Some((wa.2 - gap * 2, wa.3 - gap * 2)),
        Align::Proportional => Some((wa.2 as int, wa.3 as int)),
        _ => None,
    }
}

/// The size that the `--scale` factor multiplies for `align` (see
/// `scale_basis_spec`).
pub fn scale_basis(align: Align, wa: Rect, gap: i32) -> (r: Option<(i32, i32)>)
    requires
        align == Align::Center ==> fits_i32(gap * 2) && fits_i32(wa.2 - gap * 2) && fits_i32(wa.3 - gap * 2),
    ensures
        match scale_basis_spec(align, wa, gap as int) {
            Some(p) => r == Some((p.0 as i32, p.1 as i32)),
            None => r is None,
        },
{
    match align {
        Align::Center => Some((wa.2 - gap * 2, wa.3 - gap * 2)),
        Align::Proportional => Some((wa.2, wa.3)),
        _ => None,
    }
}

/// The visible rectangle `(x, y, w, h)` of the layout `align` in the area
/// `wa = (x, y, w, h)` with margin `gap`; `scaled` is the scaled size used
/// by `center` and `proportional`. Half and quarter widths round towards
/// zero, which is exactly what multiplying by 0.5 or 0.25 in double
/// precision and truncating gives for every `i32` width.
pub open spec fn layout_visible(align: Align, wa: Rect, gap: int, scaled: (i32, i32)) -> (int, int, int, int) {
    let (wx, wy, ww, wh) = (wa.0 as int, wa.1 as int, wa.2 as int, wa.3 as int);
    let inner_w = ww - gap * 2;
    let inner_h = wh - gap * 2;
    match align {
        Align::Left => (wx + gap, wy + gap, tdiv(inner_w, 2), inner_h),
        Align::Right => (wx + gap + (inner_w - tdiv(inner_w, 2)), wy + gap, tdiv(inner_w, 2), inner_h),
        Align::LeftEdge => (wx + gap, wy + gap, tdiv(inner_w, 4), inner_h),
        Align::RightEdge => (wx + gap + (inner_w - tdiv(inner_w, 4)), wy + gap, tdiv(inner_w, 4), inner_h),
        Align::Center => (
            wx + gap + tdiv(inner_w - scaled.0, 2),
            wy + gap + tdiv(inner_h - scaled.1, 2),
            scaled.0 as int,
            scaled.1 as int,
        ),
        Align::Proportional => (wx + tdiv(ww - scaled.0, 2), wy + tdiv(wh - scaled.1, 2), scaled.0 as int, scaled.1 as int),
        Align::Full => (wx + gap, wy + gap, inner_w, inner_h),
    }
}

/// The frame `(x, y, w, h)` for the layout: the visible rectangle grown by
/// the insets `off`.
pub open spec fn layout_spec(align: Align, wa: Rect, gap: int, off: Rect, scaled: (i32, i32)) -> (int, int, int, int) {
    let v = layout_visible(align, wa, gap, scaled);
    (v.0 - off.0, v.1 - off.1, v.2 + off.0 + off.2, v.3 + off.1 + off.3)
}

pub open spec fn layout_fits(align: Align, wa: Rect, gap: int, off: Rect, scaled: (i32, i32)) -> bool {
    let (wx, wy, ww, wh) = (wa.0 as int, wa.1 as int, wa.2 as int, wa.3 as int);
    let v = layout_visible(align, wa, gap, scaled);
    &&& fits_i32(gap * 2) && fits_i32(wx + gap) && fits_i32(wy + gap)
    &&& fits_i32(ww - gap * 2) && fits_i32(wh - gap * 2)
    &&& (align == Align::Right || align == Align::RightEdge || align == Align::Center) ==> fits_i32((ww - gap * 2) - v.2)
    &&& align == Align::Center ==> fits_i32((wh - gap * 2) - v.3)
    &&& align == Align::Proportional ==> fits_i32(ww - v.2) && fits_i32(wh - v.3)
    &&& fits_i32(v.0) && fits_i32(v.1)
    &&& fits_i32(v.0 - off.0) && fits_i32(v.1 - off.1)
    &&& fits_i32(v.2 + off.0) && fits_i32(v.2 + off.0 + off.2)
    &&& fits_i32(v.3 + off.1) && fits_i32(v.3 + off.1 + off.3)
}

/// Law: every layout places the window's visible part (the frame less the
/// insets `off`) where its name says, inside the work area `wa = (x, y, w,
/// h)` with margin `gap`. Left halves and quarters start at the left margin,
/// right ones end at the right margin, `full` fills the area inside the
/// margin, and all of these span the height inside the margin; `center`
/// centres the scaled size inside the margin and `proportional` centres it
/// in the whole area (both rounding the offset towards zero). Whenever the
/// margin and the sizes fit, the visible part lies inside the work area.
pub proof fn lemma_layout_placement(align: Align, wa: Rect, gap: int, off: Rect, scaled: (i32, i32))
    ensures
        ({
            let (wx, wy, ww, wh) = (wa.0 as int, wa.1 as int, wa.2 as int, wa.3 as int);
            let iw = ww - 2 * gap;
            let ih = wh - 2 * gap;
            let f = layout_spec(align, wa, gap, off, scaled);
            let vx = f.0 + off.0;
            let vy = f.1 + off.1;
            let vw = f.2 - off.0 - off.2;
            let vh = f.3 - off.1 - off.3;
            &&& align == Align::Left ==> vx == wx + gap && vw == tdiv(iw, 2)
            &&& align == Align::Right ==> vx + vw == wx + ww - gap && vw == tdiv(iw, 2)
            &&& align == Align::LeftEdge ==> vx == wx + gap && vw == tdiv(iw, 4)
            &&& align == Align::RightEdge ==> vx + vw == wx + ww - gap && vw == tdiv(iw, 4)
            &&& align == Align::Full ==> vx == wx + gap && vw == iw
            &&& align != Align::Center && align != Align::Proportional ==> vy == wy + gap && vh == ih
            &&& align == Align::Center ==> {
                &&& vw == scaled.0 && vh == scaled.1
                &&& vx - (wx + gap) == tdiv(iw - vw, 2)
                &&& vy - (wy + gap) == tdiv(ih - vh, 2)
            }
            &&& align == Align::Proportional ==> {
                &&& vw == scaled.0 && vh == scaled.1
                &&& vx - wx == tdiv(ww - vw, 2)
                &&& vy - wy == tdiv(wh - vh, 2)
            }
            &&& gap >= 0 && iw >= 0 && ih >= 0
                && (align == Align::Center ==> 0 <= scaled.0 <= iw && 0 <= scaled.1 <= ih)
                && (align == Align::Proportional ==> 0 <= scaled.0 <= ww && 0 <= scaled.1 <= wh)
                ==> wx <= vx && vx + vw <= wx + ww && wy <= vy && vy + vh <= wy + wh
        }),
{
    let (wx, wy, ww, wh) = (wa.0 as int, wa.1 as int, wa.2 as int, wa.3 as int);
    let iw = ww - 2 * gap;
    let ih = wh - 2 * gap;
    assert(iw >= 0 ==> 0 <= tdiv(iw, 2) <= iw && 0 <= tdiv(iw, 4) <= iw);
    assert(ih >= 0 ==> 0 <= tdiv(ih, 2) <= ih);
    assert(iw - scaled.0 >= 0 ==> 0 <= tdiv(iw - scaled.0, 2) <= iw - scaled.0);
    assert(ih - scaled.1 >= 0 ==> 0 <= tdiv(ih - scaled.1, 2) <= ih - scaled.1);
    assert(ww - scaled.0 >= 0 ==> 0 <= tdiv(ww - scaled.0, 2) <= ww - scaled.0);
    assert(wh - scaled.1 >= 0 ==> 0 <= tdiv(wh - scaled.1, 2) <= wh - scaled.1);
}

/// Frame position and size `(x, y, w, h)` that puts the window's visible
/// part into the layout `align` within `wa = (x, y, w, h)` and margin
/// `gap`, given the window's insets `off` and, for `center` and
/// `proportional`, the scaled size `scaled` (see `layout_spec`).
pub fn compute_layout(align: Align, wa: Rect, gap: i32, off: Rect, scaled: (i32, i32)) -> (r: Rect)
    requires
        layout_fits(align, wa, gap as int, off, scaled),
    ensures
        (r.0 as int, r.1 as int, r.2 as int, r.3 as int) == layout_spec(align, wa, gap as int, off, scaled),
{
    let (wx, wy, ww, wh) = wa;
    let (lo, to, ro, bo) = off;
    let mut vx = wx + gap;
    let mut vy = wy + gap;
    let mut vw = ww - gap * 2;
    let mut vh = wh - gap * 2;
    match align {
        Align::Left => {
            vw = vw / 2;
        },
        Align::Right => {
            vw = vw / 2;
            vx = wx + gap + ((ww - gap * 2) - vw);
        },
        Align::LeftEdge => {
            vw = vw / 4;
        },
        Align::RightEdge => {
            vw = vw / 4;
            vx = wx + gap + ((ww - gap * 2) - vw);
        },
        Align::Center => {
            vw = scaled.0;
            vh = scaled.1;
            vx = wx + gap + ((ww - gap * 2) - vw) / 2;
            vy = wy + gap + ((wh - gap * 2) - vh) / 2;
        },
        Align::Proportional => {
            vw = scaled.0;
            vh = scaled.1;
            vx = wx + (ww - vw) / 2;
            vy = wy + (wh - vh) / 2;
        },
        Align::Full => {},
    }
    (vx - lo, vy - to, vw + lo + ro, vh + to + bo)
}

} // verus!
