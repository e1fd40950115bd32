//! Padding text to a display width, truncation with an ellipsis, and rows of
//! aligned cells.

use vstd::prelude::*;
use crate::ansi::{ends_in_text, lemma_strip_concat, lemma_strip_no_esc, strip_ansi_spec, esc};
use crate::text::{push_char, push_repeat, push_str, repeat_char, spaces};
use crate::width::{
    display_width_spec, measured_apart, plain_edges, text_display_width, unicode_str_width,
};

verus! {

/// Alignment of text within a column.
#[derive(Clone, Copy, Debug, PartialEq, Eq, Structural)]
pub enum Alignment {
    Left,
    Right,
    Center,
}

/// `text` padded with spaces up to `width` display columns; text that is
/// already at least that wide is returned unchanged. Centred text gets the
/// smaller half of the padding on the left.
pub open spec fn pad_spec(text: Seq<char>, width: nat, align: Alignment) -> Seq<char> {
    let dw = display_width_spec(text);
    if dw >= width {
        text
    } else {
        let pad = (width - dw) as nat;
        match align {
            Alignment::Left => text + spaces(pad),
            Alignment::Right => spaces(pad) + text,
            Alignment::Center => spaces(pad / 2) + text + spaces((pad - pad / 2) as nat),
        }
    }
}

proof fn lemma_spaces_no_esc(n: nat)
    ensures
        !spaces(n).contains(esc()),
{
    if spaces(n).contains(esc()) {
        let k = choose|k: int| 0 <= k < spaces(n).len() && spaces(n)[k] == esc();
    }
}

/// Stripping escape sequences leaves the padding spaces in place.
proof fn lemma_strip_padded(l: nat, text: Seq<char>, r: nat)
    requires
        ends_in_text(text),
    ensures
        strip_ansi_spec(spaces(l) + text + spaces(r)) == spaces(l) + strip_ansi_spec(text) + spaces(r),
        ends_in_text(spaces(l) + text + spaces(r)),
{
    lemma_spaces_no_esc(l);
    lemma_spaces_no_esc(r);
    lemma_strip_no_esc(spaces(l));
    lemma_strip_no_esc(spaces(r));
    lemma_strip_concat(spaces(l), text);
    lemma_strip_concat(spaces(l) + text, spaces(r));
}

fn pad_impl(text: &str, width: usize, align: Alignment) -> (r: String)
    ensures
        r@ == pad_spec(text@, width as nat, align),
        ends_in_text(text@) ==> display_width_spec(r@) == if display_width_spec(text@) >= width {
            display_width_spec(text@)
        } else {
            width as nat
        },
        ends_in_text(text@) ==> ends_in_text(r@),
{
    let dw = text_display_width(text);
    let mut s = String::new();
    if dw >= width {
        push_str(&mut s, text);
        assert(s@ =~= text@);
        return s;
    }
    let pad = width - dw;
    let ghost t = text@;
    let ghost st = strip_ansi_spec(t);
    match align {
        Alignment::Left => {
            push_str(&mut s, text);
            push_repeat(&mut s, ' ', pad);
            proof {
                assert(repeat_char(' ', pad as nat) =~= spaces(pad as nat));
                assert(s@ =~= spaces(0) + t + spaces(pad as nat));
                if ends_in_text(t) {
                    lemma_strip_padded(0, t, pad as nat);
                }
                assert(s@ =~= t + spaces(pad as nat));
            }
        },
        Alignment::Right => {
            push_repeat(&mut s, ' ', pad);
            push_str(&mut s, text);
            proof {
                assert(repeat_char(' ', pad as nat) =~= spaces(pad as nat));
                assert(s@ =~= spaces(pad as nat) + t + spaces(0));
                if ends_in_text(t) {
                    lemma_strip_padded(pad as nat, t, 0);
                }
                assert(s@ =~= spaces(pad as nat) + t);
            }
        },
        Alignment::Center => {
            let left = pad / 2;
            let right = pad - left;
            push_repeat(&mut s, ' ', left);
            push_str(&mut s, text);
            push_repeat(&mut s, ' ', right);
            proof {
                assert(repeat_char(' ', left as nat) =~= spaces(left as nat));
                assert(repeat_char(' ', right as nat) =~= spaces(right as nat));
                assert(s@ =~= spaces(left as nat) + t + spaces(right as nat));
                if ends_in_text(t) {
                    lemma_strip_padded(left as nat, t, right as nat);
                }
            }
        },
    }
    s
}

/// Left-aligns `text` in `width` display columns (pads on the right), e.g.
/// `pad_left("你好", 6)` is `"你好  "`.
///
/// The result is exactly `width` columns wide whenever the text was narrower
/// and leaves no escape sequence open. Text wider than `width` is a caller's
/// mistake that this function does not refuse: it is returned unchanged, as
/// an optimised build of the padding always did (a debug build stops there).
pub fn pad_left(text: &str, width: usize) -> (r: String)
    ensures
        r@ == pad_spec(text@, width as nat, Alignment::Left),
        display_width_spec(text@) >= width ==> r@ == text@,
        ends_in_text(text@) && display_width_spec(text@) < width ==> display_width_spec(r@) == width,
{
    pad_impl(text, width, Alignment::Left)
}

/// Right-aligns `text` in `width` display columns (pads on the left), e.g.
/// `pad_right("你好", 6)` is `"  你好"`. Text wider than `width` is
/// returned unchanged, as for `pad_left`.
pub fn pad_right(text: &str, width: usize) -> (r: String)
    ensures
        r@ == pad_spec(text@, width as nat, Alignment::Right),
        display_width_spec(text@) >= width ==> r@ == text@,
        ends_in_text(text@) && display_width_spec(text@) < width ==> display_width_spec(r@) == width,
{
    pad_impl(text, width, Alignment::Right)
}

/// Centres `text` in `width` display columns, the extra space going right,
/// e.g. `pad_center("a", 4)` is `" a  "`. Text wider than `width` is
/// returned unchanged, as for `pad_left`.
pub fn pad_center(text: &str, width: usize) -> (r: String)
    ensures
        r@ == pad_spec(text@, width as nat, Alignment::Center),
        display_width_spec(text@) >= width ==> r@ == text@,
        ends_in_text(text@) && display_width_spec(text@) < width ==> display_width_spec(r@) == width,
{
    pad_impl(text, width, Alignment::Center)
}


/// The ellipsis that marks truncated text.
pub open spec fn ellipsis() -> Seq<char> {
    seq!['.', '.', '.']
}

/// The mark put after cut text: `...`, or as many of its dots as fit in
/// `max_width` columns.
pub open spec fn cut_mark(max_width: nat) -> Seq<char> {
    if display_width_spec(ellipsis()) <= max_width {
        ellipsis()
    } else if display_width_spec(ellipsis().take(2)) <= max_width {
        ellipsis().take(2)
    } else if display_width_spec(ellipsis().take(1)) <= max_width {
        ellipsis().take(1)
    } else {
        seq![]
    }
}

/// How many leading characters of `text` are kept before `mark`, searching on
/// from `j` kept: one more is kept as long as the prefix with it, followed by
/// `mark`, still fits in `max_width` columns.
pub open spec fn kept_from(text: Seq<char>, mark: Seq<char>, max_width: nat, j: nat) -> nat
    decreases text.len() - j,
{
    if j >= text.len() {
        j
    } else if display_width_spec(text.take(j + 1 as int) + mark) <= max_width {
        kept_from(text, mark, max_width, (j + 1) as nat)
    } else {
        j
    }
}

/// `text` cut to fit `max_width` columns: text that fits is returned as is;
/// otherwise the longest prefix that still fits with the cut mark after it
/// (see `cut_mark`), followed by that mark.
pub open spec fn truncate_spec(text: Seq<char>, max_width: nat) -> Seq<char> {
    if display_width_spec(text) <= max_width {
        text
    } else {
        let mark = cut_mark(max_width);
        text.take(kept_from(text, mark, max_width, 0) as int) + mark
    }
}

/// Shortens text wider than `max_width` display columns: it keeps the longest
/// prefix that fits with `...` after it, followed by `...` (see
/// `truncate_spec`), e.g. `truncate("你好世界", 6)` is `"你..."` and
/// `truncate("hello world", 8)` is `"hello..."`; text that fits is returned
/// unchanged. With fewer than three columns only as many dots as fit are
/// put. The result is never wider than `max_width`.
pub fn truncate(text: &str, max_width: usize) -> (r: String)
    ensures
        r@ == truncate_spec(text@, max_width as nat),
        display_width_spec(r@) <= max_width,
{
    let mut result = String::new();
    if text_display_width(text) <= max_width {
        push_str(&mut result, text);
        assert(result@ =~= text@);
        return result;
    }
    proof {
        reveal_strlit("...");
        reveal_strlit("..");
        reveal_strlit(".");
    }
    let w3 = text_display_width("...");
    let w2 = text_display_width("..");
    let w1 = text_display_width(".");
    proof {
        let e = ellipsis();
        assert("..."@ =~= e);
        assert(".."@ =~= e.take(2));
        assert("."@ =~= e.take(1));
        lemma_strip_no_esc_dots();
        // The ellipsis measures apart, so the empty text has no width.
        assert(plain_edges(e));
        assert(measured_apart(e, w3 as nat));
        assert(Seq::<char>::empty() + e + Seq::<char>::empty() =~= e);
        assert(unicode_str_width(Seq::<char>::empty() + e + Seq::<char>::empty())
            == unicode_str_width(Seq::<char>::empty()) + w3 + unicode_str_width(Seq::<char>::empty()));
        lemma_strip_no_esc(Seq::<char>::empty());
    }
    let mark: &str = if w3 <= max_width {
        "..."
    } else if w2 <= max_width {
        ".."
    } else if w1 <= max_width {
        "."
    } else {
        ""
    };
    proof {
        reveal_strlit("");
        assert(""@ =~= Seq::<char>::empty());
        assert(mark@ == cut_mark(max_width as nat));
        assert(display_width_spec(mark@) <= max_width);
    }
    let ghost m = mark@;
    let ghost mw = max_width as nat;
    for c in it: text.chars()
        invariant
            it.seq() == text@,
            m == mark@,
            m == cut_mark(mw),
            mw == max_width as nat,
            result@ == text@.take(it.index() as int),
            display_width_spec(result@ + m) <= max_width,
            kept_from(text@, m, mw, 0) == kept_from(text@, m, mw, it.index() as nat),
            display_width_spec(text@) > max_width,
    {
        let ghost i = it.index();
        let mut candidate = String::new();
        push_str(&mut candidate, result.as_str());
        push_char(&mut candidate, c);
        push_str(&mut candidate, mark);
        proof {
            assert(text@.take(i + 1) =~= result@.push(c));
            assert(candidate@ =~= text@.take(i + 1) + m);
        }
        if text_display_width(candidate.as_str()) > max_width {
            push_str(&mut result, mark);
            proof {
                assert(kept_from(text@, m, mw, i as nat) == i);
            }
            return result;
        }
        push_char(&mut result, c);
        proof {
            assert(kept_from(text@, m, mw, i as nat) == kept_from(text@, m, mw, (i + 1) as nat));
        }
    }
    proof {
        assert(text@.take(text@.len() as int) =~= text@);
        assert(kept_from(text@, m, mw, text@.len()) == text@.len());
    }
    push_str(&mut result, mark);
    result
}

proof fn lemma_strip_no_esc_dots()
    ensures
        strip_ansi_spec(ellipsis()) == ellipsis(),
        strip_ansi_spec(ellipsis().take(2)) == ellipsis().take(2),
        strip_ansi_spec(ellipsis().take(1)) == ellipsis().take(1),
{
    assert(!ellipsis().contains(esc())) by {
        if ellipsis().contains(esc()) {
            let k = choose|k: int| 0 <= k < 3 && ellipsis()[k] == esc();
        }
    }
    assert(!ellipsis().take(2).contains(esc())) by {
        if ellipsis().take(2).contains(esc()) {
            let k = choose|k: int| 0 <= k < 2 && ellipsis().take(2)[k] == esc();
        }
    }
    assert(!ellipsis().take(1).contains(esc())) by {
        if ellipsis().take(1).contains(esc()) {
            let k = choose|k: int| 0 <= k < 1 && ellipsis().take(1)[k] == esc();
        }
    }
    lemma_strip_no_esc(ellipsis());
    lemma_strip_no_esc(ellipsis().take(2));
    lemma_strip_no_esc(ellipsis().take(1));
}

// ── Rows of cells ──

/// A table cell: text, target width and alignment.
pub struct Cell {
    text: String,
    width: usize,
    align: Alignment,
}

impl Cell {
    /// The cell's text padded to its width.
    pub closed spec fn rendered(&self) -> Seq<char> {
        pad_spec(self.text@, self.width as nat, self.align)
    }

    /// Display columns that the rendered cell takes: the cell width, or the
    /// text's own width where the text is wider.
    pub closed spec fn cols(&self) -> nat {
        let dw = display_width_spec(self.text@);
        if dw >= self.width {
            dw
        } else {
            self.width as nat
        }
    }

    /// The cell's text leaves no escape sequence open at its end.
    pub closed spec fn settled(&self) -> bool {
        ends_in_text(self.text@)
    }

    /// Renders the cell: its text padded to the cell width.
    pub fn render(&self) -> (r: String)
        ensures
            r@ == self.rendered(),
            self.settled() ==> ends_in_text(r@) && display_width_spec(r@) == self.cols(),
    {
        pad_impl(self.text.as_str(), self.width, self.align)
    }
}

/// Makes a cell from (possibly styled) text, a width and an alignment.
pub fn cell(text: String, width: usize, align: Alignment) -> (c: Cell)
    ensures
        c.rendered() == pad_spec(text@, width as nat, align),
        c.settled() == ends_in_text(text@),
        c.cols() == if display_width_spec(text@) >= width {
            display_width_spec(text@)
        } else {
            width as nat
        },
{
    Cell { text, width, align }
}

/// Sum of the display widths of the pieces.
pub open spec fn widths_sum(pieces: Seq<Seq<char>>) -> nat
    decreases pieces.len(),
{
    if pieces.len() == 0 {
        0
    } else {
        widths_sum(pieces.drop_last()) + display_width_spec(pieces.last())
    }
}

/// Sum of the columns that the cells take.
pub open spec fn cols_total(cells: Seq<Cell>) -> nat
    decreases cells.len(),
{
    if cells.len() == 0 {
        0
    } else {
        cols_total(cells.drop_last()) + cells.last().cols()
    }
}

/// A separator that is measured apart from its neighbours: it leaves no
/// escape sequence open and its visible text starts and ends with a plain
/// character (see `plain_char`), as `" "`, `" | "` or `", "` do.
pub open spec fn apart_separator(sep: Seq<char>) -> bool {
    ends_in_text(sep) && plain_edges(strip_ansi_spec(sep))
}

/// Width of a join, by induction on the number of pieces.
proof fn lemma_join_width(pieces: Seq<Seq<char>>, sep: Seq<char>)
    requires
        pieces.len() >= 1,
        ends_in_text(sep),
        measured_apart(strip_ansi_spec(sep), display_width_spec(sep)),
        forall|i: int| 0 <= i < pieces.len() ==> #[trigger] ends_in_text(pieces[i]),
    ensures
        ends_in_text(join_with(pieces, sep)),
        display_width_spec(join_with(pieces, sep)) == widths_sum(pieces) + (pieces.len() - 1)
            * display_width_spec(sep),
    decreases pieces.len(),
{
    let n = pieces.len();
    let w = display_width_spec(sep);
    if n == 1 {
        assert(pieces.drop_last() =~= Seq::<Seq<char>>::empty());
        assert(ends_in_text(pieces[0]));
        assert(widths_sum(pieces.drop_last()) == 0);
    } else {
        let init = pieces.drop_last();
        let p = pieces.last();
        assert forall|i: int| 0 <= i < init.len() implies #[trigger] ends_in_text(init[i]) by {
            assert(init[i] == pieces[i]);
        }
        lemma_join_width(init, sep);
        assert(ends_in_text(pieces[n - 1]));
        let j = join_with(init, sep);
        lemma_strip_concat(j, sep);
        lemma_strip_concat(j + sep, p);
        assert(strip_ansi_spec(j + sep + p) == strip_ansi_spec(j) + strip_ansi_spec(sep) + strip_ansi_spec(p));
        assert(unicode_str_width(strip_ansi_spec(j) + strip_ansi_spec(sep) + strip_ansi_spec(p))
            == unicode_str_width(strip_ansi_spec(j)) + w + unicode_str_width(strip_ansi_spec(p)));
        assert((n - 2) * w + w == (n - 1) * w) by (nonlinear_arith);
    }
}

/// Law: joined with a separator that is measured apart from its
/// neighbours, pieces that leave no escape sequence open add up: the row is
/// as wide as the pieces together plus one separator width between each pair
/// of neighbours.
pub proof fn lemma_row_width(pieces: Seq<Seq<char>>, sep: Seq<char>)
    requires
        pieces.len() >= 1,
        ends_in_text(sep),
        measured_apart(strip_ansi_spec(sep), display_width_spec(sep)),
        forall|i: int| 0 <= i < pieces.len() ==> #[trigger] ends_in_text(pieces[i]),
    ensures
        display_width_spec(join_with(pieces, sep)) == widths_sum(pieces) + (pieces.len() - 1)
            * display_width_spec(sep),
{
    lemma_join_width(pieces, sep);
}

proof fn lemma_widths_cols(cells: Seq<Cell>)
    requires
        forall|i: int| 0 <= i < cells.len() ==> display_width_spec(#[trigger] cells[i].rendered()) == cells[i].cols(),
    ensures
        widths_sum(cells.map_values(|c: Cell| c.rendered())) == cols_total(cells),
    decreases cells.len(),
{
    if cells.len() > 0 {
        let init = cells.drop_last();
        assert(init.map_values(|c: Cell| c.rendered()) =~= cells.map_values(|c: Cell| c.rendered()).drop_last());
        assert forall|i: int| 0 <= i < init.len() implies display_width_spec(#[trigger] init[i].rendered()) == init[i].cols() by {
            assert(init[i] == cells[i]);
        }
        lemma_widths_cols(init);
        assert(display_width_spec(cells[cells.len() - 1].rendered()) == cells[cells.len() - 1].cols());
    }
}

/// The pieces joined with `sep` between neighbours.
pub open spec fn join_with(pieces: Seq<Seq<char>>, sep: Seq<char>) -> Seq<char>
    decreases pieces.len(),
{
    if pieces.len() == 0 {
        seq![]
    } else if pieces.len() == 1 {
        pieces[0]
    } else {
        join_with(pieces.drop_last(), sep) + sep + pieces.last()
    }
}

/// Renders the cells into one line, with `separator` between neighbours.
///
/// With a separator measured apart from its neighbours (see
/// `apart_separator`) and cells whose text leaves no escape sequence open,
/// the row is exactly as wide as its cells (each its width, or its text's
/// width where the text is wider) plus one separator width between each pair
/// of neighbours.
pub fn format_row(cells: &[Cell], separator: &str) -> (r: String)
    ensures
        r@ == join_with(cells@.map_values(|c: Cell| c.rendered()), separator@),
        cells@.len() >= 1 && apart_separator(separator@)
            && (forall|i: int| 0 <= i < cells@.len() ==> #[trigger] cells@[i].settled())
            ==> display_width_spec(r@) == cols_total(cells@) + (cells@.len() - 1) * display_width_spec(
            separator@,
        ),
{
    let ghost pieces = cells@.map_values(|c: Cell| c.rendered());
    // The separator's measure is what the width law below rests on.
    let sep_width = text_display_width(separator);
    let mut result = String::new();
    let mut i: usize = 0;
    while i < cells.len()
        invariant
            i <= cells.len(),
            pieces == cells@.map_values(|c: Cell| c.rendered()),
            result@ == join_with(pieces.take(i as int), separator@),
            forall|j: int| 0 <= j < i ==> #[trigger] cells@[j].settled() ==> ends_in_text(pieces[j])
                && display_width_spec(pieces[j]) == cells@[j].cols(),
        decreases cells.len() - i,
    {
        let piece = cells[i].render();
        if i > 0 {
            push_str(&mut result, separator);
        }
        push_str(&mut result, piece.as_str());
        proof {
            let t = pieces.take(i + 1);
            assert(t.drop_last() =~= pieces.take(i as int));
            assert(t.last() == piece@);
            if i == 0 {
                assert(join_with(pieces.take(0), separator@) =~= Seq::<char>::empty());
                assert(result@ =~= t[0]);
            }
        }
        i = i + 1;
    }
    proof {
        assert(pieces.take(cells.len() as int) =~= pieces);
        assert(sep_width as nat == display_width_spec(separator@));
        if cells@.len() >= 1 && apart_separator(separator@)
            && (forall|j: int| 0 <= j < cells@.len() ==> #[trigger] cells@[j].settled()) {
            assert forall|j: int| 0 <= j < pieces.len() implies #[trigger] ends_in_text(pieces[j]) by {
                assert(cells@[j].settled());
            }
            assert forall|j: int| 0 <= j < cells@.len() implies display_width_spec(#[trigger] cells@[j].rendered())
                == cells@[j].cols() by {
                assert(cells@[j].settled());
                assert(pieces[j] == cells@[j].rendered());
            }
            lemma_row_width(pieces, separator@);
            lemma_widths_cols(cells@);
        }
    }
    result
}
} // verus!
