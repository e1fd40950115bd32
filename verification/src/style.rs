//! Text styles: a foreground colour code plus bold / dim / italic / underline,
//! rendered as ANSI SGR sequences.

use vstd::prelude::*;
use crate::ansi::{
    ends_in_text, esc, is_seq_body, lemma_scan_concat, lemma_scan_push, lemma_strip_concat, lemma_strip_no_esc,
    scan_from, seq_body, strip_ansi_spec, ScanState,
};
use crate::text::{dec_str, digit_char, push_char, push_dec, push_str};

verus! {

/// Text style: a foreground colour code and attributes.
#[derive(Clone, Copy, Debug)]
pub struct Style {
    pub code: u8,
    pub bold: bool,
    pub dim: bool,
    pub italic: bool,
    pub underline: bool,
}

/// The plain style of colour `code`.
pub open spec fn plain_style(code: u8) -> Style {
    Style { code, bold: false, dim: false, italic: false, underline: false }
}

/// `;k` when `on`, else nothing.
pub open spec fn attr_code(on: bool, k: nat) -> Seq<char> {
    if on {
        seq![';', digit_char(k)]
    } else {
        seq![]
    }
}

/// The parameter list of the style's SGR sequence, e.g. `31;1;4`.
pub open spec fn style_params(s: Style) -> Seq<char> {
    dec_str(s.code as nat) + attr_code(s.bold, 1) + attr_code(s.dim, 2) + attr_code(s.italic, 3)
        + attr_code(s.underline, 4)
}

/// `ESC [ params m`
pub open spec fn sgr(params: Seq<char>) -> Seq<char> {
    seq![esc(), '['] + params + seq!['m']
}

/// The reset sequence `ESC [ 0 m`.
pub open spec fn reset_seq() -> Seq<char> {
    sgr(seq!['0'])
}

/// `text` wrapped in the style's SGR sequence and a reset; empty text stays empty.
pub open spec fn paint_spec(s: Style, text: Seq<char>) -> Seq<char> {
    if text.len() == 0 {
        seq![]
    } else {
        sgr(style_params(s)) + text + reset_seq()
    }
}

proof fn lemma_scan_sequence_body(q: Seq<char>, p: Seq<char>)
    requires
        seq_body(p),
    ensures
        scan_from(ScanState::InSequence(q), p) == (ScanState::InSequence(q + p), Seq::<char>::empty()),
    decreases p.len(),
{
    if p.len() == 0 {
        assert(q + p =~= q);
    } else {
        let init = p.drop_last();
        assert(seq_body(init)) by {
            assert forall|i: int| 0 <= i < init.len() implies #[trigger] is_seq_body(init[i]) by {
                assert(init[i] == p[i]);
            }
        }
        lemma_scan_sequence_body(q, init);
        assert(is_seq_body(p[p.len() - 1]));
        assert((q + init).push(p.last()) =~= q + p);
    }
}

/// A complete `ESC [ params m` sequence whose parameters may all stand in a
/// control sequence is removed entirely and leaves the scanner in plain
/// text.
pub proof fn lemma_sgr_stripped(params: Seq<char>)
    requires
        seq_body(params),
    ensures
        ends_in_text(sgr(params)),
        strip_ansi_spec(sgr(params)) == Seq::<char>::empty(),
{
    let open = seq![esc(), '['];
    let e = Seq::<char>::empty();
    lemma_scan_push(e, esc());
    assert(e.push(esc()) =~= seq![esc()]);
    assert(e + e =~= e);
    lemma_scan_push(seq![esc()], '[');
    assert(seq![esc()].push('[') =~= open);
    lemma_scan_concat(open, params);
    lemma_scan_sequence_body(Seq::<char>::empty(), params);
    assert(Seq::<char>::empty() + params =~= params);
    lemma_scan_push(open + params, 'm');
    assert(!is_seq_body('m'));
    assert(sgr(params) =~= (open + params).push('m'));
}

proof fn lemma_style_params_body(s: Style)
    ensures
        seq_body(style_params(s)),
{
    crate::text::lemma_dec_str_digits(s.code as nat);
    let p = style_params(s);
    let d = dec_str(s.code as nat);
    assert forall|k: int| 0 <= k < p.len() implies #[trigger] is_seq_body(p[k]) by {
        if k < d.len() {
            assert(p[k] == d[k]);
        }
    }
}

/// Law: painting never changes what is left once the escape sequences are
/// removed, so styled text keeps its display width. Holds for text that
/// leaves no escape sequence open.
pub proof fn lemma_paint_strips_to_text(s: Style, text: Seq<char>)
    requires
        ends_in_text(text),
    ensures
        strip_ansi_spec(paint_spec(s, text)) == strip_ansi_spec(text),
        ends_in_text(paint_spec(s, text)),
{
    if text.len() == 0 {
        lemma_strip_no_esc(text);
        lemma_strip_no_esc(Seq::<char>::empty());
    } else {
        lemma_style_params_body(s);
        lemma_sgr_stripped(style_params(s));
        assert(seq_body(seq!['0'])) by {
            assert forall|k: int| 0 <= k < seq!['0'].len() implies #[trigger] is_seq_body(seq!['0'][k]) by {
                assert(seq!['0'][k] == '0');
            }
        }
        lemma_sgr_stripped(seq!['0']);
        let a = sgr(style_params(s));
        lemma_strip_concat(a, text);
        lemma_strip_concat(a + text, reset_seq());
        assert(paint_spec(s, text) =~= (a + text) + reset_seq());
        assert(Seq::<char>::empty() + strip_ansi_spec(text) =~= strip_ansi_spec(text));
        assert(strip_ansi_spec(text) + Seq::<char>::empty() =~= strip_ansi_spec(text));
    }
}

impl Style {
    /// A plain colour with no attributes.
    #[must_use]
    pub fn new(code: u8) -> (r: Self)
        ensures
            r == (Style { code, bold: false, dim: false, italic: false, underline: false }),
    {
        Style { code, bold: false, dim: false, italic: false, underline: false }
    }

    /// The same style, bold.
    #[must_use]
    pub fn bold(self) -> (r: Self)
        ensures
            r == (Style { bold: true, ..self }),
    {
        let mut s = self;
        s.bold = true;
        s
    }

    /// The same style, dimmed.
    #[must_use]
    pub fn dim(self) -> (r: Self)
        ensures
            r == (Style { dim: true, ..self }),
    {
        let mut s = self;
        s.dim = true;
        s
    }

    /// The same style, italic.
    #[must_use]
    pub fn italic(self) -> (r: Self)
        ensures
            r == (Style { italic: true, ..self }),
    {
        let mut s = self;
        s.italic = true;
        s
    }

    /// The same style, underlined.
    #[must_use]
    pub fn underline(self) -> (r: Self)
        ensures
            r == (Style { underline: true, ..self }),
    {
        let mut s = self;
        s.underline = true;
        s
    }

    /// `text` wrapped in this style's escape sequence and a reset, e.g.
    /// red `"错误"` gives `"\x1b[31m错误\x1b[0m"`; empty text gives `""`.
    pub fn paint(self, text: &str) -> (r: String)
        ensures
            r@ == paint_spec(self, text@),
    {
        let mut out = String::new();
        if text.is_empty() {
            return out;
        }
        push_char(&mut out, '\x1b');
        push_char(&mut out, '[');
        push_dec(&mut out, self.code as u64);
        if self.bold {
            push_char(&mut out, ';');
            push_char(&mut out, '1');
        }
        if self.dim {
            push_char(&mut out, ';');
            push_char(&mut out, '2');
        }
        if self.italic {
            push_char(&mut out, ';');
            push_char(&mut out, '3');
        }
        if self.underline {
            push_char(&mut out, ';');
            push_char(&mut out, '4');
        }
        push_char(&mut out, 'm');
        push_str(&mut out, text);
        push_char(&mut out, '\x1b');
        push_char(&mut out, '[');
        push_char(&mut out, '0');
        push_char(&mut out, 'm');
        assert(out@ =~= paint_spec(self, text@));
        out
    }
}


/// The style with colour `code` and, when `bold`, the bold attribute.
pub open spec fn colour(code: u8, bold: bool) -> Style {
    Style { code, bold, dim: false, italic: false, underline: false }
}

/// `text` painted in colour 30.
pub fn black(text: &str) -> (r: String)
    ensures
        r@ == paint_spec(colour(30u8, false), text@),
{
    Style::new(30u8).paint(text)
}

/// `text` painted in colour 31.
pub fn red(text: &str) -> (r: String)
    ensures
        r@ == paint_spec(colour(31u8, false), text@),
{
    Style::new(31u8).paint(text)
}

/// `text` painted in colour 32.
pub fn green(text: &str) -> (r: String)
    ensures
        r@ == paint_spec(colour(32u8, false), text@),
{
    Style::new(32u8).paint(text)
}

/// `text` painted in colour 33.
pub fn yellow(text: &str) -> (r: String)
    ensures
        r@ == paint_spec(colour(33u8, false), text@),
{
    Style::new(33u8).paint(text)
}

/// `text` painted in colour 34.
pub fn blue(text: &str) -> (r: String)
    ensures
        r@ == paint_spec(colour(34u8, false), text@),
{
    Style::new(34u8).paint(text)
}

/// `text` painted in colour 35.
pub fn magenta(text: &str) -> (r: String)
    ensures
        r@ == paint_spec(colour(35u8, false), text@),
{
    Style::new(35u8).paint(text)
}

/// `text` painted in colour 36.
pub fn cyan(text: &str) -> (r: String)
    ensures
        r@ == paint_spec(colour(36u8, false), text@),
{
    Style::new(36u8).paint(text)
}

/// `text` painted in colour 37.
pub fn white(text: &str) -> (r: String)
    ensures
        r@ == paint_spec(colour(37u8, false), text@),
{
    Style::new(37u8).paint(text)
}

/// `text` painted in colour 90.
pub fn gray(text: &str) -> (r: String)
    ensures
        r@ == paint_spec(colour(90u8, false), text@),
{
    Style::new(90u8).paint(text)
}

/// `text` painted in colour 90.
pub fn bright_black(text: &str) -> (r: String)
    ensures
        r@ == paint_spec(colour(90u8, false), text@),
{
    Style::new(90u8).paint(text)
}

/// `text` painted in colour 91.
pub fn bright_red(text: &str) -> (r: String)
    ensures
        r@ == paint_spec(colour(91u8, false), text@),
{
    Style::new(91u8).paint(text)
}

/// `text` painted in colour 92.
pub fn bright_green(text: &str) -> (r: String)
    ensures
        r@ == paint_spec(colour(92u8, false), text@),
{
    Style::new(92u8).paint(text)
}

/// `text` painted in colour 93.
pub fn bright_yellow(text: &str) -> (r: String)
    ensures
        r@ == paint_spec(colour(93u8, false), text@),
{
    Style::new(93u8).paint(text)
}

/// `text` painted in colour 94.
pub fn bright_blue(text: &str) -> (r: String)
    ensures
        r@ == paint_spec(colour(94u8, false), text@),
{
    Style::new(94u8).paint(text)
}

/// `text` painted in colour 95.
pub fn bright_magenta(text: &str) -> (r: String)
    ensures
        r@ == paint_spec(colour(95u8, false), text@),
{
    Style::new(95u8).paint(text)
}

/// `text` painted in colour 96.
pub fn bright_cyan(text: &str) -> (r: String)
    ensures
        r@ == paint_spec(colour(96u8, false), text@),
{
    Style::new(96u8).paint(text)
}

/// `text` painted in bold colour 37.
pub fn bold(text: &str) -> (r: String)
    ensures
        r@ == paint_spec(colour(37u8, true), text@),
{
    Style::new(37u8).bold().paint(text)
}

/// `text` painted in bold colour 31.
pub fn bold_red(text: &str) -> (r: String)
    ensures
        r@ == paint_spec(colour(31u8, true), text@),
{
    Style::new(31u8).bold().paint(text)
}

/// `text` painted in bold colour 32.
pub fn bold_green(text: &str) -> (r: String)
    ensures
        r@ == paint_spec(colour(32u8, true), text@),
{
    Style::new(32u8).bold().paint(text)
}

/// `text` painted in bold colour 33.
pub fn bold_yellow(text: &str) -> (r: String)
    ensures
        r@ == paint_spec(colour(33u8, true), text@),
{
    Style::new(33u8).bold().paint(text)
}

/// `text` painted in bold colour 34.
pub fn bold_blue(text: &str) -> (r: String)
    ensures
        r@ == paint_spec(colour(34u8, true), text@),
{
    Style::new(34u8).bold().paint(text)
}

/// `text` painted in bold colour 35.
pub fn bold_magenta(text: &str) -> (r: String)
    ensures
        r@ == paint_spec(colour(35u8, true), text@),
{
    Style::new(35u8).bold().paint(text)
}

/// `text` painted in bold colour 36.
pub fn bold_cyan(text: &str) -> (r: String)
    ensures
        r@ == paint_spec(colour(36u8, true), text@),
{
    Style::new(36u8).bold().paint(text)
}

/// `text` painted in bold colour 96.
pub fn bold_bright_cyan(text: &str) -> (r: String)
    ensures
        r@ == paint_spec(colour(96u8, true), text@),
{
    Style::new(96u8).bold().paint(text)
}

} // verus!
