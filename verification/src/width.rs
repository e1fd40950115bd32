//! Display width of text in terminal columns, with ANSI sequences ignored.

use vstd::prelude::*;
use crate::ansi::{strip_ansi, strip_ansi_spec};
use crate::text::spaces;

verus! {

/// Columns that `unicode_width::UnicodeWidthStr::width` gives a string.
pub uninterp spec fn unicode_str_width(s: Seq<char>) -> nat;

/// A character that joins neither with what follows nor with what precedes
/// it when a string is measured: printable ASCII other than the keycap bases
/// `#`, `*` and `0` to `9`.
pub open spec fn plain_char(c: char) -> bool {
    &&& 0x20 <= (c as u32) <= 0x7e
    &&& c != '#'
    &&& c != '*'
    &&& !(0x30 <= (c as u32) <= 0x39)
}

/// `s` is not empty and starts and ends with a plain character.
pub open spec fn plain_edges(s: Seq<char>) -> bool {
    s.len() >= 1 && plain_char(s[0]) && plain_char(s.last())
}

/// `s`, `w` columns wide, is measured apart from whatever stands around it.
pub open spec fn measured_apart(s: Seq<char>, w: nat) -> bool {
    forall|x: Seq<char>, y: Seq<char>|
        #[trigger] unicode_str_width(x + s + y) == unicode_str_width(x) + w + unicode_str_width(y)
}

/// Calls `unicode_width::UnicodeWidthStr::width`.
///
/// Claimed of it: the result is the named width of `s`; surrounding a string
/// with spaces adds one column per space; and a string that starts and ends
/// with a plain character (see `plain_char`) adds exactly its own width to
/// whatever text stands before and after it. The crate measures a string by a
/// right-to-left fold over its characters (`lookup::str_width`, via
/// `width_in_generic`): a character at or below U+00A0 other than `\n`, `\r`
/// and the keycap bases always counts 1 and hands the default state on,
/// whatever state it receives. So the fold over such a string is the same as
/// for the string alone, and the text before it is then folded as it would be
/// alone too.
#[verifier::external_body]
fn str_width(s: &str) -> (r: usize)
    ensures
        r as nat == unicode_str_width(s@),
        forall|n: nat, m: nat|
            #[trigger] unicode_str_width(spaces(n) + s@ + spaces(m)) == r + n + m,
        s@.len() >= 1 && plain_char(s@[0]) && plain_char(s@.last()) ==> forall|x: Seq<char>, y: Seq<char>|
            #[trigger] unicode_str_width(x + s@ + y) == unicode_str_width(x) + r + unicode_str_width(y),
{
    unicode_width::UnicodeWidthStr::width(s)
}

/// Display width of `s`: the width of what remains after the ANSI colour and
/// style sequences are removed.
pub open spec fn display_width_spec(s: Seq<char>) -> nat {
    unicode_str_width(strip_ansi_spec(s))
}

/// Display width of `s` in columns: ANSI sequences count for nothing and CJK
/// characters count two columns.
pub fn text_display_width(s: &str) -> (r: usize)
    ensures
        r as nat == display_width_spec(s@),
        forall|n: nat, m: nat|
            #[trigger] unicode_str_width(spaces(n) + strip_ansi_spec(s@) + spaces(m)) == r + n + m,
        plain_edges(strip_ansi_spec(s@)) ==> measured_apart(strip_ansi_spec(s@), r as nat),
{
    let clean = strip_ansi(s);
    str_width(clean.as_str())
}

/// Types whose text has a display width (CJK aware, ANSI sequences ignored).
pub trait DisplayWidth {
    /// The characters whose width is measured.
    spec fn text_of(&self) -> Seq<char>;

    fn display_width(&self) -> (r: usize)
        ensures
            r as nat == display_width_spec(self.text_of()),
    ;
}

impl DisplayWidth for str {
    open spec fn text_of(&self) -> Seq<char> {
        self@
    }

    fn display_width(&self) -> (r: usize) {
        text_display_width(self)
    }
}

impl DisplayWidth for String {
    open spec fn text_of(&self) -> Seq<char> {
        self@
    }

    fn display_width(&self) -> (r: usize) {
        text_display_width(self.as_str())
    }
}

impl<'a, T: DisplayWidth + ?Sized> DisplayWidth for &'a T {
    open spec fn text_of(&self) -> Seq<char> {
        (**self).text_of()
    }

    fn display_width(&self) -> (r: usize) {
        (**self).display_width()
    }
}

} // verus!
