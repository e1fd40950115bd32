//! Removal of `ESC [ ... m` colour/style sequences from text.

use vstd::prelude::*;
use crate::text::{push_char, push_str};

verus! {

/// The escape character that opens an ANSI control sequence.
pub open spec fn esc() -> char {
    '\x1b'
}

/// Parameter and intermediate characters of a control sequence
/// (U+0020 to U+003F).
pub open spec fn is_seq_body(c: char) -> bool {
    0x20 <= (c as u32) <= 0x3f
}

/// Final characters of a control sequence (U+0040 to U+007E).
pub open spec fn is_seq_final(c: char) -> bool {
    0x40 <= (c as u32) <= 0x7e
}

/// Every character of `p` may stand inside a control sequence.
pub open spec fn seq_body(p: Seq<char>) -> bool {
    forall|i: int| 0 <= i < p.len() ==> #[trigger] is_seq_body(p[i])
}

/// Scanner state after a prefix of the input: plain text, just after an
/// escape character, or inside an `ESC [` sequence whose body so far is the
/// given characters.
pub enum ScanState {
    Text,
    AfterEsc,
    InSequence(Seq<char>),
}

/// The opening of a control sequence with body `p`: `ESC [ p`.
pub open spec fn csi_open(p: Seq<char>) -> Seq<char> {
    seq![esc(), '['] + p
}

/// Reading `c` as plain text: an escape starts a sequence, anything else is
/// emitted.
pub open spec fn text_step(c: char) -> (ScanState, Seq<char>) {
    if c == esc() {
        (ScanState::AfterEsc, seq![])
    } else {
        (ScanState::Text, seq![c])
    }
}

/// One step of the scanner: the state after `c` and the characters it emits.
/// Only a complete `ESC [ body m` sequence is removed. An escape followed by
/// anything but `[` is emitted as it is and `c` is read as plain text; a
/// sequence ending in another final character is emitted unchanged; a
/// sequence cut short by a character that cannot stand in it is emitted
/// unchanged and that character read as plain text.
pub open spec fn scan_step(st: ScanState, c: char) -> (ScanState, Seq<char>) {
    match st {
        ScanState::Text => text_step(c),
        ScanState::AfterEsc => if c == '[' {
            (ScanState::InSequence(seq![]), seq![])
        } else {
            (text_step(c).0, seq![esc()] + text_step(c).1)
        },
        ScanState::InSequence(p) => if is_seq_body(c) {
            (ScanState::InSequence(p.push(c)), seq![])
        } else if c == 'm' {
            (ScanState::Text, seq![])
        } else if is_seq_final(c) {
            (ScanState::Text, csi_open(p).push(c))
        } else {
            (text_step(c).0, csi_open(p) + text_step(c).1)
        },
    }
}

/// Scanner state and output after reading all of `s`.
pub open spec fn scan(s: Seq<char>) -> (ScanState, Seq<char>)
    decreases s.len(),
{
    if s.len() == 0 {
        (ScanState::Text, seq![])
    } else {
        let (st, out) = scan(s.drop_last());
        let (st2, emitted) = scan_step(st, s.last());
        (st2, out + emitted)
    }
}

/// What a state still holds back at the end of the input.
pub open spec fn pending(st: ScanState) -> Seq<char> {
    match st {
        ScanState::Text => seq![],
        ScanState::AfterEsc => seq![esc()],
        ScanState::InSequence(p) => csi_open(p),
    }
}

/// `s` with its complete `ESC [ ... m` colour and style sequences removed;
/// every other escape sequence, and a sequence left open at the end, is
/// kept as it is.
pub open spec fn strip_ansi_spec(s: Seq<char>) -> Seq<char> {
    scan(s).1 + pending(scan(s).0)
}

/// `s` ends in plain text: no escape sequence is left open at its end.
pub open spec fn ends_in_text(s: Seq<char>) -> bool {
    scan(s).0 is Text
}

/// Scanning from a given state, used for statements about concatenations.
pub open spec fn scan_from(st: ScanState, s: Seq<char>) -> (ScanState, Seq<char>)
    decreases s.len(),
{
    if s.len() == 0 {
        (st, seq![])
    } else {
        let (st1, out) = scan_from(st, s.drop_last());
        let (st2, emitted) = scan_step(st1, s.last());
        (st2, out + emitted)
    }
}

pub proof fn lemma_scan_push(s: Seq<char>, c: char)
    ensures
        scan(s.push(c)).0 == scan_step(scan(s).0, c).0,
        scan(s.push(c)).1 == scan(s).1 + scan_step(scan(s).0, c).1,
{
    assert(s.push(c).drop_last() =~= s);
    assert(s.push(c).last() == c);
}

pub proof fn lemma_scan_from_text(s: Seq<char>)
    ensures
        scan_from(ScanState::Text, s) == scan(s),
    decreases s.len(),
{
    if s.len() > 0 {
        lemma_scan_from_text(s.drop_last());
    }
}

pub proof fn lemma_scan_concat(a: Seq<char>, b: Seq<char>)
    ensures
        scan(a + b).0 == scan_from(scan(a).0, b).0,
        scan(a + b).1 == scan(a).1 + scan_from(scan(a).0, b).1,
    decreases b.len(),
{
    if b.len() == 0 {
        assert(a + b =~= a);
    } else {
        lemma_scan_concat(a, b.drop_last());
        assert((a + b).drop_last() =~= a + b.drop_last());
        assert((a + b).last() == b.last());
        let (st1, out1) = scan_from(scan(a).0, b.drop_last());
        let (st2, e) = scan_step(st1, b.last());
        assert(scan(a).1 + out1 + e =~= scan(a).1 + (out1 + e));
    }
}

/// Text without escape characters passes through the scanner unchanged.
pub proof fn lemma_scan_no_esc(s: Seq<char>)
    requires
        !s.contains(esc()),
    ensures
        scan(s).0 is Text,
        scan(s).1 == s,
    decreases s.len(),
{
    if s.len() > 0 {
        assert(!s.drop_last().contains(esc())) by {
            if s.drop_last().contains(esc()) {
                let k = choose|k: int| 0 <= k < s.drop_last().len() && s.drop_last()[k] == esc();
                assert(s[k] == esc());
            }
        }
        lemma_scan_no_esc(s.drop_last());
        assert(s.last() != esc()) by {
            assert(s[s.len() - 1] == s.last());
        }
        assert(s.drop_last().push(s.last()) =~= s);
    }
}

pub proof fn lemma_scan_from_no_esc(st: ScanState, s: Seq<char>)
    requires
        st is Text,
        !s.contains(esc()),
    ensures
        scan_from(st, s).0 is Text,
        scan_from(st, s).1 == s,
{
    lemma_scan_from_text(s);
    lemma_scan_no_esc(s);
}

/// Law: removing sequences is compositional at plain-text boundaries, i.e.
/// when `a` leaves no sequence open, `a + b` is stripped piecewise.
pub proof fn lemma_strip_concat(a: Seq<char>, b: Seq<char>)
    requires
        ends_in_text(a),
    ensures
        strip_ansi_spec(a + b) == strip_ansi_spec(a) + strip_ansi_spec(b),
        ends_in_text(a + b) == ends_in_text(b),
{
    lemma_scan_concat(a, b);
    lemma_scan_from_text(b);
    assert(scan(a).1 + scan(b).1 + pending(scan(b).0) =~= (scan(a).1 + pending(scan(a).0)) + (scan(b).1 + pending(scan(b).0)));
}

/// Law: text without escape characters is left unchanged.
pub proof fn lemma_strip_no_esc(s: Seq<char>)
    requires
        !s.contains(esc()),
    ensures
        strip_ansi_spec(s) == s,
        ends_in_text(s),
{
    lemma_scan_no_esc(s);
}

/// The scanner state held by `strip_ansi`: mode 0 plain text, 1 after an
/// escape, 2 inside a sequence whose body so far is `body`.
pub open spec fn state_of(mode: u8, body: Seq<char>) -> ScanState {
    if mode == 0 {
        ScanState::Text
    } else if mode == 1 {
        ScanState::AfterEsc
    } else {
        ScanState::InSequence(body)
    }
}

/// Removes the `ESC [ ... m` colour and style sequences from `s`; every
/// other escape sequence, and one left unfinished, stays as it is (see
/// `scan_step`), e.g. `"\x1b[31m错误\x1b[0m"` gives `"错误"` and
/// `"\x1b[2Jab"` is returned unchanged.
pub fn strip_ansi(s: &str) -> (r: String)
    ensures
        r@ == strip_ansi_spec(s@),
{
    let mut result = String::new();
    let mut mode: u8 = 0;
    let mut body = String::new();
    let ghost mut done: Seq<char> = seq![];
    for c in it: s.chars()
        invariant
            done == s@.take(it.index() as int),
            it.seq() == s@,
            mode <= 2,
            scan(done) == (state_of(mode, body@), result@),
    {
        let ghost prev = done;
        let ghost before = result@;
        let ghost st = state_of(mode, body@);
        let code = c as u32;
        if mode == 2 {
            if 0x20 <= code && code <= 0x3f {
                push_char(&mut body, c);
            } else if c == 'm' {
                body = String::new();
                mode = 0;
            } else {
                push_char(&mut result, '\x1b');
                push_char(&mut result, '[');
                push_str(&mut result, body.as_str());
                body = String::new();
                if 0x40 <= code && code <= 0x7e {
                    push_char(&mut result, c);
                    mode = 0;
                } else if c == '\x1b' {
                    mode = 1;
                } else {
                    push_char(&mut result, c);
                    mode = 0;
                }
            }
        } else if mode == 1 {
            if c == '[' {
                body = String::new();
                mode = 2;
            } else {
                push_char(&mut result, '\x1b');
                if c == '\x1b' {
                    mode = 1;
                } else {
                    push_char(&mut result, c);
                    mode = 0;
                }
            }
        } else {
            if c == '\x1b' {
                mode = 1;
            } else {
                push_char(&mut result, c);
            }
        }
        proof {
            done = s@.take(it.index() + 1);
            assert(done.drop_last() =~= prev);
            assert(done.last() == c);
            let (st2, e) = scan_step(st, c);
            assert(result@ =~= before + e);
            assert(state_of(mode, body@) == st2);
        }
    }
    proof {
        assert(done =~= s@);
    }
    if mode == 1 {
        push_char(&mut result, '\x1b');
    } else if mode == 2 {
        push_char(&mut result, '\x1b');
        push_char(&mut result, '[');
        push_str(&mut result, body.as_str());
    }
    proof {
        assert(result@ =~= strip_ansi_spec(s@));
    }
    result
}

} // verus!
