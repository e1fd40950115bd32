//! Character-level building blocks shared by the formatting code: decimal
//! rendering of integers and a few sequences of repeated characters.

use vstd::prelude::*;

verus! {

/// A run of `n` space characters.
pub open spec fn spaces(n: nat) -> Seq<char> {
    Seq::new(n, |_i: int| ' ')
}

/// A run of `n` copies of `c`.
pub open spec fn repeat_char(c: char, n: nat) -> Seq<char> {
    Seq::new(n, |_i: int| c)
}

/// The ASCII digit for `d` (expected to be below 10).
pub open spec fn digit_char(d: nat) -> char {
    (48 + d) as char
}

/// Decimal digits of `n`, most significant first, without leading zeros.
pub open spec fn dec_str(n: nat) -> Seq<char>
    decreases n,
{
    if n < 10 {
        seq![digit_char(n)]
    } else {
        dec_str(n / 10).push(digit_char(n % 10))
    }
}

/// Decimal rendering of a signed integer, with a leading `-` when negative.
pub open spec fn int_str(i: int) -> Seq<char> {
    if i < 0 {
        seq!['-'] + dec_str((-i) as nat)
    } else {
        dec_str(i as nat)
    }
}

/// Decimal rendering of `i` zero-padded to at least `w` characters, the sign
/// counting towards the width (the `{:0w}` format of integers).
pub open spec fn int_str_zero_padded(i: int, w: nat) -> Seq<char> {
    let digits = dec_str(if i < 0 { (-i) as nat } else { i as nat });
    let sign: Seq<char> = if i < 0 { seq!['-'] } else { seq![] };
    let fill: nat = if sign.len() + digits.len() < w { (w - sign.len() - digits.len()) as nat } else { 0 };
    sign + repeat_char('0', fill) + digits
}

pub proof fn lemma_dec_str_len_pos(n: nat)
    ensures
        dec_str(n).len() >= 1,
    decreases n,
{
    if n >= 10 {
        lemma_dec_str_len_pos(n / 10);
    }
}

/// Every character of `dec_str(n)` is an ASCII digit.
pub proof fn lemma_dec_str_digits(n: nat)
    ensures
        forall|i: int|
            0 <= i < dec_str(n).len() ==> 48 <= (#[trigger] dec_str(n)[i]) as u32 <= 57,
    decreases n,
{
    if n >= 10 {
        lemma_dec_str_digits(n / 10);
        assert forall|i: int| 0 <= i < dec_str(n).len() implies 48 <= (#[trigger] dec_str(n)[i]) as u32
            <= 57 by {
            if i < dec_str(n / 10).len() {
                assert(dec_str(n)[i] == dec_str(n / 10)[i]);
            }
        }
    }
}

/// Appends one character to a string (`String::push`).
#[verifier::external_body]
pub(crate) fn push_char(s: &mut String, c: char)
    ensures
        final(s)@ == old(s)@.push(c),
{
    s.push(c)
}

/// Appends the contents of `t` to a string.
pub(crate) fn push_str(s: &mut String, t: &str)
    ensures
        final(s)@ == old(s)@ + t@,
{
    s.append(t)
}

/// The digit character for `d < 10`.
pub fn digit(d: u64) -> (c: char)
    requires
        d < 10,
    ensures
        c == digit_char(d as nat),
{
    let b: u8 = 48u8 + (d as u8);
    b as char
}

/// Appends the decimal digits of `n`.
pub fn push_dec(s: &mut String, n: u64)
    ensures
        final(s)@ == old(s)@ + dec_str(n as nat),
    decreases n,
{
    if n >= 10 {
        push_dec(s, n / 10);
    }
    push_char(s, digit(n % 10));
    proof {
        assert(dec_str(n as nat) == if n < 10 { seq![digit_char(n as nat)] } else {
            dec_str((n / 10) as nat).push(digit_char((n % 10) as nat))
        });
    }
}

/// Appends `c` `n` times.
pub fn push_repeat(s: &mut String, c: char, n: usize)
    ensures
        final(s)@ == old(s)@ + repeat_char(c, n as nat),
{
    let ghost start = s@;
    let mut i: usize = 0;
    while i < n
        invariant
            i <= n,
            s@ == start + repeat_char(c, i as nat),
        decreases n - i,
    {
        push_char(s, c);
        i = i + 1;
        assert(s@ =~= start + repeat_char(c, i as nat));
    }
}

/// Appends the decimal rendering of a signed integer.
pub fn push_int(s: &mut String, i: i64)
    ensures
        final(s)@ == old(s)@ + int_str(i as int),
{
    if i < 0 {
        push_char(s, '-');
        let m: u64 = (0i128 - (i as i128)) as u64;
        push_dec(s, m);
        assert(s@ =~= old(s)@ + int_str(i as int));
    } else {
        push_dec(s, i as u64);
    }
}


/// Number of decimal digits of `n`.
pub fn dec_len(n: u64) -> (r: usize)
    ensures
        r as nat == dec_str(n as nat).len(),
        1 <= r <= 20,
    decreases n,
{
    if n < 10 {
        1
    } else {
        let k = dec_len(n / 10);
        proof {
            assert(dec_str(n as nat) == dec_str((n / 10) as nat).push(digit_char((n % 10) as nat)));
            if n / 10 < 10 {
                assert(k == 1);
            }
            reveal_with_fuel(pow10, 21);
            assert(pow10(20) == 100_000_000_000_000_000_000nat);
            lemma_dec_len_small_k(n as nat, 20);
        }
        k + 1
    }
}

proof fn lemma_dec_len_small_k(n: nat, k: nat)
    requires
        k >= 1,
        n < pow10(k),
    ensures
        dec_str(n).len() <= k,
    decreases k,
{
    if n >= 10 {
        assert(k >= 2) by {
            if k == 1 {
                assert(pow10(1) == 10 * pow10(0));
            }
        }
        assert(pow10(k) == 10 * pow10((k - 1) as nat));
        lemma_dec_len_small_k(n / 10, (k - 1) as nat);
    }
}

pub open spec fn pow10(k: nat) -> nat
    decreases k,
{
    if k == 0 {
        1
    } else {
        10 * pow10((k - 1) as nat)
    }
}

/// Appends `i` zero-padded to `w` characters (the sign counts), as `{:0w}`.
pub fn push_zero_padded(s: &mut String, i: i64, w: usize)
    ensures
        final(s)@ == old(s)@ + int_str_zero_padded(i as int, w as nat),
{
    let neg = i < 0;
    let m: u64 = if neg { (0i128 - (i as i128)) as u64 } else { i as u64 };
    let len = dec_len(m);
    let sign_len: usize = if neg { 1 } else { 0 };
    if neg {
        push_char(s, '-');
    }
    let fill: usize = if sign_len + len < w { w - sign_len - len } else { 0 };
    push_repeat(s, '0', fill);
    push_dec(s, m);
    proof {
        let sign: Seq<char> = if neg { seq!['-'] } else { seq![] };
        assert(sign.len() == sign_len);
        assert(final(s)@ =~= old(s)@ + int_str_zero_padded(i as int, w as nat));
    }
}
/// The characters of `s`, in order.
pub fn chars_vec(s: &str) -> (r: Vec<char>)
    ensures
        r@ == s@,
{
    let mut out: Vec<char> = Vec::new();
    for c in it: s.chars()
        invariant
            it.seq() == s@,
            out@ == s@.take(it.index() as int),
    {
        proof {
            assert(s@.take(it.index() + 1) =~= s@.take(it.index() as int).push(c));
        }
        out.push(c);
    }
    proof {
        assert(s@.take(s@.len() as int) =~= s@);
    }
    out
}

/// Whether two character vectors are equal.
pub fn chars_eq(a: &Vec<char>, b: &Vec<char>) -> (r: bool)
    ensures
        r == (a@ == b@),
{
    if a.len() != b.len() {
        return false;
    }
    let mut i: usize = 0;
    while i < a.len()
        invariant
            a.len() == b.len(),
            i <= a.len(),
            forall|k: int| 0 <= k < i ==> a@[k] == b@[k],
        decreases a.len() - i,
    {
        if a[i] != b[i] {
            return false;
        }
        i = i + 1;
    }
    proof {
        assert(a@ =~= b@);
    }
    true
}

/// Whether two strings hold the same characters.
pub fn str_eq(a: &str, b: &str) -> (r: bool)
    ensures
        r == (a@ == b@),
{
    let av = chars_vec(a);
    let bv = chars_vec(b);
    chars_eq(&av, &bv)
}

} // verus!
