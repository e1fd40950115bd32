//! Human-readable byte counts (B / KB / MB / GB / TB).

use vstd::prelude::*;
use crate::text::{dec_str, digit, digit_char, push_char, push_dec};

verus! {

/// `num / den` rounded to the nearest integer, ties to the even neighbour.
pub open spec fn round_half_even(num: nat, den: nat) -> nat {
    let q = num / den;
    let r = num % den;
    if 2 * r > den || (2 * r == den && q % 2 == 1) {
        q + 1
    } else {
        q
    }
}

/// 2^53: below it every integer is a double.
pub open spec fn f64_exact_limit() -> nat {
    0x20_0000_0000_0000
}

/// Spacing of doubles around `x` (1 below 2^53, doubling with each binade).
pub open spec fn f64_spacing(x: nat) -> nat
    decreases x,
{
    if x < f64_exact_limit() {
        1
    } else {
        2 * f64_spacing(x / 2)
    }
}

/// The double nearest to `x` (ties to even), as `x as f64` gives it.
pub open spec fn nearest_double(x: nat) -> nat {
    round_half_even(x, f64_spacing(x)) * f64_spacing(x)
}

/// `v = f / den` printed with one decimal, as `{:.1}` prints a double.
pub open spec fn one_decimal(f: nat, den: nat) -> Seq<char> {
    let n = round_half_even(f * 10, den);
    dec_str(n / 10) + seq!['.', digit_char(n % 10)]
}

/// `v = f / den` printed in a unit: one decimal below 10, none from 10 on.
pub open spec fn in_unit(f: nat, den: nat) -> Seq<char> {
    if f < 10 * den {
        one_decimal(f, den)
    } else {
        dec_str(round_half_even(f, den))
    }
}

/// The text `format_size` gives: whole bytes below 1024, otherwise the size
/// (as a double) in the first of KB, MB, GB, TB where it is below 1024, and
/// in TB with one decimal beyond that.
pub open spec fn size_text(size: u64) -> Seq<char> {
    if size < 1024 {
        dec_str(size as nat) + seq!['B']
    } else {
        let f = nearest_double(size as nat);
        if f < 0x10_0000 {
            in_unit(f, 0x400) + seq!['K', 'B']
        } else if f < 0x4000_0000 {
            in_unit(f, 0x10_0000) + seq!['M', 'B']
        } else if f < 0x100_0000_0000 {
            in_unit(f, 0x4000_0000) + seq!['G', 'B']
        } else if f < 0x4_0000_0000_0000 {
            in_unit(f, 0x100_0000_0000) + seq!['T', 'B']
        } else {
            one_decimal(f, 0x100_0000_0000) + seq!['T', 'B']
        }
    }
}

proof fn lemma_spacing_bounds(x: nat)
    ensures
        f64_spacing(x) >= 1,
        x >= f64_exact_limit() ==> f64_spacing(x) * (f64_exact_limit() / 2) <= x,
        x < f64_exact_limit() ==> f64_spacing(x) == 1,
    decreases x,
{
    if x >= f64_exact_limit() {
        lemma_spacing_bounds(x / 2);
        assert(f64_spacing(x) == 2 * f64_spacing(x / 2));
        let h = f64_exact_limit() / 2;
        if x / 2 >= f64_exact_limit() {
            assert(f64_spacing(x / 2) * h <= x / 2);
            assert(2 * f64_spacing(x / 2) * h == 2 * (f64_spacing(x / 2) * h)) by (nonlinear_arith);
        }
    }
}

fn round_half_even_exec(num: u128, den: u128) -> (r: u128)
    requires
        den > 0,
        den < 0x1_0000_0000_0000_0000_0000_0000,
        num < 0x1_0000_0000_0000_0000_0000_0000,
    ensures
        r as nat == round_half_even(num as nat, den as nat),
{
    let q = num / den;
    let rem = num % den;
    if 2 * rem > den || (2 * rem == den && q % 2 == 1) {
        q + 1
    } else {
        q
    }
}

/// The double nearest to `x`, as an integer.
fn nearest_double_exec(x: u64) -> (f: u128)
    ensures
        f as nat == nearest_double(x as nat),
        f <= 0x1_0000_0000_0000_1000,
        x >= 1024 ==> f >= 1024,
{
    let mut y: u64 = x;
    let mut den: u128 = 1;
    proof {
        lemma_spacing_bounds(x as nat);
        if x >= f64_exact_limit() {
            assert(f64_spacing(x as nat) * 0x10_0000_0000_0000 < 0x1000 * 0x10_0000_0000_0000);
        }
    }
    while y >= 0x20_0000_0000_0000
        invariant
            y as nat == x as nat / den as nat,
            f64_spacing(x as nat) == den * f64_spacing(y as nat),
            1 <= den,
            den * f64_spacing(y as nat) <= 0x1000,
        decreases y,
    {
        proof {
            lemma_spacing_bounds(y as nat);
            vstd::arithmetic::div_mod::lemma_div_denominator(x as int, den as int, 2);
            assert(f64_spacing(y as nat) == 2 * f64_spacing((y / 2) as nat));
            assert(den * (2 * f64_spacing((y / 2) as nat)) == (den * 2) * f64_spacing((y / 2) as nat)) by (nonlinear_arith);
            lemma_spacing_bounds((y / 2) as nat);
            assert((den * 2) * 1 <= (den * 2) * f64_spacing((y / 2) as nat)) by (nonlinear_arith)
                requires f64_spacing((y / 2) as nat) >= 1, den >= 1;
        }
        y = y / 2;
        den = den * 2;
    }
    assert(f64_spacing(y as nat) == 1);
    proof {
        lemma_spacing_bounds(y as nat);
        assert(den * 1 == den);
        assert(den == f64_spacing(x as nat));
        assert(den * (x as nat / den as nat) + x as nat % den as nat == x) by (nonlinear_arith)
            requires den >= 1;
    }
    let q = round_half_even_exec(x as u128, den);
    proof {
        assert(q >= y && q <= y + 1);
        assert(q * den <= y * den + den) by (nonlinear_arith)
            requires q <= y + 1, den >= 1;
        assert(y * den <= x) by (nonlinear_arith)
            requires y == x as nat / den as nat, den >= 1;
        assert(q * den >= y * den) by (nonlinear_arith)
            requires q >= y, den >= 1;
        if x >= 1024 {
            assert(y * den + den > x) by (nonlinear_arith)
                requires y == x as nat / den as nat, den >= 1;
            if den == 1 {
                assert(q * den >= 1024);
            } else {
                assert(x >= f64_exact_limit());
                assert(q * den >= q) by (nonlinear_arith)
                    requires den >= 1;
            }
        }
    }
    q * den
}


/// Appends `f / den` with one decimal.
fn push_one_decimal(s: &mut String, f: u128, den: u128)
    requires
        f <= 0x2_0000_0000_0000_0000,
        0x400 <= den <= 0x100_0000_0000,
    ensures
        final(s)@ == old(s)@ + one_decimal(f as nat, den as nat),
{
    let n = round_half_even_exec(f * 10, den);
    proof {
        let t: int = f as int * 10;
        assert(n <= t / (den as int) + 1);
        assert(t / (den as int) <= t / 0x400) by {
            vstd::arithmetic::div_mod::lemma_div_is_ordered_by_denominator(t, 0x400, den as int);
        }
    }
    push_dec(s, (n / 10) as u64);
    push_char(s, '.');
    push_char(s, digit((n % 10) as u64));
    assert(final(s)@ =~= old(s)@ + one_decimal(f as nat, den as nat));
}

/// Appends `f / den` in a unit (one decimal below 10, none from 10 on).
fn push_in_unit(s: &mut String, f: u128, den: u128)
    requires
        f <= 0x2_0000_0000_0000_0000,
        0x400 <= den <= 0x100_0000_0000,
    ensures
        final(s)@ == old(s)@ + in_unit(f as nat, den as nat),
{
    if f < 10 * den {
        push_one_decimal(s, f, den);
    } else {
        let n = round_half_even_exec(f, den);
        proof {
            assert(n <= f as int / den as int + 1);
            assert(f as int / den as int <= f as int / 0x400) by {
                vstd::arithmetic::div_mod::lemma_div_is_ordered_by_denominator(f as int, 0x400, den as int);
            }
        }
        push_dec(s, n as u64);
    }
}

/// Formats a byte count for people: `"512B"`, `"1.5KB"`, `"10KB"`, `"1.0MB"`,
/// ... choosing B / KB / MB / GB / TB adaptively, with one decimal below 10.
pub fn format_size(size: u64) -> (r: String)
    ensures
        r@ == size_text(size),
{
    let mut s = String::new();
    if size < 1024 {
        push_dec(&mut s, size);
        push_char(&mut s, 'B');
        return s;
    }
    let f = nearest_double_exec(size);
    if f < 0x10_0000 {
        push_in_unit(&mut s, f, 0x400);
        push_char(&mut s, 'K');
    } else if f < 0x4000_0000 {
        push_in_unit(&mut s, f, 0x10_0000);
        push_char(&mut s, 'M');
    } else if f < 0x100_0000_0000 {
        push_in_unit(&mut s, f, 0x4000_0000);
        push_char(&mut s, 'G');
    } else if f < 0x4_0000_0000_0000 {
        push_in_unit(&mut s, f, 0x100_0000_0000);
        push_char(&mut s, 'T');
    } else {
        push_one_decimal(&mut s, f, 0x100_0000_0000);
        push_char(&mut s, 'T');
    }
    push_char(&mut s, 'B');
    assert(s@ =~= size_text(size));
    s
}
} // verus!
