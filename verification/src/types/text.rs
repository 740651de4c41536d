//! Human-readable text of numbers: decimal integers, zero-padded digit
//! strings and fixed-point amounts with 18 decimals.
use vstd::prelude::*;
use vstd::string::*;

use crate::types::primitives::SCALE;

verus! {

/// The character of a decimal digit.
pub open spec fn digit_char(d: int) -> char {
    (48 + d) as char
}

/// The decimal digits of `n`, most significant first, without leading zeros
/// (`"0"` for zero).
pub open spec fn decimal(n: nat) -> Seq<char>
    decreases n,
{
    if n < 10 {
        seq![digit_char(n as int)]
    } else {
        decimal(n / 10).push(digit_char((n % 10) as int))
    }
}

/// The last `w` decimal digits of `n`, most significant first, padded with
/// leading zeros.
pub open spec fn padded(n: nat, w: nat) -> Seq<char>
    decreases w,
{
    if w == 0 {
        Seq::empty()
    } else {
        padded(n / 10, (w - 1) as nat).push(digit_char((n % 10) as int))
    }
}

/// The text without its trailing `'0'` characters.
pub open spec fn trim_zeros(s: Seq<char>) -> Seq<char>
    decreases s.len(),
{
    if s.len() > 0 && s.last() == '0' {
        trim_zeros(s.drop_last())
    } else {
        s
    }
}

/// Ten to the power `k`.
pub open spec fn pow10(k: nat) -> nat
    decreases k,
{
    if k == 0 {
        1
    } else {
        10 * pow10((k - 1) as nat)
    }
}

/// The text of a fixed-point amount with 18 decimals: the whole part, a
/// point, and the 18-digit fraction without trailing zeros (`"0"` when the
/// fraction is zero).
pub open spec fn fixed_point(v: nat) -> Seq<char> {
    let whole = v / (SCALE as nat);
    let frac = v % (SCALE as nat);
    if frac == 0 {
        decimal(whole) + seq!['.', '0']
    } else {
        decimal(whole) + seq!['.'] + trim_zeros(padded(frac, 18))
    }
}

/// The text of a signed integer: a minus sign before a negative one.
pub open spec fn signed_decimal(i: int) -> Seq<char> {
    if i < 0 {
        seq!['-'] + decimal((-i) as nat)
    } else {
        decimal(i as nat)
    }
}

/// The one-character text of a decimal digit.
pub fn digit_str(d: u8) -> (r: &'static str)
    requires
        d < 10,
    ensures
        r@ == seq![digit_char(d as int)],
{
    match d {
        0 => {
            proof { reveal_strlit("0"); }
            "0"
        },
        1 => {
            proof { reveal_strlit("1"); }
            "1"
        },
        2 => {
            proof { reveal_strlit("2"); }
            "2"
        },
        3 => {
            proof { reveal_strlit("3"); }
            "3"
        },
        4 => {
            proof { reveal_strlit("4"); }
            "4"
        },
        5 => {
            proof { reveal_strlit("5"); }
            "5"
        },
        6 => {
            proof { reveal_strlit("6"); }
            "6"
        },
        7 => {
            proof { reveal_strlit("7"); }
            "7"
        },
        8 => {
            proof { reveal_strlit("8"); }
            "8"
        },
        _ => {
            proof { reveal_strlit("9"); }
            "9"
        },
    }
}

/// Appends the decimal digits of `n`.
pub fn push_decimal(s: &mut String, n: u128)
    ensures
        final(s)@ == old(s)@ + decimal(n as nat),
    decreases n,
{
    if n >= 10 {
        push_decimal(s, n / 10);
    }
    s.append(digit_str((n % 10) as u8));
    assert(s@ =~= old(s)@ + decimal(n as nat));
}

/// Appends the last `w` decimal digits of `n`, padded with leading zeros.
pub fn push_padded(s: &mut String, n: u128, w: u32)
    ensures
        final(s)@ == old(s)@ + padded(n as nat, w as nat),
    decreases w,
{
    if w == 0 {
        assert(s@ =~= old(s)@ + padded(n as nat, 0));
        return;
    }
    push_padded(s, n / 10, w - 1);
    s.append(digit_str((n % 10) as u8));
    assert(s@ =~= old(s)@ + padded(n as nat, w as nat));
}

/// Appends the text of a signed integer.
pub fn push_signed(s: &mut String, i: i32)
    ensures
        final(s)@ == old(s)@ + signed_decimal(i as int),
{
    if i < 0 {
        proof { reveal_strlit("-"); }
        s.append("-");
        let magnitude: u128 = (0i64 - i as i64) as u128;
        push_decimal(s, magnitude);
        assert(s@ =~= old(s)@ + signed_decimal(i as int));
    } else {
        push_decimal(s, i as u128);
    }
}

/// Appends the text of a fixed-point amount with 18 decimals.
pub fn push_fixed_point(s: &mut String, v: u128)
    ensures
        final(s)@ == old(s)@ + fixed_point(v as nat),
{
    let whole = v / SCALE;
    let frac = v % SCALE;
    push_decimal(s, whole);
    if frac == 0 {
        proof { reveal_strlit(".0"); }
        s.append(".0");
        assert(s@ =~= old(s)@ + fixed_point(v as nat));
        return;
    }
    proof { reveal_strlit("."); }
    s.append(".");
    let ghost before = s@;
    let mut f: u128 = frac;
    let mut w: u32 = 18;
    proof {
        reveal_with_fuel(pow10, 19);
        assert(pow10(18) == SCALE);
    }
    while f % 10 == 0
        invariant
            0 < f,
            1 <= w <= 18,
            f < pow10(w as nat),
            trim_zeros(padded(frac as nat, 18)) == trim_zeros(padded(f as nat, w as nat)),
        decreases w,
    {
        proof {
            let p = pow10((w - 1) as nat);
            assert(pow10(w as nat) == 10 * p);
            assert(f >= 10);
            assert(f / 10 < p) by (nonlinear_arith)
                requires
                    f < 10 * p,
                    f >= 10,
            ;
            assert(w >= 2) by {
                if w == 1 {
                    assert(p == 1);
                }
            }
            assert(padded(f as nat, w as nat) == padded((f / 10) as nat, (w - 1) as nat).push('0'));
            assert(padded(f as nat, w as nat).drop_last() =~= padded((f / 10) as nat, (w - 1) as nat));
        }
        f = f / 10;
        w = w - 1;
    }
    proof {
        assert(padded(f as nat, w as nat).last() == digit_char((f % 10) as int));
    }
    push_padded(s, f, w);
    assert(s@ =~= old(s)@ + fixed_point(v as nat));
}

} // verus!
