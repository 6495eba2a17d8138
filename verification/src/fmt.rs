//! Decimal rendering of integers into strings.

use vstd::prelude::*;

verus! {

/// The decimal digits of `n` (no sign, no leading zeros; "0" for zero).
pub open spec fn decimal(n: nat) -> Seq<char>
    decreases n,
{
    if n < 10 {
        seq![digit_char(n)]
    } else {
        decimal(n / 10).push(digit_char(n % 10))
    }
}

/// The character for a digit value 0..9.
pub open spec fn digit_char(d: nat) -> char {
    ((d + 48) as u8) as char
}

/// `s` left-padded with '0' to at least `w` characters.
pub open spec fn zero_pad(s: Seq<char>, w: nat) -> Seq<char> {
    if s.len() >= w {
        s
    } else {
        Seq::new((w - s.len()) as nat, |_i: int| '0') + s
    }
}

/// An integer rendered with zero padding to width `w`, the sign counted in the width.
pub open spec fn padded_int(v: int, w: nat) -> Seq<char> {
    if v < 0 {
        seq!['-'] + zero_pad(decimal((-v) as nat), if w >= 1 { (w - 1) as nat } else { 0 })
    } else {
        zero_pad(decimal(v as nat), w)
    }
}

/// The one-character string of a digit.
fn digit_str(d: u64) -> (s: &'static str)
    requires
        d < 10,
    ensures
        s@ == seq![digit_char(d as nat)],
{
    proof {
        reveal_strlit("0");
        reveal_strlit("1");
        reveal_strlit("2");
        reveal_strlit("3");
        reveal_strlit("4");
        reveal_strlit("5");
        reveal_strlit("6");
        reveal_strlit("7");
        reveal_strlit("8");
        reveal_strlit("9");
    }
    if d == 0 {
        "0"
    } else if d == 1 {
        "1"
    } else if d == 2 {
        "2"
    } else if d == 3 {
        "3"
    } else if d == 4 {
        "4"
    } else if d == 5 {
        "5"
    } else if d == 6 {
        "6"
    } else if d == 7 {
        "7"
    } else if d == 8 {
        "8"
    } else {
        "9"
    }
}

pub proof fn lemma_decimal_len(n: nat)
    ensures
        decimal(n).len() >= 1,
        n < 10 ==> decimal(n).len() == 1,
    decreases n,
{
    if n >= 10 {
        lemma_decimal_len(n / 10);
    }
}

/// Append the decimal digits of `n` to `out`.
pub fn push_decimal(out: &mut String, n: u64)
    ensures
        final(out)@ == old(out)@ + decimal(n as nat),
    decreases n,
{
    if n < 10 {
        out.append(digit_str(n));
    } else {
        push_decimal(out, n / 10);
        out.append(digit_str(n % 10));
        assert(decimal(n as nat) == decimal((n / 10) as nat).push(digit_char((n % 10) as nat)));
    }
}

/// The decimal digits of `n` as a string.
pub fn decimal_string(n: u64) -> (s: String)
    ensures
        s@ == decimal(n as nat),
{
    let mut s = String::new();
    push_decimal(&mut s, n);
    assert(s@ =~= decimal(n as nat));
    s
}

/// Append `n` zero-padded to width `w`.
pub fn push_zero_padded(out: &mut String, n: u64, w: usize)
    ensures
        final(out)@ == old(out)@ + zero_pad(decimal(n as nat), w as nat),
{
    let digits = decimal_string(n);
    let len = digits.unicode_len();
    let ghost start = out@;
    if len < w {
        let mut k: usize = 0;
        let pad = (w - len) as usize;
        proof {
            reveal_strlit("0");
        }
        while k < pad
            invariant
                0 <= k <= pad,
                pad == w - decimal(n as nat).len(),
                out@ == start + Seq::new(k as nat, |_i: int| '0'),
            decreases pad - k,
        {
            proof {
                reveal_strlit("0");
            }
            out.append("0");
            k += 1;
            assert(out@ =~= start + Seq::new(k as nat, |_i: int| '0'));
        }
    }
    out.append(digits.as_str());
    assert(out@ =~= start + zero_pad(decimal(n as nat), w as nat));
}

/// Append a signed integer zero-padded to width `w` (the sign counts toward the width).
pub fn push_padded_int(out: &mut String, v: i64, w: usize)
    ensures
        final(out)@ == old(out)@ + padded_int(v as int, w as nat),
{
    let ghost start = out@;
    if v < 0 {
        proof {
            reveal_strlit("-");
        }
        out.append("-");
        let mag: u64 = if v == i64::MIN { 9223372036854775808u64 } else { (-v) as u64 };
        let w1: usize = if w >= 1 { w - 1 } else { 0 };
        push_zero_padded(out, mag, w1);
        assert(out@ =~= start + padded_int(v as int, w as nat));
    } else {
        push_zero_padded(out, v as u64, w);
    }
}

} // verus!
