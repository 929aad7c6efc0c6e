//! Decimal rendering of integers and of fixed-point values.
use vstd::prelude::*;
use vstd::string::*;

verus! {

/// The decimal digit `d`.
pub open spec fn digit_char(d: nat) -> char {
    if d == 0 {
        '0'
    } else if d == 1 {
        '1'
    } else if d == 2 {
        '2'
    } else if d == 3 {
        '3'
    } else if d == 4 {
        '4'
    } else if d == 5 {
        '5'
    } else if d == 6 {
        '6'
    } else if d == 7 {
        '7'
    } else if d == 8 {
        '8'
    } else {
        '9'
    }
}

/// `n` written in decimal, without leading zeros.
pub open spec fn digits(n: nat) -> Seq<char>
    decreases n,
{
    if n < 10 {
        seq![digit_char(n)]
    } else {
        digits(n / 10).push(digit_char(n % 10))
    }
}

pub open spec fn pow10(d: nat) -> nat
    decreases d,
{
    if d == 0 {
        1
    } else {
        10 * pow10((d - 1) as nat)
    }
}

/// `k` zero digits.
pub open spec fn zeros(k: nat) -> Seq<char> {
    Seq::new(k, |i: int| '0')
}

/// `v / 10^d` written with `d` decimals: the integer part, a point, and the
/// remainder padded with leading zeros to `d` digits.
pub open spec fn fixed(v: nat, d: nat) -> Seq<char> {
    let frac = digits(v % pow10(d));
    digits(v / pow10(d)) + seq!['.'] + zeros((d - frac.len()) as nat) + frac
}

/// Relies on the standard `Display` of `u128` (through `to_string`): decimal
/// digits, no sign, no leading zeros.
#[verifier::external_body]
fn decimal(n: u128) -> (r: String)
    ensures
        r@ == digits(n as nat),
{
    n.to_string()
}

proof fn lemma_digits_len(n: nat, d: nat)
    requires
        n < pow10(d),
        d >= 1,
    ensures
        digits(n).len() <= d,
    decreases d,
{
    if n >= 10 {
        assert(n / 10 < pow10((d - 1) as nat));
        lemma_digits_len(n / 10, (d - 1) as nat);
    }
}

/// `v / 10^d` with `d` decimals.
pub fn fixed_point(v: u128, d: usize) -> (r: String)
    requires
        1 <= d <= 4,
    ensures
        r@ == fixed(v as nat, d as nat),
{
    let mut scale: u128 = 1;
    let mut i: usize = 0;
    while i < d
        invariant
            i <= d <= 4,
            scale == pow10(i as nat),
            1 <= scale <= 10000,
        decreases d - i,
    {
        assert(pow10((i + 1) as nat) == 10 * pow10(i as nat));
        assert(i < 4 ==> pow10(i as nat) <= 1000) by {
            reveal_with_fuel(pow10, 4);
        }
        scale = scale * 10;
        i += 1;
    }
    let whole: String = decimal(v / scale);
    let frac: String = decimal(v % scale);
    proof {
        lemma_digits_len((v % scale) as nat, d as nat);
    }
    let mut out: String = whole;
    proof {
        reveal_strlit(".");
        reveal_strlit("0");
    }
    out.append(".");
    let width: usize = frac.as_str().unicode_len();
    let mut pad: usize = width;
    while pad < d
        invariant
            width <= pad <= d,
            out@ == digits((v / scale) as nat) + seq!['.'] + zeros((pad - width) as nat),
            frac@ == digits((v % scale) as nat),
            width == frac@.len(),
            scale == pow10(d as nat),
        decreases d - pad,
    {
        proof {
            reveal_strlit("0");
        }
        out.append("0");
        assert(out@ =~= digits((v / scale) as nat) + seq!['.'] + zeros((pad + 1 - width) as nat));
        pad += 1;
    }
    out.append(frac.as_str());
    out
}

/// `n` in decimal.
pub fn decimal_u64(n: u64) -> (r: String)
    ensures
        r@ == digits(n as nat),
{
    decimal(n as u128)
}

} // verus!
