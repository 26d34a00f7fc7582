//! Decimal text of non-negative numbers, including fixed-point values with
//! three decimal places.
use vstd::prelude::*;

verus! {

/// The character of a decimal digit.
pub open spec fn digit_char(d: nat) -> char {
    if d == 0 {
        '0'
    } else if d == 1 {
        '1'
    } else if d == 2 {
        '2'
    } else if d == 3 {
        '3'
    } else if d == 4 {
        '4'
    } else if d == 5 {
        '5'
    } else if d == 6 {
        '6'
    } else if d == 7 {
        '7'
    } else if d == 8 {
        '8'
    } else {
        '9'
    }
}

/// Decimal digits of `n`, most significant first, without leading zeros.
pub open spec fn decimal(n: nat) -> Seq<char>
    decreases n,
{
    if n < 10 {
        seq![digit_char(n)]
    } else {
        decimal(n / 10).push(digit_char(n % 10))
    }
}

/// The fractional digits of `f` thousandths (0 < f < 1000), trailing zeros dropped.
pub open spec fn thousandths(f: nat) -> Seq<char> {
    if f % 100 == 0 {
        seq![digit_char(f / 100)]
    } else if f % 10 == 0 {
        seq![digit_char(f / 100), digit_char((f / 10) % 10)]
    } else {
        seq![digit_char(f / 100), digit_char((f / 10) % 10), digit_char(f % 10)]
    }
}

/// Text of the value `m / 1000`: its integer part, then, if the value is not
/// whole, a point and the fractional digits without trailing zeros.
pub open spec fn milli_text(m: nat) -> Seq<char> {
    if m % 1000 == 0 {
        decimal(m / 1000)
    } else {
        decimal(m / 1000) + "."@ + thousandths(m % 1000)
    }
}

/// Relies on the `Display` impl of `u128` (through `ToString`): it writes the
/// number in decimal, without sign or leading zeros.
#[verifier::external_body]
pub(crate) fn u128_text(n: u128) -> (r: String)
    ensures
        r@ == decimal(n as nat),
{
    n.to_string()
}

/// Text of the fixed-point value `m / 1000`.
pub fn milli_string(m: u128) -> (r: String)
    ensures
        r@ == milli_text(m as nat),
{
    let whole = u128_text(m / 1000);
    let f = m % 1000;
    if f == 0 {
        whole
    } else {
        let mut r = whole;
        r.append(".");
        let d0 = u128_text(f / 100);
        let d1 = u128_text((f / 10) % 10);
        let d2 = u128_text(f % 10);
        proof {
            assert(decimal((f / 100) as nat) == seq![digit_char((f / 100) as nat)]);
            assert(decimal(((f / 10) % 10) as nat) == seq![digit_char(((f / 10) % 10) as nat)]);
            assert(decimal((f % 10) as nat) == seq![digit_char((f % 10) as nat)]);
        }
        let ghost pre = r@;
        r.append(d0.as_str());
        if f % 100 != 0 {
            r.append(d1.as_str());
            if f % 10 != 0 {
                r.append(d2.as_str());
            }
        }
        proof {
            assert(r@ =~= pre + thousandths((f % 1000) as nat));
        }
        r
    }
}

} // verus!
