//! Numbers and points as text, for the reports that a client prints.
//! Fixed-point values are shown as decimal fractions with two places.

use vstd::prelude::*;
use vstd::string::*;

use crate::fixed::magnitude;
use crate::fixed::magnitude_of;
use crate::types::Vector2;

verus! {

/// The character of the decimal digit `d`.
pub open spec fn digit_char(d: int) -> char {
    "0123456789"@[d]
}

/// The decimal digits of `n`, without leading zeros.
pub open spec fn decimal(n: nat) -> Seq<char>
    decreases n,
{
    if n < 10 {
        seq![digit_char(n as int)]
    } else {
        decimal(n / 10).push(digit_char((n % 10) as int))
    }
}

/// The hundredths of a world unit in the fixed-point value `n`, rounded to
/// the nearest, halves away from zero, and without the sign.
pub open spec fn hundredths(n: int) -> nat {
    ((magnitude(n) + 5000) / 10000) as nat
}

/// A fixed-point value as a decimal fraction with two places: a minus sign
/// for a negative value, the whole units, a point, and two digits.
pub open spec fn fixed_text(n: int) -> Seq<char> {
    let h = hundredths(n);
    let sign = if n < 0 {
        "-"@
    } else {
        ""@
    };
    sign + decimal(h / 100) + "."@ + seq![
        digit_char(((h % 100) / 10) as int),
        digit_char((h % 10) as int),
    ]
}

/// A point as `(x, y)`, each coordinate with two places.
pub open spec fn point_text(p: Vector2) -> Seq<char> {
    "("@ + fixed_text(p.x as int) + ", "@ + fixed_text(p.y as int) + ")"@
}

/// The text of one decimal digit.
fn digit_text(d: u64) -> (text: &'static str)
    requires
        d < 10,
    ensures
        text@ == seq![digit_char(d as int)],
{
    proof {
        reveal_strlit("0123456789");
    }
    let digits: &'static str = "0123456789";
    let text = digits.substring_char(d as usize, d as usize + 1);
    assert(text@ =~= seq![digit_char(d as int)]);
    text
}

/// The decimal digits of `n`.
pub fn decimal_text(n: u64) -> (text: String)
    ensures
        text@ == decimal(n as nat),
    decreases n,
{
    if n < 10 {
        String::from_str(digit_text(n))
    } else {
        let front = decimal_text(n / 10);
        let text = front.concat(digit_text(n % 10));
        assert(text@ =~= decimal((n / 10) as nat).push(digit_char((n % 10) as int)));
        text
    }
}

/// Appends a fixed-point value as a decimal fraction with two places.
pub fn append_fixed(text: &mut String, n: i64)
    ensures
        final(text)@ == old(text)@ + fixed_text(n as int),
{
    let h: u64 = ((magnitude_of(n) + 5000) / 10000) as u64;
    let ghost start = text@;
    if n < 0 {
        text.append("-");
    } else {
        text.append("");
    }
    let whole = decimal_text(h / 100);
    text.append(whole.as_str());
    text.append(".");
    text.append(digit_text((h % 100) / 10));
    text.append(digit_text(h % 10));
    assert(text@ =~= start + fixed_text(n as int));
}

/// Appends a point as `(x, y)`.
pub fn append_point(text: &mut String, p: Vector2)
    ensures
        final(text)@ == old(text)@ + point_text(p),
{
    let ghost start = text@;
    text.append("(");
    append_fixed(text, p.x);
    text.append(", ");
    append_fixed(text, p.y);
    text.append(")");
    assert(text@ =~= start + point_text(p));
}

} // verus!
