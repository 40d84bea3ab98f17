//! Text helpers: decimal rendering of integers and concatenation of
//! string pieces, with their exact character sequences as contracts.
use vstd::prelude::*;

verus! {

/// The ASCII character of a decimal digit `d` (`0 <= d < 10`).
pub open spec fn digit_char(d: nat) -> char {
    (d + 48) as char
}

/// The decimal rendering of `n`, without sign or leading zeros.
pub open spec fn decimal(n: nat) -> Seq<char>
    decreases n,
{
    if n < 10 {
        seq![digit_char(n)]
    } else {
        decimal(n / 10).push(digit_char(n % 10))
    }
}

/// Renders `n` in decimal through `u64`'s `ToString` (its `Display`,
/// which std documents as the plain decimal digits of the value).
#[verifier::external_body]
pub(crate) fn decimal_text(n: u64) -> (s: String)
    ensures
        s@ == decimal(n as nat),
{
    n.to_string()
}

/// `a`, then `b`.
pub fn join2(a: &str, b: &str) -> (s: String)
    ensures
        s@ == a@ + b@,
{
    let mut s = String::from_str(a);
    s.append(b);
    s
}

/// `a`, then `b`, then `c`.
pub fn join3(a: &str, b: &str, c: &str) -> (s: String)
    ensures
        s@ == a@ + b@ + c@,
{
    let mut s = String::from_str(a);
    s.append(b);
    s.append(c);
    s
}

/// `prefix`, the decimal rendering of `n`, then `suffix`.
pub fn with_number(prefix: &str, n: u64, suffix: &str) -> (s: String)
    ensures
        s@ == prefix@ + decimal(n as nat) + suffix@,
{
    let digits = decimal_text(n);
    join3(prefix, digits.as_str(), suffix)
}

/// `a`, the decimal rendering of `n`, `b`, the decimal rendering of `m`, then `c`.
pub fn with_two_numbers(a: &str, n: u64, b: &str, m: u64, c: &str) -> (s: String)
    ensures
        s@ == a@ + decimal(n as nat) + b@ + decimal(m as nat) + c@,
{
    let first = decimal_text(n);
    let second = decimal_text(m);
    let mut s = String::from_str(a);
    s.append(first.as_str());
    s.append(b);
    s.append(second.as_str());
    s.append(c);
    s
}

/// `prefix`, then the decimal rendering of `n`.
pub fn ends_with_number(prefix: &str, n: u64) -> (s: String)
    ensures
        s@ == prefix@ + decimal(n as nat),
{
    let digits = decimal_text(n);
    join2(prefix, digits.as_str())
}

/// `a`, the decimal rendering of `n`, `b`, then the decimal rendering of `m`.
pub fn number_pair(a: &str, n: u64, b: &str, m: u64) -> (s: String)
    ensures
        s@ == a@ + decimal(n as nat) + b@ + decimal(m as nat),
{
    let first = decimal_text(n);
    let second = decimal_text(m);
    let mut s = String::from_str(a);
    s.append(first.as_str());
    s.append(b);
    s.append(second.as_str());
    s
}

} // verus!
