//! Text building blocks of the report: decimal and hexadecimal numbers and
//! padding to a column width.

use vstd::prelude::*;

verus! {

/// The digit for `d`, lowercase for ten and above.
pub open spec fn digit(d: nat) -> char {
    if d == 0 { '0' } else if d == 1 { '1' } else if d == 2 { '2' } else if d == 3 { '3' }
    else if d == 4 { '4' } else if d == 5 { '5' } else if d == 6 { '6' } else if d == 7 { '7' }
    else if d == 8 { '8' } else if d == 9 { '9' } else if d == 10 { 'a' } else if d == 11 { 'b' }
    else if d == 12 { 'c' } else if d == 13 { 'd' } else if d == 14 { 'e' } else { 'f' }
}

/// Decimal digits of `n`, without leading zeros.
pub open spec fn dec(n: nat) -> Seq<char>
    decreases n,
{
    if n < 10 {
        seq![digit(n)]
    } else {
        dec(n / 10).push(digit(n % 10))
    }
}

/// Lowercase hexadecimal digits of `n`, without prefix or leading zeros.
pub open spec fn hex(n: nat) -> Seq<char>
    decreases n,
{
    if n < 16 {
        seq![digit(n)]
    } else {
        hex(n / 16).push(digit(n % 16))
    }
}

/// `n` copies of `c`.
pub open spec fn fill(n: nat, c: char) -> Seq<char> {
    Seq::new(n, |i: int| c)
}

/// `s` right-aligned in a column of width `w`, padded with `c`.
pub open spec fn pad_left(s: Seq<char>, w: nat, c: char) -> Seq<char> {
    if s.len() >= w {
        s
    } else {
        fill((w - s.len()) as nat, c) + s
    }
}

/// `s` left-aligned in a column of width `w`, padded with spaces.
pub open spec fn pad_right(s: Seq<char>, w: nat) -> Seq<char> {
    if s.len() >= w {
        s
    } else {
        s + fill((w - s.len()) as nat, ' ')
    }
}

/// Relies on `ToString` through `Display` for `u64`: its decimal digits,
/// without sign or padding.
#[verifier::external_body]
pub(crate) fn decimal(n: u64) -> (r: String)
    ensures
        r@ == dec(n as nat),
{
    n.to_string()
}

/// Relies on `LowerHex` for `u64`: its lowercase hexadecimal digits, without
/// prefix or padding.
#[verifier::external_body]
pub(crate) fn hexadecimal(n: u64) -> (r: String)
    ensures
        r@ == hex(n as nat),
{
    format!("{:x}", n)
}

/// Appends `n` copies of a space or a zero.
pub fn push_fill(out: &mut String, n: usize, zero: bool)
    ensures
        final(out)@ == old(out)@ + fill(n as nat, if zero { '0' } else { ' ' }),
{
    let ghost c = if zero { '0' } else { ' ' };
    let mut k: usize = 0;
    assert(old(out)@ + fill(0, c) =~= old(out)@);
    while k < n
        invariant
            0 <= k <= n,
            c == (if zero { '0' } else { ' ' }),
            out@ == old(out)@ + fill(k as nat, c),
        decreases n - k,
    {
        if zero {
            proof {
                reveal_strlit("0");
            }
            out.append("0");
        } else {
            proof {
                reveal_strlit(" ");
            }
            out.append(" ");
        }
        assert(old(out)@ + fill((k + 1) as nat, c) =~= old(out)@ + fill(k as nat, c) + seq![c]);
        k = k + 1;
    }
}

/// Appends `s` right-aligned in a column of width `w`.
pub fn push_right(out: &mut String, s: &str, w: usize, zero: bool)
    ensures
        final(out)@ == old(out)@ + pad_left(s@, w as nat, if zero { '0' } else { ' ' }),
{
    let n = s.unicode_len();
    if n < w {
        push_fill(out, w - n, zero);
    }
    out.append(s);
    assert(final(out)@ =~= old(out)@ + pad_left(s@, w as nat, if zero { '0' } else { ' ' }));
}

/// Appends `s` left-aligned in a column of width `w`.
pub fn push_left(out: &mut String, s: &str, w: usize)
    ensures
        final(out)@ == old(out)@ + pad_right(s@, w as nat),
{
    let n = s.unicode_len();
    out.append(s);
    if n < w {
        push_fill(out, w - n, false);
    }
    assert(final(out)@ =~= old(out)@ + pad_right(s@, w as nat));
}

} // verus!
