//! Decimal rendering of integers into text, the way `{}`, `{:3}` and
//! `{:0>2}` render them.

use vstd::prelude::*;

verus! {

/// The ASCII character of a decimal digit.
pub open spec fn digit_char(d: nat) -> char {
    (d + 48) as char
}

/// Decimal digits of a natural number, most significant first, no leading zeros.
pub open spec fn dec(n: nat) -> Seq<char>
    decreases n,
{
    if n < 10 {
        seq![digit_char(n)]
    } else {
        dec(n / 10).push(digit_char(n % 10))
    }
}

/// Decimal rendering of a signed integer: a minus sign before negative numbers.
pub open spec fn dec_int(n: int) -> Seq<char> {
    if n < 0 {
        seq!['-'] + dec((-n) as nat)
    } else {
        dec(n as nat)
    }
}

/// `s` right-aligned in a field of `width` characters, filled on the left with `fill`.
pub open spec fn pad_left(s: Seq<char>, width: nat, fill: char) -> Seq<char> {
    if s.len() < width {
        Seq::new((width - s.len()) as nat, |i: int| fill) + s
    } else {
        s
    }
}

/// What `format!("{:3}", n)` renders for an unsigned integer.
pub open spec fn dec_width3(n: nat) -> Seq<char> {
    pad_left(dec(n), 3, ' ')
}

/// What `format!("{:0>2}", n)` renders for an unsigned integer.
pub open spec fn dec_zero2(n: nat) -> Seq<char> {
    pad_left(dec(n), 2, '0')
}

fn digit_str(d: u64) -> (s: &'static str)
    requires
        d < 10,
    ensures
        s@ == seq![digit_char(d as nat)],
{
    if d == 0 {
        proof { reveal_strlit("0"); }
        "0"
    } else if d == 1 {
        proof { reveal_strlit("1"); }
        "1"
    } else if d == 2 {
        proof { reveal_strlit("2"); }
        "2"
    } else if d == 3 {
        proof { reveal_strlit("3"); }
        "3"
    } else if d == 4 {
        proof { reveal_strlit("4"); }
        "4"
    } else if d == 5 {
        proof { reveal_strlit("5"); }
        "5"
    } else if d == 6 {
        proof { reveal_strlit("6"); }
        "6"
    } else if d == 7 {
        proof { reveal_strlit("7"); }
        "7"
    } else if d == 8 {
        proof { reveal_strlit("8"); }
        "8"
    } else {
        proof { reveal_strlit("9"); }
        "9"
    }
}

/// Appends the decimal digits of `n`.
pub fn push_dec(out: &mut String, n: u64)
    ensures
        final(out)@ == old(out)@ + dec(n as nat),
    decreases n,
{
    if n >= 10 {
        push_dec(out, n / 10);
    }
    out.append(digit_str(n % 10));
    assert(out@ =~= old(out)@ + dec(n as nat));
}

/// Appends `count` copies of the one-character string `fill`.
fn push_fill(out: &mut String, fill: &str, count: u64)
    requires
        fill@.len() == 1,
    ensures
        final(out)@ == old(out)@ + Seq::new(count as nat, |i: int| fill@[0]),
    decreases count,
{
    if count > 0 {
        push_fill(out, fill, count - 1);
        out.append(fill);
        proof {
            assert(old(out)@ + Seq::new(count as nat, |i: int| fill@[0]) =~= old(out)@ + Seq::new(
                (count - 1) as nat,
                |i: int| fill@[0],
            ) + fill@);
        }
    } else {
        proof {
            assert(old(out)@ + Seq::new(count as nat, |i: int| fill@[0]) =~= old(out)@);
        }
    }
}

/// Number of decimal digits of `n`.
pub fn dec_len(n: u64) -> (r: u64)
    ensures
        r == dec(n as nat).len(),
        1 <= r <= n + 1,
    decreases n,
{
    if n >= 10 {
        let k = dec_len(n / 10);
        assert(k + 1 <= n + 1);
        k + 1
    } else {
        1
    }
}

/// Appends `n` right-aligned in a field of `width` characters filled with `fill`.
pub fn push_dec_padded(out: &mut String, n: u64, width: u64, fill: &str)
    requires
        fill@.len() == 1,
    ensures
        final(out)@ == old(out)@ + pad_left(dec(n as nat), width as nat, fill@[0]),
{
    let len = dec_len(n);
    if len < width {
        push_fill(out, fill, width - len);
    }
    push_dec(out, n);
    proof {
        if len < width {
            assert(old(out)@ + pad_left(dec(n as nat), width as nat, fill@[0]) =~= old(out)@
                + Seq::new((width - len) as nat, |i: int| fill@[0]) + dec(n as nat));
        }
    }
}

/// Appends what `format!("{:3}", n)` renders.
pub fn push_dec_width3(out: &mut String, n: u64)
    ensures
        final(out)@ == old(out)@ + dec_width3(n as nat),
{
    let sp = " ";
    proof { reveal_strlit(" "); }
    push_dec_padded(out, n, 3, sp);
}

/// Appends what `format!("{:0>2}", n)` renders.
pub fn push_dec_zero2(out: &mut String, n: u64)
    ensures
        final(out)@ == old(out)@ + dec_zero2(n as nat),
{
    let z = "0";
    proof { reveal_strlit("0"); }
    push_dec_padded(out, n, 2, z);
}

/// Appends what `format!("{}", n)` renders for a signed 32-bit integer.
pub fn push_dec_i32(out: &mut String, n: i32)
    ensures
        final(out)@ == old(out)@ + dec_int(n as int),
{
    if n < 0 {
        let m: i64 = -(n as i64);
        out.append("-");
        proof { reveal_strlit("-"); }
        push_dec(out, m as u64);
        proof {
            assert(old(out)@ + dec_int(n as int) =~= old(out)@ + seq!['-'] + dec(m as nat));
        }
    } else {
        push_dec(out, n as u64);
    }
}

/// The characters of a string, in order.
pub fn chars_of(s: &str) -> (r: Vec<char>)
    ensures
        r@ == s@,
{
    let mut r: Vec<char> = Vec::new();
    for c in it: s.chars()
        invariant
            it.seq() == s@,
            r@ == s@.take(it.index()),
    {
        r.push(c);
        proof {
            assert(s@.take(it.index() + 1) =~= s@.take(it.index()).push(c));
        }
    }
    assert(r@ =~= s@);
    r
}

} // verus!
