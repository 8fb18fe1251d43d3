//! Decimal numbers in text: what `str::parse` accepts for unsigned integers,
//! and which characters count as numeric.

use vstd::prelude::*;

verus! {

/// An ASCII decimal digit.
pub open spec fn is_ascii_digit(c: char) -> bool {
    '0' <= c && c <= '9'
}

/// The value of a run of ASCII digits, read in base ten.
pub open spec fn digits_value(s: Seq<char>) -> nat
    decreases s.len(),
{
    if s.len() == 0 {
        0
    } else {
        digits_value(s.drop_last()) * 10 + ((s.last() as nat) - 48) as nat
    }
}

/// The digits of an unsigned decimal literal: the text without one leading `+`.
pub open spec fn unsigned_digits(s: Seq<char>) -> Seq<char> {
    if s.len() > 0 && s[0] == '+' {
        s.drop_first()
    } else {
        s
    }
}

/// Text that `str::parse` reads as an unsigned integer: an optional `+`
/// followed by one or more ASCII digits and nothing else.
pub open spec fn is_unsigned_decimal(s: Seq<char>) -> bool {
    let d = unsigned_digits(s);
    &&& d.len() > 0
    &&& forall|i: int| 0 <= i < d.len() ==> #[trigger] is_ascii_digit(d[i])
}

/// The value of an unsigned decimal literal.
pub open spec fn unsigned_decimal_value(s: Seq<char>) -> nat {
    digits_value(unsigned_digits(s))
}

/// Whether `str::parse::<T>` succeeds for an unsigned `T` whose largest value is `max`.
pub open spec fn parses_as_unsigned(s: Seq<char>, max: nat) -> bool {
    is_unsigned_decimal(s) && unsigned_decimal_value(s) <= max
}

/// What `ParseIntError`'s `Display` renders for the failed parse of `s` as a `usize`.
pub uninterp spec fn usize_parse_failure_text(s: Seq<char>) -> Seq<char>;

/// What `ParseIntError`'s `Display` renders for the failed parse of `s` as a `u16`.
pub uninterp spec fn u16_parse_failure_text(s: Seq<char>) -> Seq<char>;

/// What `ParseIntError`'s `Debug` renders for the failed parse of `s` as a `usize`.
pub uninterp spec fn usize_parse_failure_debug(s: Seq<char>) -> Seq<char>;

/// What `ParseIntError`'s `Debug` renders for the failed parse of `s` as a `u16`.
pub uninterp spec fn u16_parse_failure_debug(s: Seq<char>) -> Seq<char>;

/// Whether `char::is_numeric` holds: the character's Unicode general category
/// is one of Nd, Nl, No.
pub uninterp spec fn char_is_numeric(c: char) -> bool;

/// `<str>::parse::<usize>`, with the error rendered by its `Display` and its
/// `Debug`. Claimed: success exactly on an optional `+` followed by ASCII
/// digits whose value fits in `usize` (as the documentation of
/// `from_str_radix` says), the value read in base ten, and error texts that
/// depend on the input alone.
#[verifier::external_body]
pub(crate) fn parse_usize(s: &str) -> (r: Result<usize, (String, String)>)
    ensures
        r is Ok <==> parses_as_unsigned(s@, usize::MAX as nat),
        r matches Ok(v) ==> v as nat == unsigned_decimal_value(s@),
        r matches Err(m) ==> m.0@ == usize_parse_failure_text(s@) && m.1@ == usize_parse_failure_debug(s@),
{
    match s.parse::<usize>() {
        Ok(v) => Ok(v),
        Err(e) => Err((e.to_string(), format!("{:?}", e))),
    }
}

/// `<str>::parse::<u16>`, with the error rendered by its `Display` and its
/// `Debug`. Claimed as for `parse_usize`, with the bound of `u16`.
#[verifier::external_body]
pub(crate) fn parse_u16(s: &str) -> (r: Result<u16, (String, String)>)
    ensures
        r is Ok <==> parses_as_unsigned(s@, u16::MAX as nat),
        r matches Ok(v) ==> v as nat == unsigned_decimal_value(s@),
        r matches Err(m) ==> m.0@ == u16_parse_failure_text(s@) && m.1@ == u16_parse_failure_debug(s@),
{
    match s.parse::<u16>() {
        Ok(v) => Ok(v),
        Err(e) => Err((e.to_string(), format!("{:?}", e))),
    }
}

/// What `format!("{:?}", s)` renders for a string: the text in double
/// quotes, with `str::escape_debug`'s escapes.
pub uninterp spec fn str_debug_text(s: Seq<char>) -> Seq<char>;

/// `<str as Debug>::fmt`, rendered into a `String`. Claimed: the text depends
/// on the string alone.
#[verifier::external_body]
pub(crate) fn debug_str(s: &str) -> (r: String)
    ensures
        r@ == str_debug_text(s@),
{
    format!("{:?}", s)
}

/// `char::is_numeric`. Claimed: the result is the named predicate, and among
/// ASCII characters exactly the digits are numeric.
#[verifier::external_body]
pub(crate) fn is_numeric(c: char) -> (r: bool)
    ensures
        r == char_is_numeric(c),
        (c as u32) < 128 ==> (r <==> is_ascii_digit(c)),
{
    c.is_numeric()
}

} // verus!
