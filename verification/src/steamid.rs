//! The two spellings of a Steam identity and the conversion between them.
//!
//! The short form is the text `U:1:<account>`; the long form is the decimal
//! numeral of `account + STEAM_ID64_BASE`.

use crate::decimal::{
    all_digits, char_is_digit, decimal_digits, decimal_value, is_canonical, is_digit,
    lemma_decimal_digits_canonical, lemma_digits_of_value, lemma_value_of_digits, parse_decimal,
    push_decimal,
};
use crate::text::chars_of;
use vstd::prelude::*;
use vstd::slice::slice_subrange;

verus! {

/// What separates an account number from its 64-bit identity.
pub const STEAM_ID64_BASE: u64 = 76561197960265728;

/// Why a text was not converted.
#[derive(Clone, Copy, Debug, PartialEq, Eq, Structural)]
pub enum FormatError {
    /// The text does not have the shape of the identity that was asked for.
    Malformed,
    /// The text has the shape, but the number it holds has no counterpart in
    /// the other form.
    OutOfRange,
}

/// `s` without one leading `[` and, after that, without one trailing `]`.
pub open spec fn strip_brackets(s: Seq<char>) -> Seq<char> {
    let a = if s.len() > 0 && s[0] == '[' {
        s.skip(1)
    } else {
        s
    };
    if a.len() > 0 && a.last() == ']' {
        a.drop_last()
    } else {
        a
    }
}

/// `s` reads `U:<universe digit>:<one or more digits>`.
pub open spec fn is_steamid32_shape(s: Seq<char>) -> bool {
    &&& s.len() >= 5
    &&& s[0] == 'U'
    &&& s[1] == ':'
    &&& is_digit(s[2])
    &&& s[3] == ':'
    &&& all_digits(s.skip(4))
}

/// The short form of the account `account`.
pub open spec fn steamid32_text(account: nat) -> Seq<char> {
    seq!['U', ':', '1', ':'] + decimal_digits(account)
}

/// What `steamid_32_to_64` makes of the text `s`.
pub open spec fn steamid_32_to_64_spec(s: Seq<char>) -> Result<Seq<char>, FormatError> {
    let body = strip_brackets(s);
    if !is_steamid32_shape(body) {
        Err(FormatError::Malformed)
    } else if decimal_value(body.skip(4)) + STEAM_ID64_BASE > u64::MAX {
        Err(FormatError::OutOfRange)
    } else {
        Ok(decimal_digits(decimal_value(body.skip(4)) + STEAM_ID64_BASE as nat))
    }
}

/// What `steamid_64_to_32` makes of the text `s`.
pub open spec fn steamid_64_to_32_spec(s: Seq<char>) -> Result<Seq<char>, FormatError> {
    if s.len() == 0 || !all_digits(s) {
        Err(FormatError::Malformed)
    } else if decimal_value(s) > u64::MAX || decimal_value(s) < STEAM_ID64_BASE {
        Err(FormatError::OutOfRange)
    } else {
        Ok(steamid32_text((decimal_value(s) - STEAM_ID64_BASE) as nat))
    }
}

/// A short form as the codec writes it: universe 1, a canonical account
/// numeral, and an account that still has a 64-bit identity.
pub open spec fn well_formed_steamid32(s: Seq<char>) -> bool {
    &&& s.len() >= 5
    &&& s.take(4) == seq!['U', ':', '1', ':']
    &&& is_canonical(s.skip(4))
    &&& decimal_value(s.skip(4)) + STEAM_ID64_BASE <= u64::MAX
}

/// A long form as the codec writes it: a canonical numeral that fits 64 bits
/// and is no smaller than the base.
pub open spec fn well_formed_steamid64(s: Seq<char>) -> bool {
    &&& is_canonical(s)
    &&& STEAM_ID64_BASE <= decimal_value(s) <= u64::MAX
}

/// A conversion's outcome with the text taken by its view.
pub open spec fn converted(r: Result<String, FormatError>) -> Result<Seq<char>, FormatError> {
    match r {
        Ok(text) => Ok(text@),
        Err(e) => Err(e),
    }
}

/// The short form of an account is well formed, and its digits are the
/// account's numeral.
pub proof fn lemma_steamid32_text(account: nat)
    ensures
        steamid32_text(account).len() >= 5,
        steamid32_text(account).take(4) == seq!['U', ':', '1', ':'],
        steamid32_text(account).skip(4) == decimal_digits(account),
        is_steamid32_shape(steamid32_text(account)),
        strip_brackets(steamid32_text(account)) == steamid32_text(account),
{
    let t = steamid32_text(account);
    let d = decimal_digits(account);
    lemma_decimal_digits_canonical(account);
    assert(t.take(4) =~= seq!['U', ':', '1', ':']);
    assert(t.skip(4) =~= d);
    assert(t[0] == 'U' && t[1] == ':' && t[2] == '1' && t[3] == ':');
    assert(t.last() == d.last());
    assert(is_digit(d[d.len() - 1]));
}

/// Converting a well-formed short form to the long form and back gives the
/// text that one started from.
pub proof fn lemma_round_trip_from_32(x: Seq<char>)
    requires
        well_formed_steamid32(x),
    ensures
        steamid_32_to_64_spec(x) is Ok,
        well_formed_steamid64(steamid_32_to_64_spec(x)->Ok_0),
        steamid_64_to_32_spec(steamid_32_to_64_spec(x)->Ok_0) == Ok::<Seq<char>, FormatError>(x),
{
    let digits = x.skip(4);
    let account = decimal_value(digits);
    assert(x[0] == x.take(4)[0] && x[1] == x.take(4)[1] && x[2] == x.take(4)[2] && x[3]
        == x.take(4)[3]);
    assert(x.last() == digits.last());
    assert(is_digit(digits[digits.len() - 1]));
    assert(strip_brackets(x) == x);
    assert(is_steamid32_shape(x));
    let y = decimal_digits(account + STEAM_ID64_BASE as nat);
    assert(steamid_32_to_64_spec(x) == Ok::<Seq<char>, FormatError>(y));
    lemma_decimal_digits_canonical(account + STEAM_ID64_BASE as nat);
    lemma_value_of_digits(account + STEAM_ID64_BASE as nat);
    lemma_digits_of_value(digits);
    assert(steamid32_text(account) =~= x) by {
        assert(x =~= x.take(4) + x.skip(4));
    }
}

/// Converting a well-formed long form to the short form and back gives the
/// text that one started from.
pub proof fn lemma_round_trip_from_64(y: Seq<char>)
    requires
        well_formed_steamid64(y),
    ensures
        steamid_64_to_32_spec(y) is Ok,
        well_formed_steamid32(steamid_64_to_32_spec(y)->Ok_0),
        steamid_32_to_64_spec(steamid_64_to_32_spec(y)->Ok_0) == Ok::<Seq<char>, FormatError>(y),
{
    let account = (decimal_value(y) - STEAM_ID64_BASE) as nat;
    let x = steamid32_text(account);
    assert(steamid_64_to_32_spec(y) == Ok::<Seq<char>, FormatError>(x));
    lemma_steamid32_text(account);
    lemma_decimal_digits_canonical(account);
    lemma_value_of_digits(account);
    lemma_digits_of_value(y);
}

/// Whether `s` is a non-empty run of digits.
pub fn is_digit_run(s: &[char]) -> (r: bool)
    ensures
        r == (s@.len() >= 1 && all_digits(s@)),
{
    let len = s.len();
    if len == 0 {
        return false;
    }
    let mut i: usize = 0;
    while i < len
        invariant
            len == s@.len(),
            0 <= i <= len,
            forall|j: int| 0 <= j < i ==> is_digit(#[trigger] s@[j]),
        decreases len - i,
    {
        if !char_is_digit(s[i]) {
            return false;
        }
        i += 1;
    }
    true
}

/// Whether `s` reads `U:<universe digit>:<one or more digits>`.
pub fn has_steamid32_shape(s: &[char]) -> (r: bool)
    ensures
        r == is_steamid32_shape(s@),
{
    if s.len() < 5 {
        return false;
    }
    if s[0] != 'U' || s[1] != ':' || !char_is_digit(s[2]) || s[3] != ':' {
        return false;
    }
    let digits = slice_subrange(s, 4, s.len());
    proof {
        assert(digits@ =~= s@.skip(4));
    }
    is_digit_run(digits)
}

/// The long form of the short form held in `s`; see `steamid_32_to_64`.
pub fn steamid_32_to_64_chars(s: &[char]) -> (r: Result<String, FormatError>)
    ensures
        converted(r) == steamid_32_to_64_spec(s@),
{
    let mut from: usize = 0;
    let mut to: usize = s.len();
    if from < to && s[from] == '[' {
        from = 1;
    }
    if from < to && s[to - 1] == ']' {
        to = to - 1;
    }
    let body = slice_subrange(s, from, to);
    proof {
        assert(body@ =~= strip_brackets(s@));
    }
    if !has_steamid32_shape(body) {
        return Err(FormatError::Malformed);
    }
    let digits = slice_subrange(body, 4, body.len());
    proof {
        assert(digits@ =~= body@.skip(4));
    }
    let account = match parse_decimal(digits) {
        Some(n) => n,
        None => { return Err(FormatError::OutOfRange); },
    };
    let id = match account.checked_add(STEAM_ID64_BASE) {
        Some(n) => n,
        None => { return Err(FormatError::OutOfRange); },
    };
    let mut out = String::new();
    push_decimal(&mut out, id);
    proof {
        assert(out@ =~= decimal_digits(id as nat));
    }
    Ok(out)
}

/// The short form of the long form held in `s`; see `steamid_64_to_32`.
pub fn steamid_64_to_32_chars(s: &[char]) -> (r: Result<String, FormatError>)
    ensures
        converted(r) == steamid_64_to_32_spec(s@),
{
    if !is_digit_run(s) {
        return Err(FormatError::Malformed);
    }
    let id = match parse_decimal(s) {
        Some(n) => n,
        None => { return Err(FormatError::OutOfRange); },
    };
    if id < STEAM_ID64_BASE {
        return Err(FormatError::OutOfRange);
    }
    let mut out = String::new();
    out.push('U');
    out.push(':');
    out.push('1');
    out.push(':');
    push_decimal(&mut out, id - STEAM_ID64_BASE);
    proof {
        assert(out@ =~= steamid32_text((id - STEAM_ID64_BASE) as nat));
    }
    Ok(out)
}

/// Converts a short form, with or without square brackets round it, to the
/// long form: the account number plus `STEAM_ID64_BASE`, as a numeral.
///
/// `Malformed` when the text, brackets removed, does not read
/// `U:<digit>:<digits>`; `OutOfRange` when the sum does not fit 64 bits.
pub fn steamid_32_to_64(steamid32: &str) -> (r: Result<String, FormatError>)
    ensures
        converted(r) == steamid_32_to_64_spec(steamid32@),
{
    let chars = chars_of(steamid32);
    steamid_32_to_64_chars(chars.as_slice())
}

/// Converts a long form to the short form of universe 1.
///
/// `Malformed` when the text is not a run of digits; `OutOfRange` when the
/// number does not fit 64 bits or lies below `STEAM_ID64_BASE`, where no
/// account number answers to it.
pub fn steamid_64_to_32(steamid64: &str) -> (r: Result<String, FormatError>)
    ensures
        converted(r) == steamid_64_to_32_spec(steamid64@),
{
    let chars = chars_of(steamid64);
    steamid_64_to_32_chars(chars.as_slice())
}

} // verus!
