//! Finding Steam identities in free text.
//!
//! A short form is found wherever the text reads `U:<digit>:<digits>`; the
//! identity runs to the end of the digits, and square brackets round it are
//! no part of it. A long form is found wherever the text reads `7656` and
//! thirteen more digits; the text is read from the left and a place that one
//! long form has taken starts no other.

use crate::decimal::{all_digits, char_is_digit, is_digit};
use crate::text::{lemma_texts_push, string_of, texts};
use vstd::prelude::*;

verus! {

/// How many characters a long form has.
pub const STEAMID64_LEN: usize = 17;

/// A short form begins at `p`: `U`, `:`, a digit, `:`, a digit.
pub open spec fn steamid32_starts(text: Seq<char>, p: int) -> bool {
    &&& 0 <= p
    &&& p + 5 <= text.len()
    &&& text[p] == 'U'
    &&& text[p + 1] == ':'
    &&& is_digit(text[p + 2])
    &&& text[p + 3] == ':'
    &&& is_digit(text[p + 4])
}

/// The first place at or after `p` that holds no digit, or the end of the
/// text.
pub open spec fn digit_run_end(text: Seq<char>, p: int) -> int
    decreases text.len() - p,
{
    if 0 <= p < text.len() && is_digit(text[p]) {
        digit_run_end(text, p + 1)
    } else {
        p
    }
}

/// The short form that begins at `p`.
pub open spec fn steamid32_at(text: Seq<char>, p: int) -> Seq<char> {
    text.subrange(p, digit_run_end(text, p + 5))
}

/// The short forms that begin at `p` or later, in the order of the text.
pub open spec fn steamid32_matches(text: Seq<char>, p: int) -> Seq<Seq<char>>
    decreases text.len() - p,
{
    if p < 0 || p >= text.len() {
        Seq::empty()
    } else if steamid32_starts(text, p) {
        seq![steamid32_at(text, p)] + steamid32_matches(text, p + 1)
    } else {
        steamid32_matches(text, p + 1)
    }
}

/// A long form begins at `p`: `7656` and thirteen digits.
pub open spec fn steamid64_starts(text: Seq<char>, p: int) -> bool {
    &&& 0 <= p
    &&& p + 17 <= text.len()
    &&& text[p] == '7'
    &&& text[p + 1] == '6'
    &&& text[p + 2] == '5'
    &&& text[p + 3] == '6'
    &&& all_digits(text.subrange(p + 4, p + 17))
}

/// The long forms found from `p` on, reading from the left: a long form
/// found at a place takes its seventeen characters, and the search goes on
/// behind them.
pub open spec fn steamid64_matches(text: Seq<char>, p: int) -> Seq<Seq<char>>
    decreases text.len() - p,
{
    if p < 0 || p + 17 > text.len() {
        Seq::empty()
    } else if steamid64_starts(text, p) {
        seq![text.subrange(p, p + 17)] + steamid64_matches(text, p + 17)
    } else {
        steamid64_matches(text, p + 1)
    }
}

fn starts_steamid32(text: &[char], p: usize) -> (r: bool)
    requires
        p <= text@.len(),
    ensures
        r == steamid32_starts(text@, p as int),
{
    if text.len() - p < 5 {
        return false;
    }
    text[p] == 'U' && text[p + 1] == ':' && char_is_digit(text[p + 2]) && text[p + 3] == ':'
        && char_is_digit(text[p + 4])
}

fn find_digit_run_end(text: &[char], p: usize) -> (e: usize)
    requires
        p <= text@.len(),
    ensures
        e == digit_run_end(text@, p as int),
        p <= e <= text@.len(),
{
    let len = text.len();
    let mut i: usize = p;
    while i < len && char_is_digit(text[i])
        invariant
            len == text@.len(),
            p <= i <= len,
            digit_run_end(text@, p as int) == digit_run_end(text@, i as int),
        decreases len - i,
    {
        i += 1;
    }
    i
}

fn starts_steamid64(text: &[char], p: usize) -> (r: bool)
    requires
        p <= text@.len(),
    ensures
        r == steamid64_starts(text@, p as int),
{
    if text.len() - p < STEAMID64_LEN {
        return false;
    }
    if text[p] != '7' || text[p + 1] != '6' || text[p + 2] != '5' || text[p + 3] != '6' {
        return false;
    }
    let ghost run = text@.subrange(p + 4, p + 17);
    let len = text.len();
    let mut i: usize = 4;
    while i < STEAMID64_LEN
        invariant
            len == text@.len(),
            p + 17 <= len,
            4 <= i <= 17,
            run == text@.subrange(p + 4, p + 17),
            forall|j: int| 0 <= j < i - 4 ==> is_digit(#[trigger] run[j]),
        decreases 17 - i,
    {
        if !char_is_digit(text[p + i]) {
            proof {
                assert(run[i - 4] == text@[p + i]);
            }
            return false;
        }
        proof {
            assert(run[i - 4] == text@[p + i]);
        }
        i += 1;
    }
    true
}

/// Every short form in `text`, in the order of the text.
pub fn find_steamid32(text: &[char]) -> (ids: Vec<String>)
    ensures
        texts(ids@) == steamid32_matches(text@, 0),
{
    let mut ids: Vec<String> = Vec::new();
    let len = text.len();
    let mut p: usize = 0;
    while p < len
        invariant
            len == text@.len(),
            0 <= p <= len,
            steamid32_matches(text@, 0) == texts(ids@) + steamid32_matches(text@, p as int),
        decreases len - p,
    {
        if starts_steamid32(text, p) {
            let end = find_digit_run_end(text, p + 5);
            let id = string_of(text, p, end);
            proof {
                lemma_texts_push(ids@, id);
                assert(texts(ids@.push(id)) + steamid32_matches(text@, p + 1) =~= texts(ids@) + (
                seq![steamid32_at(text@, p as int)] + steamid32_matches(text@, p + 1)));
            }
            ids.push(id);
        }
        p += 1;
    }
    proof {
        assert(texts(ids@) + Seq::<Seq<char>>::empty() =~= texts(ids@));
    }
    ids
}

/// Every long form in `text`, read from the left without overlap.
pub fn find_steamid64(text: &[char]) -> (ids: Vec<String>)
    ensures
        texts(ids@) == steamid64_matches(text@, 0),
{
    let mut ids: Vec<String> = Vec::new();
    let len = text.len();
    let mut p: usize = 0;
    while len - p >= STEAMID64_LEN
        invariant
            len == text@.len(),
            0 <= p <= len,
            steamid64_matches(text@, 0) == texts(ids@) + steamid64_matches(text@, p as int),
        decreases len - p,
    {
        if starts_steamid64(text, p) {
            let id = string_of(text, p, p + STEAMID64_LEN);
            proof {
                lemma_texts_push(ids@, id);
                assert(texts(ids@.push(id)) + steamid64_matches(text@, p + 17) =~= texts(ids@) + (
                seq![text@.subrange(p as int, p + 17)] + steamid64_matches(text@, p + 17)));
            }
            ids.push(id);
            p += STEAMID64_LEN;
        } else {
            p += 1;
        }
    }
    proof {
        assert(texts(ids@) + Seq::<Seq<char>>::empty() =~= texts(ids@));
    }
    ids
}

} // verus!
