//! Lines of a text, with the white space at their ends taken off.

use crate::text::{lemma_texts_push, string_of, texts};
use vstd::prelude::*;

verus! {

/// `c` is white space: one of the characters with Unicode's `White_Space`
/// property.
pub open spec fn is_space(c: char) -> bool {
    let n = c as u32;
    ||| 0x09 <= n <= 0x0D
    ||| n == 0x20
    ||| n == 0x85
    ||| n == 0xA0
    ||| n == 0x1680
    ||| 0x2000 <= n <= 0x200A
    ||| n == 0x2028
    ||| n == 0x2029
    ||| n == 0x202F
    ||| n == 0x205F
    ||| n == 0x3000
}

/// The first place at or after `p` that holds a line feed, or the end of the
/// text.
pub open spec fn line_end(text: Seq<char>, p: int) -> int
    decreases text.len() - p,
{
    if 0 <= p < text.len() && text[p] != '\n' {
        line_end(text, p + 1)
    } else {
        p
    }
}

/// The first place in `from..to` that holds no white space, or `to`.
pub open spec fn skip_spaces(text: Seq<char>, from: int, to: int) -> int
    decreases to - from,
{
    if 0 <= from < to <= text.len() && is_space(text[from]) {
        skip_spaces(text, from + 1, to)
    } else {
        from
    }
}

/// The place behind the last character in `from..to` that is no white space,
/// or `from`.
pub open spec fn drop_spaces(text: Seq<char>, from: int, to: int) -> int
    decreases to - from,
{
    if 0 <= from < to <= text.len() && is_space(text[to - 1]) {
        drop_spaces(text, from, to - 1)
    } else {
        to
    }
}

/// `text[from..to]` without the white space at its two ends.
pub open spec fn trimmed(text: Seq<char>, from: int, to: int) -> Seq<char> {
    let start = skip_spaces(text, from, to);
    text.subrange(start, drop_spaces(text, start, to))
}

/// The lines of `text` from `p` on that hold more than white space, each
/// without the white space at its ends. A line ends at a line feed or at the
/// end of the text.
pub open spec fn filled_lines(text: Seq<char>, p: int) -> Seq<Seq<char>>
    decreases text.len() - p,
{
    if p < 0 || p >= text.len() {
        Seq::empty()
    } else {
        proof {
            lemma_line_end_bounds(text, p);
        }
        let end = line_end(text, p);
        let line = trimmed(text, p, end);
        let rest = if end < text.len() {
            filled_lines(text, end + 1)
        } else {
            Seq::empty()
        };
        if line.len() == 0 {
            rest
        } else {
            seq![line] + rest
        }
    }
}

/// A line ends between its start and the end of the text.
pub proof fn lemma_line_end_bounds(text: Seq<char>, p: int)
    requires
        0 <= p <= text.len(),
    ensures
        p <= line_end(text, p) <= text.len(),
    decreases text.len() - p,
{
    if p < text.len() && text[p] != '\n' {
        lemma_line_end_bounds(text, p + 1);
    }
}

/// Whether `c` is white space.
pub fn char_is_space(c: char) -> (r: bool)
    ensures
        r == is_space(c),
{
    let n: u32 = c as u32;
    (0x09 <= n && n <= 0x0D) || n == 0x20 || n == 0x85 || n == 0xA0 || n == 0x1680 || (0x2000 <= n
        && n <= 0x200A) || n == 0x2028 || n == 0x2029 || n == 0x202F || n == 0x205F || n == 0x3000
}

fn find_line_end(text: &[char], p: usize) -> (end: usize)
    requires
        p <= text@.len(),
    ensures
        end == line_end(text@, p as int),
        p <= end <= text@.len(),
{
    let len = text.len();
    let mut i: usize = p;
    while i < len && text[i] != '\n'
        invariant
            len == text@.len(),
            p <= i <= len,
            line_end(text@, p as int) == line_end(text@, i as int),
        decreases len - i,
    {
        i += 1;
    }
    i
}

/// The bounds of `text[from..to]` without the white space at its two ends.
fn trim_bounds(text: &[char], from: usize, to: usize) -> (r: (usize, usize))
    requires
        from <= to <= text@.len(),
    ensures
        from <= r.0 <= r.1 <= to,
        text@.subrange(r.0 as int, r.1 as int) == trimmed(text@, from as int, to as int),
{
    let mut start: usize = from;
    while start < to && char_is_space(text[start])
        invariant
            from <= start <= to <= text@.len(),
            skip_spaces(text@, from as int, to as int) == skip_spaces(
                text@,
                start as int,
                to as int,
            ),
        decreases to - start,
    {
        start += 1;
    }
    let mut end: usize = to;
    while start < end && char_is_space(text[end - 1])
        invariant
            start <= end <= to <= text@.len(),
            drop_spaces(text@, start as int, to as int) == drop_spaces(
                text@,
                start as int,
                end as int,
            ),
        decreases end - start,
    {
        end -= 1;
    }
    (start, end)
}

/// The lines of `text` that hold more than white space, each without the
/// white space at its ends, in the order of the text.
pub fn find_filled_lines(text: &[char]) -> (lines: Vec<String>)
    ensures
        texts(lines@) == filled_lines(text@, 0),
{
    let mut lines: Vec<String> = Vec::new();
    let len = text.len();
    let mut p: usize = 0;
    while p < len
        invariant
            len == text@.len(),
            0 <= p,
            filled_lines(text@, 0) == texts(lines@) + filled_lines(text@, p as int),
        decreases len - p,
    {
        let end = find_line_end(text, p);
        let (start, stop) = trim_bounds(text, p, end);
        let ghost rest = if end < len {
            filled_lines(text@, end + 1)
        } else {
            Seq::empty()
        };
        if start < stop {
            let line = string_of(text, start, stop);
            proof {
                lemma_texts_push(lines@, line);
                assert(texts(lines@.push(line)) + rest =~= texts(lines@) + (seq![
                    trimmed(text@, p as int, end as int),
                ] + rest));
            }
            lines.push(line);
        }
        if end == len {
            p = len;
        } else {
            p = end + 1;
        }
    }
    proof {
        assert(texts(lines@) + Seq::<Seq<char>>::empty() =~= texts(lines@));
    }
    lines
}

} // verus!
