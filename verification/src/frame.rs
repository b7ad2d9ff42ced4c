//! Cutting a byte stream into lines and literals.
//!
//! A line ends at the first line feed, which must follow a carriage return.
//! A line that ends in `{n}` announces a literal: the `n` bytes after the
//! line's terminator belong to the response whatever they hold.

use vstd::prelude::*;
use crate::error::Error;
use crate::text::{CR, LF, is_digit, decimal_of, parse_decimal};

verus! {

/// The position of the first line feed at or after `from`, or the length of
/// `s` where there is none.
pub open spec fn first_lf(s: Seq<u8>, from: int) -> int
    decreases s.len() - from,
{
    if from < 0 || from >= s.len() {
        s.len() as int
    } else if s[from] == LF {
        from
    } else {
        first_lf(s, from + 1)
    }
}

/// `first_lf` finds a line feed, and the first one.
pub proof fn lemma_first_lf(s: Seq<u8>, from: int)
    requires
        0 <= from <= s.len(),
    ensures
        from <= first_lf(s, from) <= s.len(),
        first_lf(s, from) < s.len() ==> s[first_lf(s, from)] == LF,
        forall|j: int| from <= j < first_lf(s, from) ==> s[j] != LF,
    decreases s.len() - from,
{
    if from < s.len() && s[from] != LF {
        lemma_first_lf(s, from + 1);
    }
}

/// The line that starts at `from`: `Ok(None)` while its terminator has not
/// arrived, `Err(Parse)` where the line feed does not follow a carriage
/// return, else the position just behind the line's text and the position
/// at which the next line starts.
pub open spec fn line_at(s: Seq<u8>, from: int) -> Result<Option<(int, int)>, Error> {
    let lf = first_lf(s, from);
    if lf >= s.len() {
        Ok(None)
    } else if lf == from || s[lf - 1] != CR {
        Err(Error::Parse)
    } else {
        Ok(Some((lf - 1, lf + 1)))
    }
}

/// Finds the line that starts at `from`.
pub fn find_line(buf: &[u8], from: usize) -> (r: Result<Option<(usize, usize)>, Error>)
    requires
        from <= buf@.len(),
    ensures
        match r {
            Ok(Some((end, next))) => line_at(buf@, from as int) == Ok::<_, Error>(
                Some((end as int, next as int)),
            ) && from <= end && end + 2 == next && next <= buf@.len(),
            Ok(None) => line_at(buf@, from as int) == Ok::<Option<(int, int)>, Error>(None),
            Err(e) => line_at(buf@, from as int) == Err::<Option<(int, int)>, Error>(e),
        },
{
    let mut i: usize = from;
    while i < buf.len()
        invariant
            from <= i <= buf@.len(),
            first_lf(buf@, from as int) == first_lf(buf@, i as int),
        decreases buf.len() - i,
    {
        if buf[i] == LF {
            if i == from || buf[i - 1] != CR {
                return Err(Error::Parse);
            }
            return Ok(Some((i - 1, i + 1)));
        }
        i = i + 1;
    }
    Ok(None)
}

/// Where the run of digits that ends just before `end` starts.
pub open spec fn digits_start(s: Seq<u8>, end: int) -> int
    decreases end,
{
    if end <= 0 || end > s.len() || !is_digit(s[end - 1]) {
        end
    } else {
        digits_start(s, end - 1)
    }
}

/// What the end of a line says about a literal.
#[derive(Clone, Copy, Debug, PartialEq, Eq, Structural)]
pub enum Marker {
    /// The line does not end in `{digits}`.
    Absent,
    /// The line ends in `{digits}` and the number does not fit 64 bits.
    Oversized,
    /// The line ends in `{n}`: its own text stops at `cut`, and a literal of
    /// `length` bytes follows its terminator.
    Present { cut: usize, length: u64 },
}

/// The literal marker at the end of a line's text.
pub open spec fn marker_of(text: Seq<u8>) -> Marker {
    let close = text.len() - 1;
    let start = digits_start(text, close);
    if text.len() < 3 || text[close] != 125 || start == close || start == 0 || text[start - 1]
        != 123 {
        Marker::Absent
    } else {
        match decimal_of(text.subrange(start, close)) {
            Some(n) => Marker::Present { cut: (start - 1) as usize, length: n },
            None => Marker::Oversized,
        }
    }
}

/// Reads the literal marker at the end of `buf[from..end]`.
pub fn find_marker(buf: &[u8], from: usize, end: usize) -> (r: Marker)
    requires
        from <= end <= buf@.len(),
    ensures
        r == marker_of(buf@.subrange(from as int, end as int)),
        r matches Marker::Present { cut, length } ==> cut + 3 <= end - from,
{
    let ghost text = buf@.subrange(from as int, end as int);
    if end - from < 3 || buf[end - 1] != 125 {
        return Marker::Absent;
    }
    let close: usize = end - 1;
    let mut start: usize = close;
    while start > from && 48 <= buf[start - 1] && buf[start - 1] <= 57
        invariant
            from <= start <= close < end <= buf@.len(),
            text == buf@.subrange(from as int, end as int),
            digits_start(text, close - from) == digits_start(text, start - from),
        decreases start,
    {
        start = start - 1;
    }
    if start == close || start == from || buf[start - 1] != 123 {
        return Marker::Absent;
    }
    let digits = vstd::slice::slice_subrange(buf, start, close);
    proof {
        assert(digits@ =~= text.subrange(start - from, close - from));
    }
    match parse_decimal(digits) {
        Some(n) => Marker::Present { cut: start - 1 - from, length: n },
        None => Marker::Oversized,
    }
}

} // verus!
