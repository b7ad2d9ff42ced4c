//! Reading one response from the front of a byte buffer.
//!
//! A response is read whole or not at all: while a line or a literal of it
//! has not fully arrived, nothing is consumed. A literal is taken by its
//! announced length, never by looking for a line terminator in it.

use vstd::prelude::*;
use vstd::string::StringSliceAdditionalSpecFns;
use crate::error::Error;
use crate::frame::{Marker, find_line, find_marker, lemma_first_lf, line_at, marker_of};
use crate::lex::{
    Lexeme,
    Token,
    balanced,
    is_balanced,
    lemma_tokens_view_add,
    lemma_tokens_view_push,
    lex,
    tokenize,
    tokens_view,
};
use crate::response::{Data, DataView, Response, ResponseView, Status, interpret, meaning};
use crate::text::{SP, copy_range, is_keyword, upper_all};

verus! {

/// The position of the first space at or after `from`, or the length of
/// `s` where there is none.
pub open spec fn word_end(s: Seq<u8>, from: int) -> int
    decreases s.len() - from,
{
    if from < 0 || from >= s.len() {
        s.len() as int
    } else if s[from] == SP {
        from
    } else {
        word_end(s, from + 1)
    }
}

/// Finds the first space at or after `from`.
pub fn find_word_end(text: &[u8], from: usize) -> (r: usize)
    requires
        from <= text@.len(),
    ensures
        r == word_end(text@, from as int),
        from <= r <= text@.len(),
{
    let mut i: usize = from;
    while i < text.len() && text[i] != SP
        invariant
            from <= i <= text@.len(),
            word_end(text@, from as int) == word_end(text@, i as int),
        decreases text.len() - i,
    {
        i = i + 1;
    }
    i
}

/// The status that a word spells, in any mix of cases.
pub open spec fn status_of(word: Seq<u8>) -> Option<Status> {
    if upper_all(word) == "OK".spec_bytes() {
        Some(Status::Okay)
    } else if upper_all(word) == "NO".spec_bytes() {
        Some(Status::No)
    } else if upper_all(word) == "BAD".spec_bytes() {
        Some(Status::Bad)
    } else {
        None
    }
}

/// Reads a status word.
pub fn read_status(word: &[u8]) -> (r: Option<Status>)
    ensures
        r == status_of(word@),
{
    if is_keyword(word, "OK".as_bytes()) {
        Some(Status::Okay)
    } else if is_keyword(word, "NO".as_bytes()) {
        Some(Status::No)
    } else if is_keyword(word, "BAD".as_bytes()) {
        Some(Status::Bad)
    } else {
        None
    }
}

/// The text behind the word that ends at `end` and the space after it.
pub open spec fn rest_after(s: Seq<u8>, end: int) -> Seq<u8> {
    if 0 <= end < s.len() {
        s.skip(end + 1)
    } else {
        Seq::empty()
    }
}

/// Copies the text behind the word that ends at `end`.
fn copy_rest(text: &[u8], end: usize) -> (r: Vec<u8>)
    requires
        end <= text@.len(),
    ensures
        r@ == rest_after(text@, end as int),
{
    if end < text.len() {
        let r = copy_range(text, end + 1, text.len());
        proof {
            assert(text@.subrange(end + 1, text@.len() as int) =~= text@.skip(end + 1));
        }
        r
    } else {
        Vec::new()
    }
}

/// What the first line of a response shows.
pub enum Head {
    /// The line is the whole response.
    Whole(ResponseView),
    /// The line starts untagged data, whose tokens begin behind `* `.
    Data,
    /// The line is none of the three kinds of response.
    Broken,
}

/// What the text of a response's first line shows.
pub open spec fn head_of(text: Seq<u8>) -> Head {
    if text.len() > 0 && text[0] == 43 {
        Head::Whole(
            ResponseView::Continuation(
                if text.len() >= 2 && text[1] == SP {
                    text.skip(2)
                } else {
                    text.skip(1)
                },
            ),
        )
    } else if text.len() >= 2 && text[0] == 42 && text[1] == SP {
        let end = word_end(text, 2);
        let word = text.subrange(2, end);
        match status_of(word) {
            Some(status) => Head::Whole(
                ResponseView::Untagged(DataView::Status { status, text: rest_after(text, end) }),
            ),
            None => if upper_all(word) == "BYE".spec_bytes() {
                Head::Whole(ResponseView::Untagged(DataView::Bye(rest_after(text, end))))
            } else {
                Head::Data
            },
        }
    } else {
        let tag_end = word_end(text, 0);
        if tag_end == 0 || tag_end >= text.len() {
            Head::Broken
        } else {
            let end = word_end(text, tag_end + 1);
            match status_of(text.subrange(tag_end + 1, end)) {
                Some(status) => Head::Whole(
                    ResponseView::Tagged {
                        tag: text.take(tag_end),
                        status,
                        text: rest_after(text, end),
                    },
                ),
                None => Head::Broken,
            }
        }
    }
}

/// Reads the first line of a response: `Err` where it is broken,
/// `Ok(None)` where data follows, else the whole response.
pub fn read_head(text: &[u8]) -> (r: Result<Option<Response>, Error>)
    ensures
        match head_of(text@) {
            Head::Whole(response) => r matches Ok(Some(found)) && found@ == response,
            Head::Data => r matches Ok(None),
            Head::Broken => r matches Err(e) && e == Error::Parse,
        },
{
    let len: usize = text.len();
    if len > 0 && text[0] == 43 {
        let from: usize = if len >= 2 && text[1] == SP {
            2
        } else {
            1
        };
        let rest = copy_range(text, from, len);
        proof {
            assert(text@.subrange(from as int, len as int) =~= text@.skip(from as int));
        }
        Ok(Some(Response::Continuation(rest)))
    } else if len >= 2 && text[0] == 42 && text[1] == SP {
        let end = find_word_end(text, 2);
        let word = vstd::slice::slice_subrange(text, 2, end);
        match read_status(word) {
            Some(status) => Ok(
                Some(Response::Untagged(Data::Status { status, text: copy_rest(text, end) })),
            ),
            None => if is_keyword(word, "BYE".as_bytes()) {
                Ok(Some(Response::Untagged(Data::Bye(copy_rest(text, end)))))
            } else {
                Ok(None)
            },
        }
    } else {
        let tag_end = find_word_end(text, 0);
        if tag_end == 0 || tag_end >= len {
            Err(Error::Parse)
        } else {
            let end = find_word_end(text, tag_end + 1);
            let word = vstd::slice::slice_subrange(text, tag_end + 1, end);
            match read_status(word) {
                Some(status) => {
                    let tag = copy_range(text, 0, tag_end);
                    proof {
                        assert(text@.subrange(0, tag_end as int) =~= text@.take(tag_end as int));
                    }
                    Ok(Some(Response::Tagged { tag, status, text: copy_rest(text, end) }))
                },
                None => Err(Error::Parse),
            }
        }
    }
}

/// What the front of a buffer holds.
pub enum Scan {
    /// A response has started and not all of it has arrived.
    Incomplete,
    /// The bytes are not the start of any response.
    Malformed,
    /// A response, and the number of bytes it takes.
    Complete { response: ResponseView, length: int },
}

/// The rest of a data response read from the line that starts at `from`,
/// behind the tokens `acc` already read.
///
/// A line that ends in `{n}` is followed by `n` bytes that become one
/// literal token, whatever they hold, and the response goes on with the
/// line behind them.
pub open spec fn scan_data(s: Seq<u8>, from: int, acc: Seq<Lexeme>) -> Scan
    decreases s.len() - from,
{
    if from < 0 || from > s.len() {
        Scan::Malformed
    } else {
        match line_at(s, from) {
            Ok(None) => Scan::Incomplete,
            Err(_) => Scan::Malformed,
            Ok(Some((end, next))) => {
                let text = s.subrange(from, end);
                match marker_of(text) {
                    Marker::Absent => match lex(text) {
                        Some(tokens) => if balanced(acc + tokens) {
                            Scan::Complete {
                                response: ResponseView::Untagged(meaning(acc + tokens)),
                                length: next,
                            }
                        } else {
                            Scan::Malformed
                        },
                        None => Scan::Malformed,
                    },
                    Marker::Oversized => Scan::Malformed,
                    Marker::Present { cut, length } => match lex(text.take(cut as int)) {
                        Some(tokens) => if next + length > s.len() {
                            Scan::Incomplete
                        } else {
                            proof {
                                lemma_first_lf(s, from);
                            }
                            scan_data(
                                s,
                                next + length,
                                (acc + tokens).push(
                                    Lexeme::Literal(s.subrange(next, next + length)),
                                ),
                            )
                        },
                        None => Scan::Malformed,
                    },
                }
            },
        }
    }
}

/// What the front of `s` holds.
pub open spec fn scan(s: Seq<u8>) -> Scan {
    match line_at(s, 0) {
        Ok(None) => Scan::Incomplete,
        Err(_) => Scan::Malformed,
        Ok(Some((end, next))) => match head_of(s.subrange(0, end)) {
            Head::Whole(response) => Scan::Complete { response, length: next },
            Head::Data => scan_data(s, 2, Seq::empty()),
            Head::Broken => Scan::Malformed,
        },
    }
}

/// A data response that is complete ends behind the place from which it
/// was read, within the buffer.
pub proof fn lemma_scan_data_advances(s: Seq<u8>, from: int, acc: Seq<Lexeme>)
    ensures
        scan_data(s, from, acc) matches Scan::Complete { length, .. } ==> from < length <= s.len(),
    decreases s.len() - from,
{
    if 0 <= from <= s.len() {
        lemma_first_lf(s, from);
        match line_at(s, from) {
            Ok(Some((end, next))) => {
                match marker_of(s.subrange(from, end)) {
                    Marker::Present { cut, length } => {
                        match lex(s.subrange(from, end).take(cut as int)) {
                            Some(tokens) => {
                                if next + length <= s.len() {
                                    lemma_scan_data_advances(
                                        s,
                                        next + length,
                                        (acc + tokens).push(
                                            Lexeme::Literal(s.subrange(next, next + length)),
                                        ),
                                    );
                                }
                            },
                            None => {},
                        }
                    },
                    _ => {},
                }
            },
            _ => {},
        }
    }
}

/// A response that is complete takes at least one byte, and no more than
/// the buffer holds.
pub proof fn lemma_scan_advances(s: Seq<u8>)
    ensures
        scan(s) matches Scan::Complete { length, .. } ==> 0 < length <= s.len(),
{
    lemma_first_lf(s, 0);
    lemma_scan_data_advances(s, 2, Seq::empty());
}

/// Reads the data response whose tokens start at `buf[2]`.
fn parse_data(buf: &[u8]) -> (r: Result<Option<(Response, usize)>, Error>)
    requires
        2 <= buf@.len(),
    ensures
        match scan_data(buf@, 2, Seq::empty()) {
            Scan::Incomplete => r matches Ok(None),
            Scan::Malformed => r matches Err(e) && e == Error::Parse,
            Scan::Complete { response, length } => r matches Ok(Some((found, n))) && found@
                == response && n == length && 0 < n <= buf@.len(),
        },
{
    let mut tokens: Vec<Token> = Vec::new();
    let mut pos: usize = 2;
    proof {
        assert(tokens_view(tokens@) =~= Seq::<Lexeme>::empty());
    }
    loop
        invariant
            2 <= pos <= buf@.len(),
            scan_data(buf@, 2, Seq::empty()) == scan_data(buf@, pos as int, tokens_view(tokens@)),
        decreases buf@.len() - pos,
    {
        let ghost acc = tokens_view(tokens@);
        match find_line(buf, pos) {
            Err(_) => {
                return Err(Error::Parse);
            },
            Ok(None) => {
                return Ok(None);
            },
            Ok(Some((end, next))) => {
                let ghost text = buf@.subrange(pos as int, end as int);
                match find_marker(buf, pos, end) {
                    Marker::Absent => {
                        let line = vstd::slice::slice_subrange(buf, pos, end);
                        match tokenize(line) {
                            Some(mut more) => {
                                proof {
                                    lemma_tokens_view_add(tokens@, more@);
                                }
                                tokens.append(&mut more);
                                if is_balanced(tokens.as_slice(), 0, tokens.len()) {
                                    proof {
                                        assert(tokens_view(tokens@).subrange(
                                            0,
                                            tokens@.len() as int,
                                        ) =~= tokens_view(tokens@));
                                    }
                                    return Ok(Some((Response::Untagged(interpret(tokens)), next)));
                                } else {
                                    proof {
                                        assert(tokens_view(tokens@).subrange(
                                            0,
                                            tokens@.len() as int,
                                        ) =~= tokens_view(tokens@));
                                    }
                                    return Err(Error::Parse);
                                }
                            },
                            None => {
                                return Err(Error::Parse);
                            },
                        }
                    },
                    Marker::Oversized => {
                        return Err(Error::Parse);
                    },
                    Marker::Present { cut, length } => {
                        let line = vstd::slice::slice_subrange(buf, pos, pos + cut);
                        proof {
                            assert(line@ =~= text.take(cut as int));
                        }
                        match tokenize(line) {
                            Some(mut more) => {
                                if length > (buf.len() - next) as u64 {
                                    return Ok(None);
                                }
                                let n: usize = length as usize;
                                proof {
                                    lemma_tokens_view_add(tokens@, more@);
                                }
                                tokens.append(&mut more);
                                let literal = Token::Literal(copy_range(buf, next, next + n));
                                proof {
                                    lemma_tokens_view_push(tokens@, literal);
                                }
                                tokens.push(literal);
                                pos = next + n;
                            },
                            None => {
                                return Err(Error::Parse);
                            },
                        }
                    },
                }
            },
        }
    }
}

/// Reads one response from the front of `buf`.
///
/// Returns the response and the number of bytes it takes; `None` while a
/// response has started and not all of it has arrived; `Parse` where the
/// bytes are not the start of any response.
pub fn parse(buf: &[u8]) -> (r: Result<Option<(Response, usize)>, Error>)
    ensures
        match scan(buf@) {
            Scan::Incomplete => r matches Ok(None),
            Scan::Malformed => r matches Err(e) && e == Error::Parse,
            Scan::Complete { response, length } => r matches Ok(Some((found, n))) && found@
                == response && n == length && 0 < n <= buf@.len(),
        },
{
    match find_line(buf, 0) {
        Err(_) => Err(Error::Parse),
        Ok(None) => Ok(None),
        Ok(Some((end, next))) => {
            let text = vstd::slice::slice_subrange(buf, 0, end);
            match read_head(text) {
                Err(_) => Err(Error::Parse),
                Ok(Some(response)) => Ok(Some((response, next))),
                Ok(None) => parse_data(buf),
            }
        },
    }
}

} // verus!
