//! Reading the attributes of a fetch result.
//!
//! The attributes of a message come as pairs of a name and a value, the
//! value being one token or a parenthesised group.

use vstd::prelude::*;
use vstd::string::StringSliceAdditionalSpecFns;
use crate::command::rows_view;
use crate::lex::{Lexeme, Token, tokens_view};
use crate::response::{
    Fetch,
    FetchView,
    all_atoms,
    atom_texts,
    copy_tokens,
    is_word,
    texts,
    token_is_word,
    token_text,
};
use crate::text::{number_of, parse_number};

verus! {

/// The position behind the value that is being read at `i`, `depth`
/// parentheses of it being open: a value is one token, or runs up to the
/// parenthesis that closes its first.
pub open spec fn group_end(ts: Seq<Lexeme>, i: int, depth: int) -> int
    decreases ts.len() - i,
{
    if i < 0 || i >= ts.len() {
        ts.len() as int
    } else {
        match ts[i] {
            Lexeme::Open => group_end(ts, i + 1, depth + 1),
            Lexeme::Close => if depth <= 1 {
                i + 1
            } else {
                group_end(ts, i + 1, depth - 1)
            },
            _ => if depth <= 0 {
                i + 1
            } else {
                group_end(ts, i + 1, depth)
            },
        }
    }
}

/// The position behind the value that starts at `i`.
pub open spec fn value_end(ts: Seq<Lexeme>, i: int) -> int {
    group_end(ts, i, 0)
}

/// A value that starts within the tokens ends behind its start, within
/// the tokens.
pub proof fn lemma_group_end(ts: Seq<Lexeme>, i: int, depth: int)
    requires
        0 <= i < ts.len(),
    ensures
        i < group_end(ts, i, depth) <= ts.len(),
    decreases ts.len() - i,
{
    if i + 1 < ts.len() {
        lemma_group_end(ts, i + 1, depth + 1);
        lemma_group_end(ts, i + 1, depth - 1);
        lemma_group_end(ts, i + 1, depth);
    } else {
        reveal_with_fuel(group_end, 2);
    }
}

/// Where the value of the first attribute named `name` stands, reading
/// pairs of name and value from `i` on: its first token and the position
/// behind its last. `name` is compared without regard to case and is given
/// in upper case.
pub open spec fn attribute_from(ts: Seq<Lexeme>, name: Seq<u8>, i: int) -> Option<(int, int)>
    decreases ts.len() - i,
{
    if i < 0 || i + 1 >= ts.len() {
        None
    } else if is_word(ts[i], name) {
        Some((i + 1, value_end(ts, i + 1)))
    } else {
        proof {
            lemma_group_end(ts, i + 1, 0);
        }
        attribute_from(ts, name, value_end(ts, i + 1))
    }
}

/// The unique identifier among the attributes: the value of `UID`, where
/// it is a number.
pub open spec fn uid_of(f: FetchView) -> Option<u32> {
    match attribute_from(f.attributes, "UID".spec_bytes(), 0) {
        Some((at, end)) => match f.attributes[at] {
            Lexeme::Atom(a) => number_of(a),
            _ => None,
        },
        None => None,
    }
}

/// The flags among the attributes: the value of `FLAGS`, where it is a
/// parenthesised list of atoms.
pub open spec fn flags_of(f: FetchView) -> Option<Seq<Seq<u8>>> {
    match attribute_from(f.attributes, "FLAGS".spec_bytes(), 0) {
        Some((at, end)) => if at + 2 <= end && f.attributes[at] is Open && f.attributes[end - 1]
            is Close && all_atoms(f.attributes.subrange(at + 1, end - 1)) {
            Some(texts(f.attributes.subrange(at + 1, end - 1)))
        } else {
            None
        },
        None => None,
    }
}

/// The value of the attribute `name`, where it is a string: quoted or a
/// literal.
pub open spec fn string_of(f: FetchView, name: Seq<u8>) -> Option<Seq<u8>> {
    match attribute_from(f.attributes, name, 0) {
        Some((at, end)) => match f.attributes[at] {
            Lexeme::Quoted(s) => Some(s),
            Lexeme::Literal(s) => Some(s),
            _ => None,
        },
        None => None,
    }
}

/// The tokens of the value of the attribute `name`.
pub open spec fn value_of(f: FetchView, name: Seq<u8>) -> Option<Seq<Lexeme>> {
    match attribute_from(f.attributes, name, 0) {
        Some((at, end)) => Some(f.attributes.subrange(at, end)),
        None => None,
    }
}

/// Finds the position behind the value that starts at `i`.
pub fn find_value_end(tokens: &[Token], i: usize) -> (r: usize)
    requires
        i < tokens@.len(),
    ensures
        r == value_end(tokens_view(tokens@), i as int),
        i < r <= tokens@.len(),
{
    let ghost ts = tokens_view(tokens@);
    let mut depth: usize = 0;
    let mut j: usize = i;
    proof {
        lemma_group_end(ts, i as int, 0);
    }
    while j < tokens.len()
        invariant
            i <= j <= tokens@.len(),
            ts == tokens_view(tokens@),
            depth <= j - i,
            i < value_end(ts, i as int) <= ts.len(),
            value_end(ts, i as int) == group_end(ts, j as int, depth as int),
        decreases tokens.len() - j,
    {
        proof {
            assert(ts[j as int] == tokens@[j as int]@);
        }
        match &tokens[j] {
            Token::Open => {
                depth = depth + 1;
            },
            Token::Close => {
                if depth <= 1 {
                    return j + 1;
                }
                depth = depth - 1;
            },
            _ => {
                if depth == 0 {
                    return j + 1;
                }
            },
        }
        j = j + 1;
    }
    j
}

impl Fetch {
    /// Where the value of the first attribute named `name` stands among
    /// the attributes. `name` is given in upper case.
    pub fn attribute(&self, name: &[u8]) -> (r: Option<(usize, usize)>)
        ensures
            match r {
                Some((at, end)) => attribute_from(self@.attributes, name@, 0) == Some(
                    (at as int, end as int),
                ) && at < end <= self.attributes@.len(),
                None => attribute_from(self@.attributes, name@, 0) is None,
            },
    {
        let ghost ts = self@.attributes;
        let mut i: usize = 0;
        while i < self.attributes.len() && i + 1 < self.attributes.len()
            invariant
                i <= self.attributes@.len(),
                ts == tokens_view(self.attributes@),
                attribute_from(ts, name@, 0) == attribute_from(ts, name@, i as int),
            decreases self.attributes.len() - i,
        {
            proof {
                assert(ts[i as int] == self.attributes@[i as int]@);
            }
            let end = find_value_end(self.attributes.as_slice(), i + 1);
            if token_is_word(&self.attributes[i], name) {
                return Some((i + 1, end));
            }
            i = end;
        }
        None
    }

    /// The message's unique identifier, where the server gave it.
    pub fn uid(&self) -> (r: Option<u32>)
        ensures
            r == uid_of(self@),
    {
        match self.attribute("UID".as_bytes()) {
            Some((at, _)) => {
                proof {
                    assert(self@.attributes[at as int] == self.attributes@[at as int]@);
                }
                match &self.attributes[at] {
                    Token::Atom(a) => parse_number(a.as_slice()),
                    _ => None,
                }
            },
            None => None,
        }
    }

    /// The message's flags, where the server gave them.
    pub fn flags(&self) -> (r: Option<Vec<Vec<u8>>>)
        ensures
            match r {
                Some(flags) => flags_of(self@) == Some(rows_view(flags@)),
                None => flags_of(self@) is None,
            },
    {
        match self.attribute("FLAGS".as_bytes()) {
            Some((at, end)) => {
                proof {
                    assert(self@.attributes[at as int] == self.attributes@[at as int]@);
                    assert(self@.attributes[end - 1] == self.attributes@[end - 1]@);
                }
                if end - at >= 2 && matches!(self.attributes[at], Token::Open) && matches!(
                    self.attributes[end - 1],
                    Token::Close
                ) {
                    atom_texts(self.attributes.as_slice(), at + 1, end - 1)
                } else {
                    None
                }
            },
            None => None,
        }
    }

    /// The value of the attribute `name`, where it is a string. `name` is
    /// given in upper case.
    pub fn string(&self, name: &[u8]) -> (r: Option<Vec<u8>>)
        ensures
            match r {
                Some(s) => string_of(self@, name@) == Some(s@),
                None => string_of(self@, name@) is None,
            },
    {
        match self.attribute(name) {
            Some((at, _)) => {
                proof {
                    assert(self@.attributes[at as int] == self.attributes@[at as int]@);
                }
                match &self.attributes[at] {
                    Token::Quoted(_) => Some(token_text(&self.attributes[at])),
                    Token::Literal(_) => Some(token_text(&self.attributes[at])),
                    _ => None,
                }
            },
            None => None,
        }
    }

    /// The whole message, where the server sent it as `BODY[]`.
    pub fn body(&self) -> (r: Option<Vec<u8>>)
        ensures
            match r {
                Some(s) => string_of(self@, "BODY[]".spec_bytes()) == Some(s@),
                None => string_of(self@, "BODY[]".spec_bytes()) is None,
            },
    {
        self.string("BODY[]".as_bytes())
    }

    /// The tokens of the value of the attribute `name`. `name` is given in
    /// upper case.
    pub fn value(&self, name: &[u8]) -> (r: Option<Vec<Token>>)
        ensures
            match r {
                Some(tokens) => value_of(self@, name@) == Some(tokens_view(tokens@)),
                None => value_of(self@, name@) is None,
            },
    {
        match self.attribute(name) {
            Some((at, end)) => Some(copy_tokens(self.attributes.as_slice(), at, end)),
            None => None,
        }
    }

    /// The message's envelope, as the tokens the server sent.
    pub fn envelope(&self) -> (r: Option<Vec<Token>>)
        ensures
            match r {
                Some(tokens) => value_of(self@, "ENVELOPE".spec_bytes()) == Some(
                    tokens_view(tokens@),
                ),
                None => value_of(self@, "ENVELOPE".spec_bytes()) is None,
            },
    {
        self.value("ENVELOPE".as_bytes())
    }
}

} // verus!
