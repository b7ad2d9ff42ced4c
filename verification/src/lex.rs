//! Splitting the text of a data response into tokens.
//!
//! Spaces separate tokens. A parenthesis is a token of its own. A double
//! quote opens a quoted string, in which a backslash may stand only before
//! a double quote or a backslash. Anything else starts an atom, which runs
//! up to the next space, parenthesis or double quote outside square
//! brackets: `BODY[HEADER.FIELDS (DATE FROM)]` is one atom.

use vstd::prelude::*;
use crate::text::{SP, copy_range};

verus! {

/// A token, as a mathematical value.
pub enum Lexeme {
    Open,
    Close,
    Atom(Seq<u8>),
    Quoted(Seq<u8>),
    Literal(Seq<u8>),
}

/// A token of a data response.
#[derive(Clone, Debug, PartialEq, Eq)]
pub enum Token {
    /// `(`
    Open,
    /// `)`
    Close,
    /// An atom, as written.
    Atom(Vec<u8>),
    /// A quoted string, unescaped.
    Quoted(Vec<u8>),
    /// A literal's bytes.
    Literal(Vec<u8>),
}

impl View for Token {
    type V = Lexeme;

    open spec fn view(&self) -> Lexeme {
        match self {
            Token::Open => Lexeme::Open,
            Token::Close => Lexeme::Close,
            Token::Atom(s) => Lexeme::Atom(s@),
            Token::Quoted(s) => Lexeme::Quoted(s@),
            Token::Literal(s) => Lexeme::Literal(s@),
        }
    }
}

/// What `tokens` hold, token by token.
pub open spec fn tokens_view(tokens: Seq<Token>) -> Seq<Lexeme> {
    Seq::new(tokens.len(), |i: int| tokens[i]@)
}

/// Appending a token appends its view.
pub proof fn lemma_tokens_view_push(tokens: Seq<Token>, t: Token)
    ensures
        tokens_view(tokens.push(t)) == tokens_view(tokens).push(t@),
{
    assert(tokens_view(tokens.push(t)) =~= tokens_view(tokens).push(t@));
}

/// Concatenating token lists concatenates their views.
pub proof fn lemma_tokens_view_add(a: Seq<Token>, b: Seq<Token>)
    ensures
        tokens_view(a + b) == tokens_view(a) + tokens_view(b),
{
    assert(tokens_view(a + b) =~= tokens_view(a) + tokens_view(b));
}

/// Where the atom that is being read at `i` ends. `inside` says whether
/// `i` lies within square brackets.
pub open spec fn atom_end(s: Seq<u8>, i: int, inside: bool) -> int
    decreases s.len() - i,
{
    if i < 0 || i >= s.len() {
        s.len() as int
    } else if inside {
        atom_end(s, i + 1, s[i] != 93)
    } else if s[i] == SP || s[i] == 40 || s[i] == 41 || s[i] == 34 {
        i
    } else {
        atom_end(s, i + 1, s[i] == 91)
    }
}

/// An atom ends at or after the place from which it is read.
pub proof fn lemma_atom_end(s: Seq<u8>, i: int, inside: bool)
    requires
        0 <= i <= s.len(),
    ensures
        i <= atom_end(s, i, inside) <= s.len(),
    decreases s.len() - i,
{
    if i < s.len() {
        if inside {
            lemma_atom_end(s, i + 1, s[i] != 93);
        } else if !(s[i] == SP || s[i] == 40 || s[i] == 41 || s[i] == 34) {
            lemma_atom_end(s, i + 1, s[i] == 91);
        }
    }
}

/// The rest of a quoted string read from `i`, behind the content `acc`
/// already read: the whole content and the position behind the closing
/// quote, or `None` where the string is not closed or a backslash stands
/// before anything but a double quote or a backslash.
pub open spec fn quoted_from(s: Seq<u8>, i: int, acc: Seq<u8>) -> Option<(Seq<u8>, int)>
    decreases s.len() - i,
{
    if i < 0 || i >= s.len() {
        None
    } else if s[i] == 34 {
        Some((acc, i + 1))
    } else if s[i] == 92 {
        if i + 1 < s.len() && (s[i + 1] == 34 || s[i + 1] == 92) {
            quoted_from(s, i + 2, acc.push(s[i + 1]))
        } else {
            None
        }
    } else {
        quoted_from(s, i + 1, acc.push(s[i]))
    }
}

/// A quoted string ends behind the place from which it is read.
pub proof fn lemma_quoted_from(s: Seq<u8>, i: int, acc: Seq<u8>)
    requires
        0 <= i <= s.len(),
    ensures
        quoted_from(s, i, acc) matches Some((_, next)) ==> i < next <= s.len(),
    decreases s.len() - i,
{
    if i < s.len() && s[i] != 34 {
        if s[i] == 92 {
            if i + 1 < s.len() && (s[i + 1] == 34 || s[i + 1] == 92) {
                lemma_quoted_from(s, i + 2, acc.push(s[i + 1]));
            }
        } else {
            lemma_quoted_from(s, i + 1, acc.push(s[i]));
        }
    }
}

/// The tokens of `s` from `i` on, behind the tokens `acc` already read, or
/// `None` where a quoted string is malformed.
pub open spec fn lex_from(s: Seq<u8>, i: int, acc: Seq<Lexeme>) -> Option<Seq<Lexeme>>
    decreases s.len() - i,
{
    if i < 0 || i >= s.len() {
        Some(acc)
    } else if s[i] == SP {
        lex_from(s, i + 1, acc)
    } else if s[i] == 40 {
        lex_from(s, i + 1, acc.push(Lexeme::Open))
    } else if s[i] == 41 {
        lex_from(s, i + 1, acc.push(Lexeme::Close))
    } else if s[i] == 34 {
        match quoted_from(s, i + 1, Seq::empty()) {
            Some((content, next)) => {
                proof {
                    lemma_quoted_from(s, i + 1, Seq::empty());
                }
                lex_from(s, next, acc.push(Lexeme::Quoted(content)))
            },
            None => None,
        }
    } else {
        let end = atom_end(s, i + 1, s[i] == 91);
        proof {
            lemma_atom_end(s, i + 1, s[i] == 91);
        }
        lex_from(s, end, acc.push(Lexeme::Atom(s.subrange(i, end))))
    }
}

/// The tokens of a line's text.
pub open spec fn lex(s: Seq<u8>) -> Option<Seq<Lexeme>> {
    lex_from(s, 0, Seq::empty())
}

/// Splits a line's text into tokens. `None` where a quoted string is
/// malformed.
pub fn tokenize(text: &[u8]) -> (r: Option<Vec<Token>>)
    ensures
        match r {
            Some(tokens) => lex(text@) == Some(tokens_view(tokens@)),
            None => lex(text@) is None,
        },
{
    let mut out: Vec<Token> = Vec::new();
    let mut i: usize = 0;
    proof {
        assert(tokens_view(out@) =~= Seq::<Lexeme>::empty());
    }
    while i < text.len()
        invariant
            i <= text.len(),
            lex(text@) == lex_from(text@, i as int, tokens_view(out@)),
        decreases text.len() - i,
    {
        let b: u8 = text[i];
        let ghost before = out@;
        if b == SP {
            i = i + 1;
        } else if b == 40 {
            out.push(Token::Open);
            proof {
                lemma_tokens_view_push(before, Token::Open);
            }
            i = i + 1;
        } else if b == 41 {
            out.push(Token::Close);
            proof {
                lemma_tokens_view_push(before, Token::Close);
            }
            i = i + 1;
        } else if b == 34 {
            let mut content: Vec<u8> = Vec::new();
            let mut j: usize = i + 1;
            let mut closed: bool = false;
            while j < text.len()
                invariant_except_break
                    !closed,
                invariant
                    i < j <= text.len(),
                    closed ==> quoted_from(text@, i + 1, Seq::empty()) == Some(
                        (content@, j as int),
                    ),
                    !closed ==> quoted_from(text@, i + 1, Seq::empty()) == quoted_from(
                        text@,
                        j as int,
                        content@,
                    ),
                ensures
                    !closed ==> quoted_from(text@, i + 1, Seq::empty()) is None,
                decreases text.len() - j,
            {
                let c: u8 = text[j];
                if c == 34 {
                    closed = true;
                    j = j + 1;
                    break ;
                } else if c == 92 {
                    if j + 1 < text.len() && (text[j + 1] == 34 || text[j + 1] == 92) {
                        content.push(text[j + 1]);
                        j = j + 2;
                    } else {
                        break ;
                    }
                } else {
                    content.push(c);
                    j = j + 1;
                }
            }
            if !closed {
                return None;
            }
            let t = Token::Quoted(content);
            out.push(t);
            proof {
                lemma_tokens_view_push(before, t);
            }
            i = j;
        } else {
            let mut j: usize = i + 1;
            let mut inside: bool = b == 91;
            while j < text.len() && (inside || !(text[j] == SP || text[j] == 40 || text[j] == 41
                || text[j] == 34))
                invariant
                    i < j <= text.len(),
                    atom_end(text@, i + 1, b == 91) == atom_end(text@, j as int, inside),
                decreases text.len() - j,
            {
                if inside {
                    inside = text[j] != 93;
                } else {
                    inside = text[j] == 91;
                }
                j = j + 1;
            }
            let t = Token::Atom(copy_range(text, i, j));
            out.push(t);
            proof {
                lemma_tokens_view_push(before, t);
            }
            i = j;
        }
    }
    Some(out)
}

/// Whether the parentheses among `tokens[i..]` close `depth` open ones and
/// each other.
pub open spec fn closes(tokens: Seq<Lexeme>, i: int, depth: int) -> bool
    decreases tokens.len() - i,
{
    if i < 0 || i >= tokens.len() {
        depth == 0
    } else {
        match tokens[i] {
            Lexeme::Open => closes(tokens, i + 1, depth + 1),
            Lexeme::Close => depth > 0 && closes(tokens, i + 1, depth - 1),
            _ => closes(tokens, i + 1, depth),
        }
    }
}

/// Whether every parenthesis among the tokens has its partner.
pub open spec fn balanced(tokens: Seq<Lexeme>) -> bool {
    closes(tokens, 0, 0)
}

/// Whether every parenthesis among `tokens[from..to]` has its partner
/// there.
pub fn is_balanced(tokens: &[Token], from: usize, to: usize) -> (r: bool)
    requires
        from <= to <= tokens@.len(),
    ensures
        r == balanced(tokens_view(tokens@).subrange(from as int, to as int)),
{
    let ghost part = tokens_view(tokens@).subrange(from as int, to as int);
    let mut depth: usize = 0;
    let mut i: usize = from;
    while i < to
        invariant
            from <= i <= to <= tokens@.len(),
            depth <= i - from,
            part == tokens_view(tokens@).subrange(from as int, to as int),
            balanced(part) == closes(part, i - from, depth as int),
        decreases to - i,
    {
        proof {
            assert(part[i - from] == tokens@[i as int]@);
        }
        match &tokens[i] {
            Token::Open => {
                depth = depth + 1;
            },
            Token::Close => {
                if depth == 0 {
                    return false;
                }
                depth = depth - 1;
            },
            _ => {},
        }
        i = i + 1;
    }
    depth == 0
}

} // verus!
