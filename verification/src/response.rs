//! Server responses and their grammar.
//!
//! A response is a continuation request (`+ ...`), a tagged status
//! (`TAG OK|NO|BAD ...`), or untagged (`* ...`). An untagged response is a
//! status, a `BYE`, or data. Only data is split into tokens and may carry
//! literals; what this client does not model is kept as its tokens rather
//! than dropped.

use vstd::prelude::*;
use vstd::string::StringSliceAdditionalSpecFns;
use crate::command::rows_view;
use crate::lex::{Lexeme, Token, balanced, is_balanced, tokens_view};
use crate::text::{copy_of, is_keyword, number_of, parse_number, upper_all};

verus! {

/// The three outcomes a server reports.
#[derive(Clone, Copy, Debug, PartialEq, Eq, Structural)]
pub enum Status {
    /// `OK`
    Okay,
    /// `NO`
    No,
    /// `BAD`
    Bad,
}

/// A mailbox name listed by the server, as a mathematical value.
pub struct NameView {
    pub attributes: Seq<Seq<u8>>,
    pub delimiter: Option<Seq<u8>>,
    pub name: Seq<u8>,
}

/// A mailbox name listed by the server.
#[derive(Clone, Debug, PartialEq, Eq)]
pub struct Name {
    /// The name's attributes, such as `\Noselect`.
    pub attributes: Vec<Vec<u8>>,
    /// The hierarchy delimiter, where the name has one.
    pub delimiter: Option<Vec<u8>>,
    /// The name itself.
    pub name: Vec<u8>,
}

impl View for Name {
    type V = NameView;

    open spec fn view(&self) -> NameView {
        NameView {
            attributes: rows_view(self.attributes@),
            delimiter: match self.delimiter {
                Some(d) => Some(d@),
                None => None,
            },
            name: self.name@,
        }
    }
}

/// What the server reported of one message, as a mathematical value.
pub struct FetchView {
    pub message: u32,
    pub attributes: Seq<Lexeme>,
}

/// What the server reported of one message.
#[derive(Clone, Debug, PartialEq, Eq)]
pub struct Fetch {
    /// The message's sequence number.
    pub message: u32,
    /// The attributes, as the tokens between the outer parentheses.
    pub attributes: Vec<Token>,
}

impl View for Fetch {
    type V = FetchView;

    open spec fn view(&self) -> FetchView {
        FetchView { message: self.message, attributes: tokens_view(self.attributes@) }
    }
}

/// An untagged response, as a mathematical value.
pub enum DataView {
    Status { status: Status, text: Seq<u8> },
    Bye(Seq<u8>),
    Exists(u32),
    Recent(u32),
    Expunge(u32),
    Flags(Seq<Seq<u8>>),
    Capability(Seq<Seq<u8>>),
    List(NameView),
    Fetch(FetchView),
    Other(Seq<Lexeme>),
}

/// An untagged response.
#[derive(Clone, Debug, PartialEq, Eq)]
pub enum Data {
    /// `* OK ...`, `* NO ...` or `* BAD ...`, with the text behind the word.
    Status { status: Status, text: Vec<u8> },
    /// `* BYE ...`: the server is about to close the connection.
    Bye(Vec<u8>),
    /// `* n EXISTS`: the mailbox holds `n` messages.
    Exists(u32),
    /// `* n RECENT`: `n` messages are recent.
    Recent(u32),
    /// `* n EXPUNGE`: message `n` is gone.
    Expunge(u32),
    /// `* FLAGS (...)`: the flags defined in the mailbox.
    Flags(Vec<Vec<u8>>),
    /// `* CAPABILITY ...`: what the server supports.
    Capability(Vec<Vec<u8>>),
    /// `* LIST (...) delimiter name`.
    List(Name),
    /// `* n FETCH (...)`.
    Fetch(Fetch),
    /// Any other well-formed data, as its tokens.
    Other(Vec<Token>),
}

impl View for Data {
    type V = DataView;

    open spec fn view(&self) -> DataView {
        match self {
            Data::Status { status, text } => DataView::Status { status: *status, text: text@ },
            Data::Bye(text) => DataView::Bye(text@),
            Data::Exists(n) => DataView::Exists(*n),
            Data::Recent(n) => DataView::Recent(*n),
            Data::Expunge(n) => DataView::Expunge(*n),
            Data::Flags(flags) => DataView::Flags(rows_view(flags@)),
            Data::Capability(names) => DataView::Capability(rows_view(names@)),
            Data::List(name) => DataView::List(name@),
            Data::Fetch(fetch) => DataView::Fetch(fetch@),
            Data::Other(tokens) => DataView::Other(tokens_view(tokens@)),
        }
    }
}

/// A response, as a mathematical value.
pub enum ResponseView {
    Continuation(Seq<u8>),
    Tagged { tag: Seq<u8>, status: Status, text: Seq<u8> },
    Untagged(DataView),
}

/// A response.
#[derive(Clone, Debug, PartialEq, Eq)]
pub enum Response {
    /// `+ ...`: the server is ready for the rest of the command.
    Continuation(Vec<u8>),
    /// `TAG OK|NO|BAD ...`: the command sent under `tag` is complete.
    Tagged { tag: Vec<u8>, status: Status, text: Vec<u8> },
    /// `* ...`
    Untagged(Data),
}

impl View for Response {
    type V = ResponseView;

    open spec fn view(&self) -> ResponseView {
        match self {
            Response::Continuation(text) => ResponseView::Continuation(text@),
            Response::Tagged { tag, status, text } => ResponseView::Tagged {
                tag: tag@,
                status: *status,
                text: text@,
            },
            Response::Untagged(data) => ResponseView::Untagged(data@),
        }
    }
}

/// Whether the token is an atom that spells the upper-case keyword `word`
/// in any mix of cases.
pub open spec fn is_word(t: Lexeme, word: Seq<u8>) -> bool {
    t matches Lexeme::Atom(a) && upper_all(a) == word
}

/// Whether every token is an atom.
pub open spec fn all_atoms(ts: Seq<Lexeme>) -> bool {
    forall|i: int| 0 <= i < ts.len() ==> #[trigger] ts[i] is Atom
}

/// The text of a token that holds text; nothing for a parenthesis.
pub open spec fn text_of(t: Lexeme) -> Seq<u8> {
    match t {
        Lexeme::Atom(a) => a,
        Lexeme::Quoted(a) => a,
        Lexeme::Literal(a) => a,
        _ => Seq::empty(),
    }
}

/// The texts of the tokens, in order.
pub open spec fn texts(ts: Seq<Lexeme>) -> Seq<Seq<u8>> {
    Seq::new(ts.len(), |i: int| text_of(ts[i]))
}

/// The number in front of data such as `172 EXISTS`: the first of two
/// leading atoms, where it is a number.
pub open spec fn leading_number(ts: Seq<Lexeme>) -> Option<u32> {
    if ts.len() >= 2 && ts[1] is Atom {
        match ts[0] {
            Lexeme::Atom(a) => number_of(a),
            _ => None,
        }
    } else {
        None
    }
}

/// Whether the tokens have the shape of `n FETCH (...)`, the parentheses
/// enclosing a balanced list.
pub open spec fn is_fetch(ts: Seq<Lexeme>) -> bool {
    &&& ts.len() >= 4
    &&& is_word(ts[1], "FETCH".spec_bytes())
    &&& ts[2] is Open
    &&& ts[ts.len() - 1] is Close
    &&& balanced(ts.subrange(3, ts.len() - 1))
}

/// What data that starts with the number `n` means.
pub open spec fn meaning_numbered(ts: Seq<Lexeme>, n: u32) -> DataView {
    if ts.len() == 2 && is_word(ts[1], "EXISTS".spec_bytes()) {
        DataView::Exists(n)
    } else if ts.len() == 2 && is_word(ts[1], "RECENT".spec_bytes()) {
        DataView::Recent(n)
    } else if ts.len() == 2 && is_word(ts[1], "EXPUNGE".spec_bytes()) {
        DataView::Expunge(n)
    } else if is_fetch(ts) {
        DataView::Fetch(FetchView { message: n, attributes: ts.subrange(3, ts.len() - 1) })
    } else {
        DataView::Other(ts)
    }
}

/// Whether the tokens have the shape of `FLAGS (atom ...)`.
pub open spec fn is_flags(ts: Seq<Lexeme>) -> bool {
    &&& ts.len() >= 3
    &&& is_word(ts[0], "FLAGS".spec_bytes())
    &&& ts[1] is Open
    &&& ts[ts.len() - 1] is Close
    &&& all_atoms(ts.subrange(2, ts.len() - 1))
}

/// Whether the tokens have the shape of `CAPABILITY atom ...`.
pub open spec fn is_capability(ts: Seq<Lexeme>) -> bool {
    ts.len() >= 1 && is_word(ts[0], "CAPABILITY".spec_bytes()) && all_atoms(ts.skip(1))
}

/// Whether the tokens have the shape of `LIST (atom ...) delimiter name`,
/// the delimiter a quoted string or `NIL`, the name an atom or a string.
pub open spec fn is_list(ts: Seq<Lexeme>) -> bool {
    &&& ts.len() >= 5
    &&& is_word(ts[0], "LIST".spec_bytes())
    &&& ts[1] is Open
    &&& ts[ts.len() - 3] is Close
    &&& all_atoms(ts.subrange(2, ts.len() - 3))
    &&& (ts[ts.len() - 2] is Quoted || is_word(ts[ts.len() - 2], "NIL".spec_bytes()))
    &&& (ts[ts.len() - 1] is Atom || ts[ts.len() - 1] is Quoted || ts[ts.len() - 1] is Literal)
}

/// The name that tokens of the shape `is_list` describe.
pub open spec fn listed(ts: Seq<Lexeme>) -> NameView {
    NameView {
        attributes: texts(ts.subrange(2, ts.len() - 3)),
        delimiter: match ts[ts.len() - 2] {
            Lexeme::Quoted(d) => Some(d),
            _ => None,
        },
        name: text_of(ts[ts.len() - 1]),
    }
}

/// What data that does not start with a number means.
pub open spec fn meaning_named(ts: Seq<Lexeme>) -> DataView {
    if is_flags(ts) {
        DataView::Flags(texts(ts.subrange(2, ts.len() - 1)))
    } else if is_capability(ts) {
        DataView::Capability(texts(ts.skip(1)))
    } else if is_list(ts) {
        DataView::List(listed(ts))
    } else {
        DataView::Other(ts)
    }
}

/// What the tokens of a data response mean.
pub open spec fn meaning(ts: Seq<Lexeme>) -> DataView {
    match leading_number(ts) {
        Some(n) => meaning_numbered(ts, n),
        None => meaning_named(ts),
    }
}

/// Whether the token is an atom that spells `word` in any mix of cases.
pub fn token_is_word(t: &Token, word: &[u8]) -> (r: bool)
    ensures
        r == is_word(t@, word@),
{
    match t {
        Token::Atom(a) => is_keyword(a.as_slice(), word),
        _ => false,
    }
}

/// A copy of a token.
pub fn copy_token(t: &Token) -> (r: Token)
    ensures
        r@ == t@,
{
    match t {
        Token::Open => Token::Open,
        Token::Close => Token::Close,
        Token::Atom(a) => Token::Atom(copy_of(a.as_slice())),
        Token::Quoted(a) => Token::Quoted(copy_of(a.as_slice())),
        Token::Literal(a) => Token::Literal(copy_of(a.as_slice())),
    }
}

/// A copy of `tokens[from..to]`.
pub fn copy_tokens(tokens: &[Token], from: usize, to: usize) -> (r: Vec<Token>)
    requires
        from <= to <= tokens@.len(),
    ensures
        tokens_view(r@) == tokens_view(tokens@).subrange(from as int, to as int),
{
    let mut r: Vec<Token> = Vec::new();
    let mut i: usize = from;
    while i < to
        invariant
            from <= i <= to <= tokens@.len(),
            r@.len() == i - from,
            forall|k: int| 0 <= k < r@.len() ==> (#[trigger] r@[k])@ == tokens@[from + k]@,
        decreases to - i,
    {
        r.push(copy_token(&tokens[i]));
        i = i + 1;
    }
    proof {
        assert(tokens_view(r@) =~= tokens_view(tokens@).subrange(from as int, to as int));
    }
    r
}

/// The texts of `tokens[from..to]` where all of them are atoms.
pub fn atom_texts(tokens: &[Token], from: usize, to: usize) -> (r: Option<Vec<Vec<u8>>>)
    requires
        from <= to <= tokens@.len(),
    ensures
        match r {
            Some(rows) => all_atoms(tokens_view(tokens@).subrange(from as int, to as int))
                && rows_view(rows@) == texts(
                tokens_view(tokens@).subrange(from as int, to as int),
            ),
            None => !all_atoms(tokens_view(tokens@).subrange(from as int, to as int)),
        },
{
    let ghost part = tokens_view(tokens@).subrange(from as int, to as int);
    let mut rows: Vec<Vec<u8>> = Vec::new();
    let mut i: usize = from;
    while i < to
        invariant
            from <= i <= to <= tokens@.len(),
            part == tokens_view(tokens@).subrange(from as int, to as int),
            rows@.len() == i - from,
            forall|k: int| 0 <= k < i - from ==> #[trigger] part[k] is Atom,
            forall|k: int| 0 <= k < i - from ==> (#[trigger] rows@[k])@ == text_of(part[k]),
        decreases to - i,
    {
        proof {
            assert(part[i - from] == tokens@[i as int]@);
        }
        match &tokens[i] {
            Token::Atom(a) => {
                let ghost before = rows@;
                let copy = copy_of(a.as_slice());
                rows.push(copy);
                proof {
                    assert(rows@[i - from]@ == text_of(part[i - from]));
                    assert forall|k: int| 0 <= k < i + 1 - from implies (#[trigger] rows@[k])@
                        == text_of(part[k]) by {
                        if k < i - from {
                            assert(rows@[k] == before[k]);
                        }
                    }
                }
            },
            _ => {
                return None;
            },
        }
        i = i + 1;
    }
    proof {
        assert(rows_view(rows@) =~= texts(part));
    }
    Some(rows)
}

/// The text of a token that holds text; nothing for a parenthesis.
pub fn token_text(t: &Token) -> (r: Vec<u8>)
    ensures
        r@ == text_of(t@),
{
    match t {
        Token::Atom(a) => copy_of(a.as_slice()),
        Token::Quoted(a) => copy_of(a.as_slice()),
        Token::Literal(a) => copy_of(a.as_slice()),
        _ => Vec::new(),
    }
}

/// Reads data that starts with the number `n`.
fn interpret_numbered(tokens: Vec<Token>, n: u32) -> (r: Data)
    requires
        tokens@.len() >= 2,
    ensures
        r@ == meaning_numbered(tokens_view(tokens@), n),
{
    let len: usize = tokens.len();
    if len == 2 && token_is_word(&tokens[1], "EXISTS".as_bytes()) {
        Data::Exists(n)
    } else if len == 2 && token_is_word(&tokens[1], "RECENT".as_bytes()) {
        Data::Recent(n)
    } else if len == 2 && token_is_word(&tokens[1], "EXPUNGE".as_bytes()) {
        Data::Expunge(n)
    } else if len >= 4 && token_is_word(&tokens[1], "FETCH".as_bytes()) && matches!(
        tokens[2],
        Token::Open
    ) && matches!(tokens[len - 1], Token::Close) && is_balanced(tokens.as_slice(), 3, len - 1) {
        Data::Fetch(Fetch { message: n, attributes: copy_tokens(tokens.as_slice(), 3, len - 1) })
    } else {
        Data::Other(tokens)
    }
}

/// Whether the tokens have the shape of a `LIST` response.
fn has_list_shape(tokens: &[Token]) -> (r: bool)
    ensures
        r == is_list(tokens_view(tokens@)),
{
    let len: usize = tokens.len();
    if !(len >= 5 && token_is_word(&tokens[0], "LIST".as_bytes()) && matches!(
        tokens[1],
        Token::Open
    ) && matches!(tokens[len - 3], Token::Close)) {
        return false;
    }
    if atom_texts(tokens, 2, len - 3).is_none() {
        return false;
    }
    let delimiter_fits: bool = matches!(tokens[len - 2], Token::Quoted(_)) || token_is_word(
        &tokens[len - 2],
        "NIL".as_bytes(),
    );
    let name_fits: bool = matches!(
        tokens[len - 1],
        Token::Atom(_) | Token::Quoted(_) | Token::Literal(_)
    );
    delimiter_fits && name_fits
}

/// Reads data that does not start with a number.
fn interpret_named(tokens: Vec<Token>) -> (r: Data)
    ensures
        r@ == meaning_named(tokens_view(tokens@)),
{
    let len: usize = tokens.len();
    if len >= 3 && token_is_word(&tokens[0], "FLAGS".as_bytes()) && matches!(
        tokens[1],
        Token::Open
    ) && matches!(tokens[len - 1], Token::Close) {
        match atom_texts(tokens.as_slice(), 2, len - 1) {
            Some(flags) => {
                return Data::Flags(flags);
            },
            None => {},
        }
    }
    if len >= 1 && token_is_word(&tokens[0], "CAPABILITY".as_bytes()) {
        match atom_texts(tokens.as_slice(), 1, len) {
            Some(names) => {
                proof {
                    assert(tokens_view(tokens@).skip(1) =~= tokens_view(tokens@).subrange(
                        1,
                        len as int,
                    ));
                }
                return Data::Capability(names);
            },
            None => {
                proof {
                    assert(tokens_view(tokens@).skip(1) =~= tokens_view(tokens@).subrange(
                        1,
                        len as int,
                    ));
                }
            },
        }
    }
    if has_list_shape(tokens.as_slice()) {
        let attributes = atom_texts(tokens.as_slice(), 2, len - 3);
        let delimiter: Option<Vec<u8>> = match &tokens[len - 2] {
            Token::Quoted(d) => Some(copy_of(d.as_slice())),
            _ => None,
        };
        let name = token_text(&tokens[len - 1]);
        match attributes {
            Some(attributes) => Data::List(Name { attributes, delimiter, name }),
            None => Data::Other(tokens),
        }
    } else {
        Data::Other(tokens)
    }
}

/// Reads the tokens of a data response.
pub fn interpret(tokens: Vec<Token>) -> (r: Data)
    ensures
        r@ == meaning(tokens_view(tokens@)),
{
    if tokens.len() >= 2 && matches!(tokens[1], Token::Atom(_)) {
        let number: Option<u32> = match &tokens[0] {
            Token::Atom(a) => parse_number(a.as_slice()),
            _ => None,
        };
        match number {
            Some(n) => interpret_numbered(tokens, n),
            None => interpret_named(tokens),
        }
    } else {
        interpret_named(tokens)
    }
}

} // verus!
