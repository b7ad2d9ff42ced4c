//! Commands and their encoding.
//!
//! A command goes out as `TAG SP VERB (SP ARG)* CRLF`. A literal argument
//! splits the line: the client sends up to and including the literal's
//! `{n}` header and its line terminator, waits for the server's
//! continuation request, and only then goes on with the literal's bytes.
//! The encoder therefore returns the command as a list of segments, each
//! but the last ending in such a header.

use vstd::prelude::*;
use vstd::string::StringSliceAdditionalSpecFns;
use crate::text::{
    CR,
    LF,
    SP,
    crlf,
    decimal_digits,
    lemma_decimal_digits_injective,
    push_bytes,
    push_decimal,
};

verus! {

/// The commands this client issues.
#[derive(Clone, Copy, Debug, PartialEq, Eq, Structural)]
pub enum Verb {
    Capability,
    List,
    Create,
    Subscribe,
    Close,
    Select,
    Fetch,
    UidFetch,
    UidStore,
    UidMove,
    UidCopy,
    Idle,
}

impl Verb {
    /// The verb as it is written on the wire.
    pub open spec fn name(self) -> Seq<u8> {
        match self {
            Verb::Capability => "CAPABILITY".spec_bytes(),
            Verb::List => "LIST".spec_bytes(),
            Verb::Create => "CREATE".spec_bytes(),
            Verb::Subscribe => "SUBSCRIBE".spec_bytes(),
            Verb::Close => "CLOSE".spec_bytes(),
            Verb::Select => "SELECT".spec_bytes(),
            Verb::Fetch => "FETCH".spec_bytes(),
            Verb::UidFetch => "UID FETCH".spec_bytes(),
            Verb::UidStore => "UID STORE".spec_bytes(),
            Verb::UidMove => "UID MOVE".spec_bytes(),
            Verb::UidCopy => "UID COPY".spec_bytes(),
            Verb::Idle => "IDLE".spec_bytes(),
        }
    }

    /// The verb as it is written on the wire.
    pub fn wire_name(self) -> (r: &'static [u8])
        ensures
            r@ == self.name(),
    {
        match self {
            Verb::Capability => "CAPABILITY".as_bytes(),
            Verb::List => "LIST".as_bytes(),
            Verb::Create => "CREATE".as_bytes(),
            Verb::Subscribe => "SUBSCRIBE".as_bytes(),
            Verb::Close => "CLOSE".as_bytes(),
            Verb::Select => "SELECT".as_bytes(),
            Verb::Fetch => "FETCH".as_bytes(),
            Verb::UidFetch => "UID FETCH".as_bytes(),
            Verb::UidStore => "UID STORE".as_bytes(),
            Verb::UidMove => "UID MOVE".as_bytes(),
            Verb::UidCopy => "UID COPY".as_bytes(),
            Verb::Idle => "IDLE".as_bytes(),
        }
    }
}

/// The text of the tag with number `n`: the letter `A` and the number in
/// decimal.
pub open spec fn tag_text(n: nat) -> Seq<u8> {
    seq![65u8] + decimal_digits(n)
}

/// Different tag numbers give different tags.
pub proof fn lemma_tags_distinct(a: nat, b: nat)
    requires
        a != b,
    ensures
        tag_text(a) != tag_text(b),
{
    if tag_text(a) == tag_text(b) {
        assert(tag_text(a).skip(1) =~= decimal_digits(a));
        assert(tag_text(b).skip(1) =~= decimal_digits(b));
        lemma_decimal_digits_injective(a, b);
    }
}

/// Writes the tag with number `n`.
pub fn format_tag(n: u64) -> (r: Vec<u8>)
    ensures
        r@ == tag_text(n as nat),
{
    let mut r: Vec<u8> = Vec::new();
    r.push(65u8);
    push_decimal(&mut r, n);
    proof {
        assert(r@ =~= tag_text(n as nat));
    }
    r
}

/// Text that can be sent as it stands: not empty, printable ASCII, and no
/// opening brace, so that it can neither end the line nor announce a
/// literal.
pub open spec fn verbatim(s: Seq<u8>) -> bool {
    s.len() > 0 && forall|i: int| 0 <= i < s.len() ==> 32 <= #[trigger] s[i] <= 126 && s[i] != 123
}

/// Text that can be sent between double quotes: seven-bit, and free of NUL,
/// carriage return and line feed.
pub open spec fn quotable(s: Seq<u8>) -> bool {
    forall|i: int| 0 <= i < s.len() ==> 1 <= #[trigger] s[i] <= 127 && s[i] != CR && s[i] != LF
}

/// `s` with a backslash before every double quote and backslash.
pub open spec fn escaped(s: Seq<u8>) -> Seq<u8>
    decreases s.len(),
{
    if s.len() == 0 {
        Seq::empty()
    } else if s.last() == 34 || s.last() == 92 {
        escaped(s.drop_last()).push(92u8).push(s.last())
    } else {
        escaped(s.drop_last()).push(s.last())
    }
}

/// One argument of a command, as a mathematical value.
pub enum ArgView {
    Atom(Seq<u8>),
    Quoted(Seq<u8>),
    Literal(Seq<u8>),
}

impl ArgView {
    /// An atom holds verbatim text, a quoted string quotable text, a
    /// literal anything.
    pub open spec fn well_formed(self) -> bool {
        match self {
            ArgView::Atom(s) => verbatim(s),
            ArgView::Quoted(s) => quotable(s),
            ArgView::Literal(_) => true,
        }
    }

    /// The argument for text meant to go out as it stands: an atom where
    /// that is safe, else a string.
    pub open spec fn of_text(s: Seq<u8>) -> ArgView {
        if verbatim(s) {
            ArgView::Atom(s)
        } else {
            ArgView::of_string(s)
        }
    }

    /// The argument for a string: quoted where that is possible, else a
    /// literal.
    pub open spec fn of_string(s: Seq<u8>) -> ArgView {
        if quotable(s) {
            ArgView::Quoted(s)
        } else {
            ArgView::Literal(s)
        }
    }
}

/// One argument of a command.
#[derive(Clone, Debug, PartialEq, Eq)]
pub enum Arg {
    /// Text sent as it stands: an atom, a sequence set, a parenthesised
    /// list of atoms.
    Atom(Vec<u8>),
    /// Text sent between double quotes.
    Quoted(Vec<u8>),
    /// Bytes sent behind a `{n}` header, after the server asked for them.
    Literal(Vec<u8>),
}

impl View for Arg {
    type V = ArgView;

    open spec fn view(&self) -> ArgView {
        match self {
            Arg::Atom(s) => ArgView::Atom(s@),
            Arg::Quoted(s) => ArgView::Quoted(s@),
            Arg::Literal(s) => ArgView::Literal(s@),
        }
    }
}

/// Whether `s` can be sent as it stands.
pub fn is_verbatim(s: &[u8]) -> (r: bool)
    ensures
        r == verbatim(s@),
{
    if s.len() == 0 {
        return false;
    }
    let mut i: usize = 0;
    while i < s.len()
        invariant
            i <= s.len(),
            forall|j: int| 0 <= j < i ==> 32 <= #[trigger] s@[j] <= 126 && s@[j] != 123,
        decreases s.len() - i,
    {
        let b: u8 = s[i];
        if b < 32 || b > 126 || b == 123 {
            return false;
        }
        i = i + 1;
    }
    true
}

/// Whether `s` can be sent between double quotes.
pub fn is_quotable(s: &[u8]) -> (r: bool)
    ensures
        r == quotable(s@),
{
    let mut i: usize = 0;
    while i < s.len()
        invariant
            i <= s.len(),
            forall|j: int|
                0 <= j < i ==> 1 <= #[trigger] s@[j] <= 127 && s@[j] != CR && s@[j] != LF,
        decreases s.len() - i,
    {
        let b: u8 = s[i];
        if b < 1 || b > 127 || b == CR || b == LF {
            return false;
        }
        i = i + 1;
    }
    true
}

impl Arg {
    /// The argument for a string: quoted where that is possible, else a
    /// literal.
    pub fn string(s: &[u8]) -> (r: Arg)
        ensures
            r@ == ArgView::of_string(s@),
            r@.well_formed(),
    {
        let mut bytes: Vec<u8> = Vec::new();
        push_bytes(&mut bytes, s);
        assert(bytes@ =~= s@);
        if is_quotable(s) {
            Arg::Quoted(bytes)
        } else {
            Arg::Literal(bytes)
        }
    }

    /// The argument for text meant to go out as it stands: an atom where
    /// that is safe, else a string.
    pub fn text(s: &[u8]) -> (r: Arg)
        ensures
            r@ == ArgView::of_text(s@),
            r@.well_formed(),
    {
        if is_verbatim(s) {
            let mut bytes: Vec<u8> = Vec::new();
            push_bytes(&mut bytes, s);
            assert(bytes@ =~= s@);
            Arg::Atom(bytes)
        } else {
            Arg::string(s)
        }
    }
}

/// A command, as a mathematical value.
pub struct CommandView {
    pub verb: Verb,
    pub args: Seq<ArgView>,
}

impl CommandView {
    /// Every argument is well formed.
    pub open spec fn well_formed(self) -> bool {
        forall|i: int| 0 <= i < self.args.len() ==> (#[trigger] self.args[i]).well_formed()
    }
}

/// A command: a verb and its arguments in order.
#[derive(Clone, Debug, PartialEq, Eq)]
pub struct Command {
    pub verb: Verb,
    pub args: Vec<Arg>,
}

impl View for Command {
    type V = CommandView;

    open spec fn view(&self) -> CommandView {
        CommandView { verb: self.verb, args: Seq::new(self.args@.len(), |i: int| self.args@[i]@) }
    }
}

/// The header that announces a literal of `n` bytes, with the line
/// terminator behind it.
pub open spec fn literal_header(n: nat) -> Seq<u8> {
    seq![123u8] + decimal_digits(n) + seq![125u8] + crlf()
}

/// The bytes of an argument that is not a literal.
pub open spec fn inline_bytes(a: ArgView) -> Seq<u8> {
    match a {
        ArgView::Atom(s) => s,
        ArgView::Quoted(s) => seq![34u8] + escaped(s) + seq![34u8],
        ArgView::Literal(s) => s,
    }
}

/// The segments of a command whose first `done` are complete and whose
/// current one has reached `line`, once `args` have been added.
pub open spec fn segments_from(args: Seq<ArgView>, done: Seq<Seq<u8>>, line: Seq<u8>) -> Seq<
    Seq<u8>,
>
    decreases args.len(),
{
    if args.len() == 0 {
        done.push(line + crlf())
    } else {
        match args[0] {
            ArgView::Literal(s) => segments_from(
                args.drop_first(),
                done.push(line + seq![SP] + literal_header(s.len())),
                s,
            ),
            a => segments_from(args.drop_first(), done, line + seq![SP] + inline_bytes(a)),
        }
    }
}

/// The segments in which the command goes out under tag number `tag`.
pub open spec fn segments(tag: nat, c: CommandView) -> Seq<Seq<u8>> {
    segments_from(c.args, Seq::empty(), tag_text(tag) + seq![SP] + c.verb.name())
}

/// The bytes of an argument on the wire.
pub open spec fn arg_wire(a: ArgView) -> Seq<u8> {
    match a {
        ArgView::Literal(s) => literal_header(s.len()) + s,
        other => inline_bytes(other),
    }
}

/// The bytes of the arguments on the wire, each behind a space.
pub open spec fn args_wire(args: Seq<ArgView>) -> Seq<u8>
    decreases args.len(),
{
    if args.len() == 0 {
        Seq::empty()
    } else {
        seq![SP] + arg_wire(args[0]) + args_wire(args.drop_first())
    }
}

/// The command on the wire, as the server reads it:
/// `TAG SP VERB (SP ARG)* CRLF`.
pub open spec fn wire(tag: nat, c: CommandView) -> Seq<u8> {
    tag_text(tag) + seq![SP] + c.verb.name() + args_wire(c.args) + crlf()
}

/// The parts one behind the other.
pub open spec fn joined(parts: Seq<Seq<u8>>) -> Seq<u8>
    decreases parts.len(),
{
    if parts.len() == 0 {
        Seq::empty()
    } else {
        joined(parts.drop_last()) + parts.last()
    }
}

/// What `rows` hold, row by row.
pub open spec fn rows_view(rows: Seq<Vec<u8>>) -> Seq<Seq<u8>> {
    Seq::new(rows.len(), |i: int| rows[i]@)
}

/// How many of `args` are literals.
pub open spec fn literal_count(args: Seq<ArgView>) -> nat
    decreases args.len(),
{
    if args.len() == 0 {
        0
    } else if args[0] is Literal {
        1 + literal_count(args.drop_first())
    } else {
        literal_count(args.drop_first())
    }
}

/// A command has one segment more than it has literal arguments.
pub proof fn lemma_segments_count(args: Seq<ArgView>, done: Seq<Seq<u8>>, line: Seq<u8>)
    ensures
        segments_from(args, done, line).len() == done.len() + 1 + literal_count(args),
    decreases args.len(),
{
    if args.len() > 0 {
        match args[0] {
            ArgView::Literal(s) => {
                lemma_segments_count(
                    args.drop_first(),
                    done.push(line + seq![SP] + literal_header(s.len())),
                    s,
                );
            },
            a => {
                lemma_segments_count(args.drop_first(), done, line + seq![SP] + inline_bytes(a));
            },
        }
    }
}

/// Appends `s` between double quotes, escaped.
pub fn push_quoted(out: &mut Vec<u8>, s: &[u8])
    ensures
        final(out)@ == old(out)@ + seq![34u8] + escaped(s@) + seq![34u8],
{
    out.push(34u8);
    let mut i: usize = 0;
    while i < s.len()
        invariant
            i <= s.len(),
            out@ == old(out)@ + seq![34u8] + escaped(s@.take(i as int)),
        decreases s.len() - i,
    {
        let b: u8 = s[i];
        proof {
            assert(s@.take(i + 1).drop_last() =~= s@.take(i as int));
            assert(s@.take(i + 1).last() == b);
        }
        if b == 34 || b == 92 {
            out.push(92u8);
        }
        out.push(b);
        i = i + 1;
        proof {
            assert(out@ =~= old(out)@ + seq![34u8] + escaped(s@.take(i as int)));
        }
    }
    out.push(34u8);
    proof {
        assert(s@.take(i as int) =~= s@);
        assert(final(out)@ =~= old(out)@ + seq![34u8] + escaped(s@) + seq![34u8]);
    }
}

impl Command {
    /// A command without arguments.
    pub fn nullary(verb: Verb) -> (r: Command)
        ensures
            r@ == (CommandView { verb, args: Seq::empty() }),
    {
        let r = Command { verb, args: Vec::new() };
        proof {
            assert(r@.args =~= Seq::<ArgView>::empty());
        }
        r
    }

    /// A command with one argument.
    pub fn unary(verb: Verb, first: Arg) -> (r: Command)
        ensures
            r@ == (CommandView { verb, args: seq![first@] }),
    {
        let mut args: Vec<Arg> = Vec::new();
        args.push(first);
        let r = Command { verb, args };
        proof {
            assert(r@.args =~= seq![first@]);
        }
        r
    }

    /// A command with two arguments.
    pub fn binary(verb: Verb, first: Arg, second: Arg) -> (r: Command)
        ensures
            r@ == (CommandView { verb, args: seq![first@, second@] }),
    {
        let mut args: Vec<Arg> = Vec::new();
        args.push(first);
        args.push(second);
        let r = Command { verb, args };
        proof {
            assert(r@.args =~= seq![first@, second@]);
        }
        r
    }

    /// Encodes the command under tag number `tag`.
    pub fn encode(&self, tag: u64) -> (r: Vec<Vec<u8>>)
        ensures
            rows_view(r@) == segments(tag as nat, self@),
    {
        let mut done: Vec<Vec<u8>> = Vec::new();
        let mut line: Vec<u8> = format_tag(tag);
        line.push(SP);
        push_bytes(&mut line, self.verb.wire_name());
        let ghost all = self@.args;
        proof {
            assert(line@ =~= tag_text(tag as nat) + seq![SP] + self.verb.name());
            assert(rows_view(done@) =~= Seq::<Seq<u8>>::empty());
            assert(all.skip(0) =~= all);
        }
        let mut i: usize = 0;
        while i < self.args.len()
            invariant
                i <= self.args.len(),
                all == self@.args,
                segments(tag as nat, self@) == segments_from(
                    all.skip(i as int),
                    rows_view(done@),
                    line@,
                ),
            decreases self.args.len() - i,
        {
            let ghost before = line@;
            let ghost rest = all.skip(i as int);
            proof {
                assert(rest[0] == self.args@[i as int]@);
                assert(rest.drop_first() =~= all.skip(i + 1));
            }
            line.push(SP);
            match &self.args[i] {
                Arg::Atom(s) => {
                    push_bytes(&mut line, s.as_slice());
                    proof {
                        assert(line@ =~= before + seq![SP] + inline_bytes(rest[0]));
                    }
                },
                Arg::Quoted(s) => {
                    push_quoted(&mut line, s.as_slice());
                    proof {
                        assert(line@ =~= before + seq![SP] + inline_bytes(rest[0]));
                    }
                },
                Arg::Literal(s) => {
                    line.push(123u8);
                    push_decimal(&mut line, s.len() as u64);
                    line.push(125u8);
                    line.push(CR);
                    line.push(LF);
                    let ghost header = line@;
                    let ghost old_done = done@;
                    let mut next: Vec<u8> = Vec::new();
                    push_bytes(&mut next, s.as_slice());
                    core::mem::swap(&mut next, &mut line);
                    done.push(next);
                    proof {
                        assert(header =~= before + seq![SP] + literal_header(s@.len()));
                        assert(line@ =~= s@);
                        assert(rows_view(done@) =~= rows_view(old_done).push(header));
                    }
                },
            }
            i = i + 1;
        }
        let ghost open_line = line@;
        line.push(CR);
        line.push(LF);
        let ghost old_done = done@;
        let ghost last = line@;
        done.push(line);
        proof {
            assert(all.skip(i as int).len() == 0);
            assert(last =~= open_line + crlf());
            assert(rows_view(done@) =~= rows_view(old_done).push(last));
        }
        done
    }
}

} // verus!
