//! What holds of the engine as a whole, proved from the definitions that
//! the contracts of its functions use.

use vstd::prelude::*;
use crate::command::{
    ArgView,
    CommandView,
    Verb,
    args_wire,
    escaped,
    inline_bytes,
    joined,
    lemma_tags_distinct,
    literal_header,
    segments,
    segments_from,
    tag_text,
    wire,
};
use crate::error::Error;
use crate::frame::{Marker, digits_start, first_lf, line_at, marker_of};
use crate::idle::{IdleView, PushedView, ended, started, waited};
use crate::lex::{Lexeme, lex, lex_from, quoted_from};
use crate::parse::{Scan, scan, scan_data, word_end};
use crate::reply::{ReplyView, fetch_count, fetches_in, lemma_fetches_count};
use crate::response::{DataView, FetchView, ResponseView, Status};
use crate::session::{
    ProgressView,
    SessionView,
    capability_command,
    close_command,
    completed,
    done_line,
    idle_command,
    issue_spec,
    lemma_working_consumes,
    list_command,
    mailbox_command,
    message_command,
    polled,
    reacted,
    refusal,
    taken,
    transfer_command,
};
use crate::text::{CR, LF, SP, crlf, decimal_digits, is_digit, lemma_decimal_round_trip};

verus! {

/// The segments that are complete and the line that is open, with the
/// arguments still to come, make up what the segments hold in the end.
pub proof fn lemma_segments_join(args: Seq<ArgView>, done: Seq<Seq<u8>>, line: Seq<u8>)
    ensures
        joined(segments_from(args, done, line)) == joined(done) + line + args_wire(args) + crlf(),
    decreases args.len(),
{
    if args.len() == 0 {
        assert(done.push(line + crlf()).drop_last() =~= done);
        assert(joined(done) + (line + crlf()) =~= joined(done) + line + args_wire(args) + crlf());
    } else {
        let rest = args.drop_first();
        match args[0] {
            ArgView::Literal(s) => {
                let first = line + seq![SP] + literal_header(s.len());
                lemma_segments_join(rest, done.push(first), s);
                assert(done.push(first).drop_last() =~= done);
                assert(joined(done) + first + s + args_wire(rest) + crlf() =~= joined(done) + line
                    + args_wire(args) + crlf());
            },
            a => {
                let longer = line + seq![SP] + inline_bytes(a);
                lemma_segments_join(rest, done, longer);
                assert(joined(done) + longer + args_wire(rest) + crlf() =~= joined(done) + line
                    + args_wire(args) + crlf());
            },
        }
    }
}

/// The segments of a command, one behind the other, are the command as
/// the server reads it: the tag, a space, the verb, each argument behind a
/// space, and the line terminator.
pub proof fn lemma_segments_are_the_wire(tag: nat, c: CommandView)
    ensures
        joined(segments(tag, c)) == wire(tag, c),
{
    lemma_segments_join(c.args, Seq::empty(), tag_text(tag) + seq![SP] + c.verb.name());
    assert(joined(Seq::<Seq<u8>>::empty()) + (tag_text(tag) + seq![SP] + c.verb.name())
        + args_wire(c.args) + crlf() =~= wire(tag, c));
}

/// The verbs and the line that ends an idle, byte by byte.
pub proof fn lemma_wire_names()
    ensures
        Verb::Capability.name() == seq![67u8, 65, 80, 65, 66, 73, 76, 73, 84, 89],
        Verb::List.name() == seq![76u8, 73, 83, 84],
        Verb::Create.name() == seq![67u8, 82, 69, 65, 84, 69],
        Verb::Subscribe.name() == seq![83u8, 85, 66, 83, 67, 82, 73, 66, 69],
        Verb::Close.name() == seq![67u8, 76, 79, 83, 69],
        Verb::Select.name() == seq![83u8, 69, 76, 69, 67, 84],
        Verb::Fetch.name() == seq![70u8, 69, 84, 67, 72],
        Verb::UidFetch.name() == seq![85u8, 73, 68, 32, 70, 69, 84, 67, 72],
        Verb::UidStore.name() == seq![85u8, 73, 68, 32, 83, 84, 79, 82, 69],
        Verb::UidMove.name() == seq![85u8, 73, 68, 32, 77, 79, 86, 69],
        Verb::UidCopy.name() == seq![85u8, 73, 68, 32, 67, 79, 80, 89],
        Verb::Idle.name() == seq![73u8, 68, 76, 69],
        done_line() == seq![68u8, 79, 78, 69, 13, 10],
{
    reveal_strlit("CAPABILITY");
    reveal_strlit("LIST");
    reveal_strlit("CREATE");
    reveal_strlit("SUBSCRIBE");
    reveal_strlit("CLOSE");
    reveal_strlit("SELECT");
    reveal_strlit("FETCH");
    reveal_strlit("UID FETCH");
    reveal_strlit("UID STORE");
    reveal_strlit("UID MOVE");
    reveal_strlit("UID COPY");
    reveal_strlit("IDLE");
    reveal_strlit("DONE\r\n");
    vstd::utf8::is_ascii_chars_encode_utf8("CAPABILITY"@);
    vstd::utf8::is_ascii_chars_encode_utf8("LIST"@);
    vstd::utf8::is_ascii_chars_encode_utf8("CREATE"@);
    vstd::utf8::is_ascii_chars_encode_utf8("SUBSCRIBE"@);
    vstd::utf8::is_ascii_chars_encode_utf8("CLOSE"@);
    vstd::utf8::is_ascii_chars_encode_utf8("SELECT"@);
    vstd::utf8::is_ascii_chars_encode_utf8("FETCH"@);
    vstd::utf8::is_ascii_chars_encode_utf8("UID FETCH"@);
    vstd::utf8::is_ascii_chars_encode_utf8("UID STORE"@);
    vstd::utf8::is_ascii_chars_encode_utf8("UID MOVE"@);
    vstd::utf8::is_ascii_chars_encode_utf8("UID COPY"@);
    vstd::utf8::is_ascii_chars_encode_utf8("IDLE"@);
    vstd::utf8::is_ascii_chars_encode_utf8("DONE\r\n"@);
    assert(Verb::Capability.name() =~= seq![67u8, 65, 80, 65, 66, 73, 76, 73, 84, 89]);
    assert(Verb::List.name() =~= seq![76u8, 73, 83, 84]);
    assert(Verb::Create.name() =~= seq![67u8, 82, 69, 65, 84, 69]);
    assert(Verb::Subscribe.name() =~= seq![83u8, 85, 66, 83, 67, 82, 73, 66, 69]);
    assert(Verb::Close.name() =~= seq![67u8, 76, 79, 83, 69]);
    assert(Verb::Select.name() =~= seq![83u8, 69, 76, 69, 67, 84]);
    assert(Verb::Fetch.name() =~= seq![70u8, 69, 84, 67, 72]);
    assert(Verb::UidFetch.name() =~= seq![85u8, 73, 68, 32, 70, 69, 84, 67, 72]);
    assert(Verb::UidStore.name() =~= seq![85u8, 73, 68, 32, 83, 84, 79, 82, 69]);
    assert(Verb::UidMove.name() =~= seq![85u8, 73, 68, 32, 77, 79, 86, 69]);
    assert(Verb::UidCopy.name() =~= seq![85u8, 73, 68, 32, 67, 79, 80, 89]);
    assert(Verb::Idle.name() =~= seq![73u8, 68, 76, 69]);
    assert(done_line() =~= seq![68u8, 79, 78, 69, 13, 10]);
}

/// Whether no byte of `s` is a carriage return or a line feed.
pub open spec fn unbroken(s: Seq<u8>) -> bool {
    forall|i: int| 0 <= i < s.len() ==> #[trigger] s[i] != CR && s[i] != LF
}

/// Escaping brings no line break into a string that has none.
pub proof fn lemma_escaped_unbroken(s: Seq<u8>)
    requires
        unbroken(s),
    ensures
        unbroken(escaped(s)),
    decreases s.len(),
{
    if s.len() > 0 {
        assert(unbroken(s.drop_last())) by {
            assert forall|i: int| 0 <= i < s.drop_last().len() implies #[trigger] s.drop_last()[i]
                != CR && s.drop_last()[i] != LF by {
                assert(s.drop_last()[i] == s[i]);
            }
        }
        lemma_escaped_unbroken(s.drop_last());
        assert(s.last() == s[s.len() - 1]);
    }
}

/// The segments that were complete stay as they were.
pub proof fn lemma_segments_keep(args: Seq<ArgView>, done: Seq<Seq<u8>>, line: Seq<u8>, k: int)
    requires
        0 <= k < done.len(),
    ensures
        segments_from(args, done, line).len() > done.len(),
        segments_from(args, done, line)[k] == done[k],
    decreases args.len(),
{
    if args.len() > 0 {
        match args[0] {
            ArgView::Literal(s) => {
                lemma_segments_keep(
                    args.drop_first(),
                    done.push(line + seq![SP] + literal_header(s.len())),
                    s,
                    k,
                );
            },
            a => {
                lemma_segments_keep(args.drop_first(), done, line + seq![SP] + inline_bytes(a), k);
            },
        }
    }
}

/// With well-formed arguments the line that is open, if it is unbroken,
/// is completed to a segment that holds no line break but the terminator
/// at its end.
pub proof fn lemma_open_line_stays_one(args: Seq<ArgView>, done: Seq<Seq<u8>>, line: Seq<u8>)
    requires
        unbroken(line),
        forall|i: int| 0 <= i < args.len() ==> (#[trigger] args[i]).well_formed(),
    ensures
        segments_from(args, done, line).len() > done.len(),
        exists|body: Seq<u8>|
            unbroken(body) && segments_from(args, done, line)[done.len() as int] == #[trigger] (body
                + crlf()),
    decreases args.len(),
{
    if args.len() == 0 {
        assert(segments_from(args, done, line)[done.len() as int] == line + crlf());
    } else {
        let rest = args.drop_first();
        assert(args[0].well_formed());
        assert forall|i: int| 0 <= i < rest.len() implies (#[trigger] rest[i]).well_formed() by {
            assert(rest[i] == args[i + 1]);
        }
        match args[0] {
            ArgView::Literal(s) => {
                let body = line + seq![SP] + seq![123u8] + decimal_digits(s.len()) + seq![125u8];
                let first = line + seq![SP] + literal_header(s.len());
                lemma_decimal_round_trip(s.len());
                assert(first =~= body + crlf());
                assert(unbroken(body)) by {
                    assert forall|i: int| 0 <= i < body.len() implies #[trigger] body[i] != CR
                        && body[i] != LF by {
                        if i < line.len() {
                            assert(body[i] == line[i]);
                        } else if i > line.len() + 1 && i < body.len() - 1 {
                            assert(body[i] == decimal_digits(s.len())[i - line.len() - 2]);
                        }
                    }
                }
                lemma_segments_keep(rest, done.push(first), s, done.len() as int);
            },
            ArgView::Atom(s) => {
                let longer = line + seq![SP] + s;
                assert(unbroken(longer)) by {
                    assert forall|i: int| 0 <= i < longer.len() implies #[trigger] longer[i] != CR
                        && longer[i] != LF by {
                        if i < line.len() {
                            assert(longer[i] == line[i]);
                        } else if i > line.len() {
                            assert(longer[i] == s[i - line.len() - 1]);
                        }
                    }
                }
                lemma_open_line_stays_one(rest, done, longer);
            },
            ArgView::Quoted(s) => {
                let quoted = seq![34u8] + escaped(s) + seq![34u8];
                let longer = line + seq![SP] + quoted;
                assert(unbroken(s)) by {
                    assert forall|i: int| 0 <= i < s.len() implies #[trigger] s[i] != CR && s[i]
                        != LF by {}
                }
                lemma_escaped_unbroken(s);
                assert(unbroken(longer)) by {
                    assert forall|i: int| 0 <= i < longer.len() implies #[trigger] longer[i] != CR
                        && longer[i] != LF by {
                        if i < line.len() {
                            assert(longer[i] == line[i]);
                        } else if i > line.len() + 1 && i < longer.len() - 1 {
                            assert(longer[i] == escaped(s)[i - line.len() - 2]);
                        }
                    }
                }
                lemma_open_line_stays_one(rest, done, longer);
            },
        }
    }
}

/// Whatever a well-formed command's arguments hold, the server reads its
/// first segment as exactly one line: the segment holds no carriage return
/// and no line feed but the terminator at its end. Text handed to an
/// operation cannot end the command early or start another.
pub proof fn lemma_command_is_one_line(tag: nat, c: CommandView)
    requires
        c.well_formed(),
    ensures
        segments(tag, c).len() >= 1,
        exists|body: Seq<u8>|
            unbroken(body) && segments(tag, c)[0] == #[trigger] (body + crlf()),
{
    let line = tag_text(tag) + seq![SP] + c.verb.name();
    lemma_wire_names();
    lemma_decimal_round_trip(tag);
    assert(unbroken(line)) by {
        assert forall|i: int| 0 <= i < line.len() implies #[trigger] line[i] != CR && line[i]
            != LF by {
            let digits = decimal_digits(tag);
            if 1 <= i < 1 + digits.len() {
                assert(line[i] == digits[i - 1]);
            } else if i > 1 + digits.len() {
                assert(line[i] == c.verb.name()[i - 2 - digits.len()]);
            }
        }
    }
    lemma_open_line_stays_one(c.args, Seq::empty(), line);
}

/// What escaping does to a string is what it does to the first byte and
/// then to the rest.
pub proof fn lemma_escaped_front(b: u8, s: Seq<u8>)
    ensures
        escaped(seq![b] + s) == (if b == 34 || b == 92 {
            seq![92u8, b]
        } else {
            seq![b]
        }) + escaped(s),
    decreases s.len(),
{
    let whole = seq![b] + s;
    let head = if b == 34 || b == 92 {
        seq![92u8, b]
    } else {
        seq![b]
    };
    if s.len() == 0 {
        assert(whole.drop_last() =~= Seq::<u8>::empty());
        assert(escaped(whole.drop_last()) =~= Seq::<u8>::empty());
        assert(escaped(whole) =~= head + escaped(s));
    } else {
        lemma_escaped_front(b, s.drop_last());
        assert(whole.drop_last() =~= seq![b] + s.drop_last());
        assert(whole.last() == s.last());
        assert(escaped(whole) =~= head + escaped(s));
    }
}

/// Reading an escaped string up to its closing quote gives the string
/// back, whatever it holds.
pub proof fn lemma_quoted_round_trip(before: Seq<u8>, s: Seq<u8>, after: Seq<u8>, acc: Seq<u8>)
    ensures
        quoted_from(before + escaped(s) + seq![34u8] + after, before.len() as int, acc) == Some(
            (acc + s, (before.len() + escaped(s).len() + 1) as int),
        ),
    decreases s.len(),
{
    let t = before + escaped(s) + seq![34u8] + after;
    let at = before.len() as int;
    if s.len() == 0 {
        assert(t[at] == 34);
        assert(acc + s =~= acc);
    } else {
        let b = s[0];
        let rest = s.drop_first();
        assert(s =~= seq![b] + rest);
        lemma_escaped_front(b, rest);
        let head = if b == 34 || b == 92 {
            seq![92u8, b]
        } else {
            seq![b]
        };
        assert(escaped(s) == head + escaped(rest));
        lemma_quoted_round_trip(before + head, rest, after, acc.push(b));
        assert(before + head + escaped(rest) + seq![34u8] + after =~= t);
        assert(acc.push(b) + rest =~= acc + s);
        assert(t[at] == head[0]);
        if b == 34 || b == 92 {
            assert(t[at + 1] == head[1]);
        }
    }
}

/// A string written between double quotes by the encoder is read back by
/// the lexer as one quoted token that holds the string.
pub proof fn lemma_quoting_round_trip(s: Seq<u8>)
    ensures
        lex(inline_bytes(ArgView::Quoted(s))) == Some(seq![Lexeme::Quoted(s)]),
{
    let t = seq![34u8] + escaped(s) + seq![34u8];
    lemma_quoted_round_trip(seq![34u8], s, Seq::empty(), Seq::empty());
    assert(seq![34u8] + escaped(s) + seq![34u8] + Seq::<u8>::empty() =~= t);
    assert(Seq::<u8>::empty() + s =~= s);
    assert(t[0] == 34);
    assert(Seq::<Lexeme>::empty().push(Lexeme::Quoted(s)) =~= seq![Lexeme::Quoted(s)]);
    assert(lex_from(t, t.len() as int, seq![Lexeme::Quoted(s)]) == Some(
        seq![Lexeme::Quoted(s)],
    ));
}

/// A command that goes out takes exactly one tag: the one the counter
/// showed, which no earlier command of the session bore.
pub proof fn lemma_issue_takes_one_tag(s: SessionView, c: CommandView, target: Seq<u8>, earlier: nat)
    requires
        refusal(s, c.verb) is None,
        earlier < s.next_tag,
    ensures
        issue_spec(s, c, target).1 == Ok::<u64, Error>(s.next_tag as u64),
        issue_spec(s, c, target).0.next_tag == s.next_tag + 1,
        issue_spec(s, c, target).0.pending matches Some(p) && p.tag == s.next_tag && tag_text(p.tag)
            != tag_text(earlier),
{
    lemma_tags_distinct(s.next_tag, earlier);
}

/// The tagged status that completes a command bears the command's tag; a
/// tagged status with any other tag is a protocol error. No response
/// moves the tag counter.
pub proof fn lemma_completion_bears_tag(s: SessionView, response: ResponseView)
    requires
        s.pending is Some,
    ensures
        reacted(s, response).0.next_tag == s.next_tag,
        reacted(s, response).1 matches Ok(ProgressView::Finished(_)) ==> (response
            matches ResponseView::Tagged { tag, status, .. } && tag == tag_text(
            s.pending->0.tag,
        ) && status == Status::Okay),
        reacted(s, response).1 matches Err(Error::Command(_)) ==> (response
            matches ResponseView::Tagged { tag, .. } && tag == tag_text(s.pending->0.tag)),
        (response matches ResponseView::Tagged { tag, .. } && tag != tag_text(s.pending->0.tag)
            && !(s.phase is Closed) && !s.transport.closed) ==> reacted(s, response).1 == Err::<
            ProgressView,
            Error,
        >(Error::Protocol),
        reacted(s, response).0.pending is None || reacted(s, response).0.pending->0.tag
            == s.pending->0.tag,
{
}

/// A command is complete after exactly one tagged status: whatever
/// completes it leaves no command open, and until then the command stays
/// open.
pub proof fn lemma_one_terminal_status(s: SessionView, response: ResponseView)
    requires
        s.pending is Some,
    ensures
        reacted(s, response).1 matches Ok(ProgressView::Finished(_)) ==> reacted(
            s,
            response,
        ).0.pending is None,
        reacted(s, response).1 matches Err(Error::Command(_)) ==> reacted(s, response).0.pending
            is None,
        reacted(s, response).1 matches Ok(ProgressView::Working) ==> reacted(s, response).0.pending
            is Some,
{
}

/// A `FETCH` row that arrives adds one result at the end; any other row
/// adds none.
pub proof fn lemma_fetches_push(rows: Seq<DataView>, row: DataView)
    ensures
        fetches_in(rows.push(row)) == (match row {
            DataView::Fetch(fetch) => fetches_in(rows).push(fetch),
            _ => fetches_in(rows),
        }),
{
    assert(rows.push(row).drop_last() =~= rows);
}

/// The result of a fetch holds one entry for each `FETCH` row that arrived
/// before the tagged `OK`, and is an empty sequence, not an error, where
/// none arrived.
pub proof fn lemma_fetch_result(s: SessionView, tag: Seq<u8>, text: Seq<u8>)
    requires
        s.well_formed(),
        s.pending matches Some(p) && (p.verb == Verb::Fetch || p.verb == Verb::UidFetch || p.verb
            == Verb::UidStore) && p.owed() == 0 && tag == tag_text(p.tag),
    ensures
        reacted(s, ResponseView::Tagged { tag, status: Status::Okay, text }).1 == Ok::<
            ProgressView,
            Error,
        >(ProgressView::Finished(ReplyView::Fetches(fetches_in(s.pending->0.rows)))),
        fetches_in(s.pending->0.rows).len() == fetch_count(s.pending->0.rows),
        s.pending->0.rows.len() == 0 ==> fetches_in(s.pending->0.rows) == Seq::<
            FetchView,
        >::empty(),
{
    lemma_fetches_count(s.pending->0.rows);
}

/// A word ends at or behind the place from which it is read, within the
/// text, and holds no space.
pub proof fn lemma_word_end(s: Seq<u8>, from: int)
    requires
        0 <= from <= s.len(),
    ensures
        from <= word_end(s, from) <= s.len(),
        word_end(s, from) < s.len() ==> s[word_end(s, from)] == SP,
        forall|j: int| from <= j < word_end(s, from) ==> s[j] != SP,
    decreases s.len() - from,
{
    if from < s.len() && s[from] != SP {
        lemma_word_end(s, from + 1);
    }
}

/// The run of digits that ends before `end` holds digits only, and no
/// digit stands before it.
pub proof fn lemma_digits_start(s: Seq<u8>, end: int)
    requires
        0 <= end <= s.len(),
    ensures
        0 <= digits_start(s, end) <= end,
        forall|j: int| digits_start(s, end) <= j < end ==> is_digit(#[trigger] s[j]),
        digits_start(s, end) > 0 ==> !is_digit(s[digits_start(s, end) - 1]),
    decreases end,
{
    if end > 0 && is_digit(s[end - 1]) {
        lemma_digits_start(s, end - 1);
    }
}

/// Where a line feed stands at `at` and none stands between `from` and
/// `at`, the first line feed from `from` on is the one at `at`.
pub proof fn lemma_first_lf_at(s: Seq<u8>, from: int, at: int)
    requires
        0 <= from <= at < s.len(),
        s[at] == LF,
        forall|j: int| from <= j < at ==> s[j] != LF,
    ensures
        first_lf(s, from) == at,
    decreases at - from,
{
    if from < at {
        lemma_first_lf_at(s, from + 1, at);
    }
}

/// A literal of declared length `n` is read as exactly `n` bytes,
/// whatever they hold: behind a line that announces it, the bytes
/// `literal` become one token, and reading goes on with the line that
/// starts right behind them. Nothing is asked of what `literal` holds: it
/// may hold line terminators.
pub proof fn lemma_literal_read_whole(
    head: Seq<u8>,
    text: Seq<u8>,
    literal: Seq<u8>,
    rest: Seq<u8>,
    acc: Seq<Lexeme>,
)
    requires
        forall|j: int| 0 <= j < text.len() ==> text[j] != LF,
        marker_of(text) matches Marker::Present { cut, length } && length == literal.len(),
        lex(text.take(marker_of(text)->cut as int)) is Some,
    ensures
        scan_data(head + text + crlf() + literal + rest, head.len() as int, acc) == scan_data(
            head + text + crlf() + literal + rest,
            (head.len() + text.len() + 2 + literal.len()) as int,
            (acc + lex(text.take(marker_of(text)->cut as int))->0).push(Lexeme::Literal(literal)),
        ),
{
    let s = head + text + crlf() + literal + rest;
    let from = head.len() as int;
    let end = from + text.len();
    assert(s[end] == crate::text::CR);
    assert(s[end + 1] == LF);
    assert forall|j: int| from <= j < end + 1 implies s[j] != LF by {
        if j < end {
            assert(s[j] == text[j - from]);
        }
    }
    lemma_first_lf_at(s, from, end + 1);
    assert(line_at(s, from) == Ok::<Option<(int, int)>, Error>(Some((end, end + 2))));
    assert(s.subrange(from, end) =~= text);
    assert(s.subrange(end + 2, end + 2 + literal.len()) =~= literal);
}

/// A command that needs a selected mailbox, issued in any other phase of
/// a live connection, fails with `State` and leaves the session as it was:
/// nothing is written to the transport and no tag is taken.
pub proof fn lemma_selected_only(s: SessionView, c: CommandView, target: Seq<u8>)
    requires
        s.well_formed(),
        s.phase is Authenticated || s.phase is NotAuthenticated,
        c.verb == Verb::Close || c.verb == Verb::Fetch || c.verb == Verb::UidFetch || c.verb
            == Verb::UidStore || c.verb == Verb::UidMove || c.verb == Verb::UidCopy,
    ensures
        issue_spec(s, c, target) == (s, Err::<u64, Error>(Error::State)),
        issue_spec(s, c, target).0.transport.outbox == s.transport.outbox,
{
}

/// Whatever text an operation is given, the arguments it sends are well
/// formed: text that could end the line or announce a literal never goes
/// out as it stands.
pub proof fn lemma_commands_well_formed(
    verb: Verb,
    a: Seq<u8>,
    b: Seq<u8>,
    reference: Option<Seq<u8>>,
    pattern: Option<Seq<u8>>,
)
    ensures
        ArgView::of_text(a).well_formed(),
        ArgView::of_string(a).well_formed(),
        capability_command().well_formed(),
        close_command().well_formed(),
        idle_command().well_formed(),
        list_command(reference, pattern).well_formed(),
        mailbox_command(verb, a).well_formed(),
        message_command(verb, a, b).well_formed(),
        transfer_command(verb, a, b).well_formed(),
{
}

/// While a command is open no other goes out: at most one command is
/// outstanding on a connection.
pub proof fn lemma_one_at_a_time(s: SessionView, c: CommandView, target: Seq<u8>)
    requires
        s.pending is Some,
    ensures
        issue_spec(s, c, target).1 is Err,
        issue_spec(s, c, target).0 == s,
{
}

/// Issuing a command keeps a session well formed.
pub proof fn lemma_issue_keeps_well_formed(s: SessionView, c: CommandView, target: Seq<u8>)
    requires
        s.well_formed(),
    ensures
        issue_spec(s, c, target).0.well_formed(),
{
}

/// A response keeps a session well formed.
pub proof fn lemma_react_keeps_well_formed(s: SessionView, response: ResponseView)
    requires
        s.well_formed(),
    ensures
        reacted(s, response).0.well_formed(),
{
}

/// Taking a response from the transport keeps a session well formed.
pub proof fn lemma_poll_keeps_well_formed(s: SessionView)
    requires
        s.well_formed(),
    ensures
        polled(s).0.well_formed(),
        taken(s).0.well_formed(),
{
}

/// Running the open command keeps a session well formed and takes no
/// tag; where it returns the command's result, no command is open any
/// more.
pub proof fn lemma_complete_keeps_well_formed(s: SessionView)
    requires
        s.well_formed(),
    ensures
        completed(s).0.well_formed(),
        completed(s).0.next_tag == s.next_tag,
        completed(s).1 matches Ok(Some(_)) ==> s.pending is Some && completed(s).0.pending is None,
    decreases s.transport.inbox.len(),
{
    lemma_working_consumes(s);
    if polled(s).1 == Ok::<ProgressView, Error>(ProgressView::Working) {
        lemma_complete_keeps_well_formed(polled(s).0);
    }
}

/// After a fatal error the session is closed, and every later command
/// fails with `Io`.
pub proof fn lemma_fatal_closes(s: SessionView, response: ResponseView, verb: Verb)
    requires
        reacted(s, response).1 matches Err(e) && e.is_fatal(),
    ensures
        refusal(reacted(s, response).0, verb) == Some(Error::Io),
{
}

/// A command the server refused leaves the connection usable: the session
/// is not closed and no command is open.
pub proof fn lemma_refusal_recoverable(s: SessionView, response: ResponseView)
    requires
        s.well_formed(),
        reacted(s, response).1 matches Err(Error::Command(_)),
    ensures
        !(reacted(s, response).0.phase is Closed),
        !reacted(s, response).0.transport.closed,
        reacted(s, response).0.pending is None,
{
}

/// Starting and waiting keep an idle well formed, and its session too.
pub proof fn lemma_idle_keeps_well_formed(v: IdleView)
    requires
        v.well_formed(),
        v.session.well_formed(),
    ensures
        started(v).0.well_formed(),
        started(v).0.session.well_formed(),
        waited(v).0.well_formed(),
        waited(v).0.session.well_formed(),
        ended(v).well_formed(),
{
}

/// The session that an open idle gives back has the terminating line
/// written behind everything written before, and takes no command until
/// the idle's tagged status has arrived.
pub proof fn lemma_done_comes_first(v: IdleView, verb: Verb)
    requires
        v.well_formed(),
        v.session.well_formed(),
        v.state is Open,
    ensures
        ended(v).transport.outbox == v.session.transport.outbox + done_line(),
        refusal(ended(v), verb) is Some,
{
}

/// A wait hands untagged data out in the order of its arrival: what one
/// wait hands out is the first response in the transport, and the next
/// wait starts right behind it.
pub proof fn lemma_wait_in_order(v: IdleView)
    requires
        v.state is Open,
        waited(v).1 matches Ok(PushedView::Data(_)),
    ensures
        scan(v.session.transport.inbox) matches Scan::Complete { response, length }
            && response == ResponseView::Untagged(waited(v).1->Ok_0->Data_0) && waited(
            v,
        ).0.session.transport.inbox == v.session.transport.inbox.skip(length) && waited(v).0.state
            is Open && waited(v).0.session.transport.outbox == v.session.transport.outbox,
{
}

} // verus!
