//! What holds of whole round trips: a command goes out, the server's
//! answer arrives, and the command is run to its end.

use vstd::prelude::*;
use vstd::string::StringSliceAdditionalSpecFns;
use crate::command::{
    Verb,
    joined,
    lemma_segments_count,
    literal_count,
    segments,
    tag_text,
    wire,
};
use crate::error::{Error, Refusal};
use crate::fetch::string_of;
use crate::frame::{Marker, line_at, marker_of};
use crate::idle::{IdleView, PushedView, ended, waited};
use crate::laws::{
    lemma_first_lf_at,
    lemma_literal_read_whole,
    lemma_poll_keeps_well_formed,
    lemma_segments_are_the_wire,
};
use crate::lex::{Lexeme, balanced, closes, lex};
use crate::parse::{Scan, head_of, scan, scan_data};
use crate::reply::{ReplyView, fetch_count, fetches_in, lemma_fetches_count, reply_for};
use crate::response::{DataView, FetchView, ResponseView, Status, meaning};
use crate::session::{
    SessionView,
    completed,
    fed,
    issue_spec,
    lemma_working_consumes,
    message_command,
    polled,
    refusal,
};
use crate::text::{CR, LF, SP, crlf, number_of, upper_all};

verus! {

/// Whether the buffer holds, from its front, `go` continuation requests,
/// then the untagged responses `rows`, and then a tagged status with the
/// given tag and outcome, one behind the other.
pub open spec fn holds_answer(
    s: Seq<u8>,
    go: nat,
    rows: Seq<DataView>,
    tag: Seq<u8>,
    status: Status,
) -> bool
    decreases go + rows.len(),
{
    match scan(s) {
        Scan::Complete { response, length } => if go > 0 {
            response is Continuation && holds_answer(
                s.skip(length),
                (go - 1) as nat,
                rows,
                tag,
                status,
            )
        } else if rows.len() > 0 {
            response == ResponseView::Untagged(rows[0]) && holds_answer(
                s.skip(length),
                0,
                rows.drop_first(),
                tag,
                status,
            )
        } else {
            response matches ResponseView::Tagged { tag: t, status: st, .. } && t == tag && st
                == status
        },
        _ => false,
    }
}

/// The parts one behind the other are the first part and then the others.
pub proof fn lemma_joined_front(parts: Seq<Seq<u8>>)
    requires
        parts.len() > 0,
    ensures
        joined(parts) == parts[0] + joined(parts.skip(1)),
    decreases parts.len(),
{
    if parts.len() == 1 {
        assert(parts.drop_last() =~= Seq::<Seq<u8>>::empty());
        assert(parts.skip(1) =~= Seq::<Seq<u8>>::empty());
        assert(joined(parts) =~= parts[0] + joined(parts.skip(1)));
    } else {
        lemma_joined_front(parts.drop_last());
        assert(parts.drop_last().skip(1) =~= parts.skip(1).drop_last());
        assert(parts.skip(1).last() == parts.last());
        assert(joined(parts) =~= parts[0] + joined(parts.skip(1)));
    }
}

/// A round trip returns what the untagged data before the tagged `OK`
/// makes up, all of it and in its order. Where the server has answered
/// the open command with the continuation requests it still expects, the
/// untagged responses `rows`, and `OK` under the command's tag, running
/// the command writes the segments that waited, returns the result built
/// from the rows kept so far and `rows` behind them, takes no tag, and
/// leaves no command open.
pub proof fn lemma_round_trip(s: SessionView, rows: Seq<DataView>)
    requires
        s.well_formed(),
        s.pending matches Some(p) && holds_answer(
            s.transport.inbox,
            p.owed(),
            rows,
            tag_text(p.tag),
            Status::Okay,
        ),
    ensures
        completed(s).1 == Ok::<Option<ReplyView>, Error>(
            Some(reply_for(s.pending->0.verb, s.pending->0.target, s.pending->0.rows + rows)),
        ),
        completed(s).0.pending is None,
        completed(s).0.next_tag == s.next_tag,
        completed(s).0.transport.outbox == s.transport.outbox + joined(s.pending->0.remaining),
    decreases s.pending->0.owed() + rows.len(),
{
    let p = s.pending->0;
    lemma_working_consumes(s);
    lemma_poll_keeps_well_formed(s);
    if p.owed() > 0 {
        let next = polled(s).0;
        if p.remaining.len() > 0 {
            assert(next.pending->0.remaining == p.remaining.skip(1));
            lemma_joined_front(p.remaining);
            lemma_round_trip(next, rows);
            assert(s.transport.outbox + p.remaining[0] + joined(p.remaining.skip(1))
                =~= s.transport.outbox + joined(p.remaining));
        } else {
            assert(next.pending->0.awaiting == false);
            lemma_round_trip(next, rows);
        }
    } else if rows.len() == 0 {
        assert(p.rows + rows =~= p.rows);
        assert(p.remaining =~= Seq::<Seq<u8>>::empty());
        assert(s.transport.outbox + joined(p.remaining) =~= s.transport.outbox);
    } else {
        let next = polled(s).0;
        assert(next.pending->0.rows == p.rows.push(rows[0]));
        lemma_round_trip(next, rows.drop_first());
        assert(p.rows.push(rows[0]) + rows.drop_first() =~= p.rows + rows);
    }
}

/// A round trip that the server ends with `NO` or `BAD` under the
/// command's tag fails with `Command`, and the session stays usable.
pub proof fn lemma_round_trip_refused(s: SessionView, rows: Seq<DataView>, status: Status)
    requires
        s.well_formed(),
        status != Status::Okay,
        s.pending matches Some(p) && holds_answer(
            s.transport.inbox,
            p.owed(),
            rows,
            tag_text(p.tag),
            status,
        ),
    ensures
        completed(s).1 == Err::<Option<ReplyView>, Error>(
            Error::Command(
                if status == Status::No {
                    Refusal::No
                } else {
                    Refusal::Bad
                },
            ),
        ),
        completed(s).0.pending is None,
        !(completed(s).0.phase is Closed),
    decreases s.pending->0.owed() + rows.len(),
{
    let p = s.pending->0;
    lemma_working_consumes(s);
    lemma_poll_keeps_well_formed(s);
    if p.owed() > 0 {
        lemma_round_trip_refused(polled(s).0, rows, status);
    } else if rows.len() > 0 {
        lemma_round_trip_refused(polled(s).0, rows.drop_first(), status);
    }
}

/// A round trip that the server ends under another tag than the
/// command's is a protocol error, and closes the session.
pub proof fn lemma_round_trip_wrong_tag(
    s: SessionView,
    rows: Seq<DataView>,
    tag: Seq<u8>,
    status: Status,
)
    requires
        s.well_formed(),
        s.pending matches Some(p) && tag != tag_text(p.tag) && holds_answer(
            s.transport.inbox,
            p.owed(),
            rows,
            tag,
            status,
        ),
    ensures
        completed(s).1 == Err::<Option<ReplyView>, Error>(Error::Protocol),
        completed(s).0.phase is Closed,
    decreases s.pending->0.owed() + rows.len(),
{
    let p = s.pending->0;
    lemma_working_consumes(s);
    lemma_poll_keeps_well_formed(s);
    if p.owed() > 0 {
        lemma_round_trip_wrong_tag(polled(s).0, rows, tag, status);
    } else if rows.len() > 0 {
        lemma_round_trip_wrong_tag(polled(s).0, rows.drop_first(), tag, status);
    }
}

/// A tagged status that comes while the command still expects a
/// continuation request is a protocol error, whatever its outcome and
/// whatever untagged data came before it: so it is where the server
/// refuses a literal, and where it refuses an `IDLE`.
pub proof fn lemma_status_in_place_of_continuation(
    s: SessionView,
    rows: Seq<DataView>,
    tag: Seq<u8>,
    status: Status,
)
    requires
        s.well_formed(),
        s.pending matches Some(p) && p.owed() > 0,
        holds_answer(s.transport.inbox, 0, rows, tag, status),
    ensures
        completed(s).1 == Err::<Option<ReplyView>, Error>(Error::Protocol),
        completed(s).0.phase is Closed,
        completed(s).0.transport.outbox == s.transport.outbox,
    decreases rows.len(),
{
    lemma_working_consumes(s);
    lemma_poll_keeps_well_formed(s);
    if rows.len() > 0 {
        lemma_status_in_place_of_continuation(polled(s).0, rows.drop_first(), tag, status);
    }
}

/// Where every row is a `FETCH` row, the fetch results are the rows, one
/// for one and in their order.
pub proof fn lemma_fetch_rows_only(rows: Seq<DataView>)
    requires
        forall|i: int| 0 <= i < rows.len() ==> #[trigger] rows[i] is Fetch,
    ensures
        fetches_in(rows).len() == rows.len(),
        forall|i: int|
            0 <= i < rows.len() ==> DataView::Fetch(#[trigger] fetches_in(rows)[i]) == rows[i],
    decreases rows.len(),
{
    if rows.len() > 0 {
        assert forall|i: int| 0 <= i < rows.drop_last().len() implies #[trigger] rows.drop_last()[i]
            is Fetch by {
            assert(rows.drop_last()[i] == rows[i]);
        }
        lemma_fetch_rows_only(rows.drop_last());
        assert(rows.last() == rows[rows.len() - 1]);
        assert forall|i: int| 0 <= i < rows.len() implies DataView::Fetch(
            #[trigger] fetches_in(rows)[i],
        ) == rows[i] by {
            if i < rows.len() - 1 {
                assert(fetches_in(rows)[i] == fetches_in(rows.drop_last())[i]);
                assert(rows.drop_last()[i] == rows[i]);
            }
        }
    }
}

/// A fetch, whatever its arguments hold, returns one entry for each
/// `FETCH` row the server sent before the tagged `OK`, in the server's
/// order, and the empty sequence where it sent none.
///
/// The session admits the command and has nothing unread. `rx` is what
/// the server then sends: one continuation request for each argument that
/// had to go out as a literal, the untagged responses `rows`, and `OK`
/// under the tag the command got. Then the whole command has been written
/// as the server reads it, and the result holds the `FETCH` rows among
/// `rows`.
pub proof fn lemma_fetch_answer(
    s: SessionView,
    verb: Verb,
    set: Seq<u8>,
    query: Seq<u8>,
    rx: Seq<u8>,
    rows: Seq<DataView>,
)
    requires
        s.well_formed(),
        verb == Verb::Fetch || verb == Verb::UidFetch || verb == Verb::UidStore,
        refusal(s, verb) is None,
        s.transport.inbox.len() == 0,
        holds_answer(
            rx,
            literal_count(message_command(verb, set, query).args),
            rows,
            tag_text(s.next_tag),
            Status::Okay,
        ),
    ensures
        completed(fed(issue_spec(s, message_command(verb, set, query), Seq::empty()).0, rx)).1
            == Ok::<Option<ReplyView>, Error>(Some(ReplyView::Fetches(fetches_in(rows)))),
        fetches_in(rows).len() == fetch_count(rows),
        completed(
            fed(issue_spec(s, message_command(verb, set, query), Seq::empty()).0, rx),
        ).0.transport.outbox == s.transport.outbox + wire(
            s.next_tag,
            message_command(verb, set, query),
        ),
{
    let c = message_command(verb, set, query);
    let parts = segments(s.next_tag, c);
    let sent = issue_spec(s, c, Seq::empty()).0;
    let ready = fed(sent, rx);
    lemma_segments_count(c.args, Seq::empty(), tag_text(s.next_tag) + seq![SP] + c.verb.name());
    assert(ready.transport.inbox =~= rx);
    assert(ready.pending->0.owed() == literal_count(c.args));
    lemma_round_trip(ready, rows);
    lemma_fetches_count(rows);
    assert(Seq::<DataView>::empty() + rows =~= rows);
    lemma_joined_front(parts);
    lemma_segments_are_the_wire(s.next_tag, c);
    assert(s.transport.outbox + parts[0] + joined(parts.skip(1)) =~= s.transport.outbox + wire(
        s.next_tag,
        c,
    ));
}

/// Wrapping a balanced list of tokens in anything without parentheses, an
/// opening parenthesis before and a closing one behind keeps it balanced.
pub proof fn lemma_closes_wrapped(before: Seq<Lexeme>, inner: Seq<Lexeme>, j: int, depth: int)
    requires
        0 <= j <= inner.len(),
        depth >= 0,
        closes(inner, j, depth),
    ensures
        closes(before + inner + seq![Lexeme::Close], before.len() + j, depth + 1),
    decreases inner.len() - j,
{
    let all = before + inner + seq![Lexeme::Close];
    if j < inner.len() {
        assert(all[before.len() + j] == inner[j]);
        match inner[j] {
            Lexeme::Open => lemma_closes_wrapped(before, inner, j + 1, depth + 1),
            Lexeme::Close => lemma_closes_wrapped(before, inner, j + 1, depth - 1),
            _ => lemma_closes_wrapped(before, inner, j + 1, depth),
        }
    } else {
        assert(all[before.len() + j] == Lexeme::Close);
        assert(closes(all, before.len() + j + 1, 0));
    }
}

/// A data response of two lines with a literal between them is read as
/// the tokens of the first line before its marker, the literal as one
/// token, and the tokens of the second line, whatever the literal holds.
pub proof fn lemma_scan_with_literal(
    first: Seq<u8>,
    literal: Seq<u8>,
    second: Seq<u8>,
    rest: Seq<u8>,
)
    requires
        forall|j: int| 0 <= j < first.len() ==> first[j] != LF,
        forall|j: int| 0 <= j < second.len() ==> second[j] != LF,
        head_of(seq![42u8, SP] + first) is Data,
        marker_of(first) matches Marker::Present { cut, length } && length == literal.len()
            && lex(first.take(cut as int)) is Some,
        marker_of(second) is Absent,
        lex(second) is Some,
        balanced(
            lex(first.take(marker_of(first)->cut as int))->0.push(Lexeme::Literal(literal)) + lex(
                second,
            )->0,
        ),
    ensures
        scan(seq![42u8, SP] + first + crlf() + literal + second + crlf() + rest) == (Scan::Complete {
            response: ResponseView::Untagged(
                meaning(
                    lex(first.take(marker_of(first)->cut as int))->0.push(Lexeme::Literal(literal))
                        + lex(second)->0,
                ),
            ),
            length: (2 + first.len() + 2 + literal.len() + second.len() + 2) as int,
        }),
        (seq![42u8, SP] + first + crlf() + literal + second + crlf() + rest).skip(
            (2 + first.len() + 2 + literal.len() + second.len() + 2) as int,
        ) == rest,
{
    let s = seq![42u8, SP] + first + crlf() + literal + second + crlf() + rest;
    let head = seq![42u8, SP];
    let end = 2 + first.len() as int;
    let pos = end + 2 + literal.len();
    let pre = lex(first.take(marker_of(first)->cut as int))->0;
    let post = lex(second)->0;
    assert(line_at(s, 0) == Ok::<Option<(int, int)>, Error>(Some((end, end + 2)))) by {
        assert forall|j: int| 0 <= j < end + 1 implies s[j] != LF by {
            if 2 <= j < end {
                assert(s[j] == first[j - 2]);
            }
        }
        assert(s[end + 1] == LF);
        assert(s[end] == CR);
        lemma_first_lf_at(s, 0, end + 1);
    }
    assert(s.subrange(0, end) =~= head + first);
    assert(scan(s) == scan_data(s, 2, Seq::empty()));
    assert(scan_data(s, 2, Seq::empty()) == scan_data(s, pos, pre.push(Lexeme::Literal(literal))))
        by {
        lemma_literal_read_whole(head, first, literal, second + crlf() + rest, Seq::empty());
        assert(head + first + crlf() + literal + (second + crlf() + rest) =~= s);
        assert((Seq::<Lexeme>::empty() + pre).push(Lexeme::Literal(literal)) =~= pre.push(
            Lexeme::Literal(literal),
        ));
    }
    assert(line_at(s, pos) == Ok::<Option<(int, int)>, Error>(
        Some((pos + second.len(), pos + second.len() + 2)),
    )) by {
        assert forall|j: int| pos <= j < pos + second.len() + 1 implies s[j] != LF by {
            if j < pos + second.len() {
                assert(s[j] == second[j - pos]);
            }
        }
        assert(s[pos + second.len() + 1] == LF);
        assert(s[pos + second.len()] == CR);
        lemma_first_lf_at(s, pos, pos + second.len() + 1);
    }
    assert(s.subrange(pos, pos + second.len()) =~= second);
    assert(s.skip(pos + second.len() + 2) =~= rest);
}

/// The tokens of `n FETCH (name literal ...)` mean a fetch result whose
/// attribute `name` has the literal as its value.
pub proof fn lemma_fetch_tokens(
    number: Seq<u8>,
    word: Seq<u8>,
    name: Seq<u8>,
    literal: Seq<u8>,
    others: Seq<Lexeme>,
)
    requires
        number_of(number) is Some,
        upper_all(word) == "FETCH".spec_bytes(),
        balanced(seq![Lexeme::Atom(name), Lexeme::Literal(literal)] + others),
    ensures
        balanced(
            seq![
                Lexeme::Atom(number),
                Lexeme::Atom(word),
                Lexeme::Open,
                Lexeme::Atom(name),
            ].push(Lexeme::Literal(literal)) + others.push(Lexeme::Close),
        ),
        meaning(
            seq![
                Lexeme::Atom(number),
                Lexeme::Atom(word),
                Lexeme::Open,
                Lexeme::Atom(name),
            ].push(Lexeme::Literal(literal)) + others.push(Lexeme::Close),
        ) == DataView::Fetch(
            FetchView {
                message: number_of(number)->0,
                attributes: seq![Lexeme::Atom(name), Lexeme::Literal(literal)] + others,
            },
        ),
        string_of(
            FetchView {
                message: number_of(number)->0,
                attributes: seq![Lexeme::Atom(name), Lexeme::Literal(literal)] + others,
            },
            upper_all(name),
        ) == Some(literal),
{
    let pre = seq![Lexeme::Atom(number), Lexeme::Atom(word), Lexeme::Open, Lexeme::Atom(name)];
    let attrs = seq![Lexeme::Atom(name), Lexeme::Literal(literal)] + others;
    let all = pre.push(Lexeme::Literal(literal)) + others.push(Lexeme::Close);
    let front = seq![Lexeme::Atom(number), Lexeme::Atom(word), Lexeme::Open];
    assert(all =~= front + attrs + seq![Lexeme::Close]);
    assert(closes(all, 3, 1)) by {
        lemma_closes_wrapped(front, attrs, 0, 0);
    }
    assert(closes(all, 0, 0)) by {
        assert(all[0] is Atom && all[1] is Atom && all[2] is Open);
        assert(closes(all, 2, 0) == closes(all, 3, 1));
        assert(closes(all, 1, 0) == closes(all, 2, 0));
        assert(closes(all, 0, 0) == closes(all, 1, 0));
    }
    assert(all.subrange(3, all.len() - 1) =~= attrs);
    assert(all[all.len() - 1] is Close);
    assert(attrs[0] == Lexeme::Atom(name));
    assert(attrs[1] == Lexeme::Literal(literal));
}

/// A fetch response whose first attribute is a literal is read with the
/// literal's bytes as that attribute's value, whatever the bytes hold.
///
/// The response is `* ` and the line `first`, which ends in the marker
/// `{n}`; then the `n` bytes `literal`; then the line `second`. Before the
/// marker, `first` holds a number, `FETCH`, an opening parenthesis and the
/// attribute's name; `second` holds the rest of the list and the closing
/// parenthesis. Nothing is asked of what `literal` holds.
pub proof fn lemma_literal_attribute(
    first: Seq<u8>,
    literal: Seq<u8>,
    second: Seq<u8>,
    rest: Seq<u8>,
    number: Seq<u8>,
    word: Seq<u8>,
    name: Seq<u8>,
    others: Seq<Lexeme>,
)
    requires
        forall|j: int| 0 <= j < first.len() ==> first[j] != LF,
        forall|j: int| 0 <= j < second.len() ==> second[j] != LF,
        head_of(seq![42u8, SP] + first) is Data,
        marker_of(first) matches Marker::Present { cut, length } && length == literal.len()
            && lex(first.take(cut as int)) == Some(
            seq![Lexeme::Atom(number), Lexeme::Atom(word), Lexeme::Open, Lexeme::Atom(name)],
        ),
        number_of(number) is Some,
        upper_all(word) == "FETCH".spec_bytes(),
        marker_of(second) is Absent,
        lex(second) == Some(others.push(Lexeme::Close)),
        balanced(seq![Lexeme::Atom(name), Lexeme::Literal(literal)] + others),
    ensures
        scan(seq![42u8, SP] + first + crlf() + literal + second + crlf() + rest) == (Scan::Complete {
            response: ResponseView::Untagged(
                DataView::Fetch(
                    FetchView {
                        message: number_of(number)->0,
                        attributes: seq![Lexeme::Atom(name), Lexeme::Literal(literal)] + others,
                    },
                ),
            ),
            length: (2 + first.len() + 2 + literal.len() + second.len() + 2) as int,
        }),
        (seq![42u8, SP] + first + crlf() + literal + second + crlf() + rest).skip(
            (2 + first.len() + 2 + literal.len() + second.len() + 2) as int,
        ) == rest,
        string_of(
            FetchView {
                message: number_of(number)->0,
                attributes: seq![Lexeme::Atom(name), Lexeme::Literal(literal)] + others,
            },
            upper_all(name),
        ) == Some(literal),
{
    lemma_fetch_tokens(number, word, name, literal, others);
    lemma_scan_with_literal(first, literal, second, rest);
}

/// A fetch that expects no continuation request any more, and whose
/// answer holds a literal, returns the literal's bytes as they came,
/// whatever they hold.
///
/// The open command is a fetch for which no data has arrived yet. What
/// waits in the transport is a fetch response as in
/// `lemma_literal_attribute`, and `OK` under the command's tag. Then the
/// result holds one entry, and the value of the attribute in it is
/// `literal`.
pub proof fn lemma_literal_round_trip(
    s: SessionView,
    first: Seq<u8>,
    literal: Seq<u8>,
    second: Seq<u8>,
    rest: Seq<u8>,
    number: Seq<u8>,
    word: Seq<u8>,
    name: Seq<u8>,
    others: Seq<Lexeme>,
)
    requires
        s.well_formed(),
        s.pending matches Some(p) && (p.verb == Verb::Fetch || p.verb == Verb::UidFetch || p.verb
            == Verb::UidStore) && p.owed() == 0 && p.rows.len() == 0 && holds_answer(
            rest,
            0,
            Seq::empty(),
            tag_text(p.tag),
            Status::Okay,
        ),
        s.transport.inbox == seq![42u8, SP] + first + crlf() + literal + second + crlf() + rest,
        forall|j: int| 0 <= j < first.len() ==> first[j] != LF,
        forall|j: int| 0 <= j < second.len() ==> second[j] != LF,
        head_of(seq![42u8, SP] + first) is Data,
        marker_of(first) matches Marker::Present { cut, length } && length == literal.len()
            && lex(first.take(cut as int)) == Some(
            seq![Lexeme::Atom(number), Lexeme::Atom(word), Lexeme::Open, Lexeme::Atom(name)],
        ),
        number_of(number) is Some,
        upper_all(word) == "FETCH".spec_bytes(),
        marker_of(second) is Absent,
        lex(second) == Some(others.push(Lexeme::Close)),
        balanced(seq![Lexeme::Atom(name), Lexeme::Literal(literal)] + others),
    ensures
        completed(s).1 matches Ok(Some(ReplyView::Fetches(entries))) && entries.len() == 1
            && string_of(entries[0], upper_all(name)) == Some(literal),
{
    let entry = FetchView {
        message: number_of(number)->0,
        attributes: seq![Lexeme::Atom(name), Lexeme::Literal(literal)] + others,
    };
    let rows = seq![DataView::Fetch(entry)];
    lemma_literal_attribute(first, literal, second, rest, number, word, name, others);
    assert(rows.drop_first() =~= Seq::<DataView>::empty());
    assert(holds_answer(s.transport.inbox, 0, rows, tag_text(s.pending->0.tag), Status::Okay));
    lemma_round_trip(s, rows);
    assert(s.pending->0.rows + rows =~= rows);
    assert(fetches_in(rows) =~= seq![entry]) by {
        assert(rows.drop_last() =~= Seq::<DataView>::empty());
        reveal_with_fuel(fetches_in, 2);
    }
}

/// A fetch whose answer holds a literal returns the literal's bytes as
/// they came, whatever they hold: line terminators, parentheses, anything
/// that looks like a response.
///
/// The session admits the command, has nothing unread, and the command's
/// arguments go out without a literal. `rx` is what the server then sends:
/// a fetch response as in `lemma_literal_attribute`, and `OK` under the
/// tag the command got. Then the result holds one entry, and the value of
/// the attribute in it is `literal`.
pub proof fn lemma_fetch_literal(
    s: SessionView,
    verb: Verb,
    set: Seq<u8>,
    query: Seq<u8>,
    first: Seq<u8>,
    literal: Seq<u8>,
    second: Seq<u8>,
    rest: Seq<u8>,
    number: Seq<u8>,
    word: Seq<u8>,
    name: Seq<u8>,
    others: Seq<Lexeme>,
)
    requires
        s.well_formed(),
        verb == Verb::Fetch || verb == Verb::UidFetch || verb == Verb::UidStore,
        refusal(s, verb) is None,
        s.transport.inbox.len() == 0,
        literal_count(message_command(verb, set, query).args) == 0,
        forall|j: int| 0 <= j < first.len() ==> first[j] != LF,
        forall|j: int| 0 <= j < second.len() ==> second[j] != LF,
        head_of(seq![42u8, SP] + first) is Data,
        marker_of(first) matches Marker::Present { cut, length } && length == literal.len()
            && lex(first.take(cut as int)) == Some(
            seq![Lexeme::Atom(number), Lexeme::Atom(word), Lexeme::Open, Lexeme::Atom(name)],
        ),
        number_of(number) is Some,
        upper_all(word) == "FETCH".spec_bytes(),
        marker_of(second) is Absent,
        lex(second) == Some(others.push(Lexeme::Close)),
        balanced(seq![Lexeme::Atom(name), Lexeme::Literal(literal)] + others),
        holds_answer(rest, 0, Seq::empty(), tag_text(s.next_tag), Status::Okay),
    ensures
        completed(
            fed(
                issue_spec(s, message_command(verb, set, query), Seq::empty()).0,
                seq![42u8, SP] + first + crlf() + literal + second + crlf() + rest,
            ),
        ).1 matches Ok(Some(ReplyView::Fetches(entries))) && entries.len() == 1 && string_of(
            entries[0],
            upper_all(name),
        ) == Some(literal),
{
    let rx = seq![42u8, SP] + first + crlf() + literal + second + crlf() + rest;
    let entry = FetchView {
        message: number_of(number)->0,
        attributes: seq![Lexeme::Atom(name), Lexeme::Literal(literal)] + others,
    };
    let rows = seq![DataView::Fetch(entry)];
    lemma_literal_attribute(first, literal, second, rest, number, word, name, others);
    assert(rows.drop_first() =~= Seq::<DataView>::empty());
    assert(holds_answer(rx, 0, rows, tag_text(s.next_tag), Status::Okay));
    lemma_fetch_answer(s, verb, set, query, rx, rows);
    assert(fetches_in(rows) =~= seq![entry]) by {
        assert(rows.drop_last() =~= Seq::<DataView>::empty());
        reveal_with_fuel(fetches_in, 2);
    }
}

/// An `IDLE` that the server answers with a tagged status in place of the
/// continuation request fails with a protocol error, whatever the status:
/// the idle is over, the session is closed, nothing is handed out, and
/// ending the idle writes no `DONE`.
pub proof fn lemma_idle_refused(v: IdleView)
    requires
        v.session.well_formed(),
        v.state is Open,
        v.session.pending matches Some(p) && p.awaiting,
        scan(v.session.transport.inbox) matches Scan::Complete { response, .. } && response
            is Tagged,
    ensures
        waited(v).1 == Err::<PushedView, Error>(Error::Protocol),
        waited(v).0.state is Over,
        waited(v).0.session.phase is Closed,
        ended(waited(v).0).transport.outbox == v.session.transport.outbox,
{
}

} // verus!
