//! What a completed command returns, built from the untagged data that
//! arrived before its tagged status.

use vstd::prelude::*;
use vstd::string::StringSliceAdditionalSpecFns;
use crate::command::{Verb, rows_view};
use crate::lex::tokens_view;
use crate::response::{Data, DataView, Fetch, FetchView, Name, NameView, copy_tokens};
use crate::text::{
    copy_of,
    find_byte,
    first_at,
    is_keyword,
    number_of,
    parse_number,
    same_ignoring_case,
    upper_all,
};

verus! {

/// The state of a selected mailbox, as a mathematical value.
pub struct MailboxView {
    pub name: Seq<u8>,
    pub exists: u32,
    pub recent: u32,
    pub flags: Seq<Seq<u8>>,
    pub uid_validity: Option<u32>,
}

/// The state of a selected mailbox.
#[derive(Clone, Debug, PartialEq, Eq)]
pub struct Mailbox {
    /// The name under which the mailbox was selected.
    pub name: Vec<u8>,
    /// The number of messages in the mailbox.
    pub exists: u32,
    /// The number of recent messages.
    pub recent: u32,
    /// The flags defined in the mailbox.
    pub flags: Vec<Vec<u8>>,
    /// The unique identifier validity value, where the server gave one.
    pub uid_validity: Option<u32>,
}

impl View for Mailbox {
    type V = MailboxView;

    open spec fn view(&self) -> MailboxView {
        MailboxView {
            name: self.name@,
            exists: self.exists,
            recent: self.recent,
            flags: rows_view(self.flags@),
            uid_validity: self.uid_validity,
        }
    }
}

/// What a completed command returns, as a mathematical value.
pub enum ReplyView {
    Completed,
    Capabilities(Seq<Seq<u8>>),
    Names(Seq<NameView>),
    Mailbox(MailboxView),
    Fetches(Seq<FetchView>),
}

/// What a completed command returns.
#[derive(Clone, Debug, PartialEq, Eq)]
pub enum Reply {
    /// The command has no result beyond its success.
    Completed,
    /// The capabilities the server listed.
    Capabilities(Vec<Vec<u8>>),
    /// The names the server listed, in the order it sent them.
    Names(Vec<Name>),
    /// The state of the mailbox that was selected.
    Mailbox(Mailbox),
    /// What the server reported of each message, in the order it sent them.
    Fetches(Vec<Fetch>),
}

/// What `names` hold, name by name.
pub open spec fn names_view(names: Seq<Name>) -> Seq<NameView> {
    Seq::new(names.len(), |i: int| names[i]@)
}

/// What `fetches` hold, one by one.
pub open spec fn fetches_view(fetches: Seq<Fetch>) -> Seq<FetchView> {
    Seq::new(fetches.len(), |i: int| fetches[i]@)
}

/// What `rows` hold, row by row.
pub open spec fn data_view(rows: Seq<Data>) -> Seq<DataView> {
    Seq::new(rows.len(), |i: int| rows[i]@)
}

impl View for Reply {
    type V = ReplyView;

    open spec fn view(&self) -> ReplyView {
        match self {
            Reply::Completed => ReplyView::Completed,
            Reply::Capabilities(names) => ReplyView::Capabilities(rows_view(names@)),
            Reply::Names(names) => ReplyView::Names(names_view(names@)),
            Reply::Mailbox(mailbox) => ReplyView::Mailbox(mailbox@),
            Reply::Fetches(fetches) => ReplyView::Fetches(fetches_view(fetches@)),
        }
    }
}

/// The `FETCH` rows among `rows`, in order.
pub open spec fn fetches_in(rows: Seq<DataView>) -> Seq<FetchView>
    decreases rows.len(),
{
    if rows.len() == 0 {
        Seq::empty()
    } else {
        match rows.last() {
            DataView::Fetch(fetch) => fetches_in(rows.drop_last()).push(fetch),
            _ => fetches_in(rows.drop_last()),
        }
    }
}

/// How many of `rows` are `FETCH` rows.
pub open spec fn fetch_count(rows: Seq<DataView>) -> nat
    decreases rows.len(),
{
    if rows.len() == 0 {
        0
    } else if rows.last() is Fetch {
        fetch_count(rows.drop_last()) + 1
    } else {
        fetch_count(rows.drop_last())
    }
}

/// The `LIST` rows among `rows`, in order.
pub open spec fn names_in(rows: Seq<DataView>) -> Seq<NameView>
    decreases rows.len(),
{
    if rows.len() == 0 {
        Seq::empty()
    } else {
        match rows.last() {
            DataView::List(name) => names_in(rows.drop_last()).push(name),
            _ => names_in(rows.drop_last()),
        }
    }
}

/// The capabilities that the `CAPABILITY` rows among `rows` list, in
/// order.
pub open spec fn capabilities_in(rows: Seq<DataView>) -> Seq<Seq<u8>>
    decreases rows.len(),
{
    if rows.len() == 0 {
        Seq::empty()
    } else {
        match rows.last() {
            DataView::Capability(names) => capabilities_in(rows.drop_last()) + names,
            _ => capabilities_in(rows.drop_last()),
        }
    }
}

/// The number that a status text carries in the response code
/// `[UIDVALIDITY n]` at its start.
pub open spec fn uid_validity_in(text: Seq<u8>) -> Option<u32> {
    let key = "[UIDVALIDITY ".spec_bytes();
    let close = first_at(text, key.len() as int, 93);
    if text.len() >= key.len() && upper_all(text.take(key.len() as int)) == key && close
        < text.len() {
        number_of(text.subrange(key.len() as int, close))
    } else {
        None
    }
}

/// A mailbox of which nothing is known but its name.
pub open spec fn blank(name: Seq<u8>) -> MailboxView {
    MailboxView { name, exists: 0, recent: 0, flags: Seq::empty(), uid_validity: None }
}

/// The mailbox's state after one more row.
pub open spec fn absorbed(m: MailboxView, row: DataView) -> MailboxView {
    match row {
        DataView::Exists(n) => MailboxView { exists: n, ..m },
        DataView::Recent(n) => MailboxView { recent: n, ..m },
        DataView::Flags(flags) => MailboxView { flags, ..m },
        DataView::Status { status, text } => match uid_validity_in(text) {
            Some(v) => MailboxView { uid_validity: Some(v), ..m },
            None => m,
        },
        _ => m,
    }
}

/// The state of the mailbox `name` that `rows` describe: each count, flag
/// list and validity value as the last row that gave it.
pub open spec fn mailbox_in(rows: Seq<DataView>, name: Seq<u8>) -> MailboxView
    decreases rows.len(),
{
    if rows.len() == 0 {
        blank(name)
    } else {
        absorbed(mailbox_in(rows.drop_last(), name), rows.last())
    }
}

/// What a command with the given verb returns once the server has
/// completed it, `rows` being the untagged data that arrived meanwhile and
/// `target` the mailbox it named.
pub open spec fn reply_for(verb: Verb, target: Seq<u8>, rows: Seq<DataView>) -> ReplyView {
    match verb {
        Verb::Capability => ReplyView::Capabilities(capabilities_in(rows)),
        Verb::List => ReplyView::Names(names_in(rows)),
        Verb::Select => ReplyView::Mailbox(mailbox_in(rows, target)),
        Verb::Fetch => ReplyView::Fetches(fetches_in(rows)),
        Verb::UidFetch => ReplyView::Fetches(fetches_in(rows)),
        Verb::UidStore => ReplyView::Fetches(fetches_in(rows)),
        _ => ReplyView::Completed,
    }
}

/// There are as many fetch results as there were `FETCH` rows.
pub proof fn lemma_fetches_count(rows: Seq<DataView>)
    ensures
        fetches_in(rows).len() == fetch_count(rows),
    decreases rows.len(),
{
    if rows.len() > 0 {
        lemma_fetches_count(rows.drop_last());
    }
}

/// A copy of a list of byte strings.
pub fn copy_rows(rows: &[Vec<u8>]) -> (r: Vec<Vec<u8>>)
    ensures
        rows_view(r@) == rows_view(rows@),
{
    let mut r: Vec<Vec<u8>> = Vec::new();
    let mut i: usize = 0;
    while i < rows.len()
        invariant
            i <= rows@.len(),
            r@.len() == i,
            forall|k: int| 0 <= k < i ==> (#[trigger] r@[k])@ == rows@[k]@,
        decreases rows.len() - i,
    {
        let ghost before = r@;
        let row = copy_of(rows[i].as_slice());
        r.push(row);
        proof {
            assert forall|k: int| 0 <= k < i + 1 implies (#[trigger] r@[k])@ == rows@[k]@ by {
                if k < i {
                    assert(r@[k] == before[k]);
                }
            }
        }
        i = i + 1;
    }
    proof {
        assert(rows_view(r@) =~= rows_view(rows@));
    }
    r
}

/// A copy of a fetch result.
pub fn copy_fetch(fetch: &Fetch) -> (r: Fetch)
    ensures
        r@ == fetch@,
{
    let attributes = copy_tokens(fetch.attributes.as_slice(), 0, fetch.attributes.len());
    proof {
        assert(tokens_view(fetch.attributes@).subrange(0, fetch.attributes@.len() as int)
            =~= tokens_view(fetch.attributes@));
    }
    Fetch { message: fetch.message, attributes }
}

/// A copy of a listed name.
pub fn copy_name(name: &Name) -> (r: Name)
    ensures
        r@ == name@,
{
    Name {
        attributes: copy_rows(name.attributes.as_slice()),
        delimiter: match &name.delimiter {
            Some(d) => Some(copy_of(d.as_slice())),
            None => None,
        },
        name: copy_of(name.name.as_slice()),
    }
}

/// A copy of a mailbox's state.
pub fn copy_mailbox(mailbox: &Mailbox) -> (r: Mailbox)
    ensures
        r@ == mailbox@,
{
    Mailbox {
        name: copy_of(mailbox.name.as_slice()),
        exists: mailbox.exists,
        recent: mailbox.recent,
        flags: copy_rows(mailbox.flags.as_slice()),
        uid_validity: mailbox.uid_validity,
    }
}

/// Collects the `FETCH` rows among `rows`, in order.
pub fn collect_fetches(rows: &[Data]) -> (r: Vec<Fetch>)
    ensures
        fetches_view(r@) == fetches_in(data_view(rows@)),
        r@.len() == fetch_count(data_view(rows@)),
{
    let ghost all = data_view(rows@);
    let mut out: Vec<Fetch> = Vec::new();
    let mut i: usize = 0;
    proof {
        assert(fetches_view(out@) =~= Seq::<FetchView>::empty());
    }
    while i < rows.len()
        invariant
            i <= rows@.len(),
            all == data_view(rows@),
            fetches_view(out@) == fetches_in(all.take(i as int)),
        decreases rows.len() - i,
    {
        proof {
            assert(all.take(i + 1).drop_last() =~= all.take(i as int));
            assert(all.take(i + 1).last() == rows@[i as int]@);
        }
        match &rows[i] {
            Data::Fetch(fetch) => {
                let ghost before = out@;
                let copy = copy_fetch(fetch);
                out.push(copy);
                proof {
                    assert(fetches_view(out@) =~= fetches_view(before).push(copy@));
                }
            },
            _ => {},
        }
        i = i + 1;
    }
    proof {
        assert(all.take(i as int) =~= all);
        lemma_fetches_count(all);
    }
    out
}

/// Collects the `LIST` rows among `rows`, in order.
pub fn collect_names(rows: &[Data]) -> (r: Vec<Name>)
    ensures
        names_view(r@) == names_in(data_view(rows@)),
{
    let ghost all = data_view(rows@);
    let mut out: Vec<Name> = Vec::new();
    let mut i: usize = 0;
    proof {
        assert(names_view(out@) =~= Seq::<NameView>::empty());
    }
    while i < rows.len()
        invariant
            i <= rows@.len(),
            all == data_view(rows@),
            names_view(out@) == names_in(all.take(i as int)),
        decreases rows.len() - i,
    {
        proof {
            assert(all.take(i + 1).drop_last() =~= all.take(i as int));
            assert(all.take(i + 1).last() == rows@[i as int]@);
        }
        match &rows[i] {
            Data::List(name) => {
                let ghost before = out@;
                let copy = copy_name(name);
                out.push(copy);
                proof {
                    assert(names_view(out@) =~= names_view(before).push(copy@));
                }
            },
            _ => {},
        }
        i = i + 1;
    }
    proof {
        assert(all.take(i as int) =~= all);
    }
    out
}

/// Collects what the `CAPABILITY` rows among `rows` list, in order.
pub fn collect_capabilities(rows: &[Data]) -> (r: Vec<Vec<u8>>)
    ensures
        rows_view(r@) == capabilities_in(data_view(rows@)),
{
    let ghost all = data_view(rows@);
    let mut out: Vec<Vec<u8>> = Vec::new();
    let mut i: usize = 0;
    proof {
        assert(rows_view(out@) =~= Seq::<Seq<u8>>::empty());
    }
    while i < rows.len()
        invariant
            i <= rows@.len(),
            all == data_view(rows@),
            rows_view(out@) == capabilities_in(all.take(i as int)),
        decreases rows.len() - i,
    {
        proof {
            assert(all.take(i + 1).drop_last() =~= all.take(i as int));
            assert(all.take(i + 1).last() == rows@[i as int]@);
        }
        match &rows[i] {
            Data::Capability(names) => {
                let ghost before = out@;
                let mut copy = copy_rows(names.as_slice());
                let ghost added = copy@;
                out.append(&mut copy);
                proof {
                    assert(rows_view(out@) =~= rows_view(before) + rows_view(added));
                }
            },
            _ => {},
        }
        i = i + 1;
    }
    proof {
        assert(all.take(i as int) =~= all);
    }
    out
}

/// Whether `name` is among the capabilities `names`, letter case aside.
pub open spec fn lists(names: Seq<Seq<u8>>, name: Seq<u8>) -> bool {
    exists|i: int| 0 <= i < names.len() && upper_all(#[trigger] names[i]) == upper_all(name)
}

/// Whether the server listed the capability `name`.
pub fn supports(names: &[Vec<u8>], name: &[u8]) -> (r: bool)
    ensures
        r == lists(rows_view(names@), name@),
{
    let mut i: usize = 0;
    while i < names.len()
        invariant
            i <= names@.len(),
            forall|j: int|
                0 <= j < i ==> upper_all(#[trigger] rows_view(names@)[j]) != upper_all(name@),
        decreases names.len() - i,
    {
        if same_ignoring_case(names[i].as_slice(), name) {
            proof {
                assert(upper_all(rows_view(names@)[i as int]) == upper_all(name@));
            }
            return true;
        }
        i = i + 1;
    }
    false
}

/// Reads the number in a `[UIDVALIDITY n]` response code at the start of
/// a status text.
pub fn read_uid_validity(text: &[u8]) -> (r: Option<u32>)
    ensures
        r == uid_validity_in(text@),
{
    let key = "[UIDVALIDITY ".as_bytes();
    if text.len() < key.len() {
        return None;
    }
    let head = vstd::slice::slice_subrange(text, 0, key.len());
    proof {
        assert(head@ =~= text@.take(key@.len() as int));
    }
    if !is_keyword(head, key) {
        return None;
    }
    let close = find_byte(text, key.len(), 93);
    if close >= text.len() {
        return None;
    }
    parse_number(vstd::slice::slice_subrange(text, key.len(), close))
}

/// Builds the state of the mailbox `name` from the rows that answered its
/// selection.
pub fn collect_mailbox(rows: &[Data], name: &[u8]) -> (r: Mailbox)
    ensures
        r@ == mailbox_in(data_view(rows@), name@),
{
    let ghost all = data_view(rows@);
    let mut m = Mailbox {
        name: copy_of(name),
        exists: 0,
        recent: 0,
        flags: Vec::new(),
        uid_validity: None,
    };
    proof {
        assert(rows_view(m.flags@) =~= Seq::<Seq<u8>>::empty());
    }
    let mut i: usize = 0;
    while i < rows.len()
        invariant
            i <= rows@.len(),
            all == data_view(rows@),
            m@ == mailbox_in(all.take(i as int), name@),
        decreases rows.len() - i,
    {
        proof {
            assert(all.take(i + 1).drop_last() =~= all.take(i as int));
            assert(all.take(i + 1).last() == rows@[i as int]@);
        }
        match &rows[i] {
            Data::Exists(n) => {
                m.exists = *n;
            },
            Data::Recent(n) => {
                m.recent = *n;
            },
            Data::Flags(flags) => {
                m.flags = copy_rows(flags.as_slice());
            },
            Data::Status { status, text } => {
                match read_uid_validity(text.as_slice()) {
                    Some(v) => {
                        m.uid_validity = Some(v);
                    },
                    None => {},
                }
            },
            _ => {},
        }
        i = i + 1;
    }
    proof {
        assert(all.take(i as int) =~= all);
    }
    m
}

/// Builds what a completed command returns.
pub fn build_reply(verb: Verb, target: &[u8], rows: &[Data]) -> (r: Reply)
    ensures
        r@ == reply_for(verb, target@, data_view(rows@)),
{
    match verb {
        Verb::Capability => Reply::Capabilities(collect_capabilities(rows)),
        Verb::List => Reply::Names(collect_names(rows)),
        Verb::Select => Reply::Mailbox(collect_mailbox(rows, target)),
        Verb::Fetch => Reply::Fetches(collect_fetches(rows)),
        Verb::UidFetch => Reply::Fetches(collect_fetches(rows)),
        Verb::UidStore => Reply::Fetches(collect_fetches(rows)),
        _ => Reply::Completed,
    }
}

} // verus!
