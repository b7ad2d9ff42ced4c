use imap_core::error::{Error, Refusal};
use imap_core::lex::Token;
use imap_core::reply::{Mailbox, Reply};
use imap_core::response::{Data, Fetch, Name, Response, Status};
use imap_core::session::{Phase, Progress, Session};
use imap_core::transport::Transport;

fn connected() -> Session {
    Session::new(Transport::new())
}

fn authenticated() -> Session {
    let mut s = connected();
    s.logged_in().unwrap();
    s
}

fn complete(s: &mut Session) -> Result<Reply, Error> {
    match s.complete() {
        Ok(Some(reply)) => Ok(reply),
        Ok(None) => panic!("the server's answer ran out"),
        Err(e) => Err(e),
    }
}

fn selected() -> Session {
    let mut s = authenticated();
    s.select("INBOX").unwrap();
    s.feed(b"* 3 EXISTS\r\nA1 OK done\r\n");
    complete(&mut s).unwrap();
    s.drain();
    s
}

#[test]
fn a_new_session_is_not_authenticated() {
    let s = connected();
    assert_eq!(s.phase(), Phase::NotAuthenticated);
    assert_eq!(s.mailbox(), None);
    assert_eq!(s.next_tag(), 1);
    assert!(!s.is_busy());
    assert_eq!(s.transport().written(), b"");
}

#[test]
fn a_session_over_a_closed_transport_is_closed() {
    let mut t = Transport::new();
    t.close();
    let mut s = Session::new(t);
    assert_eq!(s.phase(), Phase::Closed);
    assert_eq!(s.capabilities(), Err(Error::Io));
    assert_eq!(s.logged_in(), Err(Error::Io));
}

#[test]
fn login_moves_to_authenticated_once() {
    let mut s = connected();
    assert_eq!(s.logged_in(), Ok(()));
    assert_eq!(s.phase(), Phase::Authenticated);
    assert_eq!(s.logged_in(), Err(Error::State));
    assert_eq!(s.phase(), Phase::Authenticated);
}

#[test]
fn select_inbox_yields_the_mailbox_and_the_selected_phase() {
    let mut s = authenticated();
    assert_eq!(s.select("INBOX"), Ok(1));
    assert_eq!(s.drain(), b"A1 SELECT \"INBOX\"\r\n".to_vec());
    s.feed(b"* 172 EXISTS\r\n* 1 RECENT\r\n* OK [UIDVALIDITY 3857529045] UIDs valid\r\n");
    s.feed(b"A1 OK [READ-WRITE] SELECT completed\r\n");
    let expected = Mailbox {
        name: b"INBOX".to_vec(),
        exists: 172,
        recent: 1,
        flags: vec![],
        uid_validity: Some(3857529045),
    };
    assert_eq!(s.poll(), Ok(Progress::Working));
    assert_eq!(s.poll(), Ok(Progress::Working));
    assert_eq!(s.poll(), Ok(Progress::Working));
    assert_eq!(s.phase(), Phase::Authenticated);
    assert_eq!(s.poll(), Ok(Progress::Finished(Reply::Mailbox(expected.clone()))));
    assert_eq!(s.phase(), Phase::Selected);
    assert_eq!(s.mailbox(), Some(&expected));
    assert_eq!(s.mailbox().unwrap().name, b"INBOX".to_vec());
    assert!(!s.is_busy());
    assert_eq!(s.poll(), Ok(Progress::Waiting));
}

#[test]
fn select_keeps_the_last_value_of_each_kind() {
    let mut s = authenticated();
    s.select("Drafts").unwrap();
    s.feed(b"* 1 EXISTS\r\n* FLAGS (\\Seen)\r\n* 2 EXISTS\r\n* FLAGS (\\Draft \\Seen)\r\n");
    s.feed(b"* OK [uidvalidity 7] x\r\n* OK [UIDVALIDITY x] y\r\n* OK [UIDNEXT 9] z\r\n");
    s.feed(b"* NO [UIDVALIDITY 8] also counts\r\n* OK [UIDVALIDITY 9 unclosed\r\n");
    s.feed(b"a1 OK done\r\n");
    assert_eq!(complete(&mut s), Err(Error::Protocol));
    let mut s = authenticated();
    s.select("Drafts").unwrap();
    s.feed(b"* 1 EXISTS\r\n* FLAGS (\\Seen)\r\n* 2 EXISTS\r\n* FLAGS (\\Draft \\Seen)\r\n");
    s.feed(b"* OK [uidvalidity 7] x\r\n* OK [UIDVALIDITY x] y\r\n* OK [UIDNEXT 9] z\r\n");
    s.feed(b"* NO [UIDVALIDITY 8] also counts\r\n* OK [UIDVALIDITY 9 unclosed\r\n");
    s.feed(b"A1 OK done\r\n");
    assert_eq!(
        complete(&mut s),
        Ok(Reply::Mailbox(Mailbox {
            name: b"Drafts".to_vec(),
            exists: 2,
            recent: 0,
            flags: vec![b"\\Draft".to_vec(), b"\\Seen".to_vec()],
            uid_validity: Some(8),
        }))
    );
}

#[test]
fn reselect_replaces_the_mailbox() {
    let mut s = selected();
    assert_eq!(s.mailbox().unwrap().exists, 3);
    assert_eq!(s.select("Sent"), Ok(2));
    s.feed(b"* 9 EXISTS\r\nA2 OK done\r\n");
    complete(&mut s).unwrap();
    assert_eq!(s.phase(), Phase::Selected);
    assert_eq!(s.mailbox().unwrap().name, b"Sent".to_vec());
    assert_eq!(s.mailbox().unwrap().exists, 9);
}

#[test]
fn a_refused_select_leaves_no_mailbox_selected() {
    let mut s = selected();
    s.select("Nowhere").unwrap();
    s.feed(b"A2 NO no such mailbox\r\n");
    assert_eq!(complete(&mut s), Err(Error::Command(Refusal::No)));
    assert_eq!(s.phase(), Phase::Authenticated);
    assert_eq!(s.mailbox(), None);
    let mut s = authenticated();
    s.select("Nowhere").unwrap();
    s.feed(b"A1 BAD what\r\n");
    assert_eq!(complete(&mut s), Err(Error::Command(Refusal::Bad)));
    assert_eq!(s.phase(), Phase::Authenticated);
}

#[test]
fn close_moves_back_to_authenticated() {
    let mut s = selected();
    assert_eq!(s.close(), Ok(2));
    assert_eq!(s.drain(), b"A2 CLOSE\r\n".to_vec());
    assert_eq!(s.phase(), Phase::Selected);
    s.feed(b"A2 OK closed\r\n");
    assert_eq!(complete(&mut s), Ok(Reply::Completed));
    assert_eq!(s.phase(), Phase::Authenticated);
    assert_eq!(s.mailbox(), None);
    assert_eq!(s.close(), Err(Error::State));
}

#[test]
fn selected_only_commands_fail_in_authenticated_phase_without_writing() {
    let mut s = authenticated();
    assert_eq!(s.fetch("1:*", "(FLAGS)"), Err(Error::State));
    assert_eq!(s.uid_fetch("1:*", "(FLAGS)"), Err(Error::State));
    assert_eq!(s.uid_store("1", "+FLAGS (\\Seen)"), Err(Error::State));
    assert_eq!(s.uid_mv("1", "Trash"), Err(Error::State));
    assert_eq!(s.uid_copy("1", "Trash"), Err(Error::State));
    assert_eq!(s.close(), Err(Error::State));
    assert_eq!(s.transport().written(), b"");
    assert_eq!(s.next_tag(), 1);
    assert!(!s.is_busy());
    assert_eq!(s.phase(), Phase::Authenticated);
    assert_eq!(s.create("x"), Ok(1));
}

#[test]
fn commands_that_need_a_login_fail_before_it_without_writing() {
    let mut s = connected();
    assert_eq!(s.list(None, None), Err(Error::State));
    assert_eq!(s.create("x"), Err(Error::State));
    assert_eq!(s.subscribe("x"), Err(Error::State));
    assert_eq!(s.select("x"), Err(Error::State));
    assert_eq!(s.fetch("1", "UID"), Err(Error::State));
    assert_eq!(s.transport().written(), b"");
    assert_eq!(s.next_tag(), 1);
    assert_eq!(s.capabilities(), Ok(1));
    assert_eq!(s.transport().written(), b"A1 CAPABILITY\r\n");
}

#[test]
fn every_command_is_written_as_the_protocol_has_it() {
    let mut s = selected();
    let mut send = |s: &mut Session, r: Result<u64, Error>, tag: u64, wire: &[u8]| {
        assert_eq!(r, Ok(tag));
        assert_eq!(s.drain(), wire.to_vec());
        s.feed(format!("A{} OK done\r\n", tag).as_bytes());
        complete(s).unwrap();
    };
    let r = s.capabilities();
    send(&mut s, r, 2, b"A2 CAPABILITY\r\n");
    let r = s.list(Some(""), Some("*"));
    send(&mut s, r, 3, b"A3 LIST \"\" *\r\n");
    let r = s.list(None, None);
    send(&mut s, r, 4, b"A4 LIST \"\" \"\"\r\n");
    let r = s.list(Some("~/Mail"), Some("%"));
    send(&mut s, r, 5, b"A5 LIST \"~/Mail\" %\r\n");
    let r = s.create("My \"Folder\"");
    send(&mut s, r, 6, b"A6 CREATE \"My \\\"Folder\\\"\"\r\n");
    let r = s.subscribe("a\\b");
    send(&mut s, r, 7, b"A7 SUBSCRIBE \"a\\\\b\"\r\n");
    let r = s.fetch("1:*", "(FLAGS BODY[])");
    send(&mut s, r, 8, b"A8 FETCH 1:* (FLAGS BODY[])\r\n");
    let r = s.uid_fetch("4827313:4828442", "RFC822");
    send(&mut s, r, 9, b"A9 UID FETCH 4827313:4828442 RFC822\r\n");
    let r = s.uid_store("5", "+FLAGS (\\Deleted)");
    send(&mut s, r, 10, b"A10 UID STORE 5 +FLAGS (\\Deleted)\r\n");
    let r = s.uid_mv("41:42", "Trash");
    send(&mut s, r, 11, b"A11 UID MOVE 41:42 \"Trash\"\r\n");
    let r = s.uid_copy("2:4", "MEETING");
    send(&mut s, r, 12, b"A12 UID COPY 2:4 \"MEETING\"\r\n");
    let r = s.select("INBOX");
    send(&mut s, r, 13, b"A13 SELECT \"INBOX\"\r\n");
    let r = s.close();
    send(&mut s, r, 14, b"A14 CLOSE\r\n");
}

#[test]
fn tags_increase_by_one_per_command() {
    let mut s = authenticated();
    for tag in 1u64..30 {
        assert_eq!(s.next_tag(), tag);
        assert_eq!(s.capabilities(), Ok(tag));
        assert_eq!(s.next_tag(), tag + 1);
        s.feed(format!("A{} OK done\r\n", tag).as_bytes());
        assert_eq!(complete(&mut s), Ok(Reply::Capabilities(vec![])));
        assert_eq!(s.next_tag(), tag + 1);
    }
}

#[test]
fn the_terminal_status_must_bear_the_commands_tag() {
    let mut s = authenticated();
    assert_eq!(s.capabilities(), Ok(1));
    s.feed(format!("A1 OK done\r\n").as_bytes());
    complete(&mut s).unwrap();
    assert_eq!(s.capabilities(), Ok(2));
    s.feed(b"A1 OK a stale tag\r\n");
    assert_eq!(s.poll(), Err(Error::Protocol));
    assert_eq!(s.phase(), Phase::Closed);
    assert!(s.transport().is_closed());
    assert_eq!(s.capabilities(), Err(Error::Io));
    assert_eq!(s.poll(), Err(Error::Io));
}

#[test]
fn one_command_at_a_time() {
    let mut s = authenticated();
    assert_eq!(s.capabilities(), Ok(1));
    assert!(s.is_busy());
    assert_eq!(s.list(None, None), Err(Error::State));
    assert_eq!(s.transport().written(), b"A1 CAPABILITY\r\n");
    assert_eq!(s.next_tag(), 2);
    s.feed(b"* CAPABILITY IMAP4rev1 IDLE\r\nA1 OK done\r\n");
    assert_eq!(
        complete(&mut s),
        Ok(Reply::Capabilities(vec![b"IMAP4rev1".to_vec(), b"IDLE".to_vec()]))
    );
    assert_eq!(s.list(None, None), Ok(2));
}

#[test]
fn fetch_returns_one_entry_per_fetch_row_in_order() {
    let mut s = selected();
    s.fetch("1:3", "(UID)").unwrap();
    s.feed(b"* 1 FETCH (UID 11)\r\n* 4 EXISTS\r\n* 2 FETCH (UID 12)\r\n");
    s.feed(b"* 3 FETCH (UID 13)\r\nA2 OK FETCH completed\r\n");
    let uid = |n: &str| vec![Token::Atom(b"UID".to_vec()), Token::Atom(n.as_bytes().to_vec())];
    assert_eq!(
        complete(&mut s),
        Ok(Reply::Fetches(vec![
            Fetch { message: 1, attributes: uid("11") },
            Fetch { message: 2, attributes: uid("12") },
            Fetch { message: 3, attributes: uid("13") },
        ]))
    );
}

#[test]
fn fetch_without_rows_returns_an_empty_sequence() {
    let mut s = selected();
    s.fetch("100:200", "(UID)").unwrap();
    s.feed(b"A2 OK nothing there\r\n");
    assert_eq!(complete(&mut s), Ok(Reply::Fetches(vec![])));
    s.uid_fetch("100:200", "(UID)").unwrap();
    s.feed(b"* 7 EXISTS\r\nA3 OK nothing there\r\n");
    assert_eq!(complete(&mut s), Ok(Reply::Fetches(vec![])));
    s.uid_store("1", "+FLAGS (\\Seen)").unwrap();
    s.feed(b"* 1 FETCH (FLAGS (\\Seen))\r\nA4 OK stored\r\n");
    match complete(&mut s) {
        Ok(Reply::Fetches(rows)) => assert_eq!(rows.len(), 1),
        other => panic!("{:?}", other),
    }
}

#[test]
fn fetch_reads_literals_that_hold_line_terminators() {
    let mut s = selected();
    s.fetch("1", "BODY[]").unwrap();
    s.feed(b"* 1 FETCH (BODY[] {9}\r\nA2 OK\r\n\r\n)\r\n");
    assert_eq!(s.poll(), Ok(Progress::Working));
    assert!(s.is_busy());
    s.feed(b"A2 OK done\r\n");
    assert_eq!(
        complete(&mut s),
        Ok(Reply::Fetches(vec![Fetch {
            message: 1,
            attributes: vec![
                Token::Atom(b"BODY[]".to_vec()),
                Token::Literal(b"A2 OK\r\n\r\n".to_vec()),
            ],
        }]))
    );
}

#[test]
fn list_returns_the_names_in_order() {
    let mut s = authenticated();
    s.list(Some(""), Some("*")).unwrap();
    s.feed(b"* LIST (\\HasNoChildren) \".\" INBOX\r\n* LIST (\\Noselect \\HasChildren) \".\" \"Lists\"\r\n");
    s.feed(b"A1 OK LIST completed\r\n");
    assert_eq!(
        complete(&mut s),
        Ok(Reply::Names(vec![
            Name {
                attributes: vec![b"\\HasNoChildren".to_vec()],
                delimiter: Some(b".".to_vec()),
                name: b"INBOX".to_vec(),
            },
            Name {
                attributes: vec![b"\\Noselect".to_vec(), b"\\HasChildren".to_vec()],
                delimiter: Some(b".".to_vec()),
                name: b"Lists".to_vec(),
            },
        ]))
    );
}

#[test]
fn a_refused_command_leaves_the_session_usable() {
    let mut s = authenticated();
    s.create("INBOX").unwrap();
    s.feed(b"A1 NO already exists\r\n");
    assert_eq!(complete(&mut s), Err(Error::Command(Refusal::No)));
    assert_eq!(s.phase(), Phase::Authenticated);
    assert!(!s.is_busy());
    s.subscribe("x").unwrap();
    s.feed(b"A2 BAD no\r\n");
    assert_eq!(complete(&mut s), Err(Error::Command(Refusal::Bad)));
    assert_eq!(s.create("other"), Ok(3));
    s.feed(b"A3 OK created\r\n");
    assert_eq!(complete(&mut s), Ok(Reply::Completed));
}

#[test]
fn a_literal_argument_waits_for_the_continuation_request() {
    let mut s = authenticated();
    assert_eq!(s.create("a\r\nb"), Ok(1));
    assert_eq!(s.drain(), b"A1 CREATE {4}\r\n".to_vec());
    assert_eq!(s.poll(), Ok(Progress::Waiting));
    assert_eq!(s.transport().written(), b"");
    s.feed(b"+ go ahead\r\n");
    assert_eq!(s.poll(), Ok(Progress::Working));
    assert_eq!(s.drain(), b"a\r\nb\r\n".to_vec());
    s.feed(b"A1 OK created\r\n");
    assert_eq!(s.poll(), Ok(Progress::Finished(Reply::Completed)));
}

#[test]
fn a_status_in_place_of_the_continuation_request_is_a_protocol_error() {
    let mut s = authenticated();
    s.create("a\nb").unwrap();
    s.feed(b"A1 NO literals are not welcome\r\n");
    assert_eq!(s.poll(), Err(Error::Protocol));
    assert_eq!(s.phase(), Phase::Closed);
}

#[test]
fn an_unexpected_continuation_request_is_a_protocol_error() {
    let mut s = authenticated();
    s.create("plain").unwrap();
    s.feed(b"+ what\r\n");
    assert_eq!(s.poll(), Err(Error::Protocol));
    assert_eq!(s.phase(), Phase::Closed);
    let mut s = authenticated();
    s.feed(b"+ what\r\n");
    assert_eq!(s.poll(), Err(Error::Protocol));
    let mut s = authenticated();
    s.feed(b"A1 OK nobody asked\r\n");
    assert_eq!(s.poll(), Err(Error::Protocol));
}

#[test]
fn untagged_data_outside_a_command_is_dropped() {
    let mut s = selected();
    s.feed(b"* 4 EXISTS\r\n");
    assert_eq!(s.poll(), Ok(Progress::Working));
    assert!(!s.is_busy());
    s.fetch("1", "UID").unwrap();
    s.feed(b"A2 OK done\r\n");
    assert_eq!(complete(&mut s), Ok(Reply::Fetches(vec![])));
}

#[test]
fn a_malformed_response_closes_the_session() {
    let mut s = selected();
    s.fetch("1", "UID").unwrap();
    s.feed(b"* 1 FETCH (UID 1\r\nA2 OK done\r\n");
    assert_eq!(s.poll(), Err(Error::Parse));
    assert_eq!(s.phase(), Phase::Closed);
    assert_eq!(s.mailbox(), None);
    assert!(!s.is_busy());
    assert_eq!(s.fetch("1", "UID"), Err(Error::Io));
}

#[test]
fn disconnect_closes_from_any_phase() {
    for mut s in [connected(), authenticated(), selected()] {
        s.disconnect();
        assert_eq!(s.phase(), Phase::Closed);
        assert!(s.transport().is_closed());
        assert_eq!(s.capabilities(), Err(Error::Io));
        assert_eq!(s.poll(), Err(Error::Io));
        s.disconnect();
        assert_eq!(s.phase(), Phase::Closed);
    }
}

#[test]
fn react_applies_a_response_handed_in() {
    let mut s = selected();
    s.fetch("1", "UID").unwrap();
    assert_eq!(s.react(Response::Untagged(Data::Exists(5))), Ok(Progress::Working));
    assert_eq!(
        s.react(Response::Tagged { tag: b"A2".to_vec(), status: Status::Okay, text: vec![] }),
        Ok(Progress::Finished(Reply::Fetches(vec![])))
    );
    assert_eq!(
        s.react(Response::Tagged { tag: b"A2".to_vec(), status: Status::Okay, text: vec![] }),
        Err(Error::Protocol)
    );
}

#[test]
fn take_response_hands_out_without_applying() {
    let mut s = selected();
    s.fetch("1", "UID").unwrap();
    s.feed(b"A2 OK done\r\nrest");
    assert_eq!(
        s.take_response(),
        Ok(Some(Response::Tagged {
            tag: b"A2".to_vec(),
            status: Status::Okay,
            text: b"done".to_vec(),
        }))
    );
    assert!(s.is_busy());
    assert_eq!(s.transport().received(), b"rest");
    assert_eq!(s.take_response(), Ok(None));
}

#[test]
fn complete_returns_nothing_until_the_tagged_status_has_arrived() {
    let mut s = selected();
    s.fetch("1:2", "UID").unwrap();
    assert_eq!(s.complete(), Ok(None));
    s.feed(b"* 1 FETCH (UID 5)\r\n* 2 FETCH (UI");
    assert_eq!(s.complete(), Ok(None));
    assert_eq!(s.transport().received(), b"* 2 FETCH (UI");
    assert!(s.is_busy());
    s.feed(b"D 6)\r\nA2 OK done\r\n* 9 EXISTS\r\n");
    match s.complete() {
        Ok(Some(Reply::Fetches(rows))) => {
            assert_eq!(rows.len(), 2);
            assert_eq!(rows[0].uid(), Some(5));
            assert_eq!(rows[1].uid(), Some(6));
        }
        other => panic!("{:?}", other),
    }
    assert_eq!(s.transport().received(), b"* 9 EXISTS\r\n");
    assert!(!s.is_busy());
    assert_eq!(s.complete(), Ok(None));
    assert_eq!(s.transport().received(), b"");
}

#[test]
fn complete_stops_at_the_first_error() {
    let mut s = selected();
    s.fetch("1", "UID").unwrap();
    s.feed(b"* 1 FETCH (UID 5)\r\nA2 NO sorry\r\nA2 OK late\r\n");
    assert_eq!(s.complete(), Err(Error::Command(Refusal::No)));
    assert_eq!(s.transport().received(), b"A2 OK late\r\n");
    assert_eq!(s.phase(), Phase::Selected);
    assert_eq!(s.complete(), Err(Error::Protocol));
    assert_eq!(s.phase(), Phase::Closed);
    assert_eq!(s.complete(), Err(Error::Io));
}

#[test]
fn complete_releases_a_literal_on_the_continuation_request() {
    let mut s = authenticated();
    s.subscribe("a\nb").unwrap();
    assert_eq!(s.drain(), b"A1 SUBSCRIBE {3}\r\n".to_vec());
    s.feed(b"+ ok\r\n");
    assert_eq!(s.complete(), Ok(None));
    assert_eq!(s.drain(), b"a\nb\r\n".to_vec());
    s.feed(b"A1 OK done\r\n");
    assert_eq!(s.complete(), Ok(Some(Reply::Completed)));
}

#[test]
fn a_fetch_whose_argument_goes_out_as_a_literal_returns_its_rows() {
    let mut s = selected();
    assert_eq!(s.fetch("1\r\n2", "(UID)"), Ok(2));
    assert!(!s.is_awaiting());
    assert_eq!(s.drain(), b"A2 FETCH {4}\r\n".to_vec());
    s.feed(b"+ go on\r\n* 1 FETCH (UID 7)\r\n* 2 FETCH (UID 8)\r\nA2 OK done\r\n");
    match s.complete() {
        Ok(Some(Reply::Fetches(rows))) => {
            assert_eq!(rows.len(), 2);
            assert_eq!(rows[0].uid(), Some(7));
            assert_eq!(rows[1].uid(), Some(8));
        }
        other => panic!("{:?}", other),
    }
    assert_eq!(s.drain(), b"1\r\n2 (UID)\r\n".to_vec());
}

#[test]
fn a_fetch_whose_literal_the_server_does_not_ask_for_is_a_protocol_error() {
    let mut s = selected();
    s.uid_fetch("1\n2", "(UID)").unwrap();
    s.feed(b"* 1 FETCH (UID 7)\r\nA2 OK done\r\n");
    assert_eq!(s.complete(), Err(Error::Protocol));
    assert_eq!(s.phase(), Phase::Closed);
    assert_eq!(s.transport().written(), b"A2 UID FETCH {3}\r\n");
}

#[test]
fn a_fetched_literal_comes_back_byte_for_byte() {
    let bodies: [&[u8]; 6] = [b"", b"\r\n", b"a\r\nb", b")\r\nA2 OK done\r\n", b"{3}\r\nabc", b"\n\r\0\xff("];
    for body in bodies {
        let mut s = selected();
        s.fetch("1", "BODY[]").unwrap();
        let mut rx = format!("* 1 FETCH (BODY[] {{{}}}\r\n", body.len()).into_bytes();
        rx.extend_from_slice(body);
        rx.extend_from_slice(b" UID 4)\r\nA2 OK done\r\n");
        s.feed(&rx);
        match s.complete() {
            Ok(Some(Reply::Fetches(rows))) => {
                assert_eq!(rows.len(), 1);
                assert_eq!(rows[0].body(), Some(body.to_vec()));
                assert_eq!(rows[0].uid(), Some(4));
            }
            other => panic!("{:?}", other),
        }
        assert_eq!(s.transport().received(), b"");
    }
}
