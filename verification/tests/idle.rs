use imap_core::error::Error;
use imap_core::idle::{IdleState, Pushed};
use imap_core::reply::Reply;
use imap_core::response::Data;
use imap_core::session::{Phase, Progress, Session};
use imap_core::transport::Transport;

fn authenticated() -> Session {
    let mut s = Session::new(Transport::new());
    s.logged_in().unwrap();
    s
}

#[test]
fn idle_yields_pushed_lines_in_order_and_ends_with_done() {
    let mut wire: Vec<u8> = Vec::new();
    let mut h = authenticated().idle();
    assert_eq!(h.state(), IdleState::Fresh);
    assert_eq!(h.init(), Ok(1));
    assert_eq!(h.state(), IdleState::Open);
    wire.extend(h.drain());
    h.feed(b"+ idling\r\n");
    assert_eq!(h.wait(), Ok(Pushed::Accepted));
    assert_eq!(h.wait(), Ok(Pushed::Waiting));
    h.feed(b"* 4 EXISTS\r\n* 1 RECENT\r\n");
    let first = h.wait();
    let second = h.wait();
    assert_eq!(first, Ok(Pushed::Data(Data::Exists(4))));
    assert_eq!(second, Ok(Pushed::Data(Data::Recent(1))));
    assert_eq!(h.wait(), Ok(Pushed::Waiting));
    wire.extend(h.drain());
    let mut s = h.done();
    wire.extend(s.drain());
    assert!(s.is_busy());
    assert_eq!(s.capabilities(), Err(Error::State));
    s.feed(b"A1 OK IDLE terminated\r\n");
    assert_eq!(s.poll(), Ok(Progress::Finished(Reply::Completed)));
    wire.extend(s.drain());
    assert_eq!(wire, b"A1 IDLE\r\nDONE\r\n".to_vec());
    assert_eq!(s.phase(), Phase::Authenticated);
    assert_eq!(s.capabilities(), Ok(2));
}

#[test]
fn idle_needs_a_login() {
    let mut h = Session::new(Transport::new()).idle();
    assert_eq!(h.init(), Err(Error::State));
    assert_eq!(h.state(), IdleState::Fresh);
    assert_eq!(h.wait(), Err(Error::State));
    let mut s = h.done();
    assert_eq!(s.drain(), Vec::<u8>::new());
    assert!(!s.is_busy());
}

#[test]
fn idle_starts_once() {
    let mut h = authenticated().idle();
    assert_eq!(h.init(), Ok(1));
    assert_eq!(h.init(), Err(Error::State));
    assert_eq!(h.session().transport().written(), b"A1 IDLE\r\n");
}

#[test]
fn an_idle_that_was_not_started_ends_without_done() {
    let h = authenticated().idle();
    let mut s = h.done();
    assert_eq!(s.drain(), Vec::<u8>::new());
    assert_eq!(s.capabilities(), Ok(1));
}

#[test]
fn an_idle_the_server_refuses_is_a_protocol_error() {
    for answer in [&b"A1 BAD unknown command\r\n"[..], b"A1 NO not now\r\n", b"A1 OK fine\r\n"] {
        let mut h = authenticated().idle();
        h.init().unwrap();
        assert_eq!(h.drain(), b"A1 IDLE\r\n".to_vec());
        assert!(!h.is_accepted());
        h.feed(answer);
        assert_eq!(h.wait(), Err(Error::Protocol));
        assert_eq!(h.state(), IdleState::Over);
        assert_eq!(h.wait(), Err(Error::State));
        let mut s = h.done();
        assert_eq!(s.drain(), Vec::<u8>::new());
        assert_eq!(s.phase(), Phase::Closed);
        assert!(s.transport().is_closed());
        assert_eq!(s.capabilities(), Err(Error::Io));
    }
}

#[test]
fn data_pushed_before_a_refusal_is_handed_out_and_the_refusal_still_fails() {
    let mut h = authenticated().idle();
    h.init().unwrap();
    h.drain();
    h.feed(b"* 3 EXISTS\r\nA1 BAD no\r\n");
    assert_eq!(h.wait(), Ok(Pushed::Data(Data::Exists(3))));
    assert_eq!(h.wait(), Err(Error::Protocol));
    assert_eq!(h.done().phase(), Phase::Closed);
}

#[test]
fn the_server_accepts_an_idle_once() {
    let mut h = authenticated().idle();
    assert!(!h.is_accepted());
    h.init().unwrap();
    assert!(!h.is_accepted());
    assert!(h.session().is_awaiting());
    h.feed(b"+ idling\r\n");
    assert_eq!(h.wait(), Ok(Pushed::Accepted));
    assert!(h.is_accepted());
    assert!(!h.session().is_awaiting());
    h.feed(b"+ again\r\n");
    assert_eq!(h.wait(), Err(Error::Protocol));
    assert_eq!(h.state(), IdleState::Over);
    assert!(!h.is_accepted());
    assert_eq!(h.done().phase(), Phase::Closed);
}

#[test]
fn a_refusal_after_done_went_out_early_is_a_protocol_error() {
    let mut h = authenticated().idle();
    h.init().unwrap();
    let mut s = h.done();
    assert_eq!(s.drain(), b"A1 IDLE\r\nDONE\r\n".to_vec());
    s.feed(b"A1 BAD no idling here\r\n");
    assert_eq!(s.complete(), Err(Error::Protocol));
    assert_eq!(s.phase(), Phase::Closed);
}

#[test]
fn an_idle_that_is_given_up_is_over() {
    let mut h = authenticated().idle();
    h.init().unwrap();
    h.disconnect();
    assert_eq!(h.state(), IdleState::Over);
    assert_eq!(h.wait(), Err(Error::State));
    let mut s = h.done();
    assert_eq!(s.phase(), Phase::Closed);
    assert_eq!(s.drain(), b"A1 IDLE\r\n".to_vec());
}

#[test]
fn an_idle_the_server_ends_is_over() {
    let mut h = authenticated().idle();
    h.init().unwrap();
    h.drain();
    h.feed(b"+ idling\r\nA1 OK bored\r\n");
    assert_eq!(h.wait(), Ok(Pushed::Accepted));
    assert_eq!(h.wait(), Ok(Pushed::Ended));
    assert_eq!(h.state(), IdleState::Over);
    let mut s = h.done();
    assert_eq!(s.drain(), Vec::<u8>::new());
    assert!(!s.is_busy());
}

#[test]
fn a_malformed_push_closes_the_connection() {
    let mut h = authenticated().idle();
    h.init().unwrap();
    h.feed(b"+ idling\r\n* 1 FETCH (\r\n");
    assert_eq!(h.wait(), Ok(Pushed::Accepted));
    assert_eq!(h.wait(), Err(Error::Parse));
    assert_eq!(h.state(), IdleState::Over);
    let s = h.done();
    assert_eq!(s.phase(), Phase::Closed);
}

#[test]
fn done_before_the_server_accepted_still_ends_the_idle() {
    let mut h = authenticated().idle();
    h.init().unwrap();
    let mut s = h.done();
    assert_eq!(s.drain(), b"A1 IDLE\r\nDONE\r\n".to_vec());
    s.feed(b"+ idling\r\n* 2 EXISTS\r\nA1 OK done\r\n");
    assert_eq!(s.poll(), Ok(Progress::Working));
    assert_eq!(s.poll(), Ok(Progress::Working));
    assert_eq!(s.poll(), Ok(Progress::Finished(Reply::Completed)));
}

#[test]
fn a_wrong_tag_during_idle_is_a_protocol_error() {
    let mut h = authenticated().idle();
    h.init().unwrap();
    h.feed(b"A9 OK what\r\n");
    assert_eq!(h.wait(), Err(Error::Protocol));
    assert_eq!(h.done().phase(), Phase::Closed);
}
