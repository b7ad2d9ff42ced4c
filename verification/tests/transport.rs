use imap_core::error::Error;
use imap_core::transport::Transport;

#[test]
fn new_transport_is_open_and_empty() {
    let t = Transport::new();
    assert!(!t.is_closed());
    assert_eq!(t.received(), b"");
    assert_eq!(t.written(), b"");
}

#[test]
fn read_line_returns_the_line_without_its_terminator() {
    let mut t = Transport::new();
    t.feed(b"* OK ready\r\nrest");
    assert_eq!(t.read_line(), Ok(Some(b"* OK ready".to_vec())));
    assert_eq!(t.received(), b"rest");
}

#[test]
fn read_line_waits_for_the_terminator() {
    let mut t = Transport::new();
    t.feed(b"* OK rea");
    assert_eq!(t.read_line(), Ok(None));
    assert_eq!(t.received(), b"* OK rea");
    t.feed(b"dy\r");
    assert_eq!(t.read_line(), Ok(None));
    t.feed(b"\n");
    assert_eq!(t.read_line(), Ok(Some(b"* OK ready".to_vec())));
    assert_eq!(t.received(), b"");
}

#[test]
fn read_line_returns_an_empty_line() {
    let mut t = Transport::new();
    t.feed(b"\r\nx");
    assert_eq!(t.read_line(), Ok(Some(Vec::new())));
    assert_eq!(t.received(), b"x");
}

#[test]
fn read_line_rejects_a_bare_line_feed() {
    let mut t = Transport::new();
    t.feed(b"* OK\nmore\r\n");
    assert_eq!(t.read_line(), Err(Error::Parse));
    assert_eq!(t.received(), b"* OK\nmore\r\n");
    let mut u = Transport::new();
    u.feed(b"\n");
    assert_eq!(u.read_line(), Err(Error::Parse));
}

#[test]
fn read_line_keeps_a_lone_carriage_return_in_the_line() {
    let mut t = Transport::new();
    t.feed(b"a\rb\r\n");
    assert_eq!(t.read_line(), Ok(Some(b"a\rb".to_vec())));
}

#[test]
fn read_exact_takes_bytes_whatever_they_hold() {
    let mut t = Transport::new();
    t.feed(b"ab\r\ncd\r\n)\r\n");
    assert_eq!(t.read_exact(8), Ok(Some(b"ab\r\ncd\r\n".to_vec())));
    assert_eq!(t.read_line(), Ok(Some(b")".to_vec())));
}

#[test]
fn read_exact_waits_for_all_bytes() {
    let mut t = Transport::new();
    t.feed(b"abc");
    assert_eq!(t.read_exact(4), Ok(None));
    assert_eq!(t.received(), b"abc");
    t.feed(b"d");
    assert_eq!(t.read_exact(4), Ok(Some(b"abcd".to_vec())));
}

#[test]
fn read_exact_of_nothing_returns_nothing_read() {
    let mut t = Transport::new();
    assert_eq!(t.read_exact(0), Ok(Some(Vec::new())));
}

#[test]
fn write_appends_and_drain_empties() {
    let mut t = Transport::new();
    assert_eq!(t.write(b"A1 "), Ok(()));
    assert_eq!(t.write(b"CLOSE\r\n"), Ok(()));
    assert_eq!(t.written(), b"A1 CLOSE\r\n");
    assert_eq!(t.drain(), b"A1 CLOSE\r\n".to_vec());
    assert_eq!(t.written(), b"");
    assert_eq!(t.drain(), Vec::<u8>::new());
}

#[test]
fn closed_transport_fails_with_io() {
    let mut t = Transport::new();
    t.feed(b"line\r\n");
    t.close();
    assert!(t.is_closed());
    assert_eq!(t.write(b"x"), Err(Error::Io));
    assert_eq!(t.written(), b"");
    assert_eq!(t.read_line(), Err(Error::Io));
    assert_eq!(t.read_exact(1), Err(Error::Io));
    t.feed(b"more");
    assert_eq!(t.received(), b"line\r\n");
}

#[test]
fn close_is_idempotent() {
    let mut t = Transport::new();
    t.write(b"x").unwrap();
    t.close();
    t.close();
    assert!(t.is_closed());
    assert_eq!(t.written(), b"x");
}

#[test]
fn skip_drops_bytes_from_the_front() {
    let mut t = Transport::new();
    t.feed(b"abcdef");
    t.skip(2);
    assert_eq!(t.received(), b"cdef");
    t.skip(4);
    assert_eq!(t.received(), b"");
}

#[test]
fn fatal_errors_are_told_apart() {
    assert!(Error::Io.fatal());
    assert!(Error::Parse.fatal());
    assert!(Error::Protocol.fatal());
    assert!(!Error::State.fatal());
    assert!(!Error::Command(imap_core::error::Refusal::No).fatal());
    assert!(!Error::Command(imap_core::error::Refusal::Bad).fatal());
}
