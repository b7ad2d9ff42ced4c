use imap_core::command::{format_tag, is_quotable, is_verbatim, Arg, Command, Verb};
use imap_core::frame::{find_line, find_marker, Marker};
use imap_core::error::Error;
use imap_core::text::{is_keyword, parse_decimal, parse_number, push_decimal, same_bytes};

#[test]
fn tags_are_the_letter_a_and_the_number() {
    assert_eq!(format_tag(1), b"A1".to_vec());
    assert_eq!(format_tag(10), b"A10".to_vec());
    assert_eq!(format_tag(0), b"A0".to_vec());
    assert_eq!(format_tag(u64::MAX), b"A18446744073709551615".to_vec());
}

#[test]
fn tags_of_different_numbers_differ() {
    for a in 0u64..200 {
        for b in 0u64..200 {
            if a != b {
                assert_ne!(format_tag(a), format_tag(b));
            }
        }
    }
}

#[test]
fn decimal_round_trip() {
    for n in [0u64, 7, 10, 99, 100, 4294967295, 4294967296, u64::MAX] {
        let mut out = Vec::new();
        push_decimal(&mut out, n);
        assert_eq!(out, n.to_string().into_bytes());
        assert_eq!(parse_decimal(&out), Some(n));
    }
}

#[test]
fn parse_decimal_rejects_what_is_no_number() {
    assert_eq!(parse_decimal(b""), None);
    assert_eq!(parse_decimal(b"12a"), None);
    assert_eq!(parse_decimal(b"-1"), None);
    assert_eq!(parse_decimal(b" 1"), None);
    assert_eq!(parse_decimal(b"18446744073709551616"), None);
    assert_eq!(parse_decimal(b"99999999999999999999999"), None);
    assert_eq!(parse_decimal(b"007"), Some(7));
}

#[test]
fn parse_number_stops_at_32_bits() {
    assert_eq!(parse_number(b"4294967295"), Some(4294967295));
    assert_eq!(parse_number(b"4294967296"), None);
    assert_eq!(parse_number(b"3857529045"), Some(3857529045));
    assert_eq!(parse_number(b""), None);
}

#[test]
fn keywords_match_in_any_case() {
    assert!(is_keyword(b"exists", b"EXISTS"));
    assert!(is_keyword(b"ExIsTs", b"EXISTS"));
    assert!(!is_keyword(b"EXIST", b"EXISTS"));
    assert!(!is_keyword(b"EXISTS ", b"EXISTS"));
    assert!(same_bytes(b"abc", b"abc"));
    assert!(!same_bytes(b"abc", b"abd"));
    assert!(!same_bytes(b"abc", b"ab"));
}

#[test]
fn verbatim_text_is_printable_and_has_no_opening_brace() {
    assert!(is_verbatim(b"1:*"));
    assert!(is_verbatim(b"(FLAGS BODY[HEADER.FIELDS (DATE FROM)])"));
    assert!(!is_verbatim(b""));
    assert!(!is_verbatim(b"a\r\nb"));
    assert!(!is_verbatim(b"{3}"));
    assert!(!is_verbatim(b"caf\xc3\xa9"));
}

#[test]
fn quotable_text_is_seven_bit_without_line_breaks() {
    assert!(is_quotable(b""));
    assert!(is_quotable(b"My \"Folder\""));
    assert!(!is_quotable(b"a\nb"));
    assert!(!is_quotable(b"a\rb"));
    assert!(!is_quotable(b"a\0b"));
    assert!(!is_quotable(b"caf\xc3\xa9"));
}

#[test]
fn arguments_are_classified() {
    assert_eq!(Arg::string(b"INBOX"), Arg::Quoted(b"INBOX".to_vec()));
    assert_eq!(Arg::string(b""), Arg::Quoted(Vec::new()));
    assert_eq!(Arg::string(b"a\nb"), Arg::Literal(b"a\nb".to_vec()));
    assert_eq!(Arg::text(b"1:5"), Arg::Atom(b"1:5".to_vec()));
    assert_eq!(Arg::text(b""), Arg::Quoted(Vec::new()));
    assert_eq!(Arg::text(b"1\r\nA2 LOGOUT"), Arg::Literal(b"1\r\nA2 LOGOUT".to_vec()));
    assert_eq!(Arg::text(b"{1}"), Arg::Quoted(b"{1}".to_vec()));
}

#[test]
fn a_command_without_arguments_is_tag_verb_and_terminator() {
    let c = Command::nullary(Verb::Capability);
    assert_eq!(c.encode(1), vec![b"A1 CAPABILITY\r\n".to_vec()]);
    assert_eq!(Command::nullary(Verb::Close).encode(12), vec![b"A12 CLOSE\r\n".to_vec()]);
    assert_eq!(Command::nullary(Verb::Idle).encode(3), vec![b"A3 IDLE\r\n".to_vec()]);
}

#[test]
fn a_quoted_argument_is_escaped() {
    let c = Command::unary(Verb::Select, Arg::string(b"a\"b\\c"));
    assert_eq!(c.encode(2), vec![b"A2 SELECT \"a\\\"b\\\\c\"\r\n".to_vec()]);
}

#[test]
fn every_verb_is_spelled_as_the_protocol_has_it() {
    let expect: [(Verb, &[u8]); 12] = [
        (Verb::Capability, b"CAPABILITY"),
        (Verb::List, b"LIST"),
        (Verb::Create, b"CREATE"),
        (Verb::Subscribe, b"SUBSCRIBE"),
        (Verb::Close, b"CLOSE"),
        (Verb::Select, b"SELECT"),
        (Verb::Fetch, b"FETCH"),
        (Verb::UidFetch, b"UID FETCH"),
        (Verb::UidStore, b"UID STORE"),
        (Verb::UidMove, b"UID MOVE"),
        (Verb::UidCopy, b"UID COPY"),
        (Verb::Idle, b"IDLE"),
    ];
    for (verb, name) in expect {
        assert_eq!(verb.wire_name(), name);
    }
}

#[test]
fn a_literal_argument_splits_the_command() {
    let c = Command::binary(Verb::UidCopy, Arg::text(b"1:3"), Arg::string(b"a\r\nb"));
    assert_eq!(
        c.encode(7),
        vec![b"A7 UID COPY 1:3 {4}\r\n".to_vec(), b"a\r\nb\r\n".to_vec()]
    );
    let d = Command::binary(Verb::List, Arg::string(b"x\ny"), Arg::string(b"\n"));
    assert_eq!(
        d.encode(1),
        vec![b"A1 LIST {3}\r\n".to_vec(), b"x\ny {1}\r\n".to_vec(), b"\n\r\n".to_vec()]
    );
    let e = Command::unary(Verb::Create, Arg::Literal(Vec::new()));
    assert_eq!(e.encode(1), vec![b"A1 CREATE {0}\r\n".to_vec(), b"\r\n".to_vec()]);
}

#[test]
fn lines_are_found_by_their_terminator() {
    assert_eq!(find_line(b"abc\r\ndef", 0), Ok(Some((3, 5))));
    assert_eq!(find_line(b"abc\r\ndef\r\n", 5), Ok(Some((8, 10))));
    assert_eq!(find_line(b"abc\r\ndef", 5), Ok(None));
    assert_eq!(find_line(b"abc\ndef", 0), Err(Error::Parse));
    assert_eq!(find_line(b"\r\n", 0), Ok(Some((0, 2))));
    assert_eq!(find_line(b"", 0), Ok(None));
    assert_eq!(find_line(b"a\r\n\n", 3), Err(Error::Parse));
}

#[test]
fn literal_markers_are_read_at_the_end_of_a_line() {
    let line = b"* 1 FETCH (BODY[] {12}";
    assert_eq!(find_marker(line, 0, line.len()), Marker::Present { cut: 18, length: 12 });
    assert_eq!(find_marker(b"{0}", 0, 3), Marker::Present { cut: 0, length: 0 });
    assert_eq!(find_marker(b"x {12} y", 0, 8), Marker::Absent);
    assert_eq!(find_marker(b"{}", 0, 2), Marker::Absent);
    assert_eq!(find_marker(b"x {}", 0, 4), Marker::Absent);
    assert_eq!(find_marker(b"12}", 0, 3), Marker::Absent);
    assert_eq!(find_marker(b"x {1a}", 0, 6), Marker::Absent);
    assert_eq!(find_marker(b"{99999999999999999999}", 0, 22), Marker::Oversized);
    assert_eq!(find_marker(b"ab{5}", 2, 5), Marker::Present { cut: 0, length: 5 });
}
