use imap_core::lex::Token;
use imap_core::parse::parse;
use imap_core::reply::supports;
use imap_core::response::{Data, Fetch, Response};
use imap_core::text::same_ignoring_case;

fn fetched(bytes: &[u8]) -> Fetch {
    match parse(bytes) {
        Ok(Some((Response::Untagged(Data::Fetch(f)), _))) => f,
        other => panic!("not a fetch: {:?}", other),
    }
}

#[test]
fn uid_is_read_from_the_attributes() {
    assert_eq!(fetched(b"* 1 FETCH (UID 4827)\r\n").uid(), Some(4827));
    assert_eq!(fetched(b"* 1 FETCH (FLAGS (\\Seen) uid 7)\r\n").uid(), Some(7));
    assert_eq!(fetched(b"* 1 FETCH (FLAGS (\\Seen))\r\n").uid(), None);
    assert_eq!(fetched(b"* 1 FETCH (UID x)\r\n").uid(), None);
    assert_eq!(fetched(b"* 1 FETCH (UID 4294967296)\r\n").uid(), None);
    assert_eq!(fetched(b"* 1 FETCH (UID)\r\n").uid(), None);
    assert_eq!(fetched(b"* 1 FETCH ()\r\n").uid(), None);
}

#[test]
fn a_name_inside_a_value_is_no_attribute() {
    let f = fetched(b"* 1 FETCH (FLAGS (UID 9) UID 3)\r\n");
    assert_eq!(f.uid(), Some(3));
    let g = fetched(b"* 1 FETCH (X UID UID 5)\r\n");
    assert_eq!(g.uid(), Some(5));
    let h = fetched(b"* 1 FETCH (ENVELOPE (a (UID 1) b) UID 6)\r\n");
    assert_eq!(h.uid(), Some(6));
}

#[test]
fn the_first_attribute_of_a_name_counts() {
    assert_eq!(fetched(b"* 1 FETCH (UID 1 UID 2)\r\n").uid(), Some(1));
}

#[test]
fn flags_are_read_from_the_attributes() {
    let f = fetched(b"* 1 FETCH (UID 1 FLAGS (\\Seen \\Answered))\r\n");
    assert_eq!(f.flags(), Some(vec![b"\\Seen".to_vec(), b"\\Answered".to_vec()]));
    assert_eq!(fetched(b"* 1 FETCH (FLAGS ())\r\n").flags(), Some(vec![]));
    assert_eq!(fetched(b"* 1 FETCH (FLAGS \\Seen)\r\n").flags(), None);
    assert_eq!(fetched(b"* 1 FETCH (FLAGS (\"x\"))\r\n").flags(), None);
    assert_eq!(fetched(b"* 1 FETCH (UID 1)\r\n").flags(), None);
}

#[test]
fn the_body_is_read_whatever_it_holds() {
    let f = fetched(b"* 1 FETCH (UID 1 BODY[] {6}\r\na\r\nb\r\n)\r\n");
    assert_eq!(f.body(), Some(b"a\r\nb\r\n".to_vec()));
    assert_eq!(f.uid(), Some(1));
    assert_eq!(fetched(b"* 1 FETCH (BODY[] \"short\")\r\n").body(), Some(b"short".to_vec()));
    assert_eq!(fetched(b"* 1 FETCH (BODY[] NIL)\r\n").body(), None);
    assert_eq!(fetched(b"* 1 FETCH (BODY[TEXT] \"x\")\r\n").body(), None);
    assert_eq!(
        fetched(b"* 1 FETCH (BODY[TEXT] \"x\")\r\n").string(b"BODY[TEXT]"),
        Some(b"x".to_vec())
    );
}

#[test]
fn a_value_is_one_token_or_a_group() {
    let f = fetched(b"* 1 FETCH (ENVELOPE (\"d\" (\"a\" NIL) NIL) UID 2)\r\n");
    assert_eq!(f.attribute(b"ENVELOPE"), Some((1, 9)));
    assert_eq!(f.attribute(b"UID"), Some((10, 11)));
    assert_eq!(f.attribute(b"FLAGS"), None);
    assert_eq!(
        f.envelope(),
        Some(vec![
            Token::Open,
            Token::Quoted(b"d".to_vec()),
            Token::Open,
            Token::Quoted(b"a".to_vec()),
            Token::Atom(b"NIL".to_vec()),
            Token::Close,
            Token::Atom(b"NIL".to_vec()),
            Token::Close,
        ])
    );
    assert_eq!(f.value(b"UID"), Some(vec![Token::Atom(b"2".to_vec())]));
    assert_eq!(f.value(b"RFC822"), None);
}

#[test]
fn capabilities_are_looked_up_without_regard_to_case() {
    let names = vec![b"IMAP4rev1".to_vec(), b"IDLE".to_vec()];
    assert!(supports(&names, b"IDLE"));
    assert!(supports(&names, b"idle"));
    assert!(supports(&names, b"imap4REV1"));
    assert!(!supports(&names, b"MOVE"));
    assert!(!supports(&names, b"IDL"));
    assert!(!supports(&[], b"IDLE"));
    assert!(same_ignoring_case(b"a-Z", b"A-z"));
    assert!(!same_ignoring_case(b"a", b"b"));
    assert!(!same_ignoring_case(b"a", b"aa"));
    assert!(same_ignoring_case(b"", b""));
}
