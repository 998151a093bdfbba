use kv_transport::protocol::json::{
    append, find, find_foreign, has_duplicate, parse, push_decimal, same_text, Json,
};

fn text(document: &Json) -> String {
    format!("{:?}", document)
}

#[test]
fn parse_reads_scalars() {
    assert_eq!(text(&parse(b"null").unwrap()), "Null");
    assert_eq!(text(&parse(b"true").unwrap()), "Bool(true)");
    assert_eq!(text(&parse(b"false").unwrap()), "Bool(false)");
    assert_eq!(text(&parse(b"\"a\\nb\"").unwrap()), "Text(\"a\\nb\")");
    assert_eq!(text(&parse(b"\"\\u00e9\"").unwrap()), "Text(\"\u{e9}\")");
}

#[test]
fn parse_tells_the_kinds_of_numbers_apart() {
    assert_eq!(text(&parse(b"0").unwrap()), "Unsigned(0)");
    assert_eq!(text(&parse(b"18446744073709551615").unwrap()), "Unsigned(18446744073709551615)");
    assert_eq!(text(&parse(b"-1").unwrap()), "Negative(-1)");
    assert_eq!(text(&parse(b"-9223372036854775808").unwrap()), "Negative(-9223372036854775808)");
    assert_eq!(text(&parse(b"1.5").unwrap()), "Real(\"1.5\")");
    assert!(matches!(parse(b"18446744073709551616").unwrap(), Json::Real(_)));
    assert!(matches!(parse(b"1e3").unwrap(), Json::Real(_)));
}

#[test]
fn parse_reads_arrays_and_objects_in_the_order_of_the_text() {
    let document = parse(b"{\"zeta\":[1,[],{}],\"alpha\":null}").unwrap();
    assert_eq!(
        text(&document),
        "Object([(\"zeta\", Array([Unsigned(1), Array([]), Object([])])), (\"alpha\", Null)])"
    );
}

#[test]
fn parse_keeps_the_last_of_a_key_written_twice() {
    let document = parse(b"{\"a\":1,\"b\":2,\"a\":3}").unwrap();
    match document {
        Json::Object(members) => {
            assert_eq!(members.len(), 2);
            assert!(!has_duplicate(&members));
            assert!(matches!(find(&members, "a"), Some(Json::Unsigned(3))));
        }
        other => panic!("unexpected document {:?}", other),
    }
}

#[test]
fn parse_reports_what_the_parser_reports() {
    assert_eq!(parse(b"").unwrap_err(), "EOF while parsing a value at line 1 column 0");
    assert_eq!(parse(b"{").unwrap_err(), "EOF while parsing an object at line 1 column 1");
    assert_eq!(parse(b"nul").unwrap_err(), "EOF while parsing a value at line 1 column 3");
    assert_eq!(parse(b"1 2").unwrap_err(), "trailing characters at line 1 column 3");
    assert!(parse(&[0xff]).is_err());
    assert!(parse(b"\"\xff\"").is_err());
    assert!(parse(b"{\"a\":1,}").is_err());
    assert!(parse(b"{'a':1}").is_err());
}

#[test]
fn find_gives_the_first_member_with_the_key() {
    let members = vec![
        ("a".to_string(), Json::Unsigned(1)),
        ("b".to_string(), Json::Unsigned(2)),
        ("a".to_string(), Json::Unsigned(3)),
    ];
    assert!(matches!(find(&members, "a"), Some(Json::Unsigned(1))));
    assert!(matches!(find(&members, "b"), Some(Json::Unsigned(2))));
    assert!(find(&members, "c").is_none());
    assert!(find(&Vec::new(), "a").is_none());
}

#[test]
fn find_foreign_gives_the_first_member_with_another_key() {
    let members = vec![
        ("a".to_string(), Json::Null),
        ("x".to_string(), Json::Null),
        ("b".to_string(), Json::Null),
        ("y".to_string(), Json::Null),
    ];
    assert_eq!(find_foreign(&members, "a", "b"), Some(1));
    assert_eq!(find_foreign(&members, "a", "x"), Some(2));
    assert_eq!(find_foreign(&members, "x", "y"), Some(0));
    assert_eq!(find_foreign(&vec![("a".to_string(), Json::Null)], "a", "b"), None);
    assert_eq!(find_foreign(&Vec::new(), "a", "b"), None);
}

#[test]
fn has_duplicate_finds_a_key_that_comes_twice() {
    let members = vec![
        ("a".to_string(), Json::Null),
        ("b".to_string(), Json::Null),
        ("c".to_string(), Json::Null),
    ];
    assert!(!has_duplicate(&members));
    assert!(!has_duplicate(&Vec::new()));
    let mut twice = members;
    twice.push(("b".to_string(), Json::Bool(true)));
    assert!(has_duplicate(&twice));
}

#[test]
fn same_text_compares_every_character() {
    assert!(same_text(&"type".to_string(), "type"));
    assert!(!same_text(&"type".to_string(), "typ"));
    assert!(!same_text(&"type".to_string(), "types"));
    assert!(!same_text(&"type".to_string(), "tyqe"));
    assert!(same_text(&String::new(), ""));
}

#[test]
fn push_decimal_writes_the_digits() {
    let cases: Vec<(u64, &str)> = vec![
        (0, "0"),
        (7, "7"),
        (10, "10"),
        (42, "42"),
        (1000, "1000"),
        (9007199254740993, "9007199254740993"),
        (u64::MAX, "18446744073709551615"),
    ];
    for (n, digits) in cases.iter() {
        let mut out = b"id:".to_vec();
        push_decimal(&mut out, *n);
        assert_eq!(out, format!("id:{}", digits).into_bytes());
    }
}

#[test]
fn append_adds_the_bytes_at_the_end() {
    let mut out = b"ab".to_vec();
    append(&mut out, b"cd");
    append(&mut out, b"");
    assert_eq!(out, b"abcd".to_vec());
}
