use linejson::{parse_one_struct, parse_several_structs, CustomError, DecodeError, ErrorKind, Policy, User};

const BAD_USERS_INPUT: &str = r#"{"username":345,"password":"hV9StRA"}
{"username":"qETqU6t","password":"gykzW8x"}
{"username":"2vhA0B0","password":"SDGJDGk"}
"#;

#[test]
fn parse_one_struct_works() {
    let str = "{\"username\":\"Spongebob\",\"password\":\"HeyPatrick\"}\n";

    assert_eq!(
        parse_several_structs::<User>(str, Policy::Strict).unwrap(),
        ("", vec![User::new("Spongebob", "HeyPatrick")])
    )
}

#[test]
fn parse_several_structs_works() {
    let random_users = User::create_random_users(3);
    let stringified_users = User::serialize_users(&random_users).unwrap();

    assert_eq!(
        parse_several_structs::<User>(&stringified_users, Policy::Strict).unwrap(),
        ("", random_users)
    )
}

#[test]
fn bad_input_yields_an_error() {
    assert!(parse_several_structs::<User>(BAD_USERS_INPUT, Policy::Strict).is_err());
}

#[test]
fn round_trip_under_both_policies() {
    let users = vec![
        User::new("Spongebob", "HeyPatrick"),
        User::new("line\nfeed", "quote\"back\\slash\ttab"),
        User::new("", "ünïcödé"),
    ];
    let text = User::serialize_users(&users).unwrap();
    assert_eq!(text.matches('\n').count(), 3);
    for policy in [Policy::Lenient, Policy::Strict] {
        let (rest, parsed) = parse_several_structs::<User>(&text, policy).unwrap();
        assert_eq!(rest, "");
        assert_eq!(parsed, users);
    }
}

#[test]
fn empty_batch_round_trips_to_nothing() {
    let text = User::serialize_users(&Vec::new()).unwrap();
    assert_eq!(text, "");
    assert_eq!(parse_several_structs::<User>(&text, Policy::Strict).unwrap(), ("", vec![]));
    assert_eq!(parse_several_structs::<User>(&text, Policy::Lenient).unwrap(), ("", vec![]));
}

#[test]
fn lenient_all_malformed_lines_give_nothing() {
    let input = "{\"username\":1,\"password\":\"a\"}\nnot json\n{\"username\":\"x\"}\n";
    assert_eq!(parse_several_structs::<User>(input, Policy::Lenient).unwrap(), ("", vec![]));
}

#[test]
fn lenient_keeps_unterminated_tail_after_bad_lines() {
    let input = "garbage\n{\"username\":[],\"password\":\"a\"}\ntail";
    assert_eq!(parse_several_structs::<User>(input, Policy::Lenient).unwrap(), ("tail", vec![]));
}

#[test]
fn lenient_skips_a_bad_line_and_keeps_the_rest() {
    assert_eq!(
        parse_several_structs::<User>(BAD_USERS_INPUT, Policy::Lenient).unwrap(),
        (
            "",
            vec![User::new("qETqU6t", "gykzW8x"), User::new("2vhA0B0", "SDGJDGk")]
        )
    );
}

#[test]
fn strict_malformed_lines_are_fatal() {
    let input = "{\"username\":1,\"password\":\"a\"}\nnot json\n{\"username\":\"x\"}\n";
    let e = parse_several_structs::<User>(input, Policy::Strict).unwrap_err();
    assert_eq!(e.kind, ErrorKind::Fatal);
    assert!(matches!(e.decode_error, Some(DecodeError::Json(_))));
}

#[test]
fn strict_fails_after_good_records() {
    let input = "{\"username\":\"a\",\"password\":\"b\"}\n{\"username\":\"a\"}\n";
    let e = parse_several_structs::<User>(input, Policy::Strict).unwrap_err();
    assert_eq!(e.kind, ErrorKind::Fatal);
    assert!(matches!(e.decode_error, Some(DecodeError::NotARecord)));
}

#[test]
fn trailing_text_is_left_unparsed() {
    let input = "{\"username\":\"Spongebob\",\"password\":\"HeyPatrick\"}\nbla";
    for policy in [Policy::Lenient, Policy::Strict] {
        assert_eq!(
            parse_several_structs::<User>(input, policy).unwrap(),
            ("bla", vec![User::new("Spongebob", "HeyPatrick")])
        );
    }
}

#[test]
fn unterminated_record_is_not_consumed() {
    let input = "{\"username\":\"Spongebob\",\"password\":\"HeyPatrick\"}";
    assert_eq!(parse_several_structs::<User>(input, Policy::Strict).unwrap(), (input, vec![]));
    let e = parse_one_struct::<User>(input, Policy::Strict).unwrap_err();
    assert_eq!(e.kind, ErrorKind::Incomplete);
    assert!(e.decode_error.is_none());
}

#[test]
fn parse_one_struct_hands_back_the_rest() {
    let input = "{\"password\":\"p\",\"username\":\"u\"}\nnext\n";
    assert_eq!(parse_one_struct::<User>(input, Policy::Strict).unwrap(), ("next\n", User::new("u", "p")));
}

#[test]
fn numeric_username_is_a_mismatch_not_incomplete() {
    let input = "{\"username\":345,\"password\":\"HeyPatrick\"}\n";
    let lenient = parse_one_struct::<User>(input, Policy::Lenient).unwrap_err();
    assert_eq!(lenient.kind, ErrorKind::NoMatch);
    assert!(matches!(lenient.decode_error, Some(DecodeError::Json(_))));
    let strict = parse_one_struct::<User>(input, Policy::Strict).unwrap_err();
    assert_eq!(strict.kind, ErrorKind::Fatal);
    assert!(matches!(strict.decode_error, Some(DecodeError::Json(_))));
}

#[test]
fn empty_input_parses_to_nothing() {
    assert_eq!(parse_several_structs::<User>("", Policy::Strict).unwrap(), ("", vec![]));
    assert_eq!(parse_one_struct::<User>("", Policy::Lenient).unwrap_err().kind, ErrorKind::Incomplete);
}

#[test]
fn decode_errors_map_to_parse_errors() {
    let e = CustomError::from_decode_error(Policy::Lenient, DecodeError::NotARecord);
    assert_eq!(e.kind, ErrorKind::NoMatch);
    assert!(matches!(e.decode_error, Some(DecodeError::NotARecord)));
    let json_error = User::from_serialized_str("nope").unwrap_err();
    let e = CustomError::from_decode_error(Policy::Strict, json_error);
    assert_eq!(e.kind, ErrorKind::Fatal);
    assert!(matches!(e.decode_error, Some(DecodeError::Json(_))));
}

#[test]
fn wrong_keys_keep_their_decode_error() {
    for input in ["{\"a\":\"b\"}\n", "{\"username\":\"u\"}\nrest"] {
        let e = parse_one_struct::<User>(input, Policy::Strict).unwrap_err();
        assert_eq!(e.kind, ErrorKind::Fatal);
        assert!(matches!(e.decode_error, Some(DecodeError::NotARecord)));
        let e = parse_several_structs::<User>(input, Policy::Strict).unwrap_err();
        assert_eq!(e.kind, ErrorKind::Fatal);
        assert!(matches!(e.decode_error, Some(DecodeError::NotARecord)));
    }
}

#[test]
fn non_text_usernames_never_decode() {
    for value in ["345", "true", "null", "[1]", "{}", "-2.5"] {
        let input = format!("{{\"username\":{},\"password\":\"x\"}}\n", value);
        for policy in [Policy::Lenient, Policy::Strict] {
            let e = parse_one_struct::<User>(&input, policy).unwrap_err();
            assert_ne!(e.kind, ErrorKind::Incomplete);
            assert!(matches!(e.decode_error, Some(DecodeError::Json(_))));
        }
    }
}
