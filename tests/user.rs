use linejson::{DecodeError, User, RANDOM_FIELD_LEN};

#[test]
fn serde_to_and_from_string_works() {
    let user = User::new("Spongebob", "HeyPatrick");
    let stringified_user = user.to_serialized_string().unwrap();
    assert_eq!(User::from_serialized_str(&stringified_user).unwrap(), user);
}

#[test]
fn deserialize_error_works() {
    let bad_string = "{\"username\":345,\"password\":\"HeyPatric\"}";
    assert!(User::from_serialized_str(&bad_string).is_err())
}

#[test]
fn encoding_is_one_compact_line() {
    let user = User::new("Spongebob", "HeyPatrick");
    assert_eq!(
        user.to_serialized_string().unwrap(),
        "{\"username\":\"Spongebob\",\"password\":\"HeyPatrick\"}"
    );
    let odd = User::new("a\nb", "\"q\"");
    assert_eq!(
        odd.to_serialized_string().unwrap(),
        "{\"username\":\"a\\nb\",\"password\":\"\\\"q\\\"\"}"
    );
}

#[test]
fn decode_inverts_encode() {
    for (u, p) in [("Spongebob", "HeyPatrick"), ("", ""), ("tab\there", "back\\slash"), ("é", "\u{1}")] {
        let user = User::new(u, p);
        let line = user.to_serialized_string().unwrap();
        assert!(!line.contains('\n'));
        assert_eq!(User::from_serialized_str(&line).unwrap(), user);
    }
}

#[test]
fn decode_reads_fields_in_any_order() {
    let user = User::from_serialized_str("{\"password\":\"p\", \"username\":\"u\"}").unwrap();
    assert_eq!(user, User::new("u", "p"));
}

#[test]
fn decode_rejects_wrong_shapes() {
    let numeric = User::from_serialized_str("{\"username\":345,\"password\":\"x\"}");
    assert!(matches!(numeric, Err(DecodeError::Json(_))));
    let missing = User::from_serialized_str("{\"username\":\"x\"}");
    assert!(matches!(missing, Err(DecodeError::NotARecord)));
    let extra = User::from_serialized_str("{\"username\":\"x\",\"password\":\"y\",\"z\":\"w\"}");
    assert!(matches!(extra, Err(DecodeError::NotARecord)));
    let misnamed = User::from_serialized_str("{\"user\":\"x\",\"password\":\"y\"}");
    assert!(matches!(misnamed, Err(DecodeError::NotARecord)));
    assert!(matches!(User::from_serialized_str(""), Err(DecodeError::Json(_))));
}

#[test]
fn serialize_users_ends_every_line() {
    let users = vec![User::new("a", "b"), User::new("c", "d")];
    assert_eq!(
        User::serialize_users(&users).unwrap(),
        "{\"username\":\"a\",\"password\":\"b\"}\n{\"username\":\"c\",\"password\":\"d\"}\n"
    );
}

#[test]
fn random_users_have_the_right_shape() {
    for n in [0usize, 1, 5] {
        let users = User::create_random_users(n);
        assert_eq!(users.len(), n);
        for user in &users {
            for field in [&user.username, &user.password] {
                assert_eq!(field.chars().count(), RANDOM_FIELD_LEN);
                assert!(field.chars().all(|c| c.is_ascii_alphanumeric()));
            }
        }
    }
    assert_eq!(RANDOM_FIELD_LEN, 7);
}

#[test]
fn user_equality_compares_both_fields() {
    assert_eq!(User::new("a", "b"), User::new("a", "b"));
    assert_ne!(User::new("a", "b"), User::new("a", "c"));
    assert_ne!(User::new("a", "b"), User::new("x", "b"));
}

#[test]
fn control_characters_use_unicode_escapes() {
    let user = User::new("\u{1f}\u{8}", "\u{c}\r/");
    assert_eq!(
        user.to_serialized_string().unwrap(),
        "{\"username\":\"\\u001f\\b\",\"password\":\"\\f\\r/\"}"
    );
}
