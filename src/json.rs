//! The calls into serde_json that the record encoding relies on.

use vstd::prelude::*;

verus! {

#[verifier::external_type_specification]
#[verifier::external_body]
pub struct ExJsonError(serde_json::Error);

/// A lower-case hexadecimal digit.
pub open spec fn hex_digit(n: u32) -> char {
    seq!['0', '1', '2', '3', '4', '5', '6', '7', '8', '9', 'a', 'b', 'c', 'd', 'e', 'f'][(n % 16) as int]
}

/// How serde_json writes one character inside a string literal: `"` and `\`
/// after a backslash, five control characters by their short escapes, the
/// other ones below 0x20 as `\u00xx`, and every other character as it is.
pub open spec fn escaped_char(c: char) -> Seq<char> {
    if c == '"' {
        seq!['\\', '"']
    } else if c == '\\' {
        seq!['\\', '\\']
    } else if c == '\u{8}' {
        seq!['\\', 'b']
    } else if c == '\u{c}' {
        seq!['\\', 'f']
    } else if c == '\n' {
        seq!['\\', 'n']
    } else if c == '\r' {
        seq!['\\', 'r']
    } else if c == '\t' {
        seq!['\\', 't']
    } else if (c as u32) < 0x20 {
        seq!['\\', 'u', '0', '0', hex_digit((c as u32) / 16), hex_digit(c as u32)]
    } else {
        seq![c]
    }
}

/// The characters of `s`, each written as `escaped_char` writes it.
pub open spec fn escaped_text(s: Seq<char>) -> Seq<char>
    decreases s.len(),
{
    if s.len() == 0 {
        Seq::empty()
    } else {
        escaped_text(s.drop_last()) + escaped_char(s.last())
    }
}

/// The JSON string literal that serde_json writes for a text value.
pub open spec fn json_text_of(s: Seq<char>) -> Seq<char> {
    seq!['"'] + escaped_text(s) + seq!['"']
}

/// An escaped text holds no line feed.
pub proof fn lemma_escaped_text_one_line(s: Seq<char>)
    ensures
        !escaped_text(s).contains('\n'),
    decreases s.len(),
{
    if s.len() > 0 {
        lemma_escaped_text_one_line(s.drop_last());
        let e = escaped_char(s.last());
        assert(hex_digit((s.last() as u32) / 16) != '\n');
        assert(hex_digit(s.last() as u32) != '\n');
        assert(!e.contains('\n'));
        let t = escaped_text(s);
        let head = escaped_text(s.drop_last());
        assert forall|i: int| 0 <= i < t.len() implies t[i] != '\n' by {
            if i < head.len() {
                assert(t[i] == head[i]);
            } else {
                assert(t[i] == e[i - head.len()]);
            }
        }
    }
}

/// The encoding of a record holds no line feed.
pub proof fn lemma_record_text_one_line(username: Seq<char>, password: Seq<char>)
    ensures
        !record_text(username, password).contains('\n'),
{
    reveal_strlit("{\"username\":");
    reveal_strlit(",\"password\":");
    reveal_strlit("}");
    lemma_escaped_text_one_line(username);
    lemma_escaped_text_one_line(password);
    let t = record_text(username, password);
    assert forall|i: int| 0 <= i < t.len() implies t[i] != '\n' by {
        let u = escaped_text(username);
        let p = escaped_text(password);
        let b = 13 + u.len();
        let c = b + 13;
        if 13 <= i < b {
            assert(t[i] == u[i - 13]);
        } else if c + 1 <= i < c + 1 + p.len() {
            assert(t[i] == p[i - c - 1]);
        }
    }
}

/// What serde_json reads from a text holding a JSON object whose values are all
/// strings: its keys and, at the same positions, its values.  `None` where the
/// text is not such an object.
pub uninterp spec fn json_string_object_of(s: Seq<char>) -> Option<(Seq<Seq<char>>, Seq<Seq<char>>)>;

/// The one-line encoding of a record with the given username and password.
pub open spec fn record_text(username: Seq<char>, password: Seq<char>) -> Seq<char> {
    "{\"username\":"@ + json_text_of(username) + ",\"password\":"@ + json_text_of(password) + "}"@
}

/// A character that JSON lets stand between tokens.
pub open spec fn is_json_whitespace(c: char) -> bool {
    c == ' ' || c == '\n' || c == '\t' || c == '\r'
}

/// The text opens an object whose first key is `username` and whose value
/// there does not start as a JSON string (a number, `true`, `[`, ...).
pub open spec fn username_not_text(s: Seq<char>) -> bool {
    let head = "{\"username\":"@;
    &&& s.len() > head.len()
    &&& s.subrange(0, head.len() as int) == head
    &&& s[head.len() as int] != '"'
    &&& !is_json_whitespace(s[head.len() as int])
}

/// Keys and values that hold exactly the two record fields, in either order.
pub open spec fn entries_hold(
    keys: Seq<Seq<char>>,
    vals: Seq<Seq<char>>,
    username: Seq<char>,
    password: Seq<char>,
) -> bool {
    &&& keys.len() == 2
    &&& vals.len() == 2
    &&& {
        ||| keys[0] == "username"@ && vals[0] == username && keys[1] == "password"@ && vals[1] == password
        ||| keys[0] == "password"@ && vals[0] == password && keys[1] == "username"@ && vals[1] == username
    }
}

/// Relies on `serde_json::to_string` for a `str`: it writes the string between
/// quotes, escaping each character by its escape table as `escaped_char`
/// states.  Writing into a `Vec<u8>` cannot fail, so the result is always `Ok`.
#[verifier::external_body]
pub(crate) fn json_text(s: &str) -> (r: Result<String, serde_json::Error>)
    ensures
        r is Ok,
        r matches Ok(t) ==> t@ == json_text_of(s@),
{
    serde_json::to_string(s)
}

/// Relies on `serde_json::from_str` into a `BTreeMap<String, String>`: it
/// succeeds exactly on a JSON object whose values are all strings, and hands
/// back its entries.  Its parser reads back every string literal that its
/// serializer writes, so the encoding of a record yields that record's two
/// fields.  A value that does not open with `"` fails to read as a string,
/// so a `username` value that is not text makes the whole read fail.
#[verifier::external_body]
pub(crate) fn json_string_object(s: &str) -> (r: Result<(Vec<String>, Vec<String>), serde_json::Error>)
    ensures
        r is Err <==> json_string_object_of(s@) is None,
        username_not_text(s@) ==> r is Err,
        r matches Ok((k, v)) ==> json_string_object_of(s@) == Some((k.deep_view(), v.deep_view())),
        r is Err ==> forall|u: Seq<char>, p: Seq<char>| s@ != #[trigger] record_text(u, p),
        r matches Ok((k, v)) ==> forall|u: Seq<char>, p: Seq<char>|
            s@ == #[trigger] record_text(u, p) ==> entries_hold(k.deep_view(), v.deep_view(), u, p),
{
    serde_json::from_str::<std::collections::BTreeMap<String, String>>(s).map(|m| m.into_iter().unzip())
}

} // verus!
