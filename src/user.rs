//! The two-field record, its one-line encoding and its random generation.

use crate::json::{
    json_string_object, json_string_object_of, json_text, lemma_record_text_one_line, record_text,
    username_not_text,
};
use crate::record::{lines_text, records_view, LineRecord};
use vstd::prelude::*;
use vstd::string::*;

verus! {

/// The length of each field of a randomly generated record.
pub const RANDOM_FIELD_LEN: usize = 7;

#[derive(Debug)]
pub struct User {
    pub username: String,
    pub password: String,
}

impl View for User {
    type V = (Seq<char>, Seq<char>);

    open spec fn view(&self) -> (Seq<char>, Seq<char>) {
        (self.username@, self.password@)
    }
}

impl PartialEq for User {
    fn eq(&self, other: &User) -> (r: bool) {
        self.username == other.username && self.password == other.password
    }
}

impl vstd::std_specs::cmp::PartialEqSpecImpl for User {
    open spec fn obeys_eq_spec() -> bool {
        true
    }

    open spec fn eq_spec(&self, other: &User) -> bool {
        self@ == other@
    }
}

/// Why a line is not the encoding of a record.
#[derive(Debug)]
pub enum DecodeError {
    /// The line is not a JSON object whose values are all strings.
    Json(serde_json::Error),
    /// The line is such an object, but its keys are not exactly
    /// `username` and `password`.
    NotARecord,
}

/// The record that a set of object entries describes, if its keys are exactly
/// `username` and `password`.
pub open spec fn record_of_entries(keys: Seq<Seq<char>>, vals: Seq<Seq<char>>) -> Option<(Seq<char>, Seq<char>)> {
    if keys.len() == 2 && vals.len() == 2 && keys[0] == "username"@ && keys[1] == "password"@ {
        Some((vals[0], vals[1]))
    } else if keys.len() == 2 && vals.len() == 2 && keys[0] == "password"@ && keys[1] == "username"@ {
        Some((vals[1], vals[0]))
    } else {
        None
    }
}

/// The record that a line decodes to, if any.
pub open spec fn decoded_record(line: Seq<char>) -> Option<(Seq<char>, Seq<char>)> {
    match json_string_object_of(line) {
        Some((keys, vals)) => record_of_entries(keys, vals),
        None => None,
    }
}

pub open spec fn is_alphanumeric(c: char) -> bool {
    ||| '0' <= c <= '9'
    ||| 'a' <= c <= 'z'
    ||| 'A' <= c <= 'Z'
}

/// A field value of a randomly generated record.
pub open spec fn is_random_field(s: Seq<char>) -> bool {
    &&& s.len() == RANDOM_FIELD_LEN
    &&& forall|i: int| 0 <= i < s.len() ==> is_alphanumeric(#[trigger] s[i])
}

/// Relies on rand's `Alphanumeric` distribution drawn from `thread_rng`: each
/// character is taken from `A-Z`, `a-z` and `0-9`, and `take` keeps `len` of them.
#[verifier::external_body]
fn random_alphanumeric(len: usize) -> (r: String)
    ensures
        r@.len() == len,
        forall|i: int| 0 <= i < r@.len() ==> is_alphanumeric(#[trigger] r@[i]),
{
    rand::Rng::sample_iter(rand::thread_rng(), &rand::distributions::Alphanumeric).take(len).map(
        char::from,
    ).collect()
}

impl User {
    pub fn new(username: &str, password: &str) -> (r: User)
        ensures
            r@ == (username@, password@),
    {
        User { username: username.to_owned(), password: password.to_owned() }
    }

    /// Encodes the record as one JSON object on one line, with no line feed.
    pub fn to_serialized_string(&self) -> (r: Result<String, serde_json::Error>)
        ensures
            r is Ok,
            r matches Ok(s) ==> s@ == record_text(self@.0, self@.1),
            r matches Ok(s) ==> !s@.contains('\n'),
    {
        let username = match json_text(self.username.as_str()) {
            Ok(t) => t,
            Err(e) => return Err(e),
        };
        let password = match json_text(self.password.as_str()) {
            Ok(t) => t,
            Err(e) => return Err(e),
        };
        let mut out = "{\"username\":".to_owned();
        out.append(username.as_str());
        out.append(",\"password\":");
        out.append(password.as_str());
        out.append("}");
        proof {
            lemma_record_text_one_line(self@.0, self@.1);
        }
        Ok(out)
    }

    /// Decodes one line as a record: a JSON object with exactly the string
    /// fields `username` and `password`.
    pub fn from_serialized_str(line: &str) -> (r: Result<User, DecodeError>)
        ensures
            r is Ok <==> decoded_record(line@) is Some,
            r matches Ok(u) ==> decoded_record(line@) == Some(u@),
            r matches Err(DecodeError::Json(_)) <==> json_string_object_of(line@) is None,
            username_not_text(line@) ==> r matches Err(DecodeError::Json(_)),
            forall|u: Seq<char>, p: Seq<char>|
                line@ == #[trigger] record_text(u, p) ==> (r matches Ok(x) && x@ == (u, p)),
    {
        match json_string_object(line) {
            Err(e) => Err(DecodeError::Json(e)),
            Ok((keys, vals)) => {
                let username_key = "username".to_owned();
                let password_key = "password".to_owned();
                proof {
                    reveal_strlit("username");
                    reveal_strlit("password");
                    assert("username"@ != "password"@) by {
                        assert("username"@[0] != "password"@[0]);
                    }
                    assert(keys.deep_view().len() == keys@.len());
                    assert(vals.deep_view().len() == vals@.len());
                }
                if keys.len() != 2 || vals.len() != 2 {
                    return Err(DecodeError::NotARecord);
                }
                proof {
                    assert(keys.deep_view()[0] == keys@[0]@);
                    assert(keys.deep_view()[1] == keys@[1]@);
                    assert(vals.deep_view()[0] == vals@[0]@);
                    assert(vals.deep_view()[1] == vals@[1]@);
                }
                if keys[0] == username_key && keys[1] == password_key {
                    Ok(User { username: vals[0].clone(), password: vals[1].clone() })
                } else if keys[0] == password_key && keys[1] == username_key {
                    Ok(User { username: vals[1].clone(), password: vals[0].clone() })
                } else {
                    Err(DecodeError::NotARecord)
                }
            },
        }
    }
    /// Encodes the records one per line, each line ending in `\n`, the last
    /// one included.
    pub fn serialize_users(users: &Vec<User>) -> (r: Result<String, serde_json::Error>)
        ensures
            r is Ok,
            r matches Ok(s) ==> s@ == lines_text::<User>(records_view(users@)),
    {
        let mut out = String::new();
        let mut i: usize = 0;
        while i < users.len()
            invariant
                i <= users@.len(),
                out@ == lines_text::<User>(records_view(users@.take(i as int))),
            decreases users@.len() - i,
        {
            let line = match users[i].to_serialized_string() {
                Ok(t) => t,
                Err(e) => return Err(e),
            };
            out.append(line.as_str());
            out.append("\n");
            proof {
                reveal_strlit("\n");
                let next = records_view(users@.take(i + 1));
                assert(next.drop_last() =~= records_view(users@.take(i as int)));
                assert(next.last() == users@[i as int]@);
            }
            i += 1;
        }
        proof {
            assert(users@.take(i as int) =~= users@);
        }
        Ok(out)
    }

    /// Makes `number` records whose fields are random alphanumeric text of
    /// `RANDOM_FIELD_LEN` characters.
    pub fn create_random_users(number: usize) -> (r: Vec<User>)
        ensures
            r@.len() == number,
            forall|i: int| 0 <= i < r@.len() ==> is_random_field(#[trigger] r@[i]@.0) && is_random_field(r@[i]@.1),
    {
        let mut users: Vec<User> = Vec::new();
        let mut i: usize = 0;
        while i < number
            invariant
                i <= number,
                users@.len() == i,
                forall|j: int| 0 <= j < users@.len() ==> is_random_field(#[trigger] users@[j]@.0) && is_random_field(users@[j]@.1),
            decreases number - i,
        {
            let username = random_alphanumeric(RANDOM_FIELD_LEN);
            let password = random_alphanumeric(RANDOM_FIELD_LEN);
            users.push(User { username, password });
            i += 1;
        }
        users
    }
}

/// `error` is what decoding `line` as a `User` gives: serde_json's error where
/// the line is not a JSON object of strings, and `NotARecord` where it is one
/// with the wrong keys.
pub open spec fn decode_error_fits(line: Seq<char>, error: DecodeError) -> bool {
    match error {
        DecodeError::Json(_) => json_string_object_of(line) is None,
        DecodeError::NotARecord => json_string_object_of(line) is Some && decoded_record(line) is None,
    }
}

impl LineRecord for User {
    open spec fn decoded(line: Seq<char>) -> Option<(Seq<char>, Seq<char>)> {
        decoded_record(line)
    }

    open spec fn encoded(value: (Seq<char>, Seq<char>)) -> Seq<char> {
        record_text(value.0, value.1)
    }

    open spec fn error_fits(line: Seq<char>, error: DecodeError) -> bool {
        decode_error_fits(line, error)
    }

    open spec fn surely_malformed(line: Seq<char>) -> bool {
        username_not_text(line)
    }

    proof fn lemma_encoded_one_line(value: (Seq<char>, Seq<char>)) {
        lemma_record_text_one_line(value.0, value.1);
    }

    fn decode_line(line: &str) -> (r: Result<User, DecodeError>) {
        User::from_serialized_str(line)
    }
}

} // verus!
