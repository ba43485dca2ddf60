//! The record-stream parser: it peels newline-terminated lines off a buffer and
//! decodes each one as a record.

use crate::record::{lemma_lines_text_front, lines_text, records_view, LineRecord};
use crate::user::DecodeError;
use vstd::prelude::*;
use vstd::std_specs::iter::IteratorSpec;
use vstd::string::*;

verus! {

/// What to do with a line that ends in a line feed but does not decode.
#[derive(Clone, Copy, Debug, PartialEq, Eq, Structural)]
pub enum Policy {
    /// Drop the line and go on with the next one.
    Lenient,
    /// Abort the whole parse.
    Strict,
}

/// Why a parse stopped.
#[derive(Clone, Copy, Debug, PartialEq, Eq, Structural)]
pub enum ErrorKind {
    /// No line feed is left: more input is needed.
    Incomplete,
    /// The line does not decode, under the lenient policy.
    NoMatch,
    /// The line does not decode, under the strict policy.
    Fatal,
}

/// A parse failure: its kind and, where a line failed to decode, the error
/// that its decoding gave.
#[derive(Debug)]
pub struct CustomError {
    pub kind: ErrorKind,
    pub decode_error: Option<DecodeError>,
}

impl CustomError {
    /// The error for a line that failed to decode, under the given policy.
    pub fn from_decode_error(policy: Policy, error: DecodeError) -> (r: CustomError)
        ensures
            r.kind == (if policy == Policy::Lenient { ErrorKind::NoMatch } else { ErrorKind::Fatal }),
            r.decode_error == Some(error),
    {
        let kind = match policy {
            Policy::Lenient => ErrorKind::NoMatch,
            Policy::Strict => ErrorKind::Fatal,
        };
        CustomError { kind, decode_error: Some(error) }
    }
}

/// `k` is the position of the first line feed in `s`.
pub open spec fn is_first_newline(s: Seq<char>, k: int) -> bool {
    &&& 0 <= k < s.len()
    &&& s[k] == '\n'
    &&& forall|j: int| 0 <= j < k ==> s[j] != '\n'
}

pub open spec fn has_newline(s: Seq<char>) -> bool {
    exists|k: int| is_first_newline(s, k)
}

/// The position of the first line feed, where there is one.
pub open spec fn line_end(s: Seq<char>) -> int {
    choose|k: int| is_first_newline(s, k)
}

/// The text before the first line feed.
pub open spec fn first_line(s: Seq<char>) -> Seq<char> {
    s.subrange(0, line_end(s))
}

/// The text after the first line feed.
pub open spec fn after_first_line(s: Seq<char>) -> Seq<char> {
    s.subrange(line_end(s) + 1, s.len() as int)
}

proof fn lemma_first_newline_unique(s: Seq<char>, k: int)
    requires
        is_first_newline(s, k),
    ensures
        has_newline(s),
        line_end(s) == k,
{
    let c = line_end(s);
    if c < k {
        assert(s[c] == '\n');
    } else if k < c {
        assert(s[k] == '\n');
    }
}

/// Splits off the first line: the text before the first line feed and the
/// text after it, or `None` where there is no line feed.
fn split_first_line<'a>(s: &'a str) -> (r: Option<(&'a str, &'a str)>)
    ensures
        r is Some <==> has_newline(s@),
        r matches Some((line, after)) ==> line@ == first_line(s@) && after@ == after_first_line(s@),
{
    let n = s.unicode_len();
    let mut it = s.chars();
    let mut k: usize = 0;
    loop
        invariant
            k <= n,
            n == s@.len(),
            it.remaining() == s@.skip(k as int),
            forall|j: int| 0 <= j < k ==> s@[j] != '\n',
        decreases n - k,
    {
        match it.next() {
            None => {
                proof {
                    assert(k == n);
                    if has_newline(s@) {
                        let c = line_end(s@);
                        assert(s@[c] == '\n');
                    }
                }
                return None;
            },
            Some(c) => {
                proof {
                    assert(s@.skip(k as int)[0] == s@[k as int]);
                    assert(s@.skip(k as int).drop_first() =~= s@.skip(k + 1));
                }
                if c == '\n' {
                    proof {
                        lemma_first_newline_unique(s@, k as int);
                    }
                    return Some((s.substring_char(0, k), s.substring_char(k + 1, n)));
                }
                k += 1;
            },
        }
    }
}

/// Parses one record: decodes the text before the first line feed and hands
/// back what follows that line feed.
pub fn parse_one_struct<'a, T: LineRecord>(input: &'a str, policy: Policy) -> (r: Result<(&'a str, T), CustomError>)
    ensures
        r is Ok <==> has_newline(input@) && T::decoded(first_line(input@)) is Some,
        r matches Ok((rest, u)) ==> Some(u@) == T::decoded(first_line(input@)) && rest@
            == after_first_line(input@),
        r matches Err(e) ==> e.kind == (if !has_newline(input@) {
            ErrorKind::Incomplete
        } else if policy == Policy::Lenient {
            ErrorKind::NoMatch
        } else {
            ErrorKind::Fatal
        }),
        r matches Err(e) ==> (e.decode_error is Some <==> has_newline(input@)),
        r matches Err(e) ==> (e.decode_error matches Some(d) ==> T::error_fits(first_line(input@), d)),
        has_newline(input@) && T::surely_malformed(first_line(input@)) ==> (r matches Err(e) && e.kind
            != ErrorKind::Incomplete),
{
    match split_first_line(input) {
        None => Err(CustomError { kind: ErrorKind::Incomplete, decode_error: None }),
        Some((line, rest)) => match T::decode_line(line) {
            Ok(u) => Ok((rest, u)),
            Err(e) => Err(CustomError::from_decode_error(policy, e)),
        },
    }
}

/// The outcome of parsing a whole buffer: the text left unconsumed and the
/// records decoded, or `None` where a strict parse aborts.
pub open spec fn parsed_stream<T: LineRecord>(s: Seq<char>, policy: Policy) -> Option<(Seq<char>, Seq<T::V>)>
    decreases s.len(),
{
    if has_newline(s) {
        let rest = after_first_line(s);
        match T::decoded(first_line(s)) {
            Some(u) => match parsed_stream::<T>(rest, policy) {
                Some((left, us)) => Some((left, seq![u] + us)),
                None => None,
            },
            None => if policy == Policy::Lenient {
                parsed_stream::<T>(rest, policy)
            } else {
                None
            },
        }
    } else {
        Some((s, Seq::empty()))
    }
}

/// The first newline-terminated line of `s` that does not decode, if any.
pub open spec fn first_bad_line<T: LineRecord>(s: Seq<char>) -> Option<Seq<char>>
    decreases s.len(),
{
    if has_newline(s) {
        if T::decoded(first_line(s)) is None {
            Some(first_line(s))
        } else {
            first_bad_line::<T>(after_first_line(s))
        }
    } else {
        None
    }
}

/// Records decoded before a parse outcome, put in front of its records.
pub open spec fn prepend<V>(
    records: Seq<V>,
    outcome: Option<(Seq<char>, Seq<V>)>,
) -> Option<(Seq<char>, Seq<V>)> {
    match outcome {
        Some((left, us)) => Some((left, records + us)),
        None => None,
    }
}

/// In the encoding of `records` from position `n` on, the first line is the
/// encoding of record `n` and the rest encodes the records after it.
proof fn lemma_split_encoded<T: LineRecord>(records: Seq<T::V>, n: int, text: Seq<char>)
    requires
        0 <= n <= records.len(),
        text == lines_text::<T>(records.skip(n)),
    ensures
        n < records.len() <==> has_newline(text),
        n < records.len() ==> first_line(text) == T::encoded(records[n])
            && after_first_line(text) == lines_text::<T>(records.skip(n + 1)),
{
    if n == records.len() {
        assert(records.skip(n) =~= Seq::empty());
        assert(text == Seq::<char>::empty());
        if has_newline(text) {
            let c = line_end(text);
        }
    } else {
        let tail = records.skip(n);
        lemma_lines_text_front::<T>(tail);
        assert(tail.drop_first() =~= records.skip(n + 1));
        assert(tail[0] == records[n]);
        let line = T::encoded(records[n]);
        T::lemma_encoded_one_line(records[n]);
        let k = line.len() as int;
        assert(!line.contains('\n'));
        assert(text[k] == '\n');
        assert forall|j: int| 0 <= j < k implies text[j] != '\n' by {
            assert(text[j] == line[j]);
        }
        lemma_first_newline_unique(text, k);
        assert(first_line(text) =~= line);
        assert(after_first_line(text) =~= lines_text::<T>(records.skip(n + 1)));
    }
}

/// Parses records off the buffer until no line feed is left.  Under the
/// lenient policy a line that does not decode is dropped; under the strict
/// policy it aborts the parse, and no record is handed back.
pub fn parse_several_structs<'a, T: LineRecord>(input: &'a str, policy: Policy) -> (r: Result<(&'a str, Vec<T>), CustomError>)
    ensures
        r is Ok <==> parsed_stream::<T>(input@, policy) is Some,
        r matches Ok((rest, us)) ==> parsed_stream::<T>(input@, policy) == Some((rest@, records_view(us@))),
        r matches Err(e) ==> e.kind == ErrorKind::Fatal && policy == Policy::Strict,
        r matches Err(e) ==> (first_bad_line::<T>(input@) matches Some(line) && e.decode_error matches Some(d)
            && T::error_fits(line, d)),
        forall|records: Seq<T::V>|
            input@ == #[trigger] lines_text::<T>(records) ==> (r matches Ok((rest, us))
                && rest@ == Seq::<char>::empty() && records_view(us@) == records),
{
    let mut rest = input;
    let mut users: Vec<T> = Vec::new();
    proof {
        assert(records_view(users@) + Seq::empty() =~= records_view(users@));
        assert forall|records: Seq<T::V>|
            input@ == #[trigger] lines_text::<T>(records) implies (rest@
            == lines_text::<T>(records.skip(0)) && records_view(users@) == records.take(0)) by {
            assert(records.skip(0) =~= records);
            assert(records_view(users@) =~= records.take(0));
        }
    }
    loop
        invariant
            parsed_stream::<T>(input@, policy) == prepend(records_view(users@), parsed_stream::<T>(rest@, policy)),
            policy == Policy::Strict ==> first_bad_line::<T>(input@) == first_bad_line::<T>(rest@),
            forall|records: Seq<T::V>|
                input@ == #[trigger] lines_text::<T>(records) ==> {
                    &&& users@.len() <= records.len()
                    &&& rest@ == lines_text::<T>(records.skip(users@.len() as int))
                    &&& records_view(users@) == records.take(users@.len() as int)
                },
        decreases rest@.len(),
    {
        let ghost n = users@.len() as int;
        match split_first_line(rest) {
            None => {
                proof {
                    assert(records_view(users@) + Seq::empty() =~= records_view(users@));
                    assert forall|records: Seq<T::V>|
                        input@ == #[trigger] lines_text::<T>(records) implies (rest@
                        == Seq::<char>::empty() && records_view(users@) == records) by {
                        lemma_split_encoded::<T>(records, n, rest@);
                        assert(records.skip(n) =~= Seq::empty());
                        assert(records.take(n) =~= records);
                    }
                }
                return Ok((rest, users));
            },
            Some((line, after)) => {
                proof {
                    assert forall|records: Seq<T::V>|
                        input@ == #[trigger] lines_text::<T>(records) implies (n
                        < records.len() && line@ == T::encoded(records[n]) && after@
                        == lines_text::<T>(records.skip(n + 1))) by {
                        lemma_split_encoded::<T>(records, n, rest@);
                    }
                }
                match T::decode_line(line) {
                    Ok(u) => {
                        proof {
                            let uv = records_view(users@);
                            assert(records_view(users@.push(u)) =~= uv.push(u@));
                            match parsed_stream::<T>(after@, policy) {
                                Some((left, us)) => {
                                    assert(uv.push(u@) + us =~= uv + (seq![u@] + us));
                                },
                                None => {},
                            }
                        }
                        users.push(u);
                        proof {
                            assert forall|records: Seq<T::V>|
                                input@ == #[trigger] lines_text::<T>(records) implies (
                            records_view(users@) == records.take(users@.len() as int)) by {
                                assert(records_view(users@) =~= records.take(n + 1));
                            }
                        }
                        rest = after;
                    },
                    Err(e) => {
                        proof {
                            assert forall|records: Seq<T::V>|
                                input@ == #[trigger] lines_text::<T>(records) implies false by {
                                assert(line@ == T::encoded(records[n]));
                            }
                        }
                        match policy {
                            Policy::Lenient => {
                                rest = after;
                            },
                            Policy::Strict => {
                                return Err(CustomError::from_decode_error(policy, e));
                            },
                        }
                    },
                }
            },
        }
    }
}

/// No newline-terminated line of `s` decodes as a record.
pub open spec fn no_line_decodes<T: LineRecord>(s: Seq<char>) -> bool
    decreases s.len(),
{
    has_newline(s) ==> T::decoded(first_line(s)) is None && no_line_decodes::<T>(after_first_line(s))
}

/// What is left of `s` once every newline-terminated line is taken off.
pub open spec fn unterminated_tail(s: Seq<char>) -> Seq<char>
    decreases s.len(),
{
    if has_newline(s) {
        unterminated_tail(after_first_line(s))
    } else {
        s
    }
}

/// Under the lenient policy, a buffer none of whose lines decodes parses
/// successfully to no records, leaving only its unterminated tail.
pub proof fn lemma_lenient_skips_bad_lines<T: LineRecord>(s: Seq<char>)
    requires
        no_line_decodes::<T>(s),
    ensures
        parsed_stream::<T>(s, Policy::Lenient) == Some((unterminated_tail(s), Seq::<T::V>::empty())),
    decreases s.len(),
{
    if has_newline(s) {
        lemma_lenient_skips_bad_lines::<T>(after_first_line(s));
    }
}

/// Under the strict policy, a buffer whose first line does not decode fails
/// to parse, whatever follows.
pub proof fn lemma_strict_rejects_bad_line<T: LineRecord>(s: Seq<char>)
    requires
        has_newline(s),
        T::decoded(first_line(s)) is None,
    ensures
        parsed_stream::<T>(s, Policy::Strict) is None,
{
}

} // verus!
