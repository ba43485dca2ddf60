//! What the stream parser asks of a record type: a one-line encoding and a
//! decoder that reads it back.

use crate::user::DecodeError;
use vstd::prelude::*;

verus! {

/// A record type that is written one per line and decoded from one line.
pub trait LineRecord: Sized + View {
    /// The value that a line decodes to, if any.
    spec fn decoded(line: Seq<char>) -> Option<Self::V>;

    /// The one-line encoding of a value.
    spec fn encoded(value: Self::V) -> Seq<char>;

    /// `error` is what decoding `line` gives.
    spec fn error_fits(line: Seq<char>, error: DecodeError) -> bool;

    /// A line that is known not to decode, whatever else it holds.
    spec fn surely_malformed(line: Seq<char>) -> bool;

    /// An encoding fills exactly one line.
    proof fn lemma_encoded_one_line(value: Self::V)
        ensures
            !Self::encoded(value).contains('\n'),
    ;

    /// Decodes one line.
    fn decode_line(line: &str) -> (r: Result<Self, DecodeError>)
        ensures
            r is Ok <==> Self::decoded(line@) is Some,
            r matches Ok(x) ==> Self::decoded(line@) == Some(x@),
            r matches Err(e) ==> Self::error_fits(line@, e),
            Self::surely_malformed(line@) ==> r is Err,
            forall|v: Self::V| line@ == #[trigger] Self::encoded(v) ==> (r matches Ok(x) && x@ == v),
    ;
}

/// The values of a sequence of records.
pub open spec fn records_view<T: View>(records: Seq<T>) -> Seq<T::V> {
    records.map_values(|r: T| r@)
}

/// The records of a sequence, encoded one per line, each line ending in `\n`.
pub open spec fn lines_text<T: LineRecord>(records: Seq<T::V>) -> Seq<char>
    decreases records.len(),
{
    if records.len() == 0 {
        Seq::empty()
    } else {
        lines_text::<T>(records.drop_last()) + T::encoded(records.last()) + seq!['\n']
    }
}

/// Splitting the encoding of a non-empty sequence at its first record.
pub proof fn lemma_lines_text_front<T: LineRecord>(records: Seq<T::V>)
    requires
        records.len() > 0,
    ensures
        lines_text::<T>(records) == T::encoded(records[0]) + seq!['\n'] + lines_text::<T>(records.drop_first()),
    decreases records.len(),
{
    if records.len() == 1 {
        assert(records.drop_last() =~= Seq::empty());
        assert(records.drop_first() =~= Seq::empty());
        assert(lines_text::<T>(records.drop_first()) == Seq::<char>::empty());
        assert(lines_text::<T>(records) =~= T::encoded(records[0]) + seq!['\n'] + Seq::<char>::empty());
    } else {
        let shorter = records.drop_last();
        lemma_lines_text_front::<T>(shorter);
        assert(shorter.drop_first() =~= records.drop_first().drop_last());
        assert(records.drop_first().last() == records.last());
        assert(shorter[0] == records[0]);
        assert(lines_text::<T>(records) =~= T::encoded(records[0]) + seq!['\n'] + lines_text::<T>(
            records.drop_first(),
        ));
    }
}

} // verus!
