//! Newline-delimited JSON records: a two-field `User` record, its one-line
//! encoding, and a stream parser that peels records off a text buffer.

pub mod json;
pub mod parser;
pub mod record;
pub mod user;

pub use parser::{parse_one_struct, parse_several_structs, CustomError, ErrorKind, Policy};
pub use record::LineRecord;
pub use user::{DecodeError, User, RANDOM_FIELD_LEN};
