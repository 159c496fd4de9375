//! The library's error type.
use vstd::prelude::*;

use crate::text::{chars_of, string_of};

verus! {

/// What went wrong.
#[derive(Debug, PartialEq)]
pub enum ErrorDetail {
    IOError { msg: String },
    InvalidFormat,
    InvalidAction,
    FormattingError { msg: String },
}

/// An error with its detail.
#[derive(Debug, PartialEq)]
pub struct Error {
    pub detail: ErrorDetail,
}

/// What the `Debug` format of `String` gives for a text.
pub uninterp spec fn debug_text_of(s: Seq<char>) -> Seq<char>;

/// Relies on the `Debug` impl of `str`: the text quoted and escaped.
#[verifier::external_body]
fn debug_text(s: &str) -> (r: String)
    ensures
        r@ == debug_text_of(s@),
{
    format!("{:?}", s)
}

/// The text of an error: `Error: ` followed by its detail as `Debug` shows it.
pub open spec fn error_text(d: ErrorDetail) -> Seq<char> {
    seq!['E', 'r', 'r', 'o', 'r', ':', ' '] + match d {
        ErrorDetail::IOError { msg } => seq!['I', 'O', 'E', 'r', 'r', 'o', 'r'] + msg_text(msg@),
        ErrorDetail::InvalidFormat => seq![
            'I', 'n', 'v', 'a', 'l', 'i', 'd', 'F', 'o', 'r', 'm', 'a', 't',
        ],
        ErrorDetail::InvalidAction => seq![
            'I', 'n', 'v', 'a', 'l', 'i', 'd', 'A', 'c', 't', 'i', 'o', 'n',
        ],
        ErrorDetail::FormattingError { msg } => seq![
            'F', 'o', 'r', 'm', 'a', 't', 't', 'i', 'n', 'g', 'E', 'r', 'r', 'o', 'r',
        ] + msg_text(msg@),
    }
}

/// The field part ` { msg: "..." }` of a detail that carries a message.
pub open spec fn msg_text(msg: Seq<char>) -> Seq<char> {
    seq![' ', '{', ' ', 'm', 's', 'g', ':', ' '] + debug_text_of(msg) + seq![' ', '}']
}

fn msg_chars(msg: &String) -> (r: Vec<char>)
    ensures
        r@ == msg_text(msg@),
{
    let mut r = vec![' ', '{', ' ', 'm', 's', 'g', ':', ' '];
    let mut quoted = chars_of(debug_text(msg.as_str()).as_str());
    r.append(&mut quoted);
    r.push(' ');
    r.push('}');
    r
}

#[verifier::external_type_specification]
#[verifier::external_body]
pub struct ExIoError(std::io::Error);

/// Relies on the `Debug` of `std::io::ErrorKind` and the `Display` of
/// `std::io::Error`: the text `<kind> -> <message>`.
#[verifier::external_body]
fn io_error_text(error: &std::io::Error) -> String {
    format!("{:?} -> {}", error.kind(), error)
}

impl From<std::io::Error> for Error {
    fn from(error: std::io::Error) -> (r: Error)
        ensures
            r.detail is IOError,
    {
        Error::new(ErrorDetail::IOError { msg: io_error_text(&error) })
    }
}

impl vstd::std_specs::convert::FromSpecImpl<std::io::Error> for Error {
    open spec fn obeys_from_spec() -> bool {
        false
    }

    open spec fn from_spec(v: std::io::Error) -> Error {
        arbitrary()
    }
}

impl Error {
    pub fn new(error_detail: ErrorDetail) -> (r: Error)
        ensures
            r.detail == error_detail,
    {
        Error { detail: error_detail }
    }

    /// The text of the error, as `Error: <detail>`.
    pub fn to_string(&self) -> (r: String)
        ensures
            r@ == error_text(self.detail),
    {
        let mut t = vec!['E', 'r', 'r', 'o', 'r', ':', ' '];
        let mut rest = match &self.detail {
            ErrorDetail::IOError { msg } => {
                let mut v = vec!['I', 'O', 'E', 'r', 'r', 'o', 'r'];
                v.append(&mut msg_chars(msg));
                v
            },
            ErrorDetail::InvalidFormat => vec![
                'I', 'n', 'v', 'a', 'l', 'i', 'd', 'F', 'o', 'r', 'm', 'a', 't',
            ],
            ErrorDetail::InvalidAction => vec![
                'I', 'n', 'v', 'a', 'l', 'i', 'd', 'A', 'c', 't', 'i', 'o', 'n',
            ],
            ErrorDetail::FormattingError { msg } => {
                let mut v = vec![
                    'F', 'o', 'r', 'm', 'a', 't', 't', 'i', 'n', 'g', 'E', 'r', 'r', 'o', 'r',
                ];
                v.append(&mut msg_chars(msg));
                v
            },
        };
        t.append(&mut rest);
        string_of(&t)
    }
}

} // verus!
