use vstd::prelude::*;

use crate::common::Pos;

verus! {

/// What a parser expected or found wrong.
#[derive(Clone, Debug, PartialEq, Eq)]
pub enum ParseError {
    Expecting { value: String },
    EscapeChar {},
    Unicode {},
    HexDigit,
    Json {},
    TemplateVariable {},
}

/// A parsing error: where, whether another alternative may still be tried, and what.
#[derive(Clone, Debug, PartialEq, Eq)]
pub struct Error {
    pub pos: Pos,
    pub recoverable: bool,
    pub inner: ParseError,
}

/// The mathematical content of a [`ParseError`].
pub enum ErrorKind {
    Expecting(Seq<char>),
    EscapeChar,
    Unicode,
    HexDigit,
    Json,
    TemplateVariable,
}

/// The mathematical content of an [`Error`].
pub struct ErrorModel {
    pub pos: Pos,
    pub recoverable: bool,
    pub inner: ErrorKind,
}

impl View for ParseError {
    type V = ErrorKind;

    open spec fn view(&self) -> ErrorKind {
        match *self {
            ParseError::Expecting { value } => ErrorKind::Expecting(value@),
            ParseError::EscapeChar {} => ErrorKind::EscapeChar,
            ParseError::Unicode {} => ErrorKind::Unicode,
            ParseError::HexDigit => ErrorKind::HexDigit,
            ParseError::Json {} => ErrorKind::Json,
            ParseError::TemplateVariable {} => ErrorKind::TemplateVariable,
        }
    }
}

impl View for Error {
    type V = ErrorModel;

    open spec fn view(&self) -> ErrorModel {
        ErrorModel { pos: self.pos, recoverable: self.recoverable, inner: self.inner@ }
    }
}

} // verus!
