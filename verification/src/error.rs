//! What can fail when a page is read: each failure names the field that
//! could not be extracted and holds the failure beneath it, if there is one.

use vstd::prelude::*;
use vstd::string::StringExecFns;

verus! {

/// Why a piece of text is not the number it should be.
#[derive(Debug, Clone, Copy, PartialEq, Eq, Structural)]
pub enum NumberError {
    /// There is no digit at all.
    Empty,
    /// A character stands where only a digit may.
    InvalidDigit,
    /// The number does not fit its type.
    Overflow,
}

/// What can go wrong between a page and its records.
#[derive(Debug, PartialEq, Eq)]
pub enum Error {
    /// `field` could not be extracted; `cause` is the failure beneath it, if
    /// there is one.
    Parse { field: String, cause: Option<Box<Error>> },
    /// A number was expected: the innermost cause of a failed conversion.
    Number(NumberError),
    /// The page could not be fetched.
    Net(String),
}

/// The mathematical value of an [`Error`].
pub enum ErrorModel {
    Parse { field: Seq<char>, cause: Option<Box<ErrorModel>> },
    Number(NumberError),
    Net(Seq<char>),
}

/// The failure to extract `field`, with nothing beneath it.
pub open spec fn missing(field: Seq<char>) -> ErrorModel {
    ErrorModel::Parse { field, cause: None }
}

/// The failure to extract `field` because of `cause`.
pub open spec fn within(field: Seq<char>, cause: ErrorModel) -> ErrorModel {
    ErrorModel::Parse { field, cause: Some(Box::new(cause)) }
}

impl View for Error {
    type V = ErrorModel;

    open spec fn view(&self) -> ErrorModel
        decreases self,
    {
        match self {
            Error::Parse { field, cause } => ErrorModel::Parse {
                field: field@,
                cause: match cause {
                    Some(inner) => Some(Box::new((**inner)@)),
                    None => None,
                },
            },
            Error::Number(kind) => ErrorModel::Number(*kind),
            Error::Net(text) => ErrorModel::Net(text@),
        }
    }
}

/// What is said of a text that is no number.
pub open spec fn number_message(kind: NumberError) -> Seq<char> {
    match kind {
        NumberError::Empty => "cannot parse number from empty string"@,
        NumberError::InvalidDigit => "invalid digit found in string"@,
        NumberError::Overflow => "number too large to fit in target type"@,
    }
}

/// What marks the step from a failure to its cause.
pub open spec fn cause_mark() -> Seq<char> {
    "\n< "@
}

/// The words for `error`: the field that failed, and on a line of its own
/// each cause beneath it.
pub open spec fn message_of(error: ErrorModel) -> Seq<char>
    decreases error,
{
    match error {
        ErrorModel::Parse { field, cause } => match cause {
            Some(inner) => field + cause_mark() + message_of(*inner),
            None => field,
        },
        ErrorModel::Number(kind) => number_message(kind),
        ErrorModel::Net(text) => text,
    }
}

impl NumberError {
    /// What is said of a text that is no number.
    pub fn message(&self) -> (text: &'static str)
        ensures
            text@ == number_message(*self),
    {
        match self {
            NumberError::Empty => "cannot parse number from empty string",
            NumberError::InvalidDigit => "invalid digit found in string",
            NumberError::Overflow => "number too large to fit in target type",
        }
    }
}

impl Error {
    /// The words for the error.
    pub fn message(&self) -> (text: String)
        ensures
            text@ == message_of(self@),
        decreases self,
    {
        match self {
            Error::Parse { field, cause } => {
                let mut text = field.clone();
                match cause {
                    Some(inner) => {
                        text.append("\n< ");
                        let below = inner.message();
                        text.append(below.as_str());
                        assert(text@ =~= field@ + cause_mark() + message_of((**inner)@));
                    },
                    None => {},
                }
                text
            },
            Error::Number(kind) => kind.message().to_owned(),
            Error::Net(text) => text.clone(),
        }
    }

    /// The failure to extract `field`, with nothing beneath it.
    pub fn missing(field: &str) -> (error: Error)
        ensures
            error@ == missing(field@),
    {
        Error::Parse { field: field.to_owned(), cause: None }
    }

    /// The failure to extract `field` because of `cause`.
    pub fn within(field: &str, cause: Error) -> (error: Error)
        ensures
            error@ == within(field@, cause@),
    {
        Error::Parse { field: field.to_owned(), cause: Some(Box::new(cause)) }
    }
}

} // verus!
