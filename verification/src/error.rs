//! The errors with which the checks refuse their input.

use vstd::prelude::*;

verus! {

/// Why a check refused its input.
#[derive(Debug, Clone, PartialEq, Eq)]
#[non_exhaustive]
pub enum Error {
    /// The named input vector does not have a compatible size.
    InvalidInputShape(String),
    /// The named argument does not have a valid value; the second string says why.
    InvalidArg(String, String),
}

impl Error {
    /// Whether this is a shape error that names `field`.
    pub open spec fn is_shape(self, field: Seq<char>) -> bool {
        self matches Error::InvalidInputShape(name) && name@ == field
    }

    /// Whether this is an argument error that names `field` with `reason`.
    pub open spec fn is_arg(self, field: Seq<char>, reason: Seq<char>) -> bool {
        self matches Error::InvalidArg(name, why) && name@ == field && why@ == reason
    }

    /// Builds the shape error that names `field`.
    pub fn shape(field: &str) -> (e: Error)
        ensures
            e.is_shape(field@),
    {
        Error::InvalidInputShape(field.to_owned())
    }

    /// Builds the argument error that names `field` with `reason`.
    pub fn arg(field: &str, reason: &str) -> (e: Error)
        ensures
            e.is_arg(field@, reason@),
    {
        Error::InvalidArg(field.to_owned(), reason.to_owned())
    }

    /// The message a user is shown for this error.
    pub fn message(&self) -> (text: String)
        ensures
            text@ == self.message_spec(),
    {
        match self {
            Error::InvalidInputShape(name) => {
                "input vector ".to_owned().concat(name.as_str()).concat(" does not have compatible size")
            },
            Error::InvalidArg(name, why) => {
                "argument ".to_owned().concat(name.as_str()).concat(
                    " does not have a valid value: ",
                ).concat(why.as_str())
            },
        }
    }

    /// The text of [`Error::message`].
    pub open spec fn message_spec(self) -> Seq<char> {
        match self {
            Error::InvalidInputShape(name) => "input vector "@ + name@
                + " does not have compatible size"@,
            Error::InvalidArg(name, why) => "argument "@ + name@
                + " does not have a valid value: "@ + why@,
        }
    }
}

/// Why a check refused its input, with the name of an argument and the
/// reason held as a pair.
#[derive(Debug)]
pub enum QcError {
    /// The named input vector does not have a compatible size.
    InvalidInputShape(String),
    /// The named argument does not have a valid value.
    InvalidArg((String, String)),
}

impl QcError {
    /// The text of [`QcError::message`].
    pub open spec fn message_spec(self) -> Seq<char> {
        match self {
            QcError::InvalidInputShape(cause) => "input vector "@ + cause@
                + " does not have compatible size"@,
            QcError::InvalidArg(pair) => "argument "@ + pair.0@
                + " does not have a valid value: "@ + pair.1@,
        }
    }

    /// The message a user is shown for this error.
    pub fn message(&self) -> (text: String)
        ensures
            text@ == self.message_spec(),
    {
        match self {
            QcError::InvalidInputShape(cause) => {
                "input vector ".to_owned().concat(cause.as_str()).concat(" does not have compatible size")
            },
            QcError::InvalidArg(pair) => {
                "argument ".to_owned().concat(pair.0.as_str()).concat(
                    " does not have a valid value: ",
                ).concat(pair.1.as_str())
            },
        }
    }
}

impl vstd::std_specs::convert::FromSpecImpl<Error> for QcError {
    open spec fn obeys_from_spec() -> bool {
        true
    }

    open spec fn from_spec(e: Error) -> QcError {
        match e {
            Error::InvalidInputShape(name) => QcError::InvalidInputShape(name),
            Error::InvalidArg(name, why) => QcError::InvalidArg((name, why)),
        }
    }
}

impl From<Error> for QcError {
    fn from(e: Error) -> (q: QcError)
    {
        match e {
            Error::InvalidInputShape(name) => QcError::InvalidInputShape(name),
            Error::InvalidArg(name, why) => QcError::InvalidArg((name, why)),
        }
    }
}

} // verus!
