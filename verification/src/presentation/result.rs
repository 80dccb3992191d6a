use crate::error::BoxError;
use vstd::prelude::*;
use vstd::std_specs::convert::FromSpecImpl;
use vstd::string::StringExecFns;

verus! {

/// One failed validation: the field it applies to, and why it failed.
#[derive(Debug)]
pub struct ValidationError {
    /// The field to which this validation error applies.
    pub identifier: String,
    /// The message that describes the validation error.
    pub error_message: String,
}

impl ValidationError {
    /// A validation error on the field `identifier`, described by
    /// `error_message`.
    pub fn new(identifier: &str, error_message: &str) -> (err: Self)
        ensures
            err.identifier@ == identifier@,
            err.error_message@ == error_message@,
    {
        ValidationError {
            identifier: String::from_str(identifier),
            error_message: String::from_str(error_message),
        }
    }
}

/// Why a command or a query failed.
#[derive(Debug)]
pub enum Error {
    /// The request holds invalid input.
    Invalid(Vec<ValidationError>),
    /// The requester is not authenticated.
    Unauthorized,
    /// The requester is authenticated, but lacks the permission.
    Forbidden,
    /// The resource does not exist, or is not visible to the requester.
    NotFound,
    /// The operation was attempted and failed.
    Internal(BoxError),
}

impl Error {
    /// The status code that answers a request which failed with this error.
    pub open spec fn spec_status_code(self) -> u16 {
        match self {
            Error::Invalid(_) => 400,
            Error::Unauthorized => 401,
            Error::Forbidden => 403,
            Error::NotFound => 404,
            Error::Internal(_) => 500,
        }
    }

    /// Whether the answer carries a body besides its status code: only an
    /// invalid request and an internal failure are explained to the caller.
    pub open spec fn spec_has_body(self) -> bool {
        self is Invalid || self is Internal
    }

    /// The message at the head of the answer's body.
    pub open spec fn spec_message(self) -> Seq<char> {
        match self {
            Error::Invalid(_) => "Bad request"@,
            Error::Unauthorized => "Unauthorized"@,
            Error::Forbidden => "Forbidden"@,
            Error::NotFound => "Not found"@,
            Error::Internal(_) => "Internal server error"@,
        }
    }

    /// The causes listed in the answer's body, besides the validation
    /// errors of an invalid request: the message of an internal failure.
    pub open spec fn spec_causes(self) -> Seq<Seq<char>> {
        match self {
            Error::Internal(cause) => seq![cause@],
            _ => Seq::empty(),
        }
    }

    /// The error written out as text.
    pub open spec fn spec_text(self) -> Seq<char> {
        match self {
            Error::Invalid(_) => "Invalid"@,
            Error::Unauthorized => "Unauthorized"@,
            Error::Forbidden => "Forbidden"@,
            Error::NotFound => "NotFound"@,
            Error::Internal(cause) => "Internal: "@ + cause@,
        }
    }

    /// The status code that answers a request which failed with this error.
    pub fn status_code(&self) -> (code: u16)
        ensures
            code == self.spec_status_code(),
    {
        match self {
            Error::Invalid(_) => 400,
            Error::Unauthorized => 401,
            Error::Forbidden => 403,
            Error::NotFound => 404,
            Error::Internal(_) => 500,
        }
    }

    /// Whether the answer carries a body besides its status code.
    pub fn has_body(&self) -> (body: bool)
        ensures
            body == self.spec_has_body(),
    {
        match self {
            Error::Invalid(_) => true,
            Error::Internal(_) => true,
            _ => false,
        }
    }

    /// The message at the head of the answer's body.
    pub fn message(&self) -> (text: String)
        ensures
            text@ == self.spec_message(),
    {
        match self {
            Error::Invalid(_) => String::from_str("Bad request"),
            Error::Unauthorized => String::from_str("Unauthorized"),
            Error::Forbidden => String::from_str("Forbidden"),
            Error::NotFound => String::from_str("Not found"),
            Error::Internal(_) => String::from_str("Internal server error"),
        }
    }

    /// The causes listed in the answer's body: the message of an internal
    /// failure, and nothing for the other errors.
    pub fn causes(&self) -> (list: Vec<String>)
        ensures
            list@.len() == self.spec_causes().len(),
            forall|i: int| 0 <= i < list@.len() ==> (#[trigger] list@[i])@ == self.spec_causes()[i],
    {
        let mut list: Vec<String> = Vec::new();
        match self {
            Error::Internal(cause) => {
                list.push(cause.to_text());
            },
            _ => {},
        }
        list
    }

    /// The error written out as text: the name of its kind, followed for an
    /// internal failure by the message of its cause.
    pub fn to_text(&self) -> (text: String)
        ensures
            text@ == self.spec_text(),
    {
        match self {
            Error::Invalid(_) => String::from_str("Invalid"),
            Error::Unauthorized => String::from_str("Unauthorized"),
            Error::Forbidden => String::from_str("Forbidden"),
            Error::NotFound => String::from_str("NotFound"),
            Error::Internal(cause) => {
                let head = String::from_str("Internal: ");
                head.concat(cause.message.as_str())
            },
        }
    }
}

impl From<BoxError> for Error {
    /// An erased failure is an internal error.
    fn from(err: BoxError) -> (error: Self) {
        Error::Internal(err)
    }
}

impl FromSpecImpl<BoxError> for Error {
    open spec fn obeys_from_spec() -> bool {
        true
    }

    open spec fn from_spec(err: BoxError) -> Self {
        Error::Internal(err)
    }
}

} // verus!
