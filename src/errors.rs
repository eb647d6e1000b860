use vstd::prelude::*;

verus! {

/// Why one connection could not be served. Every one of them ends that
/// connection only.
#[derive(Clone, Copy, Debug, PartialEq, Eq, Structural)]
pub enum ServeError {
    /// No complete request head arrived within the read budget, or its
    /// request line lacks a method or a target.
    MalformedRequest,
    /// The request target is not `/?file=<percent-encoded absolute path>`.
    BadTarget,
    /// The `Range` header does not read `bytes=<digits>-<digits>?`, or asks
    /// for no byte of the file.
    BadRange,
    /// The file could not be opened.
    FileNotFound,
}

/// Smallest status code that an HTTP response may carry.
pub const MIN_STATUS: u16 = 100;

/// One past the largest status code that an HTTP response may carry.
pub const STATUS_LIMIT: u16 = 1000;

/// A status code is a three-digit number.
pub open spec fn valid_status(code: u16) -> bool {
    MIN_STATUS <= code && code < STATUS_LIMIT
}

/// Tells whether `code` is a three-digit status code.
pub fn is_valid_status(code: u16) -> (r: bool)
    ensures
        r == valid_status(code),
{
    MIN_STATUS <= code && code < STATUS_LIMIT
}

/// An error of the catalog service: a status code and an optional body text.
#[derive(Debug)]
pub struct ApiError {
    status_code: u16,
    message: Option<String>,
}

impl ApiError {
    /// The status code and the message held by this error.
    pub closed spec fn spec_status_code(&self) -> u16 {
        self.status_code
    }

    pub closed spec fn spec_message(&self) -> Option<Seq<char>> {
        match self.message {
            Some(m) => Some(m@),
            None => None,
        }
    }

    pub closed spec fn wf(&self) -> bool {
        valid_status(self.status_code)
    }

    /// An error that answers with `status_code` and the text `message`.
    pub fn new(status_code: u16, message: String) -> (r: Self)
        requires
            valid_status(status_code),
        ensures
            r.wf(),
            r.spec_status_code() == status_code,
            r.spec_message() == Some(message@),
    {
        ApiError { status_code, message: Some(message) }
    }

    /// An error that answers with `status_code` and no body; `log` is text
    /// for the operator and does not reach the client.
    pub fn empty(status_code: u16, log: Option<String>) -> (r: Self)
        requires
            valid_status(status_code),
        ensures
            r.wf(),
            r.spec_status_code() == status_code,
            r.spec_message() == None::<Seq<char>>,
    {
        ApiError { status_code, message: None }
    }

    pub fn status_code(&self) -> (r: u16)
        ensures
            r == self.spec_status_code(),
            self.wf() ==> valid_status(r),
    {
        self.status_code
    }

    pub fn message(&self) -> (r: Option<String>)
        ensures
            match r {
                Some(m) => self.spec_message() == Some(m@),
                None => self.spec_message() == None::<Seq<char>>,
            },
    {
        match &self.message {
            Some(m) => Some(m.clone()),
            None => None,
        }
    }
}

} // verus!
