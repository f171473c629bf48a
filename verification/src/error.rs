//! An error value that is built up step by step.

use vstd::prelude::*;
use vstd::std_specs::convert::IntoSpec;
use vstd::string::*;

verus! {

/// What an error says.
pub ghost struct ErrorView {
    pub code: Seq<char>,
    pub status: u16,
    pub message: Seq<char>,
}

/// An error with a code, a status and a message.
#[derive(Debug)]
pub struct Error {
    code: String,
    status: u16,
    message: String,
}

impl View for Error {
    type V = ErrorView;

    closed spec fn view(&self) -> ErrorView {
        ErrorView { code: self.code@, status: self.status, message: self.message@ }
    }
}

impl Default for Error {
    /// The error of which nothing is known.
    fn default() -> (err: Self)
        ensures
            err@ == (ErrorView {
                code: "UNKNOWN"@,
                status: 500,
                message: "Unknown error has happened."@,
            }),
    {
        Self {
            code: String::from_str("UNKNOWN"),
            status: 500,
            message: String::from_str("Unknown error has happened."),
        }
    }
}

impl Error {
    /// The error with the given code, and the status and message of the
    /// error of which nothing is known.
    pub fn new<S: Into<String>>(code: S) -> (err: Self)
        ensures
            err@.status == 500,
            err@.message == "Unknown error has happened."@,
            S::obeys_into_spec() ==> err@.code == S::into_spec(code)@,
    {
        let mut err = Self::default();
        err.code = code.into();
        err
    }

    /// Sets the status and hands the error back for the next step.
    pub fn status(&mut self, s: u16) -> (err: &mut Self)
        ensures
            err@ == (ErrorView { status: s, ..old(self)@ }),
            *final(self) == *final(err),
    {
        self.status = s;
        self
    }

    /// Sets the message and hands the error back for the next step.
    pub fn message<S: Into<String>>(&mut self, m: S) -> (err: &mut Self)
        ensures
            err@.code == old(self)@.code,
            err@.status == old(self)@.status,
            S::obeys_into_spec() ==> err@.message == S::into_spec(m)@,
            *final(self) == *final(err),
    {
        self.message = m.into();
        self
    }
}

} // verus!
