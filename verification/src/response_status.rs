//! The error every operation of this crate reports.

use std::fmt::Display;
use vstd::prelude::*;
use vstd::string::to_string_from_display_ensures;

verus! {

/// What went wrong, by cause.
#[derive(Clone, Copy, Debug, PartialEq, Eq, Structural)]
pub enum ErrorKind {
    /// The external program could not be started.
    ProcessLaunch,
    /// The external program ran and reported failure.
    ExternalTool,
    /// The requested path does not resolve to anything that can be served.
    NotFound,
    /// The filesystem could not be read while a request was served.
    Io,
    /// A path cannot be represented as text.
    InvalidEncoding,
}

/// The status line under which an error leaves the server.
#[derive(Clone, Copy, Debug, PartialEq, Eq, Structural)]
pub enum Status {
    BadRequest,
    InternalServerError,
}

impl Status {
    /// The numeric status code.
    pub open spec fn code_spec(self) -> u16 {
        match self {
            Status::BadRequest => 400,
            Status::InternalServerError => 500,
        }
    }

    /// The reason phrase that goes with the code.
    pub open spec fn reason_spec(self) -> Seq<char> {
        match self {
            Status::BadRequest => "Bad Request"@,
            Status::InternalServerError => "Internal Server Error"@,
        }
    }

    /// Whether the fault lies with the client.
    pub open spec fn is_client_fault(self) -> bool {
        self == Status::BadRequest
    }

    pub fn code(&self) -> (c: u16)
        ensures
            c == self.code_spec(),
            400 <= c < 600,
            self.is_client_fault() <==> c < 500,
    {
        match self {
            Status::BadRequest => 400,
            Status::InternalServerError => 500,
        }
    }

    /// Whether the fault lies with the client. Every other error is the
    /// server's own, and worth its log.
    pub fn client_fault(&self) -> (r: bool)
        ensures
            r == self.is_client_fault(),
            r == (self.code_spec() < 500),
    {
        match self {
            Status::BadRequest => true,
            Status::InternalServerError => false,
        }
    }

    pub fn reason(&self) -> (r: &'static str)
        ensures
            r@ == self.reason_spec(),
    {
        match self {
            Status::BadRequest => "Bad Request",
            Status::InternalServerError => "Internal Server Error",
        }
    }
}

impl ErrorKind {
    /// A path that does not exist is the client's fault; every other kind is
    /// a fault of the server or of what it runs on.
    pub open spec fn status_spec(self) -> Status {
        match self {
            ErrorKind::NotFound => Status::BadRequest,
            _ => Status::InternalServerError,
        }
    }

    pub fn status(&self) -> (s: Status)
        ensures
            s == self.status_spec(),
    {
        match self {
            ErrorKind::NotFound => Status::BadRequest,
            _ => Status::InternalServerError,
        }
    }
}

/// An error as contracts speak of it: its kind and the text of its message.
pub struct Failure {
    pub kind: ErrorKind,
    pub message: Seq<char>,
}

/// An error on its way to the client.
#[derive(Debug)]
pub struct ResponseStatus {
    pub kind: ErrorKind,
    pub message: String,
}

impl View for ResponseStatus {
    type V = Failure;

    open spec fn view(&self) -> Failure {
        Failure { kind: self.kind, message: self.message@ }
    }
}

impl ResponseStatus {
    /// An error of the given kind.
    pub fn new(kind: ErrorKind, message: String) -> (r: Self)
        ensures
            r@ == (Failure { kind, message: message@ }),
    {
        ResponseStatus { kind, message }
    }

    /// A fault of the server with nothing more specific known about it: it
    /// is reported like a failed read.
    pub fn internal_server_error(message: String) -> (r: Self)
        ensures
            r@ == (Failure { kind: ErrorKind::Io, message: message@ }),
            r.kind.status_spec() == Status::InternalServerError,
    {
        ResponseStatus { kind: ErrorKind::Io, message }
    }

    /// A server fault whose message is the text the error displays as.
    pub fn from<T: Display>(error: T) -> (r: Self)
        ensures
            r.kind == ErrorKind::Io,
            to_string_from_display_ensures::<T>(&error, r.message),
    {
        ResponseStatus { kind: ErrorKind::Io, message: error.to_string() }
    }

    /// The status under which this error is reported.
    pub fn status(&self) -> (s: Status)
        ensures
            s == self.kind.status_spec(),
    {
        self.kind.status()
    }
}

} // verus!
