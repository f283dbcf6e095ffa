//! The error types of the server core.

use vstd::prelude::*;

verus! {

/// What can go wrong in the worker pool.
#[derive(Debug)]
pub enum ThreadPoolError {
    /// The lock around the receiving end was poisoned.
    ReceiverLockError(String),
    /// The job channel is closed: nothing more can be received.
    ReceiveError,
    /// A job could not be submitted.
    SendError(String),
}

/// What can go wrong while parsing a request.
#[derive(Debug)]
pub enum RequestError {
    /// The request line has fewer than three tokens; holds the line.
    InvalidRequestLineError(String),
    /// The request has no line at all.
    EmptyRequestError,
}

/// What can go wrong while serving one connection.
#[derive(Debug)]
pub enum WebServerError {
    /// Flushing the stream failed.
    StreamFlushError(String),
    /// Reading from or writing to the stream failed.
    IO(String),
    /// The request could not be parsed.
    RequestParseError(RequestError),
    /// Any other failure inside the server.
    InternalServerError(String),
}

/// What can go wrong while registering a route.
#[derive(Debug)]
pub enum WebRouterError {
    /// The path could not be normalised.
    PathFormatError(String),
}

impl ThreadPoolError {
    /// The text of the error, in the model.
    pub open spec fn spec_message(&self) -> Seq<char> {
        match self {
            ThreadPoolError::ReceiverLockError(s) => "Receiver lock error: "@ + s@,
            ThreadPoolError::ReceiveError => "Receive error: receiving on a closed channel"@,
            ThreadPoolError::SendError(s) => "Send error: "@ + s@,
        }
    }

    /// The text of the error.
    pub fn message(&self) -> (res: String)
        ensures
            res@ == self.spec_message(),
    {
        match self {
            ThreadPoolError::ReceiverLockError(s) => String::from_str(
                "Receiver lock error: ",
            ).concat(s.as_str()),
            ThreadPoolError::ReceiveError => String::from_str(
                "Receive error: receiving on a closed channel",
            ),
            ThreadPoolError::SendError(s) => String::from_str("Send error: ").concat(s.as_str()),
        }
    }
}

impl RequestError {
    /// The text of the error, in the model.
    pub open spec fn spec_message(&self) -> Seq<char> {
        match self {
            RequestError::InvalidRequestLineError(s) => "Invalid request line: "@ + s@,
            RequestError::EmptyRequestError => "Empty HTTP request"@,
        }
    }

    /// The text of the error.
    pub fn message(&self) -> (res: String)
        ensures
            res@ == self.spec_message(),
    {
        match self {
            RequestError::InvalidRequestLineError(s) => String::from_str(
                "Invalid request line: ",
            ).concat(s.as_str()),
            RequestError::EmptyRequestError => String::from_str("Empty HTTP request"),
        }
    }
}

impl WebServerError {
    /// The text of the error, in the model.
    pub open spec fn spec_message(&self) -> Seq<char> {
        match self {
            WebServerError::StreamFlushError(s) => "Stream flush error: "@ + s@,
            WebServerError::IO(s) => "I/O error: "@ + s@,
            WebServerError::RequestParseError(e) => "Request parse error: "@ + e.spec_message(),
            WebServerError::InternalServerError(s) => "Internal server error: "@ + s@,
        }
    }

    /// The text of the error.
    pub fn message(&self) -> (res: String)
        ensures
            res@ == self.spec_message(),
    {
        match self {
            WebServerError::StreamFlushError(s) => String::from_str("Stream flush error: ").concat(
                s.as_str(),
            ),
            WebServerError::IO(s) => String::from_str("I/O error: ").concat(s.as_str()),
            WebServerError::RequestParseError(e) => {
                let inner = e.message();
                String::from_str("Request parse error: ").concat(inner.as_str())
            },
            WebServerError::InternalServerError(s) => String::from_str(
                "Internal server error: ",
            ).concat(s.as_str()),
        }
    }
}

impl WebRouterError {
    /// The text of the error, in the model.
    pub open spec fn spec_message(&self) -> Seq<char> {
        match self {
            WebRouterError::PathFormatError(s) => "Error while formatting a path: "@ + s@,
        }
    }

    /// The text of the error.
    pub fn message(&self) -> (res: String)
        ensures
            res@ == self.spec_message(),
    {
        match self {
            WebRouterError::PathFormatError(s) => String::from_str(
                "Error while formatting a path: ",
            ).concat(s.as_str()),
        }
    }
}

} // verus!
