//! The server side of the wire protocol: connections, request handling and
//! responses.
//!
//! Nothing here performs I/O. [`connection::Connection`] and
//! [`server::Handler`] say what to do next and are told what came of it.

use crate::wire::FrameError;
use vstd::prelude::*;

pub mod connection;
pub mod response;
pub mod server;

verus! {

/// The kinds of I/O failure that the library tells apart.
#[derive(Debug, Clone, Copy, PartialEq, Eq, Structural)]
pub enum IoErrorKind {
    /// The peer went away in the middle of a frame.
    ConnectionReset,
    /// Any other failure.
    Other,
}

/// A failed I/O operation.
#[derive(Debug, PartialEq, Eq)]
pub struct IoError {
    pub kind: IoErrorKind,
    pub message: String,
}

/// Error from running the server or a client.
#[derive(Debug, PartialEq, Eq)]
pub enum Error {
    /// Error from parsing a frame.
    Frame(FrameError),
    /// Error from I/O operations.
    Io(IoError),
}

impl Error {
    /// The text of [`Error::message`].
    pub open spec fn text(self) -> Seq<char> {
        match self {
            Error::Frame(e) => "Frame error - "@ + e.text(),
            Error::Io(e) => "I/O error - "@ + e.message@,
        }
    }

    /// Says in words what went wrong.
    pub fn message(&self) -> (r: String)
        ensures
            r@ == self.text(),
    {
        match self {
            Error::Frame(e) => {
                let mut message = "Frame error - ".to_owned();
                message.append(e.message().as_str());
                message
            },
            Error::Io(e) => {
                let mut message = "I/O error - ".to_owned();
                message.append(e.message.as_str());
                message
            },
        }
    }
}

impl vstd::std_specs::convert::FromSpecImpl<FrameError> for Error {
    open spec fn obeys_from_spec() -> bool {
        true
    }

    open spec fn from_spec(e: FrameError) -> Error {
        Error::Frame(e)
    }
}

impl From<FrameError> for Error {
    fn from(e: FrameError) -> (r: Error) {
        Error::Frame(e)
    }
}

impl vstd::std_specs::convert::FromSpecImpl<IoError> for Error {
    open spec fn obeys_from_spec() -> bool {
        true
    }

    open spec fn from_spec(e: IoError) -> Error {
        Error::Io(e)
    }
}

impl From<IoError> for Error {
    fn from(e: IoError) -> (r: Error) {
        Error::Io(e)
    }
}

/// An error says which side it comes from, and then what that side says.
pub proof fn law_errors_say_where_they_come_from(frame: FrameError, io: IoError)
    ensures
        Error::Frame(frame).text() == "Frame error - "@ + frame.text(),
        Error::Io(io).text() == "I/O error - "@ + io.message@,
{
}

/// An error that is passed on is kept whole, on the side that it comes from.
pub proof fn law_errors_are_passed_on_whole(frame: FrameError, io: IoError)
    ensures
        <Error as vstd::std_specs::convert::FromSpec<FrameError>>::from_spec(frame)
            == Error::Frame(frame),
        <Error as vstd::std_specs::convert::FromSpec<IoError>>::from_spec(io) == Error::Io(io),
{
}

} // verus!
