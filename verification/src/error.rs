//! The errors that the queue's operations report.
use crate::text::{bytes_debug, decimal, push_decimal};
use vstd::prelude::*;
use vstd::string::StringExecFns;

verus! {

/// The category of an error, as `std::io::ErrorKind` names it.
#[derive(Debug, Clone, Copy, PartialEq, Eq, Structural)]
pub enum ErrorKind {
    NotFound,
    InvalidInput,
    InvalidData,
    Other,
}

/// An error: its kind and its message.
#[derive(Debug)]
pub struct Error {
    pub kind: ErrorKind,
    pub message: String,
}

pub struct ErrorView {
    pub kind: ErrorKind,
    pub message: Seq<char>,
}

impl View for Error {
    type V = ErrorView;

    open spec fn view(&self) -> ErrorView {
        ErrorView { kind: self.kind, message: self.message@ }
    }
}

/// The error for an operation whose delivery mode differs from the one the
/// address was first used with.
pub open spec fn mode_mismatch_view(addr: Seq<u8>) -> ErrorView {
    ErrorView {
        kind: ErrorKind::InvalidInput,
        message: "delivery mode mismatch for address "@ + bytes_debug(addr),
    }
}

/// The error for a subscriber id that the server does not know.
pub open spec fn unknown_subscriber_view(sub_id: u64) -> ErrorView {
    ErrorView {
        kind: ErrorKind::NotFound,
        message: "unknown subscriber id "@ + decimal(sub_id as nat),
    }
}

/// The error for a subscriber id that the server does not know.
pub fn unknown_subscriber(sub_id: u64) -> (e: Error)
    ensures
        e@ == unknown_subscriber_view(sub_id),
{
    let mut message = String::new();
    message.append("unknown subscriber id ");
    push_decimal(&mut message, sub_id);
    Error { kind: ErrorKind::NotFound, message }
}

} // verus!
