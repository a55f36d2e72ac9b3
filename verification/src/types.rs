//! Shared message-pipeline types: the direction tag and the error for a
//! message that cannot be handled.

use vstd::prelude::*;
use crate::text::{ascii_bytes, str_bytes};

verus! {

/// Which peer a message came from.
#[derive(Clone, Copy, PartialEq, Eq, Structural, Debug)]
pub enum Pair {
    /// The language server inside the container.
    Server,
    /// The editor.
    Client,
}

/// A message that cannot be handled.
#[derive(Debug)]
pub struct MessageError;

impl MessageError {
    /// A fresh message error.
    pub fn new() -> MessageError {
        MessageError
    }

    /// The failure as an `Err`, for any success type.
    pub fn err<T>() -> (r: Result<T, MessageError>)
        ensures
            r is Err,
    {
        Err(MessageError)
    }

    /// Human-readable description of the failure.
    pub fn text(&self) -> (r: Vec<u8>)
        ensures
            r@ == ascii_bytes("Unexpected message"@),
    {
        proof {
            reveal_strlit("Unexpected message");
        }
        str_bytes("Unexpected message")
    }
}

} // verus!
