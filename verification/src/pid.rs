//! Process-id interception on `initialize`.
//!
//! A server inside a container cannot observe the editor's host process id;
//! handed one, it would watch for it, miss it, and exit. On the first
//! client-side `initialize` request the handler stores the id and writes
//! `null` in its place; later messages pass through untouched.

use vstd::prelude::*;
use crate::json::{pid_patch, pid_patch_of};
use crate::search::{contains_seq, contains_sub};
use crate::text::{ascii_bytes, str_bytes};

verus! {

/// The byte pattern announcing an `initialize` request.
pub open spec fn init_pattern() -> Seq<u8> {
    ascii_bytes("\"method\":\"initialize\""@)
}

/// State of the process-id interception: the captured id, and whether the
/// patch has been applied.
pub struct PidHandler {
    /// The process id taken from the `initialize` request.
    pub pid: Option<u64>,
    /// Whether a message has been patched already.
    pub patched: bool,
}

/// What one interception step does: nothing once patched, nothing on a
/// message that is not an `initialize` request or has no `processId`;
/// otherwise it captures the id and rewrites the body.
pub open spec fn pid_take_spec(h: PidHandler, b: Seq<u8>) -> (PidHandler, Seq<u8>, bool) {
    if h.patched || !contains_seq(b, init_pattern()) {
        (h, b, false)
    } else {
        match pid_patch_of(b) {
            None => (h, b, false),
            Some(p) => (PidHandler { pid: p.0, patched: true }, p.1, true),
        }
    }
}

impl PidHandler {
    /// A handler that has patched nothing yet.
    pub fn new() -> (r: PidHandler)
        ensures
            r.pid is None,
            !r.patched,
    {
        PidHandler { pid: None, patched: false }
    }

    /// Take the `processId` out of an `initialize` request, store it, and
    /// write `null` in its place; report whether the patch was applied. A
    /// second call patches nothing.
    pub fn try_take_initialize_process_id(&mut self, raw_bytes: &mut Vec<u8>) -> (r: bool)
        ensures
            (*final(self), final(raw_bytes)@, r) == pid_take_spec(*old(self), old(raw_bytes)@),
    {
        proof {
            reveal_strlit("\"method\":\"initialize\"");
        }
        if self.patched {
            return false;
        }
        let pattern = str_bytes("\"method\":\"initialize\"");
        if !contains_sub(raw_bytes.as_slice(), pattern.as_slice()) {
            return false;
        }
        match pid_patch(raw_bytes.as_slice()) {
            None => false,
            Some((pid, out)) => {
                self.pid = pid;
                self.patched = true;
                *raw_bytes = out;
                true
            },
        }
    }
}

} // verus!
