//! The failures that the components tell apart.

use vstd::prelude::*;

verus! {

/// What went wrong, by the stage that failed.
#[derive(Clone, Copy, Debug, PartialEq, Eq, Structural)]
pub enum IpcError {
    /// The listening socket could not be bound.
    Bind,
    /// A pool connection could not be established.
    Connect,
    /// Reading or writing on an established pool connection failed.
    Io,
    /// The stream ended before a frame was complete.
    ShortRead,
    /// A response line was not a JSON document.
    Decode,
}

} // verus!
