use vstd::prelude::*;

verus! {

/// The ways a parse session can fail.
///
/// - `IncompleteStream`: the byte source ended before the terminal boundary
///   marker was seen, while the session was between parts.
/// - `IncompleteFieldData`: the byte source ended in the middle of a part's
///   body, before that part's closing boundary was seen.
/// - `IncompleteHeaders`: a part's header block is not terminated by a blank
///   line before the source ends.
/// - `ReadHeaderFailed`: a header line cannot be split into a name and a
///   value at a colon.
/// - `DecodeJson`: a part's body could not be parsed as a JSON value.
/// - `LockFailure`: exclusive access to the shared parse state was claimed
///   by a handle that no longer owns it (a stale [`crate::Field`]).
#[derive(Clone, Copy, PartialEq, Eq, Structural, Debug)]
pub enum Error {
    IncompleteStream,
    IncompleteFieldData,
    IncompleteHeaders,
    ReadHeaderFailed,
    DecodeJson,
    LockFailure,
}

} // verus!
