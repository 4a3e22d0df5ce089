//! A streaming parser for multipart bodies: a byte stream holding a sequence
//! of boundary-delimited parts, each with a header block and a body.
//!
//! The caller feeds chunks of the incoming stream into a [`Multipart`]
//! session and pulls parts out of it; each part's body is in turn pulled
//! chunk by chunk through a [`Field`] handle.

use vstd::prelude::*;

pub mod buffer;
pub mod codec;
pub mod error;
pub mod field;
pub mod headers;
pub mod multipart;

pub use error::Error;
pub use field::{ContentType, Field};
pub use headers::Headers;
pub use multipart::{Multipart, StreamingStage};

verus! {

/// The outcome of one pull on a lazily produced value: either the value is
/// ready, or more bytes must be fed into the session first.
pub enum Pulled<T> {
    Ready(T),
    Pending,
}

} // verus!
