//! What can go wrong.

use vstd::prelude::*;

verus! {

/// An error of the tunnel or of its control plane.
#[derive(Debug)]
pub enum Error {
    /// The portal closed the connection, or the token has expired. The
    /// client has to disconnect.
    ClosedByPortal,
    /// The upstream resolver failed; the text says how.
    Resolve(String),
    /// A record handed over by the resolver could not be read.
    BadRecord,
    /// The reply to a query could not be encoded.
    Encode,
    /// The tunnel or the platform refused an operation; the text says how.
    Other(String),
}

} // verus!
