//! The error taxonomy of the endpoint client and the shape of a
//! transport collaborator's answer.

use vstd::prelude::*;

verus! {

/// Every way an operation can fail.
///
/// `Auth` is a signing/credential failure, `Transport` a network
/// failure propagated unchanged from the transport collaborator,
/// `Decode` a response body that does not match the expected schema,
/// and `NotFound` a well-formed request for which the service reports
/// no matching resource.
#[derive(Clone, Copy, PartialEq, Eq, Structural, Debug)]
pub enum Error {
    Auth,
    Transport,
    Decode,
    NotFound,
}

/// What the transport collaborator handed back for one request: the
/// response body, or a network failure.
#[derive(Clone, Debug)]
pub enum TransportReply {
    Body(String),
    Failed,
}

} // verus!
