use vstd::prelude::*;

verus! {

/// The reply to a proxied request: the bytes to write back to its connection.
pub struct Response {
    pub contents: Vec<u8>,
}

/// Why the manager could not take a request.
#[derive(Debug, Clone, Copy, PartialEq, Eq, Structural)]
pub enum ManagerError {
    SubmitRequestFailure,
}

} // verus!
