//! The runtime's side of the control plane.

pub mod client;
pub mod executor;
pub mod local;
pub mod primary;

pub use crate::digest::sha256_hex;

use vstd::prelude::*;

verus! {

/// The control request on whose behalf a message is sent.
#[derive(Debug)]
pub struct ControlRequestContext {
    request_id: String,
}

impl ControlRequestContext {
    /// The id of the request.
    pub closed spec fn id(&self) -> Seq<char> {
        self.request_id@
    }

    /// The context of request `request_id`.
    pub fn new(request_id: String) -> (r: Self)
        ensures
            r.id() == request_id@,
    {
        ControlRequestContext { request_id }
    }

    /// The id of the request.
    pub fn request_id(&self) -> (r: &str)
        ensures
            r@ == self.id(),
    {
        self.request_id.as_str()
    }
}

/// The id of the active request, when there is one.
pub fn request_id(active: Option<&ControlRequestContext>) -> (r: Option<String>)
    ensures
        r.deep_view() == match active {
            Some(c) => Some(c.id()),
            None => None,
        },
{
    match active {
        Some(c) => Some(c.request_id.clone()),
        None => None,
    }
}

} // verus!
