//! A verified grocery-list service core: a name-to-quantity store with
//! overwrite and idempotent-delete semantics, the route table of the
//! HTTP surface, and the wire codec for request bodies and responses.

use vstd::prelude::*;

pub mod http;
pub mod laws;
pub mod parse;
pub mod render;
pub mod store;
pub mod strutil;

verus! {

/// The largest request body, in bytes, that a create-item request may carry.
pub const MAX_BODY_BYTES: usize = 16384;

} // verus!
