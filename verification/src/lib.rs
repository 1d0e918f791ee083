//! In-process core of a paste-hosting service: a size-budgeted cache for
//! paste content with oldest-first eviction, and a per-client rate limiter
//! for paste submission. All operations take time as a plain value, so the
//! whole policy layer is verified; storage and HTTP live outside, and the
//! one clock read stands behind a trusted call.

pub mod cache;
pub mod clock;
pub mod index;
pub mod model;
pub mod ratelimit;
mod storage;
pub mod submission;

use vstd::prelude::*;

verus! {

/// Chooses the identity under which a client is rate limited: a
/// reverse-proxy-supplied client header when one is present, otherwise the
/// transport-level peer address. Honouring the header is only sound behind a
/// trusted proxy that overwrites it.
pub fn resolve_identity(header: Option<String>, peer: String) -> (r: String)
    ensures
        header is Some ==> r@ == header.unwrap()@,
        header is None ==> r@ == peer@,
{
    match header {
        Option::Some(h) => h,
        Option::None => peer,
    }
}

} // verus!
