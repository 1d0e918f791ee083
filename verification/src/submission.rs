//! Submission screening: admission and size policy in the order the
//! service applies them, the expiry stamp a fresh paste gets, and the
//! short random key it is stored under.

use vstd::prelude::*;

use crate::ratelimit::RateLimiter;
use crate::ratelimit::admit_decision;
use crate::ratelimit::last_of;

verus! {

/// How long a paste stays valid: one week, in seconds.
pub const PASTE_TTL_SECONDS: u64 = 604800;

/// How many characters a paste key has.
pub const KEY_LENGTH: usize = 8;

/// Why a submission was turned away.
#[derive(Clone, Copy, Debug, PartialEq, Eq, Structural)]
pub enum SubmitRejection {
    /// Rate limited; the payload is how many seconds remain until the
    /// client may try again.
    RateLimited(u64),
    /// The declared content length exceeds the configured size limit.
    PasteTooLarge,
}

/// The ceiling for a submission's declared length: the configured limit in
/// KiB — 1024 KiB when none is set — converted to bytes.
pub open spec fn max_paste_bytes(size_limit: Option<u64>) -> int {
    (match size_limit {
        Option::Some(l) => l as int,
        Option::None => 1024,
    }) * 1024
}

/// Checks a submission's declared length against the configured limit.
pub fn paste_within_limit(length: u64, size_limit: Option<u64>) -> (r: bool)
    ensures
        r == (length <= max_paste_bytes(size_limit)),
{
    let kib = match size_limit {
        Some(l) => l,
        None => 1024,
    };
    match kib.checked_mul(1024) {
        Some(limit) => length <= limit,
        None => true,
    }
}

/// When a paste submitted at `now` stops being served; `None` only when
/// the stamp would not fit, which the service treats as a bad request.
pub fn expiry_timestamp(now: u64) -> (r: Option<u64>)
    ensures
        r is Some <==> now + PASTE_TTL_SECONDS <= u64::MAX,
        r is Some ==> r.unwrap() == now + PASTE_TTL_SECONDS,
{
    now.checked_add(PASTE_TTL_SECONDS)
}

/// Screens one submission, in the order the service checks it: the rate
/// limiter decides first — a rejected client learns how long to wait —
/// then the declared length is held against the size limit. Admission
/// bookkeeping happens before the size check, so an oversized submission
/// still uses up the client's slot.
pub fn gate_submission(
    limiter: &mut RateLimiter,
    identity: &String,
    now: u64,
    content_length: u64,
    size_limit: Option<u64>,
) -> (r: Result<(), SubmitRejection>)
    requires
        old(limiter).wf(),
    ensures
        final(limiter).wf(),
        final(limiter).interval_opt() == old(limiter).interval_opt(),
        ({
            let d = admit_decision(
                old(limiter).interval_opt(),
                last_of(old(limiter).stamps(), identity@),
                now,
            );
            &&& (d matches Err(s) ==> r == Result::<(), SubmitRejection>::Err(
                SubmitRejection::RateLimited(s),
            ) && *final(limiter) == *old(limiter))
            &&& (d is Ok && content_length > max_paste_bytes(size_limit) ==> r == Result::<
                (),
                SubmitRejection,
            >::Err(SubmitRejection::PasteTooLarge))
            &&& (d is Ok && content_length <= max_paste_bytes(size_limit) ==> r is Ok)
            &&& (d is Ok && old(limiter).enabled() ==> final(limiter).stamps() == old(
                limiter,
            ).stamps().insert(identity@, now))
            &&& (d is Ok && !old(limiter).enabled() ==> *final(limiter) == *old(limiter))
        }),
{
    match limiter.try_admit(identity, now) {
        Err(wait) => Err(SubmitRejection::RateLimited(wait)),
        Ok(()) => {
            if paste_within_limit(content_length, size_limit) {
                Ok(())
            } else {
                Err(SubmitRejection::PasteTooLarge)
            }
        },
    }
}

/// The alphabet paste keys are drawn from.
pub open spec fn key_alphabet() -> Seq<char> {
    "ABCDEFGHIJKLMNOPQRSTUVWXYZabcdefghijklmnopqrstuvwxyz1234567890"@
}

/// Relies on random_string::generate: the result has exactly the requested
/// length and every one of its characters is drawn from the given charset.
/// The call panics only on an empty charset, which the precondition rules
/// out; which characters come back depends on a random source, so no more
/// is stated.
#[verifier::external_body]
fn random_from(length: usize, charset: &str) -> (r: String)
    requires
        charset@.len() > 0,
    ensures
        r@.len() == length,
        forall|i: int| 0 <= i < r@.len() ==> charset@.contains(#[trigger] r@[i]),
{
    random_string::generate(length, charset)
}

/// A fresh paste key: eight characters drawn from the alphanumeric
/// alphabet. Keys are random, not reserved — uniqueness across the store
/// is the caller's concern.
pub fn new_paste_key() -> (r: String)
    ensures
        r@.len() == KEY_LENGTH,
        forall|i: int| 0 <= i < r@.len() ==> key_alphabet().contains(#[trigger] r@[i]),
{
    let charset = "ABCDEFGHIJKLMNOPQRSTUVWXYZabcdefghijklmnopqrstuvwxyz1234567890";
    proof {
        reveal_strlit("ABCDEFGHIJKLMNOPQRSTUVWXYZabcdefghijklmnopqrstuvwxyz1234567890");
    }
    random_from(KEY_LENGTH, charset)
}

} // verus!
