//! The per-client rate limiter: one timestamp per client identity, the
//! moment of its most recently admitted submission. A new submission is
//! admitted when the configured minimum interval has passed since then;
//! otherwise the client is told how many seconds remain. Without a
//! configured interval the limiter admits everything and keeps no state.

use vstd::prelude::*;

use crate::model::empty_stamps;
use crate::storage::stamp_map;
use crate::storage::stamp_map_get;
use crate::storage::stamp_map_insert;
use crate::storage::stamp_map_new;

verus! {

/// The identity's last accepted stamp, if it has one.
pub open spec fn last_of(m: Map<Seq<char>, u64>, k: Seq<char>) -> Option<u64> {
    if m.contains_key(k) {
        Option::Some(m[k])
    } else {
        Option::None
    }
}

/// The decision for one admission attempt: given the configured minimum
/// interval, the identity's last accepted stamp and the current time,
/// either admission or the number of seconds left to wait. A clock that
/// seems to have gone backwards counts as no time elapsed.
pub open spec fn admit_decision(interval: Option<u64>, last: Option<u64>, now: u64) -> Result<
    (),
    u64,
> {
    match interval {
        Option::None => Result::Ok(()),
        Option::Some(iv) => match last {
            Option::None => Result::Ok(()),
            Option::Some(t) => {
                let elapsed: int = if now >= t {
                    now - t
                } else {
                    0
                };
                if elapsed >= iv {
                    Result::Ok(())
                } else {
                    Result::Err((iv - elapsed) as u64)
                }
            },
        },
    }
}

pub struct RateLimiter {
    interval: Option<u64>,
    table: dashmap::DashMap<String, u64>,
}

impl RateLimiter {
    /// The configured minimum spacing between admitted submissions, in
    /// seconds.
    pub closed spec fn interval_opt(&self) -> Option<u64> {
        self.interval
    }

    /// Whether an interval is configured at all.
    pub open spec fn enabled(&self) -> bool {
        self.interval_opt() is Some
    }

    /// What the limiter tracks: each identity's last accepted stamp.
    pub closed spec fn stamps(&self) -> Map<Seq<char>, u64> {
        stamp_map(self.table)
    }

    /// A disabled limiter does no bookkeeping, so its table stays empty.
    pub closed spec fn wf(&self) -> bool {
        !self.enabled() ==> self.stamps() =~= empty_stamps()
    }

    /// A limiter enforcing the given minimum interval; `None` disables rate
    /// limiting entirely.
    pub fn new(interval: Option<u64>) -> (rl: Self)
        ensures
            rl.wf(),
            rl.interval_opt() == interval,
            rl.enabled() <==> interval is Some,
            rl.stamps() =~= empty_stamps(),
    {
        RateLimiter { interval, table: stamp_map_new() }
    }

    /// One admission attempt: admits an identity never seen, or one whose
    /// last admission lies at least the configured interval in the past,
    /// and stamps it with `now`; rejects otherwise with the seconds left to
    /// wait. Disabled, it admits without bookkeeping.
    pub fn try_admit(&mut self, identity: &String, now: u64) -> (r: Result<(), u64>)
        requires
            old(self).wf(),
        ensures
            final(self).wf(),
            final(self).interval_opt() == old(self).interval_opt(),
            r == admit_decision(
                old(self).interval_opt(),
                last_of(old(self).stamps(), identity@),
                now,
            ),
            !old(self).enabled() ==> *final(self) == *old(self),
            r is Err ==> *final(self) == *old(self),
            old(self).enabled() && r is Ok ==> final(self).stamps() == old(self).stamps().insert(
                identity@,
                now,
            ),
    {
        let iv = match self.interval {
            Some(iv) => iv,
            None => {
                return Ok(());
            },
        };
        match stamp_map_get(&self.table, identity) {
            Some(last) => {
                let elapsed = if now >= last {
                    now - last
                } else {
                    0
                };
                if elapsed < iv {
                    return Err(iv - elapsed);
                }
            },
            None => {},
        }
        stamp_map_insert(&mut self.table, identity.clone(), now);
        Ok(())
    }

    /// `try_admit`, against the service clock.
    pub fn admit_now(&mut self, identity: &String) -> (r: Result<(), u64>)
        requires
            old(self).wf(),
        ensures
            final(self).wf(),
            final(self).interval_opt() == old(self).interval_opt(),
            !old(self).enabled() ==> r is Ok && *final(self) == *old(self),
            r is Err ==> *final(self) == *old(self),
            old(self).enabled() && r is Ok ==> {
                &&& final(self).stamps().contains_key(identity@)
                &&& final(self).stamps().dom() == old(self).stamps().dom().insert(identity@)
                &&& forall|k: Seq<char>|
                    #[trigger] old(self).stamps().contains_key(k) && k != identity@
                        ==> final(self).stamps()[k] == old(self).stamps()[k]
            },
    {
        let t = crate::clock::now_seconds();
        self.try_admit(identity, t)
    }
}

/// With no interval configured, every admission attempt succeeds, whatever
/// the identity's history and however often it is repeated — `admit` also
/// leaves a disabled limiter's state untouched, so consecutive attempts all
/// see the same decision.
pub proof fn lemma_disabled_limiter_admits(last: Option<u64>, now: u64)
    ensures
        admit_decision(Option::None, last, now) is Ok,
{
}

} // verus!
