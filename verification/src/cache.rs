//! The content cache: a size-budgeted, write-through store of paste text in
//! front of the durable store. Entries carry the timestamp of their
//! insertion in an eviction index, and the sweeper trims oldest-first until
//! the aggregate size fits the budget.
//!
//! Eviction policy, stated once: this cache uses strict insertion-order
//! eviction. A read returns the stored content and does not refresh the
//! entry's timestamp, so a key's age is the time of its last `put`.
//! Overwriting a key re-stamps it and leaves the key's earlier record in the
//! index as a stale one; stale records are popped and skipped lazily by the
//! sweeper.

use vstd::prelude::*;
use vstd::string::StrSliceExecFns;

use crate::index::EvictionIndex;
use crate::index::popped_from;
use crate::index::popped_some;
use crate::model::empty_contents;
use crate::model::lemma_map_bytes_insert;
use crate::model::lemma_map_bytes_remove;
use crate::model::map_bytes;
use crate::storage::content_map;
use crate::storage::content_map_get;
use crate::storage::content_map_insert;
use crate::storage::content_map_new;
use crate::storage::content_map_remove;

verus! {

pub struct ExpiringCache {
    budget: Option<usize>,
    data: dashmap::DashMap<String, String>,
    index: EvictionIndex,
    bytes: usize,
}

/// One eviction step from `pre` to `post`: the record at `i`, one of the
/// oldest in the index, leaves it; if its key was live the entry leaves the
/// data map too and `evicted` names it, otherwise the record was stale and
/// nothing else changes.
pub open spec fn evict_step(
    pre: ExpiringCache,
    post: ExpiringCache,
    i: int,
    evicted: Option<String>,
) -> bool {
    &&& 0 <= i < pre.records().len()
    &&& post.records() == pre.records().remove(i)
    &&& (forall|j: int|
        0 <= j < pre.records().len() ==> pre.records()[i].0 <= #[trigger] pre.records()[j].0)
    &&& post.budget_opt() == pre.budget_opt()
    &&& (pre.contents().contains_key(pre.records()[i].1) ==> {
        &&& evicted is Some
        &&& evicted.unwrap()@ == pre.records()[i].1
        &&& post.contents() == pre.contents().remove(pre.records()[i].1)
    })
    &&& (!pre.contents().contains_key(pre.records()[i].1) ==> {
        &&& evicted is None
        &&& post.contents() == pre.contents()
    })
}

/// The index is in lockstep with the data map: one record per live key,
/// records only for live keys, and all stamps distinct. This is the shape
/// the cache has when every key was put once, at its own instant, and none
/// was overwritten since.
pub open spec fn tidy(c: ExpiringCache) -> bool {
    &&& forall|i: int|
        0 <= i < c.records().len() ==> c.contents().contains_key((#[trigger] c.records()[i]).1)
    &&& forall|i: int, j: int|
        0 <= i < c.records().len() && 0 <= j < c.records().len() && i != j ==> (
        #[trigger] c.records()[i]).1 != (#[trigger] c.records()[j]).1
    &&& forall|i: int, j: int|
        0 <= i < c.records().len() && 0 <= j < c.records().len() && i != j ==> (
        #[trigger] c.records()[i]).0 != (#[trigger] c.records()[j]).0
}

/// The stamp on `k`'s record in `recs`; meaningful when `k` has exactly one
/// record there.
pub open spec fn stamp_of(recs: Seq<(u64, Seq<char>)>, k: Seq<char>) -> u64 {
    recs[choose|i: int| 0 <= i < recs.len() && recs[i].1 == k].0
}

/// Eviction order: every key that left the cache between `pre` and `post`
/// is older — has a strictly smaller stamp — than every key that survived.
pub open spec fn evicted_oldest_first(pre: ExpiringCache, post: ExpiringCache) -> bool {
    forall|k: Seq<char>, k2: Seq<char>|
        #[trigger] pre.contents().contains_key(k) && !post.contents().contains_key(k)
            && #[trigger] post.contents().contains_key(k2) ==> stamp_of(pre.records(), k)
            < stamp_of(pre.records(), k2)
}

/// The key `k` was evicted between `pre` and `post`, and handing it back
/// its old content would put the cache over the budget `b` again: its
/// eviction was not gratuitous.
pub open spec fn over_budget_without(
    pre: ExpiringCache,
    post: ExpiringCache,
    b: usize,
    k: Seq<char>,
) -> bool {
    &&& pre.contents().contains_key(k)
    &&& !post.contents().contains_key(k)
    &&& map_bytes(post.contents().insert(k, pre.contents()[k])) > b
}

/// Some evicted key could not have been kept within the budget: the sweep
/// did not evict more than its stopping rule asks.
pub open spec fn some_eviction_was_needed(pre: ExpiringCache, post: ExpiringCache, b: usize) -> bool {
    exists|k: Seq<char>| over_budget_without(pre, post, b, k)
}

/// With all record keys distinct, whichever record holds `k` carries the
/// one stamp that `stamp_of` names.
proof fn lemma_stamp_unique(recs: Seq<(u64, Seq<char>)>, k: Seq<char>, i: int)
    requires
        0 <= i < recs.len(),
        recs[i].1 == k,
        forall|a: int, b: int|
            0 <= a < recs.len() && 0 <= b < recs.len() && a != b ==> (#[trigger] recs[a]).1 != (
            #[trigger] recs[b]).1,
    ensures
        stamp_of(recs, k) == recs[i].0,
{
    let c = choose|i2: int| 0 <= i2 < recs.len() && recs[i2].1 == k;
    assert(0 <= c < recs.len() && recs[c].1 == k);
    if c != i {
        assert(recs[c].1 != recs[i].1);
    }
}

impl ExpiringCache {
    /// The configured size budget.
    pub closed spec fn budget_opt(&self) -> Option<usize> {
        self.budget
    }

    /// Whether caching is configured at all; a cache constructed without a
    /// budget stores nothing.
    pub open spec fn enabled(&self) -> bool {
        self.budget_opt() is Some
    }

    /// What the cache holds: each live key mapped to its stored content.
    pub closed spec fn contents(&self) -> Map<Seq<char>, Seq<char>> {
        content_map(self.data)
    }

    /// The eviction records: `(timestamp, key)`, possibly with stale entries
    /// for keys that were since overwritten or removed.
    pub closed spec fn records(&self) -> Seq<(u64, Seq<char>)> {
        self.index@
    }

    /// Every live key is reachable from the index: eviction can always find
    /// a record for it.
    pub open spec fn covered(&self) -> bool {
        forall|k: Seq<char>| #[trigger]
            self.contents().contains_key(k) ==> exists|i: int|
                0 <= i < self.records().len() && #[trigger] self.records()[i].1 == k
    }

    /// Well-formedness: the tracked size is the aggregate of the contents,
    /// the index covers the data map, and a disabled cache stays empty.
    pub closed spec fn wf(&self) -> bool {
        &&& self.contents().dom().finite()
        &&& self.bytes == map_bytes(self.contents())
        &&& self.covered()
        &&& (!self.enabled() ==> self.contents() =~= empty_contents() && self.records().len() == 0)
    }

    /// Whether an insertion's outcome still has a representable aggregate
    /// size; on real inputs it always does.
    pub open spec fn put_fits(&self, key: Seq<char>, content: Seq<char>) -> bool {
        map_bytes(self.contents().insert(key, content)) <= usize::MAX
    }

    /// A cache with the given size budget; `None` disables caching and every
    /// later operation is a no-op.
    pub fn new(budget: Option<usize>) -> (c: Self)
        ensures
            c.wf(),
            c.budget_opt() == budget,
            c.enabled() <==> budget is Some,
            c.contents() =~= empty_contents(),
            c.records().len() == 0,
    {
        ExpiringCache { budget, data: content_map_new(), index: EvictionIndex::new(), bytes: 0 }
    }

    /// The configured budget, for the sweeper's owner: a sweeper is only
    /// started at all when this is `Some`.
    pub fn budget(&self) -> (b: Option<usize>)
        ensures
            b == self.budget_opt(),
    {
        self.budget
    }

    /// Inserts or overwrites the entry for `key`, stamped `now`, and records
    /// the stamp in the eviction index. No size policy is enforced here: the
    /// cache may transiently exceed its budget until the next sweep. Should
    /// the new aggregate size not be representable, the cache is left as it
    /// was: it is best-effort storage.
    pub fn put(&mut self, key: String, content: String, now: u64)
        requires
            old(self).wf(),
        ensures
            final(self).wf(),
            final(self).budget_opt() == old(self).budget_opt(),
            !old(self).enabled() ==> *final(self) == *old(self),
            old(self).enabled() && old(self).put_fits(key@, content@) ==> {
                &&& final(self).contents() == old(self).contents().insert(key@, content@)
                &&& final(self).records() == old(self).records().push((now, key@))
            },
            old(self).enabled() && !old(self).put_fits(key@, content@) ==> *final(self) == *old(
                self,
            ),
    {
        if self.budget.is_none() {
            return ;
        }
        let prior = content_map_get(&self.data, &key);
        let prior_len = match &prior {
            Some(p) => p.as_str().unicode_len(),
            None => 0,
        };
        proof {
            if self.contents().contains_key(key@) {
                lemma_map_bytes_remove(self.contents(), key@);
            }
            lemma_map_bytes_insert(self.contents(), key@, content@);
        }
        let reduced = self.bytes - prior_len;
        let added = content.as_str().unicode_len();
        match reduced.checked_add(added) {
            Some(total) => {
                let _ = content_map_insert(&mut self.data, key.clone(), content);
                self.index.push(now, key);
                self.bytes = total;
                proof {
                    let pre = *old(self);
                    assert forall|k: Seq<char>| #[trigger]
                        self.contents().contains_key(k) implies exists|i: int|
                        0 <= i < self.records().len() && #[trigger] self.records()[i].1 == k by {
                        if k == key@ {
                            assert(self.records()[self.records().len() - 1].1 == k);
                        } else {
                            let i = choose|i: int|
                                0 <= i < pre.records().len() && #[trigger] pre.records()[i].1 == k;
                            assert(self.records()[i].1 == k);
                        }
                    }
                }
            },
            None => {
                return ;
            },
        }
    }

    /// `put`, stamped by the service clock.
    pub fn put_now(&mut self, key: String, content: String)
        requires
            old(self).wf(),
        ensures
            final(self).wf(),
            final(self).budget_opt() == old(self).budget_opt(),
            !old(self).enabled() ==> *final(self) == *old(self),
            old(self).enabled() && old(self).put_fits(key@, content@) ==> {
                &&& final(self).contents() == old(self).contents().insert(key@, content@)
                &&& final(self).records().len() == old(self).records().len() + 1
                &&& final(self).records()[final(self).records().len() - 1].1 == key@
                &&& forall|j: int|
                    0 <= j < old(self).records().len() ==> final(self).records()[j] == old(
                    self,
                ).records()[j]
            },
            old(self).enabled() && !old(self).put_fits(key@, content@) ==> *final(self) == *old(
                self,
            ),
    {
        let t = crate::clock::now_seconds();
        self.put(key, content, t);
    }

    /// Looks the key up; a hit hands back the stored content, a miss (or a
    /// disabled cache) sends the caller to the durable store. Reads do not
    /// refresh the entry's stamp.
    pub fn get(&self, key: &String) -> (r: Option<String>)
        requires
            self.wf(),
        ensures
            r is Some <==> self.enabled() && self.contents().contains_key(key@),
            r is Some ==> r.unwrap()@ == self.contents()[key@],
    {
        if self.budget.is_none() {
            return None;
        }
        content_map_get(&self.data, key)
    }

    /// The aggregate size of everything stored, the sweeper's trigger
    /// signal. Content is measured in characters, an approximation of the
    /// byte footprint that is exact for ASCII text.
    pub fn size(&self) -> (n: usize)
        requires
            self.wf(),
        ensures
            n == map_bytes(self.contents()),
    {
        self.bytes
    }

    /// One eviction step, oldest record first. A stale record is popped and
    /// skipped without counting as an eviction; the step never fails on an
    /// empty or stale-exhausted index.
    pub fn evict_oldest(&mut self) -> (r: Option<String>)
        requires
            old(self).wf(),
        ensures
            final(self).wf(),
            final(self).budget_opt() == old(self).budget_opt(),
            old(self).records().len() == 0 ==> r is None && *final(self) == *old(self),
            old(self).records().len() > 0 ==> exists|i: int|
                evict_step(*old(self), *final(self), i, r),
    {
        let popped = self.index.pop_oldest();
        match popped {
            None => None,
            Some((ts, key)) => {
                proof {
                    assert(popped.unwrap() == (ts, key));
                    assert(popped_some(old(self).records(), self.records(), (ts, key@)));
                }
                let ghost i = choose|i: int|
                    popped_from(old(self).records(), self.records(), (ts, key@), i);
                let removed = content_map_remove(&mut self.data, &key);
                match removed {
                    Some(v) => {
                        let vlen = v.as_str().unicode_len();
                        proof {
                            lemma_map_bytes_remove(old(self).contents(), key@);
                        }
                        self.bytes = self.bytes - vlen;
                        proof {
                            self.lemma_covered_after_step(*old(self), i, key@);
                            assert(evict_step(*old(self), *self, i, Some(key)));
                        }
                        Some(key)
                    },
                    None => {
                        proof {
                            assert(self.contents() =~= old(self).contents());
                            self.lemma_covered_after_step(*old(self), i, key@);
                            assert(evict_step(*old(self), *self, i, None));
                        }
                        None
                    },
                }
            },
        }
    }

    /// After a step that dropped record `i` (whose key was `key`) and, at
    /// most, the entry for `key`, every live key still has a record.
    proof fn lemma_covered_after_step(&self, pre: ExpiringCache, i: int, key: Seq<char>)
        requires
            pre.covered(),
            0 <= i < pre.records().len(),
            pre.records()[i].1 == key,
            self.records() == pre.records().remove(i),
            !self.contents().contains_key(key),
            forall|k: Seq<char>|
                #[trigger] self.contents().contains_key(k) ==> pre.contents().contains_key(k),
        ensures
            self.covered(),
    {
        assert forall|k: Seq<char>| #[trigger] self.contents().contains_key(k) implies exists|
            j: int,
        | 0 <= j < self.records().len() && #[trigger] self.records()[j].1 == k by {
            let j0 = choose|j0: int|
                0 <= j0 < pre.records().len() && #[trigger] pre.records()[j0].1 == k;
            if j0 < i {
                assert(self.records()[j0].1 == k);
            } else {
                assert(j0 != i);
                assert(self.records()[j0 - 1].1 == k);
            }
        }
    }

    /// One sweeper cycle, run to quiescence: evicts oldest-first until the
    /// aggregate size is at or below the budget, stopping early only when
    /// the index has run out — and an index that has run out means, by
    /// well-formedness, that nothing is stored at all. A cache configured
    /// without a budget is left untouched. A sweep at or under budget
    /// evicts nothing, and one that evicted anything did so because the
    /// budget demanded it: some evicted entry could not have been kept.
    pub fn sweep(&mut self)
        requires
            old(self).wf(),
        ensures
            final(self).wf(),
            final(self).budget_opt() == old(self).budget_opt(),
            old(self).budget_opt() is None ==> *final(self) == *old(self),
            old(self).budget_opt() matches Some(b) ==> map_bytes(final(self).contents()) <= b,
            (old(self).budget_opt() matches Some(b) && map_bytes(old(self).contents()) <= b)
                ==> *final(self) == *old(self),
            forall|k: Seq<char>| #[trigger]
                final(self).contents().contains_key(k) ==> old(self).contents().contains_key(k)
                    && final(self).contents()[k] == old(self).contents()[k],
            old(self).budget_opt() matches Some(b) ==> (final(self).contents() != old(
                self,
            ).contents() ==> some_eviction_was_needed(*old(self), *final(self), b)),
            tidy(*old(self)) ==> evicted_oldest_first(*old(self), *final(self)),
    {
        let b = match self.budget {
            Some(b) => b,
            None => {
                return ;
            },
        };
        let ghost pre = *self;
        proof {
            assert forall|j: int| 0 <= j < pre.records().len() implies pre.records().contains(
                #[trigger] pre.records()[j],
            ) by {
                assert(pre.records()[j] == pre.records()[j]);
            }
        }
        loop
            invariant
                self.wf(),
                self.budget_opt() == pre.budget_opt(),
                pre.budget_opt() == Some(b),
                map_bytes(pre.contents()) <= b ==> *self == pre,
                forall|k: Seq<char>| #[trigger]
                    self.contents().contains_key(k) ==> pre.contents().contains_key(k)
                        && self.contents()[k] == pre.contents()[k],
                self.contents() != pre.contents() ==> some_eviction_was_needed(pre, *self, b),
                tidy(pre) ==> tidy(*self),
                tidy(pre) ==> forall|j: int|
                    0 <= j < self.records().len() ==> pre.records().contains(
                        #[trigger] self.records()[j],
                    ),
                tidy(pre) ==> forall|k: Seq<char>, j: int|
                    #[trigger] pre.contents().contains_key(k) && !self.contents().contains_key(k)
                        && 0 <= j < self.records().len() ==> stamp_of(pre.records(), k) < (
                    #[trigger] self.records()[j]).0,
            ensures
                self.wf(),
                self.budget_opt() == pre.budget_opt(),
                map_bytes(self.contents()) <= b,
                map_bytes(pre.contents()) <= b ==> *self == pre,
                forall|k: Seq<char>| #[trigger]
                    self.contents().contains_key(k) ==> pre.contents().contains_key(k)
                        && self.contents()[k] == pre.contents()[k],
                self.contents() != pre.contents() ==> some_eviction_was_needed(pre, *self, b),
                tidy(pre) ==> forall|j: int|
                    0 <= j < self.records().len() ==> pre.records().contains(
                        #[trigger] self.records()[j],
                    ),
                tidy(pre) ==> forall|k: Seq<char>, j: int|
                    #[trigger] pre.contents().contains_key(k) && !self.contents().contains_key(k)
                        && 0 <= j < self.records().len() ==> stamp_of(pre.records(), k) < (
                    #[trigger] self.records()[j]).0,
            decreases self.records().len(),
        {
            if self.size() <= b {
                break ;
            }
            if self.index.len() == 0 {
                proof {
                    self.lemma_uncovered_empty();
                }
                break ;
            }
            let ghost prev = *self;
            let stepped = self.evict_oldest();
            proof {
                let i = choose|i: int| evict_step(prev, *self, i, stepped);
                if tidy(pre) {
                    lemma_tidy_step(pre, prev, *self, i, stepped);
                }
                match stepped {
                    Option::Some(kx) => {
                        assert(self.contents() == prev.contents().remove(kx@));
                        assert(self.contents().insert(kx@, prev.contents()[kx@])
                            =~= prev.contents());
                        assert(pre.contents()[kx@] == prev.contents()[kx@]);
                        assert(over_budget_without(pre, *self, b, kx@));
                        assert(some_eviction_was_needed(pre, *self, b));
                    },
                    Option::None => {
                        assert(self.contents() == prev.contents());
                        if self.contents() != pre.contents() {
                            let kw = choose|kw: Seq<char>|
                                over_budget_without(pre, prev, b, kw);
                            assert(over_budget_without(pre, *self, b, kw));
                            assert(some_eviction_was_needed(pre, *self, b));
                        }
                    },
                }
            }
        }
        proof {
            if tidy(pre) {
                assert forall|k: Seq<char>, k2: Seq<char>|
                    #[trigger] pre.contents().contains_key(k) && !self.contents().contains_key(k)
                        && #[trigger] self.contents().contains_key(k2) implies stamp_of(
                    pre.records(),
                    k,
                ) < stamp_of(pre.records(), k2) by {
                    let j = choose|j: int|
                        0 <= j < self.records().len() && #[trigger] self.records()[j].1 == k2;
                    let rec2 = self.records()[j];
                    assert(pre.records().contains(rec2));
                    let m = choose|m: int|
                        0 <= m < pre.records().len() && pre.records()[m] == rec2;
                    lemma_stamp_unique(pre.records(), k2, m);
                    assert(stamp_of(pre.records(), k) < rec2.0);
                }
            }
        }
    }

    /// A well-formed cache whose index has run out holds nothing: every
    /// live key keeps a record, so no records means no keys.
    proof fn lemma_uncovered_empty(&self)
        requires
            self.wf(),
            self.records().len() == 0,
        ensures
            map_bytes(self.contents()) == 0,
    {
        assert(self.contents().dom() =~= Set::empty()) by {
            if exists|k: Seq<char>| self.contents().dom().contains(k) {
                let k = choose|k: Seq<char>| self.contents().dom().contains(k);
                assert(self.contents().contains_key(k));
            }
        }
    }
}

/// Cache coherence: the state a `put` of `(k, v)` reaches holds `v` under
/// `k`, so an immediately following `get` of `k`, with no eviction of `k`
/// in between, returns `(v, true)` — `get` hands back exactly what the
/// contents hold.
pub proof fn lemma_put_then_get(
    pre: ExpiringCache,
    post: ExpiringCache,
    k: Seq<char>,
    v: Seq<char>,
)
    requires
        post.contents() == pre.contents().insert(k, v),
    ensures
        post.contents().contains_key(k),
        post.contents()[k] == v,
{
}

/// A disabled cache is a no-op: it stores nothing, so after any `put` a
/// `get` of the same key still misses.
pub proof fn lemma_disabled_cache_misses(c: ExpiringCache, k: Seq<char>)
    requires
        c.wf(),
        !c.enabled(),
    ensures
        !c.contents().contains_key(k),
{
}

/// A tidy eviction step, relative to a sweep that started at `pre` and has
/// reached `prev`: the record the step pops is live and carries the least
/// remaining stamp, so what it evicts is older than every record it leaves,
/// and the index stays tidy.
proof fn lemma_tidy_step(
    pre: ExpiringCache,
    prev: ExpiringCache,
    cur: ExpiringCache,
    i: int,
    r: Option<String>,
)
    requires
        tidy(pre),
        tidy(prev),
        evict_step(prev, cur, i, r),
        forall|j: int|
            0 <= j < prev.records().len() ==> pre.records().contains(#[trigger] prev.records()[j]),
        forall|k: Seq<char>|
            #[trigger] prev.contents().contains_key(k) ==> pre.contents().contains_key(k),
        forall|k: Seq<char>, j: int|
            #[trigger] pre.contents().contains_key(k) && !prev.contents().contains_key(k) && 0 <= j
                < prev.records().len() ==> stamp_of(pre.records(), k) < (
            #[trigger] prev.records()[j]).0,
    ensures
        tidy(cur),
        forall|j: int|
            0 <= j < cur.records().len() ==> pre.records().contains(#[trigger] cur.records()[j]),
        forall|k: Seq<char>, j: int|
            #[trigger] pre.contents().contains_key(k) && !cur.contents().contains_key(k) && 0 <= j
                < cur.records().len() ==> stamp_of(pre.records(), k) < (
            #[trigger] cur.records()[j]).0,
{
    let rx = prev.records()[i];
    let kx = rx.1;
    assert(prev.contents().contains_key(kx));
    assert(cur.contents() == prev.contents().remove(kx));
    prev.records().remove_ensures(i);
    assert forall|j: int| 0 <= j < cur.records().len() implies (#[trigger] cur.records()[j])
        == prev.records()[
        if j < i {
            j
        } else {
            j + 1
        }
    ] by {}
    assert forall|j: int| 0 <= j < cur.records().len() implies cur.contents().contains_key(
        (#[trigger] cur.records()[j]).1,
    ) by {
        let j0: int = if j < i {
            j
        } else {
            j + 1
        };
        assert(cur.records()[j] == prev.records()[j0]);
        assert(prev.contents().contains_key(prev.records()[j0].1));
        assert(prev.records()[j0].1 != kx);
    }
    assert forall|a: int, b: int|
        0 <= a < cur.records().len() && 0 <= b < cur.records().len() && a != b implies (
    #[trigger] cur.records()[a]).1 != (#[trigger] cur.records()[b]).1 by {
        let a0: int = if a < i {
            a
        } else {
            a + 1
        };
        let b0: int = if b < i {
            b
        } else {
            b + 1
        };
        assert(cur.records()[a] == prev.records()[a0]);
        assert(cur.records()[b] == prev.records()[b0]);
    }
    assert forall|a: int, b: int|
        0 <= a < cur.records().len() && 0 <= b < cur.records().len() && a != b implies (
    #[trigger] cur.records()[a]).0 != (#[trigger] cur.records()[b]).0 by {
        let a0: int = if a < i {
            a
        } else {
            a + 1
        };
        let b0: int = if b < i {
            b
        } else {
            b + 1
        };
        assert(cur.records()[a] == prev.records()[a0]);
        assert(cur.records()[b] == prev.records()[b0]);
    }
    assert forall|j: int| 0 <= j < cur.records().len() implies pre.records().contains(
        #[trigger] cur.records()[j],
    ) by {
        let j0: int = if j < i {
            j
        } else {
            j + 1
        };
        assert(cur.records()[j] == prev.records()[j0]);
        assert(pre.records().contains(prev.records()[j0]));
    }
    assert forall|k: Seq<char>, j: int|
        #[trigger] pre.contents().contains_key(k) && !cur.contents().contains_key(k) && 0 <= j
            < cur.records().len() implies stamp_of(pre.records(), k) < (
    #[trigger] cur.records()[j]).0 by {
        let j0: int = if j < i {
            j
        } else {
            j + 1
        };
        assert(cur.records()[j] == prev.records()[j0]);
        if prev.contents().contains_key(k) {
            assert(k == kx);
            assert(pre.records().contains(rx));
            let m = choose|m: int| 0 <= m < pre.records().len() && pre.records()[m] == rx;
            lemma_stamp_unique(pre.records(), kx, m);
            assert(rx.0 <= prev.records()[j0].0);
            assert(rx.0 != prev.records()[j0].0);
        } else {
            assert(stamp_of(pre.records(), k) < prev.records()[j0].0);
        }
    }
}

} // verus!
