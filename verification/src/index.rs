//! The eviction index: an advisory ordering structure of `(timestamp, key)`
//! records, oldest first. The data map is the source of truth; the index may
//! carry stale records for keys that were already dropped, and the sweeper
//! skips those lazily. Records are kept unordered and the oldest is found by
//! a scan when it is asked for.

use vstd::prelude::*;

verus! {

pub struct EvictionIndex {
    recs: Vec<(u64, String)>,
}

/// `post` is `pre` with the record at `i` — which is `rec` — taken out.
pub open spec fn popped_from(
    pre: Seq<(u64, Seq<char>)>,
    post: Seq<(u64, Seq<char>)>,
    rec: (u64, Seq<char>),
    i: int,
) -> bool {
    &&& 0 <= i < pre.len()
    &&& pre[i] == rec
    &&& post == pre.remove(i)
}

/// `post` is `pre` with one record — `rec` — taken out at some position.
pub open spec fn popped_some(
    pre: Seq<(u64, Seq<char>)>,
    post: Seq<(u64, Seq<char>)>,
    rec: (u64, Seq<char>),
) -> bool {
    exists|i: int| popped_from(pre, post, rec, i)
}

impl View for EvictionIndex {
    type V = Seq<(u64, Seq<char>)>;

    closed spec fn view(&self) -> Seq<(u64, Seq<char>)> {
        self.recs@.map_values(|p: (u64, String)| (p.0, p.1@))
    }
}

impl EvictionIndex {
    pub fn new() -> (s: Self)
        ensures
            s@.len() == 0,
    {
        EvictionIndex { recs: Vec::new() }
    }

    pub fn len(&self) -> (n: usize)
        ensures
            n == self@.len(),
    {
        self.recs.len()
    }

    /// Records that the key was stored at the given time.
    pub fn push(&mut self, ts: u64, key: String)
        ensures
            final(self)@ == old(self)@.push((ts, key@)),
    {
        self.recs.push((ts, key));
        proof {
            assert(final(self)@ =~= old(self)@.push((ts, key@)));
        }
    }

    /// Takes out a record whose timestamp is the smallest in the index; ties
    /// among equally old records are broken arbitrarily.
    pub fn pop_oldest(&mut self) -> (r: Option<(u64, String)>)
        ensures
            old(self)@.len() == 0 ==> r is None && *final(self) == *old(self),
            old(self)@.len() > 0 ==> r is Some,
            r matches Some(rec) ==> {
                &&& popped_some(old(self)@, final(self)@, (rec.0, rec.1@))
                &&& forall|j: int| 0 <= j < old(self)@.len() ==> rec.0 <= old(self)@[j].0
            },
    {
        if self.recs.len() == 0 {
            return None;
        }
        let ghost orig = self@;
        let mut best: usize = 0;
        let mut i: usize = 1;
        while i < self.recs.len()
            invariant
                0 <= best < i <= self.recs.len(),
                self@ == orig,
                forall|j: int| 0 <= j < i ==> self.recs@[best as int].0 <= self.recs@[j].0,
            decreases self.recs.len() - i,
        {
            if self.recs[i].0 < self.recs[best].0 {
                best = i;
            }
            i = i + 1;
        }
        let rec = self.recs.remove(best);
        proof {
            assert(orig[best as int] == (rec.0, rec.1@));
            assert(self@ =~= orig.remove(best as int));
            assert(popped_from(orig, self@, (rec.0, rec.1@), best as int));
            assert(popped_some(orig, self@, (rec.0, rec.1@)));
            assert(forall|j: int| 0 <= j < orig.len() ==> rec.0 <= orig[j].0);
        }
        Some(rec)
    }
}

} // verus!
