//! The decisions of a cache of results by key.
//!
//! The cache holds what was fetched for a key, for as long as it is fresh, and lets at most
//! one fetch for a key go on at a time. It fetches nothing itself and reads no clock: whoever
//! drives it asks what to do for a key at a time ([`RequestCacheMap::access`]), does that, and
//! hands in what a fetch brought ([`RequestCacheMap::complete`]).
use crate::text::same_text;
use vstd::prelude::*;

verus! {

/// A computed value with the time at which it was stored and the time for which it is kept.
pub struct CacheEntry<T> {
    pub value: T,
    pub created_at: u64,
    pub ttl: u64,
}

/// What the cache holds for one key.
pub enum Slot<T> {
    /// Nothing, and nobody is fetching.
    Idle,
    /// Nothing yet: a fetch is on its way.
    InFlight,
    /// The outcome of the last fetch.
    Stored(CacheEntry<T>),
}

/// What the caller of [`RequestCacheMap::access`] has to do.
#[derive(Debug, Clone, Copy, PartialEq, Eq)]
pub enum CacheAction {
    /// Take the stored value.
    Hit,
    /// Wait for the fetch that is on its way, and take what it brings.
    Join,
    /// Fetch, and hand the outcome to [`RequestCacheMap::complete`].
    Start,
}

/// Whether `entry` is still kept at the time `now`.
pub open spec fn is_fresh<T>(entry: CacheEntry<T>, now: u64) -> bool {
    now < entry.created_at + entry.ttl
}

/// What an access at the time `now` does to a slot, and what it asks of the caller.
pub open spec fn access_step<T>(slot: Slot<T>, now: u64) -> (CacheAction, Slot<T>) {
    match slot {
        Slot::Stored(entry) => if is_fresh(entry, now) {
            (CacheAction::Hit, slot)
        } else {
            (CacheAction::Start, Slot::InFlight)
        },
        Slot::InFlight => (CacheAction::Join, Slot::InFlight),
        Slot::Idle => (CacheAction::Start, Slot::InFlight),
    }
}

/// The slot after a fetch has brought `value` at the time `now`: a failure is kept for
/// `retry_ttl`, anything else for `fresh_ttl`.
pub open spec fn complete_step<T>(
    value: T,
    failed: bool,
    now: u64,
    fresh_ttl: u64,
    retry_ttl: u64,
) -> Slot<T> {
    Slot::Stored(
        CacheEntry {
            value,
            created_at: now,
            ttl: if failed {
                retry_ttl
            } else {
                fresh_ttl
            },
        },
    )
}

/// The slot after accesses at the times `times`, one after the other.
pub open spec fn after_accesses<T>(slot: Slot<T>, times: Seq<u64>) -> Slot<T>
    decreases times.len(),
{
    if times.len() == 0 {
        slot
    } else {
        access_step(after_accesses(slot, times.drop_last()), times.last()).1
    }
}

/// Single flight: once an access has been told to fetch, every access that follows, however
/// many there are and whenever they come, is told to wait, until the fetch is completed.
pub proof fn lemma_single_flight<T>(slot: Slot<T>, now: u64, times: Seq<u64>, k: int)
    requires
        access_step(slot, now).0 == CacheAction::Start,
        0 <= k < times.len(),
    ensures
        after_accesses(access_step(slot, now).1, times.subrange(0, k)) == Slot::<T>::InFlight,
        access_step(after_accesses(access_step(slot, now).1, times.subrange(0, k)), times[k]).0
            == CacheAction::Join,
    decreases k,
{
    let started = access_step(slot, now).1;
    assert(started == Slot::<T>::InFlight);
    if k > 0 {
        lemma_single_flight(slot, now, times, k - 1);
        assert(times.subrange(0, k).drop_last() =~= times.subrange(0, k - 1));
        assert(times.subrange(0, k).last() == times[k - 1]);
    }
}

/// A result that is no failure is handed out for `fresh_ttl`, and fetched anew after that.
pub proof fn lemma_success_is_kept<T>(value: T, stored: u64, fresh_ttl: u64, retry_ttl: u64, now: u64)
    ensures
        ({
            let slot = complete_step(value, false, stored, fresh_ttl, retry_ttl);
            &&& now < stored + fresh_ttl ==> access_step(slot, now) == (CacheAction::Hit, slot)
            &&& now >= stored + fresh_ttl ==> access_step(slot, now) == (
                CacheAction::Start,
                Slot::<T>::InFlight,
            )
        }),
{
}

/// A failure is fetched anew once `retry_ttl` has passed, whether or not `fresh_ttl` has.
pub proof fn lemma_failure_is_retried<T>(
    value: T,
    stored: u64,
    fresh_ttl: u64,
    retry_ttl: u64,
    now: u64,
)
    requires
        now >= stored + retry_ttl,
    ensures
        access_step(complete_step(value, true, stored, fresh_ttl, retry_ttl), now) == (
            CacheAction::Start,
            Slot::<T>::InFlight,
        ),
{
}

/// A cache of results by key, with one time to keep results and another, mostly shorter, to
/// keep failures. Times are counted in milliseconds from a start that the caller chooses.
pub struct RequestCacheMap<T> {
    fresh_ttl: u64,
    retry_ttl: u64,
    keys: Vec<String>,
    slots: Vec<Slot<T>>,
}

fn times(amount: u64, unit: u64) -> (r: u64)
    ensures
        r == if amount * unit <= u64::MAX {
            amount * unit
        } else {
            u64::MAX as int
        },
{
    match amount.checked_mul(unit) {
        Some(r) => r,
        None => u64::MAX,
    }
}

impl<T> RequestCacheMap<T> {
    /// Whether the cache is in order: it holds each key once.
    pub closed spec fn well_formed(&self) -> bool {
        &&& self.keys@.len() == self.slots@.len()
        &&& forall|i: int, j: int|
            0 <= i < j < self.keys@.len() ==> (#[trigger] self.keys@[i])@ != (
            #[trigger] self.keys@[j])@
    }

    /// The time for which a result is kept.
    pub closed spec fn fresh_ttl(&self) -> u64 {
        self.fresh_ttl
    }

    /// The time for which a failure is kept.
    pub closed spec fn retry_ttl(&self) -> u64 {
        self.retry_ttl
    }

    spec fn place(&self, key: Seq<char>, i: int) -> bool {
        0 <= i < self.keys@.len() && self.keys@[i]@ == key
    }

    /// What the cache holds for `key`.
    pub closed spec fn slot(&self, key: Seq<char>) -> Slot<T> {
        if exists|i: int| self.place(key, i) {
            self.slots@[choose|i: int| self.place(key, i)]
        } else {
            Slot::Idle
        }
    }

    /// An empty cache that keeps results for `fresh_ttl` milliseconds and failures for
    /// `retry_ttl` milliseconds.
    pub fn new_millis(fresh_ttl: u64, retry_ttl: u64) -> (r: Self)
        ensures
            r.well_formed(),
            r.fresh_ttl() == fresh_ttl,
            r.retry_ttl() == retry_ttl,
            forall|key: Seq<char>| #[trigger] r.slot(key) == Slot::<T>::Idle,
    {
        RequestCacheMap { fresh_ttl, retry_ttl, keys: Vec::new(), slots: Vec::new() }
    }

    /// An empty cache that keeps results for `fresh` seconds and failures for `retry` seconds;
    /// a time beyond what can be counted is kept as the longest time that can.
    pub fn new_secs(fresh: u64, retry: u64) -> (r: Self)
        ensures
            r.well_formed(),
            r.fresh_ttl() == if fresh * 1000 <= u64::MAX {
                fresh * 1000
            } else {
                u64::MAX as int
            },
            r.retry_ttl() == if retry * 1000 <= u64::MAX {
                retry * 1000
            } else {
                u64::MAX as int
            },
            forall|key: Seq<char>| #[trigger] r.slot(key) == Slot::<T>::Idle,
    {
        Self::new_millis(times(fresh, 1000), times(retry, 1000))
    }

    /// An empty cache that keeps results for `fresh` minutes and failures for `retry` minutes;
    /// a time beyond what can be counted is kept as the longest time that can.
    pub fn new_mins(fresh: u64, retry: u64) -> (r: Self)
        ensures
            r.well_formed(),
            r.fresh_ttl() == if fresh * 60000 <= u64::MAX {
                fresh * 60000
            } else {
                u64::MAX as int
            },
            r.retry_ttl() == if retry * 60000 <= u64::MAX {
                retry * 60000
            } else {
                u64::MAX as int
            },
            forall|key: Seq<char>| #[trigger] r.slot(key) == Slot::<T>::Idle,
    {
        Self::new_millis(times(fresh, 60000), times(retry, 60000))
    }

    /// The time in milliseconds for which a result is kept.
    pub fn fresh_millis(&self) -> (r: u64)
        ensures
            r == self.fresh_ttl(),
    {
        self.fresh_ttl
    }

    /// The time in milliseconds for which a failure is kept.
    pub fn retry_millis(&self) -> (r: u64)
        ensures
            r == self.retry_ttl(),
    {
        self.retry_ttl
    }

    fn find(&self, key: &str) -> (r: Option<usize>)
        requires
            self.well_formed(),
        ensures
            match r {
                Some(i) => self.place(key@, i as int) && self.slot(key@) == self.slots@[i as int],
                None => self.slot(key@) == Slot::<T>::Idle && forall|i: int| !self.place(key@, i),
            },
    {
        let mut i: usize = 0;
        while i < self.keys.len()
            invariant
                i <= self.keys.len(),
                self.well_formed(),
                forall|k: int| 0 <= k < i ==> !self.place(key@, k),
            decreases self.keys.len() - i,
        {
            if same_text(self.keys[i].as_str(), key) {
                proof {
                    assert(self.place(key@, i as int));
                    let c = choose|c: int| self.place(key@, c);
                    if c < i {
                        assert(!self.place(key@, c));
                    } else if c > i {
                        assert(self.keys@[i as int]@ != self.keys@[c]@);
                    }
                    assert(c == i);
                }
                return Some(i);
            }
            i = i + 1;
        }
        None
    }

    /// Decides what is to be done for `key` at the time `now`.
    ///
    /// A stored value that is still fresh is a hit. Else a fetch that is on its way is to be
    /// joined; where there is none, the caller is to fetch, the slot is marked, and what was
    /// stored is dropped. No other key is touched.
    pub fn access(&mut self, key: &str, now: u64) -> (r: CacheAction)
        requires
            old(self).well_formed(),
        ensures
            final(self).well_formed(),
            (r, final(self).slot(key@)) == access_step(old(self).slot(key@), now),
            forall|other: Seq<char>|
                other != key@ ==> #[trigger] final(self).slot(other) == old(self).slot(other),
            final(self).fresh_ttl() == old(self).fresh_ttl(),
            final(self).retry_ttl() == old(self).retry_ttl(),
    {
        match self.find(key) {
            Some(i) => {
                let fresh = match &self.slots[i] {
                    Slot::Stored(entry) => now < entry.created_at || now - entry.created_at
                        < entry.ttl,
                    _ => false,
                };
                let waiting = match &self.slots[i] {
                    Slot::InFlight => true,
                    _ => false,
                };
                if fresh {
                    CacheAction::Hit
                } else if waiting {
                    CacheAction::Join
                } else {
                    let ghost before = *self;
                    self.slots.set(i, Slot::InFlight);
                    proof {
                        before.lemma_slot_update(*self, key@, i as int);
                    }
                    CacheAction::Start
                }
            },
            None => {
                let ghost before = *self;
                self.keys.push(key.to_owned());
                self.slots.push(Slot::InFlight);
                proof {
                    before.lemma_slot_push(*self, key@);
                }
                CacheAction::Start
            },
        }
    }

    /// The value stored for `key`, fresh or not.
    pub fn value(&self, key: &str) -> (r: Option<&T>)
        requires
            self.well_formed(),
        ensures
            match self.slot(key@) {
                Slot::Stored(entry) => r == Some(&entry.value),
                _ => r is None,
            },
    {
        match self.find(key) {
            Some(i) => match &self.slots[i] {
                Slot::Stored(entry) => Some(&entry.value),
                _ => None,
            },
            None => None,
        }
    }

    /// Stores what a fetch for `key` brought at the time `now`, and ends the fetch: a failure
    /// is kept for the shorter time, anything else for the longer. No other key is touched.
    pub fn complete(&mut self, key: &str, value: T, failed: bool, now: u64)
        requires
            old(self).well_formed(),
        ensures
            final(self).well_formed(),
            final(self).slot(key@) == complete_step(
                value,
                failed,
                now,
                old(self).fresh_ttl(),
                old(self).retry_ttl(),
            ),
            forall|other: Seq<char>|
                other != key@ ==> #[trigger] final(self).slot(other) == old(self).slot(other),
            final(self).fresh_ttl() == old(self).fresh_ttl(),
            final(self).retry_ttl() == old(self).retry_ttl(),
    {
        let ttl = if failed {
            self.retry_ttl
        } else {
            self.fresh_ttl
        };
        let stored = Slot::Stored(CacheEntry { value, created_at: now, ttl });
        let ghost before = *self;
        match self.find(key) {
            Some(i) => {
                self.slots.set(i, stored);
                proof {
                    before.lemma_slot_update(*self, key@, i as int);
                }
            },
            None => {
                self.keys.push(key.to_owned());
                self.slots.push(stored);
                proof {
                    before.lemma_slot_push(*self, key@);
                }
            },
        }
    }

    /// Writing to the slot of a key that is there changes what is held for that key alone.
    proof fn lemma_slot_update(self, after: Self, key: Seq<char>, i: int)
        requires
            self.well_formed(),
            self.place(key, i),
            after.keys@ == self.keys@,
            after.slots@.len() == self.slots@.len(),
            forall|k: int| 0 <= k < self.slots@.len() && k != i ==> after.slots@[k] == self.slots@[k],
        ensures
            after.well_formed(),
            after.slot(key) == after.slots@[i],
            forall|other: Seq<char>| other != key ==> #[trigger] after.slot(other) == self.slot(other),
    {
        assert(after.place(key, i));
        let c = choose|c: int| after.place(key, c);
        assert(c == i);
        assert forall|other: Seq<char>| other != key implies #[trigger] after.slot(other)
            == self.slot(other) by {
            if exists|k: int| self.place(other, k) {
                let k = choose|k: int| self.place(other, k);
                assert(after.place(other, k));
                let d = choose|d: int| after.place(other, d);
                assert(d == k);
            } else {
                assert forall|k: int| !after.place(other, k) by {
                    assert(!self.place(other, k));
                }
            }
        }
    }

    /// Adding a key that was not there, with its slot, changes what is held for that key alone.
    proof fn lemma_slot_push(self, after: Self, key: Seq<char>)
        requires
            self.well_formed(),
            forall|k: int| !self.place(key, k),
            after.keys@.len() == self.keys@.len() + 1,
            after.slots@.len() == self.slots@.len() + 1,
            after.keys@[self.keys@.len() as int]@ == key,
            forall|k: int| 0 <= k < self.keys@.len() ==> after.keys@[k] == self.keys@[k],
            forall|k: int| 0 <= k < self.slots@.len() ==> after.slots@[k] == self.slots@[k],
        ensures
            after.well_formed(),
            after.slot(key) == after.slots@[self.slots@.len() as int],
            forall|other: Seq<char>| other != key ==> #[trigger] after.slot(other) == self.slot(other),
    {
        let n = self.keys@.len() as int;
        assert forall|i: int, j: int| 0 <= i < j < after.keys@.len() implies (
        #[trigger] after.keys@[i])@ != (#[trigger] after.keys@[j])@ by {
            if j == n {
                assert(!self.place(key, i));
            }
        }
        assert(after.place(key, n));
        let c = choose|c: int| after.place(key, c);
        assert(c == n) by {
            if c != n {
                assert(self.place(key, c));
            }
        }
        assert forall|other: Seq<char>| other != key implies #[trigger] after.slot(other)
            == self.slot(other) by {
            if exists|k: int| self.place(other, k) {
                let k = choose|k: int| self.place(other, k);
                assert(after.place(other, k));
                let d = choose|d: int| after.place(other, d);
                assert(d == k) by {
                    if d != k {
                        assert(d < n);
                        assert(self.place(other, d));
                    }
                }
            } else {
                assert forall|k: int| !after.place(other, k) by {
                    if after.place(other, k) {
                        assert(k < n);
                        assert(self.place(other, k));
                    }
                }
            }
        }
    }
}

} // verus!
