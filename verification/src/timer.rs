//! Timers that say when enough time has passed since they were last started.
//! The clock is the caller's: every call is told what time it is, in milliseconds.
use vstd::prelude::*;
use crate::search::{
    first_where,
    lemma_first_where,
    lemma_first_where_found,
    lemma_first_where_none,
};

verus! {

/// What a timer is for. A weapon's timer is told apart by its fire interval.
#[derive(Debug, Clone, Copy, PartialEq, Eq, Hash, Structural)]
pub enum Timers {
    PlayerReloading,
    WeaponShot(u64),
}

/// The entry at index `i` is the timer `id`.
pub open spec fn is_timer(entries: Seq<(Timers, u64)>, id: Timers) -> spec_fn(int) -> bool {
    |i: int| entries[i].0 == id
}

/// When the timer `id` was last started, going by the first entry for it.
pub open spec fn started(entries: Seq<(Timers, u64)>, id: Timers) -> Option<u64> {
    match first_where(entries.len() as int, is_timer(entries, id)) {
        Some(i) => Some(entries[i].1),
        None => None,
    }
}

/// Time passed from `since` to `now`; none if the clock went back.
pub open spec fn elapsed(since: u64, now: u64) -> int {
    if now >= since {
        now - since
    } else {
        0
    }
}

/// A set of timers, each with the time at which it was last started.
#[derive(Debug)]
pub struct Timer {
    value: Vec<(Timers, u64)>,
}

impl View for Timer {
    type V = Map<Timers, u64>;

    /// Every started timer with the time of its last start.
    closed spec fn view(&self) -> Map<Timers, u64> {
        Map::new(
            |id: Timers| started(self.value@, id) is Some,
            |id: Timers| started(self.value@, id).unwrap(),
        )
    }
}

impl Default for Timer {
    fn default() -> (r: Self)
        ensures
            r@ == Map::<Timers, u64>::empty(),
    {
        let r = Self { value: Vec::new() };
        proof {
            assert forall|id: Timers| started(r.value@, id) is None by {
                lemma_first_where_none(0, is_timer(r.value@, id));
            }
            assert(r@ =~= Map::<Timers, u64>::empty());
        }
        r
    }
}

impl Timer {
    /// Says whether `duration` has passed since the timer `id` was last
    /// started, and if so starts it again at `now`. A timer that was
    /// never started is started, and the answer is yes.
    pub fn after(&mut self, id: Timers, duration: u64, now: u64) -> (r: bool)
        ensures
            r == (old(self)@.dom().contains(id) ==> elapsed(old(self)@[id], now) >= duration),
            r ==> final(self)@ == old(self)@.insert(id, now),
            !r ==> final(self)@ == old(self)@,
    {
        match self.find(id) {
            Some(i) => {
                let since = self.value[i].1;
                let dt = if now >= since {
                    now - since
                } else {
                    0
                };
                if dt >= duration {
                    self.add(id, now);
                    true
                } else {
                    false
                }
            },
            None => {
                self.add(id, now);
                true
            },
        }
    }

    /// Starts the timer `id` at `now`, whether or not it was running.
    pub fn add(&mut self, id: Timers, now: u64)
        ensures
            final(self)@ == old(self)@.insert(id, now),
    {
        let ghost before = self.value@;
        match self.find(id) {
            Some(i) => {
                self.value.set(i, (id, now));
            },
            None => {
                self.value.push((id, now));
            },
        }
        proof {
            let after = self.value@;
            let n = before.len() as int;
            assert forall|other: Timers| started(after, other) == (if other == id {
                Some(now)
            } else {
                started(before, other)
            }) by {
                lemma_first_where(n, is_timer(before, other));
                lemma_first_where(n, is_timer(before, id));
                match first_where(n, is_timer(before, other)) {
                    Some(k) => {
                        assert(is_timer(before, other)(k));
                        assert(after[k].0 == other);
                        assert(is_timer(after, other)(k));
                        assert forall|j: int| 0 <= j < k implies !#[trigger] is_timer(
                            after,
                            other,
                        )(j) by {
                            assert(!is_timer(before, other)(j));
                            if other != id {
                                if first_where(n, is_timer(before, id)) is Some {
                                    assert(after[j].0 == before[j].0 || after[j].0 == id);
                                }
                            }
                        }
                        lemma_first_where_found(after.len() as int, is_timer(after, other), k);
                    },
                    None => {
                        if other == id {
                            assert(after[n] == (id, now));
                            assert(is_timer(after, other)(n));
                            assert forall|j: int| 0 <= j < n implies !#[trigger] is_timer(
                                after,
                                other,
                            )(j) by {
                                assert(!is_timer(before, other)(j));
                            }
                            lemma_first_where_found(after.len() as int, is_timer(after, other), n);
                        } else {
                            assert forall|j: int| 0 <= j < after.len() implies !#[trigger] is_timer(
                                after,
                                other,
                            )(j) by {
                                if j < n {
                                    assert(!is_timer(before, other)(j));
                                }
                            }
                            lemma_first_where_none(after.len() as int, is_timer(after, other));
                        }
                    },
                }
            }
            assert(self@ =~= old(self)@.insert(id, now));
        }
    }

    /// When the timer `id` was last started, if it ever was.
    pub fn started_at(&self, id: Timers) -> (r: Option<u64>)
        ensures
            r is Some == self@.dom().contains(id),
            r matches Some(t) ==> self@[id] == t,
    {
        match self.find(id) {
            Some(i) => Some(self.value[i].1),
            None => None,
        }
    }

    fn find(&self, id: Timers) -> (r: Option<usize>)
        ensures
            match r {
                Some(i) => i < self.value@.len() && first_where(
                    self.value@.len() as int,
                    is_timer(self.value@, id),
                ) == Some(i as int) && self.value@[i as int].0 == id,
                None => first_where(self.value@.len() as int, is_timer(self.value@, id)) is None,
            },
    {
        let mut i: usize = 0;
        while i < self.value.len()
            invariant
                i <= self.value@.len(),
                forall|j: int| 0 <= j < i ==> !#[trigger] is_timer(self.value@, id)(j),
            decreases self.value@.len() - i,
        {
            if self.value[i].0 == id {
                proof {
                    lemma_first_where_found(
                        self.value@.len() as int,
                        is_timer(self.value@, id),
                        i as int,
                    );
                }
                return Some(i);
            }
            i += 1;
        }
        proof {
            lemma_first_where_none(self.value@.len() as int, is_timer(self.value@, id));
        }
        None
    }
}

} // verus!
