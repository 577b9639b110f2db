//! The renewal scheduler's bookkeeping: which ticks run the automatic
//! renewal, and which hosts have an order in flight.
use vstd::prelude::*;

verus! {

/// Seconds between two ticks of the scheduler.
pub const TICK_SECONDS: u64 = 10;

/// The automatic renewal runs on every this many ticks (once an hour).
pub const RENEW_EVERY_TICKS: u64 = 360;

/// A certificate is renewed when it expires within this many days.
pub const RENEW_THRESHOLD_DAYS: u32 = 30;

/// One of `v` has the text `n`.
pub open spec fn has_text(v: Seq<String>, n: Seq<char>) -> bool {
    exists|i: int| 0 <= i < v.len() && (#[trigger] v[i])@ == n
}

/// Tick count and the hosts with an order in flight.
#[derive(Debug)]
pub struct RenewalScheduler {
    ticks: u64,
    in_flight: Vec<String>,
}

impl RenewalScheduler {
    /// The texts of the hosts with an order in flight.
    pub closed spec fn busy(&self) -> Set<Seq<char>> {
        Set::new(|n: Seq<char>| has_text(self.in_flight@, n))
    }

    /// The number of ticks counted so far.
    pub closed spec fn tick_count(&self) -> u64 {
        self.ticks
    }

    /// A scheduler with no tick done and nothing in flight.
    pub fn new() -> (r: RenewalScheduler)
        ensures
            r.tick_count() == 0,
            r.busy() == Set::<Seq<char>>::empty(),
    {
        let r = RenewalScheduler { ticks: 0, in_flight: Vec::new() };
        assert(r.busy() =~= Set::<Seq<char>>::empty());
        r
    }

    /// Counts one tick; `true` when this tick runs the automatic renewal.
    pub fn tick(&mut self) -> (r: bool)
        ensures
            final(self).tick_count() == if old(self).tick_count() == u64::MAX {
                0
            } else {
                old(self).tick_count() + 1
            },
            r == (final(self).tick_count() % RENEW_EVERY_TICKS == 0 && final(self).tick_count() > 0),
            final(self).busy() == old(self).busy(),
    {
        self.ticks = if self.ticks == u64::MAX {
            0
        } else {
            self.ticks + 1
        };
        assert(self.busy() =~= old(self).busy());
        self.ticks % RENEW_EVERY_TICKS == 0 && self.ticks > 0
    }

    /// Marks an order for `host` as started: `true` and marked when none is
    /// in flight for it, `false` and unchanged otherwise.
    pub fn begin(&mut self, host: &String) -> (r: bool)
        ensures
            r == !old(self).busy().contains(host@),
            final(self).busy() == old(self).busy().insert(host@),
            final(self).tick_count() == old(self).tick_count(),
    {
        let mut i: usize = 0;
        while i < self.in_flight.len()
            invariant
                i <= self.in_flight@.len(),
                forall|k: int| 0 <= k < i ==> (#[trigger] self.in_flight@[k])@ != host@,
            decreases self.in_flight@.len() - i,
        {
            if self.in_flight[i] == *host {
                assert(self.busy().contains(host@));
                assert(self.busy().insert(host@) =~= self.busy());
                return false;
            }
            i = i + 1;
        }
        assert(!self.busy().contains(host@));
        let ghost before = self.busy();
        self.in_flight.push(host.clone());
        assert forall|n: Seq<char>| self.busy().contains(n) <==> before.insert(host@).contains(n) by {
            if self.busy().contains(n) {
                let k = choose|k: int| 0 <= k < self.in_flight@.len() && (#[trigger] self.in_flight@[k])@ == n;
                if k < self.in_flight@.len() - 1 {
                    assert(old(self).in_flight@[k] == self.in_flight@[k]);
                }
            }
            if before.contains(n) {
                let k = choose|k: int| 0 <= k < old(self).in_flight@.len() && (#[trigger] old(self).in_flight@[k])@ == n;
                assert(self.in_flight@[k] == old(self).in_flight@[k]);
            }
            if n == host@ {
                assert(self.in_flight@[self.in_flight@.len() - 1]@ == n);
            }
        }
        assert(self.busy() =~= before.insert(host@));
        true
    }

    /// Marks the order for `host` as ended.
    pub fn finish(&mut self, host: &String)
        ensures
            final(self).busy() == old(self).busy().remove(host@),
            final(self).tick_count() == old(self).tick_count(),
    {
        let mut kept: Vec<String> = Vec::new();
        let mut i: usize = 0;
        while i < self.in_flight.len()
            invariant
                i <= self.in_flight@.len(),
                forall|n: Seq<char>| #[trigger] has_text(kept@, n) <==> (n != host@ && has_text(
                    self.in_flight@.subrange(0, i as int),
                    n,
                )),
            decreases self.in_flight@.len() - i,
        {
            let ghost before = kept@;
            let ghost pre = self.in_flight@.subrange(0, i as int);
            let ghost next = self.in_flight@.subrange(0, i + 1);
            if self.in_flight[i] != *host {
                kept.push(self.in_flight[i].clone());
            }
            assert forall|n: Seq<char>| #[trigger] has_text(kept@, n) <==> (n != host@ && has_text(next, n)) by {
                if has_text(kept@, n) {
                    let k = choose|k: int| 0 <= k < kept@.len() && (#[trigger] kept@[k])@ == n;
                    if k < before.len() {
                        assert(has_text(before, n));
                        let j = choose|j: int| 0 <= j < pre.len() && (#[trigger] pre[j])@ == n;
                        assert(next[j] == pre[j]);
                    } else {
                        assert(next[i as int] == self.in_flight@[i as int]);
                    }
                }
                if n != host@ && has_text(next, n) {
                    let k = choose|k: int| 0 <= k < next.len() && (#[trigger] next[k])@ == n;
                    if k < i {
                        assert(pre[k] == next[k]);
                        assert(has_text(pre, n));
                        assert(has_text(before, n));
                        let j = choose|j: int| 0 <= j < before.len() && (#[trigger] before[j])@ == n;
                        assert(kept@[j] == before[j]);
                    } else {
                        assert(kept@[kept@.len() - 1]@ == n);
                    }
                }
            }
            i = i + 1;
        }
        assert(self.in_flight@.subrange(0, self.in_flight@.len() as int) =~= self.in_flight@);
        let ghost old_busy = self.busy();
        self.in_flight = kept;
        assert(self.busy() =~= old_busy.remove(host@));
    }
}

} // verus!
