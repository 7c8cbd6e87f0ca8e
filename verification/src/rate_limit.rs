//! Request pacing: each request is granted the first free slot, and slots
//! are one interval apart.
use vstd::prelude::*;

verus! {

/// When the next request may start, on a clock of nanoseconds.
#[derive(Debug, Clone, Copy, PartialEq, Eq)]
pub struct RequestSchedule {
    pub next_allowed: u64,
}

/// The slot that a request asking at `now` is granted when the next free
/// slot is `next_allowed`.
pub open spec fn granted_slot(next_allowed: int, now: int) -> int {
    if next_allowed > now {
        next_allowed
    } else {
        now
    }
}

/// The slots that requests asking at the times `nows`, one after the other,
/// are granted when the next free slot is `next_allowed`: each is granted its
/// slot, and the next free slot moves one `interval` past it.
pub open spec fn granted_slots(next_allowed: int, nows: Seq<int>, interval: int) -> Seq<int>
    decreases nows.len(),
{
    if nows.len() == 0 {
        Seq::empty()
    } else {
        let slot = granted_slot(next_allowed, nows[0]);
        seq![slot] + granted_slots(slot + interval, nows.drop_first(), interval)
    }
}

impl RequestSchedule {
    /// A schedule whose first slot is free at `now`.
    pub fn starting_at(now: u64) -> (r: RequestSchedule)
        ensures
            r.next_allowed == now,
    {
        RequestSchedule { next_allowed: now }
    }

    /// Grants the request asking at `now` the later of `now` and
    /// the next free slot, moves the next free slot one `interval` past the
    /// granted one, and returns how long the request waits for its slot.
    pub fn reserve(&mut self, now: u64, interval: u64) -> (wait: u64)
        requires
            granted_slot(old(self).next_allowed as int, now as int) + interval <= u64::MAX,
        ensures
            wait == granted_slot(old(self).next_allowed as int, now as int) - now,
            final(self).next_allowed == granted_slot(old(self).next_allowed as int, now as int)
                + interval,
    {
        let scheduled = if self.next_allowed > now {
            self.next_allowed
        } else {
            now
        };
        self.next_allowed = scheduled + interval;
        scheduled - now
    }
}

/// Requests granted one after the other start at least one interval apart,
/// and no request starts before it asked: a request that asks at `now1` and
/// then one that asks at `now2` are granted slots `s1` and `s2` with
/// `now1 <= s1`, `now2 <= s2` and `s1 + interval <= s2`.
pub proof fn lemma_consecutive_grants_are_spaced(next_allowed: int, now1: int, now2: int, interval: int)
    ensures
        ({
            let s1 = granted_slot(next_allowed, now1);
            let s2 = granted_slot(s1 + interval, now2);
            &&& now1 <= s1
            &&& now2 <= s2
            &&& s1 + interval <= s2
        }),
{
}

/// Over any number of requests, from a schedule whose next free slot is
/// The requests are granted slots in the order they ask, one
/// each; no request is granted a slot before it asked; each slot is at least
/// one `interval` after the one before; and the request at position `k`
/// (counting from 0) is granted a slot no earlier than
/// `next_allowed + k * interval`.
pub proof fn lemma_grants_are_spaced(next_allowed: int, nows: Seq<int>, interval: nat)
    ensures
        granted_slots(next_allowed, nows, interval as int).len() == nows.len(),
        forall|k: int|
            0 <= k < nows.len() ==> nows[k] <= #[trigger] granted_slots(
                next_allowed,
                nows,
                interval as int,
            )[k],
        forall|k: int|
            0 <= k < nows.len() ==> next_allowed + k * interval <= #[trigger] granted_slots(
                next_allowed,
                nows,
                interval as int,
            )[k],
        forall|k: int|
            0 <= k < nows.len() - 1 ==> #[trigger] granted_slots(next_allowed, nows, interval as int)[k]
                + interval <= granted_slots(next_allowed, nows, interval as int)[k + 1],
    decreases nows.len(),
{
    if nows.len() > 0 {
        let slot = granted_slot(next_allowed, nows[0]);
        let tail = nows.drop_first();
        let rest = granted_slots(slot + interval, tail, interval as int);
        let slots = granted_slots(next_allowed, nows, interval as int);
        lemma_grants_are_spaced(slot + interval, tail, interval);
        assert(slots == seq![slot] + rest);
        assert forall|k: int| 0 <= k < nows.len() implies nows[k] <= #[trigger] slots[k]
            && next_allowed + k * interval <= slots[k] by {
            if k > 0 {
                assert(slots[k] == rest[k - 1]);
                assert(nows[k] == tail[k - 1]);
                assert(slot + interval + (k - 1) * interval <= rest[k - 1]);
                assert(next_allowed + k * interval <= slot + interval + (k - 1) * interval)
                    by (nonlinear_arith)
                    requires
                        next_allowed <= slot,
                ;
            }
        }
        assert forall|k: int| 0 <= k < nows.len() - 1 implies #[trigger] slots[k] + interval
            <= slots[k + 1] by {
            if k > 0 {
                assert(slots[k] == rest[k - 1]);
                assert(slots[k + 1] == rest[k]);
            } else {
                assert(slots[1] == rest[0]);
            }
        }
    }
}

} // verus!
