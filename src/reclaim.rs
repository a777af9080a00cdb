//! Choosing old sets to remove when space runs short. The choice among the
//! candidates is weighted-random and made by the caller; this module keeps
//! the rules: the newest set is never a candidate, sets go whole, and the
//! choosing stops once enough bytes are freed (or after one set when no
//! amount is asked) or no candidate is left.
use vstd::prelude::*;
use crate::backup_sets::BackupSetInfo;
use crate::stats::sat_add;

verus! {

/// Seconds from each set's predecessor to it (from the epoch for the first),
/// zero where the clock went backwards.
pub fn time_spans(sets: &[BackupSetInfo]) -> (r: Vec<u64>)
    ensures
        r@.len() == sets@.len(),
        forall|i: int| 0 <= i < sets@.len() ==> #[trigger] r@[i] == if i == 0 {
            sets@[0].created
        } else if sets@[i].created >= sets@[i - 1].created {
            (sets@[i].created - sets@[i - 1].created) as u64
        } else {
            0u64
        },
{
    let mut out: Vec<u64> = Vec::new();
    let mut i: usize = 0;
    while i < sets.len()
        invariant
            i <= sets@.len(),
            out@.len() == i,
            forall|j: int| 0 <= j < i ==> #[trigger] out@[j] == if j == 0 {
                sets@[0].created
            } else if sets@[j].created >= sets@[j - 1].created {
                (sets@[j].created - sets@[j - 1].created) as u64
            } else {
                0u64
            },
        decreases sets@.len() - i,
    {
        let span = if i == 0 {
            sets[0].created
        } else {
            sets[i].created.saturating_sub(sets[i - 1].created)
        };
        out.push(span);
        i = i + 1;
    }
    out
}

/// The state of one selection over a list of sets, oldest first.
pub struct ReclaimSelection {
    remaining: Vec<usize>,
    chosen: Vec<usize>,
    freed: u64,
    space_needed: u64,
    set_count: usize,
}

impl ReclaimSelection {
    /// Positions still to choose from.
    pub closed spec fn candidates(&self) -> Seq<usize> {
        self.remaining@
    }

    /// Positions chosen so far, in order.
    pub closed spec fn picked(&self) -> Seq<usize> {
        self.chosen@
    }

    pub closed spec fn freed(&self) -> u64 {
        self.freed
    }

    pub closed spec fn needed(&self) -> u64 {
        self.space_needed
    }

    /// Number of sets the selection is over.
    pub closed spec fn count(&self) -> nat {
        self.set_count as nat
    }

    /// Candidates and choices are distinct positions below the newest set,
    /// each in one of the two lists.
    pub open spec fn wf(&self) -> bool {
        &&& forall|a: int| 0 <= a < self.candidates().len() ==> #[trigger] self.candidates()[a] + 1 < self.count()
        &&& forall|a: int| 0 <= a < self.picked().len() ==> #[trigger] self.picked()[a] + 1 < self.count()
        &&& forall|a: int, b: int| 0 <= a < b < self.candidates().len() ==> self.candidates()[a] != self.candidates()[b]
        &&& forall|a: int, b: int| 0 <= a < b < self.picked().len() ==> self.picked()[a] != self.picked()[b]
        &&& forall|a: int, b: int|
            0 <= a < self.candidates().len() && 0 <= b < self.picked().len() ==> self.candidates()[a]
                != self.picked()[b]
    }

    /// Whether choosing is over: no candidate is left, or one set was chosen
    /// when no amount was asked, or the sets chosen free enough.
    pub open spec fn spec_is_done(&self) -> bool {
        self.candidates().len() == 0 || (self.needed() == 0 && self.picked().len() >= 1) || (
        self.needed() > 0 && self.freed() >= self.needed())
    }

    /// A selection over `sets` (oldest first) that must free `space_needed`
    /// bytes: every set but the newest is a candidate.
    pub fn new(sets: &[BackupSetInfo], space_needed: u64) -> (r: Self)
        ensures
            r.wf(),
            r.count() == sets@.len(),
            r.needed() == space_needed,
            r.picked().len() == 0,
            r.freed() == 0,
            r.candidates().len() == (if sets@.len() == 0 { 0 } else { sets@.len() - 1 }),
            forall|a: int| 0 <= a < r.candidates().len() ==> #[trigger] r.candidates()[a] == a,
    {
        let mut remaining: Vec<usize> = Vec::new();
        let n = sets.len();
        let last: usize = if n == 0 { 0 } else { n - 1 };
        let mut i: usize = 0;
        while i < last
            invariant
                i <= last,
                last + 1 <= n || last == 0,
                remaining@.len() == i,
                forall|a: int| 0 <= a < i ==> #[trigger] remaining@[a] == a,
            decreases last - i,
        {
            remaining.push(i);
            i = i + 1;
        }
        ReclaimSelection { remaining, chosen: Vec::new(), freed: 0, space_needed, set_count: n }
    }

    #[verifier::when_used_as_spec(spec_is_done)]
    pub fn is_done(&self) -> (r: bool)
        ensures
            r == self.spec_is_done(),
    {
        self.remaining.len() == 0 || (self.space_needed == 0 && self.chosen.len() >= 1) || (
        self.space_needed > 0 && self.freed >= self.space_needed)
    }

    /// Positions still to choose from.
    pub fn candidate_positions(&self) -> (r: &Vec<usize>)
        ensures
            r@ == self.candidates(),
    {
        &self.remaining
    }

    /// Takes the candidate at `pos` (of `candidate_positions`): that set is
    /// chosen whole and its size counts as freed.
    pub fn take(&mut self, pos: usize, sets: &[BackupSetInfo])
        requires
            old(self).wf(),
            !old(self).spec_is_done(),
            pos < old(self).candidates().len(),
            sets@.len() == old(self).count(),
        ensures
            final(self).wf(),
            final(self).count() == old(self).count(),
            final(self).needed() == old(self).needed(),
            final(self).candidates() == old(self).candidates().remove(pos as int),
            final(self).picked() == old(self).picked().push(old(self).candidates()[pos as int]),
            final(self).freed() == sat_add(old(self).freed(), sets@[old(self).candidates()[pos as int] as int].size),
    {
        let idx = self.remaining.remove(pos);
        assert(idx + 1 < self.set_count);
        self.chosen.push(idx);
        self.freed = self.freed.saturating_add(sets[idx].size);
        proof {
            let oc = old(self).candidates();
            assert(self.candidates() =~= oc.remove(pos as int));
            assert forall|a: int, b: int| 0 <= a < b < self.candidates().len() implies self.candidates()[a] != self.candidates()[b] by {
                let a0 = if a < pos { a } else { a + 1 };
                let b0 = if b < pos { b } else { b + 1 };
                assert(oc[a0] != oc[b0]);
            }
            assert forall|a: int, b: int| 0 <= a < self.candidates().len() && 0 <= b < self.picked().len() implies self.candidates()[a] != self.picked()[b] by {
                let a0 = if a < pos { a } else { a + 1 };
                if b < old(self).picked().len() {
                    assert(oc[a0] != old(self).picked()[b]);
                } else {
                    assert(oc[a0] != oc[pos as int]);
                }
            }
            assert forall|a: int, b: int| 0 <= a < b < self.picked().len() implies self.picked()[a] != self.picked()[b] by {
                if b == self.picked().len() - 1 {
                    assert(oc[pos as int] != old(self).picked()[a]);
                }
            }
            assert forall|a: int| 0 <= a < self.candidates().len() implies #[trigger] self.candidates()[a] + 1 < self.count() by {
                let a0 = if a < pos { a } else { a + 1 };
                assert(oc[a0] + 1 < self.count());
            }
        }
    }

    /// The positions chosen, in the order they were chosen.
    pub fn chosen_positions(&self) -> (r: &Vec<usize>)
        ensures
            r@ == self.picked(),
    {
        &self.chosen
    }
}

} // verus!
