//! The sort step engine: a pancake sort advanced by exactly one step per
//! tick, reporting what each tick did so that a caller can retune the
//! oscillator and, at the end, pause the stream.

use vstd::prelude::*;

use crate::perm::{
    ascending_run, flipped, is_permutation, lemma_ascending_is_permutation,
    lemma_flipped_permutation, lemma_permutation_from_multiset, tail_in_place,
};

verus! {

/// How much the completion counter grows on each verifying-phase tick.
pub const SWEEP_INCREMENT: usize = 20;

/// Largest array length the engine accepts; every value must fit in an `i32`.
pub const MAX_LEN: usize = 0x7fff_ffff;

#[derive(Clone, Copy, PartialEq, Eq, Structural, Debug)]
pub enum Phase {
    /// The boundary is still above zero: one sort step per tick.
    Sorting,
    /// The array is sorted: an ascending sweep of tones is playing.
    Verifying,
    /// The sweep has finished and the stream is paused: ticks do nothing.
    Done,
}

/// What a single tick did, and hence what the caller should send on.
#[derive(Clone, Copy, PartialEq, Eq, Structural, Debug)]
pub enum TickEffect {
    /// Nothing to report: no flip happened, or the engine is done.
    Quiet,
    /// Two flips moved the maximum found at `max_index` into place; the
    /// pitch to play is `max_index / len` of the top frequency.
    Flip { max_index: usize },
    /// One verifying-phase step; the pitch to play is `progress / len` of
    /// the top frequency.
    Sweep { progress: usize },
    /// The sweep just finished: the stream is to be paused, exactly once.
    Pause,
}

/// Reverses `values[0 ..= k]` in place with pairwise swaps.
pub fn flip(values: &mut Vec<i32>, k: usize)
    requires
        k < old(values)@.len(),
    ensures
        final(values)@ == flipped(old(values)@, k as int),
{
    let mut left: usize = 0;
    let mut right: usize = k;
    while left < right
        invariant
            left + right == k,
            left <= right + 1,
            right < values@.len(),
            values@.len() == old(values)@.len(),
            forall|i: int| left <= i <= right ==> values@[i] == old(values)@[i],
            forall|i: int|
                0 <= i < values@.len() && !(left <= i <= right) ==> values@[i] == flipped(
                    old(values)@,
                    k as int,
                )[i],
        decreases right + 1 - left,
    {
        let a = values[left];
        let b = values[right];
        values.set(left, b);
        values.set(right, a);
        left = left + 1;
        right = right - 1;
    }
    assert(values@ =~= flipped(old(values)@, k as int));
}

/// The index of the largest value among `s[0 .. b]`, taking the latest
/// index when a value repeats (a permutation never repeats one).
pub open spec fn max_index_in_prefix(s: Seq<i32>, b: int) -> int
    decreases b,
{
    if b <= 1 {
        0
    } else if s[b - 1] >= s[max_index_in_prefix(s, b - 1)] {
        b - 1
    } else {
        max_index_in_prefix(s, b - 1)
    }
}

pub proof fn lemma_max_index_bounds(s: Seq<i32>, b: int)
    requires
        1 <= b <= s.len(),
    ensures
        0 <= max_index_in_prefix(s, b) < b,
        forall|i: int| 0 <= i < b ==> #[trigger] s[i] <= s[max_index_in_prefix(s, b)],
    decreases b,
{
    if b > 1 {
        lemma_max_index_bounds(s, b - 1);
    }
}

/// Finds the index of the maximum of `values[0 .. b]`.
fn max_index(values: &Vec<i32>, b: usize) -> (r: usize)
    requires
        1 <= b <= values@.len(),
    ensures
        r == max_index_in_prefix(values@, b as int),
{
    let mut best: usize = 0;
    let mut i: usize = 1;
    while i < b
        invariant
            1 <= i <= b <= values@.len(),
            best == max_index_in_prefix(values@, i as int),
            best < i,
        decreases b - i,
    {
        if values[i] >= values[best] {
            best = i;
        }
        i = i + 1;
        assert(best == max_index_in_prefix(values@, i as int));
    }
    best
}

/// The array after one sorting-phase step with boundary `b`: unchanged when
/// the maximum already sits at `b - 1`, else flipped up to the maximum and
/// then up to `b - 1`.
pub open spec fn step_result(s: Seq<i32>, b: int) -> Seq<i32> {
    let m = max_index_in_prefix(s, b);
    if m == b - 1 {
        s
    } else {
        flipped(flipped(s, m), b - 1)
    }
}

/// The sort step engine together with the completion sweep.
pub struct Engine {
    /// A permutation of `1 ..= len`, sorted in place one step per tick.
    pub values: Vec<i32>,
    /// Indices at or above the boundary already hold their final value.
    pub boundary: usize,
    /// The completion counter driving the verifying-phase sweep.
    pub sweep_progress: usize,
    pub phase: Phase,
}

impl Engine {
    /// The fixed number of array elements.
    pub open spec fn size(self) -> nat {
        self.values@.len()
    }

    /// The engine invariant: the array stays a permutation of `1 ..= size`,
    /// everything at or above the boundary is already in place, and the
    /// phase agrees with the boundary and the completion counter.
    pub open spec fn wf(self) -> bool {
        &&& self.size() <= MAX_LEN
        &&& is_permutation(self.values@, self.size())
        &&& self.boundary <= self.size()
        &&& tail_in_place(self.values@, self.boundary as int)
        &&& (self.phase == Phase::Sorting <==> self.boundary >= 1)
        &&& (self.phase == Phase::Sorting ==> self.sweep_progress == 0)
        &&& (self.phase == Phase::Verifying ==> self.sweep_progress <= self.size())
        &&& (self.phase == Phase::Done ==> self.sweep_progress > self.size())
    }
}

/// Relies on rand::seq::SliceRandom::shuffle, seeded from rand::rng(): it
/// reorders the slice in place, so the collection of values is unchanged.
#[verifier::external_body]
fn shuffle_values(values: &mut Vec<i32>)
    ensures
        final(values)@.to_multiset() == old(values)@.to_multiset(),
        final(values)@.len() == old(values)@.len(),
{
    rand::seq::SliceRandom::shuffle(values.as_mut_slice(), &mut rand::rng());
}

impl Engine {
    /// Builds an engine over some permutation of `1 ..= n`, picked at
    /// random, with the whole array still to sort.
    pub fn new(n: usize) -> (engine: Engine)
        requires
            n <= MAX_LEN,
        ensures
            engine.wf(),
            engine.size() == n,
            engine.boundary == n,
            engine.sweep_progress == 0,
            engine.phase == (if n == 0 { Phase::Verifying } else { Phase::Sorting }),
    {
        let mut values: Vec<i32> = Vec::new();
        let mut i: usize = 0;
        while i < n
            invariant
                i <= n <= MAX_LEN,
                values@ =~= ascending_run(i as nat),
            decreases n - i,
        {
            values.push((i + 1) as i32);
            i = i + 1;
            assert(values@ =~= ascending_run(i as nat));
        }
        proof {
            lemma_ascending_is_permutation(n as nat);
        }
        shuffle_values(&mut values);
        proof {
            lemma_permutation_from_multiset(ascending_run(n as nat), values@, n as nat);
        }
        let phase = if n == 0 {
            Phase::Verifying
        } else {
            Phase::Sorting
        };
        Engine { values, boundary: n, sweep_progress: 0, phase }
    }
}

/// In a permutation whose tail from `b` on is already in place, the prefix
/// `[0, b)` holds exactly the values `1 ..= b`; in particular its maximum
/// is the value `b`.
pub proof fn lemma_prefix_values_bounded(s: Seq<i32>, n: nat, b: int)
    requires
        is_permutation(s, n),
        n <= MAX_LEN,
        tail_in_place(s, b),
        0 <= b <= n,
    ensures
        forall|i: int| 0 <= i < b ==> 1 <= #[trigger] s[i] <= b,
        b >= 1 ==> exists|i: int| 0 <= i < b && s[i] == b,
{
    assert forall|i: int| 0 <= i < b implies 1 <= #[trigger] s[i] <= b by {
        if s[i] > b {
            let v = s[i] as int;
            assert(s[v - 1] == v);
            assert(i != v - 1);
        }
    }
    if b >= 1 {
        assert(s.contains(b as i32));
        let j = choose|j: int| 0 <= j < s.len() && s[j] == b as i32;
        assert(j < b) by {
            if j >= b {
                assert(s[j] == j + 1);
            }
        }
        assert(0 <= j < b && s[j] == b);
    }
}

impl Engine {
    /// Advances the demonstration by exactly one tick.
    ///
    /// While sorting, one pancake step runs: the maximum of the unsorted
    /// prefix is flipped to the front and then to the boundary (skipped when
    /// it already sits there), and the boundary shrinks by exactly one, so
    /// it never grows and an array of length `n` takes at most `n` sorting
    /// ticks. While verifying, the completion counter grows by
    /// `SWEEP_INCREMENT` until it passes the array length, which pauses the
    /// stream once; after that every tick is a no-op.
    pub fn tick(&mut self) -> (eff: TickEffect)
        requires
            old(self).wf(),
        ensures
            final(self).wf(),
            final(self).size() == old(self).size(),
            old(self).phase == Phase::Done ==> *final(self) == *old(self) && eff
                == TickEffect::Quiet,
            old(self).phase == Phase::Sorting ==> {
                let b = old(self).boundary as int;
                let m = max_index_in_prefix(old(self).values@, b);
                &&& final(self).boundary == b - 1
                &&& final(self).values@ == step_result(old(self).values@, b)
                &&& final(self).sweep_progress == 0
                &&& final(self).phase == (if b == 1 {
                    Phase::Verifying
                } else {
                    Phase::Sorting
                })
                &&& eff == (if m == b - 1 {
                    TickEffect::Quiet
                } else {
                    (TickEffect::Flip { max_index: m as usize })
                })
            },
            old(self).phase == Phase::Verifying ==> {
                &&& final(self).values@ == old(self).values@
                &&& final(self).boundary == 0
                &&& final(self).sweep_progress == old(self).sweep_progress + SWEEP_INCREMENT
                &&& (final(self).sweep_progress > final(self).size() ==> final(self).phase
                    == Phase::Done && eff == TickEffect::Pause)
                &&& (final(self).sweep_progress <= final(self).size() ==> final(self).phase
                    == Phase::Verifying && eff == (TickEffect::Sweep {
                    progress: final(self).sweep_progress,
                }))
            },
    {
        match self.phase {
            Phase::Done => TickEffect::Quiet,
            Phase::Verifying => {
                self.sweep_progress = self.sweep_progress + SWEEP_INCREMENT;
                if self.sweep_progress > self.values.len() {
                    self.phase = Phase::Done;
                    TickEffect::Pause
                } else {
                    TickEffect::Sweep { progress: self.sweep_progress }
                }
            },
            Phase::Sorting => {
                let ghost s = self.values@;
                let ghost n = self.size();
                let b = self.boundary;
                let m = max_index(&self.values, b);
                proof {
                    lemma_max_index_bounds(s, b as int);
                    lemma_prefix_values_bounded(s, n, b as int);
                    let j = choose|j: int| 0 <= j < b && s[j] == b;
                    assert(s[j] <= s[m as int]);
                    assert(s[m as int] == b);
                }
                let eff: TickEffect;
                if m != b - 1 {
                    if m != 0 {
                        flip(&mut self.values, m);
                    } else {
                        assert(self.values@ =~= flipped(s, 0));
                    }
                    flip(&mut self.values, b - 1);
                    proof {
                        lemma_flipped_permutation(s, m as int, n);
                        lemma_flipped_permutation(flipped(s, m as int), b - 1, n);
                    }
                    eff = TickEffect::Flip { max_index: m };
                } else {
                    eff = TickEffect::Quiet;
                }
                self.boundary = b - 1;
                if self.boundary == 0 {
                    self.phase = Phase::Verifying;
                }
                assert(tail_in_place(self.values@, self.boundary as int)) by {
                    assert(self.values@[b - 1] == b);
                    assert forall|i: int| b <= i < self.values@.len() implies #[trigger] self
                        .values@[i] == i + 1 by {
                        assert(s[i] == i + 1);
                    }
                }
                eff
            },
        }
    }

    /// Once the boundary has reached zero the sort is complete: a
    /// well-formed engine past the sorting phase holds exactly `1 ..= size`
    /// in strictly ascending order.
    pub proof fn lemma_sorted_at_completion(self)
        requires
            self.wf(),
            self.boundary == 0,
        ensures
            self.values@ == ascending_run(self.size()),
            forall|i: int, j: int|
                0 <= i < j < self.size() ==> self.values@[i] < self.values@[j],
    {
        assert(self.values@ =~= ascending_run(self.size()));
    }

    /// Repeated application of one tick until the boundary reaches zero
    /// sorts the array into strictly ascending order; the number of sorting
    /// ticks taken equals the starting boundary, which is at most the
    /// array length.
    pub fn run_sorting(&mut self) -> (ticks: usize)
        requires
            old(self).wf(),
        ensures
            final(self).wf(),
            final(self).boundary == 0,
            final(self).size() == old(self).size(),
            final(self).values@ == ascending_run(old(self).size()),
            ticks == old(self).boundary <= old(self).size(),
    {
        let mut ticks: usize = 0;
        while self.boundary > 0
            invariant
                self.wf(),
                self.size() == old(self).size(),
                ticks + self.boundary == old(self).boundary,
            decreases self.boundary,
        {
            self.tick();
            ticks = ticks + 1;
        }
        assert(self.values@ =~= ascending_run(old(self).size()));
        ticks
    }
}

} // verus!
