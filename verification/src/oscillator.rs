//! A square-wave oscillator modelled over integers: the phase is kept as a
//! count of `1 / sample_rate` fractions of a cycle, advances by `frequency`
//! of those units per sample, and the sample is high exactly while the
//! phase sits in the first half of its cycle. Scaling the bipolar unit
//! samples by a fixed amplitude is left to the caller.

use vstd::prelude::*;

use vstd::arithmetic::div_mod::{
    lemma_fundamental_div_mod, lemma_fundamental_div_mod_converse, lemma_div_is_ordered,
    lemma_mod_bound, lemma_mod_mod, lemma_mod_multiples_vanish,
};

verus! {

/// Largest sample rate the model accepts; keeps the squared wrap modulus
/// and every intermediate sum inside a `u64`.
pub const MAX_SAMPLE_RATE: u32 = 0x100_0000;

/// The wave is in the first half of its cycle: the phase, reduced to one
/// cycle of `sample_rate` units, lies below the half-cycle mark.
pub open spec fn high_at(phase: int, sample_rate: int) -> bool {
    2 * (phase % sample_rate) < sample_rate
}

/// The bipolar unit sample emitted at a given phase.
pub open spec fn sample_value(phase: int, sample_rate: int) -> i32 {
    if high_at(phase, sample_rate) {
        1i32
    } else {
        -1i32
    }
}

/// How many of the first `k` single-sample steps of a wave that starts at
/// phase `start` and advances by `f` units per sample change its sign.
pub open spec fn sign_changes(start: int, f: int, sr: int, k: nat) -> int
    decreases k,
{
    if k == 0 {
        0
    } else {
        sign_changes(start, f, sr, (k - 1) as nat) + if high_at(start + (k - 1) * f, sr)
            != high_at(start + k * f, sr) {
            1int
        } else {
            0int
        }
    }
}

/// The generator of the audio signal: frequency is only ever written from
/// outside (through the command channel), phase only ever advances inside.
pub struct Oscillator {
    /// Phase units gained per sample; `sample_rate` units make one cycle.
    pub frequency: u32,
    /// Accumulated phase, wrapped modulo `sample_rate` whole cycles.
    pub phase: u64,
    pub sample_rate: u32,
}

impl Oscillator {
    /// One whole cycle, in phase units.
    pub open spec fn cycle(self) -> int {
        self.sample_rate as int
    }

    /// The defensive wrap bound on the accumulated phase: `sample_rate`
    /// whole cycles, so wrapping never disturbs the position in the cycle.
    pub open spec fn wrap_modulus(self) -> int {
        (self.sample_rate as int) * (self.sample_rate as int)
    }

    pub open spec fn wf(self) -> bool {
        &&& 0 < self.sample_rate <= MAX_SAMPLE_RATE
        &&& (self.phase as int) < self.wrap_modulus()
    }

    /// A silent oscillator: frequency zero degenerates to a constant value,
    /// which is an accepted edge case, not a fault.
    pub fn new(sample_rate: u32) -> (osc: Oscillator)
        requires
            0 < sample_rate <= MAX_SAMPLE_RATE,
        ensures
            osc.wf(),
            osc == (Oscillator { frequency: 0u32, phase: 0u64, sample_rate }),
    {
        proof {
            assert(0 < (sample_rate as int) * (sample_rate as int)) by (nonlinear_arith)
                requires
                    0 < sample_rate,
            ;
        }
        Oscillator { frequency: 0, phase: 0, sample_rate }
    }

    /// Retunes the wave; the phase keeps accumulating from where it was.
    pub fn set_frequency(&mut self, frequency: u32)
        ensures
            *final(self) == (Oscillator { frequency, ..*old(self) }),
    {
        self.frequency = frequency;
    }

    /// Emits the sample for the current phase, then advances the phase by
    /// one sample's worth of the current frequency, wrapped at the bound.
    pub fn next_sample(&mut self) -> (sample: i32)
        requires
            old(self).wf(),
        ensures
            final(self).wf(),
            final(self).frequency == old(self).frequency,
            final(self).sample_rate == old(self).sample_rate,
            sample == sample_value(old(self).phase as int, old(self).cycle()),
            final(self).phase == (old(self).phase + old(self).frequency) as int % old(
                self,
            ).wrap_modulus(),
    {
        let sr = self.sample_rate as u64;
        proof {
            assert((sr as int) * (sr as int) <= 0x1_0000_0000_0000) by (nonlinear_arith)
                requires
                    0 < sr <= MAX_SAMPLE_RATE,
            ;
        }
        let sample: i32 = if 2 * (self.phase % sr) < sr {
            1
        } else {
            -1
        };
        self.phase = (self.phase + self.frequency as u64) % (sr * sr);
        sample
    }

    /// Renders a block of `len` bipolar unit samples, one call of
    /// `next_sample` per slot: sample `k` reads the phase after `k`
    /// advances, so the output alternates between exactly the two values
    /// `1` and `-1` along the spec-level wave.
    pub fn render_block(&mut self, len: usize) -> (out: Vec<i32>)
        requires
            old(self).wf(),
        ensures
            final(self).wf(),
            final(self).frequency == old(self).frequency,
            final(self).sample_rate == old(self).sample_rate,
            out@.len() == len,
            forall|k: int|
                0 <= k < len ==> out@[k] == sample_value(
                    old(self).phase + k * old(self).frequency,
                    old(self).cycle(),
                ),
    {
        let ghost start = old(self).phase as int;
        let ghost f = old(self).frequency as int;
        let ghost sr = old(self).cycle();
        let mut out: Vec<i32> = Vec::new();
        let mut i: usize = 0;
        while i < len
            invariant
                i <= len,
                self.wf(),
                self.frequency == old(self).frequency,
                self.sample_rate == old(self).sample_rate,
                start == old(self).phase as int,
                f == old(self).frequency as int,
                sr == old(self).cycle(),
                out@.len() == i,
                (self.phase as int) % sr == (start + i * f) % sr,
                forall|k: int| 0 <= k < i ==> out@[k] == sample_value(start + k * f, sr),
            decreases len - i,
        {
            let ghost before = self.phase as int;
            let s = self.next_sample();
            proof {
                lemma_step_keeps_position(before, start + i * f, f, sr);
                assert(start + i * f + f == start + (i + 1) * f) by (nonlinear_arith);
            }
            out.push(s);
            i = i + 1;
        }
        out
    }
}

/// Two phases at the same position in the cycle stay at the same position
/// after one step, wrapped or not: the wrap bound is whole cycles.
proof fn lemma_step_keeps_position(a: int, b: int, f: int, sr: int)
    requires
        0 <= a,
        0 <= f,
        0 < sr,
        a % sr == b % sr,
    ensures
        ((a + f) % (sr * sr)) % sr == (b + f) % sr,
{
    lemma_mod_mod(a + f, sr, sr);
    lemma_fundamental_div_mod(a, sr);
    lemma_fundamental_div_mod(b, sr);
    assert(a + f == sr * (a / sr) + (a % sr + f));
    assert(b + f == sr * (b / sr) + (b % sr + f));
    lemma_mod_multiples_vanish(a / sr, a % sr + f, sr);
    lemma_mod_multiples_vanish(b / sr, b % sr + f, sr);
}

/// The wave is high exactly when the doubled phase has run through an even
/// number of half-cycles.
proof fn lemma_high_iff_even(p: int, sr: int)
    requires
        0 <= p,
        0 < sr,
    ensures
        high_at(p, sr) <==> ((2 * p) / sr) % 2 == 0,
{
    let q: int = p / sr;
    let r: int = p % sr;
    lemma_fundamental_div_mod(p, sr);
    lemma_mod_bound(p, sr);
    assert(2 * p == (2 * q) * sr + 2 * r) by (nonlinear_arith)
        requires
            p == sr * q + r,
    ;
    if 2 * r < sr {
        lemma_fundamental_div_mod_converse(2 * p, sr, 2 * q, 2 * r);
        assert((2 * q) % 2 == 0) by {
            lemma_mod_multiples_vanish(q, 0, 2);
        }
    } else {
        assert(2 * p == (2 * q + 1) * sr + (2 * r - sr)) by (nonlinear_arith)
            requires
                2 * p == (2 * q) * sr + 2 * r,
        ;
        lemma_fundamental_div_mod_converse(2 * p, sr, 2 * q + 1, 2 * r - sr);
        assert((2 * q + 1) % 2 == 1) by {
            lemma_mod_multiples_vanish(q, 1, 2);
        }
    }
}

/// Adjacent integers have different parity.
proof fn lemma_parity_step(q: int)
    requires
        0 <= q,
    ensures
        (q + 1) % 2 != q % 2,
{
    let a: int = q / 2;
    let b: int = q % 2;
    lemma_fundamental_div_mod(q, 2);
    lemma_mod_bound(q, 2);
    if b == 0 {
        lemma_fundamental_div_mod_converse(q + 1, 2, a, 1);
    } else {
        lemma_fundamental_div_mod_converse(q + 1, 2, a + 1, 0);
    }
}

/// Below the half-cycle rate, one sample step moves the doubled phase
/// through at most one half-cycle boundary.
proof fn lemma_div_step(p: int, f: int, sr: int)
    requires
        0 <= p,
        0 < f,
        2 * f <= sr,
    ensures
        (2 * p) / sr <= (2 * (p + f)) / sr <= (2 * p) / sr + 1,
{
    lemma_div_is_ordered(2 * p, 2 * (p + f), sr);
    lemma_div_is_ordered(2 * (p + f), 2 * p + sr, sr);
    lemma_fundamental_div_mod(2 * p, sr);
    lemma_mod_bound(2 * p, sr);
    assert(2 * p + sr == ((2 * p) / sr + 1) * sr + (2 * p) % sr) by (nonlinear_arith)
        requires
            2 * p == sr * ((2 * p) / sr) + (2 * p) % sr,
    ;
    lemma_fundamental_div_mod_converse(2 * p + sr, sr, (2 * p) / sr + 1, (2 * p) % sr);
}

/// The running change count telescopes into the number of half-cycle
/// boundaries the doubled phase has crossed.
proof fn lemma_changes_telescope(start: int, f: int, sr: int, k: nat)
    requires
        0 <= start,
        0 < f,
        2 * f <= sr,
    ensures
        sign_changes(start, f, sr, k) == (2 * (start + k * f)) / sr - (2 * start) / sr,
    decreases k,
{
    if k == 0 {
        assert(start + 0 * f == start);
    } else {
        lemma_changes_telescope(start, f, sr, (k - 1) as nat);
        let p: int = start + (k - 1) * f;
        assert(0 <= p && p + f == start + k * f) by (nonlinear_arith)
            requires
                0 <= start && 0 < f && k >= 1 && p == start + (k - 1) * f,
        ;
        lemma_div_step(p, f, sr);
        lemma_high_iff_even(p, sr);
        lemma_high_iff_even(p + f, sr);
        if (2 * (p + f)) / sr == (2 * p) / sr + 1 {
            lemma_parity_step((2 * p) / sr);
            assert((2 * p) / sr >= 0) by {
                lemma_div_is_ordered(0, 2 * p, sr);
            }
        }
    }
}

/// The number of places where consecutive entries of `out` differ.
pub open spec fn flips_in(out: Seq<i32>) -> int
    decreases out.len(),
{
    if out.len() <= 1 {
        0
    } else {
        flips_in(out.drop_last()) + if out[out.len() - 2] != out[out.len() - 1] {
            1int
        } else {
            0int
        }
    }
}

proof fn lemma_flips_prefix(out: Seq<i32>, start: int, f: int, sr: int, j: int)
    requires
        0 <= start,
        0 < f,
        2 * f <= sr,
        1 <= j <= out.len(),
        forall|k: int| 0 <= k < out.len() ==> out[k] == sample_value(start + k * f, sr),
    ensures
        flips_in(out.subrange(0, j)) == sign_changes(start, f, sr, (j - 1) as nat),
    decreases j,
{
    let pre = out.subrange(0, j);
    if j > 1 {
        lemma_flips_prefix(out, start, f, sr, j - 1);
        assert(pre.drop_last() =~= out.subrange(0, j - 1));
        assert(pre[j - 2] == sample_value(start + (j - 2) * f, sr));
        assert(pre[j - 1] == sample_value(start + (j - 1) * f, sr));
    }
}

/// The audible law of the square wave: over one second (`sr` samples) at
/// any positive frequency up to the half-sample-rate bound, the output
/// changes sign exactly `2 * f` times, whatever the starting phase.
pub proof fn lemma_sign_change_rate(start: int, f: int, sr: int)
    requires
        0 <= start,
        0 < f,
        2 * f <= sr,
    ensures
        sign_changes(start, f, sr, sr as nat) == 2 * f,
{
    lemma_changes_telescope(start, f, sr, sr as nat);
    lemma_fundamental_div_mod(2 * start, sr);
    lemma_mod_bound(2 * start, sr);
    assert(2 * (start + sr * f) == ((2 * start) / sr + 2 * f) * sr + (2 * start) % sr)
        by (nonlinear_arith)
        requires
            2 * start == sr * ((2 * start) / sr) + (2 * start) % sr,
    ;
    lemma_fundamental_div_mod_converse(
        2 * (start + sr * f),
        sr,
        (2 * start) / sr + 2 * f,
        (2 * start) % sr,
    );
}

/// The rate law carried onto rendered output: a block that spans one
/// second plus its closing fencepost sample differs between consecutive
/// slots exactly `2 * f` times.
pub proof fn lemma_block_sign_changes(out: Seq<i32>, start: int, f: int, sr: int)
    requires
        0 <= start,
        0 < f,
        2 * f <= sr,
        out.len() == sr + 1,
        forall|k: int| 0 <= k < out.len() ==> out[k] == sample_value(start + k * f, sr),
    ensures
        flips_in(out) == 2 * f,
{
    lemma_flips_prefix(out, start, f, sr, sr + 1);
    assert(out.subrange(0, sr + 1) =~= out);
    lemma_sign_change_rate(start, f, sr);
}

} // verus!
