//! The countdown gate: per-channel attack and release counters that decide,
//! sample by sample, whether gain reduction applies.

use vstd::prelude::*;

verus! {

/// The values that the countdowns are put back to during one processing call.
#[derive(Clone, Copy, Debug, PartialEq, Eq, Structural)]
pub struct Baseline {
    /// Consecutive above-threshold samples needed before gain reduction sets in.
    pub attack: i32,
    /// Samples that pass after a gated sample before the next one is gated on
    /// the strength of the release countdown alone.
    pub release: i32,
}

/// The baseline for a time setting: the sample rate divided by the time in
/// thousandths of a millisecond, rounded toward zero; zero for a zero time.
pub open spec fn count_for(sample_rate_hz: int, scaled_ms: int) -> int {
    if scaled_ms == 0 {
        0
    } else {
        sample_rate_hz / scaled_ms
    }
}

/// Computes the countdown baseline for an attack or release time.
///
/// `scaled_ms` is the time in milliseconds multiplied by 1000 and cut to a whole
/// number. A time of zero means "instantaneous" and gives a baseline of zero.
pub fn default_count(sample_rate_hz: i32, scaled_ms: u32) -> (count: i32)
    requires
        sample_rate_hz > 0,
    ensures
        count == count_for(sample_rate_hz as int, scaled_ms as int),
        0 <= count <= sample_rate_hz,
        count == 0 <==> (scaled_ms == 0 || scaled_ms > sample_rate_hz),
{
    if scaled_ms == 0 {
        0
    } else {
        let rate: u32 = sample_rate_hz as u32;
        let quotient: u32 = rate / scaled_ms;
        assert(0 <= quotient <= rate && (quotient == 0 <==> scaled_ms > rate)) by (nonlinear_arith)
            requires
                quotient == rate / scaled_ms,
                scaled_ms > 0,
        ;
        quotient as i32
    }
}

/// The two countdowns of one channel, as mathematical integers.
pub struct GateModel {
    pub attack: int,
    pub release: int,
}

/// A countdown after one decrement. It stops at the lowest value that the
/// counter can hold, where it is as far below zero as it will ever need to be.
pub open spec fn lowered(count: int) -> int {
    if count > i32::MIN {
        count - 1
    } else {
        count
    }
}

/// The attack countdown after a sample: one lower while the signal stays above
/// the threshold, back at its baseline as soon as it does not.
pub open spec fn attack_after(g: GateModel, above: bool, base: Baseline) -> int {
    if above {
        lowered(g.attack)
    } else {
        base.attack as int
    }
}

/// Whether the sample is gated, that is, whether gain reduction applies to it:
/// the attack countdown has run out with this sample, or the release countdown
/// had run out before it.
pub open spec fn fires(g: GateModel, above: bool, base: Baseline) -> bool {
    attack_after(g, above, base) <= 0 || g.release <= 0
}

/// The countdowns after a sample. A gated sample puts the release countdown back
/// to its baseline; any other sample lowers it by one.
pub open spec fn advance(g: GateModel, above: bool, base: Baseline) -> GateModel {
    GateModel {
        attack: attack_after(g, above, base),
        release: if fires(g, above, base) {
            base.release as int
        } else {
            g.release - 1
        },
    }
}

/// The countdowns after a run of samples, fed in order; `flags[i]` says whether
/// sample `i` exceeds the threshold.
pub open spec fn run_state(g: GateModel, flags: Seq<bool>, base: Baseline) -> GateModel
    decreases flags.len(),
{
    if flags.len() == 0 {
        g
    } else {
        advance(run_state(g, flags.drop_last(), base), flags.last(), base)
    }
}

/// The gating decisions along a run: sample `i` is judged in the state that the
/// `i` samples before it have left.
pub open spec fn run_gated(g: GateModel, flags: Seq<bool>, base: Baseline) -> Seq<bool> {
    Seq::new(flags.len(), |i: int| fires(run_state(g, flags.take(i), base), flags[i], base))
}

/// The envelope state of one channel. It lives as long as the channel does: the
/// countdowns carry over from sample to sample and from call to call.
#[derive(Clone, Copy, Debug, PartialEq, Eq, Structural)]
pub struct EnvelopeState {
    pub attack_countdown: i32,
    pub release_countdown: i32,
}

impl View for EnvelopeState {
    type V = GateModel;

    open spec fn view(&self) -> GateModel {
        GateModel { attack: self.attack_countdown as int, release: self.release_countdown as int }
    }
}

impl EnvelopeState {
    /// A fresh gate: both countdowns at zero.
    pub fn new() -> (state: Self)
        ensures
            state@ == (GateModel { attack: 0, release: 0 }),
    {
        EnvelopeState { attack_countdown: 0, release_countdown: 0 }
    }

    /// Feeds one sample to this gate. `above` says whether the sample exceeds
    /// the threshold. Returns whether the sample is gated; the sample itself is
    /// not touched here.
    pub fn step(&mut self, above: bool, base: Baseline) -> (gated: bool)
        ensures
            gated == fires(old(self)@, above, base),
            final(self)@ == advance(old(self)@, above, base),
    {
        if above {
            if self.attack_countdown > i32::MIN {
                self.attack_countdown = self.attack_countdown - 1;
            }
        } else {
            self.attack_countdown = base.attack;
        }
        if self.attack_countdown <= 0 || self.release_countdown <= 0 {
            self.release_countdown = base.release;
            true
        } else {
            self.release_countdown = self.release_countdown - 1;
            false
        }
    }

    /// Feeds a run of samples to this gate, one flag per sample, and returns the
    /// gating decision for each of them in order.
    pub fn run(&mut self, flags: &[bool], base: Baseline) -> (gated: Vec<bool>)
        ensures
            gated@ == run_gated(old(self)@, flags@, base),
            final(self)@ == run_state(old(self)@, flags@, base),
    {
        let mut gated: Vec<bool> = Vec::with_capacity(flags.len());
        let mut i: usize = 0;
        while i < flags.len()
            invariant
                i <= flags.len(),
                self@ == run_state(old(self)@, flags@.take(i as int), base),
                gated@ == run_gated(old(self)@, flags@, base).take(i as int),
            decreases flags.len() - i,
        {
            let decision = self.step(flags[i], base);
            gated.push(decision);
            proof {
                assert(flags@.take(i + 1).drop_last() == flags@.take(i as int));
            }
            i = i + 1;
        }
        proof {
            assert(flags@.take(flags.len() as int) == flags@);
        }
        gated
    }
}

} // verus!
