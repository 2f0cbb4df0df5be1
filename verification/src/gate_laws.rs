//! What holds of the countdown gate over whole runs of samples.

use vstd::prelude::*;
use crate::envelope::{advance, count_for, fires, run_gated, run_state, Baseline, GateModel};

verus! {

/// For a positive sample rate the baseline lies between zero and the sample
/// rate. It is zero for a zero time and for a time whose scaled value is greater
/// than the sample rate, and for no other time.
pub proof fn lemma_count_bounds(sample_rate_hz: int, scaled_ms: int)
    requires
        sample_rate_hz > 0,
        scaled_ms >= 0,
    ensures
        0 <= count_for(sample_rate_hz, scaled_ms) <= sample_rate_hz,
        count_for(sample_rate_hz, scaled_ms) == 0 <==> (scaled_ms == 0 || scaled_ms > sample_rate_hz),
{
    if scaled_ms > 0 {
        let quotient = sample_rate_hz / scaled_ms;
        assert(0 <= quotient <= sample_rate_hz && (quotient == 0 <==> scaled_ms > sample_rate_hz))
            by (nonlinear_arith)
            requires
                quotient == sample_rate_hz / scaled_ms,
                sample_rate_hz > 0,
                scaled_ms > 0,
        ;
    }
}

/// Feeding one more sample to a run is one more `advance`.
pub proof fn lemma_run_extends(g: GateModel, flags: Seq<bool>, base: Baseline, i: int)
    requires
        0 <= i < flags.len(),
    ensures
        run_state(g, flags.take(i + 1), base) == advance(
            run_state(g, flags.take(i), base),
            flags[i],
            base,
        ),
{
    assert(flags.take(i + 1).drop_last() == flags.take(i));
    assert(flags.take(i + 1).last() == flags[i]);
}

/// How many samples of an above-threshold run pass before one is gated: as many
/// as both countdowns allow, the attack countdown reaching zero on the sample
/// that is gated.
pub open spec fn ungated_while_above(g: GateModel) -> int {
    let room = if g.attack - 1 <= g.release {
        g.attack - 1
    } else {
        g.release
    };
    if room >= 0 {
        room
    } else {
        0
    }
}

/// As long as an above-threshold run has gated no sample, every sample lowers
/// both countdowns by one.
pub proof fn lemma_counting_while_above(g: GateModel, flags: Seq<bool>, base: Baseline, k: int)
    requires
        0 <= k <= flags.len(),
        k <= ungated_while_above(g),
        forall|j: int| 0 <= j < k ==> flags[j],
    ensures
        run_state(g, flags.take(k), base) == (GateModel {
            attack: g.attack - k,
            release: g.release - k,
        }),
    decreases k,
{
    if k == 0 {
        assert(flags.take(0).len() == 0);
    } else {
        lemma_counting_while_above(g, flags, base, k - 1);
        lemma_run_extends(g, flags, base, k - 1);
    }
}

/// In a run of samples that all exceed the threshold, the first gated sample is
/// the one on which either countdown runs out: none before it is gated, and it
/// is.
pub proof fn lemma_first_gated_in_run(g: GateModel, flags: Seq<bool>, base: Baseline, i: int)
    requires
        0 <= i < flags.len(),
        i <= ungated_while_above(g),
        forall|j: int| 0 <= j <= i ==> flags[j],
    ensures
        run_gated(g, flags, base)[i] == (i == ungated_while_above(g)),
{
    lemma_counting_while_above(g, flags, base, i);
}

/// While the signal stays above the threshold the attack countdown goes down by
/// one per sample, whatever the release countdown does, until it reaches the
/// lowest value that its counter holds.
pub proof fn lemma_attack_counts_down(g: GateModel, flags: Seq<bool>, base: Baseline, k: int)
    requires
        0 <= k <= flags.len(),
        g.attack - k >= i32::MIN,
        forall|j: int| 0 <= j < k ==> flags[j],
    ensures
        run_state(g, flags.take(k), base).attack == g.attack - k,
    decreases k,
{
    if k == 0 {
        assert(flags.take(0).len() == 0);
    } else {
        lemma_attack_counts_down(g, flags, base, k - 1);
        lemma_run_extends(g, flags, base, k - 1);
    }
}

/// Attack delays the onset of gain reduction. Take a gate whose attack countdown
/// stands at `n >= 1`, as it does after any sample at or below the threshold
/// when `n` is the attack baseline, and feed it a run of above-threshold
/// samples. The `n`-th sample of the run is gated. No sample before it is, as
/// long as the release countdown has not run out by then.
pub proof fn lemma_attack_delay(g: GateModel, flags: Seq<bool>, base: Baseline, i: int)
    requires
        g.attack >= 1,
        0 <= i < flags.len(),
        i < g.attack,
        forall|j: int| 0 <= j <= i ==> flags[j],
        i + 1 < g.attack ==> g.release > i,
    ensures
        run_gated(g, flags, base)[i] == (i + 1 == g.attack),
{
    if i + 1 < g.attack {
        lemma_first_gated_in_run(g, flags, base, i);
    } else {
        lemma_attack_counts_down(g, flags, base, i);
    }
}

/// The same in terms of the settings. At a sample rate of 44100, or any other
/// positive rate, take an attack time above zero, and a gate armed at the
/// baseline `n` of that time. In a run of above-threshold samples the `n`-th
/// sample is gated, and no sample before it is, as long as the release countdown
/// has not run out by then. (Where the time is so long that `n` is cut to zero,
/// there is no such sample, and nothing is said.)
pub proof fn lemma_attack_delay_for_setting(
    sample_rate_hz: int,
    scaled_ms: int,
    g: GateModel,
    flags: Seq<bool>,
    base: Baseline,
    i: int,
)
    requires
        sample_rate_hz > 0,
        scaled_ms > 0,
        base.attack == count_for(sample_rate_hz, scaled_ms),
        g.attack == base.attack,
        0 <= i < flags.len(),
        i < base.attack,
        forall|j: int| 0 <= j <= i ==> flags[j],
        i + 1 < base.attack ==> g.release > i,
    ensures
        run_gated(g, flags, base)[i] == (i + 1 == count_for(sample_rate_hz, scaled_ms)),
{
    lemma_attack_delay(g, flags, base, i);
}

/// A sample at or below the threshold re-arms the attack: its countdown is back
/// at the baseline.
pub proof fn lemma_rearmed(g: GateModel, base: Baseline)
    ensures
        advance(g, false, base).attack == base.attack,
{
}

/// With a zero attack baseline, the first sample of a run to exceed the
/// threshold is gated there and then. Only a gate handed over in the middle of an
/// earlier, longer countdown can still be counting on the very first sample of
/// the run.
pub proof fn lemma_zero_attack_first_exceeding(
    g: GateModel,
    flags: Seq<bool>,
    base: Baseline,
    i: int,
)
    requires
        base.attack == 0,
        0 <= i < flags.len(),
        flags[i],
        forall|j: int| 0 <= j < i ==> !flags[j],
        i == 0 ==> g.attack <= 1 || g.release <= 0,
    ensures
        run_gated(g, flags, base)[i],
{
    if i == 0 {
        assert(flags.take(0).len() == 0);
    } else {
        lemma_run_extends(g, flags, base, i - 1);
    }
}

/// Under a zero attack baseline the attack countdown never climbs above one once
/// it is there.
proof fn lemma_zero_attack_stays_low(g: GateModel, flags: Seq<bool>, base: Baseline, k: int)
    requires
        base.attack == 0,
        g.attack <= 1,
        0 <= k <= flags.len(),
    ensures
        run_state(g, flags.take(k), base).attack <= 1,
    decreases k,
{
    if k == 0 {
        assert(flags.take(0).len() == 0);
    } else {
        lemma_zero_attack_stays_low(g, flags, base, k - 1);
        lemma_run_extends(g, flags, base, k - 1);
    }
}

/// With a zero attack baseline and a gate that is not in the middle of a longer
/// countdown (a fresh gate is not), every sample that exceeds the threshold is
/// gated.
pub proof fn lemma_zero_attack_gates_every_exceeding(
    g: GateModel,
    flags: Seq<bool>,
    base: Baseline,
    i: int,
)
    requires
        base.attack == 0,
        g.attack <= 1,
        0 <= i < flags.len(),
        flags[i],
    ensures
        run_gated(g, flags, base)[i],
{
    lemma_zero_attack_stays_low(g, flags, base, i);
}

/// Under a zero release baseline a release countdown that has run out stays run
/// out.
proof fn lemma_zero_release_stays_out(g: GateModel, flags: Seq<bool>, base: Baseline, k: int)
    requires
        base.release == 0,
        g.release <= 0,
        0 <= k <= flags.len(),
    ensures
        run_state(g, flags.take(k), base).release <= 0,
    decreases k,
{
    if k == 0 {
        assert(flags.take(0).len() == 0);
    } else {
        lemma_zero_release_stays_out(g, flags, base, k - 1);
        lemma_run_extends(g, flags, base, k - 1);
    }
}

/// With a zero release baseline there is no cool-down: once the release
/// countdown has run out (in a fresh gate it has), every sample is gated.
pub proof fn lemma_zero_release_gates_every_sample(
    g: GateModel,
    flags: Seq<bool>,
    base: Baseline,
    i: int,
)
    requires
        base.release == 0,
        g.release <= 0,
        0 <= i < flags.len(),
    ensures
        run_gated(g, flags, base)[i],
{
    lemma_zero_release_stays_out(g, flags, base, i);
}

/// How many samples of a run at or below the threshold pass before one is
/// gated: as many as the release countdown allows.
pub open spec fn ungated_while_below(g: GateModel) -> int {
    if g.release >= 0 {
        g.release
    } else {
        0
    }
}

/// Under a positive attack baseline, as long as a run at or below the threshold
/// has gated no sample, every sample lowers the release countdown by one and
/// keeps the attack countdown at its baseline.
pub proof fn lemma_counting_while_below(g: GateModel, flags: Seq<bool>, base: Baseline, k: int)
    requires
        base.attack >= 1,
        0 <= k <= flags.len(),
        k <= ungated_while_below(g),
        forall|j: int| 0 <= j < k ==> !flags[j],
    ensures
        run_state(g, flags.take(k), base) == (GateModel {
            attack: if k == 0 {
                g.attack
            } else {
                base.attack as int
            },
            release: g.release - k,
        }),
    decreases k,
{
    if k == 0 {
        assert(flags.take(0).len() == 0);
    } else {
        lemma_counting_while_below(g, flags, base, k - 1);
        lemma_run_extends(g, flags, base, k - 1);
    }
}

/// Release delays the next firing. Under a positive attack baseline, in a run of
/// samples that stay at or below the threshold, the first gated sample is the
/// one on which the release countdown has run out: none before it is gated, and
/// it is.
pub proof fn lemma_release_delay(g: GateModel, flags: Seq<bool>, base: Baseline, i: int)
    requires
        base.attack >= 1,
        0 <= i < flags.len(),
        i <= ungated_while_below(g),
        forall|j: int| 0 <= j <= i ==> !flags[j],
    ensures
        run_gated(g, flags, base)[i] == (i == ungated_while_below(g)),
{
    lemma_counting_while_below(g, flags, base, i);
}

/// Countdowns carry over from one block of samples to the next: feeding a stream
/// in two blocks leaves the same countdowns, and takes the same decisions, as
/// feeding it whole.
pub proof fn lemma_blocks_compose(
    g: GateModel,
    first: Seq<bool>,
    second: Seq<bool>,
    base: Baseline,
)
    ensures
        run_state(g, first + second, base) == run_state(run_state(g, first, base), second, base),
        run_gated(g, first + second, base) == run_gated(g, first, base) + run_gated(
            run_state(g, first, base),
            second,
            base,
        ),
{
    lemma_state_composes(g, first, second, base);
    let whole = first + second;
    let middle = run_state(g, first, base);
    assert forall|i: int| 0 <= i < whole.len() implies run_gated(g, whole, base)[i] == (run_gated(
        g,
        first,
        base,
    ) + run_gated(middle, second, base))[i] by {
        if i < first.len() {
            assert(whole.take(i) == first.take(i));
        } else {
            let k = i - first.len();
            assert(whole.take(i) == first + second.take(k));
            lemma_state_composes(g, first, second.take(k), base);
        }
    }
}

/// The countdowns after two blocks are those after the second block, started
/// from where the first one ended.
proof fn lemma_state_composes(g: GateModel, first: Seq<bool>, second: Seq<bool>, base: Baseline)
    ensures
        run_state(g, first + second, base) == run_state(run_state(g, first, base), second, base),
    decreases second.len(),
{
    if second.len() == 0 {
        assert(first + second == first);
    } else {
        lemma_state_composes(g, first, second.drop_last(), base);
        assert((first + second).drop_last() == first + second.drop_last());
    }
}

/// A fresh gate gates the first sample it sees, whatever the sample and the
/// baselines are: its release countdown starts run out.
pub proof fn lemma_fresh_gate_fires(above: bool, base: Baseline)
    ensures
        fires(GateModel { attack: 0, release: 0 }, above, base),
{
}

/// A gate whose counters have no lowest value: its attack countdown after a
/// sample.
pub open spec fn unbounded_attack_after(g: GateModel, above: bool, base: Baseline) -> int {
    if above {
        g.attack - 1
    } else {
        base.attack as int
    }
}

/// The gating decision of a gate with unbounded counters.
pub open spec fn unbounded_fires(g: GateModel, above: bool, base: Baseline) -> bool {
    unbounded_attack_after(g, above, base) <= 0 || g.release <= 0
}

/// The countdowns of a gate with unbounded counters after a sample.
pub open spec fn unbounded_advance(g: GateModel, above: bool, base: Baseline) -> GateModel {
    GateModel {
        attack: unbounded_attack_after(g, above, base),
        release: if unbounded_fires(g, above, base) {
            base.release as int
        } else {
            g.release - 1
        },
    }
}

/// The countdowns of a gate with unbounded counters after a run of samples.
pub open spec fn unbounded_run_state(g: GateModel, flags: Seq<bool>, base: Baseline) -> GateModel
    decreases flags.len(),
{
    if flags.len() == 0 {
        g
    } else {
        unbounded_advance(unbounded_run_state(g, flags.drop_last(), base), flags.last(), base)
    }
}

/// The gating decisions of a gate with unbounded counters along a run.
pub open spec fn unbounded_run_gated(g: GateModel, flags: Seq<bool>, base: Baseline) -> Seq<bool> {
    Seq::new(
        flags.len(),
        |i: int| unbounded_fires(unbounded_run_state(g, flags.take(i), base), flags[i], base),
    )
}

/// The bounded countdowns `g` stand for the unbounded ones `u`: they are the
/// same, but that an attack countdown resting at its lowest value stands for
/// that value and any below it.
pub open spec fn stands_for(g: GateModel, u: GateModel) -> bool {
    &&& g.release == u.release
    &&& g.attack >= i32::MIN
    &&& g.attack == u.attack || (g.attack == i32::MIN && u.attack < i32::MIN)
}

/// One sample keeps the bounded gate in step with the unbounded one, and both
/// take the same decision.
pub proof fn lemma_step_stands_for(g: GateModel, u: GateModel, above: bool, base: Baseline)
    requires
        stands_for(g, u),
    ensures
        fires(g, above, base) == unbounded_fires(u, above, base),
        stands_for(advance(g, above, base), unbounded_advance(u, above, base)),
{
}

/// Along any run the bounded gate stays in step with the unbounded one.
pub proof fn lemma_run_stands_for(g: GateModel, flags: Seq<bool>, base: Baseline)
    requires
        g.attack >= i32::MIN,
    ensures
        stands_for(run_state(g, flags, base), unbounded_run_state(g, flags, base)),
    decreases flags.len(),
{
    if flags.len() > 0 {
        lemma_run_stands_for(g, flags.drop_last(), base);
        lemma_step_stands_for(
            run_state(g, flags.drop_last(), base),
            unbounded_run_state(g, flags.drop_last(), base),
            flags.last(),
            base,
        );
    }
}

/// Stopping the attack countdown at the lowest value that its counter holds
/// changes no decision: on every run of samples the decisions are those of a
/// gate with unbounded counters.
pub proof fn lemma_floor_is_unobservable(g: GateModel, flags: Seq<bool>, base: Baseline)
    requires
        g.attack >= i32::MIN,
    ensures
        run_gated(g, flags, base) == unbounded_run_gated(g, flags, base),
{
    assert forall|i: int| 0 <= i < flags.len() implies run_gated(g, flags, base)[i]
        == unbounded_run_gated(g, flags, base)[i] by {
        lemma_run_stands_for(g, flags.take(i), base);
        lemma_step_stands_for(
            run_state(g, flags.take(i), base),
            unbounded_run_state(g, flags.take(i), base),
            flags[i],
            base,
        );
    }
}

} // verus!
