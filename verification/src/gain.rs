//! Which gain treatment a sample gets.

use vstd::prelude::*;

verus! {

/// How gain reduction treats a sample that exceeds the threshold.
#[derive(Clone, Copy, Debug, PartialEq, Eq, Structural)]
pub enum Mode {
    /// Attenuate the excess over the threshold by the ratio.
    Compress,
    /// Clamp to the threshold.
    Limit,
}

/// The treatment of one sample.
#[derive(Clone, Copy, Debug, PartialEq, Eq, Structural)]
pub enum GainAction {
    /// Leave the sample as it is.
    Pass,
    /// Replace the sample by `threshold + (sample - threshold) / ratio + sample`.
    Compress,
    /// Replace the sample by the threshold.
    Clamp,
}

impl GainAction {
    /// The sample after this treatment. `compressed` stands for the value of the
    /// compression formula on the sample.
    pub open spec fn applied<T>(self, sample: T, threshold: T, compressed: T) -> T {
        match self {
            GainAction::Pass => sample,
            GainAction::Compress => compressed,
            GainAction::Clamp => threshold,
        }
    }

    /// Carries the treatment out on amplitudes of any type. The arithmetic on
    /// amplitudes is the caller's: it brings the value of the compression
    /// formula on the sample, and gets back the sample, that value or the
    /// threshold, untouched.
    pub fn apply<T>(self, sample: T, threshold: T, compressed: T) -> (out: T)
        ensures
            out == self.applied(sample, threshold, compressed),
    {
        match self {
            GainAction::Pass => sample,
            GainAction::Compress => compressed,
            GainAction::Clamp => threshold,
        }
    }
}

/// The treatment of a sample that gain reduction applies to: a sample that does
/// not exceed the threshold passes, one that does is treated as the mode says.
pub open spec fn gain_choice(exceeds: bool, mode: Mode) -> GainAction {
    if !exceeds {
        GainAction::Pass
    } else {
        match mode {
            Mode::Compress => GainAction::Compress,
            Mode::Limit => GainAction::Clamp,
        }
    }
}

/// The treatment of a sample in its place in the stream: gain reduction applies
/// to gated samples only, and any other sample passes, however it compares with
/// the threshold.
pub open spec fn sample_choice(gated: bool, exceeds: bool, mode: Mode) -> GainAction {
    if gated {
        gain_choice(exceeds, mode)
    } else {
        GainAction::Pass
    }
}

/// Chooses the treatment of a sample that gain reduction applies to. `exceeds`
/// says whether the sample is greater than the threshold.
pub fn gain_action(exceeds: bool, mode: Mode) -> (action: GainAction)
    ensures
        action == gain_choice(exceeds, mode),
{
    if !exceeds {
        GainAction::Pass
    } else {
        match mode {
            Mode::Compress => GainAction::Compress,
            Mode::Limit => GainAction::Clamp,
        }
    }
}

/// Chooses the treatment of a sample given the gating decision on it.
pub fn sample_action(gated: bool, exceeds: bool, mode: Mode) -> (action: GainAction)
    ensures
        action == sample_choice(gated, exceeds, mode),
{
    if gated {
        gain_action(exceeds, mode)
    } else {
        GainAction::Pass
    }
}

/// A sample that does not exceed the threshold comes out unchanged, whatever the
/// mode, the threshold and the ratio (which has its say in `compressed` only).
pub proof fn lemma_within_threshold_passes<T>(mode: Mode, sample: T, threshold: T, compressed: T)
    ensures
        gain_choice(false, mode) == GainAction::Pass,
        gain_choice(false, mode).applied(sample, threshold, compressed) == sample,
{
}

/// In limit mode a sample that exceeds the threshold comes out as the threshold
/// itself.
pub proof fn lemma_limit_clamps<T>(sample: T, threshold: T, compressed: T)
    ensures
        gain_choice(true, Mode::Limit) == GainAction::Clamp,
        gain_choice(true, Mode::Limit).applied(sample, threshold, compressed) == threshold,
{
}

/// In compress mode a sample that exceeds the threshold comes out as the value
/// of the compression formula.
pub proof fn lemma_compress_compresses<T>(sample: T, threshold: T, compressed: T)
    ensures
        gain_choice(true, Mode::Compress) == GainAction::Compress,
        gain_choice(true, Mode::Compress).applied(sample, threshold, compressed) == compressed,
{
}

/// In its place in the stream, too, a sample that does not exceed the threshold
/// comes out unchanged: gated or not, and whatever the mode.
pub proof fn lemma_within_threshold_passes_everywhere<T>(
    gated: bool,
    mode: Mode,
    sample: T,
    threshold: T,
    compressed: T,
)
    ensures
        sample_choice(gated, false, mode).applied(sample, threshold, compressed) == sample,
{
}

/// A sample that is not gated comes out unchanged, whether or not it exceeds
/// the threshold.
pub proof fn lemma_ungated_passes<T>(
    exceeds: bool,
    mode: Mode,
    sample: T,
    threshold: T,
    compressed: T,
)
    ensures
        sample_choice(false, exceeds, mode).applied(sample, threshold, compressed) == sample,
{
}

} // verus!
