//! The engine: one gate per channel, the baselines of the current processing
//! call, and the sample rate they are derived from.

use vstd::prelude::*;
use crate::envelope::{advance, count_for, default_count, fires, Baseline, EnvelopeState, GateModel};
use crate::gain::{gain_choice, sample_action, sample_choice, GainAction, Mode};

verus! {

/// Why an engine cannot be set up.
#[derive(Clone, Copy, Debug, PartialEq, Eq, Structural)]
pub enum ConfigError {
    /// The sample rate is zero or negative.
    NonPositiveSampleRate,
}

/// The configuration of an engine: a sample rate that is known to be positive.
#[derive(Clone, Copy, Debug)]
pub struct EngineConfig {
    sample_rate_hz: i32,
}

impl EngineConfig {
    #[verifier::type_invariant]
    spec fn positive_rate(self) -> bool {
        self.sample_rate_hz > 0
    }

    /// The sample rate, in samples per second.
    pub closed spec fn rate(self) -> int {
        self.sample_rate_hz as int
    }

    /// Accepts a sample rate, in samples per second, if it is positive.
    pub fn new(sample_rate_hz: i32) -> (made: Result<EngineConfig, ConfigError>)
        ensures
            match made {
                Ok(config) => sample_rate_hz > 0 && config.rate() == sample_rate_hz,
                Err(error) => sample_rate_hz <= 0 && error == ConfigError::NonPositiveSampleRate,
            },
    {
        if sample_rate_hz <= 0 {
            Err(ConfigError::NonPositiveSampleRate)
        } else {
            Ok(EngineConfig { sample_rate_hz })
        }
    }

    /// The sample rate, in samples per second.
    pub fn sample_rate_hz(&self) -> (rate: i32)
        ensures
            rate == self.rate(),
            rate > 0,
    {
        proof {
            use_type_invariant(self);
        }
        self.sample_rate_hz
    }
}

/// The engine as mathematical values.
pub struct EngineModel {
    /// Samples per second; always positive.
    pub sample_rate_hz: int,
    /// The baselines in force.
    pub baseline: Baseline,
    /// The countdowns of each channel.
    pub gates: Seq<GateModel>,
}

/// The state that every engine starts from and returns to when it is set up
/// anew: zero baselines and fresh gates.
pub open spec fn fresh_engine(sample_rate_hz: int, channels: nat) -> EngineModel {
    EngineModel {
        sample_rate_hz,
        baseline: Baseline { attack: 0, release: 0 },
        gates: Seq::new(channels, |i: int| GateModel { attack: 0, release: 0 }),
    }
}

/// The engine after one sample on one channel: that channel's gate advances, and
/// nothing else changes.
pub open spec fn engine_after_sample(e: EngineModel, channel: int, exceeds: bool) -> EngineModel {
    EngineModel { gates: e.gates.update(channel, advance(e.gates[channel], exceeds, e.baseline)), ..e }
}

/// The treatment of one sample on one channel.
pub open spec fn engine_choice(e: EngineModel, channel: int, exceeds: bool, mode: Mode) -> GainAction {
    sample_choice(fires(e.gates[channel], exceeds, e.baseline), exceeds, mode)
}

/// The engine after one sample group, `exceeds[c]` being the sample of channel
/// `c`: every channel's gate advances by its own sample.
pub open spec fn engine_after_frame(e: EngineModel, exceeds: Seq<bool>) -> EngineModel {
    EngineModel {
        gates: Seq::new(e.gates.len(), |c: int| advance(e.gates[c], exceeds[c], e.baseline)),
        ..e
    }
}

/// The samples of one sample group after their treatment, channel by channel.
/// `compressed[c]` stands for the value of the compression formula on the sample
/// of channel `c`.
pub open spec fn frame_output<T>(
    e: EngineModel,
    samples: Seq<T>,
    exceeds: Seq<bool>,
    compressed: Seq<T>,
    threshold: T,
    mode: Mode,
) -> Seq<T> {
    Seq::new(
        e.gates.len(),
        |c: int| engine_choice(e, c, exceeds[c], mode).applied(samples[c], threshold, compressed[c]),
    )
}

/// A dynamics engine for a fixed number of channels. Each channel has its own
/// gate; the channels share the baselines.
pub struct DynamicsEngine {
    config: EngineConfig,
    baseline: Baseline,
    gates: Vec<EnvelopeState>,
}

impl View for DynamicsEngine {
    type V = EngineModel;

    closed spec fn view(&self) -> EngineModel {
        EngineModel {
            sample_rate_hz: self.config.rate(),
            baseline: self.baseline,
            gates: Seq::new(self.gates@.len(), |i: int| self.gates@[i]@),
        }
    }
}

impl DynamicsEngine {
    /// Sets up an engine for `channels` channels at the given sample rate, in
    /// samples per second. Fails on a sample rate that is not positive.
    pub fn new(sample_rate_hz: i32, channels: usize) -> (made: Result<DynamicsEngine, ConfigError>)
        ensures
            match made {
                Ok(engine) => sample_rate_hz > 0 && engine@ == fresh_engine(
                    sample_rate_hz as int,
                    channels as nat,
                ),
                Err(error) => sample_rate_hz <= 0 && error == ConfigError::NonPositiveSampleRate,
            },
    {
        match EngineConfig::new(sample_rate_hz) {
            Err(error) => Err(error),
            Ok(config) => {
                let gates = Self::fresh_gates(channels);
                let engine = DynamicsEngine {
                    config,
                    baseline: Baseline { attack: 0, release: 0 },
                    gates,
                };
                assert(engine@.gates == fresh_engine(sample_rate_hz as int, channels as nat).gates);
                Ok(engine)
            },
        }
    }

    /// Sets the engine up anew for another sample rate: the baselines return to
    /// zero and every gate starts afresh. On a sample rate that is not positive
    /// the engine stays as it is.
    pub fn initialize(&mut self, sample_rate_hz: i32) -> (done: Result<(), ConfigError>)
        ensures
            match done {
                Ok(()) => sample_rate_hz > 0 && final(self)@ == fresh_engine(
                    sample_rate_hz as int,
                    old(self)@.gates.len(),
                ),
                Err(error) => sample_rate_hz <= 0 && error == ConfigError::NonPositiveSampleRate
                    && final(self)@ == old(self)@,
            },
    {
        match EngineConfig::new(sample_rate_hz) {
            Err(error) => Err(error),
            Ok(config) => {
                let channels = self.gates.len();
                self.gates = Self::fresh_gates(channels);
                self.config = config;
                self.baseline = Baseline { attack: 0, release: 0 };
                assert(self@.gates == fresh_engine(
                    sample_rate_hz as int,
                    old(self)@.gates.len(),
                ).gates);
                Ok(())
            },
        }
    }

    /// The sample rate, in samples per second.
    pub fn sample_rate_hz(&self) -> (rate: i32)
        ensures
            rate == self@.sample_rate_hz,
            rate > 0,
    {
        self.config.sample_rate_hz()
    }

    /// The number of channels.
    pub fn channels(&self) -> (count: usize)
        ensures
            count == self@.gates.len(),
    {
        self.gates.len()
    }

    /// The baselines in force.
    pub fn baseline(&self) -> (base: Baseline)
        ensures
            base == self@.baseline,
    {
        self.baseline
    }

    /// The envelope state of one channel.
    pub fn gate(&self, channel: usize) -> (state: EnvelopeState)
        requires
            channel < self@.gates.len(),
        ensures
            state@ == self@.gates[channel as int],
    {
        self.gates[channel]
    }

    /// Recomputes the attack baseline from the attack time, given in
    /// milliseconds multiplied by 1000 and cut to a whole number, and returns
    /// it. The countdowns of the gates stay as they are.
    pub fn set_attack_count(&mut self, scaled_ms: u32) -> (count: i32)
        ensures
            count == count_for(old(self)@.sample_rate_hz, scaled_ms as int),
            final(self)@ == (EngineModel {
                baseline: Baseline { attack: count, release: old(self)@.baseline.release },
                ..old(self)@
            }),
    {
        let count = default_count(self.config.sample_rate_hz(), scaled_ms);
        self.baseline.attack = count;
        count
    }

    /// Recomputes the release baseline from the release time, given in
    /// milliseconds multiplied by 1000 and cut to a whole number, and returns
    /// it. The countdowns of the gates stay as they are.
    pub fn set_release_count(&mut self, scaled_ms: u32) -> (count: i32)
        ensures
            count == count_for(old(self)@.sample_rate_hz, scaled_ms as int),
            final(self)@ == (EngineModel {
                baseline: Baseline { attack: old(self)@.baseline.attack, release: count },
                ..old(self)@
            }),
    {
        let count = default_count(self.config.sample_rate_hz(), scaled_ms);
        self.baseline.release = count;
        count
    }

    /// Feeds one sample of one channel to the engine and returns its treatment.
    /// `exceeds` says whether the sample is greater than the threshold.
    pub fn step(&mut self, channel: usize, exceeds: bool, mode: Mode) -> (action: GainAction)
        requires
            channel < old(self)@.gates.len(),
        ensures
            action == engine_choice(old(self)@, channel as int, exceeds, mode),
            final(self)@ == engine_after_sample(old(self)@, channel as int, exceeds),
    {
        let mut gate = self.gates[channel];
        let gated = gate.step(exceeds, self.baseline);
        self.gates.set(channel, gate);
        assert(self@.gates == engine_after_sample(old(self)@, channel as int, exceeds).gates);
        sample_action(gated, exceeds, mode)
    }

    /// Processes one sample group in place, one sample per channel. For each
    /// channel `c` the caller brings, besides the sample, whether it is greater
    /// than the threshold (`exceeds[c]`) and the value of the compression
    /// formula on it (`compressed[c]`). Every gate advances by its own sample,
    /// and every sample is replaced by what its treatment makes of it.
    pub fn process_frame<T: Copy>(
        &mut self,
        samples: &mut Vec<T>,
        exceeds: &[bool],
        compressed: &[T],
        threshold: T,
        mode: Mode,
    )
        requires
            old(samples)@.len() == old(self)@.gates.len(),
            exceeds@.len() == old(self)@.gates.len(),
            compressed@.len() == old(self)@.gates.len(),
        ensures
            final(samples)@ == frame_output(
                old(self)@,
                old(samples)@,
                exceeds@,
                compressed@,
                threshold,
                mode,
            ),
            final(self)@ == engine_after_frame(old(self)@, exceeds@),
    {
        let mut channel: usize = 0;
        while channel < exceeds.len()
            invariant
                channel <= exceeds@.len(),
                exceeds@.len() == old(self)@.gates.len(),
                compressed@.len() == old(self)@.gates.len(),
                samples@.len() == old(self)@.gates.len(),
                self@.gates.len() == old(self)@.gates.len(),
                self@.sample_rate_hz == old(self)@.sample_rate_hz,
                self@.baseline == old(self)@.baseline,
                forall|c: int|
                    0 <= c < channel ==> #[trigger] self@.gates[c] == advance(
                        old(self)@.gates[c],
                        exceeds@[c],
                        old(self)@.baseline,
                    ),
                forall|c: int|
                    channel <= c < exceeds@.len() ==> #[trigger] self@.gates[c] == old(self)@.gates[c],
                forall|c: int|
                    0 <= c < channel ==> #[trigger] samples@[c] == frame_output(
                        old(self)@,
                        old(samples)@,
                        exceeds@,
                        compressed@,
                        threshold,
                        mode,
                    )[c],
                forall|c: int|
                    channel <= c < exceeds@.len() ==> #[trigger] samples@[c] == old(samples)@[c],
            decreases exceeds@.len() - channel,
        {
            let action = self.step(channel, exceeds[channel], mode);
            let treated = action.apply(samples[channel], threshold, compressed[channel]);
            samples.set(channel, treated);
            channel = channel + 1;
        }
        assert(self@.gates == engine_after_frame(old(self)@, exceeds@).gates);
        assert(samples@ == frame_output(
            old(self)@,
            old(samples)@,
            exceeds@,
            compressed@,
            threshold,
            mode,
        ));
    }

    fn fresh_gates(channels: usize) -> (gates: Vec<EnvelopeState>)
        ensures
            gates@.len() == channels,
            forall|i: int| 0 <= i < channels ==> (#[trigger] gates@[i])@ == (GateModel { attack: 0, release: 0 }),
    {
        let mut gates: Vec<EnvelopeState> = Vec::with_capacity(channels);
        let mut i: usize = 0;
        while i < channels
            invariant
                i <= channels,
                gates@.len() == i,
                forall|j: int| 0 <= j < i ==> (#[trigger] gates@[j])@ == (GateModel { attack: 0, release: 0 }),
            decreases channels - i,
        {
            gates.push(EnvelopeState::new());
            i = i + 1;
        }
        gates
    }
}

/// The engine after the samples of the first `n` channels of a sample group,
/// fed one by one in channel order.
pub open spec fn engine_after_steps(e: EngineModel, exceeds: Seq<bool>, n: nat) -> EngineModel
    decreases n,
{
    if n == 0 {
        e
    } else {
        engine_after_sample(engine_after_steps(e, exceeds, (n - 1) as nat), n - 1, exceeds[n - 1])
    }
}

/// Feeding the first `n` samples of a sample group one by one advances the gates
/// of those channels, each by its own sample, and leaves the rest of the engine
/// alone.
pub proof fn lemma_steps_touch_their_channels(e: EngineModel, exceeds: Seq<bool>, n: nat)
    requires
        n <= e.gates.len(),
    ensures
        engine_after_steps(e, exceeds, n).sample_rate_hz == e.sample_rate_hz,
        engine_after_steps(e, exceeds, n).baseline == e.baseline,
        engine_after_steps(e, exceeds, n).gates.len() == e.gates.len(),
        forall|c: int|
            0 <= c < e.gates.len() ==> #[trigger] engine_after_steps(e, exceeds, n).gates[c] == (if c
                < n {
                advance(e.gates[c], exceeds[c], e.baseline)
            } else {
                e.gates[c]
            }),
    decreases n,
{
    if n > 0 {
        lemma_steps_touch_their_channels(e, exceeds, (n - 1) as nat);
    }
}

/// A sample group processed at once is the same as its samples fed one by one
/// in channel order: the engine ends up the same, and every sample comes out as
/// its own treatment makes it.
pub proof fn lemma_frame_is_steps<T>(
    e: EngineModel,
    samples: Seq<T>,
    exceeds: Seq<bool>,
    compressed: Seq<T>,
    threshold: T,
    mode: Mode,
)
    requires
        exceeds.len() == e.gates.len(),
    ensures
        engine_after_frame(e, exceeds) == engine_after_steps(e, exceeds, exceeds.len()),
        forall|c: int|
            0 <= c < exceeds.len() ==> #[trigger] frame_output(
                e,
                samples,
                exceeds,
                compressed,
                threshold,
                mode,
            )[c] == engine_choice(
                engine_after_steps(e, exceeds, c as nat),
                c,
                exceeds[c],
                mode,
            ).applied(samples[c], threshold, compressed[c]),
{
    lemma_steps_touch_their_channels(e, exceeds, exceeds.len());
    assert(engine_after_frame(e, exceeds).gates == engine_after_steps(
        e,
        exceeds,
        exceeds.len(),
    ).gates);
    assert forall|c: int| 0 <= c < exceeds.len() implies #[trigger] frame_output(
        e,
        samples,
        exceeds,
        compressed,
        threshold,
        mode,
    )[c] == engine_choice(engine_after_steps(e, exceeds, c as nat), c, exceeds[c], mode).applied(
        samples[c],
        threshold,
        compressed[c],
    ) by {
        lemma_steps_touch_their_channels(e, exceeds, c as nat);
    }
}

/// On a channel whose gate is fresh, the first sample is gated whatever the
/// baselines are, so it gets the treatment that its mode gives to a sample of
/// its kind.
pub proof fn lemma_fresh_channel_is_treated_at_once(
    e: EngineModel,
    channel: int,
    exceeds: bool,
    mode: Mode,
)
    requires
        0 <= channel < e.gates.len(),
        e.gates[channel] == (GateModel { attack: 0, release: 0 }),
    ensures
        engine_choice(e, channel, exceeds, mode) == gain_choice(exceeds, mode),
{
}

} // verus!
