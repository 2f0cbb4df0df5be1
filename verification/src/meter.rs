//! Which update the decaying peak meter gets at the end of a processing call.

use vstd::prelude::*;

verus! {

/// The time, in milliseconds, that the peak reading takes to decay by 12 dB once
/// the signal has gone silent.
pub const PEAK_METER_DECAY_MS: u32 = 150;

/// The update of the peak reading for one processing call.
#[derive(Clone, Copy, Debug, PartialEq, Eq, Structural)]
pub enum MeterAction {
    /// Nobody is looking at the meter: store nothing.
    Hold,
    /// Instant attack: the reading becomes the call's amplitude.
    Attack,
    /// Decay: the reading becomes
    /// `reading * decay_weight + amplitude * (1 - decay_weight)`.
    Decay,
}

impl MeterAction {
    /// The reading to store after this update, if any. `blended` stands for the
    /// value of the decay formula on the reading and the amplitude.
    pub open spec fn stored<T>(self, amplitude: T, blended: T) -> Option<T> {
        match self {
            MeterAction::Hold => None,
            MeterAction::Attack => Some(amplitude),
            MeterAction::Decay => Some(blended),
        }
    }

    /// Carries the update out on amplitudes of any type. The arithmetic on
    /// amplitudes is the caller's: it brings the value of the decay formula, and
    /// gets back what to store, if anything: the amplitude or that value,
    /// untouched.
    pub fn apply<T>(self, amplitude: T, blended: T) -> (store: Option<T>)
        ensures
            store == self.stored(amplitude, blended),
    {
        match self {
            MeterAction::Hold => None,
            MeterAction::Attack => Some(amplitude),
            MeterAction::Decay => Some(blended),
        }
    }
}

/// The update that the meter gets: none while it is not visible; otherwise the
/// reading jumps to an amplitude above it and decays toward any other.
pub open spec fn meter_choice(visible: bool, rising: bool) -> MeterAction {
    if !visible {
        MeterAction::Hold
    } else if rising {
        MeterAction::Attack
    } else {
        MeterAction::Decay
    }
}

/// Chooses the peak-meter update for a processing call. `visible` says whether
/// the meter is on display; `rising` says whether the call's amplitude is greater
/// than the current reading.
pub fn meter_action(visible: bool, rising: bool) -> (action: MeterAction)
    ensures
        action == meter_choice(visible, rising),
{
    if !visible {
        MeterAction::Hold
    } else if rising {
        MeterAction::Attack
    } else {
        MeterAction::Decay
    }
}

/// While the meter is visible, an amplitude above the reading is taken over at
/// once: the reading follows a rising signal without lag.
pub proof fn lemma_rising_amplitude_attacks<T>(amplitude: T, blended: T)
    ensures
        meter_choice(true, true) == MeterAction::Attack,
        meter_choice(true, true).stored(amplitude, blended) == Some(amplitude),
{
}

/// While the meter is visible, an amplitude that is not above the reading makes
/// the reading decay toward it: what is stored is the value of the decay
/// formula.
pub proof fn lemma_other_amplitude_decays<T>(amplitude: T, blended: T)
    ensures
        meter_choice(true, false) == MeterAction::Decay,
        meter_choice(true, false).stored(amplitude, blended) == Some(blended),
{
}

/// While the meter is not visible nothing is stored, whatever the amplitude.
pub proof fn lemma_hidden_meter_holds<T>(rising: bool, amplitude: T, blended: T)
    ensures
        meter_choice(false, rising) == MeterAction::Hold,
        meter_choice(false, rising).stored(amplitude, blended) == None::<T>,
{
}

} // verus!
