//! The stages of an ADSR envelope. `trigger()` starts a note
//! (attack → decay → sustain), `release()` ends it (→ release → idle); a
//! stage ends when the level it ramps reaches its target, which the caller
//! reports. With a sustain level of zero the envelope finishes by itself after
//! the decay (a pluck or percussion envelope).
use vstd::prelude::*;

verus! {

#[derive(Clone, Copy, Debug, PartialEq, Eq, Structural)]
pub enum Stage {
    Idle,
    Attack,
    Decay,
    Sustain,
    Release,
}

/// The stage that follows `s` once its ramp reached its target.
pub open spec fn next_stage(s: Stage, sustain_is_zero: bool) -> Stage {
    match s {
        Stage::Attack => Stage::Decay,
        Stage::Decay => if sustain_is_zero {
            Stage::Idle
        } else {
            Stage::Sustain
        },
        Stage::Release => Stage::Idle,
        other => other,
    }
}

impl Stage {
    /// Start a note: the attack begins (from any stage).
    pub fn trigger(self) -> (s: Stage)
        ensures
            s == Stage::Attack,
    {
        Stage::Attack
    }

    /// End the note: an envelope that sounds moves to its release; an idle
    /// one stays idle.
    pub fn release(self) -> (s: Stage)
        ensures
            s == (if self == Stage::Idle {
                Stage::Idle
            } else {
                Stage::Release
            }),
    {
        if self == Stage::Idle {
            Stage::Idle
        } else {
            Stage::Release
        }
    }

    /// Whether the envelope sounds.
    pub fn active(self) -> (r: bool)
        ensures
            r == (self != Stage::Idle),
    {
        self != Stage::Idle
    }

    /// The stage after this one's ramp reached its target; `sustain_is_zero`
    /// tells whether the sustain level is zero. Idle and sustain have no ramp
    /// and stay.
    pub fn reached(self, sustain_is_zero: bool) -> (s: Stage)
        ensures
            s == next_stage(self, sustain_is_zero),
    {
        match self {
            Stage::Attack => Stage::Decay,
            Stage::Decay => if sustain_is_zero {
                Stage::Idle
            } else {
                Stage::Sustain
            },
            Stage::Release => Stage::Idle,
            other => other,
        }
    }
}

/// A triggered envelope runs attack, decay and then sustain; with a zero
/// sustain level it goes idle right after the decay instead, and a released
/// one goes idle after its release.
pub proof fn lemma_envelope_course(s: Stage, sustain_is_zero: bool)
    ensures
        next_stage(next_stage(Stage::Attack, sustain_is_zero), sustain_is_zero) == (if sustain_is_zero {
            Stage::Idle
        } else {
            Stage::Sustain
        }),
        next_stage(Stage::Release, sustain_is_zero) == Stage::Idle,
        next_stage(Stage::Sustain, sustain_is_zero) == Stage::Sustain,
        next_stage(Stage::Idle, sustain_is_zero) == Stage::Idle,
{
}

} // verus!
