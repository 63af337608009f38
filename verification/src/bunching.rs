//! The staged progress of the bunching computation.
//!
//! The computation runs in three phases, each prepared once and then carried
//! forward a percent at a time. Which call comes next, and what is then
//! reported, depends on the phase and the percent alone.

use vstd::prelude::*;

verus! {

/// The call that carries the bunching computation one stage further.
#[derive(Clone, Copy, Debug, PartialEq, Eq, Structural)]
pub enum BunchingCall {
    /// Nothing is left to do.
    Done,
    Phase1Prepare,
    Phase1Proceed,
    Phase2Prepare,
    Phase2Proceed,
    Phase3Prepare,
    Phase3Proceed,
    /// The phase is none of those that exist: nothing is called.
    Idle,
}

/// What one round of progress does: the call to make, and the phase and
/// percent to report after it.
#[derive(Clone, Copy, Debug, PartialEq, Eq, Structural)]
pub struct BunchingStep {
    pub call: BunchingCall,
    pub phase: u8,
    pub percent: u8,
}

/// The call for a phase and a percent.
pub open spec fn bunching_call_spec(phase: u8, percent: u8) -> BunchingCall {
    if phase == 3 && percent == 100 {
        BunchingCall::Done
    } else if phase == 0 {
        BunchingCall::Phase1Prepare
    } else if phase == 1 {
        if percent < 100 {
            BunchingCall::Phase1Proceed
        } else {
            BunchingCall::Phase2Prepare
        }
    } else if phase == 2 {
        if percent < 100 {
            BunchingCall::Phase2Proceed
        } else {
            BunchingCall::Phase3Prepare
        }
    } else if phase == 3 {
        BunchingCall::Phase3Proceed
    } else {
        BunchingCall::Idle
    }
}

/// One round of progress: finished work stays at phase 3 and 100 percent; a
/// fresh start or a phase at 100 percent leads to the next phase at 0; any
/// other round adds a percent.
pub open spec fn bunching_progress_spec(phase: u8, percent: u8) -> BunchingStep {
    let call = bunching_call_spec(phase, percent);
    if phase == 3 && percent == 100 {
        BunchingStep { call, phase: 3, percent: 100 }
    } else if phase == 0 || percent == 100 {
        BunchingStep { call, phase: (phase + 1) as u8, percent: 0 }
    } else {
        BunchingStep { call, phase, percent: (percent + 1) as u8 }
    }
}

/// One round of progress for a computation that stands at `phase` and
/// `percent`.
pub fn bunching_progress(phase: u8, percent: u8) -> (step: BunchingStep)
    requires
        phase == 0 || percent == 100 ==> phase < u8::MAX,
        phase != 0 && percent != 100 ==> percent < u8::MAX,
    ensures
        step == bunching_progress_spec(phase, percent),
{
    if phase == 3 && percent == 100 {
        return BunchingStep { call: BunchingCall::Done, phase: 3, percent: 100 };
    }
    let call = if phase == 0 {
        BunchingCall::Phase1Prepare
    } else if phase == 1 {
        if percent < 100 {
            BunchingCall::Phase1Proceed
        } else {
            BunchingCall::Phase2Prepare
        }
    } else if phase == 2 {
        if percent < 100 {
            BunchingCall::Phase2Proceed
        } else {
            BunchingCall::Phase3Prepare
        }
    } else if phase == 3 {
        BunchingCall::Phase3Proceed
    } else {
        BunchingCall::Idle
    };
    if phase == 0 || percent == 100 {
        BunchingStep { call, phase: phase + 1, percent: 0 }
    } else {
        BunchingStep { call, phase, percent: percent + 1 }
    }
}

/// From a fresh start, with every phase within its hundred percent, a round
/// keeps the phase within three and the percent within a hundred, and only
/// the finished state is left as it is.
pub proof fn lemma_bunching_stays_in_range(phase: u8, percent: u8)
    requires
        phase <= 3,
        percent <= 100,
    ensures
        bunching_progress_spec(phase, percent).phase <= 3 || (phase == 3 && percent == 100),
        bunching_progress_spec(phase, percent).percent <= 100,
        (bunching_progress_spec(phase, percent).phase == phase && bunching_progress_spec(
            phase,
            percent,
        ).percent == percent) <==> (phase == 3 && percent == 100),
{
}

} // verus!
