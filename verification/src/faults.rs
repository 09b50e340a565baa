//! What the loop does about a failure at one of its boundaries.

use vstd::prelude::*;
use crate::tensor::DecodeError;

verus! {

/// A failure at one of the boundaries of the loop.
#[derive(Debug, Clone, Copy, PartialEq, Eq, Structural)]
pub enum Fault {
    /// The model could not be loaded or run.
    Inference,
    /// The capture device could not be opened or read.
    Capture,
    /// The output of the model could not be decoded.
    Decode(DecodeError),
    /// One display did not take its order.
    Actuator,
}

/// How the loop goes on after a failure.
#[derive(Debug, Clone, Copy, PartialEq, Eq, Structural)]
pub enum Reaction {
    /// Report and end the process with a non-zero status.
    Terminate,
    /// Report, leave the presence state as it is, and go on with the next
    /// frame.
    SkipTick,
    /// Report and go on with the next display.
    NextDevice,
}

/// A failure of the model or of the capture device is beyond repair. A frame
/// that cannot be decoded costs that frame only, and a display that fails
/// does not keep the others from being served.
pub open spec fn reaction_of(fault: Fault) -> Reaction {
    match fault {
        Fault::Inference => Reaction::Terminate,
        Fault::Capture => Reaction::Terminate,
        Fault::Decode(_) => Reaction::SkipTick,
        Fault::Actuator => Reaction::NextDevice,
    }
}

/// The process ends on a failure of the model or of the capture device and
/// on no other.
pub proof fn lemma_only_boundaries_terminate(fault: Fault)
    ensures
        (reaction_of(fault) == Reaction::Terminate) == (fault == Fault::Inference || fault
            == Fault::Capture),
{
}

/// Decides how the loop goes on after a failure.
pub fn reaction_to(fault: Fault) -> (r: Reaction)
    ensures
        r == reaction_of(fault),
{
    match fault {
        Fault::Inference => Reaction::Terminate,
        Fault::Capture => Reaction::Terminate,
        Fault::Decode(_) => Reaction::SkipTick,
        Fault::Actuator => Reaction::NextDevice,
    }
}

} // verus!
