use vstd::prelude::*;

use crate::gameplay::Step;

verus! {

/// When an effect starts.
#[derive(Debug, Clone, Copy, PartialEq, Eq, Structural)]
pub enum Trigger {
    Never,
    ActivateInMainStep,
    PlayFromHand,
    Attach,
    OnStartTurn,
    OnEndTurn,
    OnEnterStep(Step),
    OnExitStep(Step),
    OnBeforePerformArt,
    OnAfterPerformArt,
    OnBeforeRollDice,
    OnAfterRollDice,
}

} // verus!
