//! Where a state of the game's state machine stands in its life cycle.
use vstd::prelude::*;

verus! {

#[derive(Clone, Copy, Debug, PartialEq, Eq, Structural)]
pub enum FlowState {
    Enter,
    Update,
    Exit,
}

} // verus!
