//! Capabilities shared by the game's objects.
use vstd::prelude::*;

verus! {

/// Something that needs a set-up step after construction.
pub trait Initializable {
    fn initialize(&mut self) {
    }
}

} // verus!
