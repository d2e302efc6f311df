//! Names of the game's animations and textures.
use vstd::prelude::*;

verus! {

#[derive(Clone, Copy, Debug, PartialEq, Eq, Structural)]
pub enum PlayersAnimations {
    Idle,
}

impl PlayersAnimations {
    /// The name of the animation's directory.
    pub fn as_str(&self) -> (r: &'static str)
        ensures
            r@ == "idle"@,
    {
        match self {
            PlayersAnimations::Idle => "idle",
        }
    }
}

#[derive(Clone, Copy, Debug, PartialEq, Eq, Hash, Structural)]
pub enum TextureName {
    Character,
}

} // verus!
