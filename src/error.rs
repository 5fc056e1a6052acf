use vstd::prelude::*;

verus! {

/// What can go wrong while enciphering or deciphering.
#[derive(Debug, Clone, Copy, PartialEq, Eq, Structural)]
pub enum PlayfairError {
    /// A letter of the text is not in the key square (the left-out letter).
    MissingCharacter(char),
}

} // verus!
