//! Navigation: which of the four views is showing.

use vstd::prelude::*;

verus! {

#[derive(Debug, Clone, Copy, PartialEq, Eq, Structural)]
pub enum NavigationStateMessage {
    KeyGen,
    EncryptDecrypt,
    Hashing,
    Sign,
}

pub struct NavigationButtons {
    pub current_state: NavigationStateMessage,
}

impl NavigationButtons {
    /// Starts on the key-generation view.
    pub fn new() -> (r: Self)
        ensures
            r.current_state == NavigationStateMessage::KeyGen,
    {
        Self { current_state: NavigationStateMessage::KeyGen }
    }

    /// Switches to the requested view.
    pub fn update(&mut self, state: NavigationStateMessage)
        ensures
            final(self).current_state == state,
    {
        self.current_state = state;
    }
}

} // verus!
