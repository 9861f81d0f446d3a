//! The two directions of a message.
use vstd::prelude::*;

verus! {

/// The direction in which a message passes through the machine.
#[derive(Debug, Clone, Copy, PartialEq, Eq, Structural)]
pub enum Mode {
    Encrypt,
    Decrypt,
}

impl Mode {
    /// The length of the indicator that goes with the direction: the
    /// three-symbol message key on the way in, its six-symbol transmitted
    /// form on the way back.
    pub open spec fn spec_indicator_length(self) -> usize {
        match self {
            Mode::Encrypt => 3,
            Mode::Decrypt => 6,
        }
    }

    /// The length of the indicator that goes with the direction.
    #[verifier::when_used_as_spec(spec_indicator_length)]
    pub fn indicator_length(self) -> (length: usize)
        ensures
            length == self.spec_indicator_length(),
    {
        match self {
            Mode::Encrypt => 3,
            Mode::Decrypt => 6,
        }
    }
}

} // verus!
