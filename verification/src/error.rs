//! The errors of the machine.
use vstd::prelude::*;

verus! {

/// Why an operation of the machine was refused.
///
/// Every variant but [`EnigmaError::NotFound`] is a validation error: the
/// caller handed in something that the operation does not accept. Nothing is
/// ever corrected silently; the operation fails and says why.
#[derive(Debug, Clone, Copy, PartialEq, Eq, Structural)]
pub enum EnigmaError {
    /// A wiring is not a permutation of the 26 symbols of the alphabet.
    MalformedWiring,
    /// The notch of a rotor is not a symbol of the alphabet, or a reflector
    /// record names a notch.
    InvalidNotch,
    /// A reflector wiring maps some symbol to itself.
    ReflectorFixedPoint,
    /// A reflector wiring is not its own inverse.
    ReflectorNotInvolution,
    /// A rotor assembly was given a number of rotors other than three.
    WrongRotorCount,
    /// The two symbols of a plugboard pair are the same.
    IdenticalPair,
    /// A plugboard has more than ten pairs.
    TooManyPairs,
    /// A symbol sits in more than one pair of a plugboard.
    DuplicateSymbol,
    /// A rotor position is not below 26.
    PositionOutOfRange,
    /// An indicator does not have the length that its use asks for.
    IndicatorLength,
    /// The two halves of a transmitted indicator decode to different keys.
    IndicatorMismatch,
    /// A symbol is not one of the 26 capital letters.
    InvalidSymbol,
    /// A crib is empty, or longer than the text it is laid against, or two
    /// texts that are held against each other differ in length.
    InvalidCrib,
    /// A record of a wiring source does not hold exactly a wiring and a
    /// notch of one symbol, or a line of a plugboard source does not hold
    /// exactly two symbols.
    MalformedRecord,
    /// No record of a wiring source carries the identifier asked for.
    NotFound,
}

impl EnigmaError {
    /// True of every error that blames the input, false of a failed lookup.
    pub open spec fn spec_is_validation(self) -> bool {
        self != EnigmaError::NotFound
    }

    /// Tells a validation error from a failed lookup.
    #[verifier::when_used_as_spec(spec_is_validation)]
    pub fn is_validation(self) -> (result: bool)
        ensures
            result == self.spec_is_validation(),
    {
        match self {
            EnigmaError::NotFound => false,
            _ => true,
        }
    }
}

} // verus!
