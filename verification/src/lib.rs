//! A rotor cipher machine of the Enigma class, and a crib search against it.
//!
//! The machine enciphers capital letters through a plugboard, three stepping
//! rotors and a reflector. Every piece comes with a mathematical model
//! (`RotorModel`, `AssemblyModel`, `MachineModel`), the executable functions
//! are proved against the models, and the laws of the machine (it is its own
//! inverse at equal offsets, and it never enciphers a letter to itself) are
//! proved of the models.

pub mod alphabet;
pub mod cryptoattack;
pub mod enigma;
pub mod error;
pub mod message;
pub mod mode;
pub mod plugboard;
pub mod rotor;
pub mod rotorassembly;
pub mod source;
pub mod text;
