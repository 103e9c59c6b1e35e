//! Error surface of the witness generator.

use vstd::prelude::*;

verus! {

/// Everything that can abort a witness computation.
#[derive(Debug, Clone, PartialEq, Eq)]
pub enum WitnessGeneratorError {
    /// Generic failure from integration glue.
    CatchAll(String),
    /// The conventional JSON decoder rejected the document; carries its
    /// message.
    SerdeJson(String),
    /// Structural violation in the JSON state machine.
    JsonParser(String),
    /// Key missing, array index out of bounds, or a terminal value that is
    /// not a primitive.
    JsonKeyError(String),
}

impl WitnessGeneratorError {
    /// The human-readable message carried by the error.
    pub fn message(&self) -> (r: String)
        ensures
            r@ == match self {
                WitnessGeneratorError::CatchAll(s) => s@,
                WitnessGeneratorError::SerdeJson(s) => s@,
                WitnessGeneratorError::JsonParser(s) => s@,
                WitnessGeneratorError::JsonKeyError(s) => s@,
            },
    {
        match self {
            WitnessGeneratorError::CatchAll(s) => s.clone(),
            WitnessGeneratorError::SerdeJson(s) => s.clone(),
            WitnessGeneratorError::JsonParser(s) => s.clone(),
            WitnessGeneratorError::JsonKeyError(s) => s.clone(),
        }
    }
}

} // verus!
