//! Why a listing cannot be patched.

use vstd::prelude::*;

verus! {

/// The ways in which patching a shader listing fails.
#[derive(Clone, Copy, Debug, PartialEq, Eq, Structural)]
pub enum ShaderError {
    /// A search pattern was rejected by the expression engine.
    Pattern,
    /// A register row or a register count holds a number that cannot be read.
    Malformed,
    /// The input signature binds no register to the wanted semantic.
    NotFound,
}

impl ShaderError {
    /// A sentence that describes the failure.
    pub fn message(&self) -> (text: String)
        ensures
            text@ == match *self {
                ShaderError::Pattern => "search pattern rejected"@,
                ShaderError::Malformed => "malformed number in shader listing"@,
                ShaderError::NotFound => "TEXCOORD 1 not found in input signature"@,
            },
    {
        match self {
            ShaderError::Pattern => "search pattern rejected".to_owned(),
            ShaderError::Malformed => "malformed number in shader listing".to_owned(),
            ShaderError::NotFound => "TEXCOORD 1 not found in input signature".to_owned(),
        }
    }
}

} // verus!
