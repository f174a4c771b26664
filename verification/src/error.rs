use vstd::prelude::*;

use crate::stage::ShaderStage;

verus! {

/// Error that can be triggered when creating a `Program`.
///
/// Allocation failure of a shader handle is folded into
/// `ShaderStageNotSupported`, and allocation failure of a program handle is
/// `ProgramCreationFailure`; diagnostic text is passed through from the
/// backend unchanged.
#[derive(Clone, Debug)]
pub enum ProgramCreationError {
    /// Error while compiling one of the shaders; carries the failing stage
    /// and the backend's diagnostic log.
    CompilationError(ShaderStage, String),

    /// Error while linking the program; carries the diagnostic text.
    LinkingError(String),

    /// Allocation of the program handle failed.
    ProgramCreationFailure,

    /// The requested shader stage is not supported by the backend, or the
    /// allocation of its handle failed.
    ShaderStageNotSupported,
}

/// Mathematical value of a `ProgramCreationError`: diagnostic text as a
/// sequence of characters.
#[verifier::ext_equal]
pub enum ErrorV {
    Compilation(ShaderStage, Seq<char>),
    Linking(Seq<char>),
    CreationFailure,
    StageNotSupported,
}

impl View for ProgramCreationError {
    type V = ErrorV;

    open spec fn view(&self) -> ErrorV {
        match self {
            ProgramCreationError::CompilationError(stage, log) => {
                ErrorV::Compilation(*stage, log@)
            },
            ProgramCreationError::LinkingError(log) => ErrorV::Linking(log@),
            ProgramCreationError::ProgramCreationFailure => ErrorV::CreationFailure,
            ProgramCreationError::ShaderStageNotSupported => ErrorV::StageNotSupported,
        }
    }
}

impl ProgramCreationError {
    /// The failing stage, where the error is a compilation error.
    pub fn compilation_stage(&self) -> (r: Option<ShaderStage>)
        ensures
            r == (match self@ {
                ErrorV::Compilation(stage, _) => Some(stage),
                _ => None::<ShaderStage>,
            }),
    {
        match self {
            ProgramCreationError::CompilationError(stage, _) => Some(*stage),
            _ => None,
        }
    }

    /// The diagnostic text carried by a compilation or linking error.
    pub fn diagnostic(&self) -> (r: Option<&String>)
        ensures
            (match self@ {
                ErrorV::Compilation(_, log) => r is Some && r->0@ == log,
                ErrorV::Linking(log) => r is Some && r->0@ == log,
                _ => r is None,
            }),
    {
        match self {
            ProgramCreationError::CompilationError(_, log) => Some(log),
            ProgramCreationError::LinkingError(log) => Some(log),
            _ => None,
        }
    }
}

} // verus!
