//! The ways in which the engine fails.

use vstd::prelude::*;
use vstd::string::StringExecFns;

verus! {

/// The two phases of a swap that move files.
#[derive(Clone, Copy, Debug, PartialEq, Eq, Structural)]
pub enum Phase {
    /// Loose files go back into the subdirectory of the set that owns them.
    Park,
    /// The files of a set come out of its subdirectory into the root.
    Pull,
}

/// Why an operation of the engine did not go through.
#[derive(Debug, PartialEq, Eq)]
pub enum EngineError {
    /// The pointer record exists and cannot be read as a pointer.
    StoreCorrupt,
    /// The root has no set of the name that was asked for.
    InvalidTarget,
    /// The destination already holds a file called `file`.
    RelocationConflict { file: String, phase: Phase },
    /// The file system refused an operation on `path`.
    IOFailure { path: String, phase: Phase },
}

/// An error as the contracts see it.
pub enum ErrorView {
    StoreCorrupt,
    InvalidTarget,
    RelocationConflict { file: Seq<char>, phase: Phase },
    IOFailure { path: Seq<char>, phase: Phase },
}

impl View for EngineError {
    type V = ErrorView;

    open spec fn view(&self) -> ErrorView {
        match *self {
            EngineError::StoreCorrupt => ErrorView::StoreCorrupt,
            EngineError::InvalidTarget => ErrorView::InvalidTarget,
            EngineError::RelocationConflict { file, phase } => ErrorView::RelocationConflict {
                file: file@,
                phase,
            },
            EngineError::IOFailure { path, phase } => ErrorView::IOFailure { path: path@, phase },
        }
    }
}

/// The name of a phase, as messages give it.
pub open spec fn phase_name(phase: Phase) -> Seq<char> {
    match phase {
        Phase::Park => "park"@,
        Phase::Pull => "pull"@,
    }
}

/// What an error says to the user: what went wrong, in which phase, and on
/// which file or path.
pub open spec fn message_of(e: ErrorView) -> Seq<char> {
    match e {
        ErrorView::StoreCorrupt => "the pointer record cannot be read"@,
        ErrorView::InvalidTarget => "no such set"@,
        ErrorView::RelocationConflict { file, phase } => phase_name(phase)
            + ": a file of this name is already there: "@ + file,
        ErrorView::IOFailure { path, phase } => phase_name(phase) + ": cannot move: "@ + path,
    }
}

impl Phase {
    /// The name of the phase.
    pub fn name(&self) -> (text: String)
        ensures
            text@ == phase_name(*self),
    {
        match self {
            Phase::Park => "park".to_owned(),
            Phase::Pull => "pull".to_owned(),
        }
    }
}

impl EngineError {
    /// The error in words.
    pub fn message(&self) -> (text: String)
        ensures
            text@ == message_of(self@),
    {
        match self {
            EngineError::StoreCorrupt => "the pointer record cannot be read".to_owned(),
            EngineError::InvalidTarget => "no such set".to_owned(),
            EngineError::RelocationConflict { file, phase } => {
                let mut text = phase.name();
                text.append(": a file of this name is already there: ");
                text.append(file.as_str());
                text
            },
            EngineError::IOFailure { path, phase } => {
                let mut text = phase.name();
                text.append(": cannot move: ");
                text.append(path.as_str());
                text
            },
        }
    }
}

} // verus!
