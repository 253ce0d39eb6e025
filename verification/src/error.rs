//! The reader's error taxonomy and the exit code each class maps to.
//!
//! Inside the target nothing ever fails loudly; these errors are the
//! reader's, and the recording command's exit code is derived from the
//! class alone.

use vstd::prelude::*;

verus! {

/// Exit code for success.
pub const EXIT_SUCCESS: i32 = 0;

/// Exit code for an unclassified failure.
pub const EXIT_GENERAL_ERROR: i32 = 1;

/// Exit code for rejected command-line arguments.
pub const EXIT_INVALID_ARGUMENTS: i32 = 2;

/// Exit code when the target process cannot be found (or several match).
pub const EXIT_PROCESS_NOT_FOUND: i32 = 3;

/// Exit code when the target cannot be attached for lack of permissions.
pub const EXIT_PERMISSION_DENIED: i32 = 4;

/// Exit code when the target binary carries no debug information.
pub const EXIT_MISSING_DEBUG_INFO: i32 = 5;

/// Exit code when the store cannot be written.
pub const EXIT_DATABASE_ERROR: i32 = 6;

/// Everything that can go wrong on the reader's side.
pub enum ProfError {
    /// No process matches the request.
    ProcessNotFound(String),
    /// Several processes match a name; the list is carried for display.
    MultipleProcesses(String, String),
    /// The target exists but cannot be attached.
    PermissionDenied(String),
    /// The target binary carries no debug information.
    MissingDebugInfo(String),
    /// The fallback sampler could not be set up.
    PerfEvent(String),
    /// A sampler failed.
    Sampler(String),
    /// The store failed.
    Database(String),
    /// An input or output operation failed.
    Io(String),
    /// A command-line argument was rejected.
    InvalidArgument(String),
    /// The debug information could not be interpreted.
    SymbolResolution(String),
    /// The platform lacks what recording needs.
    UnsupportedPlatform(String),
}

impl ProfError {
    /// The process exit code of this error class: missing processes,
    /// denied permissions, missing debug info, store failures and bad
    /// arguments each have their own; everything else is the general
    /// failure code.
    pub fn exit_code(&self) -> (r: i32)
        ensures
            r == match self {
                ProfError::ProcessNotFound(_) => EXIT_PROCESS_NOT_FOUND as int,
                ProfError::MultipleProcesses(_, _) => EXIT_PROCESS_NOT_FOUND as int,
                ProfError::PermissionDenied(_) => EXIT_PERMISSION_DENIED as int,
                ProfError::MissingDebugInfo(_) => EXIT_MISSING_DEBUG_INFO as int,
                ProfError::Database(_) => EXIT_DATABASE_ERROR as int,
                ProfError::InvalidArgument(_) => EXIT_INVALID_ARGUMENTS as int,
                _ => EXIT_GENERAL_ERROR as int,
            },
    {
        match self {
            ProfError::ProcessNotFound(_) => EXIT_PROCESS_NOT_FOUND,
            ProfError::MultipleProcesses(_, _) => EXIT_PROCESS_NOT_FOUND,
            ProfError::PermissionDenied(_) => EXIT_PERMISSION_DENIED,
            ProfError::MissingDebugInfo(_) => EXIT_MISSING_DEBUG_INFO,
            ProfError::Database(_) => EXIT_DATABASE_ERROR,
            ProfError::InvalidArgument(_) => EXIT_INVALID_ARGUMENTS,
            ProfError::PerfEvent(_) => EXIT_GENERAL_ERROR,
            ProfError::Sampler(_) => EXIT_GENERAL_ERROR,
            ProfError::Io(_) => EXIT_GENERAL_ERROR,
            ProfError::SymbolResolution(_) => EXIT_GENERAL_ERROR,
            ProfError::UnsupportedPlatform(_) => EXIT_GENERAL_ERROR,
        }
    }

    /// The message carried with the error.
    pub fn message(&self) -> (r: String)
        ensures
            r@ == match self {
                ProfError::ProcessNotFound(m) => m@,
                ProfError::MultipleProcesses(m, _) => m@,
                ProfError::PermissionDenied(m) => m@,
                ProfError::MissingDebugInfo(m) => m@,
                ProfError::PerfEvent(m) => m@,
                ProfError::Sampler(m) => m@,
                ProfError::Database(m) => m@,
                ProfError::Io(m) => m@,
                ProfError::InvalidArgument(m) => m@,
                ProfError::SymbolResolution(m) => m@,
                ProfError::UnsupportedPlatform(m) => m@,
            },
    {
        match self {
            ProfError::ProcessNotFound(m) => m.clone(),
            ProfError::MultipleProcesses(m, _) => m.clone(),
            ProfError::PermissionDenied(m) => m.clone(),
            ProfError::MissingDebugInfo(m) => m.clone(),
            ProfError::PerfEvent(m) => m.clone(),
            ProfError::Sampler(m) => m.clone(),
            ProfError::Database(m) => m.clone(),
            ProfError::Io(m) => m.clone(),
            ProfError::InvalidArgument(m) => m.clone(),
            ProfError::SymbolResolution(m) => m.clone(),
            ProfError::UnsupportedPlatform(m) => m.clone(),
        }
    }
}

} // verus!
