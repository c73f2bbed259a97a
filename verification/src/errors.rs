//! The error taxonomy of the launcher and its propagation policy: directory-
//! and file-level failures are absorbed where they arise, while resolution
//! and process-spawn failures end the run.

use vstd::prelude::*;

verus! {

/// Everything that can go wrong during a run.
#[derive(Clone, Copy, Debug, PartialEq, Eq, Structural)]
pub enum LauncherError {
    /// No usable system data directory was found, or no home directory
    /// could be determined.
    Configuration,
    /// One system directory could not be listed; it contributes nothing.
    DirectoryRead,
    /// One desktop-entry file could not be read; it is skipped.
    EntryRead,
    /// The user override directory could not be listed.
    UserDirectory,
    /// The configured runner process could not be started.
    RunnerSpawn,
    /// The runner's output could not be captured; nothing is launched.
    RunnerOutput,
    /// The external launch handler could not be started.
    LaunchHandler,
}

/// The errors that terminate the run with a message: configuration and
/// user-directory resolution failures and process-spawn failures.  The
/// others are logged and absorbed in place.
pub open spec fn spec_is_fatal(e: LauncherError) -> bool {
    match e {
        LauncherError::Configuration => true,
        LauncherError::UserDirectory => true,
        LauncherError::RunnerSpawn => true,
        LauncherError::LaunchHandler => true,
        LauncherError::DirectoryRead => false,
        LauncherError::EntryRead => false,
        LauncherError::RunnerOutput => false,
    }
}

impl LauncherError {
    /// Whether this error ends the run, as `spec_is_fatal` describes.
    pub fn is_fatal(&self) -> (r: bool)
        ensures
            r == spec_is_fatal(*self),
    {
        match self {
            LauncherError::Configuration => true,
            LauncherError::UserDirectory => true,
            LauncherError::RunnerSpawn => true,
            LauncherError::LaunchHandler => true,
            LauncherError::DirectoryRead => false,
            LauncherError::EntryRead => false,
            LauncherError::RunnerOutput => false,
        }
    }
}

} // verus!
