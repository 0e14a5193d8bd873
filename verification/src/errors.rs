use vstd::prelude::*;

verus! {

/// Failure taxonomy of the prefetch and build-invocation layers.
///
/// Every fallible public function of this crate reports one of these
/// variants; the surrounding binary decides how to render them.
#[derive(Clone, Copy, Debug, PartialEq, Eq, Structural)]
pub enum Error {
    /// The persisted hash cache file exists but is not a JSON object
    /// mapping package identities to hash strings.
    CacheCorrupt,
    /// An external command could not be started.
    ProcessSpawnFailed,
    /// An external command exited with a non-success status; carries the
    /// exit code, or -1 when the process was terminated without one.
    ProcessExitedNonzero(i32),
    /// Command output was not valid text, or not the expected structured
    /// payload.
    OutputNotDecodable,
    /// A fetcher was invoked on a source kind it does not handle.
    UnexpectedSourceKind,
    /// The external builder exited with a non-success status; carries the
    /// exit code, or -1 when the process was terminated without one.
    BuildFailed(i32),
}

/// The exit code reported for a finished process: its code, or -1 when it
/// was terminated without one.
pub open spec fn exit_code_spec(code: Option<i32>) -> i32 {
    match code {
        Some(c) => c,
        None => -1i32,
    }
}

/// The exit code reported for a finished process.
pub fn exit_code(code: Option<i32>) -> (r: i32)
    ensures
        r == exit_code_spec(code),
{
    match code {
        Some(c) => c,
        None => -1,
    }
}

} // verus!
