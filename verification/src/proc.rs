//! Process bootstrap pieces the workers share: the builder naming one
//! worker to spawn, and the staged sandbox calls. Spawning itself, and
//! the socket the parent and child share, are I/O and live with the
//! caller.

use vstd::prelude::*;

verus! {

/// The descriptor number at which every worker inherits the seqpacket
/// socket to its parent.
pub const PARENT_FD: i32 = 3;

/// What to spawn: the binary to re-execute and the role name handed to it.
#[derive(Debug, PartialEq, Clone)]
pub struct ProcessBuilder {
    pub path: String,
    pub name: String,
}

impl ProcessBuilder {
    /// A builder for the worker `name`, run from the binary at `path`.
    pub fn new(path: &str, name: &str) -> (r: ProcessBuilder)
        ensures
            r.path@ == path@,
            r.name@ == name@,
    {
        ProcessBuilder { path: path.to_owned(), name: name.to_owned() }
    }
}

/// A refused sandbox call.
#[derive(Debug, PartialEq, Eq, Structural, Clone, Copy)]
pub enum SandboxError {
    Refused,
}

/// Relies on `pledge::pledge`: narrows the process's allowed system calls
/// to the named promise sets. A platform without the call leaves the
/// process as it was and is not an error; nothing observable to the
/// library is promised either way.
#[verifier::external_body]
pub fn pledge(promises: &str, execpromises: Option<&str>) -> (r: Result<(), SandboxError>) {
    match ::pledge::pledge(promises, execpromises).or_else(::pledge::Error::ignore_platform) {
        Ok(()) => Ok(()),
        Err(_) => Err(SandboxError::Refused),
    }
}

/// Relies on `unveil::unveil`: narrows the process's filesystem view to
/// the named path with the named permissions. A platform without the call
/// leaves the process as it was and is not an error; nothing observable
/// to the library is promised either way.
#[verifier::external_body]
pub fn unveil(path: &str, permissions: &str) -> (r: Result<(), SandboxError>) {
    match ::unveil::unveil(path, permissions).or_else(::unveil::Error::ignore_platform) {
        Ok(()) => Ok(()),
        Err(_) => Err(SandboxError::Refused),
    }
}

} // verus!
