//! Calls into the operating system through nix.
use vstd::prelude::*;

verus! {

/// Relies on `nix::unistd::dup`: a new descriptor, at a new index, for the
/// open file that `fd` refers to. nix turns the `-1` that the system call
/// returns on failure into `Err` with the error number, so an `Ok` never
/// holds `-1`.
#[verifier::external_body]
pub(crate) fn dup_fd(fd: i32) -> (r: Result<i32, i32>)
    ensures
        r matches Ok(n) ==> n != -1 && n != fd,
{
    match nix::unistd::dup(fd) {
        Ok(n) => Ok(n),
        Err(e) => Err(e as i32),
    }
}

} // verus!
