use vstd::prelude::*;

verus! {

/// Relies on libc::F_DUPFD: the platform's code for the control operation
/// that duplicates a descriptor.
#[verifier::external_body]
fn dupfd_code() -> (r: i32) {
    libc::F_DUPFD
}

/// Relies on libc::F_DUPFD_CLOEXEC: the platform's code for the control
/// operation that duplicates a descriptor and marks the copy close-on-exec.
#[verifier::external_body]
fn dupfd_cloexec_code() -> (r: i32) {
    libc::F_DUPFD_CLOEXEC
}

/// The codes of the control operations that duplicate a descriptor.
#[derive(Clone, Copy, Debug, PartialEq, Eq, Structural)]
pub struct DupCommands {
    pub dupfd: i32,
    pub dupfd_cloexec: i32,
}

impl DupCommands {
    /// The codes that this platform uses.
    pub fn platform() -> (r: DupCommands) {
        DupCommands { dupfd: dupfd_code(), dupfd_cloexec: dupfd_cloexec_code() }
    }

    /// Whether `cmd` is a control operation that duplicates a descriptor.
    pub fn duplicates(&self, cmd: i32) -> (r: bool)
        ensures
            r == (cmd == self.dupfd || cmd == self.dupfd_cloexec),
    {
        cmd == self.dupfd || cmd == self.dupfd_cloexec
    }
}

} // verus!
