//! The errors that filesystem operations report.

use vstd::prelude::*;

verus! {

/// Why an operation was refused.
#[allow(non_camel_case_types)]
#[derive(Clone, Copy, Debug, PartialEq, Eq, Structural)]
pub enum Errno {
    /// No such file or directory.
    ENOENT,
    /// Not a directory.
    ENOTDIR,
    /// Is a directory.
    EISDIR,
    /// File exists.
    EEXIST,
    /// Directory not empty.
    ENOTEMPTY,
}

/// Reads `libc::ENOENT`; the platform decides its value.
#[verifier::external_body]
fn libc_enoent() -> i32 {
    libc::ENOENT
}

/// Reads `libc::ENOTDIR`; the platform decides its value.
#[verifier::external_body]
fn libc_enotdir() -> i32 {
    libc::ENOTDIR
}

/// Reads `libc::EISDIR`; the platform decides its value.
#[verifier::external_body]
fn libc_eisdir() -> i32 {
    libc::EISDIR
}

/// Reads `libc::EEXIST`; the platform decides its value.
#[verifier::external_body]
fn libc_eexist() -> i32 {
    libc::EEXIST
}

/// Reads `libc::ENOTEMPTY`; the platform decides its value.
#[verifier::external_body]
fn libc_enotempty() -> i32 {
    libc::ENOTEMPTY
}

impl Errno {
    /// The platform's error number for this error.
    pub fn code(&self) -> i32 {
        match self {
            Errno::ENOENT => libc_enoent(),
            Errno::ENOTDIR => libc_enotdir(),
            Errno::EISDIR => libc_eisdir(),
            Errno::EEXIST => libc_eexist(),
            Errno::ENOTEMPTY => libc_enotempty(),
        }
    }
}

} // verus!
