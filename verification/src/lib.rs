//! A verified core for a small package manager: version ordering, package
//! and repository models, checksum-verified acquisition, and the
//! install/remove/update engine as a state machine driven by an outer shell.

use vstd::prelude::*;

pub mod acquire;
pub mod config;
pub mod engine;
pub mod package;
pub mod repo;
pub mod semver;

verus! {

/// The errors an operation of this library can report.
#[derive(Clone, Copy, Debug, PartialEq, Eq, Structural)]
pub enum Error {
    /// A version string or document could not be parsed.
    FormatError,
    /// The package is unknown locally or could not be located in any source.
    NotFound,
    /// The package has no entry in the availability cache.
    NotCached,
    /// The package is already present in the ledger and `force` was false.
    AlreadyInstalled,
    /// A dependency could not be satisfied from the ledger or the cache.
    DependencyUnresolved,
    /// Another installed package depends on this one and `force` was false.
    InUse,
    /// The cached version is not strictly newer than the installed one.
    UpToDate,
    /// The downloaded bytes do not hash to the checksum the cache records.
    ChecksumMismatch,
    /// A remote listing or archive could not be fetched.
    NetworkError,
    /// A filesystem step reported failure.
    IoError,
}

} // verus!
