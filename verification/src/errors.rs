//! User-facing error values of the engine, with their exit-code contract.

use vstd::prelude::*;

use crate::version::{Version, VersionReq};

verus! {

/// No version in the catalog or the index satisfies the requirement.
#[derive(Clone, Copy, Debug)]
pub struct NoNodeVersionFoundError {
    /// The requirement that nothing satisfied.
    pub matching: VersionReq,
}

impl NoNodeVersionFoundError {
    /// This failure is reported to the user directly.
    pub fn is_user_friendly(&self) -> (r: bool)
        ensures
            r,
    {
        true
    }

    /// The distinct exit status of a failed resolution.
    pub fn exit_code(&self) -> (c: i32)
        ensures
            c == 100,
    {
        100
    }
}

/// A version is recorded in the catalog but its install directory is gone:
/// the catalog and the filesystem are out of sync.
#[derive(Clone, Copy, Debug, PartialEq, Eq, Structural)]
pub struct MissingInstallDirError {
    /// The version whose install directory was not found.
    pub version: Version,
}

} // verus!
