//! The handle handed to the external installer collaborator: which version to
//! materialize and where to obtain it.

use vstd::prelude::*;

use crate::version::Version;

verus! {

/// Where an installer obtains its archive.
#[derive(Clone, Debug)]
pub enum InstallOrigin {
    /// The public distribution registry.
    PublicRegistry,
    /// A custom download location named by a resolver plugin.
    Remote { url: String },
}

/// A resolved installation: the version to install and its origin.
#[derive(Clone, Debug)]
pub struct Installer {
    pub version: Version,
    pub origin: InstallOrigin,
}

impl Installer {
    /// An installer for a version published on the public registry.
    pub fn public(version: Version) -> (r: Installer)
        ensures
            r.version == version,
            r.origin is PublicRegistry,
    {
        Installer { version, origin: InstallOrigin::PublicRegistry }
    }

    /// An installer that downloads the version from the given location.
    pub fn remote(version: Version, url: &str) -> (r: Installer)
        ensures
            r.version == version,
            r.origin matches InstallOrigin::Remote { url: u } && u@ == url@,
    {
        Installer { version, origin: InstallOrigin::Remote { url: url.to_owned() } }
    }
}

} // verus!
