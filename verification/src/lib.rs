//! Local catalog-and-resolution engine for a tool-version manager: tracks
//! installed tool versions, resolves semantic-version requirements against the
//! local catalog or the remote index, and speaks the external resolver plugin
//! protocol.

use vstd::prelude::*;

pub mod cache;
pub mod catalog;
pub mod config;
pub mod errors;
pub mod index;
pub mod installer;
pub mod plugin;
pub mod resolve;
pub mod serial;
pub mod text;
pub mod version;

verus! {

/// File extension of a distribution archive.
pub fn archive_extension() -> (ext: String)
    ensures
        ext@ == "tar.gz"@,
{
    proof {
        reveal_strlit("tar.gz");
    }
    "tar.gz".to_owned()
}

} // verus!
