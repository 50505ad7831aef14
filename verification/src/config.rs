//! The slice of the user configuration this engine reads: the optional
//! resolver plugin that overrides public-index resolution.

use vstd::prelude::*;

use crate::plugin::Resolve;

verus! {

/// Per-tool configuration.
pub struct NodeConfig {
    /// A custom resolver plugin; absence means the public index is used.
    pub resolve: Option<Resolve>,
}

/// The user configuration.
pub struct Config {
    pub node: Option<NodeConfig>,
}

/// The resolver plugin the configuration designates, if any.
pub open spec fn spec_node_resolver(c: Config) -> Option<Resolve> {
    match c.node {
        Some(nc) => nc.resolve,
        None => None,
    }
}

impl Config {
    /// The remote-resolution choice: the configured plugin when one is
    /// present (remote resolution then delegates to it entirely), otherwise
    /// nothing, and the public index is consulted.
    pub fn node_resolver(&self) -> (r: Option<&Resolve>)
        ensures
            match r {
                Some(p) => spec_node_resolver(*self) == Some(*p),
                None => spec_node_resolver(*self) is None,
            },
    {
        match &self.node {
            Some(nc) => match &nc.resolve {
                Some(p) => Some(p),
                None => None,
            },
            None => None,
        }
    }
}

} // verus!
