//! Seeding of the default MCP server configurations. Each schema version
//! adds one server; a store that is behind gets the servers it lacks, oldest
//! first, and is then at the current version.

use vstd::prelude::*;

verus! {

/// The schema version that a migrated store is at.
pub const MCP_SCHEMA_VERSION: i64 = 2;

/// A server configuration that a migration adds.
#[derive(Clone, Copy, Debug, PartialEq, Eq, Structural)]
pub enum McpSeed {
    /// The Exa search server, added by schema version 1.
    Exa,
    /// The browser server, added by schema version 2.
    Browser,
}

/// The schema version that a store is at: the number it holds, or zero where
/// it holds none.
pub open spec fn stored_version(stored: Option<i64>) -> int {
    match stored {
        Some(version) => version as int,
        None => 0,
    }
}

/// The servers that a store at the given version lacks, oldest first.
pub open spec fn missing_seeds(stored: Option<i64>) -> Seq<McpSeed> {
    let version = stored_version(stored);
    if version < 1 {
        seq![McpSeed::Exa, McpSeed::Browser]
    } else if version < 2 {
        seq![McpSeed::Browser]
    } else {
        Seq::empty()
    }
}

/// The name under which a seeded server is configured.
pub open spec fn seed_name(seed: McpSeed) -> Seq<char> {
    match seed {
        McpSeed::Exa => "exa"@,
        McpSeed::Browser => "Jan Browser MCP"@,
    }
}

/// The servers to add to a store that holds the given schema version.
pub fn pending_seeds(stored: Option<i64>) -> (seeds: Vec<McpSeed>)
    ensures
        seeds@ == missing_seeds(stored),
{
    let version: i64 = match stored {
        Some(version) => version,
        None => 0,
    };
    let mut seeds: Vec<McpSeed> = Vec::new();
    if version < 1 {
        seeds.push(McpSeed::Exa);
    }
    if version < 2 {
        seeds.push(McpSeed::Browser);
    }
    proof {
        assert(seeds@ =~= missing_seeds(stored));
    }
    seeds
}

impl McpSeed {
    /// The name under which the server is configured.
    pub fn name(&self) -> (name: &'static str)
        ensures
            name@ == seed_name(*self),
    {
        match self {
            McpSeed::Exa => "exa",
            McpSeed::Browser => "Jan Browser MCP",
        }
    }
}

} // verus!
