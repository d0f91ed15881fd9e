//! Which servers the engine works on.

use vstd::prelude::*;
use vstd::string::StringExecFns;
use crate::member::lemma_take_step_contains;

verus! {

/// Whether the configured servers are the only ones served or the only ones left out.
#[derive(Clone, Copy, Debug, PartialEq, Eq)]
pub enum RestrictionMode {
    Allow,
    Deny,
}

impl RestrictionMode {
    /// The mode that a name stands for: `allow` and `deny` are the names.
    pub open spec fn named(name: Seq<char>) -> Option<RestrictionMode> {
        if name == "allow"@ {
            Some(RestrictionMode::Allow)
        } else if name == "deny"@ {
            Some(RestrictionMode::Deny)
        } else {
            None
        }
    }

    /// What is said of a name that stands for no mode.
    pub open spec fn refusal(name: Seq<char>) -> Seq<char> {
        name + " is not a restriction mode"@
    }

    /// Reads a mode from its name as the configuration writes it.
    pub fn from_name(value: &str) -> (mode: Result<RestrictionMode, String>)
        ensures
            match mode {
                Ok(mode) => RestrictionMode::named(value@) == Some(mode),
                Err(message) => RestrictionMode::named(value@).is_none() && message@
                    == RestrictionMode::refusal(value@),
            },
    {
        let name = String::from_str(value);
        if name == String::from_str("allow") {
            Ok(RestrictionMode::Allow)
        } else if name == String::from_str("deny") {
            Ok(RestrictionMode::Deny)
        } else {
            Err(name.concat(" is not a restriction mode"))
        }
    }

    /// What a reader of the configuration is told to expect in place of a mode.
    pub fn expecting() -> (text: &'static str)
        ensures
            text@ == "the string 'allow' or the string 'deny'"@,
    {
        "the string 'allow' or the string 'deny'"
    }
}

/// A static policy that limits which servers the engine works on.
#[derive(Clone, Debug, PartialEq, Eq)]
pub struct Restriction {
    pub mode: RestrictionMode,
    pub servers: Vec<u64>,
}

/// Whether a server is in scope under a mode and a list of servers.
pub open spec fn in_scope(mode: RestrictionMode, servers: Seq<u64>, server_id: u64) -> bool {
    match mode {
        RestrictionMode::Allow => servers.contains(server_id),
        RestrictionMode::Deny => !servers.contains(server_id),
    }
}

/// Of one list, `Deny` lets through exactly the servers that `Allow` keeps out.
pub proof fn deny_inverts_allow(servers: Seq<u64>, server_id: u64)
    ensures
        in_scope(RestrictionMode::Deny, servers, server_id) == !in_scope(
            RestrictionMode::Allow,
            servers,
            server_id,
        ),
{
}

impl Restriction {
    /// Whether this restriction lets the server through.
    pub open spec fn admits(&self, server_id: u64) -> bool {
        in_scope(self.mode, self.servers@, server_id)
    }

    /// True when the server is in scope: listed under `Allow`, not listed under `Deny`.
    pub fn is_restricted(&self, server_id: u64) -> (allowed: bool)
        ensures
            allowed == self.admits(server_id),
    {
        let mut is_listed = false;
        let mut i: usize = 0;
        while i < self.servers.len()
            invariant
                i <= self.servers.len(),
                is_listed == self.servers@.take(i as int).contains(server_id),
            decreases self.servers.len() - i,
        {
            if self.servers[i] == server_id {
                is_listed = true;
            }
            proof {
                lemma_take_step_contains(self.servers@, i as int, server_id);
            }
            i += 1;
        }
        proof {
            assert(self.servers@.take(i as int) =~= self.servers@);
        }
        match self.mode {
            RestrictionMode::Allow => is_listed,
            RestrictionMode::Deny => !is_listed,
        }
    }
}

} // verus!
