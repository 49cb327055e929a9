//! Decisions, and the precedence between blocking rules and exceptions.

use vstd::prelude::*;

verus! {

/// The verdict for one request. `Allow` is the verdict where nothing matches.
#[derive(Clone, Copy, Debug, PartialEq, Eq, Hash, Structural)]
pub enum Decision {
    Block,
    Allow,
}

/// What the matcher finds for one request.
#[derive(Clone, Copy, Debug, PartialEq, Eq, Hash, Structural)]
pub struct MatchOutcome {
    /// Whether some blocking rule matches the request.
    pub blocked: bool,
    /// Whether some exception rule matches it. The matcher may look for one
    /// only where a blocking rule matches: without one the request is allowed
    /// either way.
    pub excepted: bool,
}

/// The precedence: a matching exception allows the request whatever else
/// matches; without one, a matching blocking rule blocks it; with no match at
/// all it is allowed.
pub open spec fn resolve_spec(found: MatchOutcome) -> Decision {
    if found.excepted {
        Decision::Allow
    } else if found.blocked {
        Decision::Block
    } else {
        Decision::Allow
    }
}

/// The decision that follows from what matched.
pub fn resolve(found: MatchOutcome) -> (d: Decision)
    ensures
        d == resolve_spec(found),
        found.excepted ==> d == Decision::Allow,
        d == Decision::Block <==> found.blocked && !found.excepted,
{
    if found.excepted {
        Decision::Allow
    } else if found.blocked {
        Decision::Block
    } else {
        Decision::Allow
    }
}

impl Decision {
    /// Whether the request is to be blocked.
    pub fn should_block(self) -> (b: bool)
        ensures
            b == (self == Decision::Block),
    {
        match self {
            Decision::Block => true,
            Decision::Allow => false,
        }
    }
}

} // verus!
