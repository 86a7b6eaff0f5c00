//! Decisions of the start-up: which port to try next when one is taken.

use vstd::prelude::*;

verus! {

/// How many ports after a configured one are tried when it cannot be had.
pub const MAX_FALLBACK_PORTS: u32 = 100;

/// What became of one attempt to listen on a port.
#[derive(Debug, Clone, Copy, PartialEq, Eq, Structural)]
pub enum PortOutcome {
    /// The port is taken by another process.
    InUse,
    /// The port was free but the listener could not be made.
    BindFailed,
    /// The listener stands.
    Bound,
}

/// What to do after an attempt.
#[derive(Debug, Clone, Copy, PartialEq, Eq, Structural)]
pub enum PortStep {
    /// Try this port next.
    Try(u16),
    /// The listener stands on this port; `substituted` says that it is not the
    /// configured one.
    Listening { port: u16, substituted: bool },
    /// Every attempt failed: give this configured port up.
    GiveUp,
}

/// The search for a free port, starting from a configured one.
#[derive(Debug, Clone, Copy, PartialEq, Eq, Structural)]
pub struct PortSearch {
    pub configured: u16,
    pub current: u16,
    pub attempt: u32,
}

/// Runs the start-up of the virtual hosts.
pub struct KangStarter;

impl KangStarter {
    /// The search at its first attempt, on the configured port itself.
    pub fn first_attempt(port: u16) -> (s: PortSearch)
        ensures
            s == (PortSearch { configured: port, current: port, attempt: 0 }),
    {
        PortSearch { configured: port, current: port, attempt: 0 }
    }

    /// The step after an attempt on `search.current`.
    ///
    /// A bound listener ends the search. Otherwise the next port up is tried, until
    /// the hundredth successor of the configured port has failed or the port numbers
    /// run out.
    pub fn next_attempt(search: PortSearch, outcome: PortOutcome) -> (r: (PortSearch, PortStep))
        ensures
            r == Self::after(search, outcome),
            r.1 matches PortStep::Try(p) ==> r.0.attempt <= MAX_FALLBACK_PORTS && p == r.0.current,
    {
        match outcome {
            PortOutcome::Bound => (
                search,
                PortStep::Listening {
                    port: search.current,
                    substituted: search.current != search.configured,
                },
            ),
            _ => {
                if search.attempt >= MAX_FALLBACK_PORTS || search.current == u16::MAX {
                    (search, PortStep::GiveUp)
                } else {
                    let next = PortSearch {
                        configured: search.configured,
                        current: (search.current + 1) as u16,
                        attempt: search.attempt + 1,
                    };
                    (next, PortStep::Try(next.current))
                }
            },
        }
    }

    /// The search and the step after an attempt with the given outcome.
    pub open spec fn after(search: PortSearch, outcome: PortOutcome) -> (PortSearch, PortStep) {
        if outcome == PortOutcome::Bound {
            (
                search,
                PortStep::Listening {
                    port: search.current,
                    substituted: search.current != search.configured,
                },
            )
        } else if search.attempt >= MAX_FALLBACK_PORTS || search.current == u16::MAX {
            (search, PortStep::GiveUp)
        } else {
            (
                PortSearch {
                    configured: search.configured,
                    current: (search.current + 1) as u16,
                    attempt: (search.attempt + 1) as u32,
                },
                PortStep::Try((search.current + 1) as u16),
            )
        }
    }

    /// Whether the start-up as a whole succeeded: at least one virtual host listens.
    pub fn any_started(started: &Vec<bool>) -> (r: bool)
        ensures
            r == started@.contains(true),
    {
        let n = started.len();
        let mut i: usize = 0;
        while i < n
            invariant
                n == started@.len(),
                i <= n,
                forall|k: int| 0 <= k < i ==> !started@[k],
            decreases n - i,
        {
            if started[i] {
                return true;
            }
            i += 1;
        }
        false
    }
}

/// A search never goes further than a hundred ports past the configured one.
pub proof fn lemma_search_stays_close(search: PortSearch, outcome: PortOutcome)
    requires
        search.attempt <= MAX_FALLBACK_PORTS,
        search.current == search.configured + search.attempt,
    ensures
        ({
            let next = KangStarter::after(search, outcome).0;
            &&& next.current == next.configured + next.attempt
            &&& next.configured == search.configured
            &&& next.attempt <= MAX_FALLBACK_PORTS
        }),
{
}

} // verus!
