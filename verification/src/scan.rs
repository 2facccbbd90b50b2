//! The pace of the block scan: which block to ask the node for next, when
//! to wait and try again, and when to stop.
//!
//! Asking the node is outside this library. The scan is therefore a state
//! and a function that takes what the last request gave and returns the
//! next state and what to do.

use vstd::prelude::*;
use vstd::arithmetic::power2::{lemma2_to64, pow2};

verus! {

/// The number of failed requests in a row after which the scan goes on;
/// one more and it gives up.
pub const MAX_RETRIES: u32 = 5;

/// Where a scan stands.
#[derive(Clone, Copy, Debug, PartialEq, Eq, Structural)]
pub struct Scan {
    /// The height of the block to ask for.
    pub height: u32,
    /// The number of requests that failed since the last block came.
    pub retries: u32,
}

/// What a request for the block at the current height gave.
#[derive(Clone, Copy, Debug, PartialEq, Eq, Structural)]
pub enum Fetched {
    /// The block came.
    Block,
    /// The node knows the height, but the block did not come.
    NoBlock,
    /// The node did not answer for the height.
    Failed,
}

/// What the scan does next.
#[derive(Clone, Copy, Debug, PartialEq, Eq, Structural)]
pub enum Next {
    /// Ask for the block at the height of the new state.
    Fetch,
    /// Wait for the given number of seconds, then ask again.
    Retry { seconds: u64 },
    /// The scan is complete.
    Finish,
    /// Too many requests failed in a row.
    GiveUp,
}

/// The state and the step that follow `scan` on `fetched`. A block moves
/// the scan to the next height and clears the count of failures; a block
/// that does not come ends the scan, and so does the last height there
/// is. A failed request is tried again after two to the power of the
/// count of failures seconds, until the count passes [`MAX_RETRIES`].
pub open spec fn step_of(scan: Scan, fetched: Fetched) -> (Scan, Next) {
    match fetched {
        Fetched::Block => if scan.height < u32::MAX {
            (Scan { height: (scan.height + 1) as u32, retries: 0 }, Next::Fetch)
        } else {
            (Scan { height: scan.height, retries: 0 }, Next::Finish)
        },
        Fetched::NoBlock => (scan, Next::Finish),
        Fetched::Failed => if scan.retries >= MAX_RETRIES {
            (scan, Next::GiveUp)
        } else {
            (
                Scan { height: scan.height, retries: (scan.retries + 1) as u32 },
                Next::Retry { seconds: pow2((scan.retries + 1) as nat) as u64 },
            )
        },
    }
}

/// The state in which a scan starts: the first block, no failure.
pub fn start() -> (scan: Scan)
    ensures
        scan == (Scan { height: 0, retries: 0 }),
{
    Scan { height: 0, retries: 0 }
}

/// Takes what the last request gave and returns the next state and step.
pub fn step(scan: Scan, fetched: Fetched) -> (next: (Scan, Next))
    ensures
        next == step_of(scan, fetched),
{
    match fetched {
        Fetched::Block => if scan.height < u32::MAX {
            (Scan { height: scan.height + 1, retries: 0 }, Next::Fetch)
        } else {
            (Scan { height: scan.height, retries: 0 }, Next::Finish)
        },
        Fetched::NoBlock => (scan, Next::Finish),
        Fetched::Failed => if scan.retries >= MAX_RETRIES {
            (scan, Next::GiveUp)
        } else {
            let retries = scan.retries + 1;
            let mut seconds: u64 = 1;
            let mut doubled: u32 = 0;
            proof {
                lemma2_to64();
            }
            while doubled < retries
                invariant
                    doubled <= retries <= MAX_RETRIES,
                    seconds == pow2(doubled as nat),
                decreases retries - doubled,
            {
                proof {
                    lemma2_to64();
                    vstd::arithmetic::power2::lemma_pow2_unfold((doubled + 1) as nat);
                }
                seconds = seconds * 2;
                doubled += 1;
            }
            (Scan { height: scan.height, retries }, Next::Retry { seconds })
        },
    }
}

} // verus!
