//! Finding peers through trackers and through the distributed hash table.

use vstd::prelude::*;

use crate::net::SocketAddr;

verus! {

/// maximum duration in between tracker queries (milliseconds)
pub const MAX_INTERVAL: u64 = 120_000;

/// number of worker threads used in exploring the dht network
pub const DHT_WORKERS: usize = 64;

/// What a peer locator tells.
#[derive(Clone, Copy, Debug, PartialEq, Eq, Structural)]
pub enum Event {
    Start,
    Tracker(TrackerEvent),
    Dht(DhtEvent),
    Initialized,
    Killed,
}

#[derive(Clone, Copy, Debug, PartialEq, Eq, Structural)]
pub enum TrackerEvent {
    Start,
    PeerLocated(SocketAddr),
    /// waiting for some milliseconds
    Wait(u64),
    TrackersExhausted,
    Killed,
    Finish,
}

#[derive(Clone, Copy, Debug, PartialEq, Eq, Structural)]
pub enum DhtEvent {
    Start,
    PeerLocated(SocketAddr),
    Killed,
    Finish,
}

/// How long the tracker is left alone after a peer, if it asked for that: as long as it
/// asked for, but not longer than the maximum.
pub open spec fn capped_wait(requested: Option<u64>) -> Option<u64> {
    match requested {
        Some(millis) => Some(
            if millis < MAX_INTERVAL {
                millis
            } else {
                MAX_INTERVAL
            },
        ),
        None => None,
    }
}

/// How long the tracker is left alone after a peer.
pub fn tracker_wait(requested: Option<u64>) -> (wait: Option<u64>)
    ensures
        wait == capped_wait(requested),
{
    match requested {
        Some(millis) => if millis < MAX_INTERVAL {
            Some(millis)
        } else {
            Some(MAX_INTERVAL)
        },
        None => None,
    }
}

} // verus!
