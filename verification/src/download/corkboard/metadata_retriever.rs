//! Asking peers for the metainfo of a torrent that is known by a magnet link.

use vstd::prelude::*;

use crate::info::{MetaInfo, MetaInfoView};
use crate::net::SocketAddr;

verus! {

/// What the retrieval of metainfo tells.
#[derive(Debug)]
pub enum Event {
    Start,
    Worker(usize, WorkerEvent),
    WorkersFinished,
    MetaInfoLocated(MetaInfo),
    Finish,
}

#[derive(Debug)]
pub enum WorkerEvent {
    Start,
    Peer(SocketAddr, PeerEvent),
    Finish,
}

#[derive(Debug)]
pub enum PeerEvent {
    Retrieved,
    ReadmittedEarly,
    Connected,
    ConnectFailed,
    PeerConnection(crate::peer::Event),
    MetaInfoLocated(MetaInfo),
    Readmitted,
    MetaInfoStored,
}

/// The metainfo that the first peer to give any has given.
#[derive(Debug)]
pub struct Retrieval {
    pub meta_info: Option<MetaInfo>,
}

/// What a `Retrieval` says.
pub open spec fn retrieved(retrieval: Retrieval) -> Option<MetaInfoView> {
    match retrieval.meta_info {
        Some(meta_info) => Some(meta_info@),
        None => None,
    }
}

/// What a worker does with a peer.
#[derive(Clone, Copy, Debug, PartialEq, Eq, Structural)]
pub enum PeerStep {
    /// give the peer back and stop: the metainfo is known
    Readmit,
    /// connect to the peer
    Connect,
}

/// What a worker does after it has tried to connect to a peer.
#[derive(Clone, Copy, Debug, PartialEq, Eq, Structural)]
pub enum ConnectStep {
    /// go on to the next peer
    Next,
    /// give the peer back and stop: its metainfo has been kept, and those who wait for it can
    /// go on
    ReadmitStored,
    /// give the peer back and stop: metainfo was known already
    ReadmitKnown,
}

/// What a worker does after it has tried to connect to a peer, and what is known then.
pub open spec fn after_connected(
    known: Option<MetaInfoView>,
    found: Option<MetaInfoView>,
) -> (ConnectStep, Option<MetaInfoView>) {
    match (found, known) {
        (None, known) => (ConnectStep::Next, known),
        (Some(_), Some(known)) => (ConnectStep::ReadmitKnown, Some(known)),
        (Some(found), None) => (ConnectStep::ReadmitStored, Some(found)),
    }
}

/// Metainfo that is known is never replaced, and a worker goes on to another peer only
/// without any.
pub proof fn known_metainfo_stays(known: Option<MetaInfoView>, found: Option<MetaInfoView>)
    ensures
        known is Some ==> after_connected(known, found).1 == known,
        after_connected(known, found).0 == ConnectStep::Next <==> found is None,
        after_connected(known, found).0 == ConnectStep::ReadmitStored ==> known is None,
{
}

impl Retrieval {
    pub fn new() -> (retrieval: Self)
        ensures
            retrieved(retrieval) is None,
    {
        Retrieval { meta_info: None }
    }

    /// What a worker does with the next peer.
    pub fn next_peer(&self) -> (step: PeerStep)
        ensures
            step == if retrieved(*self) is Some {
                PeerStep::Readmit
            } else {
                PeerStep::Connect
            },
    {
        if self.meta_info.is_some() {
            PeerStep::Readmit
        } else {
            PeerStep::Connect
        }
    }

    /// Take in metainfo that a peer has given; only the first is kept. Tells whether it was
    /// kept, and those who wait for it can go on.
    pub fn located(&mut self, found: MetaInfo) -> (stored: bool)
        ensures
            stored == (retrieved(*old(self)) is None),
            retrieved(*final(self)) == if stored {
                Some(found@)
            } else {
                retrieved(*old(self))
            },
    {
        if self.meta_info.is_some() {
            false
        } else {
            self.meta_info = Some(found);
            true
        }
    }

    /// Take in what an attempt to connect came to: the metainfo that the peer gave, or nothing
    /// if it failed.
    pub fn after_connect(&mut self, found: Option<MetaInfo>) -> (step: ConnectStep)
        ensures
            (step, retrieved(*final(self))) == after_connected(
                retrieved(*old(self)),
                match found {
                    Some(found) => Some(found@),
                    None => None,
                },
            ),
    {
        match found {
            None => ConnectStep::Next,
            Some(found) => if self.located(found) {
                ConnectStep::ReadmitStored
            } else {
                ConnectStep::ReadmitKnown
            },
        }
    }
}

} // verus!
