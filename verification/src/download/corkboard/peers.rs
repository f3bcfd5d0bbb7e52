//! The peers of a download, by their addresses.

use vstd::prelude::*;

use crate::net::SocketAddr;

verus! {

#[derive(Clone, Copy, Debug, PartialEq, Eq, Structural)]
pub enum PeerState {
    Fresh,
    Connecting,
    Active(bool),
    Inactive,
    Superceded,
    Error,
}

/// How long it took to download some bytes.
#[derive(Clone, Copy, Debug, PartialEq, Eq, Structural)]
pub struct Benchmark {
    pub bytes: usize,
    pub duration_millis: usize,
}

#[derive(Debug)]
pub struct Peer {
    pub state: PeerState,
    pub benchmarks: Vec<Benchmark>,
    /// A number that grows with the rate at which the peer has delivered.
    pub performance: Option<u64>,
    pub connection_attempts: usize,
}

/// What a `Peer` says.
pub struct PeerView {
    pub state: PeerState,
    pub benchmarks: Seq<Benchmark>,
    pub performance: Option<u64>,
    pub connection_attempts: int,
}

impl View for Peer {
    type V = PeerView;

    open spec fn view(&self) -> PeerView {
        PeerView {
            state: self.state,
            benchmarks: self.benchmarks@,
            performance: self.performance,
            connection_attempts: self.connection_attempts as int,
        }
    }
}

/// A peer of which nothing is known.
pub open spec fn fresh_peer() -> PeerView {
    PeerView {
        state: PeerState::Fresh,
        benchmarks: seq![],
        performance: None,
        connection_attempts: 0,
    }
}

impl Peer {
    pub fn new() -> (peer: Self)
        ensures
            peer@ == fresh_peer(),
    {
        let peer = Peer {
            state: PeerState::Fresh,
            benchmarks: Vec::new(),
            performance: None,
            connection_attempts: 0,
        };
        assert(peer@.benchmarks =~= seq![]);
        peer
    }
}

/// The place of an address among entries.
pub open spec fn place_of(entries: Seq<(SocketAddr, Peer)>, address: SocketAddr) -> Option<int>
    decreases entries.len(),
{
    if entries.len() == 0 {
        None
    } else if entries.last().0 == address {
        Some(entries.len() - 1)
    } else {
        place_of(entries.drop_last(), address)
    }
}

proof fn lemma_place_of(entries: Seq<(SocketAddr, Peer)>, address: SocketAddr)
    ensures
        match place_of(entries, address) {
            Some(at) => 0 <= at < entries.len() && entries[at].0 == address,
            None => forall|i: int| 0 <= i < entries.len() ==> (#[trigger] entries[i]).0 != address,
        },
    decreases entries.len(),
{
    if entries.len() > 0 && entries.last().0 != address {
        let head = entries.drop_last();
        lemma_place_of(head, address);
        assert(forall|i: int| 0 <= i < head.len() ==> head[i] == entries[i]);
        if place_of(head, address) is None {
            assert forall|i: int| 0 <= i < entries.len() implies (#[trigger] entries[i]).0
                != address by {
                if i < head.len() {
                    assert(head[i].0 != address);
                }
            }
        }
    }
}

/// Whether no address occurs twice.
pub open spec fn distinct(entries: Seq<(SocketAddr, Peer)>) -> bool {
    forall|i: int, j: int|
        0 <= i < j < entries.len() ==> (#[trigger] entries[i]).0 != (#[trigger] entries[j]).0
}

proof fn lemma_place_is(entries: Seq<(SocketAddr, Peer)>, at: int)
    requires
        distinct(entries),
        0 <= at < entries.len(),
    ensures
        place_of(entries, entries[at].0) == Some(at),
{
    lemma_place_of(entries, entries[at].0);
    let found = place_of(entries, entries[at].0);
    if let Some(other) = found {
        assert(other == at);
    }
}

/// The peers of a download; each address occurs once.
#[derive(Debug)]
pub struct PeerTable {
    entries: Vec<(SocketAddr, Peer)>,
}

impl View for PeerTable {
    type V = Map<SocketAddr, PeerView>;

    closed spec fn view(&self) -> Map<SocketAddr, PeerView> {
        Map::new(
            |address: SocketAddr| place_of(self.entries@, address) is Some,
            |address: SocketAddr| self.entries@[place_of(self.entries@, address)->0].1@,
        )
    }
}

impl PeerTable {
    #[verifier::type_invariant]
    spec fn addresses_distinct(self) -> bool {
        distinct(self.entries@)
    }

    pub fn new() -> (table: Self)
        ensures
            table@ == Map::<SocketAddr, PeerView>::empty(),
    {
        let table = PeerTable { entries: Vec::new() };
        assert(table@ =~= Map::<SocketAddr, PeerView>::empty());
        table
    }

    /// How many peers there are.
    pub fn len(&self) -> (n: usize)
        ensures
            n == self@.dom().len(),
            self@.dom().finite(),
    {
        proof {
            use_type_invariant(self);
            lemma_entries_dom(self.entries@);
            assert(self@.dom() =~= addresses(self.entries@).to_set());
        }
        self.entries.len()
    }

    /// The place of an address.
    fn find(&self, address: SocketAddr) -> (at: Option<usize>)
        ensures
            match at {
                Some(at) => place_of(self.entries@, address) == Some(at as int),
                None => place_of(self.entries@, address) is None,
            },
    {
        let mut i: usize = 0;
        while i < self.entries.len()
            invariant
                0 <= i <= self.entries.len(),
                forall|j: int| 0 <= j < i ==> (#[trigger] self.entries@[j]).0 != address,
            decreases self.entries.len() - i,
        {
            if self.entries[i].0 == address {
                proof {
                    use_type_invariant(self);
                    lemma_place_is(self.entries@, i as int);
                }
                return Some(i);
            }
            i = i + 1;
        }
        proof {
            lemma_place_of(self.entries@, address);
        }
        None
    }

    /// The peer at an address.
    pub fn get(&self, address: SocketAddr) -> (peer: Option<&Peer>)
        ensures
            match peer {
                Some(peer) => self@.contains_key(address) && peer@ == self@[address],
                None => !self@.contains_key(address),
            },
    {
        match self.find(address) {
            Some(at) => {
                proof {
                    lemma_place_of(self.entries@, address);
                }
                Some(&self.entries[at].1)
            },
            None => None,
        }
    }

    /// Put a peer at an address, in place of any that was there.
    pub fn set(&mut self, address: SocketAddr, peer: Peer)
        ensures
            final(self)@ == old(self)@.insert(address, peer@),
    {
        proof {
            use_type_invariant(&*self);
            lemma_place_of(self.entries@, address);
        }
        let ghost before = self.entries@;
        let found = self.find(address);
        let mut entries: Vec<(SocketAddr, Peer)> = Vec::new();
        std::mem::swap(&mut entries, &mut self.entries);
        match found {
            Some(at) => {
                entries.set(at, (address, peer));
            },
            None => {
                entries.push((address, peer));
            },
        }
        assert(distinct(entries@));
        self.entries = entries;
        proof {
            let after = self.entries@;
            assert forall|other: SocketAddr|
                place_of(after, other) is Some == (other == address || place_of(before, other)
                    is Some) by {
                lemma_place_of(after, other);
                lemma_place_of(before, other);
                lemma_place_of(before, address);
                if let Some(at) = place_of(before, other) {
                    assert(after[at].0 == other);
                }
                if let Some(at) = place_of(after, other) {
                    if other != address {
                        assert(before[at].0 == other);
                    }
                }
                if other == address {
                    let at = match found {
                        Some(at) => at as int,
                        None => before.len() as int,
                    };
                    assert(after[at].0 == address);
                }
            }
            assert forall|other: SocketAddr| #[trigger] final(self)@.contains_key(
                other,
            ) implies final(self)@[other] == old(self)@.insert(address, peer@)[other] by {
                lemma_place_of(after, other);
                lemma_place_of(before, other);
                if other == address {
                    let at = match found {
                        Some(at) => at as int,
                        None => before.len() as int,
                    };
                    lemma_place_is(after, at);
                } else {
                    let at = place_of(after, other)->0;
                    lemma_place_is(before, at);
                }
            }
            assert(self@ =~= old(self)@.insert(address, peer@));
        }
    }

    /// Change the state of the peer at an address, if there is one.
    pub fn set_state(&mut self, address: SocketAddr, state: PeerState)
        ensures
            final(self)@ == with_state(old(self)@, address, state),
    {
        if let Some(peer) = self.get(address) {
            let mut copy = peer.clone();
            copy.state = state;
            self.set(address, copy);
        }
    }

    /// Note a download from the peer at an address, if there is one, and the performance
    /// that it comes to.
    pub fn add_benchmark(&mut self, address: SocketAddr, benchmark: Benchmark, performance: u64)
        ensures
            final(self)@ == with_benchmark(old(self)@, address, benchmark, performance),
    {
        if let Some(peer) = self.get(address) {
            let mut copy = peer.clone();
            copy.benchmarks.push(benchmark);
            copy.performance = Some(performance);
            self.set(address, copy);
        }
    }

    /// A peer that can be connected to and before which no other comes.
    pub fn best_available(&self) -> (best: Option<SocketAddr>)
        ensures
            is_best(self@, best),
    {
        let mut best: Option<usize> = None;
        let mut i: usize = 0;
        proof {
            use_type_invariant(self);
        }
        while i < self.entries.len()
            invariant
                distinct(self.entries@),
                0 <= i <= self.entries.len(),
                match best {
                    Some(at) => at < i && available(self.entries@[at as int].1@) && forall|j: int|
                        0 <= j < i && available((#[trigger] self.entries@[j]).1@) ==> !better(
                            self.entries@[j].1@,
                            self.entries@[at as int].1@,
                        ),
                    None => forall|j: int|
                        0 <= j < i ==> !available((#[trigger] self.entries@[j]).1@),
                },
            decreases self.entries.len() - i,
        {
            let peer = &self.entries[i].1;
            if peer.is_available() {
                match best {
                    Some(at) => {
                        if peer.is_better(&self.entries[at].1) {
                            best = Some(i);
                        }
                    },
                    None => {
                        best = Some(i);
                    },
                }
            }
            i = i + 1;
        }
        proof {
            assert forall|address: SocketAddr| #[trigger] self@.contains_key(
                address,
            ) implies exists|j: int|
                0 <= j < self.entries@.len() && self@[address] == (#[trigger] self.entries@[j]).1@ by {
                lemma_place_of(self.entries@, address);
                let j = place_of(self.entries@, address)->0;
                assert(self@[address] == self.entries@[j].1@);
            }
        }
        match best {
            Some(at) => {
                proof {
                    lemma_place_is(self.entries@, at as int);
                }
                Some(self.entries[at].0)
            },
            None => None,
        }
    }

    /// A peer that can be connected to and than which none is known to be faster; one that
    /// has not been measured counts as the fastest.
    pub fn fastest_available(&self) -> (best: Option<SocketAddr>)
        ensures
            is_fastest(self@, best),
    {
        let mut best: Option<usize> = None;
        let mut i: usize = 0;
        proof {
            use_type_invariant(self);
        }
        while i < self.entries.len()
            invariant
                distinct(self.entries@),
                0 <= i <= self.entries.len(),
                match best {
                    Some(at) => at < i && available(self.entries@[at as int].1@) && forall|j: int|
                        0 <= j < i && available((#[trigger] self.entries@[j]).1@) ==> rate(
                            self.entries@[j].1@,
                        ) <= rate(self.entries@[at as int].1@),
                    None => forall|j: int|
                        0 <= j < i ==> !available((#[trigger] self.entries@[j]).1@),
                },
            decreases self.entries.len() - i,
        {
            let peer = &self.entries[i].1;
            if peer.is_available() {
                match best {
                    Some(at) => {
                        if peer.rate() > self.entries[at].1.rate() {
                            best = Some(i);
                        }
                    },
                    None => {
                        best = Some(i);
                    },
                }
            }
            i = i + 1;
        }
        proof {
            assert forall|address: SocketAddr| #[trigger] self@.contains_key(
                address,
            ) implies exists|j: int|
                0 <= j < self.entries@.len() && self@[address] == (#[trigger] self.entries@[j]).1@ by {
                lemma_place_of(self.entries@, address);
                let j = place_of(self.entries@, address)->0;
                assert(self@[address] == self.entries@[j].1@);
            }
        }
        match best {
            Some(at) => {
                proof {
                    lemma_place_is(self.entries@, at as int);
                }
                Some(self.entries[at].0)
            },
            None => None,
        }
    }

    /// Whether attempts to connect can still be counted for every peer.
    pub fn attempts_countable(&self) -> (countable: bool)
        ensures
            countable == forall|address: SocketAddr| #[trigger]
                self@.contains_key(address) ==> self@[address].connection_attempts < usize::MAX,
    {
        proof {
            use_type_invariant(self);
        }
        let mut i: usize = 0;
        while i < self.entries.len()
            invariant
                distinct(self.entries@),
                0 <= i <= self.entries.len(),
                forall|j: int|
                    0 <= j < i ==> (#[trigger] self.entries@[j]).1@.connection_attempts
                        < usize::MAX,
            decreases self.entries.len() - i,
        {
            if self.entries[i].1.connection_attempts == usize::MAX {
                proof {
                    lemma_place_is(self.entries@, i as int);
                    assert(self@.contains_key(self.entries@[i as int].0));
                }
                return false;
            }
            i = i + 1;
        }
        proof {
            assert forall|address: SocketAddr| #[trigger] self@.contains_key(
                address,
            ) implies self@[address].connection_attempts < usize::MAX by {
                lemma_place_of(self.entries@, address);
                let j = place_of(self.entries@, address)->0;
                assert(self@[address] == self.entries@[j].1@);
            }
        }
        true
    }

    /// How many peers are in a state.
    pub fn count(&self, state: PeerState) -> (n: usize)
        ensures
            n == in_state(self@, state).len(),
            in_state(self@, state).finite(),
    {
        proof {
            use_type_invariant(self);
        }
        let mut n: usize = 0;
        let mut i: usize = 0;
        let ghost mut counted: Set<SocketAddr> = Set::empty();
        while i < self.entries.len()
            invariant
                distinct(self.entries@),
                0 <= i <= self.entries.len(),
                n <= i,
                n == counted.len(),
                counted.finite(),
                forall|address: SocketAddr|
                    counted.contains(address) <==> exists|j: int|
                        0 <= j < i && (#[trigger] self.entries@[j]).0 == address
                            && self.entries@[j].1.state == state,
            decreases self.entries.len() - i,
        {
            let ghost before = counted;
            let ghost address = self.entries@[i as int].0;
            if self.entries[i].1.state == state {
                proof {
                    assert(!counted.contains(address)) by {
                        if counted.contains(address) {
                            let j = choose|j: int|
                                0 <= j < i && (#[trigger] self.entries@[j]).0 == address
                                    && self.entries@[j].1.state == state;
                            assert(self.entries@[j].0 != self.entries@[i as int].0);
                        }
                    }
                    counted = counted.insert(address);
                }
                n = n + 1;
            }
            i = i + 1;
            proof {
                assert forall|other: SocketAddr|
                    counted.contains(other) <==> exists|j: int|
                        0 <= j < i && (#[trigger] self.entries@[j]).0 == other
                            && self.entries@[j].1.state == state by {
                    if before.contains(other) {
                        let j = choose|j: int|
                            0 <= j < i - 1 && (#[trigger] self.entries@[j]).0 == other
                                && self.entries@[j].1.state == state;
                        assert(0 <= j < i && self.entries@[j].0 == other);
                    }
                    if counted.contains(other) && !before.contains(other) {
                        assert(self.entries@[i - 1].0 == other);
                    }
                    if exists|j: int|
                        0 <= j < i && (#[trigger] self.entries@[j]).0 == other
                            && self.entries@[j].1.state == state {
                        let j = choose|j: int|
                            0 <= j < i && (#[trigger] self.entries@[j]).0 == other
                                && self.entries@[j].1.state == state;
                        if j < i - 1 {
                            assert(before.contains(other));
                        }
                    }
                }
            }
        }
        proof {
            assert forall|address: SocketAddr| counted.contains(address) <==> in_state(
                self@,
                state,
            ).contains(address) by {
                lemma_place_of(self.entries@, address);
                if counted.contains(address) {
                    let j = choose|j: int|
                        0 <= j < i && (#[trigger] self.entries@[j]).0 == address
                            && self.entries@[j].1.state == state;
                    lemma_place_is(self.entries@, j);
                }
                if in_state(self@, state).contains(address) {
                    let j = place_of(self.entries@, address)->0;
                    assert(self.entries@[j].0 == address);
                }
            }
            assert(counted =~= in_state(self@, state));
        }
        n
    }

    /// Take in the list of peers that a tracker gives: peers that are listed and have not
    /// failed are fresh, all others are inactive.
    pub fn refresh(&mut self, listed: &Vec<SocketAddr>)
        ensures
            final(self)@ == refreshed(old(self)@, listed@),
    {
        let ghost before = self.entries@;
        proof {
            use_type_invariant(&*self);
        }
        let mut rest: Vec<(SocketAddr, Peer)> = Vec::new();
        std::mem::swap(&mut rest, &mut self.entries);
        let mut entries: Vec<(SocketAddr, Peer)> = Vec::new();
        let ghost mut i: int = 0;
        while rest.len() > 0
            invariant
                0 <= i <= before.len(),
                rest@ == before.skip(i),
                entries@.len() == i,
                forall|j: int|
                    0 <= j < i ==> (#[trigger] entries@[j]).0 == before[j].0 && entries@[j].1@
                        == refreshed_peer(before[j].1@, listed@.contains(before[j].0)),
            decreases rest.len(),
        {
            let (address, mut peer) = rest.remove(0);
            let ghost view = peer@;
            let is_listed = is_among(listed, address);
            peer.state = if peer.state != PeerState::Error && is_listed {
                PeerState::Fresh
            } else {
                PeerState::Inactive
            };
            proof {
                assert(before[i] == before.skip(i)[0]);
                assert(before.skip(i).remove(0) =~= before.skip(i + 1));
                i = i + 1;
            }
            entries.push((address, peer));
        }
        proof {
            assert forall|a: int, b: int| 0 <= a < b < entries@.len() implies (
            #[trigger] entries@[a]).0 != (#[trigger] entries@[b]).0 by {
                assert(before[a].0 != before[b].0);
            }
        }
        self.entries = entries;
        proof {
            let after = self.entries@;
            assert forall|address: SocketAddr|
                place_of(after, address) == place_of(before, address) by {
                lemma_place_of(after, address);
                lemma_place_of(before, address);
                if let Some(at) = place_of(before, address) {
                    assert(after[at].0 == address);
                    lemma_place_is(after, at);
                }
                if let Some(at) = place_of(after, address) {
                    assert(before[at].0 == address);
                }
            }
            assert forall|address: SocketAddr| #[trigger] self@.contains_key(
                address,
            ) implies self@[address] == refreshed(old(self)@, listed@)[address] by {
                lemma_place_of(before, address);
                let at = place_of(before, address)->0;
                assert(after[at].0 == address);
            }
            assert(self@ =~= refreshed(old(self)@, listed@));
        }
    }
}

/// Whether an address is in a list.
pub fn is_among(list: &Vec<SocketAddr>, address: SocketAddr) -> (among: bool)
    ensures
        among == list@.contains(address),
{
    let mut i: usize = 0;
    while i < list.len()
        invariant
            0 <= i <= list.len(),
            forall|j: int| 0 <= j < i ==> list@[j] != address,
        decreases list.len() - i,
    {
        if list[i] == address {
            assert(list@[i as int] == address);
            return true;
        }
        i = i + 1;
    }
    false
}

impl Clone for Peer {
    fn clone(&self) -> (copy: Self)
        ensures
            copy@ == self@,
    {
        let mut benchmarks: Vec<Benchmark> = Vec::new();
        let mut i: usize = 0;
        while i < self.benchmarks.len()
            invariant
                0 <= i <= self.benchmarks.len(),
                benchmarks@ == self.benchmarks@.take(i as int),
            decreases self.benchmarks.len() - i,
        {
            benchmarks.push(self.benchmarks[i]);
            i = i + 1;
        }
        assert(self.benchmarks@.take(i as int) =~= self.benchmarks@);
        Peer {
            state: self.state,
            benchmarks,
            performance: self.performance,
            connection_attempts: self.connection_attempts,
        }
    }
}

impl Peer {
    /// Whether the peer can be connected to.
    pub fn is_available(&self) -> (can: bool)
        ensures
            can == available(self@),
    {
        self.state == PeerState::Fresh || self.state == PeerState::Active(false)
    }

    /// Whether the peer is to be tried before another one.
    pub fn is_better(&self, other: &Peer) -> (first: bool)
        ensures
            first == better(self@, other@),
    {
        match (self.performance, other.performance) {
            (Some(a), Some(b)) => a > b,
            (None, None) => self.connection_attempts < other.connection_attempts,
            (Some(_), None) => true,
            (None, Some(_)) => false,
        }
    }

    /// The performance of the peer, or that of the fastest if it has not been measured.
    pub fn rate(&self) -> (rate: u64)
        ensures
            rate == crate::download::corkboard::peers::rate(self@),
    {
        match self.performance {
            Some(performance) => performance,
            None => UNMEASURED,
        }
    }
}

/// The performance that a peer counts with which has not been measured: the highest
/// that is finite.
pub const UNMEASURED: u64 = 0x7fef_ffff_ffff_ffff;

pub open spec fn rate(peer: PeerView) -> u64 {
    match peer.performance {
        Some(performance) => performance,
        None => UNMEASURED,
    }
}

/// Whether a peer can be connected to: it is fresh, or was active and is not claimed.
pub open spec fn available(peer: PeerView) -> bool {
    peer.state == PeerState::Fresh || peer.state == PeerState::Active(false)
}

/// Whether a peer is to be tried before another one: a measured one before one that is
/// not, of two measured ones the faster, of two others the one with fewer attempts.
pub open spec fn better(a: PeerView, b: PeerView) -> bool {
    match (a.performance, b.performance) {
        (Some(a), Some(b)) => a > b,
        (None, None) => a.connection_attempts < b.connection_attempts,
        (Some(_), None) => true,
        (None, Some(_)) => false,
    }
}

/// Whether an address is that of an available peer before which no other is to be tried,
/// or none is available.
pub open spec fn is_best(peers: Map<SocketAddr, PeerView>, best: Option<SocketAddr>) -> bool {
    match best {
        Some(best) => {
            &&& peers.contains_key(best)
            &&& available(peers[best])
            &&& forall|address: SocketAddr| #[trigger]
                peers.contains_key(address) && available(peers[address]) ==> !better(
                    peers[address],
                    peers[best],
                )
        },
        None => forall|address: SocketAddr| #[trigger]
            peers.contains_key(address) ==> !available(peers[address]),
    }
}

/// Whether an address is that of an available peer than which none is faster, or none is
/// available.
pub open spec fn is_fastest(peers: Map<SocketAddr, PeerView>, best: Option<SocketAddr>) -> bool {
    match best {
        Some(best) => {
            &&& peers.contains_key(best)
            &&& available(peers[best])
            &&& forall|address: SocketAddr| #[trigger]
                peers.contains_key(address) && available(peers[address]) ==> rate(peers[address])
                    <= rate(peers[best])
        },
        None => forall|address: SocketAddr| #[trigger]
            peers.contains_key(address) ==> !available(peers[address]),
    }
}

/// Peers of which the one at an address, if there is one, is in a state.
pub open spec fn with_state(
    peers: Map<SocketAddr, PeerView>,
    address: SocketAddr,
    state: PeerState,
) -> Map<SocketAddr, PeerView> {
    if peers.contains_key(address) {
        peers.insert(address, PeerView { state, ..peers[address] })
    } else {
        peers
    }
}

/// Peers of which the one at an address, if there is one, has one more download behind
/// it.
pub open spec fn with_benchmark(
    peers: Map<SocketAddr, PeerView>,
    address: SocketAddr,
    benchmark: Benchmark,
    performance: u64,
) -> Map<SocketAddr, PeerView> {
    if peers.contains_key(address) {
        peers.insert(
            address,
            PeerView {
                benchmarks: peers[address].benchmarks.push(benchmark),
                performance: Some(performance),
                ..peers[address]
            },
        )
    } else {
        peers
    }
}

/// The addresses of the peers in a state.
pub open spec fn in_state(peers: Map<SocketAddr, PeerView>, state: PeerState) -> Set<SocketAddr> {
    Set::new(|address: SocketAddr| peers.contains_key(address) && peers[address].state == state)
}

/// A peer after a tracker has listed it or not.
pub open spec fn refreshed_peer(peer: PeerView, listed: bool) -> PeerView {
    PeerView {
        state: if peer.state != PeerState::Error && listed {
            PeerState::Fresh
        } else {
            PeerState::Inactive
        },
        ..peer
    }
}

/// Peers after a tracker has given a list.
pub open spec fn refreshed(
    peers: Map<SocketAddr, PeerView>,
    listed: Seq<SocketAddr>,
) -> Map<SocketAddr, PeerView> {
    Map::new(
        |address: SocketAddr| peers.contains_key(address),
        |address: SocketAddr| refreshed_peer(peers[address], listed.contains(address)),
    )
}

/// The order in which peers are tried puts no peer before itself, and of three peers the
/// first before the last if it puts the first before the second and the second before
/// the last.
pub proof fn better_is_an_order(a: PeerView, b: PeerView, c: PeerView)
    ensures
        !better(a, a),
        better(a, b) ==> !better(b, a),
        better(a, b) && better(b, c) ==> better(a, c),
        !better(a, b) && !better(b, c) ==> !better(a, c),
{
}

/// The addresses of entries.
spec fn addresses(entries: Seq<(SocketAddr, Peer)>) -> Seq<SocketAddr> {
    entries.map_values(|entry: (SocketAddr, Peer)| entry.0)
}

proof fn lemma_entries_dom(entries: Seq<(SocketAddr, Peer)>)
    requires
        distinct(entries),
    ensures
        addresses(entries).to_set().finite(),
        addresses(entries).to_set().len() == entries.len(),
        forall|address: SocketAddr|
            addresses(entries).to_set().contains(address) <==> place_of(entries, address) is Some,
{
    let list = addresses(entries);
    assert(list.no_duplicates()) by {
        assert forall|i: int, j: int|
            0 <= i < list.len() && 0 <= j < list.len() && i != j implies list[i] != list[j] by {
            assert(list[i] == entries[i].0 && list[j] == entries[j].0);
        }
    }
    list.unique_seq_to_set();
    assert forall|address: SocketAddr|
        list.to_set().contains(address) <==> place_of(entries, address) is Some by {
        lemma_place_of(entries, address);
        if list.to_set().contains(address) {
            let i = choose|i: int| 0 <= i < list.len() && list[i] == address;
            assert(entries[i].0 == address);
        }
        if let Some(at) = place_of(entries, address) {
            assert(list[at] == address);
        }
    }
}

} // verus!
