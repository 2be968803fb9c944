//! The in-memory test network: its identifiers, and the hub that keeps
//! track of who is connected to whom, who listens for what, and which
//! requests wait for a response.

use std::collections::HashMap;
use vstd::prelude::*;
use vstd::std_specs::hash::*;
use vstd::string::*;

verus! {

broadcast use group_hash_axioms;

/// The number by which a pending request is known.
pub type MockRequestId = u64;

/// How long a request waits for its response, in seconds.
pub const REQUEST_TIMEOUT_SECS: u64 = 5;

/// The address of a peer of the test network.
#[derive(Clone, Copy, Debug, PartialEq, Eq, Structural, Hash)]
pub struct MockAddress(pub u64);

/// The identity of a peer of the test network. It is the peer's address
/// under another name.
#[derive(Clone, Copy, Debug, PartialEq, Eq, Structural, Hash)]
pub struct MockPeerId(pub u64);

impl MockAddress {
    /// The peer that lives at this address.
    pub fn peer_id(self) -> (r: MockPeerId)
        ensures
            r.0 == self.0,
    {
        MockPeerId(self.0)
    }
}

impl MockPeerId {
    /// The address at which this peer lives.
    pub fn address(self) -> (r: MockAddress)
        ensures
            r.0 == self.0,
    {
        MockAddress(self.0)
    }
}

/// Names a published message by the peer it came from.
#[derive(Debug)]
pub struct MockId<P> {
    propagation_source: P,
}

impl<P: Clone> Clone for MockId<P> {
    fn clone(&self) -> Self {
        MockId { propagation_source: self.propagation_source.clone() }
    }
}

impl<P> MockId<P> {
    /// The peer that the message came from.
    pub closed spec fn source(self) -> P {
        self.propagation_source
    }
}

impl MockId<MockPeerId> {
    /// The identifier of a message that came from `propagation_source`.
    pub fn new(propagation_source: MockPeerId) -> (r: Self)
        ensures
            r.source() == propagation_source,
    {
        Self { propagation_source }
    }

    /// The peer that the message came from.
    pub fn propagation_source(&self) -> (r: MockPeerId)
        ensures
            r == self.source(),
    {
        self.propagation_source
    }
}

/// Why an operation of the test network fails.
#[derive(Debug, PartialEq, Eq)]
pub enum MockNetworkError {
    /// There is no network at the address.
    CantConnect(MockAddress),
    /// The network is not connected to any peer.
    NotConnected,
    /// The peer is subscribed to the topic already.
    AlreadySubscribed(&'static str),
    /// The peer is not subscribed to the topic.
    AlreadyUnsubscribed(&'static str),
    /// No request of that number waits for a response.
    CantRespond(MockRequestId),
}

/// Why a request is not sent.
#[derive(Clone, Copy, Debug, PartialEq, Eq, Structural)]
pub enum RequestError {
    /// The request cannot be handed to the peer.
    SendError,
}

/// Adds `x` to the list unless it is there; says whether it was added.
fn list_insert(list: &mut Vec<u64>, x: u64) -> (added: bool)
    ensures
        added == !old(list)@.contains(x),
        final(list)@.to_set() == old(list)@.to_set().insert(x),
{
    if list_contains(list, x) {
        assert(list@.to_set() =~= list@.to_set().insert(x));
        return false;
    }
    list.push(x);
    proof {
        old(list)@.lemma_push_to_set_commute(x);
    }
    true
}

/// Whether `x` is in the list.
fn list_contains(list: &Vec<u64>, x: u64) -> (r: bool)
    ensures
        r == list@.contains(x),
        r == list@.to_set().contains(x),
{
    let mut i: usize = 0;
    while i < list.len()
        invariant
            i <= list.len(),
            forall|p: int| 0 <= p < i ==> list@[p] != x,
        decreases list.len() - i,
    {
        if list[i] == x {
            return true;
        }
        i = i + 1;
    }
    false
}

/// The list without `x`.
fn list_without(list: &Vec<u64>, x: u64) -> (r: Vec<u64>)
    ensures
        r@.to_set() == list@.to_set().remove(x),
{
    let mut out: Vec<u64> = Vec::new();
    let mut i: usize = 0;
    assert(out@.to_set() =~= list@.take(0).to_set().remove(x));
    while i < list.len()
        invariant
            i <= list.len(),
            out@.to_set() == list@.take(i as int).to_set().remove(x),
        decreases list.len() - i,
    {
        let ghost before = out@;
        let ghost seen = list@.take(i as int);
        let v = list[i];
        if v != x {
            out.push(v);
        }
        proof {
            let now = list@.take(i + 1);
            assert(now =~= seen.push(v));
            seen.lemma_push_to_set_commute(v);
            if v != x {
                before.lemma_push_to_set_commute(v);
            }
            assert(out@.to_set() =~= now.to_set().remove(x));
        }
        i = i + 1;
    }
    proof {
        assert(list@.take(list@.len() as int) =~= list@);
    }
    out
}

/// One network as the hub knows it.
pub struct NetworkView {
    /// The peers that the network is connected to.
    pub peers: Set<u64>,
    /// Whether the network counts as connected.
    pub connected: bool,
}

/// The connections of the hub as a value.
pub struct LinksView {
    /// Every network that was ever created, by its address.
    pub networks: Map<u64, NetworkView>,
    /// The addresses at which a network can be reached.
    pub registered: Set<u64>,
}

impl LinksView {
    /// Only networks that were created can be reached.
    pub open spec fn wf(self) -> bool {
        self.registered.subset_of(self.networks.dom())
    }

    /// The networks that count as connected.
    pub open spec fn connected(self) -> Set<u64> {
        Set::new(|a: u64| self.networks.contains_key(a) && self.networks[a].connected)
    }

    /// The peers of the network at `address`; none, if no network was
    /// created there.
    pub open spec fn peers_of(self, address: u64) -> Set<u64> {
        if self.networks.contains_key(address) {
            self.networks[address].peers
        } else {
            Set::empty()
        }
    }

    /// The hub once a network was created at `address`: it can be reached,
    /// has no peers, and does not count as connected.
    pub open spec fn create(self, address: u64) -> LinksView {
        LinksView {
            networks: self.networks.insert(
                address,
                NetworkView { peers: Set::empty(), connected: false },
            ),
            registered: self.registered.insert(address),
        }
    }

    /// Whether dialing `to` from `from` makes a new connection.
    pub open spec fn dial_is_new(self, from: u64, to: u64) -> bool {
        !self.networks[to].peers.contains(from)
    }

    /// The hub once `from` dialed `to`, which can be reached: `from` is
    /// among the peers of `to`; and if it was not before, `to` is among the
    /// peers of `from`, and both count as connected.
    pub open spec fn dial(self, from: u64, to: u64) -> LinksView {
        if self.dial_is_new(from, to) {
            let with_from = self.networks.insert(
                to,
                NetworkView { peers: self.networks[to].peers.insert(from), ..self.networks[to] },
            );
            let with_to = with_from.insert(
                from,
                NetworkView { peers: with_from[from].peers.insert(to), connected: true },
            );
            LinksView {
                networks: with_to.insert(to, NetworkView { connected: true, ..with_to[to] }),
                ..self
            }
        } else {
            self
        }
    }

    /// The hub once the network at `address` disconnected: it is among the
    /// peers of none of its peers, has no peers itself, and does not count
    /// as connected.
    pub open spec fn disconnect(self, address: u64) -> LinksView {
        LinksView {
            networks: Map::new(
                |k: u64| self.networks.contains_key(k),
                |k: u64|
                    if k == address {
                        NetworkView { peers: Set::empty(), connected: false }
                    } else if self.networks[address].peers.contains(k) {
                        NetworkView {
                            peers: self.networks[k].peers.remove(address),
                            ..self.networks[k]
                        }
                    } else {
                        self.networks[k]
                    },
            ),
            ..self
        }
    }

    /// The hub once the network at `address` shut down: it disconnected,
    /// and cannot be reached any more.
    pub open spec fn shutdown(self, address: u64) -> LinksView {
        LinksView { registered: self.registered.remove(address), ..self.disconnect(address) }
    }
}

/// The numbers of a list of peers, in order.
pub open spec fn peer_numbers(peers: Seq<MockPeerId>) -> Seq<u64> {
    Seq::new(peers.len(), |i: int| peers[i].0)
}

/// The peers that a list of identifiers names.
pub open spec fn peer_ids(peers: Seq<MockPeerId>) -> Set<u64> {
    peer_numbers(peers).to_set()
}

/// One network as the hub keeps it.
struct Network {
    peers: Vec<u64>,
    connected: bool,
}

/// Who is connected to whom.
pub struct MockHub {
    networks: HashMap<u64, Network>,
    registered: Vec<u64>,
}

impl View for MockHub {
    type V = LinksView;

    closed spec fn view(&self) -> LinksView {
        LinksView {
            networks: Map::new(
                |k: u64| self.networks@.contains_key(k),
                |k: u64|
                    NetworkView {
                        peers: self.networks@[k].peers@.to_set(),
                        connected: self.networks@[k].connected,
                    },
            ),
            registered: self.registered@.to_set(),
        }
    }
}

impl MockHub {
    /// A hub without networks.
    pub fn new() -> (r: Self)
        ensures
            r@.networks == Map::<u64, NetworkView>::empty(),
            r@.registered == Set::<u64>::empty(),
            r@.wf(),
    {
        let r = MockHub { networks: HashMap::new(), registered: Vec::new() };
        assert(r@.networks =~= Map::<u64, NetworkView>::empty());
        assert(r@.registered =~= Set::<u64>::empty());
        r
    }

    /// Whether a network can be reached at `address`.
    pub fn is_registered(&self, address: MockAddress) -> (r: bool)
        ensures
            r == self@.registered.contains(address.0),
    {
        list_contains(&self.registered, address.0)
    }

    /// Whether a network was ever created at `address`.
    pub fn knows(&self, address: MockAddress) -> (r: bool)
        ensures
            r == self@.networks.contains_key(address.0),
    {
        self.networks.contains_key(&address.0)
    }

    /// Whether the network at `address` counts as connected.
    pub fn is_connected(&self, address: MockAddress) -> (r: bool)
        ensures
            r == self@.connected().contains(address.0),
    {
        match self.networks.get(&address.0) {
            Some(n) => n.connected,
            None => false,
        }
    }

    /// Whether `peer` is among the peers of the network at `address`.
    pub fn has_peer(&self, address: MockAddress, peer: MockPeerId) -> (r: bool)
        ensures
            r == self@.peers_of(address.0).contains(peer.0),
    {
        match self.networks.get(&address.0) {
            Some(n) => list_contains(&n.peers, peer.0),
            None => false,
        }
    }

    /// The peers of the network at `address`.
    pub fn peers(&self, address: MockAddress) -> (r: Vec<MockPeerId>)
        ensures
            peer_ids(r@) == self@.peers_of(address.0),
    {
        let mut out: Vec<MockPeerId> = Vec::new();
        assert(peer_ids(out@) =~= Set::<u64>::empty());
        match self.networks.get(&address.0) {
            Some(n) => {
                let mut i: usize = 0;
                assert(peer_numbers(out@) =~= n.peers@.take(0));
                while i < n.peers.len()
                    invariant
                        i <= n.peers.len(),
                        peer_numbers(out@) == n.peers@.take(i as int),
                    decreases n.peers.len() - i,
                {
                    let ghost prev = out@;
                    out.push(MockPeerId(n.peers[i]));
                    proof {
                        assert(peer_numbers(out@) =~= peer_numbers(prev).push(n.peers@[i as int]));
                        assert(n.peers@.take(i + 1) =~= n.peers@.take(i as int).push(
                            n.peers@[i as int],
                        ));
                    }
                    i = i + 1;
                }
                assert(n.peers@.take(n.peers@.len() as int) =~= n.peers@);
            },
            None => {},
        }
        out
    }

    /// Creates a network at `address`. There must be none that can be
    /// reached there.
    pub fn create(&mut self, address: MockAddress)
        requires
            old(self)@.wf(),
            !old(self)@.registered.contains(address.0),
        ensures
            final(self)@ == old(self)@.create(address.0),
            final(self)@.wf(),
    {
        self.networks.insert(address.0, Network { peers: Vec::new(), connected: false });
        list_insert(&mut self.registered, address.0);
        proof {
            assert(Seq::<u64>::empty().to_set() =~= Set::<u64>::empty());
            assert(self@.networks =~= old(self)@.create(address.0).networks);
        }
    }

    /// Dials the network at `to` from the one at `from`, which must have
    /// been created.
    pub fn dial(&mut self, from: MockAddress, to: MockAddress) -> (r: Result<(), MockNetworkError>)
        requires
            old(self)@.wf(),
            old(self)@.networks.contains_key(from.0),
        ensures
            final(self)@.wf(),
            !old(self)@.registered.contains(to.0) ==> r == Err::<(), MockNetworkError>(
                MockNetworkError::CantConnect(to),
            ) && final(self)@ == old(self)@,
            old(self)@.registered.contains(to.0) ==> r is Ok && final(self)@ == old(self)@.dial(
                from.0,
                to.0,
            ),
    {
        if !list_contains(&self.registered, to.0) {
            return Err(MockNetworkError::CantConnect(to));
        }
        let ghost before = self@;
        // Put the dialing network into the peer list of the dialed one.
        let mut target = self.networks.remove(&to.0).unwrap();
        let ghost target_peers = target.peers@.to_set();
        let is_new = list_insert(&mut target.peers, from.0);
        proof {
            if !is_new {
                assert(target.peers@.to_set() =~= target_peers);
            }
        }
        if is_new {
            target.connected = true;
        }
        self.networks.insert(to.0, target);
        if is_new {
            let mut source = self.networks.remove(&from.0).unwrap();
            list_insert(&mut source.peers, to.0);
            source.connected = true;
            self.networks.insert(from.0, source);
            proof {
                assert(self@.networks =~= before.dial(from.0, to.0).networks);
            }
        } else {
            proof {
                assert(self@.networks =~= before.networks);
            }
        }
        Ok(())
    }

    /// Disconnects the network at `address` from all its peers. The network
    /// must have been created, and each of its peers must be reachable.
    pub fn disconnect(&mut self, address: MockAddress)
        requires
            old(self)@.wf(),
            old(self)@.networks.contains_key(address.0),
            old(self)@.networks[address.0].peers.subset_of(old(self)@.registered),
        ensures
            final(self)@ == old(self)@.disconnect(address.0),
            final(self)@.wf(),
    {
        let ghost before = self@;
        let own = self.networks.remove(&address.0).unwrap();
        self.networks.insert(address.0, Network { peers: Vec::new(), connected: false });
        proof {
            assert(Seq::<u64>::empty().to_set() =~= Set::<u64>::empty());
        }
        let mut i: usize = 0;
        while i < own.peers.len()
            invariant
                i <= own.peers.len(),
                before.wf(),
                own.peers@.to_set() == before.networks[address.0].peers,
                before.networks[address.0].peers.subset_of(before.registered),
                self@.registered == before.registered,
                self@.networks.dom() == before.networks.dom(),
                forall|k: u64| #[trigger]
                    before.networks.contains_key(k) ==> self@.networks[k] == (if k == address.0 {
                        NetworkView { peers: Set::empty(), connected: false }
                    } else if own.peers@.take(i as int).contains(k) {
                        NetworkView {
                            peers: before.networks[k].peers.remove(address.0),
                            ..before.networks[k]
                        }
                    } else {
                        before.networks[k]
                    }),
            decreases own.peers.len() - i,
        {
            let p = own.peers[i];
            let ghost seen = own.peers@.take(i as int);
            let ghost mid = self@;
            proof {
                assert(own.peers@.contains(p));
                assert(before.networks[address.0].peers.contains(p));
                assert(before.registered.contains(p));
                assert(before.networks.contains_key(p));
                assert(mid.networks.dom().contains(p));
            }
            if p != address.0 {
                let mut other = self.networks.remove(&p).unwrap();
                other.peers = list_without(&other.peers, address.0);
                self.networks.insert(p, other);
            }
            proof {
                let now = own.peers@.take(i + 1);
                assert(now =~= seen.push(p));
                assert(self@.networks.dom() =~= before.networks.dom());
                assert forall|k: u64| #[trigger] before.networks.contains_key(k) implies self@.networks[k]
                    == (if k == address.0 {
                    NetworkView { peers: Set::empty(), connected: false }
                } else if now.contains(k) {
                    NetworkView {
                        peers: before.networks[k].peers.remove(address.0),
                        ..before.networks[k]
                    }
                } else {
                    before.networks[k]
                }) by {
                    assert(mid.networks.dom().contains(k));
                    if k == p {
                        assert(now[i as int] == p);
                        if k != address.0 {
                            if seen.contains(k) {
                                assert(mid.networks[k].peers.remove(address.0)
                                    =~= before.networks[k].peers.remove(address.0));
                            }
                        }
                    } else {
                        if now.contains(k) {
                            let m = choose|m: int| 0 <= m < now.len() && now[m] == k;
                            assert(seen[m] == k);
                        }
                        if seen.contains(k) {
                            let m = choose|m: int| 0 <= m < seen.len() && seen[m] == k;
                            assert(now[m] == k);
                        }
                    }
                }
            }
            i = i + 1;
        }
        proof {
            assert(own.peers@.take(own.peers@.len() as int) =~= own.peers@);
            assert forall|k: u64| before.networks.contains_key(k) implies #[trigger] self@.networks[k]
                == before.disconnect(address.0).networks[k] by {
                assert(before.networks.contains_key(k));
            }
            assert(self@.networks =~= before.disconnect(address.0).networks);
        }
    }

    /// Disconnects the network at `address` from all its peers and takes it
    /// off the hub, so that it cannot be dialed any more.
    pub fn shutdown(&mut self, address: MockAddress)
        requires
            old(self)@.wf(),
            old(self)@.networks.contains_key(address.0),
            old(self)@.networks[address.0].peers.subset_of(old(self)@.registered),
        ensures
            final(self)@ == old(self)@.shutdown(address.0),
            final(self)@.wf(),
    {
        self.disconnect(address);
        self.registered = list_without(&self.registered, address.0);
    }
}

/// Who listens for which kind of request, and which requests wait for a
/// response, as a value.
pub struct RequestsView {
    /// The networks that listen, each with the kind of request it listens
    /// for.
    pub listeners: Set<(u64, u16)>,
    /// The requests that wait for a response, each with the peer that
    /// asked.
    pub waiting: Map<u64, u64>,
    /// The number that the next request gets.
    pub next_request_id: u64,
}

impl RequestsView {
    /// Whether a request of kind `kind` can go from `from` to `to`: the
    /// two are connected, and `to` listens for that kind.
    pub open spec fn can_send(self, links: LinksView, from: u64, to: u64, kind: u16) -> bool {
        &&& links.peers_of(from).contains(to)
        &&& self.listeners.contains((to, kind))
    }

    /// The table once a request from `from` was given its number.
    pub open spec fn sent(self, from: u64) -> RequestsView {
        RequestsView {
            waiting: self.waiting.insert(self.next_request_id, from),
            next_request_id: (self.next_request_id + 1) as u64,
            ..self
        }
    }
}

/// Whether the pair is in the list.
fn pairs_contain(list: &Vec<(u64, u16)>, a: u64, b: u16) -> (r: bool)
    ensures
        r == list@.to_set().contains((a, b)),
{
    let mut i: usize = 0;
    while i < list.len()
        invariant
            i <= list.len(),
            forall|p: int| 0 <= p < i ==> list@[p] != (a, b),
        decreases list.len() - i,
    {
        if list[i].0 == a && list[i].1 == b {
            assert(list@.contains((a, b)));
            return true;
        }
        i = i + 1;
    }
    assert(!list@.contains((a, b)));
    false
}

/// The requests of the test network.
pub struct RequestTable {
    listeners: Vec<(u64, u16)>,
    waiting: HashMap<u64, u64>,
    next_request_id: u64,
}

impl View for RequestTable {
    type V = RequestsView;

    closed spec fn view(&self) -> RequestsView {
        RequestsView {
            listeners: self.listeners@.to_set(),
            waiting: self.waiting@,
            next_request_id: self.next_request_id,
        }
    }
}

impl RequestTable {
    /// A table in which nobody listens and nothing waits.
    pub fn new() -> (r: Self)
        ensures
            r@.listeners == Set::<(u64, u16)>::empty(),
            r@.waiting == Map::<u64, u64>::empty(),
            r@.next_request_id == 0,
    {
        let r = RequestTable { listeners: Vec::new(), waiting: HashMap::new(), next_request_id: 0 };
        assert(r@.listeners =~= Set::<(u64, u16)>::empty());
        r
    }

    /// The number that the next request gets.
    pub fn next_request_id(&self) -> (r: MockRequestId)
        ensures
            r == self@.next_request_id,
    {
        self.next_request_id
    }

    /// Has the network at `address` listen for requests of kind `kind`;
    /// says whether it listened for them before, in which case the new
    /// listener takes the place of the old.
    pub fn listen(&mut self, address: MockAddress, kind: u16) -> (replaced: bool)
        ensures
            replaced == old(self)@.listeners.contains((address.0, kind)),
            final(self)@ == (RequestsView {
                listeners: old(self)@.listeners.insert((address.0, kind)),
                ..old(self)@
            }),
    {
        if pairs_contain(&self.listeners, address.0, kind) {
            assert(self@.listeners =~= self@.listeners.insert((address.0, kind)));
            return true;
        }
        self.listeners.push((address.0, kind));
        proof {
            old(self).listeners@.lemma_push_to_set_commute((address.0, kind));
        }
        false
    }

    /// Gives a request of kind `kind` from the network at `from` to the
    /// peer `to` its number, and notes that it waits for a response. The
    /// request is not sent unless the two are connected and the peer
    /// listens for that kind.
    pub fn request(&mut self, hub: &MockHub, from: MockAddress, to: MockPeerId, kind: u16) -> (r:
        Result<MockRequestId, RequestError>)
        requires
            old(self)@.next_request_id < u64::MAX,
        ensures
            old(self)@.can_send(hub@, from.0, to.0, kind) ==> r == Ok::<
                MockRequestId,
                RequestError,
            >(old(self)@.next_request_id) && final(self)@ == old(self)@.sent(from.0),
            !old(self)@.can_send(hub@, from.0, to.0, kind) ==> r == Err::<
                MockRequestId,
                RequestError,
            >(RequestError::SendError) && final(self)@ == old(self)@,
    {
        if !hub.has_peer(from, to) {
            return Err(RequestError::SendError);
        }
        if !pairs_contain(&self.listeners, to.0, kind) {
            return Err(RequestError::SendError);
        }
        let request_id = self.next_request_id;
        self.waiting.insert(request_id, from.0);
        self.next_request_id = self.next_request_id + 1;
        Ok(request_id)
    }

    /// Gives up the request `request_id`: it could not be sent, or no
    /// response came in time. It waits no longer.
    pub fn abandon(&mut self, request_id: MockRequestId)
        ensures
            final(self)@ == (RequestsView {
                waiting: old(self)@.waiting.remove(request_id),
                ..old(self)@
            }),
    {
        self.waiting.remove(&request_id);
    }

    /// Takes the request `request_id` off the table for the network at
    /// `address` to respond to it, and says whom the response goes to.
    ///
    /// There is nothing to respond to unless the request waits. The
    /// response cannot go out unless the peer that asked is still
    /// connected; the request waits no longer all the same.
    pub fn respond(&mut self, hub: &MockHub, address: MockAddress, request_id: MockRequestId) -> (r:
        Result<MockPeerId, MockNetworkError>)
        ensures
            final(self)@ == (RequestsView {
                waiting: old(self)@.waiting.remove(request_id),
                ..old(self)@
            }),
            !old(self)@.waiting.contains_key(request_id) ==> r == Err::<
                MockPeerId,
                MockNetworkError,
            >(MockNetworkError::CantRespond(request_id)),
            old(self)@.waiting.contains_key(request_id) ==> ({
                let peer = old(self)@.waiting[request_id];
                if hub@.peers_of(address.0).contains(peer) {
                    r == Ok::<MockPeerId, MockNetworkError>(MockPeerId(peer))
                } else {
                    r == Err::<MockPeerId, MockNetworkError>(MockNetworkError::NotConnected)
                }
            }),
    {
        match self.waiting.remove(&request_id) {
            Some(peer) => {
                if !hub.has_peer(address, MockPeerId(peer)) {
                    return Err(MockNetworkError::NotConnected);
                }
                Ok(MockPeerId(peer))
            },
            None => Err(MockNetworkError::CantRespond(request_id)),
        }
    }
}

/// What the table of the test network holds, by key: of the values put
/// under a key, the last.
pub open spec fn dht_view(entries: Seq<(Vec<u8>, Vec<u8>)>) -> Map<Seq<u8>, Seq<u8>>
    decreases entries.len(),
{
    if entries.len() == 0 {
        Map::empty()
    } else {
        dht_view(entries.drop_last()).insert(entries.last().0@, entries.last().1@)
    }
}

/// Whether two byte strings are the same.
fn same_bytes(a: &[u8], b: &[u8]) -> (r: bool)
    ensures
        r == (a@ == b@),
{
    if a.len() != b.len() {
        return false;
    }
    let mut i: usize = 0;
    while i < a.len()
        invariant
            i <= a.len(),
            a@.len() == b@.len(),
            forall|p: int| 0 <= p < i ==> a@[p] == b@[p],
        decreases a.len() - i,
    {
        if a[i] != b[i] {
            return false;
        }
        i = i + 1;
    }
    assert(a@ =~= b@);
    true
}

/// A copy of a byte string.
fn copy_bytes(a: &[u8]) -> (r: Vec<u8>)
    ensures
        r@ == a@,
{
    let mut out: Vec<u8> = Vec::new();
    let mut i: usize = 0;
    while i < a.len()
        invariant
            i <= a.len(),
            out@ == a@.take(i as int),
        decreases a.len() - i,
    {
        out.push(a[i]);
        assert(out@ =~= a@.take(i + 1));
        i = i + 1;
    }
    assert(a@.take(a@.len() as int) =~= a@);
    out
}

/// The table shared by all networks of a hub.
pub struct MockDht {
    entries: Vec<(Vec<u8>, Vec<u8>)>,
}

impl View for MockDht {
    type V = Map<Seq<u8>, Seq<u8>>;

    closed spec fn view(&self) -> Map<Seq<u8>, Seq<u8>> {
        dht_view(self.entries@)
    }
}

impl MockDht {
    /// An empty table.
    pub fn new() -> (r: Self)
        ensures
            r@ == Map::<Seq<u8>, Seq<u8>>::empty(),
    {
        MockDht { entries: Vec::new() }
    }

    /// The value under `k`, for the network at `address`, which has to be
    /// connected.
    pub fn get(&self, hub: &MockHub, address: MockAddress, k: &[u8]) -> (r: Result<
        Option<Vec<u8>>,
        MockNetworkError,
    >)
        ensures
            !hub@.connected().contains(address.0) ==> r
                == Err::<Option<Vec<u8>>, MockNetworkError>(MockNetworkError::NotConnected),
            hub@.connected().contains(address.0) ==> (
            match r {
                Ok(Some(v)) => self@.contains_key(k@) && self@[k@] == v@,
                Ok(None) => !self@.contains_key(k@),
                Err(_) => false,
            }),
    {
        if !hub.is_connected(address) {
            return Err(MockNetworkError::NotConnected);
        }
        let mut i = self.entries.len();
        assert(self.entries@.take(i as int) =~= self.entries@);
        while i > 0
            invariant
                i <= self.entries.len(),
                hub@.connected().contains(address.0),
                self@.contains_key(k@) == dht_view(self.entries@.take(i as int)).contains_key(k@),
                self@.contains_key(k@) ==> self@[k@] == dht_view(self.entries@.take(i as int))[k@],
            decreases i,
        {
            let ghost upto = self.entries@.take(i as int);
            proof {
                assert(upto.drop_last() =~= self.entries@.take(i - 1));
                assert(upto.last() == self.entries@[i - 1]);
            }
            i = i - 1;
            if same_bytes(self.entries[i].0.as_slice(), k) {
                return Ok(Some(copy_bytes(self.entries[i].1.as_slice())));
            }
        }
        proof {
            assert(self.entries@.take(0) =~= Seq::<(Vec<u8>, Vec<u8>)>::empty());
        }
        Ok(None)
    }

    /// Puts `v` under `k`, for the network at `address`, which has to be
    /// connected.
    pub fn put(&mut self, hub: &MockHub, address: MockAddress, k: &[u8], v: &[u8]) -> (r: Result<
        (),
        MockNetworkError,
    >)
        ensures
            !hub@.connected().contains(address.0) ==> r
                == Err::<(), MockNetworkError>(MockNetworkError::NotConnected) && final(self)@
                == old(self)@,
            hub@.connected().contains(address.0) ==> r
                is Ok && final(self)@ == old(self)@.insert(k@, v@),
    {
        if !hub.is_connected(address) {
            return Err(MockNetworkError::NotConnected);
        }
        self.entries.push((copy_bytes(k), copy_bytes(v)));
        proof {
            assert(self.entries@.drop_last() =~= old(self).entries@);
            assert(self.entries@.take(self.entries@.len() as int) =~= self.entries@);
        }
        Ok(())
    }
}

/// A topic and the networks that are subscribed to it.
pub struct MockTopic {
    name: String,
    subscribers: Vec<u64>,
}

/// The place of the first topic of name `name`, if there is one.
pub closed spec fn topic_index(topics: Seq<MockTopic>, name: Seq<char>) -> Option<int>
    decreases topics.len(),
{
    if topics.len() == 0 {
        None
    } else {
        match topic_index(topics.drop_last(), name) {
            Some(i) => Some(i),
            None => if topics.last().name@ == name {
                Some(topics.len() - 1)
            } else {
                None
            },
        }
    }
}

/// What `topic_index` finds is the place of a topic of that name, and no
/// topic before it has the name; what it does not find is not there.
proof fn lemma_topic_index(topics: Seq<MockTopic>, name: Seq<char>)
    ensures
        topic_index(topics, name) matches Some(i) ==> 0 <= i < topics.len() && topics[i].name@
            == name && forall|j: int| 0 <= j < i ==> topics[j].name@ != name,
        topic_index(topics, name) is None ==> forall|j: int|
            0 <= j < topics.len() ==> topics[j].name@ != name,
    decreases topics.len(),
{
    if topics.len() > 0 {
        lemma_topic_index(topics.drop_last(), name);
        let front = topics.drop_last();
        assert forall|j: int| 0 <= j < front.len() implies front[j] == topics[j] by {}
        if topic_index(front, name) is None {
            assert forall|j: int| 0 <= j < topics.len() - 1 implies topics[j].name@ != name by {
                assert(front[j].name@ != name);
            }
        } else {
            let i = topic_index(front, name)->0;
            assert(front[i] == topics[i]);
            assert forall|j: int| 0 <= j < i implies topics[j].name@ != name by {
                assert(front[j].name@ != name);
            }
        }
    }
}

/// The place of the first topic with a name is where, going up from the
/// start, a topic of that name is first met.
proof fn lemma_topic_found(topics: Seq<MockTopic>, name: Seq<char>, i: int)
    requires
        0 <= i < topics.len(),
        topics[i].name@ == name,
        forall|j: int| 0 <= j < i ==> topics[j].name@ != name,
    ensures
        topic_index(topics, name) == Some(i),
{
    lemma_topic_index(topics, name);
}

/// Changing who is subscribed to a topic changes no topic's place.
proof fn lemma_topic_index_names(a: Seq<MockTopic>, b: Seq<MockTopic>, name: Seq<char>)
    requires
        a.len() == b.len(),
        forall|j: int| 0 <= j < a.len() ==> a[j].name@ == b[j].name@,
    ensures
        topic_index(a, name) == topic_index(b, name),
    decreases a.len(),
{
    if a.len() > 0 {
        lemma_topic_index_names(a.drop_last(), b.drop_last(), name);
    }
}

/// The subscribers of the topic of name `name`; nobody, if there is no
/// such topic.
pub closed spec fn subscribers_of(topics: Seq<MockTopic>, name: Seq<char>) -> Set<u64> {
    match topic_index(topics, name) {
        Some(i) => topics[i].subscribers@.to_set(),
        None => Set::empty(),
    }
}

/// Who is subscribed to what.
pub struct MockTopics {
    topics: Vec<MockTopic>,
}

impl MockTopics {
    /// The networks that are subscribed to the topic of name `name`.
    pub closed spec fn subscribers(self, name: Seq<char>) -> Set<u64> {
        subscribers_of(self.topics@, name)
    }

    /// A hub's topics, with nobody subscribed to anything.
    pub fn new() -> (r: Self)
        ensures
            forall|name: Seq<char>| r.subscribers(name) == Set::<u64>::empty(),
    {
        MockTopics { topics: Vec::new() }
    }

    /// The place of the topic of name `name`.
    fn find(&self, name: &String) -> (r: Option<usize>)
        ensures
            r is Some <==> topic_index(self.topics@, name@) is Some,
            r matches Some(i) ==> topic_index(self.topics@, name@) == Some(i as int) && i
                < self.topics@.len(),
    {
        proof {
            lemma_topic_index(self.topics@, name@);
        }
        let mut i: usize = 0;
        while i < self.topics.len()
            invariant
                i <= self.topics.len(),
                forall|j: int| 0 <= j < i ==> self.topics@[j].name@ != name@,
            decreases self.topics.len() - i,
        {
            if self.topics[i].name == *name {
                proof {
                    lemma_topic_found(self.topics@, name@, i as int);
                }
                return Some(i);
            }
            i = i + 1;
        }
        None
    }

    /// Whether the network at `address` is subscribed to the topic.
    pub fn is_subscribed(&self, topic_name: &'static str, address: MockAddress) -> (r: bool)
        ensures
            r == self.subscribers(topic_name@).contains(address.0),
    {
        let name = String::from_str(topic_name);
        match self.find(&name) {
            Some(i) => list_contains(&self.topics[i].subscribers, address.0),
            None => false,
        }
    }

    /// Subscribes the network at `address` to the topic, unless it is
    /// subscribed already.
    pub fn subscribe(&mut self, topic_name: &'static str, address: MockAddress) -> (r: Result<
        (),
        MockNetworkError,
    >)
        ensures
            old(self).subscribers(topic_name@).contains(address.0) ==> r == Err::<
                (),
                MockNetworkError,
            >(MockNetworkError::AlreadySubscribed(topic_name)) && forall|name: Seq<char>|
                final(self).subscribers(name) == old(self).subscribers(name),
            !old(self).subscribers(topic_name@).contains(address.0) ==> r is Ok && forall|
                name: Seq<char>,
            |
                final(self).subscribers(name) == (if name == topic_name@ {
                    old(self).subscribers(name).insert(address.0)
                } else {
                    old(self).subscribers(name)
                }),
    {
        let name = String::from_str(topic_name);
        let ghost before = self.topics@;
        match self.find(&name) {
            Some(i) => {
                if list_contains(&self.topics[i].subscribers, address.0) {
                    return Err(MockNetworkError::AlreadySubscribed(topic_name));
                }
                let mut topic = self.topics.remove(i);
                list_insert(&mut topic.subscribers, address.0);
                let ghost changed = topic;
                self.topics.insert(i, topic);
                proof {
                    assert(self.topics@ =~= before.update(i as int, changed));
                    assert forall|n: Seq<char>| self.subscribers(n) == (if n == topic_name@ {
                        old(self).subscribers(n).insert(address.0)
                    } else {
                        old(self).subscribers(n)
                    }) by {
                        lemma_topic_index_names(before, self.topics@, n);
                        lemma_topic_index(before, n);
                        lemma_topic_index(before, name@);
                        match topic_index(before, n) {
                            Some(j) => {
                                if j != i {
                                    assert(self.topics@[j] == before[j]);
                                }
                            },
                            None => {},
                        }
                    }
                }
            },
            None => {
                let mut subscribers: Vec<u64> = Vec::new();
                subscribers.push(address.0);
                self.topics.push(MockTopic { name, subscribers });
                proof {
                    assert(self.topics@.drop_last() =~= before);
                    assert(seq![address.0].to_set() =~= Set::<u64>::empty().insert(address.0)) by {
                        Seq::<u64>::empty().lemma_push_to_set_commute(address.0);
                        assert(Seq::<u64>::empty().push(address.0) =~= seq![address.0]);
                        assert(Seq::<u64>::empty().to_set() =~= Set::<u64>::empty());
                    }
                    assert(subscribers@ =~= seq![address.0]);
                    assert forall|n: Seq<char>| self.subscribers(n) == (if n == topic_name@ {
                        old(self).subscribers(n).insert(address.0)
                    } else {
                        old(self).subscribers(n)
                    }) by {
                        lemma_topic_index(before, n);
                        if topic_index(before, n) is Some {
                            assert(before[topic_index(before, n)->0] == self.topics@[topic_index(
                                before,
                                n,
                            )->0]);
                        }
                    }
                }
            },
        }
        Ok(())
    }

    /// Takes the subscription of the network at `address` to the topic
    /// back. The network has to be connected, and subscribed.
    pub fn unsubscribe(&mut self, hub: &MockHub, topic_name: &'static str, address: MockAddress) -> (r:
        Result<(), MockNetworkError>)
        ensures
            r == (if !hub@.connected().contains(address.0) {
                Err::<(), MockNetworkError>(MockNetworkError::NotConnected)
            } else if !old(self).subscribers(topic_name@).contains(address.0) {
                Err::<(), MockNetworkError>(MockNetworkError::AlreadyUnsubscribed(topic_name))
            } else {
                Ok::<(), MockNetworkError>(())
            }),
            forall|name: Seq<char>|
                final(self).subscribers(name) == (if r is Ok && name == topic_name@ {
                    old(self).subscribers(name).remove(address.0)
                } else {
                    old(self).subscribers(name)
                }),
    {
        if !hub.is_connected(address) {
            return Err(MockNetworkError::NotConnected);
        }
        let name = String::from_str(topic_name);
        let ghost before = self.topics@;
        match self.find(&name) {
            Some(i) => {
                if !list_contains(&self.topics[i].subscribers, address.0) {
                    return Err(MockNetworkError::AlreadyUnsubscribed(topic_name));
                }
                let mut topic = self.topics.remove(i);
                topic.subscribers = list_without(&topic.subscribers, address.0);
                let ghost changed = topic;
                self.topics.insert(i, topic);
                proof {
                    assert(self.topics@ =~= before.update(i as int, changed));
                    assert forall|n: Seq<char>| self.subscribers(n) == (if n == topic_name@ {
                        old(self).subscribers(n).remove(address.0)
                    } else {
                        old(self).subscribers(n)
                    }) by {
                        lemma_topic_index_names(before, self.topics@, n);
                        lemma_topic_index(before, n);
                        lemma_topic_index(before, name@);
                        match topic_index(before, n) {
                            Some(j) => {
                                if j != i {
                                    assert(self.topics@[j] == before[j]);
                                }
                            },
                            None => {},
                        }
                    }
                }
                Ok(())
            },
            None => Err(MockNetworkError::AlreadyUnsubscribed(topic_name)),
        }
    }

    /// Says to whom what the network at `address` publishes on the topic
    /// is delivered: to each subscriber of the topic that is connected. The
    /// network itself has to be connected.
    pub fn publish(&self, hub: &MockHub, topic_name: &'static str, address: MockAddress) -> (r:
        Result<Vec<MockPeerId>, MockNetworkError>)
        ensures
            !hub@.connected().contains(address.0) ==> r == Err::<
                Vec<MockPeerId>,
                MockNetworkError,
            >(MockNetworkError::NotConnected),
            hub@.connected().contains(address.0) ==> r is Ok,
            r matches Ok(receivers) ==> peer_ids(receivers@) == self.subscribers(
                topic_name@,
            ).intersect(hub@.connected()),
    {
        if !hub.is_connected(address) {
            return Err(MockNetworkError::NotConnected);
        }
        let name = String::from_str(topic_name);
        let mut receivers: Vec<MockPeerId> = Vec::new();
        assert(peer_ids(receivers@) =~= Set::<u64>::empty());
        match self.find(&name) {
            Some(i) => {
                let subscribers = &self.topics[i].subscribers;
                let mut k: usize = 0;
                assert(subscribers@.take(0).to_set() =~= Set::<u64>::empty());
                while k < subscribers.len()
                    invariant
                        k <= subscribers.len(),
                        peer_ids(receivers@) == subscribers@.take(k as int).to_set().intersect(
                            hub@.connected(),
                        ),
                    decreases subscribers.len() - k,
                {
                    let s = subscribers[k];
                    let ghost before = receivers@;
                    let ghost seen = subscribers@.take(k as int);
                    let live = hub.is_connected(MockAddress(s));
                    if live {
                        receivers.push(MockPeerId(s));
                    }
                    proof {
                        let now = subscribers@.take(k + 1);
                        assert(now =~= seen.push(s));
                        seen.lemma_push_to_set_commute(s);
                        if live {
                            let ids = peer_numbers(before);
                            assert(peer_numbers(receivers@) =~= ids.push(s));
                            ids.lemma_push_to_set_commute(s);
                        }
                        assert(peer_ids(receivers@) =~= now.to_set().intersect(hub@.connected()));
                    }
                    k = k + 1;
                }
                proof {
                    assert(subscribers@.take(subscribers@.len() as int) =~= subscribers@);
                }
            },
            None => {
                assert(self.subscribers(topic_name@).intersect(hub@.connected()) =~= Set::<
                    u64,
                >::empty());
            },
        }
        Ok(receivers)
    }
}

} // verus!
