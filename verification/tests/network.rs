use handel::network::{
    MockAddress, MockDht, MockHub, MockNetworkError, MockPeerId, MockTopics, RequestError,
    RequestTable, REQUEST_TIMEOUT_SECS,
};

fn hub_of(addresses: &[u64]) -> MockHub {
    let mut hub = MockHub::new();
    for a in addresses {
        hub.create(MockAddress(*a));
    }
    hub
}

fn peers(hub: &MockHub, a: u64) -> Vec<u64> {
    let mut v: Vec<u64> = hub.peers(MockAddress(a)).iter().map(|p| p.0).collect();
    v.sort();
    v
}

#[test]
fn a_created_network_is_reachable_and_alone() {
    let hub = hub_of(&[1, 2]);
    assert!(hub.is_registered(MockAddress(1)));
    assert!(hub.knows(MockAddress(1)));
    assert!(!hub.is_registered(MockAddress(3)));
    assert!(!hub.knows(MockAddress(3)));
    assert!(!hub.is_connected(MockAddress(1)));
    assert!(!hub.is_connected(MockAddress(3)));
    assert_eq!(peers(&hub, 1), Vec::<u64>::new());
    assert_eq!(peers(&hub, 3), Vec::<u64>::new());
}

#[test]
fn dialing_connects_both_ends() {
    let mut hub = hub_of(&[1, 2, 3]);
    assert_eq!(hub.dial(MockAddress(1), MockAddress(2)), Ok(()));
    assert_eq!(peers(&hub, 1), vec![2]);
    assert_eq!(peers(&hub, 2), vec![1]);
    assert!(hub.is_connected(MockAddress(1)));
    assert!(hub.is_connected(MockAddress(2)));
    assert!(!hub.is_connected(MockAddress(3)));
    assert!(hub.has_peer(MockAddress(1), MockPeerId(2)));
    assert!(!hub.has_peer(MockAddress(1), MockPeerId(3)));
    assert!(!hub.has_peer(MockAddress(9), MockPeerId(1)));
    // Dialing again, from either end, changes nothing.
    assert_eq!(hub.dial(MockAddress(1), MockAddress(2)), Ok(()));
    assert_eq!(hub.dial(MockAddress(2), MockAddress(1)), Ok(()));
    assert_eq!(peers(&hub, 1), vec![2]);
    assert_eq!(peers(&hub, 2), vec![1]);
}

#[test]
fn dialing_nowhere_fails() {
    let mut hub = hub_of(&[1]);
    assert_eq!(
        hub.dial(MockAddress(1), MockAddress(7)),
        Err(MockNetworkError::CantConnect(MockAddress(7)))
    );
    assert!(!hub.is_connected(MockAddress(1)));
    assert_eq!(peers(&hub, 1), Vec::<u64>::new());
}

#[test]
fn disconnecting_leaves_all_peers() {
    let mut hub = hub_of(&[1, 2, 3]);
    hub.dial(MockAddress(1), MockAddress(2)).unwrap();
    hub.dial(MockAddress(3), MockAddress(1)).unwrap();
    hub.dial(MockAddress(2), MockAddress(3)).unwrap();
    assert_eq!(peers(&hub, 1), vec![2, 3]);
    hub.disconnect(MockAddress(1));
    assert_eq!(peers(&hub, 1), Vec::<u64>::new());
    assert_eq!(peers(&hub, 2), vec![3]);
    assert_eq!(peers(&hub, 3), vec![2]);
    assert!(!hub.is_connected(MockAddress(1)));
    // The others still count as connected.
    assert!(hub.is_connected(MockAddress(2)));
    assert!(hub.is_registered(MockAddress(1)));
    // It can be dialed again.
    assert_eq!(hub.dial(MockAddress(2), MockAddress(1)), Ok(()));
    assert_eq!(peers(&hub, 1), vec![2]);
}

#[test]
fn a_network_that_shut_down_cannot_be_dialed() {
    let mut hub = hub_of(&[1, 2]);
    hub.dial(MockAddress(1), MockAddress(2)).unwrap();
    hub.shutdown(MockAddress(2));
    assert!(!hub.is_registered(MockAddress(2)));
    assert!(hub.knows(MockAddress(2)));
    assert_eq!(peers(&hub, 1), Vec::<u64>::new());
    assert_eq!(
        hub.dial(MockAddress(1), MockAddress(2)),
        Err(MockNetworkError::CantConnect(MockAddress(2)))
    );
    // The address is free for a new network.
    hub.create(MockAddress(2));
    assert_eq!(hub.dial(MockAddress(1), MockAddress(2)), Ok(()));
}

#[test]
fn requests_need_a_connection_and_a_listener() {
    let mut hub = hub_of(&[1, 2]);
    let mut table = RequestTable::new();
    assert_eq!(
        table.request(&hub, MockAddress(1), MockPeerId(2), 124),
        Err(RequestError::SendError)
    );
    hub.dial(MockAddress(1), MockAddress(2)).unwrap();
    assert_eq!(
        table.request(&hub, MockAddress(1), MockPeerId(2), 124),
        Err(RequestError::SendError)
    );
    assert!(!table.listen(MockAddress(2), 124));
    assert!(table.listen(MockAddress(2), 124));
    assert_eq!(
        table.request(&hub, MockAddress(1), MockPeerId(2), 7),
        Err(RequestError::SendError)
    );
    assert_eq!(table.request(&hub, MockAddress(1), MockPeerId(2), 124), Ok(0));
    assert_eq!(table.request(&hub, MockAddress(1), MockPeerId(2), 124), Ok(1));
}

#[test]
fn responses_go_to_the_peer_that_asked() {
    let mut hub = hub_of(&[1, 2]);
    let mut table = RequestTable::new();
    hub.dial(MockAddress(1), MockAddress(2)).unwrap();
    table.listen(MockAddress(2), 124);
    let id = table.request(&hub, MockAddress(1), MockPeerId(2), 124).unwrap();
    assert_eq!(table.respond(&hub, MockAddress(2), id), Ok(MockPeerId(1)));
    // It has been responded to.
    assert_eq!(table.respond(&hub, MockAddress(2), id), Err(MockNetworkError::CantRespond(id)));
    assert_eq!(table.respond(&hub, MockAddress(2), 99), Err(MockNetworkError::CantRespond(99)));
}

#[test]
fn responses_need_the_connection_to_last() {
    let mut hub = hub_of(&[1, 2]);
    let mut table = RequestTable::new();
    hub.dial(MockAddress(1), MockAddress(2)).unwrap();
    table.listen(MockAddress(2), 124);
    let id = table.request(&hub, MockAddress(1), MockPeerId(2), 124).unwrap();
    hub.disconnect(MockAddress(1));
    assert_eq!(table.respond(&hub, MockAddress(2), id), Err(MockNetworkError::NotConnected));
    assert_eq!(table.respond(&hub, MockAddress(2), id), Err(MockNetworkError::CantRespond(id)));
}

#[test]
fn an_abandoned_request_cannot_be_responded_to() {
    let mut hub = hub_of(&[1, 2]);
    let mut table = RequestTable::new();
    hub.dial(MockAddress(1), MockAddress(2)).unwrap();
    table.listen(MockAddress(2), 124);
    let id = table.request(&hub, MockAddress(1), MockPeerId(2), 124).unwrap();
    table.abandon(id);
    assert_eq!(table.respond(&hub, MockAddress(2), id), Err(MockNetworkError::CantRespond(id)));
    assert_eq!(REQUEST_TIMEOUT_SECS, 5);
}

#[test]
fn the_shared_table_needs_a_connection() {
    let mut hub = hub_of(&[1, 2]);
    let mut dht = MockDht::new();
    assert_eq!(dht.put(&hub, MockAddress(1), b"k", b"v"), Err(MockNetworkError::NotConnected));
    assert_eq!(dht.get(&hub, MockAddress(1), b"k"), Err(MockNetworkError::NotConnected));
    hub.dial(MockAddress(1), MockAddress(2)).unwrap();
    assert_eq!(dht.get(&hub, MockAddress(1), b"k"), Ok(None));
    assert_eq!(dht.put(&hub, MockAddress(1), b"k", b"v"), Ok(()));
    assert_eq!(dht.put(&hub, MockAddress(2), b"other", b"w"), Ok(()));
    assert_eq!(dht.get(&hub, MockAddress(2), b"k"), Ok(Some(b"v".to_vec())));
    // The last value put under a key counts.
    assert_eq!(dht.put(&hub, MockAddress(2), b"k", b"v2"), Ok(()));
    assert_eq!(dht.get(&hub, MockAddress(1), b"k"), Ok(Some(b"v2".to_vec())));
    assert_eq!(dht.get(&hub, MockAddress(1), b"other"), Ok(Some(b"w".to_vec())));
    assert_eq!(dht.get(&hub, MockAddress(1), b""), Ok(None));
}

#[test]
fn subscriptions_are_kept_by_topic() {
    let mut hub = hub_of(&[1, 2, 3]);
    let mut topics = MockTopics::new();
    // Subscribing needs no connection.
    assert_eq!(topics.subscribe("blocks", MockAddress(1)), Ok(()));
    assert_eq!(
        topics.subscribe("blocks", MockAddress(1)),
        Err(MockNetworkError::AlreadySubscribed("blocks"))
    );
    assert_eq!(topics.subscribe("votes", MockAddress(1)), Ok(()));
    assert_eq!(topics.subscribe("blocks", MockAddress(2)), Ok(()));
    assert!(topics.is_subscribed("blocks", MockAddress(1)));
    assert!(topics.is_subscribed("votes", MockAddress(1)));
    assert!(!topics.is_subscribed("votes", MockAddress(2)));
    assert!(!topics.is_subscribed("other", MockAddress(1)));
    // Unsubscribing does.
    assert_eq!(
        topics.unsubscribe(&hub, "blocks", MockAddress(1)),
        Err(MockNetworkError::NotConnected)
    );
    hub.dial(MockAddress(1), MockAddress(2)).unwrap();
    assert_eq!(topics.unsubscribe(&hub, "blocks", MockAddress(1)), Ok(()));
    assert_eq!(
        topics.unsubscribe(&hub, "blocks", MockAddress(1)),
        Err(MockNetworkError::AlreadyUnsubscribed("blocks"))
    );
    assert_eq!(
        topics.unsubscribe(&hub, "other", MockAddress(1)),
        Err(MockNetworkError::AlreadyUnsubscribed("other"))
    );
    assert!(!topics.is_subscribed("blocks", MockAddress(1)));
    assert!(topics.is_subscribed("votes", MockAddress(1)));
    assert!(topics.is_subscribed("blocks", MockAddress(2)));
}

#[test]
fn what_is_published_reaches_connected_subscribers() {
    let mut hub = hub_of(&[1, 2, 3]);
    let mut topics = MockTopics::new();
    for a in [1u64, 2, 3] {
        topics.subscribe("blocks", MockAddress(a)).unwrap();
    }
    assert_eq!(topics.publish(&hub, "blocks", MockAddress(1)), Err(MockNetworkError::NotConnected));
    hub.dial(MockAddress(1), MockAddress(2)).unwrap();
    let mut receivers: Vec<u64> =
        topics.publish(&hub, "blocks", MockAddress(1)).unwrap().iter().map(|p| p.0).collect();
    receivers.sort();
    // Network 3 is subscribed but not connected.
    assert_eq!(receivers, vec![1, 2]);
    assert_eq!(topics.publish(&hub, "nobody", MockAddress(1)), Ok(vec![]));
}
