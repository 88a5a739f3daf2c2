use mock_routing::classify::NetworkEvent;
use mock_routing::classify::Peer;
use mock_routing::event::ClientEvent;
use mock_routing::event::Event;
use mock_routing::event::PeerAddr;
use mock_routing::event::StreamError;
use mock_routing::network::ConsensusGroup;
use mock_routing::network::EventStream;
use mock_routing::network::Network;
use mock_routing::network::Node;

fn addr(port: u16) -> PeerAddr {
    PeerAddr { ip: 0x7f00_0001, port, v6: false }
}

#[test]
fn standalone_node_returns_votes_in_order() {
    let mut net = Network::new(1);
    let mut node = Node::builder().create(&mut net).unwrap();
    node.vote_for(&mut net, vec![1]);
    node.vote_for(&mut net, vec![2, 2]);
    assert_eq!(node.try_next_ev(&mut net), Ok(Event::Consensus(vec![1])));
    assert_eq!(node.try_next_ev(&mut net), Ok(Event::Consensus(vec![2, 2])));
    assert_eq!(node.try_next_ev(&mut net), Err(StreamError::Empty));
}

#[test]
fn standalone_nodes_have_separate_inboxes() {
    let mut net = Network::new(1);
    let mut a = Node::builder().create(&mut net).unwrap();
    let mut b = Node::builder().create(&mut net).unwrap();
    a.vote_for(&mut net, vec![9]);
    assert_eq!(b.try_next_ev(&mut net), Err(StreamError::Empty));
    assert_eq!(a.try_next_ev(&mut net), Ok(Event::Consensus(vec![9])));
}

#[test]
fn group_vote_reaches_every_member_once() {
    let mut net = Network::new(1);
    let group = ConsensusGroup::new(&mut net);
    let mut a = Node::builder().create_within_group(&mut net, &group).unwrap();
    let mut b = Node::builder().create_within_group(&mut net, &group).unwrap();
    let mut c = Node::builder().create_within_group(&mut net, &group).unwrap();
    b.vote_for(&mut net, vec![5, 6]);
    for node in [&mut a, &mut b, &mut c] {
        assert_eq!(node.try_next_ev(&mut net), Ok(Event::Consensus(vec![5, 6])));
        assert_eq!(node.try_next_ev(&mut net), Err(StreamError::Empty));
    }
}

#[test]
fn group_votes_keep_their_order_in_each_inbox() {
    let mut net = Network::new(1);
    let group = ConsensusGroup::new(&mut net);
    let mut a = Node::builder().create_within_group(&mut net, &group).unwrap();
    let mut b = Node::builder().create_within_group(&mut net, &group).unwrap();
    a.vote_for(&mut net, vec![1]);
    b.vote_for(&mut net, vec![2]);
    a.vote_for(&mut net, vec![3]);
    for node in [&mut a, &mut b] {
        assert_eq!(node.try_next_ev(&mut net), Ok(Event::Consensus(vec![1])));
        assert_eq!(node.try_next_ev(&mut net), Ok(Event::Consensus(vec![2])));
        assert_eq!(node.try_next_ev(&mut net), Ok(Event::Consensus(vec![3])));
        assert_eq!(node.try_next_ev(&mut net), Err(StreamError::Empty));
    }
}

#[test]
fn group_vote_misses_nodes_outside_the_group() {
    let mut net = Network::new(1);
    let group = ConsensusGroup::new(&mut net);
    let mut member = Node::builder().create_within_group(&mut net, &group).unwrap();
    let mut outsider = Node::builder().create(&mut net).unwrap();
    member.vote_for(&mut net, vec![4]);
    assert_eq!(outsider.try_next_ev(&mut net), Err(StreamError::Empty));
    assert_eq!(member.try_next_ev(&mut net), Ok(Event::Consensus(vec![4])));
}

#[test]
fn vote_after_group_destroyed_delivers_nothing() {
    let mut net = Network::new(1);
    let group = ConsensusGroup::new(&mut net);
    let mut a = Node::builder().create_within_group(&mut net, &group).unwrap();
    let mut b = Node::builder().create_within_group(&mut net, &group).unwrap();
    a.vote_for(&mut net, vec![1]);
    group.destroy(&mut net);
    a.vote_for(&mut net, vec![2]);
    b.vote_for(&mut net, vec![3]);
    // What was delivered before stays readable.
    assert_eq!(a.try_next_ev(&mut net), Ok(Event::Consensus(vec![1])));
    assert_eq!(a.try_next_ev(&mut net), Err(StreamError::Empty));
    assert_eq!(b.try_next_ev(&mut net), Ok(Event::Consensus(vec![1])));
    assert_eq!(b.try_next_ev(&mut net), Err(StreamError::Empty));
}

#[test]
fn poll_moves_client_events_after_queued_votes() {
    let mut net = Network::new(1);
    let mut node = Node::builder().create(&mut net).unwrap();
    assert!(!node.poll(&mut net));
    node.vote_for(&mut net, vec![1]);
    net.deliver(&node, NetworkEvent::ConnectedTo { peer: Peer::Client { peer_addr: addr(10) } });
    net.deliver(&node, NetworkEvent::Finish);
    net.deliver(&node, NetworkEvent::NewMessage { peer_addr: addr(11), msg: vec![7, 8] });
    // Nothing arrived is visible before a poll.
    assert_eq!(node.try_next_ev(&mut net), Ok(Event::Consensus(vec![1])));
    assert_eq!(node.try_next_ev(&mut net), Err(StreamError::Empty));
    assert!(node.poll(&mut net));
    assert_eq!(
        node.try_next_ev(&mut net),
        Ok(Event::ClientEvent(ClientEvent::ConnectedToClient { peer_addr: addr(10) }))
    );
    assert_eq!(
        node.try_next_ev(&mut net),
        Ok(Event::ClientEvent(ClientEvent::NewMessageFromClient { peer_addr: addr(11), msg: vec![7, 8] }))
    );
    assert_eq!(node.try_next_ev(&mut net), Err(StreamError::Empty));
    assert!(!node.poll(&mut net));
}

#[test]
fn blocking_read_polls_only_an_empty_inbox() {
    let mut net = Network::new(1);
    let mut node = Node::builder().create(&mut net).unwrap();
    node.vote_for(&mut net, vec![3]);
    net.deliver(&node, NetworkEvent::ConnectionFailure { peer_addr: addr(12) });
    net.deliver(&node, NetworkEvent::BootstrapFailure);
    assert_eq!(node.next_ev(&mut net), Ok(Event::Consensus(vec![3])));
    // The inbox held an event, so nothing that arrived was moved into it.
    assert_eq!(node.try_next_ev(&mut net), Err(StreamError::Empty));
    assert_eq!(
        node.next_ev(&mut net),
        Ok(Event::ClientEvent(ClientEvent::ConnectionFailureToClient { peer_addr: addr(12) }))
    );
    assert_eq!(node.next_ev(&mut net), Err(StreamError::Closed));
    assert_eq!(node.try_next_ev(&mut net), Err(StreamError::Empty));
}

#[test]
fn every_name_matches_the_single_section() {
    let mut net = Network::new(1);
    let node = Node::builder().create(&mut net).unwrap();
    assert_eq!(node.matches_our_prefix(&[0u8; 32]), Ok(true));
    assert_eq!(node.matches_our_prefix(&[255u8; 32]), Ok(true));
}

#[test]
fn no_elders_are_known() {
    let mut net = Network::new(1);
    let node = Node::builder().create(&mut net).unwrap();
    assert_eq!(node.our_elders_info().map(|v| v.len()), Some(0));
    assert_eq!(node.closest_known_elders_to(&[1u8; 32]).map(|v| v.len()), Ok(0));
}

#[test]
fn networks_keep_their_identity() {
    let mut first = Network::new(1);
    let mut second = Network::new(2);
    let mut a = Node::builder().create(&mut first).unwrap();
    let mut b = Node::builder().create(&mut second).unwrap();
    a.vote_for(&mut first, vec![1]);
    b.vote_for(&mut second, vec![2]);
    assert_eq!(a.try_next_ev(&mut first), Ok(Event::Consensus(vec![1])));
    assert_eq!(b.try_next_ev(&mut second), Ok(Event::Consensus(vec![2])));
}
