use mock_routing::event::bytes_equal;
use mock_routing::event::copy_bytes;
use mock_routing::event::Event;
use mock_routing::classify::NetworkEvent;
use mock_routing::classify::Peer;
use mock_routing::event::ClientEvent;
use mock_routing::event::PeerAddr;

fn addr(port: u16) -> PeerAddr {
    PeerAddr { ip: 1, port, v6: true }
}

#[test]
fn connected_maps_to_connected_client() {
    let r = ClientEvent::try_from(NetworkEvent::ConnectedTo { peer: Peer::Node { peer_addr: addr(1) } });
    assert_eq!(r, Ok(ClientEvent::ConnectedToClient { peer_addr: addr(1) }));
}

#[test]
fn new_message_keeps_its_bytes() {
    let r = ClientEvent::try_from(NetworkEvent::NewMessage { peer_addr: addr(2), msg: vec![1, 2, 3] });
    assert_eq!(r, Ok(ClientEvent::NewMessageFromClient { peer_addr: addr(2), msg: vec![1, 2, 3] }));
}

#[test]
fn connection_failure_maps_to_client_failure() {
    let r = ClientEvent::try_from(NetworkEvent::ConnectionFailure { peer_addr: addr(3) });
    assert_eq!(r, Ok(ClientEvent::ConnectionFailureToClient { peer_addr: addr(3) }));
}

#[test]
fn unsent_and_sent_messages_keep_their_token() {
    let r = ClientEvent::try_from(NetworkEvent::UnsentUserMessage { peer_addr: addr(4), msg: vec![9], token: 77 });
    assert_eq!(r, Ok(ClientEvent::UnsentUserMsgToClient { peer_addr: addr(4), msg: vec![9], token: 77 }));
    let r = ClientEvent::try_from(NetworkEvent::SentUserMessage { peer_addr: addr(5), msg: vec![], token: 78 });
    assert_eq!(r, Ok(ClientEvent::SentUserMsgToClient { peer_addr: addr(5), msg: vec![], token: 78 }));
}

#[test]
fn events_without_client_meaning_have_no_mapping() {
    assert_eq!(ClientEvent::try_from(NetworkEvent::BootstrapFailure), Err(()));
    assert_eq!(ClientEvent::try_from(NetworkEvent::BootstrappedTo { peer_addr: addr(6) }), Err(()));
    assert_eq!(ClientEvent::try_from(NetworkEvent::Finish), Err(()));
}

#[test]
fn copies_are_equal_and_independent() {
    let ev = Event::ClientEvent(ClientEvent::SentUserMsgToClient { peer_addr: addr(8), msg: vec![4, 5], token: 3 });
    assert_eq!(ev.duplicate(), ev);
    let bytes = vec![1u8, 2, 3];
    let mut copy = copy_bytes(&bytes);
    assert!(bytes_equal(&bytes, &copy));
    copy[0] = 9;
    assert!(!bytes_equal(&bytes, &copy));
    assert!(!bytes_equal(&bytes, &vec![1, 2]));
    assert_eq!(bytes, vec![1, 2, 3]);
}
