use vstd::prelude::*;
use crate::event::ClientEvent;
use crate::event::ClientEventView;
use crate::event::PeerAddr;

verus! {

/// The other end of a transport connection.
#[derive(Clone, Copy, Debug, PartialEq, Eq, Structural)]
pub enum Peer {
    /// A routing node.
    Node { peer_addr: PeerAddr },
    /// A client.
    Client { peer_addr: PeerAddr },
}

impl Peer {
    /// Address of the peer.
    pub fn peer_addr(&self) -> (r: PeerAddr)
        ensures
            r == self.peer_addr_spec(),
    {
        match self {
            Peer::Node { peer_addr } => *peer_addr,
            Peer::Client { peer_addr } => *peer_addr,
        }
    }

    pub open spec fn peer_addr_spec(&self) -> PeerAddr {
        match self {
            Peer::Node { peer_addr } => *peer_addr,
            Peer::Client { peer_addr } => *peer_addr,
        }
    }
}

/// A low-level event of the transport layer.
#[derive(Debug)]
pub enum NetworkEvent {
    /// Bootstrapping to the network failed.
    BootstrapFailure,
    /// Bootstrapped to a node.
    BootstrappedTo { peer_addr: PeerAddr },
    /// A connection to a peer was made.
    ConnectedTo { peer: Peer },
    /// A message arrived.
    NewMessage { peer_addr: PeerAddr, msg: Vec<u8> },
    /// A connection to a peer failed.
    ConnectionFailure { peer_addr: PeerAddr },
    /// A user message could not be sent.
    UnsentUserMessage { peer_addr: PeerAddr, msg: Vec<u8>, token: u64 },
    /// A user message was sent.
    SentUserMessage { peer_addr: PeerAddr, msg: Vec<u8>, token: u64 },
    /// The transport has stopped.
    Finish,
}

/// Mathematical value of a `NetworkEvent`.
pub ghost enum NetworkEventView {
    BootstrapFailure,
    BootstrappedTo { peer_addr: PeerAddr },
    ConnectedTo { peer: Peer },
    NewMessage { peer_addr: PeerAddr, msg: Seq<u8> },
    ConnectionFailure { peer_addr: PeerAddr },
    UnsentUserMessage { peer_addr: PeerAddr, msg: Seq<u8>, token: u64 },
    SentUserMessage { peer_addr: PeerAddr, msg: Seq<u8>, token: u64 },
    Finish,
}

impl View for NetworkEvent {
    type V = NetworkEventView;

    open spec fn view(&self) -> NetworkEventView {
        match self {
            NetworkEvent::BootstrapFailure => NetworkEventView::BootstrapFailure,
            NetworkEvent::BootstrappedTo { peer_addr } => NetworkEventView::BootstrappedTo {
                peer_addr: *peer_addr,
            },
            NetworkEvent::ConnectedTo { peer } => NetworkEventView::ConnectedTo { peer: *peer },
            NetworkEvent::NewMessage { peer_addr, msg } => NetworkEventView::NewMessage {
                peer_addr: *peer_addr,
                msg: msg@,
            },
            NetworkEvent::ConnectionFailure { peer_addr } => NetworkEventView::ConnectionFailure {
                peer_addr: *peer_addr,
            },
            NetworkEvent::UnsentUserMessage { peer_addr, msg, token } =>
                NetworkEventView::UnsentUserMessage {
                    peer_addr: *peer_addr,
                    msg: msg@,
                    token: *token,
                },
            NetworkEvent::SentUserMessage { peer_addr, msg, token } =>
                NetworkEventView::SentUserMessage { peer_addr: *peer_addr, msg: msg@, token: *token },
            NetworkEvent::Finish => NetworkEventView::Finish,
        }
    }
}

/// The client event that a transport event stands for, if it has one: each
/// of the client-facing transport events maps to the client event with
/// the same fields; the others have no client meaning.
pub open spec fn client_event_of(ev: NetworkEventView) -> Option<ClientEventView> {
    match ev {
        NetworkEventView::ConnectedTo { peer } => Some(
            ClientEventView::ConnectedToClient { peer_addr: peer.peer_addr_spec() },
        ),
        NetworkEventView::NewMessage { peer_addr, msg } => Some(
            ClientEventView::NewMessageFromClient { peer_addr, msg },
        ),
        NetworkEventView::ConnectionFailure { peer_addr } => Some(
            ClientEventView::ConnectionFailureToClient { peer_addr },
        ),
        NetworkEventView::UnsentUserMessage { peer_addr, msg, token } => Some(
            ClientEventView::UnsentUserMsgToClient { peer_addr, msg, token },
        ),
        NetworkEventView::SentUserMessage { peer_addr, msg, token } => Some(
            ClientEventView::SentUserMsgToClient { peer_addr, msg, token },
        ),
        _ => None,
    }
}

impl ClientEvent {
    /// Narrows a transport event to a client event. `Err(())` means that the
    /// event has no client meaning; it is not a failure.
    pub fn try_from(value: NetworkEvent) -> (r: Result<ClientEvent, ()>)
        ensures
            match r {
                Ok(c) => client_event_of(value@) == Some(c@),
                Err(()) => client_event_of(value@) is None,
            },
    {
        match value {
            NetworkEvent::ConnectedTo { peer } => Ok(
                ClientEvent::ConnectedToClient { peer_addr: peer.peer_addr() },
            ),
            NetworkEvent::NewMessage { peer_addr, msg } => Ok(
                ClientEvent::NewMessageFromClient { peer_addr, msg },
            ),
            NetworkEvent::ConnectionFailure { peer_addr } => Ok(
                ClientEvent::ConnectionFailureToClient { peer_addr },
            ),
            NetworkEvent::UnsentUserMessage { peer_addr, msg, token } => Ok(
                ClientEvent::UnsentUserMsgToClient { peer_addr, msg, token },
            ),
            NetworkEvent::SentUserMessage { peer_addr, msg, token } => Ok(
                ClientEvent::SentUserMsgToClient { peer_addr, msg, token },
            ),
            _ => Err(()),
        }
    }
}

} // verus!
