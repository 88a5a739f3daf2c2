use vstd::prelude::*;

verus! {

/// Address of a peer: an IP address held as a 128-bit number (an IPv4 address
/// is held in its low 32 bits with `v6` false), and a port.
#[derive(Clone, Copy, Debug, PartialEq, Eq, Structural)]
pub struct PeerAddr {
    pub ip: u128,
    pub port: u16,
    pub v6: bool,
}

/// An event that concerns a client connection.
#[derive(Debug, PartialEq, Eq)]
pub enum ClientEvent {
    ConnectedToClient { peer_addr: PeerAddr },
    NewMessageFromClient { peer_addr: PeerAddr, msg: Vec<u8> },
    ConnectionFailureToClient { peer_addr: PeerAddr },
    UnsentUserMsgToClient { peer_addr: PeerAddr, msg: Vec<u8>, token: u64 },
    SentUserMsgToClient { peer_addr: PeerAddr, msg: Vec<u8>, token: u64 },
}

/// Routing event, as delivered to the inbox of a node.
#[derive(Debug, PartialEq, Eq)]
pub enum Event {
    /// A payload agreed on by the consensus group.
    Consensus(Vec<u8>),
    /// A classified transport event of a client.
    ClientEvent(ClientEvent),
}

/// Mathematical value of a `ClientEvent`.
pub ghost enum ClientEventView {
    ConnectedToClient { peer_addr: PeerAddr },
    NewMessageFromClient { peer_addr: PeerAddr, msg: Seq<u8> },
    ConnectionFailureToClient { peer_addr: PeerAddr },
    UnsentUserMsgToClient { peer_addr: PeerAddr, msg: Seq<u8>, token: u64 },
    SentUserMsgToClient { peer_addr: PeerAddr, msg: Seq<u8>, token: u64 },
}

/// Mathematical value of an `Event`.
pub ghost enum EventView {
    Consensus(Seq<u8>),
    ClientEvent(ClientEventView),
}

impl View for ClientEvent {
    type V = ClientEventView;

    open spec fn view(&self) -> ClientEventView {
        match self {
            ClientEvent::ConnectedToClient { peer_addr } => ClientEventView::ConnectedToClient {
                peer_addr: *peer_addr,
            },
            ClientEvent::NewMessageFromClient { peer_addr, msg } =>
                ClientEventView::NewMessageFromClient { peer_addr: *peer_addr, msg: msg@ },
            ClientEvent::ConnectionFailureToClient { peer_addr } =>
                ClientEventView::ConnectionFailureToClient { peer_addr: *peer_addr },
            ClientEvent::UnsentUserMsgToClient { peer_addr, msg, token } =>
                ClientEventView::UnsentUserMsgToClient {
                    peer_addr: *peer_addr,
                    msg: msg@,
                    token: *token,
                },
            ClientEvent::SentUserMsgToClient { peer_addr, msg, token } =>
                ClientEventView::SentUserMsgToClient {
                    peer_addr: *peer_addr,
                    msg: msg@,
                    token: *token,
                },
        }
    }
}

impl View for Event {
    type V = EventView;

    open spec fn view(&self) -> EventView {
        match self {
            Event::Consensus(payload) => EventView::Consensus(payload@),
            Event::ClientEvent(ev) => EventView::ClientEvent(ev@),
        }
    }
}

/// The views of a sequence of events, in order.
pub open spec fn events_view(s: Seq<Event>) -> Seq<EventView> {
    s.map_values(|e: Event| e@)
}

pub proof fn lemma_events_view_push(s: Seq<Event>, e: Event)
    ensures
        events_view(s.push(e)) == events_view(s).push(e@),
        events_view(Seq::empty()) == Seq::<EventView>::empty(),
{
    assert(events_view(s.push(e)) =~= events_view(s).push(e@));
    assert(events_view(Seq::empty()) =~= Seq::<EventView>::empty());
}

/// A copy of a byte vector.
pub fn copy_bytes(v: &Vec<u8>) -> (r: Vec<u8>)
    ensures
        r@ == v@,
{
    let mut r: Vec<u8> = Vec::with_capacity(v.len());
    let mut i: usize = 0;
    while i < v.len()
        invariant
            i <= v@.len(),
            r@ == v@.subrange(0, i as int),
        decreases v@.len() - i,
    {
        r.push(v[i]);
        i = i + 1;
        assert(r@ =~= v@.subrange(0, i as int));
    }
    assert(r@ =~= v@);
    r
}

impl ClientEvent {
    /// An independent copy of this event.
    pub fn duplicate(&self) -> (r: ClientEvent)
        ensures
            r@ == self@,
    {
        match self {
            ClientEvent::ConnectedToClient { peer_addr } => ClientEvent::ConnectedToClient {
                peer_addr: *peer_addr,
            },
            ClientEvent::NewMessageFromClient { peer_addr, msg } =>
                ClientEvent::NewMessageFromClient { peer_addr: *peer_addr, msg: copy_bytes(msg) },
            ClientEvent::ConnectionFailureToClient { peer_addr } =>
                ClientEvent::ConnectionFailureToClient { peer_addr: *peer_addr },
            ClientEvent::UnsentUserMsgToClient { peer_addr, msg, token } =>
                ClientEvent::UnsentUserMsgToClient {
                    peer_addr: *peer_addr,
                    msg: copy_bytes(msg),
                    token: *token,
                },
            ClientEvent::SentUserMsgToClient { peer_addr, msg, token } =>
                ClientEvent::SentUserMsgToClient {
                    peer_addr: *peer_addr,
                    msg: copy_bytes(msg),
                    token: *token,
                },
        }
    }
}

impl Event {
    /// An independent copy of this event.
    pub fn duplicate(&self) -> (r: Event)
        ensures
            r@ == self@,
    {
        match self {
            Event::Consensus(payload) => Event::Consensus(copy_bytes(payload)),
            Event::ClientEvent(ev) => Event::ClientEvent(ev.duplicate()),
        }
    }
}

/// Whether two byte vectors hold the same bytes.
pub fn bytes_equal(a: &Vec<u8>, b: &Vec<u8>) -> (r: bool)
    ensures
        r == (a@ == b@),
{
    if a.len() != b.len() {
        return false;
    }
    let mut i: usize = 0;
    while i < a.len()
        invariant
            a@.len() == b@.len(),
            i <= a@.len(),
            forall|j: int| 0 <= j < i ==> a@[j] == b@[j],
        decreases a@.len() - i,
    {
        if a[i] != b[i] {
            return false;
        }
        i = i + 1;
    }
    assert(a@ =~= b@);
    true
}

/// The kind of error that handling a routing event can produce. No operation
/// of this library returns it at present: it is kept for callers that match on
/// the results of node operations.
#[derive(Clone, Copy, Debug, PartialEq, Eq, Structural)]
pub enum RoutingError {
    /// The node is in no state to carry out the operation.
    InvalidStateForOperation,
}

/// Outcome of reading a node's event stream when no event can be returned.
#[derive(Clone, Copy, Debug, PartialEq, Eq, Structural)]
pub enum StreamError {
    /// A non-blocking read found the inbox empty.
    Empty,
    /// A blocking read found that no event can ever arrive.
    Closed,
}

} // verus!
