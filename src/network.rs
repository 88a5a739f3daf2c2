//! Inboxes, consensus groups and nodes, all held by one `Network`.
//!
//! Everything runs in one flow of control: a broadcast is an immediate,
//! in-line operation, and a blocking read that finds nothing queued and
//! nothing left to poll reports that its source is closed, since nothing
//! else could run to fill it.
use vstd::prelude::*;
use std::collections::VecDeque;
use crate::classify::client_event_of;
use crate::classify::NetworkEvent;
use crate::classify::NetworkEventView;
use crate::event::ClientEvent;
use crate::event::Event;
use crate::event::EventView;
use crate::event::events_view;
use crate::event::lemma_events_view_push;
use crate::event::PeerAddr;
use crate::event::RoutingError;
use crate::event::StreamError;

verus! {

/// Mathematical value of a `Network`.
pub ghost struct NetworkView {
    /// The identity of the network, which its nodes and groups record.
    pub id: u64,
    /// The inbox of each node, oldest event first.
    pub inboxes: Seq<Seq<EventView>>,
    /// The transport events that have arrived for each node and wait for a poll.
    pub arrivals: Seq<Seq<NetworkEventView>>,
    /// The registry of each consensus group, in order of registration, or
    /// `None` once the group is destroyed.
    pub groups: Seq<Option<Seq<usize>>>,
}

impl NetworkView {
    /// Every node has one inbox and one queue of arrivals; every registry
    /// names existing inboxes, each at most once.
    pub open spec fn wf(self) -> bool {
        &&& self.inboxes.len() == self.arrivals.len()
        &&& forall|g: int|
            0 <= g < self.groups.len() && (#[trigger] self.groups[g]) is Some ==> {
                &&& self.groups[g]->0.no_duplicates()
                &&& forall|k: int|
                    0 <= k < self.groups[g]->0.len() ==> (#[trigger] self.groups[g]->0[k])
                        < self.inboxes.len()
            }
    }
}

/// Whether the inbox `i` is in the registry `members`.
pub open spec fn registered(members: Seq<usize>, i: int) -> bool {
    exists|j: int| 0 <= j < members.len() && members[j] as int == i
}

/// The inboxes after `ev` is appended to each inbox of `members`.
pub open spec fn fan_out(inboxes: Seq<Seq<EventView>>, members: Seq<usize>, ev: EventView) -> Seq<
    Seq<EventView>,
> {
    Seq::new(
        inboxes.len(),
        |i: int|
            if registered(members, i) {
                inboxes[i].push(ev)
            } else {
                inboxes[i]
            },
    )
}

proof fn lemma_fan_out_push(q: Seq<Seq<EventView>>, m: Seq<usize>, t: usize, ev: EventView)
    requires
        !m.contains(t),
        t < q.len(),
    ensures
        fan_out(q, m.push(t), ev) == fan_out(q, m, ev).update(
            t as int,
            fan_out(q, m, ev)[t as int].push(ev),
        ),
{
    assert forall|i: int| 0 <= i < q.len() implies #[trigger] fan_out(q, m.push(t), ev)[i]
        == fan_out(q, m, ev).update(t as int, fan_out(q, m, ev)[t as int].push(ev))[i] by {
        if i == t {
            assert(m.push(t)[m.len() as int] == t);
            assert(registered(m.push(t), i));
            assert(!registered(m, i)) by {
                if registered(m, i) {
                    let j = choose|j: int| 0 <= j < m.len() && m[j] as int == i;
                    assert(m.contains(m[j]));
                }
            }
        } else {
            if registered(m.push(t), i) {
                let j = choose|j: int| 0 <= j < m.push(t).len() && m.push(t)[j] as int == i;
                assert(j < m.len());
                assert(m[j] as int == i);
            }
            if registered(m, i) {
                let j = choose|j: int| 0 <= j < m.len() && m[j] as int == i;
                assert(m.push(t)[j] as int == i);
            }
        }
    }
    assert(fan_out(q, m.push(t), ev) =~= fan_out(q, m, ev).update(
        t as int,
        fan_out(q, m, ev)[t as int].push(ev),
    ));
}

/// The events that a sequence of transport events stands for, in order:
/// those with no client meaning are dropped.
pub open spec fn classified(s: Seq<NetworkEventView>) -> Seq<EventView>
    decreases s.len(),
{
    if s.len() == 0 {
        Seq::empty()
    } else {
        match client_event_of(s.last()) {
            Some(c) => classified(s.drop_last()).push(EventView::ClientEvent(c)),
            None => classified(s.drop_last()),
        }
    }
}

/// The views of a sequence of transport events, in order.
pub open spec fn arrivals_view(s: Seq<NetworkEvent>) -> Seq<NetworkEventView> {
    s.map_values(|e: NetworkEvent| e@)
}

proof fn lemma_arrivals_view_push(s: Seq<NetworkEvent>, e: NetworkEvent)
    ensures
        arrivals_view(s.push(e)) == arrivals_view(s).push(e@),
        arrivals_view(Seq::empty()) == Seq::<NetworkEventView>::empty(),
{
    assert(arrivals_view(s.push(e)) =~= arrivals_view(s).push(e@));
    assert(arrivals_view(Seq::empty()) =~= Seq::<NetworkEventView>::empty());
}

/// The nodes, inboxes and consensus groups of one simulated network.
pub struct Network {
    id: u64,
    inboxes: Vec<VecDeque<Event>>,
    arrivals: Vec<VecDeque<NetworkEvent>>,
    groups: Vec<Option<Vec<usize>>>,
}

impl View for Network {
    type V = NetworkView;

    closed spec fn view(&self) -> NetworkView {
        NetworkView {
            id: self.id,
            inboxes: Seq::new(
                self.inboxes@.len(),
                |i: int| events_view(self.inboxes@[i]@),
            ),
            arrivals: Seq::new(
                self.arrivals@.len(),
                |i: int| arrivals_view(self.arrivals@[i]@),
            ),
            groups: Seq::new(
                self.groups@.len(),
                |g: int|
                    match self.groups@[g] {
                        Some(m) => Some(m@),
                        None => None,
                    },
            ),
        }
    }
}

/// A node's handle on a consensus group that it was created in. It does not
/// keep the group alive.
#[derive(Clone, Copy, Debug, PartialEq, Eq, Structural)]
pub struct GroupId {
    network: u64,
    index: usize,
}

impl GroupId {
    pub closed spec fn index_spec(&self) -> int {
        self.index as int
    }

    /// The identity of the network the group belongs to.
    pub closed spec fn network_spec(&self) -> u64 {
        self.network
    }

    /// A group's index in its network is never negative.
    pub proof fn lemma_index_nonneg(&self)
        ensures
            0 <= self.index_spec(),
    {
    }
}

/// A consensus group: a registry of the inboxes of its members, each of
/// which receives a copy of every vote. The group lives in its `Network`:
/// only `destroy` ends it and silences the votes of its members. Letting a
/// `ConsensusGroup` value go out of scope without `destroy` leaves the group
/// live.
#[derive(Debug)]
pub struct ConsensusGroup {
    id: GroupId,
}

/// Interface for sending and receiving messages to and from other nodes, in
/// the role of a full routing node.
#[derive(Debug)]
pub struct Node {
    network: u64,
    inbox: usize,
    group: Option<GroupId>,
}

/// A node of the network as seen from its peers: its name and address.
#[derive(Debug, PartialEq, Eq)]
pub struct P2pNode {
    pub name: [u8; 32],
    pub peer_addr: PeerAddr,
}

/// A builder to configure and create a new `Node`.
#[derive(Debug)]
pub struct NodeBuilder {}

impl Network {
    /// A network with no node and no group. Networks used side by side are
    /// told apart by `id`: give each its own.
    pub fn new(id: u64) -> (r: Network)
        ensures
            r@.id == id,
            r@.inboxes.len() == 0,
            r@.groups.len() == 0,
            r@.wf(),
    {
        let r = Network { id, inboxes: Vec::new(), arrivals: Vec::new(), groups: Vec::new() };
        assert(r@.inboxes =~= Seq::empty());
        assert(r@.arrivals =~= Seq::empty());
        r
    }

    /// Hands a transport event to the transport queue of `node`; it reaches
    /// the node's inbox at its next poll.
    pub fn deliver(&mut self, node: &Node, ev: NetworkEvent)
        requires
            old(self)@.wf(),
            node.valid_in(old(self)@),
        ensures
            final(self)@.wf(),
            final(self)@.inboxes == old(self)@.inboxes,
            final(self)@.id == old(self)@.id,
            final(self)@.groups == old(self)@.groups,
            final(self)@.arrivals == old(self)@.arrivals.update(
                node.inbox_spec(),
                old(self)@.arrivals[node.inbox_spec()].push(ev@),
            ),
    {
        let ghost ev_view = ev@;
        let ghost q = self.arrivals@[node.inbox as int]@;
        self.arrivals[node.inbox].push_back(ev);
        proof {
            lemma_arrivals_view_push(q, self.arrivals@[node.inbox as int]@.last());
            assert(self.arrivals@[node.inbox as int]@ == q.push(self.arrivals@[node.inbox as int]@.last()));
        }
        assert(self@.arrivals =~= old(self)@.arrivals.update(
            node.inbox_spec(),
            old(self)@.arrivals[node.inbox_spec()].push(ev_view),
        ));
        assert(self@.inboxes =~= old(self)@.inboxes);
        assert(self@.groups =~= old(self)@.groups);
    }

    /// Removes and returns the oldest event of inbox `i`, if any.
    fn pop_event(&mut self, i: usize) -> (r: Option<Event>)
        requires
            old(self)@.wf(),
            i < old(self)@.inboxes.len(),
        ensures
            final(self)@.wf(),
            old(self)@.inboxes[i as int].len() == 0 ==> r is None && final(self)@ == old(self)@,
            old(self)@.inboxes[i as int].len() > 0 ==> (r matches Some(e) && e@
                == old(self)@.inboxes[i as int][0] && final(self)@.inboxes == old(
                self,
            )@.inboxes.update(i as int, old(self)@.inboxes[i as int].drop_first())),
            final(self)@.arrivals == old(self)@.arrivals,
            final(self)@.id == old(self)@.id,
            final(self)@.groups == old(self)@.groups,
    {
        let ghost q = self.inboxes@[i as int]@;
        let r = self.inboxes[i].pop_front();
        proof {
            if q.len() > 0 {
                assert(events_view(q.subrange(1, q.len() as int)) =~= events_view(q).drop_first());
            }
        }
        assert(self@.arrivals =~= old(self)@.arrivals);
        assert(self@.groups =~= old(self)@.groups);
        proof {
            if q.len() == 0 {
                assert(self@.inboxes =~= old(self)@.inboxes);
            } else {
                assert(self@.inboxes =~= old(self)@.inboxes.update(
                    i as int,
                    old(self)@.inboxes[i as int].drop_first(),
                ));
            }
        }
        r
    }

    /// Removes and returns the oldest transport event waiting for node `i`.
    fn take_arrival(&mut self, i: usize) -> (r: Option<NetworkEvent>)
        requires
            old(self)@.wf(),
            i < old(self)@.arrivals.len(),
        ensures
            final(self)@.wf(),
            old(self)@.arrivals[i as int].len() == 0 ==> r is None && final(self)@ == old(self)@,
            old(self)@.arrivals[i as int].len() > 0 ==> (r matches Some(e) && e@
                == old(self)@.arrivals[i as int][0] && final(self)@.arrivals == old(
                self,
            )@.arrivals.update(i as int, old(self)@.arrivals[i as int].drop_first())),
            final(self)@.inboxes == old(self)@.inboxes,
            final(self)@.id == old(self)@.id,
            final(self)@.groups == old(self)@.groups,
    {
        let ghost q = self.arrivals@[i as int]@;
        let r = self.arrivals[i].pop_front();
        proof {
            if q.len() > 0 {
                assert(arrivals_view(q.subrange(1, q.len() as int)) =~= arrivals_view(q).drop_first());
            }
        }
        assert(self@.inboxes =~= old(self)@.inboxes);
        assert(self@.groups =~= old(self)@.groups);
        proof {
            if q.len() == 0 {
                assert(self@.arrivals =~= old(self)@.arrivals);
            } else {
                assert(self@.arrivals =~= old(self)@.arrivals.update(
                    i as int,
                    old(self)@.arrivals[i as int].drop_first(),
                ));
            }
        }
        r
    }

    /// Number of events in inbox `i`.
    fn inbox_len(&self, i: usize) -> (r: usize)
        requires
            i < self@.inboxes.len(),
        ensures
            r == self@.inboxes[i as int].len(),
    {
        let r = self.inboxes[i].len();
        proof {
            assert(events_view(self.inboxes@[i as int]@).len() == self.inboxes@[i as int]@.len());
        }
        r
    }

    /// Number of transport events waiting for node `i`.
    fn arrivals_len(&self, i: usize) -> (r: usize)
        requires
            i < self@.arrivals.len(),
        ensures
            r == self@.arrivals[i as int].len(),
    {
        self.arrivals[i].len()
    }

    /// Adds a fresh, empty inbox and returns its index.
    fn add_inbox(&mut self) -> (r: usize)
        requires
            old(self)@.wf(),
            old(self)@.inboxes.len() < usize::MAX,
        ensures
            final(self)@.wf(),
            r == old(self)@.inboxes.len(),
            final(self)@.inboxes == old(self)@.inboxes.push(Seq::empty()),
            final(self)@.arrivals == old(self)@.arrivals.push(Seq::empty()),
            final(self)@.id == old(self)@.id,
            final(self)@.groups == old(self)@.groups,
    {
        let r = self.inboxes.len();
        self.inboxes.push(VecDeque::new());
        self.arrivals.push(VecDeque::new());
        proof {
            lemma_events_view_push(Seq::empty(), arbitrary());
            lemma_arrivals_view_push(Seq::empty(), arbitrary());
        }
        assert(self@.inboxes =~= old(self)@.inboxes.push(Seq::empty()));
        assert(self@.arrivals =~= old(self)@.arrivals.push(Seq::empty()));
        assert(self@.groups =~= old(self)@.groups);
        r
    }

    /// Appends `ev` to the inbox `i`.
    fn push_event(&mut self, i: usize, ev: Event)
        requires
            old(self)@.wf(),
            i < old(self)@.inboxes.len(),
        ensures
            final(self)@.wf(),
            final(self)@.inboxes == old(self)@.inboxes.update(
                i as int,
                old(self)@.inboxes[i as int].push(ev@),
            ),
            final(self)@.arrivals == old(self)@.arrivals,
            final(self)@.id == old(self)@.id,
            final(self)@.groups == old(self)@.groups,
    {
        let ghost ev_view = ev@;
        let ghost q = self.inboxes@[i as int]@;
        self.inboxes[i].push_back(ev);
        proof {
            lemma_events_view_push(q, self.inboxes@[i as int]@.last());
            assert(self.inboxes@[i as int]@ == q.push(self.inboxes@[i as int]@.last()));
        }
        assert(self@.inboxes =~= old(self)@.inboxes.update(
            i as int,
            old(self)@.inboxes[i as int].push(ev_view),
        ));
        assert(self@.arrivals =~= old(self)@.arrivals);
        assert(self@.groups =~= old(self)@.groups);
    }

    /// Appends a copy of `ev` to every inbox in the registry of group `g`,
    /// in order of registration.
    fn broadcast(&mut self, g: usize, ev: &Event)
        requires
            old(self)@.wf(),
            g < old(self)@.groups.len(),
            old(self)@.groups[g as int] is Some,
        ensures
            final(self)@.wf(),
            final(self)@.inboxes == fan_out(old(self)@.inboxes, old(self)@.groups[g as int]->0, ev@),
            final(self)@.arrivals == old(self)@.arrivals,
            final(self)@.id == old(self)@.id,
            final(self)@.groups == old(self)@.groups,
    {
        let ghost members = old(self)@.groups[g as int]->0;
        let n: usize = match &self.groups[g] {
            Some(m) => m.len(),
            None => 0,
        };
        let mut k: usize = 0;
        while k < n
            invariant
                self@.wf(),
                n == members.len(),
                k <= n,
                g < self@.groups.len(),
                self@.id == old(self)@.id,
                self@.groups == old(self)@.groups,
                self@.arrivals == old(self)@.arrivals,
                self@.groups[g as int] == Some(members),
                self@.inboxes == fan_out(old(self)@.inboxes, members.take(k as int), ev@),
            decreases n - k,
        {
            let target: usize = match &self.groups[g] {
                Some(m) => m[k],
                None => 0,
            };
            proof {
                assert(target == members[k as int]);
                assert(members.take(k as int + 1) =~= members.take(k as int).push(target));
                assert(!members.take(k as int).contains(target)) by {
                    if members.take(k as int).contains(target) {
                        let j = choose|j: int| 0 <= j < k && members.take(k as int)[j] == target;
                        assert(members[j] == members[k as int]);
                    }
                }
            }
            proof {
                lemma_fan_out_push(old(self)@.inboxes, members.take(k as int), target, ev@);
            }
            self.push_event(target, ev.duplicate());
            k = k + 1;
        }
        assert(members.take(n as int) =~= members);
    }
}

impl ConsensusGroup {
    /// Creates a new consensus group in `net`, with an empty registry.
    pub fn new(net: &mut Network) -> (r: ConsensusGroup)
        requires
            old(net)@.wf(),
        ensures
            final(net)@.wf(),
            r.id().index_spec() == old(net)@.groups.len(),
            r.id().network_spec() == old(net)@.id,
            final(net)@.id == old(net)@.id,
            final(net)@.groups == old(net)@.groups.push(Some(Seq::empty())),
            final(net)@.inboxes == old(net)@.inboxes,
            final(net)@.arrivals == old(net)@.arrivals,
    {
        let index = net.groups.len();
        net.groups.push(Some(Vec::new()));
        assert(net@.groups =~= old(net)@.groups.push(Some(Seq::empty())));
        assert(net@.inboxes =~= old(net)@.inboxes);
        assert(net@.arrivals =~= old(net)@.arrivals);
        ConsensusGroup { id: GroupId { network: net.id, index } }
    }

    pub closed spec fn id(&self) -> GroupId {
        self.id
    }

    /// Destroys the group. Its members' votes are dropped from now on; the
    /// inboxes of its members stay as they are.
    pub fn destroy(self, net: &mut Network)
        requires
            old(net)@.wf(),
            self.id().network_spec() == old(net)@.id,
            self.id().index_spec() < old(net)@.groups.len(),
        ensures
            final(net)@.wf(),
            final(net)@.id == old(net)@.id,
            final(net)@.groups == old(net)@.groups.update(self.id().index_spec(), None),
            final(net)@.inboxes == old(net)@.inboxes,
            final(net)@.arrivals == old(net)@.arrivals,
    {
        net.groups.set(self.id.index, None);
        assert(net@.groups =~= old(net)@.groups.update(self.id().index_spec(), None));
        assert(net@.inboxes =~= old(net)@.inboxes);
        assert(net@.arrivals =~= old(net)@.arrivals);
    }
}

impl Node {
    /// Creates a new builder to configure and create a `Node`.
    pub fn builder() -> (r: NodeBuilder) {
        NodeBuilder {}
    }

    /// Index of this node's inbox in its network.
    pub closed spec fn inbox_spec(&self) -> int {
        self.inbox as int
    }

    /// The identity of the network this node was created in.
    pub closed spec fn network_spec(&self) -> u64 {
        self.network
    }

    /// The group this node was created in, if any.
    pub closed spec fn group_spec(&self) -> Option<GroupId> {
        self.group
    }

    /// The node belongs to `net`.
    pub open spec fn valid_in(&self, net: NetworkView) -> bool {
        &&& self.network_spec() == net.id
        &&& 0 <= self.inbox_spec() < net.inboxes.len()
        &&& self.group_spec() is Some ==> {
            &&& self.group_spec()->0.network_spec() == net.id
            &&& self.group_spec()->0.index_spec() < net.groups.len()
        }
    }

    /// The inboxes of `net` after this node votes for `ev`: with no group,
    /// `ev` is appended to its own inbox; in a live group, to each inbox of
    /// the registry; in a destroyed group, nowhere.
    pub open spec fn after_vote(&self, net: NetworkView, ev: EventView) -> Seq<Seq<EventView>> {
        match self.group_spec() {
            None => net.inboxes.update(self.inbox_spec(), net.inboxes[self.inbox_spec()].push(ev)),
            Some(g) => match net.groups[g.index_spec()] {
                Some(members) => fan_out(net.inboxes, members, ev),
                None => net.inboxes,
            },
        }
    }

    /// Vote for an event.
    pub fn vote_for(&mut self, net: &mut Network, event: Vec<u8>)
        requires
            old(net)@.wf(),
            old(self).valid_in(old(net)@),
        ensures
            *final(self) == *old(self),
            final(net)@.wf(),
            final(net)@.inboxes == old(self).after_vote(
                old(net)@,
                EventView::Consensus(event@),
            ),
            final(net)@.arrivals == old(net)@.arrivals,
            final(net)@.id == old(net)@.id,
            final(net)@.groups == old(net)@.groups,
    {
        match self.group {
            Some(g) => {
                let live = match &net.groups[g.index] {
                    Some(_) => true,
                    None => false,
                };
                if live {
                    net.broadcast(g.index, &Event::Consensus(event));
                } else {
                    assert(net@.inboxes == old(net)@.inboxes);
                }
            },
            None => {
                net.push_event(self.inbox, Event::Consensus(event));
            },
        }
    }

    /// Classifies a transport event and appends the client event it stands
    /// for, if any, to this node's inbox.
    fn handle_network_event(&self, net: &mut Network, event: NetworkEvent)
        requires
            old(net)@.wf(),
            self.valid_in(old(net)@),
        ensures
            final(net)@.wf(),
            final(net)@.inboxes == match client_event_of(event@) {
                Some(c) => old(net)@.inboxes.update(
                    self.inbox_spec(),
                    old(net)@.inboxes[self.inbox_spec()].push(EventView::ClientEvent(c)),
                ),
                None => old(net)@.inboxes,
            },
            final(net)@.arrivals == old(net)@.arrivals,
            final(net)@.id == old(net)@.id,
            final(net)@.groups == old(net)@.groups,
    {
        match ClientEvent::try_from(event) {
            Ok(client_event) => net.push_event(self.inbox, Event::ClientEvent(client_event)),
            Err(()) => {},
        }
    }

    /// Returns the connection information of all the current section elders:
    /// none are known to this mock.
    pub fn our_elders_info(&self) -> (r: Option<Vec<P2pNode>>)
        ensures
            r matches Some(v) && v@.len() == 0,
    {
        Some(Vec::new())
    }

    /// Find out the closest elders to a given name that we know of. With one
    /// section in the network, these are our section's elders.
    pub fn closest_known_elders_to(&self, _name: &[u8; 32]) -> (r: Result<Vec<P2pNode>, RoutingError>)
        ensures
            r matches Ok(v) && v@.len() == 0,
    {
        match self.our_elders_info() {
            Some(v) => Ok(v),
            None => Err(RoutingError::InvalidStateForOperation),
        }
    }

    /// Find out if the given name matches our prefix. With one section in
    /// the network, every name does.
    pub fn matches_our_prefix(&self, _name: &[u8; 32]) -> (r: Result<bool, RoutingError>)
        ensures
            r == Ok::<bool, RoutingError>(true),
    {
        Ok(true)
    }
}

/// A standalone node's inbox is a queue: two votes on an empty inbox leave
/// exactly those two events in it, the first vote first, and touch no other
/// inbox.
pub proof fn lemma_standalone_votes_queue_in_order(
    node: Node,
    net: NetworkView,
    first: EventView,
    second: EventView,
)
    requires
        node.valid_in(net),
        node.group_spec() is None,
        net.inboxes[node.inbox_spec()].len() == 0,
    ensures
        ({
            let once = NetworkView { inboxes: node.after_vote(net, first), ..net };
            let twice = node.after_vote(once, second);
            &&& twice[node.inbox_spec()] == seq![first, second]
            &&& twice.len() == net.inboxes.len()
            &&& forall|j: int| 0 <= j < net.inboxes.len() && j != node.inbox_spec() ==> #[trigger] twice[j] == net.inboxes[j]
        }),
{
    let once = NetworkView { inboxes: node.after_vote(net, first), ..net };
    assert(once.inboxes[node.inbox_spec()] =~= seq![first]);
    assert(node.after_vote(once, second)[node.inbox_spec()] =~= seq![first, second]);
}

/// A vote in a live group appends exactly one copy of the event to the end
/// of every registered inbox, keeping what each held before in its order,
/// and leaves every other inbox as it was.
pub proof fn lemma_group_vote_reaches_each_member_once(node: Node, net: NetworkView, ev: EventView)
    requires
        net.wf(),
        node.valid_in(net),
        node.group_spec() is Some,
        net.groups[node.group_spec()->0.index_spec()] is Some,
    ensures
        ({
            let members = net.groups[node.group_spec()->0.index_spec()]->0;
            let after = node.after_vote(net, ev);
            &&& after.len() == net.inboxes.len()
            &&& forall|k: int| 0 <= k < members.len() ==> after[#[trigger] members[k] as int] == net.inboxes[members[k] as int].push(ev)
            &&& forall|j: int| 0 <= j < net.inboxes.len() && !registered(members, j) ==> #[trigger] after[j] == net.inboxes[j]
        }),
{
    let members = net.groups[node.group_spec()->0.index_spec()]->0;
    assert forall|k: int| 0 <= k < members.len() implies node.after_vote(net, ev)[#[trigger] members[k] as int] == net.inboxes[members[k] as int].push(ev) by {
        assert(registered(members, members[k] as int));
    }
}

/// Once its group is destroyed, a member's vote is dropped: no inbox
/// changes.
pub proof fn lemma_vote_in_destroyed_group_delivers_nothing(node: Node, net: NetworkView, ev: EventView)
    requires
        node.valid_in(net),
        node.group_spec() is Some,
        net.groups[node.group_spec()->0.index_spec()] is None,
    ensures
        node.after_vote(net, ev) == net.inboxes,
{
}

/// A stream of events: a blocking read, a non-blocking read, and a poll that
/// moves what has arrived into the stream. Events come out in the order in
/// which they were queued, whoever queued them.
pub trait EventStream {
    /// The inbox in `net` that this stream reads.
    spec fn stream_inbox(&self) -> int;

    /// The stream reads an inbox of `net`.
    spec fn stream_valid(&self, net: NetworkView) -> bool;

    /// Reads the next event. When the inbox is empty, first polls what has
    /// arrived. Fails with `Closed` when nothing is queued and nothing
    /// arrived, since nothing else can run to bring an event. `Closed` is not
    /// terminal here: a later vote or delivery refills the inbox, and the
    /// next read returns it.
    fn next_ev(&mut self, net: &mut Network) -> (r: Result<Event, StreamError>)
        requires
            old(net)@.wf(),
            old(self).stream_valid(old(net)@),
        ensures
            final(self).stream_valid(final(net)@),
            final(self).stream_inbox() == old(self).stream_inbox(),
            final(net)@.wf(),
            final(net)@.id == old(net)@.id,
            final(net)@.groups == old(net)@.groups,
            ({
                let i = old(self).stream_inbox();
                let q = old(net)@.inboxes[i];
                let p = classified(old(net)@.arrivals[i]);
                &&& q.len() > 0 ==> (r matches Ok(e) && e@ == q[0] && final(net)@.inboxes
                    == old(net)@.inboxes.update(i, q.drop_first()) && final(net)@.arrivals
                    == old(net)@.arrivals)
                &&& q.len() == 0 ==> final(net)@.arrivals == old(net)@.arrivals.update(
                    i,
                    Seq::empty(),
                )
                &&& q.len() == 0 && p.len() == 0 ==> r == Err::<Event, StreamError>(
                    StreamError::Closed,
                ) && final(net)@.inboxes == old(net)@.inboxes
                &&& q.len() == 0 && p.len() > 0 ==> (r matches Ok(e) && e@ == p[0]
                    && final(net)@.inboxes == old(net)@.inboxes.update(i, p.drop_first()))
            }),
    ;

    /// Reads the next event if one is queued, without waiting; fails with
    /// `Empty` otherwise.
    fn try_next_ev(&mut self, net: &mut Network) -> (r: Result<Event, StreamError>)
        requires
            old(net)@.wf(),
            old(self).stream_valid(old(net)@),
        ensures
            final(self).stream_valid(final(net)@),
            final(self).stream_inbox() == old(self).stream_inbox(),
            final(net)@.wf(),
            final(net)@.arrivals == old(net)@.arrivals,
            final(net)@.id == old(net)@.id,
            final(net)@.groups == old(net)@.groups,
            ({
                let i = old(self).stream_inbox();
                let q = old(net)@.inboxes[i];
                &&& q.len() == 0 ==> r == Err::<Event, StreamError>(StreamError::Empty)
                    && final(net)@.inboxes == old(net)@.inboxes
                &&& q.len() > 0 ==> (r matches Ok(e) && e@ == q[0] && final(net)@.inboxes
                    == old(net)@.inboxes.update(i, q.drop_first()))
            }),
    ;

    /// Moves the events that have arrived into the stream, after those
    /// already queued and in their order of arrival, dropping those with no
    /// client meaning. Returns whether anything had arrived.
    fn poll(&mut self, net: &mut Network) -> (r: bool)
        requires
            old(net)@.wf(),
            old(self).stream_valid(old(net)@),
        ensures
            final(self).stream_valid(final(net)@),
            final(self).stream_inbox() == old(self).stream_inbox(),
            final(net)@.wf(),
            final(net)@.id == old(net)@.id,
            final(net)@.groups == old(net)@.groups,
            ({
                let i = old(self).stream_inbox();
                &&& r == (old(net)@.arrivals[i].len() > 0)
                &&& final(net)@.arrivals == old(net)@.arrivals.update(i, Seq::empty())
                &&& final(net)@.inboxes == old(net)@.inboxes.update(
                    i,
                    old(net)@.inboxes[i] + classified(old(net)@.arrivals[i]),
                )
            }),
    ;
}

impl EventStream for Node {
    open spec fn stream_inbox(&self) -> int {
        self.inbox_spec()
    }

    open spec fn stream_valid(&self, net: NetworkView) -> bool {
        self.valid_in(net)
    }

    fn next_ev(&mut self, net: &mut Network) -> (r: Result<Event, StreamError>) {
        let i = self.inbox;
        if net.inbox_len(i) == 0 {
            self.poll(net);
            proof {
                let p = classified(old(net)@.arrivals[i as int]);
                assert(old(net)@.inboxes[i as int] + p =~= p);
                if p.len() == 0 {
                    assert(net@.inboxes =~= old(net)@.inboxes);
                }
            }
        }
        match net.pop_event(i) {
            Some(ev) => Ok(ev),
            None => Err(StreamError::Closed),
        }
    }

    fn try_next_ev(&mut self, net: &mut Network) -> (r: Result<Event, StreamError>) {
        match net.pop_event(self.inbox) {
            Some(ev) => Ok(ev),
            None => Err(StreamError::Empty),
        }
    }

    fn poll(&mut self, net: &mut Network) -> (r: bool) {
        let i = self.inbox;
        let ghost arr = old(net)@.arrivals[i as int];
        let ghost start = old(net)@.inboxes[i as int];
        let n = net.arrivals_len(i);
        let mut k: usize = 0;
        proof {
            assert(arr.subrange(0, n as int) =~= arr);
            assert(net@.arrivals =~= old(net)@.arrivals.update(i as int, arr));
            assert(classified(arr.take(0)) =~= Seq::<EventView>::empty());
            assert(start + classified(arr.take(0)) =~= start);
            assert(net@.inboxes =~= old(net)@.inboxes.update(i as int, start));
        }
        while k < n
            invariant
                net@.wf(),
                self.valid_in(net@),
                self.inbox == i,
                i < old(net)@.arrivals.len(),
                i < old(net)@.inboxes.len(),
                arr == old(net)@.arrivals[i as int],
                start == old(net)@.inboxes[i as int],
                k <= n,
                n == arr.len(),
                net@.groups == old(net)@.groups,
                net@.arrivals == old(net)@.arrivals.update(i as int, arr.subrange(k as int, n as int)),
                net@.inboxes == old(net)@.inboxes.update(
                    i as int,
                    start + classified(arr.take(k as int)),
                ),
            decreases n - k,
        {
            proof {
                assert(arr.subrange(k as int, n as int)[0] == arr[k as int]);
                assert(arr.subrange(k as int, n as int).drop_first() =~= arr.subrange(k + 1, n as int));
            }
            let ev = net.take_arrival(i);
            match ev {
                Some(ev) => {
                    proof {
                        assert(arr.take(k + 1).drop_last() =~= arr.take(k as int));
                        assert(arr.take(k + 1).last() == ev@);
                    }
                    self.handle_network_event(net, ev);
                    proof {
                        match client_event_of(ev@) {
                            Some(c) => {
                                assert(start + classified(arr.take(k + 1)) =~= (start
                                    + classified(arr.take(k as int))).push(EventView::ClientEvent(c)));
                            },
                            None => {},
                        }
                    }
                },
                None => {},
            }
            k = k + 1;
            assert(net@.arrivals =~= old(net)@.arrivals.update(i as int, arr.subrange(k as int, n as int)));
            assert(net@.inboxes =~= old(net)@.inboxes.update(
                i as int,
                start + classified(arr.take(k as int)),
            ));
        }
        proof {
            assert(arr.take(n as int) =~= arr);
            assert(arr.subrange(n as int, n as int) =~= Seq::<NetworkEventView>::empty());
        }
        n > 0
    }
}

impl NodeBuilder {
    /// Creates a new standalone `Node` with its own empty inbox.
    pub fn create(self, net: &mut Network) -> (r: Result<Node, RoutingError>)
        requires
            old(net)@.wf(),
            old(net)@.inboxes.len() < usize::MAX,
        ensures
            final(net)@.wf(),
            r is Ok,
            r matches Ok(node) ==> {
                &&& node.inbox_spec() == old(net)@.inboxes.len()
                &&& node.group_spec() is None
                &&& node.valid_in(final(net)@)
            },
            final(net)@.inboxes == old(net)@.inboxes.push(Seq::empty()),
            final(net)@.arrivals == old(net)@.arrivals.push(Seq::empty()),
            final(net)@.id == old(net)@.id,
            final(net)@.groups == old(net)@.groups,
    {
        let inbox = net.add_inbox();
        Ok(Node { network: net.id, inbox, group: None })
    }

    /// Creates a new `Node` within `group`: its fresh inbox is appended to
    /// the group's registry.
    pub fn create_within_group(self, net: &mut Network, group: &ConsensusGroup) -> (r: Result<
        Node,
        RoutingError,
    >)
        requires
            old(net)@.wf(),
            old(net)@.inboxes.len() < usize::MAX,
            group.id().network_spec() == old(net)@.id,
            group.id().index_spec() < old(net)@.groups.len(),
            old(net)@.groups[group.id().index_spec()] is Some,
        ensures
            final(net)@.wf(),
            r is Ok,
            r matches Ok(node) ==> {
                &&& node.inbox_spec() == old(net)@.inboxes.len()
                &&& node.group_spec() == Some(group.id())
                &&& node.valid_in(final(net)@)
            },
            final(net)@.inboxes == old(net)@.inboxes.push(Seq::empty()),
            final(net)@.arrivals == old(net)@.arrivals.push(Seq::empty()),
            final(net)@.id == old(net)@.id,
            final(net)@.groups == old(net)@.groups.update(
                group.id().index_spec(),
                Some(
                    old(net)@.groups[group.id().index_spec()]->0.push(
                        old(net)@.inboxes.len() as usize,
                    ),
                ),
            ),
    {
        let inbox = net.add_inbox();
        let g = group.id.index;
        let ghost mid = net@;
        let mut slot: Option<Vec<usize>> = None;
        std::mem::swap(&mut net.groups[g], &mut slot);
        let mut members = match slot {
            Some(m) => m,
            None => Vec::new(),
        };
        proof {
            assert(members@ == mid.groups[g as int]->0);
            assert(!members@.contains(inbox)) by {
                if members@.contains(inbox) {
                    let k = choose|k: int| 0 <= k < members@.len() && members@[k] == inbox;
                    assert(mid.groups[g as int]->0[k] < mid.inboxes.len() - 1);
                }
            }
        }
        members.push(inbox);
        net.groups.set(g, Some(members));
        assert(net@.groups =~= old(net)@.groups.update(
            group.id().index_spec(),
            Some(old(net)@.groups[group.id().index_spec()]->0.push(old(net)@.inboxes.len() as usize)),
        ));
        assert(net@.inboxes =~= mid.inboxes);
        assert(net@.arrivals =~= mid.arrivals);
        Ok(Node { network: net.id, inbox, group: Some(group.id) })
    }
}

} // verus!
