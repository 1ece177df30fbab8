//! The protocol of one node: its subscriptions, its connections, and what is
//! sent on them.

use std::collections::VecDeque;
use std::sync::atomic::AtomicUsize;
use std::sync::Arc;

use async_channel::{Receiver, Sender};
use libp2p::swarm::ConnectionId;
use libp2p::PeerId;
use vstd::prelude::*;

use crate::config::{Config, ConfigModel, TopicSet};
use crate::counter::SharedCounter;
use crate::handler;
use crate::handler::{Handler, HandlerIn, HandlerInModel, Received, ReceivedModel};
use crate::outside::{
    counts_at_some_moment, same_connection, same_peer, shuffle_connections,
};
use crate::protocol::{ObjectPieces, ObjectPiecesModel};
use crate::shard;
use crate::shard::{
    received_model, reconcile_model, ReceivedActionModel, ReconcileActionModel, ShardBox, State,
    StateModel,
};
use crate::substream::{queue_model, CloseSignal, DispatchHub, HubModel, SendError};
use crate::table::{copy_bytes, Table};

verus! {

/// Event emitted by the waggle behaviour.
#[derive(Debug)]
pub enum Event {
    /// A piece was received from a remote peer.
    Received {
        /// The topic this piece belongs to.
        topic_id: Vec<u8>,
        /// The peer that sent this piece.
        peer_id: PeerId,
        /// The received pieces.
        received: Received,
    },
    /// A remote peer subscribed to a topic.
    Subscribed {
        /// The remote peer that subscribed.
        peer_id: PeerId,
        /// The topic it subscribed to.
        topic_id: Vec<u8>,
    },
    /// A remote peer unsubscribed from a topic.
    Unsubscribed {
        /// The remote peer that unsubscribed.
        peer_id: PeerId,
        /// The topic it unsubscribed from.
        topic_id: Vec<u8>,
    },
    /// Data failed to reconcile against a peer's tracked metadata.
    ///
    /// The data may come from the peer, as in a received message, or from the
    /// local node, as in a newly published piece. It is not necessarily peer
    /// misbehavior. The application decides how to treat the peer.
    InvalidData {
        /// The peer whose metadata it is.
        peer_id: PeerId,
        /// The topic.
        topic_id: Vec<u8>,
        /// The object.
        object_id: Vec<u8>,
        /// What is wrong.
        reason: shard::Error,
    },
    /// A remote peer has its send queue full.
    FullQueue(PeerId),
}

/// What an [`Event`] stands for.
pub enum EventModel {
    /// A piece was received from a remote peer.
    Received {
        /// The topic this piece belongs to.
        topic_id: Seq<u8>,
        /// The peer that sent this piece.
        peer_id: PeerId,
        /// The received pieces.
        received: ReceivedModel,
    },
    /// A remote peer subscribed to a topic.
    Subscribed {
        /// The remote peer that subscribed.
        peer_id: PeerId,
        /// The topic it subscribed to.
        topic_id: Seq<u8>,
    },
    /// A remote peer unsubscribed from a topic.
    Unsubscribed {
        /// The remote peer that unsubscribed.
        peer_id: PeerId,
        /// The topic it unsubscribed from.
        topic_id: Seq<u8>,
    },
    /// Data failed to reconcile against a peer's tracked metadata.
    InvalidData {
        /// The peer whose metadata it is.
        peer_id: PeerId,
        /// The topic.
        topic_id: Seq<u8>,
        /// The object.
        object_id: Seq<u8>,
        /// What is wrong.
        reason: shard::Error,
    },
    /// A remote peer has its send queue full.
    FullQueue(PeerId),
}

impl Event {
    /// What the event stands for.
    pub open spec fn view(&self) -> EventModel {
        match *self {
            Event::Received { topic_id, peer_id, received } => EventModel::Received {
                topic_id: topic_id@,
                peer_id,
                received: received@,
            },
            Event::Subscribed { peer_id, topic_id } => EventModel::Subscribed {
                peer_id,
                topic_id: topic_id@,
            },
            Event::Unsubscribed { peer_id, topic_id } => EventModel::Unsubscribed {
                peer_id,
                topic_id: topic_id@,
            },
            Event::InvalidData { peer_id, topic_id, object_id, reason } => {
                EventModel::InvalidData {
                    peer_id,
                    topic_id: topic_id@,
                    object_id: object_id@,
                    reason,
                }
            },
            Event::FullQueue(peer_id) => EventModel::FullQueue(peer_id),
        }
    }
}

/// What the behaviour asks of the swarm.
#[derive(Debug)]
pub enum Command {
    /// Hand an instruction to the handler of a connection.
    NotifyHandler {
        /// The peer behind the connection.
        peer_id: PeerId,
        /// The connection.
        connection_id: ConnectionId,
        /// The instruction.
        event: HandlerIn,
    },
    /// Hand an event to the application.
    GenerateEvent(Event),
}

/// What a [`Command`] stands for.
pub enum CommandModel {
    /// Hand an instruction to the handler of a connection.
    NotifyHandler {
        /// The peer behind the connection.
        peer_id: PeerId,
        /// The connection.
        connection_id: ConnectionId,
        /// The instruction.
        event: HandlerInModel,
    },
    /// Hand an event to the application.
    GenerateEvent(EventModel),
}

impl Command {
    /// What the command stands for.
    pub open spec fn view(&self) -> CommandModel {
        match *self {
            Command::NotifyHandler { peer_id, connection_id, event } => {
                CommandModel::NotifyHandler { peer_id, connection_id, event: event@ }
            },
            Command::GenerateEvent(event) => CommandModel::GenerateEvent(event@),
        }
    }
}

/// What the swarm reports to the behaviour.
#[derive(Debug)]
pub enum SwarmEvent {
    /// A connection is closed.
    ConnectionClosed {
        /// The connection.
        connection_id: ConnectionId,
    },
    /// Anything else.
    Other,
}

/// Error associated with publishing an object piece on a topic.
#[derive(Debug)]
pub enum Error {
    /// No peers are currently subscribed to receive messages on this topic.
    /// Wait for peers to subscribe or check the network connectivity.
    NoPeersSubscribedToTopic,
    /// A piece could not be delivered on any selected connection.
    MessageNotSent {
        /// Connections whose send queue was full.
        full: Vec<ConnectionId>,
        /// Connections that had nothing new to send.
        no_data: Vec<ConnectionId>,
    },
}

/// What the result of [`Behaviour::publish`] stands for.
pub enum PublishModel {
    /// The piece was published.
    Published,
    /// No peers are subscribed to the topic.
    NoPeersSubscribedToTopic,
    /// The piece was not delivered on any connection.
    MessageNotSent {
        /// Connections whose send queue was full.
        full: Seq<ConnectionId>,
        /// Connections that had nothing new to send.
        no_data: Seq<ConnectionId>,
    },
}

/// What the result of [`Behaviour::publish`] stands for.
pub open spec fn publish_model(r: Result<(), Error>) -> PublishModel {
    match r {
        Ok(()) => PublishModel::Published,
        Err(Error::NoPeersSubscribedToTopic) => PublishModel::NoPeersSubscribedToTopic,
        Err(Error::MessageNotSent { full, no_data }) => PublishModel::MessageNotSent {
            full: full@,
            no_data: no_data@,
        },
    }
}

/// Per-connection outbound state for one established connection.
///
/// Holds the connection's outbound hub and the topics the remote peer
/// subscribed to on this connection.
pub struct Connection {
    /// The remote peer behind this connection.
    peer_id: PeerId,
    /// The per-connection outbound hub, with its queue budget and senders.
    hub: DispatchHub,
}

/// What a [`Connection`] stands for.
#[verifier::ext_equal]
pub struct ConnectionModel {
    /// The remote peer behind this connection.
    pub peer_id: PeerId,
    /// The outbound hub.
    pub hub: HubModel,
}

impl Connection {
    /// What the connection stands for.
    pub closed spec fn view(&self) -> ConnectionModel {
        ConnectionModel { peer_id: self.peer_id, hub: self.hub@ }
    }

    /// No topic has two senders.
    pub closed spec fn wf(&self) -> bool {
        self.hub.wf()
    }

    /// Subscribes the remote connection to topic.
    fn subscribe(&mut self, topic_id: Vec<u8>, sender: Sender<ObjectPieces>)
        requires
            old(self).wf(),
        ensures
            final(self).wf(),
            final(self)@ == old(self)@.subscribe(topic_id@, sender),
    {
        self.hub.subscribe(topic_id, sender);
    }

    fn unsubscribe(&mut self, topic_id: &[u8])
        requires
            old(self).wf(),
        ensures
            final(self).wf(),
            final(self)@ == old(self)@.unsubscribe(topic_id@),
    {
        self.hub.unsubscribe(topic_id);
    }

    /// Checks if the connection is subscribed to the topic.
    fn is_subscribed(&self, topic_id: &[u8]) -> (r: bool)
        ensures
            r == self@.hub.queues.contains_key(topic_id@),
    {
        self.hub.is_subscribed(topic_id)
    }
}

impl ConnectionModel {
    /// The connection once the remote peer subscribed to a topic.
    pub open spec fn subscribe(self, topic: Seq<u8>, sender: Sender<ObjectPieces>) -> ConnectionModel {
        ConnectionModel {
            hub: HubModel {
                queues: self.hub.queues.insert(topic, queue_model(sender)),
                ..self.hub
            },
            ..self
        }
    }

    /// The connection once the remote peer unsubscribed from a topic.
    pub open spec fn unsubscribe(self, topic: Seq<u8>) -> ConnectionModel {
        ConnectionModel {
            hub: HubModel { queues: self.hub.queues.remove(topic), ..self.hub },
            ..self
        }
    }
}

/// The peer is subscribed to the topic on some connection.
pub open spec fn peer_subscribes(
    connections: Map<ConnectionId, ConnectionModel>,
    peer: PeerId,
    topic: Seq<u8>,
) -> bool {
    exists|c: ConnectionId| #[trigger]
        connections.contains_key(c) && connections[c].peer_id == peer
            && connections[c].hub.queues.contains_key(topic)
}

/// The topics that the peer is subscribed to, on all its connections together.
pub open spec fn peer_topics(
    connections: Map<ConnectionId, ConnectionModel>,
    peer: PeerId,
) -> Set<Seq<u8>> {
    Set::new(|topic: Seq<u8>| peer_subscribes(connections, peer, topic))
}

/// No peer is subscribed to more topics than the limit.
pub open spec fn topics_limited(
    connections: Map<ConnectionId, ConnectionModel>,
    limit: usize,
) -> bool {
    forall|peer: PeerId|
        (#[trigger] peer_topics(connections, peer)).finite() && peer_topics(connections, peer).len()
            <= limit
}

/// Where nobody subscribes to anything more, the limit on topics stays kept.
pub proof fn lemma_no_more_topics(
    before: Map<ConnectionId, ConnectionModel>,
    after: Map<ConnectionId, ConnectionModel>,
    limit: usize,
)
    requires
        topics_limited(before, limit),
        forall|c: ConnectionId, topic: Seq<u8>|
            #![trigger after[c].hub.queues.contains_key(topic)]
            after.contains_key(c) && after[c].hub.queues.contains_key(topic) ==> {
                &&& before.contains_key(c)
                &&& before[c].hub.queues.contains_key(topic)
                &&& before[c].peer_id == after[c].peer_id
            },
    ensures
        topics_limited(after, limit),
{
    assert forall|peer: PeerId|
        (#[trigger] peer_topics(after, peer)).finite() && peer_topics(after, peer).len() <= limit by {
        assert forall|topic: Seq<u8>| peer_topics(after, peer).contains(topic) implies peer_topics(
            before,
            peer,
        ).contains(topic) by {
            let c = choose|c: ConnectionId| #[trigger]
                after.contains_key(c) && after[c].peer_id == peer
                    && after[c].hub.queues.contains_key(topic);
            assert(before.contains_key(c));
        }
        vstd::set_lib::lemma_len_subset(peer_topics(after, peer), peer_topics(before, peer));
    }
}

/// A topic that a peer newly subscribes to while it is below the limit keeps
/// the limit on topics.
pub proof fn lemma_one_more_topic(
    before: Map<ConnectionId, ConnectionModel>,
    connection: ConnectionId,
    subscribed: ConnectionModel,
    topic: Seq<u8>,
    limit: usize,
)
    requires
        topics_limited(before, limit),
        before.contains_key(connection),
        subscribed.peer_id == before[connection].peer_id,
        forall|t: Seq<u8>| #[trigger] subscribed.hub.queues.contains_key(t) ==> t == topic
            || before[connection].hub.queues.contains_key(t),
        peer_topics(before, subscribed.peer_id).contains(topic) || peer_topics(
            before,
            subscribed.peer_id,
        ).len() < limit,
    ensures
        topics_limited(before.insert(connection, subscribed), limit),
{
    let after = before.insert(connection, subscribed);
    assert forall|peer: PeerId|
        (#[trigger] peer_topics(after, peer)).finite() && peer_topics(after, peer).len() <= limit by {
        let had = peer_topics(before, peer);
        let most = if peer == subscribed.peer_id {
            had.insert(topic)
        } else {
            had
        };
        assert forall|t: Seq<u8>| peer_topics(after, peer).contains(t) implies most.contains(t) by {
            let c = choose|c: ConnectionId| #[trigger]
                after.contains_key(c) && after[c].peer_id == peer
                    && after[c].hub.queues.contains_key(t);
            assert(before.contains_key(c));
            if t != topic {
                assert(before[c].hub.queues.contains_key(t));
            }
        }
        assert(most.len() <= limit);
        vstd::set_lib::lemma_len_subset(peer_topics(after, peer), most);
    }
}

/// How one connection fared when an object was disseminated.
pub enum Visit {
    /// There was nothing new for the peer.
    NoData,
    /// The data did not reconcile with what is known of the peer.
    Invalid(shard::Error),
    /// There was nothing for the peer but pieces, and gossip carries none.
    Withheld(ReconcileActionModel),
    /// This was to be sent, and the hub of the connection said this to it.
    Dispatched(ReconcileActionModel, Result<(), SendError>),
}

/// What a [`Behaviour`] stands for.
#[verifier::ext_equal]
pub struct BehaviourModel {
    /// The configuration.
    pub config: ConfigModel,
    /// What is cached and what is tracked.
    pub state: StateModel,
    /// The commands that are not handed out yet.
    pub pending: Seq<CommandModel>,
    /// The established connections.
    pub connections: Map<ConnectionId, ConnectionModel>,
    /// The established connections, in the order in which they are gone
    /// through.
    pub connection_ids: Seq<ConnectionId>,
    /// The topics that the local node is subscribed to, with what their
    /// streams wait on to be closed.
    pub subscribed: Map<Seq<u8>, Receiver<()>>,
    /// The topics that the local node is subscribed to, in the order in which
    /// they are gone through.
    pub topics: Seq<Seq<u8>>,
}

/// The visits on which a message went out.
pub open spec fn sent(visit: Visit) -> bool {
    visit matches Visit::Dispatched(_, r) && r is Ok
}

/// The visits on which the queue was full.
pub open spec fn was_full(visit: Visit) -> bool {
    visit matches Visit::Dispatched(_, r) && r == Err::<(), SendError>(SendError::Full)
}

/// The number of visits on which a message went out.
pub open spec fn sent_count(visits: Seq<Visit>) -> nat
    decreases visits.len(),
{
    if visits.len() == 0 {
        0
    } else {
        sent_count(visits.drop_last()) + (if sent(visits.last()) {
            1nat
        } else {
            0
        })
    }
}

/// The connections whose visit is of some kind, in the order of the visits.
pub open spec fn visited(
    order: Seq<ConnectionId>,
    visits: Seq<Visit>,
    kind: spec_fn(Visit) -> bool,
) -> Seq<ConnectionId>
    decreases visits.len(),
{
    if visits.len() == 0 {
        Seq::empty()
    } else {
        let before = visited(order, visits.drop_last(), kind);
        if kind(visits.last()) {
            before.push(order[visits.len() - 1])
        } else {
            before
        }
    }
}

/// The visits on which there was nothing to send.
pub open spec fn had_nothing(visit: Visit) -> bool {
    visit is NoData || visit is Withheld
}

/// An action holds something to send. Gossip leaves the pieces out.
pub open spec fn sends_something(action: ReconcileActionModel, with_pieces: bool) -> bool {
    action.metadata is Some || (with_pieces && action.body is Some)
}

/// The message that goes out for an action. Gossip leaves the pieces out.
pub open spec fn message_for(
    object_id: Seq<u8>,
    action: ReconcileActionModel,
    with_pieces: bool,
) -> ObjectPiecesModel {
    ObjectPiecesModel {
        object_id,
        pieces_metadata: action.metadata,
        pieces: if with_pieces {
            action.body
        } else {
            None
        },
    }
}

/// What publishing comes to, from how the connections fared: the piece is
/// published if a message went out on some connection.
pub open spec fn publish_outcome(order: Seq<ConnectionId>, visits: Seq<Visit>) -> PublishModel {
    if sent_count(visits) == 0 {
        PublishModel::MessageNotSent {
            full: visited(order, visits, |v: Visit| was_full(v)),
            no_data: visited(order, visits, |v: Visit| had_nothing(v)),
        }
    } else {
        PublishModel::Published
    }
}

/// One run through the connections, with the behaviour before the first visit
/// and after each.
pub struct Run {
    /// How the connections fared.
    pub visits: Seq<Visit>,
    /// The behaviour before the first visit and after each.
    pub models: Seq<BehaviourModel>,
}

impl Run {
    /// The run with one more visit.
    pub open spec fn extended(self, visit: Visit, after: BehaviourModel) -> Run {
        Run { visits: self.visits.push(visit), models: self.models.push(after) }
    }
}

impl BehaviourModel {
    /// The behaviour with one more command to hand out.
    pub open spec fn push(self, command: CommandModel) -> BehaviourModel {
        BehaviourModel { pending: self.pending.push(command), ..self }
    }

    /// The behaviour with one more event for the application.
    pub open spec fn emit(self, event: EventModel) -> BehaviourModel {
        self.push(CommandModel::GenerateEvent(event))
    }

    /// The behaviour with another state.
    pub open spec fn with_state(self, state: StateModel) -> BehaviourModel {
        BehaviourModel { state, ..self }
    }

    /// The behaviour with another hub on a connection.
    pub open spec fn with_hub(self, connection: ConnectionId, hub: HubModel) -> BehaviourModel {
        BehaviourModel {
            connections: self.connections.insert(
                connection,
                ConnectionModel { hub, ..self.connections[connection] },
            ),
            ..self
        }
    }

    /// The remote peer subscribed to the topic on the connection.
    pub open spec fn is_subscriber(self, connection: ConnectionId, topic: Seq<u8>) -> bool {
        self.connections.contains_key(connection)
            && self.connections[connection].hub.queues.contains_key(topic)
    }

    /// The connections on which the remote peer subscribed to the topic.
    pub open spec fn subscribers(self, topic: Seq<u8>) -> Seq<ConnectionId> {
        self.connection_ids.filter(|c: ConnectionId| self.is_subscriber(c, topic))
    }

    /// The connections, but for one, on which the remote peer subscribed to
    /// the topic.
    pub open spec fn other_subscribers(self, topic: Seq<u8>, but: ConnectionId) -> Seq<
        ConnectionId,
    > {
        self.connection_ids.filter(self.is_other_subscriber(topic, but))
    }

    /// Being another connection on which the remote peer subscribed to the
    /// topic.
    pub open spec fn is_other_subscriber(self, topic: Seq<u8>, but: ConnectionId) -> spec_fn(
        ConnectionId,
    ) -> bool {
        |c: ConnectionId| c != but && self.is_subscriber(c, topic)
    }

    /// The instruction to subscribe to a topic on a connection.
    pub open spec fn subscribe_command(
        self,
        connection: ConnectionId,
        topic: Seq<u8>,
        close_signal: Receiver<()>,
    ) -> CommandModel {
        CommandModel::NotifyHandler {
            peer_id: self.connections[connection].peer_id,
            connection_id: connection,
            event: HandlerInModel::Subscribe { topic_id: topic, close_signal },
        }
    }

    /// The instruction to refuse a subscription to a topic on a connection.
    pub open spec fn refuse_command(
        self,
        connection: ConnectionId,
        topic: Seq<u8>,
    ) -> CommandModel {
        CommandModel::NotifyHandler {
            peer_id: self.connections[connection].peer_id,
            connection_id: connection,
            event: HandlerInModel::Refuse { topic_id: topic },
        }
    }

    /// Visiting one connection to disseminate an object may go so, and leave
    /// this behaviour. A message goes out only if there is something to send.
    /// A full queue is reported to the application.
    #[verifier::opaque]
    pub open spec fn visits(
        self,
        topic: Seq<u8>,
        object_id: Seq<u8>,
        with_pieces: bool,
        connection: ConnectionId,
        visit: Visit,
        after: BehaviourModel,
    ) -> bool {
        let peer = self.connections[connection].peer_id;
        let next = self.with_state(after.state);
        &&& self.state.reconciles(
            topic,
            connection,
            peer,
            object_id,
            match visit {
                Visit::NoData => Ok(None),
                Visit::Invalid(reason) => Err(reason),
                Visit::Withheld(action) => Ok(Some(action)),
                Visit::Dispatched(action, _) => Ok(Some(action)),
            },
            after.state,
        )
        &&& match visit {
            Visit::NoData => after == next,
            Visit::Invalid(reason) => after == next.emit(
                EventModel::InvalidData { peer_id: peer, topic_id: topic, object_id, reason },
            ),
            Visit::Withheld(action) => !sends_something(action, with_pieces) && after == next,
            Visit::Dispatched(action, r) => {
                let hub = after.connections[connection].hub;
                &&& sends_something(action, with_pieces)
                &&& after == if r == Err::<(), SendError>(SendError::Full) {
                    next.with_hub(connection, hub).emit(EventModel::FullQueue(peer))
                } else {
                    next.with_hub(connection, hub)
                }
                &&& self.connections[connection].hub.dispatches(
                    topic,
                    message_for(object_id, action, with_pieces),
                    r,
                    hub,
                )
            },
        }
    }

    /// The lists of connections and topics hold no entry twice and agree with
    /// the maps, the caches are bounded, no peer is subscribed to more topics
    /// than the limit, and every fanout reaches some peer.
    pub open spec fn consistent(self) -> bool {
        &&& self.connection_ids.no_duplicates()
        &&& forall|c: ConnectionId| #[trigger] self.connection_ids.contains(c)
            <==> self.connections.contains_key(c)
        &&& self.topics.no_duplicates()
        &&& forall|t: Seq<u8>| #[trigger] self.topics.contains(t) <==> self.subscribed.contains_key(
            t,
        )
        &&& self.state.bounded()
        &&& topics_limited(self.connections, self.config.max_topic_subscription)
        &&& self.config.positive()
    }

    /// The peer may be subscribed to the topic: it is so already, or it is
    /// subscribed to fewer topics than the limit.
    pub open spec fn admits_peer(self, peer: PeerId, topic: Seq<u8>) -> bool {
        let topics = peer_topics(self.connections, peer);
        topics.contains(topic) || topics.len() < self.config.max_topic_subscription
    }

    /// The peer behind a connection may be subscribed to the topic.
    pub open spec fn admits(self, connection: ConnectionId, topic: Seq<u8>) -> bool {
        self.admits_peer(self.connections[connection].peer_id, topic)
    }

    /// The two behaviours have the same configuration, the same connections,
    /// and the same subscriptions of the local node.
    pub open spec fn same_setting(self, other: BehaviourModel) -> bool {
        &&& other.config == self.config
        &&& other.connections.dom() == self.connections.dom()
        &&& other.connection_ids == self.connection_ids
        &&& other.subscribed == self.subscribed
        &&& other.topics == self.topics
    }

    /// The behaviour once the local node subscribed to a topic: every
    /// connection is told, with what its stream waits on to be closed.
    pub open spec fn subscribe(self, topic: Seq<u8>, close_signal: Receiver<()>) -> BehaviourModel {
        BehaviourModel {
            pending: self.pending + self.connection_ids.map_values(
                |c: ConnectionId| self.subscribe_command(c, topic, close_signal),
            ),
            subscribed: self.subscribed.insert(topic, close_signal),
            topics: self.topics.push(topic),
            ..self
        }
    }

    /// The behaviour once the local node unsubscribed from a topic.
    pub open spec fn unsubscribe(self, topic: Seq<u8>) -> BehaviourModel {
        BehaviourModel {
            state: self.state.forget_topic(topic),
            subscribed: self.subscribed.remove(topic),
            topics: self.topics.remove(self.topics.index_of(topic)),
            ..self
        }
    }

    /// The behaviour once a connection to a peer is established: nothing is
    /// queued on it, and it is told of every topic that the local node is
    /// subscribed to. The messages queued on it are counted by `counter`.
    pub open spec fn connect(
        self,
        connection: ConnectionId,
        peer: PeerId,
        counter: Arc<AtomicUsize>,
    ) -> BehaviourModel {
        let hub = HubModel {
            limit: self.config.max_connection_queue_limit,
            counter,
            balance: 0,
            queues: Map::empty(),
        };
        let next = BehaviourModel {
            connections: self.connections.insert(
                connection,
                ConnectionModel { peer_id: peer, hub },
            ),
            connection_ids: if self.connections.contains_key(connection) {
                self.connection_ids
            } else {
                self.connection_ids.push(connection)
            },
            ..self
        };
        BehaviourModel {
            pending: self.pending + self.topics.map_values(
                |t: Seq<u8>| next.subscribe_command(connection, t, self.subscribed[t]),
            ),
            ..next
        }
    }

    /// The behaviour once a connection is closed.
    pub open spec fn disconnect(self, connection: ConnectionId) -> BehaviourModel {
        BehaviourModel {
            state: self.state.forget_connection(connection),
            connections: self.connections.remove(connection),
            connection_ids: if self.connections.contains_key(connection) {
                self.connection_ids.remove(self.connection_ids.index_of(connection))
            } else {
                self.connection_ids
            },
            ..self
        }
    }

    /// The behaviour with a connection replaced.
    pub open spec fn with_connection(
        self,
        connection: ConnectionId,
        model: ConnectionModel,
    ) -> BehaviourModel {
        BehaviourModel { connections: self.connections.insert(connection, model), ..self }
    }

    /// The visits of a run follow one another.
    #[verifier::opaque]
    pub open spec fn goes_through(
        self,
        topic: Seq<u8>,
        object_id: Seq<u8>,
        with_pieces: bool,
        order: Seq<ConnectionId>,
        run: Run,
        after: BehaviourModel,
    ) -> bool {
        &&& run.models.len() == run.visits.len() + 1
        &&& run.models[0] == self
        &&& run.models[run.visits.len() as int] == after
        &&& forall|i: int| #![trigger run.visits[i]]
            0 <= i < run.visits.len() ==> run.models[i].visits(
                topic,
                object_id,
                with_pieces,
                order[i],
                run.visits[i],
                run.models[i + 1],
            )
    }

    /// Going through the connections in this order to disseminate an object
    /// may go as in `run`, and leave this behaviour. The run ends once so many
    /// messages went out, or with the last connection.
    pub open spec fn disseminates(
        self,
        topic: Seq<u8>,
        object_id: Seq<u8>,
        with_pieces: bool,
        order: Seq<ConnectionId>,
        fanout: nat,
        run: Run,
        after: BehaviourModel,
    ) -> bool {
        &&& self.goes_through(topic, object_id, with_pieces, order, run, after)
        &&& run.visits.len() <= order.len()
        &&& run.visits.len() > 0 ==> sent_count(run.visits.drop_last()) < fanout
        &&& run.visits.len() == order.len() || sent_count(run.visits) >= fanout
    }

    /// Publishing an object with the connections in this order may go so, and
    /// leave this behaviour. The shard is cached. If its metadata is new
    /// (`changed`), it is disseminated, with the pieces.
    pub open spec fn publishes(
        self,
        topic: Seq<u8>,
        shard: ShardBox,
        order: Seq<ConnectionId>,
        changed: bool,
        run: Run,
        r: PublishModel,
        after: BehaviourModel,
    ) -> bool {
        let stored = self.with_state(self.state.store(topic, shard));
        &&& self.state.may_store(topic, shard, changed)
        &&& if !changed {
            r == PublishModel::Published && after == stored
        } else {
            &&& stored.disseminates(
                topic,
                shard.id(),
                true,
                order,
                self.config.topic_config(topic).publishes_to()@,
                run,
                after,
            )
            &&& r == publish_outcome(order, run.visits)
        }
    }

    /// The message that answers a received piece.
    pub open spec fn reply(received: ReceivedModel, send: (Seq<u8>, Seq<u8>)) -> ObjectPiecesModel {
        ObjectPiecesModel {
            object_id: received.object_id,
            pieces_metadata: Some(send.1),
            pieces: Some(send.0),
        }
    }

    /// Answering a received piece on its connection may leave this behaviour.
    /// A full queue is reported to the application.
    pub open spec fn answers(
        self,
        peer: PeerId,
        connection: ConnectionId,
        received: ReceivedModel,
        send: (Seq<u8>, Seq<u8>),
        r: Result<(), SendError>,
        after: BehaviourModel,
    ) -> bool {
        let hub = after.connections[connection].hub;
        let next = self.with_hub(connection, hub);
        &&& self.connections[connection].hub.dispatches(
            received.topic_id,
            Self::reply(received, send),
            r,
            hub,
        )
        &&& after == if r == Err::<(), SendError>(SendError::Full) {
            next.emit(EventModel::FullQueue(peer))
        } else {
            next
        }
    }

    /// The behaviour with a received piece handed to the application, if it
    /// needs it.
    pub open spec fn deliver(
        self,
        peer: PeerId,
        received: ReceivedModel,
        needed: bool,
    ) -> BehaviourModel {
        if needed {
            self.emit(
                EventModel::Received { topic_id: received.topic_id, peer_id: peer, received },
            )
        } else {
            self
        }
    }

    /// Taking up a received piece may leave this behaviour, with the metadata
    /// to be gossiped afterwards or not. A piece for a topic that the local
    /// node is not subscribed to is ignored. Otherwise it is reconciled, as
    /// `outcome` says: data that does not reconcile is reported, and the piece
    /// is handed to the application and answered as far as that is needed.
    pub open spec fn takes_up(
        self,
        peer: PeerId,
        connection: ConnectionId,
        received: Received,
        outcome: Result<Option<ReceivedActionModel>, shard::Error>,
        sent: Result<(), SendError>,
        gossip: bool,
        after: BehaviourModel,
    ) -> bool {
        let next = self.with_state(after.state);
        if !self.subscribed.contains_key(received.topic_id@) {
            !gossip && after == self
        } else {
            &&& self.state.receives(connection, peer, received, outcome, after.state)
            &&& match outcome {
                Err(reason) => {
                    &&& !gossip
                    &&& after == next.emit(
                        EventModel::InvalidData {
                            peer_id: peer,
                            topic_id: received.topic_id@,
                            object_id: received.object_id@,
                            reason,
                        },
                    )
                },
                Ok(None) => !gossip && after == next,
                Ok(Some(action)) => {
                    let delivered = next.deliver(peer, received@, action.emit);
                    match action.send {
                        None => gossip && after == delivered,
                        Some(send) => if self.connections.contains_key(connection) {
                            &&& gossip
                            &&& delivered.answers(peer, connection, received@, send, sent, after)
                        } else {
                            !gossip && after == delivered
                        },
                    }
                },
            }
        }
    }

    /// Gossiping the metadata of an object to others than one connection may
    /// leave this behaviour. Gossip carries no pieces.
    pub open spec fn gossips(
        self,
        topic: Seq<u8>,
        object_id: Seq<u8>,
        from: ConnectionId,
        order: Seq<ConnectionId>,
        run: Run,
        after: BehaviourModel,
    ) -> bool {
        &&& order.to_multiset() == self.other_subscribers(topic, from).to_multiset()
        &&& self.disseminates(
            topic,
            object_id,
            false,
            order,
            self.config.topic_config(topic).gossips_to()@,
            run,
            after,
        )
    }

    /// What a connection handler reports may leave this behaviour. A report
    /// from a connection that is not established is ignored, but for a
    /// received piece, which is taken up by itself. A subscription of a peer
    /// that is subscribed to as many topics as it may be is not taken up, and
    /// the handler is told.
    pub open spec fn handles(
        self,
        peer: PeerId,
        connection: ConnectionId,
        event: handler::Event,
        after: BehaviourModel,
    ) -> bool {
        match event {
            handler::Event::Subscribed { topic_id, sender } => after == if !self.connections.contains_key(
                connection,
            ) {
                self
            } else if self.admits(connection, topic_id@) {
                self.with_connection(
                    connection,
                    self.connections[connection].subscribe(topic_id@, sender),
                ).emit(EventModel::Subscribed { peer_id: peer, topic_id: topic_id@ })
            } else {
                self.push(self.refuse_command(connection, topic_id@))
            },
            handler::Event::Received(received) => self.handles_received(
                peer,
                connection,
                received,
                after,
            ),
            handler::Event::Unsubscribed { topic_id } => after == if self.connections.contains_key(
                connection,
            ) {
                self.with_connection(
                    connection,
                    self.connections[connection].unsubscribe(topic_id@),
                ).emit(EventModel::Unsubscribed { peer_id: peer, topic_id: topic_id@ })
            } else {
                self
            },
        }
    }

    /// Handling a received piece may leave this behaviour: the piece is taken
    /// up, and then the metadata is gossiped if that is due.
    pub open spec fn handles_received(
        self,
        peer: PeerId,
        connection: ConnectionId,
        received: Received,
        after: BehaviourModel,
    ) -> bool {
        exists|
            outcome: Result<Option<ReceivedActionModel>, shard::Error>,
            sent: Result<(), SendError>,
            gossip: bool,
            middle: BehaviourModel,
        | {
            &&& #[trigger] self.takes_up(peer, connection, received, outcome, sent, gossip, middle)
            &&& if gossip {
                exists|order: Seq<ConnectionId>, run: Run| #[trigger]
                    middle.gossips(
                        received.topic_id@,
                        received.object_id@,
                        connection,
                        order,
                        run,
                        after,
                    )
            } else {
                after == middle
            }
        }
    }

    /// A run goes on with one more visit.
    proof fn lemma_next_visit(
        self,
        topic: Seq<u8>,
        object_id: Seq<u8>,
        with_pieces: bool,
        order: Seq<ConnectionId>,
        run: Run,
        here: BehaviourModel,
        visit: Visit,
        after: BehaviourModel,
    )
        requires
            self.goes_through(topic, object_id, with_pieces, order, run, here),
            here.visits(
                topic,
                object_id,
                with_pieces,
                order[run.visits.len() as int],
                visit,
                after,
            ),
        ensures
            self.goes_through(topic, object_id, with_pieces, order, run.extended(visit, after), after),
    {
        reveal(BehaviourModel::goes_through);
        let next = run.extended(visit, after);
        assert forall|i: int| #![trigger next.visits[i]] 0 <= i < next.visits.len() implies
            next.models[i].visits(
                topic,
                object_id,
                with_pieces,
                order[i],
                next.visits[i],
                next.models[i + 1],
            ) by {
            if i < run.visits.len() {
                assert(run.visits[i] == next.visits[i]);
            }
        }
    }
}

/// How one connection fared, as far as it is counted.
#[derive(Debug, PartialEq, Eq, Structural, Clone, Copy)]
pub enum Outcome {
    /// There was nothing new for the peer.
    NoData,
    /// A message went out.
    Sent,
    /// The queue was full.
    Full,
    /// Anything else.
    Failed,
}

/// How a visit is counted.
pub open spec fn outcome_of(visit: Visit) -> Outcome {
    match visit {
        Visit::NoData => Outcome::NoData,
        Visit::Withheld(_) => Outcome::NoData,
        Visit::Invalid(_) => Outcome::Failed,
        Visit::Dispatched(_, Ok(())) => Outcome::Sent,
        Visit::Dispatched(_, Err(SendError::Full)) => Outcome::Full,
        Visit::Dispatched(_, Err(_)) => Outcome::Failed,
    }
}

/// What came of disseminating an object.
#[derive(Debug)]
pub struct Tally {
    /// The number of connections that a message went out on.
    pub sent: usize,
    /// Connections whose send queue was full.
    pub full: Vec<ConnectionId>,
    /// Connections that had nothing new to send.
    pub no_data: Vec<ConnectionId>,
}

impl Tally {
    /// The tally counts what happened on the visits.
    pub open spec fn counts(&self, order: Seq<ConnectionId>, visits: Seq<Visit>) -> bool {
        &&& self.sent == sent_count(visits)
        &&& self.full@ == visited(order, visits, |v: Visit| was_full(v))
        &&& self.no_data@ == visited(order, visits, |v: Visit| had_nothing(v))
    }
}

/// Network behaviour that handles the waggle protocol.
pub struct Behaviour {
    /// Behaviour configuration: queue sizes, limits, whitelist, and cache.
    config: Config,
    /// Piece-dissemination engine: the local object cache and per-connection views.
    state: State,
    /// Outbound events to the swarm, drained in `poll`.
    pending_events: VecDeque<Command>,
    /// Established connections.
    connections: Table<ConnectionId, Connection>,
    /// The topics the local node is currently subscribed to.
    subscribed_topics: Table<Vec<u8>, CloseSignal>,
}

spec fn connections_model(connections: Table<ConnectionId, Connection>) -> Map<
    ConnectionId,
    ConnectionModel,
> {
    connections@.map_values(|c: Connection| c@)
}

spec fn connections_wf(connections: Table<ConnectionId, Connection>) -> bool {
    &&& connections.wf()
    &&& forall|c: ConnectionId| #[trigger] connections@.contains_key(c) ==> connections@[c].wf()
}

/// What a table stands for follows each of its entries.
proof fn lemma_connection_entry(before: Table<ConnectionId, Connection>, id: ConnectionId)
    ensures
        forall|after: Table<ConnectionId, Connection>, connection: Connection|
            #![trigger connections_model(after), before@.insert(id, connection)]
            after@ == before@.insert(id, connection) ==> connections_model(after)
                == connections_model(before).insert(id, connection@),
{
    assert forall|after: Table<ConnectionId, Connection>, connection: Connection|
        #![trigger connections_model(after), before@.insert(id, connection)]
        after@ == before@.insert(id, connection) implies connections_model(after)
        == connections_model(before).insert(id, connection@) by {
        assert(connections_model(after) =~= connections_model(before).insert(id, connection@));
    }
}

/// A filter goes through a sequence entry by entry.
proof fn lemma_filter_push<A>(s: Seq<A>, kept: spec_fn(A) -> bool, last: A)
    ensures
        s.push(last).filter(kept) == (if kept(last) {
            s.filter(kept).push(last)
        } else {
            s.filter(kept)
        }),
{
    reveal(Seq::filter);
    assert(s.push(last).drop_last() =~= s);
}

/// What is kept by a filter satisfies it.
proof fn lemma_filter_kept<A>(s: Seq<A>, kept: spec_fn(A) -> bool)
    ensures
        forall|i: int| 0 <= i < s.filter(kept).len() ==> kept(#[trigger] s.filter(kept)[i]),
    decreases s.len(),
{
    reveal(Seq::filter);
    if s.len() > 0 {
        lemma_filter_kept(s.drop_last(), kept);
    }
}

/// The subscribers of a topic are connected.
proof fn lemma_subscribers_connected(model: BehaviourModel, topic: Seq<u8>)
    ensures
        forall|i: int|
            0 <= i < model.subscribers(topic).len() ==> model.connections.contains_key(
                #[trigger] model.subscribers(topic)[i],
            ),
{
    lemma_filter_kept(
        model.connection_ids,
        |c: ConnectionId| model.is_subscriber(c, topic),
    );
}

/// The other subscribers of a topic are connected.
proof fn lemma_other_subscribers_connected(
    model: BehaviourModel,
    topic: Seq<u8>,
    but: ConnectionId,
)
    ensures
        forall|i: int|
            0 <= i < model.other_subscribers(topic, but).len() ==> model.connections.contains_key(
                #[trigger] model.other_subscribers(topic, but)[i],
            ),
{
    lemma_filter_kept(model.connection_ids, model.is_other_subscriber(topic, but));
}

/// What stands in a sequence stands in it in another order too.
proof fn lemma_shuffled(listed: Seq<ConnectionId>, order: Seq<ConnectionId>)
    requires
        order.to_multiset() == listed.to_multiset(),
    ensures
        order.len() == listed.len(),
        forall|i: int| 0 <= i < order.len() ==> listed.contains(#[trigger] order[i]),
{
    broadcast use vstd::seq_lib::group_to_multiset_ensures;
    assert(order.len() == order.to_multiset().len());
    assert(listed.len() == listed.to_multiset().len());
    assert forall|i: int| 0 <= i < order.len() implies listed.contains(#[trigger] order[i]) by {
        assert(order.contains(order[i]));
        assert(order.to_multiset().count(order[i]) > 0);
    }
}

impl Behaviour {
    /// What the behaviour stands for.
    pub closed spec fn view(&self) -> BehaviourModel {
        BehaviourModel {
            config: self.config@,
            state: self.state@,
            pending: self.pending_events@.map_values(|command: Command| command@),
            connections: connections_model(self.connections),
            connection_ids: self.connections.keys(),
            subscribed: self.subscribed_topics@.map_values(|signal: CloseSignal| signal.signal()),
            topics: self.subscribed_topics.keys(),
        }
    }

    /// The tables hold no key twice, the state is well-formed, no peer is
    /// subscribed to more topics than the limit, and every fanout reaches some
    /// peer.
    pub closed spec fn wf(&self) -> bool {
        &&& self.state.wf()
        &&& connections_wf(self.connections)
        &&& self.subscribed_topics.wf()
        &&& topics_limited(
            connections_model(self.connections),
            self.config@.max_topic_subscription,
        )
        &&& self.config@.positive()
    }

    /// Creates a new waggle [`Behaviour`] instance with the given [`Config`].
    pub fn new(config: Config) -> (r: Self)
        ensures
            r.wf(),
            r@ == (BehaviourModel {
                config: config@,
                state: StateModel {
                    capacity: config@.max_cached_objects@,
                    local: Map::empty(),
                    remote: Map::empty(),
                },
                pending: Seq::empty(),
                connections: Map::empty(),
                connection_ids: Seq::empty(),
                subscribed: Map::empty(),
                topics: Seq::empty(),
            }),
    {
        proof {
            use_type_invariant(&config);
            config.lemma_positive();
        }
        let r = Behaviour {
            state: State::new(config.max_cached_objects()),
            config,
            pending_events: VecDeque::new(),
            connections: Table::new(),
            subscribed_topics: Table::new(),
        };
        assert(r@.pending =~= Seq::empty());
        assert(r@.connections =~= Map::empty());
        assert(r@.subscribed =~= Map::empty());
        assert forall|peer: PeerId|
            (#[trigger] peer_topics(r@.connections, peer)).finite() && peer_topics(
                r@.connections,
                peer,
            ).len() <= config@.max_topic_subscription by {
            assert(peer_topics(r@.connections, peer) =~= Set::empty());
        }
        r
    }

    fn push(&mut self, command: Command)
        ensures
            old(self).wf() ==> final(self).wf(),
            final(self).connections == old(self).connections,
            final(self).subscribed_topics == old(self).subscribed_topics,
            final(self)@ == old(self)@.push(command@),
    {
        let ghost before = *self;
        self.pending_events.push_back(command);
        assert(self@.pending =~= before@.pending.push(command@));
    }

    /// Reconciles an object with one connection, and sends there what is new
    /// for the peer. Gossip leaves the pieces out.
    fn visit(
        &mut self,
        topic: &[u8],
        object_id: &[u8],
        with_pieces: bool,
        connection_id: ConnectionId,
    ) -> (r: Outcome)
        requires
            old(self).wf(),
            old(self)@.connections.contains_key(connection_id),
        ensures
            final(self).wf(),
            exists|visit: Visit| #[trigger]
                old(self)@.visits(
                    topic@,
                    object_id@,
                    with_pieces,
                    connection_id,
                    visit,
                    final(self)@,
                ) && r == outcome_of(visit),
            final(self)@.connections.dom() == old(self)@.connections.dom(),
    {
        reveal(BehaviourModel::visits);
        let ghost before = *self;
        let peer_id = match self.connections.get(&connection_id) {
            Some(connection) => connection.peer_id,
            None => {
                return Outcome::Failed;
            },
        };
        let reconciled = self.state.reconcile(topic, connection_id, peer_id, object_id);
        let ghost model = reconcile_model(reconciled);
        match reconciled {
            Ok(None) => {
                proof {
                    assert(before@.visits(
                        topic@,
                        object_id@,
                        with_pieces,
                        connection_id,
                        Visit::NoData,
                        self@,
                    ));
                }
                Outcome::NoData
            },
            Ok(Some(action)) => {
                // With neither metadata nor pieces, send nothing.
                if action.metadata.is_none() && !(with_pieces && action.body.is_some()) {
                    proof {
                        assert(before@.visits(
                            topic@,
                            object_id@,
                            with_pieces,
                            connection_id,
                            Visit::Withheld(action@),
                            self@,
                        ));
                    }
                    return Outcome::NoData;
                }
                let message = ObjectPieces {
                    object_id: copy_bytes(object_id),
                    pieces_metadata: action.metadata,
                    pieces: if with_pieces {
                        action.body
                    } else {
                        None
                    },
                };
                proof {
                    lemma_connection_entry(self.connections, connection_id);
                }
                let sent = match self.connections.get_mut(&connection_id) {
                    Some(connection) => connection.hub.try_send(topic, message),
                    None => Err(SendError::UnknownTopic),
                };
                let ghost hub = self@.connections[connection_id].hub;
                proof {
                    assert(self@ =~= before@.with_state(self@.state).with_hub(connection_id, hub));
                    lemma_no_more_topics(
                        before@.connections,
                        self@.connections,
                        self.config@.max_topic_subscription,
                    );
                }
                match sent {
                    Err(SendError::Full) => {
                        self.push(Command::GenerateEvent(Event::FullQueue(peer_id)));
                    },
                    _ => {},
                }
                proof {
                    let visit = Visit::Dispatched(action@, sent);
                    assert(before@.visits(
                        topic@,
                        object_id@,
                        with_pieces,
                        connection_id,
                        visit,
                        self@,
                    ));
                }
                match sent {
                    Ok(()) => Outcome::Sent,
                    Err(SendError::Full) => Outcome::Full,
                    Err(_) => Outcome::Failed,
                }
            },
            Err(reason) => {
                self.push(
                    Command::GenerateEvent(
                        Event::InvalidData {
                            peer_id,
                            topic_id: copy_bytes(topic),
                            object_id: copy_bytes(object_id),
                            reason,
                        },
                    ),
                );
                proof {
                    assert(before@.visits(
                        topic@,
                        object_id@,
                        with_pieces,
                        connection_id,
                        Visit::Invalid(reason),
                        self@,
                    ));
                }
                Outcome::Failed
            },
        }
    }

    /// Goes through connections in the given order to send there what is new
    /// for the peers of an object, until `fanout` messages went out.
    pub fn disseminate(
        &mut self,
        topic: &[u8],
        object_id: &[u8],
        with_pieces: bool,
        order: &Vec<ConnectionId>,
        fanout: usize,
    ) -> (r: Tally)
        requires
            old(self).wf(),
            forall|i: int|
                0 <= i < order@.len() ==> old(self)@.connections.contains_key(
                    #[trigger] order@[i],
                ),
        ensures
            final(self).wf(),
            exists|run: Run| #[trigger]
                old(self)@.disseminates(
                    topic@,
                    object_id@,
                    with_pieces,
                    order@,
                    fanout as nat,
                    run,
                    final(self)@,
                ) && r.counts(order@, run.visits),
    {
        let ghost before = self@;
        let mut tally = Tally { sent: 0, full: Vec::new(), no_data: Vec::new() };
        let ghost run = Run { visits: Seq::empty(), models: seq![self@] };
        proof {
            reveal(BehaviourModel::goes_through);
        }
        let mut i: usize = 0;
        while i < order.len() && tally.sent < fanout
            invariant
                i <= order.len(),
                self.wf(),
                self@.connections.dom() == before.connections.dom(),
                forall|j: int|
                    0 <= j < order@.len() ==> before.connections.contains_key(#[trigger] order@[j]),
                tally.sent <= fanout,
                run.visits.len() == i,
                before.goes_through(topic@, object_id@, with_pieces, order@, run, self@),
                tally.counts(order@, run.visits),
                i > 0 ==> sent_count(run.visits.drop_last()) < fanout,
            decreases order.len() - i,
        {
            let ghost round = self@;
            let connection_id = order[i];
            let outcome = self.visit(topic, object_id, with_pieces, connection_id);
            proof {
                let visit = choose|visit: Visit| #[trigger]
                    round.visits(topic@, object_id@, with_pieces, connection_id, visit, self@)
                        && outcome == outcome_of(visit);
                before.lemma_next_visit(
                    topic@,
                    object_id@,
                    with_pieces,
                    order@,
                    run,
                    round,
                    visit,
                    self@,
                );
                let next = run.extended(visit, self@);
                assert(next.visits.drop_last() =~= run.visits);
                run = next;
            }
            match outcome {
                Outcome::NoData => {
                    tally.no_data.push(connection_id);
                },
                Outcome::Sent => {
                    tally.sent += 1;
                },
                Outcome::Full => {
                    tally.full.push(connection_id);
                },
                Outcome::Failed => {},
            }
            i += 1;
        }
        assert(before.disseminates(
            topic@,
            object_id@,
            with_pieces,
            order@,
            fanout as nat,
            run,
            self@,
        ));
        tally
    }

    /// In a well-formed behaviour the lists of connections and topics agree
    /// with the maps, the caches and the topics of each peer are bounded, and
    /// every fanout reaches some peer.
    pub proof fn lemma_consistent(&self)
        requires
            self.wf(),
        ensures
            self@.consistent(),
    {
        self.state.lemma_bounded();
        assert forall|c: ConnectionId| #[trigger] self@.connection_ids.contains(c)
            <==> self@.connections.contains_key(c) by {
            assert(self.connections@.contains_key(c) <==> self.connections.keys().contains(c));
        }
        assert forall|t: Seq<u8>| #[trigger] self@.topics.contains(t)
            <==> self@.subscribed.contains_key(t) by {
            assert(self.subscribed_topics@.contains_key(t) <==> self.subscribed_topics.keys().contains(t));
        }
    }

    /// Subscribes to a topic.
    ///
    /// Returns `false` if the topic was already subscribed.
    pub fn subscribe(&mut self, topic_id: Vec<u8>) -> (r: bool)
        requires
            old(self).wf(),
        ensures
            final(self).wf(),
            r == !old(self)@.subscribed.contains_key(topic_id@),
            r ==> exists|close_signal: Receiver<()>|
                final(self)@ == #[trigger] old(self)@.subscribe(topic_id@, close_signal),
            !r ==> final(self)@ == old(self)@,
    {
        if self.subscribed_topics.contains_key(topic_id.as_slice()) {
            return false;
        }
        let ghost before = *self;
        let close_signal = CloseSignal::new();
        let ghost told = before@.connection_ids.map_values(
            |c: ConnectionId| before@.subscribe_command(c, topic_id@, close_signal.signal()),
        );
        // Hand every connection a receiver clone of the topic's close signal.
        let mut i: usize = 0;
        assert(self@.pending =~= before@.pending + told.take(0));
        while i < self.connections.len()
            invariant
                i <= self.connections.keys().len(),
                self.wf(),
                self@ == (BehaviourModel {
                    pending: before@.pending + told.take(i as int),
                    ..before@
                }),
                self.connections == before.connections,
                self.subscribed_topics == before.subscribed_topics,
                told == before@.connection_ids.map_values(
                    |c: ConnectionId|
                        before@.subscribe_command(c, topic_id@, close_signal.signal()),
                ),
            decreases self.connections.keys().len() - i,
        {
            let connection_id = *self.connections.key_at(i);
            let peer_id = self.connections.value_at(i).peer_id;
            let event = HandlerIn::Subscribe {
                topic_id: copy_bytes(topic_id.as_slice()),
                close_signal: close_signal.receiver(),
            };
            let command = Command::NotifyHandler { peer_id, connection_id, event };
            assert(command@ == told[i as int]);
            self.push(command);
            assert(self@.pending =~= before@.pending + told.take(i + 1));
            i += 1;
        }
        assert(told.take(i as int) =~= told);
        let ghost signal = close_signal.signal();
        self.subscribed_topics.insert(topic_id, close_signal);
        proof {
            assert(self@.subscribed =~= before@.subscribed.insert(topic_id@, signal));
            assert(self@ =~= before@.subscribe(topic_id@, signal));
        }
        true
    }

    /// Unsubscribes from a topic.
    ///
    /// Returns `true` if the topic was subscribed.
    pub fn unsubscribe(&mut self, topic_id: Vec<u8>) -> (r: bool)
        requires
            old(self).wf(),
        ensures
            final(self).wf(),
            r == old(self)@.subscribed.contains_key(topic_id@),
            final(self)@ == (if r {
                old(self)@.unsubscribe(topic_id@)
            } else {
                old(self)@
            }),
    {
        let ghost before = *self;
        // Dropping the signal closes its channel; every connection's stream
        // wakes and closes.
        match self.subscribed_topics.remove(topic_id.as_slice()) {
            Some(subscription) => {
                self.state.remove_topic(topic_id.as_slice());
                assert(self@.subscribed =~= before@.subscribed.remove(topic_id@));
                assert(self@ =~= before@.unsubscribe(topic_id@));
                true
            },
            None => false,
        }
    }

    fn connection_established(&mut self, connection_id: ConnectionId, peer_id: PeerId) -> (r:
        Handler)
        requires
            old(self).wf(),
        ensures
            final(self).wf(),
            final(self)@ == old(self)@.connect(connection_id, peer_id, r@.counter),
            r@.fresh(old(self)@.config, r@.counter),
            counts_at_some_moment(*r@.counter, 0),
    {
        let ghost before = *self;
        let used = SharedCounter::new();
        let hub = DispatchHub::new(self.config.max_connection_queue_limit(), used.share());
        proof {
            lemma_connection_entry(self.connections, connection_id);
        }
        self.connections.insert(connection_id, Connection { peer_id, hub });
        proof {
            lemma_no_more_topics(
                before@.connections,
                self@.connections,
                self.config@.max_topic_subscription,
            );
        }
        let ghost goal = before@.connect(connection_id, peer_id, used.number());
        let ghost next = self@;
        let ghost told = before@.topics.map_values(
            |t: Seq<u8>| goal.subscribe_command(connection_id, t, before@.subscribed[t]),
        );
        // Subscribe this connection to all the topics we are subscribed to.
        let mut i: usize = 0;
        assert(self@.pending =~= before@.pending + told.take(0));
        while i < self.subscribed_topics.len()
            invariant
                i <= self.subscribed_topics.keys().len(),
                self.wf(),
                self@ == (BehaviourModel {
                    pending: before@.pending + told.take(i as int),
                    ..next
                }),
                self.subscribed_topics == before.subscribed_topics,
                goal.connections[connection_id].peer_id == peer_id,
                told == before@.topics.map_values(
                    |t: Seq<u8>| goal.subscribe_command(connection_id, t, before@.subscribed[t]),
                ),
            decreases self.subscribed_topics.keys().len() - i,
        {
            let topic_id = copy_bytes(self.subscribed_topics.key_at(i).as_slice());
            let close_signal = self.subscribed_topics.value_at(i).receiver();
            let event = HandlerIn::Subscribe { topic_id, close_signal };
            let command = Command::NotifyHandler { peer_id, connection_id, event };
            assert(command@ == told[i as int]);
            self.push(command);
            assert(self@.pending =~= before@.pending + told.take(i + 1));
            i += 1;
        }
        assert(told.take(i as int) =~= told);
        assert(goal.pending =~= before@.pending + told);
        assert(self@ =~= goal);
        Handler::new(used, self.config.clone())
    }

    /// Takes up a connection that a remote peer opened. Returns its handler.
    pub fn handle_established_inbound_connection(
        &mut self,
        connection_id: ConnectionId,
        peer_id: PeerId,
    ) -> (r: Handler)
        requires
            old(self).wf(),
        ensures
            final(self).wf(),
            final(self)@ == old(self)@.connect(connection_id, peer_id, r@.counter),
            r@.fresh(old(self)@.config, r@.counter),
            counts_at_some_moment(*r@.counter, 0),
    {
        self.connection_established(connection_id, peer_id)
    }

    /// Takes up a connection that the local node opened. Returns its handler.
    pub fn handle_established_outbound_connection(
        &mut self,
        connection_id: ConnectionId,
        peer_id: PeerId,
    ) -> (r: Handler)
        requires
            old(self).wf(),
        ensures
            final(self).wf(),
            final(self)@ == old(self)@.connect(connection_id, peer_id, r@.counter),
            r@.fresh(old(self)@.config, r@.counter),
            counts_at_some_moment(*r@.counter, 0),
    {
        self.connection_established(connection_id, peer_id)
    }

    /// Takes note of what the swarm reports. Only the end of a connection
    /// matters.
    pub fn on_swarm_event(&mut self, event: SwarmEvent)
        requires
            old(self).wf(),
        ensures
            final(self).wf(),
            final(self)@ == (match event {
                SwarmEvent::ConnectionClosed { connection_id } => old(self)@.disconnect(
                    connection_id,
                ),
                SwarmEvent::Other => old(self)@,
            }),
    {
        let ghost before = *self;
        match event {
            SwarmEvent::ConnectionClosed { connection_id } => {
                let closed = self.connections.remove(&connection_id);
                self.state.connection_closed(connection_id);
                proof {
                    assert(self@.connections =~= before@.connections.remove(connection_id));
                    lemma_no_more_topics(
                        before@.connections,
                        self@.connections,
                        self.config@.max_topic_subscription,
                    );
                }
                assert(self@ =~= before@.disconnect(connection_id));
            },
            SwarmEvent::Other => {},
        }
    }

    /// The connections on which the remote peer subscribed to the topic.
    fn subscribers(&self, topic: &[u8]) -> (r: Vec<ConnectionId>)
        requires
            self.wf(),
        ensures
            r@ == self@.subscribers(topic@),
    {
        let ghost kept = |c: ConnectionId| self@.is_subscriber(c, topic@);
        let mut r: Vec<ConnectionId> = Vec::new();
        let mut i: usize = 0;
        assert(r@ =~= self@.connection_ids.take(0).filter(kept)) by {
            reveal(Seq::filter);
        }
        while i < self.connections.len()
            invariant
                i <= self.connections.keys().len(),
                self.wf(),
                kept == (|c: ConnectionId| self@.is_subscriber(c, topic@)),
                r@ == self@.connection_ids.take(i as int).filter(kept),
            decreases self.connections.keys().len() - i,
        {
            let ghost done = self@.connection_ids.take(i as int);
            let ghost id = self@.connection_ids[i as int];
            let connection_id = *self.connections.key_at(i);
            if self.connections.value_at(i).is_subscribed(topic) {
                r.push(connection_id);
            }
            proof {
                assert(self@.connection_ids.take(i + 1) =~= done.push(id));
                lemma_filter_push(done, kept, id);
            }
            i += 1;
        }
        assert(self@.connection_ids.take(i as int) =~= self@.connection_ids);
        r
    }

    /// The connections, but for one, on which the remote peer subscribed to
    /// the topic.
    fn other_subscribers(&self, topic: &[u8], but: ConnectionId) -> (r: Vec<ConnectionId>)
        requires
            self.wf(),
        ensures
            r@ == self@.other_subscribers(topic@, but),
    {
        let ghost kept = self@.is_other_subscriber(topic@, but);
        let mut r: Vec<ConnectionId> = Vec::new();
        let mut i: usize = 0;
        assert(r@ =~= self@.connection_ids.take(0).filter(kept)) by {
            reveal(Seq::filter);
        }
        while i < self.connections.len()
            invariant
                i <= self.connections.keys().len(),
                self.wf(),
                kept == self@.is_other_subscriber(topic@, but),
                r@ == self@.connection_ids.take(i as int).filter(kept),
            decreases self.connections.keys().len() - i,
        {
            let ghost done = self@.connection_ids.take(i as int);
            let ghost id = self@.connection_ids[i as int];
            let connection_id = *self.connections.key_at(i);
            if !same_connection(&connection_id, &but) && self.connections.value_at(i).is_subscribed(
                topic,
            ) {
                r.push(connection_id);
            }
            proof {
                assert(self@.connection_ids.take(i + 1) =~= done.push(id));
                lemma_filter_push(done, kept, id);
            }
            i += 1;
        }
        assert(self@.connection_ids.take(i as int) =~= self@.connection_ids);
        r
    }

    /// Publishes an object piece to the subscribers of a topic in the given
    /// order.
    pub fn publish_in_order(
        &mut self,
        topic_id: &[u8],
        piece: ShardBox,
        order: &Vec<ConnectionId>,
    ) -> (r: Result<(), Error>)
        requires
            old(self).wf(),
            forall|i: int|
                0 <= i < order@.len() ==> old(self)@.connections.contains_key(
                    #[trigger] order@[i],
                ),
        ensures
            final(self).wf(),
            exists|changed: bool, run: Run| #[trigger]
                old(self)@.publishes(
                    topic_id@,
                    piece,
                    order@,
                    changed,
                    run,
                    publish_model(r),
                    final(self)@,
                ),
    {
        let ghost before = self@;
        let object_id = piece.shard.object_id();
        // Cache and disseminate. When the metadata is unchanged, there is
        // nothing new to send.
        let changed = self.state.store(topic_id, piece);
        if !changed {
            proof {
                let none = Run { visits: Seq::empty(), models: Seq::empty() };
                assert(before.publishes(
                    topic_id@,
                    piece,
                    order@,
                    false,
                    none,
                    PublishModel::Published,
                    self@,
                ));
            }
            return Ok(());
        }
        let ghost stored = self@;
        let fanout = self.config.topic_config(topic_id).publish_fanout().get();
        let tally = self.disseminate(topic_id, object_id.as_slice(), true, order, fanout);
        let ghost run = choose|run: Run| #[trigger]
            stored.disseminates(
                topic_id@,
                object_id@,
                true,
                order@,
                fanout as nat,
                run,
                self@,
            ) && tally.counts(order@, run.visits);
        let r = if tally.sent == 0 {
            Err(Error::MessageNotSent { full: tally.full, no_data: tally.no_data })
        } else {
            Ok(())
        };
        proof {
            assert(before.publishes(
                topic_id@,
                piece,
                order@,
                true,
                run,
                publish_model(r),
                self@,
            ));
        }
        r
    }

    /// Publishes an object piece to a topic.
    ///
    /// Disseminates the pieces to the topic's subscribers. Caches the pieces
    /// for reconciliation with peers that are missing them. `topic` selects
    /// the topic to which the piece belongs. `piece` carries the object
    /// identifier, the metadata, and the payload bits.
    ///
    /// Returns an [`Error`] if no peers are subscribed to the
    /// topic or the piece cannot be queued.
    pub fn publish(&mut self, topic_id: Vec<u8>, piece: ShardBox) -> (r: Result<(), Error>)
        requires
            old(self).wf(),
        ensures
            final(self).wf(),
            publish_model(r) == PublishModel::NoPeersSubscribedToTopic
                <==> old(self)@.subscribers(topic_id@).len() == 0,
            r matches Err(Error::NoPeersSubscribedToTopic) ==> final(self)@ == old(self)@,
            old(self)@.subscribers(topic_id@).len() > 0 ==> exists|
                order: Seq<ConnectionId>,
                changed: bool,
                run: Run,
            | {
                &&& order.to_multiset() == old(self)@.subscribers(topic_id@).to_multiset()
                &&& #[trigger] old(self)@.publishes(
                    topic_id@,
                    piece,
                    order,
                    changed,
                    run,
                    publish_model(r),
                    final(self)@,
                )
            },
    {
        let mut eligible = self.subscribers(topic_id.as_slice());
        if eligible.len() == 0 {
            return Err(Error::NoPeersSubscribedToTopic);
        }
        // Select a random subset of the eligible connections to publish to.
        let ghost before = eligible@;
        shuffle_connections(&mut eligible);
        proof {
            lemma_subscribers_connected(self@, topic_id@);
            lemma_shuffled(before, eligible@);
        }
        self.publish_in_order(topic_id.as_slice(), piece, &eligible)
    }

    /// Reconciles a piece received on a connection, and reports the outcome to
    /// the application and to the peer as far as that is needed. Returns
    /// whether the metadata is to be gossiped.
    fn take_up(&mut self, peer_id: PeerId, connection_id: ConnectionId, received: &Received) -> (r:
        bool)
        requires
            old(self).wf(),
        ensures
            final(self).wf(),
            exists|
                outcome: Result<Option<ReceivedActionModel>, shard::Error>,
                sent: Result<(), SendError>,
            | #[trigger]
                old(self)@.takes_up(
                    peer_id,
                    connection_id,
                    *received,
                    outcome,
                    sent,
                    r,
                    final(self)@,
                ),
    {
        let ghost before = *self;
        let ghost outcome: Result<Option<ReceivedActionModel>, shard::Error> = arbitrary();
        let ghost sent: Result<(), SendError> = arbitrary();
        // Ignore pieces for a topic the local node is not subscribed to.
        if !self.subscribed_topics.contains_key(received.topic_id.as_slice()) {
            assert(before@.takes_up(
                peer_id,
                connection_id,
                *received,
                outcome,
                sent,
                false,
                self@,
            ));
            return false;
        }
        let reconciled = self.state.received(connection_id, peer_id, received);
        proof {
            outcome = received_model(reconciled);
        }
        let action = match reconciled {
            Ok(Some(action)) => action,
            Ok(None) => {
                assert(before@.takes_up(
                    peer_id,
                    connection_id,
                    *received,
                    outcome,
                    sent,
                    false,
                    self@,
                ));
                return false;
            },
            Err(reason) => {
                self.push(
                    Command::GenerateEvent(
                        Event::InvalidData {
                            peer_id,
                            topic_id: copy_bytes(received.topic_id.as_slice()),
                            object_id: copy_bytes(received.object_id.as_slice()),
                            reason,
                        },
                    ),
                );
                assert(before@.takes_up(
                    peer_id,
                    connection_id,
                    *received,
                    outcome,
                    sent,
                    false,
                    self@,
                ));
                return false;
            },
        };
        // Send the received piece to the application.
        if action.emit {
            self.push(
                Command::GenerateEvent(
                    Event::Received {
                        topic_id: copy_bytes(received.topic_id.as_slice()),
                        peer_id,
                        received: received.clone(),
                    },
                ),
            );
        }
        let ghost delivered = self@;
        // Send the reconciled reply to the peer.
        match action.send {
            None => {
                assert(before@.takes_up(
                    peer_id,
                    connection_id,
                    *received,
                    outcome,
                    sent,
                    true,
                    self@,
                ));
                true
            },
            Some(reply) => {
                let ghost send = (reply.0@, reply.1@);
                let message = ObjectPieces {
                    object_id: copy_bytes(received.object_id.as_slice()),
                    pieces_metadata: Some(reply.1),
                    pieces: Some(reply.0),
                };
                proof {
                    lemma_connection_entry(self.connections, connection_id);
                }
                let dispatched = match self.connections.get_mut(&connection_id) {
                    Some(connection) => connection.hub.try_send(
                        received.topic_id.as_slice(),
                        message,
                    ),
                    None => {
                        assert(before@.takes_up(
                            peer_id,
                            connection_id,
                            *received,
                            outcome,
                            sent,
                            false,
                            self@,
                        ));
                        return false;
                    },
                };
                proof {
                    sent = dispatched;
                    let hub = self@.connections[connection_id].hub;
                    assert(self@ =~= delivered.with_hub(connection_id, hub));
                    lemma_no_more_topics(
                        before@.connections,
                        self@.connections,
                        self.config@.max_topic_subscription,
                    );
                }
                match dispatched {
                    Err(SendError::Full) => {
                        self.push(Command::GenerateEvent(Event::FullQueue(peer_id)));
                    },
                    _ => {},
                }
                assert(delivered.answers(
                    peer_id,
                    connection_id,
                    received@,
                    send,
                    sent,
                    self@,
                ));
                assert(before@.takes_up(
                    peer_id,
                    connection_id,
                    *received,
                    outcome,
                    sent,
                    true,
                    self@,
                ));
                true
            },
        }
    }

    /// Gossips the metadata of an object to peers that do not have it yet.
    fn gossip(&mut self, topic: &[u8], object_id: &[u8], from: ConnectionId)
        requires
            old(self).wf(),
        ensures
            final(self).wf(),
            exists|order: Seq<ConnectionId>, run: Run| #[trigger]
                old(self)@.gossips(topic@, object_id@, from, order, run, final(self)@),
    {
        let ghost before = self@;
        let mut eligible = self.other_subscribers(topic, from);
        let ghost listed = eligible@;
        shuffle_connections(&mut eligible);
        proof {
            lemma_other_subscribers_connected(self@, topic@, from);
            lemma_shuffled(listed, eligible@);
        }
        let fanout = self.config.topic_config(topic).gossip_fanout().get();
        let tally = self.disseminate(topic, object_id, false, &eligible, fanout);
        proof {
            let run = choose|run: Run| #[trigger]
                before.disseminates(
                    topic@,
                    object_id@,
                    false,
                    eligible@,
                    fanout as nat,
                    run,
                    self@,
                ) && tally.counts(eligible@, run.visits);
            assert(before.gossips(topic@, object_id@, from, eligible@, run, self@));
        }
    }

    /// Reconciles a piece received on a connection and reports the outcome.
    ///
    /// Reconciles the received piece against any cached object. Emits the piece
    /// to the application when needed. Sends the reconciled reply back on the
    /// same connection. Then gossips the metadata to other peers.
    pub fn handle_received(
        &mut self,
        peer_id: PeerId,
        connection_id: ConnectionId,
        received: Received,
    )
        requires
            old(self).wf(),
        ensures
            final(self).wf(),
            old(self)@.handles_received(peer_id, connection_id, received, final(self)@),
    {
        let gossip = self.take_up(peer_id, connection_id, &received);
        if gossip {
            self.gossip(received.topic_id.as_slice(), received.object_id.as_slice(), connection_id);
        }
    }

    /// The topics that the peer is subscribed to, on all its connections
    /// together.
    fn peer_topics(&self, peer_id: PeerId) -> (r: TopicSet)
        requires
            self.wf(),
        ensures
            r@ == peer_topics(self@.connections, peer_id),
    {
        let ghost ids = self.connections.keys();
        let mut r = TopicSet::new();
        let mut i: usize = 0;
        while i < self.connections.len()
            invariant
                i <= ids.len(),
                ids == self.connections.keys(),
                self.wf(),
                forall|t: Seq<u8>| #[trigger] r@.contains(t) <==> exists|j: int|
                    0 <= j < i && self@.connections[#[trigger] ids[j]].peer_id == peer_id
                        && self@.connections[ids[j]].hub.queues.contains_key(t),
            decreases ids.len() - i,
        {
            let ghost round = r@;
            let connection = self.connections.value_at(i);
            let ghost added = self@.connections[ids[i as int]];
            if same_peer(&connection.peer_id, &peer_id) {
                connection.hub.add_topics(&mut r);
            }
            proof {
                assert forall|t: Seq<u8>| #[trigger] r@.contains(t) <==> exists|j: int|
                    0 <= j < i + 1 && self@.connections[#[trigger] ids[j]].peer_id == peer_id
                        && self@.connections[ids[j]].hub.queues.contains_key(t) by {
                    assert(r@.contains(t) <==> round.contains(t) || (added.peer_id == peer_id
                        && added.hub.queues.contains_key(t)));
                    assert(added == self@.connections[ids[i as int]]);
                }
            }
            i += 1;
        }
        proof {
            assert forall|t: Seq<u8>| #[trigger] r@.contains(t) <==> peer_subscribes(
                self@.connections,
                peer_id,
                t,
            ) by {
                if r@.contains(t) {
                    let j = choose|j: int|
                        0 <= j < i && self@.connections[#[trigger] ids[j]].peer_id == peer_id
                            && self@.connections[ids[j]].hub.queues.contains_key(t);
                    self.connections.lemma_entry(j);
                    assert(self@.connections.contains_key(ids[j]));
                }
                if peer_subscribes(self@.connections, peer_id, t) {
                    let c = choose|c: ConnectionId| #[trigger]
                        self@.connections.contains_key(c) && self@.connections[c].peer_id == peer_id
                            && self@.connections[c].hub.queues.contains_key(t);
                    assert(self.connections@.contains_key(c));
                    let j = ids.index_of(c);
                    assert(ids[j] == c);
                }
            }
            assert(r@ =~= peer_topics(self@.connections, peer_id));
        }
        r
    }

    /// Whether the peer may be subscribed to the topic.
    fn admits(&self, peer_id: PeerId, topic: &[u8]) -> (r: bool)
        requires
            self.wf(),
        ensures
            r == self@.admits_peer(peer_id, topic@),
    {
        let topics = self.peer_topics(peer_id);
        topics.contains(topic) || topics.len() < self.config.max_topic_subscription()
    }

    /// Takes note of what the handler of a connection reports.
    pub fn on_connection_handler_event(
        &mut self,
        peer_id: PeerId,
        connection_id: ConnectionId,
        event: handler::Event,
    )
        requires
            old(self).wf(),
        ensures
            final(self).wf(),
            old(self)@.handles(peer_id, connection_id, event, final(self)@),
    {
        let ghost before = *self;
        proof {
            lemma_connection_entry(self.connections, connection_id);
        }
        match event {
            handler::Event::Subscribed { topic_id, sender } => {
                let known_peer = match self.connections.get(&connection_id) {
                    Some(connection) => connection.peer_id,
                    // A subscription from an unknown connection.
                    None => {
                        return ;
                    },
                };
                // The stream of a subscription that is not taken up closes, as its
                // sender goes away.
                if !self.admits(known_peer, topic_id.as_slice()) {
                    let event = HandlerIn::Refuse { topic_id };
                    self.push(Command::NotifyHandler { peer_id: known_peer, connection_id, event });
                    return ;
                }
                match self.connections.get_mut(&connection_id) {
                    Some(connection) => {
                        connection.subscribe(copy_bytes(topic_id.as_slice()), sender);
                    },
                    None => {
                        return ;
                    },
                }
                proof {
                    assert(self@ =~= before@.with_connection(
                        connection_id,
                        before@.connections[connection_id].subscribe(topic_id@, sender),
                    ));
                    lemma_one_more_topic(
                        before@.connections,
                        connection_id,
                        before@.connections[connection_id].subscribe(topic_id@, sender),
                        topic_id@,
                        self.config@.max_topic_subscription,
                    );
                }
                self.push(Command::GenerateEvent(Event::Subscribed { peer_id, topic_id }));
            },
            handler::Event::Received(received) => {
                self.handle_received(peer_id, connection_id, received);
            },
            handler::Event::Unsubscribed { topic_id } => {
                match self.connections.get_mut(&connection_id) {
                    Some(connection) => {
                        connection.unsubscribe(topic_id.as_slice());
                    },
                    // An unsubscription from an unknown connection.
                    None => {
                        return ;
                    },
                }
                proof {
                    assert(self@ =~= before@.with_connection(
                        connection_id,
                        before@.connections[connection_id].unsubscribe(topic_id@),
                    ));
                    lemma_no_more_topics(
                        before@.connections,
                        self@.connections,
                        self.config@.max_topic_subscription,
                    );
                }
                self.push(Command::GenerateEvent(Event::Unsubscribed { peer_id, topic_id }));
            },
        }
    }

    /// Hands out the next command, if there is one.
    pub fn poll(&mut self) -> (r: Option<Command>)
        requires
            old(self).wf(),
        ensures
            final(self).wf(),
            match r {
                Some(command) => {
                    &&& old(self)@.pending.len() > 0
                    &&& command@ == old(self)@.pending[0]
                    &&& final(self)@ == (BehaviourModel {
                        pending: old(self)@.pending.drop_first(),
                        ..old(self)@
                    })
                },
                None => old(self)@.pending.len() == 0 && final(self)@ == old(self)@,
            },
    {
        let ghost before = *self;
        let r = self.pending_events.pop_front();
        proof {
            if r is Some {
                assert(self@.pending =~= before@.pending.drop_first());
            }
        }
        r
    }
}

} // verus!
