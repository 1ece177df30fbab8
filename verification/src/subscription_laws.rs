//! Who is subscribed to what, and who is told of it.

use std::sync::atomic::AtomicUsize;
use std::sync::Arc;

use async_channel::{Receiver, Sender};
use libp2p::swarm::ConnectionId;
use libp2p::PeerId;
use vstd::prelude::*;

use crate::behaviour::{
    peer_subscribes, peer_topics, BehaviourModel, CommandModel, EventModel,
};
use crate::config::ConfigModel;
use crate::handler;
use crate::handler::{
    Event, HandlerCommandModel, HandlerInModel, HandlerModel, PollEvent, PollStepModel, Received,
};
use crate::laws::{law_closed_connection_is_forgotten, law_unsubscribed_topic_is_forgotten};
use crate::outside::{channel_limit, closed_at_some_moment, messages_queued};
use crate::protocol::ObjectPieces;

verus! {

/// The command tells the handler of a connection to subscribe to a topic, with
/// what closes the stream.
pub open spec fn tells_to_subscribe(
    command: CommandModel,
    peer: PeerId,
    connection: ConnectionId,
    topic: Seq<u8>,
    close_signal: Receiver<()>,
) -> bool {
    command matches CommandModel::NotifyHandler { peer_id, connection_id, event } && {
        &&& peer_id == peer
        &&& connection_id == connection
        &&& event matches HandlerInModel::Subscribe { topic_id, close_signal: signal } && topic_id
            == topic && signal == close_signal
    }
}

/// Subscribing adds the topic, tells each connection of it once, with one and
/// the same close signal, and does nothing else.
pub proof fn law_subscribing_tells_each_connection(
    before: BehaviourModel,
    topic: Seq<u8>,
    close_signal: Receiver<()>,
    connection: ConnectionId,
)
    requires
        before.consistent(),
        before.connections.contains_key(connection),
    ensures
        ({
            let after = before.subscribe(topic, close_signal);
            let n = before.pending.len() as int;
            &&& after.subscribed.contains_key(topic)
            &&& after.subscribed[topic] == close_signal
            &&& forall|t: Seq<u8>| t != topic ==> after.subscribed.contains_key(t)
                == before.subscribed.contains_key(t) && #[trigger] after.subscribed[t]
                == before.subscribed[t]
            &&& after.connections == before.connections
            &&& after.state == before.state
            &&& after.config == before.config
            &&& before.pending.is_prefix_of(after.pending)
            &&& after.pending.len() == n + before.connection_ids.len()
            &&& exists|k: int|
                n <= k < after.pending.len() && tells_to_subscribe(
                    #[trigger] after.pending[k],
                    before.connections[connection].peer_id,
                    connection,
                    topic,
                    close_signal,
                )
        }),
{
    let after = before.subscribe(topic, close_signal);
    let n = before.pending.len() as int;
    assert(before.connection_ids.contains(connection));
    let i = before.connection_ids.index_of(connection);
    assert(tells_to_subscribe(
        after.pending[n + i],
        before.connections[connection].peer_id,
        connection,
        topic,
        close_signal,
    ));
    assert forall|t: Seq<u8>| t != topic implies after.subscribed.contains_key(t)
        == before.subscribed.contains_key(t) && #[trigger] after.subscribed[t]
        == before.subscribed[t] by {}
}

/// Unsubscribing takes the topic away, forgets all that is cached and known of
/// it, and does nothing else.
pub proof fn law_unsubscribing_forgets_the_topic(before: BehaviourModel, topic: Seq<u8>)
    ensures
        ({
            let after = before.unsubscribe(topic);
            &&& !after.subscribed.contains_key(topic)
            &&& forall|t: Seq<u8>| t != topic ==> after.subscribed.contains_key(t)
                == before.subscribed.contains_key(t) && #[trigger] after.subscribed[t]
                == before.subscribed[t]
            &&& after.connections == before.connections
            &&& after.pending == before.pending
            &&& after.config == before.config
            &&& forall|o: Seq<u8>| #[trigger] after.state.cached(topic, o) is None
            &&& forall|c: ConnectionId, o: Seq<u8>|
                (#[trigger] after.state.known(topic, c, o)).peer_metadata is None
                    && after.state.known(topic, c, o).our_metadata is None
            &&& forall|t: Seq<u8>, o: Seq<u8>|
                t != topic ==> #[trigger] after.state.cached(t, o) == before.state.cached(t, o)
            &&& forall|t: Seq<u8>, c: ConnectionId, o: Seq<u8>|
                t != topic ==> #[trigger] after.state.known(t, c, o) == before.state.known(t, c, o)
        }),
{
    law_unsubscribed_topic_is_forgotten(before.state, topic);
}

/// A new connection is that of its peer, has nothing queued, and has the
/// configured limit. It is told of each subscribed topic once, with the close
/// signal of that topic. Nothing else changes.
pub proof fn law_connecting_tells_of_each_topic(
    before: BehaviourModel,
    connection: ConnectionId,
    peer: PeerId,
    counter: Arc<AtomicUsize>,
    topic: Seq<u8>,
)
    requires
        before.consistent(),
    ensures
        ({
            let after = before.connect(connection, peer, counter);
            let n = before.pending.len() as int;
            let made = after.connections[connection];
            &&& after.connections.contains_key(connection)
            &&& made.peer_id == peer
            &&& made.hub.limit == before.config.max_connection_queue_limit
            &&& made.hub.counter == counter
            &&& made.hub.balance == 0
            &&& forall|t: Seq<u8>| !(#[trigger] made.hub.queues.contains_key(t))
            &&& forall|c: ConnectionId| c != connection ==> after.connections.contains_key(c)
                == before.connections.contains_key(c) && #[trigger] after.connections[c]
                == before.connections[c]
            &&& after.subscribed == before.subscribed
            &&& after.state == before.state
            &&& after.config == before.config
            &&& before.pending.is_prefix_of(after.pending)
            &&& after.pending.len() == n + before.topics.len()
            &&& before.subscribed.contains_key(topic) ==> exists|k: int|
                n <= k < after.pending.len() && tells_to_subscribe(
                    #[trigger] after.pending[k],
                    peer,
                    connection,
                    topic,
                    before.subscribed[topic],
                )
        }),
{
    let after = before.connect(connection, peer, counter);
    let n = before.pending.len() as int;
    assert forall|c: ConnectionId| c != connection implies after.connections.contains_key(c)
        == before.connections.contains_key(c) && #[trigger] after.connections[c]
        == before.connections[c] by {}
    if before.subscribed.contains_key(topic) {
        assert(before.topics.contains(topic));
        let i = before.topics.index_of(topic);
        assert(tells_to_subscribe(
            after.pending[n + i],
            peer,
            connection,
            topic,
            before.subscribed[topic],
        ));
    }
}

/// A closed connection is gone, with all that is known of it. Nothing else
/// changes.
pub proof fn law_disconnecting_forgets_the_connection(
    before: BehaviourModel,
    connection: ConnectionId,
)
    ensures
        ({
            let after = before.disconnect(connection);
            &&& !after.connections.contains_key(connection)
            &&& forall|c: ConnectionId| c != connection ==> after.connections.contains_key(c)
                == before.connections.contains_key(c) && #[trigger] after.connections[c]
                == before.connections[c]
            &&& after.subscribed == before.subscribed
            &&& after.pending == before.pending
            &&& after.config == before.config
            &&& forall|t: Seq<u8>, o: Seq<u8>| #[trigger] after.state.cached(t, o)
                == before.state.cached(t, o)
            &&& forall|t: Seq<u8>, o: Seq<u8>|
                (#[trigger] after.state.known(t, connection, o)).peer_metadata is None
                    && after.state.known(t, connection, o).our_metadata is None
            &&& forall|t: Seq<u8>, c: ConnectionId, o: Seq<u8>|
                c != connection ==> #[trigger] after.state.known(t, c, o) == before.state.known(
                    t,
                    c,
                    o,
                )
        }),
{
    law_closed_connection_is_forgotten(before.state, connection);
    let after = before.disconnect(connection);
    assert forall|c: ConnectionId| c != connection implies after.connections.contains_key(c)
        == before.connections.contains_key(c) && #[trigger] after.connections[c]
        == before.connections[c] by {}
}

/// The set holds the topics that a peer is subscribed to, on all its
/// connections together.
pub open spec fn are_topics_of(
    before: BehaviourModel,
    peer: PeerId,
    topics: Set<Seq<u8>>,
) -> bool {
    forall|t: Seq<u8>| #[trigger] topics.contains(t) <==> exists|c: ConnectionId|
        {
            &&& #[trigger] before.connections.contains_key(c)
            &&& before.connections[c].peer_id == peer
            &&& before.connections[c].hub.queues.contains_key(t)
        }
}

/// A subscription is taken up exactly if its connection is established and its
/// peer is subscribed to the topic already or to fewer topics than the limit.
/// Then its messages go to the sender, which the peer's other queues do not
/// feel, and the application is told. Past the limit the handler is told to
/// refuse it. From an unknown connection it changes nothing.
pub proof fn law_subscription_is_taken_up_within_the_limit(
    before: BehaviourModel,
    peer: PeerId,
    connection: ConnectionId,
    topic_id: Vec<u8>,
    sender: Sender<ObjectPieces>,
    after: BehaviourModel,
    topics: Set<Seq<u8>>,
)
    requires
        before.handles(peer, connection, Event::Subscribed { topic_id, sender }, after),
        are_topics_of(before, before.connections[connection].peer_id, topics),
    ensures
        ({
            let topic = topic_id@;
            let n = before.pending.len() as int;
            let was = before.connections[connection];
            let now = after.connections[connection];
            &&& after.state == before.state
            &&& after.subscribed == before.subscribed
            &&& after.config == before.config
            &&& before.pending.is_prefix_of(after.pending)
            &&& forall|c: ConnectionId| after.connections.contains_key(c)
                == before.connections.contains_key(c) && (c != connection
                ==> #[trigger] after.connections[c] == before.connections[c])
            &&& if !before.connections.contains_key(connection) {
                after == before
            } else if topics.contains(topic) || topics.len() < before.config.max_topic_subscription {
                &&& now.peer_id == was.peer_id
                &&& now.hub.limit == was.hub.limit
                &&& now.hub.counter == was.hub.counter
                &&& now.hub.balance == was.hub.balance
                &&& now.hub.queues.contains_key(topic)
                &&& now.hub.queues[topic].messages.len() == messages_queued(sender).len()
                &&& now.hub.queues[topic].limited == channel_limit(sender) is Some
                &&& now.hub.queues[topic].closes == closed_at_some_moment(sender)
                &&& forall|t: Seq<u8>| t != topic ==> now.hub.queues.contains_key(t)
                    == was.hub.queues.contains_key(t) && #[trigger] now.hub.queues[t]
                    == was.hub.queues[t]
                &&& after.pending.len() == n + 1
                &&& after.pending[n] == CommandModel::GenerateEvent(
                    EventModel::Subscribed { peer_id: peer, topic_id: topic },
                )
            } else {
                &&& now == was
                &&& after.pending.len() == n + 1
                &&& after.pending[n] == CommandModel::NotifyHandler {
                    peer_id: was.peer_id,
                    connection_id: connection,
                    event: HandlerInModel::Refuse { topic_id: topic },
                }
            }
        }),
{
    let known = peer_topics(before.connections, before.connections[connection].peer_id);
    assert forall|t: Seq<u8>| known.contains(t) == topics.contains(t) by {
        let peer_id = before.connections[connection].peer_id;
        if known.contains(t) {
            assert(peer_subscribes(before.connections, peer_id, t));
            let c = choose|c: ConnectionId| #[trigger]
                before.connections.contains_key(c) && before.connections[c].peer_id == peer_id
                    && before.connections[c].hub.queues.contains_key(t);
            assert(before.connections.contains_key(c));
        }
        if topics.contains(t) {
            let c = choose|c: ConnectionId|
                {
                    &&& #[trigger] before.connections.contains_key(c)
                    &&& before.connections[c].peer_id == peer_id
                    &&& before.connections[c].hub.queues.contains_key(t)
                };
            assert(before.connections.contains_key(c));
            assert(peer_subscribes(before.connections, peer_id, t));
        }
    }
    assert(known =~= topics);
    if before.connections.contains_key(connection) {
        let now = after.connections[connection];
        let was = before.connections[connection];
        assert forall|t: Seq<u8>| t != topic_id@ implies now.hub.queues.contains_key(t)
            == was.hub.queues.contains_key(t) && #[trigger] now.hub.queues[t] == was.hub.queues[t] by {}
    }
}

/// Once the remote peer closed the stream of a topic, its connection has no
/// queue for it, and the application is told. Nothing else changes. A report
/// from an unknown connection changes nothing.
pub proof fn law_unsubscription_drops_the_queue(
    before: BehaviourModel,
    peer: PeerId,
    connection: ConnectionId,
    topic_id: Vec<u8>,
    after: BehaviourModel,
)
    requires
        before.handles(peer, connection, Event::Unsubscribed { topic_id }, after),
    ensures
        ({
            let topic = topic_id@;
            let n = before.pending.len() as int;
            let was = before.connections[connection];
            let now = after.connections[connection];
            &&& after.state == before.state
            &&& after.subscribed == before.subscribed
            &&& after.config == before.config
            &&& forall|c: ConnectionId| after.connections.contains_key(c)
                == before.connections.contains_key(c) && (c != connection
                ==> #[trigger] after.connections[c] == before.connections[c])
            &&& if !before.connections.contains_key(connection) {
                after == before
            } else {
                &&& now.peer_id == was.peer_id
                &&& now.hub.limit == was.hub.limit
                &&& now.hub.counter == was.hub.counter
                &&& now.hub.balance == was.hub.balance
                &&& !now.hub.queues.contains_key(topic)
                &&& forall|t: Seq<u8>| t != topic ==> now.hub.queues.contains_key(t)
                    == was.hub.queues.contains_key(t) && #[trigger] now.hub.queues[t]
                    == was.hub.queues[t]
                &&& before.pending.is_prefix_of(after.pending)
                &&& after.pending.len() == n + 1
                &&& after.pending[n] == CommandModel::GenerateEvent(
                    EventModel::Unsubscribed { peer_id: peer, topic_id: topic },
                )
            }
        }),
{
    if before.connections.contains_key(connection) {
        let now = after.connections[connection];
        let was = before.connections[connection];
        assert forall|t: Seq<u8>| t != topic_id@ implies now.hub.queues.contains_key(t)
            == was.hub.queues.contains_key(t) && #[trigger] now.hub.queues[t] == was.hub.queues[t] by {}
    }
}

/// What a connection handler reports of a received message is handled as a
/// received message.
pub proof fn law_received_report_is_a_received_message(
    before: BehaviourModel,
    peer: PeerId,
    connection: ConnectionId,
    received: Received,
    after: BehaviourModel,
)
    requires
        before.handles(peer, connection, Event::Received(received), after),
    ensures
        before.handles_received(peer, connection, received, after),
{
}

/// The handlers are for the same connection, with the same configuration and
/// the same limits.
pub open spec fn same_connection_of(before: HandlerModel, after: HandlerModel) -> bool {
    &&& after.config == before.config
    &&& after.message_limit == before.message_limit
    &&& after.stream_limit == before.stream_limit
    &&& after.counter == before.counter
    &&& after.open_streams == before.open_streams
}

/// A handler admits a topic exactly if the whitelist, where there is one, holds
/// it, and the peer is not subscribed to it on the connection. An admitted
/// subscription is held, and reported with its sender. One that is turned away
/// leaves no trace but its place.
pub proof fn law_handler_admits_what_is_allowed(
    handler: HandlerModel,
    topic: Seq<u8>,
    sender: Sender<ObjectPieces>,
)
    ensures
        handler.admits(topic) <==> (match handler.config.topic_whitelist {
            Some(allowed) => allowed.contains(topic),
            None => true,
        }) && !handler.subscriptions.contains(topic),
        ({
            let after = handler.subscribe(topic, sender);
            &&& same_connection_of(handler, after)
            &&& after.open_balance == handler.open_balance
            &&& forall|t: Seq<u8>| #[trigger] after.subscriptions.contains(t) <==> t == topic
                || handler.subscriptions.contains(t)
            &&& handler.pending.is_prefix_of(after.pending)
            &&& after.pending.len() == handler.pending.len() + 1
            &&& after.pending.last() matches HandlerCommandModel::NotifyBehaviour(event)
                && event matches handler::EventModel::Subscribed {
                topic_id,
                sender: handed,
            } && topic_id == topic && handed == sender
        }),
        ({
            let after = handler.turn_away();
            &&& same_connection_of(handler, after)
            &&& after.open_balance == handler.open_balance - 1
            &&& after.subscriptions == handler.subscriptions
            &&& after.pending == handler.pending
        }),
        ({
            let after = handler.refuse(topic);
            &&& same_connection_of(handler, after)
            &&& after.open_balance == handler.open_balance - (if handler.subscriptions.contains(
                topic,
            ) {
                1int
            } else {
                0
            })
            &&& forall|t: Seq<u8>| #[trigger] after.subscriptions.contains(t) <==> t != topic
                && handler.subscriptions.contains(t)
            &&& after.pending == handler.pending
        }),
{
}

/// A handler hands out what waits, first to last, before anything else. Where
/// nothing waits, it asks the receive streams, whose events go to the behaviour
/// as they are, and then the send streams, until none has ended. A stream that
/// the peer closed ends its subscription, gives its place back and is reported.
/// Nothing else that is polled changes the handler.
pub proof fn law_handler_poll(handler: HandlerModel, event: PollEvent)
    ensures
        ({
            let (after, step) = handler.poll(event);
            &&& same_connection_of(handler, after)
            &&& match event {
                PollEvent::Woken => {
                    &&& after.subscriptions == handler.subscriptions
                    &&& after.open_balance == handler.open_balance
                    &&& if handler.pending.len() == 0 {
                        step is PollOutbound && after.pending == handler.pending
                    } else {
                        &&& step matches PollStepModel::Deliver(command)
                        &&& handler.pending == seq![command] + after.pending
                    }
                },
                PollEvent::Outbound(polled) => {
                    &&& after == handler
                    &&& match polled {
                        Some(reported) => step matches PollStepModel::Deliver(
                            HandlerCommandModel::NotifyBehaviour(handed),
                        ) && handed == reported@,
                        None => step is PollInbound,
                    }
                },
                PollEvent::Inbound(Some(Some(Event::Unsubscribed { topic_id }))) => {
                    &&& step is PollInbound
                    &&& after.open_balance == handler.open_balance - 1
                    &&& forall|t: Seq<u8>| #[trigger] after.subscriptions.contains(t) <==> t
                        != topic_id@ && handler.subscriptions.contains(t)
                    &&& handler.pending.is_prefix_of(after.pending)
                    &&& after.pending.len() == handler.pending.len() + 1
                    &&& after.pending.last() matches HandlerCommandModel::NotifyBehaviour(handed)
                        && handed matches handler::EventModel::Unsubscribed {
                        topic_id: closed,
                    } && closed == topic_id@
                },
                PollEvent::Inbound(Some(_)) => after == handler && step is PollInbound,
                PollEvent::Inbound(None) => after == handler && step is Wait,
            }
        }),
{
    if event is Woken && handler.pending.len() > 0 {
        let (after, step) = handler.poll(event);
        assert(handler.pending =~= seq![handler.pending[0]] + after.pending);
    }
}

/// A new handler has the limits of the configuration, nobody subscribed, and
/// nothing to hand out.
pub proof fn law_new_handler_has_the_configured_limits(
    handler: HandlerModel,
    config: ConfigModel,
    counter: Arc<AtomicUsize>,
)
    requires
        handler.fresh(config, counter),
    ensures
        handler.config == config,
        handler.message_limit == config.max_protobuf_size,
        handler.stream_limit == config.max_topic_subscription,
        handler.counter == counter,
        handler.open_balance == 0,
        forall|t: Seq<u8>| !(#[trigger] handler.subscriptions.contains(t)),
        handler.pending.len() == 0,
{
}

} // verus!
