//! What holds of the protocol as a whole, over several calls or in every
//! state.

use std::sync::atomic::AtomicUsize;
use std::sync::Arc;

use async_channel::{Receiver, Sender};
use libp2p::swarm::ConnectionId;
use libp2p::PeerId;
use vstd::prelude::*;

use crate::behaviour::{
    lemma_no_more_topics, lemma_one_more_topic, message_for, peer_topics, sent, sent_count,
    topics_limited, was_full, BehaviourModel, CommandModel, ConnectionModel, EventModel,
    PublishModel, Run, Visit,
};
use crate::cache::{
    bounded, entry_at, holds, lemma_position, lemma_put, lemma_used, lemma_without, lookup, position,
    put, without,
};
use crate::counter::{lowered, raised_below, raised_past};
use crate::handler::{Event, HandlerInModel, HandlerModel, PollEvent, Received};
use crate::outside::{lowered_at_some_moment, raised_at_some_moment};
use crate::protocol::{
    InboundProtocol, ObjectPieces, ObjectPiecesModel, OutboundProtocol, PieceCodec,
    SubscriptionCodec, TopicSubscription,
};
use crate::shard::{
    bytes_model, Action, Error, PeerViewModel, ReceivedActionModel, ReconcileActionModel,
    RemoteViewModel, ShardBox, StateModel,
};
use crate::substream::{
    inbound_step, outbound_step, takes_message, HubModel, InboundEvent, InboundState, InboundStepModel,
    OutboundEvent, OutboundState, OutboundStepModel, SendError,
};

verus! {

/// A published object can be read back: it is what its identifier leads to.
/// Storing it leaves the other topics and what is tracked of the connections
/// as they were, and keeps every cache bounded.
pub proof fn law_stored_object_is_cached(state: StateModel, topic: Seq<u8>, shard: ShardBox)
    requires
        state.bounded(),
    ensures
        state.store(topic, shard).cached(topic, shard.id()) == Some(shard),
        state.store(topic, shard).bounded(),
        state.store(topic, shard).remote == state.remote,
        forall|other: Seq<u8>, object_id: Seq<u8>| other != topic ==> #[trigger] state.store(
            topic,
            shard,
        ).cached(other, object_id) == state.cached(other, object_id),
{
    assert(bounded(state.entries(topic), state.capacity));
    lemma_put(state.entries(topic), state.capacity, shard.id(), shard);
}

/// Storing an object drops another one only if the cache of the topic is full
/// and does not hold the object yet, and then only the one that was used
/// longest ago.
pub proof fn law_least_recently_used_is_dropped(
    state: StateModel,
    topic: Seq<u8>,
    shard: ShardBox,
    other: Seq<u8>,
)
    requires
        state.bounded(),
        other != shard.id(),
        state.cached(topic, other) is Some,
    ensures
        state.store(topic, shard).cached(topic, other) == (if state.entries(topic).len()
            == state.capacity && state.cached(topic, shard.id()) is None
            && state.entries(topic).last().0 == other {
            None
        } else {
            state.cached(topic, other)
        }),
{
    let entries = state.entries(topic);
    let capacity = state.capacity;
    let id = shard.id();
    let rest = without(entries, id);
    let all = seq![(id, shard)] + rest;
    let after = put(entries, capacity, id, shard);
    lemma_without(entries, capacity, id);
    lemma_put(entries, capacity, id, shard);
    assert(lookup(rest, other) == lookup(entries, other));
    let p = position(rest, other);
    assert(entry_at(rest, other, p));
    lemma_position(rest, capacity, other, p);
    if p + 1 < capacity {
        assert(entry_at(after, other, p + 1));
        if entries.len() == capacity && !holds(entries, id) && entries.last().0 == other {
            assert(entry_at(entries, other, entries.len() - 1));
            lemma_position(entries, capacity, other, entries.len() - 1);
        }
    } else {
        assert(rest.len() == capacity);
        assert(rest == entries);
        assert(entries.last().0 == other);
        assert forall|i: int| !entry_at(after, other, i) by {
            if entry_at(after, other, i) {
                assert(all[i] == after[i]);
                assert(entry_at(entries, other, i - 1));
                lemma_position(entries, capacity, other, i - 1);
            }
        }
    }
}

/// A use of an object keeps every object cached, and every cache bounded.
pub proof fn law_use_keeps_objects(state: StateModel, topic: Seq<u8>, object_id: Seq<u8>)
    requires
        state.bounded(),
    ensures
        state.touch(topic, object_id).bounded(),
        forall|t: Seq<u8>, o: Seq<u8>| #[trigger] state.touch(topic, object_id).cached(t, o)
            == state.cached(t, o),
{
    if state.local.contains_key(topic) {
        lemma_used(state.local[topic], state.capacity, object_id);
    }
}

/// Tracking a view sets that view and no other, and touches no cache.
pub proof fn lemma_track(
    state: StateModel,
    topic: Seq<u8>,
    connection: ConnectionId,
    object_id: Seq<u8>,
    view: RemoteViewModel,
)
    ensures
        state.track(topic, connection, object_id, view).known(topic, connection, object_id) == view,
        state.track(topic, connection, object_id, view).local == state.local,
        forall|t: Seq<u8>, c: ConnectionId, o: Seq<u8>|
            (t, c, o) != (topic, connection, object_id) ==> #[trigger] state.track(
                topic,
                connection,
                object_id,
                view,
            ).known(t, c, o) == state.known(t, c, o),
{
}

/// Reconciling an object with a connection changes what is tracked of that
/// connection for that object, and nothing else that is tracked. Every object
/// stays cached and every cache stays bounded.
pub proof fn law_reconcile_is_local(
    state: StateModel,
    topic: Seq<u8>,
    connection: ConnectionId,
    peer: PeerId,
    object_id: Seq<u8>,
    r: Result<Option<ReconcileActionModel>, Error>,
    after: StateModel,
)
    requires
        state.bounded(),
        state.reconciles(topic, connection, peer, object_id, r, after),
    ensures
        after.bounded(),
        forall|t: Seq<u8>, o: Seq<u8>| #[trigger] after.cached(t, o) == state.cached(t, o),
        forall|t: Seq<u8>, c: ConnectionId, o: Seq<u8>|
            (t, c, o) != (topic, connection, object_id) ==> #[trigger] after.known(t, c, o)
                == state.known(t, c, o),
{
    law_use_keeps_objects(state, topic, object_id);
    let touched = state.touch(topic, object_id);
    if state.cached(topic, object_id) is Some {
        let view = after.known(topic, connection, object_id);
        assert forall|v: RemoteViewModel|
            after == #[trigger] touched.track(topic, connection, object_id, v) implies view == v by {
            lemma_track(touched, topic, connection, object_id, v);
        }
        assert(after == touched.track(topic, connection, object_id, view));
        lemma_track(touched, topic, connection, object_id, view);
        assert forall|t: Seq<u8>, o: Seq<u8>| #[trigger] after.cached(t, o) == state.cached(t, o) by {
            assert(touched.cached(t, o) == state.cached(t, o));
        }
    }
}

/// Reconciling a received piece changes what is tracked of its connection for
/// its object, and nothing else that is tracked. Every object stays cached and
/// every cache stays bounded.
pub proof fn law_receive_is_local(
    state: StateModel,
    connection: ConnectionId,
    peer: PeerId,
    received: Received,
    r: Result<Option<ReceivedActionModel>, Error>,
    after: StateModel,
)
    requires
        state.bounded(),
        state.receives(connection, peer, received, r, after),
    ensures
        after.bounded(),
        forall|t: Seq<u8>, o: Seq<u8>| #[trigger] after.cached(t, o) == state.cached(t, o),
        forall|t: Seq<u8>, c: ConnectionId, o: Seq<u8>|
            (t, c, o) != (received.topic_id@, connection, received.object_id@) ==> #[trigger] after.known(t, c, o)
                == state.known(t, c, o),
{
    let topic = received.topic_id@;
    let object_id = received.object_id@;
    law_use_keeps_objects(state, topic, object_id);
    let touched = state.touch(topic, object_id);
    let view = after.known(topic, connection, object_id);
    assert forall|v: RemoteViewModel|
        after == #[trigger] touched.track(topic, connection, object_id, v) implies view == v by {
        lemma_track(touched, topic, connection, object_id, v);
    }
    assert forall|v: RemoteViewModel|
        after == #[trigger] state.track(topic, connection, object_id, v) implies view == v by {
        lemma_track(state, topic, connection, object_id, v);
    }
    lemma_track(touched, topic, connection, object_id, view);
    lemma_track(state, topic, connection, object_id, view);
    assert forall|t: Seq<u8>, o: Seq<u8>| #[trigger] after.cached(t, o) == state.cached(t, o) by {
        assert(touched.cached(t, o) == state.cached(t, o));
    }
}

/// An object that is not cached is never sent, and reconciling it changes
/// nothing.
pub proof fn law_uncached_object_is_not_sent(
    state: StateModel,
    topic: Seq<u8>,
    connection: ConnectionId,
    peer: PeerId,
    object_id: Seq<u8>,
    r: Result<Option<ReconcileActionModel>, Error>,
    after: StateModel,
)
    requires
        state.reconciles(topic, connection, peer, object_id, r, after),
        state.cached(topic, object_id) is None,
    ensures
        r == Ok::<Option<ReconcileActionModel>, Error>(None),
        after == state,
{
}

/// A peer that is up to date is sent nothing: the application has no data for
/// it, and what the local node advertises is no news to the metadata that the
/// peer has seen.
pub proof fn law_up_to_date_peer_is_sent_nothing(
    state: StateModel,
    topic: Seq<u8>,
    connection: ConnectionId,
    peer: PeerId,
    object_id: Seq<u8>,
    r: Result<Option<ReconcileActionModel>, Error>,
    after: StateModel,
)
    requires
        state.reconciles(topic, connection, peer, object_id, r, after),
        state.cached(topic, object_id) matches Some(shard) && ({
            let known = state.known(topic, connection, object_id);
            &&& forall|outcome: Result<Action, Error>| #[trigger]
                shard.acts(peer, connection, known.peer_bytes(), outcome) ==> (outcome matches Ok(
                    action,
                ) && action.send is None)
            &&& known.our_metadata matches Some(seen) && forall|
                published: Seq<u8>,
                bytes: Seq<u8>,
                outcome: Result<bool, Error>,
            |
                shard.advertises(published) && #[trigger] seen.accepts(published, bytes, outcome)
                    ==> outcome == Ok::<bool, Error>(false)
        }),
    ensures
        r == Ok::<Option<ReconcileActionModel>, Error>(None),
{
}

/// Once an object was reconciled with a connection without an error, the local
/// node remembers what the peer has seen of its metadata.
pub proof fn law_reconcile_remembers_what_was_shown(
    state: StateModel,
    topic: Seq<u8>,
    connection: ConnectionId,
    peer: PeerId,
    object_id: Seq<u8>,
    r: Result<Option<ReconcileActionModel>, Error>,
    after: StateModel,
)
    requires
        state.reconciles(topic, connection, peer, object_id, r, after),
        state.cached(topic, object_id) is Some,
        r is Ok,
    ensures
        after.known(topic, connection, object_id).our_metadata is Some,
{
    let touched = state.touch(topic, object_id);
    assert forall|v: RemoteViewModel|
        after == #[trigger] touched.track(topic, connection, object_id, v) implies after.known(
        topic,
        connection,
        object_id,
    ) == v by {
        lemma_track(touched, topic, connection, object_id, v);
    }
}

/// Metadata that a peer sends for a second time, without pieces, is ignored:
/// nothing is to be done, and what is known of the peer stays.
pub proof fn law_repeated_metadata_is_ignored(
    state: StateModel,
    connection: ConnectionId,
    peer: PeerId,
    received: Received,
    metadata: Seq<u8>,
    r: Result<Option<ReceivedActionModel>, Error>,
    after: StateModel,
)
    requires
        state.receives(connection, peer, received, r, after),
        bytes_model(received.metadata) == Some(metadata),
        received.pieces is None,
        state.known(received.topic_id@, connection, received.object_id@).peer_metadata == Some(
            PeerViewModel::Remote(metadata),
        ),
    ensures
        r == Ok::<Option<ReceivedActionModel>, Error>(None),
        after.known(received.topic_id@, connection, received.object_id@) == state.known(
            received.topic_id@,
            connection,
            received.object_id@,
        ),
        after.local == state.local,
{
    let topic = received.topic_id@;
    let object_id = received.object_id@;
    lemma_track(state, topic, connection, object_id, state.known(topic, connection, object_id));
}

/// A message with neither metadata nor pieces is ignored.
pub proof fn law_empty_message_is_ignored(
    state: StateModel,
    connection: ConnectionId,
    peer: PeerId,
    received: Received,
    r: Result<Option<ReceivedActionModel>, Error>,
    after: StateModel,
)
    requires
        state.receives(connection, peer, received, r, after),
        received.metadata is None,
        received.pieces is None,
    ensures
        r == Ok::<Option<ReceivedActionModel>, Error>(None),
        after.known(received.topic_id@, connection, received.object_id@) == state.known(
            received.topic_id@,
            connection,
            received.object_id@,
        ),
        after.local == state.local,
{
    let topic = received.topic_id@;
    let object_id = received.object_id@;
    lemma_track(state, topic, connection, object_id, state.known(topic, connection, object_id));
}

/// A piece of an object that the local node does not hold goes to the
/// application as it is, and is not answered. Metadata of the peer alone does
/// so where it is the first that the peer sends.
pub proof fn law_unknown_object_is_surfaced(
    state: StateModel,
    connection: ConnectionId,
    peer: PeerId,
    received: Received,
    r: Result<Option<ReceivedActionModel>, Error>,
    after: StateModel,
)
    requires
        state.receives(connection, peer, received, r, after),
        state.cached(received.topic_id@, received.object_id@) is None,
        state.known(received.topic_id@, connection, received.object_id@).peer_metadata is None,
        received.pieces is Some || received.metadata is Some,
    ensures
        r == Ok::<Option<ReceivedActionModel>, Error>(
            Some(ReceivedActionModel { emit: true, send: None }),
        ),
{
}

/// Of an unsubscribed topic nothing is cached and nothing is tracked any more.
/// The other topics stay as they are.
pub proof fn law_unsubscribed_topic_is_forgotten(state: StateModel, topic: Seq<u8>)
    ensures
        forall|o: Seq<u8>| #[trigger] state.forget_topic(topic).cached(topic, o) is None,
        forall|c: ConnectionId, o: Seq<u8>| #[trigger] state.forget_topic(topic).known(topic, c, o)
            == RemoteViewModel::unknown(),
        forall|t: Seq<u8>, o: Seq<u8>| t != topic ==> #[trigger] state.forget_topic(topic).cached(t, o)
            == state.cached(t, o),
        forall|t: Seq<u8>, c: ConnectionId, o: Seq<u8>| t != topic ==> #[trigger] state.forget_topic(
            topic,
        ).known(t, c, o) == state.known(t, c, o),
        state.bounded() ==> state.forget_topic(topic).bounded(),
{
}

/// Of a closed connection nothing is tracked any more. The other connections
/// and the caches stay as they are.
pub proof fn law_closed_connection_is_forgotten(state: StateModel, connection: ConnectionId)
    ensures
        forall|t: Seq<u8>, o: Seq<u8>| #[trigger] state.forget_connection(connection).known(
            t,
            connection,
            o,
        ) == RemoteViewModel::unknown(),
        forall|t: Seq<u8>, c: ConnectionId, o: Seq<u8>| c != connection
            ==> #[trigger] state.forget_connection(connection).known(t, c, o) == state.known(t, c, o),
        state.forget_connection(connection).local == state.local,
        forall|t: Seq<u8>| #[trigger] state.forget_connection(connection).remote.contains_key(t) ==> {
            &&& !state.forget_connection(connection).remote[t].contains_key(connection)
            &&& !state.forget_connection(connection).remote[t].is_empty()
        },
{
    let after = state.forget_connection(connection);
    assert forall|t: Seq<u8>, c: ConnectionId, o: Seq<u8>| c != connection implies #[trigger] after.known(
        t,
        c,
        o,
    ) == state.known(t, c, o) by {
        if state.remote.contains_key(t) && state.remote[t].contains_key(c) {
            assert(state.remote[t].remove(connection).dom().contains(c));
        }
    }
}

/// The connection went on without a message, or with one more message about
/// the object, queued for the topic and counted. Gossip carries no pieces.
pub open spec fn at_most_one_message(
    before: ConnectionModel,
    after: ConnectionModel,
    topic: Seq<u8>,
    object_id: Seq<u8>,
    with_pieces: bool,
) -> bool {
    after == before || one_message(before, after, topic, object_id, with_pieces)
}

/// The connection went on with one more message about the object, queued for
/// the topic and counted. Gossip carries no pieces.
pub open spec fn one_message(
    before: ConnectionModel,
    after: ConnectionModel,
    topic: Seq<u8>,
    object_id: Seq<u8>,
    with_pieces: bool,
) -> bool {
    exists|message: ObjectPiecesModel| {
        &&& message.object_id == object_id
        &&& !with_pieces ==> message.pieces is None
        &&& before.hub.queues.contains_key(topic)
        &&& before.hub.limit > 0
        &&& after == ConnectionModel { hub: #[trigger] before.hub.queue(topic, message), ..before }
    }
}

/// A message changes nothing about who is subscribed to what.
proof fn lemma_messages_keep_topics(
    before: BehaviourModel,
    after: BehaviourModel,
    topic: Seq<u8>,
    object_id: Seq<u8>,
)
    requires
        before.consistent(),
        before.same_setting(after),
        forall|c: ConnectionId|
            before.connections.contains_key(c) ==> at_most_one_message(
                before.connections[c],
                #[trigger] after.connections[c],
                topic,
                object_id,
                true,
            ),
    ensures
        topics_limited(after.connections, after.config.max_topic_subscription),
{
    assert forall|c: ConnectionId, t: Seq<u8>|
        #![trigger after.connections[c].hub.queues.contains_key(t)]
        after.connections.contains_key(c) && after.connections[c].hub.queues.contains_key(t) implies {
        &&& before.connections.contains_key(c)
        &&& before.connections[c].hub.queues.contains_key(t)
        &&& before.connections[c].peer_id == after.connections[c].peer_id
    } by {
        assert(before.connections.contains_key(c));
    }
    lemma_no_more_topics(
        before.connections,
        after.connections,
        before.config.max_topic_subscription,
    );
}

/// The command that reports a full queue to the application.
pub open spec fn full_queue(peer: PeerId) -> CommandModel {
    CommandModel::GenerateEvent(EventModel::FullQueue(peer))
}

/// What one visit does to the behaviour.
pub proof fn lemma_visit(
    before: BehaviourModel,
    topic: Seq<u8>,
    object_id: Seq<u8>,
    with_pieces: bool,
    connection: ConnectionId,
    visit: Visit,
    after: BehaviourModel,
)
    requires
        before.visits(topic, object_id, with_pieces, connection, visit, after),
        before.connections.contains_key(connection),
    ensures
        before.same_setting(after),
        forall|c: ConnectionId| c != connection && before.connections.contains_key(c)
            ==> #[trigger] after.connections[c] == before.connections[c],
        sent(visit) ==> one_message(
            before.connections[connection],
            after.connections[connection],
            topic,
            object_id,
            with_pieces,
        ),
        !sent(visit) ==> after.connections[connection] == before.connections[connection],
        visit is Dispatched && before.connections[connection].hub.has_room(topic) ==> sent(visit),
        was_full(visit) ==> after.pending.contains(
            full_queue(before.connections[connection].peer_id),
        ),
        before.state.bounded() ==> after.state.bounded() && forall|t: Seq<u8>, o: Seq<u8>| #[trigger]
            after.state.cached(t, o) == before.state.cached(t, o),
        before.state.bounded() ==> forall|t: Seq<u8>, c: ConnectionId, o: Seq<u8>|
            c != connection ==> #[trigger] after.state.known(t, c, o) == before.state.known(t, c, o),
        before.pending.is_prefix_of(after.pending),
{
    reveal(BehaviourModel::visits);
    let peer = before.connections[connection].peer_id;
    let r = match visit {
        Visit::NoData => Ok(None),
        Visit::Invalid(reason) => Err(reason),
        Visit::Withheld(action) => Ok(Some(action)),
        Visit::Dispatched(action, _) => Ok(Some(action)),
    };
    assert(before.state.reconciles(topic, connection, peer, object_id, r, after.state));
    if before.state.bounded() {
        law_reconcile_is_local(
            before.state,
            topic,
            connection,
            peer,
            object_id,
            r,
            after.state,
        );
    }
    assert(after.connections.dom() =~= before.connections.dom());
    if was_full(visit) {
        assert(after.pending[before.pending.len() as int] == full_queue(peer));
    }
    if visit is Dispatched {
        let action = visit->Dispatched_0;
        let outcome = visit->Dispatched_1;
        let hub = before.connections[connection].hub;
        let message = message_for(object_id, action, with_pieces);
        if outcome is Ok {
            assert(after.connections[connection] == ConnectionModel {
                hub: hub.queue(topic, message),
                ..before.connections[connection]
            });
        }
    }
}

/// What the first visits of a run do to the behaviour.
pub proof fn lemma_run(
    before: BehaviourModel,
    topic: Seq<u8>,
    object_id: Seq<u8>,
    with_pieces: bool,
    order: Seq<ConnectionId>,
    run: Run,
    after: BehaviourModel,
    n: int,
)
    requires
        before.goes_through(topic, object_id, with_pieces, order, run, after),
        run.visits.len() <= order.len(),
        order.no_duplicates(),
        forall|i: int| 0 <= i < order.len() ==> before.connections.contains_key(#[trigger] order[i]),
        0 <= n <= run.visits.len(),
    ensures
        before.same_setting(run.models[n]),
        before.pending.is_prefix_of(run.models[n].pending),
        forall|c: ConnectionId|
            before.connections.contains_key(c) && !order.take(n).contains(c)
                ==> #[trigger] run.models[n].connections[c] == before.connections[c],
        forall|i: int|
            0 <= i < n ==> {
                let c = #[trigger] order[i];
                &&& sent(run.visits[i]) ==> one_message(
                    before.connections[c],
                    run.models[n].connections[c],
                    topic,
                    object_id,
                    with_pieces,
                )
                &&& !sent(run.visits[i]) ==> run.models[n].connections[c] == before.connections[c]
                &&& run.visits[i] is Dispatched && before.connections[c].hub.has_room(topic)
                    ==> sent(run.visits[i])
                &&& was_full(run.visits[i]) ==> run.models[n].pending.contains(
                    full_queue(before.connections[c].peer_id),
                )
            },
        before.state.bounded() ==> run.models[n].state.bounded() && forall|t: Seq<u8>, o: Seq<u8>|
            #[trigger] run.models[n].state.cached(t, o) == before.state.cached(t, o),
        before.state.bounded() ==> forall|t: Seq<u8>, c: ConnectionId, o: Seq<u8>|
            !order.take(n).contains(c) ==> #[trigger] run.models[n].state.known(t, c, o)
                == before.state.known(t, c, o),
    decreases n,
{
    reveal(BehaviourModel::goes_through);
    if n > 0 {
        lemma_run(before, topic, object_id, with_pieces, order, run, after, n - 1);
        let m = run.models[n - 1];
        let next = run.models[n];
        let last = order[n - 1];
        assert(m.visits(topic, object_id, with_pieces, last, run.visits[n - 1], next));
        lemma_visit(m, topic, object_id, with_pieces, last, run.visits[n - 1], next);
        assert(!order.take(n - 1).contains(last));
        assert(m.connections[last] == before.connections[last]);
        assert forall|c: ConnectionId|
            before.connections.contains_key(c) && !order.take(n).contains(c) implies
            #[trigger] next.connections[c] == before.connections[c] by {
            assert(order.take(n)[n - 1] == last);
            assert(c != last);
            assert(!order.take(n - 1).contains(c)) by {
                if order.take(n - 1).contains(c) {
                    let j = order.take(n - 1).index_of(c);
                    assert(order.take(n)[j] == c);
                }
            }
            assert(m.connections[c] == before.connections[c]);
        }
        assert forall|i: int| 0 <= i < n implies {
            let c = #[trigger] order[i];
            &&& sent(run.visits[i]) ==> one_message(
                before.connections[c],
                next.connections[c],
                topic,
                object_id,
                with_pieces,
            )
            &&& !sent(run.visits[i]) ==> next.connections[c] == before.connections[c]
            &&& run.visits[i] is Dispatched && before.connections[c].hub.has_room(topic) ==> sent(
                run.visits[i],
            )
            &&& was_full(run.visits[i]) ==> next.pending.contains(
                full_queue(before.connections[c].peer_id),
            )
        } by {
            if i < n - 1 {
                assert(order[i] != last);
                assert(next.connections[order[i]] == m.connections[order[i]]);
                if was_full(run.visits[i]) {
                    let command = full_queue(before.connections[order[i]].peer_id);
                    let k = m.pending.index_of(command);
                    assert(next.pending[k] == command);
                }
            }
        }
        if before.state.bounded() {
            assert forall|t: Seq<u8>, o: Seq<u8>| #[trigger] next.state.cached(t, o)
                == before.state.cached(t, o) by {
                assert(m.state.cached(t, o) == before.state.cached(t, o));
            }
            assert forall|t: Seq<u8>, c: ConnectionId, o: Seq<u8>| !order.take(n).contains(c) implies
                #[trigger] next.state.known(t, c, o) == before.state.known(t, c, o) by {
                assert(order.take(n)[n - 1] == last);
                assert(!order.take(n - 1).contains(c)) by {
                    if order.take(n - 1).contains(c) {
                        let j = order.take(n - 1).index_of(c);
                        assert(order.take(n)[j] == c);
                    }
                }
                assert(m.state.known(t, c, o) == before.state.known(t, c, o));
            }
        }
    }
}

/// Disseminating an object sends no more messages than the fanout. Each
/// connection gets at most one, about that object and for that topic, and
/// exactly those get one on which the dispatch succeeded. Connections that
/// are not in the order get none. Unless as many messages as the fanout went
/// out, every connection in the order was visited. Where there was something to
/// send and room for it, it was sent, and every full queue is reported. Every
/// object stays cached, and no command that waits is lost.
pub proof fn law_dissemination_is_bounded(
    before: BehaviourModel,
    topic: Seq<u8>,
    object_id: Seq<u8>,
    with_pieces: bool,
    order: Seq<ConnectionId>,
    fanout: nat,
    run: Run,
    after: BehaviourModel,
)
    requires
        before.disseminates(topic, object_id, with_pieces, order, fanout, run, after),
        order.no_duplicates(),
        forall|i: int| 0 <= i < order.len() ==> before.connections.contains_key(#[trigger] order[i]),
    ensures
        sent_count(run.visits) <= fanout,
        run.visits.len() == order.len() || sent_count(run.visits) == fanout,
        forall|i: int|
            0 <= i < run.visits.len() && run.visits[i] is Dispatched && before.connections[#[trigger] order[i]].hub.has_room(
                topic,
            ) ==> sent(run.visits[i]),
        forall|i: int|
            0 <= i < run.visits.len() && was_full(run.visits[i]) ==> after.pending.contains(
                full_queue(before.connections[#[trigger] order[i]].peer_id),
            ),
        before.same_setting(after),
        before.pending.is_prefix_of(after.pending),
        forall|c: ConnectionId|
            before.connections.contains_key(c) ==> at_most_one_message(
                before.connections[c],
                #[trigger] after.connections[c],
                topic,
                object_id,
                with_pieces,
            ),
        forall|c: ConnectionId|
            before.connections.contains_key(c) && !order.contains(c)
                ==> #[trigger] after.connections[c] == before.connections[c],
        forall|i: int|
            0 <= i < run.visits.len() && sent(run.visits[i]) ==> one_message(
                before.connections[#[trigger] order[i]],
                after.connections[order[i]],
                topic,
                object_id,
                with_pieces,
            ),
        forall|i: int|
            0 <= i < order.len() && !(i < run.visits.len() && sent(run.visits[i]))
                ==> after.connections[#[trigger] order[i]] == before.connections[order[i]],
        before.state.bounded() ==> after.state.bounded() && forall|t: Seq<u8>, o: Seq<u8>| #[trigger]
            after.state.cached(t, o) == before.state.cached(t, o),
{
    let n = run.visits.len() as int;
    lemma_run(before, topic, object_id, with_pieces, order, run, after, n);
    assert(run.models[n] == after) by {
        reveal(BehaviourModel::goes_through);
    }
    assert forall|i: int|
        0 <= i < order.len() && !(i < run.visits.len() && sent(run.visits[i])) implies
        after.connections[#[trigger] order[i]] == before.connections[order[i]] by {
        if i >= n {
            assert(!order.take(n).contains(order[i]));
        }
    }
    assert forall|c: ConnectionId| before.connections.contains_key(c) && !order.contains(c) implies
        #[trigger] after.connections[c] == before.connections[c] by {
        assert(!order.take(n).contains(c)) by {
            if order.take(n).contains(c) {
                let j = order.take(n).index_of(c);
                assert(order[j] == c);
            }
        }
    }
    assert forall|c: ConnectionId| before.connections.contains_key(c) implies at_most_one_message(
        before.connections[c],
        #[trigger] after.connections[c],
        topic,
        object_id,
        with_pieces,
    ) by {
        if order.contains(c) {
            let i = order.index_of(c);
            assert(order[i] == c);
        }
    }
}

/// A filter leaves out entries and adds none.
pub proof fn lemma_filter_distinct<A>(s: Seq<A>, kept: spec_fn(A) -> bool)
    requires
        s.no_duplicates(),
    ensures
        s.filter(kept).no_duplicates(),
        forall|a: A| #[trigger] s.filter(kept).contains(a) ==> s.contains(a) && kept(a),
    decreases s.len(),
{
    reveal(Seq::filter);
    if s.len() > 0 {
        let init = s.drop_last();
        lemma_filter_distinct(init, kept);
        assert forall|a: A| #[trigger] s.filter(kept).contains(a) implies s.contains(a) && kept(a) by {
            if init.filter(kept).contains(a) {
                let j = init.index_of(a);
                assert(s[j] == a);
            } else {
                let j = s.filter(kept).index_of(a);
                if j < init.filter(kept).len() {
                    assert(init.filter(kept)[j] == a);
                }
                assert(s[s.len() - 1] == a);
            }
        }
        assert(!init.filter(kept).contains(s.last())) by {
            if init.contains(s.last()) {
                let j = init.index_of(s.last());
                assert(s[j] == s[s.len() - 1]);
            }
        }
    }
}

/// Another order of distinct entries has distinct entries.
pub proof fn lemma_shuffled_distinct(listed: Seq<ConnectionId>, order: Seq<ConnectionId>)
    requires
        listed.no_duplicates(),
        order.to_multiset() == listed.to_multiset(),
    ensures
        order.no_duplicates(),
        order.len() == listed.len(),
        forall|c: ConnectionId| #[trigger] order.contains(c) <==> listed.contains(c),
{
    broadcast use vstd::seq_lib::group_to_multiset_ensures;
    listed.lemma_multiset_has_no_duplicates();
    order.lemma_multiset_has_no_duplicates_conv();
    assert(order.len() == order.to_multiset().len());
    assert(listed.len() == listed.to_multiset().len());
    assert forall|c: ConnectionId| #[trigger] order.contains(c) <==> listed.contains(c) by {
        assert(order.to_multiset().count(c) > 0 <==> order.contains(c));
        assert(listed.to_multiset().count(c) > 0 <==> listed.contains(c));
    }
}

/// Publishing sends to subscribers of the topic only, to each at most once,
/// and to no more than the publish fanout. Unless it sent as many, it visited
/// every subscriber. It sends wherever there is something to send and room for
/// it, and reports every full queue that it meets. It reports success exactly
/// if a message went out or there was nothing new to send. If it reports that
/// nothing was sent, it visited every subscriber and no connection has changed.
/// The object is cached either way.
pub proof fn law_publish(
    before: BehaviourModel,
    topic: Seq<u8>,
    shard: ShardBox,
    order: Seq<ConnectionId>,
    changed: bool,
    run: Run,
    r: PublishModel,
    after: BehaviourModel,
)
    requires
        before.consistent(),
        order.to_multiset() == before.subscribers(topic).to_multiset(),
        before.publishes(topic, shard, order, changed, run, r, after),
    ensures
        before.same_setting(after),
        after.consistent(),
        before.pending.is_prefix_of(after.pending),
        after.state.cached(topic, shard.id()) == Some(shard),
        changed ==> sent_count(run.visits) <= before.config.topic_config(topic).publishes_to()@,
        changed ==> run.visits.len() == order.len() || sent_count(run.visits) == before.config.topic_config(
            topic,
        ).publishes_to()@,
        changed ==> forall|i: int|
            0 <= i < run.visits.len() && run.visits[i] is Dispatched && before.connections[#[trigger] order[i]].hub.has_room(
                topic,
            ) ==> sent(run.visits[i]),
        changed ==> forall|i: int|
            0 <= i < run.visits.len() && was_full(run.visits[i]) ==> after.pending.contains(
                full_queue(before.connections[#[trigger] order[i]].peer_id),
            ),
        forall|c: ConnectionId|
            before.connections.contains_key(c) ==> at_most_one_message(
                before.connections[c],
                #[trigger] after.connections[c],
                topic,
                shard.id(),
                true,
            ),
        forall|c: ConnectionId|
            before.connections.contains_key(c) && !before.is_subscriber(c, topic)
                ==> #[trigger] after.connections[c] == before.connections[c],
        r == PublishModel::Published <==> !changed || exists|c: ConnectionId|
            before.is_subscriber(c, topic) && one_message(
                before.connections[c],
                #[trigger] after.connections[c],
                topic,
                shard.id(),
                true,
            ),
        r != PublishModel::Published ==> run.visits.len() == order.len(),
        r != PublishModel::Published ==> forall|c: ConnectionId|
            before.connections.contains_key(c) ==> #[trigger] after.connections[c]
                == before.connections[c],
{
    let stored = before.with_state(before.state.store(topic, shard));
    law_stored_object_is_cached(before.state, topic, shard);
    if changed {
        let fanout = before.config.topic_config(topic).publishes_to()@;
        let kept = |c: ConnectionId| before.is_subscriber(c, topic);
        lemma_filter_distinct(before.connection_ids, kept);
        lemma_shuffled_distinct(before.subscribers(topic), order);
        assert forall|i: int| 0 <= i < order.len() implies stored.connections.contains_key(
            #[trigger] order[i],
        ) && before.is_subscriber(order[i], topic) by {
            assert(order.contains(order[i]));
            assert(before.subscribers(topic).contains(order[i]));
        }
        law_dissemination_is_bounded(
            stored,
            topic,
            shard.id(),
            true,
            order,
            fanout,
            run,
            after,
        );
        lemma_messages_keep_topics(before, after, topic, shard.id());
        assert forall|c: ConnectionId|
            before.connections.contains_key(c) && !before.is_subscriber(c, topic) implies
            #[trigger] after.connections[c] == before.connections[c] by {
            if order.contains(c) {
                let i = order.index_of(c);
                assert(order[i] == c);
            }
        }
        lemma_sent(run.visits);
        if sent_count(run.visits) > 0 {
            let i = choose|i: int| 0 <= i < run.visits.len() && sent(#[trigger] run.visits[i]);
            let c = order[i];
            assert(one_message(
                before.connections[c],
                after.connections[c],
                topic,
                shard.id(),
                true,
            ));
        } else {
            assert forall|c: ConnectionId| before.connections.contains_key(c) implies
                #[trigger] after.connections[c] == before.connections[c] by {
                if order.contains(c) {
                    let i = order.index_of(c);
                    assert(order[i] == c);
                }
            }
            assert forall|c: ConnectionId| !(before.is_subscriber(c, topic) && one_message(
                before.connections[c],
                #[trigger] after.connections[c],
                topic,
                shard.id(),
                true,
            )) by {
                if before.is_subscriber(c, topic) {
                    assert(after.connections[c] == before.connections[c]);
                }
            }
        }
    }
}

/// A new object is published: where a subscriber has room, and the application
/// does not refuse to act for a peer that nothing is known of, publishing an
/// object that was never reconciled with that subscriber succeeds.
pub proof fn law_new_object_is_published(
    before: BehaviourModel,
    topic: Seq<u8>,
    shard: ShardBox,
    order: Seq<ConnectionId>,
    changed: bool,
    run: Run,
    r: PublishModel,
    after: BehaviourModel,
    connection: ConnectionId,
)
    requires
        before.consistent(),
        order.to_multiset() == before.subscribers(topic).to_multiset(),
        before.publishes(topic, shard, order, changed, run, r, after),
        before.is_subscriber(connection, topic),
        before.connections[connection].hub.has_room(topic),
        before.state.known(topic, connection, shard.id()) == RemoteViewModel::unknown(),
        forall|outcome: Result<Action, Error>| #[trigger]
            shard.acts(before.connections[connection].peer_id, connection, None, outcome)
                ==> outcome is Ok,
    ensures
        r == PublishModel::Published,
{
    law_publish(before, topic, shard, order, changed, run, r, after);
    if r != PublishModel::Published {
        let stored = before.with_state(before.state.store(topic, shard));
        law_stored_object_is_cached(before.state, topic, shard);
        let kept = |c: ConnectionId| before.is_subscriber(c, topic);
        lemma_filter_distinct(before.connection_ids, kept);
        lemma_filter_keeps(before.connection_ids, kept, connection);
        lemma_shuffled_distinct(before.subscribers(topic), order);
        assert(order.contains(connection));
        let i = order.index_of(connection);
        assert forall|j: int| 0 <= j < order.len() implies stored.connections.contains_key(
            #[trigger] order[j],
        ) by {
            assert(order.contains(order[j]));
            assert(before.subscribers(topic).contains(order[j]));
        }
        lemma_run(stored, topic, shard.id(), true, order, run, after, i);
        let here = run.models[i];
        assert(!order.take(i).contains(connection));
        assert(here.state.cached(topic, shard.id()) == Some(shard));
        assert(stored.state.known(topic, connection, shard.id()) == RemoteViewModel::unknown());
        assert(here.state.known(topic, connection, shard.id()) == RemoteViewModel::unknown());
        assert(here.connections[connection] == before.connections[connection]);
        let visit = run.visits[i];
        assert(here.visits(topic, shard.id(), true, connection, visit, run.models[i + 1])) by {
            reveal(BehaviourModel::goes_through);
        }
        reveal(BehaviourModel::visits);
        assert(visit is Dispatched);
        assert(sent(run.visits[i]));
        lemma_sent(run.visits);
    }
}

/// A filter keeps the entries that satisfy it.
pub proof fn lemma_filter_keeps<A>(s: Seq<A>, kept: spec_fn(A) -> bool, a: A)
    requires
        s.contains(a),
        kept(a),
    ensures
        s.filter(kept).contains(a),
    decreases s.len(),
{
    reveal(Seq::filter);
    let i = s.index_of(a);
    let init = s.drop_last();
    if i < init.len() {
        assert(init[i] == a);
        lemma_filter_keeps(init, kept, a);
        let j = init.filter(kept).index_of(a);
        assert(s.filter(kept)[j] == a);
    } else {
        assert(s.filter(kept)[s.filter(kept).len() - 1] == a);
    }
}

/// Some visit sent a message exactly if the number of those that did is not
/// zero.
proof fn lemma_sent(visits: Seq<Visit>)
    ensures
        sent_count(visits) > 0 <==> exists|i: int|
            0 <= i < visits.len() && sent(#[trigger] visits[i]),
    decreases visits.len(),
{
    if visits.len() > 0 {
        let init = visits.drop_last();
        lemma_sent(init);
        if sent(visits.last()) {
            assert(sent(visits[visits.len() - 1]));
        } else if sent_count(init) > 0 {
            let i = choose|i: int| 0 <= i < init.len() && sent(#[trigger] init[i]);
            assert(visits[i] == init[i]);
        } else {
            assert forall|i: int| 0 <= i < visits.len() implies !sent(#[trigger] visits[i]) by {
                if i < init.len() {
                    assert(init[i] == visits[i]);
                }
            }
        }
    }
}

/// Gossip goes to subscribers of the topic other than the connection that the
/// piece came from, to each at most once, and to no more than the gossip
/// fanout. Unless it went to as many, every one of them was visited. It goes
/// out wherever there is something to send and room for it, and every full
/// queue is reported. It carries no pieces. Every object stays cached, and no
/// command that waits is lost.
pub proof fn law_gossip(
    before: BehaviourModel,
    topic: Seq<u8>,
    object_id: Seq<u8>,
    from: ConnectionId,
    order: Seq<ConnectionId>,
    run: Run,
    after: BehaviourModel,
)
    requires
        before.consistent(),
        before.gossips(topic, object_id, from, order, run, after),
    ensures
        before.same_setting(after),
        after.consistent(),
        before.pending.is_prefix_of(after.pending),
        forall|t: Seq<u8>, o: Seq<u8>| #[trigger] after.state.cached(t, o) == before.state.cached(t, o),
        sent_count(run.visits) <= before.config.topic_config(topic).gossips_to()@,
        run.visits.len() == order.len() || sent_count(run.visits) == before.config.topic_config(
            topic,
        ).gossips_to()@,
        forall|i: int|
            0 <= i < run.visits.len() && run.visits[i] is Dispatched && before.connections[#[trigger] order[i]].hub.has_room(
                topic,
            ) ==> sent(run.visits[i]),
        forall|i: int|
            0 <= i < run.visits.len() && was_full(run.visits[i]) ==> after.pending.contains(
                full_queue(before.connections[#[trigger] order[i]].peer_id),
            ),
        forall|c: ConnectionId|
            before.connections.contains_key(c) ==> at_most_one_message(
                before.connections[c],
                #[trigger] after.connections[c],
                topic,
                object_id,
                false,
            ),
        forall|c: ConnectionId|
            before.connections.contains_key(c) && (c == from || !before.is_subscriber(c, topic))
                ==> #[trigger] after.connections[c] == before.connections[c],
{
    let kept = before.is_other_subscriber(topic, from);
    lemma_filter_distinct(before.connection_ids, kept);
    lemma_shuffled_distinct(before.other_subscribers(topic, from), order);
    assert forall|i: int| 0 <= i < order.len() implies before.connections.contains_key(
        #[trigger] order[i],
    ) && before.is_subscriber(order[i], topic) && order[i] != from by {
        assert(order.contains(order[i]));
        assert(before.other_subscribers(topic, from).contains(order[i]));
    }
    law_dissemination_is_bounded(
        before,
        topic,
        object_id,
        false,
        order,
        before.config.topic_config(topic).gossips_to()@,
        run,
        after,
    );
    lemma_messages_keep_topics(before, after, topic, object_id);
    assert forall|c: ConnectionId|
        before.connections.contains_key(c) && (c == from || !before.is_subscriber(c, topic)) implies
        #[trigger] after.connections[c] == before.connections[c] by {
        if order.contains(c) {
            let i = order.index_of(c);
            assert(order[i] == c);
        }
    }
}

/// What taking up a received piece does to the behaviour.
pub proof fn lemma_take_up(
    before: BehaviourModel,
    peer: PeerId,
    connection: ConnectionId,
    received: Received,
    outcome: Result<Option<ReceivedActionModel>, Error>,
    dispatched: Result<(), SendError>,
    gossip: bool,
    after: BehaviourModel,
)
    requires
        before.consistent(),
        before.takes_up(peer, connection, received, outcome, dispatched, gossip, after),
    ensures
        before.same_setting(after),
        after.consistent(),
        before.pending.is_prefix_of(after.pending),
        forall|t: Seq<u8>, o: Seq<u8>| #[trigger] after.state.cached(t, o) == before.state.cached(t, o),
        forall|c: ConnectionId|
            c != connection && before.connections.contains_key(c) ==> #[trigger] after.connections[c]
                == before.connections[c],
        before.connections.contains_key(connection) ==> at_most_one_message(
            before.connections[connection],
            after.connections[connection],
            received.topic_id@,
            received.object_id@,
            true,
        ),
        !before.is_subscriber(connection, received.topic_id@) ==> after.connections
            =~= before.connections,
        before.subscribed.contains_key(received.topic_id@) && (outcome matches Ok(Some(action))
            && action.emit) ==> after.pending.contains(
            CommandModel::GenerateEvent(
                EventModel::Received {
                    topic_id: received.topic_id@,
                    peer_id: peer,
                    received: received@,
                },
            ),
        ),
{
    if before.subscribed.contains_key(received.topic_id@) {
        law_receive_is_local(before.state, connection, peer, received, outcome, after.state);
        if let Ok(Some(action)) = outcome {
            let n = before.pending.len() as int;
            let delivered = before.with_state(after.state).deliver(peer, received@, action.emit);
            if action.emit {
                assert(delivered.pending[n] == after.pending[n]);
            }
            if action.send is Some && before.connections.contains_key(connection) {
                let send = action.send->0;
                let hub = before.connections[connection].hub;
                assert(delivered.answers(peer, connection, received@, send, dispatched, after));
                assert(after.connections.dom() =~= before.connections.dom());
                if dispatched is Ok {
                    let message = BehaviourModel::reply(received@, send);
                    assert(after.connections[connection] == ConnectionModel {
                        hub: hub.queue(received.topic_id@, message),
                        ..before.connections[connection]
                    });
                } else {
                    assert(after.connections[connection] == before.connections[connection]);
                }
            }
        }
        assert(before.same_setting(after));
        lemma_messages_keep_topics(before, after, received.topic_id@, received.object_id@);
    }
}

/// Handling a received piece sends at most one message on each connection,
/// about that object and for that topic. Nobody is sent pieces but the peer
/// that the piece came from, and nobody is sent anything who is not subscribed
/// to the topic. The connections and subscriptions stay, every object stays
/// cached, and no command that waits is lost.
pub proof fn law_received_piece(
    before: BehaviourModel,
    peer: PeerId,
    connection: ConnectionId,
    received: Received,
    after: BehaviourModel,
)
    requires
        before.consistent(),
        before.handles_received(peer, connection, received, after),
    ensures
        before.same_setting(after),
        after.consistent(),
        before.pending.is_prefix_of(after.pending),
        forall|t: Seq<u8>, o: Seq<u8>| #[trigger] after.state.cached(t, o) == before.state.cached(t, o),
        forall|c: ConnectionId|
            before.connections.contains_key(c) ==> at_most_one_message(
                before.connections[c],
                #[trigger] after.connections[c],
                received.topic_id@,
                received.object_id@,
                c == connection,
            ),
        forall|c: ConnectionId|
            before.connections.contains_key(c) && !before.is_subscriber(c, received.topic_id@)
                ==> #[trigger] after.connections[c] == before.connections[c],
{
    let topic = received.topic_id@;
    let object_id = received.object_id@;
    let (outcome, dispatched, gossip, middle) = choose|
        outcome: Result<Option<ReceivedActionModel>, Error>,
        dispatched: Result<(), SendError>,
        gossip: bool,
        middle: BehaviourModel,
    | {
        &&& #[trigger] before.takes_up(
            peer,
            connection,
            received,
            outcome,
            dispatched,
            gossip,
            middle,
        )
        &&& if gossip {
            exists|order: Seq<ConnectionId>, run: Run| #[trigger]
                middle.gossips(topic, object_id, connection, order, run, after)
        } else {
            after == middle
        }
    };
    lemma_take_up(before, peer, connection, received, outcome, dispatched, gossip, middle);
    if gossip {
        let (order, run) = choose|order: Seq<ConnectionId>, run: Run| #[trigger]
            middle.gossips(topic, object_id, connection, order, run, after);
        law_gossip(middle, topic, object_id, connection, order, run, after);
        assert forall|c: ConnectionId| before.connections.contains_key(c) implies
            at_most_one_message(
                before.connections[c],
                #[trigger] after.connections[c],
                topic,
                object_id,
                c == connection,
            ) by {
            if c != connection {
                assert(middle.connections[c] == before.connections[c]);
            }
        }
        assert forall|c: ConnectionId|
            before.connections.contains_key(c) && !before.is_subscriber(c, topic) implies
            #[trigger] after.connections[c] == before.connections[c] by {
            assert(middle.connections[c] == before.connections[c]);
            assert(!middle.is_subscriber(c, topic));
        }
    }
}

/// A piece of an object that the local node does not hold, from a peer that
/// nothing is known of, reaches the application, whatever else is sent and
/// gossiped on that occasion.
pub proof fn law_unknown_object_reaches_the_application(
    before: BehaviourModel,
    peer: PeerId,
    connection: ConnectionId,
    received: Received,
    after: BehaviourModel,
)
    requires
        before.consistent(),
        before.handles_received(peer, connection, received, after),
        before.subscribed.contains_key(received.topic_id@),
        before.state.cached(received.topic_id@, received.object_id@) is None,
        before.state.known(received.topic_id@, connection, received.object_id@).peer_metadata is None,
        received.pieces is Some || received.metadata is Some,
    ensures
        after.pending.contains(
            CommandModel::GenerateEvent(
                EventModel::Received {
                    topic_id: received.topic_id@,
                    peer_id: peer,
                    received: received@,
                },
            ),
        ),
{
    let topic = received.topic_id@;
    let object_id = received.object_id@;
    let (outcome, dispatched, gossip, middle) = choose|
        outcome: Result<Option<ReceivedActionModel>, Error>,
        dispatched: Result<(), SendError>,
        gossip: bool,
        middle: BehaviourModel,
    | {
        &&& #[trigger] before.takes_up(
            peer,
            connection,
            received,
            outcome,
            dispatched,
            gossip,
            middle,
        )
        &&& if gossip {
            exists|order: Seq<ConnectionId>, run: Run| #[trigger]
                middle.gossips(topic, object_id, connection, order, run, after)
        } else {
            after == middle
        }
    };
    law_unknown_object_is_surfaced(before.state, connection, peer, received, outcome, middle.state);
    lemma_take_up(before, peer, connection, received, outcome, dispatched, gossip, middle);
    let handed = CommandModel::GenerateEvent(
        EventModel::Received { topic_id: topic, peer_id: peer, received: received@ },
    );
    let i = middle.pending.index_of(handed);
    if gossip {
        let (order, run) = choose|order: Seq<ConnectionId>, run: Run| #[trigger]
            middle.gossips(topic, object_id, connection, order, run, after);
        law_gossip(middle, topic, object_id, connection, order, run, after);
        assert(after.pending[i] == handed);
    }
}

/// A piece for a topic that the local node is not subscribed to changes
/// nothing.
pub proof fn law_unsubscribed_piece_is_ignored(
    before: BehaviourModel,
    peer: PeerId,
    connection: ConnectionId,
    received: Received,
    after: BehaviourModel,
)
    requires
        before.handles_received(peer, connection, received, after),
        !before.subscribed.contains_key(received.topic_id@),
    ensures
        after == before,
{
}

/// Unsubscribing undoes a subscription: the local node is subscribed to what
/// it was subscribed to before.
pub proof fn law_unsubscribe_undoes_subscribe(
    before: BehaviourModel,
    topic: Seq<u8>,
    close_signal: Receiver<()>,
)
    requires
        before.consistent(),
        !before.subscribed.contains_key(topic),
    ensures
        before.subscribe(topic, close_signal).subscribed.contains_key(topic),
        before.subscribe(topic, close_signal).unsubscribe(topic).subscribed == before.subscribed,
        before.subscribe(topic, close_signal).unsubscribe(topic).topics == before.topics,
        before.subscribe(topic, close_signal).connections == before.connections,
{
    let after = before.subscribe(topic, close_signal);
    assert(after.unsubscribe(topic).subscribed =~= before.subscribed);
    let n = before.topics.len() as int;
    assert(after.topics[n] == topic);
    let i = after.topics.index_of(topic);
    assert(i == n) by {
        if i < n {
            assert(before.topics[i] == topic);
            assert(before.topics.contains(topic));
        }
    }
    assert(after.unsubscribe(topic).topics =~= before.topics);
}

/// Every connection has been told of every topic: subscribing tells all the
/// connections there are, and a new connection is told of all the topics.
/// Each is told of the topic's own close signal.
pub proof fn law_connections_learn_of_topics(
    before: BehaviourModel,
    topic: Seq<u8>,
    close_signal: Receiver<()>,
    connection: ConnectionId,
    peer: PeerId,
    counter: Arc<AtomicUsize>,
)
    requires
        before.consistent(),
    ensures
        before.connections.contains_key(connection) ==> before.subscribe(
            topic,
            close_signal,
        ).pending.contains(before.subscribe_command(connection, topic, close_signal)),
        before.subscribed.contains_key(topic) ==> before.connect(
            connection,
            peer,
            counter,
        ).pending.contains(
            CommandModel::NotifyHandler {
                peer_id: peer,
                connection_id: connection,
                event: HandlerInModel::Subscribe {
                    topic_id: topic,
                    close_signal: before.subscribed[topic],
                },
            },
        ),
{
    let n = before.pending.len() as int;
    if before.connections.contains_key(connection) {
        let i = before.connection_ids.index_of(connection);
        assert(before.connection_ids.contains(connection));
        assert(before.subscribe(topic, close_signal).pending[n + i] == before.subscribe_command(
            connection,
            topic,
            close_signal,
        ));
    }
    if before.subscribed.contains_key(topic) {
        let after = before.connect(connection, peer, counter);
        assert(before.topics.contains(topic));
        let i = before.topics.index_of(topic);
        assert(after.pending[n + i] == after.subscribe_command(
            connection,
            topic,
            before.subscribed[topic],
        ));
    }
}

/// A closed connection is gone: nothing is sent on it and nothing is tracked
/// of it. The other connections stay as they are.
pub proof fn law_disconnect(before: BehaviourModel, connection: ConnectionId)
    ensures
        forall|t: Seq<u8>| !(#[trigger] before.disconnect(connection).is_subscriber(connection, t)),
        forall|t: Seq<u8>, o: Seq<u8>| #[trigger] before.disconnect(connection).state.known(
            t,
            connection,
            o,
        ) == RemoteViewModel::unknown(),
        forall|c: ConnectionId, t: Seq<u8>| c != connection ==> #[trigger] before.disconnect(
            connection,
        ).is_subscriber(c, t) == before.is_subscriber(c, t),
{
    law_closed_connection_is_forgotten(before.state, connection);
}

/// The budget of a connection is exact: a dispatch that queues a message
/// raises the counter by one, and any other leaves the counter and every queue
/// as they were. A message goes to the queue of its topic, behind those that
/// were there.
pub proof fn law_budget_is_exact(
    before: HubModel,
    topic: Seq<u8>,
    message: ObjectPiecesModel,
    r: Result<(), SendError>,
    after: HubModel,
)
    requires
        before.dispatches(topic, message, r, after),
    ensures
        r is Ok ==> after.balance == before.balance + 1 && after.queues[topic]
            == before.queues[topic].push(message),
        r is Err ==> after == before,
        after.queues.dom() == before.queues.dom(),
        forall|t: Seq<u8>| t != topic ==> #[trigger] after.queues[t] == before.queues[t],
        r == Err::<(), SendError>(SendError::UnknownTopic) <==> !before.queues.contains_key(topic),
{
    assert(after.queues.dom() =~= before.queues.dom());
}

/// What an owner of a shared number does to it at some moment.
pub enum Change {
    /// One is added below the limit, for a message or a stream that is let in.
    LetIn,
    /// One is added past the limit, for a message that is not let in.
    AddedInVain,
    /// What was added in vain is taken off again.
    TakenBack,
    /// So much is taken off for what was let in and is done with.
    Released(usize),
}

/// What a shared number is made up of.
pub struct Account {
    /// What was let in and is not released yet.
    pub let_in: int,
    /// What was added in vain and is not taken back yet.
    pub in_vain: int,
}

/// What the number is made up of after some changes, from zero on.
pub open spec fn account(changes: Seq<Change>) -> Account
    decreases changes.len(),
{
    if changes.len() == 0 {
        Account { let_in: 0, in_vain: 0 }
    } else {
        let before = account(changes.drop_last());
        match changes.last() {
            Change::LetIn => Account { let_in: before.let_in + 1, ..before },
            Change::AddedInVain => Account { in_vain: before.in_vain + 1, ..before },
            Change::TakenBack => Account { in_vain: before.in_vain - 1, ..before },
            Change::Released(n) => Account { let_in: before.let_in - n, ..before },
        }
    }
}

/// The number is `was` at some moment when the change is made: an owner lets in
/// below the limit and adds in vain past it.
pub open spec fn change_made_at(
    number: AtomicUsize,
    limit: usize,
    change: Change,
    was: usize,
) -> bool {
    match change {
        Change::LetIn => was < limit && raised_at_some_moment(number, was),
        Change::AddedInVain => was >= limit && raised_at_some_moment(number, was),
        Change::TakenBack => lowered_at_some_moment(number, 1, was),
        Change::Released(n) => lowered_at_some_moment(number, n, was),
    }
}

/// The change is made at some moment.
pub open spec fn change_made(number: AtomicUsize, limit: usize, change: Change) -> bool {
    exists|was: usize| #[trigger] change_made_at(number, limit, change, was)
}

/// The change is made when the number is what the account comes to, and takes
/// off no more than was added.
pub open spec fn continues(
    number: AtomicUsize,
    limit: usize,
    before: Account,
    change: Change,
) -> bool {
    &&& exists|was: usize|
        was == before.let_in + before.in_vain && #[trigger] change_made_at(
            number,
            limit,
            change,
            was,
        )
    &&& change is TakenBack ==> before.in_vain > 0
    &&& change matches Change::Released(n) ==> n <= before.let_in
}

/// The changes are a history of the number, from zero on: all that is done to
/// it, one change after another.
pub open spec fn is_history(number: AtomicUsize, limit: usize, changes: Seq<Change>) -> bool {
    forall|i: int|
        0 <= i < changes.len() ==> continues(
            number,
            limit,
            account(changes.take(i)),
            #[trigger] changes[i],
        )
}

/// The limit on the messages that are queued on a connection is kept over any
/// history of their number: no more messages are ever let in at once than the
/// limit. The number itself is past the limit only by what was added in vain
/// and is not taken back yet.
///
/// That the changes make up a history is a premise: that they are all that is
/// done to the number, that each finds it as the ones before left it, and that
/// no more is released than was let in. That the calls of the library make such
/// changes is [`law_calls_make_changes`] and [`law_dispatch_makes_changes`].
pub proof fn law_queue_limit_is_kept(number: AtomicUsize, limit: usize, changes: Seq<Change>)
    requires
        is_history(number, limit, changes),
    ensures
        0 <= account(changes).let_in <= limit,
        0 <= account(changes).in_vain,
    decreases changes.len(),
{
    if changes.len() > 0 {
        let n = changes.len() - 1;
        let init = changes.drop_last();
        assert(is_history(number, limit, init)) by {
            assert forall|i: int| 0 <= i < init.len() implies continues(
                number,
                limit,
                account(init.take(i)),
                #[trigger] init[i],
            ) by {
                assert(init.take(i) =~= changes.take(i));
                assert(changes[i] == init[i]);
            }
        }
        law_queue_limit_is_kept(number, limit, init);
        assert(changes.take(n) =~= init);
        assert(continues(number, limit, account(init), changes[n]));
    }
}

/// The limit on the streams that a remote peer has open on a connection is
/// kept over any history of their number in which nothing is added in vain: the
/// number of open streams never passes the limit. A stream that finds the limit
/// reached adds nothing.
///
/// The history is a premise, as in [`law_queue_limit_is_kept`].
pub proof fn law_stream_limit_is_kept(number: AtomicUsize, limit: usize, changes: Seq<Change>)
    requires
        is_history(number, limit, changes),
        forall|i: int| 0 <= i < changes.len() ==> !(#[trigger] changes[i] is AddedInVain),
    ensures
        0 <= account(changes).let_in + account(changes).in_vain <= limit,
{
    law_queue_limit_is_kept(number, limit, changes);
    lemma_nothing_in_vain(changes);
}

/// Where nothing is added in vain, nothing is in vain.
proof fn lemma_nothing_in_vain(changes: Seq<Change>)
    requires
        forall|i: int| 0 <= i < changes.len() ==> !(#[trigger] changes[i] is AddedInVain),
    ensures
        account(changes).in_vain <= 0,
    decreases changes.len(),
{
    if changes.len() > 0 {
        let init = changes.drop_last();
        assert forall|i: int| 0 <= i < init.len() implies !(#[trigger] init[i] is AddedInVain) by {
            assert(changes[i] == init[i]);
        }
        lemma_nothing_in_vain(init);
        assert(changes[changes.len() - 1] == changes.last());
    }
}

/// What the calls of the library say that they do to a shared number are
/// changes of a history: raising it below a limit, as a stream does that is
/// opened, lets in; raising it past the limit adds in vain; and taking off, as
/// a writer does for each message and a handler for each stream, releases or
/// takes back.
pub proof fn law_calls_make_changes(number: &AtomicUsize, limit: usize, amount: usize)
    ensures
        raised_below(*number, limit) ==> change_made(*number, limit, Change::LetIn),
        raised_past(*number, limit) ==> change_made(*number, limit, Change::AddedInVain),
        lowered(*number, amount) ==> change_made(*number, limit, Change::Released(amount)),
        lowered(*number, 1) ==> change_made(*number, limit, Change::TakenBack),
{
    if raised_below(*number, limit) {
        let was = choose|was: usize| was < limit && #[trigger] raised_at_some_moment(*number, was);
        assert(change_made_at(*number, limit, Change::LetIn, was));
    }
    if raised_past(*number, limit) {
        let was = choose|was: usize| was >= limit && #[trigger] raised_at_some_moment(*number, was);
        assert(change_made_at(*number, limit, Change::AddedInVain, was));
    }
    if lowered(*number, amount) {
        let was = choose|was: usize| #[trigger] lowered_at_some_moment(*number, amount, was);
        assert(change_made_at(*number, limit, Change::Released(amount), was));
    }
    if lowered(*number, 1) {
        let was = choose|was: usize| #[trigger] lowered_at_some_moment(*number, 1, was);
        assert(change_made_at(*number, limit, Change::TakenBack, was));
    }
}

/// What a dispatch does to the number of queued messages: a message that is
/// queued is let in, one that finds the limit reached is added in vain and
/// taken back, and one that its channel does not take is let in and released.
pub proof fn law_dispatch_makes_changes(
    before: HubModel,
    topic: Seq<u8>,
    message: ObjectPiecesModel,
    r: Result<(), SendError>,
    after: HubModel,
)
    requires
        before.dispatches(topic, message, r, after),
    ensures
        ({
            let number = *before.counter;
            let limit = before.limit;
            let passed_through = change_made(number, limit, Change::LetIn) && change_made(
                number,
                limit,
                Change::Released(1),
            );
            match r {
                Ok(()) => change_made(number, limit, Change::LetIn),
                Err(SendError::Full) => (change_made(number, limit, Change::AddedInVain)
                    && change_made(number, limit, Change::TakenBack)) || (
                before.queues[topic].limited && passed_through),
                Err(SendError::Closed) => passed_through,
                Err(SendError::UnknownTopic) => after == before,
            }
        }),
{
    law_calls_make_changes(&*before.counter, before.limit, 1);
}

/// A dispatch lets a message in only below the limit, and where there is room
/// it does let it in.
pub proof fn law_dispatch_keeps_to_the_limit(
    before: HubModel,
    topic: Seq<u8>,
    message: ObjectPiecesModel,
    r: Result<(), SendError>,
    after: HubModel,
)
    requires
        before.dispatches(topic, message, r, after),
    ensures
        r is Ok ==> raised_below(*before.counter, before.limit),
        r == Err::<(), SendError>(SendError::Full) ==> raised_past(*before.counter, before.limit)
            || before.queues[topic].limited,
        before.has_room(topic) ==> r is Ok && after == before.queue(topic, message),
{
}

/// A subscription is read as it was written: where the one side opens a stream
/// for a topic, and the other reads the message that was written, the stream is
/// open for that topic there too. Sides with the same configuration go on with
/// the same limit on messages.
pub proof fn law_subscription_is_read_as_written(
    writer: OutboundProtocol,
    written: (TopicSubscription, SubscriptionCodec),
    reader: InboundProtocol,
    read: TopicSubscription,
    opened: (TopicSubscription, PieceCodec),
)
    requires
        writer.writes(written),
        read.topic_id@ == written.0.topic_id@,
        reader.opens(read, opened),
    ensures
        opened.0.topic_id@ == writer.topic_id@,
        writer.max_protobuf_size == reader.message_limit() ==> opened.1.limit()
            == written.1.limit(),
{
}

/// Nothing that a connection handler reports brings a peer past the limit on
/// the topics that it is subscribed to, on all its connections together.
pub proof fn law_topic_limit_is_kept(
    before: BehaviourModel,
    peer: PeerId,
    connection: ConnectionId,
    event: Event,
    after: BehaviourModel,
    any: PeerId,
)
    requires
        before.consistent(),
        before.handles(peer, connection, event, after),
    ensures
        peer_topics(after.connections, any).finite(),
        peer_topics(after.connections, any).len() <= before.config.max_topic_subscription,
{
    match event {
        Event::Subscribed { topic_id, sender } => {
            if before.connections.contains_key(connection) && before.admits(connection, topic_id@) {
                lemma_one_more_topic(
                    before.connections,
                    connection,
                    before.connections[connection].subscribe(topic_id@, sender),
                    topic_id@,
                    before.config.max_topic_subscription,
                );
            }
        },
        Event::Received(received) => {
            law_received_piece(before, peer, connection, received, after);
        },
        Event::Unsubscribed { topic_id } => {
            lemma_no_more_topics(
                before.connections,
                after.connections,
                before.config.max_topic_subscription,
            );
        },
    }
    assert(topics_limited(after.connections, before.config.max_topic_subscription));
}

/// A stream that is being closed is never read from again, and one that is
/// closed stays closed.
pub proof fn law_outbound_never_reopens(state: OutboundState, topic: Seq<u8>, event: OutboundEvent)
    ensures
        state != OutboundState::Active ==> {
            &&& outbound_step(state, topic, event).0 != OutboundState::Active
            &&& !(outbound_step(state, topic, event).1 is Yield)
            &&& !(outbound_step(state, topic, event).1 is PollStream)
        },
        state == OutboundState::Closed ==> outbound_step(state, topic, event) == (
            OutboundState::Closed,
            OutboundStepModel::End,
        ),
        outbound_step(state, topic, event).1 is End ==> outbound_step(state, topic, event).0
            == OutboundState::Closed,
        outbound_step(state, topic, event).1 is Yield ==> state == OutboundState::Active
            && event is Piece,
{
}

/// Where the writer of an inbound stream is after some events.
pub open spec fn inbound_state(
    state: InboundState,
    topic: Seq<u8>,
    events: Seq<InboundEvent>,
) -> InboundState
    decreases events.len(),
{
    if events.len() == 0 {
        state
    } else {
        inbound_step(inbound_state(state, topic, events.drop_last()), topic, events.last()).0
    }
}

/// The messages that the writer takes from its channel over some events.
pub open spec fn messages_taken(
    state: InboundState,
    topic: Seq<u8>,
    events: Seq<InboundEvent>,
) -> Seq<ObjectPieces>
    decreases events.len(),
{
    if events.len() == 0 {
        Seq::empty()
    } else {
        let before = messages_taken(state, topic, events.drop_last());
        if takes_message(inbound_state(state, topic, events.drop_last()), events.last()) {
            before.push(events.last()->Message_0)
        } else {
            before
        }
    }
}

/// The messages that the writer hands to the sink over some events.
pub open spec fn messages_handed(
    state: InboundState,
    topic: Seq<u8>,
    events: Seq<InboundEvent>,
) -> Seq<ObjectPieces>
    decreases events.len(),
{
    if events.len() == 0 {
        Seq::empty()
    } else {
        let before = messages_handed(state, topic, events.drop_last());
        match inbound_step(
            inbound_state(state, topic, events.drop_last()),
            topic,
            events.last(),
        ).1 {
            InboundStepModel::StartSend(message) => before.push(message),
            _ => before,
        }
    }
}

/// The writer neither loses, repeats nor reorders a message: whatever happens,
/// what it handed to the sink is what it took from the channel, in that order,
/// but for one message that it still holds or that it held when the stream
/// broke.
pub proof fn law_writer_keeps_messages_in_order(topic: Seq<u8>, events: Seq<InboundEvent>)
    ensures
        ({
            let start = InboundState::WaitingMessage;
            let taken = messages_taken(start, topic, events);
            let handed = messages_handed(start, topic, events);
            match inbound_state(start, topic, events) {
                InboundState::WaitingReady { message } => taken == handed.push(message),
                InboundState::Closed => taken == handed || exists|message: ObjectPieces|
                    taken == #[trigger] handed.push(message),
                _ => taken == handed,
            }
        }),
    decreases events.len(),
{
    if events.len() > 0 {
        law_writer_keeps_messages_in_order(topic, events.drop_last());
    }
}

/// By how much the writer changes the connection's counter over some events.
pub open spec fn writer_balance(
    state: InboundState,
    topic: Seq<u8>,
    events: Seq<InboundEvent>,
) -> int
    decreases events.len(),
{
    if events.len() == 0 {
        0
    } else {
        writer_balance(state, topic, events.drop_last()) - (if takes_message(
            inbound_state(state, topic, events.drop_last()),
            events.last(),
        ) {
            1int
        } else {
            0
        })
    }
}

/// The counter of a connection settles: of the messages that were queued for a
/// topic, and counted, the writer takes some off the counter as it takes them
/// from the channel. Once the budget of those that are left is released too,
/// the counter is back where it was, whatever happened in between.
pub proof fn law_counter_settles(
    topic: Seq<u8>,
    events: Seq<InboundEvent>,
    queued: nat,
    left: nat,
)
    requires
        queued == messages_taken(InboundState::WaitingMessage, topic, events).len() + left,
    ensures
        queued + writer_balance(InboundState::WaitingMessage, topic, events) - left == 0,
{
    lemma_writer_balance(InboundState::WaitingMessage, topic, events);
}

/// The writer takes one off the counter for each message that it takes.
proof fn lemma_writer_balance(state: InboundState, topic: Seq<u8>, events: Seq<InboundEvent>)
    ensures
        writer_balance(state, topic, events) == -messages_taken(state, topic, events).len(),
    decreases events.len(),
{
    if events.len() > 0 {
        lemma_writer_balance(state, topic, events.drop_last());
    }
}

/// The topics that a remote peer is subscribed to are allowed.
pub open spec fn within_whitelist(handler: HandlerModel) -> bool {
    forall|t: Seq<u8>| #[trigger] handler.subscriptions.contains(t) ==> handler.config.allows(t)
}

/// A remote peer is only ever subscribed to topics that are allowed: that
/// holds of a new handler, and every step keeps it.
pub proof fn law_whitelist_is_kept(
    handler: HandlerModel,
    topic: Seq<u8>,
    sender: Sender<ObjectPieces>,
    event: PollEvent,
    counter: Arc<AtomicUsize>,
)
    ensures
        handler.fresh(handler.config, counter) ==> within_whitelist(handler),
        within_whitelist(handler) ==> {
            &&& handler.admits(topic) ==> within_whitelist(handler.subscribe(topic, sender))
            &&& within_whitelist(handler.turn_away())
            &&& within_whitelist(handler.refuse(topic))
            &&& within_whitelist(handler.unsubscribe(topic))
            &&& within_whitelist(handler.poll(event).0)
        },
{
}

/// A stream that the remote peer opened counts as open until it is turned away,
/// refused, or closed by the peer: only then does the handler take it off the
/// number of open streams, and it takes off one for each. A stream that the
/// local side ended otherwise is never taken off. A turned-away stream leaves
/// the subscriptions as they are, and a refused or closed one ends no other.
pub proof fn law_open_streams_are_counted_off_once(
    handler: HandlerModel,
    topic: Seq<u8>,
    sender: Sender<ObjectPieces>,
    event: PollEvent,
)
    ensures
        handler.subscribe(topic, sender).open_balance == handler.open_balance,
        handler.turn_away().open_balance == handler.open_balance - 1,
        handler.turn_away().subscriptions == handler.subscriptions,
        handler.refuse(topic).subscriptions == handler.subscriptions.remove(topic),
        handler.refuse(topic).open_balance == handler.open_balance - (if handler.subscriptions.contains(
            topic,
        ) {
            1int
        } else {
            0
        }),
        match event {
            PollEvent::Inbound(Some(Some(Event::Unsubscribed { topic_id }))) => {
                &&& handler.poll(event).0.open_balance == handler.open_balance - 1
                &&& handler.poll(event).0.subscriptions == handler.subscriptions.remove(topic_id@)
            },
            _ => {
                &&& handler.poll(event).0.open_balance == handler.open_balance
                &&& handler.poll(event).0.subscriptions == handler.subscriptions
            },
        },
{
    assert(handler.refuse(topic).subscriptions =~= handler.subscriptions.remove(topic));
}

/// A refused subscription leaves no trace: once the behaviour has refused it,
/// the handler admits what it admitted before the subscription, that topic
/// included. Its stream is off the number of open streams, as if it had been
/// turned away, however its writer ends.
pub proof fn law_refused_subscription_leaves_no_trace(
    handler: HandlerModel,
    topic: Seq<u8>,
    sender: Sender<ObjectPieces>,
    any: Seq<u8>,
)
    requires
        handler.admits(topic),
    ensures
        ({
            let after = handler.subscribe(topic, sender).refuse(topic).poll(
                PollEvent::Inbound(Some(None)),
            ).0;
            &&& after.admits(any) == handler.admits(any)
            &&& after.subscriptions == handler.subscriptions
            &&& after.open_balance == handler.turn_away().open_balance
        }),
{
    assert(handler.subscribe(topic, sender).refuse(topic).subscriptions =~= handler.subscriptions);
}

/// A subscription past the limit on topics is refused: the handler of its
/// connection is told, and nothing else changes.
pub proof fn law_subscription_past_the_limit_is_refused(
    before: BehaviourModel,
    peer: PeerId,
    connection: ConnectionId,
    topic_id: Vec<u8>,
    sender: Sender<ObjectPieces>,
    after: BehaviourModel,
)
    requires
        before.handles(peer, connection, Event::Subscribed { topic_id, sender }, after),
        before.connections.contains_key(connection),
        !before.admits(connection, topic_id@),
    ensures
        after == before.push(before.refuse_command(connection, topic_id@)),
        after.connections == before.connections,
{
}

/// A remote peer is subscribed to a topic on a connection once at a time: an
/// admitted subscription is refused until the stream of the topic is closed.
pub proof fn law_one_subscription_at_a_time(
    handler: HandlerModel,
    topic: Seq<u8>,
    sender: Sender<ObjectPieces>,
)
    requires
        handler.admits(topic),
    ensures
        !handler.subscribe(topic, sender).admits(topic),
        handler.subscribe(topic, sender).unsubscribe(topic).admits(topic),
        handler.subscribe(topic, sender).unsubscribe(topic).subscriptions == handler.subscriptions,
{
    assert(handler.subscribe(topic, sender).unsubscribe(topic).subscriptions
        =~= handler.subscriptions);
}

} // verus!
