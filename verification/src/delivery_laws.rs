//! Who is sent what: over all that applications, channels and chance may
//! decide.

use libp2p::swarm::ConnectionId;
use libp2p::PeerId;
use vstd::prelude::*;

use crate::behaviour;
use crate::behaviour::{
    sent, sent_count, visited, BehaviourModel, CommandModel, ConnectionModel, EventModel,
    PublishModel, Run, Visit,
};
use crate::exchange_laws::{
    application_answers, data_given, is_news, law_reconcile_tells_what_is_new,
    law_storing_reports_news, law_told_metadata_is_taken_in,
    law_told_metadata_replaces_what_was_told, law_untold_metadata_stays, message_is_settled,
    told_by_peer,
};
use crate::handler::Received;
use crate::laws::{
    law_dissemination_is_bounded, law_publish, law_receive_is_local, law_reconcile_is_local,
    law_stored_object_is_cached, lemma_filter_distinct, lemma_filter_keeps, lemma_run,
    lemma_shuffled_distinct, lemma_take_up, lemma_visit,
};
use crate::outside::raised_at_some_moment;
use crate::protocol::ObjectPiecesModel;
use crate::shard::{
    Action, Error, MetadataBox, PeerViewModel, ReceivedActionModel, ReconcileActionModel,
    RemoteViewModel, ShardBox, StateModel,
};
use crate::substream::{HubModel, SendError};

verus! {

/// The connection has one more message for the topic, behind those that were
/// queued, and counts one more. Nothing else of it is different.
pub open spec fn one_more_queued(
    before: ConnectionModel,
    after: ConnectionModel,
    topic: Seq<u8>,
    message: ObjectPiecesModel,
) -> bool {
    &&& after.peer_id == before.peer_id
    &&& after.hub.limit == before.hub.limit
    &&& after.hub.counter == before.hub.counter
    &&& after.hub.balance == before.hub.balance + 1
    &&& after.hub.queues.dom() == before.hub.queues.dom()
    &&& before.hub.queues.contains_key(topic)
    &&& after.hub.queues[topic].messages == before.hub.queues[topic].messages.push(message)
    &&& after.hub.queues[topic].limited == before.hub.queues[topic].limited
    &&& after.hub.queues[topic].closes == before.hub.queues[topic].closes
    &&& forall|t: Seq<u8>|
        t != topic && before.hub.queues.contains_key(t) ==> #[trigger] after.hub.queues[t]
            == before.hub.queues[t]
}

/// What the application answers for the peer went out: the data that it gave,
/// unless pieces are left out, and the metadata that it advertises, if that is
/// news to the peer. What is remembered of the peer is what went out.
pub open spec fn answer_went_out(
    cached: Option<ShardBox>,
    connection: ConnectionId,
    topic: Seq<u8>,
    object_id: Seq<u8>,
    with_pieces: bool,
    known: RemoteViewModel,
    then: RemoteViewModel,
    before: ConnectionModel,
    after: ConnectionModel,
) -> bool {
    cached matches Some(shard) && exists|action: Action, advertised: Seq<u8>, news: bool| {
        &&& #[trigger] application_answers(
            shard,
            before.peer_id,
            connection,
            known,
            action,
            advertised,
            Ok(news),
            then,
        )
        &&& news || (with_pieces && action.send is Some)
        &&& one_more_queued(
            before,
            after,
            topic,
            ObjectPiecesModel {
                object_id,
                pieces_metadata: if news {
                    Some(advertised)
                } else {
                    None
                },
                pieces: if with_pieces {
                    data_given(action)
                } else {
                    None
                },
            },
        )
    }
}

/// There is room for a message to the peer, and whatever the application
/// answers, there is one to send: the metadata is news to the peer, or it is
/// given data that is not left out.
pub open spec fn message_is_due(
    cached: Option<ShardBox>,
    connection: ConnectionId,
    topic: Seq<u8>,
    with_pieces: bool,
    known: RemoteViewModel,
    before: ConnectionModel,
) -> bool {
    &&& before.hub.has_room(topic)
    &&& cached matches Some(shard) && {
        &&& forall|answer: Result<Action, Error>| #[trigger]
            shard.shard.acts(
                before.peer_id,
                connection,
                told_by_peer(known.peer_metadata),
                answer,
            ) ==> answer is Ok
        &&& known.our_metadata matches Some(seen) ==> {
            &&& forall|advertised: Seq<u8>, bytes: Seq<u8>, news: Result<bool, Error>|
                shard.shard.advertises(advertised) && #[trigger] seen.metadata.accepts(
                    advertised,
                    bytes,
                    news,
                ) ==> news is Ok
            &&& (forall|advertised: Seq<u8>, bytes: Seq<u8>, news: Result<bool, Error>|
                shard.shard.advertises(advertised) && #[trigger] seen.metadata.accepts(
                    advertised,
                    bytes,
                    news,
                ) ==> news == Ok::<bool, Error>(true)) || (with_pieces && forall|action: Action|
                #[trigger]
                shard.shard.acts(
                    before.peer_id,
                    connection,
                    told_by_peer(known.peer_metadata),
                    Ok(action),
                ) ==> action.send is Some)
        }
    }
}

/// The event tells the application that a queue is full.
pub open spec fn reports_full_queue(command: CommandModel, peer: PeerId) -> bool {
    command == CommandModel::GenerateEvent(EventModel::FullQueue(peer))
}

/// The event tells the application that data did not reconcile.
pub open spec fn reports_invalid_data(
    command: CommandModel,
    peer: PeerId,
    topic: Seq<u8>,
    object_id: Seq<u8>,
    reason: Error,
) -> bool {
    command == CommandModel::GenerateEvent(
        EventModel::InvalidData { peer_id: peer, topic_id: topic, object_id, reason },
    )
}

/// What is known of a connection then is what was known of it, or what comes of
/// an answer of the application for its peer.
pub open spec fn remembers_answers(
    cached: Option<ShardBox>,
    peer: PeerId,
    connection: ConnectionId,
    known: RemoteViewModel,
    then: RemoteViewModel,
) -> bool {
    then == known || (cached matches Some(shard) && exists|
        action: Action,
        advertised: Seq<u8>,
        news: Result<bool, Error>,
    | #[trigger]
        application_answers(shard, peer, connection, known, action, advertised, news, then))
}

/// The application may answer with this error for the peer: when it is to act
/// for it, or when what the peer has seen is to take in what it advertises.
pub open spec fn may_be_refused(
    cached: Option<ShardBox>,
    peer: PeerId,
    connection: ConnectionId,
    known: RemoteViewModel,
    reason: Error,
) -> bool {
    cached matches Some(shard) && (shard.shard.acts(
        peer,
        connection,
        told_by_peer(known.peer_metadata),
        Err(reason),
    ) || (known.our_metadata matches Some(seen) && exists|advertised: Seq<u8>, bytes: Seq<u8>|
        shard.shard.advertises(advertised) && #[trigger] seen.metadata.accepts(
            advertised,
            bytes,
            Err(reason),
        )))
}

/// The queue of the topic may be full: its channel has a limit, or the number of
/// messages that are queued on the connection has reached its limit when one is
/// added.
pub open spec fn may_be_full(hub: HubModel, topic: Seq<u8>) -> bool {
    &&& hub.queues.contains_key(topic)
    &&& hub.queues[topic].limited || exists|n: usize|
        n >= hub.limit && #[trigger] raised_at_some_moment(*hub.counter, n)
}

/// The command reports what went wrong on the way to this connection: that its
/// queue is full, or that data did not reconcile with what is known of it.
pub open spec fn complains_of(
    command: CommandModel,
    connection: ConnectionId,
    was: ConnectionModel,
    topic: Seq<u8>,
    object_id: Seq<u8>,
    cached: Option<ShardBox>,
    known: RemoteViewModel,
) -> bool {
    (reports_full_queue(command, was.peer_id) && may_be_full(was.hub, topic)) || exists|
        reason: Error,
    | #[trigger]
        reports_invalid_data(command, was.peer_id, topic, object_id, reason) && may_be_refused(
            cached,
            was.peer_id,
            connection,
            known,
            reason,
        )
}

/// What one visit comes to.
proof fn lemma_visit_delivers(
    before: BehaviourModel,
    topic: Seq<u8>,
    object_id: Seq<u8>,
    with_pieces: bool,
    connection: ConnectionId,
    visit: Visit,
    after: BehaviourModel,
)
    requires
        before.visits(topic, object_id, with_pieces, connection, visit, after),
        before.connections.contains_key(connection),
        before.state.bounded(),
    ensures
        ({
            let cached = before.state.cached(topic, object_id);
            let known = before.state.known(topic, connection, object_id);
            let then = after.state.known(topic, connection, object_id);
            let was = before.connections[connection];
            let now = after.connections[connection];
            &&& sent(visit) ==> answer_went_out(
                cached,
                connection,
                topic,
                object_id,
                with_pieces,
                known,
                then,
                was,
                now,
            )
            &&& message_is_due(cached, connection, topic, with_pieces, known, was) ==> sent(visit)
            &&& match visit {
                Visit::Invalid(reason) => {
                    &&& after.pending.len() == before.pending.len() + 1
                    &&& reports_invalid_data(
                        after.pending.last(),
                        was.peer_id,
                        topic,
                        object_id,
                        reason,
                    )
                },
                Visit::Dispatched(_, Err(SendError::Full)) => {
                    &&& after.pending.len() == before.pending.len() + 1
                    &&& reports_full_queue(after.pending.last(), was.peer_id)
                },
                _ => after.pending.len() == before.pending.len(),
            }
            &&& after.pending.len() > before.pending.len() ==> complains_of(
                after.pending.last(),
                connection,
                was,
                topic,
                object_id,
                cached,
                known,
            )
            &&& remembers_answers(cached, was.peer_id, connection, known, then)
        }),
        forall|t: Seq<u8>, o: Seq<u8>|
            (t, o) != (topic, object_id) ==> #[trigger] after.state.known(t, connection, o)
                == before.state.known(t, connection, o),
{
    lemma_visit(before, topic, object_id, with_pieces, connection, visit, after);
    reveal(BehaviourModel::visits);
    let peer = before.connections[connection].peer_id;
    let r: Result<Option<ReconcileActionModel>, Error> = match visit {
        Visit::NoData => Ok(None),
        Visit::Invalid(reason) => Err(reason),
        Visit::Withheld(action) => Ok(Some(action)),
        Visit::Dispatched(action, _) => Ok(Some(action)),
    };
    let known = before.state.known(topic, connection, object_id);
    let then = after.state.known(topic, connection, object_id);
    law_reconcile_is_local(before.state, topic, connection, peer, object_id, r, after.state);
    if let Visit::Invalid(reason) = visit {
        assert(reports_invalid_data(after.pending.last(), peer, topic, object_id, reason));
    }
    if let Some(shard) = before.state.cached(topic, object_id) {
        law_reconcile_tells_what_is_new(
            before.state,
            topic,
            connection,
            peer,
            object_id,
            shard,
            r,
            after.state,
        );
        if let Ok(Some(told)) = r {
            let (action, advertised, news) = choose|action: Action, advertised: Seq<u8>, news: bool| {
                &&& #[trigger] application_answers(
                    shard,
                    peer,
                    connection,
                    known,
                    action,
                    advertised,
                    Ok(news),
                    then,
                )
                &&& told.body == data_given(action)
                &&& told.metadata == (if news {
                    Some(advertised)
                } else {
                    None
                })
                &&& told.body is Some || told.metadata is Some
            };
            let message = ObjectPiecesModel {
                object_id,
                pieces_metadata: if news {
                    Some(advertised)
                } else {
                    None
                },
                pieces: if with_pieces {
                    data_given(action)
                } else {
                    None
                },
            };
            if sent(visit) {
                let hub = before.connections[connection].hub;
                let now = after.connections[connection];
                assert(now.hub == hub.queue(topic, message));
                assert(now.hub.queues.dom() =~= hub.queues.dom());
                assert(one_more_queued(before.connections[connection], now, topic, message));
            }
        }
    }
}

/// The connections in the order on which a message went out.
pub open spec fn reached_by(order: Seq<ConnectionId>, visits: Seq<Visit>) -> Seq<ConnectionId>
    decreases visits.len(),
{
    if visits.len() == 0 {
        Seq::empty()
    } else {
        let before = reached_by(order, visits.drop_last());
        match visits.last() {
            Visit::Dispatched(_, Ok(())) => before.push(order[visits.len() - 1]),
            _ => before,
        }
    }
}

/// What stands in the list of those that were reached.
pub proof fn lemma_reached(order: Seq<ConnectionId>, visits: Seq<Visit>)
    requires
        visits.len() <= order.len(),
        order.no_duplicates(),
    ensures
        reached_by(order, visits).no_duplicates(),
        reached_by(order, visits).len() == sent_count(visits),
        forall|c: ConnectionId| #[trigger] reached_by(order, visits).contains(c) <==> exists|i: int|
            0 <= i < visits.len() && #[trigger] order[i] == c && sent(visits[i]),
    decreases visits.len(),
{
    if visits.len() > 0 {
        let init = visits.drop_last();
        let n = visits.len() - 1;
        lemma_reached(order, init);
        let had = reached_by(order, init);
        let has = reached_by(order, visits);
        assert(visits[n] == visits.last());
        assert(!had.contains(order[n])) by {
            if had.contains(order[n]) {
                let i = choose|i: int|
                    0 <= i < init.len() && #[trigger] order[i] == order[n] && sent(init[i]);
                assert(order[i] != order[n]);
            }
        }
        assert forall|c: ConnectionId| #[trigger] has.contains(c) <==> exists|i: int|
            0 <= i < visits.len() && #[trigger] order[i] == c && sent(visits[i]) by {
            if has.contains(c) {
                if had.contains(c) {
                    let i = choose|i: int|
                        0 <= i < init.len() && #[trigger] order[i] == c && sent(init[i]);
                    assert(visits[i] == init[i]);
                } else {
                    let j = has.index_of(c);
                    if j < had.len() {
                        assert(had[j] == c);
                    }
                    assert(order[n] == c);
                }
            }
            if exists|i: int| 0 <= i < visits.len() && #[trigger] order[i] == c && sent(visits[i]) {
                let i = choose|i: int|
                    0 <= i < visits.len() && #[trigger] order[i] == c && sent(visits[i]);
                if i < n {
                    assert(init[i] == visits[i]);
                    assert(had.contains(c));
                    let j = had.index_of(c);
                    assert(has[j] == c);
                } else {
                    assert(has[has.len() - 1] == c);
                }
            }
        }
        assert(has.no_duplicates()) by {
            assert forall|i: int, j: int| 0 <= i < has.len() && 0 <= j < has.len() && i != j implies
                has[i] != has[j] by {
                if i < had.len() && j < had.len() {
                    assert(had[i] != had[j]);
                } else if i < had.len() {
                    assert(had.contains(had[i]));
                } else {
                    assert(had.contains(had[j]));
                }
            }
        }
    }
}

/// What the first visits of a run come to.
proof fn lemma_run_delivers(
    before: BehaviourModel,
    topic: Seq<u8>,
    object_id: Seq<u8>,
    with_pieces: bool,
    order: Seq<ConnectionId>,
    run: Run,
    after: BehaviourModel,
    n: int,
)
    requires
        before.goes_through(topic, object_id, with_pieces, order, run, after),
        run.visits.len() <= order.len(),
        order.no_duplicates(),
        forall|i: int| 0 <= i < order.len() ==> before.connections.contains_key(#[trigger] order[i]),
        0 <= n <= run.visits.len(),
        before.state.bounded(),
    ensures
        forall|i: int| #![trigger order[i]]
            0 <= i < n ==> {
                let c = order[i];
                let cached = before.state.cached(topic, object_id);
                let known = before.state.known(topic, c, object_id);
                let was = before.connections[c];
                &&& sent(run.visits[i]) ==> answer_went_out(
                    cached,
                    c,
                    topic,
                    object_id,
                    with_pieces,
                    known,
                    run.models[n].state.known(topic, c, object_id),
                    was,
                    run.models[n].connections[c],
                )
                &&& message_is_due(cached, c, topic, with_pieces, known, was) ==> sent(
                    run.visits[i],
                )
                &&& match run.visits[i] {
                    Visit::Invalid(reason) => exists|k: int|
                        before.pending.len() <= k < run.models[n].pending.len()
                            && reports_invalid_data(
                            #[trigger] run.models[n].pending[k],
                            was.peer_id,
                            topic,
                            object_id,
                            reason,
                        ),
                    Visit::Dispatched(_, Err(SendError::Full)) => exists|k: int|
                        before.pending.len() <= k < run.models[n].pending.len()
                            && reports_full_queue(
                            #[trigger] run.models[n].pending[k],
                            was.peer_id,
                        ),
                    _ => true,
                }
                &&& remembers_answers(
                    cached,
                    was.peer_id,
                    c,
                    known,
                    run.models[n].state.known(topic, c, object_id),
                )
            },
        forall|k: int|
            before.pending.len() <= k < run.models[n].pending.len() ==> exists|i: int|
                0 <= i < n && complains_of(
                    #[trigger] run.models[n].pending[k],
                    #[trigger] order[i],
                    before.connections[order[i]],
                    topic,
                    object_id,
                    before.state.cached(topic, object_id),
                    before.state.known(topic, order[i], object_id),
                ),
        run.models[n].pending.len() + sent_count(run.visits.take(n)) <= before.pending.len() + n,
        forall|t: Seq<u8>, c: ConnectionId, o: Seq<u8>|
            (t, o) != (topic, object_id) ==> #[trigger] run.models[n].state.known(t, c, o)
                == before.state.known(t, c, o),
    decreases n,
{
    reveal(BehaviourModel::goes_through);
    if n > 0 {
        lemma_run_delivers(before, topic, object_id, with_pieces, order, run, after, n - 1);
        lemma_run(before, topic, object_id, with_pieces, order, run, after, n - 1);
        let m = run.models[n - 1];
        let next = run.models[n];
        let last = order[n - 1];
        let visit = run.visits[n - 1];
        assert(m.visits(topic, object_id, with_pieces, last, visit, next));
        assert(!order.take(n - 1).contains(last));
        assert(m.connections[last] == before.connections[last]);
        assert(m.state.known(topic, last, object_id) == before.state.known(topic, last, object_id));
        assert(m.state.cached(topic, object_id) == before.state.cached(topic, object_id));
        lemma_visit(m, topic, object_id, with_pieces, last, visit, next);
        lemma_visit_delivers(m, topic, object_id, with_pieces, last, visit, next);
        assert forall|i: int| #![trigger order[i]] 0 <= i < n implies {
            let c = order[i];
            let cached = before.state.cached(topic, object_id);
            let known = before.state.known(topic, c, object_id);
            let was = before.connections[c];
            &&& sent(run.visits[i]) ==> answer_went_out(
                cached,
                c,
                topic,
                object_id,
                with_pieces,
                known,
                next.state.known(topic, c, object_id),
                was,
                next.connections[c],
            )
            &&& message_is_due(cached, c, topic, with_pieces, known, was) ==> sent(run.visits[i])
            &&& match run.visits[i] {
                Visit::Invalid(reason) => exists|k: int|
                    before.pending.len() <= k < next.pending.len() && reports_invalid_data(
                        #[trigger] next.pending[k],
                        was.peer_id,
                        topic,
                        object_id,
                        reason,
                    ),
                Visit::Dispatched(_, Err(SendError::Full)) => exists|k: int|
                    before.pending.len() <= k < next.pending.len() && reports_full_queue(
                        #[trigger] next.pending[k],
                        was.peer_id,
                    ),
                _ => true,
            }
            &&& remembers_answers(
                cached,
                was.peer_id,
                c,
                known,
                next.state.known(topic, c, object_id),
            )
        } by {
            let c = order[i];
            if i < n - 1 {
                assert(c != last);
                assert(m.connections.contains_key(c));
                assert(next.connections[c] == m.connections[c]);
                assert(next.state.known(topic, c, object_id) == m.state.known(topic, c, object_id));
                match run.visits[i] {
                    Visit::Invalid(reason) => {
                        let k = choose|k: int|
                            before.pending.len() <= k < m.pending.len() && reports_invalid_data(
                                #[trigger] m.pending[k],
                                before.connections[c].peer_id,
                                topic,
                                object_id,
                                reason,
                            );
                        assert(next.pending[k] == m.pending[k]);
                    },
                    Visit::Dispatched(_, Err(SendError::Full)) => {
                        let k = choose|k: int|
                            before.pending.len() <= k < m.pending.len() && reports_full_queue(
                                #[trigger] m.pending[k],
                                before.connections[c].peer_id,
                            );
                        assert(next.pending[k] == m.pending[k]);
                    },
                    _ => {},
                }
            } else {
                assert(next.pending.last() == next.pending[next.pending.len() - 1]);
            }
        }
        assert forall|k: int| before.pending.len() <= k < next.pending.len() implies exists|i: int|
            0 <= i < n && complains_of(
                #[trigger] next.pending[k],
                #[trigger] order[i],
                before.connections[order[i]],
                topic,
                object_id,
                before.state.cached(topic, object_id),
                before.state.known(topic, order[i], object_id),
            ) by {
            if k < m.pending.len() {
                assert(next.pending[k] == m.pending[k]);
                let i = choose|i: int|
                    0 <= i < n - 1 && complains_of(
                        m.pending[k],
                        #[trigger] order[i],
                        before.connections[order[i]],
                        topic,
                        object_id,
                        before.state.cached(topic, object_id),
                        before.state.known(topic, order[i], object_id),
                    );
                assert(0 <= i < n);
            } else {
                assert(next.pending.last() == next.pending[k]);
                assert(order[n - 1] == last);
            }
        }
        assert(run.visits.take(n).drop_last() =~= run.visits.take(n - 1));
        assert(run.visits.take(n).last() == visit);
        assert forall|t: Seq<u8>, c: ConnectionId, o: Seq<u8>|
            (t, o) != (topic, object_id) implies #[trigger] next.state.known(t, c, o)
            == before.state.known(t, c, o) by {
            assert(m.state.known(t, c, o) == before.state.known(t, c, o));
            if c == last {
                assert(next.state.known(t, last, o) == m.state.known(t, last, o));
            }
        }
    }
}

/// The number of peers that a topic's pieces, or its metadata, go to at most.
pub open spec fn fanout_of(before: BehaviourModel, topic: Seq<u8>, with_pieces: bool) -> nat {
    let config = if before.config.topic_configs.contains_key(topic) {
        before.config.topic_configs[topic]
    } else {
        before.config.default_topic_config
    };
    if with_pieces {
        config.publishes_to()@
    } else {
        config.gossips_to()@
    }
}

/// The object was spread to these connections among some. Each got one message,
/// with what the application answers for its peer, and no other connection got
/// any. They are no more than the fanout, and if they are fewer, they include
/// all for which a message was due.
pub open spec fn was_spread_to(
    before: BehaviourModel,
    after: BehaviourModel,
    topic: Seq<u8>,
    object_id: Seq<u8>,
    cached: Option<ShardBox>,
    with_pieces: bool,
    fanout: nat,
    among: spec_fn(ConnectionId) -> bool,
    reached: Seq<ConnectionId>,
) -> bool {
    &&& reached.no_duplicates()
    &&& reached.len() <= fanout
    &&& forall|c: ConnectionId| #[trigger] reached.contains(c) ==> {
        &&& among(c)
        &&& before.connections.contains_key(c)
        &&& answer_went_out(
            cached,
            c,
            topic,
            object_id,
            with_pieces,
            before.state.known(topic, c, object_id),
            after.state.known(topic, c, object_id),
            before.connections[c],
            after.connections[c],
        )
    }
    &&& forall|c: ConnectionId|
        before.connections.contains_key(c) && !(#[trigger] reached.contains(c))
            ==> after.connections[c] == before.connections[c]
    &&& reached.len() == fanout || forall|c: ConnectionId|
        before.connections.contains_key(c) && among(c) && message_is_due(
            cached,
            c,
            topic,
            with_pieces,
            before.state.known(topic, c, object_id),
            before.connections[c],
        ) ==> #[trigger] reached.contains(c)
}

/// The command reports what went wrong on the way to one of some connections.
pub open spec fn is_complaint(
    before: BehaviourModel,
    command: CommandModel,
    topic: Seq<u8>,
    object_id: Seq<u8>,
    cached: Option<ShardBox>,
    among: spec_fn(ConnectionId) -> bool,
) -> bool {
    exists|c: ConnectionId|
        {
            &&& #[trigger] before.connections.contains_key(c)
            &&& among(c)
            &&& complains_of(
                command,
                c,
                before.connections[c],
                topic,
                object_id,
                cached,
                before.state.known(topic, c, object_id),
            )
        }
}

/// Nothing but complaints was added to the commands.
pub open spec fn only_complaints(
    before: BehaviourModel,
    after: BehaviourModel,
    topic: Seq<u8>,
    object_id: Seq<u8>,
    cached: Option<ShardBox>,
    among: spec_fn(ConnectionId) -> bool,
) -> bool {
    &&& before.pending.is_prefix_of(after.pending)
    &&& forall|k: int|
        before.pending.len() <= k < after.pending.len() ==> is_complaint(
            before,
            #[trigger] after.pending[k],
            topic,
            object_id,
            cached,
            among,
        )
}

/// Of the exchange about an object, with some of the connections, what the
/// application answered is remembered, and nothing else. No object is dropped.
pub open spec fn exchange_is_remembered(
    connections: Map<ConnectionId, ConnectionModel>,
    before: StateModel,
    after: StateModel,
    topic: Seq<u8>,
    object_id: Seq<u8>,
    among: spec_fn(ConnectionId) -> bool,
) -> bool {
    &&& forall|t: Seq<u8>, o: Seq<u8>| #[trigger] after.cached(t, o) == before.cached(t, o)
    &&& forall|t: Seq<u8>, c: ConnectionId, o: Seq<u8>|
        !((t, o) == (topic, object_id) && connections.contains_key(c) && among(c))
            ==> #[trigger] after.known(t, c, o) == before.known(t, c, o)
    &&& forall|c: ConnectionId| #[trigger]
        connections.contains_key(c) && among(c) ==> remembers_answers(
            before.cached(topic, object_id),
            connections[c].peer_id,
            c,
            before.known(topic, c, object_id),
            after.known(topic, c, object_id),
        )
}

/// Disseminating an object among some connections, in whatever order, spreads it
/// to as many of them as the fanout, or to all for which a message is due. What
/// the application answered is remembered. What went wrong is reported, at most
/// once for each that was not reached.
pub proof fn law_dissemination_spreads_the_object(
    before: BehaviourModel,
    topic: Seq<u8>,
    object_id: Seq<u8>,
    with_pieces: bool,
    order: Seq<ConnectionId>,
    fanout: nat,
    run: Run,
    after: BehaviourModel,
    among: spec_fn(ConnectionId) -> bool,
)
    requires
        before.disseminates(topic, object_id, with_pieces, order, fanout, run, after),
        before.state.bounded(),
        order.no_duplicates(),
        forall|i: int| 0 <= i < order.len() ==> before.connections.contains_key(#[trigger] order[i]),
        forall|c: ConnectionId| #[trigger] order.contains(c) <==> before.connections.contains_key(c)
            && among(c),
    ensures
        was_spread_to(
            before,
            after,
            topic,
            object_id,
            before.state.cached(topic, object_id),
            with_pieces,
            fanout,
            among,
            reached_by(order, run.visits),
        ),
        only_complaints(
            before,
            after,
            topic,
            object_id,
            before.state.cached(topic, object_id),
            among,
        ),
        after.pending.len() + reached_by(order, run.visits).len() <= before.pending.len()
            + order.len(),
        exchange_is_remembered(
            before.connections,
            before.state,
            after.state,
            topic,
            object_id,
            among,
        ),
        same_circumstances(before, after),
{
    let n = run.visits.len() as int;
    let reached = reached_by(order, run.visits);
    let cached = before.state.cached(topic, object_id);
    lemma_run(before, topic, object_id, with_pieces, order, run, after, n);
    lemma_run_delivers(before, topic, object_id, with_pieces, order, run, after, n);
    lemma_reached(order, run.visits);
    assert(run.models[n] == after) by {
        reveal(BehaviourModel::goes_through);
    }
    assert(run.visits.take(n) =~= run.visits);
    law_dissemination_is_bounded(
        before,
        topic,
        object_id,
        with_pieces,
        order,
        fanout,
        run,
        after,
    );
    assert forall|c: ConnectionId| #[trigger] reached.contains(c) implies {
        &&& among(c)
        &&& before.connections.contains_key(c)
        &&& answer_went_out(
            cached,
            c,
            topic,
            object_id,
            with_pieces,
            before.state.known(topic, c, object_id),
            after.state.known(topic, c, object_id),
            before.connections[c],
            after.connections[c],
        )
    } by {
        let i = choose|i: int|
            0 <= i < run.visits.len() && #[trigger] order[i] == c && sent(run.visits[i]);
        assert(order.contains(c));
    }
    assert forall|c: ConnectionId|
        before.connections.contains_key(c) && !(#[trigger] reached.contains(c)) implies
        after.connections[c] == before.connections[c] by {
        if order.contains(c) {
            let i = order.index_of(c);
            assert(order[i] == c);
        }
    }
    if reached.len() != fanout {
        assert forall|c: ConnectionId|
            before.connections.contains_key(c) && among(c) && message_is_due(
                cached,
                c,
                topic,
                with_pieces,
                before.state.known(topic, c, object_id),
                before.connections[c],
            ) implies #[trigger] reached.contains(c) by {
            assert(order.contains(c));
            let i = order.index_of(c);
            assert(order[i] == c);
            assert(sent(run.visits[i]));
        }
    }
    assert forall|k: int| before.pending.len() <= k < after.pending.len() implies is_complaint(
        before,
        #[trigger] after.pending[k],
        topic,
        object_id,
        cached,
        among,
    ) by {
        let i = choose|i: int|
            0 <= i < n && complains_of(
                after.pending[k],
                #[trigger] order[i],
                before.connections[order[i]],
                topic,
                object_id,
                cached,
                before.state.known(topic, order[i], object_id),
            );
        assert(order.contains(order[i]));
        assert(before.connections.contains_key(order[i]));
    }
    assert forall|t: Seq<u8>, c: ConnectionId, o: Seq<u8>|
        !((t, o) == (topic, object_id) && before.connections.contains_key(c) && among(c)) implies
        #[trigger] after.state.known(t, c, o) == before.state.known(t, c, o) by {
        if (t, o) == (topic, object_id) {
            assert(!order.contains(c));
            assert(!order.take(n).contains(c)) by {
                if order.take(n).contains(c) {
                    let i = order.take(n).index_of(c);
                    assert(order[i] == c);
                }
            }
        }
    }
    assert forall|c: ConnectionId| #[trigger]
        before.connections.contains_key(c) && among(c) implies remembers_answers(
        cached,
        before.connections[c].peer_id,
        c,
        before.state.known(topic, c, object_id),
        after.state.known(topic, c, object_id),
    ) by {
        assert(order.contains(c));
        let i = order.index_of(c);
        assert(order[i] == c);
        if i >= n {
            assert(!order.take(n).contains(c)) by {
                if order.take(n).contains(c) {
                    let j = order.take(n).index_of(c);
                    assert(order[j] == c);
                }
            }
        }
    }
}

/// The configuration is the same, the same connections are established, and the
/// local node is subscribed to the same topics.
pub open spec fn same_circumstances(before: BehaviourModel, after: BehaviourModel) -> bool {
    &&& after.config == before.config
    &&& after.connections.dom() == before.connections.dom()
    &&& after.connection_ids == before.connection_ids
    &&& after.subscribed == before.subscribed
    &&& after.topics == before.topics
}

/// The connection is that of a subscriber of the topic.
pub open spec fn subscribes(before: BehaviourModel, topic: Seq<u8>) -> spec_fn(ConnectionId) -> bool {
    |c: ConnectionId|
        before.connections.contains_key(c) && before.connections[c].hub.queues.contains_key(topic)
}

/// The connection is that of a subscriber of the topic, and not this one.
pub open spec fn subscribes_elsewhere(
    before: BehaviourModel,
    topic: Seq<u8>,
    but: ConnectionId,
) -> spec_fn(ConnectionId) -> bool {
    |c: ConnectionId|
        c != but && before.connections.contains_key(c)
            && before.connections[c].hub.queues.contains_key(topic)
}

/// The subscribers of a topic are the connections with a queue for it, each
/// once.
pub proof fn law_subscribers_have_a_queue(
    before: BehaviourModel,
    topic: Seq<u8>,
    but: ConnectionId,
)
    requires
        before.consistent(),
    ensures
        before.subscribers(topic).no_duplicates(),
        forall|c: ConnectionId| #[trigger] before.subscribers(topic).contains(c) <==> subscribes(
            before,
            topic,
        )(c),
        before.other_subscribers(topic, but).no_duplicates(),
        forall|c: ConnectionId| #[trigger] before.other_subscribers(topic, but).contains(c)
            <==> subscribes_elsewhere(before, topic, but)(c),
{
    let kept = |c: ConnectionId| before.is_subscriber(c, topic);
    lemma_filter_distinct(before.connection_ids, kept);
    lemma_filter_distinct(before.connection_ids, before.is_other_subscriber(topic, but));
    assert forall|c: ConnectionId| #[trigger] before.subscribers(topic).contains(c) <==> subscribes(
        before,
        topic,
    )(c) by {
        if subscribes(before, topic)(c) {
            assert(before.connection_ids.contains(c));
            lemma_filter_keeps(before.connection_ids, kept, c);
        }
    }
    assert forall|c: ConnectionId| #[trigger] before.other_subscribers(topic, but).contains(c)
        <==> subscribes_elsewhere(before, topic, but)(c) by {
        if subscribes_elsewhere(before, topic, but)(c) {
            assert(before.connection_ids.contains(c));
            lemma_filter_keeps(before.connection_ids, before.is_other_subscriber(topic, but), c);
        }
    }
}

/// Where the metadata of an object is unchanged, publishing it sends nothing
/// and succeeds. Otherwise the object is spread to subscribers of the topic, as
/// many as the publish fanout or all for which a message is due: each is told
/// what the application answers for it, with the data. Publishing succeeds
/// exactly if somebody was reached. Either way the object is cached, and the
/// application is told of nothing but what went wrong.
pub proof fn law_publishing_spreads_the_object(
    before: BehaviourModel,
    topic: Seq<u8>,
    shard: ShardBox,
    order: Seq<ConnectionId>,
    changed: bool,
    run: Run,
    r: PublishModel,
    after: BehaviourModel,
)
    requires
        before.consistent(),
        order.to_multiset() == before.subscribers(topic).to_multiset(),
        before.publishes(topic, shard, order, changed, run, r, after),
    ensures
        is_news(before.state, topic, shard, changed),
        after.state.cached(topic, shard.shard.id()) == Some(shard),
        same_circumstances(before, after),
        only_complaints(
            before,
            after,
            topic,
            shard.shard.id(),
            Some(shard),
            subscribes(before, topic),
        ),
        exchange_is_remembered(
            before.connections,
            before.state.store(topic, shard),
            after.state,
            topic,
            shard.shard.id(),
            subscribes(before, topic),
        ),
        !changed ==> {
            &&& r == PublishModel::Published
            &&& after.connections == before.connections
            &&& after.pending == before.pending
            &&& after.state.remote == before.state.remote
        },
        changed ==> exists|reached: Seq<ConnectionId>| {
            &&& #[trigger] was_spread_to(
                before,
                after,
                topic,
                shard.shard.id(),
                Some(shard),
                true,
                fanout_of(before, topic, true),
                subscribes(before, topic),
                reached,
            )
            &&& r == PublishModel::Published <==> reached.len() > 0
            &&& after.pending.len() + reached.len() <= before.pending.len() + before.subscribers(
                topic,
            ).len()
        },
{
    law_publish(before, topic, shard, order, changed, run, r, after);
    law_storing_reports_news(before.state, topic, shard, changed);
    law_stored_object_is_cached(before.state, topic, shard);
    if changed {
        let stored = before.with_state(before.state.store(topic, shard));
        law_subscribers_have_a_queue(before, topic, arbitrary());
        lemma_shuffled_distinct(before.subscribers(topic), order);
        assert forall|i: int| 0 <= i < order.len() implies stored.connections.contains_key(
            #[trigger] order[i],
        ) by {
            assert(order.contains(order[i]));
        }
        assert forall|c: ConnectionId| #[trigger] order.contains(c)
            <==> stored.connections.contains_key(c) && subscribes(before, topic)(c) by {
            assert(order.contains(c) <==> before.subscribers(topic).contains(c));
        }
        law_dissemination_spreads_the_object(
            stored,
            topic,
            shard.id(),
            true,
            order,
            fanout_of(before, topic, true),
            run,
            after,
            subscribes(before, topic),
        );
        let reached = reached_by(order, run.visits);
        assert forall|c: ConnectionId| stored.state.known(topic, c, shard.id())
            == #[trigger] before.state.known(topic, c, shard.id()) by {}
        lemma_reached(order, run.visits);
        assert(was_spread_to(
            before,
            after,
            topic,
            shard.shard.id(),
            Some(shard),
            true,
            fanout_of(before, topic, true),
            subscribes(before, topic),
            reached,
        ));
        assert forall|k: int| before.pending.len() <= k < after.pending.len() implies is_complaint(
            before,
            #[trigger] after.pending[k],
            topic,
            shard.shard.id(),
            Some(shard),
            subscribes(before, topic),
        ) by {
            assert(is_complaint(
                stored,
                after.pending[k],
                topic,
                shard.shard.id(),
                Some(shard),
                subscribes(before, topic),
            ));
        }
    }
}

/// The connections that were visited in some way.
pub proof fn lemma_visited(
    order: Seq<ConnectionId>,
    visits: Seq<Visit>,
    kind: spec_fn(Visit) -> bool,
)
    requires
        visits.len() <= order.len(),
    ensures
        forall|c: ConnectionId| #[trigger]
            visited(order, visits, kind).contains(c) <==> exists|i: int|
                0 <= i < visits.len() && #[trigger] order[i] == c && kind(visits[i]),
    decreases visits.len(),
{
    if visits.len() > 0 {
        let init = visits.drop_last();
        let n = visits.len() - 1;
        lemma_visited(order, init, kind);
        let had = visited(order, init, kind);
        let has = visited(order, visits, kind);
        assert forall|c: ConnectionId| #[trigger] has.contains(c) <==> exists|i: int|
            0 <= i < visits.len() && #[trigger] order[i] == c && kind(visits[i]) by {
            if has.contains(c) {
                if had.contains(c) {
                    let i = choose|i: int|
                        0 <= i < init.len() && #[trigger] order[i] == c && kind(init[i]);
                    assert(visits[i] == init[i]);
                } else {
                    let j = has.index_of(c);
                    if j < had.len() {
                        assert(had[j] == c);
                    }
                    assert(order[n] == c);
                }
            }
            if exists|i: int| 0 <= i < visits.len() && #[trigger] order[i] == c && kind(visits[i]) {
                let i = choose|i: int|
                    0 <= i < visits.len() && #[trigger] order[i] == c && kind(visits[i]);
                if i < n {
                    assert(init[i] == visits[i]);
                    let j = had.index_of(c);
                    assert(has[j] == c);
                } else {
                    assert(has[has.len() - 1] == c);
                }
            }
        }
    }
}

/// The list keeps to the order, and holds no connection twice.
pub open spec fn keeps_to_the_order(order: Seq<ConnectionId>, listed: Seq<ConnectionId>) -> bool {
    forall|i: int, j: int|
        #![trigger listed[i], listed[j]]
        0 <= i < j < listed.len() ==> order.index_of(listed[i]) < order.index_of(listed[j])
}

/// The connections that were visited in some way are listed in the order of the
/// visits.
pub proof fn lemma_visited_in_order(
    order: Seq<ConnectionId>,
    visits: Seq<Visit>,
    kind: spec_fn(Visit) -> bool,
)
    requires
        visits.len() <= order.len(),
        order.no_duplicates(),
    ensures
        keeps_to_the_order(order, visited(order, visits, kind)),
    decreases visits.len(),
{
    if visits.len() > 0 {
        let init = visits.drop_last();
        let n = visits.len() - 1;
        lemma_visited_in_order(order, init, kind);
        lemma_visited(order, init, kind);
        let had = visited(order, init, kind);
        let has = visited(order, visits, kind);
        assert forall|i: int, j: int|
            #![trigger has[i], has[j]]
            0 <= i < j < has.len() implies order.index_of(has[i]) < order.index_of(has[j]) by {
            assert(has[i] == had[i]);
            if j < had.len() {
                assert(has[j] == had[j]);
            } else {
                assert(had.contains(had[i]));
                let k = choose|k: int|
                    0 <= k < init.len() && #[trigger] order[k] == had[i] && kind(init[k]);
                assert(order.index_of(order[k]) == k);
                assert(order.index_of(order[n]) == n);
            }
        }
    }
}

/// An unsent publish says why for every subscriber. Each is listed as full,
/// listed as needing nothing, reported with data that does not reconcile, or
/// has a channel that closes. A full one has no room, and is reported. One that
/// needs nothing is such that the application gave no data and its metadata is
/// no news. Nobody but subscribers is listed, nobody twice, and each list keeps
/// to the order of the visits.
pub proof fn law_unsent_publish_says_why(
    before: BehaviourModel,
    topic: Seq<u8>,
    shard: ShardBox,
    order: Seq<ConnectionId>,
    changed: bool,
    run: Run,
    full: Seq<ConnectionId>,
    no_data: Seq<ConnectionId>,
    after: BehaviourModel,
    connection: ConnectionId,
)
    requires
        before.consistent(),
        order.to_multiset() == before.subscribers(topic).to_multiset(),
        before.publishes(
            topic,
            shard,
            order,
            changed,
            run,
            PublishModel::MessageNotSent { full, no_data },
            after,
        ),
    ensures
        keeps_to_the_order(order, full),
        keeps_to_the_order(order, no_data),
        full.contains(connection) || no_data.contains(connection) ==> subscribes(before, topic)(
            connection,
        ),
        full.contains(connection) ==> {
            &&& !no_data.contains(connection)
            &&& !before.connections[connection].hub.has_room(topic)
            &&& exists|k: int|
                before.pending.len() <= k < after.pending.len() && reports_full_queue(
                    #[trigger] after.pending[k],
                    before.connections[connection].peer_id,
                )
        },
        no_data.contains(connection) ==> exists|action: Action, advertised: Seq<u8>| {
            &&& #[trigger] application_answers(
                shard,
                before.connections[connection].peer_id,
                connection,
                before.state.known(topic, connection, shard.shard.id()),
                action,
                advertised,
                Ok(false),
                after.state.known(topic, connection, shard.shard.id()),
            )
            &&& action.send is None
        },
        subscribes(before, topic)(connection) && !full.contains(connection) && !no_data.contains(
            connection,
        ) ==> before.connections[connection].hub.queues[topic].closes || exists|
            k: int,
            reason: Error,
        |
            before.pending.len() <= k < after.pending.len() && #[trigger] reports_invalid_data(
                after.pending[k],
                before.connections[connection].peer_id,
                topic,
                shard.shard.id(),
                reason,
            ),
{
    let id = shard.shard.id();
    law_publish(
        before,
        topic,
        shard,
        order,
        changed,
        run,
        PublishModel::MessageNotSent { full, no_data },
        after,
    );
    law_stored_object_is_cached(before.state, topic, shard);
    let stored = before.with_state(before.state.store(topic, shard));
    law_subscribers_have_a_queue(before, topic, connection);
    lemma_shuffled_distinct(before.subscribers(topic), order);
    assert forall|i: int| 0 <= i < order.len() implies stored.connections.contains_key(
        #[trigger] order[i],
    ) by {
        assert(order.contains(order[i]));
    }
    let n = run.visits.len() as int;
    lemma_run(stored, topic, id, true, order, run, after, n);
    lemma_run_delivers(stored, topic, id, true, order, run, after, n);
    assert(run.models[n] == after) by {
        reveal(BehaviourModel::goes_through);
    }
    let was_full = |v: Visit| behaviour::was_full(v);
    let had_nothing = |v: Visit| behaviour::had_nothing(v);
    lemma_visited(order, run.visits, was_full);
    lemma_visited(order, run.visits, had_nothing);
    lemma_visited_in_order(order, run.visits, was_full);
    lemma_visited_in_order(order, run.visits, had_nothing);
    assert(full.contains(connection) <==> exists|i: int|
        0 <= i < n && #[trigger] order[i] == connection && was_full(run.visits[i]));
    assert(no_data.contains(connection) <==> exists|i: int|
        0 <= i < n && #[trigger] order[i] == connection && had_nothing(run.visits[i]));
    if order.contains(connection) {
        let i = order.index_of(connection);
        assert forall|j: int| 0 <= j < order.len() && #[trigger] order[j] == connection implies j
            == i by {}
        lemma_run(stored, topic, id, true, order, run, after, i);
        lemma_run_kept(stored, topic, id, true, order, run, after, i, n);
        let here = run.models[i];
        let next = run.models[i + 1];
        let visit = run.visits[i];
        assert(!order.take(i).contains(connection));
        assert(here.visits(topic, id, true, connection, visit, next)) by {
            reveal(BehaviourModel::goes_through);
        }
        assert(here.state.cached(topic, id) == Some(shard));
        assert(here.state.known(topic, connection, id) == before.state.known(topic, connection, id));
        reveal(BehaviourModel::visits);
        if visit is NoData || visit is Withheld {
            let r: Result<Option<ReconcileActionModel>, Error> = match visit {
                Visit::Withheld(action) => Ok(Some(action)),
                _ => Ok(None),
            };
            law_reconcile_tells_what_is_new(
                here.state,
                topic,
                connection,
                before.connections[connection].peer_id,
                id,
                shard,
                r,
                next.state,
            );
        }
    } else {
        assert(!before.subscribers(topic).contains(connection));
        assert(!full.contains(connection)) by {
            if full.contains(connection) {
                let i = choose|i: int|
                    0 <= i < n && #[trigger] order[i] == connection && was_full(run.visits[i]);
                assert(order.contains(connection));
            }
        }
        assert(!no_data.contains(connection)) by {
            if no_data.contains(connection) {
                let i = choose|i: int|
                    0 <= i < n && #[trigger] order[i] == connection && had_nothing(run.visits[i]);
                assert(order.contains(connection));
            }
        }
    }
}

/// What is known of a connection after its visit stays for the rest of the run.
proof fn lemma_run_kept(
    before: BehaviourModel,
    topic: Seq<u8>,
    object_id: Seq<u8>,
    with_pieces: bool,
    order: Seq<ConnectionId>,
    run: Run,
    after: BehaviourModel,
    i: int,
    n: int,
)
    requires
        before.goes_through(topic, object_id, with_pieces, order, run, after),
        run.visits.len() <= order.len(),
        order.no_duplicates(),
        forall|i: int| 0 <= i < order.len() ==> before.connections.contains_key(#[trigger] order[i]),
        0 <= i < n <= run.visits.len(),
        before.state.bounded(),
    ensures
        run.models[n].state.known(topic, order[i], object_id) == run.models[i + 1].state.known(
            topic,
            order[i],
            object_id,
        ),
    decreases n,
{
    if n > i + 1 {
        lemma_run_kept(before, topic, object_id, with_pieces, order, run, after, i, n - 1);
        lemma_run(before, topic, object_id, with_pieces, order, run, after, n - 1);
        let m = run.models[n - 1];
        assert(m.visits(
            topic,
            object_id,
            with_pieces,
            order[n - 1],
            run.visits[n - 1],
            run.models[n],
        )) by {
            reveal(BehaviourModel::goes_through);
        }
        assert(m.connections.contains_key(order[n - 1]));
        lemma_visit(
            m,
            topic,
            object_id,
            with_pieces,
            order[n - 1],
            run.visits[n - 1],
            run.models[n],
        );
        assert(order[i] != order[n - 1]);
    }
}

/// What a received message comes to, for a topic that the local node is
/// subscribed to, where its reconciliation had this outcome. Data that does not
/// reconcile is reported, and that is all. Where there is nothing to do, nothing
/// is done. Otherwise the message goes to the application exactly if it is
/// needed, the peer is answered on its connection, and the metadata is gossiped
/// to others, as far as they are due it. An answer for a connection that is
/// gone is dropped, and nothing is gossiped.
pub open spec fn message_is_handled(
    before: BehaviourModel,
    peer: PeerId,
    connection: ConnectionId,
    received: Received,
    outcome: Result<Option<ReceivedActionModel>, Error>,
    reconciled: StateModel,
    after: BehaviourModel,
) -> bool {
    let topic = received.topic_id@;
    let object_id = received.object_id@;
    let n = before.pending.len() as int;
    &&& same_circumstances(before, after)
    &&& match outcome {
        Err(reason) => {
            &&& after.state == reconciled
            &&& after.connections == before.connections
            &&& after.pending.len() == n + 1
            &&& before.pending.is_prefix_of(after.pending)
            &&& reports_invalid_data(after.pending[n], peer, topic, object_id, reason)
        },
        Ok(None) => {
            &&& after.state == reconciled
            &&& after.connections == before.connections
            &&& after.pending == before.pending
        },
        Ok(Some(action)) => {
            &&& before.pending.is_prefix_of(after.pending)
            &&& action.emit ==> after.pending.len() > n && hands_over(
                after.pending[n],
                peer,
                received,
            )
            &&& forall|k: int|
                n <= k < after.pending.len() && !(action.emit && k == n) ==> is_complaint(
                    before,
                    #[trigger] after.pending[k],
                    topic,
                    object_id,
                    before.state.cached(topic, object_id),
                    subscribes_elsewhere(before, topic, connection),
                ) || (action.send is Some && before.connections.contains_key(connection)
                    && reports_full_queue(after.pending[k], peer) && may_be_full(
                    before.connections[connection].hub,
                    topic,
                ))
            &&& after.pending.len() <= n + (if action.emit {
                1int
            } else {
                0
            }) + (if action.send is Some {
                1int
            } else {
                0
            }) + before.other_subscribers(topic, connection).len()
            &&& exchange_is_remembered(
                before.connections,
                reconciled,
                after.state,
                topic,
                object_id,
                subscribes_elsewhere(before, topic, connection),
            )
            &&& before.connections.contains_key(connection) ==> {
                let was = before.connections[connection];
                let now = after.connections[connection];
                match action.send {
                    None => now == was,
                    Some(reply) => {
                        let message = ObjectPiecesModel {
                            object_id,
                            pieces_metadata: Some(reply.1),
                            pieces: Some(reply.0),
                        };
                        &&& now == was || one_more_queued(was, now, topic, message)
                        &&& was.hub.has_room(topic) ==> one_more_queued(was, now, topic, message)
                        &&& was.hub.queues.contains_key(topic) && now == was
                            && !was.hub.queues[topic].closes ==> exists|k: int|
                            n <= k < after.pending.len() && reports_full_queue(
                                #[trigger] after.pending[k],
                                peer,
                            )
                    },
                }
            }
            &&& if action.send is Some && !before.connections.contains_key(connection) {
                after.connections == before.connections && after.state == reconciled
            } else {
                was_gossiped(before, connection, topic, object_id, after)
            }
        },
    }
}

/// The command hands a received message to the application.
pub open spec fn hands_over(command: CommandModel, peer: PeerId, received: Received) -> bool {
    command matches CommandModel::GenerateEvent(
        EventModel::Received { topic_id, peer_id, received: handed },
    ) && {
        &&& topic_id == received.topic_id@
        &&& peer_id == peer
        &&& handed.topic_id == received.topic_id@
        &&& handed.object_id == received.object_id@
        &&& same_bytes_told(handed.metadata, received.metadata)
        &&& same_bytes_told(handed.pieces, received.pieces)
    }
}

/// The two are the same bytes, or neither is there.
pub open spec fn same_bytes_told(model: Option<Seq<u8>>, bytes: Option<Vec<u8>>) -> bool {
    match bytes {
        Some(bytes) => model == Some(bytes@),
        None => model is None,
    }
}

/// The metadata of the object was gossiped to other subscribers of the topic,
/// as many as the gossip fanout or all that are due it.
pub open spec fn was_gossiped(
    before: BehaviourModel,
    from: ConnectionId,
    topic: Seq<u8>,
    object_id: Seq<u8>,
    after: BehaviourModel,
) -> bool {
    exists|reached: Seq<ConnectionId>| {
        &&& #[trigger] reached.no_duplicates()
        &&& reached.len() <= fanout_of(before, topic, false)
        &&& forall|c: ConnectionId| #[trigger] reached.contains(c) ==> {
            &&& subscribes_elsewhere(before, topic, from)(c)
            &&& answer_went_out(
                before.state.cached(topic, object_id),
                c,
                topic,
                object_id,
                false,
                before.state.known(topic, c, object_id),
                after.state.known(topic, c, object_id),
                before.connections[c],
                after.connections[c],
            )
        }
        &&& forall|c: ConnectionId|
            c != from && before.connections.contains_key(c) && !(#[trigger] reached.contains(c))
                ==> after.connections[c] == before.connections[c]
        &&& reached.len() == fanout_of(before, topic, false) || forall|c: ConnectionId|
            subscribes_elsewhere(before, topic, from)(c) && message_is_due(
                before.state.cached(topic, object_id),
                c,
                topic,
                false,
                before.state.known(topic, c, object_id),
                before.connections[c],
            ) ==> #[trigger] reached.contains(c)
    }
}

/// A message for a subscribed topic is handled as its reconciliation says. See
/// [`message_is_handled`].
pub proof fn law_received_message_is_handled(
    before: BehaviourModel,
    peer: PeerId,
    connection: ConnectionId,
    received: Received,
    after: BehaviourModel,
)
    requires
        before.consistent(),
        before.handles_received(peer, connection, received, after),
        before.subscribed.contains_key(received.topic_id@),
    ensures
        exists|
            outcome: Result<Option<ReceivedActionModel>, Error>,
            reconciled: StateModel,
        | {
            &&& #[trigger] before.state.receives(connection, peer, received, outcome, reconciled)
            &&& message_is_handled(
                before,
                peer,
                connection,
                received,
                outcome,
                reconciled,
                after,
            )
        },
{
    let topic = received.topic_id@;
    let object_id = received.object_id@;
    let n = before.pending.len() as int;
    let (outcome, dispatched, gossip, middle) = choose|
        outcome: Result<Option<ReceivedActionModel>, Error>,
        dispatched: Result<(), SendError>,
        gossip: bool,
        middle: BehaviourModel,
    | {
        &&& #[trigger] before.takes_up(
            peer,
            connection,
            received,
            outcome,
            dispatched,
            gossip,
            middle,
        )
        &&& if gossip {
            exists|order: Seq<ConnectionId>, run: Run| #[trigger]
                middle.gossips(topic, object_id, connection, order, run, after)
        } else {
            after == middle
        }
    };
    lemma_take_up(before, peer, connection, received, outcome, dispatched, gossip, middle);
    let reconciled = middle.state;
    assert(before.state.receives(connection, peer, received, outcome, reconciled));
    law_receive_is_local(before.state, connection, peer, received, outcome, reconciled);
    if let Ok(Some(action)) = outcome {
        let delivered = before.with_state(middle.state).deliver(peer, received@, action.emit);
        let start = delivered.pending.len() as int;
        if action.emit {
            assert(hands_over(delivered.pending[n], peer, received));
            assert(middle.pending[n] == delivered.pending[n]);
        }
        assert(delivered.pending.is_prefix_of(middle.pending));
        assert forall|k: int| start <= k < middle.pending.len() implies {
            &&& before.connections.contains_key(connection)
            &&& action.send is Some
            &&& reports_full_queue(#[trigger] middle.pending[k], peer)
            &&& may_be_full(before.connections[connection].hub, topic)
        } by {}
        assert(middle.pending.len() <= start + (if action.send is Some {
            1int
        } else {
            0
        }));
        let connected = before.connections.contains_key(connection);
        if connected {
            let was = before.connections[connection];
            let now = middle.connections[connection];
            if let Some(reply) = action.send {
                let message = ObjectPiecesModel {
                    object_id,
                    pieces_metadata: Some(reply.1),
                    pieces: Some(reply.0),
                };
                assert(delivered.answers(peer, connection, received@, reply, dispatched, middle));
                if dispatched is Ok {
                    assert(now.hub == was.hub.queue(topic, message));
                    assert(now.hub.queues.dom() =~= was.hub.queues.dom());
                    assert(one_more_queued(was, now, topic, message));
                } else {
                    assert(now == was);
                    if dispatched == Err::<(), SendError>(SendError::Full) {
                        assert(reports_full_queue(middle.pending[start], peer));
                    }
                }
            }
        }
        if gossip {
            let (order, run) = choose|order: Seq<ConnectionId>, run: Run| #[trigger]
                middle.gossips(topic, object_id, connection, order, run, after);
            law_subscribers_have_a_queue(middle, topic, connection);
            lemma_shuffled_distinct(middle.other_subscribers(topic, connection), order);
            let among = subscribes_elsewhere(middle, topic, connection);
            assert forall|i: int| 0 <= i < order.len() implies middle.connections.contains_key(
                #[trigger] order[i],
            ) by {
                assert(order.contains(order[i]));
            }
            law_dissemination_spreads_the_object(
                middle,
                topic,
                object_id,
                false,
                order,
                fanout_of(before, topic, false),
                run,
                after,
                among,
            );
            let reached = reached_by(order, run.visits);
            assert(!reached.contains(connection)) by {
                if reached.contains(connection) {
                    assert(among(connection));
                }
            }
            if connected {
                assert(after.connections[connection] == middle.connections[connection]);
            }
            assert forall|c: ConnectionId| c != connection implies {
                &&& #[trigger] middle.state.known(topic, c, object_id) == before.state.known(
                    topic,
                    c,
                    object_id,
                )
                &&& subscribes_elsewhere(before, topic, connection)(c) == among(c)
            } by {
                if before.connections.contains_key(c) {
                    assert(middle.connections[c] == before.connections[c]);
                }
            }
            assert(middle.state.cached(topic, object_id) == before.state.cached(topic, object_id));
            assert(was_gossiped(before, connection, topic, object_id, after)) by {
                assert(reached.no_duplicates());
                assert forall|c: ConnectionId| #[trigger] reached.contains(c) implies {
                    &&& subscribes_elsewhere(before, topic, connection)(c)
                    &&& answer_went_out(
                        before.state.cached(topic, object_id),
                        c,
                        topic,
                        object_id,
                        false,
                        before.state.known(topic, c, object_id),
                        after.state.known(topic, c, object_id),
                        before.connections[c],
                        after.connections[c],
                    )
                } by {
                    assert(c != connection);
                    assert(middle.state.known(topic, c, object_id) == before.state.known(
                        topic,
                        c,
                        object_id,
                    ));
                    assert(middle.connections[c] == before.connections[c]);
                }
                assert forall|c: ConnectionId|
                    c != connection && before.connections.contains_key(c)
                        && !(#[trigger] reached.contains(c)) implies after.connections[c]
                    == before.connections[c] by {
                    assert(middle.connections[c] == before.connections[c]);
                }
                if reached.len() != fanout_of(before, topic, false) {
                    assert forall|c: ConnectionId|
                        subscribes_elsewhere(before, topic, connection)(c) && message_is_due(
                            before.state.cached(topic, object_id),
                            c,
                            topic,
                            false,
                            before.state.known(topic, c, object_id),
                            before.connections[c],
                        ) implies #[trigger] reached.contains(c) by {
                        assert(middle.state.known(topic, c, object_id) == before.state.known(
                            topic,
                            c,
                            object_id,
                        ));
                        assert(middle.connections[c] == before.connections[c]);
                        assert(among(c));
                    }
                }
            }
            assert forall|k: int|
                n <= k < after.pending.len() && !(action.emit && k == n) implies is_complaint(
                before,
                #[trigger] after.pending[k],
                topic,
                object_id,
                before.state.cached(topic, object_id),
                subscribes_elsewhere(before, topic, connection),
            ) || (action.send is Some && before.connections.contains_key(connection)
                && reports_full_queue(after.pending[k], peer) && may_be_full(
                before.connections[connection].hub,
                topic,
            )) by {
                if k < middle.pending.len() {
                    assert(after.pending[k] == middle.pending[k]);
                } else {
                    let c = choose|c: ConnectionId|
                        {
                            &&& #[trigger] middle.connections.contains_key(c)
                            &&& among(c)
                            &&& complains_of(
                                after.pending[k],
                                c,
                                middle.connections[c],
                                topic,
                                object_id,
                                middle.state.cached(topic, object_id),
                                middle.state.known(topic, c, object_id),
                            )
                        };
                    assert(before.connections.contains_key(c));
                    assert(middle.connections[c] == before.connections[c]);
                    assert(middle.state.known(topic, c, object_id) == before.state.known(
                        topic,
                        c,
                        object_id,
                    ));
                }
            }
            law_subscribers_have_a_queue(before, topic, connection);
            assert(middle.other_subscribers(topic, connection).len() == before.other_subscribers(
                topic,
                connection,
            ).len()) by {
                let ours = before.other_subscribers(topic, connection);
                let theirs = middle.other_subscribers(topic, connection);
                ours.unique_seq_to_set();
                theirs.unique_seq_to_set();
                assert forall|c: ConnectionId| ours.to_set().contains(c) == theirs.to_set().contains(
                    c,
                ) by {
                    assert(ours.contains(c) == theirs.contains(c));
                }
                assert(ours.to_set() =~= theirs.to_set());
            }
            assert(exchange_is_remembered(
                before.connections,
                reconciled,
                after.state,
                topic,
                object_id,
                subscribes_elsewhere(before, topic, connection),
            )) by {
                assert forall|c: ConnectionId| before.connections.contains_key(c) implies {
                    &&& middle.connections.contains_key(c)
                    &&& subscribes_elsewhere(before, topic, connection)(c) == among(c)
                    &&& among(c) ==> #[trigger] before.connections[c] == middle.connections[c]
                } by {}
            }
            if action.emit {
                assert(after.pending[n] == middle.pending[n]);
            }
            if connected && action.send is Some && dispatched == Err::<(), SendError>(
                SendError::Full,
            ) {
                assert(after.pending[start] == middle.pending[start]);
                assert(reports_full_queue(after.pending[start], peer));
            }
        }
    }
    assert(message_is_handled(before, peer, connection, received, outcome, reconciled, after));
}

/// The message has something new in it: pieces, or metadata other than what
/// the peer told before, of a peer of which nothing else is known.
pub open spec fn has_something_new(
    before: BehaviourModel,
    connection: ConnectionId,
    received: Received,
) -> bool {
    let known = before.state.known(received.topic_id@, connection, received.object_id@).peer_metadata;
    match received.metadata {
        Some(metadata) => match known {
            None => true,
            Some(PeerViewModel::Remote(told)) => received.pieces is Some || told
                != metadata@,
            Some(PeerViewModel::Local(produced)) => received.pieces is Some && forall|
                bytes: Seq<u8>,
                news: Result<bool, Error>,
            | #[trigger] produced.metadata.accepts(metadata@, bytes, news) ==> news is Ok,
        },
        None => received.pieces is Some,
    }
}

/// Where the application never refuses to act for the peer, a message with
/// something new about a cached object is reconciled with an outcome to act on.
proof fn lemma_new_message(
    before: BehaviourModel,
    peer: PeerId,
    connection: ConnectionId,
    received: Received,
    shard: ShardBox,
    outcome: Result<Option<ReceivedActionModel>, Error>,
    reconciled: StateModel,
)
    requires
        before.state.receives(connection, peer, received, outcome, reconciled),
        before.state.cached(received.topic_id@, received.object_id@) == Some(shard),
        has_something_new(before, connection, received),
        forall|asked: Option<Seq<u8>>, answer: Result<Action, Error>| #[trigger]
            shard.shard.acts(peer, connection, asked, answer) ==> answer is Ok,
    ensures
        outcome matches Ok(Some(_)),
        (forall|asked: Option<Seq<u8>>, answer: Result<Action, Error>| #[trigger]
            shard.shard.acts(peer, connection, asked, answer) ==> (answer matches Ok(action)
                && action.need)) ==> (outcome matches Ok(Some(action)) && action.emit),
        (forall|asked: Option<Seq<u8>>, answer: Result<Action, Error>| #[trigger]
            shard.shard.acts(peer, connection, asked, answer) ==> (answer matches Ok(action)
                && action.send is Some)) ==> (outcome matches Ok(Some(action)) && action.send is Some),
{
    use_received_laws(before.state, connection, peer, received, outcome, reconciled);
}

/// All that the laws on received messages say.
proof fn use_received_laws(
    state: StateModel,
    connection: ConnectionId,
    peer: PeerId,
    received: Received,
    r: Result<Option<ReceivedActionModel>, Error>,
    after: StateModel,
)
    requires
        state.receives(connection, peer, received, r, after),
    ensures
        ({
            let known = state.known(received.topic_id@, connection, received.object_id@).peer_metadata;
            let then = after.known(received.topic_id@, connection, received.object_id@).peer_metadata;
            match received.metadata {
                None => message_is_settled(
                    state,
                    peer,
                    connection,
                    received,
                    known,
                    false,
                    r,
                    then,
                ),
                Some(metadata) => match known {
                    Some(PeerViewModel::Local(produced)) => exists|
                        learned: MetadataBox,
                        news: Result<bool, Error>,
                    | {
                        &&& #[trigger] produced.metadata.accepts(
                            metadata@,
                            learned.metadata.bytes(),
                            news,
                        )
                        &&& match news {
                            Err(e) => r == Err::<Option<ReceivedActionModel>, Error>(e),
                            Ok(news) => message_is_settled(
                                state,
                                peer,
                                connection,
                                received,
                                Some(PeerViewModel::Local(learned)),
                                news,
                                r,
                                then,
                            ),
                        }
                    },
                    _ => message_is_settled(
                        state,
                        peer,
                        connection,
                        received,
                        Some(PeerViewModel::Remote(metadata@)),
                        known != Some(PeerViewModel::Remote(metadata@)),
                        r,
                        then,
                    ),
                },
            }
        }),
{
    let known = state.known(received.topic_id@, connection, received.object_id@).peer_metadata;
    match received.metadata {
        None => {
            law_untold_metadata_stays(state, connection, peer, received, r, after);
        },
        Some(metadata) => {
            match known {
                Some(PeerViewModel::Local(produced)) => {
                    law_told_metadata_is_taken_in(
                        state,
                        connection,
                        peer,
                        received,
                        metadata,
                        produced,
                        r,
                        after,
                    );
                },
                _ => {
                    law_told_metadata_replaces_what_was_told(
                        state,
                        connection,
                        peer,
                        received,
                        metadata,
                        r,
                        after,
                    );
                },
            }
        },
    }
}

/// A needed message reaches the application: where the local node holds the
/// object, the message has something new in it, and the application needs it
/// whatever it is told, the message is handed over, the first of what is added
/// to the commands.
pub proof fn law_needed_message_reaches_the_application(
    before: BehaviourModel,
    peer: PeerId,
    connection: ConnectionId,
    received: Received,
    shard: ShardBox,
    after: BehaviourModel,
)
    requires
        before.consistent(),
        before.handles_received(peer, connection, received, after),
        before.subscribed.contains_key(received.topic_id@),
        before.state.cached(received.topic_id@, received.object_id@) == Some(shard),
        has_something_new(before, connection, received),
        forall|asked: Option<Seq<u8>>, answer: Result<Action, Error>| #[trigger]
            shard.shard.acts(peer, connection, asked, answer) ==> (answer matches Ok(action)
                && action.need),
    ensures
        after.pending.len() > before.pending.len(),
        hands_over(after.pending[before.pending.len() as int], peer, received),
{
    law_received_message_is_handled(before, peer, connection, received, after);
    let (outcome, reconciled) = choose|
        outcome: Result<Option<ReceivedActionModel>, Error>,
        reconciled: StateModel,
    | {
        &&& #[trigger] before.state.receives(connection, peer, received, outcome, reconciled)
        &&& message_is_handled(before, peer, connection, received, outcome, reconciled, after)
    };
    lemma_new_message(before, peer, connection, received, shard, outcome, reconciled);
}

/// A peer that misses something is answered: where the application gives data
/// for the peer whatever it is told, and there is room, the peer is queued
/// data that the application gave for some metadata, with the metadata that it
/// advertises.
pub proof fn law_peer_is_sent_what_it_misses(
    before: BehaviourModel,
    peer: PeerId,
    connection: ConnectionId,
    received: Received,
    shard: ShardBox,
    after: BehaviourModel,
)
    requires
        before.consistent(),
        before.handles_received(peer, connection, received, after),
        before.subscribed.contains_key(received.topic_id@),
        before.state.cached(received.topic_id@, received.object_id@) == Some(shard),
        has_something_new(before, connection, received),
        before.connections.contains_key(connection),
        before.connections[connection].hub.has_room(received.topic_id@),
        forall|asked: Option<Seq<u8>>, answer: Result<Action, Error>| #[trigger]
            shard.shard.acts(peer, connection, asked, answer) ==> (answer matches Ok(action)
                && action.send is Some),
    ensures
        exists|asked: Option<Seq<u8>>, action: Action, advertised: Seq<u8>| {
            &&& #[trigger] shard.shard.acts(peer, connection, asked, Ok(action))
            &&& #[trigger] shard.shard.advertises(advertised)
            &&& one_more_queued(
                before.connections[connection],
                after.connections[connection],
                received.topic_id@,
                ObjectPiecesModel {
                    object_id: received.object_id@,
                    pieces_metadata: Some(advertised),
                    pieces: data_given(action),
                },
            )
        },
{
    law_received_message_is_handled(before, peer, connection, received, after);
    let (outcome, reconciled) = choose|
        outcome: Result<Option<ReceivedActionModel>, Error>,
        reconciled: StateModel,
    | {
        &&& #[trigger] before.state.receives(connection, peer, received, outcome, reconciled)
        &&& message_is_handled(before, peer, connection, received, outcome, reconciled, after)
    };
    lemma_new_message(before, peer, connection, received, shard, outcome, reconciled);
    use_received_laws(before.state, connection, peer, received, outcome, reconciled);
}

/// The connection was queued metadata that the application advertises, without
/// pieces.
pub open spec fn was_told_of(
    shard: ShardBox,
    before: BehaviourModel,
    after: BehaviourModel,
    topic: Seq<u8>,
    object_id: Seq<u8>,
    connection: ConnectionId,
) -> bool {
    exists|advertised: Seq<u8>| {
        &&& #[trigger] shard.shard.advertises(advertised)
        &&& one_more_queued(
            before.connections[connection],
            after.connections[connection],
            topic,
            ObjectPiecesModel { object_id, pieces_metadata: Some(advertised), pieces: None },
        )
    }
}

/// News is gossiped: where a message has something new in it about a cached
/// object, and the application never refuses to act for its peer, every other
/// subscriber that has room, and that the object was never reconciled with, is
/// queued our metadata without pieces, or as many others as the gossip fanout
/// are.
pub proof fn law_news_is_gossiped(
    before: BehaviourModel,
    peer: PeerId,
    connection: ConnectionId,
    received: Received,
    shard: ShardBox,
    after: BehaviourModel,
    other: ConnectionId,
)
    requires
        before.consistent(),
        before.handles_received(peer, connection, received, after),
        before.subscribed.contains_key(received.topic_id@),
        before.state.cached(received.topic_id@, received.object_id@) == Some(shard),
        has_something_new(before, connection, received),
        before.connections.contains_key(connection),
        forall|asked: Option<Seq<u8>>, answer: Result<Action, Error>| #[trigger]
            shard.shard.acts(peer, connection, asked, answer) ==> answer is Ok,
        other != connection,
        before.connections.contains_key(other),
        before.connections[other].hub.has_room(received.topic_id@),
        before.state.known(received.topic_id@, other, received.object_id@).our_metadata is None,
        before.state.known(received.topic_id@, other, received.object_id@).peer_metadata is None,
        forall|answer: Result<Action, Error>| #[trigger]
            shard.shard.acts(before.connections[other].peer_id, other, None, answer)
                ==> answer is Ok,
    ensures
        was_told_of(shard, before, after, received.topic_id@, received.object_id@, other) || exists|
            others: Seq<ConnectionId>,
        | {
            &&& #[trigger] others.no_duplicates()
            &&& others.len() == fanout_of(before, received.topic_id@, false)
            &&& forall|c: ConnectionId| #[trigger] others.contains(c) ==> {
                &&& c != connection
                &&& before.connections.contains_key(c)
                &&& was_told_of(shard, before, after, received.topic_id@, received.object_id@, c)
            }
        },
{
    let topic = received.topic_id@;
    let object_id = received.object_id@;
    law_received_message_is_handled(before, peer, connection, received, after);
    let (outcome, reconciled) = choose|
        outcome: Result<Option<ReceivedActionModel>, Error>,
        reconciled: StateModel,
    | {
        &&& #[trigger] before.state.receives(connection, peer, received, outcome, reconciled)
        &&& message_is_handled(before, peer, connection, received, outcome, reconciled, after)
    };
    lemma_new_message(before, peer, connection, received, shard, outcome, reconciled);
    assert(was_gossiped(before, connection, topic, object_id, after));
    assert(message_is_due(
        Some(shard),
        other,
        topic,
        false,
        before.state.known(topic, other, object_id),
        before.connections[other],
    ));
    let reached = choose|reached: Seq<ConnectionId>| {
        &&& #[trigger] reached.no_duplicates()
        &&& reached.len() <= fanout_of(before, topic, false)
        &&& forall|c: ConnectionId| #[trigger] reached.contains(c) ==> {
            &&& subscribes_elsewhere(before, topic, connection)(c)
            &&& answer_went_out(
                before.state.cached(topic, object_id),
                c,
                topic,
                object_id,
                false,
                before.state.known(topic, c, object_id),
                after.state.known(topic, c, object_id),
                before.connections[c],
                after.connections[c],
            )
        }
        &&& forall|c: ConnectionId|
            c != connection && before.connections.contains_key(c) && !(#[trigger] reached.contains(
                c,
            )) ==> after.connections[c] == before.connections[c]
        &&& reached.len() == fanout_of(before, topic, false) || forall|c: ConnectionId|
            subscribes_elsewhere(before, topic, connection)(c) && message_is_due(
                before.state.cached(topic, object_id),
                c,
                topic,
                false,
                before.state.known(topic, c, object_id),
                before.connections[c],
            ) ==> #[trigger] reached.contains(c)
    };
    assert forall|c: ConnectionId| #[trigger] reached.contains(c) implies was_told_of(
        shard,
        before,
        after,
        topic,
        object_id,
        c,
    ) by {
        let (action, advertised, news) = choose|action: Action, advertised: Seq<u8>, news: bool| {
            &&& #[trigger] application_answers(
                shard,
                before.connections[c].peer_id,
                c,
                before.state.known(topic, c, object_id),
                action,
                advertised,
                Ok(news),
                after.state.known(topic, c, object_id),
            )
            &&& news || (false && action.send is Some)
            &&& one_more_queued(
                before.connections[c],
                after.connections[c],
                topic,
                ObjectPiecesModel {
                    object_id,
                    pieces_metadata: if news {
                        Some(advertised)
                    } else {
                        None
                    },
                    pieces: if false {
                        data_given(action)
                    } else {
                        None
                    },
                },
            )
        };
        assert(shard.shard.advertises(advertised));
    }
    if reached.len() != fanout_of(before, topic, false) {
        assert(reached.contains(other));
    }
}

} // verus!
