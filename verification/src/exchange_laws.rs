//! What a node tells its peers of an object, and what it makes of what they
//! tell it: over all that an application may answer.

use libp2p::swarm::ConnectionId;
use libp2p::PeerId;
use vstd::prelude::*;

use crate::cache::{bounded, entry_at, holds, lemma_without, position};
use crate::handler::Received;
use crate::laws::lemma_track;
use crate::shard::{
    Action, Error, MetadataBox, PeerViewModel, ReceivedActionModel, ReceivedCalls,
    ReconcileActionModel, ReconcileCalls, RemoteViewModel, ShardBox, StateModel,
};

verus! {

/// The data that the application gives for a peer.
pub open spec fn data_given(action: Action) -> Option<Seq<u8>> {
    match action.send {
        Some(sent) => Some(sent.0@),
        None => None,
    }
}

/// What is known of the peer once the application gave an action: where it
/// gave data, the metadata that came with it.
pub open spec fn known_after(known: Option<PeerViewModel>, action: Action) -> Option<PeerViewModel> {
    match action.send {
        Some(sent) => Some(PeerViewModel::Local(sent.1)),
        None => known,
    }
}

/// The metadata of the peer, as the application is asked about it.
pub open spec fn told_by_peer(known: Option<PeerViewModel>) -> Option<Seq<u8>> {
    match known {
        None => None,
        Some(PeerViewModel::Remote(bytes)) => Some(bytes),
        Some(PeerViewModel::Local(metadata)) => Some(metadata.metadata.bytes()),
    }
}

/// The application may answer so when an object is reconciled with a
/// connection: it gives this action for what the peer told, advertises these
/// bytes, and what the peer has seen takes them in with this outcome. Then
/// this is known of the connection.
pub open spec fn application_answers(
    shard: ShardBox,
    peer: PeerId,
    connection: ConnectionId,
    known: RemoteViewModel,
    action: Action,
    advertised: Seq<u8>,
    news: Result<bool, Error>,
    then: RemoteViewModel,
) -> bool {
    &&& shard.shard.acts(peer, connection, told_by_peer(known.peer_metadata), Ok(action))
    &&& shard.shard.advertises(advertised)
    &&& then.peer_metadata == known_after(known.peer_metadata, action)
    &&& then.our_metadata matches Some(ours) && match known.our_metadata {
        Some(seen) => seen.metadata.accepts(advertised, ours.metadata.bytes(), news),
        None => news == Ok::<bool, Error>(true) && shard.shard.advertises(ours.metadata.bytes()),
    }
}

/// Reconciling a cached object tells the peer exactly what is new to it. The
/// data is what the application gives for what the peer told. The metadata is
/// what the application advertises, and it is told exactly if it is news to
/// what the peer has seen, or the peer has seen nothing. With neither, nothing
/// is to be sent. What is sent is what is remembered of the peer. An error is
/// one that the application answered.
pub proof fn law_reconcile_tells_what_is_new(
    state: StateModel,
    topic: Seq<u8>,
    connection: ConnectionId,
    peer: PeerId,
    object_id: Seq<u8>,
    shard: ShardBox,
    r: Result<Option<ReconcileActionModel>, Error>,
    after: StateModel,
)
    requires
        state.reconciles(topic, connection, peer, object_id, r, after),
        state.cached(topic, object_id) == Some(shard),
    ensures
        ({
            let known = state.known(topic, connection, object_id);
            let then = after.known(topic, connection, object_id);
            match r {
                Ok(Some(told)) => exists|action: Action, advertised: Seq<u8>, news: bool| {
                    &&& #[trigger] application_answers(
                        shard,
                        peer,
                        connection,
                        known,
                        action,
                        advertised,
                        Ok(news),
                        then,
                    )
                    &&& told.body == data_given(action)
                    &&& told.metadata == (if news {
                        Some(advertised)
                    } else {
                        None
                    })
                    &&& told.body is Some || told.metadata is Some
                },
                Ok(None) => exists|action: Action, advertised: Seq<u8>| {
                    &&& #[trigger] application_answers(
                        shard,
                        peer,
                        connection,
                        known,
                        action,
                        advertised,
                        Ok(false),
                        then,
                    )
                    &&& action.send is None
                },
                Err(e) => (shard.shard.acts(
                    peer,
                    connection,
                    told_by_peer(known.peer_metadata),
                    Err(e),
                ) && then == known) || exists|action: Action, advertised: Seq<u8>| #[trigger]
                    application_answers(
                        shard,
                        peer,
                        connection,
                        known,
                        action,
                        advertised,
                        Err(e),
                        then,
                    ),
            }
        }),
{
    let known = state.known(topic, connection, object_id);
    let then = after.known(topic, connection, object_id);
    let touched = state.touch(topic, object_id);
    assert forall|v: RemoteViewModel|
        after == #[trigger] touched.track(topic, connection, object_id, v) implies then == v by {
        lemma_track(touched, topic, connection, object_id, v);
    }
    let calls = choose|calls: ReconcileCalls| #[trigger]
        state.reconciles_with(topic, connection, peer, object_id, calls, r, after);
    if let Ok(action) = calls.action {
        assert(application_answers(
            shard,
            peer,
            connection,
            known,
            action,
            calls.published.metadata.bytes(),
            calls.updated,
            then,
        ));
    }
}

/// The application may answer so to a received message, and the outcome is
/// this: its error, or what it needs and what it gives for the peer, with the
/// metadata that it advertises. Then this is known of the peer.
pub open spec fn application_decides(
    shard: ShardBox,
    peer: PeerId,
    connection: ConnectionId,
    told: Option<PeerViewModel>,
    answer: Result<Action, Error>,
    r: Result<Option<ReceivedActionModel>, Error>,
    then: Option<PeerViewModel>,
) -> bool {
    &&& shard.shard.acts(peer, connection, told_by_peer(told), answer)
    &&& match answer {
        Err(e) => r == Err::<Option<ReceivedActionModel>, Error>(e) && then == told,
        Ok(action) => {
            &&& r matches Ok(Some(outcome))
            &&& outcome.emit == action.need
            &&& match data_given(action) {
                Some(data) => {
                    &&& outcome.send matches Some(reply)
                    &&& reply.0 == data
                    &&& shard.shard.advertises(reply.1)
                },
                None => outcome.send is None,
            }
            &&& then == known_after(told, action)
        },
    }
}

/// What comes of a received message, once the peer's metadata is taken in, and
/// is news or not. A message without news and without pieces is done with.
/// Where the object is not cached, it goes to the application. Otherwise the
/// application decides.
pub open spec fn message_is_settled(
    state: StateModel,
    peer: PeerId,
    connection: ConnectionId,
    received: Received,
    told: Option<PeerViewModel>,
    news: bool,
    r: Result<Option<ReceivedActionModel>, Error>,
    then: Option<PeerViewModel>,
) -> bool {
    if !news && received.pieces is None {
        r == Ok::<Option<ReceivedActionModel>, Error>(None) && then == told
    } else {
        match state.cached(received.topic_id@, received.object_id@) {
            None => {
                &&& r matches Ok(Some(outcome)) && outcome.emit && outcome.send is None
                &&& then == told
            },
            Some(shard) => exists|answer: Result<Action, Error>| #[trigger]
                application_decides(shard, peer, connection, told, answer, r, then),
        }
    }
}

/// What is learned of a peer: without metadata, nothing. Where nothing is known
/// of the peer, or what it told itself, exactly the metadata that it tells now
/// is known then, and that is a change unless it is the same. Metadata that the
/// local node produced takes it in, as the application says. What the peer has
/// seen of ours stays.
pub proof fn law_learning_follows_the_peer(
    known: RemoteViewModel,
    metadata: Option<Seq<u8>>,
    learned: MetadataBox,
    outcome: Result<bool, Error>,
    then: RemoteViewModel,
)
    requires
        known.learns(metadata, learned, outcome, then),
    ensures
        then.our_metadata == known.our_metadata,
        match metadata {
            None => {
                &&& then.peer_metadata == known.peer_metadata
                &&& outcome == Ok::<bool, Error>(false)
            },
            Some(told) => match known.peer_metadata {
                Some(PeerViewModel::Local(produced)) => {
                    &&& then.peer_metadata == Some(PeerViewModel::Local(learned))
                    &&& produced.metadata.accepts(told, learned.metadata.bytes(), outcome)
                },
                before => {
                    &&& then.peer_metadata == Some(PeerViewModel::Remote(told))
                    &&& outcome == Ok::<bool, Error>(
                        before != Some(PeerViewModel::Remote(told)),
                    )
                },
            },
        },
{
}

/// Data that is sent replaces what is known of the peer by the metadata that
/// goes with it. Without data, what is known stays.
pub proof fn law_sent_data_is_known_of_the_peer(known: RemoteViewModel, action: Action)
    ensures
        known.after_send(action.send).peer_metadata == known_after(known.peer_metadata, action),
        known.after_send(action.send).our_metadata == known.our_metadata,
{
}

/// What a peer tells replaces what it told before: where nothing is known of
/// the peer, or what it told itself, a message with metadata makes exactly that
/// metadata known, and the application is asked about exactly that metadata. It
/// is news unless the peer told the same before. What the peer has seen of ours
/// stays.
pub proof fn law_told_metadata_replaces_what_was_told(
    state: StateModel,
    connection: ConnectionId,
    peer: PeerId,
    received: Received,
    metadata: Vec<u8>,
    r: Result<Option<ReceivedActionModel>, Error>,
    after: StateModel,
)
    requires
        state.receives(connection, peer, received, r, after),
        received.metadata == Some(metadata),
        !(state.known(received.topic_id@, connection, received.object_id@).peer_metadata matches Some(
            PeerViewModel::Local(_),
        )),
    ensures
        ({
            let known = state.known(received.topic_id@, connection, received.object_id@);
            let then = after.known(received.topic_id@, connection, received.object_id@);
            let told = Some(PeerViewModel::Remote(metadata@));
            &&& message_is_settled(
                state,
                peer,
                connection,
                received,
                told,
                known.peer_metadata != told,
                r,
                then.peer_metadata,
            )
            &&& then.our_metadata == known.our_metadata
        }),
{
    lemma_received(state, connection, peer, received, r, after);
}

/// Where the local node produced what is known of the peer, a message with
/// metadata is taken in as the application says, and the application is asked
/// about what comes of it. An error in taking it in is the outcome. What the
/// peer has seen of ours stays.
pub proof fn law_told_metadata_is_taken_in(
    state: StateModel,
    connection: ConnectionId,
    peer: PeerId,
    received: Received,
    metadata: Vec<u8>,
    produced: MetadataBox,
    r: Result<Option<ReceivedActionModel>, Error>,
    after: StateModel,
)
    requires
        state.receives(connection, peer, received, r, after),
        received.metadata == Some(metadata),
        state.known(received.topic_id@, connection, received.object_id@).peer_metadata == Some(
            PeerViewModel::Local(produced),
        ),
    ensures
        ({
            let known = state.known(received.topic_id@, connection, received.object_id@);
            let then = after.known(received.topic_id@, connection, received.object_id@);
            &&& then.our_metadata == known.our_metadata
            &&& exists|learned: MetadataBox, news: Result<bool, Error>| {
                &&& #[trigger] produced.metadata.accepts(
                    metadata@,
                    learned.metadata.bytes(),
                    news,
                )
                &&& match news {
                    Err(e) => {
                        &&& r == Err::<Option<ReceivedActionModel>, Error>(e)
                        &&& then.peer_metadata == Some(PeerViewModel::Local(learned))
                    },
                    Ok(news) => message_is_settled(
                        state,
                        peer,
                        connection,
                        received,
                        Some(PeerViewModel::Local(learned)),
                        news,
                        r,
                        then.peer_metadata,
                    ),
                }
            }
        }),
{
    lemma_received(state, connection, peer, received, r, after);
    let topic = received.topic_id@;
    let object_id = received.object_id@;
    let calls = choose|calls: ReceivedCalls| #[trigger]
        state.receives_with(connection, peer, received, calls, r, after);
    assert(produced.metadata.accepts(metadata@, calls.learned.metadata.bytes(), calls.updated));
}

/// A message without metadata leaves what is known of the peer, until the
/// application gives data. The application is asked about what is known. What
/// the peer has seen of ours stays.
pub proof fn law_untold_metadata_stays(
    state: StateModel,
    connection: ConnectionId,
    peer: PeerId,
    received: Received,
    r: Result<Option<ReceivedActionModel>, Error>,
    after: StateModel,
)
    requires
        state.receives(connection, peer, received, r, after),
        received.metadata is None,
    ensures
        ({
            let known = state.known(received.topic_id@, connection, received.object_id@);
            let then = after.known(received.topic_id@, connection, received.object_id@);
            &&& message_is_settled(
                state,
                peer,
                connection,
                received,
                known.peer_metadata,
                false,
                r,
                then.peer_metadata,
            )
            &&& then.our_metadata == known.our_metadata
        }),
{
    lemma_received(state, connection, peer, received, r, after);
}

/// What follows once the peer's metadata is taken in.
proof fn lemma_received(
    state: StateModel,
    connection: ConnectionId,
    peer: PeerId,
    received: Received,
    r: Result<Option<ReceivedActionModel>, Error>,
    after: StateModel,
)
    requires
        state.receives(connection, peer, received, r, after),
    ensures
        ({
            let known = state.known(received.topic_id@, connection, received.object_id@);
            let then = after.known(received.topic_id@, connection, received.object_id@);
            then.our_metadata == known.our_metadata
        }),
        forall|calls: ReceivedCalls|
            #![trigger state.receives_with(connection, peer, received, calls, r, after)]
            state.receives_with(connection, peer, received, calls, r, after) ==> {
                let then = after.known(received.topic_id@, connection, received.object_id@);
                match calls.updated {
                    Err(e) => {
                        &&& r == Err::<Option<ReceivedActionModel>, Error>(e)
                        &&& then.peer_metadata == calls.known.peer_metadata
                    },
                    Ok(news) => message_is_settled(
                        state,
                        peer,
                        connection,
                        received,
                        calls.known.peer_metadata,
                        news,
                        r,
                        then.peer_metadata,
                    ),
                }
            },
{
    let topic = received.topic_id@;
    let object_id = received.object_id@;
    let then = after.known(topic, connection, object_id);
    let touched = state.touch(topic, object_id);
    assert forall|v: RemoteViewModel|
        after == #[trigger] touched.track(topic, connection, object_id, v) implies then == v by {
        lemma_track(touched, topic, connection, object_id, v);
    }
    assert forall|v: RemoteViewModel|
        after == #[trigger] state.track(topic, connection, object_id, v) implies then == v by {
        lemma_track(state, topic, connection, object_id, v);
    }
    assert forall|calls: ReceivedCalls|
        #![trigger state.receives_with(connection, peer, received, calls, r, after)]
        state.receives_with(connection, peer, received, calls, r, after) implies {
        &&& then.our_metadata == state.known(topic, connection, object_id).our_metadata
        &&& match calls.updated {
            Err(e) => {
                &&& r == Err::<Option<ReceivedActionModel>, Error>(e)
                &&& then.peer_metadata == calls.known.peer_metadata
            },
            Ok(news) => message_is_settled(
                state,
                peer,
                connection,
                received,
                calls.known.peer_metadata,
                news,
                r,
                then.peer_metadata,
            ),
        }
    } by {
        if let Ok(news) = calls.updated {
            if news || received.pieces is Some {
                if let Some(shard) = state.cached(topic, object_id) {
                    assert(application_decides(
                        shard,
                        peer,
                        connection,
                        calls.known.peer_metadata,
                        calls.action,
                        r,
                        then.peer_metadata,
                    ));
                }
            }
        }
    }
    let calls = choose|calls: ReceivedCalls| #[trigger]
        state.receives_with(connection, peer, received, calls, r, after);
    assert(state.receives_with(connection, peer, received, calls, r, after));
}

/// Whether an object is news when it is stored: one that was not cached is, and
/// otherwise it is so exactly if what the cached one advertises changes with
/// what the new one advertises. An error in taking it in is no news.
pub open spec fn is_news(state: StateModel, topic: Seq<u8>, shard: ShardBox, r: bool) -> bool {
    match state.cached(topic, shard.shard.id()) {
        None => r,
        Some(existing) => exists|
            shown: MetadataBox,
            advertised: Seq<u8>,
            bytes: Seq<u8>,
            outcome: Result<bool, Error>,
        | {
            &&& existing.shard.advertises(shown.metadata.bytes())
            &&& shard.shard.advertises(advertised)
            &&& #[trigger] shown.metadata.accepts(advertised, bytes, outcome)
            &&& match outcome {
                Ok(changed) => r == changed,
                Err(_) => !r,
            }
        },
    }
}

/// Storing an object reports whether it is news. See [`is_news`].
pub proof fn law_storing_reports_news(
    state: StateModel,
    topic: Seq<u8>,
    shard: ShardBox,
    r: bool,
)
    requires
        state.may_store(topic, shard, r),
    ensures
        is_news(state, topic, shard, r),
{
    let (shown, published, after, outcome) = choose|
        shown: MetadataBox,
        published: MetadataBox,
        after: Seq<u8>,
        outcome: Result<bool, Error>,
    | #[trigger] state.stores(topic, shard, shown, published, after, outcome, r);
    if state.cached(topic, shard.shard.id()) is Some {
        assert(shown.metadata.accepts(published.metadata.bytes(), after, outcome));
    }
}

/// What is cached is what stands in the cache of the topic under that
/// identifier.
pub proof fn law_cached_object_stands_in_the_cache(
    state: StateModel,
    topic: Seq<u8>,
    object_id: Seq<u8>,
)
    ensures
        match state.cached(topic, object_id) {
            Some(shard) => {
                &&& state.local.contains_key(topic)
                &&& exists|i: int|
                    0 <= i < state.local[topic].len() && #[trigger] state.local[topic][i] == (
                        object_id,
                        shard,
                    )
            },
            None => !state.local.contains_key(topic) || forall|i: int|
                0 <= i < state.local[topic].len() ==> (#[trigger] state.local[topic][i]).0
                    != object_id,
        },
{
    if state.local.contains_key(topic) {
        let entries = state.local[topic];
        if holds(entries, object_id) {
            assert(entry_at(entries, object_id, position(entries, object_id)));
        } else {
            assert forall|i: int| 0 <= i < entries.len() implies (#[trigger] entries[i]).0
                != object_id by {
                assert(!entry_at(entries, object_id, i));
            }
        }
    }
}

/// What is known of a connection for an object is what is tracked under the
/// topic, the connection and the object. Where nothing is tracked, nothing is
/// known.
pub proof fn law_known_view_is_tracked(
    state: StateModel,
    topic: Seq<u8>,
    connection: ConnectionId,
    object_id: Seq<u8>,
)
    ensures
        state.remote.contains_key(topic) && state.remote[topic].contains_key(connection)
            && state.remote[topic][connection].contains_key(object_id) ==> state.known(
            topic,
            connection,
            object_id,
        ) == state.remote[topic][connection][object_id],
        !(state.remote.contains_key(topic) && state.remote[topic].contains_key(connection)
            && state.remote[topic][connection].contains_key(object_id)) ==> {
            &&& state.known(topic, connection, object_id).peer_metadata is None
            &&& state.known(topic, connection, object_id).our_metadata is None
        },
{
}

/// The cache once the object is the most recently used one: it comes first, and
/// the others follow in their order.
pub open spec fn comes_first(
    before: Seq<(Seq<u8>, ShardBox)>,
    after: Seq<(Seq<u8>, ShardBox)>,
    object_id: Seq<u8>,
    shard: ShardBox,
) -> bool {
    exists|p: int| {
        &&& 0 <= p < before.len()
        &&& (#[trigger] before[p]).0 == object_id
        &&& after == seq![(object_id, shard)] + before.remove(p)
    }
}

/// An object is used when it is reconciled: it becomes the most recently used
/// one of its topic. The caches of other topics stay.
pub proof fn law_exchange_uses_the_object(
    state: StateModel,
    topic: Seq<u8>,
    connection: ConnectionId,
    peer: PeerId,
    object_id: Seq<u8>,
    shard: ShardBox,
    r: Result<Option<ReconcileActionModel>, Error>,
    after: StateModel,
)
    requires
        state.bounded(),
        state.reconciles(topic, connection, peer, object_id, r, after),
        state.cached(topic, object_id) == Some(shard),
    ensures
        after.capacity == state.capacity,
        after.local.dom() == state.local.dom(),
        comes_first(state.local[topic], after.local[topic], object_id, shard),
        forall|t: Seq<u8>| t != topic && state.local.contains_key(t) ==> #[trigger] after.local[t]
            == state.local[t],
{
    let entries = state.local[topic];
    let p = position(entries, object_id);
    assert(entry_at(entries, object_id, p));
    assert(after.local.dom() =~= state.local.dom());
    assert(entries[p].0 == object_id);
    assert(after.local[topic] == seq![(object_id, shard)] + entries.remove(p));
}

/// A message that is acted on uses the object, and one that is not does not.
/// One that does not reconcile does either. The caches of other topics stay.
pub proof fn law_received_message_uses_the_object(
    state: StateModel,
    connection: ConnectionId,
    peer: PeerId,
    received: Received,
    shard: ShardBox,
    r: Result<Option<ReceivedActionModel>, Error>,
    after: StateModel,
)
    requires
        state.bounded(),
        state.receives(connection, peer, received, r, after),
        state.cached(received.topic_id@, received.object_id@) == Some(shard),
    ensures
        after.capacity == state.capacity,
        r matches Ok(None) ==> after.local == state.local,
        !(r matches Ok(None)) ==> (r is Err && after.local == state.local) || {
            &&& after.local.dom() == state.local.dom()
            &&& comes_first(
                state.local[received.topic_id@],
                after.local[received.topic_id@],
                received.object_id@,
                shard,
            )
            &&& forall|t: Seq<u8>|
                t != received.topic_id@ && state.local.contains_key(t) ==> #[trigger] after.local[t]
                    == state.local[t]
        },
{
    let entries = state.local[received.topic_id@];
    let object_id = received.object_id@;
    let p = position(entries, object_id);
    assert(entry_at(entries, object_id, p));
    assert(entries[p].0 == object_id);
    let touched = state.touch(received.topic_id@, object_id);
    assert(touched.local.dom() =~= state.local.dom());
    assert(touched.local[received.topic_id@] == seq![(object_id, shard)] + entries.remove(p));
}

/// A message about an object that is not cached leaves every cache as it is.
pub proof fn law_message_of_an_uncached_object_uses_none(
    state: StateModel,
    connection: ConnectionId,
    peer: PeerId,
    received: Received,
    r: Result<Option<ReceivedActionModel>, Error>,
    after: StateModel,
)
    requires
        state.receives(connection, peer, received, r, after),
        state.cached(received.topic_id@, received.object_id@) is None,
    ensures
        after.capacity == state.capacity,
        after.local == state.local,
{
}

/// Storing an object puts it first, in place of the one of the same identifier.
/// Past the capacity the last one is dropped. The caches of other topics stay.
pub proof fn law_stored_object_comes_first(state: StateModel, topic: Seq<u8>, shard: ShardBox)
    requires
        state.bounded(),
    ensures
        ({
            let before = if state.local.contains_key(topic) {
                state.local[topic]
            } else {
                Seq::empty()
            };
            let after = state.store(topic, shard).local[topic];
            let new = seq![(shard.shard.id(), shard)];
            if state.cached(topic, shard.shard.id()) is Some {
                comes_first(before, after, shard.shard.id(), shard)
            } else if before.len() < state.capacity {
                after == new + before
            } else {
                after == new + before.drop_last()
            }
        }),
        state.store(topic, shard).local.dom() == state.local.dom().insert(topic),
        forall|t: Seq<u8>| t != topic && state.local.contains_key(t) ==> #[trigger] state.store(
            topic,
            shard,
        ).local[t] == state.local[t],
{
    let id = shard.shard.id();
    let entries = state.entries(topic);
    assert(bounded(entries, state.capacity));
    lemma_without(entries, state.capacity, id);
    let after = state.store(topic, shard).local[topic];
    let new = seq![(id, shard)];
    if state.cached(topic, id) is Some {
        let p = position(entries, id);
        assert(entry_at(entries, id, p));
        assert(entries[p].0 == id);
        assert(after == new + entries.remove(p));
    } else if entries.len() < state.capacity {
        assert(after == new + entries);
    } else {
        assert(after =~= new + entries.drop_last());
    }
    assert(state.store(topic, shard).local.dom() =~= state.local.dom().insert(topic));
}

} // verus!
