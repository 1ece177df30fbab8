//! What goes over the streams and through the queues, field by field.

use std::sync::atomic::AtomicUsize;

use async_channel::Sender;
use libp2p::swarm::ConnectionId;
use vstd::prelude::*;

use crate::behaviour;
use crate::behaviour::{publish_model, PublishModel, Tally, Visit};
use crate::config::{ConfigModel, TopicConfig};
use crate::counter::{lowered, raised_below, raised_past, reached};
use crate::delivery_laws::{
    keeps_to_the_order, lemma_reached, lemma_visited, lemma_visited_in_order, reached_by,
    same_bytes_told,
};
use crate::handler::{
    Event, EventModel, HandlerCommand, HandlerCommandModel, HandlerIn, HandlerInModel, PollStep,
    PollStepModel, Received,
};
use crate::outside::{
    channel_limit, closed_at_some_moment, counts_at_some_moment, lowered_at_some_moment,
    messages_queued, raised_at_some_moment,
};
use crate::protocol::{
    InboundProtocol, ObjectPieces, ObjectPiecesModel, OutboundProtocol, PieceCodec,
    SubscriptionCodec, TopicSubscription,
};
use crate::shard::{
    bytes_model, received_model, reconcile_model, slice_model, Error, PeerView, PeerViewModel,
    ReceivedAction, ReconcileAction, RemoteView, RemoteViewModel,
};
use crate::substream::{
    inbound_step, outbound_step, queue_model, reply_outcome, takes_message, HubModel,
    InboundEvent, InboundState, InboundStep, InboundStepModel, OutboundEvent, OutboundState,
    OutboundStep, OutboundStepModel, SendError, SendReply,
};

verus! {

/// Every message that is read from an active stream is yielded, and the stream
/// goes on: as received on the topic of the stream, with the object, the
/// metadata and the pieces of the message, each as it was read.
pub proof fn law_read_message_is_yielded(topic: Seq<u8>, message: ObjectPieces)
    ensures
        ({
            let (after, step) = outbound_step(
                OutboundState::Active,
                topic,
                OutboundEvent::Piece(message),
            );
            &&& after == OutboundState::Active
            &&& step matches OutboundStepModel::Yield(EventModel::Received(received))
            &&& received.topic_id == topic
            &&& received.object_id == message.object_id@
            &&& same_bytes_told(received.metadata, message.pieces_metadata)
            &&& same_bytes_told(received.pieces, message.pieces)
        }),
{
}

/// An active stream is closed exactly if the local node unsubscribed, the peer
/// closed it, or something could not be read. It is then closed without another
/// event, and ends once that is done.
pub proof fn law_reader_closes_only_for_a_reason(
    state: OutboundState,
    topic: Seq<u8>,
    event: OutboundEvent,
)
    ensures
        ({
            let (after, step) = outbound_step(state, topic, event);
            let reason = event is DecodeFailed || event is PeerClosed || (
            event matches OutboundEvent::CloseSignal { given } && given);
            &&& state == OutboundState::Active ==> (if reason {
                after == OutboundState::Closing && step is CloseStream
            } else {
                after == OutboundState::Active
            })
            &&& state == OutboundState::Closing ==> (if event is CloseDone {
                after == OutboundState::Closed
            } else {
                after == OutboundState::Closing
            })
            &&& step is CloseStream ==> state == OutboundState::Active
            &&& step is End <==> after == OutboundState::Closed
            &&& step is Yield <==> state == OutboundState::Active && event is Piece
        }),
{
}

/// A reader asks the close signal before it reads, reads exactly if the signal
/// is not given, and asks whether it is closed while it closes. It waits only
/// when there was nothing to read, or the closing is not done.
pub proof fn law_reader_asks_before_it_waits(
    state: OutboundState,
    topic: Seq<u8>,
    event: OutboundEvent,
)
    ensures
        ({
            let (after, step) = outbound_step(state, topic, event);
            &&& step is Wait <==> (state == OutboundState::Active && event is StreamIdle) || (state
                == OutboundState::Closing && event is ClosePending)
            &&& step is PollCloseSignal <==> state == OutboundState::Active && (event is Woken
                || event is CloseDone || event is ClosePending)
            &&& step is PollStream <==> state == OutboundState::Active && (
            event matches OutboundEvent::CloseSignal { given } && !given)
            &&& step is PollClose <==> state == OutboundState::Closing && !(event is CloseDone)
                && !(event is ClosePending)
        }),
{
}

/// A writer takes a message only when it has none, keeps that message until the
/// sink is ready, and hands exactly that message to it.
pub proof fn law_writer_hands_on_what_it_took(
    topic: Seq<u8>,
    message: ObjectPieces,
    state: InboundState,
    event: InboundEvent,
)
    ensures
        takes_message(state, event) <==> state is WaitingMessage && event is Message,
        inbound_step(InboundState::WaitingMessage, topic, InboundEvent::Message(message)) == (
            InboundState::WaitingReady { message },
            InboundStepModel::PollReady,
        ),
        inbound_step(
            InboundState::WaitingReady { message },
            topic,
            InboundEvent::SinkReady,
        ).1 matches InboundStepModel::StartSend(handed) && handed == message,
        inbound_step(state, topic, event).1 matches InboundStepModel::StartSend(handed) ==> (
        state matches InboundState::WaitingReady { message: held } && held == handed && event is SinkReady),
        state is WaitingReady && !(event is SinkReady) && !(event is SinkFailed) ==> inbound_step(
            state,
            topic,
            event,
        ).0 == state,
{
}

/// A writer ends exactly if its channel is closed, the stream broke, or it had
/// ended before. It reports that the peer unsubscribed from its topic exactly
/// if the stream broke.
pub proof fn law_writer_ends_for_a_reason(
    state: InboundState,
    topic: Seq<u8>,
    event: InboundEvent,
)
    requires
        state is Poisoned ==> event is Accepted || event is Rejected,
    ensures
        ({
            let (after, step) = inbound_step(state, topic, event);
            let broke = (state is WaitingReady && event is SinkFailed) || (state is Poisoned
                && event is Rejected) || (state is Flushing && event is FlushFailed);
            let stopped = state is Closed || (state is WaitingMessage && event is ChannelClosed);
            &&& step is End <==> broke || stopped
            &&& after is Closed <==> broke || stopped
            &&& broke ==> (step matches InboundStepModel::End(Some(EventModel::Unsubscribed {
                topic_id,
            })) && topic_id == topic)
            &&& stopped ==> (step matches InboundStepModel::End(None))
        }),
{
}

/// A writer asks what it waits for: the channel, the sink, or the flushing. It
/// flushes each message that the sink took before it asks the
/// channel again, and waits only when what it asked is not ready.
pub proof fn law_writer_asks_before_it_waits(
    state: InboundState,
    topic: Seq<u8>,
    event: InboundEvent,
)
    ensures
        ({
            let (after, step) = inbound_step(state, topic, event);
            &&& step is Wait <==> (state is WaitingMessage && event is ChannelEmpty) || (
            state is WaitingReady && event is SinkBusy) || (state is Flushing
                && event is FlushPending)
            &&& step is Wait ==> after == state
            &&& step is PollChannel <==> (state is WaitingMessage && !(event is Message) && !(
            event is ChannelClosed) && !(event is ChannelEmpty)) || (state is Flushing
                && event is Flushed)
            &&& step is PollReady <==> (state is WaitingMessage && event is Message) || (
            state is WaitingReady && !(event is SinkReady) && !(event is SinkFailed) && !(
            event is SinkBusy))
            &&& step is PollFlush <==> (state is Poisoned && event is Accepted) || (
            state is Flushing && !(event is Flushed) && !(event is FlushFailed) && !(
            event is FlushPending))
            &&& step is PollChannel ==> after is WaitingMessage
            &&& step is PollReady ==> after is WaitingReady
            &&& step is PollFlush ==> after is Flushing
            &&& step is StartSend ==> after is Poisoned
        }),
{
}

/// A dispatched message goes behind those that are queued for its topic, and
/// counts one more. Nothing else of the hub is different. A message that is not
/// queued leaves the hub as it is. Only a topic without a queue is unknown, only
/// a queue that reached a limit is full, and only one that nobody receives from
/// is closed.
pub proof fn law_dispatched_message_goes_last(
    before: HubModel,
    topic: Seq<u8>,
    message: ObjectPiecesModel,
    r: Result<(), SendError>,
    after: HubModel,
)
    requires
        before.dispatches(topic, message, r, after),
    ensures
        r == Err::<(), SendError>(SendError::UnknownTopic) <==> !before.queues.contains_key(topic),
        r is Err ==> after == before,
        r is Ok ==> {
            &&& after.limit == before.limit
            &&& after.counter == before.counter
            &&& after.balance == before.balance + 1
            &&& forall|t: Seq<u8>| #[trigger] after.queues.contains_key(t)
                == before.queues.contains_key(t)
            &&& forall|t: Seq<u8>| t != topic ==> #[trigger] after.queues[t] == before.queues[t]
            &&& after.queues[topic].messages.len() == before.queues[topic].messages.len() + 1
            &&& after.queues[topic].messages.last() == message
            &&& before.queues[topic].messages.is_prefix_of(after.queues[topic].messages)
            &&& after.queues[topic].limited == before.queues[topic].limited
            &&& after.queues[topic].closes == before.queues[topic].closes
            &&& exists|was: usize|
                was < before.limit && #[trigger] raised_at_some_moment(*before.counter, was)
        },
        r == Err::<(), SendError>(SendError::Full) && !before.queues[topic].limited ==> exists|
            was: usize,
        | was >= before.limit && #[trigger] raised_at_some_moment(*before.counter, was),
        r == Err::<(), SendError>(SendError::Closed) ==> before.queues[topic].closes,
        before.queues.contains_key(topic) && !before.queues[topic].limited
            && !before.queues[topic].closes && (forall|was: usize| #[trigger]
            raised_at_some_moment(*before.counter, was) ==> was < before.limit) ==> r is Ok,
{
}

/// There is room for a message exactly if the topic has a channel without a
/// limit that stays open, and the number of queued messages is below the limit
/// whenever one is added.
pub proof fn law_room_for_a_message(hub: HubModel, topic: Seq<u8>)
    ensures
        hub.has_room(topic) <==> {
            &&& hub.queues.contains_key(topic)
            &&& !hub.queues[topic].limited
            &&& !hub.queues[topic].closes
            &&& forall|was: usize| #[trigger] raised_at_some_moment(*hub.counter, was) ==> was
                < hub.limit
        },
{
}

/// What a channel replies is what comes of the dispatch.
pub proof fn law_reply_is_the_outcome(message: ObjectPieces)
    ensures
        reply_outcome(SendReply::Queued) is Ok,
        reply_outcome(SendReply::Full(message)) == Err::<(), SendError>(SendError::Full),
        reply_outcome(SendReply::Closed(message)) == Err::<(), SendError>(SendError::Closed),
{
}

/// A queue stands for the messages that were put into its channel, in their
/// order, and for what its channel is like.
pub proof fn law_queue_stands_for_its_channel(sender: Sender<ObjectPieces>, i: int)
    ensures
        queue_model(sender).limited == channel_limit(sender) is Some,
        queue_model(sender).closes == closed_at_some_moment(sender),
        queue_model(sender).messages.len() == messages_queued(sender).len(),
        0 <= i < messages_queued(sender).len() ==> {
            let message = queue_model(sender).messages[i];
            let queued = messages_queued(sender)[i];
            &&& message.object_id == queued.object_id@
            &&& same_bytes_told(message.pieces_metadata, queued.pieces_metadata)
            &&& same_bytes_told(message.pieces, queued.pieces)
        },
{
}

/// A number is raised below a limit only from below it, and past it only from
/// the limit on. A limit is reached only where the number is not below it.
pub proof fn law_limits_are_strict(number: &AtomicUsize, limit: usize, amount: usize)
    ensures
        raised_below(*number, limit) <==> exists|was: usize|
            was < limit && #[trigger] raised_at_some_moment(*number, was),
        raised_past(*number, limit) <==> exists|was: usize|
            was >= limit && #[trigger] raised_at_some_moment(*number, was),
        reached(*number, limit) <==> exists|was: usize|
            was >= limit && #[trigger] counts_at_some_moment(*number, was),
        lowered(*number, amount) <==> exists|was: usize| #[trigger]
            lowered_at_some_moment(*number, amount, was),
{
}

/// A topic has the parameters that were set for it, and no other topic feels
/// them. A topic for which none were set has the default ones.
pub proof fn law_topic_parameters(
    config: ConfigModel,
    topic: Seq<u8>,
    other: Seq<u8>,
    parameters: TopicConfig,
)
    ensures
        ({
            let set = ConfigModel {
                topic_configs: config.topic_configs.insert(topic, parameters),
                ..config
            };
            &&& set.topic_config(topic) == parameters
            &&& other != topic ==> set.topic_config(other) == config.topic_config(other)
        }),
        ({
            let set = ConfigModel { default_topic_config: parameters, ..config };
            set.topic_config(topic) == (if config.topic_configs.contains_key(topic) {
                config.topic_config(topic)
            } else {
                parameters
            })
        }),
        config.topic_configs.contains_key(topic) ==> config.topic_config(topic)
            == config.topic_configs[topic],
{
}

/// Without a whitelist every topic is allowed, and with one exactly the topics
/// that it holds.
pub proof fn law_whitelist_decides(config: ConfigModel, topic: Seq<u8>, allowed: Set<Seq<u8>>)
    ensures
        config.topic_whitelist is None ==> config.allows(topic),
        config.topic_whitelist == Some(allowed) ==> config.allows(topic) == allowed.contains(topic),
{
}

/// A stream is opened with its topic, and an opened stream is for the topic of
/// the message that opened it. Each side goes on with its own limit.
pub proof fn law_opened_stream_is_for_its_topic(
    writer: OutboundProtocol,
    written: (TopicSubscription, SubscriptionCodec),
    reader: InboundProtocol,
    read: TopicSubscription,
    opened: (TopicSubscription, PieceCodec),
)
    ensures
        writer.writes(written) ==> written.0.topic_id@ == writer.topic_id@ && written.1.limit()
            == writer.max_protobuf_size,
        reader.opens(read, opened) ==> opened.0.topic_id@ == read.topic_id@ && opened.1.limit()
            == reader.message_limit(),
{
}

/// A tally counts the visits on which a message went out, and lists those on
/// which the queue was full, and those on which there was nothing to send, in
/// the order of the visits.
pub proof fn law_tally_counts_the_visits(
    tally: Tally,
    order: Seq<ConnectionId>,
    visits: Seq<Visit>,
    connection: ConnectionId,
)
    requires
        tally.counts(order, visits),
        visits.len() <= order.len(),
        order.no_duplicates(),
    ensures
        tally.sent == reached_by(order, visits).len(),
        keeps_to_the_order(order, tally.full@),
        keeps_to_the_order(order, tally.no_data@),
        tally.full@.contains(connection) <==> exists|i: int|
            0 <= i < visits.len() && #[trigger] order[i] == connection && (
            visits[i] matches Visit::Dispatched(_, Err(SendError::Full))),
        tally.no_data@.contains(connection) <==> exists|i: int|
            0 <= i < visits.len() && #[trigger] order[i] == connection && (visits[i] is NoData
                || visits[i] is Withheld),
{
    lemma_reached(order, visits);
    lemma_visited(order, visits, |v: Visit| behaviour::was_full(v));
    lemma_visited(order, visits, |v: Visit| behaviour::had_nothing(v));
    lemma_visited_in_order(order, visits, |v: Visit| behaviour::was_full(v));
    lemma_visited_in_order(order, visits, |v: Visit| behaviour::had_nothing(v));
    assert(tally.full@.contains(connection) <==> exists|i: int|
        0 <= i < visits.len() && #[trigger] order[i] == connection && (
        |v: Visit| behaviour::was_full(v))(visits[i]));
    assert(tally.no_data@.contains(connection) <==> exists|i: int|
        0 <= i < visits.len() && #[trigger] order[i] == connection && (
        |v: Visit| behaviour::had_nothing(v))(visits[i]));
}

/// What is said of a message is said of its fields.
pub proof fn law_messages_stand_for_their_fields(
    message: ObjectPieces,
    received: Received,
    bytes: Option<Vec<u8>>,
)
    ensures
        message@.object_id == message.object_id@,
        same_bytes_told(message@.pieces_metadata, message.pieces_metadata),
        same_bytes_told(message@.pieces, message.pieces),
        received@.topic_id == received.topic_id@,
        received@.object_id == received.object_id@,
        same_bytes_told(received@.metadata, received.metadata),
        same_bytes_told(received@.pieces, received.pieces),
        same_bytes_told(bytes_model(bytes), bytes),
{
}

/// What is said of the outcome of an exchange is said of its fields.
pub proof fn law_outcomes_stand_for_their_fields(
    told: ReconcileAction,
    settled: ReceivedAction,
    reason: Error,
    slice: Option<&[u8]>,
)
    ensures
        same_bytes_told(told@.body, told.body),
        same_bytes_told(told@.metadata, told.metadata),
        settled@.emit == settled.emit,
        match settled.send {
            Some(reply) => settled@.send == Some((reply.0@, reply.1@)),
            None => settled@.send is None,
        },
        reconcile_model(Ok(Some(told))) matches Ok(Some(model)) && model == told@,
        reconcile_model(Ok(None)) matches Ok(None),
        reconcile_model(Err(reason)) matches Err(e) && e == reason,
        received_model(Ok(Some(settled))) matches Ok(Some(model)) && model == settled@,
        received_model(Ok(None)) matches Ok(None),
        received_model(Err(reason)) matches Err(e) && e == reason,
        match slice {
            Some(bytes) => slice_model(slice) == Some(bytes@),
            None => slice_model(slice) is None,
        },
{
}

/// What is said of a tracked view is said of its fields.
pub proof fn law_views_stand_for_their_fields(view: RemoteView)
    ensures
        view@.our_metadata == view.our_metadata,
        match view.peer_metadata {
            None => view@.peer_metadata is None,
            Some(PeerView::Remote(bytes)) => view@.peer_metadata == Some(
                PeerViewModel::Remote(bytes@),
            ),
            Some(PeerView::Local(metadata)) => view@.peer_metadata == Some(
                PeerViewModel::Local(metadata),
            ),
        },
{
}

/// The metadata that is known of a peer is asked about by its bytes, whichever
/// side it came from.
pub proof fn law_known_metadata_is_read_by_its_bytes(known: RemoteViewModel)
    ensures
        known.peer_bytes() == (match known.peer_metadata {
            None => None,
            Some(PeerViewModel::Remote(bytes)) => Some(bytes),
            Some(PeerViewModel::Local(metadata)) => Some(metadata.metadata.bytes()),
        }),
        RemoteViewModel::unknown().peer_metadata is None,
        RemoteViewModel::unknown().our_metadata is None,
{
}

/// What is said of the result of publishing is said of the result.
pub proof fn law_publish_result_stands_for_itself(
    full: Vec<ConnectionId>,
    no_data: Vec<ConnectionId>,
)
    ensures
        publish_model(Ok(())) is Published,
        publish_model(Err(behaviour::Error::NoPeersSubscribedToTopic)) is NoPeersSubscribedToTopic,
        publish_model(Err(behaviour::Error::MessageNotSent { full, no_data }))
            == (PublishModel::MessageNotSent { full: full@, no_data: no_data@ }),
{
}

/// What is said of an event of the handler is said of its fields.
pub proof fn law_handler_events_stand_for_their_fields(event: Event)
    ensures
        match event {
            Event::Subscribed { topic_id, sender } => event@ == (EventModel::Subscribed {
                topic_id: topic_id@,
                sender,
            }),
            Event::Received(received) => event@ == EventModel::Received(received@),
            Event::Unsubscribed { topic_id } => event@ == (EventModel::Unsubscribed {
                topic_id: topic_id@,
            }),
        },
{
}

/// What is said of an event of the behaviour is said of its fields.
pub proof fn law_behaviour_events_stand_for_their_fields(event: behaviour::Event)
    ensures
        match event {
            behaviour::Event::Received { topic_id, peer_id, received } => event@ == (
            behaviour::EventModel::Received { topic_id: topic_id@, peer_id, received: received@ }),
            behaviour::Event::Subscribed { peer_id, topic_id } => event@ == (
            behaviour::EventModel::Subscribed { peer_id, topic_id: topic_id@ }),
            behaviour::Event::Unsubscribed { peer_id, topic_id } => event@ == (
            behaviour::EventModel::Unsubscribed { peer_id, topic_id: topic_id@ }),
            behaviour::Event::InvalidData { peer_id, topic_id, object_id, reason } => event@ == (
            behaviour::EventModel::InvalidData {
                peer_id,
                topic_id: topic_id@,
                object_id: object_id@,
                reason,
            }),
            behaviour::Event::FullQueue(peer_id) => event@ == behaviour::EventModel::FullQueue(
                peer_id,
            ),
        },
{
}

/// What is said of a command is said of its fields.
pub proof fn law_commands_stand_for_their_fields(
    command: behaviour::Command,
    given: HandlerCommand,
    instruction: HandlerIn,
)
    ensures
        match command {
            behaviour::Command::NotifyHandler { peer_id, connection_id, event } => command@ == (
            behaviour::CommandModel::NotifyHandler { peer_id, connection_id, event: event@ }),
            behaviour::Command::GenerateEvent(event) => command@
                == behaviour::CommandModel::GenerateEvent(event@),
        },
        match given {
            HandlerCommand::OpenStream { protocol, close_signal } => given@ == (
            HandlerCommandModel::OpenStream {
                max_protobuf_size: protocol.max_protobuf_size,
                topic_id: protocol.topic_id@,
                close_signal,
            }),
            HandlerCommand::NotifyBehaviour(event) => given@
                == HandlerCommandModel::NotifyBehaviour(event@),
        },
        match instruction {
            HandlerIn::Subscribe { topic_id, close_signal } => instruction@ == (
            HandlerInModel::Subscribe { topic_id: topic_id@, close_signal }),
            HandlerIn::Refuse { topic_id } => instruction@ == (HandlerInModel::Refuse {
                topic_id: topic_id@,
            }),
        },
{
}

/// What is said of a step is said of its fields.
pub proof fn law_steps_stand_for_their_fields(
    read: OutboundStep,
    written: InboundStep,
    polled: PollStep,
)
    ensures
        match read {
            OutboundStep::PollCloseSignal => read@ is PollCloseSignal,
            OutboundStep::PollStream => read@ is PollStream,
            OutboundStep::CloseStream => read@ is CloseStream,
            OutboundStep::PollClose => read@ is PollClose,
            OutboundStep::Yield(event) => read@ == OutboundStepModel::Yield(event@),
            OutboundStep::Wait => read@ is Wait,
            OutboundStep::End => read@ is End,
        },
        match written {
            InboundStep::PollChannel => written@ is PollChannel,
            InboundStep::PollReady => written@ is PollReady,
            InboundStep::StartSend(message) => written@ == InboundStepModel::StartSend(message),
            InboundStep::PollFlush => written@ is PollFlush,
            InboundStep::Wait => written@ is Wait,
            InboundStep::End(Some(event)) => written@ == InboundStepModel::End(Some(event@)),
            InboundStep::End(None) => written@ matches InboundStepModel::End(None),
        },
        match polled {
            PollStep::Deliver(command) => polled@ == PollStepModel::Deliver(command@),
            PollStep::PollOutbound => polled@ is PollOutbound,
            PollStep::PollInbound => polled@ is PollInbound,
            PollStep::Wait => polled@ is Wait,
        },
{
}

} // verus!
