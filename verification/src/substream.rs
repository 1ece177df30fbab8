//! The streams of a connection, and the queues that feed them.

use std::sync::atomic::AtomicUsize;
use std::sync::Arc;

use async_channel::{Receiver, Sender};
use vstd::prelude::*;

use crate::config::TopicSet;
use crate::counter::{lowered, raised_below, raised_past, SharedCounter};
use crate::handler::{Event, EventModel, Received, ReceivedModel};
use crate::outside::{
    channel_limit, clone_signal, closed_at_some_moment, holds_at_some_moment, messages_queued,
    messages_waiting, raised_at_some_moment, signal_channel, signal_ends, try_queue,
};
use crate::protocol::{ObjectPieces, ObjectPiecesModel};
use crate::table::{copy_bytes, Table};

verus! {

/// State machine for a single outbound topic stream.
#[derive(Debug, PartialEq, Eq, Structural, Clone, Copy)]
pub enum OutboundState {
    /// The stream is open and receiving pieces.
    Active,
    /// The stream is being closed.
    Closing,
    /// The stream is closed.
    Closed,
}

/// What happened to an outbound stream since its last step.
#[derive(Debug)]
pub enum OutboundEvent {
    /// The stream is polled.
    Woken,
    /// The close signal was polled, and is given or not.
    CloseSignal {
        /// The local node unsubscribed.
        given: bool,
    },
    /// A message was read from the stream.
    Piece(ObjectPieces),
    /// Something was read from the stream that is not a message.
    DecodeFailed,
    /// The peer closed the stream.
    PeerClosed,
    /// There is nothing to read from the stream yet.
    StreamIdle,
    /// The stream is closed, with or without an error.
    CloseDone,
    /// The stream is not closed yet.
    ClosePending,
}

/// What to do next for an outbound stream.
#[derive(Debug)]
pub enum OutboundStep {
    /// Poll the close signal.
    PollCloseSignal,
    /// Read from the stream.
    PollStream,
    /// Start to close the stream.
    CloseStream,
    /// Poll the closing of the stream.
    PollClose,
    /// Hand out the event. The stream goes on.
    Yield(Event),
    /// Wait until woken.
    Wait,
    /// The stream has ended.
    End,
}

/// What an [`OutboundStep`] stands for.
pub enum OutboundStepModel {
    /// Poll the close signal.
    PollCloseSignal,
    /// Read from the stream.
    PollStream,
    /// Start to close the stream.
    CloseStream,
    /// Poll the closing of the stream.
    PollClose,
    /// Hand out the event.
    Yield(EventModel),
    /// Wait until woken.
    Wait,
    /// The stream has ended.
    End,
}

impl OutboundStep {
    /// What the step stands for.
    pub open spec fn view(&self) -> OutboundStepModel {
        match *self {
            OutboundStep::PollCloseSignal => OutboundStepModel::PollCloseSignal,
            OutboundStep::PollStream => OutboundStepModel::PollStream,
            OutboundStep::CloseStream => OutboundStepModel::CloseStream,
            OutboundStep::PollClose => OutboundStepModel::PollClose,
            OutboundStep::Yield(event) => OutboundStepModel::Yield(event@),
            OutboundStep::Wait => OutboundStepModel::Wait,
            OutboundStep::End => OutboundStepModel::End,
        }
    }
}

/// The pieces in a message, as received on a topic.
pub open spec fn received_on(topic: Seq<u8>, piece: ObjectPiecesModel) -> ReceivedModel {
    ReceivedModel {
        topic_id: topic,
        object_id: piece.object_id,
        metadata: piece.pieces_metadata,
        pieces: piece.pieces,
    }
}

/// Where an outbound stream goes from a state on an event, and what is to be
/// done then. An active stream is closed when the local node unsubscribes,
/// when the peer closes it, and when something cannot be read. Each time it
/// is polled, the close signal comes first.
pub open spec fn outbound_step(state: OutboundState, topic: Seq<u8>, event: OutboundEvent) -> (
    OutboundState,
    OutboundStepModel,
) {
    match (state, event) {
        (OutboundState::Active, OutboundEvent::CloseSignal { given }) => if given {
            (OutboundState::Closing, OutboundStepModel::CloseStream)
        } else {
            (OutboundState::Active, OutboundStepModel::PollStream)
        },
        (OutboundState::Active, OutboundEvent::Piece(piece)) => (
            OutboundState::Active,
            OutboundStepModel::Yield(EventModel::Received(received_on(topic, piece@))),
        ),
        (OutboundState::Active, OutboundEvent::DecodeFailed) => (
            OutboundState::Closing,
            OutboundStepModel::CloseStream,
        ),
        (OutboundState::Active, OutboundEvent::PeerClosed) => (
            OutboundState::Closing,
            OutboundStepModel::CloseStream,
        ),
        (OutboundState::Active, OutboundEvent::StreamIdle) => (
            OutboundState::Active,
            OutboundStepModel::Wait,
        ),
        (OutboundState::Active, _) => (OutboundState::Active, OutboundStepModel::PollCloseSignal),
        (OutboundState::Closing, OutboundEvent::CloseDone) => (
            OutboundState::Closed,
            OutboundStepModel::End,
        ),
        (OutboundState::Closing, OutboundEvent::ClosePending) => (
            OutboundState::Closing,
            OutboundStepModel::Wait,
        ),
        (OutboundState::Closing, _) => (OutboundState::Closing, OutboundStepModel::PollClose),
        (OutboundState::Closed, _) => (OutboundState::Closed, OutboundStepModel::End),
    }
}

/// A per-topic outbound subscription stream.
///
/// Receives the pieces of one topic from our subscription stream and
/// surfaces them as `Received` events. Ends when the local node unsubscribes
/// (the close-signal channel closes) or the peer closes the stream.
#[derive(Debug)]
pub struct Outbound {
    topic: Vec<u8>,
    /// Clone of the topic's close signal. The stream ends when its channel
    /// closes.
    close_signal: Receiver<()>,
    state: OutboundState,
}

impl Outbound {
    /// The topic of the stream.
    pub closed spec fn topic(&self) -> Seq<u8> {
        self.topic@
    }

    /// The close signal of the topic.
    pub closed spec fn signal(&self) -> Receiver<()> {
        self.close_signal
    }

    /// Where the stream stands.
    pub closed spec fn state(&self) -> OutboundState {
        self.state
    }

    /// Creates a new `Outbound` stream for a topic.
    ///
    /// `close_signal` is a clone of the topic's close signal; it wakes and
    /// ends the stream when the channel closes on unsubscribe.
    pub fn new(topic: Vec<u8>, close_signal: Receiver<()>) -> (r: Self)
        ensures
            r.topic() == topic@,
            r.signal() == close_signal,
            r.state() == OutboundState::Active,
    {
        Outbound { topic, close_signal, state: OutboundState::Active }
    }

    /// The close signal, for polling it.
    pub fn signal_mut(&mut self) -> (r: &mut Receiver<()>)
        ensures
            *r == old(self).signal(),
            final(self).topic() == old(self).topic(),
            final(self).state() == old(self).state(),
            final(self).signal() == *final(r),
    {
        &mut self.close_signal
    }

    /// Takes the stream one step on and says what to do next.
    pub fn poll_next(&mut self, event: OutboundEvent) -> (r: OutboundStep)
        ensures
            final(self).topic() == old(self).topic(),
            final(self).signal() == old(self).signal(),
            (final(self).state(), r@) == outbound_step(old(self).state(), old(self).topic(), event),
    {
        match self.state {
            OutboundState::Active => match event {
                // Local unsubscribe signal: close the stream quietly.
                OutboundEvent::CloseSignal { given } => if given {
                    self.state = OutboundState::Closing;
                    OutboundStep::CloseStream
                } else {
                    OutboundStep::PollStream
                },
                OutboundEvent::Piece(piece) => OutboundStep::Yield(
                    Event::Received(
                        Received {
                            topic_id: copy_bytes(self.topic.as_slice()),
                            object_id: piece.object_id,
                            metadata: piece.pieces_metadata,
                            pieces: piece.pieces,
                        },
                    ),
                ),
                OutboundEvent::DecodeFailed => {
                    self.state = OutboundState::Closing;
                    OutboundStep::CloseStream
                },
                OutboundEvent::PeerClosed => {
                    self.state = OutboundState::Closing;
                    OutboundStep::CloseStream
                },
                OutboundEvent::StreamIdle => OutboundStep::Wait,
                _ => OutboundStep::PollCloseSignal,
            },
            OutboundState::Closing => match event {
                OutboundEvent::CloseDone => {
                    self.state = OutboundState::Closed;
                    OutboundStep::End
                },
                OutboundEvent::ClosePending => OutboundStep::Wait,
                _ => OutboundStep::PollClose,
            },
            OutboundState::Closed => OutboundStep::End,
        }
    }
}

/// Fan-out close signal for the topic subscription streams.
///
/// Holds one producer `Sender`. Each connection receives a clone of the
/// receiver, so all the topic's streams close together when the signal is
/// dropped on unsubscribe.
#[derive(Debug)]
pub struct CloseSignal {
    /// Keeps the channel open. The signal is dropped on unsubscribe; when the
    /// `Sender` drops, the channel closes and every receiver wakes.
    sender: Sender<()>,
    /// Source for the per-connection receiver clones.
    receiver: Receiver<()>,
}

impl CloseSignal {
    /// The two ends belong to one channel, so the receivers wake when the
    /// signal is dropped.
    #[verifier::type_invariant]
    pub closed spec fn ends_meet(self) -> bool {
        signal_ends(self.sender, self.receiver)
    }

    /// What the streams of the topic wait on.
    pub closed spec fn signal(&self) -> Receiver<()> {
        self.receiver
    }

    /// Creates a new close signal for a topic.
    ///
    /// The signal never carries a message. The channel closes only when the
    /// `sender` is dropped.
    pub fn new() -> (r: Self)
        ensures
            r.ends_meet(),
    {
        let (sender, receiver) = signal_channel();
        CloseSignal { sender, receiver }
    }

    /// Returns a receiver clone for one connection.
    pub fn receiver(&self) -> (r: Receiver<()>)
        ensures
            r == self.signal(),
    {
        clone_signal(&self.receiver)
    }
}

/// Errors from the outbound hub when dispatching a message.
#[derive(Debug, PartialEq, Eq, Structural, Clone, Copy)]
pub enum SendError {
    /// The connection's outbound queue reached its limit.
    Full,
    /// The channel for the topic is closed.
    Closed,
    /// There is no outbound stream for the topic.
    UnknownTopic,
}

/// What a channel replies to a message. A message that is not queued comes
/// back.
#[derive(Debug)]
pub enum SendReply {
    /// The message is queued.
    Queued,
    /// There is no room.
    Full(ObjectPieces),
    /// Nobody receives any more.
    Closed(ObjectPieces),
}

/// What a reply says of the dispatch.
pub open spec fn reply_outcome(reply: SendReply) -> Result<(), SendError> {
    match reply {
        SendReply::Queued => Ok(()),
        SendReply::Full(_) => Err(SendError::Full),
        SendReply::Closed(_) => Err(SendError::Closed),
    }
}

/// The outcome of a dispatch, from what the channel replies.
pub fn dispatch_outcome(reply: SendReply) -> (r: Result<(), SendError>)
    ensures
        r == reply_outcome(reply),
{
    match reply {
        SendReply::Queued => Ok(()),
        SendReply::Full(_) => Err(SendError::Full),
        SendReply::Closed(_) => Err(SendError::Closed),
    }
}

/// What the sending end of a channel stands for.
#[verifier::ext_equal]
pub struct QueueModel {
    /// The channel holds a limited number of messages at once.
    pub limited: bool,
    /// At some moment nobody receives from the channel any more.
    pub closes: bool,
    /// The messages that were queued.
    pub messages: Seq<ObjectPiecesModel>,
}

impl QueueModel {
    /// The queue once another message was queued.
    pub open spec fn push(self, message: ObjectPiecesModel) -> QueueModel {
        QueueModel { messages: self.messages.push(message), ..self }
    }
}

/// What the sending end of a channel stands for.
pub open spec fn queue_model(sender: Sender<ObjectPieces>) -> QueueModel {
    QueueModel {
        limited: channel_limit(sender) is Some,
        closes: closed_at_some_moment(sender),
        messages: messages_queued(sender).map_values(|message: ObjectPieces| message@),
    }
}

/// What a [`DispatchHub`] stands for.
#[verifier::ext_equal]
pub struct HubModel {
    /// The connection's outbound queue limit.
    pub limit: usize,
    /// The number of messages queued on the connection, which others count
    /// on too.
    pub counter: Arc<AtomicUsize>,
    /// By how much the hub has raised the connection's counter.
    pub balance: int,
    /// Per topic, the channel and the messages that were queued in it.
    pub queues: Map<Seq<u8>, QueueModel>,
}

impl HubModel {
    /// The hub once a message was queued for a topic.
    pub open spec fn queue(self, topic: Seq<u8>, message: ObjectPiecesModel) -> HubModel {
        HubModel {
            balance: self.balance + 1,
            queues: self.queues.insert(topic, self.queues[topic].push(message)),
            ..self
        }
    }

    /// Dispatching a message may have this outcome and leave this hub. Where
    /// there is no stream for the topic, that is what comes out. Otherwise
    /// one is added to the number of queued messages. If that number was below
    /// the limit, the message is queued, unless the channel is full or closed.
    /// If it had reached the limit, the queue is full. A message that is not
    /// queued is taken off the number again.
    pub open spec fn dispatches(
        self,
        topic: Seq<u8>,
        message: ObjectPiecesModel,
        r: Result<(), SendError>,
        after: HubModel,
    ) -> bool {
        if !self.queues.contains_key(topic) {
            r == Err::<(), SendError>(SendError::UnknownTopic) && after == self
        } else {
            match r {
                Ok(()) => {
                    &&& raised_below(*self.counter, self.limit)
                    &&& after == self.queue(topic, message)
                },
                Err(SendError::Full) => {
                    &&& raised_past(*self.counter, self.limit) || (raised_below(
                        *self.counter,
                        self.limit,
                    ) && self.queues[topic].limited)
                    &&& lowered(*self.counter, 1)
                    &&& after == self
                },
                Err(SendError::Closed) => {
                    &&& raised_below(*self.counter, self.limit)
                    &&& self.queues[topic].closes
                    &&& lowered(*self.counter, 1)
                    &&& after == self
                },
                Err(SendError::UnknownTopic) => false,
            }
        }
    }

    /// There is room for the messages of a topic: the number of messages queued
    /// on the connection never reaches the limit when one is added, and the
    /// topic has a channel without a limit that stays open.
    pub open spec fn has_room(self, topic: Seq<u8>) -> bool {
        &&& self.queues.contains_key(topic)
        &&& !self.queues[topic].limited
        &&& !self.queues[topic].closes
        &&& forall|n: usize| #[trigger] raised_at_some_moment(*self.counter, n) ==> n < self.limit
    }
}

/// Per-connection dispatcher for outbound piece messages.
///
/// Routes the published pieces to the topic's stream writers under one
/// connection-wide queue budget.
pub struct DispatchHub {
    /// The connection's outbound queue limit.
    limit: usize,
    /// The number of messages currently queued on the connection, shared with
    /// the outbound receivers.
    used: SharedCounter,
    /// The per-topic senders, keyed by topic.
    senders: Table<Vec<u8>, Sender<ObjectPieces>>,
}

impl DispatchHub {
    /// No topic has two senders.
    pub closed spec fn wf(&self) -> bool {
        self.senders.wf()
    }

    /// What the hub stands for.
    pub closed spec fn view(&self) -> HubModel {
        HubModel {
            limit: self.limit,
            counter: self.used.number(),
            balance: self.used.balance(),
            queues: self.senders@.map_values(|sender: Sender<ObjectPieces>| queue_model(sender)),
        }
    }

    /// Creates an empty hub with the given queue `limit`.
    pub fn new(limit: usize, used: SharedCounter) -> (r: Self)
        ensures
            r.wf(),
            r@ == (HubModel {
                limit,
                counter: used.number(),
                balance: used.balance(),
                queues: Map::empty(),
            }),
    {
        let r = DispatchHub { limit, used, senders: Table::new() };
        assert(r@.queues =~= Map::empty());
        r
    }

    /// Routes the messages of a topic to a sender.
    pub fn subscribe(&mut self, topic_id: Vec<u8>, sender: Sender<ObjectPieces>)
        requires
            old(self).wf(),
        ensures
            final(self).wf(),
            final(self)@ == (HubModel {
                queues: old(self)@.queues.insert(topic_id@, queue_model(sender)),
                ..old(self)@
            }),
    {
        let ghost before = *self;
        self.senders.insert(topic_id, sender);
        assert(self@.queues =~= before@.queues.insert(topic_id@, queue_model(sender)));
    }

    /// Drops the sender of a topic.
    pub fn unsubscribe(&mut self, topic_id: &[u8])
        requires
            old(self).wf(),
        ensures
            final(self).wf(),
            final(self)@ == (HubModel {
                queues: old(self)@.queues.remove(topic_id@),
                ..old(self)@
            }),
    {
        let ghost before = *self;
        let sender = self.senders.remove(topic_id);
        assert(self@.queues =~= before@.queues.remove(topic_id@));
    }

    /// Adds the topics that there is a sender for to a set.
    pub fn add_topics(&self, topics: &mut TopicSet)
        ensures
            forall|t: Seq<u8>| #[trigger] final(topics)@.contains(t) <==> old(topics)@.contains(t)
                || self@.queues.contains_key(t),
    {
        let ghost before = topics@;
        let ghost keys = self.senders.keys();
        let mut i: usize = 0;
        while i < self.senders.len()
            invariant
                i <= keys.len(),
                keys == self.senders.keys(),
                forall|t: Seq<u8>| #[trigger] topics@.contains(t) <==> before.contains(t)
                    || keys.take(i as int).contains(t),
            decreases keys.len() - i,
        {
            let ghost round = topics@;
            topics.insert(copy_bytes(self.senders.key_at(i).as_slice()));
            proof {
                assert(keys.take(i + 1) =~= keys.take(i as int).push(keys[i as int]));
                assert forall|t: Seq<u8>| #[trigger] topics@.contains(t) <==> before.contains(t)
                    || keys.take(i + 1).contains(t) by {
                    assert(round.contains(t) <==> before.contains(t) || keys.take(
                        i as int,
                    ).contains(t));
                    if keys.take(i as int).contains(t) {
                        let j = keys.take(i as int).index_of(t);
                        assert(keys.take(i + 1)[j] == t);
                    }
                    assert(keys.take(i + 1)[i as int] == keys[i as int]);
                }
            }
            i += 1;
        }
        assert(keys.take(i as int) =~= keys);
    }

    /// Whether there is a sender for the topic.
    pub fn is_subscribed(&self, topic_id: &[u8]) -> (r: bool)
        ensures
            r == self@.queues.contains_key(topic_id@),
    {
        self.senders.contains_key(topic_id)
    }

    /// Queues a message that was counted already, where `n` messages were
    /// queued on the connection before. The limit leaves room for a message
    /// while fewer than that many are queued. Below the limit, only a channel
    /// with a limit of its own can be full. A message that is not queued is
    /// not counted any more.
    pub fn send_counted(&mut self, topic: &[u8], message: ObjectPieces, n: usize) -> (r: Result<
        (),
        SendError,
    >)
        requires
            old(self).wf(),
            old(self)@.queues.contains_key(topic@),
        ensures
            final(self).wf(),
            n >= old(self)@.limit ==> r == Err::<(), SendError>(SendError::Full),
            r == Err::<(), SendError>(SendError::Full) ==> n >= old(self)@.limit
                || old(self)@.queues[topic@].limited,
            r == Err::<(), SendError>(SendError::Closed) ==> old(self)@.queues[topic@].closes,
            match r {
                Ok(()) => final(self)@ == (HubModel {
                    balance: old(self)@.balance,
                    ..old(self)@.queue(topic@, message@)
                }),
                Err(e) => {
                    &&& e == SendError::Full || e == SendError::Closed
                    &&& lowered(*old(self)@.counter, 1)
                    &&& final(self)@ == (HubModel {
                        balance: old(self)@.balance - 1,
                        ..old(self)@
                    })
                },
            },
    {
        let ghost before = *self;
        if n >= self.limit {
            self.used.take_off(1);
            return Err(SendError::Full);
        }
        let r = match self.senders.get_mut(topic) {
            Some(sender) => {
                let ghost given = *sender;
                let reply = try_queue(sender, message);
                assert(queue_model(given).push(message@).messages =~= messages_queued(given).push(
                    message,
                ).map_values(|m: ObjectPieces| m@));
                dispatch_outcome(reply)
            },
            None => Err(SendError::UnknownTopic),
        };
        if r.is_err() {
            self.used.take_off(1);
        }
        proof {
            if r is Ok {
                assert(self@.queues =~= before@.queue(topic@, message@).queues);
            } else {
                assert(self@.queues =~= before@.queues);
            }
        }
        r
    }

    /// Queues `message` on the outbound channel for `topic`.
    ///
    /// Returns `Full` when the connection's queue reached its limit, `Closed`
    /// when the channel is closed, and `UnknownTopic` when there is no
    /// channel for the topic.
    pub fn try_send(&mut self, topic: &[u8], message: ObjectPieces) -> (r: Result<(), SendError>)
        requires
            old(self).wf(),
        ensures
            final(self).wf(),
            old(self)@.dispatches(topic@, message@, r, final(self)@),
    {
        if !self.is_subscribed(topic) {
            return Err(SendError::UnknownTopic);
        }
        let n = self.used.add_one();
        self.send_counted(topic, message, n)
    }
}

/// Where the writer of an inbound stream stands.
#[derive(Debug)]
pub enum InboundState {
    /// Waiting for the next message from the channel.
    WaitingMessage,
    /// A message was received; watching for sink readiness.
    WaitingReady {
        /// The message.
        message: ObjectPieces,
    },
    /// A message was accepted; the sink is flushing it.
    Flushing,
    /// The writer ended.
    Closed,
    /// Temporary state used during state transitions: the message was handed
    /// to the sink, and the sink has yet to say whether it took it.
    Poisoned,
}

/// What happened to an inbound stream since its last step.
#[derive(Debug)]
pub enum InboundEvent {
    /// The writer is polled.
    Woken,
    /// A message was taken from the channel.
    Message(ObjectPieces),
    /// The channel is closed and drained.
    ChannelClosed,
    /// There is no message in the channel yet.
    ChannelEmpty,
    /// The sink can take a message.
    SinkReady,
    /// The sink is broken.
    SinkFailed,
    /// The sink cannot take a message yet.
    SinkBusy,
    /// The sink took the message.
    Accepted,
    /// The sink refused the message.
    Rejected,
    /// The message is flushed.
    Flushed,
    /// The message cannot be flushed.
    FlushFailed,
    /// The message is not flushed yet.
    FlushPending,
}

/// What to do next for an inbound stream.
#[derive(Debug)]
pub enum InboundStep {
    /// Take a message from the channel.
    PollChannel,
    /// Ask the sink whether it can take a message.
    PollReady,
    /// Hand the message to the sink.
    StartSend(ObjectPieces),
    /// Flush the sink.
    PollFlush,
    /// Wait until woken.
    Wait,
    /// The writer has ended, with the event to report.
    End(Option<Event>),
}

/// What an [`InboundStep`] stands for.
pub enum InboundStepModel {
    /// Take a message from the channel.
    PollChannel,
    /// Ask the sink whether it can take a message.
    PollReady,
    /// Hand the message to the sink.
    StartSend(ObjectPieces),
    /// Flush the sink.
    PollFlush,
    /// Wait until woken.
    Wait,
    /// The writer has ended, with the event to report.
    End(Option<EventModel>),
}

impl InboundStep {
    /// What the step stands for.
    pub open spec fn view(&self) -> InboundStepModel {
        match *self {
            InboundStep::PollChannel => InboundStepModel::PollChannel,
            InboundStep::PollReady => InboundStepModel::PollReady,
            InboundStep::StartSend(message) => InboundStepModel::StartSend(message),
            InboundStep::PollFlush => InboundStepModel::PollFlush,
            InboundStep::Wait => InboundStepModel::Wait,
            InboundStep::End(Some(event)) => InboundStepModel::End(Some(event@)),
            InboundStep::End(None) => InboundStepModel::End(None),
        }
    }
}

/// The writer has ended because the remote peer closed the stream.
pub open spec fn closed_by_peer(topic: Seq<u8>) -> (InboundState, InboundStepModel) {
    (
        InboundState::Closed,
        InboundStepModel::End(Some(EventModel::Unsubscribed { topic_id: topic })),
    )
}

/// Where the writer of an inbound stream goes from a state on an event, and
/// what is to be done then. Messages are taken from the channel one by one.
/// Each is handed to the sink and flushed before the next is taken.
pub open spec fn inbound_step(state: InboundState, topic: Seq<u8>, event: InboundEvent) -> (
    InboundState,
    InboundStepModel,
) {
    match (state, event) {
        (InboundState::WaitingMessage, InboundEvent::Message(message)) => (
            InboundState::WaitingReady { message },
            InboundStepModel::PollReady,
        ),
        (InboundState::WaitingMessage, InboundEvent::ChannelClosed) => (
            InboundState::Closed,
            InboundStepModel::End(None),
        ),
        (InboundState::WaitingMessage, InboundEvent::ChannelEmpty) => (
            state,
            InboundStepModel::Wait,
        ),
        (InboundState::WaitingMessage, _) => (state, InboundStepModel::PollChannel),
        (InboundState::WaitingReady { message }, InboundEvent::SinkReady) => (
            InboundState::Poisoned,
            InboundStepModel::StartSend(message),
        ),
        (InboundState::WaitingReady { message }, InboundEvent::SinkFailed) => closed_by_peer(topic),
        (InboundState::WaitingReady { message }, InboundEvent::SinkBusy) => (
            state,
            InboundStepModel::Wait,
        ),
        (InboundState::WaitingReady { message }, _) => (state, InboundStepModel::PollReady),
        (InboundState::Poisoned, InboundEvent::Accepted) => (
            InboundState::Flushing,
            InboundStepModel::PollFlush,
        ),
        (InboundState::Poisoned, _) => closed_by_peer(topic),
        (InboundState::Flushing, InboundEvent::Flushed) => (
            InboundState::WaitingMessage,
            InboundStepModel::PollChannel,
        ),
        (InboundState::Flushing, InboundEvent::FlushFailed) => closed_by_peer(topic),
        (InboundState::Flushing, InboundEvent::FlushPending) => (state, InboundStepModel::Wait),
        (InboundState::Flushing, _) => (state, InboundStepModel::PollFlush),
        (InboundState::Closed, _) => (state, InboundStepModel::End(None)),
    }
}

/// The event is a message that the writer takes over.
pub open spec fn takes_message(state: InboundState, event: InboundEvent) -> bool {
    state is WaitingMessage && event is Message
}

/// A per-topic inbound stream writer.
///
/// Reads the messages of one topic from its channel and writes them to the
/// subscription stream the remote peer opened for that topic. The future
/// completes when the channel closes or a write fails. It completes with
/// `Some(Unsubscribed)` when the remote closed the stream, or `None` when
/// the local side stopped it.
pub struct Inbound {
    topic: Vec<u8>,
    receiver: Receiver<ObjectPieces>,
    used: SharedCounter,
    state: InboundState,
}

impl Inbound {
    /// The topic of the stream.
    pub closed spec fn topic(&self) -> Seq<u8> {
        self.topic@
    }

    /// The channel that the messages come from.
    pub closed spec fn channel(&self) -> Receiver<ObjectPieces> {
        self.receiver
    }

    /// The number of messages queued on the connection, which others count
    /// on too.
    pub closed spec fn counter(&self) -> Arc<AtomicUsize> {
        self.used.number()
    }

    /// By how much the writer has raised the connection's counter.
    pub closed spec fn balance(&self) -> int {
        self.used.balance()
    }

    /// Where the writer stands.
    pub closed spec fn state(&self) -> InboundState {
        self.state
    }

    /// Creates a new `Inbound` stream writer for a topic.
    ///
    /// `receiver` is the channel with the messages to send on `topic`.
    /// `used` is this connection's outbound queue counter, shared with the
    /// senders.
    pub fn new(topic: Vec<u8>, receiver: Receiver<ObjectPieces>, used: SharedCounter) -> (r: Self)
        ensures
            r.topic() == topic@,
            r.channel() == receiver,
            r.counter() == used.number(),
            r.balance() == used.balance(),
            r.state() is WaitingMessage,
    {
        Inbound { topic, receiver, used, state: InboundState::WaitingMessage }
    }

    /// The channel that the messages come from, for polling it.
    pub fn channel_mut(&mut self) -> (r: &mut Receiver<ObjectPieces>)
        ensures
            *r == old(self).channel(),
            final(self).topic() == old(self).topic(),
            final(self).counter() == old(self).counter(),
            final(self).balance() == old(self).balance(),
            final(self).state() == old(self).state(),
            final(self).channel() == *final(r),
    {
        &mut self.receiver
    }

    fn closed_event(&self) -> (r: InboundStep)
        ensures
            r@ == closed_by_peer(self.topic()).1,
    {
        InboundStep::End(
            Some(Event::Unsubscribed { topic_id: copy_bytes(self.topic.as_slice()) }),
        )
    }

    /// Takes the writer one step on and says what to do next.
    pub fn poll(&mut self, event: InboundEvent) -> (r: InboundStep)
        requires
            old(self).state() is Poisoned ==> event is Accepted || event is Rejected,
        ensures
            final(self).topic() == old(self).topic(),
            final(self).channel() == old(self).channel(),
            final(self).counter() == old(self).counter(),
            takes_message(old(self).state(), event) ==> lowered(*old(self).counter(), 1),
            (final(self).state(), r@) == inbound_step(old(self).state(), old(self).topic(), event),
            final(self).balance() == old(self).balance() - (if takes_message(
                old(self).state(),
                event,
            ) {
                1int
            } else {
                0
            }),
    {
        let mut state = InboundState::Poisoned;
        std::mem::swap(&mut state, &mut self.state);
        match state {
            InboundState::WaitingMessage => match event {
                InboundEvent::Message(message) => {
                    self.used.take_off(1);
                    self.state = InboundState::WaitingReady { message };
                    InboundStep::PollReady
                },
                // The channel is closed and drained: the local side stopped it.
                InboundEvent::ChannelClosed => {
                    self.state = InboundState::Closed;
                    InboundStep::End(None)
                },
                InboundEvent::ChannelEmpty => {
                    self.state = InboundState::WaitingMessage;
                    InboundStep::Wait
                },
                _ => {
                    self.state = InboundState::WaitingMessage;
                    InboundStep::PollChannel
                },
            },
            InboundState::WaitingReady { message } => match event {
                InboundEvent::SinkReady => InboundStep::StartSend(message),
                InboundEvent::SinkFailed => {
                    self.state = InboundState::Closed;
                    self.closed_event()
                },
                InboundEvent::SinkBusy => {
                    self.state = InboundState::WaitingReady { message };
                    InboundStep::Wait
                },
                _ => {
                    self.state = InboundState::WaitingReady { message };
                    InboundStep::PollReady
                },
            },
            InboundState::Poisoned => match event {
                InboundEvent::Accepted => {
                    self.state = InboundState::Flushing;
                    InboundStep::PollFlush
                },
                _ => {
                    self.state = InboundState::Closed;
                    self.closed_event()
                },
            },
            InboundState::Flushing => match event {
                InboundEvent::Flushed => {
                    self.state = InboundState::WaitingMessage;
                    InboundStep::PollChannel
                },
                InboundEvent::FlushFailed => {
                    self.state = InboundState::Closed;
                    self.closed_event()
                },
                InboundEvent::FlushPending => {
                    self.state = InboundState::Flushing;
                    InboundStep::Wait
                },
                _ => {
                    self.state = InboundState::Flushing;
                    InboundStep::PollFlush
                },
            },
            InboundState::Closed => {
                self.state = InboundState::Closed;
                InboundStep::End(None)
            },
        }
    }

    /// Gives back the budget of so many messages that are left in the channel.
    pub fn release(&mut self, left: usize)
        ensures
            final(self).topic() == old(self).topic(),
            final(self).channel() == old(self).channel(),
            final(self).counter() == old(self).counter(),
            final(self).state() == old(self).state(),
            final(self).balance() == old(self).balance() - left,
            lowered(*old(self).counter(), left),
    {
        self.used.take_off(left);
    }

    /// Gives back the budget of the messages that are left in the channel.
    ///
    /// They were counted when they were queued but never taken out, so this
    /// keeps the connection's counter exact when the writer goes away. What is
    /// given back is the number of messages that the channel is found to hold.
    pub fn abandon(&mut self)
        ensures
            final(self).topic() == old(self).topic(),
            final(self).channel() == old(self).channel(),
            final(self).counter() == old(self).counter(),
            final(self).state() == old(self).state(),
            exists|left: usize| {
                &&& #[trigger] holds_at_some_moment(old(self).channel(), left)
                &&& lowered(*old(self).counter(), left)
                &&& final(self).balance() == old(self).balance() - left
            },
    {
        let left = messages_waiting(&self.receiver);
        self.release(left);
    }
}

} // verus!
