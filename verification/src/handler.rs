//! The streams of one connection: which are open, and what they report.

use std::collections::VecDeque;
use std::sync::atomic::AtomicUsize;
use std::sync::Arc;

use async_channel::{Receiver, Sender};
use vstd::prelude::*;

use crate::config::{Config, ConfigModel, TopicSet};
use crate::counter::SharedCounter;
use crate::outside::{
    channel_limit, counts_at_some_moment, message_channel, message_ends, messages_queued,
};
use crate::protocol::{InboundProtocol, ObjectPieces, OutboundProtocol, TopicSubscription};
use crate::shard::bytes_model;
use crate::substream::{Inbound, Outbound, OutboundState};
use crate::table::copy_bytes;

verus! {

/// A set of object pieces received from a peer.
#[derive(Debug)]
pub struct Received {
    /// The topic that the pieces belong to.
    pub topic_id: Vec<u8>,
    /// The object that the pieces are of.
    pub object_id: Vec<u8>,
    /// What the peer advertises of the object.
    pub metadata: Option<Vec<u8>>,
    /// The pieces.
    pub pieces: Option<Vec<u8>>,
}

/// What a [`Received`] stands for.
#[verifier::ext_equal]
pub struct ReceivedModel {
    /// The topic that the pieces belong to.
    pub topic_id: Seq<u8>,
    /// The object that the pieces are of.
    pub object_id: Seq<u8>,
    /// What the peer advertises of the object.
    pub metadata: Option<Seq<u8>>,
    /// The pieces.
    pub pieces: Option<Seq<u8>>,
}

impl Received {
    /// What the received pieces stand for.
    pub open spec fn view(&self) -> ReceivedModel {
        ReceivedModel {
            topic_id: self.topic_id@,
            object_id: self.object_id@,
            metadata: bytes_model(self.metadata),
            pieces: bytes_model(self.pieces),
        }
    }
}

impl Clone for Received {
    fn clone(&self) -> (r: Self)
        ensures
            r@ == self@,
    {
        Received {
            topic_id: copy_bytes(self.topic_id.as_slice()),
            object_id: copy_bytes(self.object_id.as_slice()),
            metadata: copy_option(&self.metadata),
            pieces: copy_option(&self.pieces),
        }
    }
}

/// A copy of an optional byte string.
fn copy_option(bytes: &Option<Vec<u8>>) -> (r: Option<Vec<u8>>)
    ensures
        bytes_model(r) == bytes_model(*bytes),
{
    match bytes {
        Some(b) => Some(copy_bytes(b.as_slice())),
        None => None,
    }
}

/// Events emitted by the handler to the behaviour.
#[derive(Debug)]
pub enum Event {
    /// The remote peer sent a valid subscription.
    /// `Sender` used by the behaviour to dispatch messages to the remote.
    Subscribed {
        /// The topic.
        topic_id: Vec<u8>,
        /// Where to send the messages of the topic.
        sender: Sender<ObjectPieces>,
    },
    /// A message with object pieces was received.
    Received(Received),
    /// The remote peer closed the stream (or an error occurred).
    Unsubscribed {
        /// The topic.
        topic_id: Vec<u8>,
    },
}

/// What an [`Event`] stands for.
pub enum EventModel {
    /// The remote peer sent a valid subscription.
    Subscribed {
        /// The topic.
        topic_id: Seq<u8>,
        /// Where to send the messages of the topic.
        sender: Sender<ObjectPieces>,
    },
    /// A message with object pieces was received.
    Received(ReceivedModel),
    /// The remote peer closed the stream.
    Unsubscribed {
        /// The topic.
        topic_id: Seq<u8>,
    },
}

impl Event {
    /// What the event stands for.
    pub open spec fn view(&self) -> EventModel {
        match *self {
            Event::Subscribed { topic_id, sender } => EventModel::Subscribed {
                topic_id: topic_id@,
                sender,
            },
            Event::Received(received) => EventModel::Received(received@),
            Event::Unsubscribed { topic_id } => EventModel::Unsubscribed { topic_id: topic_id@ },
        }
    }
}

/// Instructions from the behaviour to the handler for managing topic streams.
#[derive(Debug)]
pub enum HandlerIn {
    /// Subscribe to a topic on this connection.
    ///
    /// `close_signal` is this connection's receiver clone of the topic's
    /// close signal; it is handed to the subscription stream so the stream
    /// closes when the topic is unsubscribed.
    Subscribe {
        /// The topic.
        topic_id: Vec<u8>,
        /// Closes the stream.
        close_signal: Receiver<()>,
    },
    /// A subscription of the remote peer on this connection is not taken up.
    ///
    /// Nothing is sent on its stream, which closes. The peer may subscribe to
    /// the topic again.
    Refuse {
        /// The topic.
        topic_id: Vec<u8>,
    },
}

/// What a [`HandlerIn`] stands for.
pub enum HandlerInModel {
    /// Subscribe to a topic on this connection.
    Subscribe {
        /// The topic.
        topic_id: Seq<u8>,
        /// Closes the stream.
        close_signal: Receiver<()>,
    },
    /// A subscription of the remote peer is not taken up.
    Refuse {
        /// The topic.
        topic_id: Seq<u8>,
    },
}

impl HandlerIn {
    /// What the instruction stands for.
    pub open spec fn view(&self) -> HandlerInModel {
        match *self {
            HandlerIn::Subscribe { topic_id, close_signal } => HandlerInModel::Subscribe {
                topic_id: topic_id@,
                close_signal,
            },
            HandlerIn::Refuse { topic_id } => HandlerInModel::Refuse { topic_id: topic_id@ },
        }
    }
}

/// What the handler asks of its connection.
#[derive(Debug)]
pub enum HandlerCommand {
    /// Open a stream. The close signal goes with it.
    OpenStream {
        /// How to open it.
        protocol: OutboundProtocol,
        /// Closes the stream.
        close_signal: Receiver<()>,
    },
    /// Tell the behaviour.
    NotifyBehaviour(Event),
}

/// What a [`HandlerCommand`] stands for.
pub enum HandlerCommandModel {
    /// Open a stream.
    OpenStream {
        /// The maximum size in bytes of a message.
        max_protobuf_size: usize,
        /// The topic to subscribe to.
        topic_id: Seq<u8>,
        /// Closes the stream.
        close_signal: Receiver<()>,
    },
    /// Tell the behaviour.
    NotifyBehaviour(EventModel),
}

impl HandlerCommand {
    /// What the command stands for.
    pub open spec fn view(&self) -> HandlerCommandModel {
        match *self {
            HandlerCommand::OpenStream { protocol, close_signal } => {
                HandlerCommandModel::OpenStream {
                    max_protobuf_size: protocol.max_protobuf_size,
                    topic_id: protocol.topic_id@,
                    close_signal,
                }
            },
            HandlerCommand::NotifyBehaviour(event) => HandlerCommandModel::NotifyBehaviour(event@),
        }
    }
}

/// What the connection reports to the handler.
#[derive(Debug)]
pub enum ConnectionEvent {
    /// The remote peer opened a stream and subscribed on it.
    FullyNegotiatedInbound(TopicSubscription),
    /// A stream that the handler asked for is open.
    FullyNegotiatedOutbound {
        /// The topic of the stream.
        topic_id: Vec<u8>,
        /// Closes the stream.
        close_signal: Receiver<()>,
    },
    /// A stream that the handler asked for could not be opened.
    DialUpgradeError,
    /// Anything else.
    Other,
}

/// A stream that the connection is to drive.
pub enum Opened {
    /// The remote peer reads from it.
    Writer(Inbound),
    /// The remote peer writes to it.
    Reader(Outbound),
}

/// What was polled since the last step of [`Handler::poll`].
#[derive(Debug)]
pub enum PollEvent {
    /// The handler is polled.
    Woken,
    /// The receive streams were polled for an event.
    Outbound(Option<Event>),
    /// The send streams were polled for one that ended, with its event.
    Inbound(Option<Option<Event>>),
}

/// What to do next when the handler is polled.
#[derive(Debug)]
pub enum PollStep {
    /// Hand out the command.
    Deliver(HandlerCommand),
    /// Poll the receive streams.
    PollOutbound,
    /// Poll the send streams.
    PollInbound,
    /// Wait until woken.
    Wait,
}

/// What a [`PollStep`] stands for.
pub enum PollStepModel {
    /// Hand out the command.
    Deliver(HandlerCommandModel),
    /// Poll the receive streams.
    PollOutbound,
    /// Poll the send streams.
    PollInbound,
    /// Wait until woken.
    Wait,
}

impl PollStep {
    /// What the step stands for.
    pub open spec fn view(&self) -> PollStepModel {
        match *self {
            PollStep::Deliver(command) => PollStepModel::Deliver(command@),
            PollStep::PollOutbound => PollStepModel::PollOutbound,
            PollStep::PollInbound => PollStepModel::PollInbound,
            PollStep::Wait => PollStepModel::Wait,
        }
    }
}

/// What a [`Handler`] stands for.
#[verifier::ext_equal]
pub struct HandlerModel {
    /// The configuration.
    pub config: ConfigModel,
    /// The maximum size in bytes of a message that is received.
    pub message_limit: usize,
    /// The maximum number of streams that the remote peer has open at once.
    pub stream_limit: usize,
    /// The number of messages queued on the connection, which others count
    /// on too.
    pub counter: Arc<AtomicUsize>,
    /// The number of streams that the remote peer has open, which others
    /// count on too.
    pub open_streams: Arc<AtomicUsize>,
    /// By how much the handler has raised the number of open streams.
    pub open_balance: int,
    /// The topics the remote peer subscribed to on this connection.
    pub subscriptions: Set<Seq<u8>>,
    /// The commands that are not handed out yet.
    pub pending: Seq<HandlerCommandModel>,
}

impl HandlerModel {
    /// The handler was just made, for a connection with this configuration
    /// and this counter, and with no stream open.
    pub open spec fn fresh(self, config: ConfigModel, counter: Arc<AtomicUsize>) -> bool {
        &&& self == HandlerModel {
            config,
            message_limit: config.max_protobuf_size,
            stream_limit: config.max_topic_subscription,
            counter,
            open_streams: self.open_streams,
            open_balance: 0,
            subscriptions: Set::empty(),
            pending: Seq::empty(),
        }
        &&& counts_at_some_moment(*self.open_streams, 0)
    }

    /// The remote peer may subscribe to the topic: it is allowed, and the
    /// peer is not subscribed to it.
    pub open spec fn admits(self, topic: Seq<u8>) -> bool {
        self.config.allows(topic) && !self.subscriptions.contains(topic)
    }

    /// The handler with one more command to hand out.
    pub open spec fn push(self, command: HandlerCommandModel) -> HandlerModel {
        HandlerModel { pending: self.pending.push(command), ..self }
    }

    /// The handler once a stream of the remote peer was turned away.
    pub open spec fn turn_away(self) -> HandlerModel {
        HandlerModel { open_balance: self.open_balance - 1, ..self }
    }

    /// The handler once the remote peer subscribed to a topic.
    pub open spec fn subscribe(self, topic: Seq<u8>, sender: Sender<ObjectPieces>) -> HandlerModel {
        HandlerModel { subscriptions: self.subscriptions.insert(topic), ..self }.push(
            HandlerCommandModel::NotifyBehaviour(
                EventModel::Subscribed { topic_id: topic, sender },
            ),
        )
    }

    /// The handler once a subscription of the remote peer was refused: its
    /// stream counts as open no longer, and the peer is not subscribed to the
    /// topic.
    pub open spec fn refuse(self, topic: Seq<u8>) -> HandlerModel {
        if self.subscriptions.contains(topic) {
            HandlerModel {
                subscriptions: self.subscriptions.remove(topic),
                open_balance: self.open_balance - 1,
                ..self
            }
        } else {
            self
        }
    }

    /// The handler once the remote peer closed the stream of a topic.
    pub open spec fn unsubscribe(self, topic: Seq<u8>) -> HandlerModel {
        HandlerModel {
            subscriptions: self.subscriptions.remove(topic),
            open_balance: self.open_balance - 1,
            ..self
        }.push(
            HandlerCommandModel::NotifyBehaviour(EventModel::Unsubscribed { topic_id: topic }),
        )
    }

    /// Where the handler goes on an event while it is polled, and what is to
    /// be done then. Commands that wait are handed out first. Then come the
    /// receive streams, and last the send streams: all those that ended are
    /// taken note of.
    pub open spec fn poll(self, event: PollEvent) -> (HandlerModel, PollStepModel) {
        match event {
            PollEvent::Woken => if self.pending.len() > 0 {
                (
                    HandlerModel { pending: self.pending.drop_first(), ..self },
                    PollStepModel::Deliver(self.pending[0]),
                )
            } else {
                (self, PollStepModel::PollOutbound)
            },
            PollEvent::Outbound(Some(event)) => (
                self,
                PollStepModel::Deliver(HandlerCommandModel::NotifyBehaviour(event@)),
            ),
            PollEvent::Outbound(None) => (self, PollStepModel::PollInbound),
            PollEvent::Inbound(Some(Some(Event::Unsubscribed { topic_id }))) => (
                self.unsubscribe(topic_id@),
                PollStepModel::PollInbound,
            ),
            PollEvent::Inbound(Some(_)) => (self, PollStepModel::PollInbound),
            PollEvent::Inbound(None) => (self, PollStepModel::Wait),
        }
    }
}

/// Connection-level state for the waggle protocol.
///
/// Manages the topic subscription streams on one connection: the receive
/// streams of the topics we subscribed to, and the send streams of the
/// topics the remote peer subscribed to. Delivers events to the behaviour
/// and enforces the inbound stream limit.
pub struct Handler {
    /// Configuration for limits, queue sizes, and wire sizes.
    config: Config,
    /// Negotiates inbound substreams and enforces the inbound stream limit.
    inbound_protocol: InboundProtocol,
    /// The topics the remote peer subscribed to on this connection.
    inbound_subscriptions: TopicSet,
    /// The connection events to deliver to the swarm, drained in `poll`.
    pending_events: VecDeque<HandlerCommand>,
    /// The per-connection outbound counter, handed to each stream writer.
    used: SharedCounter,
}

impl Handler {
    /// What the handler stands for.
    pub closed spec fn view(&self) -> HandlerModel {
        HandlerModel {
            config: self.config@,
            message_limit: self.inbound_protocol.message_limit(),
            stream_limit: self.inbound_protocol.stream_limit(),
            counter: self.used.number(),
            open_streams: self.inbound_protocol.counter(),
            open_balance: self.inbound_protocol.balance(),
            subscriptions: self.inbound_subscriptions@,
            pending: self.pending_events@.map_values(|command: HandlerCommand| command@),
        }
    }

    /// Creates a new `Handler` for one connection.
    ///
    /// `used` is this connection's outbound queue counter, shared with the
    /// senders and the stream writers. `config` holds the limits and the
    /// wire sizes.
    pub fn new(used: SharedCounter, config: Config) -> (r: Self)
        ensures
            r@.fresh(config@, used.number()),
    {
        let r = Handler {
            inbound_protocol: InboundProtocol::new(
                config.max_protobuf_size(),
                config.max_topic_subscription(),
            ),
            config,
            inbound_subscriptions: TopicSet::new(),
            pending_events: VecDeque::new(),
            used,
        };
        assert(r@.pending =~= Seq::empty());
        r
    }

    /// The protocol for the streams that the remote peer opens.
    pub fn listen_protocol(&self) -> (r: InboundProtocol)
        ensures
            r.message_limit() == self@.message_limit,
            r.stream_limit() == self@.stream_limit,
            r.counter() == self@.open_streams,
            r.balance() == 0,
    {
        self.inbound_protocol.clone()
    }

    fn push(&mut self, command: HandlerCommand)
        ensures
            final(self)@ == old(self)@.push(command@),
    {
        let ghost before = *self;
        self.pending_events.push_back(command);
        assert(self@.pending =~= before@.pending.push(command@));
    }

    /// Takes an instruction from the behaviour.
    pub fn on_behaviour_event(&mut self, hin: HandlerIn)
        ensures
            final(self)@ == (match hin@ {
                HandlerInModel::Subscribe { topic_id, close_signal } => old(self)@.push(
                    HandlerCommandModel::OpenStream {
                        max_protobuf_size: old(self)@.config.max_protobuf_size,
                        topic_id,
                        close_signal,
                    },
                ),
                HandlerInModel::Refuse { topic_id } => old(self)@.refuse(topic_id),
            }),
    {
        match hin {
            HandlerIn::Subscribe { topic_id, close_signal } => {
                let protocol = OutboundProtocol {
                    max_protobuf_size: self.config.max_protobuf_size(),
                    topic_id,
                };
                self.push(HandlerCommand::OpenStream { protocol, close_signal });
            },
            HandlerIn::Refuse { topic_id } => {
                if self.inbound_subscriptions.remove(topic_id.as_slice()) {
                    self.inbound_protocol.stream_closed();
                }
            },
        }
    }

    /// Takes the handler one step on while it is polled, and says what to do
    /// next.
    pub fn poll(&mut self, event: PollEvent) -> (r: PollStep)
        ensures
            (final(self)@, r@) == old(self)@.poll(event),
    {
        let ghost before = *self;
        match event {
            // Process the pending events first.
            PollEvent::Woken => match self.pending_events.pop_front() {
                Some(command) => {
                    assert(self@.pending =~= before@.pending.drop_first());
                    PollStep::Deliver(command)
                },
                None => PollStep::PollOutbound,
            },
            // Then process the receive streams of the topics we subscribed to.
            PollEvent::Outbound(Some(event)) => PollStep::Deliver(
                HandlerCommand::NotifyBehaviour(event),
            ),
            PollEvent::Outbound(None) => PollStep::PollInbound,
            // Then drive the send streams of the topics the remote subscribed to,
            // dropping the ones that completed.
            PollEvent::Inbound(Some(ended)) => {
                if let Some(Event::Unsubscribed { topic_id }) = ended {
                    self.inbound_subscriptions.remove(topic_id.as_slice());
                    self.inbound_protocol.stream_closed();
                    self.push(HandlerCommand::NotifyBehaviour(Event::Unsubscribed { topic_id }));
                }
                PollStep::PollInbound
            },
            PollEvent::Inbound(None) => PollStep::Wait,
        }
    }

    /// Takes note of what the connection reports. Returns the stream that is
    /// to be driven, if there is a new one.
    pub fn on_connection_event(&mut self, event: ConnectionEvent) -> (r: Option<Opened>)
        ensures
            match event {
                ConnectionEvent::FullyNegotiatedInbound(subscription) => {
                    let topic = subscription.topic_id@;
                    if old(self)@.admits(topic) {
                        &&& r matches Some(Opened::Writer(writer))
                        &&& writer.topic() == topic
                        &&& writer.state() is WaitingMessage
                        &&& writer.counter() == old(self)@.counter
                        &&& writer.balance() == 0
                        &&& exists|sender: Sender<ObjectPieces>| {
                            &&& #[trigger] message_ends(sender, writer.channel())
                            &&& messages_queued(sender) == Seq::<ObjectPieces>::empty()
                            &&& channel_limit(sender) is None
                            &&& final(self)@ == old(self)@.subscribe(topic, sender)
                        }
                    } else {
                        r is None && final(self)@ == old(self)@.turn_away()
                    }
                },
                ConnectionEvent::FullyNegotiatedOutbound { topic_id, close_signal } => {
                    &&& r matches Some(Opened::Reader(reader))
                    &&& reader.topic() == topic_id@
                    &&& reader.signal() == close_signal
                    &&& reader.state() == OutboundState::Active
                    &&& final(self)@ == old(self)@
                },
                _ => r is None && final(self)@ == old(self)@,
            },
    {
        match event {
            ConnectionEvent::FullyNegotiatedInbound(subscription) => {
                let topic_id = subscription.topic_id;
                if !self.config.allows(topic_id.as_slice()) {
                    self.inbound_protocol.stream_closed();
                    return None;
                }
                if self.inbound_subscriptions.contains(topic_id.as_slice()) {
                    self.inbound_protocol.stream_closed();
                    return None;
                }
                self.inbound_subscriptions.insert(copy_bytes(topic_id.as_slice()));

                // The remote subscribed to this topic: set up the stream we
                // send the topic's pieces on.
                let (sender, receiver) = message_channel();
                let writer = Inbound::new(
                    copy_bytes(topic_id.as_slice()),
                    receiver,
                    self.used.share(),
                );
                self.push(
                    HandlerCommand::NotifyBehaviour(Event::Subscribed { topic_id, sender }),
                );
                Some(Opened::Writer(writer))
            },
            // We subscribed to this topic: set up the stream we receive
            // the topic's pieces on. Its close signal ends it when the topic
            // is unsubscribed.
            ConnectionEvent::FullyNegotiatedOutbound { topic_id, close_signal } => Some(
                Opened::Reader(Outbound::new(topic_id, close_signal)),
            ),
            // The remote peer may not speak the protocol.
            _ => None,
        }
    }
}

} // verus!
