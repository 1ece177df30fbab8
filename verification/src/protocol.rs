//! What is said on a stream, and how a stream is opened.

use std::sync::atomic::AtomicUsize;
use std::sync::Arc;

use vstd::prelude::*;

use crate::counter::{lowered, raised_below, reached, SharedCounter};
use crate::outside::counts_at_some_moment;
use crate::shard::bytes_model;
use crate::table::copy_bytes;

verus! {

/// The name that the two ends of a stream agree on.
pub const WAGGLE_PROTOCOL: &'static str = "/waggle/1.0";

/// The first message on a stream: the topic that the stream is for.
#[derive(Debug)]
pub struct TopicSubscription {
    /// The topic.
    pub topic_id: Vec<u8>,
}

/// A message on an open stream.
#[derive(Debug)]
pub struct ObjectPieces {
    /// The object that the message is about.
    pub object_id: Vec<u8>,
    /// What the sender holds of the object and what it wants.
    pub pieces_metadata: Option<Vec<u8>>,
    /// Pieces of the object.
    pub pieces: Option<Vec<u8>>,
}

/// What an [`ObjectPieces`] stands for.
#[verifier::ext_equal]
pub struct ObjectPiecesModel {
    /// The object that the message is about.
    pub object_id: Seq<u8>,
    /// What the sender holds of the object and what it wants.
    pub pieces_metadata: Option<Seq<u8>>,
    /// Pieces of the object.
    pub pieces: Option<Seq<u8>>,
}

impl ObjectPieces {
    /// What the message stands for.
    pub open spec fn view(&self) -> ObjectPiecesModel {
        ObjectPiecesModel {
            object_id: self.object_id@,
            pieces_metadata: bytes_model(self.pieces_metadata),
            pieces: bytes_model(self.pieces),
        }
    }
}

/// Errors from negotiating waggle subscription streams. `E` is what goes wrong
/// when a message is read.
#[derive(Debug)]
pub enum Error<E> {
    /// The peer has as many streams open as it may have.
    MaxStreamsReached,
    /// The remote peer closed the stream before subscribing.
    ClosedStream,
    /// The first message is not a topic subscription.
    InvalidSubscription(E),
}

/// Codec for the initial [`TopicSubscription`] message on a waggle substream.
#[derive(Debug)]
pub struct SubscriptionCodec {
    max_protobuf_size: usize,
}

impl SubscriptionCodec {
    /// The maximum size in bytes of a message.
    pub closed spec fn limit(&self) -> usize {
        self.max_protobuf_size
    }

    /// Creates a new `SubscriptionCodec` with the given maximum protobuf message size.
    pub fn new(max_protobuf_size: usize) -> (r: Self)
        ensures
            r.limit() == max_protobuf_size,
    {
        SubscriptionCodec { max_protobuf_size }
    }

    /// The maximum size in bytes of a message.
    pub fn max_protobuf_size(&self) -> (r: usize)
        ensures
            r == self.limit(),
    {
        self.max_protobuf_size
    }
}

/// Codec for [`ObjectPieces`] messages on an established waggle substream.
#[derive(Debug)]
pub struct PieceCodec {
    max_protobuf_size: usize,
}

impl PieceCodec {
    /// The maximum size in bytes of a message.
    pub closed spec fn limit(&self) -> usize {
        self.max_protobuf_size
    }

    /// The maximum size in bytes of a message.
    pub fn max_protobuf_size(&self) -> (r: usize)
        ensures
            r == self.limit(),
    {
        self.max_protobuf_size
    }
}

impl From<SubscriptionCodec> for PieceCodec {
    /// The codec for the rest of a stream, with the same limit.
    fn from(sub: SubscriptionCodec) -> (r: Self)
        ensures
            r.limit() == sub.limit(),
    {
        PieceCodec { max_protobuf_size: sub.max_protobuf_size }
    }
}

impl vstd::std_specs::convert::FromSpecImpl<SubscriptionCodec> for PieceCodec {
    open spec fn obeys_from_spec() -> bool {
        true
    }

    closed spec fn from_spec(sub: SubscriptionCodec) -> PieceCodec {
        PieceCodec { max_protobuf_size: sub.max_protobuf_size }
    }
}

/// What comes of a subscription, from what the number of open streams was and
/// whether it could be raised.
pub fn upgrade_outcome<E>(subscription: TopicSubscription, raised: Result<usize, usize>) -> (r:
    Result<TopicSubscription, Error<E>>)
    ensures
        r == (match raised {
            Ok(_) => Ok::<TopicSubscription, Error<E>>(subscription),
            Err(_) => Err::<TopicSubscription, Error<E>>(Error::MaxStreamsReached),
        }),
{
    match raised {
        Ok(_) => Ok(subscription),
        Err(_) => Err(Error::MaxStreamsReached),
    }
}

/// Protocol upgrade of the streams that the remote peer opens. Enforces the
/// limit on the number of streams that are open at once.
pub struct InboundProtocol {
    max_protobuf_size: usize,
    max_open_streams: usize,
    current_open_streams: SharedCounter,
}

impl InboundProtocol {
    /// The maximum size in bytes of a message.
    pub closed spec fn message_limit(&self) -> usize {
        self.max_protobuf_size
    }

    /// The maximum number of streams that are open at once.
    pub closed spec fn stream_limit(&self) -> usize {
        self.max_open_streams
    }

    /// The number of open streams, which several handles count on.
    pub closed spec fn counter(&self) -> Arc<AtomicUsize> {
        self.current_open_streams.number()
    }

    /// The number of streams that were opened through this handle, less the
    /// number of those that were reported to it as closed.
    pub closed spec fn balance(&self) -> int {
        self.current_open_streams.balance()
    }

    /// What a stream that opens with this message goes on with.
    pub open spec fn opens(
        &self,
        subscription: TopicSubscription,
        opened: (TopicSubscription, PieceCodec),
    ) -> bool {
        opened.0 == subscription && opened.1.limit() == self.message_limit()
    }

    /// A protocol with no stream open.
    pub fn new(max_protobuf_size: usize, max_open_streams: usize) -> (r: Self)
        ensures
            r.message_limit() == max_protobuf_size,
            r.stream_limit() == max_open_streams,
            r.balance() == 0,
            counts_at_some_moment(*r.counter(), 0),
    {
        InboundProtocol {
            max_protobuf_size,
            max_open_streams,
            current_open_streams: SharedCounter::new(),
        }
    }

    /// Reports that a stream was closed.
    pub fn stream_closed(&mut self)
        ensures
            final(self).message_limit() == old(self).message_limit(),
            final(self).stream_limit() == old(self).stream_limit(),
            final(self).counter() == old(self).counter(),
            final(self).balance() == old(self).balance() - 1,
            lowered(*old(self).counter(), 1),
    {
        self.current_open_streams.take_off(1);
    }

    /// The protocol name to offer.
    pub fn protocol_info(&self) -> (r: &'static str)
        ensures
            r@ == WAGGLE_PROTOCOL@,
    {
        WAGGLE_PROTOCOL
    }

    /// The codec to read the first message with.
    pub fn subscription_codec(&self) -> (r: SubscriptionCodec)
        ensures
            r.limit() == self.message_limit(),
    {
        SubscriptionCodec::new(self.max_protobuf_size)
    }

    /// Decides on a stream that the remote peer opened, from what was first
    /// read from it: the end of the stream, a failure to read, or a message.
    /// A message opens the stream if the number of open streams is below the
    /// limit, and one is then added to it. An open stream goes on with the
    /// codec that is returned with the message.
    ///
    /// The number of open streams is shared with other handles, so the
    /// contract does not say which of the numbers that it comes to be the
    /// message finds. [`upgrade_outcome`] says what follows from it.
    pub fn upgrade_inbound<E>(&mut self, first: Option<Result<TopicSubscription, E>>) -> (r: Result<
        (TopicSubscription, PieceCodec),
        Error<E>,
    >)
        ensures
            final(self).message_limit() == old(self).message_limit(),
            final(self).stream_limit() == old(self).stream_limit(),
            final(self).counter() == old(self).counter(),
            match first {
                None => r matches Err(e) && e == Error::<E>::ClosedStream,
                Some(Err(cause)) => r matches Err(e) && e == Error::InvalidSubscription(cause),
                Some(Ok(subscription)) => match r {
                    Ok(opened) => {
                        &&& raised_below(*old(self).counter(), old(self).stream_limit())
                        &&& old(self).opens(subscription, opened)
                    },
                    Err(e) => {
                        &&& reached(*old(self).counter(), old(self).stream_limit())
                        &&& e == Error::<E>::MaxStreamsReached
                    },
                },
            },
            final(self).balance() == old(self).balance() + (if r is Ok {
                1int
            } else {
                0
            }),
    {
        match first {
            None => Err(Error::ClosedStream),
            Some(Err(cause)) => Err(Error::InvalidSubscription(cause)),
            Some(Ok(subscription)) => {
                let codec = PieceCodec::from(self.subscription_codec());
                let raised = self.current_open_streams.add_one_below(self.max_open_streams);
                match upgrade_outcome(subscription, raised) {
                    Ok(subscription) => Ok((subscription, codec)),
                    Err(e) => Err(e),
                }
            },
        }
    }
}

impl Clone for InboundProtocol {
    /// Another handle, which counts on the same number of open streams.
    fn clone(&self) -> (r: Self)
        ensures
            r.message_limit() == self.message_limit(),
            r.stream_limit() == self.stream_limit(),
            r.counter() == self.counter(),
            r.balance() == 0,
    {
        InboundProtocol {
            max_protobuf_size: self.max_protobuf_size,
            max_open_streams: self.max_open_streams,
            current_open_streams: self.current_open_streams.share(),
        }
    }
}

/// Protocol upgrade of the streams that the local node opens.
#[derive(Debug)]
pub struct OutboundProtocol {
    /// The maximum size in bytes of a message.
    pub max_protobuf_size: usize,
    /// The topic to subscribe to.
    pub topic_id: Vec<u8>,
}

impl OutboundProtocol {
    /// What a stream for the topic is opened with.
    pub open spec fn writes(&self, first: (TopicSubscription, SubscriptionCodec)) -> bool {
        first.0.topic_id@ == self.topic_id@ && first.1.limit() == self.max_protobuf_size
    }

    /// The protocol name to offer.
    pub fn protocol_info(&self) -> (r: &'static str)
        ensures
            r@ == WAGGLE_PROTOCOL@,
    {
        WAGGLE_PROTOCOL
    }

    /// The message to open the stream with, and the codec to write it with.
    pub fn subscription(&self) -> (r: (TopicSubscription, SubscriptionCodec))
        ensures
            self.writes(r),
    {
        (
            TopicSubscription { topic_id: copy_bytes(self.topic_id.as_slice()) },
            SubscriptionCodec::new(self.max_protobuf_size),
        )
    }

    /// Decides on a stream that the local node opened, from whether the first
    /// message could be sent. An open stream is for the topic that is
    /// returned, and goes on with the codec that is returned with it.
    pub fn upgrade_outbound<E>(self, sent: Result<(), E>) -> (r: Result<(Vec<u8>, PieceCodec), E>)
        ensures
            match sent {
                Ok(()) => r matches Ok(opened) && opened.0 == self.topic_id && opened.1.limit()
                    == self.max_protobuf_size,
                Err(cause) => r matches Err(e) && e == cause,
            },
    {
        match sent {
            Ok(()) => Ok(
                (
                    self.topic_id,
                    PieceCodec::from(SubscriptionCodec::new(self.max_protobuf_size)),
                ),
            ),
            Err(cause) => Err(cause),
        }
    }
}

} // verus!
