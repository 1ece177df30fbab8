//! Every item of another crate that the library relies on, with what it
//! relies on. But for the making of a [`NumberHandle`], nothing in this file
//! is proved: each contract says what the named function does, and the rest of
//! the library is proved from it.

use std::sync::atomic::{AtomicUsize, Ordering};
use std::sync::Arc;

use async_channel::{Receiver, Sender, TrySendError};
use libp2p::swarm::ConnectionId;
use libp2p::PeerId;
use lru::LruCache;
use rand::seq::SliceRandom;
use vstd::prelude::*;

use crate::cache::{lookup, put, used};
use crate::counter::one_more;
use crate::protocol::ObjectPieces;
use crate::shard::ShardBox;
use crate::substream::SendReply;

verus! {

/// The identity of a remote peer. The library only compares it and passes it
/// on.
#[verifier::external_type_specification]
#[verifier::external_body]
pub struct ExPeerId(libp2p::PeerId);

/// The identifier of a connection. The library only compares it and passes
/// it on.
#[verifier::external_type_specification]
#[verifier::external_body]
pub struct ExConnectionId(libp2p::swarm::ConnectionId);

/// The sending end of a channel.
#[verifier::external_type_specification]
#[verifier::external_body]
#[verifier::reject_recursive_types(T)]
pub struct ExSender<T>(async_channel::Sender<T>);

/// The receiving end of a channel.
#[verifier::external_type_specification]
#[verifier::external_body]
#[verifier::reject_recursive_types(T)]
pub struct ExReceiver<T>(async_channel::Receiver<T>);

/// A cache that drops the least recently used entry when it is full.
#[verifier::external_type_specification]
#[verifier::external_body]
#[verifier::reject_recursive_types(K)]
#[verifier::reject_recursive_types(V)]
#[verifier::reject_recursive_types(S)]
pub struct ExLruCache<K, V, S>(lru::LruCache<K, V, S>);

/// The hasher of a cache. The library never touches it.
#[verifier::external_type_specification]
#[verifier::external_body]
pub struct ExCacheHasher(lru::DefaultHasher);

/// What [`Duration::as_nanos`](std::time::Duration::as_nanos) returns: the
/// length of a span of time in nanoseconds.
pub uninterp spec fn duration_nanos(duration: std::time::Duration) -> nat;

/// [`Duration::from_secs`](std::time::Duration::from_secs): a span of so many
/// whole seconds.
pub assume_specification[ std::time::Duration::from_secs ](secs: u64) -> (r: std::time::Duration)
    ensures
        duration_nanos(r) == secs * 1_000_000_000,
;

/// `==` on [`ConnectionId`]. The identifier holds one number and its equality
/// is derived, so two identifiers compare equal exactly when they are the
/// same identifier.
#[verifier::external_body]
pub(crate) fn same_connection(a: &ConnectionId, b: &ConnectionId) -> (r: bool)
    ensures
        r == (*a == *b),
{
    a == b
}

/// `==` on [`PeerId`]. It compares the hash function and the digest that an
/// identity consists of, so two identities compare equal exactly when they
/// are the same identity.
#[verifier::external_body]
pub(crate) fn same_peer(a: &PeerId, b: &PeerId) -> (r: bool)
    ensures
        r == (*a == *b),
{
    a == b
}

/// The entries of a cache, the most recently used one first.
pub uninterp spec fn cache_entries(cache: LruCache<Vec<u8>, ShardBox>) -> Seq<(Seq<u8>, ShardBox)>;

/// The number of entries that a cache was made to hold.
pub uninterp spec fn cache_capacity(cache: LruCache<Vec<u8>, ShardBox>) -> nat;

/// [`LruCache::sparse`]: an empty cache that holds at most `capacity`
/// entries. Only a capacity of zero is ruled out: the cache is made without
/// room set aside, so no capacity is too large.
#[verifier::external_body]
pub(crate) fn new_cache(capacity: usize) -> (r: LruCache<Vec<u8>, ShardBox>)
    requires
        capacity > 0,
    ensures
        cache_entries(r) == Seq::<(Seq<u8>, ShardBox)>::empty(),
        cache_capacity(r) == capacity,
{
    LruCache::sparse(std::num::NonZeroUsize::new(capacity).unwrap())
}

/// [`LruCache::get`]: what is cached under the identifier. Its entry becomes
/// the most recently used one, the order of the others stays. Where nothing
/// is cached under it, the cache stays as it is.
#[verifier::external_body]
pub(crate) fn cache_get<'a>(cache: &'a mut LruCache<Vec<u8>, ShardBox>, object_id: &[u8]) -> (r:
    Option<&'a ShardBox>)
    ensures
        cache_capacity(*final(cache)) == cache_capacity(*old(cache)),
        cache_entries(*final(cache)) == used(cache_entries(*old(cache)), object_id@),
        match r {
            Some(shard) => lookup(cache_entries(*old(cache)), object_id@) == Some(*shard),
            None => lookup(cache_entries(*old(cache)), object_id@) is None,
        },
{
    cache.get(object_id)
}

/// [`LruCache::put`]: caches the shard under the identifier, in place of what
/// was cached under it, as the most recently used entry. Where the identifier
/// is new and the cache is full, the least recently used entry is dropped.
#[verifier::external_body]
pub(crate) fn cache_put(
    cache: &mut LruCache<Vec<u8>, ShardBox>,
    object_id: Vec<u8>,
    shard: ShardBox,
) -> (r: Option<ShardBox>)
    ensures
        cache_capacity(*final(cache)) == cache_capacity(*old(cache)),
        cache_entries(*final(cache)) == put(
            cache_entries(*old(cache)),
            cache_capacity(*old(cache)),
            object_id@,
            shard,
        ),
        r == lookup(cache_entries(*old(cache)), object_id@),
{
    cache.put(object_id, shard)
}

/// The messages that a sending end has put into its channel, first to last,
/// whether or not they were taken out again since.
pub uninterp spec fn messages_queued(sender: Sender<ObjectPieces>) -> Seq<ObjectPieces>;

/// The number of messages that a channel was made to hold at once, if it was
/// made with a limit.
pub uninterp spec fn channel_limit(sender: Sender<ObjectPieces>) -> Option<nat>;

/// At some moment nobody receives from the channel any more.
pub uninterp spec fn closed_at_some_moment(sender: Sender<ObjectPieces>) -> bool;

/// The two ends belong to one channel: what goes in at the one comes out at
/// the other.
pub uninterp spec fn message_ends(
    sender: Sender<ObjectPieces>,
    receiver: Receiver<ObjectPieces>,
) -> bool;

/// [`async_channel::unbounded`]: the two ends of a new channel without a limit
/// and with nothing put into it.
#[verifier::external_body]
pub(crate) fn message_channel() -> (r: (Sender<ObjectPieces>, Receiver<ObjectPieces>))
    ensures
        messages_queued(r.0) == Seq::<ObjectPieces>::empty(),
        channel_limit(r.0) is None,
        message_ends(r.0, r.1),
{
    async_channel::unbounded()
}

/// [`Sender::try_send`]: puts the message last into the channel, or hands it
/// back and leaves the channel as it is. Only a channel with a limit is ever
/// full, and only one that nobody receives from is closed. When that comes
/// about depends on the other end, so the contract does not say more of which
/// reply comes.
#[verifier::external_body]
pub(crate) fn try_queue(sender: &mut Sender<ObjectPieces>, message: ObjectPieces) -> (r: SendReply)
    ensures
        channel_limit(*final(sender)) == channel_limit(*old(sender)),
        closed_at_some_moment(*final(sender)) == closed_at_some_moment(*old(sender)),
        r is Full ==> channel_limit(*old(sender)) is Some,
        r is Closed ==> closed_at_some_moment(*old(sender)),
        match r {
            SendReply::Queued => messages_queued(*final(sender)) == messages_queued(
                *old(sender),
            ).push(message),
            SendReply::Full(back) => back == message && messages_queued(*final(sender))
                == messages_queued(*old(sender)),
            SendReply::Closed(back) => back == message && messages_queued(*final(sender))
                == messages_queued(*old(sender)),
        },
{
    match sender.try_send(message) {
        Ok(()) => SendReply::Queued,
        Err(TrySendError::Full(back)) => SendReply::Full(back),
        Err(TrySendError::Closed(back)) => SendReply::Closed(back),
    }
}

/// At some moment the channel of the receiving end holds so many messages.
pub uninterp spec fn holds_at_some_moment(receiver: Receiver<ObjectPieces>, count: usize) -> bool;

/// [`Receiver::len`]: the number of messages in the channel at the moment of
/// the call. Both ends change it at any time, so the contract does not say
/// which of the numbers that the channel comes to hold it is.
#[verifier::external_body]
pub(crate) fn messages_waiting(receiver: &Receiver<ObjectPieces>) -> (r: usize)
    ensures
        holds_at_some_moment(*receiver, r),
{
    receiver.len()
}

/// The two ends belong to one channel: when the sending end goes away, the
/// receiving end wakes.
pub uninterp spec fn signal_ends(sender: Sender<()>, receiver: Receiver<()>) -> bool;

/// [`async_channel::bounded`] with room for one message: the two ends of a
/// new channel.
#[verifier::external_body]
pub(crate) fn signal_channel() -> (r: (Sender<()>, Receiver<()>))
    ensures
        signal_ends(r.0, r.1),
{
    async_channel::bounded(1)
}

/// The clone of a [`Receiver`]: another receiving end of the same channel. A
/// receiving end stands for its channel, so the clone is equal to it.
#[verifier::external_body]
pub(crate) fn clone_signal(receiver: &Receiver<()>) -> (r: Receiver<()>)
    ensures
        r == *receiver,
{
    receiver.clone()
}

/// [`SliceRandom::shuffle`] with the generator of the thread: the same
/// connections in another order. Which order is up to chance.
#[verifier::external_body]
pub(crate) fn shuffle_connections(connections: &mut Vec<ConnectionId>)
    ensures
        final(connections)@.to_multiset() == old(connections)@.to_multiset(),
{
    connections.shuffle(&mut rand::rng())
}

/// At some moment the number is `count`.
pub uninterp spec fn counts_at_some_moment(number: AtomicUsize, count: usize) -> bool;

/// At some moment the number is `was`, and one is added to it.
pub uninterp spec fn raised_at_some_moment(number: AtomicUsize, was: usize) -> bool;

/// At some moment the number is `was`, and `by` is taken off it.
pub uninterp spec fn lowered_at_some_moment(number: AtomicUsize, by: usize, was: usize) -> bool;

/// [`AtomicUsize::new`]: a number that is `value` at first.
#[verifier::external_body]
pub(crate) fn new_number(value: usize) -> (r: AtomicUsize)
    ensures
        counts_at_some_moment(r, value),
{
    AtomicUsize::new(value)
}

/// One owner's hold on a number that several owners share. The number is
/// changed by the functions below and by nothing else, and each of them says
/// what it adds through the handle, so what was added through it is known
/// whatever the other owners do.
pub struct NumberHandle {
    number: Arc<AtomicUsize>,
    added: Ghost<int>,
}

impl NumberHandle {
    /// The number that the handle is on. Handles on the same number agree in
    /// it.
    pub closed spec fn number(&self) -> Arc<AtomicUsize> {
        self.number
    }

    /// What was added to the number through this handle, less what was taken
    /// off through it.
    pub closed spec fn added(&self) -> int {
        self.added@
    }

    /// A handle on a new number, which is `value` at first.
    pub fn new(value: usize) -> (r: Self)
        ensures
            counts_at_some_moment(*r.number(), value),
            r.added() == 0,
    {
        NumberHandle { number: Arc::new(new_number(value)), added: Ghost(0) }
    }

    /// Another handle on the same number.
    pub fn share(&self) -> (r: Self)
        ensures
            r.number() == self.number(),
            r.added() == 0,
    {
        NumberHandle { number: Arc::clone(&self.number), added: Ghost(0) }
    }
}

/// [`AtomicUsize::fetch_add`] of one: adds one to the number, no more and no
/// less, and hands back what it was. Other owners change the number at any time, so the contract
/// does not say which of the numbers that it comes to be that was. Past the
/// largest number it goes on with zero.
#[verifier::external_body]
pub(crate) fn raise(handle: &mut NumberHandle) -> (r: usize)
    ensures
        final(handle).number() == old(handle).number(),
        final(handle).added() == old(handle).added() + 1,
        raised_at_some_moment(*old(handle).number(), r),
{
    handle.number.fetch_add(1, Ordering::SeqCst)
}

/// [`AtomicUsize::fetch_sub`]: takes `by` off the number, no more and no less,
/// and hands back what it was. Other owners change the number at any time, so the contract does
/// not say which of the numbers that it comes to be that was. Below zero it
/// goes on with the largest number.
#[verifier::external_body]
pub(crate) fn lower(handle: &mut NumberHandle, by: usize) -> (r: usize)
    ensures
        final(handle).number() == old(handle).number(),
        final(handle).added() == old(handle).added() - by,
        lowered_at_some_moment(*old(handle).number(), by, r),
{
    handle.number.fetch_sub(by, Ordering::SeqCst)
}

/// [`AtomicUsize::fetch_update`] with [`one_more`]: adds one to the number if
/// it was below the limit, and leaves it as it is otherwise. Hands back what it
/// was. Other owners change the number at any time, so the contract does not
/// say which of the numbers that it comes to be that was.
#[verifier::external_body]
pub(crate) fn raise_below(handle: &mut NumberHandle, limit: usize) -> (r: Result<usize, usize>)
    ensures
        final(handle).number() == old(handle).number(),
        match r {
            Ok(was) => {
                &&& was < limit
                &&& raised_at_some_moment(*old(handle).number(), was)
                &&& final(handle).added() == old(handle).added() + 1
            },
            Err(was) => {
                &&& was >= limit
                &&& counts_at_some_moment(*old(handle).number(), was)
                &&& final(handle).added() == old(handle).added()
            },
        },
{
    handle.number.fetch_update(Ordering::SeqCst, Ordering::SeqCst, |was| one_more(was, limit))
}

} // verus!
