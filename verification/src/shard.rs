//! Objects, their pieces, and what is known of the pieces that peers hold.

use libp2p::swarm::ConnectionId;
use libp2p::PeerId;
use lru::LruCache;
use vstd::prelude::*;

use crate::cache::{bounded, lemma_put, lemma_used, lemma_used_then_put, lookup, put, used, Entries};
use crate::config::NonZeroUsize;
use crate::handler::Received;
use crate::outside::{cache_capacity, cache_entries, cache_get, cache_put, new_cache};
use crate::table::{copy_bytes, same_bytes, Table};

verus! {

/// Application-defined strategy to split an object into pieces and to
/// reconstruct it from received partial data.
///
/// Exchange the pieces of an object on topic streams. The protocol treats the
/// object grouping and the piece metadata as opaque data. The application
/// interprets this data through this trait.
/// 1. Implement this trait to define how to split and rebuild objects.
/// 2. Use `metadata()` to advertise the pieces the local node holds and the pieces it wants.
/// 3. Use `object_id` to join all the pieces of the same object.
/// 4. Integrate each newly received piece into the application as needed.
///
/// What a shard answers is the application's choice, and may differ from one
/// call to the next. `advertises` and `acts` say which answers it may give.
/// Here they are left open; an implementation may define them.
pub trait Shard: Send + Sync {
    /// The identifier of the object.
    closed spec fn id(&self) -> Seq<u8> {
        arbitrary()
    }

    /// The shard may advertise this metadata.
    closed spec fn advertises(&self, metadata: Seq<u8>) -> bool {
        arbitrary()
    }

    /// The shard may answer the metadata of a connection with this outcome.
    closed spec fn acts(
        &self,
        peer_id: PeerId,
        connection: ConnectionId,
        metadata: Option<Seq<u8>>,
        outcome: Result<Action, Error>,
    ) -> bool {
        arbitrary()
    }

    /// Returns the identifier of the object for this piece.
    ///
    /// Returns the same identifier from every piece of the same logical object.
    /// The protocol uses this identifier to join the pieces that form the
    /// object during reconstruction. It corresponds to the `objectID` wire field.
    fn object_id(&self) -> (r: Vec<u8>)
        ensures
            r@ == self.id(),
    ;

    /// Returns application-defined metadata.
    ///
    /// The metadata describes the pieces of the object that are available and
    /// the pieces that the local node wants. The protocol sends the returned
    /// bytes in the `piecesMetadata` protobuf field to advertise the pieces
    /// the local node holds and the pieces the local node wants.
    fn metadata(&self) -> (r: MetadataBox)
        ensures
            self.advertises(r.bytes()),
    ;

    /// Generates an action from the given metadata.
    ///
    /// When a connection requests specific pieces, generates the piece data to
    /// send back. The `metadata` parameter describes the pieces the connection
    /// requests and the pieces the connection holds that the local node does
    /// not have yet.
    ///
    /// Returns an [`Action`] for the given metadata, or an error.
    fn action_from_metadata(
        &self,
        peer_id: PeerId,
        connection: ConnectionId,
        metadata: Option<&[u8]>,
    ) -> (r: Result<Action, Error>)
        ensures
            self.acts(peer_id, connection, slice_model(metadata), r),
    ;
}

/// Application-defined state that describes the available and requested
/// pieces of an object.
///
/// It advertises the pieces of an object
/// that are present and the pieces that are still needed. It must give a byte
/// representation for wire transmission. It must also support in-place
/// updates when remote metadata is received.
///
/// Use `update` to add remote metadata to the local state. It returns `true`
/// when the state changed. Use `update_from_data` to track the metadata that
/// the remote peer believes the local peer has. Its default does nothing.
///
/// What an update does is the application's choice. `accepts` says which
/// outcomes it may have. Here it is left open; an implementation may define it.
pub trait Metadata: Send + Sync {
    /// The byte representation.
    closed spec fn bytes(&self) -> Seq<u8> {
        arbitrary()
    }

    /// An update with the data may have this outcome, with these bytes
    /// afterwards.
    closed spec fn accepts(&self, data: Seq<u8>, after: Seq<u8>, outcome: Result<bool, Error>) -> bool {
        arbitrary()
    }

    /// Returns the `Metadata` as a byte slice.
    fn as_slice(&self) -> (r: &[u8])
        ensures
            r@ == self.bytes(),
    ;

    /// Adds the remote metadata to this `Metadata`.
    /// Returns `true` when this `Metadata` changed.
    fn update(&mut self, data: &[u8]) -> (r: Result<bool, Error>)
        ensures
            old(self).accepts(data@, final(self).bytes(), r),
    ;

    /// Tracks the metadata that the remote peer believes the local peer has.
    /// Uses the data received from the remote peer.
    /// The default returns [`Ok(())`](Ok) when the update logic is not present.
    fn update_from_data(&mut self, _data: &[u8]) -> (r: Result<(), Error>)
        default_ensures
            r is Ok,
            final(self).bytes() == old(self).bytes(),
    {
        Ok(())
    }
}

/// A shard of some application type.
pub struct ShardBox {
    /// The shard.
    pub shard: Box<dyn Shard>,
}

impl ShardBox {
    /// The identifier of the object.
    pub open spec fn id(self) -> Seq<u8> {
        self.shard.id()
    }

    /// The shard may advertise this metadata.
    pub open spec fn advertises(self, metadata: Seq<u8>) -> bool {
        self.shard.advertises(metadata)
    }

    /// The shard may answer the metadata of a connection with this outcome.
    pub open spec fn acts(
        self,
        peer_id: PeerId,
        connection: ConnectionId,
        metadata: Option<Seq<u8>>,
        outcome: Result<Action, Error>,
    ) -> bool {
        self.shard.acts(peer_id, connection, metadata, outcome)
    }
}

/// Metadata of some application type.
pub struct MetadataBox {
    /// The metadata.
    pub metadata: Box<dyn Metadata>,
}

impl MetadataBox {
    /// The byte representation.
    pub open spec fn bytes(self) -> Seq<u8> {
        self.metadata.bytes()
    }

    /// An update with the data may have this outcome, with these bytes
    /// afterwards.
    pub open spec fn accepts(
        self,
        data: Seq<u8>,
        after: Seq<u8>,
        outcome: Result<bool, Error>,
    ) -> bool {
        self.metadata.accepts(data, after, outcome)
    }
}

/// The action to take for the given metadata.
pub struct Action {
    /// When `true`, the peer has data that the local node needs.
    pub need: bool,
    /// The data and the updated peer metadata to send to the peer.
    pub send: Option<(Vec<u8>, MetadataBox)>,
}

/// The bytes of an optional slice.
pub open spec fn slice_model(bytes: Option<&[u8]>) -> Option<Seq<u8>> {
    match bytes {
        Some(b) => Some(b@),
        None => None,
    }
}

/// The bytes of an optional byte string.
pub open spec fn bytes_model(bytes: Option<Vec<u8>>) -> Option<Seq<u8>> {
    match bytes {
        Some(b) => Some(b@),
        None => None,
    }
}

/// The side that last produced the tracked metadata.
pub enum PeerView {
    /// The metadata last updated from a value sent by the remote peer.
    Remote(Vec<u8>),
    /// The metadata the local node last produced.
    Local(MetadataBox),
}

/// What a [`PeerView`] stands for.
pub enum PeerViewModel {
    /// The bytes that the remote peer sent.
    Remote(Seq<u8>),
    /// The metadata that the local node produced.
    Local(MetadataBox),
}

impl PeerViewModel {
    /// The tracked metadata as raw bytes, from either side.
    pub open spec fn bytes(self) -> Seq<u8> {
        match self {
            PeerViewModel::Remote(bytes) => bytes,
            PeerViewModel::Local(metadata) => metadata.bytes(),
        }
    }
}

impl PeerView {
    /// What the view stands for.
    pub open spec fn view(&self) -> PeerViewModel {
        match *self {
            PeerView::Remote(bytes) => PeerViewModel::Remote(bytes@),
            PeerView::Local(metadata) => PeerViewModel::Local(metadata),
        }
    }

    /// The tracked metadata as raw bytes, from either side.
    pub fn as_bytes(&self) -> (r: &[u8])
        ensures
            r@ == self@.bytes(),
    {
        match self {
            PeerView::Remote(bytes) => bytes.as_slice(),
            PeerView::Local(metadata) => metadata.metadata.as_slice(),
        }
    }
}

/// The local node's tracked state, per peer and object.
///
/// This state describes the pieces the peer has, the pieces the peer wants,
/// and the pieces that the local node believes the peer has.
pub struct RemoteView {
    /// The local node's view of the peer's current metadata.
    pub peer_metadata: Option<PeerView>,
    /// The peer's view of the local node's current metadata.
    pub our_metadata: Option<MetadataBox>,
}

/// What a [`RemoteView`] stands for.
pub struct RemoteViewModel {
    /// The local node's view of the peer's current metadata.
    pub peer_metadata: Option<PeerViewModel>,
    /// The peer's view of the local node's current metadata.
    pub our_metadata: Option<MetadataBox>,
}

impl RemoteViewModel {
    /// Nothing is known yet, on either side.
    pub open spec fn unknown() -> RemoteViewModel {
        RemoteViewModel { peer_metadata: None, our_metadata: None }
    }

    /// The metadata of the peer as raw bytes.
    pub open spec fn peer_bytes(self) -> Option<Seq<u8>> {
        match self.peer_metadata {
            Some(view) => Some(view.bytes()),
            None => None,
        }
    }

    /// The view after the local node sent what an action holds: the metadata
    /// that goes with the data is what the peer now has.
    pub open spec fn after_send(self, send: Option<(Vec<u8>, MetadataBox)>) -> RemoteViewModel {
        match send {
            Some(sent) => RemoteViewModel {
                peer_metadata: Some(PeerViewModel::Local(sent.1)),
                ..self
            },
            None => self,
        }
    }

    /// Adding the peer's metadata to what is known of the peer may have this
    /// outcome, with `after` known afterwards. Metadata that the peer sent is
    /// replaced by what it sends now. Metadata that the local node produced
    /// is asked to take in what the peer sends, and is afterwards `learned`.
    pub open spec fn learns(
        self,
        metadata: Option<Seq<u8>>,
        learned: MetadataBox,
        outcome: Result<bool, Error>,
        after: RemoteViewModel,
    ) -> bool {
        match (self.peer_metadata, metadata) {
            (_, None) => outcome == Ok::<bool, Error>(false) && after == self,
            (None, Some(remote)) => {
                &&& outcome == Ok::<bool, Error>(true)
                &&& after == RemoteViewModel {
                    peer_metadata: Some(PeerViewModel::Remote(remote)),
                    ..self
                }
            },
            (Some(PeerViewModel::Remote(current)), Some(remote)) => {
                &&& outcome == Ok::<bool, Error>(current != remote)
                &&& after == RemoteViewModel {
                    peer_metadata: Some(PeerViewModel::Remote(remote)),
                    ..self
                }
            },
            (Some(PeerViewModel::Local(current)), Some(remote)) => {
                &&& current.accepts(remote, learned.bytes(), outcome)
                &&& after == RemoteViewModel {
                    peer_metadata: Some(PeerViewModel::Local(learned)),
                    ..self
                }
            },
        }
    }
}

impl RemoteView {
    /// What the view stands for.
    pub open spec fn view(&self) -> RemoteViewModel {
        RemoteViewModel {
            peer_metadata: match self.peer_metadata {
                Some(view) => Some(view@),
                None => None,
            },
            our_metadata: self.our_metadata,
        }
    }

    /// A view with nothing known yet, on either side.
    pub fn new() -> (r: Self)
        ensures
            r@ == RemoteViewModel::unknown(),
    {
        RemoteView { peer_metadata: None, our_metadata: None }
    }

    /// The metadata of the peer as raw bytes.
    pub fn peer_bytes(&self) -> (r: Option<&[u8]>)
        ensures
            slice_model(r) == self@.peer_bytes(),
    {
        match &self.peer_metadata {
            Some(view) => Some(view.as_bytes()),
            None => None,
        }
    }

    /// Takes over the metadata that an action sends along with its data.
    /// Returns the data.
    pub fn absorb(&mut self, send: Option<(Vec<u8>, MetadataBox)>) -> (r: Option<Vec<u8>>)
        ensures
            final(self)@ == old(self)@.after_send(send),
            r == (match send {
                Some(sent) => Some(sent.0),
                None => None,
            }),
    {
        match send {
            Some(sent) => {
                self.peer_metadata = Some(PeerView::Local(sent.1));
                Some(sent.0)
            },
            None => None,
        }
    }

    /// Adds the metadata that the peer sent to what is known of the peer.
    /// Returns `true` when the peer's advertised state changed.
    pub fn learn(&mut self, metadata: &Option<Vec<u8>>) -> (r: Result<bool, Error>)
        ensures
            exists|learned: MetadataBox| #[trigger]
                old(self)@.learns(bytes_model(*metadata), learned, r, final(self)@),
    {
        let ghost before = self@;
        match metadata {
            None => {
                proof {
                    let any: MetadataBox = arbitrary();
                    assert(before.learns(bytes_model(*metadata), any, Ok(false), self@));
                }
                Ok(false)
            },
            Some(remote) => {
                let r = match &mut self.peer_metadata {
                    // Updatable view. Add the remote metadata. Report when it changed.
                    Some(PeerView::Local(current)) => Some(current.metadata.update(remote.as_slice())),
                    _ => None,
                };
                if let Some(outcome) = r {
                    proof {
                        let learned = self.peer_metadata->0->Local_0;
                        assert(before.learns(bytes_model(*metadata), learned, outcome, self@));
                    }
                    return outcome;
                }
                // Raw view. Replace it only when the peer's metadata differs.
                let changed = match &self.peer_metadata {
                    Some(PeerView::Remote(current)) => !same_bytes(
                        current.as_slice(),
                        remote.as_slice(),
                    ),
                    // No view yet. Adopt the peer's metadata as the raw view.
                    _ => true,
                };
                if changed {
                    self.peer_metadata = Some(PeerView::Remote(copy_bytes(remote.as_slice())));
                }
                proof {
                    let any: MetadataBox = arbitrary();
                    assert(before.learns(bytes_model(*metadata), any, Ok(changed), self@));
                }
                Ok(changed)
            },
        }
    }
}

/// Data to send to a peer after reconciling an object.
///
/// This action describes an outbound message to a peer. `body` is the piece
/// payload. `metadata` is the local node's current metadata.
/// When both are `None`, send nothing.
#[derive(Debug)]
pub struct ReconcileAction {
    /// The piece payload to send to the peer. `None` sends no piece.
    pub body: Option<Vec<u8>>,
    /// The current metadata to advertise. `None` sends no metadata.
    pub metadata: Option<Vec<u8>>,
}

/// What a [`ReconcileAction`] stands for.
pub struct ReconcileActionModel {
    /// The piece payload.
    pub body: Option<Seq<u8>>,
    /// The metadata to advertise.
    pub metadata: Option<Seq<u8>>,
}

impl ReconcileActionModel {
    /// What is sent where the application produced `body`, the local node
    /// advertises `published`, and the peer has seen other metadata than that
    /// if `updated` holds. Nothing is sent where there is nothing new.
    pub open spec fn of(body: Option<Seq<u8>>, published: Seq<u8>, updated: bool) -> Option<
        ReconcileActionModel,
    > {
        if body is None && !updated {
            None
        } else {
            Some(
                ReconcileActionModel {
                    body,
                    metadata: if updated {
                        Some(published)
                    } else {
                        None
                    },
                },
            )
        }
    }
}

impl ReconcileAction {
    /// What the action stands for.
    pub open spec fn view(&self) -> ReconcileActionModel {
        ReconcileActionModel { body: bytes_model(self.body), metadata: bytes_model(self.metadata) }
    }

    /// What to send where the application produced `body`, the local node
    /// advertises `published`, and the peer has seen other metadata than that
    /// if `updated` holds.
    pub fn of(body: Option<Vec<u8>>, published: Vec<u8>, updated: bool) -> (r: Option<Self>)
        ensures
            reconcile_model(Ok(r)) == Ok::<Option<ReconcileActionModel>, Error>(
                ReconcileActionModel::of(bytes_model(body), published@, updated),
            ),
    {
        match (body, updated) {
            (Some(data), true) => Some(
                ReconcileAction { body: Some(data), metadata: Some(published) },
            ),
            (Some(data), false) => Some(ReconcileAction { body: Some(data), metadata: None }),
            (None, true) => Some(ReconcileAction { body: None, metadata: Some(published) }),
            (None, false) => None,
        }
    }
}

/// What the result of [`State::reconcile`] stands for.
pub open spec fn reconcile_model(r: Result<Option<ReconcileAction>, Error>) -> Result<
    Option<ReconcileActionModel>,
    Error,
> {
    match r {
        Ok(Some(action)) => Ok(Some(action@)),
        Ok(None) => Ok(None),
        Err(e) => Err(e),
    }
}

/// The action the behaviour must take after it reconciles a received piece.
///
/// This action describes how to handle an inbound message. Use `emit` to give
/// the received piece to the application. Use `send` to reply to the peer.
#[derive(Debug)]
pub struct ReceivedAction {
    /// When `true`, give the received piece to the application.
    pub emit: bool,
    /// The reply to send to the peer: `(body, our_metadata)`.
    pub send: Option<(Vec<u8>, Vec<u8>)>,
}

/// What a [`ReceivedAction`] stands for.
pub struct ReceivedActionModel {
    /// The received piece is given to the application.
    pub emit: bool,
    /// The reply.
    pub send: Option<(Seq<u8>, Seq<u8>)>,
}

impl ReceivedAction {
    /// What the action stands for.
    pub open spec fn view(&self) -> ReceivedActionModel {
        ReceivedActionModel {
            emit: self.emit,
            send: match self.send {
                Some(reply) => Some((reply.0@, reply.1@)),
                None => None,
            },
        }
    }
}

/// What the result of [`State::received`] stands for.
pub open spec fn received_model(r: Result<Option<ReceivedAction>, Error>) -> Result<
    Option<ReceivedActionModel>,
    Error,
> {
    match r {
        Ok(Some(action)) => Ok(Some(action@)),
        Ok(None) => Ok(None),
        Err(e) => Err(e),
    }
}

/// What is tracked of the connections: per topic, connection and object.
pub type Remote = Map<Seq<u8>, Map<ConnectionId, Map<Seq<u8>, RemoteViewModel>>>;

/// What is tracked of a topic.
pub open spec fn topic_views(remote: Remote, topic: Seq<u8>) -> Map<
    ConnectionId,
    Map<Seq<u8>, RemoteViewModel>,
> {
    if remote.contains_key(topic) {
        remote[topic]
    } else {
        Map::empty()
    }
}

/// What is tracked of a connection on a topic.
pub open spec fn connection_views(
    remote: Remote,
    topic: Seq<u8>,
    connection: ConnectionId,
) -> Map<Seq<u8>, RemoteViewModel> {
    if topic_views(remote, topic).contains_key(connection) {
        topic_views(remote, topic)[connection]
    } else {
        Map::empty()
    }
}

/// What is tracked of a connection for an object.
pub open spec fn known_view(
    remote: Remote,
    topic: Seq<u8>,
    connection: ConnectionId,
    object_id: Seq<u8>,
) -> RemoteViewModel {
    if connection_views(remote, topic, connection).contains_key(object_id) {
        connection_views(remote, topic, connection)[object_id]
    } else {
        RemoteViewModel::unknown()
    }
}

/// What is tracked once the view of a connection for an object is another.
pub open spec fn track_view(
    remote: Remote,
    topic: Seq<u8>,
    connection: ConnectionId,
    object_id: Seq<u8>,
    view: RemoteViewModel,
) -> Remote {
    let views = connection_views(remote, topic, connection).insert(object_id, view);
    remote.insert(topic, topic_views(remote, topic).insert(connection, views))
}

/// What a [`State`] stands for.
#[verifier::ext_equal]
pub struct StateModel {
    /// How many objects are cached per topic at most.
    pub capacity: nat,
    /// Per topic, the cached objects, the most recently used one first.
    pub local: Map<Seq<u8>, Entries>,
    /// What is tracked of the connections.
    pub remote: Remote,
}

/// What the application answered while an object was reconciled.
pub struct ReconcileCalls {
    /// What the shard answered to the peer's metadata.
    pub action: Result<Action, Error>,
    /// What the shard advertised.
    pub published: MetadataBox,
    /// What the peer has seen of the local node's metadata afterwards.
    pub ours: MetadataBox,
    /// Whether that changed.
    pub updated: Result<bool, Error>,
}

/// What the application answered while a received piece was reconciled.
pub struct ReceivedCalls {
    /// What metadata that the local node produced for the peer became.
    pub learned: MetadataBox,
    /// What is known of the peer once its metadata is added.
    pub known: RemoteViewModel,
    /// Whether that changed.
    pub updated: Result<bool, Error>,
    /// What the shard answered to the peer's metadata.
    pub action: Result<Action, Error>,
    /// What the shard advertised.
    pub published: MetadataBox,
}

impl StateModel {
    /// The cached shard of an object.
    pub open spec fn cached(self, topic: Seq<u8>, object_id: Seq<u8>) -> Option<ShardBox> {
        if self.local.contains_key(topic) {
            lookup(self.local[topic], object_id)
        } else {
            None
        }
    }

    /// The cached objects of a topic.
    pub open spec fn entries(self, topic: Seq<u8>) -> Entries {
        if self.local.contains_key(topic) {
            self.local[topic]
        } else {
            Entries::empty()
        }
    }

    /// What is tracked of a connection for an object.
    pub open spec fn known(
        self,
        topic: Seq<u8>,
        connection: ConnectionId,
        object_id: Seq<u8>,
    ) -> RemoteViewModel {
        known_view(self.remote, topic, connection, object_id)
    }

    /// The state with another view tracked of a connection for an object.
    pub open spec fn track(
        self,
        topic: Seq<u8>,
        connection: ConnectionId,
        object_id: Seq<u8>,
        view: RemoteViewModel,
    ) -> StateModel {
        StateModel {
            remote: track_view(self.remote, topic, connection, object_id, view),
            ..self
        }
    }

    /// The state after a use of a cached object.
    pub open spec fn touch(self, topic: Seq<u8>, object_id: Seq<u8>) -> StateModel {
        if self.local.contains_key(topic) {
            StateModel {
                local: self.local.insert(topic, used(self.local[topic], object_id)),
                ..self
            }
        } else {
            self
        }
    }

    /// The state after a shard was cached.
    pub open spec fn store(self, topic: Seq<u8>, shard: ShardBox) -> StateModel {
        StateModel {
            local: self.local.insert(
                topic,
                put(self.entries(topic), self.capacity, shard.id(), shard),
            ),
            ..self
        }
    }

    /// The state with nothing cached and nothing tracked of a topic.
    pub open spec fn forget_topic(self, topic: Seq<u8>) -> StateModel {
        StateModel { local: self.local.remove(topic), remote: self.remote.remove(topic), ..self }
    }

    /// The state with nothing tracked of a connection. A topic of which
    /// nothing is tracked any more is gone.
    pub open spec fn forget_connection(self, connection: ConnectionId) -> StateModel {
        StateModel {
            remote: Map::new(
                |topic: Seq<u8>| self.remote.contains_key(topic)
                    && !self.remote[topic].remove(connection).is_empty(),
                |topic: Seq<u8>| self.remote[topic].remove(connection),
            ),
            ..self
        }
    }

    /// Per topic, no object is cached twice, and no more than the capacity
    /// are cached.
    pub open spec fn bounded(self) -> bool {
        &&& self.capacity > 0
        &&& forall|topic: Seq<u8>| #[trigger] self.local.contains_key(topic) ==> bounded(
            self.local[topic],
            self.capacity,
        )
    }

    /// Storing a shard may return this, where `shown` is what the cached
    /// shard advertised and `published` what the new one did: an object that
    /// was not cached is new, one that was cached is asked whether its
    /// metadata changes with that of the new shard.
    pub open spec fn stores(
        self,
        topic: Seq<u8>,
        shard: ShardBox,
        shown: MetadataBox,
        published: MetadataBox,
        after: Seq<u8>,
        outcome: Result<bool, Error>,
        r: bool,
    ) -> bool {
        match self.cached(topic, shard.id()) {
            None => r,
            Some(existing) => {
                &&& existing.advertises(shown.bytes())
                &&& shard.advertises(published.bytes())
                &&& shown.accepts(published.bytes(), after, outcome)
                &&& r == (outcome == Ok::<bool, Error>(true))
            },
        }
    }

    /// Storing a shard may return this.
    pub open spec fn may_store(self, topic: Seq<u8>, shard: ShardBox, r: bool) -> bool {
        exists|
            shown: MetadataBox,
            published: MetadataBox,
            after: Seq<u8>,
            outcome: Result<bool, Error>,
        | #[trigger]
            self.stores(topic, shard, shown, published, after, outcome, r)
    }

    /// Reconciling an object with a connection gives this result and this
    /// state, where the application answers as in `calls`.
    pub open spec fn reconciles_with(
        self,
        topic: Seq<u8>,
        connection: ConnectionId,
        peer: PeerId,
        object_id: Seq<u8>,
        calls: ReconcileCalls,
        r: Result<Option<ReconcileActionModel>, Error>,
        after: StateModel,
    ) -> bool {
        match self.cached(topic, object_id) {
            None => r == Ok::<Option<ReconcileActionModel>, Error>(None) && after == self,
            Some(shard) => {
                let known = self.known(topic, connection, object_id);
                let touched = self.touch(topic, object_id);
                &&& shard.acts(peer, connection, known.peer_bytes(), calls.action)
                &&& match calls.action {
                    Err(e) => {
                        &&& r == Err::<Option<ReconcileActionModel>, Error>(e)
                        &&& after == touched.track(topic, connection, object_id, known)
                    },
                    Ok(action) => {
                        &&& shard.advertises(calls.published.bytes())
                        &&& match known.our_metadata {
                            Some(seen) => seen.accepts(
                                calls.published.bytes(),
                                calls.ours.bytes(),
                                calls.updated,
                            ),
                            None => shard.advertises(calls.ours.bytes()) && calls.updated == Ok::<
                                bool,
                                Error,
                            >(true),
                        }
                        &&& after == touched.track(
                            topic,
                            connection,
                            object_id,
                            RemoteViewModel {
                                our_metadata: Some(calls.ours),
                                ..known.after_send(action.send)
                            },
                        )
                        &&& r == match calls.updated {
                            Err(e) => Err(e),
                            Ok(updated) => Ok(
                                ReconcileActionModel::of(
                                    body_model(action.send),
                                    calls.published.bytes(),
                                    updated,
                                ),
                            ),
                        }
                    },
                }
            },
        }
    }

    /// Reconciling an object with a connection may give this result and this
    /// state.
    pub open spec fn reconciles(
        self,
        topic: Seq<u8>,
        connection: ConnectionId,
        peer: PeerId,
        object_id: Seq<u8>,
        r: Result<Option<ReconcileActionModel>, Error>,
        after: StateModel,
    ) -> bool {
        exists|calls: ReconcileCalls| #[trigger]
            self.reconciles_with(topic, connection, peer, object_id, calls, r, after)
    }

    /// Reconciling a received piece gives this result and this state, where
    /// the application answers as in `calls`.
    pub open spec fn receives_with(
        self,
        connection: ConnectionId,
        peer: PeerId,
        received: Received,
        calls: ReceivedCalls,
        r: Result<Option<ReceivedActionModel>, Error>,
        after: StateModel,
    ) -> bool {
        let topic = received.topic_id@;
        let object_id = received.object_id@;
        let known = calls.known;
        &&& self.known(topic, connection, object_id).learns(
            bytes_model(received.metadata),
            calls.learned,
            calls.updated,
            known,
        )
        &&& match calls.updated {
            Err(e) => {
                &&& r == Err::<Option<ReceivedActionModel>, Error>(e)
                &&& after == self.track(topic, connection, object_id, known)
            },
            Ok(updated) => if !updated && received.pieces is None {
                &&& r == Ok::<Option<ReceivedActionModel>, Error>(None)
                &&& after == self.track(topic, connection, object_id, known)
            } else {
                match self.cached(topic, object_id) {
                    None => {
                        &&& r == Ok::<Option<ReceivedActionModel>, Error>(
                            Some(ReceivedActionModel { emit: true, send: None }),
                        )
                        &&& after == self.track(topic, connection, object_id, known)
                    },
                    Some(shard) => {
                        let touched = self.touch(topic, object_id);
                        &&& shard.acts(peer, connection, known.peer_bytes(), calls.action)
                        &&& match calls.action {
                            Err(e) => {
                                &&& r == Err::<Option<ReceivedActionModel>, Error>(e)
                                &&& after == touched.track(topic, connection, object_id, known)
                            },
                            Ok(action) => {
                                &&& action.send is Some ==> shard.advertises(
                                    calls.published.bytes(),
                                )
                                &&& after == touched.track(
                                    topic,
                                    connection,
                                    object_id,
                                    known.after_send(action.send),
                                )
                                &&& r == Ok::<Option<ReceivedActionModel>, Error>(
                                    Some(
                                        ReceivedActionModel {
                                            emit: action.need,
                                            send: match body_model(action.send) {
                                                Some(body) => Some(
                                                    (body, calls.published.bytes()),
                                                ),
                                                None => None,
                                            },
                                        },
                                    ),
                                )
                            },
                        }
                    },
                }
            },
        }
    }

    /// Reconciling a received piece may give this result and this state.
    pub open spec fn receives(
        self,
        connection: ConnectionId,
        peer: PeerId,
        received: Received,
        r: Result<Option<ReceivedActionModel>, Error>,
        after: StateModel,
    ) -> bool {
        exists|calls: ReceivedCalls| #[trigger]
            self.receives_with(connection, peer, received, calls, r, after)
    }
}

/// The data that an action sends.
pub open spec fn body_model(send: Option<(Vec<u8>, MetadataBox)>) -> Option<Seq<u8>> {
    match send {
        Some(sent) => Some(sent.0@),
        None => None,
    }
}

type ConnectionViews = Table<Vec<u8>, RemoteView>;

type TopicViews = Table<ConnectionId, ConnectionViews>;

/// Per-topic engine state for piece dissemination.
///
/// Holds a bounded local cache of the objects the local node has published.
/// Uses the cache to serve pieces to peers that are missing them and to
/// reconcile with those peers. Keeps a per-connection view of what each
/// connection has and wants for each object.
///
/// The local cache is a pure LRU bounded by `Config::max_cached_objects` and
/// evicted on insert. The application manages the long-term object lifetime,
/// not this behaviour.
pub struct State {
    /// Per-topic LRU cache capacity for locally stored objects.
    capacity: NonZeroUsize,
    /// Locally cached published objects, keyed by `object_id`.
    /// The cache bound per topic comes from `Config::max_cached_objects`.
    local: Table<Vec<u8>, LruCache<Vec<u8>, ShardBox>>,
    /// The local node's view of a connection's state, keyed by topic,
    /// `ConnectionId`, and `object_id`.
    remote: Table<Vec<u8>, TopicViews>,
}

spec fn connection_views_model(views: ConnectionViews) -> Map<Seq<u8>, RemoteViewModel> {
    views@.map_values(|view: RemoteView| view@)
}

spec fn topic_views_model(views: TopicViews) -> Map<ConnectionId, Map<Seq<u8>, RemoteViewModel>> {
    views@.map_values(|v: ConnectionViews| connection_views_model(v))
}

spec fn topic_views_wf(views: TopicViews) -> bool {
    &&& views.wf()
    &&& forall|connection: ConnectionId| #[trigger] views@.contains_key(connection)
        ==> views@[connection].wf()
}

spec fn remote_model(remote: Table<Vec<u8>, TopicViews>) -> Remote {
    remote@.map_values(|v: TopicViews| topic_views_model(v))
}

spec fn remote_wf(remote: Table<Vec<u8>, TopicViews>) -> bool {
    &&& remote.wf()
    &&& forall|topic: Seq<u8>| #[trigger] remote@.contains_key(topic) ==> topic_views_wf(
        remote@[topic],
    )
}

/// What a table stands for follows each of its entries.
proof fn lemma_remote_entry(before: Table<Vec<u8>, TopicViews>, topic: Seq<u8>)
    ensures
        forall|after: Table<Vec<u8>, TopicViews>, views: TopicViews|
            #![trigger remote_model(after), before@.insert(topic, views)]
            after@ == before@.insert(topic, views) ==> remote_model(after) == remote_model(
                before,
            ).insert(topic, topic_views_model(views)),
{
    assert forall|after: Table<Vec<u8>, TopicViews>, views: TopicViews|
        #![trigger remote_model(after), before@.insert(topic, views)]
        after@ == before@.insert(topic, views) implies remote_model(after) == remote_model(
        before,
    ).insert(topic, topic_views_model(views)) by {
        assert(remote_model(after) =~= remote_model(before).insert(topic, topic_views_model(views)));
    }
}

/// What a table stands for follows each of its entries.
proof fn lemma_topic_views_entry(before: TopicViews, connection: ConnectionId)
    ensures
        forall|after: TopicViews, views: ConnectionViews|
            #![trigger topic_views_model(after), before@.insert(connection, views)]
            after@ == before@.insert(connection, views) ==> topic_views_model(after)
                == topic_views_model(before).insert(connection, connection_views_model(views)),
{
    assert forall|after: TopicViews, views: ConnectionViews|
        #![trigger topic_views_model(after), before@.insert(connection, views)]
        after@ == before@.insert(connection, views) implies topic_views_model(after)
        == topic_views_model(before).insert(connection, connection_views_model(views)) by {
        assert(topic_views_model(after) =~= topic_views_model(before).insert(
            connection,
            connection_views_model(views),
        ));
    }
}

/// What a table stands for follows each of its entries.
proof fn lemma_connection_views_entry(before: ConnectionViews, object_id: Seq<u8>)
    ensures
        forall|after: ConnectionViews, view: RemoteView|
            #![trigger connection_views_model(after), before@.insert(object_id, view)]
            after@ == before@.insert(object_id, view) ==> connection_views_model(after)
                == connection_views_model(before).insert(object_id, view@),
{
    assert forall|after: ConnectionViews, view: RemoteView|
        #![trigger connection_views_model(after), before@.insert(object_id, view)]
        after@ == before@.insert(object_id, view) implies connection_views_model(after)
        == connection_views_model(before).insert(object_id, view@) by {
        assert(connection_views_model(after) =~= connection_views_model(before).insert(
            object_id,
            view@,
        ));
    }
}

/// The view of a connection for an object, for changing it in place. Where
/// there is none, it is first made.
fn view_mut<'a>(
    remote: &'a mut Table<Vec<u8>, TopicViews>,
    topic: &[u8],
    connection: ConnectionId,
    object_id: &[u8],
) -> (r: &'a mut RemoteView)
    requires
        remote_wf(*old(remote)),
    ensures
        (*r)@ == known_view(remote_model(*old(remote)), topic@, connection, object_id@),
        remote_wf(*final(remote)),
        remote_model(*final(remote)) == track_view(
            remote_model(*old(remote)),
            topic@,
            connection,
            object_id@,
            (*final(r))@,
        ),
{
    proof {
        lemma_remote_entry(*remote, topic@);
    }
    let no_connections: TopicViews = Table::new();
    let no_objects: ConnectionViews = Table::new();
    assert(topic_views_model(no_connections) =~= Map::empty());
    assert(connection_views_model(no_objects) =~= Map::empty());
    let topic_views = remote.get_or_insert(copy_bytes(topic), no_connections);
    proof {
        lemma_topic_views_entry(*topic_views, connection);
    }
    let connection_views = topic_views.get_or_insert(connection, no_objects);
    proof {
        lemma_connection_views_entry(*connection_views, object_id@);
    }
    connection_views.get_or_insert(copy_bytes(object_id), RemoteView::new())
}

impl State {
    /// What the state stands for.
    pub closed spec fn view(&self) -> StateModel {
        StateModel {
            capacity: self.capacity@,
            local: self.local@.map_values(|cache: LruCache<Vec<u8>, ShardBox>| cache_entries(cache)),
            remote: remote_model(self.remote),
        }
    }

    /// The tables hold no key twice, and each cache is bounded by the
    /// capacity.
    pub closed spec fn wf(&self) -> bool {
        &&& self.local.wf()
        &&& remote_wf(self.remote)
        &&& self@.bounded()
        &&& forall|topic: Seq<u8>| #[trigger] self.local@.contains_key(topic)
            ==> cache_capacity(self.local@[topic]) == self.capacity@
    }

    /// In a well-formed state, per topic, no object is cached twice, and no
    /// more than the capacity are cached.
    pub proof fn lemma_bounded(&self)
        requires
            self.wf(),
        ensures
            self@.bounded(),
    {
    }

    /// Creates a new `State` instance.
    pub fn new(capacity: NonZeroUsize) -> (r: Self)
        ensures
            r.wf(),
            r@ == (StateModel { capacity: capacity@, local: Map::empty(), remote: Map::empty() }),
    {
        let positive = capacity.get();
        let r = State { capacity, local: Table::new(), remote: Table::new() };
        assert(r@.local =~= Map::<Seq<u8>, Entries>::empty());
        assert(r@.remote =~= Map::empty());
        r
    }

    /// Stores or updates a locally published object.
    /// Returns `false` when no piece changed.
    pub fn store(&mut self, topic: &[u8], shard: ShardBox) -> (r: bool)
        requires
            old(self).wf(),
        ensures
            final(self).wf(),
            final(self)@ == old(self)@.store(topic@, shard),
            old(self)@.may_store(topic@, shard, r),
    {
        let ghost before = *self;
        let object_id = shard.shard.object_id();
        let capacity = self.capacity.get();
        let cache = self.local.get_or_insert(copy_bytes(topic), new_cache(capacity));
        let ghost shown: MetadataBox = arbitrary();
        let ghost published: MetadataBox = arbitrary();
        let ghost after: Seq<u8> = arbitrary();
        let ghost result: Result<bool, Error> = arbitrary();
        let ghost given = cache_entries(*cache);
        let updated = match cache_get(cache, object_id.as_slice()) {
            Some(existing) => {
                let mut current = existing.shard.metadata();
                let new = shard.shard.metadata();
                proof {
                    shown = current;
                    published = new;
                }
                let outcome = current.metadata.update(new.metadata.as_slice());
                proof {
                    after = current.bytes();
                    result = outcome;
                }
                match outcome {
                    Ok(changed) => changed,
                    Err(_) => false,
                }
            },
            None => true,  // new object
        };
        proof {
            assert(bounded(given, capacity as nat)) by {
                assert(before.local@.contains_key(topic@) ==> before@.local.contains_key(topic@));
            }
            lemma_used_then_put(given, capacity as nat, shard.id(), shard);
            lemma_put(given, capacity as nat, shard.id(), shard);
        }
        let replaced = cache_put(cache, object_id, shard);
        proof {
            assert(self@.local =~= before@.store(topic@, shard).local);
            assert(self@.remote =~= before@.remote);
            assert(before@.stores(topic@, shard, shown, published, after, result, updated));
        }
        updated
    }

    /// Computes what to send on a connection for `object_id`.
    ///
    /// Uses the cached shard and the connection's tracked metadata. Returns
    /// `Ok(None)` when there is nothing to send on the connection. Returns
    /// `Err` when the tracked metadata is invalid.
    pub fn reconcile(
        &mut self,
        topic: &[u8],
        connection: ConnectionId,
        peer: PeerId,
        object_id: &[u8],
    ) -> (r: Result<Option<ReconcileAction>, Error>)
        requires
            old(self).wf(),
        ensures
            final(self).wf(),
            old(self)@.reconciles(
                topic@,
                connection,
                peer,
                object_id@,
                reconcile_model(r),
                final(self)@,
            ),
    {
        let ghost before = *self;
        let ghost given = before@.entries(topic@);
        let ghost calls: ReconcileCalls = arbitrary();
        proof {
            if before.local@.contains_key(topic@) {
                assert(before@.local.contains_key(topic@));
                lemma_used(given, before.capacity@, object_id@);
            }
        }
        let cached = match self.local.get_mut(topic) {
            Some(cache) => cache_get(cache, object_id),
            None => None,
        };
        let shard = match cached {
            Some(shard) => shard,
            None => {
                proof {
                    assert(self@.local =~= before@.local);
                    assert(before@.reconciles_with(
                        topic@,
                        connection,
                        peer,
                        object_id@,
                        calls,
                        Ok(None),
                        self@,
                    ));
                }
                return Ok(None);
            },
        };
        let ghost held = *shard;
        let view = view_mut(&mut self.remote, topic, connection, object_id);
        let ghost known = view@;
        let action = match shard.shard.action_from_metadata(peer, connection, view.peer_bytes()) {
            Ok(action) => action,
            Err(e) => {
                proof {
                    calls = ReconcileCalls { action: Err(e), ..calls };
                    assert(self@.local =~= before@.touch(topic@, object_id@).local);
                    assert(before@.reconciles_with(
                        topic@,
                        connection,
                        peer,
                        object_id@,
                        calls,
                        Err(e),
                        self@,
                    ));
                }
                return Err(e);
            },
        };
        proof {
            calls = ReconcileCalls { action: Ok(action), ..calls };
        }
        // The data body, when the app produced it.
        let body = view.absorb(action.send);
        let published = shard.shard.metadata();
        let published_bytes = copy_bytes(published.metadata.as_slice());
        // Did the connection's view of the local node's metadata change?
        let (seen, updated) = match view.our_metadata.take() {
            Some(mut seen) => {
                let updated = seen.metadata.update(published_bytes.as_slice());
                (seen, updated)
            },
            None => (shard.shard.metadata(), Ok(true)),
        };
        proof {
            calls = ReconcileCalls { published, ours: seen, updated, ..calls };
        }
        view.our_metadata = Some(seen);
        let r = match updated {
            Ok(updated) => Ok(ReconcileAction::of(body, published_bytes, updated)),
            Err(e) => Err(e),
        };
        proof {
            assert(self@.local =~= before@.touch(topic@, object_id@).local);
            assert(before@.reconciles_with(
                topic@,
                connection,
                peer,
                object_id@,
                calls,
                reconcile_model(r),
                self@,
            ));
        }
        r
    }

    /// Reconciles a received piece against any cached object.
    /// Updates the local node's view of the connection's metadata.
    /// Returns the action the caller must take.
    pub fn received(&mut self, connection: ConnectionId, peer: PeerId, received: &Received) -> (r:
        Result<Option<ReceivedAction>, Error>)
        requires
            old(self).wf(),
        ensures
            final(self).wf(),
            old(self)@.receives(connection, peer, *received, received_model(r), final(self)@),
    {
        let ghost before = *self;
        let ghost topic = received.topic_id@;
        let ghost object_id = received.object_id@;
        let ghost calls: ReceivedCalls = arbitrary();
        proof {
            if before.local@.contains_key(topic) {
                assert(before@.local.contains_key(topic));
                lemma_used(before@.entries(topic), before.capacity@, object_id);
            }
        }
        // 1. Record the local node's view of the connection's metadata from
        //    what it sent.
        let view = view_mut(
            &mut self.remote,
            received.topic_id.as_slice(),
            connection,
            received.object_id.as_slice(),
        );
        let ghost before_view = view@;
        let learned = view.learn(&received.metadata);
        let ghost known = view@;
        proof {
            let witness = choose|m: MetadataBox| #[trigger]
                before_view.learns(bytes_model(received.metadata), m, learned, known);
            calls = ReceivedCalls { learned: witness, known, updated: learned, ..calls };
        }
        let updated = match learned {
            Ok(updated) => updated,
            Err(e) => {
                proof {
                    assert(self@.local =~= before@.local);
                    assert(before@.receives_with(connection, peer, *received, calls, Err(e), self@));
                }
                return Err(e);
            },
        };

        // Nothing changed and no payload. Nothing to do.
        if !updated && received.pieces.is_none() {
            proof {
                assert(self@.local =~= before@.local);
                assert(before@.receives_with(connection, peer, *received, calls, Ok(None), self@));
            }
            return Ok(None);
        }

        // 2. Does the local node hold this object? If not, surface the piece as-is.
        let cached = match self.local.get_mut(received.topic_id.as_slice()) {
            Some(cache) => cache_get(cache, received.object_id.as_slice()),
            None => None,
        };
        let shard = match cached {
            Some(shard) => shard,
            None => {
                let r = Ok(Some(ReceivedAction { emit: true, send: None }));
                proof {
                    assert(self@.local =~= before@.local);
                    assert(before@.receives_with(
                        connection,
                        peer,
                        *received,
                        calls,
                        received_model(r),
                        self@,
                    ));
                }
                return r;
            },
        };

        // 3. Reconcile against the peer with the cached shard.
        let action = match shard.shard.action_from_metadata(peer, connection, view.peer_bytes()) {
            Ok(action) => action,
            Err(e) => {
                proof {
                    calls = ReceivedCalls { action: Err(e), ..calls };
                    assert(self@.local =~= before@.touch(topic, object_id).local);
                    assert(before@.receives_with(connection, peer, *received, calls, Err(e), self@));
                }
                return Err(e);
            },
        };
        proof {
            calls = ReceivedCalls { action: Ok(action), ..calls };
        }
        let emit = action.need;
        let send = match view.absorb(action.send) {
            Some(body) => {
                let published = shard.shard.metadata();
                proof {
                    calls = ReceivedCalls { published, ..calls };
                }
                Some((body, copy_bytes(published.metadata.as_slice())))
            },
            None => None,
        };
        let r = Ok(Some(ReceivedAction { emit, send }));
        proof {
            assert(self@.local =~= before@.touch(topic, object_id).local);
            assert(before@.receives_with(
                connection,
                peer,
                *received,
                calls,
                received_model(r),
                self@,
            ));
        }
        r
    }

    /// Removes all tracked state for a closed connection.
    pub fn connection_closed(&mut self, connection_id: ConnectionId)
        requires
            old(self).wf(),
        ensures
            final(self).wf(),
            final(self)@ == old(self)@.forget_connection(connection_id),
    {
        let ghost before = *self;
        let ghost goal = before@.forget_connection(connection_id).remote;
        let mut i: usize = 0;
        while i < self.remote.len()
            invariant
                i <= self.remote.keys().len(),
                remote_wf(self.remote),
                self.local == before.local,
                self.capacity == before.capacity,
                goal == before@.forget_connection(connection_id).remote,
                forall|j: int|
                    0 <= j < i ==> goal.contains_key(#[trigger] self.remote.keys()[j])
                        && remote_model(self.remote)[self.remote.keys()[j]]
                        == goal[self.remote.keys()[j]],
                forall|j: int|
                    i <= j < self.remote.keys().len() ==> before@.remote.contains_key(
                        #[trigger] self.remote.keys()[j],
                    ) && remote_model(self.remote)[self.remote.keys()[j]]
                        == before@.remote[self.remote.keys()[j]],
                forall|topic: Seq<u8>|
                    before@.remote.contains_key(topic) && !self.remote@.contains_key(topic)
                        ==> !(#[trigger] goal.contains_key(topic)),
            decreases self.remote.keys().len() - i,
        {
            let ghost round = self.remote;
            let ghost topic = round.keys()[i as int];
            proof {
                lemma_remote_entry(round, topic);
                round.lemma_entry(i as int);
                assert(topic_views_wf(round@[topic]));
            }
            let views = self.remote.value_mut_at(i);
            let ghost all = *views;
            let closed = views.remove(&connection_id);
            let emptied = views.len() == 0;
            assert(topic_views_model(*views) =~= topic_views_model(all).remove(connection_id));
            assert(emptied == topic_views_model(*views).is_empty()) by {
                if !emptied {
                    views.lemma_entry(0);
                    assert(topic_views_model(*views).contains_key(views.keys()[0]));
                } else {
                    assert(topic_views_model(*views).dom() =~= Set::empty());
                }
            }
            let ghost rest = *views;
            assert(remote_model(round)[topic] == topic_views_model(all));
            assert(self.remote.keys() == round.keys());
            assert(remote_model(self.remote) == remote_model(round).insert(topic, topic_views_model(rest)));
            if emptied {
                let dropped = self.remote.remove_at(i);
            } else {
                i += 1;
            }
        }
        assert(self@.remote =~= goal);
        assert(self@.local =~= before@.local);
    }

    /// Removes all tracked state for an unsubscribed topic.
    pub fn remove_topic(&mut self, topic_id: &[u8])
        requires
            old(self).wf(),
        ensures
            final(self).wf(),
            final(self)@ == old(self)@.forget_topic(topic_id@),
    {
        let ghost before = *self;
        let cache = self.local.remove(topic_id);
        let views = self.remote.remove(topic_id);
        assert(self@.local =~= before@.local.remove(topic_id@));
        assert(self@.remote =~= before@.remote.remove(topic_id@));
    }
}

/// Errors that can occur during object piece processing.
#[derive(Debug, Clone, PartialEq, Eq)]
pub enum Error {
    /// The received data is too short to contain the required headers or metadata.
    InsufficientData {
        /// The minimum number of bytes expected.
        expected: usize,
        /// The number of bytes received.
        received: usize,
    },
    /// The data format is invalid or corrupted.
    InvalidFormat,
    /// The piece data does not belong to this object.
    WrongObject {
        /// The object id for this received piece.
        object_id: Vec<u8>,
    },
    /// The piece data is a duplicate of already received data.
    DuplicatePiece(Vec<u8>),
    /// The piece data is out of the expected range or sequence.
    OutOfRange,
    /// The object is already complete and cannot accept more data.
    AlreadyComplete,
    /// Application-specific validation failed.
    ValidationFailed,
}

} // verus!
