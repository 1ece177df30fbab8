//! Reconciling objects with peers.

use libp2p::swarm::ConnectionId;
use libp2p::PeerId;
use waggle::config::NonZeroUsize;
use waggle::handler::Received;
use waggle::shard::{Action, Error, Metadata, MetadataBox, Shard, ShardBox, State};

/// Metadata that lists the pieces that somebody holds.
struct Pieces {
    held: Vec<u8>,
}

impl Metadata for Pieces {
    fn as_slice(&self) -> &[u8] {
        &self.held
    }

    fn update(&mut self, data: &[u8]) -> Result<bool, Error> {
        if data.contains(&0xff) {
            return Err(Error::InvalidFormat);
        }
        let mut changed = false;
        for piece in data {
            if !self.held.contains(piece) {
                self.held.push(*piece);
                changed = true;
            }
        }
        self.held.sort();
        Ok(changed)
    }
}

fn pieces(held: &[u8]) -> MetadataBox {
    MetadataBox { metadata: Box::new(Pieces { held: held.to_vec() }) }
}

/// An object of which some pieces are held.
struct Object {
    id: Vec<u8>,
    held: Vec<u8>,
}

impl Shard for Object {
    fn object_id(&self) -> Vec<u8> {
        self.id.clone()
    }

    fn metadata(&self) -> MetadataBox {
        pieces(&self.held)
    }

    fn action_from_metadata(
        &self,
        _peer_id: PeerId,
        _connection: ConnectionId,
        metadata: Option<&[u8]>,
    ) -> Result<Action, Error> {
        let theirs = match metadata {
            Some(theirs) => theirs,
            None => return Ok(Action { need: false, send: None }),
        };
        if theirs.contains(&0xee) {
            return Err(Error::OutOfRange);
        }
        let need = theirs.iter().any(|p| !self.held.contains(p));
        let missing: Vec<u8> =
            self.held.iter().copied().filter(|p| !theirs.contains(p)).collect();
        if missing.is_empty() {
            return Ok(Action { need, send: None });
        }
        let mut union = theirs.to_vec();
        union.extend(&missing);
        union.sort();
        Ok(Action { need, send: Some((missing, pieces(&union))) })
    }
}

fn object(id: &[u8], held: &[u8]) -> ShardBox {
    ShardBox { shard: Box::new(Object { id: id.to_vec(), held: held.to_vec() }) }
}

fn connection(n: usize) -> ConnectionId {
    ConnectionId::new_unchecked(n)
}

fn state(capacity: usize) -> State {
    State::new(NonZeroUsize::new(capacity).unwrap())
}

fn peer() -> PeerId {
    PeerId::from_bytes(&[0, 1, 7]).unwrap()
}

fn received(id: &[u8], metadata: Option<&[u8]>, pieces: Option<&[u8]>) -> Received {
    Received {
        topic_id: b"t".to_vec(),
        object_id: id.to_vec(),
        metadata: metadata.map(|m| m.to_vec()),
        pieces: pieces.map(|p| p.to_vec()),
    }
}

#[test]
fn storing_reports_new_objects_and_new_pieces() {
    let mut s = state(2);
    assert!(s.store(b"t", object(b"a", &[1])));
    assert!(!s.store(b"t", object(b"a", &[1])));
    assert!(s.store(b"t", object(b"a", &[1, 2])));
    assert!(s.store(b"u", object(b"a", &[1])));
    // Metadata that cannot be taken in counts as unchanged.
    assert!(!s.store(b"t", object(b"a", &[0xff])));
}

#[test]
fn the_least_recently_used_object_is_dropped() {
    let mut s = state(2);
    s.store(b"t", object(b"a", &[1]));
    s.store(b"t", object(b"b", &[1]));
    // A use of the first object makes the second the oldest.
    assert!(s.reconcile(b"t", connection(1), peer(), b"a").unwrap().is_some());
    s.store(b"t", object(b"c", &[1]));
    assert!(s.reconcile(b"t", connection(2), peer(), b"b").unwrap().is_none());
    assert!(s.reconcile(b"t", connection(2), peer(), b"a").unwrap().is_some());
    assert!(s.reconcile(b"t", connection(2), peer(), b"c").unwrap().is_some());
}

#[test]
fn metadata_is_sent_once() {
    let mut s = state(2);
    assert!(s.reconcile(b"t", connection(1), peer(), b"a").unwrap().is_none());
    s.store(b"t", object(b"a", &[1]));
    let action = s.reconcile(b"t", connection(1), peer(), b"a").unwrap().unwrap();
    assert_eq!(action.metadata, Some(vec![1]));
    assert_eq!(action.body, None);
    assert!(s.reconcile(b"t", connection(1), peer(), b"a").unwrap().is_none());
    assert!(s.reconcile(b"t", connection(2), peer(), b"a").unwrap().is_some());
}

#[test]
fn missing_pieces_are_sent_with_the_metadata_that_lists_them() {
    let mut s = state(2);
    s.store(b"t", object(b"a", &[1, 2]));
    let r = s.received(connection(1), peer(), &received(b"a", Some(&[]), None)).unwrap().unwrap();
    assert_eq!(r.send, Some((vec![1, 2], vec![1, 2])));
    // The data is with the peer. What the local node holds is still news.
    let action = s.reconcile(b"t", connection(1), peer(), b"a").unwrap().unwrap();
    assert_eq!(action.body, None);
    assert_eq!(action.metadata, Some(vec![1, 2]));
    s.store(b"t", object(b"a", &[1, 2, 3]));
    let action = s.reconcile(b"t", connection(1), peer(), b"a").unwrap().unwrap();
    assert_eq!(action.body, Some(vec![3]));
    assert_eq!(action.metadata, Some(vec![1, 2, 3]));
    assert!(s.reconcile(b"t", connection(1), peer(), b"a").unwrap().is_none());
}

#[test]
fn data_without_news_is_sent_without_metadata() {
    let mut s = state(2);
    s.store(b"t", object(b"a", &[1, 2]));
    // The peer is told what there is before it says what it holds.
    assert!(s.reconcile(b"t", connection(1), peer(), b"a").unwrap().is_some());
    s.store(b"t", object(b"a", &[1]));
    s.received(connection(1), peer(), &received(b"a", Some(&[1]), None)).unwrap();
    s.store(b"t", object(b"a", &[1, 2]));
    let action = s.reconcile(b"t", connection(1), peer(), b"a").unwrap().unwrap();
    assert_eq!(action.body, Some(vec![2]));
    assert_eq!(action.metadata, None);
}

#[test]
fn errors_of_the_application_come_back() {
    let mut s = state(2);
    s.store(b"t", object(b"a", &[1]));
    // The shard refuses the metadata of the peer.
    let r = s.received(connection(1), peer(), &received(b"a", Some(&[0xee]), None));
    assert!(matches!(r, Err(Error::OutOfRange)));
    assert!(matches!(
        s.reconcile(b"t", connection(1), peer(), b"a"),
        Err(Error::OutOfRange)
    ));
    // The metadata that the local node made for the peer refuses an update.
    let r = s.received(connection(2), peer(), &received(b"a", Some(&[]), None)).unwrap().unwrap();
    assert_eq!(r.send, Some((vec![1], vec![1])));
    let r = s.received(connection(2), peer(), &received(b"a", Some(&[0xff]), None));
    assert!(matches!(r, Err(Error::InvalidFormat)));
    // What the peer has seen refuses what the local node now advertises.
    assert!(s.reconcile(b"t", connection(3), peer(), b"a").unwrap().is_some());
    s.store(b"t", object(b"a", &[0xff]));
    assert!(matches!(
        s.reconcile(b"t", connection(3), peer(), b"a"),
        Err(Error::InvalidFormat)
    ));
}

#[test]
fn a_piece_of_an_unknown_object_is_surfaced() {
    let mut s = state(2);
    let r = s.received(connection(1), peer(), &received(b"a", None, Some(&[9]))).unwrap().unwrap();
    assert!(r.emit);
    assert!(r.send.is_none());
    let r = s.received(connection(1), peer(), &received(b"a", Some(&[9]), None)).unwrap().unwrap();
    assert!(r.emit);
    // The same metadata again, and a message with nothing in it.
    assert!(s.received(connection(1), peer(), &received(b"a", Some(&[9]), None)).unwrap().is_none());
    assert!(s.received(connection(1), peer(), &received(b"a", None, None)).unwrap().is_none());
    // Other metadata is news.
    assert!(s.received(connection(1), peer(), &received(b"a", Some(&[8]), None)).unwrap().is_some());
}

#[test]
fn a_known_object_is_answered() {
    let mut s = state(2);
    s.store(b"t", object(b"a", &[1, 2]));
    let r = s.received(connection(1), peer(), &received(b"a", Some(&[2, 3]), None)).unwrap().unwrap();
    assert!(r.emit);
    assert_eq!(r.send, Some((vec![1], vec![1, 2])));
    // Now the local node knows that the peer has all it has.
    assert!(s.received(connection(1), peer(), &received(b"a", Some(&[1, 2]), None)).unwrap().is_none());
    // The peer holds a piece that was not known of before.
    let r = s.received(connection(1), peer(), &received(b"a", Some(&[4]), None)).unwrap().unwrap();
    assert!(r.emit);
    assert!(r.send.is_none());
}

#[test]
fn a_closed_connection_is_forgotten() {
    let mut s = state(2);
    s.store(b"t", object(b"a", &[1]));
    s.reconcile(b"t", connection(1), peer(), b"a").unwrap();
    s.reconcile(b"t", connection(2), peer(), b"a").unwrap();
    s.connection_closed(connection(1));
    assert!(s.reconcile(b"t", connection(2), peer(), b"a").unwrap().is_none());
    assert!(s.reconcile(b"t", connection(1), peer(), b"a").unwrap().is_some());
}

#[test]
fn an_unsubscribed_topic_is_forgotten() {
    let mut s = state(2);
    s.store(b"t", object(b"a", &[1]));
    s.store(b"u", object(b"a", &[1]));
    s.reconcile(b"t", connection(1), peer(), b"a").unwrap();
    s.remove_topic(b"t");
    assert!(s.reconcile(b"t", connection(1), peer(), b"a").unwrap().is_none());
    assert!(s.reconcile(b"u", connection(1), peer(), b"a").unwrap().is_some());
    assert!(s.store(b"t", object(b"a", &[1])));
    assert!(s.reconcile(b"t", connection(1), peer(), b"a").unwrap().is_some());
}

#[test]
fn tracking_data_does_nothing_by_default() {
    let mut metadata = Pieces { held: vec![1] };
    assert_eq!(metadata.update_from_data(&[2]), Ok(()));
    assert_eq!(metadata.as_slice(), &[1]);
}

#[test]
fn a_very_large_capacity_is_no_problem() {
    let mut s = state(usize::MAX);
    assert!(s.store(b"t", object(b"a", &[1])));
    assert!(s.reconcile(b"t", connection(1), peer(), b"a").unwrap().is_some());
}
