//! The behaviour of one node, with its connections.

use async_channel::Receiver;
use libp2p::swarm::ConnectionId;
use libp2p::PeerId;
use waggle::behaviour::{Behaviour, Command, Error, Event, SwarmEvent};
use waggle::config::{Config, NonZeroUsize, TopicConfig};
use waggle::handler;
use waggle::handler::{HandlerIn, Opened, PollEvent, PollStep, Received};
use waggle::protocol::{ObjectPieces, TopicSubscription};
use waggle::shard;
use waggle::shard::{Action, Metadata, MetadataBox, Shard, ShardBox};
use waggle::substream::{Inbound, InboundEvent, InboundStep};

/// Metadata that lists the pieces that somebody holds.
struct Pieces {
    held: Vec<u8>,
}

impl Metadata for Pieces {
    fn as_slice(&self) -> &[u8] {
        &self.held
    }

    fn update(&mut self, data: &[u8]) -> Result<bool, shard::Error> {
        if data.contains(&0xff) {
            return Err(shard::Error::InvalidFormat);
        }
        let before = self.held.len();
        for piece in data {
            if !self.held.contains(piece) {
                self.held.push(*piece);
            }
        }
        self.held.sort();
        Ok(self.held.len() != before)
    }
}

fn pieces(held: &[u8]) -> MetadataBox {
    MetadataBox { metadata: Box::new(Pieces { held: held.to_vec() }) }
}

/// An object of which some pieces are held.
struct Object {
    id: Vec<u8>,
    held: Vec<u8>,
}

impl Shard for Object {
    fn object_id(&self) -> Vec<u8> {
        self.id.clone()
    }

    fn metadata(&self) -> MetadataBox {
        pieces(&self.held)
    }

    fn action_from_metadata(
        &self,
        _peer_id: PeerId,
        _connection: ConnectionId,
        metadata: Option<&[u8]>,
    ) -> Result<Action, shard::Error> {
        let theirs = metadata.unwrap_or(&[]);
        if theirs.contains(&0xee) {
            return Err(shard::Error::ValidationFailed);
        }
        let need = theirs.iter().any(|p| !self.held.contains(p));
        let missing: Vec<u8> =
            self.held.iter().copied().filter(|p| !theirs.contains(p)).collect();
        if metadata.is_none() || missing.is_empty() {
            return Ok(Action { need, send: None });
        }
        let mut union = theirs.to_vec();
        union.extend(&missing);
        union.sort();
        Ok(Action { need, send: Some((missing, pieces(&union))) })
    }
}

fn object(id: &[u8], held: &[u8]) -> ShardBox {
    ShardBox { shard: Box::new(Object { id: id.to_vec(), held: held.to_vec() }) }
}

fn connection(n: usize) -> ConnectionId {
    ConnectionId::new_unchecked(n)
}

fn peer(n: u8) -> PeerId {
    PeerId::from_bytes(&[0, 1, n]).unwrap()
}

fn number(value: usize) -> NonZeroUsize {
    NonZeroUsize::new(value).unwrap()
}

/// Connects a peer that subscribes to a topic, and returns what it is sent.
fn subscriber(behaviour: &mut Behaviour, n: u8, topic: &[u8]) -> Receiver<ObjectPieces> {
    let id = connection(n as usize);
    behaviour.handle_established_inbound_connection(id, peer(n));
    let (sender, receiver) = async_channel::unbounded();
    let event = handler::Event::Subscribed { topic_id: topic.to_vec(), sender };
    behaviour.on_connection_handler_event(peer(n), id, event);
    receiver
}

fn drain(behaviour: &mut Behaviour) -> Vec<Command> {
    let mut commands = vec![];
    while let Some(command) = behaviour.poll() {
        commands.push(command);
    }
    commands
}

fn events(behaviour: &mut Behaviour) -> Vec<Event> {
    let mut found = vec![];
    for command in drain(behaviour) {
        if let Command::GenerateEvent(event) = command {
            found.push(event);
        }
    }
    found
}

fn received(id: &[u8], metadata: Option<&[u8]>, pieces: Option<&[u8]>) -> Received {
    Received {
        topic_id: b"t".to_vec(),
        object_id: id.to_vec(),
        metadata: metadata.map(|m| m.to_vec()),
        pieces: pieces.map(|p| p.to_vec()),
    }
}

#[test]
fn subscribing_tells_every_connection() {
    let mut node = Behaviour::new(Config::default());
    node.handle_established_inbound_connection(connection(1), peer(1));
    node.handle_established_outbound_connection(connection(2), peer(2));
    assert!(node.poll().is_none());
    assert!(node.subscribe(b"t".to_vec()));
    assert!(!node.subscribe(b"t".to_vec()));
    let commands = drain(&mut node);
    assert_eq!(commands.len(), 2);
    for (n, command) in commands.iter().enumerate() {
        match command {
            Command::NotifyHandler {
                peer_id,
                connection_id,
                event: HandlerIn::Subscribe { topic_id, close_signal },
            } => {
                assert_eq!(*peer_id, peer(n as u8 + 1));
                assert_eq!(*connection_id, connection(n + 1));
                assert_eq!(*topic_id, b"t".to_vec());
                assert!(!close_signal.is_closed());
            }
            other => panic!("{:?}", other),
        }
    }
}

#[test]
fn a_new_connection_is_told_of_every_topic() {
    let mut node = Behaviour::new(Config::default());
    assert!(node.subscribe(b"a".to_vec()));
    assert!(node.subscribe(b"b".to_vec()));
    node.handle_established_outbound_connection(connection(5), peer(5));
    let mut topics = vec![];
    for command in drain(&mut node) {
        match command {
            Command::NotifyHandler {
                connection_id,
                event: HandlerIn::Subscribe { topic_id, .. },
                ..
            } => {
                assert_eq!(connection_id, connection(5));
                topics.push(topic_id);
            }
            other => panic!("{:?}", other),
        }
    }
    topics.sort();
    assert_eq!(topics, vec![b"a".to_vec(), b"b".to_vec()]);
}

#[test]
fn unsubscribing_closes_the_streams() {
    let mut node = Behaviour::new(Config::default());
    node.handle_established_inbound_connection(connection(1), peer(1));
    assert!(!node.unsubscribe(b"t".to_vec()));
    node.subscribe(b"t".to_vec());
    let signal = match node.poll() {
        Some(Command::NotifyHandler {
            event: HandlerIn::Subscribe { close_signal, .. },
            ..
        }) => close_signal,
        other => panic!("{:?}", other),
    };
    assert!(!signal.is_closed());
    assert!(node.unsubscribe(b"t".to_vec()));
    assert!(signal.is_closed());
    assert!(!node.unsubscribe(b"t".to_vec()));
    assert!(node.subscribe(b"t".to_vec()));
}

#[test]
fn publishing_needs_a_subscriber() {
    let mut node = Behaviour::new(Config::default());
    node.handle_established_inbound_connection(connection(1), peer(1));
    assert!(matches!(
        node.publish(b"t".to_vec(), object(b"a", &[1])),
        Err(Error::NoPeersSubscribedToTopic)
    ));
    // Nothing was cached: the same piece is news once there is a subscriber.
    let queue = subscriber(&mut node, 2, b"t");
    assert!(node.publish(b"t".to_vec(), object(b"a", &[1])).is_ok());
    assert_eq!(queue.len(), 1);
}

#[test]
fn a_published_piece_reaches_its_subscribers() {
    let mut node = Behaviour::new(Config::default());
    let first = subscriber(&mut node, 1, b"t");
    let second = subscriber(&mut node, 2, b"t");
    let other = subscriber(&mut node, 3, b"u");
    assert!(node.publish(b"t".to_vec(), object(b"a", &[1, 2])).is_ok());
    for queue in [&first, &second] {
        let message = queue.try_recv().unwrap();
        assert_eq!(message.object_id, b"a".to_vec());
        assert_eq!(message.pieces_metadata, Some(vec![1, 2]));
        assert_eq!(message.pieces, None);
    }
    assert_eq!(other.len(), 0);
    // The same again is no news.
    assert!(node.publish(b"t".to_vec(), object(b"a", &[1, 2])).is_ok());
    assert_eq!(first.len() + second.len(), 0);
}

#[test]
fn publishing_goes_to_no_more_than_the_fanout() {
    let config = Config::default()
        .set_topic_config(b"t".to_vec(), TopicConfig::new(number(2), number(1)));
    let mut node = Behaviour::new(config);
    let queues: Vec<Receiver<ObjectPieces>> =
        (1..=5).map(|n| subscriber(&mut node, n, b"t")).collect();
    assert!(node.publish(b"t".to_vec(), object(b"a", &[1])).is_ok());
    let sent: usize = queues.iter().map(|q| q.len()).sum();
    assert_eq!(sent, 2);
}

#[test]
fn full_queues_are_reported_by_publishing() {
    let mut node = Behaviour::new(Config::default().set_max_connection_queue_limit(1));
    let queue = subscriber(&mut node, 1, b"t");
    assert!(node.publish(b"t".to_vec(), object(b"a", &[1])).is_ok());
    match node.publish(b"t".to_vec(), object(b"b", &[1])) {
        Err(Error::MessageNotSent { full, no_data }) => {
            assert_eq!(full, vec![connection(1)]);
            assert!(no_data.is_empty());
        }
        other => panic!("{:?}", other),
    }
    assert_eq!(queue.len(), 1);
    assert!(matches!(events(&mut node).as_slice(), [Event::Subscribed { .. }, Event::FullQueue(_)]));
}

#[test]
fn a_full_queue_is_reported_when_another_peer_gets_the_piece() {
    let mut node = Behaviour::new(Config::default().set_max_connection_queue_limit(1));
    let first = subscriber(&mut node, 1, b"t");
    assert!(node.publish(b"t".to_vec(), object(b"a", &[1])).is_ok());
    let second = subscriber(&mut node, 2, b"t");
    drain(&mut node);
    assert!(node.publish(b"t".to_vec(), object(b"b", &[1])).is_ok());
    assert_eq!(first.len(), 1);
    assert_eq!(second.len(), 1);
    match events(&mut node).as_slice() {
        [Event::FullQueue(slow)] => assert_eq!(*slow, peer(1)),
        other => panic!("{:?}", other),
    }
}

#[test]
fn a_full_queue_is_reported_by_gossip() {
    let mut node = Behaviour::new(Config::default().set_max_connection_queue_limit(1));
    node.subscribe(b"t".to_vec());
    let first = subscriber(&mut node, 1, b"t");
    let second = subscriber(&mut node, 2, b"t");
    assert!(node.publish(b"t".to_vec(), object(b"a", &[1])).is_ok());
    first.try_recv().unwrap();
    node.publish_in_order(b"t", object(b"b", &[1]), &vec![]).unwrap_err();
    drain(&mut node);
    node.handle_received(peer(1), connection(1), received(b"b", Some(&[1]), None));
    assert!(matches!(events(&mut node).as_slice(), [Event::FullQueue(slow)] if *slow == peer(2)));
    assert_eq!(second.len(), 1);
}

#[test]
fn gossip_without_news_is_not_sent() {
    let config = Config::default()
        .set_topic_config(b"t".to_vec(), TopicConfig::new(number(2), number(1)));
    let mut node = Behaviour::new(config);
    node.subscribe(b"t".to_vec());
    let first = subscriber(&mut node, 1, b"t");
    let second = subscriber(&mut node, 2, b"t");
    assert!(node.publish(b"t".to_vec(), object(b"a", &[1, 2])).is_ok());
    first.try_recv().unwrap();
    second.try_recv().unwrap();
    // The second peer misses a piece that it was told of.
    assert!(node.publish(b"t".to_vec(), object(b"a", &[1])).is_ok());
    node.handle_received(peer(2), connection(2), received(b"a", Some(&[1]), None));
    node.publish_in_order(b"t", object(b"a", &[1, 2]), &vec![]).unwrap_err();
    let third = subscriber(&mut node, 3, b"t");
    node.handle_received(peer(1), connection(1), received(b"a", Some(&[1, 2]), None));
    assert_eq!(first.len(), 0);
    assert_eq!(second.len(), 0);
    let gossip = third.try_recv().unwrap();
    assert_eq!(gossip.pieces_metadata, Some(vec![1, 2]));
    assert_eq!(gossip.pieces, None);
}

#[test]
fn the_topics_of_a_peer_are_limited_over_its_connections() {
    let mut node = Behaviour::new(Config::default().set_max_topic_subscription(1));
    for n in 1..=2 {
        node.handle_established_inbound_connection(connection(n), peer(7));
    }
    node.handle_established_inbound_connection(connection(3), peer(8));
    let mut join = |n: usize, p: u8, topic: &[u8]| {
        let (sender, receiver) = async_channel::unbounded::<ObjectPieces>();
        let event = handler::Event::Subscribed { topic_id: topic.to_vec(), sender };
        node.on_connection_handler_event(peer(p), connection(n), event);
        let reported = events(&mut node).len() == 1;
        assert_eq!(reported, !receiver.is_closed());
        // Keeps the channel of a subscription open.
        std::mem::forget(receiver);
        reported
    };
    assert!(join(1, 7, b"a"));
    // One topic more is past the limit, on either connection.
    assert!(!join(2, 7, b"b"));
    assert!(!join(1, 7, b"b"));
    // The same topic on another connection is no further topic.
    assert!(join(2, 7, b"a"));
    // Another peer has a limit of its own.
    assert!(join(3, 8, b"b"));
}

/// Opens a stream of the peer for a topic. Returns its writer.
fn open(handler: &mut handler::Handler, topic: &[u8]) -> Option<Inbound> {
    let subscription = TopicSubscription { topic_id: topic.to_vec() };
    let mut protocol = handler.listen_protocol();
    let (subscription, _) = protocol.upgrade_inbound::<()>(Some(Ok(subscription))).ok()?;
    let event = handler::ConnectionEvent::FullyNegotiatedInbound(subscription);
    match handler.on_connection_event(event) {
        Some(Opened::Writer(writer)) => Some(writer),
        _ => None,
    }
}

/// Hands what the handler of a connection reports next to the behaviour.
fn report(node: &mut Behaviour, handler: &mut handler::Handler, p: u8, n: usize) {
    match handler.poll(PollEvent::Woken) {
        PollStep::Deliver(handler::HandlerCommand::NotifyBehaviour(event)) => {
            node.on_connection_handler_event(peer(p), connection(n), event);
        }
        other => panic!("{:?}", other),
    }
}

#[test]
fn a_refused_peer_may_subscribe_later() {
    let mut node = Behaviour::new(Config::default().set_max_topic_subscription(1));
    let mut first = node.handle_established_inbound_connection(connection(1), peer(7));
    let mut second = node.handle_established_inbound_connection(connection(2), peer(7));
    let _a = open(&mut first, b"a").unwrap();
    report(&mut node, &mut first, 7, 1);
    assert!(matches!(events(&mut node).as_slice(), [Event::Subscribed { .. }]));

    // One topic more is refused. Its stream closes and gives its place back.
    let mut b = open(&mut second, b"b").unwrap();
    report(&mut node, &mut second, 7, 2);
    match drain(&mut node).pop() {
        Some(Command::NotifyHandler { peer_id, connection_id, event }) => {
            assert_eq!(peer_id, peer(7));
            assert_eq!(connection_id, connection(2));
            assert!(matches!(&event, HandlerIn::Refuse { topic_id } if topic_id == b"b"));
            second.on_behaviour_event(event);
        }
        other => panic!("{:?}", other),
    }
    assert!(b.channel_mut().is_closed());
    assert!(matches!(b.poll(InboundEvent::ChannelClosed), InboundStep::End(None)));
    second.poll(PollEvent::Inbound(Some(None)));

    // Once the peer has left the first topic, it may have the other.
    let left = handler::Event::Unsubscribed { topic_id: b"a".to_vec() };
    first.poll(PollEvent::Inbound(Some(Some(left))));
    report(&mut node, &mut first, 7, 1);
    drain(&mut node);
    let mut b = open(&mut second, b"b").unwrap();
    report(&mut node, &mut second, 7, 2);
    match events(&mut node).as_slice() {
        [Event::Subscribed { peer_id, topic_id }] => {
            assert_eq!(*peer_id, peer(7));
            assert_eq!(*topic_id, b"b".to_vec());
        }
        other => panic!("{:?}", other),
    }
    assert!(node.publish(b"b".to_vec(), object(b"x", &[1])).is_ok());
    assert_eq!(b.channel_mut().try_recv().unwrap().object_id, b"x".to_vec());
}

#[test]
fn peers_that_need_nothing_are_reported_by_publishing() {
    let mut node = Behaviour::new(Config::default());
    node.subscribe(b"t".to_vec());
    let first = subscriber(&mut node, 1, b"t");
    assert!(node.publish(b"t".to_vec(), object(b"a", &[1, 2])).is_ok());
    assert_eq!(first.try_recv().unwrap().pieces_metadata, Some(vec![1, 2]));
    // The peer has all, and nothing is added to what it was told.
    node.handle_received(peer(1), connection(1), received(b"a", Some(&[1, 2]), None));
    assert!(node.publish(b"t".to_vec(), object(b"a", &[1])).is_ok());
    assert_eq!(first.len(), 0);
    match node.publish(b"t".to_vec(), object(b"a", &[1, 2])) {
        Err(Error::MessageNotSent { full, no_data }) => {
            assert!(full.is_empty());
            assert_eq!(no_data, vec![connection(1)]);
        }
        other => panic!("{:?}", other),
    }
}

#[test]
fn the_order_of_publishing_can_be_given() {
    let config = Config::default()
        .set_default_topic_config(TopicConfig::new(number(1), number(1)));
    let mut node = Behaviour::new(config);
    let queues: Vec<Receiver<ObjectPieces>> =
        (1..=3).map(|n| subscriber(&mut node, n, b"t")).collect();
    let order = vec![connection(2), connection(3), connection(1)];
    assert!(node.publish_in_order(b"t", object(b"a", &[1]), &order).is_ok());
    assert_eq!(queues[0].len(), 0);
    assert_eq!(queues[1].len(), 1);
    assert_eq!(queues[2].len(), 0);
    let tally = node.disseminate(b"t", b"a", true, &order, 9);
    assert_eq!(tally.sent, 2);
    assert_eq!(tally.no_data, vec![connection(2)]);
    assert!(tally.full.is_empty());
}

#[test]
fn pieces_for_an_unsubscribed_topic_are_ignored() {
    let mut node = Behaviour::new(Config::default());
    let queue = subscriber(&mut node, 1, b"t");
    drain(&mut node);
    node.handle_received(peer(1), connection(1), received(b"a", Some(&[1]), Some(&[1])));
    assert!(node.poll().is_none());
    assert_eq!(queue.len(), 0);
}

#[test]
fn a_received_piece_is_handed_to_the_application() {
    let mut node = Behaviour::new(Config::default());
    node.subscribe(b"t".to_vec());
    let queue = subscriber(&mut node, 1, b"t");
    drain(&mut node);
    let event = handler::Event::Received(received(b"a", Some(&[1]), Some(&[9])));
    node.on_connection_handler_event(peer(1), connection(1), event);
    match events(&mut node).as_slice() {
        [Event::Received { topic_id, peer_id, received }] => {
            assert_eq!(*topic_id, b"t".to_vec());
            assert_eq!(*peer_id, peer(1));
            assert_eq!(received.object_id, b"a".to_vec());
            assert_eq!(received.metadata, Some(vec![1]));
            assert_eq!(received.pieces, Some(vec![9]));
        }
        other => panic!("{:?}", other),
    }
    assert_eq!(queue.len(), 0);
}

#[test]
fn a_peer_is_sent_what_it_misses() {
    let mut node = Behaviour::new(Config::default());
    node.subscribe(b"t".to_vec());
    let queue = subscriber(&mut node, 1, b"t");
    assert!(node.publish(b"t".to_vec(), object(b"a", &[1, 2])).is_ok());
    queue.try_recv().unwrap();
    drain(&mut node);
    node.handle_received(peer(1), connection(1), received(b"a", Some(&[2]), None));
    let reply = queue.try_recv().unwrap();
    assert_eq!(reply.object_id, b"a".to_vec());
    assert_eq!(reply.pieces_metadata, Some(vec![1, 2]));
    assert_eq!(reply.pieces, Some(vec![1]));
    assert!(node.poll().is_none());
}

#[test]
fn a_full_queue_is_reported_when_a_peer_is_answered() {
    let mut node = Behaviour::new(Config::default().set_max_connection_queue_limit(1));
    node.subscribe(b"t".to_vec());
    let queue = subscriber(&mut node, 1, b"t");
    assert!(node.publish(b"t".to_vec(), object(b"a", &[1, 2])).is_ok());
    drain(&mut node);
    node.handle_received(peer(1), connection(1), received(b"a", Some(&[2]), None));
    match events(&mut node).as_slice() {
        [Event::FullQueue(slow)] => assert_eq!(*slow, peer(1)),
        other => panic!("{:?}", other),
    }
    assert_eq!(queue.len(), 1);
}

#[test]
fn metadata_is_gossiped_to_others_without_pieces() {
    let config = Config::default()
        .set_topic_config(b"t".to_vec(), TopicConfig::new(number(1), number(1)));
    let mut node = Behaviour::new(config);
    node.subscribe(b"t".to_vec());
    let queues: Vec<Receiver<ObjectPieces>> =
        (1..=4).map(|n| subscriber(&mut node, n, b"t")).collect();
    assert!(node.publish_in_order(b"t", object(b"a", &[1, 2]), &vec![connection(1)]).is_ok());
    queues[0].try_recv().unwrap();
    node.handle_received(peer(1), connection(1), received(b"a", Some(&[2]), None));
    // One reply, and one message of gossip to somebody else.
    assert_eq!(queues[0].try_recv().unwrap().pieces, Some(vec![1]));
    assert_eq!(queues[0].len(), 0);
    let mut gossip: Vec<ObjectPieces> =
        queues[1..].iter().filter_map(|q| q.try_recv().ok()).collect();
    assert_eq!(gossip.len(), 1);
    let message = gossip.pop().unwrap();
    assert_eq!(message.object_id, b"a".to_vec());
    assert_eq!(message.pieces_metadata, Some(vec![1, 2]));
    assert_eq!(message.pieces, None);
}

#[test]
fn data_that_does_not_reconcile_is_reported() {
    let mut node = Behaviour::new(Config::default());
    node.subscribe(b"t".to_vec());
    let queue = subscriber(&mut node, 1, b"t");
    assert!(node.publish(b"t".to_vec(), object(b"a", &[1])).is_ok());
    queue.try_recv().unwrap();
    drain(&mut node);
    node.handle_received(peer(1), connection(1), received(b"a", Some(&[0xee]), None));
    match events(&mut node).as_slice() {
        [Event::InvalidData { peer_id, topic_id, object_id, reason }] => {
            assert_eq!(*peer_id, peer(1));
            assert_eq!(*topic_id, b"t".to_vec());
            assert_eq!(*object_id, b"a".to_vec());
            assert_eq!(*reason, shard::Error::ValidationFailed);
        }
        other => panic!("{:?}", other),
    }
    // Publishing meets the same metadata, and sends nothing.
    match node.publish(b"t".to_vec(), object(b"a", &[1, 2])) {
        Err(Error::MessageNotSent { full, no_data }) => {
            assert!(full.is_empty());
            assert!(no_data.is_empty());
        }
        other => panic!("{:?}", other),
    }
    assert!(matches!(events(&mut node).as_slice(), [Event::InvalidData { .. }]));
    assert_eq!(queue.len(), 0);
}

#[test]
fn repeated_metadata_is_ignored() {
    let mut node = Behaviour::new(Config::default());
    node.subscribe(b"t".to_vec());
    let _queue = subscriber(&mut node, 1, b"t");
    drain(&mut node);
    node.handle_received(peer(1), connection(1), received(b"a", Some(&[1]), None));
    assert_eq!(events(&mut node).len(), 1);
    node.handle_received(peer(1), connection(1), received(b"a", Some(&[1]), None));
    node.handle_received(peer(1), connection(1), received(b"a", None, None));
    assert!(node.poll().is_none());
}

#[test]
fn subscriptions_of_peers_are_reported() {
    let mut node = Behaviour::new(Config::default());
    let _queue = subscriber(&mut node, 1, b"t");
    let gone = handler::Event::Unsubscribed { topic_id: b"t".to_vec() };
    node.on_connection_handler_event(peer(1), connection(1), gone);
    match events(&mut node).as_slice() {
        [Event::Subscribed { peer_id: a, topic_id: s }, Event::Unsubscribed { peer_id: b, topic_id: t }] =>
        {
            assert_eq!((*a, *b), (peer(1), peer(1)));
            assert_eq!(*s, b"t".to_vec());
            assert_eq!(*t, b"t".to_vec());
        }
        other => panic!("{:?}", other),
    }
    assert!(matches!(
        node.publish(b"t".to_vec(), object(b"a", &[1])),
        Err(Error::NoPeersSubscribedToTopic)
    ));
}

#[test]
fn reports_from_unknown_connections_are_ignored() {
    let mut node = Behaviour::new(Config::default());
    let (sender, _queue) = async_channel::unbounded();
    let event = handler::Event::Subscribed { topic_id: b"t".to_vec(), sender };
    node.on_connection_handler_event(peer(1), connection(1), event);
    let event = handler::Event::Unsubscribed { topic_id: b"t".to_vec() };
    node.on_connection_handler_event(peer(1), connection(1), event);
    assert!(node.poll().is_none());
    assert!(matches!(
        node.publish(b"t".to_vec(), object(b"a", &[1])),
        Err(Error::NoPeersSubscribedToTopic)
    ));
}

#[test]
fn a_closed_connection_is_dropped() {
    let mut node = Behaviour::new(Config::default());
    let first = subscriber(&mut node, 1, b"t");
    let second = subscriber(&mut node, 2, b"t");
    node.on_swarm_event(SwarmEvent::Other);
    node.on_swarm_event(SwarmEvent::ConnectionClosed { connection_id: connection(1) });
    assert!(node.publish(b"t".to_vec(), object(b"a", &[1])).is_ok());
    assert_eq!(first.len(), 0);
    assert_eq!(second.len(), 1);
    node.on_swarm_event(SwarmEvent::ConnectionClosed { connection_id: connection(2) });
    assert!(matches!(
        node.publish(b"t".to_vec(), object(b"b", &[1])),
        Err(Error::NoPeersSubscribedToTopic)
    ));
}

#[test]
fn a_writer_frees_the_budget_of_its_connection() {
    let mut node = Behaviour::new(Config::default().set_max_connection_queue_limit(1));
    let mut handler = node.handle_established_inbound_connection(connection(1), peer(1));
    let subscription = TopicSubscription { topic_id: b"t".to_vec() };
    let opened = handler
        .on_connection_event(handler::ConnectionEvent::FullyNegotiatedInbound(subscription));
    let mut writer = match opened {
        Some(Opened::Writer(writer)) => writer,
        _ => panic!("no writer"),
    };
    match handler.poll(PollEvent::Woken) {
        PollStep::Deliver(handler::HandlerCommand::NotifyBehaviour(event)) => {
            node.on_connection_handler_event(peer(1), connection(1), event);
        }
        other => panic!("{:?}", other),
    }
    assert!(node.publish(b"t".to_vec(), object(b"a", &[1])).is_ok());
    assert!(node.publish(b"t".to_vec(), object(b"b", &[1])).is_err());
    let message = writer.channel_mut().try_recv().unwrap();
    assert!(matches!(writer.poll(InboundEvent::Message(message)), InboundStep::PollReady));
    assert!(node.publish(b"t".to_vec(), object(b"c", &[1])).is_ok());
}
