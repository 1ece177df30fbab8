//! The streams of one connection.

use waggle::config::{Config, TopicSet};
use waggle::counter::SharedCounter;
use waggle::handler::{
    ConnectionEvent, Event, Handler, HandlerCommand, HandlerIn, Opened, PollEvent, PollStep, Received,
};
use waggle::protocol::{Error, ObjectPieces, TopicSubscription};
use waggle::substream::{CloseSignal, InboundEvent, InboundStep, OutboundEvent, OutboundStep};

fn subscription(topic: &[u8]) -> TopicSubscription {
    TopicSubscription { topic_id: topic.to_vec() }
}

fn handler(config: Config) -> Handler {
    Handler::new(SharedCounter::new(), config)
}

fn inbound(topic: &[u8]) -> ConnectionEvent {
    ConnectionEvent::FullyNegotiatedInbound(subscription(topic))
}

#[test]
fn a_subscription_is_announced_with_a_working_sender() {
    let mut handler = handler(Config::default());
    let mut writer = match handler.on_connection_event(inbound(b"t")) {
        Some(Opened::Writer(writer)) => writer,
        _ => panic!("no writer"),
    };
    match handler.poll(PollEvent::Woken) {
        PollStep::Deliver(HandlerCommand::NotifyBehaviour(Event::Subscribed {
            topic_id,
            sender,
        })) => {
            assert_eq!(topic_id, b"t".to_vec());
            let message =
                ObjectPieces { object_id: vec![5], pieces_metadata: None, pieces: None };
            sender.try_send(message).unwrap();
        }
        other => panic!("{:?}", other),
    }
    let message = writer.channel_mut().try_recv().unwrap();
    assert_eq!(message.object_id, vec![5]);
    assert!(matches!(writer.poll(InboundEvent::Message(message)), InboundStep::PollReady));
}

#[test]
fn a_second_subscription_to_a_topic_is_refused() {
    let mut handler = handler(Config::default());
    assert!(handler.on_connection_event(inbound(b"t")).is_some());
    assert!(handler.on_connection_event(inbound(b"t")).is_none());
    assert!(handler.on_connection_event(inbound(b"u")).is_some());
    let closed = Event::Unsubscribed { topic_id: b"t".to_vec() };
    assert!(matches!(handler.poll(PollEvent::Inbound(Some(Some(closed)))), PollStep::PollInbound));
    assert!(handler.on_connection_event(inbound(b"t")).is_some());
}

#[test]
fn topics_outside_the_whitelist_are_refused() {
    let mut topics = TopicSet::new();
    topics.insert(b"good".to_vec());
    let mut handler = handler(Config::default().set_topic_whitelist(Some(topics)));
    assert!(handler.on_connection_event(inbound(b"bad")).is_none());
    assert!(matches!(handler.poll(PollEvent::Woken), PollStep::PollOutbound));
    assert!(handler.on_connection_event(inbound(b"good")).is_some());
}

#[test]
fn a_refused_stream_makes_room_for_another() {
    let mut topics = TopicSet::new();
    topics.insert(b"good".to_vec());
    let config =
        Config::default().set_max_topic_subscription(1).set_topic_whitelist(Some(topics));
    let mut handler = handler(config);
    let mut protocol = handler.listen_protocol();
    let (opened, _) = protocol.upgrade_inbound::<()>(Some(Ok(subscription(b"bad")))).unwrap();
    assert!(matches!(
        protocol.upgrade_inbound::<()>(Some(Ok(subscription(b"good")))),
        Err(Error::MaxStreamsReached)
    ));
    assert!(handler
        .on_connection_event(ConnectionEvent::FullyNegotiatedInbound(opened))
        .is_none());
    assert!(protocol.upgrade_inbound::<()>(Some(Ok(subscription(b"good")))).is_ok());
}

#[test]
fn an_instruction_opens_a_stream() {
    let signal = CloseSignal::new();
    let mut handler = handler(Config::default().set_max_protobuf_size(99));
    handler.on_behaviour_event(HandlerIn::Subscribe {
        topic_id: b"t".to_vec(),
        close_signal: signal.receiver(),
    });
    let (protocol, close_signal) = match handler.poll(PollEvent::Woken) {
        PollStep::Deliver(HandlerCommand::OpenStream { protocol, close_signal }) => {
            (protocol, close_signal)
        }
        other => panic!("{:?}", other),
    };
    assert_eq!(protocol.max_protobuf_size, 99);
    assert_eq!(protocol.topic_id, b"t".to_vec());
    let event =
        ConnectionEvent::FullyNegotiatedOutbound { topic_id: protocol.topic_id, close_signal };
    let mut reader = match handler.on_connection_event(event) {
        Some(Opened::Reader(reader)) => reader,
        _ => panic!("no reader"),
    };
    assert!(matches!(reader.poll_next(OutboundEvent::Woken), OutboundStep::PollCloseSignal));
    drop(signal);
    assert!(reader.signal_mut().is_closed());
}

#[test]
fn commands_are_handed_out_in_order_and_before_anything_else() {
    let mut handler = handler(Config::default());
    handler.on_connection_event(inbound(b"a"));
    handler.on_connection_event(inbound(b"b"));
    for topic in [b"a", b"b"] {
        match handler.poll(PollEvent::Woken) {
            PollStep::Deliver(HandlerCommand::NotifyBehaviour(Event::Subscribed {
                topic_id,
                ..
            })) => assert_eq!(topic_id, topic.to_vec()),
            other => panic!("{:?}", other),
        }
    }
    assert!(matches!(handler.poll(PollEvent::Woken), PollStep::PollOutbound));
    assert!(matches!(handler.poll(PollEvent::Outbound(None)), PollStep::PollInbound));
    assert!(matches!(handler.poll(PollEvent::Inbound(Some(None))), PollStep::PollInbound));
    assert!(matches!(handler.poll(PollEvent::Inbound(None)), PollStep::Wait));
}

#[test]
fn received_pieces_are_passed_on() {
    let mut handler = handler(Config::default());
    let received = Received {
        topic_id: b"t".to_vec(),
        object_id: vec![1],
        metadata: None,
        pieces: Some(vec![2]),
    };
    match handler.poll(PollEvent::Outbound(Some(Event::Received(received)))) {
        PollStep::Deliver(HandlerCommand::NotifyBehaviour(Event::Received(received))) => {
            assert_eq!(received.pieces, Some(vec![2]));
        }
        other => panic!("{:?}", other),
    }
}

#[test]
fn a_closed_stream_is_reported_to_the_behaviour() {
    let mut handler = handler(Config::default());
    handler.on_connection_event(inbound(b"t"));
    handler.poll(PollEvent::Woken);
    let closed = Event::Unsubscribed { topic_id: b"t".to_vec() };
    handler.poll(PollEvent::Inbound(Some(Some(closed))));
    assert!(matches!(
        handler.poll(PollEvent::Woken),
        PollStep::Deliver(HandlerCommand::NotifyBehaviour(Event::Unsubscribed { .. }))
    ));
}

#[test]
fn other_connection_events_change_nothing() {
    let mut handler = handler(Config::default());
    assert!(handler.on_connection_event(ConnectionEvent::DialUpgradeError).is_none());
    assert!(handler.on_connection_event(ConnectionEvent::Other).is_none());
    assert!(matches!(handler.poll(PollEvent::Woken), PollStep::PollOutbound));
}

#[test]
fn a_closed_stream_makes_room_for_one_other() {
    let mut handler = handler(Config::default().set_max_topic_subscription(2));
    let mut protocol = handler.listen_protocol();
    for topic in [b"a", b"b"] {
        let (opened, _) = protocol.upgrade_inbound::<()>(Some(Ok(subscription(topic)))).unwrap();
        let event = ConnectionEvent::FullyNegotiatedInbound(opened);
        assert!(handler.on_connection_event(event).is_some());
    }
    assert!(protocol.upgrade_inbound::<()>(Some(Ok(subscription(b"c")))).is_err());
    // A writer that the local side stopped gives nothing back.
    handler.poll(PollEvent::Inbound(Some(None)));
    assert!(protocol.upgrade_inbound::<()>(Some(Ok(subscription(b"c")))).is_err());
    let closed = Event::Unsubscribed { topic_id: b"a".to_vec() };
    handler.poll(PollEvent::Inbound(Some(Some(closed))));
    assert!(protocol.upgrade_inbound::<()>(Some(Ok(subscription(b"c")))).is_ok());
    assert!(protocol.upgrade_inbound::<()>(Some(Ok(subscription(b"d")))).is_err());
}

#[test]
fn refusing_an_unknown_topic_changes_nothing() {
    let mut handler = handler(Config::default().set_max_topic_subscription(1));
    let mut protocol = handler.listen_protocol();
    let (opened, _) = protocol.upgrade_inbound::<()>(Some(Ok(subscription(b"a")))).unwrap();
    assert!(handler
        .on_connection_event(ConnectionEvent::FullyNegotiatedInbound(opened))
        .is_some());
    handler.on_behaviour_event(HandlerIn::Refuse { topic_id: b"b".to_vec() });
    assert!(protocol.upgrade_inbound::<()>(Some(Ok(subscription(b"b")))).is_err());
    handler.on_behaviour_event(HandlerIn::Refuse { topic_id: b"a".to_vec() });
    assert!(protocol.upgrade_inbound::<()>(Some(Ok(subscription(b"b")))).is_ok());
    assert!(handler.on_connection_event(inbound(b"a")).is_some());
}
