//! The steps of a stream, and the queues that feed the streams.

use waggle::counter::SharedCounter;
use waggle::handler::Event;
use waggle::protocol::ObjectPieces;
use waggle::substream::{
    dispatch_outcome, CloseSignal, DispatchHub, Inbound, InboundEvent, InboundStep, Outbound,
    OutboundEvent, OutboundStep, SendError, SendReply,
};

fn message(id: u8) -> ObjectPieces {
    ObjectPieces { object_id: vec![id], pieces_metadata: Some(vec![1]), pieces: None }
}

fn reader() -> Outbound {
    Outbound::new(b"t".to_vec(), CloseSignal::new().receiver())
}

#[test]
fn an_outbound_stream_yields_what_it_reads() {
    let mut stream = reader();
    assert!(matches!(stream.poll_next(OutboundEvent::Woken), OutboundStep::PollCloseSignal));
    assert!(matches!(
        stream.poll_next(OutboundEvent::CloseSignal { given: false }),
        OutboundStep::PollStream
    ));
    let piece =
        ObjectPieces { object_id: vec![7], pieces_metadata: Some(vec![8]), pieces: Some(vec![9]) };
    match stream.poll_next(OutboundEvent::Piece(piece)) {
        OutboundStep::Yield(Event::Received(received)) => {
            assert_eq!(received.topic_id, b"t".to_vec());
            assert_eq!(received.object_id, vec![7]);
            assert_eq!(received.metadata, Some(vec![8]));
            assert_eq!(received.pieces, Some(vec![9]));
        }
        other => panic!("{:?}", other),
    }
    assert!(matches!(stream.poll_next(OutboundEvent::StreamIdle), OutboundStep::Wait));
}

#[test]
fn an_outbound_stream_closes_and_stays_closed() {
    let reasons = vec![
        OutboundEvent::CloseSignal { given: true },
        OutboundEvent::DecodeFailed,
        OutboundEvent::PeerClosed,
    ];
    for reason in reasons {
        let mut stream = reader();
        assert!(matches!(stream.poll_next(reason), OutboundStep::CloseStream));
        assert!(matches!(stream.poll_next(OutboundEvent::Woken), OutboundStep::PollClose));
        assert!(matches!(stream.poll_next(OutboundEvent::ClosePending), OutboundStep::Wait));
        assert!(matches!(stream.poll_next(OutboundEvent::CloseDone), OutboundStep::End));
        assert!(matches!(stream.poll_next(OutboundEvent::Woken), OutboundStep::End));
        assert!(matches!(stream.poll_next(OutboundEvent::Piece(message(1))), OutboundStep::End));
    }
}

#[test]
fn dropping_a_close_signal_closes_its_receivers() {
    let signal = CloseSignal::new();
    let first = signal.receiver();
    let mut stream = Outbound::new(b"t".to_vec(), signal.receiver());
    assert!(!first.is_closed());
    assert!(!stream.signal_mut().is_closed());
    drop(signal);
    assert!(first.is_closed());
    assert!(stream.signal_mut().is_closed());
}

#[test]
fn a_writer_sends_one_message_at_a_time() {
    let (_sender, receiver) = async_channel::unbounded();
    let mut writer = Inbound::new(b"t".to_vec(), receiver, SharedCounter::new());
    assert!(matches!(writer.poll(InboundEvent::Woken), InboundStep::PollChannel));
    assert!(matches!(writer.poll(InboundEvent::ChannelEmpty), InboundStep::Wait));
    assert!(matches!(writer.poll(InboundEvent::Message(message(1))), InboundStep::PollReady));
    assert!(matches!(writer.poll(InboundEvent::SinkBusy), InboundStep::Wait));
    match writer.poll(InboundEvent::SinkReady) {
        InboundStep::StartSend(sent) => assert_eq!(sent.object_id, vec![1]),
        other => panic!("{:?}", other),
    }
    assert!(matches!(writer.poll(InboundEvent::Accepted), InboundStep::PollFlush));
    assert!(matches!(writer.poll(InboundEvent::FlushPending), InboundStep::Wait));
    assert!(matches!(writer.poll(InboundEvent::Woken), InboundStep::PollFlush));
    assert!(matches!(writer.poll(InboundEvent::Flushed), InboundStep::PollChannel));
    assert!(matches!(writer.poll(InboundEvent::ChannelClosed), InboundStep::End(None)));
    assert!(matches!(writer.poll(InboundEvent::Woken), InboundStep::End(None)));
}

fn ended_by_peer(step: InboundStep) -> bool {
    match step {
        InboundStep::End(Some(Event::Unsubscribed { topic_id })) => topic_id == b"t".to_vec(),
        _ => false,
    }
}

#[test]
fn a_broken_stream_unsubscribes_the_peer() {
    let (_sender, receiver) = async_channel::unbounded();
    let mut writer = Inbound::new(b"t".to_vec(), receiver.clone(), SharedCounter::new());
    writer.poll(InboundEvent::Message(message(1)));
    assert!(ended_by_peer(writer.poll(InboundEvent::SinkFailed)));

    let mut writer = Inbound::new(b"t".to_vec(), receiver.clone(), SharedCounter::new());
    writer.poll(InboundEvent::Message(message(1)));
    writer.poll(InboundEvent::SinkReady);
    assert!(ended_by_peer(writer.poll(InboundEvent::Rejected)));

    let mut writer = Inbound::new(b"t".to_vec(), receiver, SharedCounter::new());
    writer.poll(InboundEvent::Message(message(1)));
    writer.poll(InboundEvent::SinkReady);
    writer.poll(InboundEvent::Accepted);
    assert!(ended_by_peer(writer.poll(InboundEvent::FlushFailed)));
    assert!(matches!(writer.poll(InboundEvent::Woken), InboundStep::End(None)));
}

#[test]
fn a_hub_queues_up_to_its_limit() {
    let used = SharedCounter::new();
    let mut hub = DispatchHub::new(2, used.share());
    assert_eq!(hub.try_send(b"t", message(1)), Err(SendError::UnknownTopic));
    let (sender, receiver) = async_channel::unbounded();
    hub.subscribe(b"t".to_vec(), sender);
    assert!(hub.is_subscribed(b"t"));
    assert_eq!(hub.try_send(b"t", message(1)), Ok(()));
    assert_eq!(hub.try_send(b"t", message(2)), Ok(()));
    assert_eq!(hub.try_send(b"t", message(3)), Err(SendError::Full));
    assert_eq!(receiver.len(), 2);
    assert_eq!(receiver.try_recv().unwrap().object_id, vec![1]);
    assert_eq!(receiver.try_recv().unwrap().object_id, vec![2]);

    // The writer takes the messages off the counter, which makes room again.
    let mut writer = Inbound::new(b"t".to_vec(), receiver.clone(), used.share());
    writer.poll(InboundEvent::Message(message(1)));
    assert_eq!(hub.try_send(b"t", message(4)), Ok(()));
    assert_eq!(hub.try_send(b"t", message(5)), Err(SendError::Full));
    hub.unsubscribe(b"t");
    assert!(!hub.is_subscribed(b"t"));
    assert_eq!(hub.try_send(b"t", message(6)), Err(SendError::UnknownTopic));
}

#[test]
fn a_limit_of_zero_leaves_no_room() {
    let mut hub = DispatchHub::new(0, SharedCounter::new());
    let (sender, receiver) = async_channel::unbounded();
    hub.subscribe(b"t".to_vec(), sender);
    assert_eq!(hub.try_send(b"t", message(1)), Err(SendError::Full));
    assert_eq!(receiver.len(), 0);
}

#[test]
fn a_message_that_is_not_queued_is_not_counted() {
    let mut used = SharedCounter::new();
    let mut hub = DispatchHub::new(9, used.share());
    let (sender, receiver) = async_channel::bounded(1);
    hub.subscribe(b"t".to_vec(), sender);
    assert_eq!(hub.try_send(b"t", message(1)), Ok(()));
    assert_eq!(hub.try_send(b"t", message(2)), Err(SendError::Full));
    assert_eq!(used.add_one(), 1);
    used.take_off(1);
    drop(receiver);
    assert_eq!(hub.try_send(b"t", message(3)), Err(SendError::Closed));
    assert_eq!(used.add_one(), 1);
}

#[test]
fn abandoned_messages_are_released() {
    let mut used = SharedCounter::new();
    let mut hub = DispatchHub::new(9, used.share());
    let (sender, receiver) = async_channel::unbounded();
    hub.subscribe(b"t".to_vec(), sender);
    for id in 0..3 {
        assert_eq!(hub.try_send(b"t", message(id)), Ok(()));
    }
    let mut writer = Inbound::new(b"t".to_vec(), receiver, used.share());
    let first = writer.channel_mut().try_recv().unwrap();
    writer.poll(InboundEvent::Message(first));
    writer.abandon();
    assert_eq!(used.add_one(), 0);
}

#[test]
fn replies_become_outcomes() {
    assert_eq!(dispatch_outcome(SendReply::Queued), Ok(()));
    assert_eq!(dispatch_outcome(SendReply::Full(message(1))), Err(SendError::Full));
    assert_eq!(dispatch_outcome(SendReply::Closed(message(1))), Err(SendError::Closed));
}

#[test]
fn a_count_at_the_limit_leaves_no_room() {
    let mut used = SharedCounter::new();
    let mut hub = DispatchHub::new(3, used.share());
    let (sender, receiver) = async_channel::unbounded();
    hub.subscribe(b"t".to_vec(), sender);
    used.add_one();
    used.add_one();
    assert_eq!(hub.send_counted(b"t", message(1), 2), Ok(()));
    assert_eq!(hub.send_counted(b"t", message(2), 3), Err(SendError::Full));
    assert_eq!(receiver.len(), 1);
}
