//! How streams are opened.

use waggle::counter::{one_more, SharedCounter};
use waggle::protocol::{
    upgrade_outcome, Error, InboundProtocol, OutboundProtocol, PieceCodec, SubscriptionCodec,
    TopicSubscription,
};

fn subscription(topic: &[u8]) -> TopicSubscription {
    TopicSubscription { topic_id: topic.to_vec() }
}

#[test]
fn the_stream_limit_is_enforced_across_handles() {
    let mut first = InboundProtocol::new(100, 2);
    let mut second = first.clone();
    let (opened, codec) = first.upgrade_inbound::<()>(Some(Ok(subscription(b"a")))).unwrap();
    assert_eq!(opened.topic_id, b"a".to_vec());
    assert_eq!(codec.max_protobuf_size(), 100);
    assert!(second.upgrade_inbound::<()>(Some(Ok(subscription(b"b")))).is_ok());
    assert!(matches!(
        second.upgrade_inbound::<()>(Some(Ok(subscription(b"c")))),
        Err(Error::MaxStreamsReached)
    ));
    first.stream_closed();
    assert!(second.upgrade_inbound::<()>(Some(Ok(subscription(b"c")))).is_ok());
}

#[test]
fn a_limit_of_zero_opens_no_stream() {
    let mut protocol = InboundProtocol::new(100, 0);
    assert!(matches!(
        protocol.upgrade_inbound::<()>(Some(Ok(subscription(b"a")))),
        Err(Error::MaxStreamsReached)
    ));
}

#[test]
fn a_stream_without_a_subscription_is_not_opened() {
    let mut protocol = InboundProtocol::new(100, 1);
    assert!(matches!(protocol.upgrade_inbound::<u8>(None), Err(Error::ClosedStream)));
    assert!(matches!(
        protocol.upgrade_inbound::<u8>(Some(Err(9))),
        Err(Error::InvalidSubscription(9))
    ));
    assert!(protocol.upgrade_inbound::<u8>(Some(Ok(subscription(b"a")))).is_ok());
}

#[test]
fn the_outcome_follows_the_count() {
    assert!(upgrade_outcome::<()>(subscription(b"a"), Ok(3)).is_ok());
    assert!(matches!(
        upgrade_outcome::<()>(subscription(b"a"), Err(4)),
        Err(Error::MaxStreamsReached)
    ));
}

#[test]
fn an_outbound_stream_subscribes_to_its_topic() {
    let protocol = OutboundProtocol { max_protobuf_size: 12, topic_id: b"t".to_vec() };
    assert_eq!(protocol.protocol_info(), "/waggle/1.0");
    let (message, codec) = protocol.subscription();
    assert_eq!(message.topic_id, b"t".to_vec());
    assert_eq!(codec.max_protobuf_size(), 12);
    let (topic, codec) = protocol.upgrade_outbound::<()>(Ok(())).unwrap();
    assert_eq!(topic, b"t".to_vec());
    assert_eq!(codec.max_protobuf_size(), 12);
    let failed = OutboundProtocol { max_protobuf_size: 12, topic_id: b"t".to_vec() };
    assert!(matches!(failed.upgrade_outbound(Err(5u8)), Err(5)));
}

#[test]
fn both_codecs_of_a_stream_have_the_same_limit() {
    let first = SubscriptionCodec::new(33);
    assert_eq!(PieceCodec::from(first).max_protobuf_size(), 33);
    assert_eq!(InboundProtocol::new(44, 1).subscription_codec().max_protobuf_size(), 44);
    assert_eq!(InboundProtocol::new(44, 1).protocol_info(), "/waggle/1.0");
}

#[test]
fn a_shared_counter_counts_for_all_its_handles() {
    let mut a = SharedCounter::new();
    let mut b = a.share();
    assert_eq!(a.add_one(), 0);
    assert_eq!(b.add_one(), 1);
    assert_eq!(b.add_one_below(2), Err(2));
    a.take_off(2);
    assert_eq!(b.add_one_below(2), Ok(0));
    assert_eq!(a.add_one(), 1);
}

#[test]
fn one_more_stops_at_the_limit() {
    assert_eq!(one_more(0, 1), Some(1));
    assert_eq!(one_more(1, 1), None);
    assert_eq!(one_more(usize::MAX, usize::MAX), None);
}
