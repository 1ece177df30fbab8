//! Configuration values and their defaults.

use std::time::Duration;

use waggle::config::{Config, NonZeroUsize, TopicConfig, TopicSet};

fn number(value: usize) -> NonZeroUsize {
    NonZeroUsize::new(value).unwrap()
}

#[test]
fn zero_is_no_nonzero_number() {
    assert!(NonZeroUsize::new(0).is_none());
    assert_eq!(number(7).get(), 7);
    assert_eq!(number(usize::MAX).get(), usize::MAX);
}

#[test]
fn defaults_are_as_documented() {
    let config = Config::default();
    assert_eq!(config.max_connection_queue_limit(), 5000);
    assert_eq!(config.max_topic_subscription(), 50);
    assert_eq!(config.max_protobuf_size(), 65536);
    assert_eq!(config.max_cached_objects().get(), 100);
    assert_eq!(config.object_lifetime(), Duration::from_secs(60));
    assert_eq!(config.object_lifetime().as_nanos(), 60_000_000_000);
    assert!(config.topic_whitelist().is_none());
    assert_eq!(config.topic_config(b"any").publish_fanout().get(), 50);
    assert_eq!(config.topic_config(b"any").gossip_fanout().get(), 50);
}

#[test]
fn setters_change_one_value_each() {
    let mut topics = TopicSet::new();
    topics.insert(b"news".to_vec());
    let config = Config::default()
        .set_max_connection_queue_limit(1)
        .set_max_topic_subscription(2)
        .set_max_protobuf_size(3)
        .set_max_cached_objects(number(4))
        .set_object_lifetime(Duration::from_millis(5))
        .set_topic_whitelist(Some(topics));
    assert_eq!(config.max_connection_queue_limit(), 1);
    assert_eq!(config.max_topic_subscription(), 2);
    assert_eq!(config.max_protobuf_size(), 3);
    assert_eq!(config.max_cached_objects().get(), 4);
    assert_eq!(config.object_lifetime(), Duration::from_millis(5));
    assert!(config.topic_whitelist().unwrap().contains(b"news"));
    assert!(!config.topic_whitelist().unwrap().contains(b"weather"));
    assert!(config.set_topic_whitelist(None).topic_whitelist().is_none());
}

#[test]
fn topics_fall_back_to_the_default_parameters() {
    let special = TopicConfig::new(number(1), number(2));
    let fallback = TopicConfig::default().set_publish_fanout(number(8)).set_gossip_fanout(number(9));
    let config = Config::default()
        .set_topic_config(b"special".to_vec(), special)
        .set_default_topic_config(fallback);
    assert_eq!(*config.topic_config(b"special"), special);
    assert_eq!(*config.topic_config(b"other"), fallback);
    assert_eq!(config.topic_config(b"other").publish_fanout().get(), 8);
    assert_eq!(config.topic_config(b"other").gossip_fanout().get(), 9);
    let replaced = config.set_topic_config(b"special".to_vec(), fallback);
    assert_eq!(*replaced.topic_config(b"special"), fallback);
}

#[test]
fn a_clone_has_the_same_values() {
    let mut topics = TopicSet::new();
    topics.insert(b"a".to_vec());
    let config = Config::default()
        .set_max_protobuf_size(77)
        .set_topic_whitelist(Some(topics))
        .set_topic_config(b"a".to_vec(), TopicConfig::new(number(1), number(2)))
        .set_topic_config(b"b".to_vec(), TopicConfig::new(number(3), number(4)));
    let clone = config.clone();
    assert_eq!(clone.max_protobuf_size(), 77);
    assert!(clone.allows(b"a"));
    assert!(!clone.allows(b"b"));
    assert_eq!(clone.topic_config(b"a").gossip_fanout().get(), 2);
    assert_eq!(clone.topic_config(b"b").publish_fanout().get(), 3);
    assert_eq!(clone.topic_config(b"c").publish_fanout().get(), 50);
}

#[test]
fn without_a_whitelist_every_topic_is_allowed() {
    assert!(Config::default().allows(b"anything"));
    assert!(!Config::default().set_topic_whitelist(Some(TopicSet::new())).allows(b"anything"));
}

#[test]
fn a_topic_set_holds_each_topic_once() {
    let mut topics = TopicSet::new();
    assert!(topics.insert(b"a".to_vec()));
    assert!(!topics.insert(b"a".to_vec()));
    assert!(topics.insert(b"b".to_vec()));
    assert_eq!(topics.len(), 2);
    assert!(topics.contains(b"a"));
    assert!(topics.remove(b"a"));
    assert!(!topics.remove(b"a"));
    assert!(!topics.contains(b"a"));
}
