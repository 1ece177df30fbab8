//! Configuration of a protocol instance.

use std::sync::Arc;
use std::time::Duration;

use vstd::prelude::*;

use crate::outside::duration_nanos;
use crate::table::{copy_bytes, Table};

verus! {

/// A number that is not zero.
#[derive(Debug, Clone, Copy, PartialEq, Eq, Structural)]
pub struct NonZeroUsize {
    value: usize,
}

impl NonZeroUsize {
    #[verifier::type_invariant]
    spec fn nonzero(self) -> bool {
        self.value > 0
    }

    /// The number.
    pub closed spec fn view(&self) -> nat {
        self.value as nat
    }

    /// The number, if it is not zero.
    pub fn new(value: usize) -> (r: Option<Self>)
        ensures
            match r {
                Some(number) => value > 0 && number@ == value,
                None => value == 0,
            },
    {
        if value == 0 {
            None
        } else {
            Some(NonZeroUsize { value })
        }
    }

    /// The number.
    pub fn get(&self) -> (r: usize)
        ensures
            r == self@,
            r > 0,
    {
        proof {
            use_type_invariant(self);
        }
        self.value
    }
}

/// A set of topics.
#[derive(Debug)]
pub struct TopicSet {
    topics: Table<Vec<u8>, ()>,
}

impl TopicSet {
    #[verifier::type_invariant]
    spec fn distinct(self) -> bool {
        self.topics.wf()
    }

    /// The topics.
    pub closed spec fn view(&self) -> Set<Seq<u8>> {
        self.topics@.dom()
    }

    /// The empty set.
    pub fn new() -> (r: Self)
        ensures
            r@ == Set::<Seq<u8>>::empty(),
    {
        TopicSet { topics: Table::new() }
    }

    /// The number of topics in the set.
    pub fn len(&self) -> (r: usize)
        ensures
            self@.finite(),
            r == self@.len(),
    {
        proof {
            use_type_invariant(self);
            self.topics.keys().unique_seq_to_set();
            vstd::seq_lib::seq_to_set_is_finite(self.topics.keys());
            assert(self@ =~= self.topics.keys().to_set());
        }
        self.topics.len()
    }

    /// Whether the topic is in the set.
    pub fn contains(&self, topic: &[u8]) -> (r: bool)
        ensures
            r == self@.contains(topic@),
    {
        self.topics.contains_key(topic)
    }

    /// Adds a topic. Returns whether it was new.
    pub fn insert(&mut self, topic: Vec<u8>) -> (r: bool)
        ensures
            final(self)@ == old(self)@.insert(topic@),
            r == !old(self)@.contains(topic@),
    {
        proof {
            use_type_invariant(&*self);
        }
        let new = !self.topics.contains_key(topic.as_slice());
        let mut topics = Table::new();
        std::mem::swap(&mut topics, &mut self.topics);
        topics.insert(topic, ());
        self.topics = topics;
        new
    }

    /// Takes a topic out. Returns whether it was in the set.
    pub fn remove(&mut self, topic: &[u8]) -> (r: bool)
        ensures
            final(self)@ == old(self)@.remove(topic@),
            r == old(self)@.contains(topic@),
    {
        proof {
            use_type_invariant(&*self);
        }
        let mut topics = Table::new();
        std::mem::swap(&mut topics, &mut self.topics);
        let removed = topics.remove(topic);
        self.topics = topics;
        removed.is_some()
    }
}

/// Dissemination parameters for a topic.
#[derive(Debug, Clone, Copy, PartialEq, Eq, Structural)]
pub struct TopicConfig {
    /// Number of connected peers to randomly select when publishing a new piece.
    publish_fanout: NonZeroUsize,
    /// Number of connected peers to gossip metadata to upon receiving a new piece.
    gossip_fanout: NonZeroUsize,
}

impl TopicConfig {
    #[verifier::type_invariant]
    spec fn positive(self) -> bool {
        self.reaches_peers()
    }

    /// New pieces and metadata go to some peers.
    pub open spec fn reaches_peers(&self) -> bool {
        self.publishes_to()@ > 0 && self.gossips_to()@ > 0
    }

    /// How many peers a new piece is published to.
    pub closed spec fn publishes_to(&self) -> NonZeroUsize {
        self.publish_fanout
    }

    /// How many peers metadata is gossiped to.
    pub closed spec fn gossips_to(&self) -> NonZeroUsize {
        self.gossip_fanout
    }

    /// Creates new dissemination parameters with the given fanouts.
    pub fn new(publish_fanout: NonZeroUsize, gossip_fanout: NonZeroUsize) -> (r: Self)
        ensures
            r.publishes_to() == publish_fanout,
            r.gossips_to() == gossip_fanout,
    {
        proof {
            use_type_invariant(&publish_fanout);
            use_type_invariant(&gossip_fanout);
        }
        TopicConfig { publish_fanout, gossip_fanout }
    }

    /// The number of connected peers to randomly select when publishing a new piece.
    pub fn publish_fanout(&self) -> (r: NonZeroUsize)
        ensures
            r == self.publishes_to(),
    {
        self.publish_fanout
    }

    /// Sets the number of connected peers to randomly select when publishing
    /// a new piece.
    pub fn set_publish_fanout(self, value: NonZeroUsize) -> (r: Self)
        ensures
            r.publishes_to() == value,
            r.gossips_to() == self.gossips_to(),
    {
        proof {
            use_type_invariant(&self);
            use_type_invariant(&value);
        }
        TopicConfig { publish_fanout: value, ..self }
    }

    /// The number of connected peers to gossip metadata to upon receiving a
    /// new piece.
    pub fn gossip_fanout(&self) -> (r: NonZeroUsize)
        ensures
            r == self.gossips_to(),
    {
        self.gossip_fanout
    }

    /// Sets the number of connected peers to gossip metadata to upon
    /// receiving a new piece.
    pub fn set_gossip_fanout(self, value: NonZeroUsize) -> (r: Self)
        ensures
            r.publishes_to() == self.publishes_to(),
            r.gossips_to() == value,
    {
        proof {
            use_type_invariant(&self);
            use_type_invariant(&value);
        }
        TopicConfig { gossip_fanout: value, ..self }
    }
}

impl Default for TopicConfig {
    /// Fifty peers, for publishing and for gossiping.
    fn default() -> (r: Self)
        ensures
            r.publishes_to()@ == 50,
            r.gossips_to()@ == 50,
    {
        TopicConfig {
            publish_fanout: NonZeroUsize { value: 50 },
            gossip_fanout: NonZeroUsize { value: 50 },
        }
    }
}

/// Configuration for a Waggle protocol instance.
#[derive(Debug)]
pub struct Config {
    max_connection_queue_limit: usize,
    max_topic_subscription: usize,
    max_protobuf_size: usize,
    max_cached_objects: NonZeroUsize,
    object_lifetime: Duration,
    topic_whitelist: Option<Arc<TopicSet>>,
    /// Dissemination parameters, keyed by topic.
    topic_configs: Table<Vec<u8>, TopicConfig>,
    /// Fallback dissemination parameters for topics without a specific configuration.
    default_topic_config: TopicConfig,
}

/// What a [`Config`] stands for.
#[verifier::ext_equal]
pub struct ConfigModel {
    /// The maximum number of messages queued outbound on one connection.
    pub max_connection_queue_limit: usize,
    /// The maximum number of topics a single peer may subscribe to.
    pub max_topic_subscription: usize,
    /// The maximum size in bytes of a single protobuf message on the wire.
    pub max_protobuf_size: usize,
    /// The maximum number of published objects cached locally per topic.
    pub max_cached_objects: NonZeroUsize,
    /// How long a cached object is kept locally for reconciliation.
    pub object_lifetime: Duration,
    /// The topics that may be subscribed to, or all topics.
    pub topic_whitelist: Option<Set<Seq<u8>>>,
    /// Dissemination parameters, keyed by topic.
    pub topic_configs: Map<Seq<u8>, TopicConfig>,
    /// Fallback dissemination parameters.
    pub default_topic_config: TopicConfig,
}

impl ConfigModel {
    /// The topic's specific parameters, or the default parameters when the
    /// topic has none.
    pub open spec fn topic_config(self, topic: Seq<u8>) -> TopicConfig {
        if self.topic_configs.contains_key(topic) {
            self.topic_configs[topic]
        } else {
            self.default_topic_config
        }
    }

    /// Objects are cached, and every topic is published and gossiped to some
    /// peers.
    pub open spec fn positive(self) -> bool {
        &&& self.max_cached_objects@ > 0
        &&& self.default_topic_config.reaches_peers()
        &&& forall|topic: Seq<u8>| #[trigger] self.topic_configs.contains_key(topic)
            ==> self.topic_configs[topic].reaches_peers()
    }

    /// A remote peer may subscribe to the topic.
    pub open spec fn allows(self, topic: Seq<u8>) -> bool {
        match self.topic_whitelist {
            Some(topics) => topics.contains(topic),
            None => true,
        }
    }
}

/// What an optional set of topics stands for.
pub open spec fn topics_model(topics: Option<TopicSet>) -> Option<Set<Seq<u8>>> {
    match topics {
        Some(topics) => Some(topics@),
        None => None,
    }
}

impl Config {
    /// No topic has two configurations, and no number in them is zero.
    #[verifier::type_invariant]
    pub closed spec fn valid(self) -> bool {
        self.topic_configs.wf() && self@.positive()
    }

    /// A valid configuration holds no number that is zero where that is ruled
    /// out.
    pub proof fn lemma_positive(&self)
        requires
            self.valid(),
        ensures
            self@.positive(),
    {
    }

    /// What the configuration stands for.
    pub closed spec fn view(&self) -> ConfigModel {
        ConfigModel {
            max_connection_queue_limit: self.max_connection_queue_limit,
            max_topic_subscription: self.max_topic_subscription,
            max_protobuf_size: self.max_protobuf_size,
            max_cached_objects: self.max_cached_objects,
            object_lifetime: self.object_lifetime,
            topic_whitelist: match self.topic_whitelist {
                Some(topics) => Some(topics@),
                None => None,
            },
            topic_configs: self.topic_configs@,
            default_topic_config: self.default_topic_config,
        }
    }

    /// The maximum number of messages queued outbound on one connection.
    ///
    /// When the connection queue is full, no further messages are sent and
    /// the peer is reported as slow.
    ///
    /// Defaults to 5000.
    pub fn max_connection_queue_limit(&self) -> (r: usize)
        ensures
            r == self@.max_connection_queue_limit,
    {
        self.max_connection_queue_limit
    }

    /// Sets the maximum number of messages queued outbound on one connection.
    pub fn set_max_connection_queue_limit(self, len: usize) -> (r: Self)
        ensures
            r@ == (ConfigModel { max_connection_queue_limit: len, ..self@ }),
    {
        proof {
            use_type_invariant(&self);
        }
        Config { max_connection_queue_limit: len, ..self }
    }

    /// The maximum number of topics a single peer may subscribe to.
    ///
    /// Defaults to 50.
    pub fn max_topic_subscription(&self) -> (r: usize)
        ensures
            r == self@.max_topic_subscription,
    {
        self.max_topic_subscription
    }

    /// Sets the maximum number of topics a single peer may subscribe to.
    pub fn set_max_topic_subscription(self, value: usize) -> (r: Self)
        ensures
            r@ == (ConfigModel { max_topic_subscription: value, ..self@ }),
    {
        proof {
            use_type_invariant(&self);
        }
        Config { max_topic_subscription: value, ..self }
    }

    /// The maximum size in bytes of a single protobuf message on the wire.
    ///
    /// Defaults to 65536 (64 KB).
    pub fn max_protobuf_size(&self) -> (r: usize)
        ensures
            r == self@.max_protobuf_size,
    {
        self.max_protobuf_size
    }

    /// Sets the maximum size in bytes of a single protobuf message on the wire.
    pub fn set_max_protobuf_size(self, value: usize) -> (r: Self)
        ensures
            r@ == (ConfigModel { max_protobuf_size: value, ..self@ }),
    {
        proof {
            use_type_invariant(&self);
        }
        Config { max_protobuf_size: value, ..self }
    }

    /// The topic subscription whitelist.
    ///
    /// When it is `None`, all topic subscriptions are accepted.
    pub fn topic_whitelist(&self) -> (r: Option<&TopicSet>)
        ensures
            self@.topic_whitelist == (match r {
                Some(topics) => Some(topics@),
                None => None,
            }),
    {
        match &self.topic_whitelist {
            Some(topics) => Some(&**topics),
            None => None,
        }
    }

    /// Sets the topic subscription whitelist.
    pub fn set_topic_whitelist(self, whitelist: Option<TopicSet>) -> (r: Self)
        ensures
            r@ == (ConfigModel { topic_whitelist: topics_model(whitelist), ..self@ }),
    {
        proof {
            use_type_invariant(&self);
        }
        let topic_whitelist = match whitelist {
            Some(topics) => Some(Arc::new(topics)),
            None => None,
        };
        Config { topic_whitelist, ..self }
    }

    /// The maximum number of published objects cached locally per topic for
    /// reconciliation with peers that are missing pieces.
    ///
    /// Defaults to 100.
    pub fn max_cached_objects(&self) -> (r: NonZeroUsize)
        ensures
            r == self@.max_cached_objects,
    {
        self.max_cached_objects
    }

    /// Sets the maximum number of published objects cached locally per topic.
    pub fn set_max_cached_objects(self, value: NonZeroUsize) -> (r: Self)
        ensures
            r@ == (ConfigModel { max_cached_objects: value, ..self@ }),
    {
        proof {
            use_type_invariant(&self);
        }
        proof {
            use_type_invariant(&value);
        }
        Config { max_cached_objects: value, ..self }
    }

    /// How long a cached object is kept locally for reconciliation.
    ///
    /// After this time, the object is eligible for eviction.
    ///
    /// Defaults to 60 seconds.
    pub fn object_lifetime(&self) -> (r: Duration)
        ensures
            r == self@.object_lifetime,
    {
        self.object_lifetime
    }

    /// Sets how long a cached object is kept locally for reconciliation.
    pub fn set_object_lifetime(self, value: Duration) -> (r: Self)
        ensures
            r@ == (ConfigModel { object_lifetime: value, ..self@ }),
    {
        proof {
            use_type_invariant(&self);
        }
        Config { object_lifetime: value, ..self }
    }

    /// The dissemination parameters for `topic`.
    ///
    /// Returns the topic's specific parameters, or the default parameters
    /// when the topic has none.
    pub fn topic_config(&self, topic: &[u8]) -> (r: &TopicConfig)
        ensures
            *r == self@.topic_config(topic@),
    {
        proof {
            use_type_invariant(self);
        }
        match self.topic_configs.get(topic) {
            Some(config) => config,
            None => &self.default_topic_config,
        }
    }

    /// Sets the dissemination parameters for `topic`.
    pub fn set_topic_config(self, topic: Vec<u8>, config: TopicConfig) -> (r: Self)
        ensures
            r@ == (ConfigModel {
                topic_configs: self@.topic_configs.insert(topic@, config),
                ..self@
            }),
    {
        proof {
            use_type_invariant(&self);
        }
        proof {
            use_type_invariant(&config);
        }
        let mut topic_configs = self.topic_configs;
        topic_configs.insert(topic, config);
        Config { topic_configs, ..self }
    }

    /// Sets the fallback dissemination parameters.
    pub fn set_default_topic_config(self, config: TopicConfig) -> (r: Self)
        ensures
            r@ == (ConfigModel { default_topic_config: config, ..self@ }),
    {
        proof {
            use_type_invariant(&self);
        }
        proof {
            use_type_invariant(&config);
        }
        Config { default_topic_config: config, ..self }
    }

    /// Whether a remote peer may subscribe to the topic.
    pub fn allows(&self, topic: &[u8]) -> (r: bool)
        ensures
            r == self@.allows(topic@),
    {
        match &self.topic_whitelist {
            Some(topics) => topics.contains(topic),
            None => true,
        }
    }
}

impl Clone for Config {
    fn clone(&self) -> (r: Self)
        ensures
            r@ == self@,
    {
        proof {
            use_type_invariant(self);
        }
        let topic_whitelist = match &self.topic_whitelist {
            Some(topics) => Some(Arc::clone(topics)),
            None => None,
        };
        let mut topic_configs: Table<Vec<u8>, TopicConfig> = Table::new();
        let mut i: usize = 0;
        while i < self.topic_configs.len()
            invariant
                i <= self.topic_configs.keys().len(),
                self.topic_configs.wf(),
                topic_configs.wf(),
                topic_configs.keys() == self.topic_configs.keys().take(i as int),
                forall|j: int|
                    0 <= j < i ==> topic_configs@[#[trigger] self.topic_configs.keys()[j]]
                        == self.topic_configs@[self.topic_configs.keys()[j]],
            decreases self.topic_configs.keys().len() - i,
        {
            let ghost key = self.topic_configs.keys()[i as int];
            assert(!topic_configs@.contains_key(key)) by {
                if topic_configs.keys().contains(key) {
                    let j = topic_configs.keys().index_of(key);
                    assert(self.topic_configs.keys()[j] == key);
                }
            }
            let topic = copy_bytes(self.topic_configs.key_at(i).as_slice());
            let config = *self.topic_configs.value_at(i);
            topic_configs.insert(topic, config);
            assert(topic_configs.keys() =~= self.topic_configs.keys().take(i + 1));
            i += 1;
        }
        assert(topic_configs.keys() =~= self.topic_configs.keys());
        assert(topic_configs@ =~= self.topic_configs@) by {
            assert forall|topic: Seq<u8>| topic_configs@.contains_key(topic) implies
                topic_configs@[topic] == self.topic_configs@[topic] by {
                let j = self.topic_configs.keys().index_of(topic);
                assert(self.topic_configs.keys()[j] == topic);
            }
        }
        Config {
            max_connection_queue_limit: self.max_connection_queue_limit,
            max_topic_subscription: self.max_topic_subscription,
            max_protobuf_size: self.max_protobuf_size,
            max_cached_objects: self.max_cached_objects,
            object_lifetime: self.object_lifetime,
            topic_whitelist,
            topic_configs,
            default_topic_config: self.default_topic_config,
        }
    }
}

impl Default for Config {
    fn default() -> (r: Self)
        ensures
            r@.max_connection_queue_limit == 5000,
            r@.max_topic_subscription == 50,
            r@.max_protobuf_size == 65536,
            r@.max_cached_objects@ == 100,
            duration_nanos(r@.object_lifetime) == 60_000_000_000,
            r@.topic_whitelist is None,
            r@.topic_configs == Map::<Seq<u8>, TopicConfig>::empty(),
            r@.default_topic_config.publishes_to()@ == 50,
            r@.default_topic_config.gossips_to()@ == 50,
    {
        Config {
            max_connection_queue_limit: 5000,
            max_topic_subscription: 50,
            topic_whitelist: None,
            max_protobuf_size: 65536,
            max_cached_objects: NonZeroUsize { value: 100 },
            object_lifetime: Duration::from_secs(60),
            topic_configs: Table::new(),
            default_topic_config: TopicConfig::default(),
        }
    }
}

} // verus!
