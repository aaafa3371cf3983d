use zling_core::pubsub::EventConsumerManager;
use zling_core::topic::{Event, MediaKind, Topic};

#[test]
fn subscribe_then_publish_delivers_exactly_once() {
    let mut ecm = EventConsumerManager::new(8);
    ecm.add_session(1);
    ecm.subscribe(1, Topic::Channel(5));
    ecm.publish(
        Topic::Channel(5),
        Event::Typing { channel_id: 5, user_id: 9 },
    );
    let evs = ecm.take_events(1);
    assert_eq!(evs, vec![Event::Typing { channel_id: 5, user_id: 9 }]);
}

#[test]
fn subscribe_is_idempotent() {
    let mut ecm = EventConsumerManager::new(8);
    ecm.add_session(1);
    ecm.subscribe(1, Topic::Guild(3));
    ecm.subscribe(1, Topic::Guild(3));
    ecm.publish(Topic::Guild(3), Event::ChannelListUpdated { guild_id: 3 });
    let evs = ecm.take_events(1);
    assert_eq!(evs.len(), 1);
}

#[test]
fn unsubscribe_stops_delivery() {
    let mut ecm = EventConsumerManager::new(8);
    ecm.add_session(1);
    ecm.subscribe(1, Topic::Channel(5));
    ecm.unsubscribe(1, Topic::Channel(5));
    ecm.publish(
        Topic::Channel(5),
        Event::Typing { channel_id: 5, user_id: 9 },
    );
    let evs = ecm.take_events(1);
    assert!(evs.is_empty());
}

#[test]
fn unsubscribe_from_topic_not_held_is_noop() {
    let mut ecm = EventConsumerManager::new(8);
    ecm.add_session(1);
    ecm.subscribe(1, Topic::Channel(5));
    ecm.unsubscribe(1, Topic::Channel(6));
    ecm.publish(
        Topic::Channel(5),
        Event::Typing { channel_id: 5, user_id: 9 },
    );
    let evs = ecm.take_events(1);
    assert_eq!(evs.len(), 1);
}

#[test]
fn destroyed_session_receives_nothing() {
    let mut ecm = EventConsumerManager::new(8);
    ecm.add_session(1);
    ecm.subscribe(1, Topic::Channel(5));
    ecm.remove_session(1);
    assert!(!ecm.has_session(1));
    ecm.publish(
        Topic::Channel(5),
        Event::Typing { channel_id: 5, user_id: 9 },
    );
    // Re-registering yields a fresh empty record: the old subscription and
    // anything published in between are gone.
    ecm.add_session(1);
    let evs = ecm.take_events(1);
    assert!(evs.is_empty());
}

#[test]
fn publish_without_subscribers_is_silent() {
    let mut ecm = EventConsumerManager::new(8);
    ecm.add_session(1);
    ecm.subscribe(1, Topic::Channel(5));
    // Nobody subscribes to channel 42: the publish succeeds and nothing
    // is observable anywhere.
    ecm.publish(
        Topic::Channel(42),
        Event::Typing { channel_id: 42, user_id: 1 },
    );
    let evs = ecm.take_events(1);
    assert!(evs.is_empty());
}

#[test]
fn delivery_keeps_publish_order() {
    let mut ecm = EventConsumerManager::new(8);
    ecm.add_session(1);
    ecm.subscribe(1, Topic::Channel(5));
    let e1 = Event::Typing { channel_id: 5, user_id: 1 };
    let e2 = Event::Typing { channel_id: 5, user_id: 2 };
    let e3 = Event::Typing { channel_id: 5, user_id: 3 };
    ecm.publish(Topic::Channel(5), e1);
    ecm.publish(Topic::Channel(5), e2);
    ecm.publish(Topic::Channel(5), e3);
    assert_eq!(ecm.take_events(1), vec![e1, e2, e3]);
}

#[test]
fn full_queue_drops_oldest() {
    let mut ecm = EventConsumerManager::new(2);
    ecm.add_session(1);
    ecm.subscribe(1, Topic::Channel(5));
    let e1 = Event::Typing { channel_id: 5, user_id: 1 };
    let e2 = Event::Typing { channel_id: 5, user_id: 2 };
    let e3 = Event::Typing { channel_id: 5, user_id: 3 };
    ecm.publish(Topic::Channel(5), e1);
    ecm.publish(Topic::Channel(5), e2);
    ecm.publish(Topic::Channel(5), e3);
    assert_eq!(ecm.take_events(1), vec![e2, e3]);
}

#[test]
fn take_events_empties_the_queue() {
    let mut ecm = EventConsumerManager::new(8);
    ecm.add_session(1);
    ecm.subscribe(1, Topic::User(7));
    ecm.publish(
        Topic::User(7),
        Event::ChannelListUpdated { guild_id: 1 },
    );
    assert_eq!(ecm.take_events(1).len(), 1);
    assert!(ecm.take_events(1).is_empty());
}

#[test]
fn convenience_helpers_build_the_right_events() {
    let mut ecm = EventConsumerManager::new(8);
    ecm.add_session(1);
    ecm.subscribe(1, Topic::Channel(5));
    ecm.subscribe(1, Topic::Guild(3));
    ecm.send_typing(5, 9);
    ecm.notify_guild_channel_list_update(3);
    assert_eq!(
        ecm.take_events(1),
        vec![
            Event::Typing { channel_id: 5, user_id: 9 },
            Event::ChannelListUpdated { guild_id: 3 },
        ]
    );
}

#[test]
fn fanout_reaches_every_subscriber_independently() {
    let mut ecm = EventConsumerManager::new(8);
    ecm.add_session(1);
    ecm.add_session(2);
    ecm.add_session(3);
    ecm.subscribe(1, Topic::Channel(5));
    ecm.subscribe(2, Topic::Channel(5));
    ecm.subscribe(3, Topic::Channel(6));
    let e = Event::ProducerAdded { channel_id: 5, producer_id: 11, kind: MediaKind::Audio };
    ecm.publish(Topic::Channel(5), e);
    assert_eq!(ecm.take_events(1), vec![e]);
    assert_eq!(ecm.take_events(2), vec![e]);
    assert!(ecm.take_events(3).is_empty());
}
