use zling_core::pubsub::EventConsumerManager;
use zling_core::topic::{Event, MediaKind, Topic};
use zling_core::voice::{ConsumeError, Direction, ProduceError, VoiceServer};

fn engine_ready_session(vs: &mut VoiceServer, sid: u64, user: u64) {
    vs.connect_session(sid, user);
    vs.create_transport(sid, Direction::ClientToServer).unwrap();
    vs.connect_transport(sid, Direction::ClientToServer).unwrap();
    vs.create_transport(sid, Direction::ServerToClient).unwrap();
    vs.connect_transport(sid, Direction::ServerToClient).unwrap();
}

#[test]
fn produce_without_transport_fails_and_allocates_nothing() {
    let mut vs = VoiceServer::new();
    vs.connect_session(1, 100);
    assert_eq!(vs.produce_check(1), Err(ProduceError::TransportNotCreated));
    assert!(!vs.has_active_producer(10));
}

#[test]
fn produce_on_created_but_not_connected_fails() {
    let mut vs = VoiceServer::new();
    vs.connect_session(1, 100);
    vs.create_transport(1, Direction::ClientToServer).unwrap();
    assert_eq!(vs.produce_check(1), Err(ProduceError::TransportNotConnected));
}

#[test]
fn produce_flow_notifies_the_voice_channel() {
    let mut vs = VoiceServer::new();
    let mut ecm = EventConsumerManager::new(8);
    // U sets a transport up and joins channel 7.
    engine_ready_session(&mut vs, 1, 100);
    ecm.add_session(1);
    vs.join(&mut ecm, 1, 7);
    // V is subscribed to the same voice channel's topic.
    vs.connect_session(2, 200);
    ecm.add_session(2);
    vs.join(&mut ecm, 2, 7);

    assert_eq!(vs.produce_check(1), Ok(()));
    // The engine created the stream under id 42.
    let reply = vs.produce_commit(&mut ecm, 1, MediaKind::Audio, Some(42)).unwrap();
    assert_eq!(reply.id, 42);
    assert!(vs.has_active_producer(42));

    let evs = ecm.take_events(2);
    assert_eq!(
        evs,
        vec![Event::ProducerAdded { channel_id: 7, producer_id: 42, kind: MediaKind::Audio }]
    );
}

#[test]
fn engine_failure_registers_nothing() {
    let mut vs = VoiceServer::new();
    let mut ecm = EventConsumerManager::new(8);
    engine_ready_session(&mut vs, 1, 100);
    ecm.add_session(1);
    assert_eq!(
        vs.produce_commit(&mut ecm, 1, MediaKind::Video, None),
        Err(ProduceError::ProducerFailed)
    );
    assert!(!vs.has_active_producer(42));
}

#[test]
fn produce_commit_for_vanished_session_registers_nothing() {
    let mut vs = VoiceServer::new();
    let mut ecm = EventConsumerManager::new(8);
    engine_ready_session(&mut vs, 1, 100);
    ecm.add_session(1);
    assert_eq!(vs.produce_check(1), Ok(()));
    // The session disconnects while the engine call is in flight.
    vs.teardown(&mut ecm, 1);
    assert_eq!(
        vs.produce_commit(&mut ecm, 1, MediaKind::Audio, Some(42)),
        Err(ProduceError::ProducerFailed)
    );
    assert!(!vs.has_active_producer(42));
}

#[test]
fn removing_a_producer_closes_every_dependent_consumer() {
    let mut vs = VoiceServer::new();
    let mut ecm = EventConsumerManager::new(8);
    engine_ready_session(&mut vs, 1, 100);
    engine_ready_session(&mut vs, 2, 200);
    engine_ready_session(&mut vs, 3, 300);
    vs.produce_commit(&mut ecm, 1, MediaKind::Audio, Some(10)).unwrap();
    assert_eq!(vs.consume_check(2, 10), Ok(()));
    assert_eq!(vs.consume_commit(2, 10, Some(20)), Ok(20));
    assert_eq!(vs.consume_commit(3, 10, Some(30)), Ok(30));
    assert_eq!(vs.consumer_closed(2, 20), Some(false));
    assert_eq!(vs.consumer_closed(3, 30), Some(false));

    assert!(vs.remove_producer(10));

    assert!(!vs.has_active_producer(10));
    // The id stays taken by the tombstone, so the engine-uniqueness test
    // still refuses it for a new stream.
    assert!(vs.has_producer(10));
    assert!(!vs.has_producer(11));
    assert_eq!(vs.consumer_closed(2, 20), Some(true));
    assert_eq!(vs.consumer_closed(3, 30), Some(true));
    // A second removal finds nothing live any more.
    assert!(!vs.remove_producer(10));
}

#[test]
fn consume_of_unknown_producer_is_not_found() {
    let mut vs = VoiceServer::new();
    engine_ready_session(&mut vs, 2, 200);
    assert_eq!(vs.consume_check(2, 77), Err(ConsumeError::ProducerNotFound));
    assert_eq!(vs.consume_commit(2, 77, Some(20)), Err(ConsumeError::ProducerNotFound));
}

#[test]
fn consume_needs_a_connected_receive_transport() {
    let mut vs = VoiceServer::new();
    vs.connect_session(2, 200);
    assert_eq!(vs.consume_check(2, 10), Err(ConsumeError::TransportNotCreated));
    vs.create_transport(2, Direction::ServerToClient).unwrap();
    assert_eq!(vs.consume_check(2, 10), Err(ConsumeError::TransportNotConnected));
}

#[test]
fn joining_a_second_channel_switches_membership_and_delivery() {
    let mut vs = VoiceServer::new();
    let mut ecm = EventConsumerManager::new(8);
    vs.connect_session(1, 100);
    ecm.add_session(1);
    vs.join(&mut ecm, 1, 5);
    assert_eq!(vs.voice_channel_of(1), Some(5));
    ecm.publish(Topic::Channel(5), Event::Typing { channel_id: 5, user_id: 9 });
    assert_eq!(ecm.take_events(1).len(), 1);

    vs.join(&mut ecm, 1, 6);
    assert_eq!(vs.voice_channel_of(1), Some(6));
    ecm.publish(Topic::Channel(5), Event::Typing { channel_id: 5, user_id: 9 });
    assert!(ecm.take_events(1).is_empty());
    ecm.publish(Topic::Channel(6), Event::Typing { channel_id: 6, user_id: 9 });
    assert_eq!(ecm.take_events(1).len(), 1);
}

#[test]
fn leaving_removes_membership_and_subscription() {
    let mut vs = VoiceServer::new();
    let mut ecm = EventConsumerManager::new(8);
    vs.connect_session(1, 100);
    ecm.add_session(1);
    vs.join(&mut ecm, 1, 5);
    vs.leave(&mut ecm, 1);
    assert_eq!(vs.voice_channel_of(1), None);
    ecm.publish(Topic::Channel(5), Event::Typing { channel_id: 5, user_id: 9 });
    assert!(ecm.take_events(1).is_empty());
}

#[test]
fn teardown_removes_everything_and_cascades() {
    let mut vs = VoiceServer::new();
    let mut ecm = EventConsumerManager::new(8);
    engine_ready_session(&mut vs, 1, 100);
    engine_ready_session(&mut vs, 2, 200);
    ecm.add_session(1);
    ecm.add_session(2);
    vs.join(&mut ecm, 1, 7);
    vs.join(&mut ecm, 2, 7);
    vs.produce_commit(&mut ecm, 1, MediaKind::Audio, Some(10)).unwrap();
    vs.consume_commit(2, 10, Some(20)).unwrap();
    ecm.take_events(2);

    vs.teardown(&mut ecm, 1);

    assert!(!vs.has_session(1));
    assert!(!ecm.has_session(1));
    assert!(!vs.has_active_producer(10));
    // The surviving session's forwarding of the dead producer is closed.
    assert_eq!(vs.consumer_closed(2, 20), Some(true));
    // Publishing to the dead session's old channel reaches nobody gone.
    ecm.publish(Topic::Channel(7), Event::Typing { channel_id: 7, user_id: 9 });
    assert!(!ecm.has_session(1));
    // Tearing down twice is harmless.
    vs.teardown(&mut ecm, 1);
    assert!(!vs.has_session(1));
}

#[test]
fn produce_error_metadata() {
    assert_eq!(ProduceError::TransportNotCreated.status_code(), 400);
    assert_eq!(ProduceError::TransportNotConnected.status_code(), 400);
    assert_eq!(ProduceError::ProducerFailed.status_code(), 500);
    assert_eq!(ProduceError::TransportNotCreated.tag(), "transport_not_created");
    assert_eq!(ProduceError::TransportNotConnected.tag(), "transport_not_connected");
    assert_eq!(ProduceError::ProducerFailed.tag(), "producer_failed");
}
