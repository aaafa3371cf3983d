use zling_core::channels::{
    channel_name_is_valid, create_channel, ChannelType, CreateChannelError, CreateChannelRequest,
};
use zling_core::messaging::{typing, TypingError, TypingPath};
use zling_core::pubsub::EventConsumerManager;
use zling_core::topic::{Event, Topic};

fn req(name: &str) -> CreateChannelRequest {
    CreateChannelRequest { name: name.to_owned(), channel_type: ChannelType::Text }
}

#[test]
fn valid_names() {
    assert!(channel_name_is_valid("memes"));
    assert!(channel_name_is_valid("a"));
    assert!(channel_name_is_valid("exactly-16-chars"));
    assert!(channel_name_is_valid(" padded "));
    assert!(channel_name_is_valid("~!@# $%^&*()"));
}

#[test]
fn invalid_names() {
    assert!(!channel_name_is_valid(""));
    assert!(!channel_name_is_valid("seventeen-letters"));
    assert!(!channel_name_is_valid("   "));
    assert!(!channel_name_is_valid("tab\tname"));
    assert!(!channel_name_is_valid("caf\u{e9}"));
    assert!(!channel_name_is_valid("del\u{7f}"));
}

#[test]
fn create_channel_without_membership_is_denied() {
    assert_eq!(
        create_channel(false, &req("memes")).unwrap_err(),
        CreateChannelError::AccessDenied
    );
}

#[test]
fn create_channel_with_bad_name_is_invalid() {
    assert_eq!(
        create_channel(true, &req("")).unwrap_err(),
        CreateChannelError::InvalidName
    );
    assert_eq!(
        create_channel(true, &req("seventeen-letters")).unwrap_err(),
        CreateChannelError::InvalidName
    );
}

#[test]
fn create_channel_mints_a_url_safe_id() {
    let resp = create_channel(true, &req("memes")).unwrap();
    assert_eq!(resp.id.chars().count(), 21);
    assert!(resp.id.chars().all(|c| c == '_' || c == '-' || c.is_ascii_alphanumeric()));
    // Two creations almost surely differ; equal ids would mean the id
    // source is not drawing randomness at all.
    let again = create_channel(true, &req("memes")).unwrap();
    assert_ne!(resp.id, again.id);
}

#[test]
fn typing_without_permission_is_denied_and_silent() {
    let mut ecm = EventConsumerManager::new(8);
    ecm.add_session(1);
    ecm.subscribe(1, Topic::Channel(5));
    let path = TypingPath { guild_id: 3, channel_id: 5 };
    assert_eq!(typing(&mut ecm, &path, 9, false), Err(TypingError::AccessDenied));
    assert!(ecm.take_events(1).is_empty());
}

#[test]
fn typing_with_permission_reaches_the_channel() {
    let mut ecm = EventConsumerManager::new(8);
    ecm.add_session(1);
    ecm.subscribe(1, Topic::Channel(5));
    let path = TypingPath { guild_id: 3, channel_id: 5 };
    assert_eq!(typing(&mut ecm, &path, 9, true), Ok(()));
    assert_eq!(
        ecm.take_events(1),
        vec![Event::Typing { channel_id: 5, user_id: 9 }]
    );
}
