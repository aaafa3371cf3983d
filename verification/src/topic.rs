//! Topics and the events that are broadcast over them.

use vstd::prelude::*;

verus! {

/// An addressable broadcast scope. A topic has no lifecycle of its own:
/// it exists only as an index key, and "no subscribers" is its empty state.
#[derive(Clone, Copy, Debug, PartialEq, Eq, Structural)]
pub enum Topic {
    Guild(u64),
    Channel(u64),
    User(u64),
}

/// The kind of a media stream.
#[derive(Clone, Copy, Debug, PartialEq, Eq, Structural)]
pub enum MediaKind {
    Audio,
    Video,
}

/// A live event delivered to subscribed connections. The shape (tag and
/// payload fields) is part of the core's contract; the wire encoding is a
/// collaborator's concern.
#[derive(Clone, Copy, Debug, PartialEq, Eq, Structural)]
pub enum Event {
    /// The channel list of a guild changed.
    ChannelListUpdated { guild_id: u64 },
    /// A user is typing in a channel.
    Typing { channel_id: u64, user_id: u64 },
    /// A new media stream is available in a voice channel.
    ProducerAdded { channel_id: u64, producer_id: u64, kind: MediaKind },
}

} // verus!
