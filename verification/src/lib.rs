//! Real-time session core for a chat and voice backend.
//!
//! The crate couples a topic-based publish/subscribe engine, which fans
//! live events out to connected clients, with a per-client media session
//! state machine that tracks WebRTC transports and the inbound (producer)
//! and outbound (consumer) media streams bound to them. HTTP handling,
//! storage, and the media engine itself are collaborators of the callers;
//! the crate holds the orchestration rules and proves them.

pub mod topic;
pub mod transport;
pub mod pubsub;
pub mod voice;
pub mod channels;
pub mod messaging;
pub mod options;
