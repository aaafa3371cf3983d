//! Live messaging notifications.

use vstd::prelude::*;

use crate::pubsub::{spec_publish, EventConsumerManager};
use crate::topic::{Event, Topic};

verus! {

/// The addressing of a typing notification: the channel being typed in,
/// within its guild.
#[derive(Clone, Copy, Debug, PartialEq, Eq, Structural)]
pub struct TypingPath {
    pub guild_id: u64,
    pub channel_id: u64,
}

/// A typing notification is refused only for lack of permission.
#[derive(Clone, Copy, Debug, PartialEq, Eq, Structural)]
pub enum TypingError {
    AccessDenied,
}

/// Notify a channel that a user is typing there.
///
/// `can_send` is the storage oracle's verdict on whether the user may send
/// messages in this channel; the caller obtains it fresh for every call,
/// never cached across requests. Without permission nothing is published
/// and the caller is told `AccessDenied`; with it, the typing event goes
/// out to the channel's subscribers and the call succeeds.
pub fn typing(ecm: &mut EventConsumerManager, path: &TypingPath, user_id: u64, can_send: bool) -> (r:
    Result<(), TypingError>)
    requires
        old(ecm).wf(),
    ensures
        final(ecm).wf(),
        final(ecm).capacity() == old(ecm).capacity(),
        r is Ok <==> can_send,
        can_send ==> final(ecm)@ == spec_publish(
            old(ecm)@,
            Topic::Channel(path.channel_id),
            Event::Typing { channel_id: path.channel_id, user_id },
            old(ecm).capacity(),
        ),
        !can_send ==> r == Result::<(), TypingError>::Err(TypingError::AccessDenied) && final(ecm)@
            == old(ecm)@,
{
    if !can_send {
        return Err(TypingError::AccessDenied);
    }
    ecm.send_typing(path.channel_id, user_id);
    Ok(())
}

} // verus!
