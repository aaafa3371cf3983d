//! Channel creation: name validation and id generation.
//!
//! The storage write itself is the caller's; this module decides whether
//! a request may proceed and mints the channel's id. After a successful
//! write the caller publishes the guild's channel-list update through the
//! engine's `notify_guild_channel_list_update`.

use vstd::prelude::*;

verus! {

/// The kind of channel being created.
#[derive(Clone, Copy, Debug, PartialEq, Eq, Structural)]
pub enum ChannelType {
    Text,
    Voice,
}

/// A request to create a channel in a guild.
#[derive(Debug)]
pub struct CreateChannelRequest {
    pub name: String,
    pub channel_type: ChannelType,
}

/// The reply of a successful creation: the new channel's generated id.
#[derive(Debug)]
pub struct CreateChannelResponse {
    pub id: String,
}

/// Why a creation request was refused.
#[derive(Clone, Copy, Debug, PartialEq, Eq, Structural)]
pub enum CreateChannelError {
    /// The requesting user is not a member of the guild.
    AccessDenied,
    /// The channel name is empty, too long, or not printable.
    InvalidName,
}

/// A valid channel name: one to sixteen printable ASCII characters, at
/// least one of which is not a space.
pub open spec fn valid_channel_name(s: Seq<char>) -> bool {
    &&& 1 <= s.len() <= 16
    &&& forall|i: int| 0 <= i < s.len() ==> ' ' <= #[trigger] s[i] <= '~'
    &&& exists|i: int| 0 <= i < s.len() && #[trigger] s[i] != ' '
}

/// A character of the URL-safe id alphabet.
pub open spec fn is_url_safe_char(c: char) -> bool {
    ||| c == '_'
    ||| c == '-'
    ||| '0' <= c <= '9'
    ||| 'a' <= c <= 'z'
    ||| 'A' <= c <= 'Z'
}

/// Whether a requested channel name is acceptable.
pub fn channel_name_is_valid(name: &str) -> (b: bool)
    ensures
        b == valid_channel_name(name@),
{
    let n = name.unicode_len();
    if n < 1 || n > 16 {
        return false;
    }
    let mut seen_nonspace = false;
    for i in 0..n
        invariant
            n == name@.len(),
            1 <= n <= 16,
            forall|j: int| 0 <= j < i ==> ' ' <= #[trigger] name@[j] <= '~',
            seen_nonspace == exists|j: int| 0 <= j < i && #[trigger] name@[j] != ' ',
    {
        let c = name.get_char(i);
        if c < ' ' || c > '~' {
            return false;
        }
        if c != ' ' {
            seen_nonspace = true;
            proof {
                assert(name@[i as int] != ' ');
            }
        }
    }
    seen_nonspace
}

/// Relies on nanoid::format with the URL-safe alphabet and the default
/// entropy source: a randomly drawn id of exactly 21 characters, each one
/// of `A-Za-z0-9_-`. Nothing more is promised of a random value.
#[verifier::external_body]
fn fresh_channel_id() -> (r: String)
    ensures
        r@.len() == 21,
        forall|i: int| 0 <= i < r@.len() ==> is_url_safe_char(#[trigger] r@[i]),
{
    nanoid::format(nanoid::rngs::default, &nanoid::alphabet::SAFE, 21)
}

/// Decide a channel-creation request and mint the new channel's id.
///
/// `user_in_guild` is the storage oracle's verdict on the requesting
/// user's membership, obtained fresh by the caller. Without membership the
/// request is refused with `AccessDenied`; with an unacceptable name, with
/// `InvalidName`; otherwise the reply carries a fresh 21-character id for
/// the caller to store, after which it publishes the guild's channel-list
/// update.
pub fn create_channel(user_in_guild: bool, req: &CreateChannelRequest) -> (r: Result<
    CreateChannelResponse,
    CreateChannelError,
>)
    ensures
        r is Ok <==> user_in_guild && valid_channel_name(req.name@),
        !user_in_guild ==> (r matches Err(e) && e == CreateChannelError::AccessDenied),
        user_in_guild && !valid_channel_name(req.name@) ==> (r matches Err(e) && e
            == CreateChannelError::InvalidName),
        r matches Ok(resp) ==> resp.id@.len() == 21 && forall|i: int|
            0 <= i < resp.id@.len() ==> is_url_safe_char(#[trigger] resp.id@[i]),
{
    if !user_in_guild {
        return Err(CreateChannelError::AccessDenied);
    }
    if !channel_name_is_valid(req.name.as_str()) {
        return Err(CreateChannelError::InvalidName);
    }
    Ok(CreateChannelResponse { id: fresh_channel_id() })
}

} // verus!
