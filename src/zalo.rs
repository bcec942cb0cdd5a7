//! Zalo client data: message and thread kinds, credentials, and the service
//! map of endpoint URLs obtained at login.
use vstd::prelude::*;

verus! {

/// Message types supported by Zalo.
#[derive(Debug, Clone, Copy, PartialEq, Eq, Structural)]
pub enum MessageType {
    Text,
    Image,
    Sticker,
    File,
    Link,
    Location,
    Contact,
    Gif,
    Video,
}

/// Thread type for Zalo.
#[derive(Debug, Clone, Copy, PartialEq, Eq, Structural)]
pub enum ThreadType {
    /// Direct message (1:1).
    User,
    /// Group chat.
    Group,
}

/// Send message request.
#[derive(Debug, Clone)]
pub struct SendMessageRequest {
    pub thread_id: String,
    pub thread_type: ThreadType,
    pub msg_type: MessageType,
    pub content: String,
    /// Message being quoted or replied to.
    pub quote_msg_id: Option<String>,
    /// Mentioned user ids.
    pub mentions: Vec<String>,
}

/// Credentials of a Zalo web session.
#[derive(Debug, Clone)]
pub struct ZaloCredentials {
    /// IMEI identifier (device fingerprint).
    pub imei: String,
    /// Cookie string from Zalo Web.
    pub cookie: Option<String>,
    /// Phone number (for login).
    pub phone: Option<String>,
    /// User agent string.
    pub user_agent: String,
}

/// Endpoint used when the service map lists none.
pub const DEFAULT_URL: &'static str = "https://wpa.chat.zalo.me";

/// The first URL of a list, or the default endpoint.
pub open spec fn first_or_default(urls: Seq<String>) -> Seq<char> {
    if urls.len() > 0 {
        urls[0]@
    } else {
        DEFAULT_URL@
    }
}

/// Zalo service map: endpoint URLs by service, as obtained after login.
#[derive(Debug, Clone)]
pub struct ZaloServiceMap {
    pub chat: Vec<String>,
    pub group: Vec<String>,
    pub group_poll: Vec<String>,
    pub file: Vec<String>,
    pub friend: Vec<String>,
    pub profile: Vec<String>,
    pub sticker: Vec<String>,
    pub reaction: Vec<String>,
    pub conversation: Vec<String>,
}

impl ZaloServiceMap {
    /// The first `chat` endpoint, or the default chat host.
    pub fn chat_url(&self) -> (r: &str)
        ensures
            r@ == first_or_default(self.chat@),
    {
        if self.chat.len() > 0 {
            self.chat[0].as_str()
        } else {
            DEFAULT_URL
        }
    }

    /// The first `group` endpoint, or the default chat host.
    pub fn group_url(&self) -> (r: &str)
        ensures
            r@ == first_or_default(self.group@),
    {
        if self.group.len() > 0 {
            self.group[0].as_str()
        } else {
            DEFAULT_URL
        }
    }

    /// The first `group_poll` endpoint, or the default chat host.
    pub fn group_poll_url(&self) -> (r: &str)
        ensures
            r@ == first_or_default(self.group_poll@),
    {
        if self.group_poll.len() > 0 {
            self.group_poll[0].as_str()
        } else {
            DEFAULT_URL
        }
    }

    /// The first `reaction` endpoint, or the default chat host.
    pub fn reaction_url(&self) -> (r: &str)
        ensures
            r@ == first_or_default(self.reaction@),
    {
        if self.reaction.len() > 0 {
            self.reaction[0].as_str()
        } else {
            DEFAULT_URL
        }
    }

    /// The first `profile` endpoint, or the default chat host.
    pub fn profile_url(&self) -> (r: &str)
        ensures
            r@ == first_or_default(self.profile@),
    {
        if self.profile.len() > 0 {
            self.profile[0].as_str()
        } else {
            DEFAULT_URL
        }
    }

    /// The first `friend` endpoint, or the default chat host.
    pub fn friend_url(&self) -> (r: &str)
        ensures
            r@ == first_or_default(self.friend@),
    {
        if self.friend.len() > 0 {
            self.friend[0].as_str()
        } else {
            DEFAULT_URL
        }
    }
}

} // verus!
