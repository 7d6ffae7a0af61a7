//! Errors the bot's logic reports.

use vstd::prelude::*;
use crate::platform::ChannelId;

verus! {

/// Errors of the bot's own logic. Transport errors (HTTP, JSON, database,
/// chat client) belong to the application around the library.
pub enum BotError {
    /// No configuration is stored for the channel.
    ConfigMissing(ChannelId),
    /// A message to show in chat.
    Chat(String),
    /// Any other failure, with its description.
    Custom(String),
    /// A text that is not the JSON it should be, with the parser's message.
    Json(String),
}

/// The text of an error, as it is shown to users.
pub open spec fn error_text(e: BotError) -> Seq<char> {
    match e {
        BotError::ConfigMissing(id) => "Configuration missing for channel: "@ + crate::platform::id_view_text(id@),
        BotError::Chat(m) => m@,
        BotError::Custom(m) => m@,
        BotError::Json(m) => "JSON deserialization error: "@ + m@,
    }
}

impl BotError {
    /// The error's text.
    pub fn message(&self) -> (r: String)
        requires
            self matches BotError::ConfigMissing(id) ==> id.wf(),
        ensures
            r@ == error_text(*self),
    {
        match self {
            BotError::ConfigMissing(id) => crate::text::cat2("Configuration missing for channel: ", id.as_str()),
            BotError::Chat(m) => m.clone(),
            BotError::Custom(m) => m.clone(),
            BotError::Json(m) => crate::text::cat2("JSON deserialization error: ", m.as_str()),
        }
    }
}

pub open spec fn invalid_platform_msg() -> Seq<char> {
    seq!['I', 'n', 'v', 'a', 'l', 'i', 'd', ' ', 'p', 'l', 'a', 't', 'f', 'o', 'r', 'm']
}

/// The message `Invalid platform`.
pub fn invalid_platform() -> (s: String)
    ensures
        s@ == invalid_platform_msg(),
{
    proof {
        reveal_strlit("Invalid platform");
    }
    "Invalid platform".to_owned()
}

} // verus!
