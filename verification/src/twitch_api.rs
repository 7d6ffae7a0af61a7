//! Twitch's HTTP API as the bot uses it: the addresses it asks and what it
//! reads from the answers.

use vstd::prelude::*;
use crate::chat_event::{JsonValue, json_parse, json_field, parse_json, field_of};
use crate::error::BotError;
use crate::kick::{contains_text, text_contains};
use crate::text::{cat2, cat3, cat5};

verus! {

/// The follower lookup of a user in a channel.
pub fn follower_url(broadcaster_id: &str, user_id: &str) -> (r: String)
    ensures
        r@ == "https://api.twitch.tv/helix/channels/followers?broadcaster_id="@ + broadcaster_id@ + "&user_id="@ + user_id@,
{
    cat3("https://api.twitch.tv/helix/channels/followers?broadcaster_id=", broadcaster_id, "&user_id=").concat(user_id)
}

/// Whether the follower lookup says the user follows: its answer mentions a
/// `user_id`. A lookup that could not be made counts as following (the
/// check fails open).
pub fn follower_answer(body: Option<&str>) -> (r: bool)
    ensures
        r == match body {
            Some(t) => contains_text(t@, "user_id"@),
            None => true,
        },
{
    match body {
        Some(t) => text_contains(t, "user_id"),
        None => true,
    }
}

/// The user lookup by login name.
pub fn user_url(login: &str) -> (r: String)
    ensures
        r@ == "https://api.twitch.tv/helix/users?login="@ + login@,
{
    cat2("https://api.twitch.tv/helix/users?login=", login)
}

/// The text of a field, when a string stands there.
pub open spec fn text_field(v: JsonValue, key: Seq<char>) -> Option<Seq<char>> {
    match json_field(v, key) {
        Some(JsonValue::Str(t)) => Some(t@),
        _ => None,
    }
}

/// What went wrong with a lookup: a text that is not JSON (with the
/// parser's message), or a `Custom` error's text.
pub enum LookupError {
    Json(Seq<char>),
    Custom(Seq<char>),
}

/// What the user lookup answers: the id and display name of the first user
/// in `data`, or the error that stops the lookup.
pub open spec fn twitch_user_spec(body: Seq<char>) -> Result<(Seq<char>, Seq<char>), LookupError> {
    match json_parse(body) {
        Err(e) => Err(LookupError::Json(e)),
        Ok(v) => match json_field(v, "data"@) {
            Some(JsonValue::Array(items)) => if items@.len() == 0 {
                Err(LookupError::Custom("Twitch user not found"@))
            } else {
                match text_field(items@[0], "id"@) {
                    None => Err(LookupError::Custom("Can't parse ID"@)),
                    Some(id) => match text_field(items@[0], "display_name"@) {
                        None => Err(LookupError::Custom("Can't parse display name"@)),
                        Some(d) => Ok((id, d)),
                    },
                }
            },
            _ => Err(LookupError::Custom("Invalid Twitch response"@)),
        },
    }
}

/// Whether a lookup's result is the one `s` describes.
pub open spec fn same_outcome(r: Result<(String, String), BotError>, s: Result<(Seq<char>, Seq<char>), LookupError>) -> bool {
    match (r, s) {
        (Ok((a, b)), Ok((x, y))) => a@ == x && b@ == y,
        (Err(BotError::Json(m)), Err(LookupError::Json(e))) => m@ == e,
        (Err(BotError::Custom(m)), Err(LookupError::Custom(e))) => m@ == e,
        _ => false,
    }
}

fn text_of(v: &JsonValue, key: &str) -> (r: Option<String>)
    ensures
        crate::kick::opt_text(r) == text_field(*v, key@),
{
    match field_of(v, key) {
        Some(JsonValue::Str(t)) => Some(t.clone()),
        _ => None,
    }
}

/// Reads the user lookup's answer (see `twitch_user_spec`).
pub fn twitch_user_from_body(body: &str) -> (r: Result<(String, String), BotError>)
    ensures
        same_outcome(r, twitch_user_spec(body@)),
{
    let v = match parse_json(body) {
        Ok(v) => v,
        Err(e) => return Err(BotError::Json(e)),
    };
    let items = match field_of(&v, "data") {
        Some(JsonValue::Array(items)) => items,
        _ => return Err(BotError::Custom("Invalid Twitch response".to_owned())),
    };
    if items.len() == 0 {
        return Err(BotError::Custom("Twitch user not found".to_owned()));
    }
    let user = &items[0];
    let id = match text_of(user, "id") {
        Some(x) => x,
        None => return Err(BotError::Custom("Can't parse ID".to_owned())),
    };
    let display = match text_of(user, "display_name") {
        Some(x) => x,
        None => return Err(BotError::Custom("Can't parse display name".to_owned())),
    };
    Ok((id, display))
}

/// The stream lookup of a channel.
pub fn stream_url(login: &str) -> (r: String)
    ensures
        r@ == "https://api.twitch.tv/helix/streams?user_login="@ + login@,
{
    cat2("https://api.twitch.tv/helix/streams?user_login=", login)
}

/// Whether the stream lookup's answer shows the channel live: `data` is a
/// non-empty array.
pub open spec fn live_spec(v: JsonValue) -> bool {
    match json_field(v, "data"@) {
        Some(JsonValue::Array(items)) => items@.len() > 0,
        _ => false,
    }
}

/// Reads the stream lookup's answer (see `live_spec`); a body that is not
/// JSON is a `Json` error.
pub fn live_from_body(body: &str) -> (r: Result<bool, BotError>)
    ensures
        match json_parse(body@) {
            Err(e) => r matches Err(BotError::Json(m)) && m@ == e,
            Ok(v) => r matches Ok(b) && b == live_spec(v),
        },
{
    let v = match parse_json(body) {
        Ok(v) => v,
        Err(e) => return Err(BotError::Json(e)),
    };
    match field_of(&v, "data") {
        Some(JsonValue::Array(items)) => Ok(items.len() > 0),
        _ => Ok(false),
    }
}

/// The form body that asks Twitch for an app token (sent as it is, without
/// encoding).
pub fn app_token_body(client_id: &str, client_secret: &str) -> (r: String)
    ensures
        r@ == "client_id="@ + client_id@ + "&client_secret="@ + client_secret@ + "&grant_type=client_credentials"@,
{
    cat5("client_id=", client_id, "&client_secret=", client_secret, "&grant_type=client_credentials")
}

} // verus!
