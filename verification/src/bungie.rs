//! Bungie accounts: the name search and what its answer means for the bot.

use vstd::prelude::*;
use crate::text::{str_seq_eq, after_first};
use crate::sessions::{before_first, text_before_first};
use crate::text::{split_ws, split_whitespace, trim_start_char, trim_start_matches_char, cat3, strings_view};
use crate::platform::{Platform, id_text, make_id_text};
use crate::chat_event::ChatEvent;
use crate::error::BotError;

verus! {

/// A Destiny account as Bungie lists it.
pub struct MemberShip {
    pub id: String,
    pub type_m: i32,
}

/// A Bungie name the bot has checked, with its account.
pub struct BungieUser {
    pub bungie_name: String,
    pub membership_id: String,
    pub membership_type: i32,
}

/// The display name and code of `Name#1234`, as the search request sends
/// them (split at the first `#`).
pub fn bungie_search_name(bungie_name: &str) -> (r: (String, String))
    requires
        after_first(bungie_name@, '#') is Some,
    ensures
        r.0@ == before_first(bungie_name@, '#'),
        Some(r.1@) == after_first(bungie_name@, '#'),
{
    let code = match crate::text::text_after_first(bungie_name, '#') {
        Some(c) => c,
        None => String::new(),
    };
    (text_before_first(bungie_name, '#'), code)
}

/// The account a search answer gives: the first listed, or none (id empty,
/// type -1) when the list is empty.
pub fn first_membership(users: Vec<MemberShip>) -> (r: MemberShip)
    ensures
        users@.len() == 0 ==> r.id@.len() == 0 && r.type_m == -1,
        users@.len() > 0 ==> r == users@[0],
{
    let mut users = users;
    if users.len() == 0 {
        MemberShip { id: String::new(), type_m: -1 }
    } else {
        users.remove(0)
    }
}

/// The checked user when the search found an account (type not -1).
pub fn is_real_bungiename(bungie_name: &str, info: MemberShip) -> (r: Option<BungieUser>)
    ensures
        info.type_m == -1 ==> r is None,
        info.type_m != -1 ==> (r matches Some(u) && u.bungie_name@ == bungie_name@ && u.membership_id@ == info.id@
            && u.membership_type == info.type_m),
{
    if info.type_m != -1 {
        Some(BungieUser { bungie_name: bungie_name.to_owned(), membership_id: info.id, membership_type: info.type_m })
    } else {
        None
    }
}

/// An app access token for Twitch's API and when it expires (seconds on the
/// caller's clock).
pub struct TwitchAppToken {
    pub access_token: String,
    pub expires_at: u64,
}

impl TwitchAppToken {
    /// The token while it has not expired at `now`.
    pub fn current(&self, now: u64) -> (r: Option<String>)
        ensures
            self.expires_at > now ==> (r matches Some(t) && t@ == self.access_token@),
            self.expires_at <= now ==> r is None,
    {
        if self.expires_at > now {
            Some(self.access_token.clone())
        } else {
            None
        }
    }
}

/// A viewer as the bot stores them: who they are on their platform and the
/// Bungie account they registered.
pub struct User {
    /// `platform:platform_user_id`.
    pub id: String,
    pub platform: Platform,
    pub platform_user_id: String,
    pub login_name: String,
    pub display_name: String,
    pub bungie_name: String,
    pub membership_id: String,
    pub membership_type: i32,
}

/// `!register <bungie#0000>`: the Bungie name the sender gives, the second
/// word of the message.
pub fn register_request(event: &ChatEvent) -> (r: Result<String, BotError>)
    ensures
        match event.user {
            None => r matches Err(BotError::Custom(m)) && m@ == "Missing user"@,
            Some(_) => {
                let w = split_ws(event.message@);
                if w.len() < 2 {
                    r matches Err(BotError::Custom(m)) && m@ == "Usage: !register BungieName#1234"@
                } else {
                    r matches Ok(b) && b@ == w[1]
                }
            },
        },
{
    if event.user.is_none() {
        return Err(BotError::Custom("Missing user".to_owned()));
    }
    let words = split_whitespace(event.message.as_str());
    if words.len() < 2 {
        return Err(BotError::Custom("Usage: !register BungieName#1234".to_owned()));
    }
    assert(strings_view(words@)[1] == words@[1]@);
    Ok(words[1].clone())
}

/// `!mod_register <user> <bungie#0000>`: the user (leading `@`s dropped)
/// and the Bungie name a moderator registers for them. Only Twitch users
/// can be looked up.
pub fn mod_register_request(message: &str, platform: Platform) -> (r: Result<(String, String), BotError>)
    ensures
        ({
            let w = split_ws(message@);
            if w.len() < 3 {
                r matches Err(BotError::Custom(m)) && m@ == "Usage: !mod_register <user> <bungie#0000>"@
            } else if platform != Platform::Twitch {
                r matches Err(BotError::Custom(m)) && m@ == "mod_register not supported on this platform yet"@
            } else {
                r matches Ok((u, b)) && u@ == trim_start_char(w[1], '@') && b@ == w[2]
            }
        }),
{
    let words = split_whitespace(message);
    if words.len() < 3 {
        return Err(BotError::Custom("Usage: !mod_register <user> <bungie#0000>".to_owned()));
    }
    assert(strings_view(words@)[1] == words@[1]@);
    assert(strings_view(words@)[2] == words@[2]@);
    let target = trim_start_matches_char(words[1].as_str(), '@');
    let bungie = words[2].clone();
    if platform != Platform::Twitch {
        return Err(BotError::Custom("mod_register not supported on this platform yet".to_owned()));
    }
    Ok((target, bungie))
}

/// What registering a Bungie name comes to once Bungie has answered with
/// `info`: an unknown name (type -1) is refused and nothing is stored;
/// otherwise the user to store and the confirmation.
pub fn registration(platform: Platform, platform_user_id: &str, login_name: &str, display_name: &str, bungie_name: &str, info: MemberShip) -> (r: (String, Option<User>))
    ensures
        info.type_m == -1 ==> r.0@ == bungie_name@ + " doesn't exist, check if your Bungie name is correct"@ && r.1 is None,
        info.type_m != -1 ==> r.0@ == display_name@ + " has been registered to the database as "@ + bungie_name@
            && (r.1 matches Some(u) && u.id@ == id_text(platform, platform_user_id@) && u.platform == platform
                && u.platform_user_id@ == platform_user_id@ && u.login_name@ == login_name@
                && u.display_name@ == display_name@ && u.bungie_name@ == bungie_name@
                && u.membership_id@ == info.id@ && u.membership_type == info.type_m),
{
    if info.type_m == -1 {
        let mut reply = bungie_name.to_owned();
        reply.append(" doesn't exist, check if your Bungie name is correct");
        return (reply, None);
    }
    let user = User {
        id: make_id_text(platform, platform_user_id),
        platform,
        platform_user_id: platform_user_id.to_owned(),
        login_name: login_name.to_owned(),
        display_name: display_name.to_owned(),
        bungie_name: bungie_name.to_owned(),
        membership_id: info.id,
        membership_type: info.type_m,
    };
    (cat3(display_name, " has been registered to the database as ", bungie_name), Some(user))
}

} // verus!
