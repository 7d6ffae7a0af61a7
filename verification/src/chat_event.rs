//! A chat message as the bot receives it, whatever the platform.

use vstd::prelude::*;
use crate::platform::Platform;
use crate::permissions::{PermissionLevel, twitch_permission, twitch_permission_spec, permission_from_badges, permission_from_badges_spec};
use crate::text::{strings_view, to_ascii_lowercase, ascii_lower_seq, str_seq_eq, u64_to_string, dec};

verus! {

/// One chat message.
pub struct ChatEvent {
    pub platform: Platform,
    pub channel: String,
    pub user: Option<ChatUser>,
    pub message: String,
    /// Whether the sender follows the channel, once it has been checked.
    pub follower: Option<bool>,
    pub broadcaster_id: Option<String>,
}

/// The sender of a message.
pub struct ChatUser {
    pub identity: UserIdentity,
    pub name: DisplayName,
    pub permission: PermissionLevel,
}

/// Who a sender is on their platform.
pub struct UserIdentity {
    pub platform: Platform,
    pub platform_user_id: String,
}

/// How a sender is named.
pub struct DisplayName {
    /// Lowercase login name.
    pub login: String,
    /// Display name as the user styles it.
    pub display: String,
}

/// What a Twitch chat message carries, as the IRC client gives it.
pub struct PrivmsgFields {
    pub channel_login: String,
    pub channel_id: String,
    pub message_text: String,
    pub sender_id: String,
    pub sender_login: String,
    pub sender_name: String,
    pub badge_names: Vec<String>,
}

/// A Twitch chat message as the bot handles it: the sender's level from
/// their badges, the follower check not done yet.
pub fn map_privmsg(msg: &PrivmsgFields) -> (r: ChatEvent)
    ensures
        r.platform == Platform::Twitch,
        r.channel@ == msg.channel_login@,
        r.message@ == msg.message_text@,
        r.broadcaster_id matches Some(b) && b@ == msg.channel_id@,
        r.follower is None,
        r.user matches Some(u) && u.identity.platform == Platform::Twitch && u.identity.platform_user_id@ == msg.sender_id@
            && u.name.login@ == msg.sender_login@ && u.name.display@ == msg.sender_name@
            && u.permission == twitch_permission_spec(strings_view(msg.badge_names@)),
{
    let permission = twitch_permission(&msg.badge_names);
    ChatEvent {
        platform: Platform::Twitch,
        channel: msg.channel_login.clone(),
        message: msg.message_text.clone(),
        broadcaster_id: Some(msg.channel_id.clone()),
        user: Some(ChatUser {
            identity: UserIdentity { platform: Platform::Twitch, platform_user_id: msg.sender_id.clone() },
            name: DisplayName { login: msg.sender_login.clone(), display: msg.sender_name.clone() },
            permission,
        }),
        follower: None,
    }
}

/// What a Kick chat message carries, as the Kick client gives it.
pub struct KickMessageFields {
    pub sender_id: u64,
    pub sender_username: String,
    pub sender_display_name: Option<String>,
    pub chatroom_name: String,
    pub chatroom_channel_id: u64,
    pub content: String,
}

/// A Kick chat message as the bot handles it. The sender's level is read
/// from the raw event (`raw_json`, see `raw_permission`); without one the
/// sender counts as a follower. A chatroom without a name is named by its
/// channel id.
pub fn map_kick_msg(msg: &KickMessageFields, raw_json: Option<&str>) -> (r: ChatEvent)
    ensures
        r.platform == Platform::Kick,
        r.channel@ == (if msg.chatroom_name@.len() == 0 { dec(msg.chatroom_channel_id as nat) } else { msg.chatroom_name@ }),
        r.message@ == msg.content@,
        r.broadcaster_id matches Some(b) && b@ == dec(msg.chatroom_channel_id as nat),
        r.follower is None,
        r.user matches Some(u) && u.identity.platform == Platform::Kick && u.identity.platform_user_id@ == dec(msg.sender_id as nat)
            && u.name.login@ == msg.sender_username@
            && u.name.display@ == (match msg.sender_display_name { Some(d) => d@, None => msg.sender_username@ })
            && u.permission == (match raw_json {
                Some(raw) => match raw_permission(raw@) {
                    Some(p) => p,
                    None => PermissionLevel::Follower,
                },
                None => PermissionLevel::Follower,
            }),
{
    let permission = match raw_json {
        Some(raw) => match permission_from_raw(raw) {
            Some(p) => p,
            None => PermissionLevel::Follower,
        },
        None => PermissionLevel::Follower,
    };
    let display = match &msg.sender_display_name {
        Some(d) => d.clone(),
        None => msg.sender_username.clone(),
    };
    let channel = if msg.chatroom_name.as_str().unicode_len() == 0 {
        u64_to_string(msg.chatroom_channel_id)
    } else {
        msg.chatroom_name.clone()
    };
    ChatEvent {
        platform: Platform::Kick,
        channel,
        message: msg.content.clone(),
        broadcaster_id: Some(u64_to_string(msg.chatroom_channel_id)),
        user: Some(ChatUser {
            identity: UserIdentity { platform: Platform::Kick, platform_user_id: u64_to_string(msg.sender_id) },
            name: DisplayName { login: msg.sender_username.clone(), display },
            permission,
        }),
        follower: None,
    }
}

/// A JSON value, as far as the badge lookup reads it.
pub enum JsonValue {
    Null,
    Bool(bool),
    /// A number: its value when it is a whole number from 0 to `u64::MAX`
    /// (what `as_u64` reads), else `None`.
    Number(Option<u64>),
    Str(String),
    Array(Vec<JsonValue>),
    Object(Vec<(String, JsonValue)>),
}

/// `serde_json::Value`, as the parser hands it over.
#[verifier::external_type_specification]
#[verifier::external_body]
pub struct ExSerdeJsonValue(serde_json::Value);

/// What `serde_json::from_str::<serde_json::Value>` reads from a text, as a
/// `JsonValue`, or the text of its error.
pub uninterp spec fn json_parse(s: Seq<char>) -> Result<JsonValue, Seq<char>>;

/// `serde_json::from_str::<serde_json::Value>`, the value converted variant
/// by variant to a `JsonValue` (a number keeps its `as_u64`) and an error to
/// its message. Trusted: the outcome depends on the text alone; what it is
/// for a given text is serde_json's, named `json_parse`.
#[verifier::external_body]
pub(crate) fn parse_json(s: &str) -> (r: Result<JsonValue, String>)
    ensures
        match r {
            Ok(v) => json_parse(s@) == Ok::<JsonValue, Seq<char>>(v),
            Err(e) => json_parse(s@) == Err::<JsonValue, Seq<char>>(e@),
        },
{
    match serde_json::from_str::<serde_json::Value>(s) {
        Ok(v) => Ok(json_from_serde(&v)),
        Err(e) => Err(e.to_string()),
    }
}

/// The conversion `parse_json` applies to the parsed value: each variant to
/// its namesake, nested values in turn.
#[verifier::external_body]
fn json_from_serde(v: &serde_json::Value) -> JsonValue {
    match v {
        serde_json::Value::Null => JsonValue::Null,
        serde_json::Value::Bool(b) => JsonValue::Bool(*b),
        serde_json::Value::Number(n) => JsonValue::Number(n.as_u64()),
        serde_json::Value::String(t) => JsonValue::Str(t.clone()),
        serde_json::Value::Array(a) => JsonValue::Array(a.iter().map(json_from_serde).collect()),
        serde_json::Value::Object(o) => JsonValue::Object(o.iter().map(|(k, x)| (k.clone(), json_from_serde(x))).collect()),
    }
}

/// The field `key` of an object (its first entry with that key).
pub open spec fn json_field(v: JsonValue, key: Seq<char>) -> Option<JsonValue> {
    match v {
        JsonValue::Object(fields) => field_in(fields@, key),
        _ => None,
    }
}

pub open spec fn field_in(fields: Seq<(String, JsonValue)>, key: Seq<char>) -> Option<JsonValue>
    decreases fields.len(),
{
    if fields.len() == 0 {
        None
    } else if fields[0].0@ == key {
        Some(fields[0].1)
    } else {
        field_in(fields.skip(1), key)
    }
}

/// The value at a path of keys.
pub open spec fn json_path(v: JsonValue, path: Seq<Seq<char>>) -> Option<JsonValue>
    decreases path.len(),
{
    if path.len() == 0 {
        Some(v)
    } else {
        match json_field(v, path[0]) {
            Some(x) => json_path(x, path.skip(1)),
            None => None,
        }
    }
}

/// The text of a badge item: a string, or the first of the string fields
/// `type`, `name`, `badge` of an object.
pub open spec fn badge_text(item: JsonValue) -> Option<Seq<char>> {
    match item {
        JsonValue::Str(s) => Some(s@),
        JsonValue::Object(_) => match json_field(item, "type"@) {
            Some(JsonValue::Str(s)) => Some(s@),
            _ => match json_field(item, "name"@) {
                Some(JsonValue::Str(s)) => Some(s@),
                _ => match json_field(item, "badge"@) {
                    Some(JsonValue::Str(s)) => Some(s@),
                    _ => None,
                },
            },
        },
        _ => None,
    }
}

/// The lowercased texts of the badge items, in order.
pub open spec fn badge_texts(items: Seq<JsonValue>) -> Seq<Seq<char>>
    decreases items.len(),
{
    if items.len() == 0 {
        seq![]
    } else {
        let rest = badge_texts(items.drop_last());
        match badge_text(items.last()) {
            Some(t) => rest.push(ascii_lower_seq(t)),
            None => rest,
        }
    }
}

/// The badges at one path: the texts of the array there, if any.
pub open spec fn badges_at(root: JsonValue, path: Seq<Seq<char>>) -> Seq<Seq<char>> {
    match json_path(root, path) {
        Some(JsonValue::Array(items)) => badge_texts(items@),
        _ => seq![],
    }
}

/// The badge types of a Kick chat event: from the first of
/// `data.sender.identity.badges`, `data.sender.badges`, `data.sender.roles`
/// that yields any.
pub open spec fn badge_types(root: JsonValue) -> Seq<Seq<char>> {
    let a = badges_at(root, seq!["data"@, "sender"@, "identity"@, "badges"@]);
    let b = badges_at(root, seq!["data"@, "sender"@, "badges"@]);
    let c = badges_at(root, seq!["data"@, "sender"@, "roles"@]);
    if a.len() > 0 { a } else if b.len() > 0 { b } else { c }
}

/// The field `key` of an object value.
pub(crate) fn field_of<'a>(v: &'a JsonValue, key: &str) -> (r: Option<&'a JsonValue>)
    ensures
        match r {
            Some(x) => json_field(*v, key@) == Some(*x),
            None => json_field(*v, key@) is None,
        },
{
    match v {
        JsonValue::Object(fields) => {
            let mut i: usize = 0;
            assert(fields@.skip(0) =~= fields@);
            while i < fields.len()
                invariant
                    i <= fields@.len(),
                    json_field(*v, key@) == field_in(fields@, key@),
                    field_in(fields@, key@) == field_in(fields@.skip(i as int), key@),
                decreases fields@.len() - i,
            {
                assert(fields@.skip(i as int)[0] == fields@[i as int]);
                assert(fields@.skip(i as int).skip(1) =~= fields@.skip(i + 1));
                if str_seq_eq(fields[i].0.as_str(), key) {
                    assert(field_in(fields@.skip(i as int), key@) == Some(fields@[i as int].1));
                    return Some(&fields[i].1);
                }
                i = i + 1;
            }
            None
        },
        _ => None,
    }
}

/// The value at a path of keys.
pub(crate) fn json_value_at<'a>(v: &'a JsonValue, path: &Vec<&str>) -> (r: Option<&'a JsonValue>)
    ensures
        ({
            let p = path@.map_values(|k: &str| k@);
            match r {
                Some(x) => json_path(*v, p) == Some(*x),
                None => json_path(*v, p) is None,
            }
        }),
{
    let ghost p = path@.map_values(|k: &str| k@);
    let mut cur = v;
    let mut i: usize = 0;
    assert(p.skip(0) =~= p);
    while i < path.len()
        invariant
            p == path@.map_values(|k: &str| k@),
            i <= path@.len(),
            json_path(*v, p) == json_path(*cur, p.skip(i as int)),
        decreases path@.len() - i,
    {
        assert(p.skip(i as int)[0] == path@[i as int]@);
        assert(p.skip(i as int).skip(1) =~= p.skip(i + 1));
        match field_of(cur, path[i]) {
            Some(x) => {
                cur = x;
            },
            None => return None,
        }
        i = i + 1;
    }
    assert(p.skip(p.len() as int) =~= Seq::<Seq<char>>::empty());
    Some(cur)
}

/// The lowercased badge texts of an array value's items.
fn texts_of(items: &Vec<JsonValue>) -> (r: Vec<String>)
    ensures
        strings_view(r@) == badge_texts(items@),
{
    let mut out: Vec<String> = Vec::new();
    let mut i: usize = 0;
    while i < items.len()
        invariant
            i <= items@.len(),
            strings_view(out@) == badge_texts(items@.take(i as int)),
        decreases items@.len() - i,
    {
        let ghost prev = strings_view(out@);
        assert(items@.take(i + 1).drop_last() =~= items@.take(i as int));
        assert(items@.take(i + 1).last() == items@[i as int]);
        let item = &items[i];
        let text: Option<&String> = match item {
            JsonValue::Str(s) => Some(s),
            JsonValue::Object(_) => match field_of(item, "type") {
                Some(JsonValue::Str(s)) => Some(s),
                _ => match field_of(item, "name") {
                    Some(JsonValue::Str(s)) => Some(s),
                    _ => match field_of(item, "badge") {
                        Some(JsonValue::Str(s)) => Some(s),
                        _ => None,
                    },
                },
            },
            _ => None,
        };
        match text {
            Some(t) => {
                let l = to_ascii_lowercase(t.as_str());
                out.push(l);
                assert(strings_view(out@) =~= prev.push(l@));
            },
            None => {},
        }
        i = i + 1;
    }
    assert(items@.take(items@.len() as int) =~= items@);
    out
}

fn badges_at_path(root: &JsonValue, path: &Vec<&str>) -> (r: Vec<String>)
    ensures
        strings_view(r@) == badges_at(*root, path@.map_values(|k: &str| k@)),
{
    match json_value_at(root, path) {
        Some(JsonValue::Array(items)) => texts_of(items),
        _ => {
            let r: Vec<String> = Vec::new();
            assert(strings_view(r@) =~= Seq::<Seq<char>>::empty());
            r
        },
    }
}

/// The badge types of a Kick chat event (see `badge_types`).
pub fn extract_badge_types(root: &JsonValue) -> (r: Vec<String>)
    ensures
        strings_view(r@) == badge_types(*root),
{
    let a_path: Vec<&str> = vec!["data", "sender", "identity", "badges"];
    let b_path: Vec<&str> = vec!["data", "sender", "badges"];
    let c_path: Vec<&str> = vec!["data", "sender", "roles"];
    proof {
        reveal_strlit("data");
        reveal_strlit("sender");
        reveal_strlit("identity");
        reveal_strlit("badges");
        reveal_strlit("roles");
        assert(a_path@.map_values(|k: &str| k@) =~= seq!["data"@, "sender"@, "identity"@, "badges"@]);
        assert(b_path@.map_values(|k: &str| k@) =~= seq!["data"@, "sender"@, "badges"@]);
        assert(c_path@.map_values(|k: &str| k@) =~= seq!["data"@, "sender"@, "roles"@]);
    }
    let a = badges_at_path(root, &a_path);
    if a.len() > 0 {
        return a;
    }
    let b = badges_at_path(root, &b_path);
    if b.len() > 0 {
        return b;
    }
    badges_at_path(root, &c_path)
}

/// The sender's level from a Kick chat event: `None` without badges.
pub fn extract_permission(root: &JsonValue) -> (r: Option<PermissionLevel>)
    ensures
        r == (if badge_types(*root).len() == 0 { None } else { Some(permission_from_badges_spec(badge_types(*root))) }),
{
    let badges = extract_badge_types(root);
    if badges.len() == 0 {
        None
    } else {
        Some(permission_from_badges(&badges))
    }
}


/// The badges of an event's `data` value: from the first of
/// `sender.identity.badges`, `sender.badges`, `sender.roles` that yields any.
pub open spec fn data_badges(d: Option<JsonValue>) -> Seq<Seq<char>> {
    match d {
        None => seq![],
        Some(x) => {
            let a = badges_at(x, seq!["sender"@, "identity"@, "badges"@]);
            let b = badges_at(x, seq!["sender"@, "badges"@]);
            let c = badges_at(x, seq!["sender"@, "roles"@]);
            if a.len() > 0 { a } else if b.len() > 0 { b } else { c }
        },
    }
}

/// The value at `key` followed by the path `rest`.
proof fn lemma_path_step(v: JsonValue, key: Seq<char>, rest: Seq<Seq<char>>)
    ensures
        json_path(v, seq![key] + rest) == (match json_field(v, key) {
            Some(x) => json_path(x, rest),
            None => None,
        }),
{
    let p = seq![key] + rest;
    assert(p[0] == key);
    assert(p.skip(1) =~= rest);
}

/// The badge types of an event are those of its `data` value.
proof fn lemma_badge_types_data(x: JsonValue)
    ensures
        badge_types(x) == data_badges(json_field(x, "data"@)),
{
    lemma_path_step(x, "data"@, seq!["sender"@, "identity"@, "badges"@]);
    lemma_path_step(x, "data"@, seq!["sender"@, "badges"@]);
    lemma_path_step(x, "data"@, seq!["sender"@, "roles"@]);
    assert(seq!["data"@] + seq!["sender"@, "identity"@, "badges"@] =~= seq!["data"@, "sender"@, "identity"@, "badges"@]);
    assert(seq!["data"@] + seq!["sender"@, "badges"@] =~= seq!["data"@, "sender"@, "badges"@]);
    assert(seq!["data"@] + seq!["sender"@, "roles"@] =~= seq!["data"@, "sender"@, "roles"@]);
}

/// The `data` field of an event once decoded: a string that parses as JSON
/// stands for the parsed value; anything else is kept.
pub open spec fn decoded_data(root: JsonValue) -> Option<JsonValue> {
    match json_field(root, "data"@) {
        Some(JsonValue::Str(t)) => match json_parse(t@) {
            Ok(p) => Some(p),
            Err(_) => Some(JsonValue::Str(t)),
        },
        other => other,
    }
}

/// Replacing the value of the first entry of a key changes what that key
/// reads and nothing else.
proof fn lemma_field_in_update(f: Seq<(String, JsonValue)>, i: int, v: JsonValue, k: Seq<char>)
    requires
        0 <= i < f.len(),
        forall|j: int| 0 <= j < i ==> #[trigger] f[j].0@ != f[i].0@,
    ensures
        field_in(f.update(i, (f[i].0, v)), k) == (if k == f[i].0@ { Some(v) } else { field_in(f, k) }),
    decreases i,
{
    let u = f.update(i, (f[i].0, v));
    if i == 0 {
        assert(u.skip(1) =~= f.skip(1));
    } else {
        assert(u[0] == f[0]);
        assert(f[0].0@ != f[i].0@);
        let g = f.skip(1);
        assert(g[i - 1] == f[i]);
        assert forall|j: int| 0 <= j < i - 1 implies #[trigger] g[j].0@ != g[i - 1].0@ by {
            assert(g[j] == f[j + 1]);
        }
        assert(u.skip(1) =~= g.update(i - 1, (g[i - 1].0, v)));
        lemma_field_in_update(g, i - 1, v, k);
    }
}

/// A Kick event whose `data` field holds its JSON as a string gets the
/// parsed value in its place; every other field is kept.
pub fn decode_embedded_data(root: JsonValue) -> (r: JsonValue)
    ensures
        json_field(r, "data"@) == decoded_data(root),
        forall|k: Seq<char>| k != "data"@ ==> #[trigger] json_field(r, k) == json_field(root, k),
{
    let ghost r0 = root;
    match root {
        JsonValue::Object(mut fields) => {
            let ghost f = fields@;
            let mut i: usize = 0;
            assert(f.skip(0) =~= f);
            while i < fields.len() && !str_seq_eq(fields[i].0.as_str(), "data")
                invariant
                    fields@ == f,
                    r0 == JsonValue::Object(fields),
                    i <= f.len(),
                    forall|j: int| 0 <= j < i ==> #[trigger] f[j].0@ != "data"@,
                    field_in(f, "data"@) == field_in(f.skip(i as int), "data"@),
                decreases f.len() - i,
            {
                assert(f.skip(i as int).skip(1) =~= f.skip(i + 1));
                i = i + 1;
            }
            if i == fields.len() {
                assert(f.skip(i as int).len() == 0);
                return JsonValue::Object(fields);
            }
            assert(f.skip(i as int)[0] == f[i as int]);
            let parsed = match &fields[i].1 {
                JsonValue::Str(t) => match parse_json(t.as_str()) {
                    Ok(p) => Some(p),
                    Err(_) => None,
                },
                _ => None,
            };
            match parsed {
                Some(p) => {
                    let key = fields[i].0.clone();
                    proof {
                        assert forall|k: Seq<char>| #![trigger field_in(f.update(i as int, (f[i as int].0, p)), k)]
                            true implies field_in(f.update(i as int, (f[i as int].0, p)), k)
                                == (if k == f[i as int].0@ { Some(p) } else { field_in(f, k) }) by {
                            lemma_field_in_update(f, i as int, p, k);
                        }
                    }
                    fields.set(i, (key, p));
                    assert(fields@ =~= f.update(i as int, (f[i as int].0, p)));
                    JsonValue::Object(fields)
                },
                None => JsonValue::Object(fields),
            }
        },
        other => other,
    }
}

/// The sender's level that a raw Kick event gives: `None` when the text is
/// not JSON or its decoded `data` carries no badges.
pub open spec fn raw_permission(raw: Seq<char>) -> Option<PermissionLevel> {
    match json_parse(raw) {
        Err(_) => None,
        Ok(root) => {
            let b = data_badges(decoded_data(root));
            if b.len() == 0 { None } else { Some(permission_from_badges_spec(b)) }
        },
    }
}

/// The sender's level from a raw Kick event (see `raw_permission`).
pub fn permission_from_raw(raw_json: &str) -> (r: Option<PermissionLevel>)
    ensures
        r == raw_permission(raw_json@),
{
    let root = match parse_json(raw_json) {
        Ok(v) => v,
        Err(_) => return None,
    };
    let decoded = decode_embedded_data(root);
    proof {
        lemma_badge_types_data(decoded);
    }
    extract_permission(&decoded)
}

/// The text at a path, when a string stands there.
pub open spec fn str_at(v: JsonValue, path: Seq<Seq<char>>) -> Option<Seq<char>> {
    match json_path(v, path) {
        Some(JsonValue::Str(t)) => Some(t@),
        _ => None,
    }
}

fn text_at(v: &JsonValue, path: &Vec<&str>) -> (r: Option<String>)
    ensures
        crate::kick::opt_text(r) == str_at(*v, path@.map_values(|k: &str| k@)),
{
    match json_value_at(v, path) {
        Some(JsonValue::Str(t)) => Some(t.clone()),
        _ => None,
    }
}

/// The id of the chat message a raw Kick event carries: `data.id`; or, when
/// `data` is JSON text, the `id` or `message.id` inside it; else
/// `data.message.id`.
pub open spec fn chat_message_id(raw: Seq<char>) -> Option<Seq<char>> {
    match json_parse(raw) {
        Err(_) => None,
        Ok(root) => match json_field(root, "data"@) {
            None => None,
            Some(data) => if str_at(data, seq!["id"@]) is Some {
                str_at(data, seq!["id"@])
            } else {
                match data {
                    JsonValue::Str(t) => match json_parse(t@) {
                        Err(_) => None,
                        Ok(inner) => if str_at(inner, seq!["id"@]) is Some {
                            str_at(inner, seq!["id"@])
                        } else {
                            str_at(inner, seq!["message"@, "id"@])
                        },
                    },
                    _ => str_at(data, seq!["message"@, "id"@]),
                }
            },
        },
    }
}

/// The chat message id of a raw Kick event (see `chat_message_id`).
pub fn extract_chat_message_id(raw_json: &str) -> (r: Option<String>)
    ensures
        crate::kick::opt_text(r) == chat_message_id(raw_json@),
{
    let value = match parse_json(raw_json) {
        Ok(v) => v,
        Err(_) => return None,
    };
    let data = match field_of(&value, "data") {
        Some(d) => d,
        None => return None,
    };
    let id_path: Vec<&str> = vec!["id"];
    let msg_path: Vec<&str> = vec!["message", "id"];
    proof {
        assert(id_path@.map_values(|k: &str| k@) =~= seq!["id"@]);
        assert(msg_path@.map_values(|k: &str| k@) =~= seq!["message"@, "id"@]);
    }
    match text_at(data, &id_path) {
        Some(id) => return Some(id),
        None => {},
    }
    match data {
        JsonValue::Str(t) => {
            let inner = match parse_json(t.as_str()) {
                Ok(v) => v,
                Err(_) => return None,
            };
            match text_at(&inner, &id_path) {
                Some(id) => return Some(id),
                None => {},
            }
            text_at(&inner, &msg_path)
        },
        _ => text_at(data, &msg_path),
    }
}

} // verus!
