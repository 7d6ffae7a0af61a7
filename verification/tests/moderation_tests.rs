use krapbott::bungie::{mod_register_request, register_request, registration, MemberShip};
use krapbott::chat_event::{decode_embedded_data, extract_chat_message_id, permission_from_raw, ChatEvent, ChatUser, DisplayName, JsonValue, UserIdentity};
use krapbott::config::BotConfig;
use krapbott::connection::{after_failure, ban_reply, channels_on, is_first_message, is_forwarded, should_ban, wants_points};
use krapbott::error::BotError;
use krapbott::permissions::PermissionLevel;
use krapbott::platform::{ChannelId, Platform};
use krapbott::spam::{is_bannable_link, normalize_text};
use krapbott::web::new_login_session;

fn event(message: &str, with_user: bool) -> ChatEvent {
    ChatEvent {
        platform: Platform::Twitch,
        channel: "chan".to_string(),
        user: if with_user {
            Some(ChatUser {
                identity: UserIdentity { platform: Platform::Twitch, platform_user_id: "7".to_string() },
                name: DisplayName { login: "dana".to_string(), display: "Dana".to_string() },
                permission: PermissionLevel::Everyone,
            })
        } else {
            None
        },
        message: message.to_string(),
        follower: None,
        broadcaster_id: None,
    }
}

#[test]
fn diacritics_are_dropped() {
    assert_eq!(normalize_text("Čheap VIEWÉRS"), "cheap viewers");
    assert_eq!(normalize_text("ñandú"), "nandu");
}

#[test]
fn spam_messages() {
    assert!(is_bannable_link("Cheap viewers on example"));
    assert!(is_bannable_link("Chéap   vìewers on"));
    assert!(is_bannable_link("Best viewers on streamboo.com"));
    assert!(!is_bannable_link("best viewers on streamboo"));
    assert!(is_bannable_link("Hey friend, you stream great"));
    assert!(!is_bannable_link("hello everyone, nice stream"));
}

#[test]
fn ban_decision() {
    assert!(should_ban("cheap viewers on x.com", true));
    assert!(!should_ban("cheap viewers on x.com", false));
    assert!(!should_ban("hi", true));
    assert_eq!(ban_reply(), "Kr4pTr4p is the last bot this channel needed.");
}

#[test]
fn shared_chat_and_first_messages() {
    assert!(is_forwarded(Some("1"), Some("2")));
    assert!(!is_forwarded(Some("1"), Some("1")));
    assert!(!is_forwarded(Some("1"), None));
    assert!(is_first_message(Some(Some("1"))));
    assert!(!is_first_message(Some(Some("0"))));
    assert!(!is_first_message(Some(None)));
    assert!(!is_first_message(None));
}

#[test]
fn reconnect_backoff() {
    assert_eq!(after_failure(0), (1, 2000, false));
    assert_eq!(after_failure(4), (5, 32000, false));
    assert_eq!(after_failure(5), (6, 64000, false));
    assert_eq!(after_failure(20), (21, 64000, false));
    assert_eq!(after_failure(24), (25, 64000, true));
}

#[test]
fn points_package() {
    assert!(wants_points(&vec!["queue".to_string(), "Points".to_string()]));
    assert!(!wants_points(&vec!["queue".to_string(), "pointsx".to_string()]));
}

#[test]
fn channels_to_join() {
    let mut cfg = BotConfig::new();
    cfg.get_channel_config_mut(ChannelId::new(Platform::Kick, "k1"));
    cfg.get_channel_config_mut(ChannelId::new(Platform::Twitch, "t2"));
    assert_eq!(channels_on(&cfg, Platform::Twitch), vec!["krapmatt".to_string(), "t2".to_string()]);
    assert_eq!(channels_on(&cfg, Platform::Kick), vec!["k1".to_string()]);
    assert!(channels_on(&cfg, Platform::Obs).is_empty());
}

#[test]
fn register_requests() {
    assert_eq!(register_request(&event("!register Guy#1234 extra", true)).ok(), Some("Guy#1234".to_string()));
    match register_request(&event("!register", true)) {
        Err(BotError::Custom(m)) => assert_eq!(m, "Usage: !register BungieName#1234"),
        _ => panic!("expected the usage"),
    }
    match register_request(&event("!register Guy#1234", false)) {
        Err(BotError::Custom(m)) => assert_eq!(m, "Missing user"),
        _ => panic!("expected the missing user"),
    }
    assert_eq!(
        mod_register_request("!mod_register @@bob Guy#1234", Platform::Twitch).ok(),
        Some(("bob".to_string(), "Guy#1234".to_string()))
    );
    match mod_register_request("!mod_register bob Guy#1234", Platform::Kick) {
        Err(BotError::Custom(m)) => assert_eq!(m, "mod_register not supported on this platform yet"),
        _ => panic!("expected the platform error"),
    }
    match mod_register_request("!mod_register bob", Platform::Twitch) {
        Err(BotError::Custom(m)) => assert_eq!(m, "Usage: !mod_register <user> <bungie#0000>"),
        _ => panic!("expected the usage"),
    }
}

#[test]
fn registration_outcomes() {
    let (reply, user) = registration(Platform::Twitch, "7", "dana", "Dana", "Nope#0000", MemberShip { id: String::new(), type_m: -1 });
    assert_eq!(reply, "Nope#0000 doesn't exist, check if your Bungie name is correct");
    assert!(user.is_none());
    let (reply, user) = registration(Platform::Kick, "7", "dana", "Dana", "Guy#1234", MemberShip { id: "44".to_string(), type_m: 3 });
    assert_eq!(reply, "Dana has been registered to the database as Guy#1234");
    let u = user.expect("a user to store");
    assert_eq!(u.id, "kick:7");
    assert_eq!(u.membership_id, "44");
    assert_eq!(u.membership_type, 3);
    assert_eq!(u.login_name, "dana");
}

#[test]
fn chat_message_ids() {
    assert_eq!(extract_chat_message_id(r#"{"data":{"id":"a1"}}"#), Some("a1".to_string()));
    assert_eq!(extract_chat_message_id(r#"{"data":"{\"id\":\"b2\"}"}"#), Some("b2".to_string()));
    assert_eq!(extract_chat_message_id(r#"{"data":"{\"message\":{\"id\":\"c3\"}}"}"#), Some("c3".to_string()));
    assert_eq!(extract_chat_message_id(r#"{"data":{"message":{"id":"d4"}}}"#), Some("d4".to_string()));
    assert_eq!(extract_chat_message_id(r#"{"data":"not json"}"#), None);
    assert_eq!(extract_chat_message_id(r#"{"data":{"id":5}}"#), None);
    assert_eq!(extract_chat_message_id("{"), None);
}

#[test]
fn embedded_event_data() {
    let root = JsonValue::Object(vec![
        ("data".to_string(), JsonValue::Str("{\"sender\":{\"roles\":[\"Moderator\"]}}".to_string())),
        ("event".to_string(), JsonValue::Str("x".to_string())),
    ]);
    match decode_embedded_data(root) {
        JsonValue::Object(fields) => {
            assert_eq!(fields.len(), 2);
            assert!(matches!(&fields[0].1, JsonValue::Object(_)));
            assert!(matches!(&fields[1].1, JsonValue::Str(t) if t == "x"));
        }
        _ => panic!("an object stays an object"),
    }
    assert_eq!(permission_from_raw(r#"{"data":"{\"sender\":{\"roles\":[\"Moderator\"]}}"}"#), Some(PermissionLevel::Moderator));
    assert_eq!(permission_from_raw(r#"{"data":{"sender":{"badges":[]}}}"#), None);
    assert_eq!(permission_from_raw("[]"), None);
}

#[test]
fn login_sessions() {
    let (id, platform_cookie, active_cookie) = new_login_session(Platform::Kick);
    assert_eq!(id.len(), 36);
    assert_eq!(platform_cookie, format!("session_kick={}; Path=/; HttpOnly; SameSite=None; Secure", id));
    assert_eq!(active_cookie, format!("session_id={}; Path=/; HttpOnly; SameSite=None; Secure", id));
    let (other, _, _) = new_login_session(Platform::Kick);
    assert_ne!(id, other);
}
