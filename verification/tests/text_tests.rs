use krapbott::bungie::{bungie_search_name, first_membership, is_real_bungiename, MemberShip, TwitchAppToken};
use krapbott::error::BotError;
use krapbott::legacy::{usage_with_aliases, generate_variables, mod_action_reply, mod_action_request, normalize_twitch_name, parse_template, ModAction, ModRequest};
use krapbott::pattern::{format_bungie_captures, is_valid_bungie_name};
use krapbott::permissions::{permission_from_badges, permission_step, twitch_permission, PermissionLevel, PermissionStep};
use krapbott::platform::{parse_channel_id, try_parse_channel_id, ChannelId, Platform, UserId};
use krapbott::replies::Replies;
use krapbott::sessions::{get_cookie, session_candidates, session_cookie_header, text_before_first};
use krapbott::text::{
    eq_ignore_ascii_case, i64_to_string, join, parse_i32, parse_i64, parse_u32, parse_usize, replace_str,
    split_ascii_whitespace, split_whitespace, starts_with, text_after_first, to_ascii_lowercase, trim, trim_start_matches_char,
    u128_to_string,
};

fn strings(v: &[&str]) -> Vec<String> {
    v.iter().map(|s| s.to_string()).collect()
}

#[test]
fn splitting_on_whitespace() {
    assert_eq!(split_whitespace("  !join   Name#1234 \t x "), strings(&["!join", "Name#1234", "x"]));
    assert_eq!(split_whitespace("   "), Vec::<String>::new());
    assert_eq!(split_ascii_whitespace("a  b\nc"), strings(&["a", "b", "c"]));
}

#[test]
fn trimming_and_prefixes() {
    assert_eq!(trim("  hi there \n"), "hi there");
    assert_eq!(trim_start_matches_char("@@name", '@'), "name");
    assert_eq!(normalize_twitch_name("@@name"), "@name");
    assert!(starts_with("!join x", "!"));
    assert!(!starts_with("join", "!"));
}

#[test]
fn ascii_case() {
    assert_eq!(to_ascii_lowercase("KrapMatt É"), "krapmatt É");
    assert!(eq_ignore_ascii_case("Queue", "qUEUE"));
    assert!(!eq_ignore_ascii_case("queue", "queues"));
}

#[test]
fn number_text() {
    assert_eq!(u128_to_string(0), "0");
    assert_eq!(u128_to_string(12345), "12345");
    assert_eq!(i64_to_string(-42), "-42");
    assert_eq!(i64_to_string(i64::MIN), "-9223372036854775808");
}

#[test]
fn number_parsing() {
    assert_eq!(parse_usize("12"), Some(12));
    assert_eq!(parse_usize("+12"), Some(12));
    assert_eq!(parse_usize("-1"), None);
    assert_eq!(parse_usize(""), None);
    assert_eq!(parse_usize("1x"), None);
    assert_eq!(parse_i32("-7"), Some(-7));
    assert_eq!(parse_i32("2147483647"), Some(i32::MAX));
    assert_eq!(parse_i32("2147483648"), None);
    assert_eq!(parse_i32("-2147483648"), Some(i32::MIN));
    assert_eq!(parse_u32("4294967295"), Some(u32::MAX));
    assert_eq!(parse_u32("4294967296"), None);
    assert_eq!(parse_i64("-"), None);
    assert_eq!(parse_i64("-9223372036854775808"), Some(i64::MIN));
}

#[test]
fn joining_and_replacing() {
    assert_eq!(join(&strings(&["a", "b", "c"]), ", "), "a, b, c");
    assert_eq!(join(&Vec::new(), ", "), "");
    assert_eq!(replace_str("aXbXc", "X", "--"), "a--b--c");
    assert_eq!(replace_str("aaa", "aa", "b"), "ba");
}

#[test]
fn text_around_a_char() {
    assert_eq!(text_after_first("a=b=c", '='), Some("b=c".to_string()));
    assert_eq!(text_after_first("abc", '='), None);
    assert_eq!(text_before_first("a=b=c", '='), "a");
    assert_eq!(text_before_first("abc", '='), "abc");
}

#[test]
fn platform_names() {
    assert_eq!(Platform::Twitch.as_str(), "twitch");
    assert_eq!(Platform::Kick.to_display_string(), "kick");
    assert!(matches!(Platform::from_str("obs"), Ok(Platform::Obs)));
    assert!(Platform::from_str("Twitch").is_err());
}

#[test]
fn channel_ids_round_trip() {
    let id = ChannelId::new(Platform::Kick, "chan");
    assert_eq!(id.as_str(), "kick:chan");
    match ChannelId::from_str(id.as_str()) {
        Ok(back) => assert!(back.same(&id)),
        Err(_) => panic!("expected an id"),
    }
    assert!(ChannelId::from_str("nope").is_err());
    assert!(ChannelId::from_str("irc:chan").is_err());
    let u = UserId::new(Platform::Twitch, "42");
    assert_eq!(u.as_str(), "twitch:42");
    match UserId::from_str("twitch:42") {
        Ok(back) => assert!(back.same(&u)),
        Err(_) => panic!("expected an id"),
    }
}

#[test]
fn channel_arguments() {
    match parse_channel_id("@@kick:SomeOne", Platform::Twitch) {
        Ok(id) => assert_eq!(id.as_str(), "kick:someone"),
        Err(_) => panic!("expected an id"),
    }
    match parse_channel_id("@SomeOne", Platform::Twitch) {
        Ok(id) => assert_eq!(id.as_str(), "twitch:someone"),
        Err(_) => panic!("expected an id"),
    }
    match parse_channel_id("irc:x", Platform::Twitch) {
        Err(BotError::Custom(m)) => assert_eq!(m, "Invalid platform"),
        _ => panic!("expected the platform error"),
    }
    assert!(try_parse_channel_id("@", Platform::Twitch).is_none());
    assert!(try_parse_channel_id("twitch:", Platform::Twitch).is_none());
    assert!(matches!(try_parse_channel_id("x", Platform::Kick), Some(Ok(_))));
}

#[test]
fn unicode_lowercase_of_a_name() {
    match parse_channel_id("ÄBC", Platform::Kick) {
        Ok(id) => assert_eq!(id.as_str(), "kick:äbc"),
        Err(_) => panic!("expected an id"),
    }
}

#[test]
fn permission_order() {
    assert!(PermissionLevel::Broadcaster.satisfies(PermissionLevel::Moderator));
    assert!(PermissionLevel::Moderator.satisfies(PermissionLevel::Moderator));
    assert!(!PermissionLevel::Vip.satisfies(PermissionLevel::Moderator));
    assert_eq!(PermissionLevel::Everyone.rank(), 6);
    assert_eq!(PermissionLevel::LeadModerator.to_display_string(), "lead moderator");
    assert_eq!(PermissionLevel::Everyone.to_display_string(), "How you managed that?");
}

#[test]
fn permission_from_badge_lists() {
    assert_eq!(twitch_permission(&strings(&["subscriber", "lead_moderator"])), PermissionLevel::LeadModerator);
    assert_eq!(twitch_permission(&strings(&["vip"])), PermissionLevel::Vip);
    assert_eq!(twitch_permission(&strings(&[])), PermissionLevel::Everyone);
    assert_eq!(permission_from_badges(&strings(&["subscriber", "moderator"])), PermissionLevel::Moderator);
    assert_eq!(permission_from_badges(&strings(&["lead_moderator"])), PermissionLevel::Everyone);
}

#[test]
fn permission_check_steps() {
    assert_eq!(permission_step(None, PermissionLevel::Everyone, Platform::Twitch), PermissionStep::Denied);
    assert_eq!(
        permission_step(Some(PermissionLevel::Vip), PermissionLevel::Subscriber, Platform::Twitch),
        PermissionStep::Granted
    );
    assert_eq!(
        permission_step(Some(PermissionLevel::Everyone), PermissionLevel::Follower, Platform::Twitch),
        PermissionStep::CheckFollower
    );
    assert_eq!(
        permission_step(Some(PermissionLevel::Everyone), PermissionLevel::Follower, Platform::Kick),
        PermissionStep::Denied
    );
}

#[test]
fn error_texts() {
    let e = BotError::ConfigMissing(ChannelId::new(Platform::Twitch, "chan"));
    assert_eq!(e.message(), "Configuration missing for channel: twitch:chan");
    assert_eq!(BotError::Chat("hi".to_string()).message(), "hi");
}

#[test]
fn reply_texts() {
    assert_eq!(Replies::join_closed("bob"), "❌ bob the queue is closed 😭 please try again later 💜");
    assert_eq!(Replies::join_banned("bob", Some("spam")), "❌ bob you are banned from queue for spam 😔");
    assert_eq!(Replies::join_banned("bob", None), "❌ bob you are banned from queue, beg for forgiveness 💀");
    assert_eq!(Replies::queue_size("3"), "✅ Group size is now 3 people per run! 🥳");
    assert_eq!(Replies::pos_reply(4, "7", "9", "bob"), "📋 bob you are at position 7/9 (Group 4) 💜");
    let id = ChannelId::new(Platform::Twitch, "chan");
    assert_eq!(Replies::config_header(&id), "📋 Channel config for twitch:chan");
    assert_eq!(Replies::queue_runs_reset(&id), "📋 Runs reset for twitch:chan");
}

#[test]
fn cookies() {
    let header = "a=1; session_twitch=tw; session_id=gen; session_kick=k=2";
    assert_eq!(get_cookie(header, "session_id"), Some("gen".to_string()));
    assert_eq!(get_cookie(header, "session_kick"), Some("k=2".to_string()));
    assert_eq!(get_cookie(header, "missing"), None);
    assert_eq!(session_candidates(header), strings(&["gen", "tw", "k=2"]));
    assert_eq!(session_candidates("x=1"), Vec::<String>::new());
    assert_eq!(
        session_cookie_header("session_kick", "abc"),
        "session_kick=abc; Path=/; HttpOnly; SameSite=None; Secure"
    );
}

#[test]
fn bungie_name_pattern() {
    assert_eq!(is_valid_bungie_name("Some Guy #1234"), Some("Some Guy#1234".to_string()));
    assert_eq!(is_valid_bungie_name("Guy#12345"), Some("Guy#1234".to_string()));
    assert_eq!(is_valid_bungie_name("Guy#12"), None);
    assert_eq!(is_valid_bungie_name("#1234"), None);
    assert_eq!(format_bungie_captures(Some((" Name ".to_string(), "0001".to_string()))), Some("Name#0001".to_string()));
}

#[test]
fn bungie_search() {
    let (name, code) = bungie_search_name("Guy#1234");
    assert_eq!(name, "Guy");
    assert_eq!(code, "1234");
    let none = first_membership(Vec::new());
    assert_eq!(none.type_m, -1);
    assert!(none.id.is_empty());
    assert!(is_real_bungiename("Guy#1234", none).is_none());
    let found = first_membership(vec![MemberShip { id: "9".to_string(), type_m: 3 }, MemberShip { id: "8".to_string(), type_m: 1 }]);
    let user = is_real_bungiename("Guy#1234", found).expect("a real account");
    assert_eq!(user.membership_id, "9");
    assert_eq!(user.membership_type, 3);
}

#[test]
fn app_token_expiry() {
    let t = TwitchAppToken { access_token: "tok".to_string(), expires_at: 100 };
    assert_eq!(t.current(99), Some("tok".to_string()));
    assert_eq!(t.current(100), None);
}

#[test]
fn templates() {
    let vars = generate_variables("alice", "chan", "!hug @bob now");
    assert_eq!(parse_template("%sender% hugs %receiver% in %channel%", &vars), "alice hugs bob in chan");
    let vars = generate_variables("alice", "chan", "!hug");
    assert_eq!(parse_template("%sender% hugs %receiver%", &vars), "alice hugs Nothing");
}

#[test]
fn ban_and_timeout_requests() {
    match mod_action_request(ModAction::Ban, "!mod_ban @bob being rude") {
        ModRequest::Act { name, reason, seconds } => {
            assert_eq!(name, "bob");
            assert_eq!(reason, "being rude");
            assert_eq!(seconds, 0);
        }
        ModRequest::Usage(_) => panic!("expected an action"),
    }
    match mod_action_request(ModAction::Timeout, "!mod_timeout bob 7200 spam") {
        ModRequest::Act { name, reason, seconds } => {
            assert_eq!(name, "bob");
            assert_eq!(reason, "spam");
            assert_eq!(seconds, 7200);
        }
        ModRequest::Usage(_) => panic!("expected an action"),
    }
    match mod_action_request(ModAction::Timeout, "!mod_timeout bob soon") {
        ModRequest::Act { seconds, reason, .. } => {
            assert_eq!(seconds, 0);
            assert_eq!(reason, "");
        }
        ModRequest::Usage(_) => panic!("expected an action"),
    }
    match mod_action_request(ModAction::Ban, "!mod_ban") {
        ModRequest::Usage(m) => assert_eq!(m, "Usage: !mod_ban <twitch name> Optional(reason)"),
        _ => panic!("expected the usage"),
    }
    assert_eq!(mod_action_reply(ModAction::Timeout, "bob", 7200, true), "User bob has been timed out from entering queue for 2 hours.");
    assert_eq!(mod_action_reply(ModAction::Ban, "bob", 0, true), "User bob has been banned from entering queue.");
    assert_eq!(mod_action_reply(ModAction::Ban, "bob", 0, false), "An error occurred while banning the user.");
}

#[test]
fn identifier_parse_errors() {
    assert_eq!(ChannelId::from_str("nope").err(), Some("invalid channel id"));
    assert_eq!(ChannelId::from_str("irc:chan").err(), Some("Invalid platform"));
    assert_eq!(UserId::from_str("42").err(), Some("invalid channel id"));
    assert_eq!(UserId::from_str("discord:42").err(), Some("Invalid platform"));
    assert_eq!(Platform::from_str("Twitch").err(), Some("Invalid platform"));
}

#[test]
fn usage_lines_with_aliases() {
    let mut ac = krapbott::aliases::AliasConfig::new();
    assert_eq!(usage_with_aliases("join", "!join", &ac), "Usage: !join → !join");
    ac.set_alias("j2".to_string(), "join".to_string());
    assert_eq!(usage_with_aliases("join", "!join", &ac), "Usage: !j2 / !join → !join");
    ac.disable("join".to_string());
    assert_eq!(usage_with_aliases("join", "!join", &ac), "Usage: !j2 → !join");
    let mut bare = krapbott::aliases::AliasConfig::new();
    bare.remove_default("join".to_string());
    assert_eq!(usage_with_aliases("join", "!join", &bare), "Usage: !join");
}

#[test]
fn usage_lines_name_each_alias_once() {
    let mut ac = krapbott::aliases::AliasConfig::new();
    ac.set_alias("next".to_string(), "next".to_string());
    assert_eq!(usage_with_aliases("next", "!next", &ac), "Usage: !next → !next");
    ac.set_alias("n".to_string(), "next".to_string());
    assert_eq!(usage_with_aliases("next", "!next", &ac), "Usage: !next / !n → !next");
}
