use krapbott::aliases::{alias_command, AliasConfig};
use krapbott::bot::BotState;
use krapbott::chat_event::{extract_badge_types, extract_permission, map_kick_msg, map_privmsg, JsonValue, KickMessageFields, PrivmsgFields};
use krapbott::config::BotConfig;
use krapbott::dispatch::{command_for_message, permission_denied_reply, CommandGroup, CommandRegistration, CommandRegistry};
use krapbott::error::BotError;
use krapbott::giveaway::{
    change_giveaway_setting, pull_giveaway, Giveaway, GiveawayEntries, GiveawayHandler, GiveawaySetting, JoinGiveaway, PointsLedger,
    PullOutcome,
};
use krapbott::kick::{
    authorization_code_body, broadcaster_id_from_body, client_credentials_body, code_challenge_s256, after_kick_send, kick_send_failure, KickSendNext, KickSendStage,
    normalize_channel_slug, prepare_kick_content, prime_broadcaster_user_id, random_urlsafe, refresh_token_body, text_contains,
    truncate_message, BroadcasterCache, KickAuthManager, TokenResponse,
};
use krapbott::legacy::{AliasCommand, ChangeMode, ChangePointsCommand};
use krapbott::permissions::PermissionLevel;
use krapbott::platform::{ChannelId, Platform};
use krapbott::sessions::{collect_sessions, WebSession};
use krapbott::web::{
    connect_command, kick_callback_params, kick_login_channel, obs_aliases, obs_sessions, obs_switch_session, query_param,
    session_cookies, twitch_channel_allowed, twitch_login_outcome, twitch_login_url, ConnectStep, ObsSwitchSessionPayload, SwitchOutcome,
};

fn hex(bytes: &[u8]) -> String {
    bytes.iter().map(|b| format!("{:02x}", b)).collect()
}

fn pairs(v: &[(&str, &str)]) -> Vec<(String, String)> {
    v.iter().map(|(a, b)| (a.to_string(), b.to_string())).collect()
}

#[test]
fn kick_message_text() {
    assert_eq!(truncate_message("héllo", 2), "hé");
    assert_eq!(truncate_message("hi", 10), "hi");
    assert_eq!(prepare_kick_content("   "), None);
    assert_eq!(prepare_kick_content("  hi  "), Some("hi".to_string()));
    let long: String = std::iter::repeat('x').take(600).collect();
    assert_eq!(prepare_kick_content(&long).map(|s| s.chars().count()), Some(500));
    assert_eq!(normalize_channel_slug("  @@KrapMatt "), "krapmatt");
}

#[test]
fn retryable_send_errors() {
    assert_eq!(after_kick_send(KickSendStage::User, 500), KickSendNext::RetryWithFreshId);
    assert_eq!(after_kick_send(KickSendStage::UserFreshId, 500), KickSendNext::FallBackToBot);
    assert_eq!(after_kick_send(KickSendStage::Bot, 500), KickSendNext::Finish);
    assert_eq!(after_kick_send(KickSendStage::User, 401), KickSendNext::Finish);
    assert_eq!(after_kick_send(KickSendStage::User, 200), KickSendNext::Finish);
    match kick_send_failure(KickSendStage::User, "500 Internal Server Error", "oops") {
        BotError::Custom(m) => assert_eq!(m, "Kick send failed (user payload) (500 Internal Server Error): oops"),
        _ => panic!("a refused post is a Custom error"),
    }
    match kick_send_failure(KickSendStage::Bot, "403 Forbidden", "") {
        BotError::Custom(m) => assert_eq!(m, "Kick send failed (bot payload) (403 Forbidden): "),
        _ => panic!("a refused post is a Custom error"),
    }
    assert!(text_contains("abc", ""));
    assert!(text_contains("abcabd", "abd"));
    assert!(!text_contains("ab", "abc"));
}

#[test]
fn broadcaster_id_cache() {
    let mut cache = BroadcasterCache::new();
    assert_eq!(cache.lookup("chan"), None);
    prime_broadcaster_user_id(&mut cache, " @Chan ", 42);
    assert_eq!(cache.lookup("chan"), Some(42));
    assert_eq!(cache.lookup("@CHAN"), Some(42));
    prime_broadcaster_user_id(&mut cache, "chan", 43);
    assert_eq!(cache.lookup("chan"), Some(43));
    cache.remove("Chan");
    assert_eq!(cache.lookup("chan"), None);
}

#[test]
fn url_encoding_through_form_bodies() {
    assert_eq!(
        client_credentials_body("a b&c/é-_.~", ""),
        "grant_type=client_credentials&client_id=a%20b%26c%2F%C3%A9-_.~&client_secret="
    );
}

#[test]
fn broadcaster_id_in_channel_answers() {
    assert_eq!(broadcaster_id_from_body("{\"user\":{\"id\":123,\"username\":\"x\"}}").ok(), Some(123));
    match broadcaster_id_from_body("{\"user\":{\"id\":\"123\"}}") {
        Err(BotError::Custom(m)) => assert_eq!(m, "Kick response missing user.id for broadcaster"),
        _ => panic!("expected the missing id error"),
    }
    match broadcaster_id_from_body("{\"user\":{\"id\":-4}}") {
        Err(BotError::Custom(m)) => assert_eq!(m, "Kick response missing user.id for broadcaster"),
        _ => panic!("a negative id is no id"),
    }
    match broadcaster_id_from_body("<html>") {
        Err(e @ BotError::Json(_)) => assert!(e.message().starts_with("JSON deserialization error: ")),
        _ => panic!("expected the JSON error"),
    }
}

#[test]
fn pkce_challenge_of_the_rfc_example() {
    assert_eq!(
        code_challenge_s256("dBjftJeZ4CVP-mB92K27uhbUJU1p1r_wW1gFWFOEjXk"),
        "E9Melhoa2OwvFrEMTJguCHaoeK1t8URWbuGJSstw-cM"
    );
}

#[test]
fn random_tokens_are_url_safe() {
    let t = random_urlsafe(16);
    assert_eq!(t.len(), 22);
    assert!(t.chars().all(|c| c.is_ascii_alphanumeric() || c == '-' || c == '_'));
    let u = random_urlsafe(32);
    assert_eq!(u.len(), 43);
}

#[test]
fn kick_token_lifetime() {
    let mut auth = KickAuthManager::from_secrets(None, Some("r0".to_string()), Some("id".to_string()), Some("sec".to_string()));
    assert!(!auth.has_access_token());
    assert_eq!(auth.current_token(0), None);
    auth.apply_token(
        TokenResponse { access_token: "a1".to_string(), refresh_token: None, expires_in: Some(100), token_type: None, scope: None },
        1000,
    );
    assert_eq!(auth.current_token(1069), Some("a1".to_string()));
    assert_eq!(auth.current_token(1070), None);
    assert_eq!(auth.refresh_token(), Some("r0".to_string()));
    auth.apply_token(
        TokenResponse { access_token: "a2".to_string(), refresh_token: Some("r1".to_string()), expires_in: None, token_type: None, scope: None },
        2000,
    );
    assert_eq!(auth.current_token(u64::MAX), Some("a2".to_string()));
    assert_eq!(auth.refresh_token(), Some("r1".to_string()));
}

#[test]
fn kick_credentials() {
    let auth = KickAuthManager::from_secrets(None, None, None, Some("sec".to_string()));
    match auth.get_client_credentials() {
        Err(BotError::Custom(m)) => assert_eq!(m, "KICK_CLIENT_ID not set"),
        _ => panic!("expected the missing id"),
    }
    let auth = KickAuthManager::from_secrets(None, None, Some("id".to_string()), None);
    match auth.get_client_credentials() {
        Err(BotError::Custom(m)) => assert_eq!(m, "KICK_CLIENT_SECRET not set"),
        _ => panic!("expected the missing secret"),
    }
}

#[test]
fn kick_authorization_round_trip() {
    let mut auth = KickAuthManager::from_secrets(None, None, Some("my id".to_string()), Some("sec".to_string()));
    let url = auth
        .build_authorize_url_with("https://x/cb", "chat:write", "st1".to_string(), "dBjftJeZ4CVP-mB92K27uhbUJU1p1r_wW1gFWFOEjXk".to_string())
        .ok()
        .expect("an address");
    assert_eq!(
        url,
        "https://id.kick.com/oauth/authorize?response_type=code&client_id=my%20id&redirect_uri=https%3A%2F%2Fx%2Fcb&scope=chat%3Awrite&state=st1&code_challenge=E9Melhoa2OwvFrEMTJguCHaoeK1t8URWbuGJSstw-cM&code_challenge_method=S256"
    );
    let pk = auth.take_pending("st1").ok().expect("pending authorization");
    assert_eq!(pk.redirect_uri, "https://x/cb");
    assert_eq!(pk.code_verifier, "dBjftJeZ4CVP-mB92K27uhbUJU1p1r_wW1gFWFOEjXk");
    match auth.take_pending("st1") {
        Err(BotError::Custom(m)) => assert_eq!(m, "Kick OAuth state invalid"),
        _ => panic!("a state is used once"),
    }
    assert_eq!(
        authorization_code_body("my id", "s&c", &pk, "c0de"),
        "grant_type=authorization_code&client_id=my%20id&client_secret=s%26c&redirect_uri=https%3A%2F%2Fx%2Fcb&code_verifier=dBjftJeZ4CVP-mB92K27uhbUJU1p1r_wW1gFWFOEjXk&code=c0de"
    );
}

#[test]
fn random_authorization_is_remembered() {
    let mut auth = KickAuthManager::from_secrets(None, None, Some("id".to_string()), None);
    let url = auth.build_authorize_url("https://x/cb", "s").ok().expect("an address");
    let state = url.split("&state=").nth(1).expect("a state").split('&').next().expect("a state").to_string();
    assert!(auth.take_pending(&state).is_ok());
    let mut none = KickAuthManager::from_secrets(None, None, None, None);
    match none.build_authorize_url("https://x/cb", "s") {
        Err(BotError::Custom(m)) => assert_eq!(m, "KICK_CLIENT_ID not set"),
        _ => panic!("expected the missing id"),
    }
}

#[test]
fn token_request_bodies() {
    assert_eq!(
        refresh_token_body("id", "sec", "r t"),
        "grant_type=refresh_token&client_id=id&client_secret=sec&refresh_token=r%20t"
    );
    assert_eq!(client_credentials_body("id", "sec"), "grant_type=client_credentials&client_id=id&client_secret=sec");
}

fn ledger_with(name: &str, points: i32) -> PointsLedger {
    let mut l = PointsLedger::new();
    l.set_points(name, points);
    l
}

#[test]
fn buying_tickets() {
    let mut g = Giveaway::new();
    let mut entries = GiveawayEntries::new();
    let mut ledger = ledger_with("bob", 100);
    let r = JoinGiveaway.execute(&g, &mut entries, &mut ledger, "bob", "!ticket 2");
    assert_eq!(r, "bob, there is no giveaway running right now.");
    let r = GiveawayHandler.start(&mut g, &mut entries);
    assert_eq!(
        r,
        "🎁 Giveaway has been started. You can buy a maximum of 100 tickets for price of 15 points for 1 ticket // USE !ticket <number>"
    );
    let r = JoinGiveaway.execute(&g, &mut entries, &mut ledger, "bob", "!ticket 2");
    assert_eq!(r, "bob, you successfully entered the giveaway with 2 tickets!");
    assert_eq!(entries.tickets("bob"), Some(2));
    assert_eq!(ledger.points("bob"), Some(70));
    let r = JoinGiveaway.execute(&g, &mut entries, &mut ledger, "bob", "!ticket 5");
    assert_eq!(r, "bob, you don't have enough points! Needed: 75, You have: 70");
    assert_eq!(entries.tickets("bob"), Some(2));
}

#[test]
fn ticket_refusals() {
    let mut g = Giveaway::new();
    g.active = true;
    let mut entries = GiveawayEntries::new();
    let mut ledger = ledger_with("bob", 10_000);
    assert_eq!(
        JoinGiveaway.execute(&g, &mut entries, &mut ledger, "bob", "!ticket"),
        "bob, to enter a raffle use: !ticket <number of tickets>"
    );
    assert_eq!(
        JoinGiveaway.execute(&g, &mut entries, &mut ledger, "bob", "!ticket 0"),
        "bob, ticket count must be a positive number!"
    );
    assert_eq!(
        JoinGiveaway.execute(&g, &mut entries, &mut ledger, "bob", "!ticket lots"),
        "bob, ticket count must be a positive number!"
    );
    assert_eq!(
        JoinGiveaway.execute(&g, &mut entries, &mut ledger, "bob", "!ticket 101"),
        "bob, can't enter with more than 100 tickets total!"
    );
    assert_eq!(
        JoinGiveaway.execute(&g, &mut entries, &mut ledger, "ann", "!ticket 1"),
        "ann, doesn't have any points to enter!"
    );
    assert_eq!(ledger.points("bob"), Some(10_000));
}

#[test]
fn drawing_a_winner() {
    let mut g = Giveaway::new();
    g.active = true;
    let mut entries = GiveawayEntries::new();
    assert!(matches!(pull_giveaway(&entries), PullOutcome::Nobody));
    let mut ledger = ledger_with("bob", 100);
    ledger.set_points("ann", 100);
    JoinGiveaway.execute(&g, &mut entries, &mut ledger, "bob", "!ticket 1");
    JoinGiveaway.execute(&g, &mut entries, &mut ledger, "ann", "!ticket 3");
    assert_eq!(entries.total_tickets(), 4);
    assert_eq!(entries.winner_for(1), Some(("bob".to_string(), 1)));
    assert_eq!(entries.winner_for(2), Some(("ann".to_string(), 3)));
    assert_eq!(entries.winner_for(4), Some(("ann".to_string(), 3)));
    assert_eq!(entries.winner_for(5), None);
    match pull_giveaway(&entries) {
        PullOutcome::Winner { name, tickets, total } => {
            assert_eq!(total, 4);
            assert!((name == "bob" && tickets == 1) || (name == "ann" && tickets == 3));
        }
        PullOutcome::Nobody => panic!("expected a winner"),
    }
}

#[test]
fn giveaway_timing_and_settings() {
    let mut g = Giveaway::new();
    assert!(!GiveawayHandler.is_over(&g, 3599));
    assert!(GiveawayHandler.is_over(&g, 3600));
    g.active = true;
    assert_eq!(GiveawayHandler.finish(&mut g), "❗ Giveaway has ended. Winner will be pulled soon!");
    assert!(!g.active);
    let r = change_giveaway_setting(&mut g, GiveawaySetting::TicketCost, "!giveaway_price 20", "Usage", "Price is now {} points");
    assert_eq!(r, "Price is now 20 points");
    assert_eq!(g.ticket_cost, 20);
    let r = change_giveaway_setting(&mut g, GiveawaySetting::Duration, "!giveaway_duration x", "Usage", "{}");
    assert_eq!(r, "Put in a valid number");
    let r = change_giveaway_setting(&mut g, GiveawaySetting::MaxTickets, "!giveaway_tickets", "Usage", "{}");
    assert_eq!(r, "Usage");
    assert_eq!(g.duration, 3600);
    assert_eq!(g.max_tickets, 100);
}

#[test]
fn points_commands() {
    let mut ledger = ledger_with("bob", 50);
    let add = ChangePointsCommand { mode: ChangeMode::Add };
    assert_eq!(add.execute(&mut ledger, "!add_points @bob 25", "dabloons"), Some("bob now has 75 dabloons".to_string()));
    assert_eq!(ledger.points("bob"), Some(75));
    let remove = ChangePointsCommand { mode: ChangeMode::Remove };
    assert_eq!(remove.execute(&mut ledger, "!remove_points bob 5", "dabloons"), Some("bob now has 70 dabloons".to_string()));
    assert_eq!(remove.execute(&mut ledger, "!remove_points zed 5", "dabloons"), Some("User not found in the database".to_string()));
    assert_eq!(remove.execute(&mut ledger, "!remove_points", "dabloons"), None);
    assert_eq!(add.execute(&mut ledger, "!add_points BOB x", "dabloons"), Some("BOB now has 70 dabloons".to_string()));
    assert_eq!(add.execute(&mut ledger, "!add_points BOB 1", "dabloons"), Some("BOB now has 71 dabloons".to_string()));
    assert_eq!(ledger.find_ignoring_case("Bob"), Some(70));
    assert_eq!(add.name(), "add_points");
}

#[test]
fn alias_settings_commands() {
    let mut ac = AliasConfig::new();
    assert_eq!(alias_command(&mut ac, "!alias add J Join").ok(), Some("✅ Alias 'j' → 'join' added".to_string()));
    assert_eq!(ac.alias_target("j"), Some("join".to_string()));
    assert_eq!(ac.get_aliases("join"), vec!["j".to_string()]);
    assert_eq!(alias_command(&mut ac, "!alias remove j").ok(), Some("Removed alias 'j'".to_string()));
    assert_eq!(ac.alias_target("j"), None);
    assert_eq!(alias_command(&mut ac, "!alias disable next").ok(), Some("🔕 Command 'next' disabled".to_string()));
    assert!(ac.is_disabled("next"));
    assert_eq!(alias_command(&mut ac, "!alias enable next").ok(), Some("🔔 Command 'next' enabled".to_string()));
    assert!(!ac.is_disabled("next"));
    assert_eq!(alias_command(&mut ac, "!alias remove-default q").ok(), Some("🚫 Default alias 'q' disabled".to_string()));
    assert!(ac.get_removed_aliases("q"));
    assert_eq!(alias_command(&mut ac, "!alias restore-default q").ok(), Some("♻️ Default alias 'q' restored".to_string()));
    assert!(!ac.get_removed_aliases("q"));
    match alias_command(&mut ac, "!alias add j") {
        Err(BotError::Chat(m)) => assert_eq!(m, "Invalid syntax. Use: !alias add <alias> <command> | !alias remove <alias>"),
        _ => panic!("expected the syntax error"),
    }
    match alias_command(&mut ac, "!alias") {
        Err(BotError::Chat(m)) => assert_eq!(m, "Usage: !alias add <alias> <command> | !alias remove <alias>"),
        _ => panic!("expected the usage"),
    }
}

#[test]
fn first_alias_command() {
    let mut ac = AliasConfig::new();
    assert_eq!(AliasCommand.execute(&mut ac, "!alias add Q Queue"), "Added alias 'q' for command 'queue'");
    assert_eq!(ac.alias_target("q"), Some("queue".to_string()));
    assert_eq!(AliasCommand.execute(&mut ac, "!alias drop q"), "Invalid syntax. Use: !alias add <alias> <command> OR !alias remove <alias>");
    assert_eq!(AliasCommand.execute(&mut ac, "!alias"), "Usage: !alias add <alias> <command> OR !alias remove <alias>");
}

#[test]
fn alias_rows_are_lowercased() {
    let ac = AliasConfig::from_rows(&pairs(&[("J", "Join")]), &vec!["Next".to_string()], &vec!["Q".to_string()]);
    assert_eq!(ac.alias_target("j"), Some("join".to_string()));
    assert!(ac.is_disabled("next"));
    assert!(ac.get_removed_aliases("q"));
    assert_eq!(ac.alias_pairs(), pairs(&[("j", "join")]));
    assert_eq!(ac.disabled_list(), vec!["next".to_string()]);
    assert_eq!(ac.removed_list(), vec!["q".to_string()]);
}

fn registry() -> CommandRegistry {
    CommandRegistry {
        groups: vec![CommandGroup {
            name: "queue".to_string(),
            commands: vec![
                CommandRegistration {
                    command: "join".to_string(),
                    description: "Join the queue".to_string(),
                    usage: "!join".to_string(),
                    permission: PermissionLevel::Everyone,
                    aliases: vec!["join".to_string(), "j".to_string()],
                },
                CommandRegistration {
                    command: "next".to_string(),
                    description: "Next group".to_string(),
                    usage: "!next".to_string(),
                    permission: PermissionLevel::Broadcaster,
                    aliases: vec!["next".to_string(), "n".to_string()],
                },
            ],
        }],
    }
}

fn lookup(table: &[(String, String)], name: &str) -> Option<String> {
    table.iter().rev().find(|(a, _)| a == name).map(|(_, c)| c.clone())
}

#[test]
fn command_table_of_a_channel() {
    let reg = registry();
    let mut ac = AliasConfig::new();
    ac.disable("next".to_string());
    ac.remove_default("j".to_string());
    ac.set_alias("go".to_string(), "join".to_string());
    let table = reg.build_for_channel(&vec!["Queue".to_string()], &ac);
    assert_eq!(lookup(&table, "join"), Some("join".to_string()));
    assert_eq!(lookup(&table, "j"), None);
    assert_eq!(lookup(&table, "next"), None);
    assert_eq!(lookup(&table, "go"), Some("join".to_string()));
    let none = reg.build_for_channel(&vec!["moderation".to_string()], &AliasConfig::new());
    assert!(none.is_empty());
}

#[test]
fn message_to_command() {
    let reg = registry();
    let table = reg.build_for_channel(&vec!["queue".to_string()], &AliasConfig::new());
    let mut cfg = BotConfig::new();
    let chan = ChannelId::new(Platform::Twitch, "chan");
    cfg.get_channel_config_mut(chan.duplicate()).prefix = "?".to_string();
    assert_eq!(command_for_message(&cfg, &chan, &table, "??j  Dana#1234"), Some("join".to_string()));
    assert_eq!(command_for_message(&cfg, &chan, &table, "!j"), None);
    assert_eq!(command_for_message(&cfg, &chan, &table, "?dance"), None);
    let other = ChannelId::new(Platform::Kick, "other");
    assert_eq!(command_for_message(&cfg, &other, &table, "!n"), Some("next".to_string()));
    assert_eq!(permission_denied_reply(PermissionLevel::Moderator), "You need to be moderator to use this command");
}

#[test]
fn default_command_packages() {
    let reg = CommandRegistry::new();
    assert_eq!(reg.groups.len(), 2);
    assert_eq!(reg.groups[0].name, "queue");
    assert_eq!(reg.groups[1].name, "moderation");
    let table = reg.build_for_channel(&vec!["queue".to_string(), "moderation".to_string()], &AliasConfig::new());
    assert_eq!(lookup(&table, "q"), Some("join".to_string()));
    assert_eq!(lookup(&table, "join"), None);
    assert_eq!(lookup(&table, "bribe"), Some("prio".to_string()));
    assert_eq!(lookup(&table, "pos"), Some("position".to_string()));
    assert_eq!(lookup(&table, "random"), Some("Random".to_string()));
    assert_eq!(lookup(&table, "mod_config"), Some("config".to_string()));
    let next = reg.find_command("next").expect("registered");
    assert_eq!(next.permission, PermissionLevel::Broadcaster);
    assert_eq!(next.usage, "!next");
    let connect = reg.find_command("connect").expect("registered");
    assert_eq!(connect.permission, PermissionLevel::Broadcaster);
    assert!(reg.find_command("dance").is_none());
    assert_eq!(reg.all_commands_for_obs().len(), 19);
}

#[test]
fn dock_alias_page() {
    let reg = registry();
    let mut ac = AliasConfig::new();
    ac.set_alias("go".to_string(), "join".to_string());
    let page = obs_aliases(&ac, &reg);
    assert_eq!(page.aliases, pairs(&[("go", "join")]));
    assert_eq!(page.commands.len(), 2);
    assert_eq!(page.commands[1].name, "next");
    assert_eq!(page.commands[1].default_aliases, vec!["next".to_string(), "n".to_string()]);
}

#[test]
fn twitch_chat_message() {
    let e = map_privmsg(&PrivmsgFields {
        channel_login: "chan".to_string(),
        channel_id: "100".to_string(),
        message_text: "!join".to_string(),
        sender_id: "7".to_string(),
        sender_login: "dana".to_string(),
        sender_name: "Dana".to_string(),
        badge_names: vec!["subscriber".to_string(), "vip".to_string()],
    });
    assert_eq!(e.platform, Platform::Twitch);
    assert_eq!(e.channel, "chan");
    assert_eq!(e.broadcaster_id, Some("100".to_string()));
    let u = e.user.expect("a sender");
    assert_eq!(u.permission, PermissionLevel::Vip);
    assert_eq!(u.name.display, "Dana");
    assert_eq!(u.identity.platform_user_id, "7");
}

fn kick_fields() -> KickMessageFields {
    KickMessageFields {
        sender_id: 55,
        sender_username: "dana".to_string(),
        sender_display_name: None,
        chatroom_name: String::new(),
        chatroom_channel_id: 9001,
        content: "hi".to_string(),
    }
}

#[test]
fn kick_chat_message_levels() {
    let raw = r#"{"event":"App\\Events\\ChatMessageEvent","data":"{\"id\":\"m1\",\"sender\":{\"identity\":{\"badges\":[{\"type\":\"vip\"}]}}}"}"#;
    let e = map_kick_msg(&kick_fields(), Some(raw));
    assert_eq!(e.user.expect("a sender").permission, PermissionLevel::Vip);
    let e = map_kick_msg(&kick_fields(), Some("not json"));
    assert_eq!(e.user.expect("a sender").permission, PermissionLevel::Follower);
}

#[test]
fn kick_chat_message() {
    let e = map_kick_msg(&kick_fields(), None);
    assert_eq!(e.platform, Platform::Kick);
    assert_eq!(e.channel, "9001");
    assert_eq!(e.broadcaster_id, Some("9001".to_string()));
    let u = e.user.expect("a sender");
    assert_eq!(u.permission, PermissionLevel::Follower);
    assert_eq!(u.name.display, "dana");
    assert_eq!(u.identity.platform_user_id, "55");
}

fn obj(fields: Vec<(&str, JsonValue)>) -> JsonValue {
    JsonValue::Object(fields.into_iter().map(|(k, v)| (k.to_string(), v)).collect())
}

#[test]
fn kick_badges_from_the_event() {
    let root = obj(vec![(
        "data",
        obj(vec![(
            "sender",
            obj(vec![
                ("identity", obj(vec![("badges", JsonValue::Array(vec![]))])),
                (
                    "badges",
                    JsonValue::Array(vec![
                        obj(vec![("type", JsonValue::Str("Moderator".to_string()))]),
                        JsonValue::Str("VIP".to_string()),
                        JsonValue::Number(Some(3)),
                        obj(vec![("name", JsonValue::Str("subscriber".to_string()))]),
                    ]),
                ),
            ]),
        )]),
    )]);
    assert_eq!(extract_badge_types(&root), vec!["moderator".to_string(), "vip".to_string(), "subscriber".to_string()]);
    assert_eq!(extract_permission(&root), Some(PermissionLevel::Moderator));
    let roles = obj(vec![("data", obj(vec![("sender", obj(vec![("roles", JsonValue::Array(vec![JsonValue::Str("broadcaster".to_string())]))]))]))]);
    assert_eq!(extract_permission(&roles), Some(PermissionLevel::Broadcaster));
    assert_eq!(extract_permission(&JsonValue::Null), None);
}

#[test]
fn dashboard_sessions() {
    let found = vec![
        WebSession { session_id: "s1".to_string(), channel: ChannelId::new(Platform::Twitch, "chan") },
        WebSession { session_id: "s2".to_string(), channel: ChannelId::new(Platform::Twitch, "chan") },
        WebSession { session_id: "s3".to_string(), channel: ChannelId::new(Platform::Kick, "chan") },
    ];
    let sessions = collect_sessions(found);
    assert_eq!(sessions.len(), 2);
    assert_eq!(sessions[0].session_id, "s1");
    assert_eq!(sessions[1].session_id, "s3");
    let active = ChannelId::new(Platform::Kick, "chan");
    let view = obs_sessions(Some(&active), &sessions);
    assert_eq!(view.active_platform, Some("kick".to_string()));
    assert!(!view.sessions[0].active);
    assert!(view.sessions[1].active);
    assert_eq!(view.sessions[0].platform, "twitch");
    match obs_switch_session(&sessions, &ObsSwitchSessionPayload { platform: "kick".to_string() }) {
        SwitchOutcome::Switched { platform, login, cookie } => {
            assert_eq!(platform, Platform::Kick);
            assert_eq!(login, "chan");
            assert_eq!(cookie, "session_id=s3; Path=/; HttpOnly; SameSite=None; Secure");
        }
        _ => panic!("expected a switch"),
    }
    assert!(matches!(obs_switch_session(&sessions, &ObsSwitchSessionPayload { platform: "obs".to_string() }), SwitchOutcome::NoSession));
    assert!(matches!(obs_switch_session(&sessions, &ObsSwitchSessionPayload { platform: "irc".to_string() }), SwitchOutcome::Rejected));
    let (a, b) = session_cookies(Platform::Twitch, "s9");
    assert_eq!(a, "session_twitch=s9; Path=/; HttpOnly; SameSite=None; Secure");
    assert_eq!(b, "session_id=s9; Path=/; HttpOnly; SameSite=None; Secure");
}

#[test]
fn login_addresses_and_callbacks() {
    assert_eq!(
        twitch_login_url("cid"),
        "https://id.twitch.tv/oauth2/authorize?client_id=cid&redirect_uri=https%3A%2F%2Fkrapbott.up.railway.app%2Fauth%2Fcallback&response_type=code&scope=user:read:email"
    );
    let q = pairs(&[("code", "c1"), ("state", "s1")]);
    assert_eq!(query_param(&q, "state"), Some("s1".to_string()));
    assert_eq!(query_param(&q, "nope"), None);
    match kick_callback_params(&q) {
        Ok((c, s)) => {
            assert_eq!(c, "c1");
            assert_eq!(s, "s1");
        }
        Err(_) => panic!("expected the parameters"),
    }
    match kick_callback_params(&pairs(&[("error", "denied"), ("error_description", "no")])) {
        Err(h) => {
            assert_eq!(h.status, 400);
            assert_eq!(h.body, "Kick auth failed: denied no");
        }
        Ok(_) => panic!("expected a refusal"),
    }
    match kick_callback_params(&pairs(&[("code", "c1")])) {
        Err(h) => assert_eq!(h.body, "Kick callback missing query parameter: state"),
        Ok(_) => panic!("expected a refusal"),
    }
}

#[test]
fn dashboard_channels() {
    let mut cfg = BotConfig::new();
    match kick_login_channel(&cfg) {
        Err(h) => {
            assert_eq!(h.status, 403);
            assert_eq!(h.body, "No authorized Kick channel is configured in the bot.");
        }
        Ok(_) => panic!("no Kick channel yet"),
    }
    cfg.get_channel_config_mut(ChannelId::new(Platform::Kick, "kchan"));
    assert_eq!(kick_login_channel(&cfg).ok(), Some("kchan".to_string()));
    assert!(twitch_channel_allowed(&cfg, "krapmatt"));
    assert!(!twitch_channel_allowed(&cfg, "kchan"));
    let state = BotState::new(cfg);
    let resp = state.obs_queue(&ChannelId::new(Platform::Twitch, "krapmatt")).ok().expect("a queue view");
    assert!(resp.open);
    assert_eq!(resp.teamsize, 2);
    assert!(resp.queue.is_empty());
}

#[test]
fn connect_requests() {
    match connect_command("!connect kick:chan") {
        Ok(ConnectStep::Connect(id)) => assert_eq!(id.as_str(), "kick:chan"),
        _ => panic!("expected a channel"),
    }
    match connect_command("!connect") {
        Ok(ConnectStep::Usage(m)) => assert_eq!(m, "Usage: !connect twitch:channel | !connect kick:channel"),
        _ => panic!("expected the usage"),
    }
    match connect_command("!connect chan") {
        Err(BotError::Custom(m)) => assert_eq!(m, "Invalid channel id"),
        _ => panic!("expected the id error"),
    }
}

#[test]
fn twitch_login_ends() {
    let cfg = BotConfig::new();
    match twitch_login_outcome(&cfg, "stranger") {
        Err(h) => {
            assert_eq!(h.status, 200);
            assert_eq!(h.body, "❌ This channel is not authorized.");
        }
        Ok(_) => panic!("an unserved channel gets no session"),
    }
    match twitch_login_outcome(&cfg, "krapmatt") {
        Ok((sid, platform_cookie, active_cookie)) => {
            assert_eq!(sid.len(), 36);
            assert_eq!(platform_cookie, format!("session_twitch={}; Path=/; HttpOnly; SameSite=None; Secure", sid));
            assert_eq!(active_cookie, format!("session_id={}; Path=/; HttpOnly; SameSite=None; Secure", sid));
        }
        Err(_) => panic!("a served channel gets a session"),
    }
}

#[test]
fn points_granted_to_viewers() {
    let mut ledger = PointsLedger::new();
    ledger.set_points("a", 5);
    ledger.grant_points(&vec!["a".to_string(), "b".to_string()], 10);
    assert_eq!(ledger.points("a"), Some(15));
    assert_eq!(ledger.points("b"), Some(10));
    assert_eq!(ledger.len(), 2);
}
