use krapbott::aliases::AliasConfig;
use krapbott::config::{set_queue_len, BotConfig};
use krapbott::giveaway::{Giveaway, GiveawayEntries, JoinGiveaway, PointsLedger};
use krapbott::kick::KickAuthManager;
use krapbott::permissions::{permission_step, PermissionLevel, PermissionStep};
use krapbott::platform::{ChannelId, Platform, UserId};
use krapbott::queue::{ChannelQueue, Queue, QueueEntry};

fn entry(id: &str, display: &str, bungie: &str) -> QueueEntry {
    QueueEntry {
        user_id: UserId::new(Platform::Twitch, id),
        bungie_name: bungie.to_string(),
        display_name: display.to_string(),
    }
}

fn rows(q: &ChannelQueue) -> Vec<(String, String, String)> {
    (0..q.len())
        .map(|i| {
            let r = q.row(i);
            (r.user_id.as_str().to_string(), r.display_name.clone(), r.bungie_name.clone())
        })
        .collect()
}

fn two() -> ChannelQueue {
    let mut q = ChannelQueue::new();
    q.add_to_queue(10, entry("1", "alice", "A#1"), Queue::Join, false);
    q.add_to_queue(10, entry("2", "bob", "B#2"), Queue::Join, false);
    q
}

#[test]
fn removing_undoes_adding() {
    let mut q = two();
    let before = rows(&q);
    q.add_to_queue(10, entry("3", "carl", "C#3"), Queue::Join, false);
    q.remove_from_queue(&UserId::new(Platform::Twitch, "3"));
    assert_eq!(rows(&q), before);
}

#[test]
fn users_stay_unique() {
    let mut q = two();
    q.process_queue_entry(10, entry("1", "alice", "A#1"), Queue::ForceJoin, false);
    q.process_queue_entry(10, entry("2", "bob", "B#9"), Queue::Join, false);
    let ids: Vec<String> = rows(&q).into_iter().map(|r| r.0).collect();
    assert_eq!(ids, vec!["twitch:1".to_string(), "twitch:2".to_string()]);
}

#[test]
fn rejoining_keeps_the_place() {
    let mut q = two();
    q.process_queue_entry(10, entry("1", "Alice", "New#0001"), Queue::Join, false);
    assert_eq!(
        rows(&q),
        vec![
            ("twitch:1".to_string(), "Alice".to_string(), "New#0001".to_string()),
            ("twitch:2".to_string(), "bob".to_string(), "B#2".to_string()),
        ]
    );
}

#[test]
fn full_queue_refuses_join_but_not_add() {
    let mut q = two();
    let before = rows(&q);
    q.add_to_queue(2, entry("3", "carl", "C#3"), Queue::Join, false);
    assert_eq!(rows(&q), before);
    q.add_to_queue(2, entry("3", "carl", "C#3"), Queue::ForceJoin, false);
    assert_eq!(q.len(), 3);
}

fn sorted_ids(q: &ChannelQueue) -> Vec<String> {
    let mut v: Vec<String> = rows(q).into_iter().map(|r| r.0).collect();
    v.sort();
    v
}

#[test]
fn move_and_prio_keep_the_viewers() {
    let mut q = two();
    q.add_to_queue(10, entry("3", "carl", "C#3"), Queue::Join, false);
    let before = sorted_ids(&q);
    q.move_to_next_group("alice", 1);
    assert_eq!(sorted_ids(&q), before);
    q.prio("carl", Some(3), 1);
    assert_eq!(sorted_ids(&q), before);
    q.prio("bob", None, 2);
    assert_eq!(sorted_ids(&q), before);
}

#[test]
fn remove_leaves_no_such_name() {
    let mut q = two();
    q.add_to_queue(10, entry("3", "bob", "C#3"), Queue::Join, false);
    q.remove_by_display("bob");
    assert!(rows(&q).iter().all(|r| r.1 != "bob"));
    assert_eq!(q.len(), 1);
}

#[test]
fn reorder_follows_the_order() {
    let mut q = two();
    q.add_to_queue(10, entry("3", "carl", "C#3"), Queue::Join, false);
    let order = vec![
        UserId::new(Platform::Twitch, "2"),
        UserId::new(Platform::Twitch, "3"),
        UserId::new(Platform::Twitch, "1"),
    ];
    assert!(q.reorder_queue(&order));
    let ids: Vec<String> = rows(&q).into_iter().map(|r| r.0).collect();
    assert_eq!(ids, vec!["twitch:2", "twitch:3", "twitch:1"]);
}

#[test]
fn settings_read_back() {
    let mut cfg = BotConfig::new();
    let a = ChannelId::new(Platform::Twitch, "a");
    let b = ChannelId::new(Platform::Kick, "b");
    cfg.get_channel_config_mut(a.duplicate()).size = 7;
    cfg.get_channel_config_mut(b.duplicate()).size = 9;
    assert!(set_queue_len(&mut cfg, &a, 12).is_ok());
    assert_eq!(cfg.get_channel_config(&a).expect("stored").size, 12);
    assert_eq!(cfg.get_channel_config(&b).expect("stored").size, 9);
}

#[test]
fn aliases_read_back() {
    let mut ac = AliasConfig::new();
    ac.set_alias("j".to_string(), "join".to_string());
    ac.set_alias("n".to_string(), "next".to_string());
    ac.set_alias("j".to_string(), "jump".to_string());
    assert_eq!(ac.alias_target("j"), Some("jump".to_string()));
    ac.remove_alias("j");
    assert_eq!(ac.alias_target("j"), None);
    assert_eq!(ac.alias_target("n"), Some("next".to_string()));
}

#[test]
fn identifier_text_round_trip() {
    for (p, name) in [(Platform::Twitch, "chan"), (Platform::Kick, "a_b"), (Platform::Obs, "x y")] {
        let id = ChannelId::new(p, name);
        let back = ChannelId::from_str(id.as_str()).ok().expect("parses back");
        assert!(back.same(&id));
        let u = UserId::new(p, name);
        let back = UserId::from_str(u.as_str()).ok().expect("parses back");
        assert!(back.same(&u));
    }
}

#[test]
fn authorization_reads_back_under_its_state() {
    let mut auth = KickAuthManager::from_secrets(None, None, Some("id".to_string()), None);
    auth.build_authorize_url_with("https://a/cb", "s", "one".to_string(), "v1".to_string()).ok().expect("address");
    auth.build_authorize_url_with("https://b/cb", "s", "two".to_string(), "v2".to_string()).ok().expect("address");
    auth.build_authorize_url_with("https://c/cb", "s", "one".to_string(), "v3".to_string()).ok().expect("address");
    let p = auth.take_pending("one").ok().expect("pending");
    assert_eq!(p.code_verifier, "v3");
    assert_eq!(p.redirect_uri, "https://c/cb");
    let p = auth.take_pending("two").ok().expect("pending");
    assert_eq!(p.code_verifier, "v2");
}

#[test]
fn each_entry_wins_with_exactly_its_tickets() {
    let mut g = Giveaway::new();
    g.active = true;
    let mut entries = GiveawayEntries::new();
    let mut ledger = PointsLedger::new();
    for (name, n) in [("a", 2), ("b", 1), ("c", 3)] {
        ledger.set_points(name, 1000);
        JoinGiveaway.execute(&g, &mut entries, &mut ledger, name, &format!("!ticket {}", n));
    }
    let winners: Vec<String> = (1..=entries.total_tickets())
        .map(|t| entries.winner_for(t).expect("a winner").0)
        .collect();
    assert_eq!(winners, vec!["a", "a", "b", "c", "c", "c"]);
    assert!(entries.winner_for(7).is_none());
}

#[test]
fn entries_stay_positive() {
    let mut g = Giveaway::new();
    g.active = true;
    let mut entries = GiveawayEntries::new();
    let mut ledger = PointsLedger::new();
    ledger.set_points("a", 1000);
    for msg in ["!ticket 0", "!ticket -3", "!ticket 2", "!ticket 500", "!ticket x"] {
        JoinGiveaway.execute(&g, &mut entries, &mut ledger, "a", msg);
        if let Some(t) = entries.tickets("a") {
            assert!(t > 0);
        }
    }
    assert_eq!(entries.tickets("a"), Some(2));
}

#[test]
fn leaving_frees_only_those_behind_the_live_group() {
    let mut q = two();
    q.add_to_queue(10, entry("3", "carl", "C#3"), Queue::Join, false);
    let before = rows(&q);
    q.leave(&UserId::new(Platform::Twitch, "1"), "alice", 2, false);
    assert_eq!(rows(&q), before);
    q.leave(&UserId::new(Platform::Twitch, "3"), "carl", 2, false);
    assert_eq!(q.index_of(&UserId::new(Platform::Twitch, "3")), None);
    assert_eq!(rows(&q), before[..2].to_vec());
}

#[test]
fn raffle_keeps_the_waiting_viewers() {
    let mut q = two();
    q.add_to_queue(10, entry("3", "carl", "C#3"), Queue::Join, true);
    let waiting = rows(&q)[1..].to_vec();
    q.randomize_with(1, &vec![1, 0]);
    assert_eq!(rows(&q), vec![waiting[1].clone(), waiting[0].clone()]);
}

#[test]
fn next_keeps_the_waiting_viewers() {
    let mut q = two();
    q.add_to_queue(10, entry("3", "carl", "C#3"), Queue::Join, false);
    let waiting = rows(&q)[1..].to_vec();
    q.next_handler("chan", 1);
    assert_eq!(rows(&q), waiting);
}

#[test]
fn higher_levels_keep_their_rights() {
    assert_eq!(permission_step(Some(PermissionLevel::Vip), PermissionLevel::Subscriber, Platform::Twitch), PermissionStep::Granted);
    assert_eq!(permission_step(Some(PermissionLevel::Moderator), PermissionLevel::Subscriber, Platform::Twitch), PermissionStep::Granted);
    assert_eq!(permission_step(Some(PermissionLevel::Everyone), PermissionLevel::Everyone, Platform::Kick), PermissionStep::Granted);
    assert_eq!(permission_step(Some(PermissionLevel::Broadcaster), PermissionLevel::Broadcaster, Platform::Kick), PermissionStep::Granted);
    assert_eq!(permission_step(Some(PermissionLevel::Vip), PermissionLevel::Moderator, Platform::Twitch), PermissionStep::Denied);
}

#[test]
fn disabled_commands_cannot_be_called() {
    let registry = krapbott::dispatch::CommandRegistry::new();
    let mut aliases = AliasConfig::new();
    aliases.disable("join".to_string());
    aliases.set_alias("x".to_string(), "j".to_string());
    let table = registry.build_for_channel(&vec!["queue".to_string()], &aliases);
    assert!(table.iter().all(|(_, c)| c != "join"));
    assert!(table.iter().any(|(n, c)| n == "next" && c == "next"));
    assert!(!table.iter().any(|(n, _)| n == "x" || n == "j"));
}

#[test]
fn tickets_keep_the_giveaway_limits() {
    let mut g = Giveaway::new();
    g.active = true;
    g.max_tickets = 5;
    g.ticket_cost = 10;
    let mut entries = GiveawayEntries::new();
    let mut ledger = PointsLedger::new();
    ledger.set_points("a", 45);
    for msg in ["!ticket 3", "!ticket 3", "!ticket 2", "!ticket 1"] {
        JoinGiveaway.execute(&g, &mut entries, &mut ledger, "a", msg);
        assert!(entries.tickets("a").unwrap_or(0) <= 5);
        assert!(ledger.points("a").unwrap_or(0) >= 0);
    }
    assert_eq!(entries.tickets("a"), Some(4));
    assert_eq!(ledger.points("a"), Some(5));
}

#[test]
fn command_table_holds_the_default_aliases() {
    let registry = krapbott::dispatch::CommandRegistry::new();
    let mut aliases = AliasConfig::new();
    aliases.remove_default("q".to_string());
    aliases.set_alias("hop".to_string(), "j".to_string());
    let table = registry.build_for_channel(&vec!["QUEUE".to_string()], &aliases);
    let get = |k: &str| table.iter().find(|(n, _)| n == k).map(|(_, c)| c.clone());
    assert_eq!(get("j"), Some("join".to_string()));
    assert_eq!(get("queue"), Some("join".to_string()));
    assert_eq!(get("q"), None);
    assert_eq!(get("hop"), Some("join".to_string()));
    assert_eq!(get("alias"), None);
}

#[test]
fn session_cookie_reads_back() {
    let header = krapbott::sessions::session_cookie_header("session_twitch", "abc-123");
    assert_eq!(krapbott::sessions::get_cookie(&header, "session_twitch"), Some("abc-123".to_string()));
    let header = krapbott::sessions::session_cookie_header("session_id", "");
    assert_eq!(krapbott::sessions::get_cookie(&header, "session_id"), Some(String::new()));
}
