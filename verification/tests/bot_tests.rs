use krapbott::bot::{
    run_next, toggle_queue_command, BanStatus, BotState, BungieStep, ForceAddCommand, JoinCommand, JoinStart, NextCommand, QueueLength,
    QueueSize,
};
use krapbott::chat_event::{ChatEvent, ChatUser, DisplayName, UserIdentity};
use krapbott::config::{
    add_package_command, config_command, queue_share, queue_share_checked, random, resolve_queue_owner, toggle_queue, BotConfig,
};
use krapbott::error::BotError;
use krapbott::permissions::PermissionLevel;
use krapbott::platform::{ChannelId, Platform, UserId};
use krapbott::queue::QueueEntry;

fn chan() -> ChannelId {
    ChannelId::new(Platform::Twitch, "chan")
}

fn config_with_chan(open: bool, size: usize, teamsize: usize) -> BotConfig {
    let mut cfg = BotConfig::new();
    let c = cfg.get_channel_config_mut(chan());
    c.open = open;
    c.size = size;
    c.teamsize = teamsize;
    cfg
}

fn entry(id: &str, display: &str, bungie: &str) -> QueueEntry {
    QueueEntry {
        user_id: UserId::new(Platform::Twitch, id),
        bungie_name: bungie.to_string(),
        display_name: display.to_string(),
    }
}

fn event(id: &str, display: &str, message: &str) -> ChatEvent {
    ChatEvent {
        platform: Platform::Twitch,
        channel: "chan".to_string(),
        user: Some(ChatUser {
            identity: UserIdentity { platform: Platform::Twitch, platform_user_id: id.to_string() },
            name: DisplayName { login: display.to_lowercase(), display: display.to_string() },
            permission: PermissionLevel::Everyone,
        }),
        message: message.to_string(),
        follower: None,
        broadcaster_id: Some("100".to_string()),
    }
}

fn state_with_three() -> BotState {
    let mut state = BotState::new(config_with_chan(true, 10, 1));
    for (id, d, b) in [("1", "alice", "A#1"), ("2", "bob", "B#2"), ("3", "carl", "C#3")] {
        ForceAddCommand.execute(&mut state, &chan(), entry(id, d, b)).ok().expect("added");
    }
    state
}

fn queue_displays(state: &BotState) -> Vec<String> {
    let q = state.queue(&chan()).expect("queue stored");
    (0..q.len()).map(|i| q.row(i).display_name.clone()).collect()
}

#[test]
fn starting_config() {
    let cfg = BotConfig::new();
    assert_eq!(cfg.len(), 1);
    let (id, c) = cfg.entry(0);
    assert_eq!(id.as_str(), "twitch:krapmatt");
    assert!(c.open);
    assert_eq!(c.teamsize, 2);
    assert_eq!(c.packages, vec!["queue".to_string()]);
    assert!(cfg.is_group_allowed(id, "queue"));
    assert!(!cfg.is_group_allowed(id, "moderation"));
}

#[test]
fn default_settings_for_a_new_channel() {
    let mut cfg = BotConfig::new();
    let c = cfg.get_channel_config_mut(chan());
    assert!(!c.open);
    assert_eq!(c.size, 1);
    assert_eq!(c.teamsize, 1);
    assert_eq!(c.prefix, "!");
    assert_eq!(c.packages, vec!["moderation".to_string()]);
    assert_eq!(cfg.len(), 2);
    assert!(cfg.get_channel_config(&chan()).is_some());
}

#[test]
fn config_summary_line() {
    let cfg = config_with_chan(true, 10, 3);
    match config_command(&cfg, &chan()) {
        Ok(m) => assert_eq!(
            m,
            "📋 Channel config for twitch:chan | Queue: OPEN ✅ | Mode: QUEUE 📥 | Team size: 3 | Max queue size: 10 | Prefix: ! | Runs today: 0 | Shared queue: OFF"
        ),
        Err(_) => panic!("expected the summary"),
    }
    let other = ChannelId::new(Platform::Kick, "nobody");
    match config_command(&cfg, &other) {
        Err(BotError::ConfigMissing(id)) => assert_eq!(id.as_str(), "kick:nobody"),
        _ => panic!("expected the missing config error"),
    }
}

#[test]
fn toggling_the_queue() {
    let mut cfg = config_with_chan(false, 10, 1);
    match toggle_queue(&mut cfg, &chan(), true) {
        Ok(m) => assert_eq!(m, "🔓The queue is open!🔓"),
        Err(_) => panic!("expected a reply"),
    }
    assert!(cfg.get_channel_config(&chan()).expect("stored").open);
    match toggle_queue(&mut cfg, &chan(), false) {
        Ok(m) => assert_eq!(m, "🔐The queue is closed🔐"),
        Err(_) => panic!("expected a reply"),
    }
    assert!(!cfg.get_channel_config(&chan()).expect("stored").open);
}

#[test]
fn raffle_mode_switch() {
    let mut cfg = config_with_chan(true, 10, 1);
    assert_eq!(random(&mut cfg, &chan()).ok(), Some("Raffle Mode Active".to_string()));
    assert!(cfg.get_channel_config(&chan()).expect("stored").random_queue);
    assert_eq!(random(&mut cfg, &chan()).ok(), Some("Queue Mode Active".to_string()));
}

#[test]
fn sharing_a_queue() {
    let mut cfg = config_with_chan(true, 10, 1);
    cfg.get_channel_config_mut(ChannelId::new(Platform::Kick, "other"));
    let r = queue_share(&mut cfg, &chan(), "!queue_share twitch:chan kick:Other", Platform::Twitch);
    match r {
        Ok(m) => assert_eq!(m, "Shared queue ENABLED\nOwner: twitch:chan\nMembers: [\"kick:other\"]"),
        Err(_) => panic!("expected the share reply"),
    }
    let kick = ChannelId::new(Platform::Kick, "other");
    match resolve_queue_owner(&cfg, &kick) {
        Ok(o) => assert_eq!(o.as_str(), "twitch:chan"),
        Err(_) => panic!("expected an owner"),
    }
    match queue_share(&mut cfg, &kick, "!queue_share", Platform::Kick) {
        Ok(m) => assert_eq!(m, "Queue mode: SHARED\nOwner: twitch:chan\nMembers: [\"twitch:chan\", \"kick:other\"]"),
        Err(_) => panic!("expected the status"),
    }
    match queue_share(&mut cfg, &kick, "!queue_share OFF", Platform::Kick) {
        Ok(m) => assert_eq!(m, "Shared queue DISABLED"),
        Err(_) => panic!("expected the reply"),
    }
    match resolve_queue_owner(&cfg, &kick) {
        Ok(o) => assert_eq!(o.as_str(), "kick:other"),
        Err(_) => panic!("expected an owner"),
    }
}

#[test]
fn sharing_needs_two_channels() {
    let mut cfg = config_with_chan(true, 10, 1);
    match queue_share(&mut cfg, &chan(), "!queue_share twitch:chan", Platform::Twitch) {
        Ok(m) => assert_eq!(m, "Usage: !queue_share twitch:main kick:other1 ... OR !queue_share off"),
        Err(_) => panic!("expected the usage"),
    }
    match queue_share(&mut cfg, &chan(), "!queue_share twitch:chan irc:x", Platform::Twitch) {
        Err(BotError::Custom(m)) => assert_eq!(m, "Invalid platform"),
        _ => panic!("expected the platform error"),
    }
}

#[test]
fn enabling_a_package() {
    let mut cfg = config_with_chan(true, 10, 1);
    match add_package_command(&mut cfg, &chan(), true, "!add_package Giveaway") {
        Ok(Some(m)) => assert_eq!(m, "✅ Package `giveaway` enabled."),
        _ => panic!("expected the reply"),
    }
    assert!(cfg.is_group_allowed(&chan(), "giveaway"));
    match add_package_command(&mut cfg, &chan(), true, "!add_package") {
        Ok(Some(m)) => assert_eq!(m, "Usage: !add_package <package>"),
        _ => panic!("expected the usage"),
    }
    assert!(matches!(add_package_command(&mut cfg, &chan(), false, "!add_package x"), Ok(None)));
}

#[test]
fn force_add_and_list() {
    let state = state_with_three();
    match state.list(&chan()) {
        Ok(m) => assert_eq!(m, "LIVE: 1. alice (A#1) || NEXT: 2. bob (B#2) || QUEUE: 3. carl (C#3)"),
        Err(_) => panic!("expected the list"),
    }
}

#[test]
fn force_add_request_parsing() {
    match ForceAddCommand.request(&event("5", "mod", "!add @Bob Some Name#1234")) {
        Ok((n, b)) => {
            assert_eq!(n, "Bob");
            assert_eq!(b, "Some Name#1234");
        }
        Err(_) => panic!("expected a request"),
    }
    match ForceAddCommand.request(&event("5", "mod", "!add @Bob")) {
        Err(BotError::Chat(m)) => assert_eq!(m, "Usage: !add @name BungieName#1234"),
        _ => panic!("expected the usage"),
    }
}

#[test]
fn pos_of_a_sender() {
    let state = state_with_three();
    match state.pos(&event("2", "bob", "!pos")) {
        Ok(m) => assert_eq!(m, "📋 bob you are at position 2/3 and in NEXT group! GoldPLZ"),
        Err(_) => panic!("expected a reply"),
    }
}

#[test]
fn next_counts_a_run() {
    let mut state = state_with_three();
    match NextCommand.execute(&mut state, &chan()) {
        Ok(m) => assert_eq!(m, "🎯The next group - @bob (B#2) !! 🥳Please be ready for an invite! 💜"),
        Err(_) => panic!("expected the announcement"),
    }
    assert_eq!(queue_displays(&state), vec!["bob", "carl"]);
    assert_eq!(state.config().get_channel_config(&chan()).expect("stored").runs, 1);
    run_next(&mut state, &chan()).ok().expect("second run");
    assert_eq!(state.config().get_channel_config(&chan()).expect("stored").runs, 2);
    assert_eq!(queue_displays(&state), vec!["carl"]);
}

#[test]
fn leave_move_remove_prio_commands() {
    let mut state = state_with_three();
    assert_eq!(state.leave_command(&event("2", "bob", "!leave")).ok(), Some("BigSad bob has left the queue.".to_string()));
    assert_eq!(queue_displays(&state), vec!["alice", "carl"]);
    assert_eq!(state.move_command(&event("9", "mod", "!move")).ok(), Some("Usage: !move <user>".to_string()));
    assert_eq!(
        state.prio_command(&event("9", "mod", "!prio @carl 2")).ok(),
        Some("⭐💎carl has been given 2 priority runs!  💎⭐".to_string())
    );
    match state.remove_command(&event("9", "mod", "!remove carl")) {
        Ok(Some(m)) => assert_eq!(m, "💀 carl has been removed from the queue 😥"),
        _ => panic!("expected a reply"),
    }
    assert_eq!(queue_displays(&state), vec!["alice"]);
}

#[test]
fn size_and_length_commands() {
    let mut state = state_with_three();
    assert_eq!(
        QueueSize.execute(&mut state, &chan(), "!queue_size 4").ok(),
        Some("✅ Group size is now 4 people per run! 🥳".to_string())
    );
    assert_eq!(
        QueueLength.execute(&mut state, &chan(), "!queue_len 25").ok(),
        Some("✅ Queue length is now 25!! 🤩".to_string())
    );
    let c = state.config().get_channel_config(&chan()).expect("stored");
    assert_eq!(c.teamsize, 4);
    assert_eq!(c.size, 25);
    match QueueSize.execute(&mut state, &chan(), "!queue_size many") {
        Err(BotError::Chat(m)) => assert_eq!(m, "Invalid Number"),
        _ => panic!("expected the number error"),
    }
    match QueueLength.execute(&mut state, &chan(), "!queue_len") {
        Err(BotError::Chat(m)) => assert_eq!(m, "Usage: !len <n>"),
        _ => panic!("expected the usage"),
    }
}

#[test]
fn open_and_close_through_state() {
    let mut state = state_with_three();
    assert_eq!(toggle_queue_command(&mut state, &chan(), false).ok(), Some("🔐The queue is closed🔐".to_string()));
    assert!(!state.config().get_channel_config(&chan()).expect("stored").open);
}

#[test]
fn join_flow() {
    let mut state = BotState::new(config_with_chan(true, 10, 1));
    let join = JoinCommand;
    let ticket = match join.start(&state, &event("7", "Dana", "!join  Dana#1234 ")) {
        JoinStart::Continue(t) => t,
        JoinStart::Reply(_) => panic!("expected to go on"),
    };
    assert_eq!(ticket.provided, Some("Dana#1234".to_string()));
    assert_eq!(ticket.queue_len, 10);
    let name = match join.bungie_step(ticket.provided.clone(), None) {
        BungieStep::Verify { candidate, fallback } => {
            assert!(fallback.is_none());
            join.bungie_after_check(candidate, fallback, true).expect("a name")
        }
        _ => panic!("expected a check"),
    };
    assert!(join.ban_reply(&BanStatus::NotBanned, "Dana").is_none());
    let r = join.finish(&mut state, ticket, name);
    assert_eq!(r, "✅ Dana entered the queue at position #1");
    let q = state.queue(&chan()).expect("queue stored");
    assert_eq!(q.row(0).bungie_name, "Dana#1234");
}

#[test]
fn join_refusals() {
    let state = BotState::new(config_with_chan(false, 10, 1));
    let join = JoinCommand;
    match join.start(&state, &event("7", "Dana", "!join")) {
        JoinStart::Reply(Some(m)) => assert_eq!(m, "❌ Dana the queue is closed 😭 please try again later 💜"),
        _ => panic!("expected the closed reply"),
    }
    let mut e = event("7", "Dana", "!join");
    e.follower = Some(false);
    match join.start(&state, &e) {
        JoinStart::Reply(Some(m)) => assert_eq!(m, "You are not following the channel 😭"),
        _ => panic!("expected the follower reply"),
    }
    assert_eq!(
        join.ban_reply(&BanStatus::Timed { reason: None }, "Dana"),
        Some("❌ Dana you are timed out 😔 please try again later 💜".to_string())
    );
    assert_eq!(
        join.invalid_bungie_reply("Dana"),
        "❌ Dana that was an invalid bungie name 😭please try again! Correct format would be: johnbungie#1234 💜"
    );
}

#[test]
fn bungie_name_choice() {
    let join = JoinCommand;
    assert!(matches!(join.bungie_step(None, None), BungieStep::Missing));
    assert!(matches!(join.bungie_step(Some("no hash".to_string()), None), BungieStep::Missing));
    match join.bungie_step(Some("no hash".to_string()), Some("Old#0001".to_string())) {
        BungieStep::Use(x) => assert_eq!(x, "Old#0001"),
        _ => panic!("expected the stored name"),
    }
    match join.bungie_step(Some("Old#0001".to_string()), Some("Old#0001".to_string())) {
        BungieStep::Use(x) => assert_eq!(x, "Old#0001"),
        _ => panic!("expected the stored name"),
    }
    assert_eq!(
        join.bungie_after_check("New#0002".to_string(), Some("Old#0001".to_string()), false),
        Some("Old#0001".to_string())
    );
}

#[test]
fn sharing_checks_its_arguments() {
    let mut cfg = config_with_chan(true, 10, 1);
    assert!(queue_share_checked(&mut cfg, &chan(), "", Platform::Twitch).is_none());
    assert!(queue_share_checked(&mut cfg, &chan(), "!queue_share twitch:chan kick:", Platform::Twitch).is_none());
    assert!(queue_share_checked(&mut cfg, &chan(), "!queue_share twitch:chan twitch:a:b", Platform::Twitch).is_none());
    match queue_share_checked(&mut cfg, &chan(), "!queue_share twitch:chan irc:x kick:", Platform::Twitch) {
        Some(Err(BotError::Custom(m))) => assert_eq!(m, "Invalid platform"),
        _ => panic!("the platform error comes first"),
    }
    match queue_share_checked(&mut cfg, &chan(), "!queue_share off", Platform::Twitch) {
        Some(Ok(m)) => assert_eq!(m, "Shared queue DISABLED"),
        _ => panic!("expected the reply"),
    }
}

#[test]
fn shared_display_names_block_move_and_prio() {
    let mut state = BotState::new(config_with_chan(true, 10, 1));
    for (id, d, b) in [("1", "alice", "A#1"), ("2", "twin", "T#2"), ("3", "carl", "C#3"), ("4", "twin", "T#4")] {
        ForceAddCommand.execute(&mut state, &chan(), entry(id, d, b)).ok().expect("added");
    }
    match state.move_command(&event("9", "mod", "!move twin")) {
        Err(BotError::Custom(m)) => assert_eq!(m, "More than one viewer in the queue is named twin"),
        _ => panic!("two rows named twin"),
    }
    match state.prio_command(&event("9", "mod", "!prio twin")) {
        Err(BotError::Custom(m)) => assert_eq!(m, "More than one viewer in the queue is named twin"),
        _ => panic!("two rows named twin"),
    }
    assert_eq!(queue_displays(&state), vec!["alice", "twin", "carl", "twin"]);
    let mut late = BotState::new(config_with_chan(true, 10, 3));
    for (id, d, b) in [("1", "alice", "A#1"), ("2", "twin", "T#2"), ("4", "twin", "T#4")] {
        ForceAddCommand.execute(&mut late, &chan(), entry(id, d, b)).ok().expect("added");
    }
    assert_eq!(late.move_command(&event("9", "mod", "!move twin")).ok(), Some("User twin is already in the last group.".to_string()));
}
