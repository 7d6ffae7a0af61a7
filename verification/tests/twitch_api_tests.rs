use krapbott::error::BotError;
use krapbott::platform::{Platform, UserId};
use krapbott::queue::{ChannelQueue, Queue, QueueEntry};
use krapbott::twitch_api::{app_token_body, follower_answer, follower_url, live_from_body, stream_url, twitch_user_from_body, user_url};

#[test]
fn lookup_addresses() {
    assert_eq!(
        follower_url("123", "456"),
        "https://api.twitch.tv/helix/channels/followers?broadcaster_id=123&user_id=456"
    );
    assert_eq!(user_url("krapmatt"), "https://api.twitch.tv/helix/users?login=krapmatt");
    assert_eq!(stream_url("krapmatt"), "https://api.twitch.tv/helix/streams?user_login=krapmatt");
    assert_eq!(
        app_token_body("id", "secret"),
        "client_id=id&client_secret=secret&grant_type=client_credentials"
    );
}

#[test]
fn follower_answers() {
    assert!(follower_answer(Some(r#"{"total":1,"data":[{"user_id":"456"}]}"#)));
    assert!(!follower_answer(Some(r#"{"total":0,"data":[]}"#)));
    assert!(follower_answer(None));
}

#[test]
fn user_lookup_answers() {
    let body = r#"{"data":[{"id":"141981764","login":"twitchdev","display_name":"TwitchDev"}]}"#;
    assert_eq!(twitch_user_from_body(body).ok(), Some(("141981764".to_string(), "TwitchDev".to_string())));
    match twitch_user_from_body(r#"{"data":[]}"#) {
        Err(BotError::Custom(m)) => assert_eq!(m, "Twitch user not found"),
        _ => panic!("an empty answer finds nobody"),
    }
    match twitch_user_from_body(r#"{"data":[{"display_name":"X"}]}"#) {
        Err(BotError::Custom(m)) => assert_eq!(m, "Can't parse ID"),
        _ => panic!("an answer without id"),
    }
    match twitch_user_from_body(r#"{"data":[{"id":"1"}]}"#) {
        Err(BotError::Custom(m)) => assert_eq!(m, "Can't parse display name"),
        _ => panic!("an answer without display name"),
    }
    match twitch_user_from_body(r#"{"error":"nope"}"#) {
        Err(BotError::Custom(m)) => assert_eq!(m, "Invalid Twitch response"),
        _ => panic!("an answer without data"),
    }
    assert!(matches!(twitch_user_from_body("not json"), Err(BotError::Json(_))));
}

#[test]
fn stream_answers() {
    assert_eq!(live_from_body(r#"{"data":[{"type":"live"}]}"#).ok(), Some(true));
    assert_eq!(live_from_body(r#"{"data":[]}"#).ok(), Some(false));
    assert_eq!(live_from_body(r#"{"other":1}"#).ok(), Some(false));
    assert!(matches!(live_from_body("{"), Err(BotError::Json(_))));
}

fn entry(id: &str, name: &str, bungie: &str) -> QueueEntry {
    QueueEntry { user_id: UserId::new(Platform::Twitch, id), bungie_name: bungie.to_string(), display_name: name.to_string() }
}

#[test]
fn list_needs_enough_viewers_for_a_group() {
    let mut q = ChannelQueue::new();
    assert!(q.list_defined_for(5, false));
    q.add_to_queue(10, entry("1", "alice", "A#1"), Queue::Join, false);
    assert!(!q.list_defined_for(2, false));
    assert!(q.list_defined_for(2, true));
    assert!(q.list_defined_for(1, false));
}
