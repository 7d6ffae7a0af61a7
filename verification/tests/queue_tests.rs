use krapbott::error::BotError;
use krapbott::platform::{Platform, UserId};
use krapbott::queue::{ChannelQueue, Queue, QueueEntry};

fn entry(id: &str, display: &str, bungie: &str) -> QueueEntry {
    QueueEntry {
        user_id: UserId::new(Platform::Twitch, id),
        bungie_name: bungie.to_string(),
        display_name: display.to_string(),
    }
}

fn three() -> ChannelQueue {
    let mut q = ChannelQueue::new();
    q.add_to_queue(10, entry("1", "alice", "A#1"), Queue::Join, false);
    q.add_to_queue(10, entry("2", "bob", "B#2"), Queue::Join, false);
    q.add_to_queue(10, entry("3", "carl", "C#3"), Queue::Join, false);
    q
}

fn displays(q: &ChannelQueue) -> Vec<String> {
    let mut v = Vec::new();
    for i in 0..q.len() {
        v.push(q.row(i).display_name.clone());
    }
    v
}

#[test]
fn join_reports_position() {
    let mut q = ChannelQueue::new();
    let r1 = q.add_to_queue(10, entry("1", "alice", "A#1"), Queue::Join, false);
    assert_eq!(r1, "✅ alice entered the queue at position #1");
    let r2 = q.add_to_queue(10, entry("2", "bob", "B#2"), Queue::Join, false);
    assert_eq!(r2, "✅ bob entered the queue at position #2");
    assert_eq!(q.len(), 2);
    assert_eq!(q.row(1).group_priority, 2);
    assert!(!q.row(1).locked_first);
    assert_eq!(q.row(1).priority_runs_left, 0);
}

#[test]
fn join_to_raffle_reply() {
    let mut q = ChannelQueue::new();
    let r = q.add_to_queue(10, entry("1", "alice", "A#1"), Queue::Join, true);
    assert_eq!(r, "✅ alice entered the raffle");
}

#[test]
fn join_refused_when_full() {
    let mut q = ChannelQueue::new();
    q.add_to_queue(1, entry("1", "alice", "A#1"), Queue::Join, false);
    let r = q.add_to_queue(1, entry("2", "bob", "B#2"), Queue::Join, false);
    assert_eq!(r, "❌ bob, you can't enter the queue, it is full");
    let r = q.add_to_queue(1, entry("2", "bob", "B#2"), Queue::Join, true);
    assert_eq!(r, "❌ bob, you can't enter the raffle, it is full");
    assert_eq!(q.len(), 1);
}

#[test]
fn force_join_ignores_full_queue() {
    let mut q = ChannelQueue::new();
    q.add_to_queue(1, entry("1", "alice", "A#1"), Queue::Join, false);
    let r = q.add_to_queue(1, entry("2", "bob", "A#1"), Queue::ForceJoin, false);
    assert_eq!(r, "✅ bob entered the queue at position #2");
    assert_eq!(q.len(), 2);
}

#[test]
fn join_refused_for_queued_bungie_name() {
    let mut q = ChannelQueue::new();
    q.add_to_queue(10, entry("1", "alice", "A#1"), Queue::Join, false);
    let r = q.add_to_queue(10, entry("2", "bob", "A#1"), Queue::Join, false);
    assert_eq!(r, "❌ bob, wishes for some jail time ⛓");
    assert_eq!(q.len(), 1);
}

#[test]
fn queued_user_updates_names() {
    let mut q = three();
    let r = q.process_queue_entry(10, entry("2", "bobby", "New#0001"), Queue::Join, false);
    assert_eq!(r, "✅ bobby has updated their bungie name to New#0001");
    assert_eq!(q.len(), 3);
    assert_eq!(q.row(1).display_name, "bobby");
    assert_eq!(q.row(1).bungie_name, "New#0001");
}

#[test]
fn process_entry_adds_new_user() {
    let mut q = three();
    let r = q.process_queue_entry(10, entry("4", "dan", "D#4"), Queue::Join, false);
    assert_eq!(r, "✅ dan entered the queue at position #4");
    assert_eq!(q.index_of(&UserId::new(Platform::Twitch, "4")), Some(3));
}

#[test]
fn remove_from_queue_moves_rows_up() {
    let mut q = three();
    assert!(q.remove_from_queue(&UserId::new(Platform::Twitch, "1")));
    assert_eq!(displays(&q), vec!["bob", "carl"]);
    assert!(!q.remove_from_queue(&UserId::new(Platform::Twitch, "1")));
    assert_eq!(q.len(), 2);
}

#[test]
fn leave_from_live_group_refused() {
    let mut q = three();
    let r = q.leave(&UserId::new(Platform::Twitch, "1"), "alice", 1, false);
    assert_eq!(r, "You cannot leave the LIVE group! Ask the streamer or wait for !next");
    assert_eq!(q.len(), 3);
}

#[test]
fn leave_behind_live_group() {
    let mut q = three();
    let r = q.leave(&UserId::new(Platform::Twitch, "2"), "bob", 1, false);
    assert_eq!(r, "BigSad bob has left the queue.");
    assert_eq!(displays(&q), vec!["alice", "carl"]);
    let r = q.leave(&UserId::new(Platform::Twitch, "3"), "carl", 1, true);
    assert_eq!(r, "BigSad carl has left the raffle.");
}

#[test]
fn leave_when_not_queued() {
    let mut q = three();
    let r = q.leave(&UserId::new(Platform::Twitch, "9"), "zed", 1, false);
    assert_eq!(r, "You were already free, zed");
    assert_eq!(q.len(), 3);
}

#[test]
fn next_announces_new_live_group() {
    let mut q = three();
    let r = q.next_handler("chan", 1);
    assert_eq!(r, "🎯The next group - @bob (B#2) !! 🥳Please be ready for an invite! 💜");
    assert_eq!(displays(&q), vec!["bob", "carl"]);
}

#[test]
fn next_with_group_of_two() {
    let mut q = three();
    let r = q.next_handler("chan", 2);
    assert_eq!(r, "🎯The next group - @carl (C#3) !! 🥳Please be ready for an invite! 💜");
    assert_eq!(displays(&q), vec!["carl"]);
}

#[test]
fn next_on_empty_queue() {
    let mut q = ChannelQueue::new();
    let r = q.next_handler("chan", 1);
    assert_eq!(r, "💀 chan the queue is empty..? 👁👄👁");
}

#[test]
fn prio_runs_keep_live_row() {
    let mut q = three();
    // carl gets two priority runs and moves behind the live group.
    let r = q.prio("carl", Some(2), 1);
    assert_eq!(r, "⭐💎carl has been given 2 priority runs!  💎⭐");
    assert_eq!(displays(&q), vec!["alice", "carl", "bob"]);
    assert_eq!(q.row(1).group_priority, 1);
    assert_eq!(q.row(1).priority_runs_left, 2);
    // alice plays; carl is now live and gets locked.
    q.next_handler("chan", 1);
    assert_eq!(displays(&q), vec!["carl", "bob"]);
    assert!(q.row(0).locked_first);
    // carl plays one run and stays with one run left.
    q.next_handler("chan", 1);
    assert_eq!(displays(&q), vec!["carl", "bob"]);
    assert_eq!(q.row(0).priority_runs_left, 1);
    // the last run: carl leaves.
    let r = q.next_handler("chan", 1);
    assert_eq!(displays(&q), vec!["bob"]);
    assert_eq!(r, "🎯The next group - @bob (B#2) !! 🥳Please be ready for an invite! 💜");
}

#[test]
fn prio_without_runs() {
    let mut q = three();
    let r = q.prio("carl", None, 1);
    assert_eq!(r, "⭐💎carl has been given a priority run! 💎⭐");
    assert_eq!(displays(&q), vec!["alice", "carl", "bob"]);
    assert_eq!(q.row(1).group_priority, 2);
}

#[test]
fn prio_unknown_user() {
    let mut q = three();
    let r = q.prio("zed", None, 1);
    assert_eq!(r, "User zed not found in the queue");
    assert_eq!(displays(&q), vec!["alice", "bob", "carl"]);
}

#[test]
fn prio_inside_live_group_stays_at_its_end() {
    let mut q = three();
    q.prio("alice", None, 2);
    assert_eq!(displays(&q), vec!["bob", "alice", "carl"]);
}

#[test]
fn move_to_next_group_moves_one_group_back() {
    let mut q = three();
    let r = q.move_to_next_group("alice", 1);
    assert_eq!(r, "User alice has been moved to the next group.");
    assert_eq!(displays(&q), vec!["bob", "alice", "carl"]);
}

#[test]
fn move_in_last_group_refused() {
    let mut q = three();
    let r = q.move_to_next_group("carl", 1);
    assert_eq!(r, "User carl is already in the last group.");
    let r = q.move_to_next_group("zed", 1);
    assert_eq!(r, "User zed isn’t in the queue!");
    assert_eq!(displays(&q), vec!["alice", "bob", "carl"]);
}

#[test]
fn remove_by_display_name() {
    let mut q = three();
    let r = q.remove_by_display("bob");
    assert_eq!(r, "💀 bob has been removed from the queue 😥");
    assert_eq!(displays(&q), vec!["alice", "carl"]);
    let r = q.remove_by_display("bob");
    assert_eq!(r, "User bob not found in the queue. FailFish");
}

#[test]
fn raffle_draw_with_given_order() {
    let mut q = three();
    let r = q.randomize_with(1, &vec![1, 0]);
    assert_eq!(r, "🎯carl have won the next run! 🥳 Please be ready for an invite! 💜");
    assert_eq!(displays(&q), vec!["carl", "bob"]);
}

#[test]
fn random_raffle_draw_keeps_the_rest() {
    let mut q = three();
    q.randomize_queue(1);
    let mut d = displays(&q);
    d.sort();
    assert_eq!(d, vec!["bob", "carl"]);
}

#[test]
fn random_permutation_lists_each_index_once() {
    let mut p = krapbott::queue::random_permutation(7);
    p.sort();
    assert_eq!(p, vec![0, 1, 2, 3, 4, 5, 6]);
}

#[test]
fn reorder_by_user_list() {
    let mut q = three();
    let order = vec![
        UserId::new(Platform::Twitch, "3"),
        UserId::new(Platform::Twitch, "1"),
        UserId::new(Platform::Twitch, "2"),
    ];
    assert!(q.reorder_queue(&order));
    assert_eq!(displays(&q), vec!["carl", "alice", "bob"]);
}

#[test]
fn reorder_refuses_partial_or_repeated_lists() {
    let mut q = three();
    let partial = vec![UserId::new(Platform::Twitch, "3"), UserId::new(Platform::Twitch, "1")];
    assert!(!q.reorder_queue(&partial));
    let repeated = vec![
        UserId::new(Platform::Twitch, "3"),
        UserId::new(Platform::Twitch, "3"),
        UserId::new(Platform::Twitch, "2"),
    ];
    assert!(!q.reorder_queue(&repeated));
    let unknown = vec![
        UserId::new(Platform::Twitch, "3"),
        UserId::new(Platform::Twitch, "1"),
        UserId::new(Platform::Twitch, "9"),
    ];
    assert!(!q.reorder_queue(&unknown));
    assert_eq!(displays(&q), vec!["alice", "bob", "carl"]);
}

#[test]
fn list_in_groups() {
    let q = three();
    let r = q.list_reply(1, false, "chan");
    match r {
        Ok(m) => assert_eq!(m, "LIVE: 1. alice (A#1) || NEXT: 2. bob (B#2) || QUEUE: 3. carl (C#3)"),
        Err(_) => panic!("expected a list"),
    }
}

#[test]
fn list_in_raffle_mode() {
    let q = three();
    match q.list_reply(1, true, "chan") {
        Ok(m) => assert_eq!(m, "Chosen: 1. alice (A#1) // Entered people: 2. bob (B#2), 3. carl (C#3)"),
        Err(_) => panic!("expected a list"),
    }
}

#[test]
fn list_of_empty_queue() {
    let q = ChannelQueue::new();
    match q.list_reply(1, false, "chan") {
        Err(BotError::Chat(m)) => assert_eq!(m, "❌❌❌The queue is empty❌❌❌"),
        _ => panic!("expected the empty queue error"),
    }
}

#[test]
fn long_list_links_to_the_page() {
    let mut q = ChannelQueue::new();
    for i in 0..40 {
        let id = format!("{}", i);
        let name = format!("viewer_number_{}", i);
        q.add_to_queue(100, entry(&id, &name, &format!("Name{}#1234", i)), Queue::Join, false);
    }
    match q.list_reply(2, false, "chan") {
        Ok(m) => assert_eq!(m, "You can find queue here: https://krapbott-rajo.shuttle.app/queue.html?streamer=chan"),
        Err(_) => panic!("expected a link"),
    }
}

#[test]
fn position_in_groups() {
    let q = three();
    let alice = UserId::new(Platform::Twitch, "1");
    let bob = UserId::new(Platform::Twitch, "2");
    let carl = UserId::new(Platform::Twitch, "3");
    assert_eq!(
        q.position_reply(&alice, "alice", 1, false, true, 10),
        "📋 alice you are at position 1/3 and in LIVE group! DinoDance"
    );
    assert_eq!(
        q.position_reply(&bob, "bob", 1, false, true, 10),
        "📋 bob you are at position 2/3 and in NEXT group! GoldPLZ"
    );
    assert_eq!(q.position_reply(&carl, "carl", 1, false, true, 10), "📋 carl you are at position 3/3 (Group 3) 💜");
}

#[test]
fn position_when_not_queued() {
    let q = three();
    let zed = UserId::new(Platform::Twitch, "9");
    assert_eq!(
        q.position_reply(&zed, "zed", 1, false, true, 10),
        "You are not in queue, zed. There is 3 users in queue"
    );
    assert_eq!(q.position_reply(&zed, "zed", 1, false, false, 10), "The queue is CLOSED 🚫 and you are not in queue, zed");
    assert_eq!(q.position_reply(&zed, "zed", 1, false, true, 3), "Queue is FULL and you are not in queue, zed");
}

#[test]
fn position_in_raffle() {
    let q = three();
    let bob = UserId::new(Platform::Twitch, "2");
    let zed = UserId::new(Platform::Twitch, "9");
    assert_eq!(q.position_reply(&bob, "bob", 1, true, true, 10), "✅ You are entered in the raffle, bob");
    assert_eq!(q.position_reply(&zed, "zed", 1, true, true, 10), "❌ You are not entered in the raffle, zed");
}

#[test]
fn obs_entries_number_positions() {
    let q = three();
    let e = q.obs_entries();
    assert_eq!(e.len(), 3);
    assert_eq!(e[0].position, 1);
    assert_eq!(e[2].position, 3);
    assert_eq!(e[1].display_name, "bob");
    assert_eq!(e[1].bungie_name, "B#2");
    assert_eq!(e[1].user_id, "twitch:2");
}

#[test]
fn lookups_by_name() {
    let q = three();
    assert!(q.contains_bungie("B#2"));
    assert!(!q.contains_bungie("Z#9"));
    assert_eq!(q.first_index_of_display("carl"), Some(2));
    assert_eq!(q.first_index_of_display("zed"), None);
}
