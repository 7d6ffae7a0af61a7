//! The bot's chat replies.

use vstd::prelude::*;
use crate::platform::{ChannelId, id_view_text};
use crate::text::{cat2, cat3, cat5, cat7, i64_to_string, dec_int};

verus! {

pub struct Replies;

impl Replies {
    pub fn join_closed(user: &str) -> (r: String)
        ensures
            r@ == "❌ "@ + user@ + " the queue is closed 😭 please try again later 💜"@,
    {
        cat3("❌ ", user, " the queue is closed 😭 please try again later 💜")
    }

    pub fn join_invalid_bungie(user: &str) -> (r: String)
        ensures
            r@ == "❌ "@ + user@
                + " that was an invalid bungie name 😭please try again! Correct format would be: johnbungie#1234 💜"@,
    {
        cat3(
            "❌ ",
            user,
            " that was an invalid bungie name 😭please try again! Correct format would be: johnbungie#1234 💜",
        )
    }

    pub fn join_banned(user: &str, reason: Option<&str>) -> (r: String)
        ensures
            r@ == match reason {
                Some(x) => "❌ "@ + user@ + " you are banned from queue for "@ + x@ + " 😔"@,
                None => "❌ "@ + user@ + " you are banned from queue, beg for forgiveness 💀"@,
            },
    {
        match reason {
            Some(x) => cat5("❌ ", user, " you are banned from queue for ", x, " 😔"),
            None => cat3("❌ ", user, " you are banned from queue, beg for forgiveness 💀"),
        }
    }

    pub fn join_timed_out(user: &str) -> (r: String)
        ensures
            r@ == "❌ "@ + user@ + " you are timed out 😔 please try again later 💜"@,
    {
        cat3("❌ ", user, " you are timed out 😔 please try again later 💜")
    }

    pub fn add_to_queue(user: &str) -> (r: String)
        ensures
            r@ == "✅"@ + user@ + " has been added to the queue! 🫡"@,
    {
        cat3("✅", user, " has been added to the queue! 🫡")
    }

    pub fn join_added(user: &str, next_position: &str) -> (r: String)
        ensures
            r@ == "✅"@ + user@ + " has joined the queue at position "@ + next_position@ + "! 🥳"@,
    {
        cat5("✅", user, " has joined the queue at position ", next_position, "! 🥳")
    }

    pub fn raffle_won(user: &str) -> (r: String)
        ensures
            r@ == "🎯"@ + user@ + " have won the next run! 🥳 Please be ready for an invite! 💜"@,
    {
        cat3("🎯", user, " have won the next run! 🥳 Please be ready for an invite! 💜")
    }

    pub fn queue_empty(broadcaster: &str) -> (r: String)
        ensures
            r@ == "💀 "@ + broadcaster@ + " the queue is empty..? 👁👄👁"@,
    {
        cat3("💀 ", broadcaster, " the queue is empty..? 👁👄👁")
    }

    pub fn next_group(group: &str) -> (r: String)
        ensures
            r@ == "🎯The next group - "@ + group@ + " !! 🥳Please be ready for an invite! 💜"@,
    {
        cat3("🎯The next group - ", group, " !! 🥳Please be ready for an invite! 💜")
    }

    pub fn queue_opened() -> (r: String)
        ensures
            r@ == "🔓The queue is open!🔓"@,
    {
        "🔓The queue is open!🔓".to_owned()
    }

    pub fn queue_closed() -> (r: String)
        ensures
            r@ == "🔐The queue is closed🔐"@,
    {
        "🔐The queue is closed🔐".to_owned()
    }

    pub fn queue_removed(user: &str) -> (r: String)
        ensures
            r@ == "💀 "@ + user@ + " has been removed from the queue 😥"@,
    {
        cat3("💀 ", user, " has been removed from the queue 😥")
    }

    pub fn queue_size(size: &str) -> (r: String)
        ensures
            r@ == "✅ Group size is now "@ + size@ + " people per run! 🥳"@,
    {
        cat3("✅ Group size is now ", size, " people per run! 🥳")
    }

    pub fn queue_length(length: &str) -> (r: String)
        ensures
            r@ == "✅ Queue length is now "@ + length@ + "!! 🤩"@,
    {
        cat3("✅ Queue length is now ", length, "!! 🤩")
    }

    pub fn prio_queue(user: &str) -> (r: String)
        ensures
            r@ == "⭐💎"@ + user@ + " has been given a priority run! 💎⭐"@,
    {
        cat3("⭐💎", user, " has been given a priority run! 💎⭐")
    }

    pub fn priod_for__queue(user: &str, number: &str) -> (r: String)
        ensures
            r@ == "⭐💎"@ + user@ + " has been given "@ + number@ + " priority runs!  💎⭐"@,
    {
        cat5("⭐💎", user, " has been given ", number, " priority runs!  💎⭐")
    }

    pub fn pos_reply(group: i64, index: &str, max_count: &str, user: &str) -> (r: String)
        ensures
            r@ == pos_reply_spec(group as int, index@, max_count@, user@),
    {
        if group == 1 {
            cat7("📋 ", user, " you are at position ", index, "/", max_count, " and in LIVE group! DinoDance")
        } else if group == 2 {
            cat7("📋 ", user, " you are at position ", index, "/", max_count, " and in NEXT group! GoldPLZ")
        } else {
            let g = i64_to_string(group);
            let head = cat7("📋 ", user, " you are at position ", index, "/", max_count, " (Group ");
            cat3(head.as_str(), g.as_str(), ") 💜")
        }
    }

    pub fn config_header(channel: &ChannelId) -> (r: String)
        requires
            channel.wf(),
        ensures
            r@ == "📋 Channel config for "@ + id_view_text(channel@),
    {
        cat2("📋 Channel config for ", channel.as_str())
    }

    pub fn queue_runs_reset(channel: &ChannelId) -> (r: String)
        requires
            channel.wf(),
        ensures
            r@ == "📋 Runs reset for "@ + id_view_text(channel@),
    {
        cat2("📋 Runs reset for ", channel.as_str())
    }
}

pub open spec fn pos_reply_spec(group: int, index: Seq<char>, max_count: Seq<char>, user: Seq<char>) -> Seq<char> {
    let head = "📋 "@ + user + " you are at position "@ + index + "/"@ + max_count;
    if group == 1 {
        head + " and in LIVE group! DinoDance"@
    } else if group == 2 {
        head + " and in NEXT group! GoldPLZ"@
    } else {
        head + " (Group "@ + dec_int(group) + ") 💜"@
    }
}

} // verus!
