//! Permission levels of chat users, from badges, and the permission check.

use vstd::prelude::*;
use crate::platform::Platform;
use crate::text::str_seq_eq;

verus! {

/// Permission levels, from highest to lowest.
#[derive(Debug, Clone, Copy, PartialEq, Eq, Structural)]
pub enum PermissionLevel {
    Broadcaster,
    LeadModerator,
    Moderator,
    Vip,
    Subscriber,
    Follower,
    Everyone,
}

/// Position in the order of levels: 0 is the highest.
pub open spec fn rank(p: PermissionLevel) -> int {
    match p {
        PermissionLevel::Broadcaster => 0,
        PermissionLevel::LeadModerator => 1,
        PermissionLevel::Moderator => 2,
        PermissionLevel::Vip => 3,
        PermissionLevel::Subscriber => 4,
        PermissionLevel::Follower => 5,
        PermissionLevel::Everyone => 6,
    }
}

impl PermissionLevel {
    pub fn rank(&self) -> (r: u8)
        ensures
            r as int == rank(*self),
    {
        match self {
            PermissionLevel::Broadcaster => 0,
            PermissionLevel::LeadModerator => 1,
            PermissionLevel::Moderator => 2,
            PermissionLevel::Vip => 3,
            PermissionLevel::Subscriber => 4,
            PermissionLevel::Follower => 5,
            PermissionLevel::Everyone => 6,
        }
    }

    /// `self <= required` in the order of levels: this level is at least as high.
    pub fn satisfies(&self, required: PermissionLevel) -> (r: bool)
        ensures
            r == (rank(*self) <= rank(required)),
    {
        self.rank() <= required.rank()
    }

    /// The level's display text.
    pub fn to_display_string(&self) -> (r: String)
        ensures
            r@ == permission_text(*self),
    {
        match self {
            PermissionLevel::Broadcaster => "broadcaster".to_owned(),
            PermissionLevel::LeadModerator => "lead moderator".to_owned(),
            PermissionLevel::Moderator => "moderator".to_owned(),
            PermissionLevel::Vip => "vip".to_owned(),
            PermissionLevel::Subscriber => "subscriber".to_owned(),
            PermissionLevel::Follower => "follower".to_owned(),
            PermissionLevel::Everyone => "How you managed that?".to_owned(),
        }
    }
}

pub open spec fn permission_text(p: PermissionLevel) -> Seq<char> {
    match p {
        PermissionLevel::Broadcaster => "broadcaster"@,
        PermissionLevel::LeadModerator => "lead moderator"@,
        PermissionLevel::Moderator => "moderator"@,
        PermissionLevel::Vip => "vip"@,
        PermissionLevel::Subscriber => "subscriber"@,
        PermissionLevel::Follower => "follower"@,
        PermissionLevel::Everyone => "How you managed that?"@,
    }
}

/// Whether `needle` is one of `items`.
pub open spec fn seq_has(items: Seq<Seq<char>>, needle: Seq<char>) -> bool {
    exists|i: int| 0 <= i < items.len() && items[i] == needle
}

/// Whether one of the strings equals `needle`.
pub fn any_equals(items: &Vec<String>, needle: &str) -> (r: bool)
    ensures
        r == seq_has(crate::text::strings_view(items@), needle@),
{
    let mut i: usize = 0;
    while i < items.len()
        invariant
            i <= items@.len(),
            forall|j: int| 0 <= j < i ==> items@[j]@ != needle@,
        decreases items@.len() - i,
    {
        if str_seq_eq(items[i].as_str(), needle) {
            assert(crate::text::strings_view(items@)[i as int] == items@[i as int]@);
            return true;
        }
        i = i + 1;
    }
    assert forall|j: int| 0 <= j < items@.len() implies crate::text::strings_view(items@)[j] != needle@ by {
        assert(crate::text::strings_view(items@)[j] == items@[j]@);
    }
    false
}

/// Level given by Kick badge types (already lowercased).
pub open spec fn permission_from_badges_spec(badges: Seq<Seq<char>>) -> PermissionLevel {
    if seq_has(badges, "broadcaster"@) {
        PermissionLevel::Broadcaster
    } else if seq_has(badges, "moderator"@) {
        PermissionLevel::Moderator
    } else if seq_has(badges, "vip"@) {
        PermissionLevel::Vip
    } else if seq_has(badges, "subscriber"@) {
        PermissionLevel::Subscriber
    } else {
        PermissionLevel::Everyone
    }
}

/// The level of a Kick sender from their badge types.
pub fn permission_from_badges(badges: &Vec<String>) -> (r: PermissionLevel)
    ensures
        r == permission_from_badges_spec(crate::text::strings_view(badges@)),
{
    if any_equals(badges, "broadcaster") {
        PermissionLevel::Broadcaster
    } else if any_equals(badges, "moderator") {
        PermissionLevel::Moderator
    } else if any_equals(badges, "vip") {
        PermissionLevel::Vip
    } else if any_equals(badges, "subscriber") {
        PermissionLevel::Subscriber
    } else {
        PermissionLevel::Everyone
    }
}

/// Level given by Twitch badge names.
pub open spec fn twitch_permission_spec(badges: Seq<Seq<char>>) -> PermissionLevel {
    if seq_has(badges, "broadcaster"@) {
        PermissionLevel::Broadcaster
    } else if seq_has(badges, "lead_moderator"@) {
        PermissionLevel::LeadModerator
    } else if seq_has(badges, "moderator"@) {
        PermissionLevel::Moderator
    } else if seq_has(badges, "vip"@) {
        PermissionLevel::Vip
    } else if seq_has(badges, "subscriber"@) {
        PermissionLevel::Subscriber
    } else {
        PermissionLevel::Everyone
    }
}

/// The level of a Twitch sender from the names of their badges.
pub fn twitch_permission(badges: &Vec<String>) -> (r: PermissionLevel)
    ensures
        r == twitch_permission_spec(crate::text::strings_view(badges@)),
{
    if any_equals(badges, "broadcaster") {
        PermissionLevel::Broadcaster
    } else if any_equals(badges, "lead_moderator") {
        PermissionLevel::LeadModerator
    } else if any_equals(badges, "moderator") {
        PermissionLevel::Moderator
    } else if any_equals(badges, "vip") {
        PermissionLevel::Vip
    } else if any_equals(badges, "subscriber") {
        PermissionLevel::Subscriber
    } else {
        PermissionLevel::Everyone
    }
}

/// What the permission check decides before any outside lookup.
#[derive(Debug, Clone, Copy, PartialEq, Eq, Structural)]
pub enum PermissionStep {
    Granted,
    Denied,
    /// Only a follower check on Twitch can still grant it.
    CheckFollower,
}

pub open spec fn permission_step_spec(user: Option<PermissionLevel>, required: PermissionLevel, platform: Platform) -> PermissionStep {
    match user {
        None => PermissionStep::Denied,
        Some(p) => if rank(p) <= rank(required) {
            PermissionStep::Granted
        } else if required == PermissionLevel::Follower && platform == Platform::Twitch {
            PermissionStep::CheckFollower
        } else {
            PermissionStep::Denied
        },
    }
}

/// The permission check of a message: no sender is denied; a level at
/// least the required one is granted; a Twitch sender below `Follower`
/// awaits the follower lookup; anything else is denied.
pub fn permission_step(user: Option<PermissionLevel>, required: PermissionLevel, platform: Platform) -> (r: PermissionStep)
    ensures
        r == permission_step_spec(user, required, platform),
{
    match user {
        None => PermissionStep::Denied,
        Some(p) => {
            if p.satisfies(required) {
                PermissionStep::Granted
            } else if required == PermissionLevel::Follower && platform == Platform::Twitch {
                PermissionStep::CheckFollower
            } else {
                PermissionStep::Denied
            }
        },
    }
}

} // verus!
