//! What the chat connection loops decide: which channels to join, which
//! messages to pass on or ban for, when to reconnect.

use vstd::prelude::*;
use crate::config::{BotConfig, ConfigView};
use crate::platform::{IdView, Platform};
use crate::text::{ascii_lower_seq, eq_ignore_ascii_case, str_seq_eq, strings_view};
use crate::spam::{bannable, is_bannable_link};

verus! {

/// Whether a Twitch message was forwarded from another chat of a shared
/// chat session: it carries both room ids and they differ.
pub fn is_forwarded(room_id: Option<&str>, source_room_id: Option<&str>) -> (r: bool)
    ensures
        r == (match (room_id, source_room_id) {
            (Some(a), Some(b)) => a@ != b@,
            _ => false,
        }),
{
    match (room_id, source_room_id) {
        (Some(a), Some(b)) => !str_seq_eq(a, b),
        _ => false,
    }
}

/// Whether the `first-msg` tag marks a sender's first message in the
/// channel: the tag is present with the value `1`.
pub fn is_first_message(first_msg: Option<Option<&str>>) -> (r: bool)
    ensures
        r == (first_msg matches Some(Some(v)) && v@ == "1"@),
{
    match first_msg {
        Some(Some(v)) => str_seq_eq(v, "1"),
        _ => false,
    }
}

/// Whether to ban the sender of a message: spam (see `bannable`) sent as
/// their first message in the channel.
pub fn should_ban(text: &str, first_message: bool) -> (r: bool)
    ensures
        r == (bannable(text@) && first_message),
{
    is_bannable_link(text) && first_message
}

/// What the bot says after banning a spammer.
pub fn ban_reply() -> (r: String)
    ensures
        r@ == "Kr4pTr4p is the last bot this channel needed."@,
{
    "Kr4pTr4p is the last bot this channel needed.".to_owned()
}

/// Most reconnection attempts before a channel's loop gives up.
pub open spec fn max_attempts() -> int {
    25
}

/// Two to the power `n`.
pub open spec fn pow2(n: nat) -> nat
    decreases n,
{
    if n == 0 { 1 } else { 2 * pow2((n - 1) as nat) }
}

/// The wait before reconnecting after `attempts` failures, in
/// milliseconds: `2^min(attempts, 6)` seconds.
pub open spec fn backoff_ms(attempts: u32) -> int {
    (pow2(if attempts < 6 { attempts as nat } else { 6 }) * 1000) as int
}

/// After one more failure of a channel's chat loop: the new count, the wait
/// before the next attempt, and whether to give up instead.
pub fn after_failure(attempts: u32) -> (r: (u32, u64, bool))
    requires
        attempts < u32::MAX,
    ensures
        r.0 == attempts + 1,
        r.1 == backoff_ms(r.0),
        r.2 == (r.0 >= max_attempts()),
{
    let n = attempts + 1;
    let e: u32 = if n < 6 { n } else { 6 };
    let p: u64 = if e == 0 {
        1
    } else if e == 1 {
        2
    } else if e == 2 {
        4
    } else if e == 3 {
        8
    } else if e == 4 {
        16
    } else if e == 5 {
        32
    } else {
        64
    };
    proof {
        reveal_with_fuel(pow2, 7);
    }
    assert(p == pow2(e as nat));
    (n, p * 1000, n >= 25)
}

/// Whether a channel runs the points loop: one of its packages is
/// `points`, in any ASCII case.
pub fn wants_points(packages: &Vec<String>) -> (r: bool)
    ensures
        r == exists|i: int| 0 <= i < packages@.len() && ascii_lower_seq(#[trigger] packages@[i]@) == "points"@,
{
    let mut i: usize = 0;
    while i < packages.len()
        invariant
            i <= packages@.len(),
            forall|j: int| 0 <= j < i ==> ascii_lower_seq(#[trigger] packages@[j]@) != "points"@,
        decreases packages@.len() - i,
    {
        if eq_ignore_ascii_case(packages[i].as_str(), "points") {
            proof {
                reveal_strlit("points");
                assert(ascii_lower_seq("points"@) =~= "points"@);
            }
            return true;
        }
        proof {
            reveal_strlit("points");
            assert(ascii_lower_seq("points"@) =~= "points"@);
        }
        i = i + 1;
    }
    false
}

/// The names of the stored channels on `p`, in stored order.
pub open spec fn channels_on_spec(s: Seq<(IdView, ConfigView)>, p: Platform) -> Seq<Seq<char>>
    decreases s.len(),
{
    if s.len() == 0 {
        seq![]
    } else {
        let rest = channels_on_spec(s.drop_last(), p);
        if s.last().0.platform == p { rest.push(s.last().0.name) } else { rest }
    }
}

/// The channels to join on a platform: every stored channel on it.
pub fn channels_on(cfg: &BotConfig, p: Platform) -> (r: Vec<String>)
    requires
        cfg.wf(),
    ensures
        strings_view(r@) == channels_on_spec(cfg@, p),
{
    let ghost s = cfg@;
    let mut out: Vec<String> = Vec::new();
    let mut i: usize = 0;
    while i < cfg.len()
        invariant
            s == cfg@,
            cfg.wf(),
            i <= s.len(),
            strings_view(out@) == channels_on_spec(s.take(i as int), p),
        decreases s.len() - i,
    {
        let (id, _) = cfg.entry(i);
        let ghost prev = strings_view(out@);
        assert(s.take(i + 1).drop_last() =~= s.take(i as int));
        assert(s.take(i + 1).last() == s[i as int]);
        if id.platform() == p {
            let name = id.channel().to_owned();
            out.push(name);
            assert(strings_view(out@) =~= prev.push(name@));
        }
        i = i + 1;
    }
    assert(s.take(s.len() as int) =~= s);
    out
}

} // verus!
