//! What the chat commands answer and do, stated from their inputs: the
//! permission levels badges give, the `!list` reply, `!move` and `!prio`,
//! and the `!next` announcement.

use vstd::prelude::*;
use crate::permissions::{PermissionLevel, rank, seq_has, twitch_permission_spec, permission_from_badges_spec};
use crate::queue::{RowView, list_reply_spec, list_entries, total_bytes, move_spec, prio_spec, first_display,
    next_rows_spec, next_reply_spec, advance_group, stays_after_run, unique_users, has_user,
    remove_display_spec, drop_display, pos_spec, index_of_user, process_entry_spec, Queue};
use crate::text::{dec, dec_int, join_spec};
use crate::platform::{IdView, unicode_lowercase};
use crate::aliases::{AliasView, alias_outcome, alias_usage, map_get, set_insert, set_remove};
use crate::laws::{unique_pairs, law_alias_read_after_write};
use crate::giveaway::{Giveaway, join_giveaway_spec, amount_of, set_amount, lemma_set_amount_same, lemma_set_amount_other};
use crate::text::{parse_in_range, parse_int_spec, all_digits, digits_value, digit_char, is_digit};
use crate::connection::backoff_ms;

verus! {

/// The Twitch badge that stands for a level, if one does.
pub open spec fn twitch_badge_of(p: PermissionLevel) -> Option<Seq<char>> {
    match p {
        PermissionLevel::Broadcaster => Some("broadcaster"@),
        PermissionLevel::LeadModerator => Some("lead_moderator"@),
        PermissionLevel::Moderator => Some("moderator"@),
        PermissionLevel::Vip => Some("vip"@),
        PermissionLevel::Subscriber => Some("subscriber"@),
        PermissionLevel::Follower => None,
        PermissionLevel::Everyone => None,
    }
}

/// The Kick badge that stands for a level, if one does.
pub open spec fn kick_badge_of(p: PermissionLevel) -> Option<Seq<char>> {
    match p {
        PermissionLevel::Broadcaster => Some("broadcaster"@),
        PermissionLevel::Moderator => Some("moderator"@),
        PermissionLevel::Vip => Some("vip"@),
        PermissionLevel::Subscriber => Some("subscriber"@),
        _ => None,
    }
}

/// A Twitch sender gets the highest level among their badges: every badge
/// they wear gives a level no higher than theirs, and their level is one a
/// badge they wear gives (or `Everyone` without such a badge).
pub proof fn law_twitch_level_is_highest_badge(badges: Seq<Seq<char>>)
    ensures
        forall|p: PermissionLevel| #[trigger] twitch_badge_of(p) matches Some(b) && seq_has(badges, b)
            ==> rank(twitch_permission_spec(badges)) <= rank(p),
        twitch_permission_spec(badges) == PermissionLevel::Everyone
            || (twitch_badge_of(twitch_permission_spec(badges)) matches Some(b) && seq_has(badges, b)),
        (forall|p: PermissionLevel| #[trigger] twitch_badge_of(p) matches Some(b) ==> !seq_has(badges, b))
            ==> twitch_permission_spec(badges) == PermissionLevel::Everyone,
{
}

/// A Kick sender gets the highest level among their badge types, in the
/// same way (Kick has no lead moderator badge).
pub proof fn law_kick_level_is_highest_badge(badges: Seq<Seq<char>>)
    ensures
        forall|p: PermissionLevel| #[trigger] kick_badge_of(p) matches Some(b) && seq_has(badges, b)
            ==> rank(permission_from_badges_spec(badges)) <= rank(p),
        permission_from_badges_spec(badges) == PermissionLevel::Everyone
            || (kick_badge_of(permission_from_badges_spec(badges)) matches Some(b) && seq_has(badges, b)),
        (forall|p: PermissionLevel| #[trigger] kick_badge_of(p) matches Some(b) ==> !seq_has(badges, b))
            ==> permission_from_badges_spec(badges) == PermissionLevel::Everyone,
{
}

/// How `!list` shows the row at `i` (from 0): its place from 1, the display
/// name and the Bungie name in brackets.
pub open spec fn listed_row(s: Seq<RowView>, i: int) -> Seq<char> {
    dec((i + 1) as nat) + ". "@ + s[i].display + " ("@ + s[i].bungie + ")"@
}

/// The texts of the rows at `a..b`, in order.
pub open spec fn listed_rows(s: Seq<RowView>, a: int, b: int) -> Seq<Seq<char>> {
    Seq::new((b - a) as nat, |i: int| listed_row(s, a + i))
}

/// The UTF-8 sizes of the texts of the first `k` rows, added up.
pub open spec fn listed_bytes(s: Seq<RowView>, k: int) -> int
    decreases k,
{
    if k <= 0 {
        0
    } else {
        listed_bytes(s, k - 1) + vstd::utf8::encode_utf8(listed_row(s, k - 1)).len()
    }
}

proof fn lemma_listed_bytes(s: Seq<RowView>, k: int)
    requires
        0 <= k <= s.len(),
    ensures
        total_bytes(list_entries(s).take(k)) == listed_bytes(s, k),
    decreases k,
{
    if k > 0 {
        lemma_listed_bytes(s, k - 1);
        assert(list_entries(s).take(k).drop_last() =~= list_entries(s).take(k - 1));
        assert(list_entries(s).take(k).last() == listed_row(s, k - 1));
    } else {
        assert(list_entries(s).take(k).len() == 0);
    }
}

proof fn lemma_listed_slice(s: Seq<RowView>, a: int, b: int)
    requires
        0 <= a <= b <= s.len(),
    ensures
        list_entries(s).subrange(a, b) == listed_rows(s, a, b),
{
    assert(list_entries(s).subrange(a, b) =~= listed_rows(s, a, b));
}

/// `!list` on the queue `s` with groups of `teamsize`: nothing for an empty
/// queue; in raffle mode the first `teamsize` rows as chosen and the rest as
/// entered; otherwise, while the listing is under 400 bytes, three groups:
/// LIVE the rows `0..teamsize`, NEXT the rows `teamsize..min(n, 2 teamsize)`
/// and QUEUE the rest; a longer listing gives the address of the queue page.
pub proof fn law_list_shows_the_groups(s: Seq<RowView>, teamsize: int, random_queue: bool, owner: Seq<char>)
    requires
        teamsize >= 0,
    ensures
        ({
            let n = s.len() as int;
            let r = list_reply_spec(s, teamsize, random_queue, owner);
            let c = if n < teamsize { n } else { teamsize };
            let m = if n < teamsize * 2 { n } else { teamsize * 2 };
            &&& n == 0 ==> r is None
            &&& n > 0 && random_queue ==> r == Some("Chosen: "@ + join_spec(listed_rows(s, 0, c), ", "@)
                + " // Entered people: "@ + join_spec(listed_rows(s, c, n), ", "@))
            &&& n > 0 && !random_queue && listed_bytes(s, n) < 400 && teamsize <= n ==> r == Some("LIVE: "@
                + join_spec(listed_rows(s, 0, teamsize), ", "@) + " || NEXT: "@
                + join_spec(listed_rows(s, teamsize, m), ", "@) + " || QUEUE: "@
                + join_spec(listed_rows(s, m, n), ", "@))
            &&& n > 0 && !random_queue && listed_bytes(s, n) >= 400 ==> r == Some(
                "You can find queue here: https://krapbott-rajo.shuttle.app/queue.html?streamer="@ + owner)
        }),
{
    let n = s.len() as int;
    let e = list_entries(s);
    lemma_listed_bytes(s, n);
    assert(e.take(n) =~= e);
    let c = if n < teamsize { n } else { teamsize };
    let m = if n < teamsize * 2 { n } else { teamsize * 2 };
    if n > 0 {
        lemma_listed_slice(s, 0, c);
        lemma_listed_slice(s, c, n);
        assert(e.take(c) =~= e.subrange(0, c));
        assert(e.skip(c) =~= e.subrange(c, n));
        if teamsize <= n {
            lemma_listed_slice(s, 0, teamsize);
            lemma_listed_slice(s, teamsize, m);
            lemma_listed_slice(s, m, n);
            assert(e.take(teamsize) =~= e.subrange(0, teamsize));
            assert(e.skip(m) =~= e.subrange(m, n));
        }
    }
}

/// Whether `p` is the first row of `s` named `d`.
pub open spec fn first_named(s: Seq<RowView>, d: Seq<char>, p: int) -> bool {
    0 <= p < s.len() && s[p].display == d && forall|j: int| 0 <= j < p ==> s[j].display != d
}

proof fn lemma_first_display_is(s: Seq<RowView>, d: Seq<char>, p: int)
    requires
        first_named(s, d, p),
    ensures
        first_display(s, d) == Some(p),
{
    reveal(first_display);
    assert(exists|i: int| 0 <= i < s.len() && s[i].display == d);
    let k = choose|k: int| 0 <= k < s.len() && s[k].display == d && forall|j: int| 0 <= j < k ==> s[j].display != d;
    crate::queue::lemma_first_display_range(s, d);
    if k < p {
        assert(s[k].display != d);
    }
    if k > p {
        assert(s[p].display != d);
    }
}

proof fn lemma_first_display_none(s: Seq<RowView>, d: Seq<char>)
    requires
        forall|j: int| 0 <= j < s.len() ==> s[j].display != d,
    ensures
        first_display(s, d) is None,
{
    reveal(first_display);
}

/// `!move <name>` puts the first row named `name` one group (`teamsize`
/// places) further back: the rows it passes move up one place each and every
/// other row keeps its place. A row that would pass the end stays, and the
/// answer says it is already in the last group; a name nobody has changes
/// nothing.
pub proof fn law_move_puts_the_row_one_group_back(s: Seq<RowView>, d: Seq<char>, teamsize: int)
    requires
        teamsize >= 0,
    ensures
        (forall|j: int| 0 <= j < s.len() ==> s[j].display != d)
            ==> move_spec(s, d, teamsize) == (s, "User "@ + d + " isn’t in the queue!"@),
        forall|p: int| #[trigger] first_named(s, d, p) && p + 1 + teamsize > s.len()
            ==> move_spec(s, d, teamsize) == (s, "User "@ + d + " is already in the last group."@),
        forall|p: int| #[trigger] first_named(s, d, p) && p + 1 + teamsize <= s.len() ==> {
            let r = move_spec(s, d, teamsize).0;
            &&& move_spec(s, d, teamsize).1 == "User "@ + d + " has been moved to the next group."@
            &&& r.len() == s.len()
            &&& r[p + teamsize] == s[p]
            &&& forall|i: int| 0 <= i < p ==> #[trigger] r[i] == s[i]
            &&& forall|i: int| p <= i < p + teamsize ==> #[trigger] r[i] == s[i + 1]
            &&& forall|i: int| p + teamsize < i < s.len() ==> #[trigger] r[i] == s[i]
        },
{
    if forall|j: int| 0 <= j < s.len() ==> s[j].display != d {
        lemma_first_display_none(s, d);
    }
    assert forall|p: int| #[trigger] first_named(s, d, p) && p + 1 + teamsize > s.len()
        implies move_spec(s, d, teamsize) == (s, "User "@ + d + " is already in the last group."@) by {
        lemma_first_display_is(s, d, p);
    }
    assert forall|p: int| #[trigger] first_named(s, d, p) && p + 1 + teamsize <= s.len() implies {
        let r = move_spec(s, d, teamsize).0;
        &&& move_spec(s, d, teamsize).1 == "User "@ + d + " has been moved to the next group."@
        &&& r.len() == s.len()
        &&& r[p + teamsize] == s[p]
        &&& forall|i: int| 0 <= i < p ==> #[trigger] r[i] == s[i]
        &&& forall|i: int| p <= i < p + teamsize ==> #[trigger] r[i] == s[i + 1]
        &&& forall|i: int| p + teamsize < i < s.len() ==> #[trigger] r[i] == s[i]
    } by {
        lemma_first_display_is(s, d, p);
        let r = move_spec(s, d, teamsize).0;
        let t = s.remove(p);
        assert(r == t.insert(p + teamsize, s[p]));
        assert forall|i: int| 0 <= i < p implies #[trigger] r[i] == s[i] by {
            assert(t[i] == s[i]);
        }
        assert forall|i: int| p <= i < p + teamsize implies #[trigger] r[i] == s[i + 1] by {
            assert(t[i] == s[i + 1]);
        }
        assert forall|i: int| p + teamsize < i < s.len() implies #[trigger] r[i] == s[i] by {
            assert(r[i] == t[i - 1]);
            assert(t[i - 1] == s[i]);
        }
    }
}

/// The row `!prio` makes of `r`: with a number of runs it becomes a priority
/// row with those runs, not yet locked in the live group; without, it stays
/// as it was.
pub open spec fn given_priority(r: RowView, runs: Option<i32>) -> RowView {
    match runs {
        Some(n) => RowView { user: r.user, display: r.display, bungie: r.bungie, group_priority: 1, locked_first: false, runs_left: n as int },
        None => r,
    }
}

/// `!prio <name> [runs]` puts the first row named `name` at the head of the
/// second group, right behind the live group (the first `teamsize` rows): a
/// row from the live group lands at its last place, any other at the first
/// place after it; the rows it passes move one place, all others keep
/// theirs. The answer names the runs given.
pub proof fn law_prio_puts_the_row_behind_the_live_group(s: Seq<RowView>, d: Seq<char>, runs: Option<i32>, teamsize: int)
    requires
        teamsize >= 0,
    ensures
        (forall|j: int| 0 <= j < s.len() ==> s[j].display != d)
            ==> prio_spec(s, d, runs, teamsize) == (s, "User "@ + d + " not found in the queue"@),
        forall|p: int| #[trigger] first_named(s, d, p) ==> {
            let k = if teamsize < s.len() { teamsize } else { s.len() as int };
            let at = if p < k { k - 1 } else { k };
            let r = prio_spec(s, d, runs, teamsize).0;
            &&& prio_spec(s, d, runs, teamsize).1 == match runs {
                Some(n) => "⭐💎"@ + d + " has been given "@ + dec_int(n as int) + " priority runs!  💎⭐"@,
                None => "⭐💎"@ + d + " has been given a priority run! 💎⭐"@,
            }
            &&& r.len() == s.len()
            &&& r[at] == given_priority(s[p], runs)
            &&& forall|i: int| 0 <= i < s.len() && i < p && i < at ==> #[trigger] r[i] == s[i]
            &&& forall|i: int| 0 <= i < s.len() && i > p && i > at ==> #[trigger] r[i] == s[i]
            &&& forall|i: int| p <= i < at ==> #[trigger] r[i] == s[i + 1]
            &&& forall|i: int| at < i <= p ==> #[trigger] r[i] == s[i - 1]
        },
{
    if forall|j: int| 0 <= j < s.len() ==> s[j].display != d {
        lemma_first_display_none(s, d);
    }
    assert forall|p: int| #[trigger] first_named(s, d, p) implies {
        let k = if teamsize < s.len() { teamsize } else { s.len() as int };
        let at = if p < k { k - 1 } else { k };
        let r = prio_spec(s, d, runs, teamsize).0;
        &&& prio_spec(s, d, runs, teamsize).1 == match runs {
            Some(n) => "⭐💎"@ + d + " has been given "@ + dec_int(n as int) + " priority runs!  💎⭐"@,
            None => "⭐💎"@ + d + " has been given a priority run! 💎⭐"@,
        }
        &&& r.len() == s.len()
        &&& r[at] == given_priority(s[p], runs)
        &&& forall|i: int| 0 <= i < s.len() && i < p && i < at ==> #[trigger] r[i] == s[i]
        &&& forall|i: int| 0 <= i < s.len() && i > p && i > at ==> #[trigger] r[i] == s[i]
        &&& forall|i: int| p <= i < at ==> #[trigger] r[i] == s[i + 1]
        &&& forall|i: int| at < i <= p ==> #[trigger] r[i] == s[i - 1]
    } by {
        lemma_first_display_is(s, d, p);
        let k = if teamsize < s.len() { teamsize } else { s.len() as int };
        let at = if p < k { k - 1 } else { k };
        let r = prio_spec(s, d, runs, teamsize).0;
        let t = s.remove(p);
        assert(r == t.insert(at, crate::queue::prio_row(s[p], runs)));
        assert(crate::queue::prio_row(s[p], runs) == given_priority(s[p], runs));
        assert forall|i: int| 0 <= i < s.len() && i < p && i < at implies #[trigger] r[i] == s[i] by {
            assert(t[i] == s[i]);
        }
        assert forall|i: int| 0 <= i < s.len() && i > p && i > at implies #[trigger] r[i] == s[i] by {
            assert(r[i] == t[i - 1]);
            assert(t[i - 1] == s[i]);
        }
        assert forall|i: int| p <= i < at implies #[trigger] r[i] == s[i + 1] by {
            assert(t[i] == s[i + 1]);
        }
        assert forall|i: int| at < i <= p implies #[trigger] r[i] == s[i - 1] by {
            assert(r[i] == t[i - 1]);
            assert(t[i - 1] == s[i - 1]);
        }
    }
}

/// `!next` announces the new live group: the first `teamsize` rows of the
/// queue after the run (all of them when fewer), each as `@name (bungie)`,
/// in order and joined by `, `; with nobody left it says the queue is empty.
pub proof fn law_next_announces_the_new_live_group(s: Seq<RowView>, teamsize: int, channel: Seq<char>)
    requires
        teamsize >= 0,
    ensures
        ({
            let r = next_rows_spec(s, teamsize);
            let g = if teamsize < r.len() { teamsize } else { r.len() as int };
            &&& g == 0 ==> next_reply_spec(s, teamsize, channel) == "💀 "@ + channel + " the queue is empty..? 👁👄👁"@
            &&& g > 0 ==> next_reply_spec(s, teamsize, channel) == "🎯The next group - "@
                + join_spec(Seq::new(g as nat, |i: int| "@"@ + r[i].display + " ("@ + r[i].bungie + ")"@), ", "@)
                + " !! 🥳Please be ready for an invite! 💜"@
        }),
{
    let r = next_rows_spec(s, teamsize);
    let g = if teamsize < r.len() { teamsize } else { r.len() as int };
    assert(crate::queue::group_mentions(r.take(g))
        =~= Seq::new(g as nat, |i: int| "@"@ + r[i].display + " ("@ + r[i].bungie + ")"@));
}

/// The row `r` after one more run: one priority run less.
pub open spec fn one_run_less(r: RowView) -> RowView {
    RowView { user: r.user, display: r.display, bungie: r.bungie, group_priority: r.group_priority,
        locked_first: r.locked_first, runs_left: r.runs_left - 1 }
}

/// Whether a live row plays again: it is locked into the live group and has
/// at least two priority runs left.
pub open spec fn plays_again(r: RowView) -> bool {
    r.locked_first && r.runs_left >= 2
}

#[verifier::spinoff_prover]
#[verifier::rlimit(30)]
proof fn lemma_advance_group(u: Seq<RowView>)
    ensures
        advance_group(u).len() <= u.len(),
        forall|i: int| 0 <= i < advance_group(u).len() ==>
            exists|j: int| 0 <= j < u.len() && plays_again(u[j]) && #[trigger] advance_group(u)[i] == one_run_less(u[j]),
        forall|j: int| 0 <= j < u.len() && #[trigger] plays_again(u[j]) ==>
            exists|i: int| 0 <= i < advance_group(u).len() && advance_group(u)[i] == one_run_less(u[j]),
    decreases u.len(),
{
    if u.len() > 0 {
        let v = u.drop_last();
        lemma_advance_group(v);
        let a = advance_group(v);
        let x = u.last();
        let t = advance_group(u);
        assert(u[u.len() - 1] == x);
        assert forall|j: int| 0 <= j < v.len() implies v[j] == u[j] by {}
        if plays_again(x) {
            assert(RowView { runs_left: x.runs_left - 1, ..x } == one_run_less(x));
            assert(t == a.push(one_run_less(x)));
            assert forall|i: int| 0 <= i < t.len() implies
                exists|j: int| 0 <= j < u.len() && plays_again(u[j]) && #[trigger] t[i] == one_run_less(u[j]) by {
                if i < a.len() {
                    assert(t[i] == a[i]);
                    let j = choose|j: int| 0 <= j < v.len() && plays_again(v[j]) && #[trigger] a[i] == one_run_less(v[j]);
                    assert(u[j] == v[j]);
                } else {
                    assert(t[i] == one_run_less(u[u.len() - 1]));
                }
            }
            assert forall|j: int| 0 <= j < u.len() && #[trigger] plays_again(u[j]) implies
                exists|i: int| 0 <= i < t.len() && t[i] == one_run_less(u[j]) by {
                if j < v.len() {
                    assert(plays_again(v[j]));
                    let i = choose|i: int| 0 <= i < a.len() && a[i] == one_run_less(v[j]);
                    assert(t[i] == a[i]);
                } else {
                    assert(t[a.len() as int] == one_run_less(u[j]));
                }
            }
        } else {
            assert(!stays_after_run(x));
            assert(t == a);
            assert forall|i: int| 0 <= i < t.len() implies
                exists|j: int| 0 <= j < u.len() && plays_again(u[j]) && #[trigger] t[i] == one_run_less(u[j]) by {
                let j = choose|j: int| 0 <= j < v.len() && plays_again(v[j]) && #[trigger] a[i] == one_run_less(v[j]);
                assert(u[j] == v[j]);
            }
            assert forall|j: int| 0 <= j < u.len() && #[trigger] plays_again(u[j]) implies
                exists|i: int| 0 <= i < t.len() && t[i] == one_run_less(u[j]) by {
                assert(j < v.len());
                assert(plays_again(v[j]));
            }
        }
    }
}

/// The live rows after the run, then the rows behind, before locking.
spec fn next_parts(s: Seq<RowView>, teamsize: int) -> Seq<RowView> {
    let n = s.len() as int;
    let k = if teamsize < n { teamsize } else { n };
    advance_group(s.take(k)) + s.skip(k)
}

proof fn lemma_next_rows_index(s: Seq<RowView>, teamsize: int, i: int)
    requires
        teamsize >= 0,
        0 <= i < next_parts(s, teamsize).len(),
    ensures
        next_rows_spec(s, teamsize).len() == next_parts(s, teamsize).len(),
        next_rows_spec(s, teamsize)[i] == ({
            let x = next_parts(s, teamsize)[i];
            if i < teamsize && x.group_priority == 1 && !x.locked_first { RowView { locked_first: true, ..x } } else { x }
        }),
{
}

proof fn lemma_next_staying(s: Seq<RowView>, teamsize: int)
    requires
        teamsize >= 0,
    ensures
        ({
            let n = s.len() as int;
            let k = if teamsize < n { teamsize } else { n };
            let r = next_rows_spec(s, teamsize);
            let c = r.len() - (n - k);
            &&& 0 <= c <= k
            &&& c == advance_group(s.take(k)).len()
            &&& forall|i: int| 0 <= i < c ==> exists|j: int| 0 <= j < k && plays_again(s[j])
                    && (#[trigger] r[i]) == RowView { locked_first: true, ..one_run_less(s[j]) }
            &&& forall|j: int| 0 <= j < k && #[trigger] plays_again(s[j]) ==>
                    exists|i: int| 0 <= i < c && r[i] == RowView { locked_first: true, ..one_run_less(s[j]) }
        }),
{
    let n = s.len() as int;
    let k = if teamsize < n { teamsize } else { n };
    let live = s.take(k);
    lemma_advance_group(live);
    let a = advance_group(live);
    let cat = next_parts(s, teamsize);
    let r = next_rows_spec(s, teamsize);
    let c = a.len() as int;
    assert(cat.len() == c + (n - k));
    assert(r.len() == cat.len());
    assert forall|i: int| 0 <= i < c implies exists|j: int| 0 <= j < k && plays_again(s[j])
        && (#[trigger] r[i]) == RowView { locked_first: true, ..one_run_less(s[j]) } by {
        lemma_next_rows_index(s, teamsize, i);
        assert(cat[i] == a[i]);
        let j = choose|j: int| 0 <= j < live.len() && plays_again(live[j]) && #[trigger] a[i] == one_run_less(live[j]);
        assert(live[j] == s[j]);
    }
    assert forall|j: int| 0 <= j < k && #[trigger] plays_again(s[j]) implies
        exists|i: int| 0 <= i < c && r[i] == RowView { locked_first: true, ..one_run_less(s[j]) } by {
        assert(live[j] == s[j]);
        assert(plays_again(live[j]));
        let i = choose|i: int| 0 <= i < a.len() && a[i] == one_run_less(live[j]);
        lemma_next_rows_index(s, teamsize, i);
        assert(cat[i] == a[i]);
    }
}

proof fn lemma_next_waiting(s: Seq<RowView>, teamsize: int)
    requires
        teamsize >= 0,
    ensures
        ({
            let n = s.len() as int;
            let k = if teamsize < n { teamsize } else { n };
            let r = next_rows_spec(s, teamsize);
            let c = r.len() - (n - k);
            forall|i: int| 0 <= i < n - k ==> {
                let w = s[k + i];
                &&& (#[trigger] r[c + i]).user == w.user && r[c + i].display == w.display && r[c + i].bungie == w.bungie
                &&& r[c + i].group_priority == w.group_priority && r[c + i].runs_left == w.runs_left
                &&& r[c + i].locked_first == (w.locked_first || (c + i < teamsize && w.group_priority == 1))
            }
        }),
{
    let n = s.len() as int;
    let k = if teamsize < n { teamsize } else { n };
    lemma_advance_group(s.take(k));
    let cat = next_parts(s, teamsize);
    let r = next_rows_spec(s, teamsize);
    let c = advance_group(s.take(k)).len() as int;
    assert(r.len() == cat.len());
    assert forall|i: int| 0 <= i < n - k implies {
        let w = s[k + i];
        &&& (#[trigger] r[c + i]).user == w.user && r[c + i].display == w.display && r[c + i].bungie == w.bungie
        &&& r[c + i].group_priority == w.group_priority && r[c + i].runs_left == w.runs_left
        &&& r[c + i].locked_first == (w.locked_first || (c + i < teamsize && w.group_priority == 1))
    } by {
        lemma_next_rows_index(s, teamsize, c + i);
        assert(cat[c + i] == s[k + i]);
    }
}

proof fn lemma_next_drops_the_rest(s: Seq<RowView>, teamsize: int)
    requires
        teamsize >= 0,
        unique_users(s),
    ensures
        ({
            let n = s.len() as int;
            let k = if teamsize < n { teamsize } else { n };
            let r = next_rows_spec(s, teamsize);
            forall|j: int| 0 <= j < k && !plays_again(s[j]) ==> !has_user(r, #[trigger] s[j].user)
        }),
{
    let n = s.len() as int;
    let k = if teamsize < n { teamsize } else { n };
    let live = s.take(k);
    lemma_advance_group(live);
    let a = advance_group(live);
    let cat = next_parts(s, teamsize);
    let r = next_rows_spec(s, teamsize);
    let c = a.len() as int;
    assert(r.len() == cat.len());
    assert forall|j: int| 0 <= j < k && !plays_again(s[j]) implies !has_user(r, #[trigger] s[j].user) by {
        if has_user(r, s[j].user) {
            let i = choose|i: int| 0 <= i < r.len() && r[i].user == s[j].user;
            lemma_next_rows_index(s, teamsize, i);
            if i < c {
                assert(cat[i] == a[i]);
                let j2 = choose|j2: int| 0 <= j2 < live.len() && plays_again(live[j2]) && #[trigger] a[i] == one_run_less(live[j2]);
                assert(live[j2] == s[j2]);
                assert(j2 != j);
            } else {
                assert(cat[i] == s[k + (i - c)]);
            }
        }
    }
}

/// `!next` as a change of the queue, with `k` the size of the live group
/// (`teamsize`, or the whole queue when shorter) and `c` the number of live
/// rows that play again: those rows come first, each a live row that plays
/// again with one run less; every live row that plays again is among them;
/// no other live row is left (each viewer queued once); then come the rows
/// behind the live group, in order, unchanged but for priority rows now
/// among the first `teamsize`, which get locked into the live group.
pub proof fn law_next_advances_the_queue(s: Seq<RowView>, teamsize: int)
    requires
        teamsize >= 0,
    ensures
        ({
            let n = s.len() as int;
            let k = if teamsize < n { teamsize } else { n };
            let r = next_rows_spec(s, teamsize);
            let c = r.len() - (n - k);
            &&& 0 <= c <= k
            &&& forall|i: int| 0 <= i < c ==> exists|j: int| 0 <= j < k && plays_again(s[j])
                    && (#[trigger] r[i]) == RowView { locked_first: true, ..one_run_less(s[j]) }
            &&& forall|j: int| 0 <= j < k && #[trigger] plays_again(s[j]) ==>
                    exists|i: int| 0 <= i < c && r[i] == RowView { locked_first: true, ..one_run_less(s[j]) }
            &&& unique_users(s) ==> forall|j: int| 0 <= j < k && !plays_again(s[j]) ==> !has_user(r, #[trigger] s[j].user)
            &&& forall|i: int| 0 <= i < n - k ==> {
                    let w = s[k + i];
                    &&& (#[trigger] r[c + i]).user == w.user && r[c + i].display == w.display && r[c + i].bungie == w.bungie
                    &&& r[c + i].group_priority == w.group_priority && r[c + i].runs_left == w.runs_left
                    &&& r[c + i].locked_first == (w.locked_first || (c + i < teamsize && w.group_priority == 1))
                }
        }),
{
    lemma_next_staying(s, teamsize);
    lemma_next_waiting(s, teamsize);
    if unique_users(s) {
        lemma_next_drops_the_rest(s, teamsize);
    }
}

/// Whether a row is named otherwise than `d`.
pub open spec fn named_otherwise(d: Seq<char>) -> spec_fn(RowView) -> bool {
    |x: RowView| x.display != d
}

proof fn lemma_drop_display_filter(s: Seq<RowView>, d: Seq<char>)
    ensures
        drop_display(s, d) == s.filter(named_otherwise(d)),
    decreases s.len(),
{
    reveal(Seq::filter);
    if s.len() > 0 {
        lemma_drop_display_filter(s.drop_last(), d);
        assert(named_otherwise(d)(s.last()) == (s.last().display != d));
    }
}

proof fn lemma_drop_display_none(s: Seq<RowView>, d: Seq<char>)
    requires
        forall|i: int| 0 <= i < s.len() ==> s[i].display != d,
    ensures
        drop_display(s, d) == s,
    decreases s.len(),
{
    if s.len() > 0 {
        assert(s[s.len() - 1] == s.last());
        lemma_drop_display_none(s.drop_last(), d);
        assert(s.drop_last().push(s.last()) =~= s);
    }
}

/// `!remove <name>` takes out every row named `name` and keeps all the
/// others in their order; the answer says whether anyone was removed.
pub proof fn law_remove_takes_out_exactly_the_name(s: Seq<RowView>, d: Seq<char>)
    ensures
        remove_display_spec(s, d).0 == s.filter(named_otherwise(d)),
        (exists|i: int| 0 <= i < s.len() && s[i].display == d)
            ==> remove_display_spec(s, d).1 == "💀 "@ + d + " has been removed from the queue 😥"@,
        (forall|i: int| 0 <= i < s.len() ==> s[i].display != d)
            ==> remove_display_spec(s, d).1 == "User "@ + d + " not found in the queue. FailFish"@,
{
    lemma_drop_display_filter(s, d);
    if forall|i: int| 0 <= i < s.len() ==> s[i].display != d {
        lemma_drop_display_none(s, d);
    }
}

/// `!pos` for a queued viewer at index `i` (outside raffle mode, each
/// viewer queued once): their place from 1 out of the queue's length, and
/// their group: LIVE for the first `teamsize` places, NEXT for the next
/// `teamsize`, else the group number `g` with `(g - 1) teamsize <= i <
/// g teamsize`.
pub proof fn law_pos_tells_place_and_group(s: Seq<RowView>, i: int, sender: Seq<char>, teamsize: int, open: bool, max_len: int, g: int)
    requires
        unique_users(s),
        0 <= i < s.len(),
        teamsize > 0,
    ensures
        ({
            let head = "📋 "@ + sender + " you are at position "@ + dec((i + 1) as nat) + "/"@ + dec(s.len());
            let r = pos_spec(s, s[i].user, sender, teamsize, false, open, max_len);
            &&& i < teamsize ==> r == head + " and in LIVE group! DinoDance"@
            &&& teamsize <= i < 2 * teamsize ==> r == head + " and in NEXT group! GoldPLZ"@
            &&& g >= 3 && (g - 1) * teamsize <= i < g * teamsize ==> r == head + " (Group "@ + dec_int(g) + ") 💜"@
        }),
{
    assert(exists|k: int| 0 <= k < s.len() && s[k].user == s[i].user);
    let k = index_of_user(s, s[i].user)->0;
    assert(s[k].user == s[i].user);
    assert(k == i);
    if i < teamsize {
        assert(i / teamsize == 0) by (nonlinear_arith) requires 0 <= i < teamsize;
    }
    if teamsize <= i < 2 * teamsize {
        assert(i / teamsize == 1) by (nonlinear_arith) requires teamsize <= i < 2 * teamsize;
    }
    if g >= 3 && (g - 1) * teamsize <= i < g * teamsize {
        assert(i / teamsize == g - 1) by (nonlinear_arith) requires (g - 1) * teamsize <= i < g * teamsize, teamsize > 0;
    }
}

/// Queueing a viewer who is not queued yet: a `!join` into a full queue
/// (`queue_len` rows) or with a Bungie name already queued is turned away
/// with the queue unchanged; otherwise (and always for a moderator's `!add`)
/// the viewer is appended at the end as a plain row (second priority, not
/// locked, no priority runs), and the answer gives their place from 1.
/// A viewer already queued keeps their row and only their names change.
pub proof fn law_join_appends_the_viewer(s: Seq<RowView>, queue_len: int, u: IdView, d: Seq<char>, b: Seq<char>, join: Queue, raffle: bool)
    ensures
        ({
            let n = s.len() as int;
            let out = process_entry_spec(s, queue_len, u, d, b, join, raffle);
            let full = join == Queue::Join && n >= queue_len;
            let jailed = join == Queue::Join && exists|i: int| 0 <= i < n && s[i].bungie == b;
            &&& !has_user(s, u) && full ==> out == (s, if !raffle {
                    "❌ "@ + d + ", you can't enter the queue, it is full"@
                } else {
                    "❌ "@ + d + ", you can't enter the raffle, it is full"@
                })
            &&& !has_user(s, u) && !full && jailed ==> out == (s, "❌ "@ + d + ", wishes for some jail time ⛓"@)
            &&& !has_user(s, u) && !full && !jailed ==> {
                &&& out.0.len() == n + 1
                &&& forall|i: int| 0 <= i < n ==> #[trigger] out.0[i] == s[i]
                &&& out.0[n] == RowView { user: u, display: d, bungie: b, group_priority: 2, locked_first: false, runs_left: 0 }
                &&& out.1 == if !raffle {
                        "✅ "@ + d + " entered the queue at position #"@ + dec((n + 1) as nat)
                    } else {
                        "✅ "@ + d + " entered the raffle"@
                    }
            }
            &&& has_user(s, u) ==> {
                &&& out.1 == "✅ "@ + d + " has updated their bungie name to "@ + b
                &&& out.0.len() == n
                &&& forall|i: int| 0 <= i < n ==> (#[trigger] out.0[i]) == if s[i].user == u {
                        RowView { user: s[i].user, display: d, bungie: b, group_priority: s[i].group_priority,
                            locked_first: s[i].locked_first, runs_left: s[i].runs_left }
                    } else {
                        s[i]
                    }
            }
        }),
{
    let n = s.len() as int;
    let out = process_entry_spec(s, queue_len, u, d, b, join, raffle);
    if !has_user(s, u) {
        assert(crate::queue::has_bungie(s, b) == exists|i: int| 0 <= i < n && s[i].bungie == b);
        if !(join == Queue::Join && n >= queue_len) && !(join == Queue::Join && exists|i: int| 0 <= i < n && s[i].bungie == b) {
            assert(out.0 == s.push(crate::queue::fresh_row(u, d, b)));
            assert forall|i: int| 0 <= i < n implies #[trigger] out.0[i] == s[i] by {}
        }
    }
}

proof fn lemma_set_insert_has(s: Seq<Seq<char>>, x: Seq<char>, y: Seq<char>)
    ensures
        seq_has(set_insert(s, x), y) == (seq_has(s, y) || y == x),
{
    if !seq_has(s, x) {
        let t = s.push(x);
        if seq_has(t, y) && y != x {
            let i = choose|i: int| 0 <= i < t.len() && t[i] == y;
            assert(s[i] == y);
        }
        if seq_has(s, y) {
            let i = choose|i: int| 0 <= i < s.len() && s[i] == y;
            assert(t[i] == y);
        }
        if y == x {
            assert(t[s.len() as int] == y);
        }
    }
}

proof fn lemma_set_remove_has(s: Seq<Seq<char>>, x: Seq<char>, y: Seq<char>)
    ensures
        seq_has(set_remove(s, x), y) == (seq_has(s, y) && y != x),
    decreases s.len(),
{
    if s.len() > 0 {
        let v = s.drop_last();
        lemma_set_remove_has(v, x, y);
        let r = set_remove(v, x);
        assert(s[s.len() - 1] == s.last());
        if seq_has(s, y) && y != x {
            let i = choose|i: int| 0 <= i < s.len() && s[i] == y;
            if i < v.len() {
                assert(v[i] == y);
            }
        }
        if seq_has(v, y) {
            let i = choose|i: int| 0 <= i < v.len() && v[i] == y;
            assert(s[i] == y);
        }
        if s.last() != x {
            let t = r.push(s.last());
            if seq_has(t, y) {
                let i = choose|i: int| 0 <= i < t.len() && t[i] == y;
                if i < r.len() {
                    assert(r[i] == y);
                }
            }
            if seq_has(r, y) {
                let i = choose|i: int| 0 <= i < r.len() && r[i] == y;
                assert(t[i] == y);
            }
            if y == s.last() {
                assert(t[r.len() as int] == y);
            }
        }
    }
}

/// `!alias <sub> <name> [<command>]`, with `x` the lowercased name: `add`
/// makes `x` call the lowercased command, `remove` takes alias `x` away,
/// `remove-default` / `restore-default` switch the default alias `x` off /
/// on, and `disable` / `enable` switch the command `x` off / on; each
/// leaves every other alias, removed alias and switched-off command as it
/// was. Fewer than three words give the usage.
pub proof fn law_alias_command_changes_one_name(a: AliasView, w: Seq<Seq<char>>)
    requires
        unique_pairs(a.aliases),
    ensures
        w.len() < 3 ==> alias_outcome(a, w) == Err::<(AliasView, Seq<char>), Seq<char>>(alias_usage()),
        w.len() == 4 && unicode_lowercase(w[1]) == "add"@ ==> (alias_outcome(a, w) matches Ok((b, m)) && {
            let x = unicode_lowercase(w[2]);
            let c = unicode_lowercase(w[3]);
            &&& map_get(b.aliases, x) == Some(c)
            &&& forall|j: Seq<char>| j != x ==> #[trigger] map_get(b.aliases, j) == map_get(a.aliases, j)
            &&& b.removed == a.removed && b.disabled == a.disabled
            &&& m == "✅ Alias '"@ + x + "' → '"@ + c + "' added"@
        }),
        w.len() == 3 && unicode_lowercase(w[1]) == "remove"@ ==> (alias_outcome(a, w) matches Ok((b, m)) && {
            let x = unicode_lowercase(w[2]);
            &&& map_get(b.aliases, x) is None
            &&& forall|j: Seq<char>| j != x ==> #[trigger] map_get(b.aliases, j) == map_get(a.aliases, j)
            &&& b.removed == a.removed && b.disabled == a.disabled
            &&& m == "Removed alias '"@ + x + "'"@
        }),
        w.len() == 3 && (unicode_lowercase(w[1]) == "remove-default"@ || unicode_lowercase(w[1]) == "restore-default"@)
            ==> (alias_outcome(a, w) matches Ok((b, m)) && {
            let x = unicode_lowercase(w[2]);
            let off = unicode_lowercase(w[1]) == "remove-default"@;
            &&& seq_has(b.removed, x) == off
            &&& forall|y: Seq<char>| y != x ==> #[trigger] seq_has(b.removed, y) == seq_has(a.removed, y)
            &&& b.aliases == a.aliases && b.disabled == a.disabled
            &&& m == if off { "🚫 Default alias '"@ + x + "' disabled"@ } else { "♻️ Default alias '"@ + x + "' restored"@ }
        }),
        w.len() == 3 && (unicode_lowercase(w[1]) == "disable"@ || unicode_lowercase(w[1]) == "enable"@)
            ==> (alias_outcome(a, w) matches Ok((b, m)) && {
            let x = unicode_lowercase(w[2]);
            let off = unicode_lowercase(w[1]) == "disable"@;
            &&& seq_has(b.disabled, x) == off
            &&& forall|y: Seq<char>| y != x ==> #[trigger] seq_has(b.disabled, y) == seq_has(a.disabled, y)
            &&& b.aliases == a.aliases && b.removed == a.removed
            &&& m == if off { "🔕 Command '"@ + x + "' disabled"@ } else { "🔔 Command '"@ + x + "' enabled"@ }
        }),
{
    if w.len() >= 3 {
        let sub = unicode_lowercase(w[1]);
        let x = unicode_lowercase(w[2]);
        reveal_strlit("add");
        reveal_strlit("remove");
        reveal_strlit("remove-default");
        reveal_strlit("restore-default");
        reveal_strlit("disable");
        reveal_strlit("enable");
        if w.len() == 4 && sub == "add"@ {
            let c = unicode_lowercase(w[3]);
            assert forall|j: Seq<char>| j != x implies #[trigger] map_get(crate::aliases::map_insert(a.aliases, x, c), j) == map_get(a.aliases, j) by {
                law_alias_read_after_write(a.aliases, x, c, j);
            }
            law_alias_read_after_write(a.aliases, x, c, x + seq!['#']);
        }
        if w.len() == 3 && sub == "remove"@ {
            assert forall|j: Seq<char>| j != x implies #[trigger] map_get(crate::aliases::map_remove(a.aliases, x), j) == map_get(a.aliases, j) by {
                law_alias_read_after_write(a.aliases, x, x, j);
            }
            law_alias_read_after_write(a.aliases, x, x, x + seq!['#']);
        }
        lemma_set_insert_has(a.removed, x, x);
        lemma_set_remove_has(a.removed, x, x);
        assert("add"@.len() == 3 && "remove"@.len() == 6 && "remove-default"@.len() == 14
            && "restore-default"@.len() == 15 && "disable"@.len() == 7 && "enable"@.len() == 6);
        assert("remove"@ != "enable"@) by {
            assert("remove"@[0] != "enable"@[0]);
        }
        lemma_set_insert_has(a.disabled, x, x);
        lemma_set_remove_has(a.disabled, x, x);
        assert forall|y: Seq<char>| y != x implies
            #[trigger] seq_has(set_insert(a.removed, x), y) == seq_has(a.removed, y) by {
            lemma_set_insert_has(a.removed, x, y);
        }
        assert forall|y: Seq<char>| y != x implies
            #[trigger] seq_has(set_remove(a.removed, x), y) == seq_has(a.removed, y) by {
            lemma_set_remove_has(a.removed, x, y);
        }
        assert forall|y: Seq<char>| y != x implies
            #[trigger] seq_has(set_insert(a.disabled, x), y) == seq_has(a.disabled, y) by {
            lemma_set_insert_has(a.disabled, x, y);
        }
        assert forall|y: Seq<char>| y != x implies
            #[trigger] seq_has(set_remove(a.disabled, x), y) == seq_has(a.disabled, y) by {
            lemma_set_remove_has(a.disabled, x, y);
        }
    }
}

/// Whether `!ticket` (the words `w`) by `name` buys tickets: two words, a
/// positive number, a running giveaway, tickets within the limit after the
/// purchase, and enough points for it.
pub open spec fn purchase_ok(g: Giveaway, entries: Seq<(Seq<char>, i32)>, points: Seq<(Seq<char>, i32)>, name: Seq<char>, w: Seq<Seq<char>>) -> bool {
    let have = match amount_of(entries, name) { Some(x) => x as int, None => 0 };
    let price = (g.ticket_cost as i32) as int;
    w.len() == 2 && match parse_in_range(w[1], true, i32::MIN as int, i32::MAX as int) {
        Some(k) => k > 0 && g.active && k + have <= (g.max_tickets as i32) as int && match amount_of(points, name) {
            Some(p) => p >= k * price,
            None => false,
        },
        None => false,
    }
}

/// `!ticket <n>` by `name`: when the message has two words, `n` is a
/// positive number, the giveaway runs, `name`'s tickets plus `n` stay within
/// the limit and `name` has at least `n` times the price in points, `name`
/// gets `n` more tickets and pays `n` times the price; nobody else's tickets
/// or points change. In every other case nothing changes.
pub proof fn law_ticket_purchase(g: Giveaway, entries: Seq<(Seq<char>, i32)>, points: Seq<(Seq<char>, i32)>, name: Seq<char>, w: Seq<Seq<char>>)
    requires
        0 <= (g.ticket_cost as i32),
    ensures
        ({
            let out = join_giveaway_spec(g, entries, points, name, w);
            let n = parse_in_range(w[1], true, i32::MIN as int, i32::MAX as int);
            let have = match amount_of(entries, name) { Some(x) => x as int, None => 0 };
            let price = (g.ticket_cost as i32) as int;
            let buys = purchase_ok(g, entries, points, name, w);
            &&& buys ==> {
                let k = n->0;
                let p = amount_of(points, name)->0;
                &&& amount_of(out.1, name) matches Some(t) && t == have + k
                &&& amount_of(out.2, name) matches Some(q) && q == p - k * price
                &&& forall|o: Seq<char>| o != name ==> #[trigger] amount_of(out.1, o) == amount_of(entries, o)
                    && amount_of(out.2, o) == amount_of(points, o)
            }
            &&& !buys ==> out.1 == entries && out.2 == points
        }),
{
    let out = join_giveaway_spec(g, entries, points, name, w);
    let n = parse_in_range(w[1], true, i32::MIN as int, i32::MAX as int);
    let have = match amount_of(entries, name) { Some(x) => x as int, None => 0 };
    let price = (g.ticket_cost as i32) as int;
    if purchase_ok(g, entries, points, name, w) {
        let k = n->0;
        let p = amount_of(points, name)->0;
        assert(k * price >= 0) by (nonlinear_arith) requires k > 0, price >= 0;
        assert(out.1 == set_amount(entries, name, (k + have) as i32));
        assert(out.2 == set_amount(points, name, (p - k * price) as i32));
        lemma_set_amount_same(entries, name, (k + have) as i32);
        lemma_set_amount_same(points, name, (p - k * price) as i32);
        assert forall|o: Seq<char>| o != name implies #[trigger] amount_of(out.1, o) == amount_of(entries, o)
            && amount_of(out.2, o) == amount_of(points, o) by {
            lemma_set_amount_other(entries, name, (k + have) as i32, o);
            lemma_set_amount_other(points, name, (p - k * price) as i32, o);
        }
    }
}

/// The wait before reconnecting starts at one second and doubles with each
/// failure up to the sixth; from then on it stays at 64 seconds.
pub proof fn law_backoff_doubles_then_stays(a: u32)
    ensures
        backoff_ms(0) == 1000,
        a < 6 ==> backoff_ms((a + 1) as u32) == 2 * backoff_ms(a),
        a >= 6 ==> backoff_ms(a) == 64000,
{
    reveal_with_fuel(crate::connection::pow2, 7);
}

proof fn lemma_dec_digits(n: nat)
    ensures
        dec(n).len() > 0,
        all_digits(dec(n)),
        digits_value(dec(n)) == n,
    decreases n,
{
    let c = digit_char((n % 10) as int);
    assert(((n % 10) as int + 48) as u32 as char == c);
    assert(is_digit(c) && (c as u32) - 48 == n % 10) by {
        assert(0 <= n % 10 < 10);
    }
    if n >= 10 {
        lemma_dec_digits(n / 10);
        let t = dec(n / 10).push(c);
        assert(t.drop_last() =~= dec(n / 10));
        assert forall|i: int| 0 <= i < t.len() implies is_digit(#[trigger] t[i]) by {
            if i < t.len() - 1 {
                assert(t[i] == dec(n / 10)[i]);
            }
        }
        assert(t.last() == c);
        assert(digits_value(t) == digits_value(dec(n / 10)) * 10 + ((c as u32) - 48) as nat);
        assert(n == (n / 10) * 10 + n % 10);
        assert(dec(n) == t);
    } else {
        assert(n % 10 == n);
        let t = seq![c];
        assert(t.drop_last() =~= Seq::<char>::empty());
        assert(t.last() == c);
        assert(digits_value(Seq::<char>::empty()) == 0);
        assert(digits_value(t) == ((c as u32) - 48) as nat);
        assert(dec(n) == t);
    }
}

/// A number written out reads back as the same number: the settings
/// commands (`!queue_size 4`, `!queue_len 25`, `!ticket 3`) take the value
/// the message writes.
pub proof fn law_written_number_reads_back(n: nat, allow_minus: bool)
    ensures
        parse_int_spec(dec(n), allow_minus) == Some(n as int),
        parse_int_spec(crate::text::dec_int(-(n as int)), true) == Some(-(n as int)),
{
    lemma_dec_digits(n);
    assert(is_digit(dec(n)[0]));
    if n > 0 {
        let t = seq!['-'].add(dec(n));
        assert(t.drop_first() =~= dec(n));
    }
}

} // verus!
