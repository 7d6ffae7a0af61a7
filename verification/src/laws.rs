//! Properties that relate several operations of the bot.

use vstd::prelude::*;
use vstd::set_lib::{lemma_int_range, lemma_subset_equality, set_int_range};
use crate::platform::{IdView, Platform, id_text, platform_name, platform_named, split_first_colon, valid_name, lemma_id_text_split};
use crate::queue::{RowView, Queue, leave_spec, unique_users, has_user, index_of_user, add_spec, process_entry_spec, update_names, fresh_row, move_spec, prio_spec, remove_display_spec, drop_display, has_display, reorder_spec, lemma_unique_push, is_permutation, raffle_rows_spec, next_rows_spec, advance_group, min};
use crate::config::{ConfigView, set_config, config_of, index_of_key, unique_keys};
use crate::aliases::{AliasView, map_get, map_insert, map_remove, key_index, lemma_key_index};
use crate::dispatch::{GroupView, RegView, alias_ops, command_ops, group_ops, package_ops, group_named, apply_inserts, apply_custom, command_table};
use crate::text::{ascii_lower_seq, is_ws, trim_ws_start, trim_ws_end, after_first};
use crate::sessions::{split_on, before_first, first_value, cookie_attributes};
use crate::kick::normalize_slug;
use crate::permissions::{PermissionLevel, PermissionStep, permission_step_spec, rank, seq_has};
use crate::giveaway::{winner_index, cumulative, positive_entries, amount_of, set_amount, slot, lemma_slot, join_giveaway_spec, Giveaway};

verus! {

/// With no user twice, the index of a queued user is the one holding them.
proof fn lemma_index_of_user_unique(s: Seq<RowView>, u: IdView, k: int)
    requires
        unique_users(s),
        0 <= k < s.len(),
        s[k].user == u,
    ensures
        index_of_user(s, u) == Some(k),
{
    assert(exists|i: int| 0 <= i < s.len() && s[i].user == u);
}

/// Queueing a viewer who is not queued and then removing them gives the
/// queue back as it was (also when the queue refused them).
pub proof fn law_remove_undoes_add(s: Seq<RowView>, queue_len: int, u: IdView, d: Seq<char>, b: Seq<char>, join: Queue, raffle: bool)
    requires
        unique_users(s),
        !has_user(s, u),
    ensures
        ({
            let t = add_spec(s, queue_len, u, d, b, join, raffle).0;
            match index_of_user(t, u) {
                Some(i) => t.remove(i) == s,
                None => t == s,
            }
        }),
{
    let t = add_spec(s, queue_len, u, d, b, join, raffle).0;
    if t != s {
        let r = fresh_row(u, d, b);
        assert(t == s.push(r));
        lemma_unique_push(s, r);
        lemma_index_of_user_unique(t, u, s.len() as int);
        assert(t.remove(s.len() as int) =~= s);
    }
}

/// A new viewer stays unique in the queue: no queue operation that adds
/// someone makes anyone appear twice.
pub proof fn law_add_keeps_users_unique(s: Seq<RowView>, queue_len: int, u: IdView, d: Seq<char>, b: Seq<char>, join: Queue, raffle: bool)
    requires
        unique_users(s),
    ensures
        unique_users(process_entry_spec(s, queue_len, u, d, b, join, raffle).0),
{
    if !has_user(s, u) {
        let t = add_spec(s, queue_len, u, d, b, join, raffle).0;
        if t != s {
            lemma_unique_push(s, fresh_row(u, d, b));
        }
    } else {
        let t = update_names(s, u, d, b);
        assert forall|i: int, j: int| 0 <= i < t.len() && 0 <= j < t.len() && i != j implies t[i].user != t[j].user by {
            assert(t[i].user == s[i].user);
            assert(t[j].user == s[j].user);
        }
    }
}

/// A viewer who joins again keeps their place: the queue holds the same
/// viewers in the same order, and only their names change.
pub proof fn law_rejoin_keeps_place(s: Seq<RowView>, queue_len: int, u: IdView, d: Seq<char>, b: Seq<char>, join: Queue, raffle: bool)
    requires
        has_user(s, u),
    ensures
        ({
            let t = process_entry_spec(s, queue_len, u, d, b, join, raffle).0;
            &&& t.len() == s.len()
            &&& forall|i: int| 0 <= i < s.len() ==> (#[trigger] t[i]).user == s[i].user && t[i].group_priority == s[i].group_priority
                && t[i].locked_first == s[i].locked_first && t[i].runs_left == s[i].runs_left
            &&& forall|i: int| 0 <= i < s.len() && s[i].user == u ==> t[i].display == d && (#[trigger] t[i]).bungie == b
        }),
{
}

/// `!leave` takes the sender out of the queue, unless they are in the live
/// group (the first `teamsize` places), which nobody leaves; everyone else
/// keeps their order.
pub proof fn law_leave_frees_sender(s: Seq<RowView>, u: IdView, name: Seq<char>, teamsize: usize, random_queue: bool)
    requires
        unique_users(s),
    ensures
        ({
            let t = leave_spec(s, u, name, teamsize, random_queue).0;
            match index_of_user(s, u) {
                Some(i) => if i < (teamsize as i32) as int {
                    t == s
                } else {
                    &&& !has_user(t, u)
                    &&& t == s.remove(i)
                },
                None => t == s,
            }
        }),
{
    let t = leave_spec(s, u, name, teamsize, random_queue).0;
    if let Some(i) = index_of_user(s, u) {
        if i >= (teamsize as i32) as int {
            assert(exists|k: int| 0 <= k < s.len() && s[k].user == u);
            assert(0 <= i < s.len() && s[i].user == u);
            if has_user(t, u) {
                let k = choose|k: int| 0 <= k < t.len() && t[k].user == u;
                if k < i {
                    assert(t[k] == s[k]);
                } else {
                    assert(t[k] == s[k + 1]);
                }
            }
        }
    }
}

/// A full queue turns a viewer's `!join` away unchanged; a moderator's `!add`
/// still gets them in.
pub proof fn law_full_queue_refuses_join(s: Seq<RowView>, queue_len: int, u: IdView, d: Seq<char>, b: Seq<char>, raffle: bool)
    requires
        s.len() >= queue_len,
    ensures
        add_spec(s, queue_len, u, d, b, Queue::Join, raffle).0 == s,
        add_spec(s, queue_len, u, d, b, Queue::ForceJoin, raffle).0 == s.push(fresh_row(u, d, b)),
{
}

/// Whether two queues hold the same viewers.
pub open spec fn same_viewers(s: Seq<RowView>, t: Seq<RowView>) -> bool {
    s.len() == t.len() && forall|u: IdView| #[trigger] has_user(s, u) <==> has_user(t, u)
}

proof fn lemma_move_same_viewers(s: Seq<RowView>, p: int, q: int, x: RowView)
    requires
        0 <= p < s.len(),
        0 <= q < s.len(),
        x.user == s[p].user,
    ensures
        same_viewers(s, s.remove(p).insert(q, x)),
{
    let t = s.remove(p).insert(q, x);
    let r = s.remove(p);
    assert forall|u: IdView| #[trigger] has_user(s, u) <==> has_user(t, u) by {
        if has_user(s, u) {
            let i = choose|i: int| 0 <= i < s.len() && s[i].user == u;
            if i == p {
                assert(t[q].user == u);
            } else {
                let a = if i < p { i } else { i - 1 };
                assert(r[a] == s[i]);
                let c = if a < q { a } else { a + 1 };
                assert(t[c] == r[a]);
            }
        }
        if has_user(t, u) {
            let i = choose|i: int| 0 <= i < t.len() && t[i].user == u;
            if i == q {
                assert(s[p].user == u);
            } else {
                let a = if i < q { i } else { i - 1 };
                assert(t[i] == r[a]);
                let c = if a < p { a } else { a + 1 };
                assert(r[a] == s[c]);
            }
        }
    }
}

/// `!move` keeps the same viewers in the queue.
pub proof fn law_move_keeps_viewers(s: Seq<RowView>, d: Seq<char>, teamsize: int)
    requires
        teamsize >= 0,
    ensures
        same_viewers(s, move_spec(s, d, teamsize).0),
{
    crate::queue::lemma_first_display_range(s, d);
    match crate::queue::first_display(s, d) {
        None => {},
        Some(p) => {
            if p + 1 + teamsize <= s.len() {
                lemma_move_same_viewers(s, p, p + teamsize, s[p]);
            }
        },
    }
}

/// `!prio` keeps the same viewers in the queue.
pub proof fn law_prio_keeps_viewers(s: Seq<RowView>, d: Seq<char>, runs: Option<i32>, teamsize: int)
    requires
        teamsize >= 0,
    ensures
        same_viewers(s, prio_spec(s, d, runs, teamsize).0),
{
    crate::queue::lemma_first_display_range(s, d);
    match crate::queue::first_display(s, d) {
        None => {},
        Some(p) => {
            let k = if teamsize < s.len() { teamsize } else { s.len() as int };
            let ins = if p < k { k - 1 } else { k };
            lemma_move_same_viewers(s, p, ins, crate::queue::prio_row(s[p], runs));
        },
    }
}

/// Whether some entry of `order` is `i`.
spec fn used_place(order: Seq<usize>, i: int) -> bool {
    exists|j: int| 0 <= j < order.len() && order[j] == i
}

/// An order without repeats that uses only the places `0..m`, `m` of them,
/// uses every place.
proof fn lemma_permutation_onto(order: Seq<usize>, m: int)
    requires
        is_permutation(order, m),
    ensures
        forall|i: int| 0 <= i < m ==> #[trigger] used_place(order, i),
{
    let o = order.map_values(|x: usize| x as int);
    assert(o.no_duplicates()) by {
        assert forall|i: int, j: int| 0 <= i < o.len() && 0 <= j < o.len() && i != j implies o[i] != o[j] by {
            assert(order[i] != order[j]);
        }
    }
    o.unique_seq_to_set();
    lemma_int_range(0, m);
    assert(o.to_set().subset_of(set_int_range(0, m))) by {
        assert forall|x: int| o.to_set().contains(x) implies set_int_range(0, m).contains(x) by {
            let j = choose|j: int| 0 <= j < o.len() && o[j] == x;
            assert(order[j] < m);
        }
    }
    lemma_subset_equality(o.to_set(), set_int_range(0, m));
    assert forall|i: int| 0 <= i < m implies #[trigger] used_place(order, i) by {
        assert(set_int_range(0, m).contains(i));
        assert(o.to_set().contains(i));
        let j = choose|j: int| 0 <= j < o.len() && o[j] == i;
        assert(order[j] == i);
    }
}

/// A raffle draw keeps exactly the viewers who were waiting behind the live
/// group, whatever order the draw gives them.
pub proof fn law_raffle_keeps_waiting_viewers(s: Seq<RowView>, teamsize: int, order: Seq<usize>)
    requires
        teamsize >= 0,
        is_permutation(order, s.len() - min(teamsize, s.len() as int)),
    ensures
        same_viewers(s.skip(min(teamsize, s.len() as int)), raffle_rows_spec(s, teamsize, order)),
{
    let w = s.skip(min(teamsize, s.len() as int));
    let t = raffle_rows_spec(s, teamsize, order);
    let m = w.len() as int;
    lemma_permutation_onto(order, m);
    assert forall|u: IdView| #[trigger] has_user(w, u) <==> has_user(t, u) by {
        if has_user(w, u) {
            let i = choose|i: int| 0 <= i < w.len() && w[i].user == u;
            assert(used_place(order, i));
            let j = choose|j: int| 0 <= j < order.len() && order[j] == i;
            assert(t[j] == w[order[j] as int]);
        }
        if has_user(t, u) {
            let j = choose|j: int| 0 <= j < t.len() && t[j].user == u;
            assert(order[j] < m);
            assert(w[order[j] as int].user == u);
        }
    }
}

/// `!next` keeps everyone waiting behind the live group, in the same order
/// and under the same names, right after the group members who stay for
/// another priority run.
pub proof fn law_next_keeps_waiting_viewers(s: Seq<RowView>, teamsize: int)
    requires
        teamsize >= 0,
    ensures
        ({
            let k = min(teamsize, s.len() as int);
            let g = advance_group(s.take(k)).len();
            let t = next_rows_spec(s, teamsize);
            &&& t.len() == g + s.len() - k
            &&& forall|j: int| 0 <= j < s.len() - k ==> (#[trigger] t[g + j]).user == s[k + j].user
                && t[g + j].display == s[k + j].display && t[g + j].bungie == s[k + j].bungie
        }),
{
    let k = min(teamsize, s.len() as int);
    let a = advance_group(s.take(k));
    let c = a + s.skip(k);
    let t = next_rows_spec(s, teamsize);
    assert forall|j: int| 0 <= j < s.len() - k implies (#[trigger] t[a.len() + j]).user == s[k + j].user
        && t[a.len() + j].display == s[k + j].display && t[a.len() + j].bungie == s[k + j].bungie by {
        assert(c[a.len() + j] == s[k + j]);
    }
}

proof fn lemma_drop_display_gone(s: Seq<RowView>, d: Seq<char>)
    ensures
        !has_display(drop_display(s, d), d),
    decreases s.len(),
{
    if s.len() > 0 {
        lemma_drop_display_gone(s.drop_last(), d);
        let rest = drop_display(s.drop_last(), d);
        if s.last().display != d {
            let t = rest.push(s.last());
            assert forall|i: int| 0 <= i < t.len() implies t[i].display != d by {
                if i < rest.len() {
                    assert(t[i] == rest[i]);
                }
            }
        }
    }
}

/// After `!remove <name>`, nobody with that name is left in the queue.
pub proof fn law_remove_leaves_no_such_name(s: Seq<RowView>, d: Seq<char>)
    ensures
        !has_display(remove_display_spec(s, d).0, d),
{
    lemma_drop_display_gone(s, d);
}

/// Reordering with a valid order puts the viewers in exactly that order.
pub proof fn law_reorder_follows_order(s: Seq<RowView>, ord: Seq<IdView>)
    requires
        reorder_spec(s, ord) is Some,
    ensures
        ({
            let t = reorder_spec(s, ord)->0;
            t.len() == ord.len() && forall|i: int| 0 <= i < t.len() ==> (#[trigger] t[i]).user == ord[i]
        }),
{
    let t = reorder_spec(s, ord)->0;
    assert forall|i: int| 0 <= i < t.len() implies (#[trigger] t[i]).user == ord[i] by {
        assert(has_user(s, ord[i]));
        let k = index_of_user(s, ord[i])->0;
        assert(s[k].user == ord[i]);
    }
}

/// Reading a channel's settings back after setting them gives what was set,
/// and leaves every other channel's settings as they were.
pub proof fn law_config_read_after_write(s: Seq<(IdView, ConfigView)>, k: IdView, c: ConfigView)
    requires
        unique_keys(s),
    ensures
        config_of(set_config(s, k, c), k) == Some(c),
        forall|j: IdView| j != k ==> #[trigger] config_of(set_config(s, k, c), j) == config_of(s, j),
        unique_keys(set_config(s, k, c)),
{
    let t = set_config(s, k, c);
    match index_of_key(s, k) {
        Some(i) => {
            assert forall|a: int, b: int| 0 <= a < t.len() && 0 <= b < t.len() && a != b implies t[a].0 != t[b].0 by {
                assert(t[a].0 == s[a].0);
                assert(t[b].0 == s[b].0);
            }
            crate::config::lemma_index_of_key(t, k, i);
            assert forall|j: IdView| j != k implies #[trigger] config_of(t, j) == config_of(s, j) by {
                match index_of_key(s, j) {
                    Some(a) => {
                        crate::config::lemma_index_of_key(t, j, a);
                    },
                    None => {
                        if exists|a: int| 0 <= a < t.len() && t[a].0 == j {
                            let a = choose|a: int| 0 <= a < t.len() && t[a].0 == j;
                            assert(s[a].0 == j);
                        }
                    },
                }
            }
        },
        None => {
            let i = s.len() as int;
            assert forall|a: int, b: int| 0 <= a < t.len() && 0 <= b < t.len() && a != b implies t[a].0 != t[b].0 by {
                if a < i {
                    assert(t[a] == s[a]);
                }
                if b < i {
                    assert(t[b] == s[b]);
                }
            }
            crate::config::lemma_index_of_key(t, k, i);
            assert forall|j: IdView| j != k implies #[trigger] config_of(t, j) == config_of(s, j) by {
                match index_of_key(s, j) {
                    Some(a) => {
                        assert(t[a] == s[a]);
                        crate::config::lemma_index_of_key(t, j, a);
                    },
                    None => {
                        if exists|a: int| 0 <= a < t.len() && t[a].0 == j {
                            let a = choose|a: int| 0 <= a < t.len() && t[a].0 == j;
                            if a < i {
                                assert(s[a].0 == j);
                            }
                        }
                    },
                }
            }
        },
    }
}

/// No key is stored twice.
pub open spec fn unique_pairs(m: Seq<(Seq<char>, Seq<char>)>) -> bool {
    forall|i: int, j: int| 0 <= i < m.len() && 0 <= j < m.len() && i != j ==> m[i].0 != m[j].0
}

/// An alias reads back as the command it was set to; a removed alias reads
/// as none; other aliases are untouched by either.
pub proof fn law_alias_read_after_write(m: Seq<(Seq<char>, Seq<char>)>, k: Seq<char>, v: Seq<char>, j: Seq<char>)
    requires
        unique_pairs(m),
        j != k,
    ensures
        map_get(map_insert(m, k, v), k) == Some(v),
        map_get(map_insert(m, k, v), j) == map_get(m, j),
        map_get(map_remove(m, k), k) is None,
        map_get(map_remove(m, k), j) == map_get(m, j),
{
    lemma_key_index(m, k);
    lemma_key_index(m, j);
    let i = key_index(m, k);
    let ins = map_insert(m, k, v);
    let rem = map_remove(m, k);
    lemma_key_index(ins, k);
    lemma_key_index(ins, j);
    lemma_key_index(rem, k);
    lemma_key_index(rem, j);
    if i >= 0 {
        // the key sits at i in the insert, nowhere in the removal
        assert(ins[i].0 == k);
        assert forall|a: int| 0 <= a < rem.len() implies #[trigger] rem[a].0 != k by {
            let b = if a < i { a } else { a + 1 };
            assert(rem[a] == m[b]);
        }
        lemma_key_index_none(rem, k);
        lemma_key_index_exact(ins, k, i);
        lemma_key_index_same_keys(ins, m, j);
        lemma_key_index_after_remove(m, i, j);
    } else {
        assert(ins.drop_last() =~= m);
        assert(rem == m);
        lemma_key_index_none(m, k);
    }
}

proof fn lemma_key_index_none(m: Seq<(Seq<char>, Seq<char>)>, k: Seq<char>)
    requires
        forall|a: int| 0 <= a < m.len() ==> #[trigger] m[a].0 != k,
    ensures
        key_index(m, k) == -1,
    decreases m.len(),
{
    if m.len() > 0 {
        assert forall|a: int| 0 <= a < m.drop_last().len() implies #[trigger] m.drop_last()[a].0 != k by {
            assert(m.drop_last()[a] == m[a]);
        }
        lemma_key_index_none(m.drop_last(), k);
    }
}

proof fn lemma_key_index_exact(m: Seq<(Seq<char>, Seq<char>)>, k: Seq<char>, i: int)
    requires
        0 <= i < m.len(),
        m[i].0 == k,
        forall|a: int| i < a < m.len() ==> #[trigger] m[a].0 != k,
    ensures
        key_index(m, k) == i,
    decreases m.len(),
{
    if m.len() - 1 > i {
        assert forall|a: int| i < a < m.drop_last().len() implies #[trigger] m.drop_last()[a].0 != k by {
            assert(m.drop_last()[a] == m[a]);
        }
        assert(m.drop_last()[i] == m[i]);
        lemma_key_index_exact(m.drop_last(), k, i);
    }
}

proof fn lemma_key_index_same_keys(a: Seq<(Seq<char>, Seq<char>)>, b: Seq<(Seq<char>, Seq<char>)>, x: Seq<char>)
    requires
        a.len() == b.len(),
        forall|i: int| 0 <= i < a.len() ==> #[trigger] a[i].0 == b[i].0,
    ensures
        key_index(a, x) == key_index(b, x),
        key_index(a, x) >= 0 && a[key_index(a, x)] == b[key_index(b, x)] ==> true,
    decreases a.len(),
{
    if a.len() > 0 {
        assert(a.last().0 == b.last().0);
        assert forall|i: int| 0 <= i < a.drop_last().len() implies #[trigger] a.drop_last()[i].0 == b.drop_last()[i].0 by {
            assert(a.drop_last()[i] == a[i]);
            assert(b.drop_last()[i] == b[i]);
        }
        lemma_key_index_same_keys(a.drop_last(), b.drop_last(), x);
    }
}

proof fn lemma_key_index_after_remove(m: Seq<(Seq<char>, Seq<char>)>, i: int, j: Seq<char>)
    requires
        unique_pairs(m),
        0 <= i < m.len(),
        m[i].0 != j,
    ensures
        map_get(m.remove(i), j) == map_get(m, j),
{
    let r = m.remove(i);
    lemma_key_index(m, j);
    lemma_key_index(r, j);
    if key_index(m, j) >= 0 {
        let a = key_index(m, j);
        let ra = if a < i { a } else { a - 1 };
        assert(a != i);
        assert(r[ra] == m[a]);
        assert forall|c: int| ra < c < r.len() implies #[trigger] r[c].0 != j by {
            let mc = if c < i { c } else { c + 1 };
            assert(r[c] == m[mc]);
        }
        lemma_key_index_exact(r, j, ra);
    } else {
        assert forall|c: int| 0 <= c < r.len() implies #[trigger] r[c].0 != j by {
            let mc = if c < i { c } else { c + 1 };
            assert(r[c] == m[mc]);
        }
        lemma_key_index_none(r, j);
    }
}

/// An identifier's text reads back as the same platform and name
/// (`ChannelId::from_str` of `ChannelId::as_str`, and the same for users).
pub proof fn law_id_text_round_trip(p: Platform, name: Seq<char>)
    ensures
        split_first_colon(id_text(p, name)) == Some((platform_name(p), name)),
        platform_named(platform_name(p)) == Some(p),
{
    lemma_id_text_split(p, name);
    reveal_strlit("twitch");
    reveal_strlit("kick");
    reveal_strlit("obs");
    match p {
        Platform::Twitch => {},
        Platform::Kick => {
            assert(platform_name(Platform::Kick) != platform_name(Platform::Twitch));
        },
        Platform::Obs => {
            assert(platform_name(Platform::Obs) != platform_name(Platform::Twitch));
            assert(platform_name(Platform::Obs) != platform_name(Platform::Kick));
        },
    }
}

/// An authorization started under a state is the one taken back under that
/// state, and taking it leaves the other authorizations as they were.
pub proof fn law_pending_read_after_write(p: Map<Seq<char>, (Seq<char>, Seq<char>)>, st: Seq<char>, v: Seq<char>, r: Seq<char>)
    ensures
        p.insert(st, (v, r)).get(st) == Some((v, r)),
        p.insert(st, (v, r)).remove(st) == p.remove(st),
{
    assert(p.insert(st, (v, r)).remove(st) =~= p.remove(st));
}

/// A broadcaster id recorded under one spelling of a channel is found under
/// any spelling that normalizes the same, and no other channel's id moves.
pub proof fn law_cache_read_after_write(m: Map<Seq<char>, u64>, a: Seq<char>, b: Seq<char>, id: u64)
    ensures
        normalize_slug(a) == normalize_slug(b) ==> m.insert(normalize_slug(a), id).get(normalize_slug(b)) == Some(id),
        normalize_slug(a) != normalize_slug(b) ==> m.insert(normalize_slug(a), id).get(normalize_slug(b)) == m.get(normalize_slug(b)),
{
}

/// A ticket number (from 1) falls on the entry whose range of numbers holds
/// it: the entry's tickets are the numbers after the earlier entries' and up
/// to its own running total, so each entry wins with exactly its tickets.
pub proof fn law_ticket_falls_in_its_range(m: Seq<(Seq<char>, i32)>, t: int)
    requires
        positive_entries(m),
        t >= 1,
        winner_index(m, t) >= 0,
    ensures
        cumulative(m, winner_index(m, t) - 1) < t <= cumulative(m, winner_index(m, t)),
    decreases m.len(),
{
    let d = m.drop_last();
    assert forall|i: int| 0 <= i < d.len() implies #[trigger] d[i].1 > 0 by {
        assert(d[i] == m[i]);
    }
    lemma_cumulative_drop_last(m);
    if winner_index(d, t) >= 0 {
        law_ticket_falls_in_its_range(d, t);
        lemma_winner_range(d, t);
        let w = winner_index(d, t);
        assert(cumulative(d, w) == cumulative(m, w));
        assert(cumulative(d, w - 1) == cumulative(m, w - 1));
    } else {
        lemma_no_winner_below(d, t);
        assert(cumulative(d, d.len() - 1) == cumulative(m, m.len() - 2));
    }
}

/// A winner's index lies inside the entries.
proof fn lemma_winner_range(m: Seq<(Seq<char>, i32)>, t: int)
    ensures
        -1 <= winner_index(m, t) < m.len(),
    decreases m.len(),
{
    if m.len() > 0 {
        lemma_winner_range(m.drop_last(), t);
    }
}

proof fn lemma_cumulative_drop_last(m: Seq<(Seq<char>, i32)>)
    requires
        m.len() > 0,
    ensures
        forall|i: int| i < m.len() - 1 ==> #[trigger] cumulative(m.drop_last(), i) == cumulative(m, i),
{
    assert forall|i: int| i < m.len() - 1 implies #[trigger] cumulative(m.drop_last(), i) == cumulative(m, i) by {
        lemma_cumulative_prefix_any(m, i);
    }
}

proof fn lemma_cumulative_prefix_any(m: Seq<(Seq<char>, i32)>, i: int)
    requires
        m.len() > 0,
        i < m.len() - 1,
    ensures
        cumulative(m.drop_last(), i) == cumulative(m, i),
    decreases i + 1,
{
    if i >= 0 {
        assert(m.drop_last()[i] == m[i]);
        lemma_cumulative_prefix_any(m, i - 1);
        if m.drop_last().len() == 0 {
            assert(false);
        }
    }
}

/// Without a winner the running total stays below the ticket.
proof fn lemma_no_winner_below(m: Seq<(Seq<char>, i32)>, t: int)
    requires
        winner_index(m, t) < 0,
        t >= 1,
    ensures
        cumulative(m, m.len() - 1) < t,
    decreases m.len(),
{
    if m.len() > 0 {
        lemma_cumulative_drop_last(m);
        lemma_no_winner_below(m.drop_last(), t);
    }
}

/// Entering a giveaway keeps every entry at one ticket or more.
pub proof fn law_entries_stay_positive(g: Giveaway, entries: Seq<(Seq<char>, i32)>, points: Seq<(Seq<char>, i32)>, name: Seq<char>, w: Seq<Seq<char>>)
    requires
        positive_entries(entries),
    ensures
        positive_entries(join_giveaway_spec(g, entries, points, name, w).1),
{
    let out = join_giveaway_spec(g, entries, points, name, w).1;
    if out != entries {
        lemma_slot(entries, name);
        let i = slot(entries, name);
        assert forall|a: int| 0 <= a < out.len() implies #[trigger] out[a].1 > 0 by {
            if i >= 0 && a != i {
                assert(out[a] == entries[a]);
            } else if i < 0 && a < entries.len() {
                assert(out[a] == entries[a]);
            }
        }
    }
}

/// Buying tickets keeps the giveaway's limits: when every viewer holds at
/// most the allowed tickets and no balance is negative, that stays so after
/// any `!ticket` message (a purchase that would break either is refused).
/// It holds for every message and every state, whatever the sizes of the
/// numbers, as long as a ticket does not cost a negative price (a cost
/// above `i32::MAX` read as `i32`).
pub proof fn law_tickets_keep_limits(g: Giveaway, entries: Seq<(Seq<char>, i32)>, points: Seq<(Seq<char>, i32)>, name: Seq<char>, w: Seq<Seq<char>>)
    requires
        0 <= (g.ticket_cost as i32),
        forall|i: int| 0 <= i < entries.len() ==> #[trigger] entries[i].1 <= (g.max_tickets as i32) as int,
        forall|i: int| 0 <= i < points.len() ==> #[trigger] points[i].1 >= 0,
    ensures
        ({
            let out = join_giveaway_spec(g, entries, points, name, w);
            &&& forall|i: int| 0 <= i < out.1.len() ==> #[trigger] out.1[i].1 <= (g.max_tickets as i32) as int
            &&& forall|i: int| 0 <= i < out.2.len() ==> #[trigger] out.2[i].1 >= 0
        }),
{
    let out = join_giveaway_spec(g, entries, points, name, w);
    lemma_slot(entries, name);
    lemma_slot(points, name);
    let i = slot(entries, name);
    let j = slot(points, name);
    assert forall|a: int| 0 <= a < out.1.len() implies #[trigger] out.1[a].1 <= (g.max_tickets as i32) as int by {
        if out.1 != entries {
            if (i >= 0 && a != i) || (i < 0 && a < entries.len()) {
                assert(out.1[a] == entries[a]);
            }
        }
    }
    assert forall|a: int| 0 <= a < out.2.len() implies #[trigger] out.2[a].1 >= 0 by {
        if out.2 != points {
            if (j >= 0 && a != j) || (j < 0 && a < points.len()) {
                assert(out.2[a] == points[a]);
            }
        }
    }
}

/// A higher level never has fewer rights: whatever the check grants a
/// sender, it grants any sender of a higher level; everyone may use a
/// command open to everyone, and the broadcaster may use every command.
pub proof fn law_higher_level_keeps_rights(a: PermissionLevel, b: PermissionLevel, required: PermissionLevel, p: Platform)
    requires
        rank(b) <= rank(a),
    ensures
        permission_step_spec(Some(a), required, p) == PermissionStep::Granted
            ==> permission_step_spec(Some(b), required, p) == PermissionStep::Granted,
        permission_step_spec(Some(a), PermissionLevel::Everyone, p) == PermissionStep::Granted,
        permission_step_spec(Some(PermissionLevel::Broadcaster), required, p) == PermissionStep::Granted,
{
}

/// Whether no entry of a table or list of entries names a switched-off command.
pub open spec fn none_disabled(m: Seq<(Seq<char>, Seq<char>)>, a: AliasView) -> bool {
    forall|i: int| 0 <= i < m.len() ==> !seq_has(a.disabled, #[trigger] m[i].1)
}

proof fn lemma_alias_ops_name(aliases: Seq<Seq<char>>, command: Seq<char>, a: AliasView)
    ensures
        forall|i: int| 0 <= i < alias_ops(aliases, command, a).len() ==> #[trigger] alias_ops(aliases, command, a)[i].1 == command,
    decreases aliases.len(),
{
    if aliases.len() > 0 {
        lemma_alias_ops_name(aliases.drop_last(), command, a);
        let rest = alias_ops(aliases.drop_last(), command, a);
        let t = alias_ops(aliases, command, a);
        assert forall|i: int| 0 <= i < t.len() implies #[trigger] t[i].1 == command by {
            if i < rest.len() {
                assert(t[i] == rest[i]);
            }
        }
    }
}

proof fn lemma_group_ops_enabled(cs: Seq<RegView>, a: AliasView)
    ensures
        none_disabled(group_ops(cs, a), a),
    decreases cs.len(),
{
    if cs.len() > 0 {
        lemma_group_ops_enabled(cs.drop_last(), a);
        let c = cs.last();
        lemma_alias_ops_name(c.aliases, c.command, a);
        let x = group_ops(cs.drop_last(), a);
        let y = command_ops(c, a);
        assert forall|i: int| 0 <= i < (x + y).len() implies !seq_has(a.disabled, #[trigger] (x + y)[i].1) by {
            if i >= x.len() {
                assert(y[i - x.len()].1 == c.command);
            }
        }
    }
}

proof fn lemma_package_ops_enabled(ps: Seq<Seq<char>>, gs: Seq<GroupView>, a: AliasView)
    ensures
        none_disabled(package_ops(ps, gs, a), a),
    decreases ps.len(),
{
    if ps.len() > 0 {
        lemma_package_ops_enabled(ps.drop_last(), gs, a);
        let x = package_ops(ps.drop_last(), gs, a);
        let y = match group_named(gs, ascii_lower_seq(ps.last())) {
            Some(g) => group_ops(g.commands, a),
            None => seq![],
        };
        if let Some(g) = group_named(gs, ascii_lower_seq(ps.last())) {
            lemma_group_ops_enabled(g.commands, a);
        }
        assert forall|i: int| 0 <= i < (x + y).len() implies !seq_has(a.disabled, #[trigger] (x + y)[i].1) by {
            if i >= x.len() {
                assert((x + y)[i] == y[i - x.len()]);
            } else {
                assert((x + y)[i] == x[i]);
            }
        }
    }
}

proof fn lemma_insert_enabled(m: Seq<(Seq<char>, Seq<char>)>, k: Seq<char>, v: Seq<char>, a: AliasView)
    requires
        none_disabled(m, a),
        !seq_has(a.disabled, v),
    ensures
        none_disabled(map_insert(m, k, v), a),
{
    lemma_key_index(m, k);
}

proof fn lemma_apply_inserts_enabled(m: Seq<(Seq<char>, Seq<char>)>, ops: Seq<(Seq<char>, Seq<char>)>, a: AliasView)
    requires
        none_disabled(m, a),
        none_disabled(ops, a),
    ensures
        none_disabled(apply_inserts(m, ops), a),
    decreases ops.len(),
{
    if ops.len() > 0 {
        assert(none_disabled(ops.drop_last(), a)) by {
            assert forall|i: int| 0 <= i < ops.drop_last().len() implies !seq_has(a.disabled, #[trigger] ops.drop_last()[i].1) by {
                assert(ops.drop_last()[i] == ops[i]);
            }
        }
        lemma_apply_inserts_enabled(m, ops.drop_last(), a);
        assert(!seq_has(a.disabled, ops[ops.len() - 1].1));
        lemma_insert_enabled(apply_inserts(m, ops.drop_last()), ops.last().0, ops.last().1, a);
    }
}

proof fn lemma_apply_custom_enabled(m: Seq<(Seq<char>, Seq<char>)>, custom: Seq<(Seq<char>, Seq<char>)>, a: AliasView)
    requires
        none_disabled(m, a),
    ensures
        none_disabled(apply_custom(m, custom), a),
    decreases custom.len(),
{
    if custom.len() > 0 {
        lemma_apply_custom_enabled(m, custom.drop_last(), a);
        let m1 = apply_custom(m, custom.drop_last());
        lemma_key_index(m1, custom.last().1);
        if let Some(c) = map_get(m1, custom.last().1) {
            assert(c == m1[key_index(m1, custom.last().1)].1);
            lemma_insert_enabled(m1, custom.last().0, c, a);
        }
    }
}

/// A switched-off command cannot be called: no name in a channel's command
/// table, default alias or custom alias, leads to it.
pub proof fn law_disabled_command_unreachable(ps: Seq<Seq<char>>, gs: Seq<GroupView>, a: AliasView, name: Seq<char>)
    ensures
        map_get(command_table(ps, gs, a), name) matches Some(c) ==> !seq_has(a.disabled, c),
{
    lemma_package_ops_enabled(ps, gs, a);
    lemma_apply_inserts_enabled(seq![], package_ops(ps, gs, a), a);
    lemma_apply_custom_enabled(apply_inserts(seq![], package_ops(ps, gs, a)), a.aliases, a);
    let t = command_table(ps, gs, a);
    lemma_key_index(t, name);
}

proof fn lemma_split_single(x: Seq<char>, c: char)
    requires
        !x.contains(c),
    ensures
        split_on(x, c) == seq![x],
    decreases x.len(),
{
    if x.len() > 0 {
        assert(!x.drop_last().contains(c)) by {
            if x.drop_last().contains(c) {
                let i = choose|i: int| 0 <= i < x.drop_last().len() && x.drop_last()[i] == c;
                assert(x[i] == c);
            }
        }
        lemma_split_single(x.drop_last(), c);
        assert(x.last() != c);
        assert(x.drop_last().push(x.last()) =~= x);
        assert(seq![x.drop_last()].update(0, x.drop_last().push(x.last())) =~= seq![x]);
    } else {
        assert(x =~= Seq::<char>::empty());
    }
}

proof fn lemma_split_concat(a: Seq<char>, c: char, b: Seq<char>)
    ensures
        split_on(a + seq![c] + b, c) == split_on(a, c) + split_on(b, c),
    decreases b.len(),
{
    if b.len() == 0 {
        assert(a + seq![c] + b =~= a.push(c));
        assert((a.push(c)).drop_last() =~= a);
        assert(split_on(a, c).push(seq![]) =~= split_on(a, c) + split_on(b, c));
    } else {
        let s = a + seq![c] + b;
        assert(s.drop_last() =~= a + seq![c] + b.drop_last());
        assert(s.last() == b.last());
        lemma_split_concat(a, c, b.drop_last());
        crate::sessions::lemma_split_on_nonempty(b.drop_last(), c);
        let x = split_on(a, c);
        let y = split_on(b.drop_last(), c);
        if b.last() == c {
            assert((x + y).push(seq![]) =~= x + y.push(seq![]));
        } else {
            assert((x + y).update((x + y).len() - 1, (x + y).last().push(b.last()))
                =~= x + y.update(y.len() - 1, y.last().push(b.last())));
        }
    }
}

proof fn lemma_before_after_first(name: Seq<char>, c: char, rest: Seq<char>)
    requires
        !name.contains(c),
    ensures
        before_first(name + seq![c] + rest, c) == name,
        after_first(name + seq![c] + rest, c) == Some(rest),
    decreases name.len(),
{
    let s = name + seq![c] + rest;
    if name.len() == 0 {
        assert(s =~= seq![c] + rest);
        assert(s.skip(1) =~= rest);
    } else {
        assert(s[0] == name[0]);
        assert(name[0] != c);
        assert(!name.skip(1).contains(c)) by {
            if name.skip(1).contains(c) {
                let i = choose|i: int| 0 <= i < name.skip(1).len() && name.skip(1)[i] == c;
                assert(name[i + 1] == c);
            }
        }
        assert(s.skip(1) =~= name.skip(1) + seq![c] + rest);
        lemma_before_after_first(name.skip(1), c, rest);
        assert(seq![name[0]] + name.skip(1) =~= name);
    }
}

/// A session cookie reads back: in the `Set-Cookie` text written for `name`
/// and `value`, the cookie `name` has the value `value`. The name is not
/// empty and holds no `;` or `=` and no leading blank; the value holds no
/// `;` and does not end in a blank.
pub proof fn law_cookie_read_after_write(name: Seq<char>, value: Seq<char>)
    requires
        name.len() > 0,
        !name.contains(';'),
        !name.contains('='),
        !is_ws(name[0]),
        !value.contains(';'),
        value.len() > 0 ==> !is_ws(value.last()),
    ensures
        first_value(split_on(name + "="@ + value + "; "@ + cookie_attributes(), ';'), name) == Some(value),
{
    reveal_strlit("=");
    reveal_strlit("; ");
    let x = name + seq!['='] + value;
    let tail = seq![' '] + cookie_attributes();
    assert(name + "="@ + value + "; "@ + cookie_attributes() =~= x + seq![';'] + tail);
    assert(!x.contains(';')) by {
        if x.contains(';') {
            let i = choose|i: int| 0 <= i < x.len() && x[i] == ';';
            if i < name.len() {
                assert(name[i] == ';');
            } else if i > name.len() {
                assert(value[i - name.len() - 1] == ';');
            }
        }
    }
    lemma_split_concat(x, ';', tail);
    lemma_split_single(x, ';');
    let pieces = split_on(x + seq![';'] + tail, ';');
    assert(pieces[0] == x);
    assert(x[0] == name[0]);
    assert(!is_ws(x.last())) by {
        if value.len() > 0 {
            assert(x.last() == value.last());
        } else {
            assert(x.last() == '=');
        }
    }
    assert(trim_ws_start(x) == x);
    assert(trim_ws_end(x) == x);
    lemma_before_after_first(name, '=', value);
}

/// Whether `k` is a key of a table.
pub open spec fn has_key(m: Seq<(Seq<char>, Seq<char>)>, k: Seq<char>) -> bool {
    exists|i: int| 0 <= i < m.len() && m[i].0 == k
}

/// Whether the `ci`-th command of the group package `p` names has the
/// default alias `k` and the name `v`.
pub open spec fn package_command(gs: Seq<GroupView>, p: Seq<char>, ci: int, k: Seq<char>, v: Seq<char>) -> bool {
    match group_named(gs, ascii_lower_seq(p)) {
        Some(g) => 0 <= ci < g.commands.len() && g.commands[ci].command == v && seq_has(g.commands[ci].aliases, k),
        None => false,
    }
}

/// Whether `k` is a default alias of the command `v` that a channel with the
/// packages `ps` and the alias settings `a` has: `v` is in a group some
/// package names, is not switched off, and `k` is not a removed alias.
pub open spec fn default_alias_of(ps: Seq<Seq<char>>, gs: Seq<GroupView>, a: AliasView, k: Seq<char>, v: Seq<char>) -> bool {
    &&& !seq_has(a.disabled, v)
    &&& !seq_has(a.removed, k)
    &&& exists|pi: int, ci: int| 0 <= pi < ps.len() && #[trigger] package_command(gs, ps[pi], ci, k, v)
}

proof fn lemma_has_key_index(m: Seq<(Seq<char>, Seq<char>)>, k: Seq<char>)
    ensures
        has_key(m, k) <==> key_index(m, k) >= 0,
{
    lemma_key_index(m, k);
}

proof fn lemma_insert_entries(m: Seq<(Seq<char>, Seq<char>)>, k: Seq<char>, v: Seq<char>)
    ensures
        forall|i: int| 0 <= i < map_insert(m, k, v).len() ==>
            #[trigger] map_insert(m, k, v)[i] == (k, v) || exists|j: int| 0 <= j < m.len() && m[j] == map_insert(m, k, v)[i],
        forall|k2: Seq<char>| #[trigger] has_key(map_insert(m, k, v), k2) <==> (has_key(m, k2) || k2 == k),
{
    lemma_key_index(m, k);
    let r = map_insert(m, k, v);
    assert forall|i: int| 0 <= i < r.len() implies
        #[trigger] r[i] == (k, v) || exists|j: int| 0 <= j < m.len() && m[j] == r[i] by {
        if r[i] != (k, v) {
            assert(m[i] == r[i]);
        }
    }
    assert forall|k2: Seq<char>| #[trigger] has_key(r, k2) <==> (has_key(m, k2) || k2 == k) by {
        if has_key(r, k2) {
            let i = choose|i: int| 0 <= i < r.len() && r[i].0 == k2;
            if r[i].0 != k {
                assert(m[i] == r[i]);
            }
        }
        if has_key(m, k2) {
            let i = choose|i: int| 0 <= i < m.len() && m[i].0 == k2;
            if key_index(m, k) >= 0 && i == key_index(m, k) {
                assert(r[i].0 == k);
            } else {
                assert(r[i] == m[i]);
            }
        }
        if k2 == k {
            if key_index(m, k) >= 0 {
                assert(r[key_index(m, k)].0 == k);
            } else {
                assert(r[m.len() as int].0 == k);
            }
        }
    }
}

/// Every entry of the defaults table is one of the entries set, and every
/// key set is a key of it.
proof fn lemma_apply_inserts_entries(ops: Seq<(Seq<char>, Seq<char>)>)
    ensures
        forall|i: int| 0 <= i < apply_inserts(seq![], ops).len() ==>
            exists|j: int| 0 <= j < ops.len() && ops[j] == #[trigger] apply_inserts(seq![], ops)[i],
        forall|j: int| 0 <= j < ops.len() ==> has_key(apply_inserts(seq![], ops), #[trigger] ops[j].0),
    decreases ops.len(),
{
    if ops.len() > 0 {
        let pre = ops.drop_last();
        lemma_apply_inserts_entries(pre);
        let m1 = apply_inserts(seq![], pre);
        let r = apply_inserts(seq![], ops);
        lemma_insert_entries(m1, ops.last().0, ops.last().1);
        assert forall|i: int| 0 <= i < r.len() implies
            exists|j: int| 0 <= j < ops.len() && ops[j] == #[trigger] r[i] by {
            if r[i] == (ops.last().0, ops.last().1) {
                assert(ops[ops.len() - 1] == r[i]);
            } else {
                let j1 = choose|j1: int| 0 <= j1 < m1.len() && m1[j1] == r[i];
                let j = choose|j: int| 0 <= j < pre.len() && pre[j] == m1[j1];
                assert(ops[j] == pre[j]);
            }
        }
        assert forall|j: int| 0 <= j < ops.len() implies has_key(r, #[trigger] ops[j].0) by {
            if j < pre.len() {
                assert(pre[j] == ops[j]);
                assert(has_key(m1, pre[j].0));
            }
        }
    }
}

/// Custom aliases only add keys: every entry is an entry of the defaults
/// table or has a custom alias's key, and every key of the defaults stays.
proof fn lemma_apply_custom_entries(m: Seq<(Seq<char>, Seq<char>)>, custom: Seq<(Seq<char>, Seq<char>)>)
    ensures
        forall|i: int| 0 <= i < apply_custom(m, custom).len() ==>
            has_key(custom, (#[trigger] apply_custom(m, custom)[i]).0)
            || exists|j: int| 0 <= j < m.len() && m[j] == apply_custom(m, custom)[i],
        forall|k: Seq<char>| has_key(m, k) ==> #[trigger] has_key(apply_custom(m, custom), k),
    decreases custom.len(),
{
    if custom.len() > 0 {
        let pre = custom.drop_last();
        lemma_apply_custom_entries(m, pre);
        let m1 = apply_custom(m, pre);
        let r = apply_custom(m, custom);
        let last = custom.last();
        assert(has_key(custom, last.0)) by {
            assert(custom[custom.len() - 1].0 == last.0);
        }
        assert forall|k: Seq<char>| has_key(pre, k) implies has_key(custom, k) by {
            let j = choose|j: int| 0 <= j < pre.len() && pre[j].0 == k;
            assert(custom[j] == pre[j]);
        }
        match map_get(m1, last.1) {
            Some(c) => {
                lemma_insert_entries(m1, last.0, c);
                assert forall|i: int| 0 <= i < r.len() implies
                    has_key(custom, (#[trigger] r[i]).0) || exists|j: int| 0 <= j < m.len() && m[j] == r[i] by {
                    if r[i] != (last.0, c) {
                        let j1 = choose|j1: int| 0 <= j1 < m1.len() && m1[j1] == r[i];
                        assert(m1[j1] == r[i]);
                    }
                }
                assert forall|k: Seq<char>| has_key(m, k) implies #[trigger] has_key(r, k) by {
                    assert(has_key(m1, k));
                }
            },
            None => {},
        }
    }
}

proof fn lemma_alias_ops_origin(aliases: Seq<Seq<char>>, command: Seq<char>, a: AliasView)
    ensures
        forall|j: int| 0 <= j < alias_ops(aliases, command, a).len() ==>
            seq_has(aliases, (#[trigger] alias_ops(aliases, command, a)[j]).0)
            && !seq_has(a.removed, alias_ops(aliases, command, a)[j].0),
        forall|k: Seq<char>| seq_has(aliases, k) && !seq_has(a.removed, k) ==>
            #[trigger] has_key(alias_ops(aliases, command, a), k),
    decreases aliases.len(),
{
    lemma_alias_ops_name(aliases, command, a);
    if aliases.len() > 0 {
        let pre = aliases.drop_last();
        lemma_alias_ops_origin(pre, command, a);
        let rest = alias_ops(pre, command, a);
        let t = alias_ops(aliases, command, a);
        assert forall|j: int| 0 <= j < t.len() implies
            seq_has(aliases, (#[trigger] t[j]).0) && !seq_has(a.removed, t[j].0) by {
            if j < rest.len() {
                assert(t[j] == rest[j]);
                let x = choose|x: int| 0 <= x < pre.len() && pre[x] == rest[j].0;
                assert(aliases[x] == pre[x]);
            } else {
                assert(aliases[aliases.len() - 1] == t[j].0);
            }
        }
        assert forall|k: Seq<char>| seq_has(aliases, k) && !seq_has(a.removed, k) implies #[trigger] has_key(t, k) by {
            let x = choose|x: int| 0 <= x < aliases.len() && aliases[x] == k;
            if x < pre.len() {
                assert(pre[x] == k);
                assert(has_key(rest, k));
                let y = choose|y: int| 0 <= y < rest.len() && rest[y].0 == k;
                assert(t[y] == rest[y]);
            } else {
                assert(t[t.len() - 1].0 == k);
            }
        }
    }
}

proof fn lemma_group_ops_origin(cs: Seq<RegView>, a: AliasView)
    ensures
        forall|j: int| 0 <= j < group_ops(cs, a).len() ==> {
            let e = #[trigger] group_ops(cs, a)[j];
            &&& !seq_has(a.disabled, e.1) && !seq_has(a.removed, e.0)
            &&& exists|ci: int| 0 <= ci < cs.len() && #[trigger] cs[ci].command == e.1 && seq_has(cs[ci].aliases, e.0)
        },
        forall|ci: int, k: Seq<char>| #![trigger has_key(group_ops(cs, a), k), cs[ci]]
            0 <= ci < cs.len() && !seq_has(a.disabled, cs[ci].command) && seq_has(cs[ci].aliases, k)
            && !seq_has(a.removed, k) ==> has_key(group_ops(cs, a), k),
    decreases cs.len(),
{
    if cs.len() > 0 {
        let pre = cs.drop_last();
        lemma_group_ops_origin(pre, a);
        let c = cs.last();
        lemma_alias_ops_name(c.aliases, c.command, a);
        lemma_alias_ops_origin(c.aliases, c.command, a);
        let x = group_ops(pre, a);
        let y = command_ops(c, a);
        let t = group_ops(cs, a);
        assert(t == x + y);
        assert forall|j: int| 0 <= j < t.len() implies {
            let e = #[trigger] t[j];
            &&& !seq_has(a.disabled, e.1) && !seq_has(a.removed, e.0)
            &&& exists|ci: int| 0 <= ci < cs.len() && #[trigger] cs[ci].command == e.1 && seq_has(cs[ci].aliases, e.0)
        } by {
            if j < x.len() {
                assert(t[j] == x[j]);
                let ci = choose|ci: int| 0 <= ci < pre.len() && #[trigger] pre[ci].command == x[j].1 && seq_has(pre[ci].aliases, x[j].0);
                assert(cs[ci] == pre[ci]);
            } else {
                assert(t[j] == y[j - x.len()]);
                assert(y[j - x.len()].1 == c.command);
                assert(cs[cs.len() - 1] == c);
            }
        }
        assert forall|ci: int, k: Seq<char>| #![trigger has_key(t, k), cs[ci]]
            0 <= ci < cs.len() && !seq_has(a.disabled, cs[ci].command) && seq_has(cs[ci].aliases, k)
            && !seq_has(a.removed, k) implies has_key(t, k) by {
            if ci < pre.len() {
                assert(pre[ci] == cs[ci]);
                assert(has_key(x, k));
                let i = choose|i: int| 0 <= i < x.len() && x[i].0 == k;
                assert(t[i] == x[i]);
            } else {
                assert(cs[ci] == c);
                assert(has_key(y, k));
                let i = choose|i: int| 0 <= i < y.len() && y[i].0 == k;
                assert(t[x.len() + i] == y[i]);
            }
        }
    }
}

proof fn lemma_package_ops_origin(ps: Seq<Seq<char>>, gs: Seq<GroupView>, a: AliasView)
    ensures
        forall|j: int| 0 <= j < package_ops(ps, gs, a).len() ==>
            default_alias_of(ps, gs, a, (#[trigger] package_ops(ps, gs, a)[j]).0, package_ops(ps, gs, a)[j].1),
        forall|k: Seq<char>, v: Seq<char>| #[trigger] default_alias_of(ps, gs, a, k, v) ==> has_key(package_ops(ps, gs, a), k),
    decreases ps.len(),
{
    if ps.len() > 0 {
        let pre = ps.drop_last();
        lemma_package_ops_origin(pre, gs, a);
        let x = package_ops(pre, gs, a);
        let y = match group_named(gs, ascii_lower_seq(ps.last())) {
            Some(g) => group_ops(g.commands, a),
            None => seq![],
        };
        let t = package_ops(ps, gs, a);
        assert(t == x + y);
        if let Some(g) = group_named(gs, ascii_lower_seq(ps.last())) {
            lemma_group_ops_origin(g.commands, a);
        }
        assert forall|j: int| 0 <= j < t.len() implies
            default_alias_of(ps, gs, a, (#[trigger] t[j]).0, t[j].1) by {
            if j < x.len() {
                assert(t[j] == x[j]);
                assert(default_alias_of(pre, gs, a, x[j].0, x[j].1));
                let (pi, ci) = choose|pi: int, ci: int| 0 <= pi < pre.len() && #[trigger] package_command(gs, pre[pi], ci, x[j].0, x[j].1);
                assert(ps[pi] == pre[pi]);
                assert(package_command(gs, ps[pi], ci, t[j].0, t[j].1));
            } else {
                assert(t[j] == y[j - x.len()]);
                let g = group_named(gs, ascii_lower_seq(ps.last()))->0;
                let e = y[j - x.len()];
                let ci = choose|ci: int| 0 <= ci < g.commands.len() && #[trigger] g.commands[ci].command == e.1 && seq_has(g.commands[ci].aliases, e.0);
                assert(ps[ps.len() - 1] == ps.last());
                assert(package_command(gs, ps[ps.len() - 1], ci, t[j].0, t[j].1));
            }
        }
        assert forall|k: Seq<char>, v: Seq<char>| #[trigger] default_alias_of(ps, gs, a, k, v) implies has_key(t, k) by {
            let (pi, ci) = choose|pi: int, ci: int| 0 <= pi < ps.len() && #[trigger] package_command(gs, ps[pi], ci, k, v);
            if pi < pre.len() {
                assert(pre[pi] == ps[pi]);
                assert(package_command(gs, pre[pi], ci, k, v));
                assert(default_alias_of(pre, gs, a, k, v));
                let i = choose|i: int| 0 <= i < x.len() && x[i].0 == k;
                assert(t[i] == x[i]);
            } else {
                let g = group_named(gs, ascii_lower_seq(ps.last()))->0;
                assert(g.commands[ci].command == v);
                assert(has_key(y, k));
                let i = choose|i: int| 0 <= i < y.len() && y[i].0 == k;
                assert(t[x.len() + i] == y[i]);
            }
        }
    }
}

/// Which names a channel's command table holds (`build_for_channel` gives
/// `command_table` of the channel's packages, the registry and the alias
/// settings): every entry calls a command that is not switched off; every
/// name that is not a custom alias is a default alias, not removed, of the
/// command it calls, which is a command of a group some package names
/// (ASCII-lowercased); and every such default alias of a command that is
/// not switched off is a name in the table (also when a custom alias of the
/// same name overrides the command it calls).
pub proof fn law_command_table_names(ps: Seq<Seq<char>>, gs: Seq<GroupView>, a: AliasView)
    ensures
        ({
            let t = command_table(ps, gs, a);
            &&& forall|i: int| 0 <= i < t.len() ==> !seq_has(a.disabled, (#[trigger] t[i]).1)
            &&& forall|i: int| 0 <= i < t.len() && map_get(a.aliases, (#[trigger] t[i]).0) is None ==>
                default_alias_of(ps, gs, a, t[i].0, t[i].1)
            &&& forall|k: Seq<char>, v: Seq<char>| #[trigger] default_alias_of(ps, gs, a, k, v) ==> map_get(t, k) is Some
        }),
{
    let ops = package_ops(ps, gs, a);
    let b = apply_inserts(seq![], ops);
    let t = command_table(ps, gs, a);
    lemma_package_ops_enabled(ps, gs, a);
    lemma_apply_inserts_enabled(seq![], ops, a);
    lemma_apply_custom_enabled(b, a.aliases, a);
    lemma_package_ops_origin(ps, gs, a);
    lemma_apply_inserts_entries(ops);
    lemma_apply_custom_entries(b, a.aliases);
    assert forall|i: int| 0 <= i < t.len() && map_get(a.aliases, (#[trigger] t[i]).0) is None implies
        default_alias_of(ps, gs, a, t[i].0, t[i].1) by {
        lemma_has_key_index(a.aliases, t[i].0);
        let j1 = choose|j1: int| 0 <= j1 < b.len() && b[j1] == t[i];
        assert(b[j1] == t[i]);
        let j = choose|j: int| 0 <= j < ops.len() && ops[j] == b[j1];
        assert(ops[j] == t[i]);
    }
    assert forall|k: Seq<char>, v: Seq<char>| #[trigger] default_alias_of(ps, gs, a, k, v) implies map_get(t, k) is Some by {
        let j = choose|j: int| 0 <= j < ops.len() && ops[j].0 == k;
        assert(has_key(b, ops[j].0));
        assert(has_key(t, k));
        lemma_has_key_index(t, k);
    }
}

} // verus!
