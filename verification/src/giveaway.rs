//! Giveaways paid with channel points: entering with tickets, drawing a
//! winner, and the settings commands.

use vstd::prelude::*;
use rand::Rng;
use crate::text::{split_ascii_ws, split_ascii_whitespace, parse_in_range, parse_i32, parse_usize, str_seq_eq, cat2, cat3, cat5, dec_int, i64_to_string, usize_to_string, dec, replace_all, replace_str, strings_view};
use crate::permissions::PermissionLevel;

verus! {

/// A channel's giveaway settings.
#[derive(Clone, Copy)]
pub struct Giveaway {
    /// Seconds the giveaway runs.
    pub duration: usize,
    /// Most tickets one viewer may hold.
    pub max_tickets: usize,
    /// Points per ticket.
    pub ticket_cost: usize,
    pub active: bool,
}

impl Giveaway {
    /// An hour, at most 100 tickets of 15 points, not running.
    pub fn new() -> (r: Giveaway)
        ensures
            r.duration == 3600,
            r.max_tickets == 100,
            r.ticket_cost == 15,
            !r.active,
    {
        Giveaway { duration: 3600, max_tickets: 100, ticket_cost: 15, active: false }
    }
}

/// Amounts by viewer name, as views.
pub open spec fn amounts_view(v: Seq<(String, i32)>) -> Seq<(Seq<char>, i32)> {
    v.map_values(|e: (String, i32)| (e.0@, e.1))
}

/// Index of the last entry of `k`, or -1.
pub open spec fn slot(m: Seq<(Seq<char>, i32)>, k: Seq<char>) -> int
    decreases m.len(),
{
    if m.len() == 0 {
        -1
    } else if m.last().0 == k {
        m.len() - 1
    } else {
        slot(m.drop_last(), k)
    }
}

pub proof fn lemma_slot(m: Seq<(Seq<char>, i32)>, k: Seq<char>)
    ensures
        -1 <= slot(m, k) < m.len(),
        slot(m, k) >= 0 ==> m[slot(m, k)].0 == k,
        slot(m, k) < 0 ==> forall|i: int| 0 <= i < m.len() ==> #[trigger] m[i].0 != k,
    decreases m.len(),
{
    if m.len() > 0 && m.last().0 != k {
        lemma_slot(m.drop_last(), k);
        if slot(m, k) < 0 {
            assert forall|i: int| 0 <= i < m.len() implies #[trigger] m[i].0 != k by {
                if i < m.len() - 1 {
                    assert(m[i] == m.drop_last()[i]);
                }
            }
        }
    }
}

/// The amount of `k`, if it has an entry.
pub open spec fn amount_of(m: Seq<(Seq<char>, i32)>, k: Seq<char>) -> Option<i32> {
    let i = slot(m, k);
    if i >= 0 { Some(m[i].1) } else { None }
}

/// `k` set to `v`: in place when it has an entry, appended otherwise.
pub open spec fn set_amount(m: Seq<(Seq<char>, i32)>, k: Seq<char>, v: i32) -> Seq<(Seq<char>, i32)> {
    let i = slot(m, k);
    if i >= 0 { m.update(i, (k, v)) } else { m.push((k, v)) }
}

fn find_slot(v: &Vec<(String, i32)>, k: &str) -> (r: Option<usize>)
    ensures
        match r {
            Some(i) => slot(amounts_view(v@), k@) == i,
            None => slot(amounts_view(v@), k@) == -1,
        },
{
    let mut found: Option<usize> = None;
    let mut i: usize = 0;
    while i < v.len()
        invariant
            i <= v@.len(),
            match found {
                Some(j) => slot(amounts_view(v@).take(i as int), k@) == j,
                None => slot(amounts_view(v@).take(i as int), k@) == -1,
            },
        decreases v@.len() - i,
    {
        let ghost t = amounts_view(v@).take(i + 1);
        assert(t.drop_last() =~= amounts_view(v@).take(i as int));
        assert(t.last() == (v@[i as int].0@, v@[i as int].1));
        if str_seq_eq(v[i].0.as_str(), k) {
            found = Some(i);
        }
        i = i + 1;
    }
    assert(amounts_view(v@).take(v@.len() as int) =~= amounts_view(v@));
    found
}

fn get_amount(v: &Vec<(String, i32)>, k: &str) -> (r: Option<i32>)
    ensures
        r == amount_of(amounts_view(v@), k@),
{
    match find_slot(v, k) {
        Some(i) => {
            proof {
                lemma_slot(amounts_view(v@), k@);
            }
            assert(amounts_view(v@)[i as int] == (v@[i as int].0@, v@[i as int].1));
            Some(v[i].1)
        },
        None => None,
    }
}

fn put_amount(v: &mut Vec<(String, i32)>, k: &str, x: i32)
    ensures
        amounts_view(final(v)@) == set_amount(amounts_view(old(v)@), k@, x),
{
    let ghost before = v@;
    match find_slot(v, k) {
        Some(i) => {
            proof {
                lemma_slot(amounts_view(before), k@);
            }
            v.set(i, (k.to_owned(), x));
            assert(amounts_view(v@) =~= amounts_view(before).update(i as int, (k@, x)));
        },
        None => {
            v.push((k.to_owned(), x));
            assert(amounts_view(v@) =~= amounts_view(before).push((k@, x)));
        },
    }
}

/// The tickets bought in a channel's giveaway, in order of first entry.
pub struct GiveawayEntries {
    entries: Vec<(String, i32)>,
}

impl View for GiveawayEntries {
    type V = Seq<(Seq<char>, i32)>;

    closed spec fn view(&self) -> Seq<(Seq<char>, i32)> {
        amounts_view(self.entries@)
    }
}

/// The points of a channel's viewers.
pub struct PointsLedger {
    balances: Vec<(String, i32)>,
}

impl View for PointsLedger {
    type V = Seq<(Seq<char>, i32)>;

    closed spec fn view(&self) -> Seq<(Seq<char>, i32)> {
        amounts_view(self.balances@)
    }
}

impl PointsLedger {
    pub fn new() -> (r: PointsLedger)
        ensures
            r@.len() == 0,
    {
        PointsLedger { balances: Vec::new() }
    }

    /// The points of `name`.
    pub fn points(&self, name: &str) -> (r: Option<i32>)
        ensures
            r == amount_of(self@, name@),
    {
        get_amount(&self.balances, name)
    }

    pub fn len(&self) -> (r: usize)
        ensures
            r == self@.len(),
    {
        self.balances.len()
    }

    /// The name and points at `i`, in stored order.
    pub fn entry(&self, i: usize) -> (r: (&String, i32))
        requires
            i < self@.len(),
        ensures
            (r.0@, r.1) == self@[i as int],
    {
        (&self.balances[i].0, self.balances[i].1)
    }

    /// Sets the points of `name`.
    pub fn set_points(&mut self, name: &str, points: i32)
        ensures
            final(self)@ == set_amount(old(self)@, name@, points),
    {
        put_amount(&mut self.balances, name, points);
    }
}

/// The balances after each viewer in `viewers`, in turn, is given `amount`
/// points (a viewer without a balance starts at `amount`).
pub open spec fn granted(m: Seq<(Seq<char>, i32)>, viewers: Seq<Seq<char>>, amount: int) -> Seq<(Seq<char>, i32)>
    decreases viewers.len(),
{
    if viewers.len() == 0 {
        m
    } else {
        let prev = granted(m, viewers.drop_last(), amount);
        let v = viewers.last();
        set_amount(prev, v, (match amount_of(prev, v) { Some(p) => p + amount, None => amount }) as i32)
    }
}

/// Whether giving `amount` points to each of `viewers` keeps every balance
/// an `i32`.
pub open spec fn grant_fits(m: Seq<(Seq<char>, i32)>, viewers: Seq<Seq<char>>, amount: int) -> bool {
    forall|i: int| 0 <= i < viewers.len() ==> {
        let now = match amount_of(m, #[trigger] viewers[i]) { Some(p) => p as int, None => 0 };
        i32::MIN <= now + amount <= i32::MAX
    }
}

pub proof fn lemma_slot_update(m: Seq<(Seq<char>, i32)>, i: int, e: (Seq<char>, i32), v: Seq<char>)
    requires
        0 <= i < m.len(),
        m[i].0 == e.0,
        e.0 != v,
    ensures
        slot(m.update(i, e), v) == slot(m, v),
    decreases m.len(),
{
    let t = m.update(i, e);
    if i < m.len() - 1 {
        assert(t.drop_last() =~= m.drop_last().update(i, e));
        assert(t.last() == m.last());
        lemma_slot_update(m.drop_last(), i, e, v);
    } else {
        assert(t.drop_last() =~= m.drop_last());
    }
}

proof fn lemma_slot_update_same(m: Seq<(Seq<char>, i32)>, i: int, x: i32)
    requires
        0 <= i < m.len(),
        slot(m, m[i].0) == i,
    ensures
        slot(m.update(i, (m[i].0, x)), m[i].0) == i,
    decreases m.len(),
{
    let k = m[i].0;
    let t = m.update(i, (k, x));
    if i < m.len() - 1 {
        assert(m.last().0 != k);
        assert(t.last() == m.last());
        assert(t.drop_last() =~= m.drop_last().update(i, (k, x)));
        assert(m.drop_last()[i] == m[i]);
        lemma_slot_update_same(m.drop_last(), i, x);
    }
}

/// Setting a viewer's balance reads back as what was set.
pub proof fn lemma_set_amount_same(m: Seq<(Seq<char>, i32)>, k: Seq<char>, x: i32)
    ensures
        amount_of(set_amount(m, k, x), k) == Some(x),
{
    lemma_slot(m, k);
    let i = slot(m, k);
    if i >= 0 {
        lemma_slot_update_same(m, i, x);
    } else {
        assert(m.push((k, x)).last().0 == k);
    }
}

/// Setting one viewer's balance leaves the others' as they were.
pub proof fn lemma_set_amount_other(m: Seq<(Seq<char>, i32)>, k: Seq<char>, x: i32, v: Seq<char>)
    requires
        k != v,
    ensures
        amount_of(set_amount(m, k, x), v) == amount_of(m, v),
{
    lemma_slot(m, k);
    lemma_slot(m, v);
    let i = slot(m, k);
    if i >= 0 {
        lemma_slot_update(m, i, (k, x), v);
        if slot(m, v) >= 0 {
            assert(slot(m, v) != i);
        }
    } else {
        assert(m.push((k, x)).drop_last() =~= m);
    }
}

proof fn lemma_granted_other(m: Seq<(Seq<char>, i32)>, viewers: Seq<Seq<char>>, amount: int, v: Seq<char>)
    requires
        !viewers.contains(v),
    ensures
        amount_of(granted(m, viewers, amount), v) == amount_of(m, v),
    decreases viewers.len(),
{
    if viewers.len() > 0 {
        assert(!viewers.drop_last().contains(v)) by {
            if viewers.drop_last().contains(v) {
                let j = choose|j: int| 0 <= j < viewers.drop_last().len() && viewers.drop_last()[j] == v;
                assert(viewers[j] == v);
            }
        }
        lemma_granted_other(m, viewers.drop_last(), amount, v);
        assert(viewers[viewers.len() - 1] == viewers.last());
        let prev = granted(m, viewers.drop_last(), amount);
        let w = viewers.last();
        lemma_set_amount_other(prev, w, (match amount_of(prev, w) { Some(p) => p + amount, None => amount }) as i32, v);
    }
}

impl PointsLedger {
    /// Gives each of `viewers` (each named once) `amount` points; a viewer
    /// without a balance gets one of `amount`.
    pub fn grant_points(&mut self, viewers: &Vec<String>, amount: i32)
        requires
            strings_view(viewers@).no_duplicates(),
            grant_fits(old(self)@, strings_view(viewers@), amount as int),
        ensures
            final(self)@ == granted(old(self)@, strings_view(viewers@), amount as int),
    {
        let ghost m = self@;
        let ghost vs = strings_view(viewers@);
        let mut i: usize = 0;
        while i < viewers.len()
            invariant
                m == old(self)@,
                vs == strings_view(viewers@),
                vs.no_duplicates(),
                grant_fits(m, vs, amount as int),
                i <= vs.len(),
                self@ == granted(m, vs.take(i as int), amount as int),
            decreases vs.len() - i,
        {
            let ghost pre = vs.take(i as int);
            assert(vs.take(i + 1).drop_last() =~= pre);
            assert(vs.take(i + 1).last() == vs[i as int]);
            assert(!pre.contains(vs[i as int])) by {
                if pre.contains(vs[i as int]) {
                    let j = choose|j: int| 0 <= j < pre.len() && pre[j] == vs[i as int];
                    assert(vs[j] == vs[i as int]);
                }
            }
            proof {
                lemma_granted_other(m, pre, amount as int, vs[i as int]);
            }
            assert(viewers@[i as int]@ == vs[i as int]);
            let cur = self.points(viewers[i].as_str());
            let new_points: i32 = match cur {
                Some(p) => p + amount,
                None => amount,
            };
            self.set_points(viewers[i].as_str(), new_points);
            i = i + 1;
        }
        assert(vs.take(vs.len() as int) =~= vs);
    }
}

/// The tickets of entries `0..=i`.
pub open spec fn cumulative(m: Seq<(Seq<char>, i32)>, i: int) -> int
    decreases i + 1,
{
    if i < 0 || m.len() == 0 {
        0
    } else {
        cumulative(m, i - 1) + m[i].1
    }
}

/// All tickets.
pub open spec fn total(m: Seq<(Seq<char>, i32)>) -> int {
    cumulative(m, m.len() - 1)
}

/// Every entry holds at least one ticket.
pub open spec fn positive_entries(m: Seq<(Seq<char>, i32)>) -> bool {
    forall|i: int| 0 <= i < m.len() ==> #[trigger] m[i].1 > 0
}

/// The entry that ticket number `t` falls on: the first whose running total
/// reaches `t`, or -1.
pub open spec fn winner_index(m: Seq<(Seq<char>, i32)>, t: int) -> int
    decreases m.len(),
{
    if m.len() == 0 {
        -1
    } else if winner_index(m.drop_last(), t) >= 0 {
        winner_index(m.drop_last(), t)
    } else if cumulative(m, m.len() - 1) >= t {
        m.len() - 1
    } else {
        -1
    }
}

proof fn lemma_cumulative_prefix(m: Seq<(Seq<char>, i32)>, k: int, i: int)
    requires
        0 <= i < k <= m.len(),
    ensures
        cumulative(m.take(k), i) == cumulative(m, i),
    decreases i + 1,
{
    assert(m.take(k)[i] == m[i]);
    if i > 0 {
        lemma_cumulative_prefix(m, k, i - 1);
    } else {
        assert(cumulative(m.take(k), -1) == 0);
        assert(cumulative(m, -1) == 0);
    }
}

impl GiveawayEntries {
    pub fn new() -> (r: GiveawayEntries)
        ensures
            r@.len() == 0,
    {
        GiveawayEntries { entries: Vec::new() }
    }

    /// The tickets of `name`.
    pub fn tickets(&self, name: &str) -> (r: Option<i32>)
        ensures
            r == amount_of(self@, name@),
    {
        get_amount(&self.entries, name)
    }

    /// Forgets all entries (a new giveaway starts).
    pub fn clear(&mut self)
        ensures
            final(self)@.len() == 0,
    {
        self.entries = Vec::new();
    }

    /// The number of tickets in the giveaway.
    pub fn total_tickets(&self) -> (r: i64)
        requires
            self@.len() < 0x1_0000_0000,
            positive_entries(self@),
        ensures
            r == total(self@),
    {
        let ghost m = self@;
        let mut sum: i64 = 0;
        let mut i: usize = 0;
        while i < self.entries.len()
            invariant
                m == self@,
                m.len() < 0x1_0000_0000,
                positive_entries(m),
                i <= m.len(),
                sum == cumulative(m, i - 1),
                0 <= sum <= i * 0x7fff_ffff,
            decreases m.len() - i,
        {
            assert(m[i as int].1 == self.entries@[i as int].1);
            assert(m[i as int].1 > 0);
            assert(sum + self.entries[i as int].1 <= (i + 1) * 0x7fff_ffff) by (nonlinear_arith)
                requires
                    sum <= i * 0x7fff_ffff,
                    self.entries[i as int].1 <= 0x7fff_ffff;
            assert((i + 1) * 0x7fff_ffff <= 0x1_0000_0000 * 0x7fff_ffff) by (nonlinear_arith)
                requires
                    i + 1 <= 0x1_0000_0000;
            sum = sum + self.entries[i].1 as i64;
            i = i + 1;
        }
        sum
    }

    /// The entry that ticket number `ticket` falls on: its name and tickets.
    pub fn winner_for(&self, ticket: i64) -> (r: Option<(String, i32)>)
        requires
            self@.len() < 0x1_0000_0000,
            positive_entries(self@),
        ensures
            ({
                let w = winner_index(self@, ticket as int);
                match r {
                    Some((n, t)) => w >= 0 && n@ == self@[w].0 && t == self@[w].1,
                    None => w < 0,
                }
            }),
    {
        let ghost m = self@;
        let mut sum: i64 = 0;
        let mut i: usize = 0;
        while i < self.entries.len()
            invariant
                m == self@,
                m.len() < 0x1_0000_0000,
                positive_entries(m),
                i <= m.len(),
                sum == cumulative(m, i - 1),
                0 <= sum <= i * 0x7fff_ffff,
                winner_index(m.take(i as int), ticket as int) < 0,
            decreases m.len() - i,
        {
            assert(m[i as int].1 == self.entries@[i as int].1);
            assert(sum + self.entries[i as int].1 <= (i + 1) * 0x7fff_ffff) by (nonlinear_arith)
                requires
                    sum <= i * 0x7fff_ffff,
                    self.entries[i as int].1 <= 0x7fff_ffff;
            assert((i + 1) * 0x7fff_ffff <= 0x1_0000_0000 * 0x7fff_ffff) by (nonlinear_arith)
                requires
                    i + 1 <= 0x1_0000_0000;
            sum = sum + self.entries[i].1 as i64;
            let ghost t = m.take(i + 1);
            assert(t.drop_last() =~= m.take(i as int));
            proof {
                lemma_cumulative_prefix(m, i + 1, i as int);
            }
            assert(cumulative(t, t.len() - 1) == sum);
            if sum >= ticket {
                assert(winner_index(t, ticket as int) == i);
                proof {
                    lemma_winner_prefix(m, i + 1, ticket as int);
                }
                return Some((self.entries[i].0.clone(), self.entries[i].1));
            }
            i = i + 1;
        }
        assert(m.take(m.len() as int) =~= m);
        None
    }
}

/// A winner found among the first `k` entries stays the winner.
proof fn lemma_winner_prefix(m: Seq<(Seq<char>, i32)>, k: int, t: int)
    requires
        0 <= k <= m.len(),
        winner_index(m.take(k), t) >= 0,
    ensures
        winner_index(m, t) == winner_index(m.take(k), t),
    decreases m.len() - k,
{
    if k < m.len() {
        assert(m.take(k + 1).drop_last() =~= m.take(k));
        lemma_winner_prefix(m, k + 1, t);
    } else {
        assert(m.take(k) =~= m);
    }
}

/// What entering a giveaway does: the reply, and the new entries and
/// points. `name` is the sender; the words are split on ASCII whitespace.
pub open spec fn join_giveaway_spec(g: Giveaway, entries: Seq<(Seq<char>, i32)>, points: Seq<(Seq<char>, i32)>, name: Seq<char>, w: Seq<Seq<char>>) -> (Seq<char>, Seq<(Seq<char>, i32)>, Seq<(Seq<char>, i32)>) {
    if w.len() != 2 {
        (name + ", to enter a raffle use: !ticket <number of tickets>"@, entries, points)
    } else {
        match parse_in_range(w[1], true, i32::MIN as int, i32::MAX as int) {
            Some(n) if n > 0 => {
                if !g.active {
                    (name + ", there is no giveaway running right now."@, entries, points)
                } else {
                    let max = (g.max_tickets as i32) as int;
                    let price = (g.ticket_cost as i32) as int;
                    let have = match amount_of(entries, name) { Some(x) => x as int, None => 0 };
                    if n + have > max {
                        (name + ", can't enter with more than "@ + dec_int(max) + " tickets total!"@, entries, points)
                    } else {
                        let cost = price * n;
                        match amount_of(points, name) {
                            None => (name + ", doesn't have any points to enter!"@, entries, points),
                            Some(p) => if (p as int) < cost {
                                (name + ", you don't have enough points! Needed: "@ + dec_int(cost) + ", You have: "@ + dec_int(p as int), entries, points)
                            } else {
                                (name + ", you successfully entered the giveaway with "@ + dec_int(n) + " tickets!"@,
                                 set_amount(entries, name, (n + have) as i32),
                                 set_amount(points, name, (p - cost) as i32))
                            },
                        }
                    }
                }
            },
            _ => (name + ", ticket count must be a positive number!"@, entries, points),
        }
    }
}

/// Where entering stays within `i32` arithmetic: the sum of tickets, their
/// price and the new balance all fit.
pub open spec fn join_giveaway_defined(g: Giveaway, entries: Seq<(Seq<char>, i32)>, points: Seq<(Seq<char>, i32)>, name: Seq<char>, w: Seq<Seq<char>>) -> bool {
    w.len() == 2 ==> match parse_in_range(w[1], true, i32::MIN as int, i32::MAX as int) {
        Some(n) => {
            let have = match amount_of(entries, name) { Some(x) => x as int, None => 0 };
            let cost = ((g.ticket_cost as i32) as int) * n;
            n > 0 && g.active ==> n + have <= i32::MAX && (n + have <= (g.max_tickets as i32) as int
                ==> i32::MIN <= cost <= i32::MAX && (amount_of(points, name) matches Some(p) ==> i32::MIN <= p - cost <= i32::MAX))
        },
        None => true,
    }
}

/// `!ticket <amount>`: buy giveaway tickets with points.
pub struct JoinGiveaway;

impl JoinGiveaway {
    pub fn description(&self) -> (r: &'static str)
        ensures
            r@ == "Join a giveaway using points"@,
    {
        "Join a giveaway using points"
    }

    pub fn usage(&self) -> (r: &'static str)
        ensures
            r@ == "!ticket <amount>"@,
    {
        "!ticket <amount>"
    }

    pub fn name(&self) -> (r: &'static str)
        ensures
            r@ == "enter_giveaway"@,
    {
        "enter_giveaway"
    }

    pub fn permission(&self) -> (r: PermissionLevel)
        ensures
            r == PermissionLevel::Follower,
    {
        PermissionLevel::Follower
    }

    /// Enters `name` with the tickets the message asks for, paying with
    /// points; the reply says what happened.
    pub fn execute(&self, g: &Giveaway, entries: &mut GiveawayEntries, ledger: &mut PointsLedger, name: &str, message: &str) -> (r: String)
        requires
            join_giveaway_defined(*g, old(entries)@, old(ledger)@, name@, split_ascii_ws(message@)),
        ensures
            (r@, final(entries)@, final(ledger)@) == join_giveaway_spec(*g, old(entries)@, old(ledger)@, name@, split_ascii_ws(message@)),
    {
        let words = split_ascii_whitespace(message);
        if words.len() != 2 {
            return cat2(name, ", to enter a raffle use: !ticket <number of tickets>");
        }
        assert(words@[1]@ == split_ascii_ws(message@)[1]);
        let num = match parse_i32(words[1].as_str()) {
            Some(x) => {
                if x > 0 {
                    x
                } else {
                    return cat2(name, ", ticket count must be a positive number!");
                }
            },
            None => return cat2(name, ", ticket count must be a positive number!"),
        };
        if !g.active {
            return cat2(name, ", there is no giveaway running right now.");
        }
        let price = #[verifier::truncate] (g.ticket_cost as i32);
        let max_tickets = #[verifier::truncate] (g.max_tickets as i32);
        let have = match entries.tickets(name) {
            Some(x) => x,
            None => 0,
        };
        let total_after = num + have;
        if total_after > max_tickets {
            return cat3(name, ", can't enter with more than ", i64_to_string(max_tickets as i64).as_str()).concat(" tickets total!");
        }
        let cost = price * num;
        let points = match ledger.points(name) {
            Some(p) => p,
            None => return cat2(name, ", doesn't have any points to enter!"),
        };
        if points < cost {
            return cat5(name, ", you don't have enough points! Needed: ", i64_to_string(cost as i64).as_str(), ", You have: ", i64_to_string(points as i64).as_str());
        }
        put_amount(&mut entries.entries, name, total_after);
        ledger.set_points(name, points - cost);
        cat3(name, ", you successfully entered the giveaway with ", i64_to_string(num as i64).as_str()).concat(" tickets!")
    }
}

/// A ticket number drawn uniformly from `1..=total` (rand's thread RNG).
/// Trusted: the number is in that range; which one is left to chance.
#[verifier::external_body]
fn draw_ticket(total: i64) -> (r: i64)
    requires
        total >= 1,
    ensures
        1 <= r <= total,
{
    rand::rng().random_range(1..=total)
}

/// The outcome of drawing a winner.
pub enum PullOutcome {
    /// No tickets were bought.
    Nobody,
    /// The winner, their tickets and all tickets.
    Winner { name: String, tickets: i32, total: i64 },
}

/// Draws the winner of a finished giveaway: a ticket number is drawn and the
/// entry it falls on wins.
pub fn pull_giveaway(entries: &GiveawayEntries) -> (r: PullOutcome)
    requires
        entries@.len() < 0x1_0000_0000,
        positive_entries(entries@),
    ensures
        match r {
            PullOutcome::Nobody => total(entries@) == 0,
            PullOutcome::Winner { name, tickets, total: t } => t == total(entries@) && exists|ticket: int|
                1 <= ticket <= t && #[trigger] winner_index(entries@, ticket) >= 0
                && name@ == entries@[winner_index(entries@, ticket)].0 && tickets == entries@[winner_index(entries@, ticket)].1,
        },
{
    let t = entries.total_tickets();
    if t == 0 {
        return PullOutcome::Nobody;
    }
    proof {
        lemma_total_nonneg(entries@, entries@.len() - 1);
    }
    let ticket = draw_ticket(t);
    match entries.winner_for(ticket) {
        Some((name, tickets)) => PullOutcome::Winner { name, tickets, total: t },
        None => {
            proof {
                lemma_every_ticket_wins(entries@, ticket as int);
            }
            PullOutcome::Nobody
        },
    }
}

proof fn lemma_total_nonneg(m: Seq<(Seq<char>, i32)>, i: int)
    requires
        positive_entries(m),
        i < m.len(),
    ensures
        cumulative(m, i) >= 0,
    decreases i + 1,
{
    if i >= 0 {
        lemma_total_nonneg(m, i - 1);
    }
}

/// Every ticket number from 1 to the total falls on an entry.
pub proof fn lemma_every_ticket_wins(m: Seq<(Seq<char>, i32)>, t: int)
    requires
        positive_entries(m),
        1 <= t <= total(m),
    ensures
        winner_index(m, t) >= 0,
    decreases m.len(),
{
    if m.len() > 0 {
        let d = m.drop_last();
        if winner_index(d, t) < 0 {
            assert(cumulative(m, m.len() - 1) >= t);
        }
    }
}

/// The announcement that a giveaway has started.
pub fn giveaway_started(g: &Giveaway) -> (r: String)
    ensures
        r@ == "🎁 Giveaway has been started. You can buy a maximum of "@ + dec(g.max_tickets as nat)
            + " tickets for price of "@ + dec(g.ticket_cost as nat) + " points for 1 ticket // USE !ticket <number>"@,
{
    cat5("🎁 Giveaway has been started. You can buy a maximum of ", usize_to_string(g.max_tickets).as_str(), " tickets for price of ",
        usize_to_string(g.ticket_cost).as_str(), " points for 1 ticket // USE !ticket <number>")
}

/// The reminder sent while a giveaway runs.
pub fn giveaway_reminder(g: &Giveaway) -> (r: String)
    ensures
        r@ == "⏰ Reminder: Giveaway is active! Use !ticket <1 - "@ + dec(g.max_tickets as nat) + "> to enter. Each ticket costs "@
            + dec(g.ticket_cost as nat) + " points!"@,
{
    cat5("⏰ Reminder: Giveaway is active! Use !ticket <1 - ", usize_to_string(g.max_tickets).as_str(), "> to enter. Each ticket costs ",
        usize_to_string(g.ticket_cost).as_str(), " points!")
}

/// `!start_giveaway`: runs a giveaway for its duration, reminding every
/// five minutes. The timing is the caller's; these steps decide.
pub struct GiveawayHandler;

impl GiveawayHandler {
    pub fn name(&self) -> (r: &'static str)
        ensures
            r@ == "giveaway_handler"@,
    {
        "giveaway_handler"
    }

    pub fn description(&self) -> (r: &'static str)
        ensures
            r@ == "Starts and ends a giveaway"@,
    {
        "Starts and ends a giveaway"
    }

    pub fn usage(&self) -> (r: &'static str)
        ensures
            r@ == "!start_giveaway"@,
    {
        "!start_giveaway"
    }

    pub fn permission(&self) -> (r: PermissionLevel)
        ensures
            r == PermissionLevel::Broadcaster,
    {
        PermissionLevel::Broadcaster
    }

    /// Starts: old entries are dropped, the giveaway is active; the
    /// announcement.
    pub fn start(&self, g: &mut Giveaway, entries: &mut GiveawayEntries) -> (r: String)
        ensures
            final(g).active,
            final(g).duration == old(g).duration,
            final(g).max_tickets == old(g).max_tickets,
            final(g).ticket_cost == old(g).ticket_cost,
            final(entries)@.len() == 0,
            r@ == "🎁 Giveaway has been started. You can buy a maximum of "@ + dec(old(g).max_tickets as nat)
                + " tickets for price of "@ + dec(old(g).ticket_cost as nat) + " points for 1 ticket // USE !ticket <number>"@,
    {
        entries.clear();
        g.active = true;
        giveaway_started(g)
    }

    /// Whether the giveaway is over after `elapsed` seconds.
    pub fn is_over(&self, g: &Giveaway, elapsed: u64) -> (r: bool)
        ensures
            r == (elapsed >= g.duration),
    {
        elapsed as u128 >= g.duration as u128
    }

    /// Ends: the giveaway is no longer active; the announcement.
    pub fn finish(&self, g: &mut Giveaway) -> (r: String)
        ensures
            !final(g).active,
            final(g).duration == old(g).duration,
            final(g).max_tickets == old(g).max_tickets,
            final(g).ticket_cost == old(g).ticket_cost,
            r@ == "❗ Giveaway has ended. Winner will be pulled soon!"@,
    {
        g.active = false;
        "❗ Giveaway has ended. Winner will be pulled soon!".to_owned()
    }
}

/// Which giveaway setting a command changes.
pub enum GiveawaySetting {
    Duration,
    MaxTickets,
    TicketCost,
}

/// The reply of a giveaway settings command and the value set, if any.
pub open spec fn giveaway_setting_spec(w: Seq<Seq<char>>, invalid: Seq<char>, success: Seq<char>) -> (Seq<char>, Option<usize>) {
    if w.len() != 2 {
        (invalid, None)
    } else {
        match parse_in_range(w[1], false, 0, usize::MAX as int) {
            Some(v) => (replace_all(success, "{}"@, dec(v as nat)), Some(v as usize)),
            None => ("Put in a valid number"@, None),
        }
    }
}

/// A giveaway settings command (`!giveaway_duration`, `!giveaway_tickets`,
/// `!giveaway_price`): sets the value the message gives; `invalid` is the
/// reply to a malformed message, `success` the one to a good one, with `{}`
/// standing for the value.
pub fn change_giveaway_setting(g: &mut Giveaway, setting: GiveawaySetting, message: &str, invalid: &str, success: &str) -> (r: String)
    ensures
        ({
            let out = giveaway_setting_spec(split_ascii_ws(message@), invalid@, success@);
            &&& r@ == out.0
            &&& match out.1 {
                None => *final(g) == *old(g),
                Some(v) => match setting {
                    GiveawaySetting::Duration => *final(g) == Giveaway { duration: v, ..*old(g) },
                    GiveawaySetting::MaxTickets => *final(g) == Giveaway { max_tickets: v, ..*old(g) },
                    GiveawaySetting::TicketCost => *final(g) == Giveaway { ticket_cost: v, ..*old(g) },
                },
            }
        }),
{
    let words = split_ascii_whitespace(message);
    if words.len() != 2 {
        return invalid.to_owned();
    }
    assert(words@[1]@ == split_ascii_ws(message@)[1]);
    match parse_usize(words[1].as_str()) {
        Some(v) => {
            match setting {
                GiveawaySetting::Duration => g.duration = v,
                GiveawaySetting::MaxTickets => g.max_tickets = v,
                GiveawaySetting::TicketCost => g.ticket_cost = v,
            }
            proof {
                reveal_strlit("{}");
            }
            replace_str(success, "{}", usize_to_string(v).as_str())
        },
        None => "Put in a valid number".to_owned(),
    }
}

} // verus!
