//! A channel's queue of viewers waiting to play, in position order.
//! Position `i + 1` belongs to the row at index `i`: positions are always
//! `1..=len`, and stay so after each change.

use vstd::prelude::*;
use crate::platform::{UserId, IdView};
use crate::text::{cat2, cat3, cat5, usize_to_string, str_seq_eq, dec, join, join_spec, strings_view};
use crate::replies::Replies;
use rand::Rng;

verus! {

/// How someone is being added to a queue.
#[derive(Debug, Clone, Copy, PartialEq, Eq, Structural)]
pub enum Queue {
    /// A viewer's own `!join`: refused when the queue is full or the Bungie
    /// name is already queued.
    Join,
    /// A moderator's `!add`: no checks.
    ForceJoin,
}

/// A viewer asking to be queued.
pub struct QueueEntry {
    pub user_id: UserId,
    pub bungie_name: String,
    pub display_name: String,
}

/// One queued viewer.
pub struct QueueRow {
    pub user_id: UserId,
    pub display_name: String,
    pub bungie_name: String,
    /// 1 for viewers given priority runs, otherwise 2.
    pub group_priority: i32,
    /// Whether a priority viewer has reached the live group.
    pub locked_first: bool,
    pub priority_runs_left: i32,
}

pub struct RowView {
    pub user: IdView,
    pub display: Seq<char>,
    pub bungie: Seq<char>,
    pub group_priority: int,
    pub locked_first: bool,
    pub runs_left: int,
}

impl View for QueueRow {
    type V = RowView;

    open spec fn view(&self) -> RowView {
        RowView {
            user: self.user_id@,
            display: self.display_name@,
            bungie: self.bungie_name@,
            group_priority: self.group_priority as int,
            locked_first: self.locked_first,
            runs_left: self.priority_runs_left as int,
        }
    }
}

impl QueueRow {
    pub open spec fn wf(&self) -> bool {
        self.user_id.wf()
    }

    pub fn duplicate(&self) -> (r: QueueRow)
        ensures
            r@ == self@,
            r.wf() == self.wf(),
    {
        QueueRow {
            user_id: self.user_id.duplicate(),
            display_name: self.display_name.clone(),
            bungie_name: self.bungie_name.clone(),
            group_priority: self.group_priority,
            locked_first: self.locked_first,
            priority_runs_left: self.priority_runs_left,
        }
    }
}

/// The rows' abstract values, in position order.
pub open spec fn rows_view(rows: Seq<QueueRow>) -> Seq<RowView> {
    rows.map_values(|r: QueueRow| r@)
}

/// No user is queued twice.
pub open spec fn unique_users(s: Seq<RowView>) -> bool {
    forall|i: int, j: int| 0 <= i < s.len() && 0 <= j < s.len() && i != j ==> s[i].user != s[j].user
}

/// Index of `u` in the queue, if queued.
pub open spec fn index_of_user(s: Seq<RowView>, u: IdView) -> Option<int> {
    if exists|i: int| 0 <= i < s.len() && s[i].user == u {
        Some(choose|i: int| 0 <= i < s.len() && s[i].user == u)
    } else {
        None
    }
}

pub open spec fn has_user(s: Seq<RowView>, u: IdView) -> bool {
    exists|i: int| 0 <= i < s.len() && s[i].user == u
}

pub open spec fn has_bungie(s: Seq<RowView>, b: Seq<char>) -> bool {
    exists|i: int| 0 <= i < s.len() && s[i].bungie == b
}

/// The first index whose display name is `d`, if any.
#[verifier::opaque]
pub open spec fn first_display(s: Seq<RowView>, d: Seq<char>) -> Option<int> {
    if exists|i: int| 0 <= i < s.len() && s[i].display == d {
        Some(choose|i: int| 0 <= i < s.len() && s[i].display == d && forall|j: int| 0 <= j < i ==> s[j].display != d)
    } else {
        None
    }
}

/// A new row as the queue stores a fresh entry.
pub open spec fn fresh_row(user: IdView, display: Seq<char>, bungie: Seq<char>) -> RowView {
    RowView { user, display, bungie, group_priority: 2, locked_first: false, runs_left: 0 }
}

/// Every row of user `u` with the new names.
pub open spec fn update_names(s: Seq<RowView>, u: IdView, display: Seq<char>, bungie: Seq<char>) -> Seq<RowView> {
    Seq::new(s.len(), |i: int| if s[i].user == u { RowView { display, bungie, ..s[i] } } else { s[i] })
}

/// The queue of one channel.
pub struct ChannelQueue {
    rows: Vec<QueueRow>,
}

impl View for ChannelQueue {
    type V = Seq<RowView>;

    closed spec fn view(&self) -> Seq<RowView> {
        rows_view(self.rows@)
    }
}

impl ChannelQueue {
    /// Every user id is well formed and no user is queued twice.
    pub closed spec fn wf(&self) -> bool {
        &&& forall|i: int| 0 <= i < self.rows@.len() ==> (#[trigger] self.rows@[i]).wf()
        &&& unique_users(self@)
    }

    pub fn new() -> (q: ChannelQueue)
        ensures
            q@ == Seq::<RowView>::empty(),
            q.wf(),
    {
        ChannelQueue { rows: Vec::new() }
    }

    pub fn len(&self) -> (n: usize)
        ensures
            n == self@.len(),
    {
        self.rows.len()
    }

    /// The row at index `i` (position `i + 1`).
    pub fn row(&self, i: usize) -> (r: &QueueRow)
        requires
            i < self@.len(),
        ensures
            r@ == self@[i as int],
    {
        &self.rows[i]
    }

    /// The 0-based index of `user`'s row, if queued.
    pub fn index_of(&self, user: &UserId) -> (r: Option<usize>)
        requires
            self.wf(),
        ensures
            match r {
                Some(i) => i < self@.len() && self@[i as int].user == user@ && index_of_user(self@, user@)
                    == Some(i as int),
                None => !has_user(self@, user@) && index_of_user(self@, user@) is None,
            },
    {
        let mut i: usize = 0;
        while i < self.rows.len()
            invariant
                self.wf(),
                i <= self.rows@.len(),
                forall|j: int| 0 <= j < i ==> self.rows@[j]@.user != user@,
            decreases self.rows@.len() - i,
        {
            if self.rows[i].user_id.same(user) {
                assert(self@[i as int].user == user@);
                proof {
                    let k = choose|k: int| 0 <= k < self@.len() && self@[k].user == user@;
                    assert(unique_users(self@));
                    if k != i as int {
                        assert(self@[k].user != self@[i as int].user);
                    }
                }
                return Some(i);
            }
            i = i + 1;
        }
        assert forall|j: int| 0 <= j < self@.len() implies self@[j].user != user@ by {
            assert(self@[j] == self.rows@[j]@);
        }
        None
    }

    /// Whether a row holds the Bungie name `name`.
    pub fn contains_bungie(&self, name: &str) -> (r: bool)
        ensures
            r == has_bungie(self@, name@),
    {
        let mut i: usize = 0;
        while i < self.rows.len()
            invariant
                i <= self.rows@.len(),
                forall|j: int| 0 <= j < i ==> self.rows@[j]@.bungie != name@,
            decreases self.rows@.len() - i,
        {
            if str_seq_eq(self.rows[i].bungie_name.as_str(), name) {
                assert(self@[i as int].bungie == name@);
                return true;
            }
            i = i + 1;
        }
        assert forall|j: int| 0 <= j < self@.len() implies self@[j].bungie != name@ by {
            assert(self@[j] == self.rows@[j]@);
        }
        false
    }

    /// The first index whose display name is `name`, if any.
    pub fn first_index_of_display(&self, name: &str) -> (r: Option<usize>)
        ensures
            match r {
                Some(i) => i < self@.len() && first_display(self@, name@) == Some(i as int),
                None => first_display(self@, name@) is None,
            },
    {
        reveal(first_display);
        let mut i: usize = 0;
        while i < self.rows.len()
            invariant
                i <= self.rows@.len(),
                forall|j: int| 0 <= j < i ==> self.rows@[j]@.display != name@,
            decreases self.rows@.len() - i,
        {
            if str_seq_eq(self.rows[i].display_name.as_str(), name) {
                proof {
                    reveal(first_display);
                    assert(self@[i as int].display == name@);
                    assert forall|j: int| 0 <= j < i implies self@[j].display != name@ by {
                        assert(self@[j] == self.rows@[j]@);
                    }
                    let k = choose|k: int|
                        0 <= k < self@.len() && self@[k].display == name@ && forall|j: int|
                            0 <= j < k ==> self@[j].display != name@;
                    if k < i {
                        assert(self@[k] == self.rows@[k]@);
                    }
                    if k > i {
                        assert(self@[i as int].display != name@);
                    }
                }
                return Some(i);
            }
            i = i + 1;
        }
        assert forall|j: int| 0 <= j < self@.len() implies self@[j].display != name@ by {
            assert(self@[j] == self.rows@[j]@);
        }
        None
    }
}

/// A row with display name `d` below `i` has a first such row.
proof fn lemma_first_display_exists(s: Seq<RowView>, d: Seq<char>, i: int)
    requires
        0 <= i < s.len(),
        s[i].display == d,
    ensures
        exists|k: int| 0 <= k < s.len() && s[k].display == d && forall|j: int| 0 <= j < k ==> s[j].display != d,
    decreases i,
{
    if exists|j: int| 0 <= j < i && s[j].display == d {
        let j = choose|j: int| 0 <= j < i && s[j].display == d;
        lemma_first_display_exists(s, d, j);
    } else {
        assert(0 <= i < s.len() && s[i].display == d && forall|j: int| 0 <= j < i ==> s[j].display != d);
    }
}

/// The first row named `d` is a row of the queue with that name.
pub proof fn lemma_first_display_range(s: Seq<RowView>, d: Seq<char>)
    ensures
        first_display(s, d) matches Some(p) ==> 0 <= p < s.len() && s[p].display == d,
{
    reveal(first_display);
    if exists|i: int| 0 <= i < s.len() && s[i].display == d {
        let i = choose|i: int| 0 <= i < s.len() && s[i].display == d;
        lemma_first_display_exists(s, d, i);
    }
}

pub proof fn lemma_unique_push(s: Seq<RowView>, r: RowView)
    requires
        unique_users(s),
        !has_user(s, r.user),
    ensures
        unique_users(s.push(r)),
{
    let t = s.push(r);
    assert forall|i: int, j: int| 0 <= i < t.len() && 0 <= j < t.len() && i != j implies t[i].user != t[j].user by {
        if i == s.len() {
            assert(t[j] == s[j]);
        } else if j == s.len() {
            assert(t[i] == s[i]);
        } else {
            assert(t[i] == s[i] && t[j] == s[j]);
        }
    }
}

pub proof fn lemma_unique_remove(s: Seq<RowView>, k: int)
    requires
        unique_users(s),
        0 <= k < s.len(),
    ensures
        unique_users(s.remove(k)),
        !has_user(s.remove(k), s[k].user),
{
    let t = s.remove(k);
    assert forall|i: int, j: int| 0 <= i < t.len() && 0 <= j < t.len() && i != j implies t[i].user != t[j].user by {
        let a = if i < k { i } else { i + 1 };
        let b = if j < k { j } else { j + 1 };
        assert(t[i] == s[a] && t[j] == s[b]);
    }
    assert forall|i: int| 0 <= i < t.len() implies t[i].user != s[k].user by {
        let a = if i < k { i } else { i + 1 };
        assert(t[i] == s[a]);
    }
}

/// What `!join` or `!add` does to a queue that does not hold the user yet.
pub open spec fn add_spec(s: Seq<RowView>, queue_len: int, u: IdView, d: Seq<char>, b: Seq<char>, join: Queue, raffle: bool) -> (Seq<RowView>, Seq<char>) {
    if join == Queue::Join && s.len() >= queue_len {
        (s, if !raffle {
            "❌ "@ + d + ", you can't enter the queue, it is full"@
        } else {
            "❌ "@ + d + ", you can't enter the raffle, it is full"@
        })
    } else if join == Queue::Join && has_bungie(s, b) {
        (s, "❌ "@ + d + ", wishes for some jail time ⛓"@)
    } else {
        (s.push(fresh_row(u, d, b)), if !raffle {
            "✅ "@ + d + " entered the queue at position #"@ + dec((s.len() + 1) as nat)
        } else {
            "✅ "@ + d + " entered the raffle"@
        })
    }
}

/// What queueing an entry does: a queued user gets their names updated,
/// anyone else is added as `add_spec` says.
pub open spec fn process_entry_spec(s: Seq<RowView>, queue_len: int, u: IdView, d: Seq<char>, b: Seq<char>, join: Queue, raffle: bool) -> (Seq<RowView>, Seq<char>) {
    if has_user(s, u) {
        (update_names(s, u, d, b), "✅ "@ + d + " has updated their bungie name to "@ + b)
    } else {
        add_spec(s, queue_len, u, d, b, join, raffle)
    }
}

impl ChannelQueue {
    /// Adds a user who is not queued yet at the end, unless a `Join` finds the
    /// queue full (`queue_len` rows) or the Bungie name already queued.
    pub fn add_to_queue(&mut self, queue_len: usize, user: QueueEntry, join_type: Queue, raffle: bool) -> (reply: String)
        requires
            old(self).wf(),
            user.user_id.wf(),
            !has_user(old(self)@, user.user_id@),
        ensures
            final(self).wf(),
            (final(self)@, reply@) == add_spec(old(self)@, queue_len as int, user.user_id@, user.display_name@, user.bungie_name@, join_type, raffle),
    {
        if join_type == Queue::Join {
            if self.rows.len() >= queue_len {
                return if !raffle {
                    cat3("❌ ", user.display_name.as_str(), ", you can't enter the queue, it is full")
                } else {
                    cat3("❌ ", user.display_name.as_str(), ", you can't enter the raffle, it is full")
                };
            }
            if self.contains_bungie(user.bungie_name.as_str()) {
                return cat3("❌ ", user.display_name.as_str(), ", wishes for some jail time ⛓");
            }
        }
        let reply = if !raffle {
            let pos = crate::text::u128_to_string(self.rows.len() as u128 + 1);
            cat3("✅ ", user.display_name.as_str(), " entered the queue at position #").concat(pos.as_str())
        } else {
            cat3("✅ ", user.display_name.as_str(), " entered the raffle")
        };
        let row = QueueRow {
            user_id: user.user_id,
            display_name: user.display_name,
            bungie_name: user.bungie_name,
            group_priority: 2,
            locked_first: false,
            priority_runs_left: 0,
        };
        let ghost before = self@;
        proof {
            lemma_unique_push(before, row@);
        }
        self.rows.push(row);
        assert(self@ =~= before.push(fresh_row(row@.user, row@.display, row@.bungie)));
        reply
    }

    /// Sets the display and Bungie names of `user`'s rows.
    pub fn update_queue(&mut self, user: &QueueEntry)
        requires
            old(self).wf(),
        ensures
            final(self).wf(),
            final(self)@ == update_names(old(self)@, user.user_id@, user.display_name@, user.bungie_name@),
    {
        let ghost before = self@;
        let mut i: usize = 0;
        while i < self.rows.len()
            invariant
                i <= self.rows@.len(),
                self.rows@.len() == before.len(),
                forall|j: int| 0 <= j < self.rows@.len() ==> (#[trigger] self.rows@[j]).wf(),
                forall|j: int| 0 <= j < i ==> #[trigger] self.rows@[j]@ == update_names(before, user.user_id@, user.display_name@, user.bungie_name@)[j],
                forall|j: int| i <= j < self.rows@.len() ==> #[trigger] self.rows@[j]@ == before[j],
            decreases self.rows@.len() - i,
        {
            if self.rows[i].user_id.same(&user.user_id) {
                let mut row = self.rows[i].duplicate();
                row.display_name = user.display_name.clone();
                row.bungie_name = user.bungie_name.clone();
                self.rows[i] = row;
            }
            i = i + 1;
        }
        assert(self@ =~= update_names(before, user.user_id@, user.display_name@, user.bungie_name@)) by {
            assert forall|j: int| 0 <= j < self@.len() implies self@[j] == update_names(before, user.user_id@, user.display_name@, user.bungie_name@)[j] by {
                assert(self@[j] == self.rows@[j]@);
            }
        }
        assert forall|a: int, b: int| 0 <= a < self@.len() && 0 <= b < self@.len() && a != b implies self@[a].user != self@[b].user by {
            assert(self@[a].user == before[a].user);
            assert(self@[b].user == before[b].user);
        }
    }

    /// Queues an entry: updates the names of a queued user, else adds them
    /// (see `add_to_queue`). Returns the reply for chat.
    pub fn process_queue_entry(&mut self, queue_len: usize, user: QueueEntry, queue_join: Queue, raffle: bool) -> (reply: String)
        requires
            old(self).wf(),
            user.user_id.wf(),
        ensures
            final(self).wf(),
            (final(self)@, reply@) == process_entry_spec(old(self)@, queue_len as int, user.user_id@, user.display_name@, user.bungie_name@, queue_join, raffle),
    {
        match self.index_of(&user.user_id) {
            Some(_) => {
                self.update_queue(&user);
                cat3("✅ ", user.display_name.as_str(), " has updated their bungie name to ").concat(user.bungie_name.as_str())
            },
            None => self.add_to_queue(queue_len, user, queue_join, raffle),
        }
    }

    /// Removes `user`'s row if queued; the rows behind move up one place.
    /// Returns whether a row was removed.
    pub fn remove_from_queue(&mut self, user: &UserId) -> (removed: bool)
        requires
            old(self).wf(),
        ensures
            final(self).wf(),
            removed == has_user(old(self)@, user@),
            match index_of_user(old(self)@, user@) {
                Some(i) => final(self)@ == old(self)@.remove(i),
                None => final(self)@ == old(self)@,
            },
    {
        match self.index_of(user) {
            Some(i) => {
                let ghost before = self@;
                proof {
                    lemma_unique_remove(before, i as int);
                }
                self.rows.remove(i);
                assert(self@ =~= before.remove(i as int));
                true
            },
            None => false,
        }
    }

    /// `!leave`: a queued user behind the live group leaves; the live group
    /// (the first `teamsize` positions) cannot leave.
    pub fn leave(&mut self, user: &UserId, name: &str, teamsize: usize, random_queue: bool) -> (reply: String)
        requires
            old(self).wf(),
        ensures
            final(self).wf(),
            (final(self)@, reply@) == leave_spec(old(self)@, user@, name@, teamsize, random_queue),
    {
        match self.index_of(user) {
            Some(i) => {
                if (i as i128) + 1 <= (#[verifier::truncate] (teamsize as i32)) as i128 {
                    proof {
                        reveal_strlit("You cannot leave the LIVE group! Ask the streamer or wait for !next");
                    }
                    "You cannot leave the LIVE group! Ask the streamer or wait for !next".to_owned()
                } else {
                    let ghost before = self@;
                    proof {
                        lemma_unique_remove(before, i as int);
                    }
                    self.rows.remove(i);
                    assert(self@ =~= before.remove(i as int));
                    if random_queue {
                        cat3("BigSad ", name, " has left the raffle.")
                    } else {
                        cat3("BigSad ", name, " has left the queue.")
                    }
                }
            },
            None => cat2("You were already free, ", name),
        }
    }
}

/// What `!leave` does. The live-group bound is the team size read as `i32`:
/// positions are compared with `teamsize as i32`.
pub open spec fn leave_spec(s: Seq<RowView>, u: IdView, name: Seq<char>, teamsize: usize, random_queue: bool) -> (Seq<RowView>, Seq<char>) {
    match index_of_user(s, u) {
        Some(i) => if i + 1 <= (teamsize as i32) as int {
            (s, "You cannot leave the LIVE group! Ask the streamer or wait for !next"@)
        } else {
            (s.remove(i), if random_queue {
                "BigSad "@ + name + " has left the raffle."@
            } else {
                "BigSad "@ + name + " has left the queue."@
            })
        },
        None => (s, "You were already free, "@ + name),
    }
}

/// `t` lists rows of `s` in order: `t[a]` is a copy of the user at `s[idx[a]]`
/// and `idx` increases.
pub open spec fn embeds(t: Seq<RowView>, s: Seq<RowView>, idx: Seq<int>) -> bool {
    &&& idx.len() == t.len()
    &&& forall|a: int| 0 <= a < t.len() ==> 0 <= #[trigger] idx[a] < s.len() && t[a].user == s[idx[a]].user
    &&& forall|a: int, b: int| 0 <= a < b < t.len() ==> #[trigger] idx[a] < #[trigger] idx[b]
}

pub proof fn lemma_unique_embeds(t: Seq<RowView>, s: Seq<RowView>, idx: Seq<int>)
    requires
        unique_users(s),
        embeds(t, s, idx),
    ensures
        unique_users(t),
{
    assert forall|a: int, b: int| 0 <= a < t.len() && 0 <= b < t.len() && a != b implies t[a].user != t[b].user by {
        if a < b {
            assert(idx[a] < idx[b]);
        } else {
            assert(idx[b] < idx[a]);
        }
    }
}

pub proof fn lemma_unique_insert(w: Seq<RowView>, q: int, x: RowView)
    requires
        unique_users(w),
        !has_user(w, x.user),
        0 <= q <= w.len(),
    ensures
        unique_users(w.insert(q, x)),
{
    let t = w.insert(q, x);
    assert forall|i: int, j: int| 0 <= i < t.len() && 0 <= j < t.len() && i != j implies t[i].user != t[j].user by {
        if i == q {
            let b = if j < q { j } else { j - 1 };
            assert(t[j] == w[b]);
        } else if j == q {
            let a = if i < q { i } else { i - 1 };
            assert(t[i] == w[a]);
        } else {
            let a = if i < q { i } else { i - 1 };
            let b = if j < q { j } else { j - 1 };
            assert(t[i] == w[a] && t[j] == w[b]);
        }
    }
}

/// Moving one row to index `q` keeps users unique.
pub proof fn lemma_unique_move(s: Seq<RowView>, p: int, q: int, x: RowView)
    requires
        unique_users(s),
        0 <= p < s.len(),
        0 <= q < s.len(),
        x.user == s[p].user,
    ensures
        unique_users(s.remove(p).insert(q, x)),
{
    lemma_unique_remove(s, p);
    lemma_unique_insert(s.remove(p), q, x);
}

/// Whether a live row stays after a run: a locked priority row with more
/// than one priority run left.
pub open spec fn stays_after_run(r: RowView) -> bool {
    r.locked_first && r.runs_left > 0 && r.runs_left - 1 != 0
}

/// The live group after a run: rows that stay, with one priority run less.
pub open spec fn advance_group(s: Seq<RowView>) -> Seq<RowView>
    decreases s.len(),
{
    if s.len() == 0 {
        seq![]
    } else {
        let rest = advance_group(s.drop_last());
        let x = s.last();
        if stays_after_run(x) {
            rest.push(RowView { runs_left: x.runs_left - 1, ..x })
        } else {
            rest
        }
    }
}

/// Priority rows among the first `k` are locked into the live group.
pub open spec fn lock_group(s: Seq<RowView>, k: int) -> Seq<RowView> {
    Seq::new(s.len(), |i: int| if i < k && s[i].group_priority == 1 && !s[i].locked_first {
        RowView { locked_first: true, ..s[i] }
    } else {
        s[i]
    })
}

pub open spec fn min(a: int, b: int) -> int {
    if a < b { a } else { b }
}

/// The queue after `!next`.
pub open spec fn next_rows_spec(s: Seq<RowView>, teamsize: int) -> Seq<RowView> {
    let k = min(teamsize, s.len() as int);
    lock_group(advance_group(s.take(k)) + s.skip(k), teamsize)
}

/// `@display (bungie)` for each row.
pub open spec fn group_mentions(s: Seq<RowView>) -> Seq<Seq<char>> {
    Seq::new(s.len(), |i: int| "@"@ + s[i].display + " ("@ + s[i].bungie + ")"@)
}

/// The reply of `!next`.
pub open spec fn next_reply_spec(s: Seq<RowView>, teamsize: int, channel: Seq<char>) -> Seq<char> {
    let t = next_rows_spec(s, teamsize);
    let g = t.take(min(teamsize, t.len() as int));
    if g.len() == 0 {
        "💀 "@ + channel + " the queue is empty..? 👁👄👁"@
    } else {
        "🎯The next group - "@ + join_spec(group_mentions(g), ", "@) + " !! 🥳Please be ready for an invite! 💜"@
    }
}

/// The mentions of the first `k` rows, joined with `, `.
fn mentions_of(rows: &Vec<QueueRow>, k: usize) -> (r: String)
    requires
        k <= rows@.len(),
    ensures
        r@ == join_spec(group_mentions(rows_view(rows@).take(k as int)), ", "@),
{
    let mut parts: Vec<String> = Vec::new();
    let mut i: usize = 0;
    while i < k
        invariant
            k <= rows@.len(),
            i <= k,
            strings_view(parts@) == group_mentions(rows_view(rows@).take(i as int)),
        decreases k - i,
    {
        let m = cat5("@", rows[i].display_name.as_str(), " (", rows[i].bungie_name.as_str(), ")");
        let ghost prev = strings_view(parts@);
        parts.push(m);
        assert(strings_view(parts@) =~= prev.push(m@));
        assert(rows_view(rows@)[i as int] == rows@[i as int]@);
        assert(strings_view(parts@) =~= group_mentions(rows_view(rows@).take(i + 1)));
        i = i + 1;
    }
    join(&parts, ", ")
}

/// The display names of the first `k` rows, joined with `, `.
fn displays_of(rows: &Vec<QueueRow>, k: usize) -> (r: String)
    requires
        k <= rows@.len(),
    ensures
        r@ == join_spec(displays(rows_view(rows@).take(k as int)), ", "@),
{
    let mut parts: Vec<String> = Vec::new();
    let mut i: usize = 0;
    while i < k
        invariant
            k <= rows@.len(),
            i <= k,
            strings_view(parts@) == displays(rows_view(rows@).take(i as int)),
        decreases k - i,
    {
        let ghost prev = strings_view(parts@);
        let d = rows[i].display_name.clone();
        parts.push(d);
        assert(strings_view(parts@) =~= prev.push(d@));
        assert(rows_view(rows@)[i as int] == rows@[i as int]@);
        assert(strings_view(parts@) =~= displays(rows_view(rows@).take(i + 1)));
        i = i + 1;
    }
    join(&parts, ", ")
}

pub open spec fn displays(s: Seq<RowView>) -> Seq<Seq<char>> {
    Seq::new(s.len(), |i: int| s[i].display)
}

/// Whether `order` lists each index `0..m` exactly once.
pub open spec fn is_permutation(order: Seq<usize>, m: int) -> bool {
    &&& order.len() == m
    &&& forall|i: int| 0 <= i < m ==> #[trigger] order[i] < m
    &&& forall|i: int, j: int| 0 <= i < m && 0 <= j < m && i != j ==> order[i] != order[j]
}

/// The rows of `s` in the order `order`.
pub open spec fn permute(s: Seq<RowView>, order: Seq<usize>) -> Seq<RowView> {
    Seq::new(order.len(), |i: int| s[order[i] as int])
}

/// The queue after a raffle draw: the live group leaves, the rest is shuffled.
pub open spec fn raffle_rows_spec(s: Seq<RowView>, teamsize: int, order: Seq<usize>) -> Seq<RowView> {
    permute(s.skip(min(teamsize, s.len() as int)), order)
}

/// Random index below `n` (rand's `random_range(0..n)` on the thread RNG).
/// Trusted: the result is below `n`; which one is left to chance.
#[verifier::external_body]
fn random_below(n: usize) -> (r: usize)
    requires
        n > 0,
    ensures
        r < n,
{
    rand::rng().random_range(0..n)
}

/// A random order of `0..m` (Fisher–Yates).
pub fn random_permutation(m: usize) -> (order: Vec<usize>)
    ensures
        is_permutation(order@, m as int),
{
    let mut v: Vec<usize> = Vec::new();
    let mut i: usize = 0;
    while i < m
        invariant
            i <= m,
            v@.len() == i,
            forall|j: int| 0 <= j < i ==> v@[j] == j,
        decreases m - i,
    {
        v.push(i);
        i = i + 1;
    }
    let mut k: usize = m;
    while k > 1
        invariant
            k <= m,
            is_permutation(v@, m as int),
        decreases k,
    {
        let j = random_below(k);
        let a = v[k - 1];
        let b = v[j];
        v.set(k - 1, b);
        v.set(j, a);
        k = k - 1;
        proof {
            let w = v@;
            assert forall|x: int, y: int| 0 <= x < m && 0 <= y < m && x != y implies w[x] != w[y] by {}
        }
    }
    v
}

/// The rows `rows[from..to]`, copied.
fn copy_range(rows: &Vec<QueueRow>, from: usize, to: usize) -> (r: Vec<QueueRow>)
    requires
        from <= to <= rows@.len(),
        forall|i: int| 0 <= i < rows@.len() ==> (#[trigger] rows@[i]).wf(),
    ensures
        rows_view(r@) == rows_view(rows@).subrange(from as int, to as int),
        forall|i: int| 0 <= i < r@.len() ==> (#[trigger] r@[i]).wf(),
{
    let mut r: Vec<QueueRow> = Vec::new();
    let mut i = from;
    while i < to
        invariant
            from <= i <= to <= rows@.len(),
            forall|j: int| 0 <= j < rows@.len() ==> (#[trigger] rows@[j]).wf(),
            rows_view(r@) == rows_view(rows@).subrange(from as int, i as int),
            forall|j: int| 0 <= j < r@.len() ==> (#[trigger] r@[j]).wf(),
        decreases to - i,
    {
        let ghost prev = rows_view(r@);
        let c = rows[i].duplicate();
        r.push(c);
        assert(rows_view(r@) =~= prev.push(c@));
        assert(rows_view(rows@)[i as int] == rows@[i as int]@);
        assert(rows_view(r@) =~= rows_view(rows@).subrange(from as int, i + 1));
        i = i + 1;
    }
    r
}

impl ChannelQueue {
    /// `!next`: the live group (first `teamsize` rows) has played. Each of its
    /// rows leaves, except locked priority rows with runs left, which lose one
    /// run (and leave at zero). Priority rows that are now among the first
    /// `teamsize` get locked. Returns the announcement of the new live group.
    pub fn next_handler(&mut self, channel_name: &str, teamsize: i64) -> (reply: String)
        requires
            old(self).wf(),
            teamsize >= 0,
        ensures
            final(self).wf(),
            final(self)@ == next_rows_spec(old(self)@, teamsize as int),
            reply@ == next_reply_spec(old(self)@, teamsize as int, channel_name@),
    {
        let ghost s = self@;
        let n = self.rows.len();
        let k: usize = if (teamsize as u64) < (n as u64) { teamsize as usize } else { n };
        assert(k as int == min(teamsize as int, n as int));
        let mut out: Vec<QueueRow> = Vec::new();
        let ghost mut idx: Seq<int> = seq![];
        let mut i: usize = 0;
        while i < k
            invariant
                s == self@,
                self.wf(),
                k <= n == self.rows@.len(),
                i <= k,
                rows_view(out@) == advance_group(s.take(i as int)),
                forall|j: int| 0 <= j < out@.len() ==> (#[trigger] out@[j]).wf(),
                embeds(rows_view(out@), s, idx),
                forall|a: int| 0 <= a < idx.len() ==> #[trigger] idx[a] < i,
            decreases k - i,
        {
            let row = &self.rows[i];
            let ghost pre = s.take(i as int);
            assert(s.take(i + 1).drop_last() =~= pre);
            assert(s.take(i + 1).last() == s[i as int]);
            assert(s[i as int] == row@);
            if row.locked_first && row.priority_runs_left > 0 && row.priority_runs_left - 1 != 0 {
                let mut kept = row.duplicate();
                kept.priority_runs_left = row.priority_runs_left - 1;
                out.push(kept);
                proof {
                    idx = idx.push(i as int);
                }
                assert(rows_view(out@) =~= rows_view(out@.drop_last()).push(kept@));
            }
            i = i + 1;
        }
        let mut j: usize = k;
        while j < n
            invariant
                s == self@,
                self.wf(),
                k <= j <= n == self.rows@.len(),
                rows_view(out@) == advance_group(s.take(k as int)) + s.subrange(k as int, j as int),
                forall|a: int| 0 <= a < out@.len() ==> (#[trigger] out@[a]).wf(),
                embeds(rows_view(out@), s, idx),
                forall|a: int| 0 <= a < idx.len() ==> #[trigger] idx[a] < j,
            decreases n - j,
        {
            let ghost prev = rows_view(out@);
            let c = self.rows[j].duplicate();
            assert(c@ == s[j as int]);
            out.push(c);
            proof {
                idx = idx.push(j as int);
            }
            assert(rows_view(out@) =~= prev.push(s[j as int]));
            assert(s.subrange(k as int, j + 1) =~= s.subrange(k as int, j as int).push(s[j as int]));
            assert(rows_view(out@) =~= advance_group(s.take(k as int)) + s.subrange(k as int, j + 1));
            j = j + 1;
        }
        assert(s.subrange(k as int, n as int) =~= s.skip(k as int));
        proof {
            lemma_unique_embeds(rows_view(out@), s, idx);
        }
        let ghost after = rows_view(out@);
        let m = out.len();
        let mut l: usize = 0;
        while l < m
            invariant
                teamsize >= 0,
                m == out@.len() == after.len(),
                l <= m,
                forall|a: int| 0 <= a < out@.len() ==> (#[trigger] out@[a]).wf(),
                forall|a: int| 0 <= a < l ==> #[trigger] rows_view(out@)[a] == lock_group(after, teamsize as int)[a],
                forall|a: int| l <= a < m ==> #[trigger] rows_view(out@)[a] == after[a],
            decreases m - l,
        {
            let ghost prev = out@;
            assert(rows_view(prev)[l as int] == prev[l as int]@);
            assert(rows_view(prev)[l as int] == after[l as int]);
            let lt = (l as u64) < (teamsize as u64);
            assert(lt == (l < teamsize));
            if lt && out[l].group_priority == 1 && !out[l].locked_first {
                let mut locked = out[l].duplicate();
                locked.locked_first = true;
                assert(locked@ == RowView { locked_first: true, ..after[l as int] });
                out[l] = locked;
                assert(rows_view(out@)[l as int] == locked@);
            } else {
                assert(rows_view(out@)[l as int] == after[l as int]);
            }
            assert forall|a: int| 0 <= a < m && a != l implies #[trigger] rows_view(out@)[a] == rows_view(prev)[a] by {
                assert(out@[a] == prev[a]);
            }
            assert(rows_view(out@)[l as int] == lock_group(after, teamsize as int)[l as int]);
            l = l + 1;
        }
        assert(rows_view(out@) =~= lock_group(after, teamsize as int));
        assert forall|a: int, b: int| 0 <= a < out@.len() && 0 <= b < out@.len() && a != b implies rows_view(out@)[a].user != rows_view(out@)[b].user by {
            assert(rows_view(out@)[a].user == after[a].user);
            assert(rows_view(out@)[b].user == after[b].user);
        }
        let g: usize = if (teamsize as u64) < (m as u64) { teamsize as usize } else { m };
        let reply = if g == 0 {
            Replies::queue_empty(channel_name)
        } else {
            let names = mentions_of(&out, g);
            Replies::next_group(names.as_str())
        };
        self.rows = out;
        reply
    }

    /// A raffle draw with a given shuffle: the live group leaves and the rest
    /// is put in the order `order`. Returns who won the next run.
    pub fn randomize_with(&mut self, teamsize: i64, order: &Vec<usize>) -> (reply: String)
        requires
            old(self).wf(),
            teamsize >= 0,
            is_permutation(order@, old(self)@.len() - min(teamsize as int, old(self)@.len() as int)),
        ensures
            final(self).wf(),
            final(self)@ == raffle_rows_spec(old(self)@, teamsize as int, order@),
            reply@ == "🎯"@ + join_spec(displays(final(self)@.take(min(teamsize as int, final(self)@.len() as int))), ", "@)
                + " have won the next run! 🥳 Please be ready for an invite! 💜"@,
    {
        let ghost s = self@;
        let n = self.rows.len();
        let k: usize = if (teamsize as u64) < (n as u64) { teamsize as usize } else { n };
        assert(k as int == min(teamsize as int, n as int));
        let rest = copy_range(&self.rows, k, n);
        let m = rest.len();
        assert(rows_view(rest@).len() == rest@.len());
        assert(m == n - k);
        let mut out: Vec<QueueRow> = Vec::new();
        let mut i: usize = 0;
        while i < m
            invariant
                m == rest@.len() == order@.len(),
                i <= m,
                is_permutation(order@, m as int),
                forall|a: int| 0 <= a < rest@.len() ==> (#[trigger] rest@[a]).wf(),
                forall|a: int| 0 <= a < out@.len() ==> (#[trigger] out@[a]).wf(),
                rows_view(out@) == permute(rows_view(rest@), order@).take(i as int),
            decreases m - i,
        {
            let o = order[i];
            let ghost prev = rows_view(out@);
            let c = rest[o].duplicate();
            assert(c@ == rows_view(rest@)[o as int]);
            out.push(c);
            assert(rows_view(out@) =~= prev.push(c@));
            assert(rows_view(out@) =~= permute(rows_view(rest@), order@).take(i + 1));
            i = i + 1;
        }
        assert(rows_view(rest@) =~= s.skip(k as int));
        assert(rows_view(out@) =~= raffle_rows_spec(s, teamsize as int, order@));
        proof {
            let t = rows_view(out@);
            let r = s.skip(k as int);
            assert forall|a: int, b: int| 0 <= a < t.len() && 0 <= b < t.len() && a != b implies t[a].user != t[b].user by {
                assert(t[a] == r[order@[a] as int]);
                assert(t[b] == r[order@[b] as int]);
                assert(r[order@[a] as int] == s[k + order@[a]]);
                assert(r[order@[b] as int] == s[k + order@[b]]);
            }
        }
        let g: usize = if (teamsize as u64) < (m as u64) { teamsize as usize } else { m };
        let names = displays_of(&out, g);
        self.rows = out;
        Replies::raffle_won(names.as_str())
    }

    /// A raffle draw (`!next` in raffle mode): the live group leaves and the
    /// rest is shuffled at random. Returns who won the next run.
    pub fn randomize_queue(&mut self, teamsize: i64) -> (reply: String)
        requires
            old(self).wf(),
            teamsize >= 0,
        ensures
            final(self).wf(),
            exists|order: Seq<usize>| is_permutation(order, old(self)@.len() - min(teamsize as int, old(self)@.len() as int))
                && final(self)@ == raffle_rows_spec(old(self)@, teamsize as int, order),
            reply@ == "🎯"@ + join_spec(displays(final(self)@.take(min(teamsize as int, final(self)@.len() as int))), ", "@)
                + " have won the next run! 🥳 Please be ready for an invite! 💜"@,
    {
        let n = self.rows.len();
        let k: usize = if (teamsize as u64) < (n as u64) { teamsize as usize } else { n };
        assert(k as int == min(teamsize as int, n as int));
        let order = random_permutation(n - k);
        self.randomize_with(teamsize, &order)
    }
}

/// The rows whose display name is not `d`.
pub open spec fn drop_display(s: Seq<RowView>, d: Seq<char>) -> Seq<RowView>
    decreases s.len(),
{
    if s.len() == 0 {
        seq![]
    } else {
        let rest = drop_display(s.drop_last(), d);
        if s.last().display == d {
            rest
        } else {
            rest.push(s.last())
        }
    }
}

pub open spec fn has_display(s: Seq<RowView>, d: Seq<char>) -> bool {
    exists|i: int| 0 <= i < s.len() && s[i].display == d
}

/// Whether two rows of the queue carry the display name `d`.
pub open spec fn display_twice(s: Seq<RowView>, d: Seq<char>) -> bool {
    exists|i: int, j: int| 0 <= i < j < s.len() && #[trigger] s[i].display == d && #[trigger] s[j].display == d
}

impl ChannelQueue {
    /// Whether two rows carry the display name `name`.
    pub fn display_twice_in(&self, name: &str) -> (r: bool)
        ensures
            r == display_twice(self@, name@),
    {
        let mut seen = false;
        let mut i: usize = 0;
        while i < self.rows.len()
            invariant
                i <= self@.len(),
                self@.len() == self.rows@.len(),
                seen == exists|j: int| 0 <= j < i && #[trigger] self@[j].display == name@,
                !display_twice(self@.take(i as int), name@),
            decreases self@.len() - i,
        {
            assert(self@[i as int] == self.rows@[i as int]@);
            if str_seq_eq(self.rows[i].display_name.as_str(), name) {
                if seen {
                    let ghost j = choose|j: int| 0 <= j < i && #[trigger] self@[j].display == name@;
                    assert(self@[j].display == name@ && self@[i as int].display == name@);
                    return true;
                }
                seen = true;
                assert(self@[i as int].display == name@);
            } else {
                assert(self@[i as int].display != name@);
            }
            assert(!display_twice(self@.take(i + 1), name@)) by {
                let t = self@.take(i + 1);
                if display_twice(t, name@) {
                    let (a, b) = choose|a: int, b: int| 0 <= a < b < t.len() && #[trigger] t[a].display == name@ && #[trigger] t[b].display == name@;
                    if b < i {
                        assert(self@.take(i as int)[a] == t[a] && self@.take(i as int)[b] == t[b]);
                    } else {
                        assert(self@[a].display == name@);
                    }
                }
            }
            i = i + 1;
        }
        assert(self@.take(self@.len() as int) =~= self@);
        false
    }
}

/// What `!remove <user>` does.
pub open spec fn remove_display_spec(s: Seq<RowView>, d: Seq<char>) -> (Seq<RowView>, Seq<char>) {
    if has_display(s, d) {
        (drop_display(s, d), "💀 "@ + d + " has been removed from the queue 😥"@)
    } else {
        (s, "User "@ + d + " not found in the queue. FailFish"@)
    }
}

/// What `!move <user>` does: the first row with that display name moves
/// back by one group (`teamsize` places), unless that passes the end.
pub open spec fn move_spec(s: Seq<RowView>, d: Seq<char>, teamsize: int) -> (Seq<RowView>, Seq<char>) {
    match first_display(s, d) {
        None => (s, "User "@ + d + " isn’t in the queue!"@),
        Some(p) => if p + 1 + teamsize > s.len() {
            (s, "User "@ + d + " is already in the last group."@)
        } else {
            (s.remove(p).insert(p + teamsize, s[p]), "User "@ + d + " has been moved to the next group."@)
        },
    }
}

/// The row after `!prio` with a number of runs.
pub open spec fn prio_row(r: RowView, runs: Option<i32>) -> RowView {
    match runs {
        Some(n) => RowView { group_priority: 1, runs_left: n as int, locked_first: false, ..r },
        None => r,
    }
}

/// What `!prio <user> [runs]` does: the first row with that display name
/// moves to the head of the second group (right behind the first
/// `teamsize` rows); with a number of runs it becomes a priority row.
pub open spec fn prio_spec(s: Seq<RowView>, d: Seq<char>, runs: Option<i32>, teamsize: int) -> (Seq<RowView>, Seq<char>) {
    match first_display(s, d) {
        None => (s, "User "@ + d + " not found in the queue"@),
        Some(p) => {
            let k = min(teamsize, s.len() as int);
            let ins = if p < k { k - 1 } else { k };
            (s.remove(p).insert(ins, prio_row(s[p], runs)), match runs {
                Some(n) => "⭐💎"@ + d + " has been given "@ + crate::text::dec_int(n as int) + " priority runs!  💎⭐"@,
                None => "⭐💎"@ + d + " has been given a priority run! 💎⭐"@,
            })
        },
    }
}

impl ChannelQueue {
    /// `!remove <user>`: every row with that display name leaves.
    pub fn remove_by_display(&mut self, target: &str) -> (reply: String)
        requires
            old(self).wf(),
        ensures
            final(self).wf(),
            (final(self)@, reply@) == remove_display_spec(old(self)@, target@),
    {
        let ghost s = self@;
        let n = self.rows.len();
        let mut out: Vec<QueueRow> = Vec::new();
        let ghost mut idx: Seq<int> = seq![];
        let mut found = false;
        let mut i: usize = 0;
        while i < n
            invariant
                s == self@,
                self.wf(),
                n == self.rows@.len(),
                i <= n,
                rows_view(out@) == drop_display(s.take(i as int), target@),
                found == has_display(s.take(i as int), target@),
                forall|j: int| 0 <= j < out@.len() ==> (#[trigger] out@[j]).wf(),
                embeds(rows_view(out@), s, idx),
                forall|a: int| 0 <= a < idx.len() ==> #[trigger] idx[a] < i,
            decreases n - i,
        {
            let ghost pre = s.take(i as int);
            assert(s.take(i + 1).drop_last() =~= pre);
            assert(s.take(i + 1).last() == s[i as int]);
            assert(s[i as int] == self.rows@[i as int]@);
            if str_seq_eq(self.rows[i].display_name.as_str(), target) {
                found = true;
                assert(s.take(i + 1)[i as int].display == target@);
            } else {
                let ghost prev = rows_view(out@);
                let c = self.rows[i].duplicate();
                out.push(c);
                proof {
                    idx = idx.push(i as int);
                }
                assert(rows_view(out@) =~= prev.push(c@));
            }
            proof {
                let t = s.take(i + 1);
                if has_display(t, target@) && !(t[i as int].display == target@) {
                    let w = choose|w: int| 0 <= w < t.len() && t[w].display == target@;
                    assert(pre[w] == t[w]);
                }
                if has_display(pre, target@) {
                    let w = choose|w: int| 0 <= w < pre.len() && pre[w].display == target@;
                    assert(t[w] == pre[w]);
                }
            }
            i = i + 1;
        }
        assert(s.take(n as int) =~= s);
        proof {
            lemma_unique_embeds(rows_view(out@), s, idx);
        }
        if found {
            self.rows = out;
            Replies::queue_removed(target)
        } else {
            cat3("User ", target, " not found in the queue. FailFish")
        }
    }

    /// `!move <user>`: see `move_spec`. The team size is the configured one
    /// read as `i32`.
    pub fn move_to_next_group(&mut self, target: &str, teamsize: i32) -> (reply: String)
        requires
            old(self).wf(),
            teamsize >= 0,
            old(self)@.len() + teamsize <= i32::MAX,
        ensures
            final(self).wf(),
            (final(self)@, reply@) == move_spec(old(self)@, target@, teamsize as int),
    {
        match self.first_index_of_display(target) {
            None => cat3("User ", target, " isn’t in the queue!"),
            Some(p) => {
                let n = self.rows.len();
                if p + 1 + (teamsize as usize) > n {
                    cat3("User ", target, " is already in the last group.")
                } else {
                    let ghost s = self@;
                    let q = p + teamsize as usize;
                    proof {
                        lemma_unique_move(s, p as int, q as int, s[p as int]);
                    }
                    let row = self.rows.remove(p);
                    self.rows.insert(q, row);
                    assert(self@ =~= s.remove(p as int).insert(q as int, s[p as int]));
                    cat3("User ", target, " has been moved to the next group.")
                }
            },
        }
    }

    /// `!prio <user> [runs]`: see `prio_spec`. The team size is the
    /// configured one read as `i32`.
    #[verifier::spinoff_prover]
    #[verifier::rlimit(40)]
    pub fn prio(&mut self, target: &str, runs: Option<i32>, teamsize: i32) -> (reply: String)
        requires
            old(self).wf(),
            0 <= teamsize < i32::MAX,
        ensures
            final(self).wf(),
            (final(self)@, reply@) == prio_spec(old(self)@, target@, runs, teamsize as int),
    {
        match self.first_index_of_display(target) {
            None => cat3("User ", target, " not found in the queue"),
            Some(p) => {
                let ghost s = self@;
                let n = self.rows.len();
                let k: usize = if (teamsize as usize) < n { teamsize as usize } else { n };
                assert(k as int == min(teamsize as int, n as int));
                let ins = if p < k { k - 1 } else { k };
                let mut row = self.rows.remove(p);
                match runs {
                    Some(r) => {
                        row.group_priority = 1;
                        row.priority_runs_left = r;
                        row.locked_first = false;
                    },
                    None => {},
                }
                assert(row@ == prio_row(s[p as int], runs));
                proof {
                    lemma_unique_move(s, p as int, ins as int, row@);
                }
                self.rows.insert(ins, row);
                assert(self@ =~= s.remove(p as int).insert(ins as int, prio_row(s[p as int], runs)));
                match runs {
                    Some(r) => {
                        let num = crate::text::i64_to_string(r as i64);
                        Replies::priod_for__queue(target, num.as_str())
                    },
                    None => Replies::prio_queue(target),
                }
            },
        }
    }
}

/// What reordering with the user list `ord` gives: when `ord` names each
/// queued user exactly once, the rows in that order; otherwise nothing.
pub open spec fn reorder_spec(s: Seq<RowView>, ord: Seq<IdView>) -> Option<Seq<RowView>> {
    if ord.len() == s.len() && (forall|i: int| 0 <= i < ord.len() ==> has_user(s, #[trigger] ord[i]))
        && (forall|i: int, j: int| 0 <= i < ord.len() && 0 <= j < ord.len() && i != j ==> ord[i] != ord[j]) {
        Some(Seq::new(ord.len(), |i: int| s[index_of_user(s, ord[i]).unwrap()]))
    } else {
        None
    }
}

pub open spec fn ids_view(v: Seq<UserId>) -> Seq<IdView> {
    v.map_values(|u: UserId| u@)
}

/// One line of `!list`: `position. display (bungie)`.
pub open spec fn list_entry(i: int, r: RowView) -> Seq<char> {
    dec((i + 1) as nat) + ". "@ + r.display + " ("@ + r.bungie + ")"@
}

pub open spec fn list_entries(s: Seq<RowView>) -> Seq<Seq<char>> {
    Seq::new(s.len(), |i: int| list_entry(i, s[i]))
}

/// Total UTF-8 length of the strings.
pub open spec fn total_bytes(e: Seq<Seq<char>>) -> int
    decreases e.len(),
{
    if e.len() == 0 {
        0
    } else {
        total_bytes(e.drop_last()) + vstd::utf8::encode_utf8(e.last()).len()
    }
}

/// The reply of `!list`, or `None` for an empty queue.
pub open spec fn list_reply_spec(s: Seq<RowView>, teamsize: int, random_queue: bool, owner: Seq<char>) -> Option<Seq<char>> {
    let e = list_entries(s);
    let n = e.len() as int;
    if n == 0 {
        None
    } else if random_queue {
        let c = min(n, teamsize);
        Some("Chosen: "@ + join_spec(e.take(c), ", "@) + " // Entered people: "@ + join_spec(e.skip(c), ", "@))
    } else if total_bytes(e) < 400 {
        Some("LIVE: "@ + join_spec(e.take(min(n, teamsize)), ", "@) + " || NEXT: "@
            + join_spec(e.subrange(teamsize, min(n, teamsize * 2)), ", "@) + " || QUEUE: "@
            + join_spec(e.skip(min(n, teamsize * 2)), ", "@))
    } else {
        Some("You can find queue here: https://krapbott-rajo.shuttle.app/queue.html?streamer="@ + owner)
    }
}

/// Where `!list` is defined: it slices the entries at
/// `teamsize..min(len, teamsize * 2)`, which needs `teamsize <= len` and no
/// overflow of `teamsize * 2`.
pub open spec fn list_defined(s: Seq<RowView>, teamsize: int, random_queue: bool) -> bool {
    s.len() == 0 || random_queue || total_bytes(list_entries(s)) >= 400 || (teamsize <= s.len()
        && teamsize * 2 <= usize::MAX)
}

/// The reply of `!pos`.
pub open spec fn pos_spec(s: Seq<RowView>, u: IdView, sender: Seq<char>, teamsize: int, random_queue: bool, open: bool, max_len: int) -> Seq<char> {
    let count = s.len() as int;
    if !random_queue {
        match index_of_user(s, u) {
            Some(i) => crate::replies::pos_reply_spec(i / teamsize + 1, dec((i + 1) as nat), dec(count as nat), sender),
            None => if !open {
                "The queue is CLOSED 🚫 and you are not in queue, "@ + sender
            } else if count >= max_len {
                "Queue is FULL and you are not in queue, "@ + sender
            } else {
                "You are not in queue, "@ + sender + ". There is "@ + dec(count as nat) + " users in queue"@
            },
        }
    } else {
        if has_user(s, u) {
            "✅ You are entered in the raffle, "@ + sender
        } else {
            "❌ You are not entered in the raffle, "@ + sender
        }
    }
}

/// A row as the OBS dock shows it.
pub struct ObsQueueEntry {
    pub position: i32,
    pub display_name: String,
    pub bungie_name: String,
    pub user_id: String,
}

impl ChannelQueue {
    /// Reorders the queue to the user list `order` (the OBS dock's drag and
    /// drop). The order must name every queued user once; otherwise the
    /// queue is left as it is and `false` returned.
    pub fn reorder_queue(&mut self, order: &Vec<UserId>) -> (done: bool)
        requires
            old(self).wf(),
        ensures
            final(self).wf(),
            match reorder_spec(old(self)@, ids_view(order@)) {
                Some(t) => done && final(self)@ == t,
                None => !done && final(self)@ == old(self)@,
            },
    {
        let ghost s = self@;
        let ghost ord = ids_view(order@);
        let n = self.rows.len();
        if order.len() != n {
            return false;
        }
        let mut out: Vec<QueueRow> = Vec::new();
        let mut i: usize = 0;
        while i < n
            invariant
                s == self@,
                self.wf(),
                n == self.rows@.len() == order@.len(),
                ord == ids_view(order@),
                i <= n,
                forall|a: int| 0 <= a < i ==> has_user(s, #[trigger] ord[a]),
                forall|a: int, b: int| 0 <= a < i && 0 <= b < i && a != b ==> ord[a] != ord[b],
                out@.len() == i,
                forall|a: int| 0 <= a < i ==> #[trigger] out@[a]@ == s[index_of_user(s, ord[a]).unwrap()],
                forall|a: int| 0 <= a < out@.len() ==> (#[trigger] out@[a]).wf(),
            decreases n - i,
        {
            assert(ord[i as int] == order@[i as int]@);
            let mut j: usize = 0;
            while j < i
                invariant
                    s == self@,
                    self.wf(),
                    n == self.rows@.len(),
                    i < n == order@.len(),
                    ord == ids_view(order@),
                    ord.len() == order@.len(),
                    j <= i,
                    forall|b: int| 0 <= b < j ==> ord[b] != ord[i as int],
                decreases i - j,
            {
                assert(ord[j as int] == order@[j as int]@);
                if order[j].same(&order[i]) {
                    proof {
                        assert(ord[j as int] == ord[i as int]);
                        assert(reorder_spec(s, ord) is None);
                    }
                    return false;
                }
                j = j + 1;
            }
            match self.index_of(&order[i]) {
                None => {
                    assert(reorder_spec(s, ord) is None);
                    return false;
                },
                Some(k) => {
                    let c = self.rows[k].duplicate();
                    out.push(c);
                },
            }
            i = i + 1;
        }
        let ghost t = Seq::new(ord.len(), |a: int| s[index_of_user(s, ord[a]).unwrap()]);
        assert(rows_view(out@) =~= t) by {
            assert forall|a: int| 0 <= a < n implies rows_view(out@)[a] == t[a] by {
                assert(rows_view(out@)[a] == out@[a]@);
            }
        }
        assert forall|a: int, b: int| 0 <= a < n && 0 <= b < n && a != b implies t[a].user != t[b].user by {
            assert(has_user(s, ord[a]));
            assert(has_user(s, ord[b]));
            let ia = index_of_user(s, ord[a]).unwrap();
            let ib = index_of_user(s, ord[b]).unwrap();
            assert(s[ia].user == ord[a]);
            assert(s[ib].user == ord[b]);
        }
        self.rows = out;
        true
    }

    /// The lines of `!list` and their UTF-8 length in all, counted up to 400.
    fn list_lines(&self) -> (r: (Vec<String>, usize))
        ensures
            strings_view(r.0@) == list_entries(self@),
            r.1 as int == min(total_bytes(list_entries(self@)), 400),
    {
        let n = self.rows.len();
        let mut entries: Vec<String> = Vec::new();
        let mut total: usize = 0;
        let mut i: usize = 0;
        while i < n
            invariant
                n == self@.len(),
                i <= n,
                strings_view(entries@) == list_entries(self@).take(i as int),
                total as int == min(total_bytes(list_entries(self@).take(i as int)), 400),
            decreases n - i,
        {
            let num = crate::text::u128_to_string(i as u128 + 1);
            let row = &self.rows[i];
            assert(self@[i as int] == row@);
            let line = cat5(num.as_str(), ". ", row.display_name.as_str(), " (", row.bungie_name.as_str()).concat(")");
            let len = line.as_str().as_bytes().len();
            let ghost prev = strings_view(entries@);
            proof {
                let e = list_entries(self@);
                assert(e.take(i + 1).drop_last() =~= e.take(i as int));
                assert(e.take(i + 1).last() == line@);
                assert(len == vstd::utf8::encode_utf8(line@).len());
                assert(total_bytes(e.take(i + 1)) == total_bytes(e.take(i as int)) + vstd::utf8::encode_utf8(line@).len());
            }
            total = if len >= 400 - total { 400 } else { total + len };
            entries.push(line);
            assert(strings_view(entries@) =~= prev.push(line@));
            i = i + 1;
        }
        assert(list_entries(self@).take(n as int) =~= list_entries(self@));
        (entries, total)
    }

    /// Whether `!list` is defined for the queue with this group size and
    /// mode (see `list_defined`).
    pub fn list_defined_for(&self, teamsize: usize, random_queue: bool) -> (r: bool)
        ensures
            r == list_defined(self@, teamsize as int, random_queue),
    {
        let n = self.rows.len();
        if n == 0 || random_queue {
            return true;
        }
        let (_, total) = self.list_lines();
        total >= 400 || (teamsize <= n && teamsize <= usize::MAX / 2)
    }

    /// `!list`: the queue in chat; `Chat` error for an empty queue.
    pub fn list_reply(&self, teamsize: usize, random_queue: bool, owner_channel: &str) -> (r: Result<String, crate::error::BotError>)
        requires
            list_defined(self@, teamsize as int, random_queue),
        ensures
            match list_reply_spec(self@, teamsize as int, random_queue, owner_channel@) {
                Some(m) => r matches Ok(x) && x@ == m,
                None => r matches Err(crate::error::BotError::Chat(m)) && m@ == "❌❌❌The queue is empty❌❌❌"@,
            },
    {
        let n = self.rows.len();
        if n == 0 {
            return Err(crate::error::BotError::Chat("❌❌❌The queue is empty❌❌❌".to_owned()));
        }
        let (entries, total) = self.list_lines();
        let reply = if random_queue {
            let c = if n < teamsize { n } else { teamsize };
            let chosen = crate::text::join(&slice_strings(&entries, 0, c), ", ");
            let rest = crate::text::join(&slice_strings(&entries, c, n), ", ");
            cat3("Chosen: ", chosen.as_str(), " // Entered people: ").concat(rest.as_str())
        } else if total < 400 {
            let a = if n < teamsize { n } else { teamsize };
            let b = if n < teamsize * 2 { n } else { teamsize * 2 };
            let live = crate::text::join(&slice_strings(&entries, 0, a), ", ");
            let next = crate::text::join(&slice_strings(&entries, teamsize, b), ", ");
            let rest = crate::text::join(&slice_strings(&entries, b, n), ", ");
            cat5("LIVE: ", live.as_str(), " || NEXT: ", next.as_str(), " || QUEUE: ").concat(rest.as_str())
        } else {
            cat2("You can find queue here: https://krapbott-rajo.shuttle.app/queue.html?streamer=", owner_channel)
        };
        proof {
            let e = list_entries(self@);
            assert(e.take(e.len() as int) =~= e);
        }
        Ok(reply)
    }

    /// `!pos`: where the sender stands. `teamsize` and `max_len` are the
    /// configured group size and queue length read as `i64`.
    pub fn position_reply(&self, user: &UserId, sender: &str, teamsize: i64, random_queue: bool, open: bool, max_len: i64) -> (r: String)
        requires
            self.wf(),
            self@.len() <= i64::MAX,
            random_queue || !has_user(self@, user@) || teamsize > 0,
        ensures
            r@ == pos_spec(self@, user@, sender@, teamsize as int, random_queue, open, max_len as int),
    {
        let count = self.rows.len();
        let count_text = usize_to_string(count);
        match self.index_of(user) {
            Some(i) => {
                if !random_queue {
                    let index = i as u128 + 1;
                    let index_text = crate::text::u128_to_string(index);
                    let q = (i as u128) / (teamsize as u128);
                    assert(q as int == (i as int) / (teamsize as int));
                    assert(q <= i) by (nonlinear_arith)
                        requires teamsize > 0, q == (i as int) / (teamsize as int), i >= 0;
                    let group = (q + 1) as i64;
                    assert(group as int == (i as int) / (teamsize as int) + 1);
                    Replies::pos_reply(group, index_text.as_str(), count_text.as_str(), sender)
                } else {
                    cat2("✅ You are entered in the raffle, ", sender)
                }
            },
            None => {
                if random_queue {
                    cat2("❌ You are not entered in the raffle, ", sender)
                } else if !open {
                    cat2("The queue is CLOSED 🚫 and you are not in queue, ", sender)
                } else if count as i128 >= max_len as i128 {
                    cat2("Queue is FULL and you are not in queue, ", sender)
                } else {
                    cat5("You are not in queue, ", sender, ". There is ", count_text.as_str(), " users in queue")
                }
            },
        }
    }

    /// The queue as the OBS dock lists it.
    pub fn obs_entries(&self) -> (r: Vec<ObsQueueEntry>)
        requires
            self.wf(),
            self@.len() <= i32::MAX,
        ensures
            r@.len() == self@.len(),
            forall|i: int| #![trigger r@[i]] 0 <= i < r@.len() ==> {
                &&& r@[i].position == i + 1
                &&& r@[i].display_name@ == self@[i].display
                &&& r@[i].bungie_name@ == self@[i].bungie
                &&& r@[i].user_id@ == crate::platform::id_view_text(self@[i].user)
            },
    {
        let mut out: Vec<ObsQueueEntry> = Vec::new();
        let mut i: usize = 0;
        while i < self.rows.len()
            invariant
                self.wf(),
                self@.len() <= i32::MAX,
                i <= self@.len(),
                out@.len() == i,
                forall|j: int| #![trigger out@[j]] 0 <= j < i ==> {
                    &&& out@[j].position == j + 1
                    &&& out@[j].display_name@ == self@[j].display
                    &&& out@[j].bungie_name@ == self@[j].bungie
                    &&& out@[j].user_id@ == crate::platform::id_view_text(self@[j].user)
                },
            decreases self@.len() - i,
        {
            let row = &self.rows[i];
            assert(self@[i as int] == row@);
            assert(row.wf());
            out.push(ObsQueueEntry {
                position: (i + 1) as i32,
                display_name: row.display_name.clone(),
                bungie_name: row.bungie_name.clone(),
                user_id: row.user_id.as_str().to_owned(),
            });
            i = i + 1;
        }
        out
    }
}

/// Copies of `v[from..to]`.
fn slice_strings(v: &Vec<String>, from: usize, to: usize) -> (r: Vec<String>)
    requires
        from <= to <= v@.len(),
    ensures
        strings_view(r@) == strings_view(v@).subrange(from as int, to as int),
{
    let mut r: Vec<String> = Vec::new();
    let mut i = from;
    while i < to
        invariant
            from <= i <= to <= v@.len(),
            strings_view(r@) == strings_view(v@).subrange(from as int, i as int),
        decreases to - i,
    {
        let ghost prev = strings_view(r@);
        let c = v[i].clone();
        r.push(c);
        assert(strings_view(r@) =~= prev.push(c@));
        assert(strings_view(v@)[i as int] == v@[i as int]@);
        assert(strings_view(r@) =~= strings_view(v@).subrange(from as int, i + 1));
        i = i + 1;
    }
    r
}

} // verus!
