//! The bot's state (channel settings and the queues) and its queue commands,
//! each from a chat message to the reply and the new state.

use vstd::prelude::*;
use crate::platform::{ChannelId, UserId, IdView, valid_name};
use crate::config::{BotConfig, ConfigView, config_of, owner_of, resolve_queue_owner};
use crate::queue::{ChannelQueue, Queue, QueueEntry, process_entry_spec, RowView, list_defined, list_reply_spec, pos_spec, has_user, leave_spec, move_spec, remove_display_spec, prio_spec, display_twice, first_display, is_permutation, min, raffle_rows_spec, next_rows_spec, next_reply_spec, displays};
use crate::permissions::PermissionLevel;
use crate::config::{set_config, count_run, toggle_queue, index_of_key, config_or_default};
use crate::replies::Replies;
use crate::pattern::{regex_compiles, bungie_pattern, bungie_from_captures, regex_group_pair, is_valid_bungie_name};
use crate::platform::Platform;
use crate::config::ChannelConfig;
use crate::chat_event::ChatUser;
use crate::text::{after_first, text_after_first, trim, trim_ws, str_seq_eq, join_spec, join, dec, strip_one_char, strip_one_char_prefix, strings_view, usize_to_string, parse_usize, split_ws, trim_start_char, split_whitespace, trim_start_matches_char, parse_i32, parse_in_range, cat2};
use crate::error::BotError;
use crate::chat_event::ChatEvent;

verus! {

/// Abstract state: the settings table and each stored queue.
pub struct StateView {
    pub config: Seq<(IdView, ConfigView)>,
    pub queues: Seq<(IdView, Seq<RowView>)>,
}

pub open spec fn queues_view(v: Seq<(ChannelId, ChannelQueue)>) -> Seq<(IdView, Seq<RowView>)> {
    v.map_values(|e: (ChannelId, ChannelQueue)| (e.0@, e.1@))
}

/// No channel has two queues.
pub open spec fn unique_owners(s: Seq<(IdView, Seq<RowView>)>) -> bool {
    forall|i: int, j: int| 0 <= i < s.len() && 0 <= j < s.len() && i != j ==> s[i].0 != s[j].0
}

/// Where the queue of `k` is stored, if it is.
pub open spec fn queue_index(s: Seq<(IdView, Seq<RowView>)>, k: IdView) -> Option<int> {
    if exists|i: int| 0 <= i < s.len() && s[i].0 == k {
        Some(choose|i: int| 0 <= i < s.len() && s[i].0 == k)
    } else {
        None
    }
}

/// The rows of the queue of `k`; a channel without a stored queue has an
/// empty one.
pub open spec fn queue_rows(s: Seq<(IdView, Seq<RowView>)>, k: IdView) -> Seq<RowView> {
    match queue_index(s, k) {
        Some(i) => s[i].1,
        None => seq![],
    }
}

/// The queues with the queue of `k` set to `rows`.
pub open spec fn set_queue(s: Seq<(IdView, Seq<RowView>)>, k: IdView, rows: Seq<RowView>) -> Seq<(IdView, Seq<RowView>)> {
    match queue_index(s, k) {
        Some(i) => s.update(i, (k, rows)),
        None => s.push((k, rows)),
    }
}

pub open spec fn queues_wf(v: Seq<(ChannelId, ChannelQueue)>) -> bool {
    &&& unique_owners(queues_view(v))
    &&& forall|i: int| 0 <= i < v.len() ==> (#[trigger] v[i]).0.wf() && v[i].1.wf()
}

/// The owner and settings of the queue `caller` uses, or the channel whose
/// settings are missing.
pub open spec fn owner_settings(config: Seq<(IdView, ConfigView)>, caller: IdView) -> Result<(IdView, ConfigView), IdView> {
    match owner_of(config, caller) {
        None => Err(caller),
        Some(o) => match config_of(config, o) {
            Some(c) => Ok((o, c)),
            None => Err(o),
        },
    }
}

/// Whether `e` reports the settings of `k` missing.
pub open spec fn missing(e: BotError, k: IdView) -> bool {
    e matches BotError::ConfigMissing(id) && id@ == k
}

proof fn lemma_queue_index(s: Seq<(IdView, Seq<RowView>)>, k: IdView, i: int)
    requires
        unique_owners(s),
        0 <= i < s.len(),
        s[i].0 == k,
    ensures
        queue_index(s, k) == Some(i),
{
}

/// Replacing the queue at `i` by a well-formed one keeps the table well
/// formed and changes only that entry's view.
proof fn lemma_set_queue_value(v: Seq<(ChannelId, ChannelQueue)>, i: int)
    requires
        queues_wf(v),
        0 <= i < v.len(),
    ensures
        forall|q: ChannelQueue| #![trigger v.update(i, (v[i].0, q))]
            queues_view(v.update(i, (v[i].0, q))) == queues_view(v).update(i, (v[i].0@, q@))
            && (q.wf() ==> queues_wf(v.update(i, (v[i].0, q)))),
{
    assert forall|q: ChannelQueue| #![trigger v.update(i, (v[i].0, q))]
        queues_view(v.update(i, (v[i].0, q))) == queues_view(v).update(i, (v[i].0@, q@))
        && (q.wf() ==> queues_wf(v.update(i, (v[i].0, q)))) by {
        let w = v.update(i, (v[i].0, q));
        assert(queues_view(w) =~= queues_view(v).update(i, (v[i].0@, q@)));
        if q.wf() {
            assert forall|a: int| 0 <= a < w.len() implies (#[trigger] w[a]).0.wf() && w[a].1.wf() by {
                if a != i {
                    assert(w[a] == v[a]);
                }
            }
            assert forall|a: int, b: int| 0 <= a < w.len() && 0 <= b < w.len() && a != b implies queues_view(w)[a].0 != queues_view(w)[b].0 by {
                assert(queues_view(w)[a].0 == queues_view(v)[a].0);
                assert(queues_view(w)[b].0 == queues_view(v)[b].0);
            }
        }
    }
}

/// Everything the queue commands read and change.
pub struct BotState {
    config: BotConfig,
    queues: Vec<(ChannelId, ChannelQueue)>,
}

impl View for BotState {
    type V = StateView;

    closed spec fn view(&self) -> StateView {
        StateView { config: self.config@, queues: queues_view(self.queues@) }
    }
}

impl BotState {
    pub closed spec fn wf(&self) -> bool {
        self.config.wf() && queues_wf(self.queues@)
    }

    /// A state with the given settings and no queued viewers.
    pub fn new(config: BotConfig) -> (r: BotState)
        requires
            config.wf(),
        ensures
            r.wf(),
            r@.config == config@,
            r@.queues == Seq::<(IdView, Seq<RowView>)>::empty(),
    {
        let r = BotState { config, queues: Vec::new() };
        assert(r@.queues =~= Seq::<(IdView, Seq<RowView>)>::empty());
        r
    }

    /// The settings table.
    pub fn config(&self) -> (r: &BotConfig)
        ensures
            r@ == self@.config,
            self.wf() ==> r.wf(),
    {
        &self.config
    }

    /// The queue of `owner`, if one is stored.
    pub fn queue(&self, owner: &ChannelId) -> (r: Option<&ChannelQueue>)
        requires
            self.wf(),
        ensures
            match r {
                Some(q) => queue_index(self@.queues, owner@) is Some && q@ == queue_rows(self@.queues, owner@) && q.wf(),
                None => queue_index(self@.queues, owner@) is None,
            },
    {
        match self.find_queue(owner) {
            Some(i) => {
                assert(self@.queues[i as int].1 == self.queues@[i as int].1@);
                Some(&self.queues[i].1)
            },
            None => None,
        }
    }

    fn find_queue(&self, owner: &ChannelId) -> (r: Option<usize>)
        requires
            self.wf(),
        ensures
            match r {
                Some(i) => i < self@.queues.len() && self@.queues[i as int].0 == owner@
                    && queue_index(self@.queues, owner@) == Some(i as int),
                None => queue_index(self@.queues, owner@) is None,
            },
    {
        let mut i: usize = 0;
        while i < self.queues.len()
            invariant
                self.wf(),
                i <= self@.queues.len(),
                forall|j: int| 0 <= j < i ==> self@.queues[j].0 != owner@,
            decreases self@.queues.len() - i,
        {
            assert(self@.queues[i as int].0 == self.queues@[i as int].0@);
            if self.queues[i].0.same(owner) {
                proof {
                    lemma_queue_index(self@.queues, owner@, i as int);
                }
                return Some(i);
            }
            i = i + 1;
        }
        None
    }

    /// The queue of `owner`, stored empty first if absent.
    pub(crate) fn queue_mut(&mut self, owner: &ChannelId) -> (r: &mut ChannelQueue)
        requires
            old(self).wf(),
            owner.wf(),
        ensures
            r@ == queue_rows(old(self)@.queues, owner@),
            r.wf(),
            final(self)@.config == old(self)@.config,
            final(self)@.queues == set_queue(old(self)@.queues, owner@, final(r)@),
            final(r).wf() ==> final(self).wf(),
    {
        let i = match self.find_queue(owner) {
            Some(i) => {
                assert(self@.queues[i as int].1 == self.queues@[i as int].1@);
                i
            },
            None => {
                let q = ChannelQueue::new();
                let ghost prev = self.queues@;
                self.queues.push((owner.duplicate(), q));
                assert(queues_view(self.queues@) =~= queues_view(prev).push((owner@, q@)));
                assert(forall|j: int| 0 <= j < prev.len() ==> #[trigger] queues_view(self.queues@)[j] == queues_view(prev)[j]);
                (self.queues.len() - 1)
            },
        };
        assert(self.wf());
        assert(self@.queues[i as int].0 == owner@);
        proof {
            lemma_set_queue_value(self.queues@, i as int);
        }
        &mut self.queues[i].1
    }
}

/// The channel a message was sent in.
pub open spec fn caller_view(event: ChatEvent) -> IdView {
    IdView { platform: event.platform, name: event.channel@ }
}

/// The whitespace-separated words of a message.
pub open spec fn words(event: ChatEvent) -> Seq<Seq<char>> {
    split_ws(event.message@)
}

/// The sender's user id.
pub open spec fn sender_view(u: ChatUser) -> IdView {
    IdView { platform: u.identity.platform, name: u.identity.platform_user_id@ }
}

/// Where a sender's command builds the channel and user ids, they are well
/// formed: an id with an empty channel or a `:` in it cannot be built.
pub open spec fn sender_ids_ok(st: StateView, event: ChatEvent) -> bool {
    match event.user {
        None => true,
        Some(u) => valid_name(event.channel@) && (owner_settings(st.config, caller_view(event)) is Ok
            ==> valid_name(u.identity.platform_user_id@)),
    }
}

/// The channel a message was sent in.
pub fn caller_of(event: &ChatEvent) -> (r: ChannelId)
    requires
        valid_name(event.channel@),
    ensures
        r@ == caller_view(*event),
        r.wf(),
{
    ChannelId::new(event.platform, event.channel.as_str())
}

/// The target of a queue command argument: the word with leading `@`s dropped.
pub open spec fn target_arg(w: Seq<char>) -> Seq<char> {
    trim_start_char(w, '@')
}

/// Where `!pos` does not panic: the queue's length fits `i64`, and the group
/// size read as `i64` is positive when the sender's group is computed.
pub open spec fn pos_defined(st: StateView, event: ChatEvent) -> bool {
    match event.user {
        None => true,
        Some(u) => match owner_settings(st.config, caller_view(event)) {
            Err(_) => true,
            Ok((o, c)) => {
                let rows = queue_rows(st.queues, o);
                rows.len() <= i64::MAX && (c.random_queue || !has_user(rows, sender_view(u)) || 0 < (c.teamsize as i64))
            },
        },
    }
}

impl BotState {
    /// The owner of `caller`'s queue and a copy of its settings.
    fn owner_and_config(&self, caller: &ChannelId) -> (r: Result<(ChannelId, ChannelConfig), BotError>)
        requires
            self.wf(),
            caller.wf(),
        ensures
            match owner_settings(self@.config, caller@) {
                Ok((o, c)) => r matches Ok((id, cc)) && id@ == o && cc@ == c && id.wf(),
                Err(k) => r matches Err(e) && missing(e, k),
            },
    {
        let owner = match resolve_queue_owner(&self.config, caller) {
            Ok(o) => o,
            Err(e) => return Err(e),
        };
        match self.config.get_channel_config(&owner) {
            Some(c) => Ok((owner, c.duplicate())),
            None => Err(BotError::ConfigMissing(owner)),
        }
    }

    /// `!list`: the queue in chat (see `list_reply_spec`); an empty queue is
    /// a `Chat` error.
    pub fn list(&self, caller: &ChannelId) -> (r: Result<String, BotError>)
        requires
            self.wf(),
            caller.wf(),
            owner_settings(self@.config, caller@) matches Ok((o, c)) ==>
                list_defined(queue_rows(self@.queues, o), c.teamsize as int, c.random_queue),
        ensures
            match owner_settings(self@.config, caller@) {
                Err(k) => r matches Err(e) && missing(e, k),
                Ok((o, c)) => match list_reply_spec(queue_rows(self@.queues, o), c.teamsize as int, c.random_queue, o.name) {
                    Some(m) => r matches Ok(x) && x@ == m,
                    None => r matches Err(BotError::Chat(m)) && m@ == "❌❌❌The queue is empty❌❌❌"@,
                },
            },
    {
        let (owner, c) = match self.owner_and_config(caller) {
            Ok(x) => x,
            Err(e) => return Err(e),
        };
        match self.queue(&owner) {
            Some(q) => q.list_reply(c.teamsize, c.random_queue, owner.channel()),
            None => {
                let q = ChannelQueue::new();
                q.list_reply(c.teamsize, c.random_queue, owner.channel())
            },
        }
    }

    /// `!pos`: where the sender stands (see `pos_spec`).
    pub fn pos(&self, event: &ChatEvent) -> (r: Result<String, BotError>)
        requires
            self.wf(),
            sender_ids_ok(self@, *event),
            pos_defined(self@, *event),
        ensures
            match event.user {
                None => r matches Err(BotError::Custom(m)) && m@ == "No user"@,
                Some(u) => match owner_settings(self@.config, caller_view(*event)) {
                    Err(k) => r matches Err(e) && missing(e, k),
                    Ok((o, c)) => r matches Ok(x) && x@ == pos_spec(queue_rows(self@.queues, o), sender_view(u),
                        u.name.display@, c.teamsize as i64 as int, c.random_queue, c.open, c.size as i64 as int),
                },
            },
    {
        let user = match &event.user {
            Some(u) => u,
            None => return Err(BotError::Custom("No user".to_owned())),
        };
        let caller = caller_of(event);
        let (owner, c) = match self.owner_and_config(&caller) {
            Ok(x) => x,
            Err(e) => return Err(e),
        };
        let user_id = UserId::new(user.identity.platform, user.identity.platform_user_id.as_str());
        let teamsize = #[verifier::truncate] (c.teamsize as i64);
        let max_len = #[verifier::truncate] (c.size as i64);
        match self.queue(&owner) {
            Some(q) => Ok(q.position_reply(&user_id, user.name.display.as_str(), teamsize, c.random_queue, c.open, max_len)),
            None => {
                let q = ChannelQueue::new();
                Ok(q.position_reply(&user_id, user.name.display.as_str(), teamsize, c.random_queue, c.open, max_len))
            },
        }
    }
}

/// The number of priority runs given to `!prio`, when its third word is one.
pub open spec fn prio_runs(w: Seq<Seq<char>>) -> Option<i32> {
    if w.len() > 2 {
        match parse_in_range(w[2], true, i32::MIN as int, i32::MAX as int) {
            Some(v) => Some(v as i32),
            None => None,
        }
    } else {
        None
    }
}

/// The error `!move` and `!prio` end with when two rows carry the target's
/// name: both rows would be given one place, which the stored queue refuses
/// (the change is dropped).
pub open spec fn same_name_msg(d: Seq<char>) -> Seq<char> {
    "More than one viewer in the queue is named "@ + d
}

/// Whether `!move` of `d` ends in that error: two rows carry the name and
/// the first of them is not in the last group (which is answered first).
pub open spec fn move_clash(rows: Seq<RowView>, d: Seq<char>, teamsize: int) -> bool {
    display_twice(rows, d) && (first_display(rows, d) matches Some(p) && p + 1 + teamsize <= rows.len())
}

/// The state with the queue of `o` set to `rows` and the settings unchanged.
pub open spec fn with_queue(st: StateView, o: IdView, rows: Seq<RowView>) -> StateView {
    StateView { config: st.config, queues: set_queue(st.queues, o, rows) }
}

impl BotState {
    /// `!leave` (see `leave_spec`).
    pub fn leave_command(&mut self, event: &ChatEvent) -> (r: Result<String, BotError>)
        requires
            old(self).wf(),
            sender_ids_ok(old(self)@, *event),
        ensures
            final(self).wf(),
            match event.user {
                None => r matches Err(BotError::Custom(m)) && m@ == "No user"@ && final(self)@ == old(self)@,
                Some(u) => match owner_settings(old(self)@.config, caller_view(*event)) {
                    Err(k) => r matches Err(e) && missing(e, k) && final(self)@ == old(self)@,
                    Ok((o, c)) => {
                        let out = leave_spec(queue_rows(old(self)@.queues, o), sender_view(u), u.name.display@, c.teamsize, c.random_queue);
                        &&& final(self)@ == with_queue(old(self)@, o, out.0)
                        &&& r matches Ok(x) && x@ == out.1
                    },
                },
            },
    {
        let user = match &event.user {
            Some(u) => u,
            None => return Err(BotError::Custom("No user".to_owned())),
        };
        let caller = caller_of(event);
        let (owner, c) = match self.owner_and_config(&caller) {
            Ok(x) => x,
            Err(e) => return Err(e),
        };
        let user_id = UserId::new(user.identity.platform, user.identity.platform_user_id.as_str());
        let q = self.queue_mut(&owner);
        let reply = q.leave(&user_id, user.name.display.as_str(), c.teamsize, c.random_queue);
        Ok(reply)
    }

    /// `!move <user>`: see `move_spec`; the group size is read as `i32`.
    /// When two rows carry the name and the first of them is not in the last
    /// group, nothing changes and the answer is an error (`move_clash`).
    pub fn move_command(&mut self, event: &ChatEvent) -> (r: Result<String, BotError>)
        requires
            old(self).wf(),
            words(*event).len() >= 2 ==> valid_name(event.channel@),
            words(*event).len() >= 2 ==> (owner_settings(old(self)@.config, caller_view(*event)) matches Ok((o, c)) ==>
                (c.teamsize as i32) >= 0 && queue_rows(old(self)@.queues, o).len() + (c.teamsize as i32) <= i32::MAX),
        ensures
            final(self).wf(),
            if words(*event).len() < 2 {
                r matches Ok(x) && x@ == "Usage: !move <user>"@ && final(self)@ == old(self)@
            } else {
                match owner_settings(old(self)@.config, caller_view(*event)) {
                    Err(k) => r matches Err(e) && missing(e, k) && final(self)@ == old(self)@,
                    Ok((o, c)) => {
                        let rows = queue_rows(old(self)@.queues, o);
                        let d = target_arg(words(*event)[1]);
                        if move_clash(rows, d, (c.teamsize as i32) as int) {
                            r matches Err(BotError::Custom(m)) && m@ == same_name_msg(d) && final(self)@ == old(self)@
                        } else {
                            let out = move_spec(rows, d, (c.teamsize as i32) as int);
                            &&& final(self)@ == with_queue(old(self)@, o, out.0)
                            &&& r matches Ok(x) && x@ == out.1
                        }
                    },
                }
            },
    {
        let args = split_whitespace(event.message.as_str());
        if args.len() < 2 {
            return Ok("Usage: !move <user>".to_owned());
        }
        let caller = caller_of(event);
        let (owner, c) = match self.owner_and_config(&caller) {
            Ok(x) => x,
            Err(e) => return Err(e),
        };
        assert(args@[1]@ == words(*event)[1]);
        let target = trim_start_matches_char(args[1].as_str(), '@');
        let teamsize = #[verifier::truncate] (c.teamsize as i32);
        let clash = match self.queue(&owner) {
            Some(q) => {
                if q.display_twice_in(target.as_str()) {
                    proof { crate::queue::lemma_first_display_range(q@, target@); }
                    match q.first_index_of_display(target.as_str()) {
                        Some(p) => (p as i64) + 1 + (teamsize as i64) <= (q.len() as i64),
                        None => false,
                    }
                } else {
                    false
                }
            },
            None => false,
        };
        if clash {
            return Err(BotError::Custom(cat2("More than one viewer in the queue is named ", target.as_str())));
        }
        let q = self.queue_mut(&owner);
        Ok(q.move_to_next_group(target.as_str(), teamsize))
    }

    /// `!remove <user>`: see `remove_display_spec`; nothing happens unless
    /// the message has exactly two words.
    pub fn remove_command(&mut self, event: &ChatEvent) -> (r: Result<Option<String>, BotError>)
        requires
            old(self).wf(),
            words(*event).len() == 2 ==> valid_name(event.channel@),
        ensures
            final(self).wf(),
            if words(*event).len() != 2 {
                r matches Ok(None) && final(self)@ == old(self)@
            } else {
                match owner_of(old(self)@.config, caller_view(*event)) {
                    None => r matches Err(e) && missing(e, caller_view(*event)) && final(self)@ == old(self)@,
                    Some(o) => {
                        let out = remove_display_spec(queue_rows(old(self)@.queues, o), target_arg(words(*event)[1]));
                        &&& final(self)@ == with_queue(old(self)@, o, out.0)
                        &&& r matches Ok(Some(x)) && x@ == out.1
                    },
                }
            },
    {
        let args = split_whitespace(event.message.as_str());
        if args.len() != 2 {
            return Ok(None);
        }
        assert(args@[1]@ == words(*event)[1]);
        let target = trim_start_matches_char(args[1].as_str(), '@');
        let caller = caller_of(event);
        let owner = match resolve_queue_owner(&self.config, &caller) {
            Ok(o) => o,
            Err(e) => return Err(e),
        };
        let q = self.queue_mut(&owner);
        Ok(Some(q.remove_by_display(target.as_str())))
    }

    /// `!prio <user> [runs]`: see `prio_spec`; the group size is read as `i32`.
    /// When two rows carry the name, nothing changes and the answer is an
    /// error.
    pub fn prio_command(&mut self, event: &ChatEvent) -> (r: Result<String, BotError>)
        requires
            old(self).wf(),
            words(*event).len() >= 2 ==> valid_name(event.channel@),
            words(*event).len() >= 2 ==> (owner_settings(old(self)@.config, caller_view(*event)) matches Ok((o, c)) ==>
                0 <= (c.teamsize as i32) < i32::MAX),
        ensures
            final(self).wf(),
            if words(*event).len() < 2 {
                r matches Ok(x) && x@ == "Usage: !prio <user> [runs]"@ && final(self)@ == old(self)@
            } else {
                match owner_settings(old(self)@.config, caller_view(*event)) {
                    Err(k) => r matches Err(e) && missing(e, k) && final(self)@ == old(self)@,
                    Ok((o, c)) => {
                        let rows = queue_rows(old(self)@.queues, o);
                        let d = target_arg(words(*event)[1]);
                        if display_twice(rows, d) {
                            r matches Err(BotError::Custom(m)) && m@ == same_name_msg(d) && final(self)@ == old(self)@
                        } else {
                            let out = prio_spec(rows, d, prio_runs(words(*event)), (c.teamsize as i32) as int);
                            &&& final(self)@ == with_queue(old(self)@, o, out.0)
                            &&& r matches Ok(x) && x@ == out.1
                        }
                    },
                }
            },
    {
        let args = split_whitespace(event.message.as_str());
        if args.len() < 2 {
            return Ok("Usage: !prio <user> [runs]".to_owned());
        }
        assert(args@[1]@ == words(*event)[1]);
        let target = trim_start_matches_char(args[1].as_str(), '@');
        let runs = if args.len() > 2 {
            assert(args@[2]@ == words(*event)[2]);
            parse_i32(args[2].as_str())
        } else {
            None
        };
        let caller = caller_of(event);
        let (owner, c) = match self.owner_and_config(&caller) {
            Ok(x) => x,
            Err(e) => return Err(e),
        };
        let teamsize = #[verifier::truncate] (c.teamsize as i32);
        let twice = match self.queue(&owner) {
            Some(q) => q.display_twice_in(target.as_str()),
            None => false,
        };
        if twice {
            return Err(BotError::Custom(cat2("More than one viewer in the queue is named ", target.as_str())));
        }
        let q = self.queue_mut(&owner);
        Ok(q.prio(target.as_str(), runs, teamsize))
    }
}

/// The announcement of a raffle draw, from the queue after the draw.
pub open spec fn raffle_reply_spec(after: Seq<RowView>, teamsize: int) -> Seq<char> {
    "🎯"@ + join_spec(displays(after.take(min(teamsize, after.len() as int))), ", "@)
        + " have won the next run! 🥳 Please be ready for an invite! 💜"@
}

/// `!next`: the live group has played (`next_handler`, or a raffle draw in
/// raffle mode) and one more run is counted.
pub struct NextCommand;

impl NextCommand {
    pub fn name(&self) -> (r: &'static str)
        ensures
            r@ == "next"@,
    {
        "next"
    }

    pub fn description(&self) -> (r: &'static str)
        ensures
            r@ == "Get the next user in the queue"@,
    {
        "Get the next user in the queue"
    }

    pub fn usage(&self) -> (r: &'static str)
        ensures
            r@ == "!next"@,
    {
        "!next"
    }

    pub fn permission(&self) -> (r: PermissionLevel)
        ensures
            r == PermissionLevel::Broadcaster,
    {
        PermissionLevel::Broadcaster
    }

    /// Runs `!next` for a message in `caller`; gives the reply.
    pub fn execute(&self, state: &mut BotState, caller: &ChannelId) -> (r: Result<String, BotError>)
        requires
            old(state).wf(),
            caller.wf(),
            owner_settings(old(state)@.config, caller@) matches Ok((o, c)) ==> 0 <= (#[verifier::truncate] (c.teamsize as i64)) && c.runs < usize::MAX,
        ensures
            final(state).wf(),
            match owner_of(old(state)@.config, caller@) {
                None => r matches Err(e) && missing(e, caller@) && final(state)@ == old(state)@,
                Some(o) => next_outcome(old(state)@, final(state)@, o, r),
            },
    {
        let owner = match resolve_queue_owner(&state.config, caller) {
            Ok(o) => o,
            Err(e) => return Err(e),
        };
        run_next(state, &owner)
    }
}

/// What a run of `!next` on the queue of `o` does, from state `a` to state
/// `b` with result `r`: without settings for `o`, nothing; otherwise the
/// live group has played (a raffle draw in raffle mode) and one more run is
/// counted.
pub open spec fn next_outcome(a: StateView, b: StateView, o: IdView, r: Result<String, BotError>) -> bool {
    match config_of(a.config, o) {
        None => r matches Err(e) && missing(e, o) && b == a,
        Some(c) => {
            let rows = queue_rows(a.queues, o);
            let t = (c.teamsize as i64) as int;
            &&& b.config == set_config(a.config, o, ConfigView { runs: (c.runs + 1) as usize, ..c })
            &&& if c.random_queue {
                &&& exists|order: Seq<usize>| is_permutation(order, rows.len() - min(t, rows.len() as int))
                    && b.queues == set_queue(a.queues, o, raffle_rows_spec(rows, t, order))
                &&& r matches Ok(x) && x@ == raffle_reply_spec(queue_rows(b.queues, o), t)
            } else {
                &&& b.queues == set_queue(a.queues, o, next_rows_spec(rows, t))
                &&& r matches Ok(x) && x@ == next_reply_spec(rows, t, o.name)
            }
        },
    }
}

/// `!next` on the queue of `owner` (also the dock's "next" button).
pub fn run_next(state: &mut BotState, owner: &ChannelId) -> (r: Result<String, BotError>)
    requires
        old(state).wf(),
        owner.wf(),
        config_of(old(state)@.config, owner@) matches Some(c) ==> 0 <= (#[verifier::truncate] (c.teamsize as i64)) && c.runs < usize::MAX,
    ensures
        final(state).wf(),
        next_outcome(old(state)@, final(state)@, owner@, r),
{
    let (teamsize, random_queue) = match state.config.get_channel_config(owner) {
        Some(c) => (#[verifier::truncate] (c.teamsize as i64), c.random_queue),
        None => return Err(BotError::ConfigMissing(owner.duplicate())),
    };
    let ghost qs = state@.queues;
    assert(unique_owners(qs));
    let result = {
        let q = state.queue_mut(owner);
        if random_queue {
            q.randomize_queue(teamsize)
        } else {
            q.next_handler(owner.channel(), teamsize)
        }
    };
    proof {
        lemma_queue_rows_set_all(qs, owner@);
    }
    let ghost qs2 = state@.queues;
    count_run(&mut state.config, owner);
    assert(state@.queues == qs2);
    Ok(result)
}

/// Reading back a queue just set gives what was set, whatever was set.
pub proof fn lemma_queue_rows_set_all(s: Seq<(IdView, Seq<RowView>)>, k: IdView)
    requires
        unique_owners(s),
    ensures
        forall|rows: Seq<RowView>| #[trigger] queue_rows(set_queue(s, k, rows), k) == rows,
{
    assert forall|rows: Seq<RowView>| #[trigger] queue_rows(set_queue(s, k, rows), k) == rows by {
        lemma_queue_rows_set(s, k, rows);
    }
}

/// Reading back a queue just set gives what was set.
pub proof fn lemma_queue_rows_set(s: Seq<(IdView, Seq<RowView>)>, k: IdView, rows: Seq<RowView>)
    requires
        unique_owners(s),
    ensures
        queue_rows(set_queue(s, k, rows), k) == rows,
        unique_owners(set_queue(s, k, rows)),
        forall|j: IdView| j != k ==> #[trigger] queue_rows(set_queue(s, k, rows), j) == queue_rows(s, j),
{
    let t = set_queue(s, k, rows);
    match queue_index(s, k) {
        Some(i) => {
            assert(t[i].0 == k);
            assert forall|a: int, b: int| 0 <= a < t.len() && 0 <= b < t.len() && a != b implies t[a].0 != t[b].0 by {
                assert(t[a].0 == s[a].0);
                assert(t[b].0 == s[b].0);
            }
            lemma_queue_index(t, k, i);
            assert forall|j: IdView| j != k implies #[trigger] queue_rows(t, j) == queue_rows(s, j) by {
                match queue_index(s, j) {
                    Some(a) => {
                        lemma_queue_index(t, j, a);
                    },
                    None => {
                        if exists|a: int| 0 <= a < t.len() && t[a].0 == j {
                            let a = choose|a: int| 0 <= a < t.len() && t[a].0 == j;
                            assert(s[a].0 == j);
                        }
                    },
                }
            }
        },
        None => {
            let i = s.len() as int;
            assert(t[i].0 == k);
            assert forall|a: int, b: int| 0 <= a < t.len() && 0 <= b < t.len() && a != b implies t[a].0 != t[b].0 by {
                if a < i && b < i {
                    assert(t[a].0 == s[a].0);
                    assert(t[b].0 == s[b].0);
                } else if a < i {
                    assert(t[a].0 == s[a].0);
                } else if b < i {
                    assert(t[b].0 == s[b].0);
                }
            }
            lemma_queue_index(t, k, i);
            assert forall|j: IdView| j != k implies #[trigger] queue_rows(t, j) == queue_rows(s, j) by {
                match queue_index(s, j) {
                    Some(a) => {
                        assert(t[a] == s[a]);
                        lemma_queue_index(t, j, a);
                    },
                    None => {
                        if exists|a: int| 0 <= a < t.len() && t[a].0 == j {
                            let a = choose|a: int| 0 <= a < t.len() && t[a].0 == j;
                            if a < i {
                                assert(s[a].0 == j);
                            }
                        }
                    },
                }
            }
        },
    }
}

impl BotState {
    /// The settings table, to change it with the functions of `config`.
    pub fn config_mut(&mut self) -> (r: &mut BotConfig)
        requires
            old(self).wf(),
        ensures
            r@ == old(self)@.config,
            r.wf(),
            final(self)@.config == final(r)@,
            final(self)@.queues == old(self)@.queues,
            final(r).wf() ==> final(self).wf(),
    {
        &mut self.config
    }
}

/// `!open` / `!close`: the caller's queue owner is resolved, then
/// `toggle_queue` opens or closes the queue that owner uses.
pub fn toggle_queue_command(state: &mut BotState, caller: &ChannelId, open: bool) -> (r: Result<String, BotError>)
    requires
        old(state).wf(),
        caller.wf(),
    ensures
        final(state).wf(),
        final(state)@.queues == old(state)@.queues,
        match owner_of(old(state)@.config, caller@) {
            None => r matches Err(e) && missing(e, caller@) && final(state)@ == old(state)@,
            Some(o) => match owner_of(old(state)@.config, o) {
                None => r matches Err(e) && missing(e, o) && final(state)@ == old(state)@,
                Some(o2) => match index_of_key(old(state)@.config, o2) {
                    None => r matches Err(e) && missing(e, o2) && final(state)@ == old(state)@,
                    Some(i) => {
                        &&& final(state)@.config == old(state)@.config.update(i, (o2, ConfigView { open, ..old(state)@.config[i].1 }))
                        &&& r matches Ok(m) && m@ == (if open { "🔓The queue is open!🔓"@ } else { "🔐The queue is closed🔐"@ })
                    },
                },
            },
        },
{
    let owner = match resolve_queue_owner(&state.config, caller) {
        Ok(o) => o,
        Err(e) => return Err(e),
    };
    toggle_queue(&mut state.config, &owner, open)
}

/// The number `!queue_size` / `!queue_len` read: `None` without a second
/// word, `Some(None)` when it is not a `usize`.
pub open spec fn count_arg(w: Seq<Seq<char>>) -> Option<Option<usize>> {
    if w.len() < 2 {
        None
    } else {
        match parse_in_range(w[1], false, 0, usize::MAX as int) {
            Some(v) => Some(Some(v as usize)),
            None => Some(None),
        }
    }
}

/// Reads the count argument of a settings command.
fn read_count(message: &str, usage: &str) -> (r: Result<usize, BotError>)
    ensures
        match count_arg(split_ws(message@)) {
            None => r matches Err(BotError::Chat(m)) && m@ == usage@,
            Some(None) => r matches Err(BotError::Chat(m)) && m@ == "Invalid Number"@,
            Some(Some(n)) => r == Ok::<usize, BotError>(n),
        },
{
    let args = split_whitespace(message);
    if args.len() < 2 {
        return Err(BotError::Chat(usage.to_owned()));
    }
    assert(args@[1]@ == split_ws(message@)[1]);
    match parse_usize(args[1].as_str()) {
        Some(n) => Ok(n),
        None => Err(BotError::Chat("Invalid Number".to_owned())),
    }
}

/// `!queue_size <n>`: the group size of the caller's queue.
pub struct QueueSize;

impl QueueSize {
    pub fn name(&self) -> (r: &'static str)
        ensures
            r@ == "queue_size"@,
    {
        "queue_size"
    }

    pub fn description(&self) -> (r: &'static str)
        ensures
            r@ == "Update size of group"@,
    {
        "Update size of group"
    }

    pub fn usage(&self) -> (r: &'static str)
        ensures
            r@ == "!queue_size number"@,
    {
        "!queue_size number"
    }

    pub fn permission(&self) -> (r: PermissionLevel)
        ensures
            r == PermissionLevel::Moderator,
    {
        PermissionLevel::Moderator
    }

    /// Sets the group size of the queue `caller` uses; the owner gets the
    /// default settings first if it has none.
    pub fn execute(&self, state: &mut BotState, caller: &ChannelId, message: &str) -> (r: Result<String, BotError>)
        requires
            old(state).wf(),
            caller.wf(),
        ensures
            final(state).wf(),
            final(state)@.queues == old(state)@.queues,
            match owner_of(old(state)@.config, caller@) {
                None => r matches Err(e) && missing(e, caller@) && final(state)@ == old(state)@,
                Some(o) => match count_arg(split_ws(message@)) {
                    None => r matches Err(BotError::Chat(m)) && m@ == "Usage: !size <n>"@ && final(state)@ == old(state)@,
                    Some(None) => r matches Err(BotError::Chat(m)) && m@ == "Invalid Number"@ && final(state)@ == old(state)@,
                    Some(Some(n)) => {
                        &&& final(state)@.config == set_config(old(state)@.config, o,
                            ConfigView { teamsize: n, ..config_or_default(old(state)@.config, o) })
                        &&& r matches Ok(m) && m@ == "✅ Group size is now "@ + dec(n as nat) + " people per run! 🥳"@
                    },
                },
            },
    {
        let owner = match resolve_queue_owner(&state.config, caller) {
            Ok(o) => o,
            Err(e) => return Err(e),
        };
        let n = match read_count(message, "Usage: !size <n>") {
            Ok(n) => n,
            Err(e) => return Err(e),
        };
        let c = state.config.get_channel_config_mut(owner);
        c.teamsize = n;
        Ok(Replies::queue_size(usize_to_string(n).as_str()))
    }
}

/// `!queue_len <n>`: how many viewers the caller's queue takes.
pub struct QueueLength;

impl QueueLength {
    pub fn name(&self) -> (r: &'static str)
        ensures
            r@ == "queue_len"@,
    {
        "queue_len"
    }

    pub fn usage(&self) -> (r: &'static str)
        ensures
            r@ == "!queue_len number"@,
    {
        "!queue_len number"
    }

    pub fn description(&self) -> (r: &'static str)
        ensures
            r@ == "Change the lenght of queue"@,
    {
        "Change the lenght of queue"
    }

    pub fn permission(&self) -> (r: PermissionLevel)
        ensures
            r == PermissionLevel::Moderator,
    {
        PermissionLevel::Moderator
    }

    /// Sets the length of the queue `caller` uses; the owner gets the default
    /// settings first if it has none.
    pub fn execute(&self, state: &mut BotState, caller: &ChannelId, message: &str) -> (r: Result<String, BotError>)
        requires
            old(state).wf(),
            caller.wf(),
        ensures
            final(state).wf(),
            final(state)@.queues == old(state)@.queues,
            match owner_of(old(state)@.config, caller@) {
                None => r matches Err(e) && missing(e, caller@) && final(state)@ == old(state)@,
                Some(o) => match count_arg(split_ws(message@)) {
                    None => r matches Err(BotError::Chat(m)) && m@ == "Usage: !len <n>"@ && final(state)@ == old(state)@,
                    Some(None) => r matches Err(BotError::Chat(m)) && m@ == "Invalid Number"@ && final(state)@ == old(state)@,
                    Some(Some(n)) => {
                        &&& final(state)@.config == set_config(old(state)@.config, o,
                            ConfigView { size: n, ..config_or_default(old(state)@.config, o) })
                        &&& r matches Ok(m) && m@ == "✅ Queue length is now "@ + dec(n as nat) + "!! 🤩"@
                    },
                },
            },
    {
        let owner = match resolve_queue_owner(&state.config, caller) {
            Ok(o) => o,
            Err(e) => return Err(e),
        };
        let n = match read_count(message, "Usage: !len <n>") {
            Ok(n) => n,
            Err(e) => return Err(e),
        };
        let c = state.config.get_channel_config_mut(owner);
        c.size = n;
        Ok(Replies::queue_length(usize_to_string(n).as_str()))
    }
}

/// What `!add` asks for: the name with one leading `@` dropped and the Bungie
/// name (the words from the third on, joined with spaces).
pub open spec fn force_add_spec(w: Seq<Seq<char>>, platform: Platform) -> Result<(Seq<char>, Seq<char>), Seq<char>> {
    if w.len() < 3 {
        Err("Usage: !add @name BungieName#1234"@)
    } else if platform != Platform::Twitch {
        Err("Missing Platform"@)
    } else {
        Ok((strip_one_char(w[1], '@'), join_spec(w.skip(2), " "@)))
    }
}

/// `!add @name Bungie#1234`: a moderator queues someone, with no checks.
pub struct ForceAddCommand;

impl ForceAddCommand {
    pub fn name(&self) -> (r: &'static str)
        ensures
            r@ == "add"@,
    {
        "add"
    }

    pub fn description(&self) -> (r: &'static str)
        ensures
            r@ == "Force add a user to the queue"@,
    {
        "Force add a user to the queue"
    }

    pub fn usage(&self) -> (r: &'static str)
        ensures
            r@ == "!add @twitchname BungieName#1234"@,
    {
        "!add @twitchname BungieName#1234"
    }

    pub fn permission(&self) -> (r: PermissionLevel)
        ensures
            r == PermissionLevel::Moderator,
    {
        PermissionLevel::Moderator
    }

    /// The login name and Bungie name a message asks to add. Only Twitch
    /// names can be looked up (by the caller, who then calls `execute`).
    pub fn request(&self, event: &ChatEvent) -> (r: Result<(String, String), BotError>)
        ensures
            match force_add_spec(words(*event), event.platform) {
                Ok((n, b)) => r matches Ok((rn, rb)) && rn@ == n && rb@ == b,
                Err(m) => if words(*event).len() < 3 {
                    r matches Err(BotError::Chat(x)) && x@ == m
                } else {
                    r matches Err(BotError::Custom(x)) && x@ == m
                },
            },
    {
        let args = split_whitespace(event.message.as_str());
        if args.len() < 3 {
            return Err(BotError::Chat("Usage: !add @name BungieName#1234".to_owned()));
        }
        assert(args@[1]@ == words(*event)[1]);
        let name = strip_one_char_prefix(args[1].as_str(), '@');
        let mut rest: Vec<String> = Vec::new();
        let mut i: usize = 2;
        while i < args.len()
            invariant
                strings_view(args@) == words(*event),
                2 <= i <= args@.len(),
                strings_view(rest@) == words(*event).subrange(2, i as int),
            decreases args@.len() - i,
        {
            let ghost prev = strings_view(rest@);
            let w = args[i].clone();
            rest.push(w);
            assert(strings_view(rest@) =~= prev.push(w@));
            assert(words(*event).subrange(2, i + 1) =~= words(*event).subrange(2, i as int).push(args@[i as int]@));
            i = i + 1;
        }
        assert(words(*event).subrange(2, args@.len() as int) =~= words(*event).skip(2));
        let bungie = join(&rest, " ");
        if event.platform != Platform::Twitch {
            return Err(BotError::Custom("Missing Platform".to_owned()));
        }
        Ok((name, bungie))
    }

    /// Queues `entry` (a `ForceJoin`) in the queue `caller` uses.
    pub fn execute(&self, state: &mut BotState, caller: &ChannelId, entry: QueueEntry) -> (r: Result<String, BotError>)
        requires
            old(state).wf(),
            caller.wf(),
            entry.user_id.wf(),
        ensures
            final(state).wf(),
            match owner_of(old(state)@.config, caller@) {
                None => r matches Err(e) && missing(e, caller@) && final(state)@ == old(state)@,
                Some(o) => match config_of(old(state)@.config, o) {
                    None => r matches Err(BotError::Chat(m)) && m@ == "‼️Channel Configuration missing ‼️"@ && final(state)@ == old(state)@,
                    Some(c) => {
                        let out = process_entry_spec(queue_rows(old(state)@.queues, o), c.size as int, entry.user_id@,
                            entry.display_name@, entry.bungie_name@, Queue::ForceJoin, c.random_queue);
                        &&& final(state)@ == with_queue(old(state)@, o, out.0)
                        &&& r matches Ok(m) && m@ == out.1
                    },
                },
            },
    {
        let owner = match resolve_queue_owner(&state.config, caller) {
            Ok(o) => o,
            Err(e) => return Err(e),
        };
        let (size, random_queue) = match state.config.get_channel_config(&owner) {
            Some(c) => (c.size, c.random_queue),
            None => return Err(BotError::Chat("‼️Channel Configuration missing ‼️".to_owned())),
        };
        let q = state.queue_mut(&owner);
        Ok(q.process_queue_entry(size, entry, Queue::ForceJoin, random_queue))
    }
}

/// The Bungie name a `!join` message gives: the text after its first space,
/// trimmed, when not empty.
pub open spec fn provided_name(message: Seq<char>) -> Option<Seq<char>> {
    match after_first(message, ' ') {
        Some(rest) => if trim_ws(rest).len() > 0 { Some(trim_ws(rest)) } else { None },
        None => None,
    }
}

/// Whether `p` passes the Bungie name pattern.
pub open spec fn bungie_valid(p: Seq<char>) -> bool {
    regex_compiles(bungie_pattern()) && bungie_from_captures(
        regex_group_pair(bungie_pattern(), p, "name"@, "digits"@),
    ) is Some
}

/// Where `!join` builds its ids, they are well formed: an id with an empty
/// channel or a `:` in it cannot be built.
pub open spec fn join_ids_ok(st: StateView, event: ChatEvent) -> bool {
    match event.user {
        None => true,
        Some(u) => event.follower == Some(false) || (valid_name(event.channel@) && match owner_settings(st.config, caller_view(event)) {
            Ok((_, c)) => c.open ==> valid_name(u.identity.platform_user_id@),
            Err(_) => true,
        }),
    }
}

/// What `!join` has gathered once its checks pass.
pub struct JoinTicket {
    pub owner: ChannelId,
    pub queue_len: usize,
    pub random_queue: bool,
    pub user_id: UserId,
    pub display: String,
    /// The Bungie name given in the message, if any.
    pub provided: Option<String>,
}

impl JoinTicket {
    pub open spec fn wf(&self) -> bool {
        self.owner.wf() && self.user_id.wf()
    }
}

/// The first decision of `!join`.
pub enum JoinStart {
    /// Done, with the reply to send, if any.
    Reply(Option<String>),
    /// Go on: the stored Bungie name of the sender is needed next.
    Continue(JoinTicket),
}

/// Which Bungie name `!join` uses, or the check it needs first.
pub enum BungieStep {
    Use(String),
    /// Ask Bungie whether `candidate` exists; use `fallback` if it does not.
    Verify { candidate: String, fallback: Option<String> },
    /// No usable name.
    Missing,
}

/// Whether the sender may queue.
pub enum BanStatus {
    NotBanned,
    Permanent { reason: Option<String> },
    Timed { reason: Option<String> },
}

pub open spec fn opt_view(o: Option<String>) -> Option<Seq<char>> {
    match o {
        Some(x) => Some(x@),
        None => None,
    }
}

/// `!join`: queue the sender under their Bungie name. The steps that need
/// the database or Bungie are the caller's; `start`, `bungie_step`,
/// `bungie_after_check`, `ban_reply` and `finish` decide.
pub struct JoinCommand;

impl JoinCommand {
    pub fn name(&self) -> (r: &'static str)
        ensures
            r@ == "join"@,
    {
        "join"
    }

    pub fn description(&self) -> (r: &'static str)
        ensures
            r@ == "Join the queue"@,
    {
        "Join the queue"
    }

    pub fn usage(&self) -> (r: &'static str)
        ensures
            r@ == "!join"@,
    {
        "!join"
    }

    pub fn permission(&self) -> (r: PermissionLevel)
        ensures
            r == PermissionLevel::Everyone,
    {
        PermissionLevel::Everyone
    }

    /// The checks before any lookup: a sender, following (when known), the
    /// channel and its queue owner configured, the queue open.
    pub fn start(&self, state: &BotState, event: &ChatEvent) -> (r: JoinStart)
        requires
            state.wf(),
            join_ids_ok(state@, *event),
        ensures
            match event.user {
                None => r matches JoinStart::Reply(None),
                Some(u) => if event.follower == Some(false) {
                    r matches JoinStart::Reply(Some(m)) && m@ == "You are not following the channel 😭"@
                } else {
                    match owner_settings(state@.config, caller_view(*event)) {
                        Err(_) => r matches JoinStart::Reply(None),
                        Ok((o, c)) => if !c.open {
                            r matches JoinStart::Reply(Some(m)) && m@ == "❌ "@ + u.name.display@
                                + " the queue is closed 😭 please try again later 💜"@
                        } else {
                            r matches JoinStart::Continue(t) && t.wf() && t.owner@ == o && t.queue_len == c.size
                                && t.random_queue == c.random_queue && t.user_id@ == sender_view(u)
                                && t.display@ == u.name.display@ && opt_view(t.provided) == provided_name(event.message@)
                        },
                    }
                },
            },
    {
        let user = match &event.user {
            Some(u) => u,
            None => return JoinStart::Reply(None),
        };
        if let Some(following) = event.follower {
            if !following {
                return JoinStart::Reply(Some("You are not following the channel 😭".to_owned()));
            }
        }
        let caller = caller_of(event);
        let (owner, c) = match state.owner_and_config(&caller) {
            Ok(x) => x,
            Err(_) => return JoinStart::Reply(None),
        };
        if !c.open {
            return JoinStart::Reply(Some(Replies::join_closed(user.name.display.as_str())));
        }
        let user_id = UserId::new(user.identity.platform, user.identity.platform_user_id.as_str());
        let provided = match text_after_first(event.message.as_str(), ' ') {
            Some(rest) => {
                let t = trim(rest.as_str());
                if t.as_str().unicode_len() > 0 {
                    Some(t)
                } else {
                    None
                }
            },
            None => None,
        };
        JoinStart::Continue(JoinTicket {
            owner,
            queue_len: c.size,
            random_queue: c.random_queue,
            user_id,
            display: user.name.display.clone(),
            provided,
        })
    }

    /// Which Bungie name to use, from the one given in the message and the
    /// one stored for the sender: the given one when it equals the stored
    /// one; else, when it passes the pattern, it must be checked with Bungie
    /// (falling back to the stored one); else the stored one.
    pub fn bungie_step(&self, provided: Option<String>, stored: Option<String>) -> (r: BungieStep)
        ensures
            match (opt_view(provided), opt_view(stored)) {
                (Some(p), Some(s)) => if s == p {
                    r matches BungieStep::Use(x) && x@ == s
                } else if bungie_valid(p) {
                    r matches BungieStep::Verify { candidate, fallback } && candidate@ == p && opt_view(fallback) == Some(s)
                } else {
                    r matches BungieStep::Use(x) && x@ == s
                },
                (Some(p), None) => if bungie_valid(p) {
                    r matches BungieStep::Verify { candidate, fallback } && candidate@ == p && fallback is None
                } else {
                    r is Missing
                },
                (None, Some(s)) => r matches BungieStep::Use(x) && x@ == s,
                (None, None) => r is Missing,
            },
    {
        match (provided, stored) {
            (Some(p), Some(s)) => {
                if str_seq_eq(s.as_str(), p.as_str()) {
                    BungieStep::Use(s)
                } else if is_valid_bungie_name(p.as_str()).is_some() {
                    BungieStep::Verify { candidate: p, fallback: Some(s) }
                } else {
                    BungieStep::Use(s)
                }
            },
            (Some(p), None) => {
                if is_valid_bungie_name(p.as_str()).is_some() {
                    BungieStep::Verify { candidate: p, fallback: None }
                } else {
                    BungieStep::Missing
                }
            },
            (None, Some(s)) => BungieStep::Use(s),
            (None, None) => BungieStep::Missing,
        }
    }

    /// The Bungie name after Bungie has answered whether `candidate` exists.
    pub fn bungie_after_check(&self, candidate: String, fallback: Option<String>, exists: bool) -> (r: Option<String>)
        ensures
            opt_view(r) == (if exists { Some(candidate@) } else { opt_view(fallback) }),
    {
        if exists {
            Some(candidate)
        } else {
            fallback
        }
    }

    /// The reply refusing a banned sender, or `None` to go on.
    pub fn ban_reply(&self, status: &BanStatus, display: &str) -> (r: Option<String>)
        ensures
            match status {
                BanStatus::NotBanned => r is None,
                BanStatus::Permanent { reason } => r matches Some(m) && m@ == match reason {
                    Some(x) => "❌ "@ + display@ + " you are banned from queue for "@ + x@ + " 😔"@,
                    None => "❌ "@ + display@ + " you are banned from queue, beg for forgiveness 💀"@,
                },
                BanStatus::Timed { .. } => r matches Some(m) && m@ == "❌ "@ + display@ + " you are timed out 😔 please try again later 💜"@,
            },
    {
        match status {
            BanStatus::NotBanned => None,
            BanStatus::Permanent { reason } => {
                let r = match reason {
                    Some(x) => Some(x.as_str()),
                    None => None,
                };
                Some(Replies::join_banned(display, r))
            },
            BanStatus::Timed { .. } => Some(Replies::join_timed_out(display)),
        }
    }

    /// The reply when no Bungie name could be found.
    pub fn invalid_bungie_reply(&self, display: &str) -> (r: String)
        ensures
            r@ == "❌ "@ + display@
                + " that was an invalid bungie name 😭please try again! Correct format would be: johnbungie#1234 💜"@,
    {
        Replies::join_invalid_bungie(display)
    }

    /// Queues the sender under `bungie_name` (see `process_entry_spec`).
    pub fn finish(&self, state: &mut BotState, ticket: JoinTicket, bungie_name: String) -> (r: String)
        requires
            old(state).wf(),
            ticket.wf(),
        ensures
            final(state).wf(),
            ({
                let out = process_entry_spec(queue_rows(old(state)@.queues, ticket.owner@), ticket.queue_len as int,
                    ticket.user_id@, ticket.display@, bungie_name@, Queue::Join, ticket.random_queue);
                &&& final(state)@ == with_queue(old(state)@, ticket.owner@, out.0)
                &&& r@ == out.1
            }),
    {
        let entry = QueueEntry { user_id: ticket.user_id, bungie_name, display_name: ticket.display };
        let q = state.queue_mut(&ticket.owner);
        q.process_queue_entry(ticket.queue_len, entry, Queue::Join, ticket.random_queue)
    }
}

} // verus!
