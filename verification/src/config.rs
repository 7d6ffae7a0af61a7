//! Per-channel settings and the bot's table of them.

use vstd::prelude::*;
use crate::platform::{ChannelId, IdView, Platform, valid_name, id_view_text, channel_arg_target, parse_channel_id, unicode_lowercase};
use crate::error::BotError;
use crate::text::{cat2, dec, usize_to_string, strings_view, split_ws, ascii_lower_seq, eq_ignore_ascii_case, cat3, debug_list, debug_strings};
use crate::permissions::{any_equals, seq_has};

verus! {

/// Which queue a channel's commands act on: its own, or the queue of an
/// owner channel that several channels share.
pub enum QueueKey {
    Single(ChannelId),
    Shared(ChannelId),
}

pub struct KeyView {
    pub shared: bool,
    pub owner: IdView,
}

impl View for QueueKey {
    type V = KeyView;

    open spec fn view(&self) -> KeyView {
        match self {
            QueueKey::Single(c) => KeyView { shared: false, owner: c@ },
            QueueKey::Shared(c) => KeyView { shared: true, owner: c@ },
        }
    }
}

impl QueueKey {
    pub open spec fn owner(&self) -> ChannelId {
        match self {
            QueueKey::Single(c) => *c,
            QueueKey::Shared(c) => *c,
        }
    }

    pub open spec fn wf(&self) -> bool {
        self.owner().wf()
    }

    /// The channel whose queue is used.
    pub fn owner_channel(&self) -> (r: &ChannelId)
        ensures
            *r == self.owner(),
            r@ == self@.owner,
    {
        match self {
            QueueKey::Single(c) => c,
            QueueKey::Shared(c) => c,
        }
    }

    pub fn duplicate(&self) -> (r: QueueKey)
        ensures
            r@ == self@,
            r.wf() == self.wf(),
    {
        match self {
            QueueKey::Single(c) => QueueKey::Single(c.duplicate()),
            QueueKey::Shared(c) => QueueKey::Shared(c.duplicate()),
        }
    }
}

/// Settings of one channel.
pub struct ChannelConfig {
    /// Whether viewers may join.
    pub open: bool,
    /// Most viewers the queue takes (`!queue_len`).
    pub size: usize,
    /// Viewers per group (`!queue_size`).
    pub teamsize: usize,
    pub queue_target: QueueKey,
    /// Raffle mode: `!next` draws a random group.
    pub random_queue: bool,
    /// Command groups enabled in the channel.
    pub packages: Vec<String>,
    /// Groups played so far.
    pub runs: usize,
    /// Command prefix.
    pub prefix: String,
}

pub struct ConfigView {
    pub open: bool,
    pub size: usize,
    pub teamsize: usize,
    pub target: KeyView,
    pub random_queue: bool,
    pub packages: Seq<Seq<char>>,
    pub runs: usize,
    pub prefix: Seq<char>,
}

impl View for ChannelConfig {
    type V = ConfigView;

    open spec fn view(&self) -> ConfigView {
        ConfigView {
            open: self.open,
            size: self.size,
            teamsize: self.teamsize,
            target: self.queue_target@,
            random_queue: self.random_queue,
            packages: strings_view(self.packages@),
            runs: self.runs,
            prefix: self.prefix@,
        }
    }
}

/// The prefix commands start with unless a channel sets another.
pub open spec fn default_prefix_spec() -> Seq<char> {
    seq!['!']
}

/// The settings a channel gets when none are stored: a closed queue of its
/// own, one viewer per group and in the queue, the moderation commands.
pub open spec fn default_config(channel: IdView) -> ConfigView {
    ConfigView {
        open: false,
        size: 1,
        teamsize: 1,
        target: KeyView { shared: false, owner: channel },
        random_queue: false,
        packages: seq!["moderation"@],
        runs: 0,
        prefix: default_prefix_spec(),
    }
}

/// The default command prefix `!`.
pub fn default_prefix() -> (r: String)
    ensures
        r@ == default_prefix_spec(),
{
    let mut s = String::new();
    crate::text::push_char(&mut s, '!');
    s
}

impl ChannelConfig {
    pub open spec fn wf(&self) -> bool {
        self.queue_target.wf()
    }

    /// Default settings for `channel_id`.
    pub fn new(channel_id: ChannelId) -> (r: ChannelConfig)
        ensures
            r@ == default_config(channel_id@),
            r.wf() == channel_id.wf(),
    {
        let mut packages: Vec<String> = Vec::new();
        packages.push("moderation".to_owned());
        proof {
            reveal_strlit("moderation");
            assert(strings_view(packages@) =~= seq!["moderation"@]);
        }
        ChannelConfig {
            open: false,
            queue_target: QueueKey::Single(channel_id),
            size: 1,
            teamsize: 1,
            packages,
            runs: 0,
            prefix: default_prefix(),
            random_queue: false,
        }
    }

    pub fn duplicate(&self) -> (r: ChannelConfig)
        ensures
            r@ == self@,
            r.wf() == self.wf(),
    {
        let mut packages: Vec<String> = Vec::new();
        let mut i: usize = 0;
        while i < self.packages.len()
            invariant
                i <= self.packages@.len(),
                strings_view(packages@) == strings_view(self.packages@).take(i as int),
            decreases self.packages@.len() - i,
        {
            let ghost prev = strings_view(packages@);
            let p = self.packages[i].clone();
            packages.push(p);
            assert(strings_view(packages@) =~= prev.push(p@));
            assert(strings_view(self.packages@).take(i + 1) =~= strings_view(self.packages@).take(i as int).push(self.packages@[i as int]@));
            i = i + 1;
        }
        assert(strings_view(self.packages@).take(self.packages@.len() as int) =~= strings_view(self.packages@));
        ChannelConfig {
            open: self.open,
            size: self.size,
            teamsize: self.teamsize,
            queue_target: self.queue_target.duplicate(),
            random_queue: self.random_queue,
            packages,
            runs: self.runs,
            prefix: self.prefix.clone(),
        }
    }
}

/// The entries' abstract values: channel and settings, in stored order.
pub open spec fn entries_view(v: Seq<(ChannelId, ChannelConfig)>) -> Seq<(IdView, ConfigView)> {
    v.map_values(|e: (ChannelId, ChannelConfig)| (e.0@, e.1@))
}

/// No channel is stored twice.
pub open spec fn unique_keys(s: Seq<(IdView, ConfigView)>) -> bool {
    forall|i: int, j: int| 0 <= i < s.len() && 0 <= j < s.len() && i != j ==> s[i].0 != s[j].0
}

/// Where `k` is stored, if it is.
pub open spec fn index_of_key(s: Seq<(IdView, ConfigView)>, k: IdView) -> Option<int> {
    if exists|i: int| 0 <= i < s.len() && s[i].0 == k {
        Some(choose|i: int| 0 <= i < s.len() && s[i].0 == k)
    } else {
        None
    }
}

/// The settings stored for `k`.
pub open spec fn config_of(s: Seq<(IdView, ConfigView)>, k: IdView) -> Option<ConfigView> {
    match index_of_key(s, k) {
        Some(i) => Some(s[i].1),
        None => None,
    }
}

/// Channels are unique and well formed, and so are their settings.
pub open spec fn entries_wf(v: Seq<(ChannelId, ChannelConfig)>) -> bool {
    &&& unique_keys(entries_view(v))
    &&& forall|i: int| 0 <= i < v.len() ==> (#[trigger] v[i]).0.wf() && v[i].1.wf()
}

/// Replacing the settings at `i` by well-formed ones keeps the entries well
/// formed and changes only that entry's view.
proof fn lemma_set_value(v: Seq<(ChannelId, ChannelConfig)>, i: int)
    requires
        entries_wf(v),
        0 <= i < v.len(),
    ensures
        forall|c: ChannelConfig| #![trigger v.update(i, (v[i].0, c))]
            entries_view(v.update(i, (v[i].0, c))) == entries_view(v).update(i, (v[i].0@, c@))
            && (c.wf() ==> entries_wf(v.update(i, (v[i].0, c)))),
{
    assert forall|c: ChannelConfig| #![trigger v.update(i, (v[i].0, c))]
        entries_view(v.update(i, (v[i].0, c))) == entries_view(v).update(i, (v[i].0@, c@))
        && (c.wf() ==> entries_wf(v.update(i, (v[i].0, c)))) by {
        let w = v.update(i, (v[i].0, c));
        assert(entries_view(w) =~= entries_view(v).update(i, (v[i].0@, c@)));
        if c.wf() {
            assert forall|a: int| 0 <= a < w.len() implies (#[trigger] w[a]).0.wf() && w[a].1.wf() by {
                if a != i {
                    assert(w[a] == v[a]);
                }
            }
            assert forall|a: int, b: int| 0 <= a < w.len() && 0 <= b < w.len() && a != b implies entries_view(w)[a].0 != entries_view(w)[b].0 by {
                assert(entries_view(w)[a].0 == entries_view(v)[a].0);
                assert(entries_view(w)[b].0 == entries_view(v)[b].0);
            }
        }
    }
}

/// The settings of every channel the bot serves, one entry per channel.
pub struct BotConfig {
    channels: Vec<(ChannelId, ChannelConfig)>,
}

impl View for BotConfig {
    type V = Seq<(IdView, ConfigView)>;

    closed spec fn view(&self) -> Seq<(IdView, ConfigView)> {
        entries_view(self.channels@)
    }
}

/// The stored index of `k` is unique.
pub proof fn lemma_index_of_key(s: Seq<(IdView, ConfigView)>, k: IdView, i: int)
    requires
        unique_keys(s),
        0 <= i < s.len(),
        s[i].0 == k,
    ensures
        index_of_key(s, k) == Some(i),
{
}

impl BotConfig {
    /// Channels are unique and well formed, and so are their settings.
    pub closed spec fn wf(&self) -> bool {
        entries_wf(self.channels@)
    }

    /// The channel and settings at `i`, in stored order.
    pub fn entry(&self, i: usize) -> (r: (&ChannelId, &ChannelConfig))
        requires
            i < self@.len(),
        ensures
            r.0@ == self@[i as int].0,
            r.1@ == self@[i as int].1,
            self.wf() ==> r.0.wf() && r.1.wf(),
    {
        let e = &self.channels[i];
        (&e.0, &e.1)
    }

    pub fn len(&self) -> (n: usize)
        ensures
            n == self@.len(),
    {
        self.channels.len()
    }

    /// Where `channel_id` is stored.
    fn find(&self, channel_id: &ChannelId) -> (r: Option<usize>)
        requires
            self.wf(),
        ensures
            match r {
                Some(i) => i < self@.len() && self@[i as int].0 == channel_id@ && index_of_key(self@, channel_id@) == Some(i as int),
                None => index_of_key(self@, channel_id@) is None,
            },
    {
        let mut i: usize = 0;
        while i < self.channels.len()
            invariant
                self.wf(),
                i <= self@.len(),
                forall|j: int| 0 <= j < i ==> self@[j].0 != channel_id@,
            decreases self@.len() - i,
        {
            assert(self@[i as int].0 == self.channels@[i as int].0@);
            if self.channels[i].0.same(channel_id) {
                proof {
                    lemma_index_of_key(self@, channel_id@, i as int);
                }
                return Some(i);
            }
            i = i + 1;
        }
        None
    }

    /// The settings stored for `channel_id`.
    pub fn get_channel_config(&self, channel_id: &ChannelId) -> (r: Option<&ChannelConfig>)
        requires
            self.wf(),
        ensures
            match r {
                Some(c) => config_of(self@, channel_id@) == Some(c@) && c.wf(),
                None => config_of(self@, channel_id@) is None,
            },
    {
        match self.find(channel_id) {
            Some(i) => {
                assert(self@[i as int].1 == self.channels@[i as int].1@);
                Some(&self.channels[i].1)
            },
            None => None,
        }
    }

    /// The settings of `key`, stored first with the defaults if absent.
    pub fn get_channel_config_mut(&mut self, key: ChannelId) -> (r: &mut ChannelConfig)
        requires
            old(self).wf(),
            key.wf(),
        ensures
            r@ == (match config_of(old(self)@, key@) {
                Some(c) => c,
                None => default_config(key@),
            }),
            r.wf(),
            final(self)@ == (match index_of_key(old(self)@, key@) {
                Some(i) => old(self)@.update(i, (key@, final(r)@)),
                None => old(self)@.push((key@, final(r)@)),
            }),
            final(r).wf() ==> final(self).wf(),
    {
        let i = match self.find(&key) {
            Some(i) => i,
            None => {
                let c = ChannelConfig::new(key.duplicate());
                let ghost prev = self.channels@;
                self.channels.push((key, c));
                assert(self@ =~= entries_view(prev).push((key@, c@)));
                assert(forall|j: int| 0 <= j < prev.len() ==> #[trigger] self@[j] == entries_view(prev)[j]);
                (self.channels.len() - 1)
            },
        };
        assert(self.wf());
        assert(self@[i as int].0 == key@);
        proof {
            lemma_set_value(self.channels@, i as int);
        }
        let r = &mut self.channels[i].1;
        r
    }
}

/// The settings the bot starts with: `twitch:krapmatt`, open, groups of two,
/// with the queue commands.
pub open spec fn initial_entries() -> Seq<(IdView, ConfigView)> {
    let id = IdView { platform: Platform::Twitch, name: "krapmatt"@ };
    seq![(id, ConfigView {
        open: true,
        size: 1,
        teamsize: 2,
        target: KeyView { shared: false, owner: id },
        random_queue: false,
        packages: seq!["queue"@],
        runs: 0,
        prefix: default_prefix_spec(),
    })]
}

/// Whether group `g` is enabled for channel `k`.
pub open spec fn group_allowed(s: Seq<(IdView, ConfigView)>, k: IdView, g: Seq<char>) -> bool {
    match config_of(s, k) {
        Some(c) => seq_has(c.packages, g),
        None => false,
    }
}

impl BotConfig {
    /// The starting table.
    pub fn new() -> (r: BotConfig)
        ensures
            r@ == initial_entries(),
            r.wf(),
    {
        proof {
            reveal_strlit("krapmatt");
            reveal_strlit("queue");
        }
        let id = ChannelId::new(Platform::Twitch, "krapmatt");
        let mut packages: Vec<String> = Vec::new();
        packages.push("queue".to_owned());
        assert(strings_view(packages@) =~= seq!["queue"@]);
        let cfg = ChannelConfig {
            open: true,
            size: 1,
            teamsize: 2,
            packages,
            runs: 0,
            queue_target: QueueKey::Single(id.duplicate()),
            prefix: default_prefix(),
            random_queue: false,
        };
        let mut channels: Vec<(ChannelId, ChannelConfig)> = Vec::new();
        channels.push((id, cfg));
        let r = BotConfig { channels };
        assert(r@ =~= initial_entries());
        r
    }

    /// Whether command group `group_name` is enabled for `channel_id`.
    pub fn is_group_allowed(&self, channel_id: &ChannelId, group_name: &str) -> (r: bool)
        requires
            self.wf(),
        ensures
            r == group_allowed(self@, channel_id@, group_name@),
    {
        match self.get_channel_config(channel_id) {
            Some(c) => any_equals(&c.packages, group_name),
            None => false,
        }
    }
}

/// The table with the settings of `k` set to `c`: in place if stored,
/// appended otherwise.
pub open spec fn set_config(s: Seq<(IdView, ConfigView)>, k: IdView, c: ConfigView) -> Seq<(IdView, ConfigView)> {
    match index_of_key(s, k) {
        Some(i) => s.update(i, (k, c)),
        None => s.push((k, c)),
    }
}

/// The settings of `k`, or the defaults when none are stored.
pub open spec fn config_or_default(s: Seq<(IdView, ConfigView)>, k: IdView) -> ConfigView {
    match config_of(s, k) {
        Some(c) => c,
        None => default_config(k),
    }
}

/// The queue owner of channel `k`, when `k` has settings.
pub open spec fn owner_of(s: Seq<(IdView, ConfigView)>, k: IdView) -> Option<IdView> {
    match config_of(s, k) {
        Some(c) => Some(c.target.owner),
        None => None,
    }
}

/// Whether `e` is `ConfigMissing` for channel `k`.
pub open spec fn is_config_missing(e: BotError, k: IdView) -> bool {
    e matches BotError::ConfigMissing(id) && id@ == k
}

impl BotConfig {
    /// Replaces the settings at `i`.
    fn replace_at(&mut self, i: usize, c: ChannelConfig)
        requires
            old(self).wf(),
            i < old(self)@.len(),
            c.wf(),
        ensures
            final(self)@ == old(self)@.update(i as int, (old(self)@[i as int].0, c@)),
            final(self).wf(),
    {
        proof {
            lemma_set_value(self.channels@, i as int);
        }
        let ghost before = self.channels@;
        self.channels[i].1 = c;
        assert(self.channels@ == before.update(i as int, (before[i as int].0, c)));
    }

    /// A copy of the settings stored for `k`, with where they are stored.
    fn lookup(&self, k: &ChannelId) -> (r: Option<(usize, ChannelConfig)>)
        requires
            self.wf(),
        ensures
            match r {
                Some((i, c)) => index_of_key(self@, k@) == Some(i as int) && i < self@.len()
                    && self@[i as int] == (k@, c@) && c.wf(),
                None => index_of_key(self@, k@) is None,
            },
    {
        match self.find(k) {
            Some(i) => {
                assert(self@[i as int].1 == self.channels@[i as int].1@);
                Some((i, self.channels[i].1.duplicate()))
            },
            None => None,
        }
    }
}

/// The queue owner of `caller`: the channel whose queue its commands use.
/// `ConfigMissing` for a channel without settings.
pub fn resolve_queue_owner(cfg: &BotConfig, caller: &ChannelId) -> (r: Result<ChannelId, BotError>)
    requires
        cfg.wf(),
        caller.wf(),
    ensures
        match owner_of(cfg@, caller@) {
            Some(o) => r matches Ok(id) && id@ == o && id.wf(),
            None => r matches Err(e) && is_config_missing(e, caller@),
        },
{
    match cfg.get_channel_config(caller) {
        Some(c) => Ok(c.queue_target.owner_channel().duplicate()),
        None => Err(BotError::ConfigMissing(caller.duplicate())),
    }
}

/// Opens or closes the queue `caller` uses, with the reply. The owner of
/// `caller` must have settings too.
pub fn toggle_queue(cfg: &mut BotConfig, caller: &ChannelId, open: bool) -> (r: Result<String, BotError>)
    requires
        old(cfg).wf(),
        caller.wf(),
    ensures
        final(cfg).wf(),
        match owner_of(old(cfg)@, caller@) {
            None => r matches Err(e) && is_config_missing(e, caller@) && final(cfg)@ == old(cfg)@,
            Some(o) => match index_of_key(old(cfg)@, o) {
                None => r matches Err(e) && is_config_missing(e, o) && final(cfg)@ == old(cfg)@,
                Some(i) => {
                    &&& final(cfg)@ == old(cfg)@.update(i, (o, ConfigView { open, ..old(cfg)@[i].1 }))
                    &&& r matches Ok(m) && m@ == (if open { "🔓The queue is open!🔓"@ } else { "🔐The queue is closed🔐"@ })
                },
            },
        },
{
    let owner = match resolve_queue_owner(cfg, caller) {
        Ok(o) => o,
        Err(e) => return Err(e),
    };
    match cfg.lookup(&owner) {
        None => Err(BotError::ConfigMissing(owner)),
        Some((i, mut c)) => {
            c.open = open;
            cfg.replace_at(i, c);
            Ok(if open { crate::replies::Replies::queue_opened() } else { crate::replies::Replies::queue_closed() })
        },
    }
}

/// Opens or closes the queue of `owner` (the OBS dock's switch).
pub fn set_queue_open(cfg: &mut BotConfig, owner: &ChannelId, open: bool) -> (r: Result<(), BotError>)
    requires
        old(cfg).wf(),
        owner.wf(),
    ensures
        final(cfg).wf(),
        match index_of_key(old(cfg)@, owner@) {
            None => r matches Err(e) && is_config_missing(e, owner@) && final(cfg)@ == old(cfg)@,
            Some(i) => r is Ok && final(cfg)@ == old(cfg)@.update(i, (owner@, ConfigView { open, ..old(cfg)@[i].1 })),
        },
{
    match cfg.lookup(owner) {
        None => Err(BotError::ConfigMissing(owner.duplicate())),
        Some((i, mut c)) => {
            c.open = open;
            cfg.replace_at(i, c);
            Ok(())
        },
    }
}

/// Sets how many viewers the queue of `owner` takes.
pub fn set_queue_len(cfg: &mut BotConfig, owner: &ChannelId, len: usize) -> (r: Result<(), BotError>)
    requires
        old(cfg).wf(),
        owner.wf(),
    ensures
        final(cfg).wf(),
        match index_of_key(old(cfg)@, owner@) {
            None => r matches Err(e) && is_config_missing(e, owner@) && final(cfg)@ == old(cfg)@,
            Some(i) => r is Ok && final(cfg)@ == old(cfg)@.update(i, (owner@, ConfigView { size: len, ..old(cfg)@[i].1 })),
        },
{
    match cfg.lookup(owner) {
        None => Err(BotError::ConfigMissing(owner.duplicate())),
        Some((i, mut c)) => {
            c.size = len;
            cfg.replace_at(i, c);
            Ok(())
        },
    }
}

/// Sets the group size of the queue of `owner`.
pub fn set_queue_size(cfg: &mut BotConfig, owner: &ChannelId, size: usize) -> (r: Result<(), BotError>)
    requires
        old(cfg).wf(),
        owner.wf(),
    ensures
        final(cfg).wf(),
        match index_of_key(old(cfg)@, owner@) {
            None => r matches Err(e) && is_config_missing(e, owner@) && final(cfg)@ == old(cfg)@,
            Some(i) => r is Ok && final(cfg)@ == old(cfg)@.update(i, (owner@, ConfigView { teamsize: size, ..old(cfg)@[i].1 })),
        },
{
    match cfg.lookup(owner) {
        None => Err(BotError::ConfigMissing(owner.duplicate())),
        Some((i, mut c)) => {
            c.teamsize = size;
            cfg.replace_at(i, c);
            Ok(())
        },
    }
}

/// Sets the played-groups count of `owner` back to zero, if it has settings.
pub fn reset_queue_runs(cfg: &mut BotConfig, owner: &ChannelId)
    requires
        old(cfg).wf(),
        owner.wf(),
    ensures
        final(cfg).wf(),
        match index_of_key(old(cfg)@, owner@) {
            None => final(cfg)@ == old(cfg)@,
            Some(i) => final(cfg)@ == old(cfg)@.update(i, (owner@, ConfigView { runs: 0, ..old(cfg)@[i].1 })),
        },
{
    match cfg.lookup(owner) {
        None => {},
        Some((i, mut c)) => {
            c.runs = 0;
            cfg.replace_at(i, c);
        },
    }
}

/// Counts one more played group for `owner` (after `!next`), storing the
/// default settings first if it has none.
pub fn count_run(cfg: &mut BotConfig, owner: &ChannelId)
    requires
        old(cfg).wf(),
        owner.wf(),
        config_or_default(old(cfg)@, owner@).runs < usize::MAX,
    ensures
        final(cfg).wf(),
        final(cfg)@ == set_config(old(cfg)@, owner@, ConfigView {
            runs: (config_or_default(old(cfg)@, owner@).runs + 1) as usize,
            ..config_or_default(old(cfg)@, owner@)
        }),
{
    let c = cfg.get_channel_config_mut(owner.duplicate());
    c.runs = c.runs + 1;
}

/// Switches `caller`'s queue between queue and raffle mode, with the reply
/// naming the new mode. The owner gets the default settings first if it has
/// none.
pub fn random(cfg: &mut BotConfig, caller: &ChannelId) -> (r: Result<String, BotError>)
    requires
        old(cfg).wf(),
        caller.wf(),
    ensures
        final(cfg).wf(),
        match owner_of(old(cfg)@, caller@) {
            None => r matches Err(e) && is_config_missing(e, caller@) && final(cfg)@ == old(cfg)@,
            Some(o) => {
                let c = config_or_default(old(cfg)@, o);
                &&& final(cfg)@ == set_config(old(cfg)@, o, ConfigView { random_queue: !c.random_queue, ..c })
                &&& r matches Ok(m) && m@ == (if !c.random_queue { "Raffle Mode Active"@ } else { "Queue Mode Active"@ })
            },
        },
{
    let owner = match resolve_queue_owner(cfg, caller) {
        Ok(o) => o,
        Err(e) => return Err(e),
    };
    let c = cfg.get_channel_config_mut(owner);
    let was = c.random_queue;
    c.random_queue = !was;
    Ok(if !was { "Raffle Mode Active".to_owned() } else { "Queue Mode Active".to_owned() })
}

/// The id named by a channel argument, when it parses.
pub open spec fn arg_id(w: Seq<char>, p: Platform) -> IdView {
    match channel_arg_target(w, p) {
        Ok((pl, c)) => IdView { platform: pl, name: c },
        Err(_) => IdView { platform: p, name: Seq::empty() },
    }
}

/// The arguments `words[1..k]` all name a known platform.
pub open spec fn args_parse_before(words: Seq<Seq<char>>, p: Platform, k: int) -> bool {
    forall|j: int| 1 <= j < k ==> #[trigger] channel_arg_target(words[j], p) is Ok
}

/// No argument that is reached names an empty channel or one with `:`:
/// no channel id can be built from such a name.
pub open spec fn share_args_safe(words: Seq<Seq<char>>, p: Platform) -> bool {
    forall|k: int| 1 <= k < words.len() && args_parse_before(words, p, k) ==>
        (#[trigger] channel_arg_target(words[k], p) matches Ok((_, c)) ==> valid_name(c))
}

/// Texts of the channels sharing the queue of `owner`, in stored order.
pub open spec fn shared_members(s: Seq<(IdView, ConfigView)>, owner: IdView) -> Seq<Seq<char>>
    decreases s.len(),
{
    if s.len() == 0 {
        seq![]
    } else {
        let r = shared_members(s.drop_last(), owner);
        if s.last().1.target == (KeyView { shared: true, owner }) {
            r.push(id_view_text(s.last().0))
        } else {
            r
        }
    }
}

/// Every stored channel among `keys` switched to the shared queue of `owner`.
pub open spec fn share_with(s: Seq<(IdView, ConfigView)>, owner: IdView, keys: Seq<IdView>) -> Seq<(IdView, ConfigView)> {
    Seq::new(s.len(), |i: int| if keys.contains(s[i].0) {
        (s[i].0, ConfigView { target: KeyView { shared: true, owner }, ..s[i].1 })
    } else {
        s[i]
    })
}

pub open spec fn is_off(w: Seq<char>) -> bool {
    ascii_lower_seq(w) == "off"@
}

/// The reply to `!queue_share` without arguments, for settings `c`.
pub open spec fn share_status(s: Seq<(IdView, ConfigView)>, c: ConfigView) -> Seq<char> {
    if c.target.shared {
        "Queue mode: SHARED\nOwner: "@ + id_view_text(c.target.owner) + "\nMembers: "@
            + debug_list(shared_members(s, c.target.owner))
    } else {
        "Queue mode: SINGLE"@
    }
}

impl BotConfig {
    /// Texts of the channels sharing the queue of `owner`.
    fn members_of(&self, owner: &ChannelId) -> (r: Vec<String>)
        requires
            self.wf(),
        ensures
            strings_view(r@) == shared_members(self@, owner@),
    {
        let mut out: Vec<String> = Vec::new();
        let mut i: usize = 0;
        while i < self.channels.len()
            invariant
                self.wf(),
                i <= self@.len(),
                strings_view(out@) == shared_members(self@.take(i as int), owner@),
            decreases self@.len() - i,
        {
            let ghost prev = strings_view(out@);
            let e = &self.channels[i];
            assert(self@.take(i + 1).drop_last() =~= self@.take(i as int));
            assert(self@[i as int] == (e.0@, e.1@));
            assert(e.0.wf());
            let shared_here = match &e.1.queue_target {
                QueueKey::Shared(o) => o.same(owner),
                QueueKey::Single(_) => false,
            };
            if shared_here {
                let t = e.0.as_str().to_owned();
                out.push(t);
                assert(strings_view(out@) =~= prev.push(t@));
            }
            i = i + 1;
        }
        assert(self@.take(self@.len() as int) =~= self@);
        out
    }

    /// Switches the stored channel `k`, if stored, to the shared queue `key`.
    fn share_one(&mut self, k: &ChannelId, key: &QueueKey)
        requires
            old(self).wf(),
            key.wf(),
            key@.shared,
        ensures
            final(self).wf(),
            final(self)@ == share_with(old(self)@, key@.owner, seq![k@]),
    {
        match self.lookup(k) {
            None => {
                assert(share_with(old(self)@, key@.owner, seq![k@]) =~= old(self)@) by {
                    assert forall|i: int| 0 <= i < old(self)@.len() implies !seq![k@].contains(#[trigger] old(self)@[i].0) by {
                        if seq![k@].contains(old(self)@[i].0) {
                            assert(seq![k@][0] == k@);
                        }
                    }
                }
            },
            Some((i, mut c)) => {
                c.queue_target = key.duplicate();
                self.replace_at(i, c);
                assert(final(self)@ =~= share_with(old(self)@, key@.owner, seq![k@])) by {
                    assert forall|j: int| 0 <= j < old(self)@.len() implies
                        (seq![k@].contains(#[trigger] old(self)@[j].0) <==> j == i) by {
                        if seq![k@].contains(old(self)@[j].0) {
                            assert(seq![k@][0] == k@);
                        }
                        if j == i {
                            assert(seq![k@][0] == k@);
                        }
                    }
                }
            },
        }
    }
}

/// Sharing with a list of keys is sharing with each of them in turn.
proof fn lemma_share_with_push(s: Seq<(IdView, ConfigView)>, owner: IdView, keys: Seq<IdView>, k: IdView)
    ensures
        share_with(share_with(s, owner, keys), owner, seq![k]) == share_with(s, owner, keys.push(k)),
{
    let a = share_with(share_with(s, owner, keys), owner, seq![k]);
    let b = share_with(s, owner, keys.push(k));
    assert forall|i: int| 0 <= i < s.len() implies a[i] == b[i] by {
        assert(seq![k].contains(s[i].0) <==> s[i].0 == k) by {
            if seq![k].contains(s[i].0) {
                assert(seq![k][0] == k);
            }
            if s[i].0 == k {
                assert(seq![k][0] == k);
            }
        }
        assert(keys.push(k).contains(s[i].0) <==> keys.contains(s[i].0) || s[i].0 == k) by {
            if keys.push(k).contains(s[i].0) {
                let j = choose|j: int| 0 <= j < keys.push(k).len() && keys.push(k)[j] == s[i].0;
                if j < keys.len() {
                    assert(keys[j] == s[i].0);
                }
            }
            if keys.contains(s[i].0) {
                let j = choose|j: int| 0 <= j < keys.len() && keys[j] == s[i].0;
                assert(keys.push(k)[j] == s[i].0);
            }
            if s[i].0 == k {
                assert(keys.push(k)[keys.len() as int] == k);
            }
        }
    }
    assert(a =~= b);
}

/// What `!queue_share` with the words `w` does to the settings `s` (giving
/// `t`) and answers (`r`), for a message sent in `caller` on `platform`.
pub open spec fn share_outcome(s: Seq<(IdView, ConfigView)>, caller: IdView, w: Seq<Seq<char>>, platform: Platform,
    r: Result<String, BotError>, t: Seq<(IdView, ConfigView)>) -> bool {
    if w.len() == 1 {
        t == s && match config_of(s, caller) {
            Some(c) => r matches Ok(m) && m@ == share_status(s, c),
            None => r matches Err(e) && is_config_missing(e, caller),
        }
    } else if is_off(w[1]) {
        match index_of_key(s, caller) {
            Some(i) => r matches Ok(m) && m@ == "Shared queue DISABLED"@
                && t == s.update(i, (caller, ConfigView { target: KeyView { shared: false, owner: caller }, ..s[i].1 })),
            None => r matches Err(e) && is_config_missing(e, caller) && t == s,
        }
    } else if w.len() < 3 {
        &&& t == s
        &&& r matches Ok(m) && m@ == "Usage: !queue_share twitch:main kick:other1 ... OR !queue_share off"@
    } else if exists|j: int| 1 <= j < w.len() && #[trigger] channel_arg_target(w[j], platform) is Err {
        &&& t == s
        &&& r matches Err(BotError::Custom(m)) && m@ == crate::error::invalid_platform_msg()
    } else {
        let owner = arg_id(w[1], platform);
        let members = Seq::new((w.len() - 2) as nat, |j: int| arg_id(w[j + 2], platform));
        &&& t == share_with(s, owner, seq![owner] + members)
        &&& r matches Ok(m) && m@ == "Shared queue ENABLED\nOwner: "@ + id_view_text(owner) + "\nMembers: "@
            + debug_list(members.map_values(|v: IdView| id_view_text(v)))
    }
}

/// `!queue_share`: without arguments, how `caller`'s queue is shared; with
/// `off`, `caller` gets its own queue back; with two or more channels, the
/// first becomes the owner of a queue that it and the others share (each
/// that has settings). `message` is the whole chat message and `platform`
/// the platform it came from, used for channels given without one.
pub fn queue_share(cfg: &mut BotConfig, caller: &ChannelId, message: &str, platform: Platform) -> (r: Result<String, BotError>)
    requires
        old(cfg).wf(),
        caller.wf(),
        split_ws(message@).len() >= 1,
        split_ws(message@).len() >= 3 && !is_off(split_ws(message@)[1]) ==> share_args_safe(split_ws(message@), platform),
    ensures
        final(cfg).wf(),
        share_outcome(old(cfg)@, caller@, split_ws(message@), platform, r, final(cfg)@),
{
    let words = crate::text::split_whitespace(message);
    let ghost w = split_ws(message@);
    assert(words@[0]@ == w[0]);
    if words.len() == 1 {
        return match cfg.get_channel_config(caller) {
            None => Err(BotError::ConfigMissing(caller.duplicate())),
            Some(c) => {
                match &c.queue_target {
                    QueueKey::Single(_) => Ok("Queue mode: SINGLE".to_owned()),
                    QueueKey::Shared(owner) => {
                        let members = cfg.members_of(owner);
                        let list = debug_strings(&members);
                        Ok(cat3("Queue mode: SHARED\nOwner: ", owner.as_str(), "\nMembers: ").concat(list.as_str()))
                    },
                }
            },
        };
    }
    assert(words@[1]@ == w[1]);
    if eq_ignore_ascii_case(words[1].as_str(), "off") {
        proof {
            reveal_strlit("off");
            assert(ascii_lower_seq("off"@) =~= "off"@);
        }
        return match cfg.lookup(caller) {
            None => Err(BotError::ConfigMissing(caller.duplicate())),
            Some((i, mut c)) => {
                c.queue_target = QueueKey::Single(caller.duplicate());
                cfg.replace_at(i, c);
                Ok("Shared queue DISABLED".to_owned())
            },
        };
    }
    proof {
        reveal_strlit("off");
        assert(ascii_lower_seq("off"@) =~= "off"@);
    }
    if words.len() < 3 {
        return Ok("Usage: !queue_share twitch:main kick:other1 ... OR !queue_share off".to_owned());
    }
    let mut ids: Vec<ChannelId> = Vec::new();
    let mut k: usize = 1;
    let ghost s0 = cfg@;
    while k < words.len()
        invariant
            cfg.wf(),
            cfg@ == s0,
            s0 == old(cfg)@,
            w == split_ws(message@),
            strings_view(words@) == w,
            w.len() >= 3,
            !is_off(w[1]),
            share_args_safe(w, platform),
            1 <= k <= w.len(),
            args_parse_before(w, platform, k as int),
            ids@.len() == k - 1,
            forall|j: int| 0 <= j < ids@.len() ==> (#[trigger] ids@[j])@ == arg_id(w[j + 1], platform) && ids@[j].wf(),
        decreases w.len() - k,
    {
        assert(words@[k as int]@ == w[k as int]);
        assert(channel_arg_target(w[k as int], platform) matches Ok((_, c)) ==> valid_name(c));
        match parse_channel_id(words[k].as_str(), platform) {
            Ok(id) => {
                ids.push(id);
            },
            Err(e) => {
                assert(1 <= k < w.len() && channel_arg_target(w[k as int], platform) is Err);
                return Err(e);
            },
        }
        k = k + 1;
    }
    let owner = ids[0].duplicate();
    let key = QueueKey::Shared(owner.duplicate());
    let ghost s = cfg@;
    let ghost members = Seq::new((w.len() - 2) as nat, |j: int| arg_id(w[j + 2], platform));
    let mut texts: Vec<String> = Vec::new();
    let mut j: usize = 0;
    while j < ids.len()
        invariant
            cfg.wf(),
            key.wf(),
            key@ == (KeyView { shared: true, owner: arg_id(w[1], platform) }),
            members == Seq::new((w.len() - 2) as nat, |j: int| arg_id(w[j + 2], platform)),
            w.len() >= 3,
            ids@.len() == w.len() - 1,
            forall|a: int| 0 <= a < ids@.len() ==> (#[trigger] ids@[a])@ == arg_id(w[a + 1], platform) && ids@[a].wf(),
            j <= ids@.len(),
            cfg@ == share_with(s, arg_id(w[1], platform), Seq::new(j as nat, |a: int| arg_id(w[a + 1], platform))),
            j >= 1 ==> strings_view(texts@) == members.take(j - 1).map_values(|v: IdView| id_view_text(v)),
            j == 0 ==> texts@.len() == 0,
        decreases ids@.len() - j,
    {
        let ghost before = cfg@;
        let ghost prevt = strings_view(texts@);
        cfg.share_one(&ids[j], &key);
        proof {
            let keys = Seq::new(j as nat, |a: int| arg_id(w[a + 1], platform));
            lemma_share_with_push(s, arg_id(w[1], platform), keys, arg_id(w[j + 1], platform));
            assert(keys.push(arg_id(w[j + 1], platform)) =~= Seq::new((j + 1) as nat, |a: int| arg_id(w[a + 1], platform)));
        }
        if j >= 1 {
            let t = ids[j].as_str().to_owned();
            texts.push(t);
            proof {
                let a = members.take(j as int).map_values(|v: IdView| id_view_text(v));
                let b = members.take(j - 1).map_values(|v: IdView| id_view_text(v));
                assert(members[j - 1] == arg_id(w[j + 1], platform));
                assert(t@ == id_view_text(members[j - 1]));
                assert(a.len() == b.len() + 1);
                assert forall|x: int| 0 <= x < a.len() implies a[x] == b.push(t@)[x] by {
                    if x < b.len() {
                        assert(a[x] == id_view_text(members[x]));
                        assert(b[x] == id_view_text(members[x]));
                    }
                }
                assert(a =~= b.push(t@));
                assert(strings_view(texts@) =~= prevt.push(t@));
            }
        } else {
            assert(strings_view(texts@) =~= members.take(0).map_values(|v: IdView| id_view_text(v)));
        }
        j = j + 1;
    }
    proof {
        assert(members.take(members.len() as int) =~= members);
        assert(Seq::new(ids@.len() as nat, |a: int| arg_id(w[a + 1], platform)) =~= seq![arg_id(w[1], platform)] + members);
        assert(!exists|j: int| 1 <= j < w.len() && #[trigger] channel_arg_target(w[j], platform) is Err);
    }
    let list = debug_strings(&texts);
    Ok(cat3("Shared queue ENABLED\nOwner: ", owner.as_str(), "\nMembers: ").concat(list.as_str()))
}

/// Whether `!queue_share` with the words `w` can be carried out: the message
/// has a word, and every channel argument reached names a channel an id can
/// be built for.
pub open spec fn share_request_ok(w: Seq<Seq<char>>, platform: Platform) -> bool {
    w.len() >= 1 && (w.len() >= 3 && !is_off(w[1]) ==> share_args_safe(w, platform))
}

/// `!queue_share` on any message: `None`, with the settings unchanged, when
/// the message has no word or an argument names a channel no id can be
/// built for (an empty name, or one holding `:`); otherwise `queue_share`'s
/// answer.
pub fn queue_share_checked(cfg: &mut BotConfig, caller: &ChannelId, message: &str, platform: Platform) -> (r: Option<Result<String, BotError>>)
    requires
        old(cfg).wf(),
        caller.wf(),
    ensures
        final(cfg).wf(),
        match r {
            None => !share_request_ok(split_ws(message@), platform) && final(cfg)@ == old(cfg)@,
            Some(x) => share_request_ok(split_ws(message@), platform)
                && share_outcome(old(cfg)@, caller@, split_ws(message@), platform, x, final(cfg)@),
        },
{
    let words = crate::text::split_whitespace(message);
    let ghost w = split_ws(message@);
    if words.len() == 0 {
        return None;
    }
    if words.len() >= 3 {
        assert(words@[1]@ == w[1]);
        proof {
            reveal_strlit("off");
            assert(ascii_lower_seq("off"@) =~= "off"@);
        }
        if !eq_ignore_ascii_case(words[1].as_str(), "off") {
            let mut k: usize = 1;
            let mut stopped = false;
            while k < words.len() && !stopped
                invariant
                    cfg.wf(),
                    cfg@ == old(cfg)@,
                    w == split_ws(message@),
                    strings_view(words@) == w,
                    w.len() >= 3,
                    !is_off(w[1]),
                    1 <= k <= w.len(),
                    stopped ==> k < w.len() && channel_arg_target(w[k as int], platform) is Err,
                    args_parse_before(w, platform, k as int),
                    forall|j: int| 1 <= j < k ==> (#[trigger] channel_arg_target(w[j], platform) matches Ok((_, c)) ==> valid_name(c)),
                decreases w.len() - k, (if stopped { 0int } else { 1int }),
            {
                assert(words@[k as int]@ == w[k as int]);
                match crate::platform::try_parse_channel_id(words[k].as_str(), platform) {
                    None => {
                        assert(channel_arg_target(w[k as int], platform) matches Ok((_, c)) && !valid_name(c));
                        assert(!share_args_safe(w, platform));
                        return None;
                    },
                    Some(Err(_)) => {
                        stopped = true;
                    },
                    Some(Ok(_)) => {
                        k = k + 1;
                    },
                }
            }
            assert(share_args_safe(w, platform)) by {
                assert forall|m: int| 1 <= m < w.len() && args_parse_before(w, platform, m) implies
                    (#[trigger] channel_arg_target(w[m], platform) matches Ok((_, c)) ==> valid_name(c)) by {
                    if m > k {
                        assert(channel_arg_target(w[k as int], platform) is Err);
                    }
                }
            }
        }
    }
    Some(queue_share(cfg, caller, message, platform))
}

/// The reply of `!config`: the settings of a channel, one field per part.
pub open spec fn config_summary(k: IdView, c: ConfigView) -> Seq<char> {
    "📋 Channel config for "@ + id_view_text(k)
        + (if c.open { " | Queue: OPEN ✅"@ } else { " | Queue: CLOSED 🚫"@ })
        + (if c.random_queue { " | Mode: RAFFLE 🎲"@ } else { " | Mode: QUEUE 📥"@ })
        + " | Team size: "@ + dec(c.teamsize as nat)
        + " | Max queue size: "@ + dec(c.size as nat)
        + " | Prefix: "@ + c.prefix
        + " | Runs today: "@ + dec(c.runs as nat)
        + (if c.target.shared {
            " | Shared queue: ON | Owner: "@ + id_view_text(c.target.owner)
        } else {
            " | Shared queue: OFF"@
        })
}

/// `!config`: the caller's settings in one line.
pub fn config_command(cfg: &BotConfig, caller: &ChannelId) -> (r: Result<String, BotError>)
    requires
        cfg.wf(),
        caller.wf(),
    ensures
        match config_of(cfg@, caller@) {
            Some(c) => r matches Ok(m) && m@ == config_summary(caller@, c),
            None => r matches Err(e) && is_config_missing(e, caller@),
        },
{
    let c = match cfg.get_channel_config(caller) {
        Some(c) => c,
        None => return Err(BotError::ConfigMissing(caller.duplicate())),
    };
    let mut out = cat2("📋 Channel config for ", caller.as_str());
    out.append(if c.open { " | Queue: OPEN ✅" } else { " | Queue: CLOSED 🚫" });
    out.append(if c.random_queue { " | Mode: RAFFLE 🎲" } else { " | Mode: QUEUE 📥" });
    out.append(" | Team size: ");
    out.append(usize_to_string(c.teamsize).as_str());
    out.append(" | Max queue size: ");
    out.append(usize_to_string(c.size).as_str());
    out.append(" | Prefix: ");
    out.append(c.prefix.as_str());
    out.append(" | Runs today: ");
    out.append(usize_to_string(c.runs).as_str());
    match &c.queue_target {
        QueueKey::Single(_) => {
            out.append(" | Shared queue: OFF");
        },
        QueueKey::Shared(owner) => {
            out.append(" | Shared queue: ON | Owner: ");
            out.append(owner.as_str());
        },
    }
    assert(out@ =~= config_summary(caller@, c@));
    Ok(out)
}

/// `!add_package <package>`: enables a command group (lowercased) for the
/// caller. `None` for a message without a sender (nothing is sent).
pub fn add_package_command(cfg: &mut BotConfig, caller: &ChannelId, has_user: bool, message: &str) -> (r: Result<Option<String>, BotError>)
    requires
        old(cfg).wf(),
        caller.wf(),
    ensures
        final(cfg).wf(),
        ({
            let w = split_ws(message@);
            if !has_user {
                r matches Ok(None) && final(cfg)@ == old(cfg)@
            } else if w.len() != 2 {
                r matches Ok(Some(m)) && m@ == "Usage: !add_package <package>"@ && final(cfg)@ == old(cfg)@
            } else {
                let p = unicode_lowercase(w[1]);
                match index_of_key(old(cfg)@, caller@) {
                    None => r matches Err(e) && is_config_missing(e, caller@) && final(cfg)@ == old(cfg)@,
                    Some(i) => {
                        let c = old(cfg)@[i].1;
                        &&& final(cfg)@ == old(cfg)@.update(i, (caller@, ConfigView {
                            packages: if seq_has(c.packages, p) { c.packages } else { c.packages.push(p) },
                            ..c
                        }))
                        &&& r matches Ok(Some(m)) && m@ == "✅ Package `"@ + p + "` enabled."@
                    },
                }
            }
        }),
{
    if !has_user {
        return Ok(None);
    }
    let parts = crate::text::split_whitespace(message);
    if parts.len() != 2 {
        return Ok(Some("Usage: !add_package <package>".to_owned()));
    }
    assert(parts@[1]@ == split_ws(message@)[1]);
    let package = crate::platform::to_lowercase(parts[1].as_str());
    match cfg.lookup(caller) {
        None => Err(BotError::ConfigMissing(caller.duplicate())),
        Some((i, mut c)) => {
            if !any_equals(&c.packages, package.as_str()) {
                let ghost before = c.packages@;
                c.packages.push(package.clone());
                assert(strings_view(c.packages@) =~= strings_view(before).push(package@));
            }
            cfg.replace_at(i, c);
            Ok(Some(cat3("✅ Package `", package.as_str(), "` enabled.")))
        },
    }
}

} // verus!
