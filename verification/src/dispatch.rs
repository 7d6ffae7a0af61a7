//! Which command a chat message calls: the per-channel table from command
//! names and aliases to commands, and the lookup of a message in it.

use vstd::prelude::*;
use crate::text::{strings_view, str_seq_eq, split_ws, split_whitespace, ascii_lower_seq, to_ascii_lowercase, has_prefix, starts_with, to_chars, string_from_range, cat3};
use crate::permissions::{seq_has, PermissionLevel, permission_text};
use crate::aliases::{AliasConfig, AliasView, pairs_view, key_index, lemma_key_index, map_get, map_insert};
use crate::config::{BotConfig, ConfigView, config_of, default_prefix_spec};
use crate::platform::{ChannelId, IdView};

verus! {

/// A command as a group lists it: its name, what it does, how it is used,
/// who may use it and its default aliases.
pub struct CommandRegistration {
    pub command: String,
    pub description: String,
    pub usage: String,
    pub permission: PermissionLevel,
    pub aliases: Vec<String>,
}

/// A named group of commands (a package a channel can enable).
pub struct CommandGroup {
    pub name: String,
    pub commands: Vec<CommandRegistration>,
}

/// All command groups.
pub struct CommandRegistry {
    pub groups: Vec<CommandGroup>,
}

pub struct RegView {
    pub command: Seq<char>,
    pub description: Seq<char>,
    pub usage: Seq<char>,
    pub permission: PermissionLevel,
    pub aliases: Seq<Seq<char>>,
}

pub struct GroupView {
    pub name: Seq<char>,
    pub commands: Seq<RegView>,
}

impl View for CommandRegistration {
    type V = RegView;

    open spec fn view(&self) -> RegView {
        RegView {
            command: self.command@,
            description: self.description@,
            usage: self.usage@,
            permission: self.permission,
            aliases: strings_view(self.aliases@),
        }
    }
}

impl View for CommandGroup {
    type V = GroupView;

    open spec fn view(&self) -> GroupView {
        GroupView { name: self.name@, commands: self.commands@.map_values(|c: CommandRegistration| c@) }
    }
}

impl View for CommandRegistry {
    type V = Seq<GroupView>;

    open spec fn view(&self) -> Seq<GroupView> {
        self.groups@.map_values(|g: CommandGroup| g@)
    }
}

/// The first group named `name`.
pub open spec fn group_named(gs: Seq<GroupView>, name: Seq<char>) -> Option<GroupView>
    decreases gs.len(),
{
    if gs.len() == 0 {
        None
    } else if gs[0].name == name {
        Some(gs[0])
    } else {
        group_named(gs.skip(1), name)
    }
}

/// The entries a command adds: each of its default aliases that is not
/// switched off, unless the command itself is switched off.
pub open spec fn alias_ops(aliases: Seq<Seq<char>>, command: Seq<char>, a: AliasView) -> Seq<(Seq<char>, Seq<char>)>
    decreases aliases.len(),
{
    if aliases.len() == 0 {
        seq![]
    } else {
        let rest = alias_ops(aliases.drop_last(), command, a);
        if seq_has(a.removed, aliases.last()) {
            rest
        } else {
            rest.push((aliases.last(), command))
        }
    }
}

pub open spec fn command_ops(c: RegView, a: AliasView) -> Seq<(Seq<char>, Seq<char>)> {
    if seq_has(a.disabled, c.command) {
        seq![]
    } else {
        alias_ops(c.aliases, c.command, a)
    }
}

pub open spec fn group_ops(cs: Seq<RegView>, a: AliasView) -> Seq<(Seq<char>, Seq<char>)>
    decreases cs.len(),
{
    if cs.len() == 0 {
        seq![]
    } else {
        group_ops(cs.drop_last(), a) + command_ops(cs.last(), a)
    }
}

/// The entries of the enabled packages, in order; a package is looked up by
/// its ASCII-lowercased name.
pub open spec fn package_ops(ps: Seq<Seq<char>>, gs: Seq<GroupView>, a: AliasView) -> Seq<(Seq<char>, Seq<char>)>
    decreases ps.len(),
{
    if ps.len() == 0 {
        seq![]
    } else {
        package_ops(ps.drop_last(), gs, a) + match group_named(gs, ascii_lower_seq(ps.last())) {
            Some(g) => group_ops(g.commands, a),
            None => seq![],
        }
    }
}

/// The table after the entries `ops` are set in turn.
pub open spec fn apply_inserts(m: Seq<(Seq<char>, Seq<char>)>, ops: Seq<(Seq<char>, Seq<char>)>) -> Seq<(Seq<char>, Seq<char>)>
    decreases ops.len(),
{
    if ops.len() == 0 {
        m
    } else {
        let m1 = apply_inserts(m, ops.drop_last());
        map_insert(m1, ops.last().0, ops.last().1)
    }
}

/// Custom aliases applied in turn: each takes the command its target names
/// in the table so far, if it names one.
pub open spec fn apply_custom(m: Seq<(Seq<char>, Seq<char>)>, custom: Seq<(Seq<char>, Seq<char>)>) -> Seq<(Seq<char>, Seq<char>)>
    decreases custom.len(),
{
    if custom.len() == 0 {
        m
    } else {
        let m1 = apply_custom(m, custom.drop_last());
        match map_get(m1, custom.last().1) {
            Some(c) => map_insert(m1, custom.last().0, c),
            None => m1,
        }
    }
}

/// The command table of a channel with packages `ps`.
pub open spec fn command_table(ps: Seq<Seq<char>>, gs: Seq<GroupView>, a: AliasView) -> Seq<(Seq<char>, Seq<char>)> {
    apply_custom(apply_inserts(seq![], package_ops(ps, gs, a)), a.aliases)
}

proof fn lemma_apply_inserts_concat(m: Seq<(Seq<char>, Seq<char>)>, a: Seq<(Seq<char>, Seq<char>)>, b: Seq<(Seq<char>, Seq<char>)>)
    ensures
        apply_inserts(m, a + b) == apply_inserts(apply_inserts(m, a), b),
    decreases b.len(),
{
    if b.len() == 0 {
        assert(a + b =~= a);
    } else {
        assert((a + b).drop_last() =~= a + b.drop_last());
        assert((a + b).last() == b.last());
        lemma_apply_inserts_concat(m, a, b.drop_last());
    }
}

/// Sets `k` to `v` in a table.
fn table_insert(m: &mut Vec<(String, String)>, k: String, v: String)
    ensures
        pairs_view(final(m)@) == map_insert(pairs_view(old(m)@), k@, v@),
{
    let mut found: Option<usize> = None;
    let mut i: usize = 0;
    while i < m.len()
        invariant
            i <= m@.len(),
            match found {
                Some(j) => key_index(pairs_view(m@).take(i as int), k@) == j,
                None => key_index(pairs_view(m@).take(i as int), k@) == -1,
            },
        decreases m@.len() - i,
    {
        let ghost t = pairs_view(m@).take(i + 1);
        assert(t.drop_last() =~= pairs_view(m@).take(i as int));
        assert(t.last() == pairs_view(m@)[i as int]);
        if str_seq_eq(m[i].0.as_str(), k.as_str()) {
            found = Some(i);
        }
        i = i + 1;
    }
    assert(pairs_view(m@).take(m@.len() as int) =~= pairs_view(m@));
    proof {
        lemma_key_index(pairs_view(m@), k@);
    }
    let ghost before = m@;
    match found {
        Some(j) => {
            m.set(j, (k, v));
            assert(pairs_view(m@) =~= pairs_view(before).update(j as int, (k@, v@)));
        },
        None => {
            m.push((k, v));
            assert(pairs_view(m@) =~= pairs_view(before).push((k@, v@)));
        },
    }
}

/// The value for `k` in a table.
fn table_get(m: &Vec<(String, String)>, k: &str) -> (r: Option<String>)
    ensures
        match r {
            Some(x) => map_get(pairs_view(m@), k@) == Some(x@),
            None => map_get(pairs_view(m@), k@) is None,
        },
{
    let mut found: Option<usize> = None;
    let mut i: usize = 0;
    while i < m.len()
        invariant
            i <= m@.len(),
            match found {
                Some(j) => key_index(pairs_view(m@).take(i as int), k@) == j,
                None => key_index(pairs_view(m@).take(i as int), k@) == -1,
            },
        decreases m@.len() - i,
    {
        let ghost t = pairs_view(m@).take(i + 1);
        assert(t.drop_last() =~= pairs_view(m@).take(i as int));
        assert(t.last() == pairs_view(m@)[i as int]);
        if str_seq_eq(m[i].0.as_str(), k) {
            found = Some(i);
        }
        i = i + 1;
    }
    assert(pairs_view(m@).take(m@.len() as int) =~= pairs_view(m@));
    proof {
        lemma_key_index(pairs_view(m@), k@);
    }
    match found {
        Some(j) => {
            assert(pairs_view(m@)[j as int] == (m@[j as int].0@, m@[j as int].1@));
            Some(m[j].1.clone())
        },
        None => None,
    }
}

impl CommandRegistry {
    /// The first group named `name`.
    fn group(&self, name: &str) -> (r: Option<&CommandGroup>)
        ensures
            match r {
                Some(g) => group_named(self@, name@) == Some(g@),
                None => group_named(self@, name@) is None,
            },
    {
        let mut i: usize = 0;
        assert(self@.skip(0) =~= self@);
        while i < self.groups.len()
            invariant
                i <= self@.len(),
                self@.len() == self.groups@.len(),
                group_named(self@, name@) == group_named(self@.skip(i as int), name@),
            decreases self@.len() - i,
        {
            assert(self@.skip(i as int)[0] == self.groups@[i as int]@);
            assert(self@.skip(i as int).skip(1) =~= self@.skip(i + 1));
            if str_seq_eq(self.groups[i].name.as_str(), name) {
                return Some(&self.groups[i]);
            }
            i = i + 1;
        }
        None
    }

    /// The command table of a channel whose enabled packages are `packages`:
    /// the default aliases of the packages' commands (skipping switched-off
    /// commands and aliases, later entries overriding earlier ones), then the
    /// channel's custom aliases, each taking the command its target names.
    pub fn build_for_channel(&self, packages: &Vec<String>, alias_cfg: &AliasConfig) -> (r: Vec<(String, String)>)
        ensures
            pairs_view(r@) == command_table(strings_view(packages@), self@, alias_cfg@),
    {
        let ghost a = alias_cfg@;
        let ghost ps = strings_view(packages@);
        let mut map: Vec<(String, String)> = Vec::new();
        let mut i: usize = 0;
        while i < packages.len()
            invariant
                a == alias_cfg@,
                ps == strings_view(packages@),
                i <= packages@.len(),
                pairs_view(map@) == apply_inserts(seq![], package_ops(ps.take(i as int), self@, a)),
            decreases packages@.len() - i,
        {
            let ghost m0 = pairs_view(map@);
            assert(ps.take(i + 1).drop_last() =~= ps.take(i as int));
            assert(ps.take(i + 1).last() == packages@[i as int]@);
            let lower = to_ascii_lowercase(packages[i].as_str());
            match self.group(lower.as_str()) {
                None => {
                    assert(package_ops(ps.take(i + 1), self@, a) =~= package_ops(ps.take(i as int), self@, a));
                },
                Some(g) => {
                    let ghost cs = g@.commands;
                    let mut j: usize = 0;
                    while j < g.commands.len()
                        invariant
                            a == alias_cfg@,
                            cs == g@.commands,
                            j <= g.commands@.len(),
                            pairs_view(map@) == apply_inserts(m0, group_ops(cs.take(j as int), a)),
                        decreases g.commands@.len() - j,
                    {
                        let ghost m1 = pairs_view(map@);
                        let reg = &g.commands[j];
                        assert(cs.take(j + 1).drop_last() =~= cs.take(j as int));
                        assert(cs.take(j + 1).last() == reg@);
                        proof {
                            lemma_apply_inserts_concat(m0, group_ops(cs.take(j as int), a), command_ops(reg@, a));
                        }
                        if alias_cfg.is_disabled(reg.command.as_str()) {
                            assert(command_ops(reg@, a) =~= Seq::<(Seq<char>, Seq<char>)>::empty());
                        } else {
                            let ghost al = reg@.aliases;
                            let mut k: usize = 0;
                            while k < reg.aliases.len()
                                invariant
                                    a == alias_cfg@,
                                    al == reg@.aliases,
                                    k <= reg.aliases@.len(),
                                    pairs_view(map@) == apply_inserts(m1, alias_ops(al.take(k as int), reg@.command, a)),
                                decreases reg.aliases@.len() - k,
                            {
                                assert(al.take(k + 1).drop_last() =~= al.take(k as int));
                                assert(al.take(k + 1).last() == reg.aliases@[k as int]@);
                                let ghost ops = alias_ops(al.take(k as int), reg@.command, a);
                                if !alias_cfg.get_removed_aliases(reg.aliases[k].as_str()) {
                                    proof {
                                        let x = (al[k as int], reg@.command);
                                        assert(alias_ops(al.take(k + 1), reg@.command, a) == ops.push(x));
                                        assert(ops.push(x).drop_last() =~= ops);
                                        assert(ops.push(x).last() == x);
                                    }
                                    table_insert(&mut map, reg.aliases[k].clone(), reg.command.clone());
                                } else {
                                    assert(alias_ops(al.take(k + 1), reg@.command, a) == ops);
                                }
                                k = k + 1;
                            }
                            assert(al.take(al.len() as int) =~= al);
                        }
                        j = j + 1;
                    }
                    assert(cs.take(cs.len() as int) =~= cs);
                    proof {
                        lemma_apply_inserts_concat(seq![], package_ops(ps.take(i as int), self@, a), group_ops(cs, a));
                    }
                },
            }
            i = i + 1;
        }
        assert(ps.take(ps.len() as int) =~= ps);
        let ghost base = pairs_view(map@);
        let custom = alias_cfg.alias_entries();
        let mut c: usize = 0;
        while c < custom.len()
            invariant
                a == alias_cfg@,
                pairs_view(custom@) == a.aliases,
                c <= custom@.len(),
                pairs_view(map@) == apply_custom(base, a.aliases.take(c as int)),
            decreases custom@.len() - c,
        {
            assert(a.aliases.take(c + 1).drop_last() =~= a.aliases.take(c as int));
            assert(a.aliases.take(c + 1).last() == (custom@[c as int].0@, custom@[c as int].1@));
            match table_get(&map, custom[c].1.as_str()) {
                Some(cmd) => {
                    table_insert(&mut map, custom[c].0.clone(), cmd);
                },
                None => {},
            }
            c = c + 1;
        }
        assert(a.aliases.take(a.aliases.len() as int) =~= a.aliases);
        map
    }
}

/// `s` with every leading `p` removed (`str::trim_start_matches(p)`).
pub open spec fn trim_prefix_all(s: Seq<char>, p: Seq<char>) -> Seq<char>
    decreases s.len(),
{
    if p.len() > 0 && has_prefix(s, p) {
        trim_prefix_all(s.skip(p.len() as int), p)
    } else {
        s
    }
}

/// The command name a message calls under `prefix`: `None` when it does not
/// start with the prefix, else the first word after the prefix (repeated
/// prefixes dropped), or the empty name.
pub open spec fn command_name_spec(message: Seq<char>, prefix: Seq<char>) -> Option<Seq<char>> {
    if !has_prefix(message, prefix) {
        None
    } else {
        let w = split_ws(trim_prefix_all(message, prefix));
        Some(if w.len() > 0 { w[0] } else { seq![] })
    }
}

/// The prefix of a channel: its own, or `!` without settings.
pub open spec fn channel_prefix(cfg: Seq<(IdView, ConfigView)>, k: IdView) -> Seq<char> {
    match config_of(cfg, k) {
        Some(c) => c.prefix,
        None => default_prefix_spec(),
    }
}

/// `s` with all leading `p` removed.
fn trim_start_matches_str(s: &str, p: &str) -> (r: String)
    ensures
        r@ == trim_prefix_all(s@, p@),
{
    let v = to_chars(s);
    let pl = p.unicode_len();
    let mut i: usize = 0;
    assert(v@.skip(0) =~= v@);
    loop
        invariant
            v@ == s@,
            pl == p@.len(),
            i <= v@.len(),
            trim_prefix_all(s@, p@) == trim_prefix_all(v@.skip(i as int), p@),
        decreases v@.len() - i,
    {
        let rest = string_from_range(&v, i, v.len());
        assert(rest@ =~= v@.skip(i as int));
        if pl > 0 && starts_with(rest.as_str(), p) {
            assert(v@.skip(i as int).skip(pl as int) =~= v@.skip(i + pl));
            i = i + pl;
        } else {
            return rest;
        }
    }
}

/// The command a message calls in a channel, by name in the table:
/// `None` when the message does not start with the channel's prefix or names
/// no command.
pub fn command_for_message(cfg: &BotConfig, channel: &ChannelId, table: &Vec<(String, String)>, message: &str) -> (r: Option<String>)
    requires
        cfg.wf(),
    ensures
        match command_name_spec(message@, channel_prefix(cfg@, channel@)) {
            None => r is None,
            Some(n) => match map_get(pairs_view(table@), n) {
                Some(c) => r matches Some(x) && x@ == c,
                None => r is None,
            },
        },
{
    let prefix = match cfg.get_channel_config(channel) {
        Some(c) => c.prefix.clone(),
        None => crate::config::default_prefix(),
    };
    if !starts_with(message, prefix.as_str()) {
        return None;
    }
    let rest = trim_start_matches_str(message, prefix.as_str());
    let words = split_whitespace(rest.as_str());
    let name = if words.len() > 0 {
        assert(words@[0]@ == split_ws(rest@)[0]);
        words[0].clone()
    } else {
        String::new()
    };
    table_get(table, name.as_str())
}

/// The reply to a sender whose level is too low for a command.
pub fn permission_denied_reply(required: PermissionLevel) -> (r: String)
    ensures
        r@ == "You need to be "@ + permission_text(required) + " to use this command"@,
{
    cat3("You need to be ", required.to_display_string().as_str(), " to use this command")
}

/// A command made of a handler and its description: what the dispatcher
/// shows and checks before running the handler.
pub struct FnCommand<F> {
    func: F,
    desc: String,
    usage: String,
    name: String,
    permission: PermissionLevel,
}

impl<F> FnCommand<F> {
    pub fn new(func: F, desc: String, usage: String, name: String, permission: PermissionLevel) -> (r: FnCommand<F>)
        ensures
            r.func() == func,
            r.description_spec() == desc@,
            r.usage_spec() == usage@,
            r.name_spec() == name@,
            r.permission_spec() == permission,
    {
        FnCommand { func, desc, usage, name, permission }
    }

    pub closed spec fn func(&self) -> F {
        self.func
    }

    pub closed spec fn description_spec(&self) -> Seq<char> {
        self.desc@
    }

    pub closed spec fn usage_spec(&self) -> Seq<char> {
        self.usage@
    }

    pub closed spec fn name_spec(&self) -> Seq<char> {
        self.name@
    }

    pub closed spec fn permission_spec(&self) -> PermissionLevel {
        self.permission
    }

    /// The handler.
    pub fn handler(&self) -> (r: &F)
        ensures
            *r == self.func(),
    {
        &self.func
    }

    pub fn name(&self) -> (r: &str)
        ensures
            r@ == self.name_spec(),
    {
        self.name.as_str()
    }

    pub fn description(&self) -> (r: &str)
        ensures
            r@ == self.description_spec(),
    {
        self.desc.as_str()
    }

    pub fn usage(&self) -> (r: &str)
        ensures
            r@ == self.usage_spec(),
    {
        self.usage.as_str()
    }

    pub fn permission(&self) -> (r: PermissionLevel)
        ensures
            r == self.permission_spec(),
    {
        self.permission
    }
}

/// A registration's view from its texts.
pub open spec fn reg_spec(command: &str, description: &str, usage: &str, permission: PermissionLevel, aliases: Seq<&str>) -> RegView {
    RegView {
        command: command@,
        description: description@,
        usage: usage@,
        permission,
        aliases: aliases.map_values(|a: &str| a@),
    }
}

/// The commands of the `queue` package, in order.
pub open spec fn queue_commands() -> Seq<RegView> {
    seq![
        reg_spec("join", "Join the queue", "!join", PermissionLevel::Everyone, seq!["j", "q", "queue"]),
        reg_spec("next", "Get the next user in the queue", "!next", PermissionLevel::Broadcaster, seq!["next"]),
        reg_spec("add", "Force add a user to the queue", "!add @twitchname BungieName#1234", PermissionLevel::Moderator, seq!["add"]),
        reg_spec("queue_len", "Change the lenght of queue", "!queue_len number", PermissionLevel::Moderator, seq!["queue_len", "len"]),
        reg_spec("queue_size", "Update size of group", "!queue_size number", PermissionLevel::Moderator, seq!["queue_size", "size"]),
        reg_spec("list", "Shows the queue list or site", "!list, !queue", PermissionLevel::Everyone, seq!["list"]),
        reg_spec("Random", "Raffle Mode", "", PermissionLevel::Moderator, seq!["random"]),
        reg_spec("open", "Open queue", "!open", PermissionLevel::Moderator, seq!["open", "open_queue"]),
        reg_spec("close", "Close queue", "!close", PermissionLevel::Moderator, seq!["close", "close_queue"]),
        reg_spec("queue_share", "Manage shared queue (enable / disable / status)", "!queue_share", PermissionLevel::Moderator, seq!["queue_share", "share"]),
        reg_spec("leave", "Leave the queue", "!leave", PermissionLevel::Everyone, seq!["leave"]),
        reg_spec("move", "Move user to next group", "!move <user>", PermissionLevel::Moderator, seq!["move"]),
        reg_spec("remove", "Remove user from queue", "!remove <user>", PermissionLevel::Moderator, seq!["remove"]),
        reg_spec("prio", "Give priority or move to second group", "!prio <user> [runs]", PermissionLevel::Moderator, seq!["prio", "bribe"]),
        reg_spec("position", "Show position in queue", "!pos", PermissionLevel::Everyone, seq!["pos", "position"]),
    ]
}

/// The commands of the `moderation` package, in order.
pub open spec fn moderation_commands() -> Seq<RegView> {
    seq![
        reg_spec("alias", "Add or remove command aliases", "!alias add <alias> <command> | !alias remove <alias>", PermissionLevel::Moderator, seq!["alias"]),
        reg_spec("add_package", "Enable a command package", "!add_package <package>", PermissionLevel::Moderator, seq!["add_package"]),
        reg_spec("connect", "Connect bot to another channel", "!connect <platform:channel>", PermissionLevel::Broadcaster, seq!["connect"]),
        reg_spec("config", "Show channel configuration", "!config", PermissionLevel::Moderator, seq!["config", "mod_config"]),
    ]
}

/// The packages the bot offers: `queue`, then `moderation`.
pub open spec fn default_groups() -> Seq<GroupView> {
    seq![
        GroupView { name: "queue"@, commands: queue_commands() },
        GroupView { name: "moderation"@, commands: moderation_commands() },
    ]
}

/// One registration from its texts.
fn registration(command: &str, description: &str, usage: &str, permission: PermissionLevel, aliases: Vec<&str>) -> (r: CommandRegistration)
    ensures
        r@ == reg_spec(command, description, usage, permission, aliases@),
{
    let mut v: Vec<String> = Vec::new();
    let mut i: usize = 0;
    while i < aliases.len()
        invariant
            i <= aliases@.len(),
            strings_view(v@) == aliases@.take(i as int).map_values(|a: &str| a@),
        decreases aliases@.len() - i,
    {
        let ghost prev = strings_view(v@);
        let a = aliases[i].to_owned();
        v.push(a);
        assert(strings_view(v@) =~= prev.push(a@));
        assert(aliases@.take(i + 1).map_values(|a: &str| a@) =~= aliases@.take(i as int).map_values(|a: &str| a@).push(aliases@[i as int]@));
        i = i + 1;
    }
    assert(aliases@.take(aliases@.len() as int) =~= aliases@);
    CommandRegistration {
        command: command.to_owned(),
        description: description.to_owned(),
        usage: usage.to_owned(),
        permission,
        aliases: v,
    }
}

fn queue_group() -> (r: CommandGroup)
    ensures
        r@ == (GroupView { name: "queue"@, commands: queue_commands() }),
{
    let mut cmds: Vec<CommandRegistration> = Vec::new();
    let a = vec!["j", "q", "queue"];
    assert(a@ =~= seq!["j", "q", "queue"]);
    cmds.push(registration("join", "Join the queue", "!join", PermissionLevel::Everyone, a));
    let a = vec!["next"];
    assert(a@ =~= seq!["next"]);
    cmds.push(registration("next", "Get the next user in the queue", "!next", PermissionLevel::Broadcaster, a));
    let a = vec!["add"];
    assert(a@ =~= seq!["add"]);
    cmds.push(registration("add", "Force add a user to the queue", "!add @twitchname BungieName#1234", PermissionLevel::Moderator, a));
    let a = vec!["queue_len", "len"];
    assert(a@ =~= seq!["queue_len", "len"]);
    cmds.push(registration("queue_len", "Change the lenght of queue", "!queue_len number", PermissionLevel::Moderator, a));
    let a = vec!["queue_size", "size"];
    assert(a@ =~= seq!["queue_size", "size"]);
    cmds.push(registration("queue_size", "Update size of group", "!queue_size number", PermissionLevel::Moderator, a));
    let a = vec!["list"];
    assert(a@ =~= seq!["list"]);
    cmds.push(registration("list", "Shows the queue list or site", "!list, !queue", PermissionLevel::Everyone, a));
    let a = vec!["random"];
    assert(a@ =~= seq!["random"]);
    cmds.push(registration("Random", "Raffle Mode", "", PermissionLevel::Moderator, a));
    let a = vec!["open", "open_queue"];
    assert(a@ =~= seq!["open", "open_queue"]);
    cmds.push(registration("open", "Open queue", "!open", PermissionLevel::Moderator, a));
    let a = vec!["close", "close_queue"];
    assert(a@ =~= seq!["close", "close_queue"]);
    cmds.push(registration("close", "Close queue", "!close", PermissionLevel::Moderator, a));
    let a = vec!["queue_share", "share"];
    assert(a@ =~= seq!["queue_share", "share"]);
    cmds.push(registration("queue_share", "Manage shared queue (enable / disable / status)", "!queue_share", PermissionLevel::Moderator, a));
    let a = vec!["leave"];
    assert(a@ =~= seq!["leave"]);
    cmds.push(registration("leave", "Leave the queue", "!leave", PermissionLevel::Everyone, a));
    let a = vec!["move"];
    assert(a@ =~= seq!["move"]);
    cmds.push(registration("move", "Move user to next group", "!move <user>", PermissionLevel::Moderator, a));
    let a = vec!["remove"];
    assert(a@ =~= seq!["remove"]);
    cmds.push(registration("remove", "Remove user from queue", "!remove <user>", PermissionLevel::Moderator, a));
    let a = vec!["prio", "bribe"];
    assert(a@ =~= seq!["prio", "bribe"]);
    cmds.push(registration("prio", "Give priority or move to second group", "!prio <user> [runs]", PermissionLevel::Moderator, a));
    let a = vec!["pos", "position"];
    assert(a@ =~= seq!["pos", "position"]);
    cmds.push(registration("position", "Show position in queue", "!pos", PermissionLevel::Everyone, a));
    let r = CommandGroup { name: "queue".to_owned(), commands: cmds };
    assert(r@.commands =~= queue_commands());
    r
}

fn moderation_group() -> (r: CommandGroup)
    ensures
        r@ == (GroupView { name: "moderation"@, commands: moderation_commands() }),
{
    let mut cmds: Vec<CommandRegistration> = Vec::new();
    let a = vec!["alias"];
    assert(a@ =~= seq!["alias"]);
    cmds.push(registration("alias", "Add or remove command aliases", "!alias add <alias> <command> | !alias remove <alias>", PermissionLevel::Moderator, a));
    let a = vec!["add_package"];
    assert(a@ =~= seq!["add_package"]);
    cmds.push(registration("add_package", "Enable a command package", "!add_package <package>", PermissionLevel::Moderator, a));
    let a = vec!["connect"];
    assert(a@ =~= seq!["connect"]);
    cmds.push(registration("connect", "Connect bot to another channel", "!connect <platform:channel>", PermissionLevel::Broadcaster, a));
    let a = vec!["config", "mod_config"];
    assert(a@ =~= seq!["config", "mod_config"]);
    cmds.push(registration("config", "Show channel configuration", "!config", PermissionLevel::Moderator, a));
    let r = CommandGroup { name: "moderation".to_owned(), commands: cmds };
    assert(r@.commands =~= moderation_commands());
    r
}

/// Every registration of the groups, in order.
pub open spec fn all_regs(gs: Seq<GroupView>) -> Seq<RegView>
    decreases gs.len(),
{
    if gs.len() == 0 {
        seq![]
    } else {
        all_regs(gs.drop_last()) + gs.last().commands
    }
}

proof fn lemma_all_regs_append(a: Seq<GroupView>, b: Seq<GroupView>)
    ensures
        all_regs(a + b) == all_regs(a) + all_regs(b),
    decreases b.len(),
{
    if b.len() == 0 {
        assert(a + b =~= a);
        assert(all_regs(a) + all_regs(b) =~= all_regs(a));
    } else {
        lemma_all_regs_append(a, b.drop_last());
        assert((a + b).drop_last() =~= a + b.drop_last());
        assert((a + b).last() == b.last());
        assert(all_regs(a) + all_regs(b) =~= all_regs(a) + all_regs(b.drop_last()) + b.last().commands);
    }
}

/// The index of the first registration of command `name`, or -1.
pub open spec fn first_reg(rs: Seq<RegView>, name: Seq<char>) -> int
    decreases rs.len(),
{
    if rs.len() == 0 {
        -1
    } else if first_reg(rs.drop_last(), name) >= 0 {
        first_reg(rs.drop_last(), name)
    } else if rs.last().command == name {
        rs.len() - 1
    } else {
        -1
    }
}

proof fn lemma_first_reg(rs: Seq<RegView>, name: Seq<char>)
    ensures
        -1 <= first_reg(rs, name) < rs.len(),
        first_reg(rs, name) >= 0 ==> rs[first_reg(rs, name)].command == name,
        forall|j: int| 0 <= j < rs.len() && (first_reg(rs, name) < 0 || j < first_reg(rs, name)) ==> #[trigger] rs[j].command != name,
    decreases rs.len(),
{
    if rs.len() > 0 {
        lemma_first_reg(rs.drop_last(), name);
        assert forall|j: int| 0 <= j < rs.len() - 1 implies #[trigger] rs[j] == rs.drop_last()[j] by {}
    }
}

proof fn lemma_first_reg_prefix(a: Seq<RegView>, b: Seq<RegView>, name: Seq<char>)
    requires
        first_reg(a, name) >= 0,
    ensures
        first_reg(a + b, name) == first_reg(a, name),
    decreases b.len(),
{
    if b.len() == 0 {
        assert(a + b =~= a);
    } else {
        lemma_first_reg_prefix(a, b.drop_last(), name);
        assert((a + b).drop_last() =~= a + b.drop_last());
    }
}

proof fn lemma_first_reg_none(a: Seq<RegView>, name: Seq<char>)
    requires
        forall|j: int| 0 <= j < a.len() ==> #[trigger] a[j].command != name,
    ensures
        first_reg(a, name) == -1,
    decreases a.len(),
{
    if a.len() > 0 {
        assert forall|j: int| 0 <= j < a.len() - 1 implies #[trigger] a.drop_last()[j].command != name by {
            assert(a.drop_last()[j] == a[j]);
        }
        lemma_first_reg_none(a.drop_last(), name);
    }
}

impl CommandRegistry {
    /// The packages the bot offers (see `default_groups`).
    pub fn new() -> (r: CommandRegistry)
        ensures
            r@ == default_groups(),
    {
        let mut groups: Vec<CommandGroup> = Vec::new();
        groups.push(queue_group());
        groups.push(moderation_group());
        let r = CommandRegistry { groups };
        assert(r@ =~= default_groups());
        r
    }

    /// The first registration of the command `name` in any group.
    pub fn find_command(&self, name: &str) -> (r: Option<&CommandRegistration>)
        ensures
            ({
                let rs = all_regs(self@);
                let i = first_reg(rs, name@);
                match r {
                    Some(c) => i >= 0 && c@ == rs[i],
                    None => i < 0,
                }
            }),
    {
        let ghost gs = self@;
        let mut g: usize = 0;
        while g < self.groups.len()
            invariant
                gs == self@,
                gs.len() == self.groups@.len(),
                g <= gs.len(),
                forall|j: int| 0 <= j < all_regs(gs.take(g as int)).len() ==> #[trigger] all_regs(gs.take(g as int))[j].command != name@,
            decreases gs.len() - g,
        {
            let group = &self.groups[g];
            let ghost before = all_regs(gs.take(g as int));
            let ghost cs = group@.commands;
            assert(gs[g as int] == group@);
            assert(gs.take(g + 1).drop_last() =~= gs.take(g as int));
            assert(all_regs(gs.take(g + 1)) == before + cs);
            let mut c: usize = 0;
            while c < group.commands.len()
                invariant
                    gs == self@,
                    gs.len() == self.groups@.len(),
                    g < gs.len(),
                    gs[g as int] == group@,
                    before == all_regs(gs.take(g as int)),
                    all_regs(gs.take(g + 1)) == before + cs,
                    cs == group@.commands,
                    cs.len() == group.commands@.len(),
                    c <= cs.len(),
                    forall|j: int| 0 <= j < before.len() ==> #[trigger] before[j].command != name@,
                    forall|j: int| 0 <= j < c ==> #[trigger] cs[j].command != name@,
                decreases cs.len() - c,
            {
                assert(cs[c as int] == group.commands@[c as int]@);
                if str_seq_eq(group.commands[c].command.as_str(), name) {
                    proof {
                        let a = before + cs.take(c as int);
                        assert forall|j: int| 0 <= j < a.len() implies #[trigger] a[j].command != name@ by {
                            if j >= before.len() {
                                assert(a[j] == cs[j - before.len()]);
                            }
                        }
                        lemma_first_reg_none(a, name@);
                        let a1 = before + cs.take(c + 1);
                        assert(a1.drop_last() =~= a);
                        assert(a1.last() == cs[c as int]);
                        assert(first_reg(a1, name@) == a1.len() - 1);
                        let rest = cs.skip(c + 1);
                        assert(before + cs =~= a1 + rest);
                        lemma_first_reg_prefix(a1, rest, name@);
                        lemma_all_regs_append(gs.take(g + 1), gs.skip(g + 1));
                        assert(gs.take(g + 1) + gs.skip(g + 1) =~= gs);
                        lemma_first_reg_prefix(before + cs, all_regs(gs.skip(g + 1)), name@);
                        assert((before + cs)[a1.len() - 1] == cs[c as int]);
                        lemma_first_reg(all_regs(gs), name@);
                        assert(all_regs(gs)[a1.len() - 1] == (before + cs)[a1.len() - 1]);
                    }
                    return Some(&group.commands[c]);
                }
                c = c + 1;
            }
            proof {
                assert(cs.take(cs.len() as int) =~= cs);
                assert forall|j: int| 0 <= j < all_regs(gs.take(g + 1)).len() implies #[trigger] all_regs(gs.take(g + 1))[j].command != name@ by {
                    if j >= before.len() {
                        assert(all_regs(gs.take(g + 1))[j] == cs[j - before.len()]);
                    } else {
                        assert(all_regs(gs.take(g + 1))[j] == before[j]);
                    }
                }
            }
            g = g + 1;
        }
        proof {
            assert(gs.take(gs.len() as int) =~= gs);
            lemma_first_reg_none(all_regs(gs), name@);
        }
        None
    }
}

/// A command as the dock lists it.
pub struct ObsCommandInfo {
    pub name: String,
    pub description: String,
    pub default_aliases: Vec<String>,
}

/// Every command of every group, in order.
pub open spec fn all_registrations(gs: Seq<CommandGroup>) -> Seq<CommandRegistration>
    decreases gs.len(),
{
    if gs.len() == 0 {
        seq![]
    } else {
        all_registrations(gs.drop_last()) + gs.last().commands@
    }
}

/// Whether `info` lists registration `reg`.
pub open spec fn lists(info: ObsCommandInfo, reg: CommandRegistration) -> bool {
    info.name@ == reg.command@ && info.description@ == reg.description@
        && strings_view(info.default_aliases@) == strings_view(reg.aliases@)
}

fn copy_strings(v: &Vec<String>) -> (r: Vec<String>)
    ensures
        strings_view(r@) == strings_view(v@),
{
    let mut out: Vec<String> = Vec::new();
    let mut i: usize = 0;
    while i < v.len()
        invariant
            i <= v@.len(),
            strings_view(out@) == strings_view(v@).take(i as int),
        decreases v@.len() - i,
    {
        let ghost prev = strings_view(out@);
        let c = v[i].clone();
        out.push(c);
        assert(strings_view(out@) =~= prev.push(c@));
        assert(strings_view(v@).take(i + 1) =~= strings_view(v@).take(i as int).push(v@[i as int]@));
        i = i + 1;
    }
    assert(strings_view(v@).take(v@.len() as int) =~= strings_view(v@));
    out
}

impl CommandRegistry {
    /// Every command of every group, as the dock lists them.
    pub fn all_commands_for_obs(&self) -> (r: Vec<ObsCommandInfo>)
        ensures
            r@.len() == all_registrations(self.groups@).len(),
            forall|i: int| 0 <= i < r@.len() ==> lists(#[trigger] r@[i], all_registrations(self.groups@)[i]),
    {
        let mut out: Vec<ObsCommandInfo> = Vec::new();
        let mut g: usize = 0;
        while g < self.groups.len()
            invariant
                g <= self.groups@.len(),
                out@.len() == all_registrations(self.groups@.take(g as int)).len(),
                forall|i: int| 0 <= i < out@.len() ==> lists(#[trigger] out@[i], all_registrations(self.groups@.take(g as int))[i]),
            decreases self.groups@.len() - g,
        {
            let ghost before = all_registrations(self.groups@.take(g as int));
            assert(self.groups@.take(g + 1).drop_last() =~= self.groups@.take(g as int));
            assert(self.groups@.take(g + 1).last() == self.groups@[g as int]);
            let group = &self.groups[g];
            let mut c: usize = 0;
            while c < group.commands.len()
                invariant
                    c <= group.commands@.len(),
                    out@.len() == before.len() + c,
                    forall|i: int| 0 <= i < out@.len() ==> lists(#[trigger] out@[i], (before + group.commands@)[i]),
                decreases group.commands@.len() - c,
            {
                let reg = &group.commands[c];
                let info = ObsCommandInfo {
                    name: reg.command.clone(),
                    description: reg.description.clone(),
                    default_aliases: copy_strings(&reg.aliases),
                };
                out.push(info);
                c = c + 1;
            }
            g = g + 1;
        }
        assert(self.groups@.take(self.groups@.len() as int) =~= self.groups@);
        out
    }
}

} // verus!
