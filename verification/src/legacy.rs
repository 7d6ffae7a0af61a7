//! Chat commands of the bot's first command set: message templates, queue
//! bans, custom aliases and points changes.

use vstd::prelude::*;
use crate::text::{split_ascii_ws, split_ascii_whitespace, strip_one_char, strip_one_char_prefix, strings_view, join, join_spec, parse_in_range, parse_u32, parse_i64, str_seq_eq, cat2, cat3, cat5, dec, dec_int, u64_to_string, i64_to_string, replace_all, replace_str, after_first, text_after_first, trim, trim_ws};
use crate::platform::{to_lowercase, unicode_lowercase};
use crate::permissions::PermissionLevel;
use crate::aliases::{AliasConfig, AliasView, map_insert, map_remove};
use crate::giveaway::{PointsLedger, amount_of, set_amount};

verus! {

/// A name with one leading `@` dropped.
pub fn normalize_twitch_name(s: &str) -> (r: String)
    ensures
        r@ == strip_one_char(s@, '@'),
{
    strip_one_char_prefix(s, '@')
}

/// A template with each `%key%` replaced by its value, the variables taken in
/// turn.
pub open spec fn template_spec(t: Seq<char>, vars: Seq<(Seq<char>, Seq<char>)>) -> Seq<char>
    decreases vars.len(),
{
    if vars.len() == 0 {
        t
    } else {
        let prev = template_spec(t, vars.drop_last());
        replace_all(prev, "%"@ + vars.last().0 + "%"@, vars.last().1)
    }
}

/// Fills a template: each variable `key` replaces `%key%`.
pub fn parse_template(template: &str, variables: &Vec<(String, String)>) -> (r: String)
    ensures
        r@ == template_spec(template@, crate::aliases::pairs_view(variables@)),
{
    let ghost vs = crate::aliases::pairs_view(variables@);
    let mut result = template.to_owned();
    let mut i: usize = 0;
    while i < variables.len()
        invariant
            vs == crate::aliases::pairs_view(variables@),
            i <= variables@.len(),
            result@ == template_spec(template@, vs.take(i as int)),
        decreases variables@.len() - i,
    {
        assert(vs.take(i + 1).drop_last() =~= vs.take(i as int));
        assert(vs.take(i + 1).last() == (variables@[i as int].0@, variables@[i as int].1@));
        let placeholder = cat3("%", variables[i].0.as_str(), "%");
        proof {
            reveal_strlit("%");
        }
        result = replace_str(result.as_str(), placeholder.as_str(), variables[i].1.as_str());
        i = i + 1;
    }
    assert(vs.take(vs.len() as int) =~= vs);
    result
}

/// The variables a template can use: the sender, the channel, and the
/// receiver named by the second word (one `@` dropped), or `Nothing`.
pub fn generate_variables(sender: &str, channel: &str, message: &str) -> (r: Vec<(String, String)>)
    ensures
        ({
            let w = split_ascii_ws(message@);
            crate::aliases::pairs_view(r@) == seq![
                ("sender"@, sender@),
                ("channel"@, channel@),
                ("receiver"@, if w.len() > 1 { strip_one_char(w[1], '@') } else { "Nothing"@ }),
            ]
        }),
{
    let words = split_ascii_whitespace(message);
    let receiver = if words.len() > 1 {
        assert(words@[1]@ == split_ascii_ws(message@)[1]);
        strip_one_char_prefix(words[1].as_str(), '@')
    } else {
        "Nothing".to_owned()
    };
    let mut v: Vec<(String, String)> = Vec::new();
    v.push(("sender".to_owned(), sender.to_owned()));
    v.push(("channel".to_owned(), channel.to_owned()));
    v.push(("receiver".to_owned(), receiver));
    assert(crate::aliases::pairs_view(v@) =~= seq![
        ("sender"@, sender@),
        ("channel"@, channel@),
        ("receiver"@, if split_ascii_ws(message@).len() > 1 { strip_one_char(split_ascii_ws(message@)[1], '@') } else { "Nothing"@ }),
    ]);
    v
}

/// Command groups by name, as a configuration file lists them.
pub struct CommandConfig {
    pub command_group: Vec<(String, Vec<String>)>,
}

/// A command switched on or off for a channel.
pub struct CommandOverride {
    enabled: bool,
    command_name: String,
}

impl CommandOverride {
    pub fn new(enabled: bool, command_name: String) -> (r: CommandOverride)
        ensures
            r.is_enabled() == enabled,
            r.name_spec() == command_name@,
    {
        CommandOverride { enabled, command_name }
    }

    pub closed spec fn is_enabled(&self) -> bool {
        self.enabled
    }

    pub closed spec fn name_spec(&self) -> Seq<char> {
        self.command_name@
    }
}

/// How a moderator keeps someone out of the queue.
#[derive(Clone, Copy, PartialEq, Eq, Structural)]
pub enum ModAction {
    Timeout,
    Ban,
}

/// What a ban or timeout command asks for.
pub enum ModRequest {
    /// The usage to send back.
    Usage(String),
    /// Act on `name` for `seconds` (timeouts), with a reason.
    Act { name: String, reason: String, seconds: u32 },
}

/// The reason words of a command: from word `k` on, joined by spaces.
pub open spec fn reason_from(w: Seq<Seq<char>>, k: int) -> Seq<char> {
    if w.len() > k { join_spec(w.skip(k), " "@) } else { seq![] }
}

/// Joins `w[k..]` with spaces.
fn join_from(words: &Vec<String>, k: usize) -> (r: String)
    requires
        k <= words@.len(),
    ensures
        r@ == join_spec(strings_view(words@).skip(k as int), " "@),
{
    let mut rest: Vec<String> = Vec::new();
    let mut i = k;
    while i < words.len()
        invariant
            k <= i <= words@.len(),
            strings_view(rest@) == strings_view(words@).subrange(k as int, i as int),
        decreases words@.len() - i,
    {
        let ghost prev = strings_view(rest@);
        let c = words[i].clone();
        rest.push(c);
        assert(strings_view(rest@) =~= prev.push(c@));
        assert(strings_view(words@).subrange(k as int, i + 1) =~= strings_view(words@).subrange(k as int, i as int).push(words@[i as int]@));
        i = i + 1;
    }
    assert(strings_view(words@).subrange(k as int, words@.len() as int) =~= strings_view(words@).skip(k as int));
    join(&rest, " ")
}

/// Reads a ban or timeout command (`!mod_ban @name [reason]`,
/// `!mod_timeout @name <seconds> [reason]`); an unreadable number of
/// seconds counts as zero.
pub fn mod_action_request(action: ModAction, message: &str) -> (r: ModRequest)
    requires
        action == ModAction::Timeout ==> split_ascii_ws(message@).len() != 2,
    ensures
        ({
            let w = split_ascii_ws(message@);
            if w.len() < 2 {
                r matches ModRequest::Usage(m) && m@ == "Usage: !mod_ban <twitch name> Optional(reason)"@
            } else {
                r matches ModRequest::Act { name, reason, seconds } && name@ == strip_one_char(w[1], '@') && match action {
                    ModAction::Timeout => reason@ == reason_from(w, 3) && seconds as int == match parse_in_range(w[2], false, 0, u32::MAX as int) {
                        Some(v) => v,
                        None => 0,
                    },
                    ModAction::Ban => reason@ == reason_from(w, 2) && seconds == 0,
                }
            }
        }),
{
    let words = split_ascii_whitespace(message);
    if words.len() < 2 {
        return ModRequest::Usage("Usage: !mod_ban <twitch name> Optional(reason)".to_owned());
    }
    assert(words@[1]@ == split_ascii_ws(message@)[1]);
    let name = strip_one_char_prefix(words[1].as_str(), '@');
    match action {
        ModAction::Timeout => {
            let reason = if words.len() > 3 { join_from(&words, 3) } else { String::new() };
            assert(words@[2]@ == split_ascii_ws(message@)[2]);
            let seconds = match parse_u32(words[2].as_str()) {
                Some(s) => s,
                None => 0,
            };
            ModRequest::Act { name, reason, seconds }
        },
        ModAction::Ban => {
            let reason = if words.len() > 2 { join_from(&words, 2) } else { String::new() };
            ModRequest::Act { name, reason, seconds: 0 }
        },
    }
}

/// The reply once a ban or timeout was stored (`stored`) or not.
pub fn mod_action_reply(action: ModAction, name: &str, seconds: u32, stored: bool) -> (r: String)
    ensures
        r@ == match action {
            ModAction::Timeout => if stored {
                "User "@ + name@ + " has been timed out from entering queue for "@ + dec((seconds / 3600) as nat) + " hours."@
            } else {
                "An error occurred while timing out the user."@
            },
            ModAction::Ban => if stored {
                "User "@ + name@ + " has been banned from entering queue."@
            } else {
                "An error occurred while banning the user."@
            },
        },
{
    match action {
        ModAction::Timeout => if stored {
            cat5("User ", name, " has been timed out from entering queue for ", u64_to_string((seconds / 3600) as u64).as_str(), " hours.")
        } else {
            "An error occurred while timing out the user.".to_owned()
        },
        ModAction::Ban => if stored {
            cat3("User ", name, " has been banned from entering queue.")
        } else {
            "An error occurred while banning the user.".to_owned()
        },
    }
}

/// The reply when the named user never entered a queue.
pub fn not_registered_reply() -> (r: String)
    ensures
        r@ == "User has never entered queue, !mod_register them! -> !help mod_register"@,
{
    "User has never entered queue, !mod_register them! -> !help mod_register".to_owned()
}

/// `!alias add <alias> <command>` / `!alias remove <alias>` of the first
/// command set.
pub struct AliasCommand;

/// What the first command set's `!alias` does and replies.
pub open spec fn old_alias_spec(a: AliasView, w: Seq<Seq<char>>) -> (AliasView, Seq<char>) {
    if w.len() < 3 {
        (a, "Usage: !alias add <alias> <command> OR !alias remove <alias>"@)
    } else {
        let act = unicode_lowercase(w[1]);
        let x = unicode_lowercase(w[2]);
        if act == "add"@ && w.len() == 4 {
            let c = unicode_lowercase(w[3]);
            (AliasView { aliases: map_insert(a.aliases, x, c), ..a }, "Added alias '"@ + x + "' for command '"@ + c + "'"@)
        } else if act == "remove"@ && w.len() == 3 {
            (AliasView { aliases: map_remove(a.aliases, x), ..a }, "Removed alias '"@ + x + "'"@)
        } else {
            (a, "Invalid syntax. Use: !alias add <alias> <command> OR !alias remove <alias>"@)
        }
    }
}

impl AliasCommand {
    pub fn name(&self) -> (r: &'static str)
        ensures
            r@ == "Alias"@,
    {
        "Alias"
    }

    pub fn usage(&self) -> (r: &'static str)
        ensures
            r@ == "!alias add <alias> <command> | !alias remove <alias>"@,
    {
        "!alias add <alias> <command> | !alias remove <alias>"
    }

    pub fn description(&self) -> (r: &'static str)
        ensures
            r@ == "Add or remove a custom alias for a command."@,
    {
        "Add or remove a custom alias for a command."
    }

    pub fn permission(&self) -> (r: PermissionLevel)
        ensures
            r == PermissionLevel::Moderator,
    {
        PermissionLevel::Moderator
    }

    /// Adds or removes an alias; the reply.
    pub fn execute(&self, ac: &mut AliasConfig, message: &str) -> (r: String)
        ensures
            (final(ac)@, r@) == old_alias_spec(old(ac)@, split_ascii_ws(message@)),
    {
        let words = split_ascii_whitespace(message);
        if words.len() < 3 {
            return "Usage: !alias add <alias> <command> OR !alias remove <alias>".to_owned();
        }
        assert(words@[1]@ == split_ascii_ws(message@)[1]);
        assert(words@[2]@ == split_ascii_ws(message@)[2]);
        let act = to_lowercase(words[1].as_str());
        let x = to_lowercase(words[2].as_str());
        if str_seq_eq(act.as_str(), "add") && words.len() == 4 {
            assert(words@[3]@ == split_ascii_ws(message@)[3]);
            let c = to_lowercase(words[3].as_str());
            let reply = cat5("Added alias '", x.as_str(), "' for command '", c.as_str(), "'");
            ac.set_alias(x, c);
            reply
        } else if str_seq_eq(act.as_str(), "remove") && words.len() == 3 {
            ac.remove_alias(x.as_str());
            cat3("Removed alias '", x.as_str(), "'")
        } else {
            "Invalid syntax. Use: !alias add <alias> <command> OR !alias remove <alias>".to_owned()
        }
    }
}

/// Whether a points command gives or takes.
#[derive(Clone, Copy, PartialEq, Eq, Structural)]
pub enum ChangeMode {
    Add,
    Remove,
}

/// `!add_points @name amount` / `!remove_points @name amount`.
pub struct ChangePointsCommand {
    pub mode: ChangeMode,
}

/// Index of the first balance whose name matches `k` ignoring case, or -1.
pub open spec fn first_ci(m: Seq<(Seq<char>, i32)>, k: Seq<char>) -> int
    decreases m.len(),
{
    if m.len() == 0 {
        -1
    } else if unicode_lowercase(m[0].0) == unicode_lowercase(k) {
        0
    } else {
        let r = first_ci(m.skip(1), k);
        if r < 0 { -1 } else { r + 1 }
    }
}

/// The name and amount of a points command: the text after the first space,
/// trimmed, split at its first space.
pub open spec fn points_args(message: Seq<char>) -> Option<(Seq<char>, Seq<char>)> {
    match after_first(message, ' ') {
        None => None,
        Some(args) => match after_first(trim_ws(args), ' ') {
            None => None,
            Some(amount) => Some((crate::sessions::before_first(trim_ws(args), ' '), amount)),
        },
    }
}

/// The amount a points command reads: an `i64`, or zero.
pub open spec fn points_amount(t: Seq<char>) -> int {
    match parse_in_range(t, true, i64::MIN as int, i64::MAX as int) {
        Some(v) => v,
        None => 0,
    }
}

/// The new balance of a points command.
pub open spec fn new_balance(mode: ChangeMode, old: int, amount: int) -> int {
    match mode {
        ChangeMode::Add => old + ((amount as i64) as i32) as int,
        ChangeMode::Remove => old - ((amount as i64) as i32) as int,
    }
}

/// Where the new balance fits in an `i32`.
pub open spec fn points_change_defined(mode: ChangeMode, m: Seq<(Seq<char>, i32)>, message: Seq<char>) -> bool {
    match points_args(message) {
        None => true,
        Some((n, a)) => {
            let i = first_ci(m, strip_one_char(n, '@'));
            i >= 0 ==> i32::MIN <= new_balance(mode, m[i].1 as int, points_amount(a)) <= i32::MAX
        },
    }
}

impl ChangePointsCommand {
    pub fn name(&self) -> (r: &'static str)
        ensures
            r@ == match self.mode {
                ChangeMode::Add => "add_points"@,
                ChangeMode::Remove => "remove_points"@,
            },
    {
        match self.mode {
            ChangeMode::Add => "add_points",
            ChangeMode::Remove => "remove_points",
        }
    }

    pub fn description(&self) -> (r: &'static str)
        ensures
            r@ == match self.mode {
                ChangeMode::Add => "Give someone points"@,
                ChangeMode::Remove => "Remove points from someone"@,
            },
    {
        match self.mode {
            ChangeMode::Add => "Give someone points",
            ChangeMode::Remove => "Remove points from someone",
        }
    }

    pub fn usage(&self) -> (r: &'static str)
        ensures
            r@ == "!<command> @twitchname amount"@,
    {
        "!<command> @twitchname amount"
    }

    pub fn permission(&self) -> (r: PermissionLevel)
        ensures
            r == PermissionLevel::Moderator,
    {
        PermissionLevel::Moderator
    }

    /// Changes the points of the named viewer (matched ignoring case) and
    /// stores the new balance under the name as given; `None` when the
    /// message lacks a name and an amount (nothing is sent).
    /// `points_name` is what the channel calls its points.
    pub fn execute(&self, ledger: &mut PointsLedger, message: &str, points_name: &str) -> (r: Option<String>)
        requires
            points_change_defined(self.mode, old(ledger)@, message@),
        ensures
            match points_args(message@) {
                None => r is None && final(ledger)@ == old(ledger)@,
                Some((n, a)) => {
                    let user = strip_one_char(n, '@');
                    let i = first_ci(old(ledger)@, user);
                    if i >= 0 {
                        let nb = new_balance(self.mode, old(ledger)@[i].1 as int, points_amount(a));
                        &&& final(ledger)@ == set_amount(old(ledger)@, user, nb as i32)
                        &&& r matches Some(m) && m@ == user + " now has "@ + dec_int(nb) + " "@ + points_name@
                    } else {
                        &&& final(ledger)@ == old(ledger)@
                        &&& r matches Some(m) && m@ == "User not found in the database"@
                    }
                },
            },
    {
        let args = match text_after_first(message, ' ') {
            Some(a) => a,
            None => return None,
        };
        let targs = trim(args.as_str());
        let amount_text = match text_after_first(targs.as_str(), ' ') {
            Some(a) => a,
            None => return None,
        };
        let name = crate::sessions::text_before_first(targs.as_str(), ' ');
        let amount: i64 = match parse_i64(amount_text.as_str()) {
            Some(v) => v,
            None => 0,
        };
        let user = normalize_twitch_name(name.as_str());
        let ghost m = ledger@;
        let i = ledger.find_ignoring_case(user.as_str());
        match i {
            Some(old_points) => {
                let delta = #[verifier::truncate] (amount as i32);
                let nb = match self.mode {
                    ChangeMode::Add => old_points + delta,
                    ChangeMode::Remove => old_points - delta,
                };
                ledger.set_points(user.as_str(), nb);
                Some(cat5(user.as_str(), " now has ", i64_to_string(nb as i64).as_str(), " ", points_name))
            },
            None => Some("User not found in the database".to_owned()),
        }
    }
}

impl PointsLedger {
    /// The balance of the first viewer whose name matches ignoring case.
    pub fn find_ignoring_case(&self, name: &str) -> (r: Option<i32>)
        ensures
            ({
                let i = first_ci(self@, name@);
                match r {
                    Some(p) => i >= 0 && i < self@.len() && p == self@[i].1,
                    None => i < 0,
                }
            }),
    {
        let ghost m = self@;
        let target = to_lowercase(name);
        let n = self.len();
        let mut i: usize = 0;
        assert(m.skip(0) =~= m);
        while i < n
            invariant
                m == self@,
                n == m.len(),
                target@ == unicode_lowercase(name@),
                i <= n,
                first_ci(m, name@) == (if first_ci(m.skip(i as int), name@) < 0 { -1 } else { first_ci(m.skip(i as int), name@) + i }),
            decreases n - i,
        {
            assert(m.skip(i as int).skip(1) =~= m.skip(i + 1));
            let (k, p) = self.entry(i);
            assert(m.skip(i as int)[0] == (k@, p));
            let lk = to_lowercase(k.as_str());
            if str_seq_eq(lk.as_str(), target.as_str()) {
                return Some(p);
            }
            i = i + 1;
        }
        proof {
            lemma_first_ci_range(m, name@);
        }
        None
    }
}

proof fn lemma_first_ci_range(m: Seq<(Seq<char>, i32)>, k: Seq<char>)
    ensures
        -1 <= first_ci(m, k) < m.len(),
    decreases m.len(),
{
    if m.len() > 0 {
        lemma_first_ci_range(m.skip(1), k);
    }
}

} // verus!

verus! {

/// The names in `s` that are not switched-off commands, in order.
pub open spec fn without_disabled(s: Seq<Seq<char>>, disabled: Seq<Seq<char>>) -> Seq<Seq<char>>
    decreases s.len(),
{
    if s.len() == 0 {
        seq![]
    } else if crate::permissions::seq_has(disabled, s.last()) {
        without_disabled(s.drop_last(), disabled)
    } else {
        without_disabled(s.drop_last(), disabled).push(s.last())
    }
}

/// Each name of `s` once, where it first occurs.
pub open spec fn first_occurrences(s: Seq<Seq<char>>) -> Seq<Seq<char>>
    decreases s.len(),
{
    if s.len() == 0 {
        seq![]
    } else {
        let r = first_occurrences(s.drop_last());
        if crate::permissions::seq_has(r, s.last()) { r } else { r.push(s.last()) }
    }
}

/// The names a command `name` is called by: its custom aliases, then its
/// own name unless that default alias is removed, leaving out names of
/// switched-off commands and keeping each name once, where it first occurs.
pub open spec fn usage_names(a: AliasView, name: Seq<char>) -> Seq<Seq<char>> {
    let all = crate::aliases::aliases_for(a.aliases, name)
        + (if crate::permissions::seq_has(a.removed, name) { seq![] } else { seq![name] });
    first_occurrences(without_disabled(all, a.disabled))
}

/// The usage line of command `name` with usage `usage`: `Usage: ` and the
/// usage when it has no names left, else the names, each after `!`, joined
/// by ` / `, then ` → ` and the usage.
pub open spec fn usage_line(a: AliasView, name: Seq<char>, usage: Seq<char>) -> Seq<char> {
    let names = usage_names(a, name);
    if names.len() == 0 {
        "Usage: "@ + usage
    } else {
        "Usage: "@ + join_spec(names.map_values(|x: Seq<char>| "!"@ + x), " / "@) + " → "@ + usage
    }
}

/// A command's usage line with the names it is called by (see `usage_line`).
pub fn usage_with_aliases(name: &str, usage: &str, alias_config: &AliasConfig) -> (r: String)
    ensures
        r@ == usage_line(alias_config@, name@, usage@),
{
    let mut all = alias_config.get_aliases(name);
    let ghost custom = strings_view(all@);
    if !alias_config.get_removed_aliases(name) {
        let own = name.to_owned();
        all.push(own);
        assert(strings_view(all@) =~= custom + seq![name@]);
    } else {
        assert(strings_view(all@) =~= custom + Seq::<Seq<char>>::empty());
    }
    let ghost a = alias_config@;
    let ghost full = strings_view(all@);
    let mut kept: Vec<String> = Vec::new();
    let mut marked: Vec<String> = Vec::new();
    let mut i: usize = 0;
    while i < all.len()
        invariant
            a == alias_config@,
            full == strings_view(all@),
            i <= all@.len(),
            strings_view(kept@) == first_occurrences(without_disabled(full.take(i as int), a.disabled)),
            strings_view(marked@) == strings_view(kept@).map_values(|x: Seq<char>| "!"@ + x),
        decreases all@.len() - i,
    {
        assert(full.take(i + 1).drop_last() =~= full.take(i as int));
        assert(full.take(i + 1).last() == all@[i as int]@);
        let ghost before = without_disabled(full.take(i as int), a.disabled);
        if !alias_config.is_disabled(all[i].as_str()) && !crate::permissions::any_equals(&kept, all[i].as_str()) {
            let ghost pk = strings_view(kept@);
            let ghost pm = strings_view(marked@);
            let x = all[i].clone();
            let m = cat2("!", x.as_str());
            kept.push(x);
            marked.push(m);
            assert(strings_view(kept@) =~= pk.push(all@[i as int]@));
            assert(strings_view(marked@) =~= pm.push(m@));
            assert(pm =~= pk.map_values(|x: Seq<char>| "!"@ + x));
            assert(pk.push(all@[i as int]@).map_values(|x: Seq<char>| "!"@ + x)
                =~= pk.map_values(|x: Seq<char>| "!"@ + x).push("!"@ + all@[i as int]@));
            assert(without_disabled(full.take(i + 1), a.disabled) == before.push(all@[i as int]@));
            assert(before.push(all@[i as int]@).drop_last() =~= before);
        } else {
            proof {
                if !crate::permissions::seq_has(a.disabled, all@[i as int]@) {
                    assert(without_disabled(full.take(i + 1), a.disabled) == before.push(all@[i as int]@));
                    assert(before.push(all@[i as int]@).drop_last() =~= before);
                }
            }
        }
        i = i + 1;
    }
    assert(full.take(all@.len() as int) =~= full);
    if kept.len() == 0 {
        cat2("Usage: ", usage)
    } else {
        let list = join(&marked, " / ");
        let head = cat3("Usage: ", list.as_str(), " → ");
        cat2(head.as_str(), usage)
    }
}

} // verus!
