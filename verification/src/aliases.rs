//! Command aliases of a channel and the table that maps chat command names
//! to commands.

use vstd::prelude::*;
use crate::text::{strings_view, str_seq_eq, split_ws, split_whitespace, cat3, cat5, ascii_lower_seq, to_ascii_lowercase};
use crate::permissions::{seq_has, any_equals};
use crate::platform::{to_lowercase, unicode_lowercase};
use crate::error::BotError;

verus! {

/// Pairs of strings, as views.
pub open spec fn pairs_view(v: Seq<(String, String)>) -> Seq<(Seq<char>, Seq<char>)> {
    v.map_values(|e: (String, String)| (e.0@, e.1@))
}

/// Index of the last pair with key `k`, or -1.
pub open spec fn key_index(m: Seq<(Seq<char>, Seq<char>)>, k: Seq<char>) -> int
    decreases m.len(),
{
    if m.len() == 0 {
        -1
    } else if m.last().0 == k {
        m.len() - 1
    } else {
        key_index(m.drop_last(), k)
    }
}

pub proof fn lemma_key_index(m: Seq<(Seq<char>, Seq<char>)>, k: Seq<char>)
    ensures
        -1 <= key_index(m, k) < m.len(),
        key_index(m, k) >= 0 ==> m[key_index(m, k)].0 == k,
        forall|j: int| key_index(m, k) < j < m.len() ==> m[j].0 != k,
    decreases m.len(),
{
    if m.len() > 0 && m.last().0 != k {
        lemma_key_index(m.drop_last(), k);
        assert forall|j: int| key_index(m, k) < j < m.len() implies m[j].0 != k by {
            if j < m.len() - 1 {
                assert(m[j] == m.drop_last()[j]);
            }
        }
    }
}

/// The value stored for `k`.
pub open spec fn map_get(m: Seq<(Seq<char>, Seq<char>)>, k: Seq<char>) -> Option<Seq<char>> {
    let i = key_index(m, k);
    if i >= 0 { Some(m[i].1) } else { None }
}

/// `k` set to `v`: in place when stored, appended otherwise.
pub open spec fn map_insert(m: Seq<(Seq<char>, Seq<char>)>, k: Seq<char>, v: Seq<char>) -> Seq<(Seq<char>, Seq<char>)> {
    let i = key_index(m, k);
    if i >= 0 { m.update(i, (k, v)) } else { m.push((k, v)) }
}

/// `k` removed.
pub open spec fn map_remove(m: Seq<(Seq<char>, Seq<char>)>, k: Seq<char>) -> Seq<(Seq<char>, Seq<char>)> {
    let i = key_index(m, k);
    if i >= 0 { m.remove(i) } else { m }
}

/// `x` added to a set kept as a sequence.
pub open spec fn set_insert(s: Seq<Seq<char>>, x: Seq<char>) -> Seq<Seq<char>> {
    if seq_has(s, x) { s } else { s.push(x) }
}

/// Every `x` removed.
pub open spec fn set_remove(s: Seq<Seq<char>>, x: Seq<char>) -> Seq<Seq<char>>
    decreases s.len(),
{
    if s.len() == 0 {
        s
    } else if s.last() == x {
        set_remove(s.drop_last(), x)
    } else {
        set_remove(s.drop_last(), x).push(s.last())
    }
}

/// Where key `k` is stored in `m`.
fn key_pos(m: &Vec<(String, String)>, k: &str) -> (r: Option<usize>)
    ensures
        match r {
            Some(i) => key_index(pairs_view(m@), k@) == i,
            None => key_index(pairs_view(m@), k@) == -1,
        },
{
    let mut found: Option<usize> = None;
    let mut i: usize = 0;
    while i < m.len()
        invariant
            i <= m@.len(),
            match found {
                Some(j) => key_index(pairs_view(m@).take(i as int), k@) == j,
                None => key_index(pairs_view(m@).take(i as int), k@) == -1,
            },
        decreases m@.len() - i,
    {
        let ghost t = pairs_view(m@).take(i + 1);
        assert(t.drop_last() =~= pairs_view(m@).take(i as int));
        assert(t.last() == pairs_view(m@)[i as int]);
        if str_seq_eq(m[i].0.as_str(), k) {
            found = Some(i);
        }
        i = i + 1;
    }
    assert(pairs_view(m@).take(m@.len() as int) =~= pairs_view(m@));
    found
}

/// Sets `k` to `v` in `m`.
fn pairs_insert(m: &mut Vec<(String, String)>, k: String, v: String)
    ensures
        pairs_view(final(m)@) == map_insert(pairs_view(old(m)@), k@, v@),
{
    match key_pos(m, k.as_str()) {
        Some(i) => {
            let ghost before = m@;
            proof {
                lemma_key_index(pairs_view(m@), k@);
            }
            m.set(i, (k, v));
            assert(pairs_view(m@) =~= pairs_view(before).update(i as int, (k@, v@)));
        },
        None => {
            let ghost before = m@;
            m.push((k, v));
            assert(pairs_view(m@) =~= pairs_view(before).push((k@, v@)));
        },
    }
}

/// Removes `k` from `m`.
fn pairs_remove(m: &mut Vec<(String, String)>, k: &str)
    ensures
        pairs_view(final(m)@) == map_remove(pairs_view(old(m)@), k@),
{
    match key_pos(m, k) {
        Some(i) => {
            let ghost before = m@;
            proof {
                lemma_key_index(pairs_view(m@), k@);
            }
            m.remove(i);
            assert(pairs_view(m@) =~= pairs_view(before).remove(i as int));
        },
        None => {},
    }
}

/// The value stored for `k` in `m`.
fn pairs_get(m: &Vec<(String, String)>, k: &str) -> (r: Option<String>)
    ensures
        match r {
            Some(x) => map_get(pairs_view(m@), k@) == Some(x@),
            None => map_get(pairs_view(m@), k@) is None,
        },
{
    match key_pos(m, k) {
        Some(i) => {
            proof {
                lemma_key_index(pairs_view(m@), k@);
            }
            assert(pairs_view(m@)[i as int] == (m@[i as int].0@, m@[i as int].1@));
            Some(m[i].1.clone())
        },
        None => None,
    }
}

/// Adds `x` to the set `s`.
fn strings_insert(s: &mut Vec<String>, x: String)
    ensures
        strings_view(final(s)@) == set_insert(strings_view(old(s)@), x@),
{
    if !any_equals(s, x.as_str()) {
        let ghost before = s@;
        s.push(x);
        assert(strings_view(s@) =~= strings_view(before).push(x@));
    }
}

/// Removes every `x` from `s`.
fn strings_remove(s: &mut Vec<String>, x: &str)
    ensures
        strings_view(final(s)@) == set_remove(strings_view(old(s)@), x@),
{
    let ghost orig = strings_view(s@);
    let mut out: Vec<String> = Vec::new();
    let mut i: usize = 0;
    while i < s.len()
        invariant
            orig == strings_view(s@),
            i <= s@.len(),
            strings_view(out@) == set_remove(orig.take(i as int), x@),
        decreases s@.len() - i,
    {
        let ghost prev = strings_view(out@);
        assert(orig.take(i + 1).drop_last() =~= orig.take(i as int));
        assert(orig.take(i + 1).last() == s@[i as int]@);
        if !str_seq_eq(s[i].as_str(), x) {
            let c = s[i].clone();
            out.push(c);
            assert(strings_view(out@) =~= prev.push(c@));
        }
        i = i + 1;
    }
    assert(orig.take(orig.len() as int) =~= orig);
    *s = out;
}

/// A channel's alias settings.
pub struct AliasConfig {
    /// Custom aliases: alias, then the command name it stands for.
    aliases: Vec<(String, String)>,
    /// Commands switched off.
    disabled_commands: Vec<String>,
    /// Default aliases switched off.
    removed_aliases: Vec<String>,
}

pub struct AliasView {
    pub aliases: Seq<(Seq<char>, Seq<char>)>,
    pub disabled: Seq<Seq<char>>,
    pub removed: Seq<Seq<char>>,
}

impl View for AliasConfig {
    type V = AliasView;

    closed spec fn view(&self) -> AliasView {
        AliasView {
            aliases: pairs_view(self.aliases@),
            disabled: strings_view(self.disabled_commands@),
            removed: strings_view(self.removed_aliases@),
        }
    }
}

/// The aliases that stand for `name`, in stored order.
pub open spec fn aliases_for(m: Seq<(Seq<char>, Seq<char>)>, name: Seq<char>) -> Seq<Seq<char>>
    decreases m.len(),
{
    if m.len() == 0 {
        seq![]
    } else if m.last().1 == name {
        aliases_for(m.drop_last(), name).push(m.last().0)
    } else {
        aliases_for(m.drop_last(), name)
    }
}

impl AliasConfig {
    /// No aliases, nothing switched off.
    pub fn new() -> (r: AliasConfig)
        ensures
            r@.aliases.len() == 0,
            r@.disabled.len() == 0,
            r@.removed.len() == 0,
    {
        AliasConfig { aliases: Vec::new(), disabled_commands: Vec::new(), removed_aliases: Vec::new() }
    }

    /// The custom aliases of command `name`.
    pub fn get_aliases(&self, name: &str) -> (r: Vec<String>)
        ensures
            strings_view(r@) == aliases_for(self@.aliases, name@),
    {
        let mut out: Vec<String> = Vec::new();
        let mut i: usize = 0;
        while i < self.aliases.len()
            invariant
                i <= self.aliases@.len(),
                strings_view(out@) == aliases_for(pairs_view(self.aliases@).take(i as int), name@),
            decreases self.aliases@.len() - i,
        {
            let ghost prev = strings_view(out@);
            let ghost t = pairs_view(self.aliases@).take(i + 1);
            assert(t.drop_last() =~= pairs_view(self.aliases@).take(i as int));
            assert(t.last() == (self.aliases@[i as int].0@, self.aliases@[i as int].1@));
            if str_seq_eq(self.aliases[i].1.as_str(), name) {
                let a = self.aliases[i].0.clone();
                out.push(a);
                assert(strings_view(out@) =~= prev.push(a@));
            }
            i = i + 1;
        }
        assert(pairs_view(self.aliases@).take(self.aliases@.len() as int) =~= pairs_view(self.aliases@));
        out
    }

    /// Whether the default alias `name` is switched off.
    pub fn get_removed_aliases(&self, name: &str) -> (r: bool)
        ensures
            r == seq_has(self@.removed, name@),
    {
        any_equals(&self.removed_aliases, name)
    }

    /// Whether command `name` is switched off.
    pub fn is_disabled(&self, name: &str) -> (r: bool)
        ensures
            r == seq_has(self@.disabled, name@),
    {
        any_equals(&self.disabled_commands, name)
    }

    /// The command a custom alias stands for.
    pub fn alias_target(&self, alias: &str) -> (r: Option<String>)
        ensures
            match r {
                Some(x) => map_get(self@.aliases, alias@) == Some(x@),
                None => map_get(self@.aliases, alias@) is None,
            },
    {
        pairs_get(&self.aliases, alias)
    }

    /// The custom aliases, in stored order.
    pub fn alias_entries(&self) -> (r: &Vec<(String, String)>)
        ensures
            pairs_view(r@) == self@.aliases,
    {
        &self.aliases
    }

    /// Makes `alias` stand for `command`.
    pub fn set_alias(&mut self, alias: String, command: String)
        ensures
            final(self)@ == (AliasView { aliases: map_insert(old(self)@.aliases, alias@, command@), ..old(self)@ }),
    {
        pairs_insert(&mut self.aliases, alias, command);
    }

    /// Drops the custom alias `alias`.
    pub fn remove_alias(&mut self, alias: &str)
        ensures
            final(self)@ == (AliasView { aliases: map_remove(old(self)@.aliases, alias@), ..old(self)@ }),
    {
        pairs_remove(&mut self.aliases, alias);
    }

    /// Switches the default alias `alias` off.
    pub fn remove_default(&mut self, alias: String)
        ensures
            final(self)@ == (AliasView { removed: set_insert(old(self)@.removed, alias@), ..old(self)@ }),
    {
        strings_insert(&mut self.removed_aliases, alias);
    }

    /// Switches the default alias `alias` back on.
    pub fn restore_default(&mut self, alias: &str)
        ensures
            final(self)@ == (AliasView { removed: set_remove(old(self)@.removed, alias@), ..old(self)@ }),
    {
        strings_remove(&mut self.removed_aliases, alias);
    }

    /// Switches command `command` off.
    pub fn disable(&mut self, command: String)
        ensures
            final(self)@ == (AliasView { disabled: set_insert(old(self)@.disabled, command@), ..old(self)@ }),
    {
        strings_insert(&mut self.disabled_commands, command);
    }

    /// Switches command `command` back on.
    pub fn enable(&mut self, command: &str)
        ensures
            final(self)@ == (AliasView { disabled: set_remove(old(self)@.disabled, command@), ..old(self)@ }),
    {
        strings_remove(&mut self.disabled_commands, command);
    }
}

pub open spec fn alias_usage() -> Seq<char> {
    "Usage: !alias add <alias> <command> | !alias remove <alias>"@
}

pub open spec fn alias_invalid() -> Seq<char> {
    "Invalid syntax. Use: !alias add <alias> <command> | !alias remove <alias>"@
}

/// What `!alias ...` does to the alias settings and replies, or the `Chat`
/// error it reports. Names are lowercased.
pub open spec fn alias_outcome(a: AliasView, w: Seq<Seq<char>>) -> Result<(AliasView, Seq<char>), Seq<char>> {
    if w.len() < 3 {
        Err(alias_usage())
    } else {
        let sub = unicode_lowercase(w[1]);
        let x = unicode_lowercase(w[2]);
        if sub == "add"@ && w.len() == 4 {
            let c = unicode_lowercase(w[3]);
            Ok((AliasView { aliases: map_insert(a.aliases, x, c), ..a }, "✅ Alias '"@ + x + "' → '"@ + c + "' added"@))
        } else if sub == "remove"@ && w.len() == 3 {
            Ok((AliasView { aliases: map_remove(a.aliases, x), ..a }, "Removed alias '"@ + x + "'"@))
        } else if sub == "remove-default"@ && w.len() == 3 {
            Ok((AliasView { removed: set_insert(a.removed, x), ..a }, "🚫 Default alias '"@ + x + "' disabled"@))
        } else if sub == "restore-default"@ && w.len() == 3 {
            Ok((AliasView { removed: set_remove(a.removed, x), ..a }, "♻️ Default alias '"@ + x + "' restored"@))
        } else if sub == "disable"@ && w.len() == 3 {
            Ok((AliasView { disabled: set_insert(a.disabled, x), ..a }, "🔕 Command '"@ + x + "' disabled"@))
        } else if sub == "enable"@ && w.len() == 3 {
            Ok((AliasView { disabled: set_remove(a.disabled, x), ..a }, "🔔 Command '"@ + x + "' enabled"@))
        } else {
            Err(alias_invalid())
        }
    }
}

/// `!alias add|remove|remove-default|restore-default|disable|enable ...`:
/// changes the channel's alias settings and gives the reply; a wrong form is
/// a `Chat` error and changes nothing.
pub fn alias_command(ac: &mut AliasConfig, message: &str) -> (r: Result<String, BotError>)
    ensures
        match alias_outcome(old(ac)@, split_ws(message@)) {
            Ok((a, m)) => r matches Ok(x) && x@ == m && final(ac)@ == a,
            Err(m) => r matches Err(BotError::Chat(x)) && x@ == m && final(ac)@ == old(ac)@,
        },
{
    let args = split_whitespace(message);
    if args.len() < 3 {
        return Err(BotError::Chat("Usage: !alias add <alias> <command> | !alias remove <alias>".to_owned()));
    }
    assert(args@[1]@ == split_ws(message@)[1]);
    assert(args@[2]@ == split_ws(message@)[2]);
    let sub = to_lowercase(args[1].as_str());
    let x = to_lowercase(args[2].as_str());
    let n = args.len();
    if str_seq_eq(sub.as_str(), "add") && n == 4 {
        assert(args@[3]@ == split_ws(message@)[3]);
        let c = to_lowercase(args[3].as_str());
        let reply = cat5("✅ Alias '", x.as_str(), "' → '", c.as_str(), "' added");
        ac.set_alias(x, c);
        Ok(reply)
    } else if str_seq_eq(sub.as_str(), "remove") && n == 3 {
        ac.remove_alias(x.as_str());
        Ok(cat3("Removed alias '", x.as_str(), "'"))
    } else if str_seq_eq(sub.as_str(), "remove-default") && n == 3 {
        let reply = cat3("🚫 Default alias '", x.as_str(), "' disabled");
        ac.remove_default(x);
        Ok(reply)
    } else if str_seq_eq(sub.as_str(), "restore-default") && n == 3 {
        ac.restore_default(x.as_str());
        Ok(cat3("♻️ Default alias '", x.as_str(), "' restored"))
    } else if str_seq_eq(sub.as_str(), "disable") && n == 3 {
        let reply = cat3("🔕 Command '", x.as_str(), "' disabled");
        ac.disable(x);
        Ok(reply)
    } else if str_seq_eq(sub.as_str(), "enable") && n == 3 {
        ac.enable(x.as_str());
        Ok(cat3("🔔 Command '", x.as_str(), "' enabled"))
    } else {
        Err(BotError::Chat("Invalid syntax. Use: !alias add <alias> <command> | !alias remove <alias>".to_owned()))
    }
}

fn copy_list(v: &Vec<String>) -> (r: Vec<String>)
    ensures
        strings_view(r@) == strings_view(v@),
{
    let mut out: Vec<String> = Vec::new();
    let mut i: usize = 0;
    while i < v.len()
        invariant
            i <= v@.len(),
            strings_view(out@) == strings_view(v@).take(i as int),
        decreases v@.len() - i,
    {
        let ghost prev = strings_view(out@);
        let c = v[i].clone();
        out.push(c);
        assert(strings_view(out@) =~= prev.push(c@));
        assert(strings_view(v@).take(i + 1) =~= strings_view(v@).take(i as int).push(v@[i as int]@));
        i = i + 1;
    }
    assert(strings_view(v@).take(v@.len() as int) =~= strings_view(v@));
    out
}

impl AliasConfig {
    /// A copy of the custom aliases.
    pub fn alias_pairs(&self) -> (r: Vec<(String, String)>)
        ensures
            pairs_view(r@) == self@.aliases,
    {
        let mut out: Vec<(String, String)> = Vec::new();
        let mut i: usize = 0;
        while i < self.aliases.len()
            invariant
                i <= self.aliases@.len(),
                pairs_view(out@) == pairs_view(self.aliases@).take(i as int),
            decreases self.aliases@.len() - i,
        {
            let ghost prev = pairs_view(out@);
            let e = (self.aliases[i].0.clone(), self.aliases[i].1.clone());
            out.push(e);
            assert(pairs_view(out@) =~= prev.push((e.0@, e.1@)));
            assert(pairs_view(self.aliases@).take(i + 1) =~= pairs_view(self.aliases@).take(i as int).push((self.aliases@[i as int].0@, self.aliases@[i as int].1@)));
            i = i + 1;
        }
        assert(pairs_view(self.aliases@).take(self.aliases@.len() as int) =~= pairs_view(self.aliases@));
        out
    }

    /// A copy of the switched-off default aliases.
    pub fn removed_list(&self) -> (r: Vec<String>)
        ensures
            strings_view(r@) == self@.removed,
    {
        copy_list(&self.removed_aliases)
    }

    /// A copy of the switched-off commands.
    pub fn disabled_list(&self) -> (r: Vec<String>)
        ensures
            strings_view(r@) == self@.disabled,
    {
        copy_list(&self.disabled_commands)
    }

    /// Alias settings as stored: aliases and command names as the store
    /// holds them are lowercased, each list in order (later duplicates of an
    /// alias replace earlier ones).
    pub fn from_rows(aliases: &Vec<(String, String)>, disabled: &Vec<String>, removed: &Vec<String>) -> (r: AliasConfig)
        ensures
            r@.aliases == lowered_pairs_insert(pairs_view(aliases@)),
            r@.disabled == lowered_set(strings_view(disabled@)),
            r@.removed == lowered_set(strings_view(removed@)),
    {
        let mut ac = AliasConfig::new();
        let mut i: usize = 0;
        assert(ac@.aliases =~= lowered_pairs_insert(pairs_view(aliases@).take(0)));
        assert(ac@.disabled =~= lowered_set(strings_view(disabled@).take(0)));
        assert(ac@.removed =~= lowered_set(strings_view(removed@).take(0)));
        while i < aliases.len()
            invariant
                i <= aliases@.len(),
                ac@.aliases == lowered_pairs_insert(pairs_view(aliases@).take(i as int)),
                ac@.disabled.len() == 0,
                ac@.removed.len() == 0,
            decreases aliases@.len() - i,
        {
            assert(pairs_view(aliases@).take(i + 1).drop_last() =~= pairs_view(aliases@).take(i as int));
            assert(pairs_view(aliases@).take(i + 1).last() == (aliases@[i as int].0@, aliases@[i as int].1@));
            let a = to_lowercase(aliases[i].0.as_str());
            let c = to_lowercase(aliases[i].1.as_str());
            ac.set_alias(a, c);
            i = i + 1;
        }
        assert(pairs_view(aliases@).take(aliases@.len() as int) =~= pairs_view(aliases@));
        let mut j: usize = 0;
        while j < disabled.len()
            invariant
                j <= disabled@.len(),
                ac@.aliases == lowered_pairs_insert(pairs_view(aliases@)),
                ac@.disabled == lowered_set(strings_view(disabled@).take(j as int)),
                ac@.removed.len() == 0,
            decreases disabled@.len() - j,
        {
            assert(strings_view(disabled@).take(j + 1).drop_last() =~= strings_view(disabled@).take(j as int));
            assert(strings_view(disabled@).take(j + 1).last() == disabled@[j as int]@);
            let d = to_lowercase(disabled[j].as_str());
            ac.disable(d);
            j = j + 1;
        }
        assert(strings_view(disabled@).take(disabled@.len() as int) =~= strings_view(disabled@));
        let mut k: usize = 0;
        while k < removed.len()
            invariant
                k <= removed@.len(),
                ac@.aliases == lowered_pairs_insert(pairs_view(aliases@)),
                ac@.disabled == lowered_set(strings_view(disabled@)),
                ac@.removed == lowered_set(strings_view(removed@).take(k as int)),
            decreases removed@.len() - k,
        {
            assert(strings_view(removed@).take(k + 1).drop_last() =~= strings_view(removed@).take(k as int));
            assert(strings_view(removed@).take(k + 1).last() == removed@[k as int]@);
            let x = to_lowercase(removed[k].as_str());
            ac.remove_default(x);
            k = k + 1;
        }
        assert(strings_view(removed@).take(removed@.len() as int) =~= strings_view(removed@));
        ac
    }
}

/// Pairs lowercased and set in turn.
pub open spec fn lowered_pairs_insert(rows: Seq<(Seq<char>, Seq<char>)>) -> Seq<(Seq<char>, Seq<char>)>
    decreases rows.len(),
{
    if rows.len() == 0 {
        seq![]
    } else {
        map_insert(lowered_pairs_insert(rows.drop_last()), unicode_lowercase(rows.last().0), unicode_lowercase(rows.last().1))
    }
}

/// Names lowercased and added in turn to a set.
pub open spec fn lowered_set(rows: Seq<Seq<char>>) -> Seq<Seq<char>>
    decreases rows.len(),
{
    if rows.len() == 0 {
        seq![]
    } else {
        set_insert(lowered_set(rows.drop_last()), unicode_lowercase(rows.last()))
    }
}

} // verus!
