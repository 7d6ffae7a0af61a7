//! Web sessions: the session cookies the dashboard sends and sets.

use vstd::prelude::*;
use crate::platform::{ChannelId, Platform, IdView, id_view_text};
use crate::text::{to_chars, string_from_range, trim, trim_ws, str_seq_eq, cat5, after_first, strings_view};

verus! {

/// The pieces of `s` between the separators `c` (`str::split(c)`): one more
/// piece than there are separators, empty pieces included.
pub open spec fn split_on(s: Seq<char>, c: char) -> Seq<Seq<char>>
    decreases s.len(),
{
    if s.len() == 0 {
        seq![seq![]]
    } else {
        let rest = split_on(s.drop_last(), c);
        if s.last() == c {
            rest.push(seq![])
        } else {
            rest.update(rest.len() - 1, rest.last().push(s.last()))
        }
    }
}

pub proof fn lemma_split_on_nonempty(s: Seq<char>, c: char)
    ensures
        split_on(s, c).len() >= 1,
    decreases s.len(),
{
    if s.len() > 0 {
        lemma_split_on_nonempty(s.drop_last(), c);
    }
}

/// The text before the first `c`, or all of `s` without one.
pub open spec fn before_first(s: Seq<char>, c: char) -> Seq<char>
    decreases s.len(),
{
    if s.len() == 0 {
        seq![]
    } else if s[0] == c {
        seq![]
    } else {
        seq![s[0]] + before_first(s.skip(1), c)
    }
}

/// The value of cookie `name` in one `name=value` piece.
pub open spec fn piece_value(piece: Seq<char>, name: Seq<char>) -> Option<Seq<char>> {
    let p = trim_ws(piece);
    if before_first(p, '=') == name {
        after_first(p, '=')
    } else {
        None
    }
}

/// The value of the first piece that gives one.
pub open spec fn first_value(pieces: Seq<Seq<char>>, name: Seq<char>) -> Option<Seq<char>>
    decreases pieces.len(),
{
    if pieces.len() == 0 {
        None
    } else {
        match piece_value(pieces[0], name) {
            Some(v) => Some(v),
            None => first_value(pieces.skip(1), name),
        }
    }
}

/// Splits `s` at each `c`.
fn split_at_char(s: &str, c: char) -> (r: Vec<String>)
    ensures
        strings_view(r@) == split_on(s@, c),
{
    let v = to_chars(s);
    let mut out: Vec<String> = Vec::new();
    let mut start: usize = 0;
    let mut i: usize = 0;
    assert(v@.take(0) =~= Seq::<char>::empty());
    assert(strings_view(out@).push(v@.subrange(0, 0)) =~= seq![Seq::<char>::empty()]);
    while i < v.len()
        invariant
            v@ == s@,
            start <= i <= v@.len(),
            strings_view(out@).push(v@.subrange(start as int, i as int)) == split_on(v@.take(i as int), c),
        decreases v@.len() - i,
    {
        let ghost prev = strings_view(out@);
        assert(v@.take(i + 1).drop_last() =~= v@.take(i as int));
        assert(v@.take(i + 1).last() == v@[i as int]);
        if v[i] == c {
            let piece = string_from_range(&v, start, i);
            out.push(piece);
            assert(strings_view(out@) =~= prev.push(piece@));
            assert(v@.subrange((i + 1) as int, (i + 1) as int) =~= Seq::<char>::empty());
            start = i + 1;
        } else {
            assert(v@.subrange(start as int, i + 1) =~= v@.subrange(start as int, i as int).push(v@[i as int]));
        }
        i = i + 1;
    }
    let last = string_from_range(&v, start, v.len());
    let ghost prev = strings_view(out@);
    out.push(last);
    assert(strings_view(out@) =~= prev.push(last@));
    assert(v@.take(v@.len() as int) =~= v@);
    out
}

/// The text before the first `c` of `s`.
pub fn text_before_first(s: &str, c: char) -> (r: String)
    ensures
        r@ == before_first(s@, c),
{
    let v = to_chars(s);
    let mut i: usize = 0;
    assert(v@.skip(0) =~= v@);
    assert(v@.take(0) =~= Seq::<char>::empty());
    while i < v.len() && v[i] != c
        invariant
            v@ == s@,
            i <= v@.len(),
            forall|j: int| 0 <= j < i ==> v@[j] != c,
            before_first(s@, c) == v@.take(i as int) + before_first(v@.skip(i as int), c),
        decreases v@.len() - i,
    {
        assert(v@.skip(i as int)[0] == v@[i as int]);
        assert(v@.skip(i as int).skip(1) =~= v@.skip(i + 1));
        assert(v@.take(i + 1) =~= v@.take(i as int) + seq![v@[i as int]]);
        i = i + 1;
    }
    assert(before_first(v@.skip(i as int), c) =~= Seq::<char>::empty());
    let r = string_from_range(&v, 0, i);
    assert(r@ =~= v@.take(i as int));
    r
}

/// The value of cookie `name` in a `Cookie` header: the first `;`-separated
/// piece that, trimmed, reads `name=value`.
pub fn get_cookie(cookies: &str, name: &str) -> (r: Option<String>)
    ensures
        match r {
            Some(v) => first_value(split_on(cookies@, ';'), name@) == Some(v@),
            None => first_value(split_on(cookies@, ';'), name@) is None,
        },
{
    let pieces = split_at_char(cookies, ';');
    let ghost ps = split_on(cookies@, ';');
    let mut i: usize = 0;
    assert(ps.skip(0) =~= ps);
    while i < pieces.len()
        invariant
            strings_view(pieces@) == ps,
            ps == split_on(cookies@, ';'),
            i <= pieces@.len(),
            first_value(ps, name@) == first_value(ps.skip(i as int), name@),
        decreases pieces@.len() - i,
    {
        assert(ps.skip(i as int)[0] == pieces@[i as int]@);
        assert(ps.skip(i as int).skip(1) =~= ps.skip(i + 1));
        let p = trim(pieces[i].as_str());
        let key = text_before_first(p.as_str(), '=');
        if str_seq_eq(key.as_str(), name) {
            match crate::text::text_after_first(p.as_str(), '=') {
                Some(v) => {
                    assert(piece_value(ps.skip(i as int)[0], name@) == Some(v@));
                    assert(ps.skip(i as int).len() > 0);
                    assert(first_value(ps.skip(i as int), name@) == Some(v@));
                    return Some(v);
                },
                None => {},
            }
        }
        i = i + 1;
    }
    None
}

/// The cookie that holds the session of a platform.
pub open spec fn session_cookie_name(p: Platform) -> Seq<char> {
    match p {
        Platform::Twitch => "session_twitch"@,
        Platform::Kick => "session_kick"@,
        Platform::Obs => "session_obs"@,
    }
}

/// The name of the cookie that holds a platform's session.
pub fn platform_session_cookie(platform: Platform) -> (r: &'static str)
    ensures
        r@ == session_cookie_name(platform),
{
    match platform {
        Platform::Twitch => "session_twitch",
        Platform::Kick => "session_kick",
        Platform::Obs => "session_obs",
    }
}

pub open spec fn cookie_attributes() -> Seq<char> {
    "Path=/; HttpOnly; SameSite=None; Secure"@
}

/// The attributes every session cookie is set with.
pub fn default_cookie_attributes() -> (r: &'static str)
    ensures
        r@ == cookie_attributes(),
{
    "Path=/; HttpOnly; SameSite=None; Secure"
}

/// A `Set-Cookie` value: `name=value; ` and the default attributes.
pub fn session_cookie_header(name: &str, value: &str) -> (r: String)
    ensures
        r@ == name@ + "="@ + value@ + "; "@ + cookie_attributes(),
{
    cat5(name, "=", value, "; ", default_cookie_attributes())
}

/// The session ids a `Cookie` header carries, in the order they are tried:
/// the generic `session_id`, then Twitch's, then Kick's.
pub open spec fn session_candidates_spec(cookies: Seq<char>) -> Seq<Seq<char>> {
    let ps = split_on(cookies, ';');
    let a = first_value(ps, "session_id"@);
    let b = first_value(ps, session_cookie_name(Platform::Twitch));
    let c = first_value(ps, session_cookie_name(Platform::Kick));
    (if a is Some { seq![a->0] } else { seq![] })
        + (if b is Some { seq![b->0] } else { seq![] })
        + (if c is Some { seq![c->0] } else { seq![] })
}

/// The session ids in a `Cookie` header, in the order they are tried.
pub fn session_candidates(cookies: &str) -> (r: Vec<String>)
    ensures
        strings_view(r@) == session_candidates_spec(cookies@),
{
    let mut out: Vec<String> = Vec::new();
    let a = get_cookie(cookies, "session_id");
    let b = get_cookie(cookies, platform_session_cookie(Platform::Twitch));
    let c = get_cookie(cookies, platform_session_cookie(Platform::Kick));
    let ghost s0 = strings_view(out@);
    match a {
        Some(x) => out.push(x),
        None => {},
    }
    let ghost s1 = strings_view(out@);
    match b {
        Some(x) => out.push(x),
        None => {},
    }
    let ghost s2 = strings_view(out@);
    match c {
        Some(x) => out.push(x),
        None => {},
    }
    assert(strings_view(out@) =~= session_candidates_spec(cookies@));
    out
}

/// A dashboard session: its id and the channel it is logged in as.
pub struct WebSession {
    pub session_id: String,
    pub channel: ChannelId,
}

/// The first of `found[..=i]` per channel are kept.
pub open spec fn first_per_channel(found: Seq<(Seq<char>, IdView)>) -> Seq<(Seq<char>, IdView)>
    decreases found.len(),
{
    if found.len() == 0 {
        seq![]
    } else {
        let rest = first_per_channel(found.drop_last());
        let x = found.last();
        if exists|j: int| 0 <= j < found.len() - 1 && found[j].1 == x.1 {
            rest
        } else {
            rest.push(x)
        }
    }
}

pub open spec fn sessions_view(v: Seq<WebSession>) -> Seq<(Seq<char>, IdView)> {
    v.map_values(|w: WebSession| (w.session_id@, w.channel@))
}

/// The sessions found for the tried ids, one per channel (the first found).
pub fn collect_sessions(found: Vec<WebSession>) -> (r: Vec<WebSession>)
    ensures
        sessions_view(r@) == first_per_channel(sessions_view(found@)),
{
    let ghost f = sessions_view(found@);
    let mut out: Vec<WebSession> = Vec::new();
    let mut seen: Vec<ChannelId> = Vec::new();
    let mut rest = found;
    assert(sessions_view(rest@) =~= f.skip(0));
    let mut i: usize = 0;
    let n = rest.len();
    while i < n
        invariant
            n == f.len(),
            i <= n,
            rest@.len() == n - i,
            sessions_view(rest@) == f.skip(i as int),
            sessions_view(out@) == first_per_channel(f.take(i as int)),
            seen@.len() == i,
            forall|j: int| 0 <= j < i ==> (#[trigger] seen@[j])@ == f[j].1,
        decreases n - i,
    {
        let ghost prev = sessions_view(out@);
        let ghost before = rest@;
        let w = rest.remove(0);
        assert(w.session_id@ == f[i as int].0 && w.channel@ == f[i as int].1) by {
            assert(sessions_view(before)[0] == f.skip(i as int)[0]);
        }
        assert(sessions_view(rest@) =~= f.skip(i + 1)) by {
            assert(rest@ == before.remove(0));
            assert forall|k: int| 0 <= k < rest@.len() implies sessions_view(rest@)[k] == f.skip(i + 1)[k] by {
                assert(rest@[k] == before[k + 1]);
                assert(sessions_view(before)[k + 1] == f.skip(i as int)[k + 1]);
            }
        }
        let mut dup = false;
        let mut j: usize = 0;
        while j < seen.len()
            invariant
                j <= seen@.len(),
                dup == exists|k: int| 0 <= k < j && seen@[k]@ == w.channel@,
            decreases seen@.len() - j,
        {
            if seen[j].same(&w.channel) {
                dup = true;
            }
            j = j + 1;
        }
        let ghost g = f.take(i + 1);
        assert(g.drop_last() =~= f.take(i as int));
        assert(g.last() == f[i as int]);
        assert(dup == exists|k: int| 0 <= k < g.len() - 1 && #[trigger] g[k].1 == g.last().1) by {
            if dup {
                let k = choose|k: int| 0 <= k < i && seen@[k]@ == w.channel@;
                assert(g[k].1 == f[k].1);
            }
            if exists|k: int| 0 <= k < g.len() - 1 && #[trigger] g[k].1 == g.last().1 {
                let k = choose|k: int| 0 <= k < g.len() - 1 && #[trigger] g[k].1 == g.last().1;
                assert(seen@[k]@ == f[k].1);
            }
        }
        let ch = w.channel.duplicate();
        if !dup {
            out.push(w);
            assert(sessions_view(out@) =~= prev.push((f[i as int].0, f[i as int].1)));
        }
        seen.push(ch);
        i = i + 1;
    }
    assert(f.take(n as int) =~= f);
    out
}

} // verus!
