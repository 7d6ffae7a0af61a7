//! Chat platforms and the `platform:name` identifiers of channels and users.

use vstd::prelude::*;
use crate::text::{to_chars, push_char};

verus! {

/// A chat platform the bot talks to.
#[derive(Debug, Clone, Copy, PartialEq, Eq, Structural, Hash)]
pub enum Platform {
    Twitch,
    Kick,
    Obs,
}

/// The lowercase name of a platform, as stored and displayed.
pub open spec fn platform_name(p: Platform) -> Seq<char> {
    match p {
        Platform::Twitch => seq!['t', 'w', 'i', 't', 'c', 'h'],
        Platform::Kick => seq!['k', 'i', 'c', 'k'],
        Platform::Obs => seq!['o', 'b', 's'],
    }
}

/// The platform whose name is `s`, if any.
pub open spec fn platform_named(s: Seq<char>) -> Option<Platform> {
    if s == platform_name(Platform::Twitch) {
        Some(Platform::Twitch)
    } else if s == platform_name(Platform::Kick) {
        Some(Platform::Kick)
    } else if s == platform_name(Platform::Obs) {
        Some(Platform::Obs)
    } else {
        None
    }
}

/// Exact equality of two string slices.
pub fn str_equals(a: &str, b: &str) -> (r: bool)
    ensures
        r == (a@ == b@),
{
    let va = to_chars(a);
    let vb = to_chars(b);
    if va.len() != vb.len() {
        return false;
    }
    let mut i: usize = 0;
    while i < va.len()
        invariant
            va@ == a@,
            vb@ == b@,
            va@.len() == vb@.len(),
            i <= va@.len(),
            forall|j: int| 0 <= j < i ==> va@[j] == vb@[j],
        decreases va@.len() - i,
    {
        if va[i] != vb[i] {
            return false;
        }
        i = i + 1;
    }
    assert(a@ =~= b@);
    true
}

impl Platform {
    /// The platform's name (`"twitch"`, `"kick"` or `"obs"`).
    pub fn as_str(&self) -> (r: &'static str)
        ensures
            r@ == platform_name(*self),
    {
        match self {
            Platform::Twitch => {
                proof {
                    reveal_strlit("twitch");
                }
                "twitch"
            },
            Platform::Kick => {
                proof {
                    reveal_strlit("kick");
                }
                "kick"
            },
            Platform::Obs => {
                proof {
                    reveal_strlit("obs");
                }
                "obs"
            },
        }
    }

    /// The platform's name as an owned string (its display form).
    pub fn to_display_string(&self) -> (r: String)
        ensures
            r@ == platform_name(*self),
    {
        self.as_str().to_owned()
    }

    /// Parses a platform name; anything but the three exact names is refused.
    pub fn from_str(s: &str) -> (r: Result<Platform, &'static str>)
        ensures
            match r {
                Ok(p) => platform_named(s@) == Some(p),
                Err(e) => platform_named(s@) is None && e@ == "Invalid platform"@,
            },
    {
        if str_equals(s, Platform::Twitch.as_str()) {
            Ok(Platform::Twitch)
        } else if str_equals(s, Platform::Kick.as_str()) {
            Ok(Platform::Kick)
        } else if str_equals(s, Platform::Obs.as_str()) {
            Ok(Platform::Obs)
        } else {
            Err("Invalid platform")
        }
    }
}

/// Whether a name may stand after `platform:` in an identifier.
pub open spec fn valid_name(s: Seq<char>) -> bool {
    s.len() > 0 && !s.contains(':')
}

/// The text form `platform:name` of an identifier.
pub open spec fn id_text(p: Platform, name: Seq<char>) -> Seq<char> {
    platform_name(p) + seq![':'] + name
}

/// Abstract value of a channel or user identifier.
pub struct IdView {
    pub platform: Platform,
    pub name: Seq<char>,
}

pub open spec fn id_view_text(v: IdView) -> Seq<char> {
    id_text(v.platform, v.name)
}

/// Builds `platform:name`.
pub(crate) fn make_id_text(p: Platform, name: &str) -> (s: String)
    ensures
        s@ == id_text(p, name@),
{
    let mut s = p.to_display_string();
    push_char(&mut s, ':');
    s.append(name);
    s
}

/// Splits `s` at its first `:`; `None` when there is no `:`.
#[verifier::opaque]
pub open spec fn split_first_colon(s: Seq<char>) -> Option<(Seq<char>, Seq<char>)> {
    if s.contains(':') {
        let i = choose|i: int| 0 <= i < s.len() && s[i] == ':' && !s.take(i).contains(':');
        Some((s.take(i), s.skip(i + 1)))
    } else {
        None
    }
}

proof fn lemma_first_colon(s: Seq<char>, i: int)
    requires
        0 <= i < s.len(),
        s[i] == ':',
        !s.take(i).contains(':'),
    ensures
        split_first_colon(s) == Some((s.take(i), s.skip(i + 1))),
{
    reveal(split_first_colon);
    assert(s.contains(':'));
    let k = choose|k: int| 0 <= k < s.len() && s[k] == ':' && !s.take(k).contains(':');
    if k < i {
        assert(s.take(i)[k] == ':');
    } else if k > i {
        assert(s.take(k)[i] == ':');
    }
}

/// The name of a platform never holds `:`.
proof fn lemma_platform_name_no_colon(p: Platform)
    ensures
        !platform_name(p).contains(':'),
{
    let n = platform_name(p);
    assert forall|i: int| 0 <= i < n.len() implies n[i] != ':' by {}
}

/// Splitting an identifier's text at the first `:` gives back its parts.
pub proof fn lemma_id_text_split(p: Platform, name: Seq<char>)
    ensures
        split_first_colon(id_text(p, name)) == Some((platform_name(p), name)),
{
    let s = id_text(p, name);
    let k = platform_name(p).len() as int;
    lemma_platform_name_no_colon(p);
    assert(s.take(k) =~= platform_name(p));
    assert(s.skip(k + 1) =~= name);
    lemma_first_colon(s, k);
}

/// Two identifiers with the same text are the same identifier.
pub proof fn lemma_id_text_injective(p1: Platform, n1: Seq<char>, p2: Platform, n2: Seq<char>)
    requires
        id_text(p1, n1) == id_text(p2, n2),
    ensures
        p1 == p2,
        n1 == n2,
{
    lemma_id_text_split(p1, n1);
    lemma_id_text_split(p2, n2);
    lemma_platform_name_injective(p1, p2);
}

/// Distinct platforms have distinct names.
pub proof fn lemma_platform_name_injective(p1: Platform, p2: Platform)
    requires
        platform_name(p1) == platform_name(p2),
    ensures
        p1 == p2,
{
    let a = platform_name(p1);
    let b = platform_name(p2);
    assert(a.len() == b.len());
    assert(a[0] == b[0]);
}

/// Splits at the first `:`, as `str::split_once(':')`.
pub fn split_once_colon(s: &str) -> (r: Option<(String, String)>)
    ensures
        match r {
            Some((a, b)) => split_first_colon(s@) == Some((a@, b@)),
            None => split_first_colon(s@) is None,
        },
{
    let v = to_chars(s);
    let mut i: usize = 0;
    while i < v.len()
        invariant
            v@ == s@,
            i <= v@.len(),
            !v@.take(i as int).contains(':'),
        decreases v@.len() - i,
    {
        if v[i] == ':' {
            proof {
                lemma_first_colon(s@, i as int);
            }
            let a = crate::text::string_from_range(&v, 0, i);
            let b = crate::text::string_from_range(&v, i + 1, v.len());
            assert(v@.subrange(0, i as int) =~= s@.take(i as int));
            assert(v@.subrange(i + 1, v@.len() as int) =~= s@.skip(i + 1));
            return Some((a, b));
        }
        assert(v@.take(i + 1) =~= v@.take(i as int).push(v@[i as int]));
        i = i + 1;
    }
    assert(v@.take(i as int) =~= s@);
    proof {
        reveal(split_first_colon);
    }
    None
}

/// Whether `s` holds a `:`.
pub fn contains_colon(s: &str) -> (r: bool)
    ensures
        r == s@.contains(':'),
{
    let v = to_chars(s);
    let mut i: usize = 0;
    while i < v.len()
        invariant
            v@ == s@,
            i <= v@.len(),
            forall|j: int| 0 <= j < i ==> v@[j] != ':',
        decreases v@.len() - i,
    {
        if v[i] == ':' {
            return true;
        }
        i = i + 1;
    }
    false
}

/// A channel on a platform, written `platform:channel`.
pub struct ChannelId {
    platform: Platform,
    channel: String,
    text: String,
}

impl View for ChannelId {
    type V = IdView;

    closed spec fn view(&self) -> IdView {
        IdView { platform: self.platform, name: self.channel@ }
    }
}

impl ChannelId {
    /// The stored text equals `platform:channel`.
    pub closed spec fn wf(&self) -> bool {
        self.text@ == id_text(self.platform, self.channel@)
    }

    /// Builds the identifier of `channel` on `platform`.
    pub fn new(platform: Platform, channel: &str) -> (r: ChannelId)
        requires
            valid_name(channel@),
        ensures
            r@ == (IdView { platform, name: channel@ }),
            r.wf(),
    {
        ChannelId { platform, channel: channel.to_owned(), text: make_id_text(platform, channel) }
    }

    /// The text `platform:channel`.
    pub fn as_str(&self) -> (r: &str)
        requires
            self.wf(),
        ensures
            r@ == id_view_text(self@),
    {
        self.text.as_str()
    }

    pub fn platform(&self) -> (r: Platform)
        ensures
            r == self@.platform,
    {
        self.platform
    }

    /// The channel's name on its platform.
    pub fn channel(&self) -> (r: &str)
        ensures
            r@ == self@.name,
    {
        self.channel.as_str()
    }

    /// A copy of the identifier.
    pub fn duplicate(&self) -> (r: ChannelId)
        ensures
            r@ == self@,
            r.wf() == self.wf(),
    {
        ChannelId { platform: self.platform, channel: self.channel.clone(), text: self.text.clone() }
    }

    /// Whether two identifiers name the same channel.
    pub fn same(&self, other: &ChannelId) -> (r: bool)
        ensures
            r == (self@ == other@),
    {
        self.platform == other.platform && str_equals(self.channel.as_str(), other.channel.as_str())
    }

    /// Parses `platform:channel`, as `ChannelId`'s `FromStr`: the text is split
    /// at its first `:`, the platform must be one of the known names and the
    /// channel non-empty (an empty channel makes no id).
    pub fn from_str(s: &str) -> (r: Result<ChannelId, &'static str>)
        requires
            split_first_colon(s@) matches Some((_, c)) ==> valid_name(c),
        ensures
            match split_first_colon(s@) {
                None => r matches Err(e) && e@ == "invalid channel id"@,
                Some((p, c)) => match platform_named(p) {
                    None => r matches Err(e) && e@ == "Invalid platform"@,
                    Some(pl) => r matches Ok(id) && id@ == (IdView { platform: pl, name: c }) && id.wf(),
                },
            },
    {
        match split_once_colon(s) {
            None => Err("invalid channel id"),
            Some((p, c)) => {
                match Platform::from_str(p.as_str()) {
                    Err(e) => Err(e),
                    Ok(platform) => {
                        Ok(ChannelId::new(platform, c.as_str()))
                    },
                }
            },
        }
    }
}

/// A user on a platform, written `platform:platform_user_id`.
pub struct UserId {
    platform: Platform,
    user: String,
    text: String,
}

impl View for UserId {
    type V = IdView;

    closed spec fn view(&self) -> IdView {
        IdView { platform: self.platform, name: self.user@ }
    }
}

impl UserId {
    /// The stored text equals `platform:platform_user_id`.
    pub closed spec fn wf(&self) -> bool {
        self.text@ == id_text(self.platform, self.user@)
    }

    /// Builds the identifier of user `platform_user_id` on `platform`.
    pub fn new(platform: Platform, platform_user_id: &str) -> (r: UserId)
        requires
            valid_name(platform_user_id@),
        ensures
            r@ == (IdView { platform, name: platform_user_id@ }),
            r.wf(),
    {
        UserId {
            platform,
            user: platform_user_id.to_owned(),
            text: make_id_text(platform, platform_user_id),
        }
    }

    pub fn platform(&self) -> (r: Platform)
        ensures
            r == self@.platform,
    {
        self.platform
    }

    /// The user's id on its platform.
    pub fn platform_user_id(&self) -> (r: &str)
        ensures
            r@ == self@.name,
    {
        self.user.as_str()
    }

    /// The text `platform:platform_user_id`.
    pub fn as_str(&self) -> (r: &str)
        requires
            self.wf(),
        ensures
            r@ == id_view_text(self@),
    {
        self.text.as_str()
    }

    /// A copy of the identifier.
    pub fn duplicate(&self) -> (r: UserId)
        ensures
            r@ == self@,
            r.wf() == self.wf(),
    {
        UserId { platform: self.platform, user: self.user.clone(), text: self.text.clone() }
    }

    /// Whether two identifiers name the same user.
    pub fn same(&self, other: &UserId) -> (r: bool)
        ensures
            r == (self@ == other@),
    {
        self.platform == other.platform && str_equals(self.user.as_str(), other.user.as_str())
    }

    /// Parses `platform:platform_user_id`, as `UserId`'s `FromStr`.
    pub fn from_str(s: &str) -> (r: Result<UserId, &'static str>)
        requires
            split_first_colon(s@) matches Some((_, c)) ==> valid_name(c),
        ensures
            match split_first_colon(s@) {
                None => r matches Err(e) && e@ == "invalid channel id"@,
                Some((p, c)) => match platform_named(p) {
                    None => r matches Err(e) && e@ == "Invalid platform"@,
                    Some(pl) => r matches Ok(id) && id@ == (IdView { platform: pl, name: c }) && id.wf(),
                },
            },
    {
        match split_once_colon(s) {
            None => Err("invalid channel id"),
            Some((p, c)) => {
                match Platform::from_str(p.as_str()) {
                    Err(e) => Err(e),
                    Ok(platform) => Ok(UserId::new(platform, c.as_str())),
                }
            },
        }
    }
}

/// Unicode lowercase mapping of a whole string (std `str::to_lowercase`).
pub uninterp spec fn unicode_lowercase(s: Seq<char>) -> Seq<char>;

/// std `str::to_lowercase`. Trusted: the result is the Unicode lowercase
/// mapping of the input, a function of the input alone; nothing more is stated.
#[verifier::external_body]
pub(crate) fn to_lowercase(s: &str) -> (r: String)
    ensures
        r@ == unicode_lowercase(s@),
{
    s.to_lowercase()
}

/// Where a channel argument `@platform:name` or `@name` points: the platform
/// named before the first `:` (or `default`), and the lowercased name.
/// `Err(())` when the prefix names no platform.
pub open spec fn channel_arg_target(input: Seq<char>, default: Platform) -> Result<(Platform, Seq<char>), ()> {
    let s = crate::text::trim_start_char(input, '@');
    match split_first_colon(s) {
        Some((p, c)) => match platform_named(p) {
            Some(pl) => Ok((pl, unicode_lowercase(c))),
            None => Err(()),
        },
        None => Ok((default, unicode_lowercase(s))),
    }
}

/// Parses a channel argument: leading `@`s are dropped, `platform:name`
/// selects the platform, a bare name stays on `default_platform`; the name is
/// lowercased. A lowercased name that is empty or holds `:` makes no
/// channel id, so such inputs are left out.
pub fn parse_channel_id(input: &str, default_platform: Platform) -> (r: Result<ChannelId, crate::error::BotError>)
    requires
        channel_arg_target(input@, default_platform) matches Ok((_, c)) ==> valid_name(c),
    ensures
        match r {
            Ok(id) => channel_arg_target(input@, default_platform) == Ok::<(Platform, Seq<char>), ()>((id@.platform, id@.name)) && id.wf(),
            Err(e) => channel_arg_target(input@, default_platform) is Err && (e matches crate::error::BotError::Custom(m) && m@ == crate::error::invalid_platform_msg()),
        },
{
    let input = crate::text::trim_start_matches_char(input, '@');
    match split_once_colon(input.as_str()) {
        Some((p, c)) => match Platform::from_str(p.as_str()) {
            Ok(platform) => {
                let lower = to_lowercase(c.as_str());
                Ok(ChannelId::new(platform, lower.as_str()))
            },
            Err(_) => Err(crate::error::BotError::Custom(crate::error::invalid_platform())),
        },
        None => {
            let lower = to_lowercase(input.as_str());
            Ok(ChannelId::new(default_platform, lower.as_str()))
        },
    }
}

/// The parse of a channel argument, or `None` where `parse_channel_id`
/// would leave the input out (the lowercased name empty or holding `:`).
pub fn try_parse_channel_id(input: &str, default_platform: Platform) -> (r: Option<Result<ChannelId, crate::error::BotError>>)
    ensures
        match r {
            None => channel_arg_target(input@, default_platform) matches Ok((_, c)) && !valid_name(c),
            Some(Ok(id)) => channel_arg_target(input@, default_platform) == Ok::<(Platform, Seq<char>), ()>((id@.platform, id@.name)) && id.wf()
                && valid_name(id@.name),
            Some(Err(_)) => channel_arg_target(input@, default_platform) is Err,
        },
{
    let trimmed = crate::text::trim_start_matches_char(input, '@');
    let name = match split_once_colon(trimmed.as_str()) {
        Some((p, c)) => match Platform::from_str(p.as_str()) {
            Ok(_) => to_lowercase(c.as_str()),
            Err(_) => return Some(Err(crate::error::BotError::Custom(crate::error::invalid_platform()))),
        },
        None => to_lowercase(trimmed.as_str()),
    };
    if name.as_str().unicode_len() == 0 || contains_colon(name.as_str()) {
        return None;
    }
    Some(parse_channel_id(input, default_platform))
}

} // verus!
