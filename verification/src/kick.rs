//! Kick: what a chat message sends, the cache of broadcaster ids, and the
//! OAuth (PKCE) state of the bot's Kick account.

use vstd::prelude::*;
use base64::Engine;
use rand::RngCore;
use sha2::Digest;
use crate::text::{to_chars, string_from_range, trim, trim_ws, trim_start_char, trim_start_matches_char, ascii_lower_seq, to_ascii_lowercase, str_seq_eq, cat2, cat3, cat5, cat7, strings_view};
use crate::error::BotError;
use crate::chat_event::{JsonValue, json_parse, json_path, parse_json, json_value_at};

verus! {

/// The first `max_len` characters of `s`.
pub open spec fn take_chars(s: Seq<char>, max_len: int) -> Seq<char> {
    if s.len() <= max_len { s } else { s.take(max_len) }
}

/// The first `max_len` characters of `input`.
pub fn truncate_message(input: &str, max_len: usize) -> (r: String)
    ensures
        r@ == take_chars(input@, max_len as int),
{
    let v = to_chars(input);
    if v.len() <= max_len {
        let r = string_from_range(&v, 0, v.len());
        assert(r@ =~= input@);
        r
    } else {
        string_from_range(&v, 0, max_len)
    }
}

/// A channel slug as the cache keys it: trimmed, leading `@`s dropped, ASCII
/// lowercase.
pub open spec fn normalize_slug(s: Seq<char>) -> Seq<char> {
    ascii_lower_seq(trim_start_char(trim_ws(s), '@'))
}

pub fn normalize_channel_slug(channel_slug: &str) -> (r: String)
    ensures
        r@ == normalize_slug(channel_slug@),
{
    let t = trim(channel_slug);
    let u = trim_start_matches_char(t.as_str(), '@');
    to_ascii_lowercase(u.as_str())
}

/// What a Kick chat message carries: nothing for a blank message, else the
/// trimmed text cut to 500 characters.
pub open spec fn kick_content(content: Seq<char>) -> Option<Seq<char>> {
    let t = trim_ws(content);
    if t.len() == 0 { None } else { Some(take_chars(t, 500)) }
}

pub fn prepare_kick_content(content: &str) -> (r: Option<String>)
    ensures
        match r {
            Some(x) => kick_content(content@) == Some(x@),
            None => kick_content(content@) is None,
        },
{
    let t = trim(content);
    if t.as_str().unicode_len() == 0 {
        None
    } else {
        Some(truncate_message(t.as_str(), 500))
    }
}

/// Whether `p` occurs in `s`.
pub open spec fn contains_text(s: Seq<char>, p: Seq<char>) -> bool {
    exists|i: int| 0 <= i && i + p.len() <= s.len() && #[trigger] s.subrange(i, i + p.len()) == p
}

/// Whether `p` occurs in `s` (`str::contains`).
pub fn text_contains(s: &str, p: &str) -> (r: bool)
    ensures
        r == contains_text(s@, p@),
{
    let vs = to_chars(s);
    let vp = to_chars(p);
    let n = vs.len();
    let m = vp.len();
    if m > n {
        return false;
    }
    let mut i: usize = 0;
    while i <= n - m
        invariant
            vs@ == s@,
            vp@ == p@,
            n == s@.len(),
            m == p@.len(),
            m <= n,
            i <= n - m + 1,
            forall|k: int| 0 <= k < i ==> #[trigger] s@.subrange(k, k + m) != p@,
        decreases n - i,
    {
        let mut j: usize = 0;
        let mut same = true;
        while j < m
            invariant
                vs@ == s@,
                vp@ == p@,
                i + m <= n == s@.len(),
                m == p@.len(),
                j <= m,
                same == forall|k: int| 0 <= k < j ==> vs@[i + k] == vp@[k],
            decreases m - j,
        {
            if vs[i + j] != vp[j] {
                same = false;
            }
            j = j + 1;
        }
        if same {
            assert(s@.subrange(i as int, i + m) =~= p@);
            return true;
        }
        assert(s@.subrange(i as int, i + m) != p@) by {
            let k = choose|k: int| 0 <= k < m && !(vs@[i + k] == vp@[k]);
            assert(s@.subrange(i as int, i + m)[k] == vs@[i + k]);
        }
        i = i + 1;
    }
    assert forall|k: int| 0 <= k && k + p@.len() <= s@.len() implies #[trigger] s@.subrange(k, k + p@.len()) != p@ by {
        assert(k < i);
    }
    false
}

/// Which post of a Kick chat message was just made.
#[derive(Debug, Clone, Copy, PartialEq, Eq, Structural)]
pub enum KickSendStage {
    /// The user payload, with the broadcaster id as cached.
    User,
    /// The user payload again, with a freshly looked-up broadcaster id.
    UserFreshId,
    /// The bot payload.
    Bot,
}

/// What to do after a post answered with HTTP status `status`.
#[derive(Debug, Clone, Copy, PartialEq, Eq, Structural)]
pub enum KickSendNext {
    /// The answer stands: success, or the failure to report.
    Finish,
    /// Drop the cached broadcaster id, look it up again and post the user
    /// payload once more.
    RetryWithFreshId,
    /// Post the bot payload once.
    FallBackToBot,
}

/// The sending of a chat message to Kick: Kick can answer a stale broadcaster
/// id with a generic 500, so a user payload answered with 500 is retried once
/// with a fresh id; if that is answered with 500 too, the bot payload is
/// posted once. Any other answer, and any answer to the bot payload, stands.
pub fn after_kick_send(stage: KickSendStage, status: u16) -> (r: KickSendNext)
    ensures
        r == (if status != 500 {
            KickSendNext::Finish
        } else {
            match stage {
                KickSendStage::User => KickSendNext::RetryWithFreshId,
                KickSendStage::UserFreshId => KickSendNext::FallBackToBot,
                KickSendStage::Bot => KickSendNext::Finish,
            }
        }),
{
    if status != 500 {
        return KickSendNext::Finish;
    }
    match stage {
        KickSendStage::User => KickSendNext::RetryWithFreshId,
        KickSendStage::UserFreshId => KickSendNext::FallBackToBot,
        KickSendStage::Bot => KickSendNext::Finish,
    }
}

/// The error of a post Kick refused: `status` is the answer's status as
/// text (`500 Internal Server Error`), `body` its body.
pub fn kick_send_failure(stage: KickSendStage, status: &str, body: &str) -> (r: BotError)
    ensures
        r matches BotError::Custom(m) && m@ == "Kick send failed ("@
            + (if stage == KickSendStage::Bot { "bot"@ } else { "user"@ }) + " payload) ("@ + status@ + "): "@ + body@,
{
    let kind = if stage == KickSendStage::Bot { "bot" } else { "user" };
    let head = crate::text::cat3("Kick send failed (", kind, " payload) (");
    let tail = crate::text::cat3(head.as_str(), status, "): ");
    BotError::Custom(crate::text::cat2(tail.as_str(), body))
}

/// `dashmap::DashMap`, held as it is.
#[verifier::external_type_specification]
#[verifier::external_body]
#[verifier::reject_recursive_types(K)]
#[verifier::reject_recursive_types(V)]
#[verifier::reject_recursive_types(S)]
pub struct ExDashMap<K, V, S>(dashmap::DashMap<K, V, S>);

/// What a map of broadcaster ids holds: channel slug to id.
pub uninterp spec fn id_map_contents(m: dashmap::DashMap<String, u64>) -> Map<Seq<char>, u64>;

/// `DashMap::new`. Trusted: a new map holds nothing.
#[verifier::external_body]
fn new_id_map() -> (r: dashmap::DashMap<String, u64>)
    ensures
        id_map_contents(r).dom() == Set::<Seq<char>>::empty(),
{
    dashmap::DashMap::new()
}

/// `DashMap::get`, the id copied out of the guard. Trusted: the id stored
/// under the key, if any.
#[verifier::external_body]
fn id_map_get(m: &dashmap::DashMap<String, u64>, key: &str) -> (r: Option<u64>)
    ensures
        r == id_map_contents(*m).get(key@),
{
    m.get(key).map(|e| *e.value())
}

/// `DashMap::insert`. Trusted: the key then holds the id and every other
/// key what it held.
#[verifier::external_body]
fn id_map_insert(m: &mut dashmap::DashMap<String, u64>, key: String, id: u64)
    ensures
        id_map_contents(*final(m)) == id_map_contents(*old(m)).insert(key@, id),
{
    m.insert(key, id);
}

/// `DashMap::remove`. Trusted: the key then holds nothing and every other
/// key what it held.
#[verifier::external_body]
fn id_map_remove(m: &mut dashmap::DashMap<String, u64>, key: &str)
    ensures
        id_map_contents(*final(m)) == id_map_contents(*old(m)).remove(key@),
{
    m.remove(key);
}

/// Broadcaster user ids by channel slug.
pub struct BroadcasterCache {
    ids: dashmap::DashMap<String, u64>,
}

impl View for BroadcasterCache {
    type V = Map<Seq<char>, u64>;

    closed spec fn view(&self) -> Map<Seq<char>, u64> {
        id_map_contents(self.ids)
    }
}

impl BroadcasterCache {
    pub fn new() -> (r: BroadcasterCache)
        ensures
            r@ == Map::<Seq<char>, u64>::empty(),
    {
        let ids = new_id_map();
        assert(id_map_contents(ids) =~= Map::<Seq<char>, u64>::empty());
        BroadcasterCache { ids }
    }

    /// The cached id of a channel (its slug normalized first).
    pub fn lookup(&self, channel_slug: &str) -> (r: Option<u64>)
        ensures
            r == self@.get(normalize_slug(channel_slug@)),
    {
        let key = normalize_channel_slug(channel_slug);
        id_map_get(&self.ids, key.as_str())
    }

    /// Forgets the cached id of a channel.
    pub fn remove(&mut self, channel_slug: &str)
        ensures
            final(self)@ == old(self)@.remove(normalize_slug(channel_slug@)),
    {
        let key = normalize_channel_slug(channel_slug);
        id_map_remove(&mut self.ids, key.as_str());
    }
}

/// Records the broadcaster id of a channel, keyed by its normalized slug.
pub fn prime_broadcaster_user_id(cache: &mut BroadcasterCache, channel_slug: &str, broadcaster_user_id: u64)
    ensures
        final(cache)@ == old(cache)@.insert(normalize_slug(channel_slug@), broadcaster_user_id),
{
    let key = normalize_channel_slug(channel_slug);
    id_map_insert(&mut cache.ids, key, broadcaster_user_id);
}

/// The broadcaster id in Kick's channel answer: `user.id`, a whole number.
pub open spec fn broadcaster_id_in(v: JsonValue) -> Option<u64> {
    match json_path(v, seq!["user"@, "id"@]) {
        Some(JsonValue::Number(Some(n))) => Some(n),
        _ => None,
    }
}

/// Reads the broadcaster id from the body of Kick's channel answer: a body
/// that is not JSON is a `Json` error, one without the id a `Custom` one.
pub fn broadcaster_id_from_body(body: &str) -> (r: Result<u64, BotError>)
    ensures
        match json_parse(body@) {
            Err(e) => r matches Err(BotError::Json(m)) && m@ == e,
            Ok(v) => match broadcaster_id_in(v) {
                Some(n) => r matches Ok(x) && x == n,
                None => r matches Err(BotError::Custom(m)) && m@ == "Kick response missing user.id for broadcaster"@,
            },
        },
{
    let v = match parse_json(body) {
        Ok(v) => v,
        Err(e) => return Err(BotError::Json(e)),
    };
    let path: Vec<&str> = vec!["user", "id"];
    proof {
        assert(path@.map_values(|k: &str| k@) =~= seq!["user"@, "id"@]);
    }
    match json_value_at(&v, &path) {
        Some(JsonValue::Number(Some(n))) => Ok(*n),
        _ => Err(BotError::Custom("Kick response missing user.id for broadcaster".to_owned())),
    }
}

/// Bytes kept as they are by URL encoding: ASCII letters and digits and
/// `-`, `.`, `_`, `~`.
pub open spec fn url_safe_byte(b: u8) -> bool {
    (48 <= b <= 57) || (65 <= b <= 90) || (97 <= b <= 122) || b == 45 || b == 46 || b == 95 || b == 126
}

/// An uppercase hexadecimal digit.
pub open spec fn hex_upper(d: int) -> char {
    if d < 10 { (48 + d) as char } else { (55 + d) as char }
}

/// Percent-encoding of bytes: safe bytes as they are, every other byte as
/// `%` and two uppercase hex digits.
pub open spec fn url_encode_bytes(bs: Seq<u8>) -> Seq<char>
    decreases bs.len(),
{
    if bs.len() == 0 {
        seq![]
    } else {
        let b = bs.last();
        url_encode_bytes(bs.drop_last()) + if url_safe_byte(b) {
            seq![b as char]
        } else {
            seq!['%', hex_upper(b as int / 16), hex_upper(b as int % 16)]
        }
    }
}

/// Percent-encoding of the UTF-8 bytes of a text.
pub open spec fn url_encode(s: Seq<char>) -> Seq<char> {
    url_encode_bytes(vstd::utf8::encode_utf8(s))
}

/// `urlencoding::encode`. Trusted: as its documentation and source show,
/// every UTF-8 byte of the text is kept when it is an ASCII letter, digit,
/// `-`, `.`, `_` or `~` and written `%XX` (uppercase hex) otherwise.
#[verifier::external_body]
pub(crate) fn url_encode_str(s: &str) -> (r: String)
    ensures
        r@ == url_encode(s@),
{
    urlencoding::encode(s).into_owned()
}

/// The SHA-256 digest of some bytes.
pub uninterp spec fn sha256_digest(data: Seq<u8>) -> Seq<u8>;

/// `sha2::Sha256::digest`. Trusted: the digest depends on the bytes alone
/// and is 32 bytes long.
#[verifier::external_body]
pub(crate) fn sha256(data: &[u8]) -> (r: Vec<u8>)
    ensures
        r@ == sha256_digest(data@),
        r@.len() == 32,
{
    sha2::Sha256::digest(data).to_vec()
}

/// The character of the URL-safe base64 alphabet for a 6-bit value:
/// `A`-`Z`, `a`-`z`, `0`-`9`, `-`, `_`.
pub open spec fn base64_url_char(v: int) -> char {
    if v < 26 {
        ('A' as int + v) as char
    } else if v < 52 {
        ('a' as int + (v - 26)) as char
    } else if v < 62 {
        ('0' as int + (v - 52)) as char
    } else if v == 62 {
        '-'
    } else {
        '_'
    }
}

/// URL-safe base64 without padding (RFC 4648, section 5): each three bytes,
/// read as a 24-bit number, give four characters of six bits each, highest
/// first; two bytes left over give three characters and one byte two, the
/// last one filled with zero bits; no `=` is added.
pub open spec fn base64_url_nopad(data: Seq<u8>) -> Seq<char>
    decreases data.len(),
{
    if data.len() == 0 {
        seq![]
    } else if data.len() == 1 {
        let n = data[0] as int;
        seq![base64_url_char(n / 4), base64_url_char((n % 4) * 16)]
    } else if data.len() == 2 {
        let n = data[0] as int * 256 + data[1] as int;
        seq![base64_url_char(n / 1024), base64_url_char((n / 16) % 64), base64_url_char((n % 16) * 4)]
    } else {
        let n = data[0] as int * 65536 + data[1] as int * 256 + data[2] as int;
        seq![base64_url_char(n / 262144), base64_url_char((n / 4096) % 64), base64_url_char((n / 64) % 64),
            base64_url_char(n % 64)] + base64_url_nopad(data.skip(3))
    }
}

/// `base64::engine::general_purpose::URL_SAFE_NO_PAD.encode`. Trusted: the
/// text is the URL-safe base64 of the bytes, without padding.
#[verifier::external_body]
pub(crate) fn base64_url_encode(data: &[u8]) -> (r: String)
    ensures
        r@ == base64_url_nopad(data@),
{
    base64::engine::general_purpose::URL_SAFE_NO_PAD.encode(data)
}

/// `n` random bytes from the thread RNG (`RngCore::fill_bytes`). Trusted:
/// there are `n` of them; their values are left to chance.
#[verifier::external_body]
fn random_bytes(n: usize) -> (r: Vec<u8>)
    ensures
        r@.len() == n,
{
    let mut v = vec![0u8; n];
    rand::rng().fill_bytes(&mut v);
    v
}

/// A random URL-safe token: `len_bytes` random bytes in URL-safe base64.
pub fn random_urlsafe(len_bytes: usize) -> (r: String)
    ensures
        exists|b: Seq<u8>| b.len() == len_bytes && r@ == base64_url_nopad(b),
{
    let b = random_bytes(len_bytes);
    base64_url_encode(b.as_slice())
}

/// The PKCE challenge of a verifier: URL-safe base64 of its SHA-256 digest.
pub open spec fn challenge_of(verifier: Seq<char>) -> Seq<char> {
    base64_url_nopad(sha256_digest(vstd::utf8::encode_utf8(verifier)))
}

pub fn code_challenge_s256(verifier: &str) -> (r: String)
    ensures
        r@ == challenge_of(verifier@),
{
    let digest = sha256(verifier.as_bytes());
    base64_url_encode(digest.as_slice())
}

/// A token answer of Kick's OAuth server.
pub struct TokenResponse {
    pub access_token: String,
    pub refresh_token: Option<String>,
    /// Seconds until the access token expires.
    pub expires_in: Option<u64>,
    pub token_type: Option<String>,
    pub scope: Option<String>,
}

/// An authorization in progress.
pub struct PkceState {
    pub code_verifier: String,
    pub redirect_uri: String,
}

pub open spec fn opt_text(o: Option<String>) -> Option<Seq<char>> {
    match o {
        Some(x) => Some(x@),
        None => None,
    }
}

/// The bot's Kick OAuth state. Times are seconds on the caller's monotonic
/// clock.
pub struct KickAuthManager {
    access_token: Option<String>,
    refresh_token: Option<String>,
    expires_at: Option<u64>,
    client_id: Option<String>,
    client_secret: Option<String>,
    pending: dashmap::DashMap<String, PkceState>,
}

pub struct KickAuthView {
    pub access_token: Option<Seq<char>>,
    pub refresh_token: Option<Seq<char>>,
    pub expires_at: Option<u64>,
    pub client_id: Option<Seq<char>>,
    pub client_secret: Option<Seq<char>>,
    /// Authorizations in progress: state to verifier and redirect address.
    pub pending: Map<Seq<char>, (Seq<char>, Seq<char>)>,
}

/// What a map of pending authorizations holds: state to verifier and
/// redirect address.
pub uninterp spec fn pending_contents(m: dashmap::DashMap<String, PkceState>) -> Map<Seq<char>, (Seq<char>, Seq<char>)>;

/// `DashMap::new`. Trusted: a new map holds nothing.
#[verifier::external_body]
fn new_pending_map() -> (r: dashmap::DashMap<String, PkceState>)
    ensures
        pending_contents(r).dom() == Set::<Seq<char>>::empty(),
{
    dashmap::DashMap::new()
}

/// `DashMap::insert`. Trusted: the state then holds the authorization and
/// every other state what it held.
#[verifier::external_body]
fn pending_insert(m: &mut dashmap::DashMap<String, PkceState>, state: String, pkce: PkceState)
    ensures
        pending_contents(*final(m)) == pending_contents(*old(m)).insert(state@, (pkce.code_verifier@, pkce.redirect_uri@)),
{
    m.insert(state, pkce);
}

/// `DashMap::remove`, the removed authorization handed out. Trusted: it is
/// the one the state held, if any, and the state then holds nothing.
#[verifier::external_body]
fn pending_remove(m: &mut dashmap::DashMap<String, PkceState>, state: &str) -> (r: Option<PkceState>)
    ensures
        pending_contents(*final(m)) == pending_contents(*old(m)).remove(state@),
        match r {
            Some(p) => pending_contents(*old(m)).get(state@) == Some((p.code_verifier@, p.redirect_uri@)),
            None => pending_contents(*old(m)).get(state@) is None,
        },
{
    m.remove(state).map(|(_, p)| p)
}

impl View for KickAuthManager {
    type V = KickAuthView;

    closed spec fn view(&self) -> KickAuthView {
        KickAuthView {
            access_token: opt_text(self.access_token),
            refresh_token: opt_text(self.refresh_token),
            expires_at: self.expires_at,
            client_id: opt_text(self.client_id),
            client_secret: opt_text(self.client_secret),
            pending: pending_contents(self.pending),
        }
    }
}

/// The Kick authorize address of a PKCE authorization.
pub open spec fn authorize_url_spec(client_id: Seq<char>, redirect_uri: Seq<char>, scope: Seq<char>, state: Seq<char>, challenge: Seq<char>) -> Seq<char> {
    "https://id.kick.com/oauth/authorize?response_type=code&client_id="@ + url_encode(client_id)
        + "&redirect_uri="@ + url_encode(redirect_uri) + "&scope="@ + url_encode(scope) + "&state="@
        + url_encode(state) + "&code_challenge="@ + url_encode(challenge) + "&code_challenge_method=S256"@
}

impl KickAuthManager {
    /// The state before any token exchange, from the configured secrets.
    pub fn from_secrets(access_token: Option<String>, refresh_token: Option<String>, client_id: Option<String>, client_secret: Option<String>) -> (r: KickAuthManager)
        ensures
            r@.access_token == opt_text(access_token),
            r@.refresh_token == opt_text(refresh_token),
            r@.expires_at is None,
            r@.client_id == opt_text(client_id),
            r@.client_secret == opt_text(client_secret),
            r@.pending == Map::<Seq<char>, (Seq<char>, Seq<char>)>::empty(),
    {
        let pending = new_pending_map();
        assert(pending_contents(pending) =~= Map::<Seq<char>, (Seq<char>, Seq<char>)>::empty());
        KickAuthManager { access_token, refresh_token, expires_at: None, client_id, client_secret, pending }
    }

    /// Whether a token is held at all (`bootstrap` does nothing then).
    pub fn has_access_token(&self) -> (r: bool)
        ensures
            r == self@.access_token is Some,
    {
        self.access_token.is_some()
    }

    /// The refresh token, if any.
    pub fn refresh_token(&self) -> (r: Option<String>)
        ensures
            opt_text(r) == self@.refresh_token,
    {
        match &self.refresh_token {
            Some(t) => Some(t.clone()),
            None => None,
        }
    }

    /// The access token when it is held and not expired at `now` (a token
    /// without expiry never expires).
    pub fn current_token(&self, now: u64) -> (r: Option<String>)
        ensures
            opt_text(r) == (match self@.access_token {
                Some(t) => if (match self@.expires_at { Some(e) => e > now, None => true }) { Some(t) } else { None },
                None => None,
            }),
    {
        match &self.access_token {
            Some(t) => {
                let fresh = match self.expires_at {
                    Some(e) => e > now,
                    None => true,
                };
                if fresh {
                    Some(t.clone())
                } else {
                    None
                }
            },
            None => None,
        }
    }

    /// Stores a new token at time `now`: it expires 30 seconds before Kick
    /// says, and the refresh token is kept unless a new one came.
    pub fn apply_token(&mut self, token: TokenResponse, now: u64)
        requires
            token.expires_in matches Some(s) ==> now + (if s >= 30 { s - 30 } else { 0 }) <= u64::MAX,
        ensures
            final(self)@ == (KickAuthView {
                access_token: Some(token.access_token@),
                refresh_token: match opt_text(token.refresh_token) {
                    Some(t) => Some(t),
                    None => old(self)@.refresh_token,
                },
                expires_at: match token.expires_in {
                    Some(s) => Some((now + (if s >= 30 { s - 30 } else { 0 })) as u64),
                    None => None,
                },
                ..old(self)@
            }),
    {
        self.expires_at = match token.expires_in {
            Some(s) => Some(now + s.saturating_sub(30)),
            None => None,
        };
        self.access_token = Some(token.access_token);
        match token.refresh_token {
            Some(t) => {
                self.refresh_token = Some(t);
            },
            None => {},
        }
    }

    /// The client id and secret, or which one is missing.
    pub fn get_client_credentials(&self) -> (r: Result<(String, String), BotError>)
        ensures
            match (self@.client_id, self@.client_secret) {
                (Some(i), Some(s)) => r matches Ok((ri, rs)) && ri@ == i && rs@ == s,
                (None, _) => r matches Err(BotError::Custom(m)) && m@ == "KICK_CLIENT_ID not set"@,
                (Some(_), None) => r matches Err(BotError::Custom(m)) && m@ == "KICK_CLIENT_SECRET not set"@,
            },
    {
        let id = match &self.client_id {
            Some(i) => i.clone(),
            None => return Err(BotError::Custom("KICK_CLIENT_ID not set".to_owned())),
        };
        let secret = match &self.client_secret {
            Some(s) => s.clone(),
            None => return Err(BotError::Custom("KICK_CLIENT_SECRET not set".to_owned())),
        };
        Ok((id, secret))
    }

    /// Starts an authorization with the given state and code verifier: it is
    /// remembered under its state, and the authorize address returned.
    pub fn build_authorize_url_with(&mut self, redirect_uri: &str, scope: &str, state: String, code_verifier: String) -> (r: Result<String, BotError>)
        ensures
            match old(self)@.client_id {
                None => r matches Err(BotError::Custom(m)) && m@ == "KICK_CLIENT_ID not set"@ && final(self)@ == old(self)@,
                Some(cid) => {
                    &&& r matches Ok(u) && u@ == authorize_url_spec(cid, redirect_uri@, scope@, state@, challenge_of(code_verifier@))
                    &&& final(self)@ == (KickAuthView {
                        pending: old(self)@.pending.insert(state@, (code_verifier@, redirect_uri@)),
                        ..old(self)@
                    })
                },
            },
    {
        let client_id = match &self.client_id {
            Some(c) => c.clone(),
            None => return Err(BotError::Custom("KICK_CLIENT_ID not set".to_owned())),
        };
        let challenge = code_challenge_s256(code_verifier.as_str());
        let a = url_encode_str(client_id.as_str());
        let b = url_encode_str(redirect_uri);
        let c = url_encode_str(scope);
        let d = url_encode_str(state.as_str());
        let e = url_encode_str(challenge.as_str());
        let url = cat7(
            "https://id.kick.com/oauth/authorize?response_type=code&client_id=",
            a.as_str(),
            "&redirect_uri=",
            b.as_str(),
            "&scope=",
            c.as_str(),
            "&state=",
        );
        let url = cat5(url.as_str(), d.as_str(), "&code_challenge=", e.as_str(), "&code_challenge_method=S256");
        let pk = PkceState { code_verifier, redirect_uri: redirect_uri.to_owned() };
        pending_insert(&mut self.pending, state, pk);
        Ok(url)
    }

    /// Starts an authorization with a fresh random state (16 bytes) and code
    /// verifier (32 bytes).
    pub fn build_authorize_url(&mut self, redirect_uri: &str, scope: &str) -> (r: Result<String, BotError>)
        ensures
            match old(self)@.client_id {
                None => r matches Err(BotError::Custom(m)) && m@ == "KICK_CLIENT_ID not set"@ && final(self)@ == old(self)@,
                Some(cid) => exists|sb: Seq<u8>, vb: Seq<u8>| #![trigger base64_url_nopad(sb), base64_url_nopad(vb)] {
                    let st = base64_url_nopad(sb);
                    let v = base64_url_nopad(vb);
                    &&& sb.len() == 16
                    &&& vb.len() == 32
                    &&& r matches Ok(u) && u@ == authorize_url_spec(cid, redirect_uri@, scope@, st, challenge_of(v))
                    &&& final(self)@ == (KickAuthView {
                        pending: old(self)@.pending.insert(st, (v, redirect_uri@)),
                        ..old(self)@
                    })
                },
            },
    {
        if self.client_id.is_none() {
            return Err(BotError::Custom("KICK_CLIENT_ID not set".to_owned()));
        }
        let state = random_urlsafe(16);
        let code_verifier = random_urlsafe(32);
        self.build_authorize_url_with(redirect_uri, scope, state, code_verifier)
    }

    /// Takes the pending authorization with state `state` for the code
    /// exchange; an unknown state is refused.
    pub fn take_pending(&mut self, state: &str) -> (r: Result<PkceState, BotError>)
        ensures
            final(self)@ == (KickAuthView { pending: old(self)@.pending.remove(state@), ..old(self)@ }),
            match old(self)@.pending.get(state@) {
                Some(e) => r matches Ok(p) && (p.code_verifier@, p.redirect_uri@) == e,
                None => r matches Err(BotError::Custom(m)) && m@ == "Kick OAuth state invalid"@,
            },
    {
        match pending_remove(&mut self.pending, state) {
            Some(pk) => Ok(pk),
            None => Err(BotError::Custom("Kick OAuth state invalid".to_owned())),
        }
    }
}

/// The form body that refreshes a token.
pub fn refresh_token_body(client_id: &str, client_secret: &str, refresh_token: &str) -> (r: String)
    ensures
        r@ == "grant_type=refresh_token&client_id="@ + url_encode(client_id@) + "&client_secret="@
            + url_encode(client_secret@) + "&refresh_token="@ + url_encode(refresh_token@),
{
    let a = url_encode_str(client_id);
    let b = url_encode_str(client_secret);
    let c = url_encode_str(refresh_token);
    cat5("grant_type=refresh_token&client_id=", a.as_str(), "&client_secret=", b.as_str(), "&refresh_token=").concat(c.as_str())
}

/// The form body that asks for an app token.
pub fn client_credentials_body(client_id: &str, client_secret: &str) -> (r: String)
    ensures
        r@ == "grant_type=client_credentials&client_id="@ + url_encode(client_id@) + "&client_secret="@
            + url_encode(client_secret@),
{
    let a = url_encode_str(client_id);
    let b = url_encode_str(client_secret);
    cat3("grant_type=client_credentials&client_id=", a.as_str(), "&client_secret=").concat(b.as_str())
}

/// The form body that exchanges an authorization code.
pub fn authorization_code_body(client_id: &str, client_secret: &str, pkce: &PkceState, code: &str) -> (r: String)
    ensures
        r@ == "grant_type=authorization_code&client_id="@ + url_encode(client_id@) + "&client_secret="@
            + url_encode(client_secret@) + "&redirect_uri="@ + url_encode(pkce.redirect_uri@)
            + "&code_verifier="@ + url_encode(pkce.code_verifier@) + "&code="@ + url_encode(code@),
{
    let a = url_encode_str(client_id);
    let b = url_encode_str(client_secret);
    let c = url_encode_str(pkce.redirect_uri.as_str());
    let d = url_encode_str(pkce.code_verifier.as_str());
    let e = url_encode_str(code);
    let head = cat7("grant_type=authorization_code&client_id=", a.as_str(), "&client_secret=", b.as_str(), "&redirect_uri=", c.as_str(), "&code_verifier=");
    cat3(head.as_str(), d.as_str(), "&code=").concat(e.as_str())
}

} // verus!
