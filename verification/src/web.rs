//! The OBS dock's requests and the login callbacks, from request values to
//! the answer and the new state. The HTTP server itself is the caller's.

use vstd::prelude::*;
use crate::platform::{ChannelId, UserId, IdView, Platform, platform_name, platform_named, split_first_colon, valid_name, id_view_text};
use crate::config::{BotConfig, ConfigView, config_of, owner_of, index_of_key, resolve_queue_owner, set_queue_open, set_queue_len, set_queue_size, reset_queue_runs, is_config_missing};
use crate::bot::{BotState, StateView, queue_rows, set_queue, missing, lemma_queue_rows_set_all, unique_owners};
use crate::queue::{ObsQueueEntry, RowView, reorder_spec, ids_view, index_of_user};
use crate::sessions::{WebSession, session_cookie_header, session_cookie_name, platform_session_cookie, cookie_attributes};
use crate::aliases::{AliasConfig, AliasView, map_insert, map_remove, set_insert, set_remove};
use crate::platform::{to_lowercase, unicode_lowercase};
use crate::text::{cat2, cat3, str_seq_eq, strings_view};
use crate::kick::{url_encode, url_encode_str};
use crate::error::BotError;

verus! {

/// A session as the dock lists it.
pub struct ObsSessionView {
    pub platform: String,
    pub login: String,
    pub active: bool,
}

/// The dock's list of sessions.
pub struct ObsSessionsResponse {
    pub active_platform: Option<String>,
    pub active_login: Option<String>,
    pub sessions: Vec<ObsSessionView>,
}

/// The dock's request to switch the active session.
pub struct ObsSwitchSessionPayload {
    pub platform: String,
}

/// The dock's view of a queue and its settings.
pub struct ObsQueueResponse {
    pub open: bool,
    pub teamsize: usize,
    pub length: usize,
    pub runs: usize,
    pub queue: Vec<ObsQueueEntry>,
}

pub struct RemovePayload {
    pub user_id: String,
}

pub struct ReorderPayload {
    pub order: Vec<String>,
}

pub struct ToggleQueuePayload {
    pub open: bool,
}

pub struct SizeQueuePayload {
    pub teamsize: usize,
}

pub struct LenQueuePayload {
    pub length: usize,
}

pub struct AddAliasPayload {
    pub alias: String,
    pub command: String,
}

pub struct RemoveAliasPayload {
    pub alias: String,
}

pub struct ToggleCommandPayload {
    pub command: String,
    pub disable: bool,
}

pub struct RestoreAliasPayload {
    pub alias: String,
}

pub struct DefaultAliasPayload {
    pub alias: String,
}

/// The dock's list of sessions: each with its platform and login, marked
/// when it is the active one.
pub fn obs_sessions(active: Option<&ChannelId>, sessions: &Vec<WebSession>) -> (r: ObsSessionsResponse)
    ensures
        r.sessions@.len() == sessions@.len(),
        forall|i: int| #![trigger r.sessions@[i]] 0 <= i < sessions@.len() ==> {
            &&& r.sessions@[i].platform@ == platform_name(sessions@[i].channel@.platform)
            &&& r.sessions@[i].login@ == sessions@[i].channel@.name
            &&& r.sessions@[i].active == (active matches Some(a) && a@ == sessions@[i].channel@)
        },
        match active {
            Some(a) => {
                &&& r.active_platform matches Some(p) && p@ == platform_name(a@.platform)
                &&& r.active_login matches Some(l) && l@ == a@.name
            },
            None => r.active_platform is None && r.active_login is None,
        },
{
    let mut rows: Vec<ObsSessionView> = Vec::new();
    let mut i: usize = 0;
    while i < sessions.len()
        invariant
            i <= sessions@.len(),
            rows@.len() == i,
            forall|j: int| #![trigger rows@[j]] 0 <= j < i ==> {
                &&& rows@[j].platform@ == platform_name(sessions@[j].channel@.platform)
                &&& rows@[j].login@ == sessions@[j].channel@.name
                &&& rows@[j].active == (active matches Some(a) && a@ == sessions@[j].channel@)
            },
        decreases sessions@.len() - i,
    {
        let s = &sessions[i];
        let is_active = match active {
            Some(a) => a.same(&s.channel),
            None => false,
        };
        rows.push(ObsSessionView {
            platform: s.channel.platform().to_display_string(),
            login: s.channel.channel().to_owned(),
            active: is_active,
        });
        i = i + 1;
    }
    let (active_platform, active_login) = match active {
        Some(a) => (Some(a.platform().to_display_string()), Some(a.channel().to_owned())),
        None => (None, None),
    };
    ObsSessionsResponse { active_platform, active_login, sessions: rows }
}

/// What switching the active session comes to.
pub enum SwitchOutcome {
    /// The platform name is not one the bot knows.
    Rejected,
    /// No session is linked for the platform.
    NoSession,
    /// The session to make active, with the cookie that does it.
    Switched { platform: Platform, login: String, cookie: String },
}

/// Index of the first session on platform `p`, or -1.
pub open spec fn first_on_platform(s: Seq<WebSession>, p: Platform) -> int
    decreases s.len(),
{
    if s.len() == 0 {
        -1
    } else if s[0].channel@.platform == p {
        0
    } else {
        let r = first_on_platform(s.skip(1), p);
        if r < 0 { -1 } else { r + 1 }
    }
}

/// Switches the dock to the first linked session of a platform.
pub fn obs_switch_session(sessions: &Vec<WebSession>, body: &ObsSwitchSessionPayload) -> (r: SwitchOutcome)
    ensures
        match platform_named(body.platform@) {
            None => r is Rejected,
            Some(p) => {
                let i = first_on_platform(sessions@, p);
                if i >= 0 {
                    r matches SwitchOutcome::Switched { platform, login, cookie } && platform == p
                        && login@ == sessions@[i].channel@.name
                        && cookie@ == "session_id"@ + "="@ + sessions@[i].session_id@ + "; "@ + cookie_attributes()
                } else {
                    r is NoSession
                }
            },
        },
{
    let platform = match Platform::from_str(body.platform.as_str()) {
        Ok(p) => p,
        Err(_) => return SwitchOutcome::Rejected,
    };
    let ghost sv = sessions@;
    let mut i: usize = 0;
    assert(sv.skip(0) =~= sv);
    while i < sessions.len()
        invariant
            sv == sessions@,
            platform_named(body.platform@) == Some(platform),
            i <= sv.len(),
            first_on_platform(sv, platform) == (if first_on_platform(sv.skip(i as int), platform) < 0 { -1 } else { first_on_platform(sv.skip(i as int), platform) + i }),
        decreases sv.len() - i,
    {
        assert(sv.skip(i as int)[0] == sv[i as int]);
        assert(sv.skip(i as int).skip(1) =~= sv.skip(i + 1));
        let s = &sessions[i];
        if s.channel.platform() == platform {
            let cookie = session_cookie_header("session_id", s.session_id.as_str());
            return SwitchOutcome::Switched { platform, login: s.channel.channel().to_owned(), cookie };
        }
        i = i + 1;
    }
    SwitchOutcome::NoSession
}

impl BotState {
    /// The dock's view of the queue `channel` uses. Settings that are
    /// missing read as closed, groups and length of one, no runs.
    pub fn obs_queue(&self, channel: &ChannelId) -> (r: Result<ObsQueueResponse, BotError>)
        requires
            self.wf(),
            channel.wf(),
            owner_of(self@.config, channel@) matches Some(o) ==> queue_rows(self@.queues, o).len() <= i32::MAX,
        ensures
            match owner_of(self@.config, channel@) {
                None => r matches Err(e) && missing(e, channel@),
                Some(o) => r matches Ok(resp) && {
                    let rows = queue_rows(self@.queues, o);
                    &&& match config_of(self@.config, o) {
                        Some(c) => resp.open == c.open && resp.teamsize == c.teamsize && resp.length == c.size && resp.runs == c.runs,
                        None => !resp.open && resp.teamsize == 1 && resp.length == 1 && resp.runs == 0,
                    }
                    &&& resp.queue@.len() == rows.len()
                    &&& forall|i: int| #![trigger resp.queue@[i]] 0 <= i < rows.len() ==> {
                        &&& resp.queue@[i].position == i + 1
                        &&& resp.queue@[i].display_name@ == rows[i].display
                        &&& resp.queue@[i].bungie_name@ == rows[i].bungie
                        &&& resp.queue@[i].user_id@ == id_view_text(rows[i].user)
                    }
                },
            },
    {
        let owner = match resolve_queue_owner(self.config(), channel) {
            Ok(o) => o,
            Err(e) => return Err(e),
        };
        let (open, teamsize, length, runs) = match self.config().get_channel_config(&owner) {
            Some(c) => (c.open, c.teamsize, c.size, c.runs),
            None => (false, 1, 1, 0),
        };
        let queue = match self.queue(&owner) {
            Some(q) => q.obs_entries(),
            None => Vec::new(),
        };
        Ok(ObsQueueResponse { open, teamsize, length, runs, queue })
    }
}

/// Parses a user id from the dock, as `UserId::from_str`.
pub open spec fn user_id_parse(s: Seq<char>) -> Option<IdView> {
    match split_first_colon(s) {
        Some((p, c)) => match platform_named(p) {
            Some(pl) => Some(IdView { platform: pl, name: c }),
            None => None,
        },
        None => None,
    }
}

/// A user id text whose parse does not panic (no empty name).
pub open spec fn user_id_text_ok(s: Seq<char>) -> bool {
    split_first_colon(s) matches Some((_, c)) ==> valid_name(c)
}

/// The dock removes a viewer from the queue `channel` uses.
pub fn obs_queue_remove(state: &mut BotState, channel: &ChannelId, body: &RemovePayload) -> (r: Result<(), BotError>)
    requires
        old(state).wf(),
        channel.wf(),
        user_id_text_ok(body.user_id@),
    ensures
        final(state).wf(),
        match owner_of(old(state)@.config, channel@) {
            None => r matches Err(e) && missing(e, channel@) && final(state)@ == old(state)@,
            Some(o) => match user_id_parse(body.user_id@) {
                None => r is Err && final(state)@ == old(state)@,
                Some(u) => {
                    let rows = queue_rows(old(state)@.queues, o);
                    &&& r is Ok
                    &&& final(state)@.config == old(state)@.config
                    &&& final(state)@.queues == set_queue(old(state)@.queues, o, match index_of_user(rows, u) {
                        Some(i) => rows.remove(i),
                        None => rows,
                    })
                },
            },
        },
{
    let owner = match resolve_queue_owner(state.config(), channel) {
        Ok(o) => o,
        Err(e) => return Err(e),
    };
    let user = match UserId::from_str(body.user_id.as_str()) {
        Ok(u) => u,
        Err(m) => return Err(BotError::Custom(m.to_owned())),
    };
    let q = state.queue_mut(&owner);
    q.remove_from_queue(&user);
    Ok(())
}

/// The dock puts the queue `channel` uses in a new order (see
/// `reorder_queue`); whether it was applied.
pub fn obs_queue_reorder(state: &mut BotState, channel: &ChannelId, body: &ReorderPayload) -> (r: Result<bool, BotError>)
    requires
        old(state).wf(),
        channel.wf(),
        forall|i: int| 0 <= i < body.order@.len() ==> user_id_text_ok(#[trigger] body.order@[i]@),
    ensures
        final(state).wf(),
        match owner_of(old(state)@.config, channel@) {
            None => r matches Err(e) && missing(e, channel@) && final(state)@ == old(state)@,
            Some(o) => if exists|i: int| 0 <= i < body.order@.len() && #[trigger] user_id_parse(body.order@[i]@) is None {
                r is Err && final(state)@ == old(state)@
            } else {
                let ord = Seq::new(body.order@.len(), |i: int| user_id_parse(body.order@[i]@)->0);
                let rows = queue_rows(old(state)@.queues, o);
                &&& final(state)@.config == old(state)@.config
                &&& match reorder_spec(rows, ord) {
                    Some(t) => r == Ok::<bool, BotError>(true) && final(state)@.queues == set_queue(old(state)@.queues, o, t),
                    None => r == Ok::<bool, BotError>(false) && final(state)@.queues == set_queue(old(state)@.queues, o, rows),
                }
            },
        },
{
    let owner = match resolve_queue_owner(state.config(), channel) {
        Ok(o) => o,
        Err(e) => return Err(e),
    };
    let mut users: Vec<UserId> = Vec::new();
    let mut i: usize = 0;
    while i < body.order.len()
        invariant
            state.wf(),
            state@ == old(state)@,
            owner_of(old(state)@.config, channel@) == Some(owner@),
            owner.wf(),
            i <= body.order@.len(),
            forall|k: int| 0 <= k < body.order@.len() ==> user_id_text_ok(#[trigger] body.order@[k]@),
            users@.len() == i,
            forall|k: int| 0 <= k < i ==> user_id_parse(body.order@[k]@) == Some((#[trigger] users@[k])@),
        decreases body.order@.len() - i,
    {
        match UserId::from_str(body.order[i].as_str()) {
            Ok(u) => users.push(u),
            Err(m) => {
                assert(0 <= i < body.order@.len() && user_id_parse(body.order@[i as int]@) is None);
                return Err(BotError::Custom(m.to_owned()));
            },
        }
        i = i + 1;
    }
    assert(ids_view(users@) =~= Seq::new(body.order@.len(), |k: int| user_id_parse(body.order@[k]@)->0));
    assert(!exists|k: int| 0 <= k < body.order@.len() && #[trigger] user_id_parse(body.order@[k]@) is None) by {
        assert forall|k: int| 0 <= k < body.order@.len() implies !(#[trigger] user_id_parse(body.order@[k]@) is None) by {
            assert(user_id_parse(body.order@[k]@) == Some(users@[k]@));
        }
    }
    let q = state.queue_mut(&owner);
    Ok(q.reorder_queue(&users))
}

/// The dock opens or closes the queue `channel` uses; the reply for chat.
pub fn obs_queue_toggle(state: &mut BotState, channel: &ChannelId, body: &ToggleQueuePayload) -> (r: Result<String, BotError>)
    requires
        old(state).wf(),
        channel.wf(),
    ensures
        final(state).wf(),
        final(state)@.queues == old(state)@.queues,
        match owner_of(old(state)@.config, channel@) {
            None => r matches Err(e) && missing(e, channel@) && final(state)@ == old(state)@,
            Some(o) => match index_of_key(old(state)@.config, o) {
                None => r matches Err(e) && missing(e, o) && final(state)@ == old(state)@,
                Some(i) => {
                    &&& final(state)@.config == old(state)@.config.update(i, (o, ConfigView { open: body.open, ..old(state)@.config[i].1 }))
                    &&& r matches Ok(m) && m@ == (if body.open { "🔓The queue is open!🔓"@ } else { "🔐The queue is closed🔐"@ })
                },
            },
        },
{
    let owner = match resolve_queue_owner(state.config(), channel) {
        Ok(o) => o,
        Err(e) => return Err(e),
    };
    match set_queue_open(state.config_mut(), &owner, body.open) {
        Ok(()) => {},
        Err(e) => return Err(e),
    }
    Ok(if body.open { crate::replies::Replies::queue_opened() } else { crate::replies::Replies::queue_closed() })
}

/// The dock sets the group size of the queue `channel` uses; the reply.
pub fn obs_queue_size(state: &mut BotState, channel: &ChannelId, body: &SizeQueuePayload) -> (r: Result<String, BotError>)
    requires
        old(state).wf(),
        channel.wf(),
    ensures
        final(state).wf(),
        final(state)@.queues == old(state)@.queues,
        match owner_of(old(state)@.config, channel@) {
            None => r matches Err(e) && missing(e, channel@) && final(state)@ == old(state)@,
            Some(o) => match index_of_key(old(state)@.config, o) {
                None => r matches Err(e) && missing(e, o) && final(state)@ == old(state)@,
                Some(i) => {
                    &&& final(state)@.config == old(state)@.config.update(i, (o, ConfigView { teamsize: body.teamsize, ..old(state)@.config[i].1 }))
                    &&& r matches Ok(m) && m@ == "✅ Group size is now "@ + crate::text::dec(body.teamsize as nat) + " people per run! 🥳"@
                },
            },
        },
{
    let owner = match resolve_queue_owner(state.config(), channel) {
        Ok(o) => o,
        Err(e) => return Err(e),
    };
    match set_queue_size(state.config_mut(), &owner, body.teamsize) {
        Ok(()) => {},
        Err(e) => return Err(e),
    }
    Ok(crate::replies::Replies::queue_size(crate::text::usize_to_string(body.teamsize).as_str()))
}

/// The dock sets the length of the queue `channel` uses; the reply.
pub fn obs_queue_len(state: &mut BotState, channel: &ChannelId, body: &LenQueuePayload) -> (r: Result<String, BotError>)
    requires
        old(state).wf(),
        channel.wf(),
    ensures
        final(state).wf(),
        final(state)@.queues == old(state)@.queues,
        match owner_of(old(state)@.config, channel@) {
            None => r matches Err(e) && missing(e, channel@) && final(state)@ == old(state)@,
            Some(o) => match index_of_key(old(state)@.config, o) {
                None => r matches Err(e) && missing(e, o) && final(state)@ == old(state)@,
                Some(i) => {
                    &&& final(state)@.config == old(state)@.config.update(i, (o, ConfigView { size: body.length, ..old(state)@.config[i].1 }))
                    &&& r matches Ok(m) && m@ == "✅ Queue length is now "@ + crate::text::dec(body.length as nat) + "!! 🤩"@
                },
            },
        },
{
    let owner = match resolve_queue_owner(state.config(), channel) {
        Ok(o) => o,
        Err(e) => return Err(e),
    };
    match set_queue_len(state.config_mut(), &owner, body.length) {
        Ok(()) => {},
        Err(e) => return Err(e),
    }
    Ok(crate::replies::Replies::queue_length(crate::text::usize_to_string(body.length).as_str()))
}

/// The dock resets the run count of the queue `channel` uses; the reply.
pub fn obs_queue_reset(state: &mut BotState, channel: &ChannelId) -> (r: Result<String, BotError>)
    requires
        old(state).wf(),
        channel.wf(),
    ensures
        final(state).wf(),
        final(state)@.queues == old(state)@.queues,
        match owner_of(old(state)@.config, channel@) {
            None => r matches Err(e) && missing(e, channel@) && final(state)@ == old(state)@,
            Some(o) => {
                &&& final(state)@.config == match index_of_key(old(state)@.config, o) {
                    None => old(state)@.config,
                    Some(i) => old(state)@.config.update(i, (o, ConfigView { runs: 0, ..old(state)@.config[i].1 })),
                }
                &&& r matches Ok(m) && m@ == "📋 Runs reset for "@ + id_view_text(o)
            },
        },
{
    let owner = match resolve_queue_owner(state.config(), channel) {
        Ok(o) => o,
        Err(e) => return Err(e),
    };
    reset_queue_runs(state.config_mut(), &owner);
    Ok(crate::replies::Replies::queue_runs_reset(&owner))
}

/// The dock adds a custom alias (both names lowercased).
pub fn obs_alias_add(ac: &mut AliasConfig, body: &AddAliasPayload)
    ensures
        final(ac)@ == (AliasView { aliases: map_insert(old(ac)@.aliases, unicode_lowercase(body.alias@), unicode_lowercase(body.command@)), ..old(ac)@ }),
{
    let a = to_lowercase(body.alias.as_str());
    let c = to_lowercase(body.command.as_str());
    ac.set_alias(a, c);
}

/// The dock removes a custom alias (lowercased).
pub fn obs_alias_remove(ac: &mut AliasConfig, body: &RemoveAliasPayload)
    ensures
        final(ac)@ == (AliasView { aliases: map_remove(old(ac)@.aliases, unicode_lowercase(body.alias@)), ..old(ac)@ }),
{
    let a = to_lowercase(body.alias.as_str());
    ac.remove_alias(a.as_str());
}

/// The dock switches a command off or on (by its name as given).
pub fn obs_alias_toggle_command(ac: &mut AliasConfig, body: &ToggleCommandPayload)
    ensures
        final(ac)@ == (if body.disable {
            AliasView { disabled: set_insert(old(ac)@.disabled, body.command@), ..old(ac)@ }
        } else {
            AliasView { disabled: set_remove(old(ac)@.disabled, body.command@), ..old(ac)@ }
        }),
{
    if body.disable {
        ac.disable(body.command.clone());
    } else {
        ac.enable(body.command.as_str());
    }
}

/// The dock switches a default alias back on (lowercased).
pub fn obs_alias_restore(ac: &mut AliasConfig, body: &RestoreAliasPayload)
    ensures
        final(ac)@ == (AliasView { removed: set_remove(old(ac)@.removed, unicode_lowercase(body.alias@)), ..old(ac)@ }),
{
    let a = to_lowercase(body.alias.as_str());
    ac.restore_default(a.as_str());
}

/// The dock switches a default alias off (lowercased).
pub fn obs_alias_remove_default(ac: &mut AliasConfig, body: &DefaultAliasPayload)
    ensures
        final(ac)@ == (AliasView { removed: set_insert(old(ac)@.removed, unicode_lowercase(body.alias@)), ..old(ac)@ }),
{
    let a = to_lowercase(body.alias.as_str());
    ac.remove_default(a);
}

/// The dock switches a default alias back on (lowercased).
pub fn obs_alias_restore_default(ac: &mut AliasConfig, body: &DefaultAliasPayload)
    ensures
        final(ac)@ == (AliasView { removed: set_remove(old(ac)@.removed, unicode_lowercase(body.alias@)), ..old(ac)@ }),
{
    let a = to_lowercase(body.alias.as_str());
    ac.restore_default(a.as_str());
}

/// Where Twitch sends the browser back after login.
pub open spec fn twitch_redirect_uri() -> Seq<char> {
    "https://krapbott.up.railway.app/auth/callback"@
}

/// The Twitch login address for the bot's client id.
pub fn twitch_login_url(client_id: &str) -> (r: String)
    ensures
        r@ == "https://id.twitch.tv/oauth2/authorize?client_id="@ + client_id@ + "&redirect_uri="@
            + url_encode(twitch_redirect_uri()) + "&response_type=code&scope=user:read:email"@,
{
    let redirect = url_encode_str("https://krapbott.up.railway.app/auth/callback");
    let head = cat3("https://id.twitch.tv/oauth2/authorize?client_id=", client_id, "&redirect_uri=");
    cat3(head.as_str(), redirect.as_str(), "&response_type=code&scope=user:read:email")
}

/// The value of parameter `name` in a query.
pub open spec fn query_get(q: Seq<(Seq<char>, Seq<char>)>, name: Seq<char>) -> Option<Seq<char>> {
    crate::aliases::map_get(q, name)
}

/// Reads a query parameter.
pub fn query_param(query: &Vec<(String, String)>, name: &str) -> (r: Option<String>)
    ensures
        match r {
            Some(v) => query_get(crate::aliases::pairs_view(query@), name@) == Some(v@),
            None => query_get(crate::aliases::pairs_view(query@), name@) is None,
        },
{
    let mut found: Option<usize> = None;
    let mut i: usize = 0;
    while i < query.len()
        invariant
            i <= query@.len(),
            match found {
                Some(j) => crate::aliases::key_index(crate::aliases::pairs_view(query@).take(i as int), name@) == j,
                None => crate::aliases::key_index(crate::aliases::pairs_view(query@).take(i as int), name@) == -1,
            },
        decreases query@.len() - i,
    {
        let ghost t = crate::aliases::pairs_view(query@).take(i + 1);
        assert(t.drop_last() =~= crate::aliases::pairs_view(query@).take(i as int));
        assert(t.last() == (query@[i as int].0@, query@[i as int].1@));
        if str_seq_eq(query[i].0.as_str(), name) {
            found = Some(i);
        }
        i = i + 1;
    }
    assert(crate::aliases::pairs_view(query@).take(query@.len() as int) =~= crate::aliases::pairs_view(query@));
    proof {
        crate::aliases::lemma_key_index(crate::aliases::pairs_view(query@), name@);
    }
    match found {
        Some(j) => {
            assert(crate::aliases::pairs_view(query@)[j as int] == (query@[j as int].0@, query@[j as int].1@));
            Some(query[j].1.clone())
        },
        None => None,
    }
}

/// An HTML answer with its status code.
pub struct HtmlReply {
    pub status: u16,
    pub body: String,
}

/// The parameters of Kick's login callback: the code and state, or the
/// answer refusing the callback.
pub fn kick_callback_params(query: &Vec<(String, String)>) -> (r: Result<(String, String), HtmlReply>)
    ensures
        ({
            let q = crate::aliases::pairs_view(query@);
            match query_get(q, "error"@) {
                Some(e) => r matches Err(h) && h.status == 400 && h.body@ == "Kick auth failed: "@ + e + " "@
                    + (match query_get(q, "error_description"@) { Some(d) => d, None => seq![] }),
                None => match query_get(q, "code"@) {
                    None => r matches Err(h) && h.status == 400 && h.body@ == "Kick callback missing query parameter: code"@,
                    Some(c) => match query_get(q, "state"@) {
                        None => r matches Err(h) && h.status == 400 && h.body@ == "Kick callback missing query parameter: state"@,
                        Some(s) => r matches Ok((rc, rs)) && rc@ == c && rs@ == s,
                    },
                },
            }
        }),
{
    match query_param(query, "error") {
        Some(e) => {
            let desc = match query_param(query, "error_description") {
                Some(d) => d,
                None => String::new(),
            };
            return Err(HtmlReply { status: 400, body: cat3("Kick auth failed: ", e.as_str(), " ").concat(desc.as_str()) });
        },
        None => {},
    }
    let code = match query_param(query, "code") {
        Some(c) => c,
        None => return Err(HtmlReply { status: 400, body: "Kick callback missing query parameter: code".to_owned() }),
    };
    let state = match query_param(query, "state") {
        Some(s) => s,
        None => return Err(HtmlReply { status: 400, body: "Kick callback missing query parameter: state".to_owned() }),
    };
    Ok((code, state))
}

/// The answer when the code exchange with Kick failed.
pub fn kick_exchange_failed(err: &BotError) -> (r: HtmlReply)
    requires
        err matches BotError::ConfigMissing(id) ==> id.wf(),
    ensures
        r.status == 500,
        r.body@ == "Kick auth failed during token exchange: "@ + crate::error::error_text(*err),
{
    HtmlReply { status: 500, body: cat2("Kick auth failed during token exchange: ", err.message().as_str()) }
}

/// Index of the first stored channel on Kick, or -1.
pub open spec fn first_kick(s: Seq<(IdView, ConfigView)>) -> int
    decreases s.len(),
{
    if s.len() == 0 {
        -1
    } else if s[0].0.platform == Platform::Kick {
        0
    } else {
        let r = first_kick(s.skip(1));
        if r < 0 { -1 } else { r + 1 }
    }
}

/// The login of the first Kick channel the bot serves, or the answer that
/// none is configured.
pub fn kick_login_channel(cfg: &BotConfig) -> (r: Result<String, HtmlReply>)
    requires
        cfg.wf(),
    ensures
        ({
            let i = first_kick(cfg@);
            if i >= 0 {
                r matches Ok(l) && l@ == cfg@[i].0.name
            } else {
                r matches Err(h) && h.status == 403 && h.body@ == "No authorized Kick channel is configured in the bot."@
            }
        }),
{
    let ghost s = cfg@;
    let mut i: usize = 0;
    assert(s.skip(0) =~= s);
    while i < cfg.len()
        invariant
            s == cfg@,
            i <= s.len(),
            first_kick(s) == (if first_kick(s.skip(i as int)) < 0 { -1 } else { first_kick(s.skip(i as int)) + i }),
        decreases s.len() - i,
    {
        assert(s.skip(i as int)[0] == s[i as int]);
        assert(s.skip(i as int).skip(1) =~= s.skip(i + 1));
        let (id, _) = cfg.entry(i);
        if id.platform() == Platform::Kick {
            return Ok(id.channel().to_owned());
        }
        i = i + 1;
    }
    Err(HtmlReply { status: 403, body: "No authorized Kick channel is configured in the bot.".to_owned() })
}

/// The answer to a Kick login without a configured return address, or the
/// answer when the authorize address cannot be built.
pub fn kick_login_failure(err: Option<&BotError>) -> (r: HtmlReply)
    requires
        err matches Some(e) ==> (e matches BotError::ConfigMissing(id) ==> id.wf()),
    ensures
        r.status == 500,
        r.body@ == match err {
            None => "Kick OAuth misconfigured: KICK_REDIRECT_URI missing"@,
            Some(e) => "Kick OAuth setup failed: "@ + crate::error::error_text(*e),
        },
{
    match err {
        None => HtmlReply { status: 500, body: "Kick OAuth misconfigured: KICK_REDIRECT_URI missing".to_owned() },
        Some(e) => HtmlReply { status: 500, body: cat2("Kick OAuth setup failed: ", e.message().as_str()) },
    }
}

/// Whether a Twitch login may use the dashboard: its channel is served.
pub fn twitch_channel_allowed(cfg: &BotConfig, login: &str) -> (r: bool)
    requires
        cfg.wf(),
        valid_name(login@),
    ensures
        r == (config_of(cfg@, IdView { platform: Platform::Twitch, name: login@ }) is Some),
{
    let id = ChannelId::new(Platform::Twitch, login);
    cfg.get_channel_config(&id).is_some()
}

/// The two cookies a login sets: the platform's session and the active one.
pub fn session_cookies(platform: Platform, session_id: &str) -> (r: (String, String))
    ensures
        r.0@ == session_cookie_name(platform) + "="@ + session_id@ + "; "@ + cookie_attributes(),
        r.1@ == "session_id"@ + "="@ + session_id@ + "; "@ + cookie_attributes(),
{
    (session_cookie_header(platform_session_cookie(platform), session_id), session_cookie_header("session_id", session_id))
}

/// `uuid::Uuid::new_v4`, in its hyphenated text form. Trusted: a random
/// version 4 id, written in 36 characters; which one is left to chance.
#[verifier::external_body]
fn new_session_id() -> (r: String)
    ensures
        r@.len() == 36,
{
    uuid::Uuid::new_v4().to_string()
}

/// A new dashboard login on `platform`: a fresh session id, with the
/// platform's session cookie and the active-session cookie that carry it.
pub fn new_login_session(platform: Platform) -> (r: (String, String, String))
    ensures
        r.0@.len() == 36,
        r.1@ == session_cookie_name(platform) + "="@ + r.0@ + "; "@ + cookie_attributes(),
        r.2@ == "session_id"@ + "="@ + r.0@ + "; "@ + cookie_attributes(),
{
    let id = new_session_id();
    let (a, b) = session_cookies(platform, id.as_str());
    (id, a, b)
}

/// The end of a Twitch login, once Twitch has named the user `login`: a
/// channel the bot does not serve gets the refusal page and no session; a
/// served one gets a new session, with the Twitch session cookie and the
/// active-session cookie both carrying its id (`session_twitch=<id>` and
/// `session_id=<id>`).
pub fn twitch_login_outcome(cfg: &BotConfig, login: &str) -> (r: Result<(String, String, String), HtmlReply>)
    requires
        cfg.wf(),
        valid_name(login@),
    ensures
        match config_of(cfg@, IdView { platform: Platform::Twitch, name: login@ }) {
            None => r matches Err(h) && h.status == 200 && h.body@ == "❌ This channel is not authorized."@,
            Some(_) => r matches Ok((sid, platform_cookie, active_cookie)) && sid@.len() == 36
                && platform_cookie@ == session_cookie_name(Platform::Twitch) + "="@ + sid@ + "; "@ + cookie_attributes()
                && active_cookie@ == "session_id"@ + "="@ + sid@ + "; "@ + cookie_attributes(),
        },
{
    if !twitch_channel_allowed(cfg, login) {
        return Err(HtmlReply { status: 200, body: "❌ This channel is not authorized.".to_owned() });
    }
    let (sid, a, b) = new_login_session(Platform::Twitch);
    Ok((sid, a, b))
}

/// What `!connect` asks for.
pub enum ConnectStep {
    /// Not two words: the usage to send.
    Usage(String),
    /// The channel to connect to.
    Connect(ChannelId),
}

/// `!connect platform:channel`: the channel to connect to; a malformed id
/// is a `Custom` error.
pub fn connect_command(message: &str) -> (r: Result<ConnectStep, BotError>)
    requires
        crate::text::split_ws(message@).len() == 2 ==> user_id_text_ok(crate::text::split_ws(message@)[1]),
    ensures
        ({
            let w = crate::text::split_ws(message@);
            if w.len() != 2 {
                r matches Ok(ConnectStep::Usage(m)) && m@ == "Usage: !connect twitch:channel | !connect kick:channel"@
            } else {
                match user_id_parse(w[1]) {
                    Some(v) => r matches Ok(ConnectStep::Connect(id)) && id@ == v && id.wf(),
                    None => r matches Err(BotError::Custom(m)) && m@ == "Invalid channel id"@,
                }
            }
        }),
{
    let parts = crate::text::split_whitespace(message);
    if parts.len() != 2 {
        return Ok(ConnectStep::Usage("Usage: !connect twitch:channel | !connect kick:channel".to_owned()));
    }
    assert(parts@[1]@ == crate::text::split_ws(message@)[1]);
    match ChannelId::from_str(parts[1].as_str()) {
        Ok(id) => Ok(ConnectStep::Connect(id)),
        Err(_) => Err(BotError::Custom("Invalid channel id".to_owned())),
    }
}

/// The reply after connecting to a channel.
pub fn connected_reply(id: &ChannelId) -> (r: String)
    requires
        id.wf(),
    ensures
        r@ == "Connected to "@ + id_view_text(id@),
{
    cat2("Connected to ", id.as_str())
}

/// The dock's view of a channel's aliases and of all commands.
pub struct ObsAliasResponse {
    pub aliases: Vec<(String, String)>,
    pub removed_aliases: Vec<String>,
    pub disabled_commands: Vec<String>,
    pub commands: Vec<crate::dispatch::ObsCommandInfo>,
}

/// The dock's alias page: the channel's custom aliases, switched-off default
/// aliases and commands, and every command with its default aliases.
pub fn obs_aliases(ac: &AliasConfig, registry: &crate::dispatch::CommandRegistry) -> (r: ObsAliasResponse)
    ensures
        crate::aliases::pairs_view(r.aliases@) == ac@.aliases,
        strings_view(r.removed_aliases@) == ac@.removed,
        strings_view(r.disabled_commands@) == ac@.disabled,
        r.commands@.len() == crate::dispatch::all_registrations(registry.groups@).len(),
        forall|i: int| 0 <= i < r.commands@.len() ==> crate::dispatch::lists(#[trigger] r.commands@[i], crate::dispatch::all_registrations(registry.groups@)[i]),
{
    ObsAliasResponse {
        aliases: ac.alias_pairs(),
        removed_aliases: ac.removed_list(),
        disabled_commands: ac.disabled_list(),
        commands: registry.all_commands_for_obs(),
    }
}

} // verus!
