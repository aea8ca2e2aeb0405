//! Pending IAM Identity Center device logins, kept in process memory and never
//! persisted: a login expires, is bounded in number, and holds its token only
//! after AWS authorized it.
use vstd::prelude::*;
use crate::error::{AppError, invalid, is_invalid, NETWORK, SIGN_IN};
use crate::text::str_eq;
use crate::keychain::{new_uuid_text, uuid_hyphenated};
use crate::portal::{portal_parts_ok, portal_url, region_valid, url_parse_result, validate_portal, validate_verification_url, verification_parts_ok, PORTAL_MESSAGE, PORTAL_URL_MESSAGE, REGION_MESSAGE};
use crate::text::trim;

verus! {

/// The most logins that may be pending at once.
pub const MAX_SESSIONS: usize = 4;

/// The largest polling interval, in seconds, that a pending login can hold.
pub const MAX_INTERVAL: u64 = 0x7fff_ffff;

/// The largest clock reading, in seconds since the Unix epoch, that the login
/// functions take; far beyond any real date, it keeps their sums within `u64`.
pub const MAX_CLOCK: u64 = 0xffff_ffff_0000_0000;

/// An IAM Identity Center access token with the settings it was issued for.
pub struct VaultToken {
    pub token: String,
    pub expires_at: u64,
    pub start_url: String,
    pub sso_region: String,
    pub account_id: Option<String>,
    pub role_name: Option<String>,
}

fn copy_opt(o: &Option<String>) -> (r: Option<String>)
    ensures
        r == *o,
{
    match o {
        Some(s) => Some(s.clone()),
        None => None,
    }
}

impl VaultToken {
    /// A copy of the token.
    pub fn copy(&self) -> (r: VaultToken)
        ensures
            r == *self,
    {
        VaultToken {
            token: self.token.clone(),
            expires_at: self.expires_at,
            start_url: self.start_url.clone(),
            sso_region: self.sso_region.clone(),
            account_id: copy_opt(&self.account_id),
            role_name: copy_opt(&self.role_name),
        }
    }
}

/// A device login in progress.
pub struct Pending {
    pub start_url: String,
    pub region: String,
    pub client_id: String,
    pub client_secret: String,
    pub device_code: String,
    pub verification_uri: String,
    pub expires_at: u64,
    pub interval: u64,
    pub next_poll: u64,
    pub token: Option<VaultToken>,
    pub polling: bool,
}

impl Pending {
    /// A copy of the login.
    pub fn copy(&self) -> (r: Pending)
        ensures
            r == *self,
    {
        Pending {
            start_url: self.start_url.clone(),
            region: self.region.clone(),
            client_id: self.client_id.clone(),
            client_secret: self.client_secret.clone(),
            device_code: self.device_code.clone(),
            verification_uri: self.verification_uri.clone(),
            expires_at: self.expires_at,
            interval: self.interval,
            next_poll: self.next_poll,
            token: match &self.token {
                Some(t) => Some(t.copy()),
                None => None,
            },
            polling: self.polling,
        }
    }
}

/// A login and the id it is known by.
pub struct SessionEntry {
    pub id: String,
    pub item: Pending,
}

/// The logins of `entries`, by id; a later entry wins.
pub open spec fn table(entries: Seq<SessionEntry>) -> Map<Seq<char>, Pending>
    decreases entries.len(),
{
    if entries.len() == 0 {
        Map::empty()
    } else {
        table(entries.drop_last()).insert(entries.last().id@, entries.last().item)
    }
}

/// No two entries share an id.
pub open spec fn ids_unique(entries: Seq<SessionEntry>) -> bool {
    forall|i: int, j: int|
        0 <= i < j < entries.len() ==> #[trigger] entries[i].id@ != #[trigger] entries[j].id@
}

/// The logins that have not expired at `now`.
pub open spec fn live(m: Map<Seq<char>, Pending>, now: u64) -> Map<Seq<char>, Pending> {
    Map::new(|k: Seq<char>| m.contains_key(k) && m[k].expires_at > now, |k: Seq<char>| m[k])
}

/// A table of finitely many entries is finite.
proof fn lemma_table_finite(entries: Seq<SessionEntry>)
    ensures
        table(entries).dom().finite(),
    decreases entries.len(),
{
    if entries.len() > 0 {
        lemma_table_finite(entries.drop_last());
    }
}

proof fn lemma_table(entries: Seq<SessionEntry>, k: Seq<char>)
    requires
        ids_unique(entries),
    ensures
        table(entries).contains_key(k) <==> exists|i: int| 0 <= i < entries.len() && #[trigger] entries[i].id@ == k,
        forall|i: int|
            0 <= i < entries.len() ==> table(entries).contains_key(#[trigger] entries[i].id@)
                && table(entries)[entries[i].id@] == entries[i].item,
        table(entries).dom().finite(),
        table(entries).dom().len() == entries.len(),
    decreases entries.len(),
{
    if entries.len() > 0 {
        let prev = entries.drop_last();
        assert forall|i: int, j: int| 0 <= i < j < prev.len() implies #[trigger] prev[i].id@ != #[trigger] prev[j].id@ by {
            assert(prev[i] == entries[i] && prev[j] == entries[j]);
        }
        lemma_table(prev, k);
        lemma_table(prev, entries.last().id@);
        let last = entries.last();
        assert forall|i: int| 0 <= i < entries.len() implies table(entries).contains_key(#[trigger] entries[i].id@)
            && table(entries)[entries[i].id@] == entries[i].item by {
            if i < entries.len() - 1 {
                assert(prev[i] == entries[i]);
                assert(entries[i].id@ != last.id@);
            }
        }
        if table(entries).contains_key(k) && k != last.id@ {
            let i = choose|i: int| 0 <= i < prev.len() && #[trigger] prev[i].id@ == k;
            assert(entries[i] == prev[i]);
        }
        if exists|i: int| 0 <= i < entries.len() && #[trigger] entries[i].id@ == k {
            let i = choose|i: int| 0 <= i < entries.len() && #[trigger] entries[i].id@ == k;
            if i < entries.len() - 1 {
                assert(prev[i] == entries[i]);
            }
        }
        if table(prev).contains_key(last.id@) {
            let i = choose|i: int| 0 <= i < prev.len() && #[trigger] prev[i].id@ == last.id@;
            assert(entries[i] == prev[i]);
            assert(false);
        }
    }
}

/// The pending logins, by session id.
pub struct Sessions {
    entries: Vec<SessionEntry>,
}

impl View for Sessions {
    type V = Map<Seq<char>, Pending>;

    closed spec fn view(&self) -> Map<Seq<char>, Pending> {
        table(self.entries@)
    }
}

impl Sessions {
    #[verifier::type_invariant]
    spec fn well_formed(self) -> bool {
        &&& ids_unique(self.entries@)
        &&& forall|i: int| 0 <= i < self.entries@.len() ==> #[trigger] self.entries@[i].item.interval <= MAX_INTERVAL
    }

    /// The table holds finitely many logins.
    pub proof fn lemma_finite(&self)
        ensures
            self@.dom().finite(),
    {
        lemma_table_finite(self.entries@);
    }

    /// No logins.
    pub fn new() -> (s: Self)
        ensures
            s@ == Map::<Seq<char>, Pending>::empty(),
    {
        Sessions { entries: Vec::new() }
    }

    /// The number of pending logins.
    pub fn len(&self) -> (n: usize)
        ensures
            n == self@.len(),
    {
        proof {
            use_type_invariant(self);
            lemma_table(self.entries@, Seq::empty());
        }
        self.entries.len()
    }

    fn find(&self, id: &str) -> (r: Option<usize>)
        ensures
            r matches Some(i) ==> i < self.entries@.len() && self.entries@[i as int].id@ == id@,
            r is None ==> forall|i: int| 0 <= i < self.entries@.len() ==> #[trigger] self.entries@[i].id@ != id@,
    {
        let mut i: usize = 0;
        while i < self.entries.len()
            invariant
                i <= self.entries@.len(),
                forall|j: int| 0 <= j < i ==> #[trigger] self.entries@[j].id@ != id@,
            decreases self.entries@.len() - i,
        {
            if str_eq(self.entries[i].id.as_str(), id) {
                return Some(i);
            }
            i = i + 1;
        }
        None
    }

    /// The login with id `id`.
    pub fn get(&self, id: &str) -> (r: Option<&Pending>)
        ensures
            r matches Some(p) ==> self@.contains_key(id@) && *p == self@[id@],
            r is None ==> !self@.contains_key(id@),
    {
        proof {
            use_type_invariant(self);
            lemma_table(self.entries@, id@);
        }
        match self.find(id) {
            Some(i) => Some(&self.entries[i].item),
            None => None,
        }
    }

    fn copy_entry(e: &SessionEntry) -> (r: SessionEntry)
        ensures
            r == *e,
    {
        SessionEntry { id: e.id.clone(), item: e.item.copy() }
    }

    /// Forgets the login with id `id`.
    pub fn remove(&mut self, id: &str)
        ensures
            final(self)@ == old(self)@.remove(id@),
    {
        proof {
            use_type_invariant(&*self);
        }
        let mut out: Vec<SessionEntry> = Vec::new();
        let mut i: usize = 0;
        assert(self.entries@.take(0) =~= Seq::<SessionEntry>::empty());
        assert(table(out@) =~= table(self.entries@.take(0)).remove(id@));
        while i < self.entries.len()
            invariant
                i <= self.entries@.len(),
                self.entries@ == old(self).entries@,
                ids_unique(self.entries@),
                forall|j: int| 0 <= j < self.entries@.len() ==> #[trigger] self.entries@[j].item.interval <= MAX_INTERVAL,
                ids_unique(out@),
                forall|j: int| 0 <= j < out@.len() ==> #[trigger] out@[j].item.interval <= MAX_INTERVAL,
                table(out@) == table(self.entries@.take(i as int)).remove(id@),
            decreases self.entries@.len() - i,
        {
            let ghost prefix = self.entries@.take(i as int);
            let ghost e = self.entries@[i as int];
            proof {
                assert(self.entries@.take(i + 1).drop_last() == prefix);
                assert(self.entries@.take(i + 1).last() == e);
                assert forall|a: int, b: int| 0 <= a < b < prefix.len() implies #[trigger] prefix[a].id@ != #[trigger] prefix[b].id@ by {
                    assert(prefix[a] == self.entries@[a] && prefix[b] == self.entries@[b]);
                }
                lemma_table(prefix, e.id@);
                if table(prefix).contains_key(e.id@) {
                    let jj = choose|jj: int| 0 <= jj < prefix.len() && #[trigger] prefix[jj].id@ == e.id@;
                    assert(prefix[jj] == self.entries@[jj]);
                }
                lemma_table(out@, e.id@);
            }
            if !str_eq(self.entries[i].id.as_str(), id) {
                let copy = Self::copy_entry(&self.entries[i]);
                let ghost before = out@;
                out.push(copy);
                proof {
                    assert(out@.drop_last() =~= before);
                    assert forall|a: int, b: int| 0 <= a < b < out@.len() implies #[trigger] out@[a].id@ != #[trigger] out@[b].id@ by {
                        if b == out@.len() - 1 {
                            assert(out@[a] == out@.drop_last()[a]);
                            if out@[a].id@ == e.id@ {
                                lemma_table(out@.drop_last(), e.id@);
                                assert(table(out@.drop_last()).contains_key(out@.drop_last()[a].id@));
                            }
                        } else {
                            assert(out@[a] == out@.drop_last()[a] && out@[b] == out@.drop_last()[b]);
                        }
                    }
                    assert(table(out@) =~= table(self.entries@.take(i + 1)).remove(id@));
                }
            } else {
                assert(table(out@) =~= table(self.entries@.take(i + 1)).remove(id@));
            }
            i = i + 1;
        }
        assert(self.entries@.take(self.entries@.len() as int) == self.entries@);
        self.entries = out;
    }
    /// Forgets the logins that have expired at `now`.
    pub fn cleanup(&mut self, now: u64)
        ensures
            final(self)@ == live(old(self)@, now),
    {
        proof {
            use_type_invariant(&*self);
        }
        let mut out: Vec<SessionEntry> = Vec::new();
        let mut i: usize = 0;
        assert(self.entries@.take(0) =~= Seq::<SessionEntry>::empty());
        assert(table(out@) =~= live(table(self.entries@.take(0)), now));
        while i < self.entries.len()
            invariant
                i <= self.entries@.len(),
                self.entries@ == old(self).entries@,
                ids_unique(self.entries@),
                forall|j: int| 0 <= j < self.entries@.len() ==> #[trigger] self.entries@[j].item.interval <= MAX_INTERVAL,
                ids_unique(out@),
                forall|j: int| 0 <= j < out@.len() ==> #[trigger] out@[j].item.interval <= MAX_INTERVAL,
                table(out@) == live(table(self.entries@.take(i as int)), now),
            decreases self.entries@.len() - i,
        {
            let ghost prefix = self.entries@.take(i as int);
            let ghost e = self.entries@[i as int];
            proof {
                assert(self.entries@.take(i + 1).drop_last() == prefix);
                assert(self.entries@.take(i + 1).last() == e);
                assert forall|a: int, b: int| 0 <= a < b < prefix.len() implies #[trigger] prefix[a].id@ != #[trigger] prefix[b].id@ by {
                    assert(prefix[a] == self.entries@[a] && prefix[b] == self.entries@[b]);
                }
                lemma_table(prefix, e.id@);
                if table(prefix).contains_key(e.id@) {
                    let jj = choose|jj: int| 0 <= jj < prefix.len() && #[trigger] prefix[jj].id@ == e.id@;
                    assert(prefix[jj] == self.entries@[jj]);
                }
                lemma_table(out@, e.id@);
            }
            if self.entries[i].item.expires_at > now {
                let copy = Self::copy_entry(&self.entries[i]);
                let ghost before = out@;
                out.push(copy);
                proof {
                    assert(out@.drop_last() =~= before);
                    assert forall|a: int, b: int| 0 <= a < b < out@.len() implies #[trigger] out@[a].id@ != #[trigger] out@[b].id@ by {
                        if b == out@.len() - 1 {
                            assert(out@[a] == out@.drop_last()[a]);
                            if out@[a].id@ == e.id@ {
                                lemma_table(out@.drop_last(), e.id@);
                                assert(table(out@.drop_last()).contains_key(out@.drop_last()[a].id@));
                            }
                        } else {
                            assert(out@[a] == out@.drop_last()[a] && out@[b] == out@.drop_last()[b]);
                        }
                    }
                    assert(table(out@) =~= live(table(self.entries@.take(i + 1)), now));
                }
            } else {
                assert(table(out@) =~= live(table(self.entries@.take(i + 1)), now));
            }
            i = i + 1;
        }
        assert(self.entries@.take(self.entries@.len() as int) == self.entries@);
        self.entries = out;
    }
    /// Records the login `item` under `id`, replacing any login with that id.
    pub fn insert(&mut self, id: String, item: Pending)
        requires
            item.interval <= MAX_INTERVAL,
        ensures
            final(self)@ == old(self)@.insert(id@, item),
    {
        self.remove(id.as_str());
        proof {
            use_type_invariant(&*self);
            lemma_table(self.entries@, id@);
        }
        let ghost before = self.entries@;
        let ghost key = id@;
        let mut entries: Vec<SessionEntry> = Vec::new();
        std::mem::swap(&mut entries, &mut self.entries);
        entries.push(SessionEntry { id, item });
        proof {
            assert(entries@.drop_last() == before);
            assert forall|a: int, b: int| 0 <= a < b < entries@.len() implies #[trigger] entries@[a].id@ != #[trigger] entries@[b].id@ by {
                assert(entries@[a] == before[a] || a == before.len());
                if b < before.len() {
                    assert(entries@[b] == before[b]);
                } else {
                    assert(table(before).contains_key(before[a].id@));
                }
            }
            assert forall|a: int| 0 <= a < entries@.len() implies #[trigger] entries@[a].item.interval <= MAX_INTERVAL by {
                if a < before.len() {
                    assert(entries@[a] == before[a]);
                }
            }
            assert(table(entries@) =~= old(self)@.insert(key, item));
        }
        self.entries = entries;
    }

}

} // verus!

verus! {

/// Refusal when the login has not been authorized yet.
pub const FINISH_SIGN_IN: &'static str = "Finish browser sign-in first.";

/// Refusal of a new login while `MAX_SESSIONS` are pending.
pub const TOO_MANY_LOGINS: &'static str = "Finish or cancel another AWS sign-in before starting a new one.";

/// Refusal of a new login when the table filled up during the AWS calls.
pub const TOO_MANY_LOGINS_NOW: &'static str = "Finish or cancel another AWS sign-in first.";

/// Answer when AWS declined the login or the device code expired.
pub const LOGIN_DECLINED: &'static str = "AWS sign-in was declined or expired. Start again when ready.";

/// How long, in seconds, an authorized login stays open for choosing an account and role.
pub const SELECTION_WINDOW: u64 = 900;

/// The answer to the front end when a login is started.
#[derive(Debug)]
pub struct LoginStart {
    pub session_id: String,
    pub user_code: String,
    pub verification_uri: String,
    pub expires_in: u64,
    pub interval: u64,
}

/// The answer to the front end when a login is polled: `"authorized"` or `"pending"`.
#[derive(Debug)]
pub struct LoginPoll {
    pub status: &'static str,
    pub interval: u64,
}

/// What AWS answered to the device-authorization request.
pub struct DeviceAuthorization {
    pub device_code: Option<String>,
    pub user_code: Option<String>,
    pub verification_uri: Option<String>,
    pub verification_uri_complete: Option<String>,
    pub interval: i32,
    pub expires_in: i32,
}

/// The values that the token request sends to AWS.
pub struct TokenRequest {
    pub client_id: String,
    pub client_secret: String,
    pub device_code: String,
}

/// What polling does next: answer the front end, or ask AWS for the token.
pub enum PollStep {
    Answer(LoginPoll),
    Request(TokenRequest),
}

/// What AWS answered to the token request: a token, or a failure with its
/// service error code when there is one.
pub enum TokenOutcome {
    Granted { access_token: Option<String>, expires_in: i32 },
    Failed { code: Option<String> },
}

/// The polling interval for a device authorization: at least 5 seconds.
pub open spec fn interval_for(raw: i32) -> u64 {
    if raw < 5 { 5 } else { raw as u64 }
}

/// The lifetime of a device authorization: between 1 and 900 seconds.
pub open spec fn lifetime_for(raw: i32) -> u64 {
    if raw < 1 { 1 } else if raw > 900 { 900 } else { raw as u64 }
}

/// `(raw.max(1) as u64).max(5)`.
pub fn device_interval(raw: i32) -> (r: u64)
    ensures
        r == interval_for(raw),
        5 <= r <= MAX_INTERVAL,
{
    let at_least_one: i32 = if raw < 1 { 1 } else { raw };
    let widened = at_least_one as u64;
    if widened < 5 { 5 } else { widened }
}

/// `(raw.max(1) as u64).min(900)`.
pub fn device_expires_in(raw: i32) -> (r: u64)
    ensures
        r == lifetime_for(raw),
        1 <= r <= 900,
{
    let at_least_one: i32 = if raw < 1 { 1 } else { raw };
    let widened = at_least_one as u64;
    if widened > 900 { 900 } else { widened }
}

/// The link the user opens: the complete verification URI, else the plain one.
pub open spec fn device_link(auth: DeviceAuthorization) -> Option<String> {
    match auth.verification_uri_complete {
        Some(u) => Some(u),
        None => auth.verification_uri,
    }
}

/// The pending login recorded for an accepted device authorization.
pub open spec fn new_pending(
    now: u64,
    start_url: String,
    region: String,
    client_id: String,
    client_secret: String,
    device_code: String,
    link: String,
    raw_interval: i32,
    raw_expires: i32,
) -> Pending {
    Pending {
        start_url,
        region,
        client_id,
        client_secret,
        device_code,
        verification_uri: link,
        expires_at: (now + lifetime_for(raw_expires)) as u64,
        interval: interval_for(raw_interval),
        next_poll: (now + interval_for(raw_interval)) as u64,
        token: None,
        polling: false,
    }
}

/// The token a login holds for account and role selection at `now`, if any.
pub open spec fn session_token(m: Map<Seq<char>, Pending>, id: Seq<char>, now: u64) -> Option<VaultToken> {
    if m.contains_key(id) && m[id].expires_at > now && m[id].token is Some && m[id].token->0.expires_at > now + 30 {
        m[id].token
    } else {
        None
    }
}

/// Law: a cancelled login has no token to use.
pub proof fn lemma_cancelled_login_has_no_token(m: Map<Seq<char>, Pending>, id: Seq<char>, now: u64)
    ensures
        session_token(m.remove(id), id, now) is None,
{
}

/// Law: forgetting expired logins changes no login's token.
pub proof fn lemma_cleanup_keeps_tokens(m: Map<Seq<char>, Pending>, id: Seq<char>, now: u64)
    ensures
        session_token(live(m, now), id, now) == session_token(m, id, now),
{
}

/// Law: a login whose window has passed has no token to use.
pub proof fn lemma_expired_login_has_no_token(m: Map<Seq<char>, Pending>, id: Seq<char>, now: u64)
    requires
        m.contains_key(id),
        m[id].expires_at <= now,
    ensures
        session_token(m, id, now) is None,
{
}

/// Requires an answer field from AWS: the network error when it is missing.
pub fn require_field(field: Option<String>) -> (r: Result<String, AppError>)
    ensures
        field matches Some(v) ==> r == Ok::<String, AppError>(v),
        field is None ==> (r matches Err(e) && is_invalid(e, NETWORK@)),
{
    match field {
        Some(v) => Ok(v),
        None => Err(invalid(NETWORK)),
    }
}

/// The outcome of recording a device authorization as the login `session_id`:
/// the link must be the region's device service, the answer must carry a user
/// code and a device code, and at most `MAX_SESSIONS` logins may be pending.
pub open spec fn login_registered(
    before: Map<Seq<char>, Pending>,
    after: Map<Seq<char>, Pending>,
    r: Result<LoginStart, AppError>,
    now: u64,
    session_id: String,
    start_url: String,
    region: String,
    client_id: String,
    client_secret: String,
    auth: DeviceAuthorization,
) -> bool {
    &&& r matches Err(e) ==> is_invalid(e, NETWORK@) || is_invalid(e, TOO_MANY_LOGINS_NOW@)
    &&& match device_link(auth) {
                None => (r matches Err(e) && is_invalid(e, NETWORK@)) && after == before,
                Some(link) => match url_parse_result(link@) {
                    Some(p) if verification_parts_ok(p, region@) && auth.user_code is Some => {
                        let l = live(before, now);
                        if l.len() >= MAX_SESSIONS {
                            (r matches Err(e) && is_invalid(e, TOO_MANY_LOGINS_NOW@)) && after == l
                        } else if auth.device_code is None {
                            (r matches Err(e) && is_invalid(e, NETWORK@)) && after == l
                        } else {
                            &&& r matches Ok(s) && s.session_id == session_id && s.user_code
                                == auth.user_code->0 && s.verification_uri == link && s.expires_in
                                == lifetime_for(auth.expires_in) && s.interval == interval_for(
                                auth.interval,
                            )
                            &&& after == l.insert(
                                session_id@,
                                new_pending(
                                    now,
                                    start_url,
                                    region,
                                    client_id,
                                    client_secret,
                                    auth.device_code->0,
                                    link,
                                    auth.interval,
                                    auth.expires_in,
                                ),
                            )
                            &&& after.len() <= MAX_SESSIONS
                        }
                    },
                    _ => (r matches Err(e) && is_invalid(e, NETWORK@)) && after == before,
                },
            }
}

/// Forgetting expired logins keeps a sub-table.
proof fn lemma_live_smaller(m: Map<Seq<char>, Pending>, now: u64)
    requires
        m.dom().finite(),
    ensures
        live(m, now).dom().finite(),
        live(m, now).len() <= m.len(),
        forall|k: Seq<char>| #[trigger] live(m, now).contains_key(k) ==> m.contains_key(k) && live(m, now)[k] == m[k],
{
    vstd::set_lib::lemma_len_subset(live(m, now).dom(), m.dom());
}

/// Law: registering a login keeps at most `MAX_SESSIONS` logins pending, adds
/// no login but `session_id` (and that one exactly when it succeeds), and
/// changes no other login; at most, expired ones are forgotten.
pub proof fn lemma_register_login_bounded(
    before: Map<Seq<char>, Pending>,
    after: Map<Seq<char>, Pending>,
    r: Result<LoginStart, AppError>,
    now: u64,
    session_id: String,
    start_url: String,
    region: String,
    client_id: String,
    client_secret: String,
    auth: DeviceAuthorization,
)
    requires
        login_registered(before, after, r, now, session_id, start_url, region, client_id, client_secret, auth),
        before.dom().finite(),
        before.len() <= MAX_SESSIONS,
    ensures
        after.len() <= MAX_SESSIONS,
        forall|k: Seq<char>|
            #[trigger] after.contains_key(k) && k != session_id@ ==> before.contains_key(k) && after[k] == before[k],
        r is Ok ==> after.contains_key(session_id@),
        r is Err ==> forall|k: Seq<char>| #[trigger] after.contains_key(k) ==> before.contains_key(k),
{
    lemma_live_smaller(before, now);
}

impl Sessions {
    /// The token of an authorized login, for listing accounts and roles or saving
    /// a profile. The login must not have expired, must be authorized, and its
    /// token must stay valid for more than 30 seconds.
    pub fn token_for_session(&self, id: &str, now: u64) -> (r: Result<VaultToken, AppError>)
        ensures
            session_token(self@, id@, now) matches Some(t) ==> r == Ok::<VaultToken, AppError>(t),
            session_token(self@, id@, now) is None ==> (r matches Err(e) && (is_invalid(e, SIGN_IN@)
                || (is_invalid(e, FINISH_SIGN_IN@) && self@[id@].token is None))),
            (!self@.contains_key(id@) || self@[id@].expires_at <= now) ==> (r matches Err(e)
                && is_invalid(e, SIGN_IN@)),
            (self@.contains_key(id@) && self@[id@].expires_at > now && self@[id@].token is None) ==> (
            r matches Err(e) && is_invalid(e, FINISH_SIGN_IN@)),
    {
        let item = match self.get(id) {
            Some(p) => p,
            None => {
                return Err(invalid(SIGN_IN));
            },
        };
        if item.expires_at <= now {
            return Err(invalid(SIGN_IN));
        }
        let token = match &item.token {
            Some(t) => t,
            None => {
                return Err(invalid(FINISH_SIGN_IN));
            },
        };
        if token.expires_at <= now || token.expires_at - now <= 30 {
            return Err(invalid(SIGN_IN));
        }
        Ok(token.copy())
    }

    /// Forgets expired logins and refuses a new login while `MAX_SESSIONS` are pending.
    pub fn begin_login(&mut self, now: u64) -> (r: Result<(), AppError>)
        ensures
            final(self)@ == live(old(self)@, now),
            r is Ok <==> live(old(self)@, now).len() < MAX_SESSIONS,
            r matches Err(e) ==> is_invalid(e, TOO_MANY_LOGINS@),
    {
        self.cleanup(now);
        if self.len() >= MAX_SESSIONS {
            return Err(invalid(TOO_MANY_LOGINS));
        }
        Ok(())
    }

    /// The checks that come before any request to AWS when a login starts: the
    /// portal and region must pass `validate_portal`, and then expired logins
    /// are forgotten and fewer than `MAX_SESSIONS` may be pending. Gives the
    /// canonical portal URL.
    pub fn prepare_login(&mut self, start_url: &str, region: &str, now: u64) -> (r: Result<String, AppError>)
        ensures
            !region_valid(region@) ==> (r matches Err(e) && is_invalid(e, REGION_MESSAGE@)) && final(self)@
                == old(self)@,
            region_valid(region@) ==> match url_parse_result(trim(start_url@)) {
                None => (r matches Err(e) && is_invalid(e, PORTAL_URL_MESSAGE@)) && final(self)@ == old(self)@,
                Some(p) => if !portal_parts_ok(p) {
                    (r matches Err(e) && is_invalid(e, PORTAL_MESSAGE@)) && final(self)@ == old(self)@
                } else {
                    &&& final(self)@ == live(old(self)@, now)
                    &&& live(old(self)@, now).len() < MAX_SESSIONS ==> (r matches Ok(u) && u@ == portal_url(p.host->0))
                    &&& live(old(self)@, now).len() >= MAX_SESSIONS ==> (r matches Err(e) && is_invalid(e, TOO_MANY_LOGINS@))
                },
            },
    {
        let portal = match validate_portal(start_url, region) {
            Ok(u) => u,
            Err(e) => {
                return Err(e);
            },
        };
        match self.begin_login(now) {
            Ok(()) => Ok(portal),
            Err(e) => Err(e),
        }
    }

    /// Records an accepted device authorization as the pending login `session_id`.
    /// The verification link must be the region's AWS device service, the answer
    /// must carry a user code and a device code, and at most `MAX_SESSIONS`
    /// logins may be pending.
    pub fn register_login(
        &mut self,
        now: u64,
        session_id: String,
        start_url: String,
        region: String,
        client_id: String,
        client_secret: String,
        auth: DeviceAuthorization,
    ) -> (r: Result<LoginStart, AppError>)
        requires
            now <= MAX_CLOCK,
        ensures
            login_registered(
                old(self)@,
                final(self)@,
                r,
                now,
                session_id,
                start_url,
                region,
                client_id,
                client_secret,
                auth,
            ),
    {
        let link = match auth.verification_uri_complete {
            Some(u) => u,
            None => require_field(auth.verification_uri)?,
        };
        validate_verification_url(link.as_str(), region.as_str())?;
        let interval = device_interval(auth.interval);
        let expires_in = device_expires_in(auth.expires_in);
        let user_code = require_field(auth.user_code)?;
        self.cleanup(now);
        if self.len() >= MAX_SESSIONS {
            return Err(invalid(TOO_MANY_LOGINS_NOW));
        }
        let device_code = require_field(auth.device_code)?;
        proof {
            use_type_invariant(&*self);
            lemma_table(self.entries@, session_id@);
        }
        let ghost before = self@;
        let item = Pending {
            start_url,
            region,
            client_id,
            client_secret,
            device_code,
            verification_uri: link.clone(),
            expires_at: now + expires_in,
            interval,
            next_poll: now + interval,
            token: None,
            polling: false,
        };
        self.insert(session_id.clone(), item);
        proof {
            assert(self@.dom() == before.dom().insert(session_id@));
            vstd::set::axiom_set_insert_len(before.dom(), session_id@);
        }
        Ok(LoginStart { session_id, user_code, verification_uri: link, expires_in, interval })
    }

    fn interval_bound(&self, id: &str)
        ensures
            self@.contains_key(id@) ==> self@[id@].interval <= MAX_INTERVAL,
    {
        proof {
            use_type_invariant(self);
            lemma_table(self.entries@, id@);
            if self@.contains_key(id@) {
                let i = choose|i: int| 0 <= i < self.entries@.len() && #[trigger] self.entries@[i].id@ == id@;
                assert(self.entries@[i].item.interval <= MAX_INTERVAL);
            }
        }
    }

    /// Starts a login under a fresh random session id; see `register_login`.
    pub fn start_login(
        &mut self,
        now: u64,
        start_url: String,
        region: String,
        client_id: String,
        client_secret: String,
        auth: DeviceAuthorization,
    ) -> (r: Result<LoginStart, AppError>)
        requires
            now <= MAX_CLOCK,
        ensures
            exists|sid: String|
                uuid_hyphenated(sid@) && #[trigger] login_registered(
                    old(self)@,
                    final(self)@,
                    r,
                    now,
                    sid,
                    start_url,
                    region,
                    client_id,
                    client_secret,
                    auth,
                ),
    {
        let session_id = new_uuid_text();
        let ghost sid = session_id;
        let r = self.register_login(now, session_id, start_url, region, client_id, client_secret, auth);
        assert(uuid_hyphenated(sid@));
        r
    }

    /// The verification link of a login that has not expired, after checking
    /// again that it is the region's AWS device service.
    pub fn verification_link(&self, id: &str, now: u64) -> (r: Result<String, AppError>)
        ensures
            (!self@.contains_key(id@) || self@[id@].expires_at <= now) ==> (r matches Err(e)
                && is_invalid(e, SIGN_IN@)),
            self@.contains_key(id@) && self@[id@].expires_at > now ==> match url_parse_result(
                self@[id@].verification_uri@,
            ) {
                Some(p) => if verification_parts_ok(p, self@[id@].region@) {
                    r == Ok::<String, AppError>(self@[id@].verification_uri)
                } else {
                    r matches Err(e) && is_invalid(e, NETWORK@)
                },
                None => r matches Err(e) && is_invalid(e, NETWORK@),
            },
    {
        let item = match self.get(id) {
            Some(p) => p,
            None => {
                return Err(invalid(SIGN_IN));
            },
        };
        if item.expires_at <= now {
            return Err(invalid(SIGN_IN));
        }
        validate_verification_url(item.verification_uri.as_str(), item.region.as_str())?;
        Ok(item.verification_uri.clone())
    }

    /// The Identity Center region of a login.
    pub fn login_region(&self, id: &str) -> (r: Result<String, AppError>)
        ensures
            self@.contains_key(id@) ==> r == Ok::<String, AppError>(self@[id@].region),
            !self@.contains_key(id@) ==> (r matches Err(e) && is_invalid(e, SIGN_IN@)),
    {
        match self.get(id) {
            Some(p) => Ok(p.region.clone()),
            None => Err(invalid(SIGN_IN)),
        }
    }

    /// The first half of a poll: forgets expired logins, then answers from the
    /// login's state, or claims the login for one token request to AWS.
    pub fn poll_begin(&mut self, id: &str, now: u64) -> (r: Result<PollStep, AppError>)
        requires
            now <= MAX_CLOCK,
        ensures
            ({
                let l = live(old(self)@, now);
                if !l.contains_key(id@) {
                    (r matches Err(e) && is_invalid(e, SIGN_IN@)) && final(self)@ == l
                } else if l[id@].token is Some {
                    &&& r matches Ok(PollStep::Answer(a)) && a.status@ == "authorized"@ && a.interval
                        == l[id@].interval
                    &&& final(self)@ == l
                } else if l[id@].polling || now < l[id@].next_poll {
                    &&& r matches Ok(PollStep::Answer(a)) && a.status@ == "pending"@ && a.interval
                        == l[id@].interval
                    &&& final(self)@ == l
                } else {
                    &&& r matches Ok(PollStep::Request(q)) && q.client_id == l[id@].client_id
                        && q.client_secret == l[id@].client_secret && q.device_code
                        == l[id@].device_code
                    &&& final(self)@ == l.insert(
                        id@,
                        Pending { next_poll: (now + l[id@].interval) as u64, polling: true, ..l[id@] },
                    )
                }
            }),
    {
        self.cleanup(now);
        self.interval_bound(id);
        let item = match self.get(id) {
            Some(p) => p,
            None => {
                return Err(invalid(SIGN_IN));
            },
        };
        if item.token.is_some() {
            return Ok(PollStep::Answer(LoginPoll { status: "authorized", interval: item.interval }));
        }
        if item.polling || now < item.next_poll {
            return Ok(PollStep::Answer(LoginPoll { status: "pending", interval: item.interval }));
        }
        let mut claimed = item.copy();
        claimed.next_poll = now + claimed.interval;
        claimed.polling = true;
        let request = TokenRequest {
            client_id: claimed.client_id.clone(),
            client_secret: claimed.client_secret.clone(),
            device_code: claimed.device_code.clone(),
        };
        self.insert(id.to_owned(), claimed);
        Ok(PollStep::Request(request))
    }

    /// The second half of a poll: records what AWS answered to the token request.
    /// An authorized login keeps its token, forgets its client secret and device
    /// code, and stays open for `SELECTION_WINDOW` seconds; `SlowDownException`
    /// adds 5 seconds to the interval, up to 60; a declined or expired login is
    /// forgotten.
    pub fn poll_finish(&mut self, id: &str, now: u64, outcome: TokenOutcome) -> (r: Result<LoginPoll, AppError>)
        requires
            now <= MAX_CLOCK,
        ensures
            (!old(self)@.contains_key(id@) || old(self)@[id@].expires_at <= now) ==> (r matches Err(e)
                && is_invalid(e, SIGN_IN@)) && final(self)@ == old(self)@,
            old(self)@.contains_key(id@) && old(self)@[id@].expires_at > now ==> poll_recorded(
                old(self)@[id@],
                old(self)@,
                final(self)@,
                id@,
                now,
                outcome,
                r,
            ),
    {
        self.interval_bound(id);
        let mut item = match self.get(id) {
            Some(p) => {
                if p.expires_at <= now {
                    return Err(invalid(SIGN_IN));
                }
                p.copy()
            },
            None => {
                return Err(invalid(SIGN_IN));
            },
        };
        item.polling = false;
        match outcome {
            TokenOutcome::Granted { access_token, expires_in } => {
                let token = match access_token {
                    Some(t) => t,
                    None => {
                        self.insert(id.to_owned(), item);
                        return Err(invalid(NETWORK));
                    },
                };
                let life: u64 = if expires_in < 1 { 1 } else { expires_in as u64 };
                item.token = Some(
                    VaultToken {
                        token,
                        expires_at: now + life,
                        start_url: item.start_url.clone(),
                        sso_region: item.region.clone(),
                        account_id: None,
                        role_name: None,
                    },
                );
                item.client_secret = String::new();
                item.device_code = String::new();
                item.expires_at = now + SELECTION_WINDOW;
                let interval = item.interval;
                self.insert(id.to_owned(), item);
                Ok(LoginPoll { status: "authorized", interval })
            },
            TokenOutcome::Failed { code } => {
                let code = match code {
                    Some(c) => c,
                    None => {
                        self.insert(id.to_owned(), item);
                        return Err(invalid(NETWORK));
                    },
                };
                if str_eq(code.as_str(), "AuthorizationPendingException") {
                    let interval = item.interval;
                    self.insert(id.to_owned(), item);
                    Ok(LoginPoll { status: "pending", interval })
                } else if str_eq(code.as_str(), "SlowDownException") {
                    item.interval = if item.interval >= 55 { 60 } else { item.interval + 5 };
                    item.next_poll = now + item.interval;
                    let interval = item.interval;
                    self.insert(id.to_owned(), item);
                    Ok(LoginPoll { status: "pending", interval })
                } else if str_eq(code.as_str(), "AccessDeniedException") || str_eq(
                    code.as_str(),
                    "ExpiredTokenException",
                ) {
                    self.remove(id);
                    Err(invalid(LOGIN_DECLINED))
                } else {
                    self.insert(id.to_owned(), item);
                    Err(invalid(NETWORK))
                }
            },
        }
    }
}

/// The login after AWS authorized it with `access`: it holds the token, which
/// lives `expires_in` seconds (at least one) and carries the login's portal and
/// region; the client secret and device code are gone; it stays open for
/// `SELECTION_WINDOW` seconds.
pub open spec fn authorized_login(p: Pending, q: Pending, access: String, expires_in: i32, now: u64) -> bool {
    &&& q.start_url == p.start_url
    &&& q.region == p.region
    &&& q.client_id == p.client_id
    &&& q.client_secret@ == Seq::<char>::empty()
    &&& q.device_code@ == Seq::<char>::empty()
    &&& q.verification_uri == p.verification_uri
    &&& q.expires_at == now + SELECTION_WINDOW
    &&& q.interval == p.interval
    &&& q.next_poll == p.next_poll
    &&& !q.polling
    &&& q.token == Some(
        VaultToken {
            token: access,
            expires_at: (now + (if expires_in < 1 { 1 } else { expires_in as int })) as u64,
            start_url: p.start_url,
            sso_region: p.region,
            account_id: None,
            role_name: None,
        },
    )
}

/// How a token answer changes the login `p` with id `id` in `before`, giving `after` and `r`.
pub open spec fn poll_recorded(
    p: Pending,
    before: Map<Seq<char>, Pending>,
    after: Map<Seq<char>, Pending>,
    id: Seq<char>,
    now: u64,
    outcome: TokenOutcome,
    r: Result<LoginPoll, AppError>,
) -> bool {
    let idle = Pending { polling: false, ..p };
    match outcome {
        TokenOutcome::Granted { access_token, expires_in } => match access_token {
            Some(access) => {
                &&& r matches Ok(a) && a.status@ == "authorized"@ && a.interval == p.interval
                &&& after == before.insert(id, after[id])
                &&& authorized_login(p, after[id], access, expires_in, now)
            },
            None => (r matches Err(e) && is_invalid(e, NETWORK@)) && after == before.insert(id, idle),
        },
        TokenOutcome::Failed { code } => {
            if code matches Some(c) && c@ == "AuthorizationPendingException"@ {
                (r matches Ok(a) && a.status@ == "pending"@ && a.interval == p.interval) && after
                    == before.insert(id, idle)
            } else if code matches Some(c) && c@ == "SlowDownException"@ {
                let slower = if p.interval + 5 > 60 { 60 } else { (p.interval + 5) as u64 };
                &&& r matches Ok(a) && a.status@ == "pending"@ && a.interval == slower
                &&& after == before.insert(
                    id,
                    Pending { interval: slower, next_poll: (now + slower) as u64, ..idle },
                )
            } else if code matches Some(c) && (c@ == "AccessDeniedException"@ || c@
                == "ExpiredTokenException"@) {
                (r matches Err(e) && is_invalid(e, LOGIN_DECLINED@)) && after == before.remove(id)
            } else {
                (r matches Err(e) && is_invalid(e, NETWORK@)) && after == before.insert(id, idle)
            }
        },
    }
}

} // verus!

verus! {

/// Law: a token request that fails other than by a decline or an expired
/// device code (with another AWS error code, or with none at all) keeps the
/// login, no longer polling and otherwise as it was but for a slower interval
/// after `SlowDownException`, so that the next poll retries; only
/// `AccessDeniedException` or `ExpiredTokenException` forget it. No other login
/// changes, and a failed request never authorizes the login.
pub proof fn lemma_failed_poll_keeps_login(
    p: Pending,
    before: Map<Seq<char>, Pending>,
    after: Map<Seq<char>, Pending>,
    id: Seq<char>,
    now: u64,
    code: Option<String>,
    r: Result<LoginPoll, AppError>,
)
    requires
        poll_recorded(p, before, after, id, now, TokenOutcome::Failed { code }, r),
    ensures
        forall|k: Seq<char>|
            k != id ==> (#[trigger] after.contains_key(k) == before.contains_key(k) && (before.contains_key(k)
                ==> after[k] == before[k])),
        r matches Ok(a) ==> a.status@ == "pending"@,
        code is None ==> (r matches Err(e) && is_invalid(e, NETWORK@)),
        (code matches Some(c) && (c@ == "AccessDeniedException"@ || c@ == "ExpiredTokenException"@)) ==> !after.contains_key(id),
        !(code matches Some(c) && (c@ == "AccessDeniedException"@ || c@ == "ExpiredTokenException"@)) ==> {
            &&& after.contains_key(id)
            &&& !after[id].polling
            &&& after[id].token == p.token
            &&& after[id].start_url == p.start_url
            &&& after[id].region == p.region
            &&& after[id].client_id == p.client_id
            &&& after[id].client_secret == p.client_secret
            &&& after[id].device_code == p.device_code
            &&& after[id].verification_uri == p.verification_uri
            &&& after[id].expires_at == p.expires_at
            &&& !(code matches Some(c) && c@ == "SlowDownException"@) ==> after[id].interval == p.interval
                && after[id].next_poll == p.next_poll
        },
{
    reveal_strlit("AuthorizationPendingException");
    reveal_strlit("SlowDownException");
    reveal_strlit("AccessDeniedException");
    reveal_strlit("ExpiredTokenException");
    if code matches Some(c) && (c@ == "AccessDeniedException"@ || c@ == "ExpiredTokenException"@) {
        let c = code->0;
        assert(c@ != "AuthorizationPendingException"@) by {
            assert(c@.len() != "AuthorizationPendingException"@.len());
        }
        assert(c@ != "SlowDownException"@) by {
            assert(c@.len() != "SlowDownException"@.len());
        }
    }
}

/// Law: a registered login holds exactly what the registration gave it: the
/// portal, the region, the client id and client secret, and the device code,
/// with no token and no request in flight, under the id that the answer names.
pub proof fn lemma_register_login_records(
    before: Map<Seq<char>, Pending>,
    after: Map<Seq<char>, Pending>,
    r: Result<LoginStart, AppError>,
    now: u64,
    session_id: String,
    start_url: String,
    region: String,
    client_id: String,
    client_secret: String,
    auth: DeviceAuthorization,
)
    requires
        login_registered(before, after, r, now, session_id, start_url, region, client_id, client_secret, auth),
        r is Ok,
        now <= MAX_CLOCK,
    ensures
        r->Ok_0.session_id == session_id,
        after.contains_key(session_id@),
        after[session_id@].start_url == start_url,
        after[session_id@].region == region,
        after[session_id@].client_id == client_id,
        after[session_id@].client_secret == client_secret,
        auth.device_code matches Some(d) && after[session_id@].device_code == d,
        after[session_id@].token is None,
        !after[session_id@].polling,
        after[session_id@].expires_at > now,
{
}

} // verus!
