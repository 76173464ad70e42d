use vstd::prelude::*;

use crate::config::UsageStats;
use crate::text::str_eq;

verus! {

/// An upstream account. Its API key is kept apart, in the key vault.
#[derive(Debug, Clone)]
pub struct Account {
    pub id: String,
    pub name: String,
    pub base_url: String,
    /// Creation time, in seconds since the epoch.
    pub created_at: i64,
    pub is_active: bool,
}

/// Per-session routing: the account a session is bound to and the model it is
/// forced onto, if any.
#[derive(Debug, Clone)]
pub struct SessionConfig {
    pub session_id: String,
    pub account_id: String,
    pub model_override: Option<String>,
    /// Excerpt of the latest user message.
    pub last_message: Option<String>,
    pub created_at: i64,
    pub last_activity_at: i64,
}

/// Why the store refused an operation.
#[derive(Debug, Clone, Copy, PartialEq, Eq, Structural)]
pub enum StoreError {
    /// A row with that key already exists.
    Conflict,
    /// No row has that key.
    NotFound,
}

/// Why a request could not be routed.
#[derive(Debug, Clone, Copy, PartialEq, Eq, Structural)]
pub enum RouteError {
    /// No account is active.
    NoActiveAccount,
    /// The session points at an account that no longer exists.
    AccountMissing,
}

/// How a request was routed.
#[derive(Debug, Clone, Copy, PartialEq, Eq, Structural)]
pub enum RouteKind {
    /// The session was known: its own account and model override apply.
    Existing,
    /// The session was unknown: it is now bound to the active account.
    New,
    /// The request carries no session: the active account applies.
    NoSession,
}

/// Where a request goes.
#[derive(Debug, Clone)]
pub struct Route {
    pub kind: RouteKind,
    pub account_id: String,
    pub model_override: Option<String>,
}

pub open spec fn opt_view(o: Option<String>) -> Option<Seq<char>> {
    match o {
        Some(s) => Some(s@),
        None => None,
    }
}

/// Position of the account with id `id`.
pub open spec fn account_index(accounts: Seq<Account>, id: Seq<char>) -> Option<int> {
    if exists|i: int| 0 <= i < accounts.len() && accounts[i].id@ == id {
        Some(choose|i: int| 0 <= i < accounts.len() && accounts[i].id@ == id)
    } else {
        None
    }
}

/// Position of the active account.
pub open spec fn active_index(accounts: Seq<Account>) -> Option<int> {
    if exists|i: int| 0 <= i < accounts.len() && accounts[i].is_active {
        Some(choose|i: int| 0 <= i < accounts.len() && accounts[i].is_active)
    } else {
        None
    }
}

/// Position of the session row for `sid`.
pub open spec fn session_index(sessions: Seq<SessionConfig>, sid: Seq<char>) -> Option<int> {
    if exists|i: int| 0 <= i < sessions.len() && sessions[i].session_id@ == sid {
        Some(choose|i: int| 0 <= i < sessions.len() && sessions[i].session_id@ == sid)
    } else {
        None
    }
}

/// At most one account is active.
pub open spec fn at_most_one_active(accounts: Seq<Account>) -> bool {
    forall|i: int, j: int|
        0 <= i < accounts.len() && 0 <= j < accounts.len() && accounts[i].is_active
            && accounts[j].is_active ==> i == j
}

pub open spec fn account_ids_unique(accounts: Seq<Account>) -> bool {
    forall|i: int, j: int|
        0 <= i < accounts.len() && 0 <= j < accounts.len() && accounts[i].id@ == accounts[j].id@
            ==> i == j
}

pub open spec fn session_ids_unique(sessions: Seq<SessionConfig>) -> bool {
    forall|i: int, j: int|
        0 <= i < sessions.len() && 0 <= j < sessions.len() && sessions[i].session_id@
            == sessions[j].session_id@ ==> i == j
}

/// The accounts after `id` is made the active one: every row keeps its fields
/// but the flag, which holds exactly on the rows with that id.
pub open spec fn switched(before: Seq<Account>, after: Seq<Account>, id: Seq<char>) -> bool {
    &&& after.len() == before.len()
    &&& forall|i: int|
        0 <= i < after.len() ==> {
            &&& (#[trigger] after[i]).id == before[i].id
            &&& after[i].name == before[i].name
            &&& after[i].base_url == before[i].base_url
            &&& after[i].created_at == before[i].created_at
            &&& after[i].is_active == (before[i].id@ == id)
        }
}

/// Switching to an account twice leaves the accounts as switching once does.
pub proof fn lemma_switch_idempotent(
    a0: Seq<Account>,
    a1: Seq<Account>,
    a2: Seq<Account>,
    id: Seq<char>,
)
    requires
        switched(a0, a1, id),
        switched(a1, a2, id),
    ensures
        a2 =~= a1,
{
    assert forall|i: int| 0 <= i < a2.len() implies a2[i] == a1[i] by {
        assert(a2[i].id == a1[i].id);
        assert(a2[i].is_active == a1[i].is_active);
    }
}

/// After a switch among accounts with unique ids, at most one is active.
pub proof fn lemma_switch_one_active(a0: Seq<Account>, a1: Seq<Account>, id: Seq<char>)
    requires
        account_ids_unique(a0),
        switched(a0, a1, id),
    ensures
        at_most_one_active(a1),
        account_ids_unique(a1),
{
    assert forall|i: int, j: int|
        0 <= i < a1.len() && 0 <= j < a1.len() && a1[i].is_active && a1[j].is_active implies i
        == j by {
        assert(a0[i].id@ == id && a0[j].id@ == id);
    }
    assert forall|i: int, j: int|
        0 <= i < a1.len() && 0 <= j < a1.len() && a1[i].id@ == a1[j].id@ implies i == j by {
        assert(a1[i].id == a0[i].id);
        assert(a1[j].id == a0[j].id);
    }
}

/// A copy of a string.
pub fn copy_string(s: &String) -> (r: String)
    ensures
        r@ == s@,
{
    String::from_str(s.as_str())
}

pub fn copy_opt_string(s: &Option<String>) -> (r: Option<String>)
    ensures
        opt_view(r) == opt_view(*s),
{
    match s {
        Some(v) => Some(copy_string(v)),
        None => None,
    }
}

proof fn lemma_account_index(accounts: Seq<Account>, id: Seq<char>, i: int)
    requires
        account_ids_unique(accounts),
        0 <= i < accounts.len(),
        accounts[i].id@ == id,
    ensures
        account_index(accounts, id) == Some(i),
{
    let k = choose|k: int| 0 <= k < accounts.len() && accounts[k].id@ == id;
    assert(accounts[k].id@ == accounts[i].id@);
}

proof fn lemma_active_index(accounts: Seq<Account>, i: int)
    requires
        at_most_one_active(accounts),
        0 <= i < accounts.len(),
        accounts[i].is_active,
    ensures
        active_index(accounts) == Some(i),
{
    let k = choose|k: int| 0 <= k < accounts.len() && accounts[k].is_active;
    assert(accounts[k].is_active);
}

proof fn lemma_session_index(sessions: Seq<SessionConfig>, sid: Seq<char>, i: int)
    requires
        session_ids_unique(sessions),
        0 <= i < sessions.len(),
        sessions[i].session_id@ == sid,
    ensures
        session_index(sessions, sid) == Some(i),
{
    let k = choose|k: int| 0 <= k < sessions.len() && sessions[k].session_id@ == sid;
    assert(sessions[k].session_id@ == sessions[i].session_id@);
}

fn find_account(accounts: &Vec<Account>, id: &str) -> (r: Option<usize>)
    requires
        account_ids_unique(accounts@),
    ensures
        match r {
            Some(i) => i < accounts@.len() && accounts@[i as int].id@ == id@ && account_index(
                accounts@,
                id@,
            ) == Some(i as int),
            None => account_index(accounts@, id@) is None,
        },
{
    let mut i: usize = 0;
    while i < accounts.len()
        invariant
            i <= accounts@.len(),
            account_ids_unique(accounts@),
            forall|j: int| 0 <= j < i ==> accounts@[j].id@ != id@,
        decreases accounts.len() - i,
    {
        if str_eq(accounts[i].id.as_str(), id) {
            proof {
                lemma_account_index(accounts@, id@, i as int);
            }
            return Some(i);
        }
        i = i + 1;
    }
    None
}

fn find_active(accounts: &Vec<Account>) -> (r: Option<usize>)
    requires
        at_most_one_active(accounts@),
    ensures
        match r {
            Some(i) => i < accounts@.len() && active_index(accounts@) == Some(i as int),
            None => active_index(accounts@) is None,
        },
{
    let mut i: usize = 0;
    while i < accounts.len()
        invariant
            i <= accounts@.len(),
            at_most_one_active(accounts@),
            forall|j: int| 0 <= j < i ==> !accounts@[j].is_active,
        decreases accounts.len() - i,
    {
        if accounts[i].is_active {
            proof {
                lemma_active_index(accounts@, i as int);
            }
            return Some(i);
        }
        i = i + 1;
    }
    None
}

fn find_session(sessions: &Vec<SessionConfig>, sid: &str) -> (r: Option<usize>)
    requires
        session_ids_unique(sessions@),
    ensures
        match r {
            Some(i) => i < sessions@.len() && sessions@[i as int].session_id@ == sid@
                && session_index(sessions@, sid@) == Some(i as int),
            None => session_index(sessions@, sid@) is None,
        },
{
    let mut i: usize = 0;
    while i < sessions.len()
        invariant
            i <= sessions@.len(),
            session_ids_unique(sessions@),
            forall|j: int| 0 <= j < i ==> sessions@[j].session_id@ != sid@,
        decreases sessions.len() - i,
    {
        if str_eq(sessions[i].session_id.as_str(), sid) {
            proof {
                lemma_session_index(sessions@, sid@, i as int);
            }
            return Some(i);
        }
        i = i + 1;
    }
    None
}

/// The route for a session id (empty ids count as absent) against the given
/// accounts and session rows.
pub open spec fn route_of(
    accounts: Seq<Account>,
    sessions: Seq<SessionConfig>,
    sid: Option<Seq<char>>,
) -> Result<(RouteKind, Seq<char>, Option<Seq<char>>), RouteError> {
    match sid {
        Some(s) if s.len() > 0 => match session_index(sessions, s) {
            Some(i) => if account_index(accounts, sessions[i].account_id@) is Some {
                Ok((RouteKind::Existing, sessions[i].account_id@, opt_view(sessions[i].model_override)))
            } else {
                Err(RouteError::AccountMissing)
            },
            None => match active_index(accounts) {
                Some(a) => Ok((RouteKind::New, accounts[a].id@, None)),
                None => Err(RouteError::NoActiveAccount),
            },
        },
        _ => match active_index(accounts) {
            Some(a) => Ok((RouteKind::NoSession, accounts[a].id@, None)),
            None => Err(RouteError::NoActiveAccount),
        },
    }
}

/// `row` is the row that a new session `sid` gets when bound to `account_id` at `now`.
pub open spec fn is_new_session_row(
    row: SessionConfig,
    sid: Seq<char>,
    account_id: Seq<char>,
    now: i64,
) -> bool {
    &&& row.session_id@ == sid
    &&& row.account_id@ == account_id
    &&& row.model_override is None
    &&& row.last_message is None
    &&& row.created_at == now
    &&& row.last_activity_at == now
}

/// Whether `r` is the route `route_of` gives.
pub open spec fn route_matches(
    r: Result<Route, RouteError>,
    expected: Result<(RouteKind, Seq<char>, Option<Seq<char>>), RouteError>,
) -> bool {
    match expected {
        Ok((kind, account_id, model_override)) => r is Ok && r->Ok_0.kind == kind
            && r->Ok_0.account_id@ == account_id && opt_view(r->Ok_0.model_override)
            == model_override,
        Err(e) => r == Err::<Route, RouteError>(e),
    }
}

/// The sessions after routing: a row is added exactly on a new route.
pub open spec fn sessions_after_route(
    before: Seq<SessionConfig>,
    after: Seq<SessionConfig>,
    sid: Option<Seq<char>>,
    expected: Result<(RouteKind, Seq<char>, Option<Seq<char>>), RouteError>,
    now: i64,
) -> bool {
    match expected {
        Ok((RouteKind::New, account_id, _)) => after.len() == before.len() + 1 && after.drop_last()
            == before && is_new_session_row(after.last(), sid->0, account_id, now),
        _ => after == before,
    }
}

/// Routing the same session twice against the same accounts gives the same
/// account and model override, and the second time the route is an existing one.
pub proof fn lemma_route_deterministic(
    accounts: Seq<Account>,
    s0: Seq<SessionConfig>,
    s1: Seq<SessionConfig>,
    sid: Seq<char>,
    now: i64,
)
    requires
        session_ids_unique(s0),
        route_of(accounts, s0, Some(sid)) is Ok,
        route_of(accounts, s0, Some(sid))->Ok_0.0 != RouteKind::NoSession,
        sessions_after_route(s0, s1, Some(sid), route_of(accounts, s0, Some(sid)), now),
    ensures
        session_ids_unique(s1),
        route_of(accounts, s1, Some(sid)) is Ok,
        route_of(accounts, s1, Some(sid))->Ok_0.0 == RouteKind::Existing,
        route_of(accounts, s1, Some(sid))->Ok_0.1 == route_of(accounts, s0, Some(sid))->Ok_0.1,
        route_of(accounts, s1, Some(sid))->Ok_0.2 == route_of(accounts, s0, Some(sid))->Ok_0.2,
        sessions_after_route(s1, s1, Some(sid), route_of(accounts, s1, Some(sid)), now),
{
    let first = route_of(accounts, s0, Some(sid));
    if first->Ok_0.0 == RouteKind::New {
        assert(session_index(s0, sid) is None);
        let n = s0.len() as int;
        assert(s1[n].session_id@ == sid);
        assert forall|i: int, j: int|
            0 <= i < s1.len() && 0 <= j < s1.len() && s1[i].session_id@ == s1[j].session_id@ implies i
            == j by {
            if i < n && j < n {
                assert(s1[i] == s0[i] && s1[j] == s0[j]);
            } else if i < n {
                assert(s1[i] == s0[i]);
            } else if j < n {
                assert(s1[j] == s0[j]);
            }
        }
        lemma_session_index(s1, sid, n);
        let a = active_index(accounts)->0;
        assert(account_index(accounts, accounts[a].id@) is Some);
    }
}

proof fn lemma_filter_step<A>(s: Seq<A>, c: int, f: spec_fn(A) -> bool)
    requires
        0 <= c < s.len(),
    ensures
        s.take(c + 1).filter(f) == if f(s[c]) {
            s.take(c).filter(f).push(s[c])
        } else {
            s.take(c).filter(f)
        },
{
    reveal(Seq::filter);
    assert(s.take(c + 1).drop_last() =~= s.take(c));
    assert(s.take(c + 1).last() == s[c]);
}

proof fn lemma_filter_subset<A>(s: Seq<A>, f: spec_fn(A) -> bool)
    ensures
        forall|i: int| 0 <= i < s.filter(f).len() ==> s.contains(#[trigger] s.filter(f)[i]),
    decreases s.len(),
{
    reveal(Seq::filter);
    if s.len() > 0 {
        let d = s.drop_last();
        lemma_filter_subset(d, f);
        assert forall|i: int| 0 <= i < s.filter(f).len() implies s.contains(
            #[trigger] s.filter(f)[i],
        ) by {
            if i < d.filter(f).len() {
                assert(d.contains(d.filter(f)[i]));
                let k = choose|k: int| 0 <= k < d.len() && d[k] == d.filter(f)[i];
                assert(s[k] == d[k]);
            } else {
                assert(s[s.len() - 1] == s.filter(f)[i]);
            }
        }
    }
}

proof fn lemma_filter_unique(s: Seq<SessionConfig>, f: spec_fn(SessionConfig) -> bool)
    requires
        session_ids_unique(s),
    ensures
        session_ids_unique(s.filter(f)),
    decreases s.len(),
{
    reveal(Seq::filter);
    if s.len() > 0 {
        let d = s.drop_last();
        assert(session_ids_unique(d)) by {
            assert forall|i: int, j: int|
                0 <= i < d.len() && 0 <= j < d.len() && d[i].session_id@ == d[j].session_id@ implies i
                == j by {
                assert(d[i] == s[i] && d[j] == s[j]);
            }
        }
        lemma_filter_unique(d, f);
        lemma_filter_subset(d, f);
        let sub = d.filter(f);
        let t = s.filter(f);
        if f(s.last()) {
            let n = sub.len() as int;
            assert forall|x: int, y: int|
                0 <= x < t.len() && 0 <= y < t.len() && t[x].session_id@ == t[y].session_id@ implies x
                == y by {
                if x < n && y == n {
                    assert(d.contains(sub[x]));
                    let k = choose|k: int| 0 <= k < d.len() && d[k] == sub[x];
                    assert(s[k].session_id@ == s[s.len() - 1].session_id@);
                } else if y < n && x == n {
                    assert(d.contains(sub[y]));
                    let k = choose|k: int| 0 <= k < d.len() && d[k] == sub[y];
                    assert(s[k].session_id@ == s[s.len() - 1].session_id@);
                } else if x < n && y < n {
                    assert(t[x] == sub[x] && t[y] == sub[y]);
                }
            }
        }
    }
}

fn usage_without_account(rows: Vec<UsageLogEntry>, id: &str) -> (r: Vec<UsageLogEntry>)
    ensures
        r@ == rows@.filter(|u: UsageLogEntry| u.account_id@ != id@),
{
    let ghost all = rows@;
    let ghost f: spec_fn(UsageLogEntry) -> bool = |u: UsageLogEntry| u.account_id@ != id@;
    let n = rows.len();
    let mut rest = rows;
    let mut kept: Vec<UsageLogEntry> = Vec::new();
    let mut c: usize = 0;
    while rest.len() > 0
        invariant
            all.len() == n,
            c <= all.len(),
            rest@ == all.skip(c as int),
            kept@ == all.take(c as int).filter(f),
            f == (|u: UsageLogEntry| u.account_id@ != id@),
        decreases rest.len(),
    {
        let u = rest.remove(0);
        proof {
            assert(u == all[c as int]);
            assert(f(u) == (u.account_id@ != id@));
            lemma_filter_step(all, c as int, f);
        }
        if !str_eq(u.account_id.as_str(), id) {
            kept.push(u);
        }
        c = c + 1;
        assert(rest@ =~= all.skip(c as int));
    }
    assert(all.take(c as int) =~= all);
    kept
}

fn sessions_without_account(rows: Vec<SessionConfig>, id: &str) -> (r: Vec<SessionConfig>)
    ensures
        r@ == rows@.filter(|s: SessionConfig| s.account_id@ != id@),
{
    let ghost all = rows@;
    let ghost f: spec_fn(SessionConfig) -> bool = |s: SessionConfig| s.account_id@ != id@;
    let n = rows.len();
    let mut rest = rows;
    let mut kept: Vec<SessionConfig> = Vec::new();
    let mut c: usize = 0;
    while rest.len() > 0
        invariant
            all.len() == n,
            c <= all.len(),
            rest@ == all.skip(c as int),
            kept@ == all.take(c as int).filter(f),
            f == (|s: SessionConfig| s.account_id@ != id@),
        decreases rest.len(),
    {
        let s = rest.remove(0);
        proof {
            assert(s == all[c as int]);
            assert(f(s) == (s.account_id@ != id@));
            lemma_filter_step(all, c as int, f);
        }
        if !str_eq(s.account_id.as_str(), id) {
            kept.push(s);
        }
        c = c + 1;
        assert(rest@ =~= all.skip(c as int));
    }
    assert(all.take(c as int) =~= all);
    kept
}

fn usage_since(rows: Vec<UsageLogEntry>, cutoff: i64) -> (r: Vec<UsageLogEntry>)
    ensures
        r@ == rows@.filter(|u: UsageLogEntry| u.timestamp >= cutoff),
{
    let ghost all = rows@;
    let ghost f: spec_fn(UsageLogEntry) -> bool = |u: UsageLogEntry| u.timestamp >= cutoff;
    let n = rows.len();
    let mut rest = rows;
    let mut kept: Vec<UsageLogEntry> = Vec::new();
    let mut c: usize = 0;
    while rest.len() > 0
        invariant
            all.len() == n,
            c <= all.len(),
            rest@ == all.skip(c as int),
            kept@ == all.take(c as int).filter(f),
            f == (|u: UsageLogEntry| u.timestamp >= cutoff),
        decreases rest.len(),
    {
        let u = rest.remove(0);
        proof {
            assert(u == all[c as int]);
            lemma_filter_step(all, c as int, f);
        }
        if u.timestamp >= cutoff {
            kept.push(u);
        }
        c = c + 1;
        assert(rest@ =~= all.skip(c as int));
    }
    assert(all.take(c as int) =~= all);
    kept
}

fn sessions_since(rows: Vec<SessionConfig>, cutoff: i64) -> (r: Vec<SessionConfig>)
    ensures
        r@ == rows@.filter(|s: SessionConfig| s.last_activity_at >= cutoff),
{
    let ghost all = rows@;
    let ghost f: spec_fn(SessionConfig) -> bool = |s: SessionConfig| s.last_activity_at >= cutoff;
    let n = rows.len();
    let mut rest = rows;
    let mut kept: Vec<SessionConfig> = Vec::new();
    let mut c: usize = 0;
    while rest.len() > 0
        invariant
            all.len() == n,
            c <= all.len(),
            rest@ == all.skip(c as int),
            kept@ == all.take(c as int).filter(f),
            f == (|s: SessionConfig| s.last_activity_at >= cutoff),
        decreases rest.len(),
    {
        let s = rest.remove(0);
        proof {
            assert(s == all[c as int]);
            lemma_filter_step(all, c as int, f);
        }
        if s.last_activity_at >= cutoff {
            kept.push(s);
        }
        c = c + 1;
        assert(rest@ =~= all.skip(c as int));
    }
    assert(all.take(c as int) =~= all);
    kept
}

/// `now` less `days` days, held at the bounds of `i64`.
pub open spec fn cutoff(now: i64, days: i64) -> i64 {
    sat(now - days * 86400)
}

fn cutoff_exec(now: i64, days: i64) -> (r: i64)
    ensures
        r == cutoff(now, days),
{
    assert(-9223372036854775808 * 86400 <= days * 86400 <= 9223372036854775807 * 86400) by (nonlinear_arith)
        requires
            i64::MIN <= days <= i64::MAX,
    ;
    let c: i128 = now as i128 - days as i128 * 86400;
    if c > i64::MAX as i128 {
        i64::MAX
    } else if c < i64::MIN as i128 {
        i64::MIN
    } else {
        c as i64
    }
}

/// How many rows a retention sweep removed.
#[derive(Debug, Clone, Copy, PartialEq, Eq, Structural)]
pub struct CleanupReport {
    pub sessions_deleted: usize,
    pub usage_deleted: usize,
}

impl CleanupReport {
    /// Whether the sweep removed enough to warrant compacting the data file.
    pub fn needs_vacuum(&self) -> (r: bool)
        ensures
            r == (self.sessions_deleted > 100 || self.usage_deleted > 1000),
    {
        self.sessions_deleted > 100 || self.usage_deleted > 1000
    }
}

/// The external link of a session: the last one recorded for it.
pub open spec fn mapping_of(maps: Seq<ExternalMapping>, sid: Seq<char>) -> Option<(Seq<char>, Option<Seq<char>>)>
    decreases maps.len(),
{
    if maps.len() == 0 {
        None
    } else if maps.last().session_id@ == sid {
        Some((maps.last().todo_id@, opt_view(maps.last().mission_id)))
    } else {
        mapping_of(maps.drop_last(), sid)
    }
}

/// A request routed with a session leaves that session in the table, so a
/// usage row written for it names a session that exists at that time.
pub proof fn lemma_routed_session_exists(
    accounts: Seq<Account>,
    s0: Seq<SessionConfig>,
    s1: Seq<SessionConfig>,
    sid: Seq<char>,
    now: i64,
)
    requires
        session_ids_unique(s0),
        route_of(accounts, s0, Some(sid)) is Ok,
        route_of(accounts, s0, Some(sid))->Ok_0.0 != RouteKind::NoSession,
        sessions_after_route(s0, s1, Some(sid), route_of(accounts, s0, Some(sid)), now),
    ensures
        session_index(s1, sid) is Some,
{
    lemma_route_deterministic(accounts, s0, s1, sid, now);
}

/// Which field of a usage row a report groups by.
#[derive(Debug, Clone, Copy, PartialEq, Eq, Structural)]
pub enum UsageKey {
    Account,
    Model,
}

/// The field of `u` that `k` groups by.
pub open spec fn key_of(u: UsageLogEntry, k: UsageKey) -> Seq<char> {
    match k {
        UsageKey::Account => u.account_id@,
        UsageKey::Model => u.model@,
    }
}

/// The usage rows whose grouped field is `key`.
pub open spec fn rows_with(rows: Seq<UsageLogEntry>, k: UsageKey, key: Seq<char>) -> Seq<UsageLogEntry> {
    rows.filter(|u: UsageLogEntry| key_of(u, k) == key)
}

/// Totals for one value of the grouped field.
#[derive(Debug, Clone)]
pub struct UsageGroup {
    pub key: String,
    pub request_count: usize,
    pub total_input_tokens: i64,
    pub total_output_tokens: i64,
}

/// `g` holds the exact totals of the rows with its key.
pub open spec fn group_exact(rows: Seq<UsageLogEntry>, k: UsageKey, g: UsageGroup) -> bool {
    let m = rows_with(rows, k, g.key@);
    &&& g.request_count == m.len()
    &&& g.total_input_tokens == sat_sum(m.map_values(|u: UsageLogEntry| u.input_tokens))
    &&& g.total_output_tokens == sat_sum(m.map_values(|u: UsageLogEntry| u.output_tokens))
}

pub open spec fn keys_distinct(gs: Seq<UsageGroup>) -> bool {
    forall|a: int, b: int| 0 <= a < b < gs.len() ==> gs[a].key@ != gs[b].key@
}

/// Every row's key has a group in `gs`.
pub open spec fn covers(rows: Seq<UsageLogEntry>, k: UsageKey, gs: Seq<UsageGroup>) -> bool {
    forall|i: int| 0 <= i < rows.len() ==> exists|j: int| 0 <= j < gs.len() && gs[j].key@ == key_of(#[trigger] rows[i], k)
}

proof fn lemma_filter_empty<A>(s: Seq<A>, f: spec_fn(A) -> bool)
    requires
        forall|i: int| 0 <= i < s.len() ==> !f(#[trigger] s[i]),
    ensures
        s.filter(f) == Seq::<A>::empty(),
    decreases s.len(),
{
    reveal(Seq::filter);
    if s.len() > 0 {
        lemma_filter_empty(s.drop_last(), f);
    }
}

fn key_text(u: &UsageLogEntry, k: UsageKey) -> (r: &String)
    ensures
        r@ == key_of(*u, k),
{
    match k {
        UsageKey::Account => &u.account_id,
        UsageKey::Model => &u.model,
    }
}

/// Totals per value of the grouped field, one group per value, in the order
/// the values first appear.
pub fn group_usage(rows: &Vec<UsageLogEntry>, k: UsageKey) -> (r: Vec<UsageGroup>)
    ensures
        keys_distinct(r@),
        covers(rows@, k, r@),
        forall|j: int| 0 <= j < r@.len() ==> group_exact(rows@, k, #[trigger] r@[j]),
{
    let mut groups: Vec<UsageGroup> = Vec::new();
    let mut i: usize = 0;
    assert(rows@.take(0) =~= Seq::<UsageLogEntry>::empty());
    while i < rows.len()
        invariant
            i <= rows@.len(),
            keys_distinct(groups@),
            covers(rows@.take(i as int), k, groups@),
            forall|j: int| 0 <= j < groups@.len() ==> group_exact(rows@.take(i as int), k, #[trigger] groups@[j]),
        decreases rows.len() - i,
    {
        let row = &rows[i];
        let key = key_text(row, k);
        let ghost pre = rows@.take(i as int);
        let ghost nxt = rows@.take(i + 1);
        proof {
            assert(nxt.drop_last() =~= pre);
            assert(nxt.last() == rows@[i as int]);
        }
        let mut found: Option<usize> = None;
        let mut j: usize = 0;
        while j < groups.len() && found.is_none()
            invariant
                j <= groups@.len(),
                found is None ==> forall|q: int| 0 <= q < j ==> groups@[q].key@ != key@,
                found is Some ==> found->0 < groups@.len() && groups@[found->0 as int].key@ == key@,
            decreases groups.len() - j + (if found is None { 1int } else { 0int }),
        {
            if crate::text::str_eq(groups[j].key.as_str(), key.as_str()) {
                found = Some(j);
            } else {
                j = j + 1;
            }
        }
        let ghost old_groups = groups@;
        match found {
            Some(g) => {
                let c = groups[g].request_count;
                let inp = sat_add(groups[g].total_input_tokens, row.input_tokens);
                let outp = sat_add(groups[g].total_output_tokens, row.output_tokens);
                proof {
                    let m = rows_with(pre, k, key@);
                    assert(c == m.len());
                    lemma_filter_step(rows@, i as int, |u: UsageLogEntry| key_of(u, k) == key@);
                }
                groups[g].request_count = c + 1;
                groups[g].total_input_tokens = inp;
                groups[g].total_output_tokens = outp;
                proof {
                    assert forall|q: int| 0 <= q < groups@.len() implies group_exact(nxt, k, #[trigger] groups@[q]) by {
                        let f = |u: UsageLogEntry| key_of(u, k) == groups@[q].key@;
                        lemma_filter_step(rows@, i as int, f);
                        if q == g {
                            let m = rows_with(pre, k, key@);
                            assert(m.push(rows@[i as int]).map_values(|u: UsageLogEntry| u.input_tokens).drop_last()
                                =~= m.map_values(|u: UsageLogEntry| u.input_tokens));
                            assert(m.push(rows@[i as int]).map_values(|u: UsageLogEntry| u.output_tokens).drop_last()
                                =~= m.map_values(|u: UsageLogEntry| u.output_tokens));
                        } else {
                            assert(groups@[q] == old_groups[q]);
                            assert(old_groups[q].key@ != key@);
                        }
                    }
                    assert forall|a: int, b: int| 0 <= a < b < groups@.len() implies groups@[a].key@ != groups@[b].key@ by {
                        assert(groups@[a].key == old_groups[a].key);
                        assert(groups@[b].key == old_groups[b].key);
                    }
                    assert forall|x: int| 0 <= x < nxt.len() implies exists|y: int| 0 <= y < groups@.len() && groups@[y].key@ == key_of(#[trigger] nxt[x], k) by {
                        if x < i {
                            assert(nxt[x] == pre[x]);
                            let y = choose|y: int| 0 <= y < old_groups.len() && old_groups[y].key@ == key_of(pre[x], k);
                            assert(groups@[y].key == old_groups[y].key);
                        } else {
                            assert(groups@[g as int].key@ == key@);
                        }
                    }
                }
            },
            None => {
                proof {
                    assert forall|x: int| 0 <= x < pre.len() implies !((|u: UsageLogEntry| key_of(u, k) == key@)(#[trigger] pre[x])) by {
                        let y = choose|y: int| 0 <= y < old_groups.len() && old_groups[y].key@ == key_of(pre[x], k);
                        assert(old_groups[y].key@ != key@);
                    }
                    lemma_filter_empty(pre, |u: UsageLogEntry| key_of(u, k) == key@);
                    lemma_filter_step(rows@, i as int, |u: UsageLogEntry| key_of(u, k) == key@);
                }
                let ghost m1 = seq![rows@[i as int]];
                proof {
                    assert(Seq::<UsageLogEntry>::empty().push(rows@[i as int]) =~= m1);
                    assert(m1.map_values(|u: UsageLogEntry| u.input_tokens).drop_last() =~= Seq::<i64>::empty());
                    assert(m1.map_values(|u: UsageLogEntry| u.output_tokens).drop_last() =~= Seq::<i64>::empty());
                }
                let inp = sat_add(0, row.input_tokens);
                let outp = sat_add(0, row.output_tokens);
                groups.push(UsageGroup {
                    key: copy_string(key),
                    request_count: 1,
                    total_input_tokens: inp,
                    total_output_tokens: outp,
                });
                proof {
                    let n = old_groups.len() as int;
                    assert forall|q: int| 0 <= q < groups@.len() implies group_exact(nxt, k, #[trigger] groups@[q]) by {
                        let f = |u: UsageLogEntry| key_of(u, k) == groups@[q].key@;
                        lemma_filter_step(rows@, i as int, f);
                        if q < n {
                            assert(groups@[q] == old_groups[q]);
                            assert(old_groups[q].key@ != key@);
                        } else {
                            let g = groups@[q];
                            assert(g.key@ == key@);
                            assert(rows_with(pre, k, key@) == Seq::<UsageLogEntry>::empty());
                            assert(rows_with(nxt, k, key@) == rows_with(pre, k, key@).push(rows@[i as int]));
                            assert(rows_with(nxt, k, key@) =~= m1);
                            let ins = m1.map_values(|u: UsageLogEntry| u.input_tokens);
                            let outs = m1.map_values(|u: UsageLogEntry| u.output_tokens);
                            assert(ins.last() == rows@[i as int].input_tokens);
                            assert(outs.last() == rows@[i as int].output_tokens);
                            assert(ins.drop_last() =~= Seq::<i64>::empty());
                            assert(outs.drop_last() =~= Seq::<i64>::empty());
                            assert(sat_sum(ins.drop_last()) == 0);
                            assert(sat_sum(outs.drop_last()) == 0);
                            assert(sat_sum(ins) == sat(0 + rows@[i as int].input_tokens));
                            assert(sat_sum(outs) == sat(0 + rows@[i as int].output_tokens));
                        }
                    }
                    assert forall|a: int, b: int| 0 <= a < b < groups@.len() implies groups@[a].key@ != groups@[b].key@ by {
                        if b < n {
                            assert(groups@[a] == old_groups[a] && groups@[b] == old_groups[b]);
                        } else {
                            assert(groups@[a] == old_groups[a]);
                        }
                    }
                    assert forall|x: int| 0 <= x < nxt.len() implies exists|y: int| 0 <= y < groups@.len() && groups@[y].key@ == key_of(#[trigger] nxt[x], k) by {
                        if x < i {
                            assert(nxt[x] == pre[x]);
                            let y = choose|y: int| 0 <= y < old_groups.len() && old_groups[y].key@ == key_of(pre[x], k);
                            assert(groups@[y] == old_groups[y]);
                        } else {
                            assert(groups@[n].key@ == key@);
                        }
                    }
                }
            },
        }
        i = i + 1;
    }
    assert(rows@.take(i as int) =~= rows@);
    groups
}

/// The index of a group with the highest request count (the first such).
fn max_group(work: &Vec<UsageGroup>) -> (r: usize)
    requires
        work@.len() > 0,
    ensures
        r < work@.len(),
        forall|b: int| 0 <= b < work@.len() ==> work@[r as int].request_count >= #[trigger] work@[b].request_count,
{
    let mut m: usize = 0;
    let mut i: usize = 1;
    while i < work.len()
        invariant
            work@.len() > 0,
            m < work@.len(),
            1 <= i <= work@.len(),
            forall|b: int| 0 <= b < i ==> work@[m as int].request_count >= #[trigger] work@[b].request_count,
        decreases work.len() - i,
    {
        if work[i].request_count > work[m].request_count {
            m = i;
        }
        i = i + 1;
    }
    m
}

/// The `limit` groups with the most requests, most first: a group left out has
/// no more requests than any group kept.
pub fn top_groups(groups: Vec<UsageGroup>, limit: usize) -> (r: Vec<UsageGroup>)
    requires
        keys_distinct(groups@),
    ensures
        r@.len() == if limit < groups@.len() {
            limit as int
        } else {
            groups@.len() as int
        },
        keys_distinct(r@),
        forall|a: int| 0 <= a < r@.len() ==> groups@.contains(#[trigger] r@[a]),
        forall|a: int, b: int| 0 <= a < b < r@.len() ==> r@[a].request_count >= r@[b].request_count,
        forall|j: int|
            0 <= j < groups@.len() ==> r@.contains(#[trigger] groups@[j]) || forall|a: int|
                0 <= a < r@.len() ==> r@[a].request_count >= groups@[j].request_count,
        groups@.len() <= limit ==> forall|j: int| 0 <= j < groups@.len() ==> r@.contains(#[trigger] groups@[j]),
{
    let ghost all = groups@;
    let mut work = groups;
    let mut out: Vec<UsageGroup> = Vec::new();
    while out.len() < limit && work.len() > 0
        invariant
            out@.len() + work@.len() == all.len(),
            out@.len() <= limit || all.len() == 0,
            forall|a: int| 0 <= a < out@.len() ==> all.contains(#[trigger] out@[a]),
            forall|b: int| 0 <= b < work@.len() ==> all.contains(#[trigger] work@[b]),
            keys_distinct(out@),
            keys_distinct(work@),
            forall|a: int, b: int|
                0 <= a < out@.len() && 0 <= b < work@.len() ==> out@[a].key@ != work@[b].key@,
            forall|a: int, b: int| 0 <= a < b < out@.len() ==> out@[a].request_count >= out@[b].request_count,
            forall|a: int, b: int|
                0 <= a < out@.len() && 0 <= b < work@.len() ==> out@[a].request_count
                    >= work@[b].request_count,
            forall|j: int|
                0 <= j < all.len() ==> out@.contains(#[trigger] all[j]) || work@.contains(all[j]),
        decreases work.len(),
    {
        let m = max_group(&work);
        let ghost w0 = work@;
        let ghost o0 = out@;
        let x = work.remove(m);
        proof {
            assert(x == w0[m as int]);
            assert forall|b: int| 0 <= b < work@.len() implies work@[b] == w0[if b < m { b } else { b + 1 }] by {}
        }
        out.push(x);
        proof {
            let w1 = work@;
            let o1 = out@;
            assert(o1.drop_last() =~= o0);
            assert forall|a: int| 0 <= a < o1.len() implies all.contains(#[trigger] o1[a]) by {
                if a < o0.len() {
                    assert(o1[a] == o0[a]);
                }
            }
            assert forall|b: int| 0 <= b < w1.len() implies all.contains(#[trigger] w1[b]) by {
                let b0 = if b < m { b } else { b + 1 };
                assert(w1[b] == w0[b0]);
            }
            assert forall|a: int, b: int| 0 <= a < b < o1.len() implies o1[a].key@ != o1[b].key@ by {
                if b < o0.len() {
                    assert(o1[a] == o0[a] && o1[b] == o0[b]);
                } else {
                    assert(o1[a] == o0[a]);
                    assert(o1[b] == w0[m as int]);
                }
            }
            assert forall|a: int, b: int| 0 <= a < b < w1.len() implies w1[a].key@ != w1[b].key@ by {
                let a0 = if a < m { a } else { a + 1 };
                let b0 = if b < m { b } else { b + 1 };
                assert(w1[a] == w0[a0] && w1[b] == w0[b0]);
            }
            assert forall|a: int, b: int| 0 <= a < o1.len() && 0 <= b < w1.len() implies o1[a].key@ != w1[b].key@ by {
                let b0 = if b < m { b } else { b + 1 };
                assert(w1[b] == w0[b0]);
                if a < o0.len() {
                    assert(o1[a] == o0[a]);
                } else {
                    assert(o1[a] == w0[m as int]);
                }
            }
            assert forall|a: int, b: int| 0 <= a < b < o1.len() implies o1[a].request_count >= o1[b].request_count by {
                if b < o0.len() {
                    assert(o1[a] == o0[a] && o1[b] == o0[b]);
                } else {
                    assert(o1[a] == o0[a]);
                    assert(o1[b] == w0[m as int]);
                }
            }
            assert forall|a: int, b: int| 0 <= a < o1.len() && 0 <= b < w1.len() implies o1[a].request_count >= w1[b].request_count by {
                let b0 = if b < m { b } else { b + 1 };
                assert(w1[b] == w0[b0]);
                if a < o0.len() {
                    assert(o1[a] == o0[a]);
                } else {
                    assert(o1[a] == w0[m as int]);
                }
            }
            assert forall|j: int| 0 <= j < all.len() implies o1.contains(#[trigger] all[j]) || w1.contains(all[j]) by {
                if o0.contains(all[j]) {
                    let a = choose|a: int| 0 <= a < o0.len() && o0[a] == all[j];
                    assert(o1[a] == o0[a]);
                } else {
                    let b = choose|b: int| 0 <= b < w0.len() && w0[b] == all[j];
                    if b == m {
                        assert(o1[o0.len() as int] == all[j]);
                    } else if b < m {
                        assert(w1[b] == w0[b]);
                    } else {
                        assert(w1[b - 1] == w0[b]);
                    }
                }
            }
        }
    }
    proof {
        let o = out@;
        let w = work@;
        if all.len() <= limit {
            assert(w.len() == 0);
            assert forall|j: int| 0 <= j < all.len() implies o.contains(#[trigger] all[j]) by {
                if !o.contains(all[j]) {
                    assert(w.contains(all[j]));
                }
            }
        }
        assert forall|j: int| 0 <= j < all.len() implies o.contains(#[trigger] all[j]) || forall|a: int|
            0 <= a < o.len() ==> o[a].request_count >= all[j].request_count by {
            if !o.contains(all[j]) {
                let b = choose|b: int| 0 <= b < w.len() && w[b] == all[j];
                assert forall|a: int| 0 <= a < o.len() implies o[a].request_count >= all[j].request_count by {
                    assert(o[a].request_count >= w[b].request_count);
                }
            }
        }
    }
    out
}

/// The key of row `i` is reported in `r`, or `r` is full and every group in it
/// has at least as many requests as that key has.
pub open spec fn key_reported(rows: Seq<UsageLogEntry>, k: UsageKey, r: Seq<UsageGroup>, limit: usize, i: int) -> bool {
    (exists|a: int| 0 <= a < r.len() && r[a].key@ == key_of(rows[i], k)) || (r.len() == limit && forall|a: int|
        0 <= a < r.len() ==> r[a].request_count >= rows_with(rows, k, key_of(rows[i], k)).len())
}

/// Usage totals of one account.
#[derive(Debug, Clone)]
pub struct AccountUsageStats {
    pub account_id: String,
    pub request_count: i64,
    pub total_input_tokens: i64,
    pub total_output_tokens: i64,
}

/// Usage totals of one model.
#[derive(Debug, Clone)]
pub struct ModelUsageStats {
    pub model: String,
    pub request_count: i64,
    pub total_input_tokens: i64,
    pub total_output_tokens: i64,
}

fn count_i64(n: usize) -> (r: i64)
    ensures
        r == sat(n as int),
{
    if n as u64 > 9223372036854775807u64 {
        i64::MAX
    } else {
        n as i64
    }
}

/// The usage rows logged for session `sid`.
pub open spec fn session_rows(rows: Seq<UsageLogEntry>, sid: Seq<char>) -> Seq<UsageLogEntry> {
    rows.filter(|u: UsageLogEntry| opt_view(u.session_id) == Some(sid))
}

/// Row count and token totals of the usage rows of one session.
fn session_totals(rows: &Vec<UsageLogEntry>, sid: &str) -> (r: (usize, i64, i64))
    ensures
        r.0 == session_rows(rows@, sid@).len(),
        r.1 == sat_sum(session_rows(rows@, sid@).map_values(|u: UsageLogEntry| u.input_tokens)),
        r.2 == sat_sum(session_rows(rows@, sid@).map_values(|u: UsageLogEntry| u.output_tokens)),
{
    let ghost f: spec_fn(UsageLogEntry) -> bool = |u: UsageLogEntry| opt_view(u.session_id) == Some(sid@);
    let mut count: usize = 0;
    let mut input: i64 = 0;
    let mut output: i64 = 0;
    let mut i: usize = 0;
    assert(rows@.take(0) =~= Seq::<UsageLogEntry>::empty());
    proof {
        reveal(Seq::filter);
    }
    while i < rows.len()
        invariant
            i <= rows@.len(),
            f == (|u: UsageLogEntry| opt_view(u.session_id) == Some(sid@)),
            count == rows@.take(i as int).filter(f).len(),
            count <= i,
            input == sat_sum(rows@.take(i as int).filter(f).map_values(|u: UsageLogEntry| u.input_tokens)),
            output == sat_sum(rows@.take(i as int).filter(f).map_values(|u: UsageLogEntry| u.output_tokens)),
        decreases rows.len() - i,
    {
        let ghost m = rows@.take(i as int).filter(f);
        proof {
            lemma_filter_step(rows@, i as int, f);
        }
        let hit = match &rows[i].session_id {
            Some(s) => str_eq(s.as_str(), sid),
            None => false,
        };
        if hit {
            proof {
                assert(m.push(rows@[i as int]).map_values(|u: UsageLogEntry| u.input_tokens).drop_last()
                    =~= m.map_values(|u: UsageLogEntry| u.input_tokens));
                assert(m.push(rows@[i as int]).map_values(|u: UsageLogEntry| u.output_tokens).drop_last()
                    =~= m.map_values(|u: UsageLogEntry| u.output_tokens));
            }
            count = count + 1;
            input = sat_add(input, rows[i].input_tokens);
            output = sat_add(output, rows[i].output_tokens);
        }
        i = i + 1;
    }
    assert(rows@.take(i as int) =~= rows@);
    (count, input, output)
}

/// `d` shows session row `s` with its account's name (`Unknown` where the
/// account is gone) and the totals of its usage rows.
pub open spec fn detail_of(
    d: crate::config::SessionDetail,
    s: SessionConfig,
    accounts: Seq<Account>,
    rows: Seq<UsageLogEntry>,
) -> bool {
    let m = session_rows(rows, s.session_id@);
    &&& d.session_id@ == s.session_id@
    &&& d.account_id@ == s.account_id@
    &&& d.account_name@ == match account_index(accounts, s.account_id@) {
        Some(i) => accounts[i].name@,
        None => "Unknown"@,
    }
    &&& opt_view(d.model_override) == opt_view(s.model_override)
    &&& opt_view(d.last_message) == opt_view(s.last_message)
    &&& d.created_at == s.created_at
    &&& d.last_activity_at == s.last_activity_at
    &&& d.request_count == sat(m.len() as int)
    &&& d.total_input_tokens == sat_sum(m.map_values(|u: UsageLogEntry| u.input_tokens))
    &&& d.total_output_tokens == sat_sum(m.map_values(|u: UsageLogEntry| u.output_tokens))
}

/// Session `s` is in the report `r`, or the report is full with sessions
/// active no earlier than `s`.
pub open spec fn session_listed(r: Seq<crate::config::SessionDetail>, s: SessionConfig, limit: nat) -> bool {
    (exists|a: int| 0 <= a < r.len() && r[a].session_id@ == s.session_id@) || (r.len() == limit && forall|a: int|
        0 <= a < r.len() ==> r[a].last_activity_at >= s.last_activity_at)
}

/// `d` shows one of the `sessions` active after `since`.
pub open spec fn shows_active_session(
    d: crate::config::SessionDetail,
    sessions: Seq<SessionConfig>,
    accounts: Seq<Account>,
    rows: Seq<UsageLogEntry>,
    since: i64,
) -> bool {
    exists|k: int|
        0 <= k < sessions.len() && sessions[k].last_activity_at > since && #[trigger] detail_of(
            d,
            sessions[k],
            accounts,
            rows,
        )
}

/// The `limit` most recently active sessions, most recent first: a session
/// left out was active no later than any session kept.
fn latest_sessions(items: Vec<crate::config::SessionDetail>, limit: usize) -> (r: Vec<crate::config::SessionDetail>)
    ensures
        r@.len() == if limit < items@.len() {
            limit as int
        } else {
            items@.len() as int
        },
        forall|a: int| 0 <= a < r@.len() ==> items@.contains(#[trigger] r@[a]),
        forall|a: int, b: int| 0 <= a < b < r@.len() ==> r@[a].last_activity_at >= r@[b].last_activity_at,
        forall|j: int|
            0 <= j < items@.len() ==> r@.contains(#[trigger] items@[j]) || forall|a: int|
                0 <= a < r@.len() ==> r@[a].last_activity_at >= items@[j].last_activity_at,
        items@.len() <= limit ==> forall|j: int| 0 <= j < items@.len() ==> r@.contains(#[trigger] items@[j]),
{
    let ghost all = items@;
    let mut work = items;
    let mut out: Vec<crate::config::SessionDetail> = Vec::new();
    while out.len() < limit && work.len() > 0
        invariant
            out@.len() + work@.len() == all.len(),
            out@.len() <= limit || all.len() == 0,
            forall|a: int| 0 <= a < out@.len() ==> all.contains(#[trigger] out@[a]),
            forall|b: int| 0 <= b < work@.len() ==> all.contains(#[trigger] work@[b]),
            forall|a: int, b: int| 0 <= a < b < out@.len() ==> out@[a].last_activity_at >= out@[b].last_activity_at,
            forall|a: int, b: int|
                0 <= a < out@.len() && 0 <= b < work@.len() ==> out@[a].last_activity_at
                    >= work@[b].last_activity_at,
            forall|j: int|
                0 <= j < all.len() ==> out@.contains(#[trigger] all[j]) || work@.contains(all[j]),
        decreases work.len(),
    {
        let mut m: usize = 0;
        let mut i: usize = 1;
        while i < work.len()
            invariant
                work@.len() > 0,
                m < work@.len(),
                1 <= i <= work@.len(),
                forall|b: int| 0 <= b < i ==> work@[m as int].last_activity_at >= #[trigger] work@[b].last_activity_at,
            decreases work.len() - i,
        {
            if work[i].last_activity_at > work[m].last_activity_at {
                m = i;
            }
            i = i + 1;
        }
        let ghost w0 = work@;
        let ghost o0 = out@;
        let x = work.remove(m);
        proof {
            assert(x == w0[m as int]);
            assert forall|b: int| 0 <= b < work@.len() implies work@[b] == w0[if b < m { b } else { b + 1 }] by {}
        }
        out.push(x);
        proof {
            let w1 = work@;
            let o1 = out@;
            assert(o1.drop_last() =~= o0);
            assert forall|a: int| 0 <= a < o1.len() implies all.contains(#[trigger] o1[a]) by {
                if a < o0.len() {
                    assert(o1[a] == o0[a]);
                }
            }
            assert forall|b: int| 0 <= b < w1.len() implies all.contains(#[trigger] w1[b]) by {
                let b0 = if b < m { b } else { b + 1 };
                assert(w1[b] == w0[b0]);
            }
            assert forall|a: int, b: int| 0 <= a < b < o1.len() implies o1[a].last_activity_at >= o1[b].last_activity_at by {
                if b < o0.len() {
                    assert(o1[a] == o0[a] && o1[b] == o0[b]);
                } else {
                    assert(o1[a] == o0[a]);
                    assert(o1[b] == w0[m as int]);
                }
            }
            assert forall|a: int, b: int| 0 <= a < o1.len() && 0 <= b < w1.len() implies o1[a].last_activity_at >= w1[b].last_activity_at by {
                let b0 = if b < m { b } else { b + 1 };
                assert(w1[b] == w0[b0]);
                if a < o0.len() {
                    assert(o1[a] == o0[a]);
                } else {
                    assert(o1[a] == w0[m as int]);
                }
            }
            assert forall|j: int| 0 <= j < all.len() implies o1.contains(#[trigger] all[j]) || w1.contains(all[j]) by {
                if o0.contains(all[j]) {
                    let a = choose|a: int| 0 <= a < o0.len() && o0[a] == all[j];
                    assert(o1[a] == o0[a]);
                } else {
                    let b = choose|b: int| 0 <= b < w0.len() && w0[b] == all[j];
                    if b == m {
                        assert(o1[o0.len() as int] == all[j]);
                    } else if b < m {
                        assert(w1[b] == w0[b]);
                    } else {
                        assert(w1[b - 1] == w0[b]);
                    }
                }
            }
        }
    }
    proof {
        let o = out@;
        let w = work@;
        if all.len() <= limit {
            assert(w.len() == 0);
            assert forall|j: int| 0 <= j < all.len() implies o.contains(#[trigger] all[j]) by {
                if !o.contains(all[j]) {
                    assert(w.contains(all[j]));
                }
            }
        }
        assert forall|j: int| 0 <= j < all.len() implies o.contains(#[trigger] all[j]) || forall|a: int|
            0 <= a < o.len() ==> o[a].last_activity_at >= all[j].last_activity_at by {
            if !o.contains(all[j]) {
                let b = choose|b: int| 0 <= b < w.len() && w[b] == all[j];
                assert forall|a: int| 0 <= a < o.len() implies o[a].last_activity_at >= all[j].last_activity_at by {
                    assert(o[a].last_activity_at >= w[b].last_activity_at);
                }
            }
        }
    }
    out
}

/// The map that a list of key-value pairs describes; a later pair wins.
pub open spec fn config_map(pairs: Seq<(String, String)>) -> Map<Seq<char>, Seq<char>>
    decreases pairs.len(),
{
    if pairs.len() == 0 {
        Map::empty()
    } else {
        config_map(pairs.drop_last()).insert(pairs.last().0@, pairs.last().1@)
    }
}

proof fn lemma_config_map_cons(p: (String, String), rest: Seq<(String, String)>)
    ensures
        config_map(seq![p] + rest) == Map::<Seq<char>, Seq<char>>::empty().insert(p.0@, p.1@).union_prefer_right(
            config_map(rest),
        ),
    decreases rest.len(),
{
    if rest.len() == 0 {
        assert(seq![p] + rest =~= seq![p]);
        assert(seq![p].drop_last() =~= Seq::<(String, String)>::empty());
        assert(config_map(rest) == Map::<Seq<char>, Seq<char>>::empty());
        assert(config_map(seq![p].drop_last()) == Map::<Seq<char>, Seq<char>>::empty());
        assert(seq![p].last() == p);
        assert(config_map(seq![p]) =~= Map::<Seq<char>, Seq<char>>::empty().insert(p.0@, p.1@).union_prefer_right(
            config_map(rest),
        ));
    } else {
        lemma_config_map_cons(p, rest.drop_last());
        assert((seq![p] + rest).drop_last() =~= seq![p] + rest.drop_last());
        assert(config_map(seq![p] + rest) =~= Map::<Seq<char>, Seq<char>>::empty().insert(p.0@, p.1@).union_prefer_right(
            config_map(rest),
        ));
    }
}

/// The configuration values the store starts with.
pub open spec fn default_config() -> Seq<(Seq<char>, Seq<char>)> {
    seq![
        ("proxy_port"@, "32080"@),
        ("auto_start"@, "true"@),
        ("theme"@, "system"@),
        ("threadcast_webhook_url"@, "http://localhost:21000"@),
        ("threadcast_webhook_enabled"@, "false"@),
        ("hooks_enabled"@, "true"@),
        ("hooks_retention_days"@, "30"@),
        ("compaction_injection_enabled"@, "false"@),
        ("compaction_summarization_instructions"@, ""@),
        ("compaction_context_injection"@, ""@),
    ]
}

/// `m` with each default added, in order, where its key has no value yet.
pub open spec fn with_defaults(m: Map<Seq<char>, Seq<char>>, defaults: Seq<(Seq<char>, Seq<char>)>) -> Map<
    Seq<char>,
    Seq<char>,
>
    decreases defaults.len(),
{
    if defaults.len() == 0 {
        m
    } else {
        let before = with_defaults(m, defaults.drop_last());
        let (k, v) = defaults.last();
        if before.contains_key(k) {
            before
        } else {
            before.insert(k, v)
        }
    }
}

/// The store `after` is `before` with account `id` made the only active one,
/// every other table as it was.
pub open spec fn switch_effect(before: Store, after: Store, id: Seq<char>) -> bool {
    &&& switched(before.spec_accounts(), after.spec_accounts(), id)
    &&& after.spec_sessions() == before.spec_sessions()
    &&& after.spec_usage() == before.spec_usage()
    &&& after.spec_mappings() == before.spec_mappings()
    &&& after.spec_config() == before.spec_config()
    &&& after.spec_session_hooks() == before.spec_session_hooks()
}

/// Switching to an account succeeds again once it has succeeded, and the
/// second switch leaves the whole store as the first one left it.
pub proof fn lemma_switch_store_idempotent(s0: Store, s1: Store, s2: Store, id: Seq<char>)
    requires
        account_index(s0.spec_accounts(), id) is Some,
        switch_effect(s0, s1, id),
        switch_effect(s1, s2, id),
    ensures
        account_index(s1.spec_accounts(), id) is Some,
        s2.spec_accounts() == s1.spec_accounts(),
        s2.spec_sessions() == s1.spec_sessions(),
        s2.spec_usage() == s1.spec_usage(),
        s2.spec_mappings() == s1.spec_mappings(),
        s2.spec_config() == s1.spec_config(),
        s2.spec_session_hooks() == s1.spec_session_hooks(),
{
    let i = choose|i: int| 0 <= i < s0.spec_accounts().len() && s0.spec_accounts()[i].id@ == id;
    assert(s1.spec_accounts()[i].id == s0.spec_accounts()[i].id);
    lemma_switch_idempotent(s0.spec_accounts(), s1.spec_accounts(), s2.spec_accounts(), id);
}

/// Usage totals of one session.
#[derive(Debug, Clone)]
pub struct SessionUsageStats {
    pub session_id: String,
    pub first_request: i64,
    pub last_request: i64,
    pub request_count: i64,
    pub total_input_tokens: i64,
    pub total_output_tokens: i64,
}

pub open spec fn session_ids_distinct(v: Seq<SessionUsageStats>) -> bool {
    forall|a: int, b: int| 0 <= a < b < v.len() ==> v[a].session_id@ != v[b].session_id@
}

/// The least of `s` (the largest `i64` where `s` is empty).
pub open spec fn seq_min(s: Seq<i64>) -> i64
    decreases s.len(),
{
    if s.len() == 0 {
        i64::MAX
    } else if s.last() < seq_min(s.drop_last()) {
        s.last()
    } else {
        seq_min(s.drop_last())
    }
}

/// The greatest of `s` (the least `i64` where `s` is empty).
pub open spec fn seq_max(s: Seq<i64>) -> i64
    decreases s.len(),
{
    if s.len() == 0 {
        i64::MIN
    } else if s.last() > seq_max(s.drop_last()) {
        s.last()
    } else {
        seq_max(s.drop_last())
    }
}

/// `u` holds the exact totals of the rows of its session.
pub open spec fn session_usage_exact(rows: Seq<UsageLogEntry>, u: SessionUsageStats) -> bool {
    let m = session_rows(rows, u.session_id@);
    &&& u.first_request == seq_min(m.map_values(|x: UsageLogEntry| x.timestamp))
    &&& u.last_request == seq_max(m.map_values(|x: UsageLogEntry| x.timestamp))
    &&& u.request_count == sat(m.len() as int)
    &&& u.total_input_tokens == sat_sum(m.map_values(|x: UsageLogEntry| x.input_tokens))
    &&& u.total_output_tokens == sat_sum(m.map_values(|x: UsageLogEntry| x.output_tokens))
}

fn session_usage_of(rows: &Vec<UsageLogEntry>, sid: &str) -> (r: SessionUsageStats)
    ensures
        r.session_id@ == sid@,
        session_usage_exact(rows@, r),
{
    let ghost f: spec_fn(UsageLogEntry) -> bool = |u: UsageLogEntry| opt_view(u.session_id) == Some(sid@);
    let (count, input, output) = session_totals(rows, sid);
    let mut lo: i64 = i64::MAX;
    let mut hi: i64 = i64::MIN;
    let mut i: usize = 0;
    assert(rows@.take(0) =~= Seq::<UsageLogEntry>::empty());
    proof {
        reveal(Seq::filter);
    }
    while i < rows.len()
        invariant
            i <= rows@.len(),
            f == (|u: UsageLogEntry| opt_view(u.session_id) == Some(sid@)),
            lo == seq_min(rows@.take(i as int).filter(f).map_values(|x: UsageLogEntry| x.timestamp)),
            hi == seq_max(rows@.take(i as int).filter(f).map_values(|x: UsageLogEntry| x.timestamp)),
        decreases rows.len() - i,
    {
        let ghost m = rows@.take(i as int).filter(f);
        proof {
            lemma_filter_step(rows@, i as int, f);
        }
        let hit = match &rows[i].session_id {
            Some(s) => str_eq(s.as_str(), sid),
            None => false,
        };
        if hit {
            proof {
                assert(m.push(rows@[i as int]).map_values(|x: UsageLogEntry| x.timestamp).drop_last()
                    =~= m.map_values(|x: UsageLogEntry| x.timestamp));
            }
            let ts = rows[i].timestamp;
            if ts < lo {
                lo = ts;
            }
            if ts > hi {
                hi = ts;
            }
        }
        i = i + 1;
    }
    assert(rows@.take(i as int) =~= rows@);
    SessionUsageStats {
        session_id: String::from_str(sid),
        first_request: lo,
        last_request: hi,
        request_count: count_i64(count),
        total_input_tokens: input,
        total_output_tokens: output,
    }
}

fn latest_usage(work: &Vec<SessionUsageStats>) -> (r: usize)
    requires
        work@.len() > 0,
    ensures
        r < work@.len(),
        forall|b: int| 0 <= b < work@.len() ==> work@[r as int].last_request >= #[trigger] work@[b].last_request,
{
    let mut m: usize = 0;
    let mut i: usize = 1;
    while i < work.len()
        invariant
            work@.len() > 0,
            m < work@.len(),
            1 <= i <= work@.len(),
            forall|b: int| 0 <= b < i ==> work@[m as int].last_request >= #[trigger] work@[b].last_request,
        decreases work.len() - i,
    {
        if work[i].last_request > work[m].last_request {
            m = i;
        }
        i = i + 1;
    }
    m
}

/// The `limit` sessions with the latest requests, latest first: a session left
/// out was last used no later than any session kept.
pub fn latest_session_usage(groups: Vec<SessionUsageStats>, limit: usize) -> (r: Vec<SessionUsageStats>)
    requires
        session_ids_distinct(groups@),
    ensures
        r@.len() == if limit < groups@.len() {
            limit as int
        } else {
            groups@.len() as int
        },
        session_ids_distinct(r@),
        forall|a: int| 0 <= a < r@.len() ==> groups@.contains(#[trigger] r@[a]),
        forall|a: int, b: int| 0 <= a < b < r@.len() ==> r@[a].last_request >= r@[b].last_request,
        forall|j: int|
            0 <= j < groups@.len() ==> r@.contains(#[trigger] groups@[j]) || forall|a: int|
                0 <= a < r@.len() ==> r@[a].last_request >= groups@[j].last_request,
        groups@.len() <= limit ==> forall|j: int| 0 <= j < groups@.len() ==> r@.contains(#[trigger] groups@[j]),
{
    let ghost all = groups@;
    let mut work = groups;
    let mut out: Vec<SessionUsageStats> = Vec::new();
    while out.len() < limit && work.len() > 0
        invariant
            out@.len() + work@.len() == all.len(),
            out@.len() <= limit || all.len() == 0,
            forall|a: int| 0 <= a < out@.len() ==> all.contains(#[trigger] out@[a]),
            forall|b: int| 0 <= b < work@.len() ==> all.contains(#[trigger] work@[b]),
            session_ids_distinct(out@),
            session_ids_distinct(work@),
            forall|a: int, b: int|
                0 <= a < out@.len() && 0 <= b < work@.len() ==> out@[a].session_id@ != work@[b].session_id@,
            forall|a: int, b: int| 0 <= a < b < out@.len() ==> out@[a].last_request >= out@[b].last_request,
            forall|a: int, b: int|
                0 <= a < out@.len() && 0 <= b < work@.len() ==> out@[a].last_request
                    >= work@[b].last_request,
            forall|j: int|
                0 <= j < all.len() ==> out@.contains(#[trigger] all[j]) || work@.contains(all[j]),
        decreases work.len(),
    {
        let m = latest_usage(&work);
        let ghost w0 = work@;
        let ghost o0 = out@;
        let x = work.remove(m);
        proof {
            assert(x == w0[m as int]);
            assert forall|b: int| 0 <= b < work@.len() implies work@[b] == w0[if b < m { b } else { b + 1 }] by {}
        }
        out.push(x);
        proof {
            let w1 = work@;
            let o1 = out@;
            assert(o1.drop_last() =~= o0);
            assert forall|a: int| 0 <= a < o1.len() implies all.contains(#[trigger] o1[a]) by {
                if a < o0.len() {
                    assert(o1[a] == o0[a]);
                }
            }
            assert forall|b: int| 0 <= b < w1.len() implies all.contains(#[trigger] w1[b]) by {
                let b0 = if b < m { b } else { b + 1 };
                assert(w1[b] == w0[b0]);
            }
            assert forall|a: int, b: int| 0 <= a < b < o1.len() implies o1[a].session_id@ != o1[b].session_id@ by {
                if b < o0.len() {
                    assert(o1[a] == o0[a] && o1[b] == o0[b]);
                } else {
                    assert(o1[a] == o0[a]);
                    assert(o1[b] == w0[m as int]);
                }
            }
            assert forall|a: int, b: int| 0 <= a < b < w1.len() implies w1[a].session_id@ != w1[b].session_id@ by {
                let a0 = if a < m { a } else { a + 1 };
                let b0 = if b < m { b } else { b + 1 };
                assert(w1[a] == w0[a0] && w1[b] == w0[b0]);
            }
            assert forall|a: int, b: int| 0 <= a < o1.len() && 0 <= b < w1.len() implies o1[a].session_id@ != w1[b].session_id@ by {
                let b0 = if b < m { b } else { b + 1 };
                assert(w1[b] == w0[b0]);
                if a < o0.len() {
                    assert(o1[a] == o0[a]);
                } else {
                    assert(o1[a] == w0[m as int]);
                }
            }
            assert forall|a: int, b: int| 0 <= a < b < o1.len() implies o1[a].last_request >= o1[b].last_request by {
                if b < o0.len() {
                    assert(o1[a] == o0[a] && o1[b] == o0[b]);
                } else {
                    assert(o1[a] == o0[a]);
                    assert(o1[b] == w0[m as int]);
                }
            }
            assert forall|a: int, b: int| 0 <= a < o1.len() && 0 <= b < w1.len() implies o1[a].last_request >= w1[b].last_request by {
                let b0 = if b < m { b } else { b + 1 };
                assert(w1[b] == w0[b0]);
                if a < o0.len() {
                    assert(o1[a] == o0[a]);
                } else {
                    assert(o1[a] == w0[m as int]);
                }
            }
            assert forall|j: int| 0 <= j < all.len() implies o1.contains(#[trigger] all[j]) || w1.contains(all[j]) by {
                if o0.contains(all[j]) {
                    let a = choose|a: int| 0 <= a < o0.len() && o0[a] == all[j];
                    assert(o1[a] == o0[a]);
                } else {
                    let b = choose|b: int| 0 <= b < w0.len() && w0[b] == all[j];
                    if b == m {
                        assert(o1[o0.len() as int] == all[j]);
                    } else if b < m {
                        assert(w1[b] == w0[b]);
                    } else {
                        assert(w1[b - 1] == w0[b]);
                    }
                }
            }
        }
    }
    proof {
        let o = out@;
        let w = work@;
        if all.len() <= limit {
            assert(w.len() == 0);
            assert forall|j: int| 0 <= j < all.len() implies o.contains(#[trigger] all[j]) by {
                if !o.contains(all[j]) {
                    assert(w.contains(all[j]));
                }
            }
        }
        assert forall|j: int| 0 <= j < all.len() implies o.contains(#[trigger] all[j]) || forall|a: int|
            0 <= a < o.len() ==> o[a].last_request >= all[j].last_request by {
            if !o.contains(all[j]) {
                let b = choose|b: int| 0 <= b < w.len() && w[b] == all[j];
                assert forall|a: int| 0 <= a < o.len() implies o[a].last_request >= all[j].last_request by {
                    assert(o[a].last_request >= w[b].last_request);
                }
            }
        }
    }
    out
}


/// Session `sid` is in the report `r`, or the report is full with sessions
/// last used no earlier than `sid`.
pub open spec fn session_usage_listed(r: Seq<SessionUsageStats>, rows: Seq<UsageLogEntry>, sid: Seq<char>, limit: nat) -> bool {
    (exists|a: int| 0 <= a < r.len() && r[a].session_id@ == sid) || (r.len() == limit && forall|a: int|
        0 <= a < r.len() ==> r[a].last_request >= seq_max(session_rows(rows, sid).map_values(|x: UsageLogEntry| x.timestamp)))
}

/// Usage totals of one calendar day.
#[derive(Debug, Clone)]
pub struct DailyUsageStats {
    pub date: String,
    pub request_count: i64,
    pub total_input_tokens: i64,
    pub total_output_tokens: i64,
}

/// The day, counted from 1970-01-01, that a time falls on at an offset from UTC.
pub open spec fn day_of(timestamp: i64, utc_offset_secs: i64) -> int {
    (timestamp + utc_offset_secs) / 86400
}

fn day_of_exec(timestamp: i64, utc_offset_secs: i64) -> (r: i64)
    ensures
        r == day_of(timestamp, utc_offset_secs),
{
    let v: i128 = timestamp as i128 + utc_offset_secs as i128;
    let d: i128 = if v >= 0 {
        v / 86400
    } else {
        -((-v + 86399) / 86400)
    };
    assert(d == v / 86400) by (nonlinear_arith)
        requires
            v >= 0 ==> d == v / 86400,
            v < 0 ==> d == -((-v + 86399) / 86400),
    ;
    assert(-300000000000000 <= d <= 300000000000000) by (nonlinear_arith)
        requires
            d == v / 86400,
            -18446744073709551616 <= v <= 18446744073709551616,
    ;
    d as i64
}

/// The calendar date, `YYYY-MM-DD`, of a day counted from 1970-01-01; `None`
/// where the date is out of range.
pub uninterp spec fn epoch_date(day: int) -> Option<Seq<char>>;

/// Relies on `chrono::NaiveDate::from_epoch_days` and its `%Y-%m-%d` format.
#[verifier::external_body]
fn epoch_date_text(day: i32) -> (r: Option<String>)
    ensures
        opt_view(r) == epoch_date(day as int),
{
    match chrono::NaiveDate::from_epoch_days(day) {
        Some(d) => Some(d.format("%Y-%m-%d").to_string()),
        None => None,
    }
}

/// The usage rows after `since` that fall on day `d`.
pub open spec fn day_rows(rows: Seq<UsageLogEntry>, since: i64, off: i64, d: int) -> Seq<UsageLogEntry> {
    rows.filter(|u: UsageLogEntry| u.timestamp > since && day_of(u.timestamp, off) == d)
}

/// Totals of one day while a report is put together.
pub struct DayGroup {
    pub day: i64,
    pub request_count: usize,
    pub total_input_tokens: i64,
    pub total_output_tokens: i64,
}

pub open spec fn days_distinct(v: Seq<DayGroup>) -> bool {
    forall|a: int, b: int| 0 <= a < b < v.len() ==> v[a].day != v[b].day
}

pub open spec fn day_exact(rows: Seq<UsageLogEntry>, since: i64, off: i64, g: DayGroup) -> bool {
    let m = day_rows(rows, since, off, g.day as int);
    &&& g.request_count == m.len()
    &&& g.total_input_tokens == sat_sum(m.map_values(|x: UsageLogEntry| x.input_tokens))
    &&& g.total_output_tokens == sat_sum(m.map_values(|x: UsageLogEntry| x.output_tokens))
}

fn day_group_of(rows: &Vec<UsageLogEntry>, since: i64, off: i64, d: i64) -> (r: DayGroup)
    ensures
        r.day == d,
        day_exact(rows@, since, off, r),
{
    let ghost f: spec_fn(UsageLogEntry) -> bool = |u: UsageLogEntry| u.timestamp > since && day_of(u.timestamp, off) == d as int;
    let mut count: usize = 0;
    let mut input: i64 = 0;
    let mut output: i64 = 0;
    let mut i: usize = 0;
    assert(rows@.take(0) =~= Seq::<UsageLogEntry>::empty());
    proof {
        reveal(Seq::filter);
    }
    while i < rows.len()
        invariant
            i <= rows@.len(),
            f == (|u: UsageLogEntry| u.timestamp > since && day_of(u.timestamp, off) == d as int),
            count == rows@.take(i as int).filter(f).len(),
            count <= i,
            input == sat_sum(rows@.take(i as int).filter(f).map_values(|u: UsageLogEntry| u.input_tokens)),
            output == sat_sum(rows@.take(i as int).filter(f).map_values(|u: UsageLogEntry| u.output_tokens)),
        decreases rows.len() - i,
    {
        let ghost m = rows@.take(i as int).filter(f);
        proof {
            lemma_filter_step(rows@, i as int, f);
        }
        if rows[i].timestamp > since && day_of_exec(rows[i].timestamp, off) == d {
            proof {
                assert(m.push(rows@[i as int]).map_values(|u: UsageLogEntry| u.input_tokens).drop_last()
                    =~= m.map_values(|u: UsageLogEntry| u.input_tokens));
                assert(m.push(rows@[i as int]).map_values(|u: UsageLogEntry| u.output_tokens).drop_last()
                    =~= m.map_values(|u: UsageLogEntry| u.output_tokens));
            }
            count = count + 1;
            input = sat_add(input, rows[i].input_tokens);
            output = sat_add(output, rows[i].output_tokens);
        }
        i = i + 1;
    }
    assert(rows@.take(i as int) =~= rows@);
    DayGroup { day: d, request_count: count, total_input_tokens: input, total_output_tokens: output }
}

fn latest_day(work: &Vec<DayGroup>) -> (r: usize)
    requires
        work@.len() > 0,
    ensures
        r < work@.len(),
        forall|b: int| 0 <= b < work@.len() ==> work@[r as int].day >= #[trigger] work@[b].day,
{
    let mut m: usize = 0;
    let mut i: usize = 1;
    while i < work.len()
        invariant
            work@.len() > 0,
            m < work@.len(),
            1 <= i <= work@.len(),
            forall|b: int| 0 <= b < i ==> work@[m as int].day >= #[trigger] work@[b].day,
        decreases work.len() - i,
    {
        if work[i].day > work[m].day {
            m = i;
        }
        i = i + 1;
    }
    m
}

/// The `limit` latest days, latest first.
pub fn latest_days(groups: Vec<DayGroup>, limit: usize) -> (r: Vec<DayGroup>)
    requires
        days_distinct(groups@),
    ensures
        r@.len() == if limit < groups@.len() {
            limit as int
        } else {
            groups@.len() as int
        },
        days_distinct(r@),
        forall|a: int| 0 <= a < r@.len() ==> groups@.contains(#[trigger] r@[a]),
        forall|a: int, b: int| 0 <= a < b < r@.len() ==> r@[a].day >= r@[b].day,
        forall|j: int|
            0 <= j < groups@.len() ==> r@.contains(#[trigger] groups@[j]) || forall|a: int|
                0 <= a < r@.len() ==> r@[a].day >= groups@[j].day,
        groups@.len() <= limit ==> forall|j: int| 0 <= j < groups@.len() ==> r@.contains(#[trigger] groups@[j]),
{
    let ghost all = groups@;
    let mut work = groups;
    let mut out: Vec<DayGroup> = Vec::new();
    while out.len() < limit && work.len() > 0
        invariant
            out@.len() + work@.len() == all.len(),
            out@.len() <= limit || all.len() == 0,
            forall|a: int| 0 <= a < out@.len() ==> all.contains(#[trigger] out@[a]),
            forall|b: int| 0 <= b < work@.len() ==> all.contains(#[trigger] work@[b]),
            days_distinct(out@),
            days_distinct(work@),
            forall|a: int, b: int|
                0 <= a < out@.len() && 0 <= b < work@.len() ==> out@[a].day != work@[b].day,
            forall|a: int, b: int| 0 <= a < b < out@.len() ==> out@[a].day >= out@[b].day,
            forall|a: int, b: int|
                0 <= a < out@.len() && 0 <= b < work@.len() ==> out@[a].day
                    >= work@[b].day,
            forall|j: int|
                0 <= j < all.len() ==> out@.contains(#[trigger] all[j]) || work@.contains(all[j]),
        decreases work.len(),
    {
        let m = latest_day(&work);
        let ghost w0 = work@;
        let ghost o0 = out@;
        let x = work.remove(m);
        proof {
            assert(x == w0[m as int]);
            assert forall|b: int| 0 <= b < work@.len() implies work@[b] == w0[if b < m { b } else { b + 1 }] by {}
        }
        out.push(x);
        proof {
            let w1 = work@;
            let o1 = out@;
            assert(o1.drop_last() =~= o0);
            assert forall|a: int| 0 <= a < o1.len() implies all.contains(#[trigger] o1[a]) by {
                if a < o0.len() {
                    assert(o1[a] == o0[a]);
                }
            }
            assert forall|b: int| 0 <= b < w1.len() implies all.contains(#[trigger] w1[b]) by {
                let b0 = if b < m { b } else { b + 1 };
                assert(w1[b] == w0[b0]);
            }
            assert forall|a: int, b: int| 0 <= a < b < o1.len() implies o1[a].day != o1[b].day by {
                if b < o0.len() {
                    assert(o1[a] == o0[a] && o1[b] == o0[b]);
                } else {
                    assert(o1[a] == o0[a]);
                    assert(o1[b] == w0[m as int]);
                }
            }
            assert forall|a: int, b: int| 0 <= a < b < w1.len() implies w1[a].day != w1[b].day by {
                let a0 = if a < m { a } else { a + 1 };
                let b0 = if b < m { b } else { b + 1 };
                assert(w1[a] == w0[a0] && w1[b] == w0[b0]);
            }
            assert forall|a: int, b: int| 0 <= a < o1.len() && 0 <= b < w1.len() implies o1[a].day != w1[b].day by {
                let b0 = if b < m { b } else { b + 1 };
                assert(w1[b] == w0[b0]);
                if a < o0.len() {
                    assert(o1[a] == o0[a]);
                } else {
                    assert(o1[a] == w0[m as int]);
                }
            }
            assert forall|a: int, b: int| 0 <= a < b < o1.len() implies o1[a].day >= o1[b].day by {
                if b < o0.len() {
                    assert(o1[a] == o0[a] && o1[b] == o0[b]);
                } else {
                    assert(o1[a] == o0[a]);
                    assert(o1[b] == w0[m as int]);
                }
            }
            assert forall|a: int, b: int| 0 <= a < o1.len() && 0 <= b < w1.len() implies o1[a].day >= w1[b].day by {
                let b0 = if b < m { b } else { b + 1 };
                assert(w1[b] == w0[b0]);
                if a < o0.len() {
                    assert(o1[a] == o0[a]);
                } else {
                    assert(o1[a] == w0[m as int]);
                }
            }
            assert forall|j: int| 0 <= j < all.len() implies o1.contains(#[trigger] all[j]) || w1.contains(all[j]) by {
                if o0.contains(all[j]) {
                    let a = choose|a: int| 0 <= a < o0.len() && o0[a] == all[j];
                    assert(o1[a] == o0[a]);
                } else {
                    let b = choose|b: int| 0 <= b < w0.len() && w0[b] == all[j];
                    if b == m {
                        assert(o1[o0.len() as int] == all[j]);
                    } else if b < m {
                        assert(w1[b] == w0[b]);
                    } else {
                        assert(w1[b - 1] == w0[b]);
                    }
                }
            }
        }
    }
    proof {
        let o = out@;
        let w = work@;
        if all.len() <= limit {
            assert(w.len() == 0);
            assert forall|j: int| 0 <= j < all.len() implies o.contains(#[trigger] all[j]) by {
                if !o.contains(all[j]) {
                    assert(w.contains(all[j]));
                }
            }
        }
        assert forall|j: int| 0 <= j < all.len() implies o.contains(#[trigger] all[j]) || forall|a: int|
            0 <= a < o.len() ==> o[a].day >= all[j].day by {
            if !o.contains(all[j]) {
                let b = choose|b: int| 0 <= b < w.len() && w[b] == all[j];
                assert forall|a: int| 0 <= a < o.len() implies o[a].day >= all[j].day by {
                    assert(o[a].day >= w[b].day);
                }
            }
        }
    }
    out
}


/// `s` reports the totals of group `g` under its calendar date (empty where
/// the date is out of range).
pub open spec fn daily_of(s: DailyUsageStats, g: DayGroup) -> bool {
    &&& s.date@ == (if i32::MIN <= g.day <= i32::MAX {
        match epoch_date(g.day as int) {
            Some(t) => t,
            None => Seq::empty(),
        }
    } else {
        Seq::<char>::empty()
    })
    &&& s.request_count == sat(g.request_count as int)
    &&& s.total_input_tokens == g.total_input_tokens
    &&& s.total_output_tokens == g.total_output_tokens
}

/// A usage-log row. Rows are appended and never changed.
#[derive(Debug, Clone)]
pub struct UsageLogEntry {
    pub timestamp: i64,
    pub account_id: String,
    pub model: String,
    pub input_tokens: i64,
    pub output_tokens: i64,
    pub session_id: Option<String>,
    pub status_code: u16,
}

/// `v`, held at the bounds of `i64`.
pub open spec fn sat(v: int) -> i64 {
    if v > i64::MAX {
        i64::MAX
    } else if v < i64::MIN {
        i64::MIN
    } else {
        v as i64
    }
}

/// The sum of `s`, taken left to right and held at the bounds of `i64` at each step.
pub open spec fn sat_sum(s: Seq<i64>) -> i64
    decreases s.len(),
{
    if s.len() == 0 {
        0
    } else {
        sat(sat_sum(s.drop_last()) + s.last())
    }
}

fn sat_add(a: i64, b: i64) -> (r: i64)
    ensures
        r == sat(a + b),
{
    let s: i128 = a as i128 + b as i128;
    if s > i64::MAX as i128 {
        i64::MAX
    } else if s < i64::MIN as i128 {
        i64::MIN
    } else {
        s as i64
    }
}

/// Two usage rows hold the same values.
pub open spec fn same_usage(a: UsageLogEntry, b: UsageLogEntry) -> bool {
    &&& a.timestamp == b.timestamp
    &&& a.account_id@ == b.account_id@
    &&& a.model@ == b.model@
    &&& a.input_tokens == b.input_tokens
    &&& a.output_tokens == b.output_tokens
    &&& opt_view(a.session_id) == opt_view(b.session_id)
    &&& a.status_code == b.status_code
}

fn copy_usage(u: &UsageLogEntry) -> (r: UsageLogEntry)
    ensures
        same_usage(r, *u),
{
    UsageLogEntry {
        timestamp: u.timestamp,
        account_id: copy_string(&u.account_id),
        model: copy_string(&u.model),
        input_tokens: u.input_tokens,
        output_tokens: u.output_tokens,
        session_id: copy_opt_string(&u.session_id),
        status_code: u.status_code,
    }
}

/// A session's own hook switches.
#[derive(Debug, Clone)]
pub struct SessionHookConfig {
    pub session_id: String,
    pub api_logging_enabled: bool,
    pub compaction_injection_enabled: bool,
    pub compaction_summarization_instructions: Option<String>,
    pub compaction_context_injection: Option<String>,
    pub custom_tasks_enabled: bool,
}

/// Position of the first switches stored for `sid`, at or after `i`.
pub open spec fn hooks_index(v: Seq<SessionHookConfig>, sid: Seq<char>, i: int) -> Option<int>
    decreases v.len() - i,
{
    if i < 0 || i >= v.len() {
        None
    } else if v[i].session_id@ == sid {
        Some(i)
    } else {
        hooks_index(v, sid, i + 1)
    }
}

fn find_hooks(v: &Vec<SessionHookConfig>, sid: &str) -> (r: Option<usize>)
    ensures
        match r {
            Some(i) => i < v@.len() && hooks_index(v@, sid@, 0) == Some(i as int),
            None => hooks_index(v@, sid@, 0) is None,
        },
{
    let mut i: usize = 0;
    while i < v.len()
        invariant
            i <= v@.len(),
            hooks_index(v@, sid@, 0) == hooks_index(v@, sid@, i as int),
        decreases v.len() - i,
    {
        if str_eq(v[i].session_id.as_str(), sid) {
            return Some(i);
        }
        i = i + 1;
    }
    None
}

/// Which hooks run for a request.
#[derive(Debug, Clone, Copy, PartialEq, Eq, Structural)]
pub struct HookSwitches {
    pub api_logging: bool,
    pub compaction_injection: bool,
    pub custom_tasks: bool,
}

/// The hooks that run for a session: its own switches where it has them;
/// otherwise logging and tasks on, and compaction as the global setting says.
pub fn hook_switches(session: Option<&SessionHookConfig>, global_compaction: bool) -> (r: HookSwitches)
    ensures
        match session {
            Some(s) => r == (HookSwitches {
                api_logging: s.api_logging_enabled,
                compaction_injection: s.compaction_injection_enabled,
                custom_tasks: s.custom_tasks_enabled,
            }),
            None => r == (HookSwitches {
                api_logging: true,
                compaction_injection: global_compaction,
                custom_tasks: true,
            }),
        },
{
    match session {
        Some(s) => HookSwitches {
            api_logging: s.api_logging_enabled,
            compaction_injection: s.compaction_injection_enabled,
            custom_tasks: s.custom_tasks_enabled,
        },
        None => HookSwitches { api_logging: true, compaction_injection: global_compaction, custom_tasks: true },
    }
}

/// A session's link to a task of the external tracker.
#[derive(Debug, Clone)]
pub struct ExternalMapping {
    pub session_id: String,
    pub todo_id: String,
    pub mission_id: Option<String>,
}

/// Seconds in a day.
pub const DAY_SECS: i64 = 86400;
/// Days a session survives without activity.
pub const SESSION_RETENTION_DAYS: i64 = 90;
/// Days a usage row is kept.
pub const USAGE_RETENTION_DAYS: i64 = 365;

/// Accounts, session routing, usage log and external mappings.
pub struct Store {
    accounts: Vec<Account>,
    sessions: Vec<SessionConfig>,
    usage: Vec<UsageLogEntry>,
    mappings: Vec<ExternalMapping>,
    session_hooks: Vec<SessionHookConfig>,
    config: Vec<(String, String)>,
}

impl Store {
    pub closed spec fn spec_accounts(&self) -> Seq<Account> {
        self.accounts@
    }

    pub closed spec fn spec_sessions(&self) -> Seq<SessionConfig> {
        self.sessions@
    }

    pub closed spec fn spec_usage(&self) -> Seq<UsageLogEntry> {
        self.usage@
    }

    pub closed spec fn spec_mappings(&self) -> Seq<ExternalMapping> {
        self.mappings@
    }

    pub closed spec fn spec_session_hooks(&self) -> Seq<SessionHookConfig> {
        self.session_hooks@
    }

    /// The configuration values, as a map from key to value.
    pub closed spec fn spec_config(&self) -> Map<Seq<char>, Seq<char>> {
        config_map(self.config@)
    }

    /// Account ids and session ids are unique, and at most one account is active.
    pub open spec fn wf(&self) -> bool {
        &&& account_ids_unique(self.spec_accounts())
        &&& at_most_one_active(self.spec_accounts())
        &&& session_ids_unique(self.spec_sessions())
    }

    /// An empty store.
    pub fn new() -> (r: Self)
        ensures
            r.wf(),
            r.spec_accounts().len() == 0,
            r.spec_sessions().len() == 0,
            r.spec_usage().len() == 0,
            r.spec_mappings().len() == 0,
    {
        Store {
            accounts: Vec::new(),
            sessions: Vec::new(),
            usage: Vec::new(),
            mappings: Vec::new(),
            session_hooks: Vec::new(),
            config: Vec::new(),
        }
    }

    pub fn accounts(&self) -> (r: &Vec<Account>)
        ensures
            r@ == self.spec_accounts(),
    {
        &self.accounts
    }

    pub fn sessions(&self) -> (r: &Vec<SessionConfig>)
        ensures
            r@ == self.spec_sessions(),
    {
        &self.sessions
    }

    pub fn usage_log(&self) -> (r: &Vec<UsageLogEntry>)
        ensures
            r@ == self.spec_usage(),
    {
        &self.usage
    }

    /// Make the account `id` the only active one.
    pub fn switch_account(&mut self, id: &str) -> (r: Result<(), StoreError>)
        requires
            old(self).wf(),
        ensures
            final(self).spec_config() == old(self).spec_config(),
            final(self).spec_session_hooks() == old(self).spec_session_hooks(),
            final(self).wf(),
            r is Ok <==> account_index(old(self).spec_accounts(), id@) is Some,
            r is Ok ==> switched(old(self).spec_accounts(), final(self).spec_accounts(), id@),
            r is Ok ==> switch_effect(*old(self), *final(self), id@),
            r is Err ==> final(self).spec_accounts() == old(self).spec_accounts(),
            r is Err ==> r == Err::<(), StoreError>(StoreError::NotFound),
            final(self).spec_sessions() == old(self).spec_sessions(),
            final(self).spec_usage() == old(self).spec_usage(),
            final(self).spec_mappings() == old(self).spec_mappings(),
    {
        if find_account(&self.accounts, id).is_none() {
            return Err(StoreError::NotFound);
        }
        let ghost before = self.accounts@;
        let mut i: usize = 0;
        while i < self.accounts.len()
            invariant
                i <= self.accounts@.len(),
                self.accounts@.len() == before.len(),
                before == old(self).accounts@,
                account_ids_unique(before),
                session_ids_unique(self.sessions@),
                self.sessions@ == old(self).sessions@,
                self.usage@ == old(self).usage@,
                self.mappings@ == old(self).mappings@,
                self.config@ == old(self).config@,
                self.session_hooks@ == old(self).session_hooks@,
                forall|j: int|
                    0 <= j < self.accounts@.len() ==> {
                        &&& (#[trigger] self.accounts@[j]).id == before[j].id
                        &&& self.accounts@[j].name == before[j].name
                        &&& self.accounts@[j].base_url == before[j].base_url
                        &&& self.accounts@[j].created_at == before[j].created_at
                        &&& (j < i ==> self.accounts@[j].is_active == (before[j].id@ == id@))
                        &&& (j >= i ==> self.accounts@[j].is_active == before[j].is_active)
                    },
            decreases self.accounts.len() - i,
        {
            let on = str_eq(self.accounts[i].id.as_str(), id);
            self.accounts[i].is_active = on;
            i = i + 1;
        }
        proof {
            lemma_switch_one_active(before, self.accounts@, id@);
        }
        Ok(())
    }

    /// The active account, if any.
    pub fn get_active_account(&self) -> (r: Option<&Account>)
        requires
            self.wf(),
        ensures
            match active_index(self.spec_accounts()) {
                Some(i) => r == Some(&self.spec_accounts()[i]),
                None => r is None,
            },
    {
        match find_active(&self.accounts) {
            Some(i) => Some(&self.accounts[i]),
            None => None,
        }
    }

    /// The account with id `id`, if any.
    pub fn get_account(&self, id: &str) -> (r: Option<&Account>)
        requires
            self.wf(),
        ensures
            match account_index(self.spec_accounts(), id@) {
                Some(i) => r == Some(&self.spec_accounts()[i]),
                None => r is None,
            },
    {
        match find_account(&self.accounts, id) {
            Some(i) => Some(&self.accounts[i]),
            None => None,
        }
    }

    /// The session row for `session_id`, if any.
    pub fn get_session_config(&self, session_id: &str) -> (r: Option<&SessionConfig>)
        requires
            self.wf(),
        ensures
            match session_index(self.spec_sessions(), session_id@) {
                Some(i) => r == Some(&self.spec_sessions()[i]),
                None => r is None,
            },
    {
        match find_session(&self.sessions, session_id) {
            Some(i) => Some(&self.sessions[i]),
            None => None,
        }
    }

    /// Route a request by its session id, registering a session seen for the
    /// first time with the active account.
    pub fn resolve_route(&mut self, session_id: Option<&str>, now: i64) -> (r: Result<
        Route,
        RouteError,
    >)
        requires
            old(self).wf(),
        ensures
            final(self).spec_config() == old(self).spec_config(),
            final(self).spec_session_hooks() == old(self).spec_session_hooks(),
            final(self).wf(),
            route_matches(
                r,
                route_of(
                    old(self).spec_accounts(),
                    old(self).spec_sessions(),
                    match session_id {
                        Some(s) => Some(s@),
                        None => None,
                    },
                ),
            ),
            sessions_after_route(
                old(self).spec_sessions(),
                final(self).spec_sessions(),
                match session_id {
                    Some(s) => Some(s@),
                    None => None,
                },
                route_of(
                    old(self).spec_accounts(),
                    old(self).spec_sessions(),
                    match session_id {
                        Some(s) => Some(s@),
                        None => None,
                    },
                ),
                now,
            ),
            final(self).spec_accounts() == old(self).spec_accounts(),
            final(self).spec_usage() == old(self).spec_usage(),
            final(self).spec_mappings() == old(self).spec_mappings(),
    {
        let sid: &str = match session_id {
            Some(s) => {
                if s.is_empty() {
                    return self.route_without_session();
                }
                s
            },
            None => {
                return self.route_without_session();
            },
        };
        match find_session(&self.sessions, sid) {
            Some(i) => {
                let account_id = copy_string(&self.sessions[i].account_id);
                if find_account(&self.accounts, account_id.as_str()).is_none() {
                    return Err(RouteError::AccountMissing);
                }
                let model_override = copy_opt_string(&self.sessions[i].model_override);
                Ok(Route { kind: RouteKind::Existing, account_id, model_override })
            },
            None => {
                match find_active(&self.accounts) {
                    None => Err(RouteError::NoActiveAccount),
                    Some(a) => {
                        let row = SessionConfig {
                            session_id: String::from_str(sid),
                            account_id: copy_string(&self.accounts[a].id),
                            model_override: None,
                            last_message: None,
                            created_at: now,
                            last_activity_at: now,
                        };
                        let ghost before = self.sessions@;
                        self.sessions.push(row);
                        proof {
                            let n = before.len() as int;
                            assert(self.sessions@.drop_last() =~= before);
                            assert forall|x: int, y: int|
                                0 <= x < self.sessions@.len() && 0 <= y < self.sessions@.len()
                                    && self.sessions@[x].session_id@
                                    == self.sessions@[y].session_id@ implies x == y by {
                                if x < n {
                                    assert(self.sessions@[x] == before[x]);
                                }
                                if y < n {
                                    assert(self.sessions@[y] == before[y]);
                                }
                            }
                        }
                        Ok(
                            Route {
                                kind: RouteKind::New,
                                account_id: copy_string(&self.accounts[a].id),
                                model_override: None,
                            },
                        )
                    },
                }
            },
        }
    }

    /// Add an account. An account added as active becomes the only active one.
    pub fn create_account(&mut self, account: Account) -> (r: Result<(), StoreError>)
        requires
            old(self).wf(),
        ensures
            final(self).spec_config() == old(self).spec_config(),
            final(self).spec_session_hooks() == old(self).spec_session_hooks(),
            final(self).wf(),
            r is Ok <==> account_index(old(self).spec_accounts(), account.id@) is None,
            r is Err ==> r == Err::<(), StoreError>(StoreError::Conflict) && final(self).spec_accounts()
                == old(self).spec_accounts(),
            r is Ok ==> final(self).spec_accounts().len() == old(self).spec_accounts().len() + 1
                && final(self).spec_accounts().last() == account && forall|i: int|
                0 <= i < old(self).spec_accounts().len() ==> {
                    &&& (#[trigger] final(self).spec_accounts()[i]).id == old(self).spec_accounts()[i].id
                    &&& final(self).spec_accounts()[i].name == old(self).spec_accounts()[i].name
                    &&& final(self).spec_accounts()[i].base_url == old(self).spec_accounts()[i].base_url
                    &&& final(self).spec_accounts()[i].created_at == old(self).spec_accounts()[i].created_at
                    &&& final(self).spec_accounts()[i].is_active == (old(self).spec_accounts()[i].is_active && !account.is_active)
                },
            final(self).spec_sessions() == old(self).spec_sessions(),
            final(self).spec_usage() == old(self).spec_usage(),
            final(self).spec_mappings() == old(self).spec_mappings(),
    {
        if find_account(&self.accounts, account.id.as_str()).is_some() {
            return Err(StoreError::Conflict);
        }
        let ghost before = self.accounts@;
        if account.is_active {
            let mut i: usize = 0;
            while i < self.accounts.len()
                invariant
                    i <= self.accounts@.len(),
                    self.accounts@.len() == before.len(),
                    before == old(self).accounts@,
                    self.sessions@ == old(self).sessions@,
                    self.usage@ == old(self).usage@,
                    self.mappings@ == old(self).mappings@,
                    self.config@ == old(self).config@,
                    self.session_hooks@ == old(self).session_hooks@,
                self.config@ == old(self).config@,
                self.session_hooks@ == old(self).session_hooks@,
                    forall|j: int|
                        0 <= j < self.accounts@.len() ==> {
                            &&& (#[trigger] self.accounts@[j]).id == before[j].id
                            &&& self.accounts@[j].name == before[j].name
                            &&& self.accounts@[j].base_url == before[j].base_url
                            &&& self.accounts@[j].created_at == before[j].created_at
                            &&& (j < i ==> !self.accounts@[j].is_active)
                            &&& (j >= i ==> self.accounts@[j].is_active == before[j].is_active)
                        },
                decreases self.accounts.len() - i,
            {
                self.accounts[i].is_active = false;
                i = i + 1;
            }
        }
        let ghost mid = self.accounts@;
        self.accounts.push(account);
        proof {
            let a = self.accounts@;
            let n = before.len() as int;
            assert forall|x: int, y: int|
                0 <= x < a.len() && 0 <= y < a.len() && a[x].id@ == a[y].id@ implies x == y by {
                if x < n {
                    assert(a[x].id == before[x].id);
                }
                if y < n {
                    assert(a[y].id == before[y].id);
                }
                if x < n && y == n {
                    assert(before[x].id@ == account.id@);
                }
                if y < n && x == n {
                    assert(before[y].id@ == account.id@);
                }
            }
            assert forall|x: int, y: int|
                0 <= x < a.len() && 0 <= y < a.len() && a[x].is_active && a[y].is_active implies x
                == y by {
                if x < n && y < n {
                    assert(before[x].is_active && before[y].is_active);
                }
                if x < n && y == n {
                    assert(a[x].is_active == (before[x].is_active && !account.is_active));
                }
                if y < n && x == n {
                    assert(a[y].is_active == (before[y].is_active && !account.is_active));
                }
            }
        }
        Ok(())
    }

    /// Delete an account together with its usage rows and the sessions bound to it.
    pub fn delete_account(&mut self, id: &str) -> (r: Result<(), StoreError>)
        requires
            old(self).wf(),
        ensures
            final(self).spec_config() == old(self).spec_config(),
            final(self).spec_session_hooks() == old(self).spec_session_hooks(),
            final(self).wf(),
            r is Ok <==> account_index(old(self).spec_accounts(), id@) is Some,
            r is Err ==> r == Err::<(), StoreError>(StoreError::NotFound) && final(self).spec_accounts()
                == old(self).spec_accounts() && final(self).spec_usage() == old(self).spec_usage()
                && final(self).spec_sessions() == old(self).spec_sessions(),
            r is Ok ==> final(self).spec_accounts() == old(self).spec_accounts().remove(
                account_index(old(self).spec_accounts(), id@)->0,
            ),
            r is Ok ==> final(self).spec_usage() == old(self).spec_usage().filter(
                |u: UsageLogEntry| u.account_id@ != id@,
            ),
            r is Ok ==> final(self).spec_sessions() == old(self).spec_sessions().filter(
                |s: SessionConfig| s.account_id@ != id@,
            ),
            final(self).spec_mappings() == old(self).spec_mappings(),
    {
        let i = match find_account(&self.accounts, id) {
            Some(i) => i,
            None => return Err(StoreError::NotFound),
        };
        let ghost before = self.accounts@;
        self.accounts.remove(i);
        proof {
            let a = self.accounts@;
            assert forall|x: int, y: int|
                0 <= x < a.len() && 0 <= y < a.len() && a[x].id@ == a[y].id@ implies x == y by {
                let x2 = if x < i { x } else { x + 1 };
                let y2 = if y < i { y } else { y + 1 };
                assert(a[x] == before[x2]);
                assert(a[y] == before[y2]);
            }
            assert forall|x: int, y: int|
                0 <= x < a.len() && 0 <= y < a.len() && a[x].is_active && a[y].is_active implies x
                == y by {
                let x2 = if x < i { x } else { x + 1 };
                let y2 = if y < i { y } else { y + 1 };
                assert(a[x] == before[x2]);
                assert(a[y] == before[y2]);
            }
        }
        let mut usage = Vec::new();
        std::mem::swap(&mut usage, &mut self.usage);
        self.usage = usage_without_account(usage, id);
        let mut sessions = Vec::new();
        std::mem::swap(&mut sessions, &mut self.sessions);
        proof {
            lemma_filter_unique(sessions@, |s: SessionConfig| s.account_id@ != id@);
        }
        self.sessions = sessions_without_account(sessions, id);
        Ok(())
    }

    /// Bind a session to an account and model override, creating its row if
    /// needed; an existing row keeps its creation time and excerpt.
    pub fn upsert_session_config(
        &mut self,
        session_id: &str,
        account_id: &str,
        model_override: Option<&str>,
        now: i64,
    )
        requires
            old(self).wf(),
        ensures
            final(self).spec_config() == old(self).spec_config(),
            final(self).spec_session_hooks() == old(self).spec_session_hooks(),
            final(self).wf(),
            match session_index(old(self).spec_sessions(), session_id@) {
                Some(i) => final(self).spec_sessions().len() == old(self).spec_sessions().len() && (
                forall|j: int|
                    0 <= j < old(self).spec_sessions().len() && j != i ==> final(self).spec_sessions()[j] == old(self).spec_sessions()[j]) && {
                    let row = final(self).spec_sessions()[i];
                    let prev = old(self).spec_sessions()[i];
                    &&& row.session_id == prev.session_id
                    &&& row.account_id@ == account_id@
                    &&& opt_view(row.model_override) == (match model_override {
                        Some(m) => Some(m@),
                        None => None,
                    })
                    &&& row.last_message == prev.last_message
                    &&& row.created_at == prev.created_at
                    &&& row.last_activity_at == now
                },
                None => final(self).spec_sessions().drop_last() == old(self).spec_sessions()
                    && final(self).spec_sessions().len() == old(self).spec_sessions().len() + 1 && {
                    let row = final(self).spec_sessions().last();
                    &&& row.session_id@ == session_id@
                    &&& row.account_id@ == account_id@
                    &&& opt_view(row.model_override) == (match model_override {
                        Some(m) => Some(m@),
                        None => None,
                    })
                    &&& row.last_message is None
                    &&& row.created_at == now
                    &&& row.last_activity_at == now
                },
            },
            final(self).spec_accounts() == old(self).spec_accounts(),
            final(self).spec_usage() == old(self).spec_usage(),
            final(self).spec_mappings() == old(self).spec_mappings(),
    {
        let ov: Option<String> = match model_override {
            Some(m) => Some(String::from_str(m)),
            None => None,
        };
        match find_session(&self.sessions, session_id) {
            Some(i) => {
                let ghost before = self.sessions@;
                self.sessions[i].account_id = String::from_str(account_id);
                self.sessions[i].model_override = ov;
                self.sessions[i].last_activity_at = now;
                proof {
                    let s = self.sessions@;
                    assert forall|x: int, y: int|
                        0 <= x < s.len() && 0 <= y < s.len() && s[x].session_id@
                            == s[y].session_id@ implies x == y by {
                        assert(s[x].session_id == before[x].session_id);
                        assert(s[y].session_id == before[y].session_id);
                    }
                }
            },
            None => {
                let ghost before = self.sessions@;
                self.sessions.push(
                    SessionConfig {
                        session_id: String::from_str(session_id),
                        account_id: String::from_str(account_id),
                        model_override: ov,
                        last_message: None,
                        created_at: now,
                        last_activity_at: now,
                    },
                );
                proof {
                    let s = self.sessions@;
                    let n = before.len() as int;
                    assert(s.drop_last() =~= before);
                    assert forall|x: int, y: int|
                        0 <= x < s.len() && 0 <= y < s.len() && s[x].session_id@
                            == s[y].session_id@ implies x == y by {
                        if x < n {
                            assert(s[x] == before[x]);
                        }
                        if y < n {
                            assert(s[y] == before[y]);
                        }
                    }
                }
            },
        }
    }

    /// Touch a session's activity time and, when given, its message excerpt.
    pub fn update_session_activity(&mut self, session_id: &str, last_message: Option<&str>, now: i64)
        requires
            old(self).wf(),
        ensures
            final(self).spec_config() == old(self).spec_config(),
            final(self).spec_session_hooks() == old(self).spec_session_hooks(),
            final(self).wf(),
            match session_index(old(self).spec_sessions(), session_id@) {
                Some(i) => final(self).spec_sessions().len() == old(self).spec_sessions().len() && (
                forall|j: int|
                    0 <= j < old(self).spec_sessions().len() && j != i ==> final(self).spec_sessions()[j] == old(self).spec_sessions()[j]) && {
                    let row = final(self).spec_sessions()[i];
                    let prev = old(self).spec_sessions()[i];
                    &&& row.session_id == prev.session_id
                    &&& row.account_id == prev.account_id
                    &&& row.model_override == prev.model_override
                    &&& row.created_at == prev.created_at
                    &&& row.last_activity_at == now
                    &&& match last_message {
                        Some(m) => opt_view(row.last_message) == Some(m@),
                        None => row.last_message == prev.last_message,
                    }
                },
                None => final(self).spec_sessions() == old(self).spec_sessions(),
            },
            final(self).spec_accounts() == old(self).spec_accounts(),
            final(self).spec_usage() == old(self).spec_usage(),
            final(self).spec_mappings() == old(self).spec_mappings(),
    {
        match find_session(&self.sessions, session_id) {
            Some(i) => {
                let ghost before = self.sessions@;
                self.sessions[i].last_activity_at = now;
                match last_message {
                    Some(m) => {
                        self.sessions[i].last_message = Some(String::from_str(m));
                    },
                    None => {},
                }
                proof {
                    let s = self.sessions@;
                    assert forall|x: int, y: int|
                        0 <= x < s.len() && 0 <= y < s.len() && s[x].session_id@
                            == s[y].session_id@ implies x == y by {
                        assert(s[x].session_id == before[x].session_id);
                        assert(s[y].session_id == before[y].session_id);
                    }
                }
            },
            None => {},
        }
    }

    /// Forget a session's routing.
    pub fn delete_session_config(&mut self, session_id: &str) -> (r: bool)
        requires
            old(self).wf(),
        ensures
            final(self).spec_config() == old(self).spec_config(),
            final(self).spec_session_hooks() == old(self).spec_session_hooks(),
            final(self).wf(),
            r == session_index(old(self).spec_sessions(), session_id@) is Some,
            match session_index(old(self).spec_sessions(), session_id@) {
                Some(i) => final(self).spec_sessions() == old(self).spec_sessions().remove(i),
                None => final(self).spec_sessions() == old(self).spec_sessions(),
            },
            final(self).spec_accounts() == old(self).spec_accounts(),
            final(self).spec_usage() == old(self).spec_usage(),
            final(self).spec_mappings() == old(self).spec_mappings(),
    {
        match find_session(&self.sessions, session_id) {
            Some(i) => {
                let ghost before = self.sessions@;
                self.sessions.remove(i);
                proof {
                    let s = self.sessions@;
                    assert forall|x: int, y: int|
                        0 <= x < s.len() && 0 <= y < s.len() && s[x].session_id@
                            == s[y].session_id@ implies x == y by {
                        let x2 = if x < i { x } else { x + 1 };
                        let y2 = if y < i { y } else { y + 1 };
                        assert(s[x] == before[x2]);
                        assert(s[y] == before[y2]);
                    }
                }
                true
            },
            None => false,
        }
    }

    /// Append a row to the usage log.
    pub fn log_usage(&mut self, entry: UsageLogEntry)
        requires
            old(self).wf(),
        ensures
            final(self).spec_config() == old(self).spec_config(),
            final(self).spec_session_hooks() == old(self).spec_session_hooks(),
            final(self).wf(),
            final(self).spec_usage() == old(self).spec_usage().push(entry),
            final(self).spec_accounts() == old(self).spec_accounts(),
            final(self).spec_sessions() == old(self).spec_sessions(),
            final(self).spec_mappings() == old(self).spec_mappings(),
    {
        self.usage.push(entry);
    }

    /// Drop sessions idle for longer than `session_days` and usage rows older
    /// than `usage_days`, counting what went.
    pub fn cleanup_old_data(&mut self, now: i64, session_days: i64, usage_days: i64) -> (r:
        CleanupReport)
        requires
            old(self).wf(),
        ensures
            final(self).spec_config() == old(self).spec_config(),
            final(self).spec_session_hooks() == old(self).spec_session_hooks(),
            final(self).wf(),
            final(self).spec_sessions() == old(self).spec_sessions().filter(
                |s: SessionConfig| s.last_activity_at >= cutoff(now, session_days),
            ),
            final(self).spec_usage() == old(self).spec_usage().filter(
                |u: UsageLogEntry| u.timestamp >= cutoff(now, usage_days),
            ),
            r.sessions_deleted == old(self).spec_sessions().len() - final(self).spec_sessions().len(),
            r.usage_deleted == old(self).spec_usage().len() - final(self).spec_usage().len(),
            final(self).spec_accounts() == old(self).spec_accounts(),
            final(self).spec_mappings() == old(self).spec_mappings(),
    {
        let sc = cutoff_exec(now, session_days);
        let uc = cutoff_exec(now, usage_days);
        let mut sessions = Vec::new();
        std::mem::swap(&mut sessions, &mut self.sessions);
        let n_sessions = sessions.len();
        proof {
            lemma_filter_unique(sessions@, |s: SessionConfig| s.last_activity_at >= sc);
            sessions@.lemma_filter_len(|s: SessionConfig| s.last_activity_at >= sc);
        }
        self.sessions = sessions_since(sessions, sc);
        let mut usage = Vec::new();
        std::mem::swap(&mut usage, &mut self.usage);
        let n_usage = usage.len();
        proof {
            usage@.lemma_filter_len(|u: UsageLogEntry| u.timestamp >= uc);
        }
        self.usage = usage_since(usage, uc);
        proof {
            assert((|s: SessionConfig| s.last_activity_at >= sc) =~= (|s: SessionConfig|
                s.last_activity_at >= cutoff(now, session_days)));
            assert((|u: UsageLogEntry| u.timestamp >= uc) =~= (|u: UsageLogEntry|
                u.timestamp >= cutoff(now, usage_days)));
        }
        CleanupReport {
            sessions_deleted: n_sessions - self.sessions.len(),
            usage_deleted: n_usage - self.usage.len(),
        }
    }

    /// Link a session to an external task, replacing any earlier link.
    pub fn save_mapping(&mut self, session_id: &str, todo_id: &str, mission_id: Option<&str>)
        requires
            old(self).wf(),
        ensures
            final(self).spec_config() == old(self).spec_config(),
            final(self).spec_session_hooks() == old(self).spec_session_hooks(),
            final(self).wf(),
            mapping_of(final(self).spec_mappings(), session_id@) == Some(
                (
                    todo_id@,
                    match mission_id {
                        Some(m) => Some(m@),
                        None => None,
                    },
                ),
            ),
            forall|other: Seq<char>|
                other != session_id@ ==> #[trigger] mapping_of(final(self).spec_mappings(), other)
                    == mapping_of(old(self).spec_mappings(), other),
            final(self).spec_accounts() == old(self).spec_accounts(),
            final(self).spec_sessions() == old(self).spec_sessions(),
            final(self).spec_usage() == old(self).spec_usage(),
    {
        let ghost before = self.mappings@;
        let mut kept: Vec<ExternalMapping> = Vec::new();
        let mut rest = Vec::new();
        std::mem::swap(&mut rest, &mut self.mappings);
        let n = rest.len();
        let mut c: usize = 0;
        while rest.len() > 0
            invariant
                before.len() == n,
                c <= n,
                rest@ == before.skip(c as int),
                forall|k: int| 0 <= k < kept@.len() ==> (#[trigger] kept@[k]).session_id@ != session_id@,
                forall|other: Seq<char>|
                    other != session_id@ ==> #[trigger] mapping_of(kept@, other) == mapping_of(
                        before.take(c as int),
                        other,
                    ),
            decreases rest.len(),
        {
            let m = rest.remove(0);
            proof {
                assert(m == before[c as int]);
                assert(before.take(c + 1).drop_last() =~= before.take(c as int));
            }
            let ghost k0 = kept@;
            let ghost mm = m;
            if !str_eq(m.session_id.as_str(), session_id) {
                kept.push(m);
                proof {
                    assert(kept@.drop_last() =~= k0);
                    assert forall|other: Seq<char>| other != session_id@ implies #[trigger] mapping_of(
                        kept@,
                        other,
                    ) == mapping_of(before.take(c + 1), other) by {
                        let t1 = before.take(c + 1);
                        assert(t1.last() == mm);
                        assert(kept@.last() == mm);
                        assert(t1.drop_last() =~= before.take(c as int));
                        if mm.session_id@ != other {
                            assert(mapping_of(t1, other) == mapping_of(t1.drop_last(), other));
                            assert(mapping_of(kept@, other) == mapping_of(k0, other));
                        }
                    }
                }
            } else {
                proof {
                    assert(mm.session_id@ == session_id@);
                    assert forall|other: Seq<char>| other != session_id@ implies #[trigger] mapping_of(
                        kept@,
                        other,
                    ) == mapping_of(before.take(c + 1), other) by {
                        let t1 = before.take(c + 1);
                        assert(t1.last() == mm);
                        assert(t1.drop_last() =~= before.take(c as int));
                        assert(t1.last().session_id@ != other);
                        assert(mapping_of(t1, other) == mapping_of(t1.drop_last(), other));
                        assert(mapping_of(kept@, other) == mapping_of(before.take(c as int), other));
                    }
                }
            }
            c = c + 1;
            assert(rest@ =~= before.skip(c as int));
        }
        assert(before.take(n as int) =~= before);
        let ghost k1 = kept@;
        kept.push(
            ExternalMapping {
                session_id: String::from_str(session_id),
                todo_id: String::from_str(todo_id),
                mission_id: match mission_id {
                    Some(m) => Some(String::from_str(m)),
                    None => None,
                },
            },
        );
        proof {
            assert(kept@.drop_last() =~= k1);
            assert forall|other: Seq<char>| other != session_id@ implies #[trigger] mapping_of(kept@, other)
                == mapping_of(before, other) by {
                assert(mapping_of(kept@, other) == mapping_of(k1, other));
            }
        }
        self.mappings = kept;
    }

    /// The external task a session is linked to, and its mission if any.
    pub fn get_mapping_by_session(&self, session_id: &str) -> (r: Option<(String, Option<String>)>)
        ensures
            match mapping_of(self.spec_mappings(), session_id@) {
                Some((t, m)) => r is Some && (r->0).0@ == t && opt_view((r->0).1) == m,
                None => r is None,
            },
    {
        let mut k: usize = self.mappings.len();
        assert(self.mappings@.take(k as int) =~= self.mappings@);
        while k > 0
            invariant
                k <= self.mappings@.len(),
                mapping_of(self.mappings@, session_id@) == mapping_of(
                    self.mappings@.take(k as int),
                    session_id@,
                ),
            decreases k,
        {
            let ghost pre = self.mappings@.take(k as int);
            proof {
                assert(pre.drop_last() =~= self.mappings@.take(k - 1));
                assert(pre.last() == self.mappings@[k - 1]);
            }
            if str_eq(self.mappings[k - 1].session_id.as_str(), session_id) {
                return Some(
                    (
                        copy_string(&self.mappings[k - 1].todo_id),
                        copy_opt_string(&self.mappings[k - 1].mission_id),
                    ),
                );
            }
            k = k - 1;
        }
        assert(self.mappings@.take(0) =~= Seq::<ExternalMapping>::empty());
        None
    }

    /// The sessions linked to an external task, in the order they were linked.
    pub fn get_sessions_by_external_id(&self, todo_id: &str) -> (r: Vec<String>)
        ensures
            r@.map_values(|s: String| s@) == self.spec_mappings().filter(
                |m: ExternalMapping| m.todo_id@ == todo_id@,
            ).map_values(|m: ExternalMapping| m.session_id@),
    {
        let ghost f: spec_fn(ExternalMapping) -> bool = |m: ExternalMapping| m.todo_id@ == todo_id@;
        let mut out: Vec<String> = Vec::new();
        let mut i: usize = 0;
        while i < self.mappings.len()
            invariant
                i <= self.mappings@.len(),
                f == (|m: ExternalMapping| m.todo_id@ == todo_id@),
                out@.map_values(|s: String| s@) == self.mappings@.take(i as int).filter(f).map_values(
                    |m: ExternalMapping| m.session_id@,
                ),
            decreases self.mappings.len() - i,
        {
            proof {
                lemma_filter_step(self.mappings@, i as int, f);
            }
            if str_eq(self.mappings[i].todo_id.as_str(), todo_id) {
                let ghost o = out@;
                out.push(copy_string(&self.mappings[i].session_id));
                proof {
                    assert(out@.map_values(|s: String| s@) =~= o.map_values(|s: String| s@).push(
                        self.mappings@[i as int].session_id@,
                    ));
                    assert(self.mappings@.take(i as int).filter(f).push(self.mappings@[i as int]).map_values(
                        |m: ExternalMapping| m.session_id@,
                    ) =~= self.mappings@.take(i as int).filter(f).map_values(
                        |m: ExternalMapping| m.session_id@,
                    ).push(self.mappings@[i as int].session_id@));
                }
            }
            i = i + 1;
        }
        assert(self.mappings@.take(self.mappings@.len() as int) =~= self.mappings@);
        out
    }

    /// Totals over the usage log: rows, and input and output tokens, each sum
    /// held at the bounds of `i64`.
    pub fn get_usage_stats(&self) -> (r: UsageStats)
        ensures
            r.request_count == sat(self.spec_usage().len() as int),
            r.input_tokens == sat_sum(self.spec_usage().map_values(|u: UsageLogEntry| u.input_tokens)),
            r.output_tokens == sat_sum(self.spec_usage().map_values(|u: UsageLogEntry| u.output_tokens)),
    {
        let ghost ins = self.usage@.map_values(|u: UsageLogEntry| u.input_tokens);
        let ghost outs = self.usage@.map_values(|u: UsageLogEntry| u.output_tokens);
        let mut input: i64 = 0;
        let mut output: i64 = 0;
        let mut i: usize = 0;
        assert(ins.take(0) =~= Seq::<i64>::empty());
        assert(outs.take(0) =~= Seq::<i64>::empty());
        while i < self.usage.len()
            invariant
                i <= self.usage@.len(),
                ins == self.usage@.map_values(|u: UsageLogEntry| u.input_tokens),
                outs == self.usage@.map_values(|u: UsageLogEntry| u.output_tokens),
                input == sat_sum(ins.take(i as int)),
                output == sat_sum(outs.take(i as int)),
            decreases self.usage.len() - i,
        {
            proof {
                assert(ins.take(i + 1).drop_last() =~= ins.take(i as int));
                assert(outs.take(i + 1).drop_last() =~= outs.take(i as int));
            }
            input = sat_add(input, self.usage[i].input_tokens);
            output = sat_add(output, self.usage[i].output_tokens);
            i = i + 1;
        }
        assert(ins.take(i as int) =~= ins);
        assert(outs.take(i as int) =~= outs);
        let n = self.usage.len();
        let count: i64 = if n as u64 > 9223372036854775807u64 {
            i64::MAX
        } else {
            n as i64
        };
        UsageStats { request_count: count, input_tokens: input, output_tokens: output }
    }

    /// The latest `limit` usage rows, newest first.
    pub fn get_recent_usage(&self, limit: usize) -> (r: Vec<UsageLogEntry>)
        ensures
            r@.len() == if limit < self.spec_usage().len() {
                limit as int
            } else {
                self.spec_usage().len() as int
            },
            forall|i: int|
                0 <= i < r@.len() ==> same_usage(
                    #[trigger] r@[i],
                    self.spec_usage()[self.spec_usage().len() - 1 - i],
                ),
    {
        let n = self.usage.len();
        let take = if limit < n {
            limit
        } else {
            n
        };
        let mut out: Vec<UsageLogEntry> = Vec::new();
        let mut i: usize = 0;
        while i < take
            invariant
                take <= n == self.usage@.len(),
                i <= take,
                out@.len() == i,
                forall|k: int|
                    0 <= k < i ==> same_usage(#[trigger] out@[k], self.usage@[n - 1 - k]),
            decreases take - i,
        {
            out.push(copy_usage(&self.usage[n - 1 - i]));
            i = i + 1;
        }
        out
    }

    /// Store a session's hook switches, replacing earlier ones.
    pub fn set_session_hooks(&mut self, config: SessionHookConfig)
        ensures
            final(self).spec_config() == old(self).spec_config(),
            match hooks_index(old(self).spec_session_hooks(), config.session_id@, 0) {
                Some(i) => final(self).spec_session_hooks() == old(self).spec_session_hooks().update(
                    i,
                    config,
                ),
                None => final(self).spec_session_hooks() == old(self).spec_session_hooks().push(config),
            },
            final(self).spec_accounts() == old(self).spec_accounts(),
            final(self).spec_sessions() == old(self).spec_sessions(),
            final(self).spec_usage() == old(self).spec_usage(),
            final(self).spec_mappings() == old(self).spec_mappings(),
    {
        match find_hooks(&self.session_hooks, config.session_id.as_str()) {
            Some(i) => {
                self.session_hooks[i] = config;
            },
            None => {
                self.session_hooks.push(config);
            },
        }
    }

    /// A session's hook switches, if any were stored.
    pub fn get_session_hooks(&self, session_id: &str) -> (r: Option<&SessionHookConfig>)
        ensures
            match hooks_index(self.spec_session_hooks(), session_id@, 0) {
                Some(i) => r == Some(&self.spec_session_hooks()[i]),
                None => r is None,
            },
    {
        match find_hooks(&self.session_hooks, session_id) {
            Some(i) => Some(&self.session_hooks[i]),
            None => None,
        }
    }

    /// All stored hook switches.
    pub fn get_all_session_hooks(&self) -> (r: &Vec<SessionHookConfig>)
        ensures
            r@ == self.spec_session_hooks(),
    {
        &self.session_hooks
    }

    /// Forget a session's hook switches.
    pub fn delete_session_hooks(&mut self, session_id: &str) -> (r: bool)
        ensures
            final(self).spec_config() == old(self).spec_config(),
            r == hooks_index(old(self).spec_session_hooks(), session_id@, 0) is Some,
            match hooks_index(old(self).spec_session_hooks(), session_id@, 0) {
                Some(i) => final(self).spec_session_hooks() == old(self).spec_session_hooks().remove(i),
                None => final(self).spec_session_hooks() == old(self).spec_session_hooks(),
            },
            final(self).spec_accounts() == old(self).spec_accounts(),
            final(self).spec_sessions() == old(self).spec_sessions(),
            final(self).spec_usage() == old(self).spec_usage(),
            final(self).spec_mappings() == old(self).spec_mappings(),
    {
        match find_hooks(&self.session_hooks, session_id) {
            Some(i) => {
                self.session_hooks.remove(i);
                true
            },
            None => false,
        }
    }

    /// Totals per account or per model: at most `limit` groups, one per
    /// value, most requests first; a value left out has no more requests than
    /// any value kept.
    pub fn usage_by(&self, k: UsageKey, limit: usize) -> (r: Vec<UsageGroup>)
        ensures
            keys_distinct(r@),
            r@.len() <= limit,
            forall|a: int| 0 <= a < r@.len() ==> group_exact(self.spec_usage(), k, #[trigger] r@[a]),
            forall|a: int, b: int| 0 <= a < b < r@.len() ==> r@[a].request_count >= r@[b].request_count,
            forall|i: int|
                0 <= i < self.spec_usage().len() ==> #[trigger] key_reported(self.spec_usage(), k, r@, limit, i),
    {
        let groups = group_usage(&self.usage, k);
        let ghost g = groups@;
        let r = top_groups(groups, limit);
        proof {
            assert forall|a: int| 0 <= a < r@.len() implies group_exact(self.usage@, k, #[trigger] r@[a]) by {
                assert(g.contains(r@[a]));
                let j = choose|j: int| 0 <= j < g.len() && g[j] == r@[a];
            }
            assert forall|i: int| 0 <= i < self.spec_usage().len() implies #[trigger] key_reported(
                self.spec_usage(),
                k,
                r@,
                limit,
                i,
            ) by {
                let j = choose|j: int| 0 <= j < g.len() && g[j].key@ == key_of(self.usage@[i], k);
                assert(group_exact(self.usage@, k, g[j]));
                if r@.contains(g[j]) {
                    let a = choose|a: int| 0 <= a < r@.len() && r@[a] == g[j];
                    assert(r@[a].key@ == key_of(self.usage@[i], k));
                } else {
                    assert(g.len() > limit);
                    assert(r@.len() == limit);
                    assert forall|a: int| 0 <= a < r@.len() implies r@[a].request_count >= rows_with(
                        self.spec_usage(),
                        k,
                        key_of(self.spec_usage()[i], k),
                    ).len() by {
                        assert(r@[a].request_count >= g[j].request_count);
                    }
                }
            }
        }
        r
    }

    /// Totals per account, at most a hundred, most requests first.
    pub fn get_usage_by_account(&self) -> (r: Vec<AccountUsageStats>)
        ensures
            r@.len() <= 100,
            forall|a: int| 0 <= a < r@.len() ==> {
                let m = rows_with(self.spec_usage(), UsageKey::Account, (#[trigger] r@[a]).account_id@);
                &&& r@[a].request_count == sat(m.len() as int)
                &&& r@[a].total_input_tokens == sat_sum(m.map_values(|u: UsageLogEntry| u.input_tokens))
                &&& r@[a].total_output_tokens == sat_sum(m.map_values(|u: UsageLogEntry| u.output_tokens))
            },
    {
        let groups = self.usage_by(UsageKey::Account, 100);
        let mut out: Vec<AccountUsageStats> = Vec::new();
        let mut i: usize = 0;
        while i < groups.len()
            invariant
                i <= groups@.len(),
                groups@.len() <= 100,
                out@.len() == i,
                forall|a: int| 0 <= a < groups@.len() ==> group_exact(self.usage@, UsageKey::Account, #[trigger] groups@[a]),
                forall|a: int| 0 <= a < i ==> {
                    let m = rows_with(self.usage@, UsageKey::Account, (#[trigger] out@[a]).account_id@);
                    &&& out@[a].request_count == sat(m.len() as int)
                    &&& out@[a].total_input_tokens == sat_sum(m.map_values(|u: UsageLogEntry| u.input_tokens))
                    &&& out@[a].total_output_tokens == sat_sum(m.map_values(|u: UsageLogEntry| u.output_tokens))
                },
            decreases groups.len() - i,
        {
            let g = &groups[i];
            out.push(AccountUsageStats {
                account_id: copy_string(&g.key),
                request_count: count_i64(g.request_count),
                total_input_tokens: g.total_input_tokens,
                total_output_tokens: g.total_output_tokens,
            });
            i = i + 1;
        }
        out
    }

    /// Totals per model, at most fifty, most requests first.
    pub fn get_usage_by_model(&self) -> (r: Vec<ModelUsageStats>)
        ensures
            r@.len() <= 50,
            forall|a: int| 0 <= a < r@.len() ==> {
                let m = rows_with(self.spec_usage(), UsageKey::Model, (#[trigger] r@[a]).model@);
                &&& r@[a].request_count == sat(m.len() as int)
                &&& r@[a].total_input_tokens == sat_sum(m.map_values(|u: UsageLogEntry| u.input_tokens))
                &&& r@[a].total_output_tokens == sat_sum(m.map_values(|u: UsageLogEntry| u.output_tokens))
            },
    {
        let groups = self.usage_by(UsageKey::Model, 50);
        let mut out: Vec<ModelUsageStats> = Vec::new();
        let mut i: usize = 0;
        while i < groups.len()
            invariant
                i <= groups@.len(),
                groups@.len() <= 50,
                out@.len() == i,
                forall|a: int| 0 <= a < groups@.len() ==> group_exact(self.usage@, UsageKey::Model, #[trigger] groups@[a]),
                forall|a: int| 0 <= a < i ==> {
                    let m = rows_with(self.usage@, UsageKey::Model, (#[trigger] out@[a]).model@);
                    &&& out@[a].request_count == sat(m.len() as int)
                    &&& out@[a].total_input_tokens == sat_sum(m.map_values(|u: UsageLogEntry| u.input_tokens))
                    &&& out@[a].total_output_tokens == sat_sum(m.map_values(|u: UsageLogEntry| u.output_tokens))
                },
            decreases groups.len() - i,
        {
            let g = &groups[i];
            out.push(ModelUsageStats {
                model: copy_string(&g.key),
                request_count: count_i64(g.request_count),
                total_input_tokens: g.total_input_tokens,
                total_output_tokens: g.total_output_tokens,
            });
            i = i + 1;
        }
        out
    }

    /// Drop sessions idle for longer than `days` and usage rows older than
    /// `days`, counting what went.
    pub fn manual_cleanup(&mut self, now: i64, days: i64) -> (r: CleanupReport)
        requires
            old(self).wf(),
        ensures
            final(self).spec_config() == old(self).spec_config(),
            final(self).spec_session_hooks() == old(self).spec_session_hooks(),
            final(self).wf(),
            final(self).spec_sessions() == old(self).spec_sessions().filter(
                |s: SessionConfig| s.last_activity_at >= cutoff(now, days),
            ),
            final(self).spec_usage() == old(self).spec_usage().filter(
                |u: UsageLogEntry| u.timestamp >= cutoff(now, days),
            ),
            r.sessions_deleted == old(self).spec_sessions().len() - final(self).spec_sessions().len(),
            r.usage_deleted == old(self).spec_usage().len() - final(self).spec_usage().len(),
            final(self).spec_accounts() == old(self).spec_accounts(),
            final(self).spec_mappings() == old(self).spec_mappings(),
    {
        self.cleanup_old_data(now, days, days)
    }

    /// Empty the usage log.
    pub fn clear_usage_logs(&mut self)
        requires
            old(self).wf(),
        ensures
            final(self).spec_config() == old(self).spec_config(),
            final(self).spec_session_hooks() == old(self).spec_session_hooks(),
            final(self).wf(),
            final(self).spec_usage().len() == 0,
            final(self).spec_accounts() == old(self).spec_accounts(),
            final(self).spec_sessions() == old(self).spec_sessions(),
            final(self).spec_mappings() == old(self).spec_mappings(),
    {
        self.usage = Vec::new();
    }

    /// The sessions active within the last day at `now`, at most a hundred,
    /// most recently active first, each with its account's name and usage totals.
    pub fn get_active_sessions(&self, now: i64) -> (r: Vec<crate::config::SessionDetail>)
        requires
            self.wf(),
        ensures
            r@.len() <= 100,
            forall|a: int|
                0 <= a < r@.len() ==> shows_active_session(
                    #[trigger] r@[a],
                    self.spec_sessions(),
                    self.spec_accounts(),
                    self.spec_usage(),
                    cutoff(now, 1),
                ),
            forall|a: int, b: int| 0 <= a < b < r@.len() ==> r@[a].last_activity_at >= r@[b].last_activity_at,
            forall|i: int|
                0 <= i < self.spec_sessions().len() && self.spec_sessions()[i].last_activity_at > cutoff(now, 1)
                    ==> #[trigger] session_listed(r@, self.spec_sessions()[i], 100),
    {
        let since = cutoff_exec(now, 1);
        let mut details: Vec<crate::config::SessionDetail> = Vec::new();
        let mut i: usize = 0;
        while i < self.sessions.len()
            invariant
                i <= self.sessions@.len(),
                account_ids_unique(self.accounts@),
                since == cutoff(now, 1),
                forall|a: int|
                    0 <= a < details@.len() ==> shows_active_session(
                        #[trigger] details@[a],
                        self.sessions@,
                        self.accounts@,
                        self.usage@,
                        since,
                    ),
                forall|k: int|
                    0 <= k < i && self.sessions@[k].last_activity_at > since ==> exists|a: int|
                        0 <= a < details@.len() && #[trigger] detail_of(
                            details@[a],
                            self.sessions@[k],
                            self.accounts@,
                            self.usage@,
                        ),
            decreases self.sessions.len() - i,
        {
            let s = &self.sessions[i];
            if s.last_activity_at > since {
                let name = match find_account(&self.accounts, s.account_id.as_str()) {
                    Some(k) => copy_string(&self.accounts[k].name),
                    None => String::from_str("Unknown"),
                };
                let (count, input, output) = session_totals(&self.usage, s.session_id.as_str());
                let d = crate::config::SessionDetail {
                    session_id: copy_string(&s.session_id),
                    account_id: copy_string(&s.account_id),
                    account_name: name,
                    model_override: copy_opt_string(&s.model_override),
                    last_message: copy_opt_string(&s.last_message),
                    created_at: s.created_at,
                    last_activity_at: s.last_activity_at,
                    request_count: count_i64(count),
                    total_input_tokens: input,
                    total_output_tokens: output,
                };
                let ghost before = details@;
                details.push(d);
                proof {
                    assert(detail_of(d, self.sessions@[i as int], self.accounts@, self.usage@));
                    assert forall|a: int| 0 <= a < details@.len() implies shows_active_session(
                        #[trigger] details@[a],
                        self.sessions@,
                        self.accounts@,
                        self.usage@,
                        since,
                    ) by {
                        if a < before.len() {
                            assert(details@[a] == before[a]);
                        } else {
                            assert(details@[a] == d);
                        }
                    }
                    assert forall|k: int|
                        0 <= k < i + 1 && self.sessions@[k].last_activity_at > since implies exists|a: int|
                        0 <= a < details@.len() && #[trigger] detail_of(
                            details@[a],
                            self.sessions@[k],
                            self.accounts@,
                            self.usage@,
                        ) by {
                        if k < i {
                            let a = choose|a: int|
                                0 <= a < before.len() && detail_of(
                                    before[a],
                                    self.sessions@[k],
                                    self.accounts@,
                                    self.usage@,
                                );
                            assert(details@[a] == before[a]);
                        } else {
                            assert(details@[before.len() as int] == d);
                        }
                    }
                }
            }
            i = i + 1;
        }
        let ghost all = details@;
        let r = latest_sessions(details, 100);
        proof {
            assert forall|a: int| 0 <= a < r@.len() implies shows_active_session(
                #[trigger] r@[a],
                self.spec_sessions(),
                self.spec_accounts(),
                self.spec_usage(),
                cutoff(now, 1),
            ) by {
                assert(all.contains(r@[a]));
                let j = choose|j: int| 0 <= j < all.len() && all[j] == r@[a];
            }
            assert forall|i: int|
                0 <= i < self.spec_sessions().len() && self.spec_sessions()[i].last_activity_at > cutoff(now, 1)
                    implies #[trigger] session_listed(r@, self.spec_sessions()[i], 100) by {
                let s = self.sessions@[i];
                let j = choose|j: int| 0 <= j < all.len() && detail_of(all[j], s, self.accounts@, self.usage@);
                if r@.contains(all[j]) {
                    let a = choose|a: int| 0 <= a < r@.len() && r@[a] == all[j];
                    assert(r@[a].session_id@ == s.session_id@);
                } else {
                    assert(all.len() > 100);
                    assert forall|a: int| 0 <= a < r@.len() implies r@[a].last_activity_at >= s.last_activity_at by {
                        assert(r@[a].last_activity_at >= all[j].last_activity_at);
                    }
                }
            }
        }
        r
    }

    /// The stored value of a configuration key.
    pub fn get_config(&self, key: &str) -> (r: Option<String>)
        ensures
            match r {
                Some(v) => self.spec_config().contains_key(key@) && self.spec_config()[key@] == v@,
                None => !self.spec_config().contains_key(key@),
            },
    {
        let mut k: usize = self.config.len();
        assert(self.config@.take(k as int) =~= self.config@);
        while k > 0
            invariant
                k <= self.config@.len(),
                config_map(self.config@) == config_map(self.config@.take(k as int)).union_prefer_right(
                    config_map(self.config@.skip(k as int)),
                ),
                !config_map(self.config@.skip(k as int)).contains_key(key@),
            decreases k,
        {
            let ghost pre = self.config@.take(k as int);
            proof {
                assert(pre.drop_last() =~= self.config@.take(k - 1));
                assert(pre.last() == self.config@[k - 1]);
                assert(self.config@.skip(k - 1) =~= seq![self.config@[k - 1]] + self.config@.skip(k as int));
                lemma_config_map_cons(self.config@[k - 1], self.config@.skip(k as int));
                assert(config_map(pre) =~= config_map(self.config@.take(k - 1)).insert(
                    self.config@[k - 1].0@,
                    self.config@[k - 1].1@,
                ));
            }
            if str_eq(self.config[k - 1].0.as_str(), key) {
                proof {
                    assert(config_map(self.config@).contains_key(key@));
                }
                return Some(copy_string(&self.config[k - 1].1));
            }
            proof {
                assert(config_map(self.config@) =~= config_map(self.config@.take(k - 1)).union_prefer_right(
                    config_map(self.config@.skip(k - 1)),
                ));
            }
            k = k - 1;
        }
        proof {
            assert(self.config@.take(0) =~= Seq::<(String, String)>::empty());
            assert(config_map(Seq::<(String, String)>::empty()) =~= Map::<Seq<char>, Seq<char>>::empty());
        }
        None
    }

    /// Store a configuration value.
    pub fn set_config(&mut self, key: &str, value: &str)
        ensures
            final(self).spec_session_hooks() == old(self).spec_session_hooks(),
            final(self).spec_config() == old(self).spec_config().insert(key@, value@),
            final(self).spec_accounts() == old(self).spec_accounts(),
            final(self).spec_sessions() == old(self).spec_sessions(),
            final(self).spec_usage() == old(self).spec_usage(),
            final(self).spec_mappings() == old(self).spec_mappings(),
    {
        let ghost before = self.config@;
        self.config.push((String::from_str(key), String::from_str(value)));
        assert(self.config@.drop_last() =~= before);
    }

    /// Supply the default configuration values for keys that have none.
    pub fn init_default_config(&mut self)
        ensures
            final(self).spec_session_hooks() == old(self).spec_session_hooks(),
            final(self).spec_config() == with_defaults(old(self).spec_config(), default_config()),
            final(self).spec_accounts() == old(self).spec_accounts(),
            final(self).spec_sessions() == old(self).spec_sessions(),
            final(self).spec_usage() == old(self).spec_usage(),
            final(self).spec_mappings() == old(self).spec_mappings(),
    {
        let defaults: Vec<(&str, &str)> = vec![
            ("proxy_port", "32080"),
            ("auto_start", "true"),
            ("theme", "system"),
            ("threadcast_webhook_url", "http://localhost:21000"),
            ("threadcast_webhook_enabled", "false"),
            ("hooks_enabled", "true"),
            ("hooks_retention_days", "30"),
            ("compaction_injection_enabled", "false"),
            ("compaction_summarization_instructions", ""),
            ("compaction_context_injection", ""),
        ];
        let ghost start = self.spec_config();
        let ghost dv = defaults@.map_values(|p: (&str, &str)| (p.0@, p.1@));
        assert(dv =~= default_config());
        let mut i: usize = 0;
        assert(dv.take(0) =~= Seq::<(Seq<char>, Seq<char>)>::empty());
        while i < defaults.len()
            invariant
                i <= defaults@.len(),
                dv == defaults@.map_values(|p: (&str, &str)| (p.0@, p.1@)),
                self.spec_config() == with_defaults(start, dv.take(i as int)),
                self.spec_accounts() == old(self).spec_accounts(),
                self.spec_sessions() == old(self).spec_sessions(),
                self.spec_usage() == old(self).spec_usage(),
                self.spec_mappings() == old(self).spec_mappings(),
                self.spec_session_hooks() == old(self).spec_session_hooks(),
            decreases defaults.len() - i,
        {
            let (k, v) = defaults[i];
            proof {
                assert(dv.take(i + 1).drop_last() =~= dv.take(i as int));
                assert(dv.take(i + 1).last() == (k@, v@));
            }
            if self.get_config(k).is_none() {
                self.set_config(k, v);
            }
            i = i + 1;
        }
        assert(dv.take(i as int) =~= dv);
    }

    /// The configured proxy port: the stored numeral where it names a port, 32080 otherwise.
    pub fn get_proxy_port(&self) -> (r: u16)
        ensures
            r == if self.spec_config().contains_key("proxy_port"@) {
                match crate::config::numeral_value(self.spec_config()["proxy_port"@]) {
                    Some(n) => if n <= 65535 {
                        n as u16
                    } else {
                        32080u16
                    },
                    None => 32080u16,
                }
            } else {
                32080u16
            },
    {
        match self.get_config("proxy_port") {
            Some(s) => match crate::config::parse_u64(s.as_str()) {
                Some(n) => {
                    if n <= 65535 {
                        n as u16
                    } else {
                        32080
                    }
                },
                None => 32080,
            },
            None => 32080,
        }
    }

    /// Whether the proxy starts with the application: on unless stored otherwise.
    pub fn get_auto_start(&self) -> (r: bool)
        ensures
            r == (!self.spec_config().contains_key("auto_start"@) || self.spec_config()["auto_start"@]
                == "true"@),
    {
        match self.get_config("auto_start") {
            Some(s) => str_eq(s.as_str(), "true"),
            None => true,
        }
    }

    /// Totals per session, for the rows that name one: at most fifty sessions,
    /// one entry each, the most recently used first.
    pub fn get_usage_by_session(&self) -> (r: Vec<SessionUsageStats>)
        ensures
            r@.len() <= 50,
            session_ids_distinct(r@),
            forall|a: int| 0 <= a < r@.len() ==> session_usage_exact(self.spec_usage(), #[trigger] r@[a]),
            forall|a: int, b: int| 0 <= a < b < r@.len() ==> r@[a].last_request >= r@[b].last_request,
            forall|i: int|
                0 <= i < self.spec_usage().len() && self.spec_usage()[i].session_id is Some ==> #[trigger] session_usage_listed(
                    r@,
                    self.spec_usage(),
                    self.spec_usage()[i].session_id->0@,
                    50,
                ),
    {
        let mut stats: Vec<SessionUsageStats> = Vec::new();
        let mut i: usize = 0;
        while i < self.usage.len()
            invariant
                i <= self.usage@.len(),
                session_ids_distinct(stats@),
                forall|a: int| 0 <= a < stats@.len() ==> session_usage_exact(self.usage@, #[trigger] stats@[a]),
                forall|k: int|
                    0 <= k < i && self.usage@[k].session_id is Some ==> exists|a: int|
                        0 <= a < stats@.len() && #[trigger] stats@[a].session_id@ == self.usage@[k].session_id->0@,
            decreases self.usage.len() - i,
        {
            match &self.usage[i].session_id {
                Some(sid) => {
                    let mut j: usize = 0;
                    let mut found = false;
                    while j < stats.len() && !found
                        invariant
                            j <= stats@.len(),
                            !found ==> forall|q: int| 0 <= q < j ==> stats@[q].session_id@ != sid@,
                            found ==> exists|q: int| 0 <= q < stats@.len() && stats@[q].session_id@ == sid@,
                        decreases stats.len() - j + (if found { 0int } else { 1int }),
                    {
                        if str_eq(stats[j].session_id.as_str(), sid.as_str()) {
                            found = true;
                        } else {
                            j = j + 1;
                        }
                    }
                    if !found {
                        let ghost before = stats@;
                        let s = session_usage_of(&self.usage, sid.as_str());
                        stats.push(s);
                        proof {
                            assert forall|a: int, b: int| 0 <= a < b < stats@.len() implies stats@[a].session_id@ != stats@[b].session_id@ by {
                                if b < before.len() {
                                    assert(stats@[a] == before[a] && stats@[b] == before[b]);
                                } else {
                                    assert(stats@[a] == before[a]);
                                }
                            }
                            assert forall|a: int| 0 <= a < stats@.len() implies session_usage_exact(self.usage@, #[trigger] stats@[a]) by {
                                if a < before.len() {
                                    assert(stats@[a] == before[a]);
                                }
                            }
                            assert forall|k: int|
                                0 <= k < i + 1 && self.usage@[k].session_id is Some implies exists|a: int|
                                    0 <= a < stats@.len() && #[trigger] stats@[a].session_id@ == self.usage@[k].session_id->0@ by {
                                if k < i {
                                    let a = choose|a: int| 0 <= a < before.len() && before[a].session_id@ == self.usage@[k].session_id->0@;
                                    assert(stats@[a] == before[a]);
                                } else {
                                    assert(stats@[before.len() as int].session_id@ == sid@);
                                }
                            }
                        }
                    }
                },
                None => {},
            }
            i = i + 1;
        }
        let ghost all = stats@;
        let r = latest_session_usage(stats, 50);
        proof {
            assert forall|a: int| 0 <= a < r@.len() implies session_usage_exact(self.spec_usage(), #[trigger] r@[a]) by {
                assert(all.contains(r@[a]));
                let j = choose|j: int| 0 <= j < all.len() && all[j] == r@[a];
            }
            assert forall|i: int|
                0 <= i < self.spec_usage().len() && self.spec_usage()[i].session_id is Some implies #[trigger] session_usage_listed(
                    r@,
                    self.spec_usage(),
                    self.spec_usage()[i].session_id->0@,
                    50,
                ) by {
                let sid = self.usage@[i].session_id->0@;
                let j = choose|j: int| 0 <= j < all.len() && all[j].session_id@ == sid;
                if r@.contains(all[j]) {
                    let a = choose|a: int| 0 <= a < r@.len() && r@[a] == all[j];
                    assert(r@[a].session_id@ == sid);
                } else {
                    assert(all.len() > 50);
                    assert forall|a: int| 0 <= a < r@.len() implies r@[a].last_request >= seq_max(
                        session_rows(self.spec_usage(), sid).map_values(|x: UsageLogEntry| x.timestamp),
                    ) by {
                        assert(r@[a].last_request >= all[j].last_request);
                    }
                }
            }
        }
        r
    }

    /// Totals per calendar day (at `utc_offset_secs` from UTC) of the rows
    /// logged within the last `days` days at `now`, latest day first.
    pub fn get_daily_usage(&self, now: i64, days: i64, utc_offset_secs: i64) -> (r: Vec<DailyUsageStats>)
        ensures
            exists|groups: Seq<DayGroup>| {
                &&& groups.len() == r@.len()
                &&& days_distinct(groups)
                &&& forall|a: int| 0 <= a < groups.len() ==> day_exact(self.spec_usage(), cutoff(now, days), utc_offset_secs, #[trigger] groups[a])
                &&& forall|a: int| 0 <= a < groups.len() ==> daily_of(#[trigger] r@[a], groups[a])
                &&& forall|a: int, b: int| 0 <= a < b < groups.len() ==> groups[a].day > groups[b].day
                &&& forall|i: int| 0 <= i < self.spec_usage().len() && self.spec_usage()[i].timestamp > cutoff(now, days)
                    ==> exists|a: int| 0 <= a < groups.len() && groups[a].day == day_of(#[trigger] self.spec_usage()[i].timestamp, utc_offset_secs)
            },
    {
        let since = cutoff_exec(now, days);
        let mut groups: Vec<DayGroup> = Vec::new();
        let mut i: usize = 0;
        while i < self.usage.len()
            invariant
                i <= self.usage@.len(),
                since == cutoff(now, days),
                days_distinct(groups@),
                forall|a: int| 0 <= a < groups@.len() ==> day_exact(self.usage@, since, utc_offset_secs, #[trigger] groups@[a]),
                forall|k: int| 0 <= k < i && self.usage@[k].timestamp > since ==> exists|a: int|
                    0 <= a < groups@.len() && groups@[a].day == day_of(#[trigger] self.usage@[k].timestamp, utc_offset_secs),
            decreases self.usage.len() - i,
        {
            if self.usage[i].timestamp > since {
                let d = day_of_exec(self.usage[i].timestamp, utc_offset_secs);
                let mut j: usize = 0;
                let mut found = false;
                while j < groups.len() && !found
                    invariant
                        j <= groups@.len(),
                        !found ==> forall|q: int| 0 <= q < j ==> groups@[q].day != d,
                        found ==> exists|q: int| 0 <= q < groups@.len() && groups@[q].day == d,
                    decreases groups.len() - j + (if found { 0int } else { 1int }),
                {
                    if groups[j].day == d {
                        found = true;
                    } else {
                        j = j + 1;
                    }
                }
                if !found {
                    let ghost before = groups@;
                    let g = day_group_of(&self.usage, since, utc_offset_secs, d);
                    groups.push(g);
                    proof {
                        assert forall|a: int, b: int| 0 <= a < b < groups@.len() implies groups@[a].day != groups@[b].day by {
                            if b < before.len() {
                                assert(groups@[a] == before[a] && groups@[b] == before[b]);
                            } else {
                                assert(groups@[a] == before[a]);
                            }
                        }
                        assert forall|a: int| 0 <= a < groups@.len() implies day_exact(self.usage@, since, utc_offset_secs, #[trigger] groups@[a]) by {
                            if a < before.len() {
                                assert(groups@[a] == before[a]);
                            }
                        }
                        assert forall|k: int| 0 <= k < i + 1 && self.usage@[k].timestamp > since implies exists|a: int|
                            0 <= a < groups@.len() && groups@[a].day == day_of(#[trigger] self.usage@[k].timestamp, utc_offset_secs) by {
                            if k < i {
                                let a = choose|a: int| 0 <= a < before.len() && before[a].day == day_of(self.usage@[k].timestamp, utc_offset_secs);
                                assert(groups@[a] == before[a]);
                            } else {
                                assert(groups@[before.len() as int].day == d);
                            }
                        }
                    }
                }
            }
            i = i + 1;
        }
        let ghost all = groups@;
        let n = groups.len();
        let ordered = latest_days(groups, n);
        let mut out: Vec<DailyUsageStats> = Vec::new();
        let mut k: usize = 0;
        while k < ordered.len()
            invariant
                k <= ordered@.len(),
                out@.len() == k,
                forall|a: int| 0 <= a < k ==> daily_of(#[trigger] out@[a], ordered@[a]),
            decreases ordered.len() - k,
        {
            let g = &ordered[k];
            let date = if g.day >= i32::MIN as i64 && g.day <= i32::MAX as i64 {
                match epoch_date_text(g.day as i32) {
                    Some(t) => t,
                    None => String::new(),
                }
            } else {
                String::new()
            };
            out.push(DailyUsageStats {
                date,
                request_count: count_i64(g.request_count),
                total_input_tokens: g.total_input_tokens,
                total_output_tokens: g.total_output_tokens,
            });
            k = k + 1;
        }
        proof {
            let gs = ordered@;
            assert forall|a: int| 0 <= a < gs.len() implies day_exact(self.usage@, cutoff(now, days), utc_offset_secs, #[trigger] gs[a]) by {
                assert(all.contains(gs[a]));
                let j = choose|j: int| 0 <= j < all.len() && all[j] == gs[a];
            }
            assert forall|a: int, b: int| 0 <= a < b < gs.len() implies gs[a].day > gs[b].day by {
                assert(gs[a].day >= gs[b].day);
            }
            assert forall|i: int| 0 <= i < self.usage@.len() && self.usage@[i].timestamp > cutoff(now, days)
                implies exists|a: int| 0 <= a < gs.len() && gs[a].day == day_of(#[trigger] self.usage@[i].timestamp, utc_offset_secs) by {
                let j = choose|j: int| 0 <= j < all.len() && all[j].day == day_of(self.usage@[i].timestamp, utc_offset_secs);
                assert(gs.contains(all[j]));
                let a = choose|a: int| 0 <= a < gs.len() && gs[a] == all[j];
            }
            assert(gs.len() == out@.len());
        }
        out
    }

    /// The external links, in the order they were recorded.
    pub fn mappings(&self) -> (r: &Vec<ExternalMapping>)
        ensures
            r@ == self.spec_mappings(),
    {
        &self.mappings
    }

    /// The configuration as key-value pairs; a later pair overrides an earlier one.
    pub fn config_pairs(&self) -> (r: &Vec<(String, String)>)
        ensures
            config_map(r@) == self.spec_config(),
    {
        &self.config
    }

    fn route_without_session(&self) -> (r: Result<Route, RouteError>)
        requires
            self.wf(),
        ensures
            route_matches(r, route_of(self.spec_accounts(), self.spec_sessions(), None)),
    {
        match find_active(&self.accounts) {
            None => Err(RouteError::NoActiveAccount),
            Some(a) => Ok(
                Route {
                    kind: RouteKind::NoSession,
                    account_id: copy_string(&self.accounts[a].id),
                    model_override: None,
                },
            ),
        }
    }
}

} // verus!
