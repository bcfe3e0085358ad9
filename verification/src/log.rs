//! Access sessions: requests of one device for one domain (or tag) with one
//! outcome are counted in an active session until it has been idle too long.
use vstd::prelude::*;
use vstd::multiset::Multiset;
use crate::policy::{action_name, action_of, Action};
use crate::text::{clone_opt, lowercase, opt_str_view, opt_view, to_lowercase};

verus! {

/// The largest magnitude of a timestamp: every instant that chrono can
/// represent, in nanoseconds since the Unix epoch, lies within it.
pub open spec fn timestamp_bound() -> int {
    10_000_000_000_000_000_000_000_000_000
}

/// `t` is a timestamp that chrono can represent.
pub open spec fn valid_timestamp(t: i128) -> bool {
    -timestamp_bound() <= t <= timestamp_bound()
}

/// Nanoseconds since the Unix epoch of the instant `secs` seconds and `nanos`
/// nanoseconds after it.
pub open spec fn nanos_of(secs: i64, nanos: u32) -> int {
    secs * 1_000_000_000 + nanos
}

/// The instant that `chrono::DateTime::parse_from_rfc3339` reads in `text`,
/// as (seconds, nanoseconds) since the Unix epoch; `None` when it fails.
pub uninterp spec fn rfc3339_instant(text: Seq<char>) -> Option<(i64, u32)>;

/// Reads the current time with `chrono::Local::now`, as (seconds,
/// nanoseconds) since the Unix epoch (`timestamp`, `timestamp_subsec_nanos`).
/// The contract claims only the documented range of the nanoseconds (up to
/// 1,999,999,999 for a leap second); the instant itself is whatever the
/// clock says.
#[verifier::external_body]
fn clock_now() -> (r: (i64, u32))
    ensures
        r.1 < 2_000_000_000,
{
    let now = chrono::Local::now();
    (now.timestamp(), now.timestamp_subsec_nanos())
}

/// Parses `text` with `chrono::DateTime::parse_from_rfc3339` and gives the
/// instant as (`timestamp`, `timestamp_subsec_nanos`). The contract claims
/// that the result is the value named by `rfc3339_instant`, and the
/// documented range of the nanoseconds.
#[verifier::external_body]
fn parse_rfc3339(text: &str) -> (r: Option<(i64, u32)>)
    ensures
        r == rfc3339_instant(text@),
        r matches Some(p) ==> p.1 < 2_000_000_000,
{
    match chrono::DateTime::parse_from_rfc3339(text) {
        Ok(dt) => Some((dt.timestamp(), dt.timestamp_subsec_nanos())),
        Err(_) => None,
    }
}

/// The timestamp of `secs` seconds and `nanos` nanoseconds.
pub fn timestamp_from_parts(secs: i64, nanos: u32) -> (t: i128)
    requires
        nanos < 2_000_000_000,
    ensures
        t == nanos_of(secs, nanos),
        valid_timestamp(t),
{
    (secs as i128) * 1_000_000_000 + (nanos as i128)
}

/// The current time, in nanoseconds since the Unix epoch.
pub fn now_timestamp() -> (t: i128)
    ensures
        valid_timestamp(t),
{
    let (secs, nanos) = clock_now();
    timestamp_from_parts(secs, nanos)
}

/// The whole seconds in a span of `d` nanoseconds, rounded toward zero (as
/// `chrono::TimeDelta::num_seconds` counts them).
pub open spec fn whole_seconds(d: int) -> int {
    if d >= 0 {
        d / 1_000_000_000
    } else {
        -((-d) / 1_000_000_000)
    }
}

/// The requests of one device for one domain or tag with one outcome.
pub struct AccessSession {
    pub device_ip: String,
    /// The tag when the session counts a tag, else the lower-cased domain.
    pub target_domain: String,
    /// The tag the session counts, if it counts a tag.
    pub tag: Option<String>,
    pub action: Action,
    /// Nanoseconds since the Unix epoch.
    pub first_access: i128,
    /// Nanoseconds since the Unix epoch.
    pub last_access: i128,
    pub request_count: i32,
}

impl Clone for AccessSession {
    fn clone(&self) -> (r: Self)
        ensures
            r == *self,
    {
        AccessSession {
            device_ip: self.device_ip.clone(),
            target_domain: self.target_domain.clone(),
            tag: clone_opt(&self.tag),
            action: self.action,
            first_access: self.first_access,
            last_access: self.last_access,
            request_count: self.request_count,
        }
    }
}

/// Whether a log entry is still counting or has been stored.
#[derive(Clone, Copy, Debug, PartialEq, Eq, Structural)]
pub enum LogStatus {
    Active,
    Persistent,
}

/// A session with where it stands.
pub struct LogEntry {
    pub session: AccessSession,
    pub status: LogStatus,
}

/// The key under which a device's requests for `target` with `action` are
/// counted: `ip|target|Action`.
pub open spec fn key_of(ip: Seq<char>, target: Seq<char>, action: Action) -> Seq<char> {
    ip + seq!['|'] + target + seq!['|'] + action_name(action)
}

/// The key of a session.
pub open spec fn session_key(s: AccessSession) -> Seq<char> {
    key_of(s.device_ip@, s.target_domain@, s.action)
}

/// The index of the first session of `s` with key `k`, or `s.len()`.
pub open spec fn key_index(s: Seq<AccessSession>, k: Seq<char>) -> int
    decreases s.len(),
{
    if s.len() == 0 {
        0
    } else if session_key(s[0]) == k {
        0
    } else {
        1 + key_index(s.skip(1), k)
    }
}

/// What a request changes in the active sessions `old`: the session with the
/// request's key counts one more request and was last used at `now`; without
/// such a session a new one starts, first and last used at `now`.
/// The key is the device and the tag, or the lower-cased domain without one.
pub open spec fn records_access(
    old: Seq<AccessSession>,
    new: Seq<AccessSession>,
    device_ip: Seq<char>,
    target_domain: Seq<char>,
    action: Action,
    tag: Option<Seq<char>>,
    now: i128,
) -> bool {
    let target = match tag {
        Some(t) => t,
        None => lowercase(target_domain),
    };
    let i = key_index(old, key_of(device_ip, target, action));
    if i < old.len() {
        new == old.update(
            i,
            AccessSession {
                last_access: now,
                request_count: (old[i].request_count + 1) as i32,
                ..old[i]
            },
        )
    } else {
        &&& new.len() == old.len() + 1
        &&& new.drop_last() == old
        &&& new.last().device_ip@ == device_ip
        &&& new.last().target_domain@ == target
        &&& opt_view(new.last().tag) == tag
        &&& new.last().action == action
        &&& new.last().first_access == now
        &&& new.last().last_access == now
        &&& new.last().request_count == 1
    }
}

/// The session has been idle for more than `timeout_secs` whole seconds at `now`.
pub open spec fn is_expired(s: AccessSession, now: i128, timeout_secs: i64) -> bool {
    whole_seconds(now - s.last_access) > timeout_secs
}

/// The sessions of `s` that are expired (`expired == true`) or not, in order.
pub open spec fn select_expired(
    s: Seq<AccessSession>,
    now: i128,
    timeout_secs: i64,
    expired: bool,
) -> Seq<AccessSession>
    decreases s.len(),
{
    if s.len() == 0 {
        Seq::empty()
    } else if is_expired(s.last(), now, timeout_secs) == expired {
        select_expired(s.drop_last(), now, timeout_secs, expired).push(s.last())
    } else {
        select_expired(s.drop_last(), now, timeout_secs, expired)
    }
}

/// Both timestamps of every session are ones chrono can represent.
pub open spec fn valid_times(s: Seq<AccessSession>) -> bool {
    forall|i: int| 0 <= i < s.len() ==> #[trigger] times_ok(s[i])
}

/// Both timestamps of `s` are ones chrono can represent.
pub open spec fn times_ok(s: AccessSession) -> bool {
    valid_timestamp(s.first_access) && valid_timestamp(s.last_access)
}

/// `e` comes before `r` when log entries are ordered most recent first.
pub open spec fn insert_by_recency(s: Seq<LogEntry>, e: LogEntry) -> Seq<LogEntry>
    decreases s.len(),
{
    if s.len() == 0 {
        seq![e]
    } else if s[0].session.last_access >= e.session.last_access {
        seq![s[0]] + insert_by_recency(s.skip(1), e)
    } else {
        seq![e] + s
    }
}

/// `s` ordered by last access, most recent first; entries with the same last
/// access keep their order.
pub open spec fn sort_by_recency(s: Seq<LogEntry>) -> Seq<LogEntry>
    decreases s.len(),
{
    if s.len() == 0 {
        Seq::empty()
    } else {
        insert_by_recency(sort_by_recency(s.drop_last()), s.last())
    }
}

/// The last accesses of `s` never increase.
pub open spec fn recency_sorted(s: Seq<LogEntry>) -> bool {
    forall|i: int, j: int|
        0 <= i <= j < s.len() ==> s[i].session.last_access >= s[j].session.last_access
}

/// Where `insert_by_recency` puts `e`.
pub open spec fn recency_pos(s: Seq<LogEntry>, e: LogEntry) -> int
    decreases s.len(),
{
    if s.len() == 0 {
        0
    } else if s[0].session.last_access >= e.session.last_access {
        1 + recency_pos(s.skip(1), e)
    } else {
        0
    }
}

proof fn lemma_recency_pos(s: Seq<LogEntry>, e: LogEntry)
    ensures
        0 <= recency_pos(s, e) <= s.len(),
        forall|k: int|
            0 <= k < recency_pos(s, e) ==> s[k].session.last_access >= e.session.last_access,
        recency_pos(s, e) < s.len() ==> s[recency_pos(s, e)].session.last_access
            < e.session.last_access,
        insert_by_recency(s, e) == s.insert(recency_pos(s, e), e),
    decreases s.len(),
{
    if s.len() == 0 {
        assert(s.insert(0, e) =~= seq![e]);
    } else if s[0].session.last_access >= e.session.last_access {
        lemma_recency_pos(s.skip(1), e);
        let j = recency_pos(s, e);
        assert(s.insert(j, e) =~= seq![s[0]] + s.skip(1).insert(j - 1, e));
        assert forall|k: int| 0 <= k < j implies s[k].session.last_access
            >= e.session.last_access by {
            if k > 0 {
                assert(s[k] == s.skip(1)[k - 1]);
            }
        }
        if j < s.len() {
            assert(s[j] == s.skip(1)[j - 1]);
        }
    } else {
        assert(s.insert(0, e) =~= seq![e] + s);
    }
}

proof fn lemma_recency_insert_at(s: Seq<LogEntry>, e: LogEntry, j: int)
    requires
        0 <= j <= s.len(),
        forall|k: int| 0 <= k < j ==> s[k].session.last_access >= e.session.last_access,
        j == s.len() || s[j].session.last_access < e.session.last_access,
    ensures
        insert_by_recency(s, e) == s.insert(j, e),
{
    lemma_recency_pos(s, e);
    let p = recency_pos(s, e);
    if p < j {
        assert(s[p].session.last_access >= e.session.last_access);
    } else if j < p {
        assert(s[j].session.last_access >= e.session.last_access);
    }
}

proof fn lemma_recency_insert_sorted(s: Seq<LogEntry>, e: LogEntry)
    requires
        recency_sorted(s),
    ensures
        recency_sorted(insert_by_recency(s, e)),
        insert_by_recency(s, e).to_multiset() == s.to_multiset().insert(e),
        insert_by_recency(s, e).len() == s.len() + 1,
{
    lemma_recency_pos(s, e);
    let j = recency_pos(s, e);
    let t = s.insert(j, e);
    vstd::seq_lib::to_multiset_insert(s, j, e);
    assert forall|a: int, b: int| 0 <= a <= b < t.len() implies t[a].session.last_access
        >= t[b].session.last_access by {
        if a < j && b < j {
        } else if a < j && b == j {
        } else if a < j && b > j {
            assert(t[b] == s[b - 1]);
        } else if a == j && b > j {
            assert(t[b] == s[b - 1]);
            assert(s[j].session.last_access >= s[b - 1].session.last_access);
        } else if a > j {
            assert(t[a] == s[a - 1]);
            assert(t[b] == s[b - 1]);
        }
    }
}

/// Ordering by recency yields entries with non-increasing last access that
/// are exactly the given ones.
pub proof fn lemma_sort_by_recency(s: Seq<LogEntry>)
    ensures
        recency_sorted(sort_by_recency(s)),
        sort_by_recency(s).to_multiset() == s.to_multiset(),
        sort_by_recency(s).len() == s.len(),
    decreases s.len(),
{
    broadcast use vstd::seq_lib::to_multiset_build;

    if s.len() == 0 {
        assert(s =~= Seq::<LogEntry>::empty());
        s.to_multiset_ensures();
        vstd::multiset::lemma_multiset_empty_len(s.to_multiset());
    } else {
        lemma_sort_by_recency(s.drop_last());
        lemma_recency_insert_sorted(sort_by_recency(s.drop_last()), s.last());
        assert(s =~= s.drop_last().push(s.last()));
    }
}

/// The entries for `sessions`, each with `status`.
pub open spec fn entries_of(sessions: Seq<AccessSession>, status: LogStatus) -> Seq<LogEntry> {
    sessions.map_values(|s: AccessSession| LogEntry { session: s, status })
}

/// The combined log: the active sessions and then the stored ones, ordered
/// most recent first, at most `limit` of them.
pub open spec fn combined_log(
    active: Seq<AccessSession>,
    persistent: Seq<AccessSession>,
    limit: int,
) -> Seq<LogEntry> {
    let all = sort_by_recency(
        entries_of(active, LogStatus::Active) + entries_of(persistent, LogStatus::Persistent),
    );
    if all.len() > limit {
        all.take(limit)
    } else {
        all
    }
}

/// `ip|target|Action`, the key of a session.
fn make_key(ip: &str, target: &str, action: Action) -> (k: String)
    ensures
        k@ == key_of(ip@, target@, action),
{
    let mut k = String::from_str(ip);
    k.append("|");
    k.append(target);
    k.append("|");
    k.append(action.as_str());
    proof {
        reveal_strlit("|");
    }
    assert(k@ =~= key_of(ip@, target@, action));
    k
}

/// The key under which a request is counted: its device, its tag (or, for an
/// untagged domain, the lower-cased domain) and its outcome.
pub open spec fn request_key(
    device_ip: Seq<char>,
    target_domain: Seq<char>,
    action: Action,
    tag: Option<Seq<char>>,
) -> Seq<char> {
    let target = match tag {
        Some(t) => t,
        None => lowercase(target_domain),
    };
    key_of(device_ip, target, action)
}

/// The session of `s` that a request counts in, if there is one, counts
/// fewer than `i32::MAX` requests, so it can count one more.
pub open spec fn has_room_for(
    s: Seq<AccessSession>,
    device_ip: Seq<char>,
    target_domain: Seq<char>,
    action: Action,
    tag: Option<Seq<char>>,
) -> bool {
    let i = key_index(s, request_key(device_ip, target_domain, action, tag));
    i < s.len() ==> s[i].request_count < i32::MAX
}

/// The key under which a request is counted (see `request_key`).
fn request_key_of(device_ip: &str, target_domain: &str, action: Action, tag_name: Option<&str>) -> (k:
    String)
    ensures
        k@ == request_key(device_ip@, target_domain@, action, opt_str_view(tag_name)),
{
    match tag_name {
        Some(t) => make_key(device_ip, t, action),
        None => {
            let lowered = to_lowercase(target_domain);
            make_key(device_ip, lowered.as_str(), action)
        },
    }
}

/// The active sessions of a proxy.
pub struct AccessLogger {
    active_sessions: Vec<AccessSession>,
}

impl AccessLogger {
    #[verifier::type_invariant]
    spec fn inv(self) -> bool {
        &&& valid_times(self.active_sessions@)
        &&& keys_unique(self.active_sessions@)
    }


    /// The active sessions, in the order they started.
    pub closed spec fn sessions(&self) -> Seq<AccessSession> {
        self.active_sessions@
    }

    /// A logger with no active session.
    pub fn new() -> (l: AccessLogger)
        ensures
            l.sessions() == Seq::<AccessSession>::empty(),
    {
        AccessLogger { active_sessions: Vec::new() }
    }

    /// The index of the first active session with key `key`, or the number
    /// of active sessions.
    fn find_key(&self, key: &String) -> (i: usize)
        ensures
            i == key_index(self.sessions(), key@),
            i <= self.sessions().len(),
    {
        let ghost ss = self.active_sessions@;
        let mut i: usize = 0;
        let n = self.active_sessions.len();
        assert(ss.skip(0) =~= ss);
        while i < n
            invariant
                n == ss.len(),
                self.active_sessions@ == ss,
                i <= n,
                key_index(ss, key@) == i + key_index(ss.skip(i as int), key@),
            ensures
                key_index(ss, key@) == i,
                i <= n,
            decreases n - i,
        {
            let s = &self.active_sessions[i];
            let k = make_key(s.device_ip.as_str(), s.target_domain.as_str(), s.action);
            assert(ss.skip(i as int)[0] == *s);
            if k == *key {
                assert(key_index(ss.skip(i as int), key@) == 0);
                break;
            }
            assert(ss.skip(i as int).skip(1) =~= ss.skip(i + 1));
            i = i + 1;
        }
        if i == n {
            assert(ss.skip(n as int) =~= Seq::<AccessSession>::empty());
        }
        i
    }

    /// Whether the session that a request of `device_ip` for `target_domain`,
    /// answered with `action`, would count in (see `has_room_for`) can count
    /// one more request.
    pub fn room_for(
        &self,
        device_ip: &str,
        target_domain: &str,
        action: Action,
        tag_name: Option<&str>,
    ) -> (b: bool)
        ensures
            b == has_room_for(
                self.sessions(),
                device_ip@,
                target_domain@,
                action,
                opt_str_view(tag_name),
            ),
    {
        let key = request_key_of(device_ip, target_domain, action, tag_name);
        let i = self.find_key(&key);
        if i < self.active_sessions.len() {
            self.active_sessions[i].request_count < i32::MAX
        } else {
            true
        }
    }

    /// Counts a request of `device_ip` for `target_domain`, answered with
    /// `action`, at time `now`; requests of a tagged domain count towards
    /// the tag.
    pub fn record_access_at(
        &mut self,
        device_ip: &str,
        target_domain: &str,
        action: Action,
        tag_name: Option<&str>,
        now: i128,
    )
        requires
            has_room_for(
                old(self).sessions(),
                device_ip@,
                target_domain@,
                action,
                opt_str_view(tag_name),
            ),
            valid_timestamp(now),
        ensures
            keys_unique(final(self).sessions()),
            records_access(
                old(self).sessions(),
                final(self).sessions(),
                device_ip@,
                target_domain@,
                action,
                opt_str_view(tag_name),
                now,
            ),
    {
        proof {
            use_type_invariant(&*self);
        }
        let lowered = to_lowercase(target_domain);
        let (agg_key, session_tag) = match tag_name {
            Some(t) => (String::from_str(t), Some(String::from_str(t))),
            None => (lowered, None),
        };
        let key = make_key(device_ip, agg_key.as_str(), action);
        let ghost old_sessions = self.active_sessions@;
        let n = self.active_sessions.len();
        let i = self.find_key(&key);
        if i < n {
            let mut s = self.active_sessions[i].clone();
            assert(times_ok(old_sessions[i as int]));
            s.last_access = now;
            s.request_count = s.request_count + 1;
            let mut v: Vec<AccessSession> = Vec::new();
            std::mem::swap(&mut v, &mut self.active_sessions);
            v.set(i, s);
            proof {
                assert(records_access(old_sessions, v@, device_ip@, target_domain@, action, opt_str_view(tag_name), now));
                lemma_record_keeps_keys_unique(old_sessions, v@, device_ip@, target_domain@, action, opt_str_view(tag_name), now);
            }
            assert forall|j: int| 0 <= j < v@.len() implies #[trigger] times_ok(v@[j]) by {
                if j != i {
                    assert(v@[j] == old_sessions[j]);
                }
            }
            self.active_sessions = v;
        } else {
            let s = AccessSession {
                device_ip: String::from_str(device_ip),
                target_domain: agg_key,
                tag: session_tag,
                action,
                first_access: now,
                last_access: now,
                request_count: 1,
            };
            let mut v: Vec<AccessSession> = Vec::new();
            std::mem::swap(&mut v, &mut self.active_sessions);
            v.push(s);
            proof {
                assert(v@.drop_last() =~= old_sessions);
                assert(records_access(old_sessions, v@, device_ip@, target_domain@, action, opt_str_view(tag_name), now));
                lemma_record_keeps_keys_unique(old_sessions, v@, device_ip@, target_domain@, action, opt_str_view(tag_name), now);
            }
            assert forall|j: int| 0 <= j < v@.len() implies #[trigger] times_ok(v@[j]) by {
                if j < old_sessions.len() {
                    assert(v@[j] == old_sessions[j]);
                }
            }
            self.active_sessions = v;
            assert(self.active_sessions@.drop_last() =~= old_sessions);
        }
        proof {
            use_type_invariant(&*self);
        }
    }

    /// Counts a request of `device_ip` for `target_domain`, answered with
    /// `action`, at the current time.
    pub fn record_access(
        &mut self,
        device_ip: &str,
        target_domain: &str,
        action: Action,
        tag_name: Option<&str>,
    )
        requires
            has_room_for(
                old(self).sessions(),
                device_ip@,
                target_domain@,
                action,
                opt_str_view(tag_name),
            ),
        ensures
            keys_unique(final(self).sessions()),
            exists|now: i128|
                valid_timestamp(now) && records_access(
                    old(self).sessions(),
                    final(self).sessions(),
                    device_ip@,
                    target_domain@,
                    action,
                    opt_str_view(tag_name),
                    now,
                ),
    {
        let now = now_timestamp();
        self.record_access_at(device_ip, target_domain, action, tag_name, now);
    }

    /// Counts a request as `record_access` does when the session it counts in
    /// has room for one more request, and returns whether it did; otherwise
    /// the sessions stay as they are.
    pub fn try_record_access(
        &mut self,
        device_ip: &str,
        target_domain: &str,
        action: Action,
        tag_name: Option<&str>,
    ) -> (counted: bool)
        ensures
            counted == has_room_for(
                old(self).sessions(),
                device_ip@,
                target_domain@,
                action,
                opt_str_view(tag_name),
            ),
            keys_unique(final(self).sessions()),
            counted ==> exists|now: i128|
                valid_timestamp(now) && records_access(
                    old(self).sessions(),
                    final(self).sessions(),
                    device_ip@,
                    target_domain@,
                    action,
                    opt_str_view(tag_name),
                    now,
                ),
            !counted ==> final(self).sessions() == old(self).sessions(),
    {
        proof {
            use_type_invariant(&*self);
        }
        if self.room_for(device_ip, target_domain, action, tag_name) {
            self.record_access(device_ip, target_domain, action, tag_name);
            true
        } else {
            false
        }
    }

    /// Ends the sessions that have been idle for more than `timeout_secs`
    /// whole seconds at `now` and returns them, in order.
    pub fn sweep_sessions_at(&mut self, now: i128, timeout_secs: i64) -> (expired: Vec<
        AccessSession,
    >)
        requires
            valid_timestamp(now),
        ensures
            keys_unique(final(self).sessions()),
            expired@ == select_expired(old(self).sessions(), now, timeout_secs, true),
            final(self).sessions() == select_expired(
                old(self).sessions(),
                now,
                timeout_secs,
                false,
            ),
    {
        proof {
            use_type_invariant(&*self);
        }
        let ghost orig = self.active_sessions@;
        let n = self.active_sessions.len();
        let mut kept: Vec<AccessSession> = Vec::new();
        let mut expired: Vec<AccessSession> = Vec::new();
        let mut i: usize = 0;
        assert(orig.take(0) =~= Seq::<AccessSession>::empty());
        while i < n
            invariant
                n == orig.len(),
                self.active_sessions@ == orig,
                valid_times(orig),
                valid_timestamp(now),
                i <= n,
                kept@ == select_expired(orig.take(i as int), now, timeout_secs, false),
                expired@ == select_expired(orig.take(i as int), now, timeout_secs, true),
                valid_times(kept@),
            decreases n - i,
        {
            let s = self.active_sessions[i].clone();
            assert(orig.take(i + 1).drop_last() =~= orig.take(i as int));
            assert(orig.take(i + 1).last() == s);
            assert(times_ok(orig[i as int]));
            let d = now - s.last_access;
            let secs: i128 = if d >= 0 {
                d / 1_000_000_000
            } else {
                -((-d) / 1_000_000_000)
            };
            if secs > timeout_secs as i128 {
                expired.push(s);
            } else {
                let ghost before = kept@;
                kept.push(s);
                assert forall|j: int| 0 <= j < kept@.len() implies #[trigger] times_ok(kept@[j]) by {
                    if j < before.len() {
                        assert(kept@[j] == before[j]);
                    } else {
                        assert(kept@[j] == orig[i as int]);
                    }
                }
            }
            i = i + 1;
        }
        assert(orig.take(n as int) =~= orig);
        proof {
            lemma_sweep_keeps_keys_unique(orig, now, timeout_secs, false);
        }
        self.active_sessions = kept;
        proof {
            use_type_invariant(&*self);
        }
        expired
    }

    /// Ends the sessions that have been idle for more than `timeout_secs`
    /// whole seconds now and returns them, in order.
    pub fn sweep_sessions(&mut self, timeout_secs: i64) -> (expired: Vec<AccessSession>)
        ensures
            keys_unique(final(self).sessions()),
            exists|now: i128|
                valid_timestamp(now) && expired@ == select_expired(
                    old(self).sessions(),
                    now,
                    timeout_secs,
                    true,
                ) && final(self).sessions() == select_expired(
                    old(self).sessions(),
                    now,
                    timeout_secs,
                    false,
                ),
    {
        let now = now_timestamp();
        self.sweep_sessions_at(now, timeout_secs)
    }

    /// The active sessions and then `persistent`, the stored ones, ordered
    /// most recent first, at most `limit` of them.
    pub fn get_combined_logs(&self, persistent: Vec<AccessSession>, limit: usize) -> (log: Vec<
        LogEntry,
    >)
        ensures
            log@ == combined_log(self.sessions(), persistent@, limit as int),
    {
        let ghost all = entries_of(self.active_sessions@, LogStatus::Active) + entries_of(
            persistent@,
            LogStatus::Persistent,
        );
        let mut entries: Vec<LogEntry> = Vec::new();
        let mut i: usize = 0;
        while i < self.active_sessions.len()
            invariant
                i <= self.active_sessions@.len(),
                entries@ == entries_of(self.active_sessions@.take(i as int), LogStatus::Active),
            decreases self.active_sessions@.len() - i,
        {
            entries.push(LogEntry { session: self.active_sessions[i].clone(), status: LogStatus::Active });
            i = i + 1;
            assert(entries@ =~= entries_of(self.active_sessions@.take(i as int), LogStatus::Active));
        }
        assert(self.active_sessions@.take(i as int) =~= self.active_sessions@);
        let na = entries.len();
        let np = persistent.len();
        let mut rest = persistent;
        let ghost pers = rest@;
        let mut k: usize = 0;
        while rest.len() > 0
            invariant
                np == pers.len(),
                k + rest@.len() == pers.len(),
                rest@ == pers.skip(k as int),
                entries@ == entries_of(self.active_sessions@, LogStatus::Active) + entries_of(
                    pers.take(k as int),
                    LogStatus::Persistent,
                ),
            decreases rest@.len(),
        {
            let s = rest.remove(0);
            assert(s == pers[k as int]);
            entries.push(LogEntry { session: s, status: LogStatus::Persistent });
            k = k + 1;
            assert(rest@ =~= pers.skip(k as int));
            assert(entries@ =~= entries_of(self.active_sessions@, LogStatus::Active) + entries_of(
                pers.take(k as int),
                LogStatus::Persistent,
            ));
        }
        assert(pers.take(k as int) =~= pers);
        assert(entries@ == all);
        let mut sorted = sort_entries(entries);
        if sorted.len() > limit {
            sorted.truncate(limit);
        }
        sorted
    }

    /// Forgets every active session.
    pub fn clear_access_logs(&mut self)
        ensures
            final(self).sessions() == Seq::<AccessSession>::empty(),
    {
        proof {
            use_type_invariant(&*self);
        }
        self.active_sessions = Vec::new();
    }

    /// The active sessions, in the order they started.
    pub fn get_active_sessions(&self) -> (v: Vec<AccessSession>)
        ensures
            v@ == self.sessions(),
    {
        let mut v: Vec<AccessSession> = Vec::new();
        let mut i: usize = 0;
        while i < self.active_sessions.len()
            invariant
                i <= self.active_sessions@.len(),
                v@ == self.active_sessions@.take(i as int),
            decreases self.active_sessions@.len() - i,
        {
            v.push(self.active_sessions[i].clone());
            i = i + 1;
            assert(v@ =~= self.active_sessions@.take(i as int));
        }
        assert(self.active_sessions@.take(i as int) =~= self.active_sessions@);
        v
    }
}

/// `entries` ordered most recent first, entries with the same last access
/// keeping their order.
fn sort_entries(entries: Vec<LogEntry>) -> (sorted: Vec<LogEntry>)
    ensures
        sorted@ == sort_by_recency(entries@),
{
    let ghost orig = entries@;
    let n = entries.len();
    let mut rest = entries;
    let mut sorted: Vec<LogEntry> = Vec::new();
    let mut k: usize = 0;
    assert(orig.take(0) =~= Seq::<LogEntry>::empty());
    while rest.len() > 0
        invariant
            k + rest@.len() == orig.len(),
            n == orig.len(),
            rest@ == orig.skip(k as int),
            sorted@ == sort_by_recency(orig.take(k as int)),
            recency_sorted(sorted@),
        decreases rest@.len(),
    {
        let e = rest.remove(0);
        assert(e == orig[k as int]);
        proof {
            lemma_sort_by_recency(orig.take(k as int));
        }
        let t = e.session.last_access;
        let mut j: usize = 0;
        while j < sorted.len() && sorted[j].session.last_access >= t
            invariant
                j <= sorted@.len(),
                forall|q: int| 0 <= q < j ==> sorted@[q].session.last_access >= t,
            decreases sorted@.len() - j,
        {
            j = j + 1;
        }
        proof {
            lemma_recency_insert_at(sorted@, e, j as int);
            lemma_recency_insert_sorted(sorted@, e);
            assert(orig.take(k + 1).drop_last() =~= orig.take(k as int));
            assert(orig.take(k + 1).last() == e);
            assert(rest@ =~= orig.skip(k + 1));
        }
        sorted.insert(j, e);
        k = k + 1;
    }
    assert(orig.take(k as int) =~= orig);
    sorted
}

/// The SQL condition on tags: tagged sessions only, untagged only, or all.
pub open spec fn tag_clause(tag_filter: Option<bool>) -> Seq<char> {
    match tag_filter {
        Some(true) => " AND tag IS NOT NULL"@,
        Some(false) => " AND tag IS NULL"@,
        None => ""@,
    }
}

/// The query for stored sessions, most recent first: with `has_ip_filter`,
/// of the device bound to `?1` and limited to `?2` rows; else limited to
/// `?1` rows; in both, restricted by `tag_filter`.
pub open spec fn access_log_sql(has_ip_filter: bool, tag_filter: Option<bool>) -> Seq<char> {
    if has_ip_filter {
        "SELECT device_ip, target_domain, tag, action, first_access, last_access, request_count\n                 FROM access_logs WHERE device_ip = ?1"@
            + tag_clause(tag_filter) + "\n                 ORDER BY last_access DESC LIMIT ?2"@
    } else {
        "SELECT device_ip, target_domain, tag, action, first_access, last_access, request_count\n                 FROM access_logs WHERE 1=1"@
            + tag_clause(tag_filter) + "\n                 ORDER BY last_access DESC LIMIT ?1"@
    }
}

/// The query that reads stored sessions (see `access_log_sql`).
pub fn access_log_query(has_ip_filter: bool, tag_filter: Option<bool>) -> (sql: String)
    ensures
        sql@ == access_log_sql(has_ip_filter, tag_filter),
{
    let clause = match tag_filter {
        Some(true) => " AND tag IS NOT NULL",
        Some(false) => " AND tag IS NULL",
        None => "",
    };
    let mut sql = if has_ip_filter {
        String::from_str(
            "SELECT device_ip, target_domain, tag, action, first_access, last_access, request_count\n                 FROM access_logs WHERE device_ip = ?1",
        )
    } else {
        String::from_str(
            "SELECT device_ip, target_domain, tag, action, first_access, last_access, request_count\n                 FROM access_logs WHERE 1=1",
        )
    };
    sql.append(clause);
    if has_ip_filter {
        sql.append("\n                 ORDER BY last_access DESC LIMIT ?2");
    } else {
        sql.append("\n                 ORDER BY last_access DESC LIMIT ?1");
    }
    sql
}

/// The instant stored as `text`, when it is an RFC 3339 date and time.
pub open spec fn stored_instant(text: Option<Seq<char>>) -> Option<int> {
    match text {
        Some(t) => match rfc3339_instant(t) {
            Some(p) => Some(nanos_of(p.0, p.1)),
            None => None,
        },
        None => None,
    }
}

/// The timestamp stored as `text`, or the current time when there is none or
/// it does not read as an RFC 3339 date and time.
fn stored_or_now(text: &Option<String>) -> (t: i128)
    ensures
        valid_timestamp(t),
        stored_instant(opt_view(*text)) matches Some(s) ==> t == s,
{
    if let Some(s) = text {
        if let Some((secs, nanos)) = parse_rfc3339(s.as_str()) {
            return timestamp_from_parts(secs, nanos);
        }
    }
    now_timestamp()
}

impl AccessSession {
    /// A session read from a stored row. A timestamp that is missing or does
    /// not read as RFC 3339 becomes the current time.
    pub fn from_row(
        device_ip: String,
        target_domain: String,
        tag: Option<String>,
        action: &str,
        first_access: Option<String>,
        last_access: Option<String>,
        request_count: i32,
    ) -> (s: AccessSession)
        ensures
            s.device_ip == device_ip,
            s.target_domain == target_domain,
            s.tag == tag,
            s.action == action_of(action@),
            s.request_count == request_count,
            valid_timestamp(s.first_access),
            valid_timestamp(s.last_access),
            stored_instant(opt_view(first_access)) matches Some(t) ==> s.first_access == t,
            stored_instant(opt_view(last_access)) matches Some(t) ==> s.last_access == t,
    {
        let first = stored_or_now(&first_access);
        let last = stored_or_now(&last_access);
        AccessSession {
            device_ip,
            target_domain,
            tag,
            action: Action::from_str(action),
            first_access: first,
            last_access: last,
            request_count,
        }
    }
}

} // verus!

verus! {

/// No two sessions share a key.
pub open spec fn keys_unique(s: Seq<AccessSession>) -> bool {
    forall|i: int, j: int|
        0 <= i < j < s.len() ==> session_key(#[trigger] s[i]) != session_key(#[trigger] s[j])
}

proof fn lemma_key_index(s: Seq<AccessSession>, k: Seq<char>)
    ensures
        0 <= key_index(s, k) <= s.len(),
        key_index(s, k) < s.len() ==> session_key(s[key_index(s, k)]) == k,
        forall|i: int| 0 <= i < key_index(s, k) ==> session_key(#[trigger] s[i]) != k,
    decreases s.len(),
{
    if s.len() > 0 && session_key(s[0]) != k {
        lemma_key_index(s.skip(1), k);
        assert forall|i: int| 0 <= i < key_index(s, k) implies session_key(#[trigger] s[i]) != k by {
            if i > 0 {
                assert(s[i] == s.skip(1)[i - 1]);
            }
        }
        if key_index(s, k) < s.len() {
            assert(s[key_index(s, k)] == s.skip(1)[key_index(s, k) - 1]);
        }
    }
}

/// Counting a request keeps one session per key: a request either counts
/// in the session that has its key or starts the only one with it.
pub proof fn lemma_record_keeps_keys_unique(
    old: Seq<AccessSession>,
    new: Seq<AccessSession>,
    device_ip: Seq<char>,
    target_domain: Seq<char>,
    action: Action,
    tag: Option<Seq<char>>,
    now: i128,
)
    requires
        keys_unique(old),
        records_access(old, new, device_ip, target_domain, action, tag, now),
    ensures
        keys_unique(new),
{
    let target = match tag {
        Some(t) => t,
        None => lowercase(target_domain),
    };
    let k = key_of(device_ip, target, action);
    lemma_key_index(old, k);
    let i = key_index(old, k);
    if i < old.len() {
        assert forall|a: int, b: int| 0 <= a < b < new.len() implies session_key(#[trigger] new[a])
            != session_key(#[trigger] new[b]) by {
            assert(session_key(new[a]) == session_key(old[a]));
            assert(session_key(new[b]) == session_key(old[b]));
        }
    } else {
        assert(session_key(new.last()) == k);
        assert forall|a: int, b: int| 0 <= a < b < new.len() implies session_key(#[trigger] new[a])
            != session_key(#[trigger] new[b]) by {
            assert(new[a] == old[a]);
            if b < old.len() {
                assert(new[b] == old[b]);
            }
        }
    }
}

proof fn lemma_select_subset(s: Seq<AccessSession>, now: i128, timeout_secs: i64, expired: bool)
    ensures
        forall|x: AccessSession|
            #[trigger] select_expired(s, now, timeout_secs, expired).contains(x) ==> s.contains(x),
    decreases s.len(),
{
    if s.len() > 0 {
        lemma_select_subset(s.drop_last(), now, timeout_secs, expired);
        let prev = select_expired(s.drop_last(), now, timeout_secs, expired);
        assert forall|x: AccessSession|
            #[trigger] select_expired(s, now, timeout_secs, expired).contains(x) implies s.contains(
            x,
        ) by {
            if prev.contains(x) {
                let j = choose|j: int| 0 <= j < prev.len() && prev[j] == x;
                assert(s.drop_last().contains(x));
                let t = choose|t: int| 0 <= t < s.drop_last().len() && s.drop_last()[t] == x;
                assert(s[t] == x);
            } else {
                assert(x == s.last());
                assert(s[s.len() - 1] == x);
            }
        }
    }
}

/// Sweeping keeps one session per key among the sessions that stay.
pub proof fn lemma_sweep_keeps_keys_unique(
    s: Seq<AccessSession>,
    now: i128,
    timeout_secs: i64,
    expired: bool,
)
    requires
        keys_unique(s),
    ensures
        keys_unique(select_expired(s, now, timeout_secs, expired)),
    decreases s.len(),
{
    if s.len() > 0 {
        let prev = select_expired(s.drop_last(), now, timeout_secs, expired);
        assert(keys_unique(s.drop_last())) by {
            assert forall|a: int, b: int| 0 <= a < b < s.drop_last().len() implies session_key(
                #[trigger] s.drop_last()[a],
            ) != session_key(#[trigger] s.drop_last()[b]) by {
                assert(s.drop_last()[a] == s[a]);
                assert(s.drop_last()[b] == s[b]);
            }
        }
        lemma_sweep_keeps_keys_unique(s.drop_last(), now, timeout_secs, expired);
        lemma_select_subset(s.drop_last(), now, timeout_secs, expired);
        if is_expired(s.last(), now, timeout_secs) == expired {
            let t = prev.push(s.last());
            assert forall|a: int, b: int| 0 <= a < b < t.len() implies session_key(#[trigger] t[a])
                != session_key(#[trigger] t[b]) by {
                if b == t.len() - 1 {
                    assert(prev.contains(t[a]));
                    assert(s.drop_last().contains(t[a]));
                    let q = choose|q: int| 0 <= q < s.drop_last().len() && s.drop_last()[q] == t[a];
                    assert(s[q] == t[a]);
                    assert(t[b] == s[s.len() - 1]);
                } else {
                    assert(t[a] == prev[a]);
                    assert(t[b] == prev[b]);
                }
            }
        }
    }
}

/// Sweeping splits the sessions: every session either ends (and is
/// returned) or stays, and none is lost or doubled.
pub proof fn lemma_sweep_partitions(s: Seq<AccessSession>, now: i128, timeout_secs: i64)
    ensures
        select_expired(s, now, timeout_secs, true).to_multiset().add(
            select_expired(s, now, timeout_secs, false).to_multiset(),
        ) == s.to_multiset(),
        forall|i: int|
            0 <= i < select_expired(s, now, timeout_secs, true).len() ==> is_expired(
                #[trigger] select_expired(s, now, timeout_secs, true)[i],
                now,
                timeout_secs,
            ),
        forall|i: int|
            0 <= i < select_expired(s, now, timeout_secs, false).len() ==> !is_expired(
                #[trigger] select_expired(s, now, timeout_secs, false)[i],
                now,
                timeout_secs,
            ),
    decreases s.len(),
{
    broadcast use vstd::seq_lib::to_multiset_build;
    broadcast use vstd::multiset::group_multiset_axioms;

    if s.len() == 0 {
        assert(s =~= Seq::<AccessSession>::empty());
        s.to_multiset_ensures();
        vstd::multiset::lemma_multiset_empty_len(s.to_multiset());
    } else {
        lemma_sweep_partitions(s.drop_last(), now, timeout_secs);
        assert(s =~= s.drop_last().push(s.last()));
        let e = select_expired(s.drop_last(), now, timeout_secs, true);
        let k = select_expired(s.drop_last(), now, timeout_secs, false);
        if is_expired(s.last(), now, timeout_secs) {
            assert(e.push(s.last()).to_multiset().add(k.to_multiset()) =~= s.to_multiset());
            assert forall|i: int| 0 <= i < e.push(s.last()).len() implies is_expired(
                #[trigger] e.push(s.last())[i],
                now,
                timeout_secs,
            ) by {
                if i < e.len() {
                    assert(e.push(s.last())[i] == e[i]);
                }
            }
        } else {
            assert(e.to_multiset().add(k.push(s.last()).to_multiset()) =~= s.to_multiset());
            assert forall|i: int| 0 <= i < k.push(s.last()).len() implies !is_expired(
                #[trigger] k.push(s.last())[i],
                now,
                timeout_secs,
            ) by {
                if i < k.len() {
                    assert(k.push(s.last())[i] == k[i]);
                }
            }
        }
    }
}

/// Counted in whole seconds toward zero, a span of `d` nanoseconds exceeds
/// `t` seconds exactly when it is at least `t + 1` seconds long (for
/// `t >= 0`), or longer than `t` seconds (for `t < 0`).
proof fn lemma_whole_seconds_exceed(d: int, t: int)
    ensures
        (whole_seconds(d) > t) == (if t >= 0 {
            d >= (t + 1) * 1_000_000_000
        } else {
            d > t * 1_000_000_000
        }),
{
    assert(whole_seconds(d) > t <==> (if t >= 0 {
        d >= (t + 1) * 1_000_000_000
    } else {
        d > t * 1_000_000_000
    })) by (nonlinear_arith);
}

/// Sweeping at `now` ends exactly the sessions that have not been used for
/// more than `timeout_secs` whole seconds: those whose last access lies at
/// least `timeout_secs + 1` seconds before `now` (for a negative timeout,
/// more than `timeout_secs` seconds before it). When a session started
/// plays no part.
pub proof fn lemma_sweep_by_last_access(s: Seq<AccessSession>, now: i128, timeout_secs: i64)
    ensures
        forall|i: int|
            0 <= i < select_expired(s, now, timeout_secs, true).len() ==> (if timeout_secs >= 0 {
                now - (#[trigger] select_expired(s, now, timeout_secs, true)[i]).last_access >= (
                timeout_secs + 1) * 1_000_000_000
            } else {
                now - select_expired(s, now, timeout_secs, true)[i].last_access > timeout_secs
                    * 1_000_000_000
            }),
        forall|i: int|
            0 <= i < select_expired(s, now, timeout_secs, false).len() ==> (if timeout_secs >= 0 {
                now - (#[trigger] select_expired(s, now, timeout_secs, false)[i]).last_access < (
                timeout_secs + 1) * 1_000_000_000
            } else {
                now - select_expired(s, now, timeout_secs, false)[i].last_access <= timeout_secs
                    * 1_000_000_000
            }),
{
    lemma_sweep_partitions(s, now, timeout_secs);
    let e = select_expired(s, now, timeout_secs, true);
    let k = select_expired(s, now, timeout_secs, false);
    assert forall|i: int| 0 <= i < e.len() implies (if timeout_secs >= 0 {
        now - (#[trigger] e[i]).last_access >= (timeout_secs + 1) * 1_000_000_000
    } else {
        now - e[i].last_access > timeout_secs * 1_000_000_000
    }) by {
        assert(is_expired(e[i], now, timeout_secs));
        lemma_whole_seconds_exceed(now - e[i].last_access, timeout_secs as int);
    }
    assert forall|i: int| 0 <= i < k.len() implies (if timeout_secs >= 0 {
        now - (#[trigger] k[i]).last_access < (timeout_secs + 1) * 1_000_000_000
    } else {
        now - k[i].last_access <= timeout_secs * 1_000_000_000
    }) by {
        assert(!is_expired(k[i], now, timeout_secs));
        lemma_whole_seconds_exceed(now - k[i].last_access, timeout_secs as int);
    }
}

/// The combined log is ordered most recent first; unless cut by the limit it
/// holds every active and every stored session exactly once, and it never
/// holds more than `limit` entries.
pub proof fn lemma_combined_log(active: Seq<AccessSession>, persistent: Seq<AccessSession>, limit: nat)
    ensures
        recency_sorted(combined_log(active, persistent, limit as int)),
        combined_log(active, persistent, limit as int).len() <= limit,
        active.len() + persistent.len() <= limit ==> combined_log(
            active,
            persistent,
            limit as int,
        ).to_multiset() == (entries_of(active, LogStatus::Active) + entries_of(
            persistent,
            LogStatus::Persistent,
        )).to_multiset(),
{
    let all = entries_of(active, LogStatus::Active) + entries_of(persistent, LogStatus::Persistent);
    lemma_sort_by_recency(all);
}

} // verus!

verus! {

/// The requests counted by the sessions `s`.
pub open spec fn total_requests(s: Seq<AccessSession>) -> int
    decreases s.len(),
{
    if s.len() == 0 {
        0
    } else {
        total_requests(s.drop_last()) + s.last().request_count
    }
}

proof fn lemma_total_update(s: Seq<AccessSession>, i: int, x: AccessSession)
    requires
        0 <= i < s.len(),
    ensures
        total_requests(s.update(i, x)) == total_requests(s) - s[i].request_count
            + x.request_count,
    decreases s.len(),
{
    assert(s.update(i, x).drop_last() =~= (if i == s.len() - 1 {
        s.drop_last()
    } else {
        s.drop_last().update(i, x)
    }));
    if i < s.len() - 1 {
        lemma_total_update(s.drop_last(), i, x);
    }
}

/// Counting a request adds exactly one to the requests counted by the
/// active sessions.
pub proof fn lemma_record_counts_one(
    old: Seq<AccessSession>,
    new: Seq<AccessSession>,
    device_ip: Seq<char>,
    target_domain: Seq<char>,
    action: Action,
    tag: Option<Seq<char>>,
    now: i128,
)
    requires
        records_access(old, new, device_ip, target_domain, action, tag, now),
        has_room_for(old, device_ip, target_domain, action, tag),
    ensures
        total_requests(new) == total_requests(old) + 1,
{
    let target = match tag {
        Some(t) => t,
        None => lowercase(target_domain),
    };
    let k = key_of(device_ip, target, action);
    lemma_key_index(old, k);
    let i = key_index(old, k);
    if i < old.len() {
        assert(old[i].request_count < i32::MAX);
        lemma_total_update(old, i, new[i]);
    }
}

} // verus!
