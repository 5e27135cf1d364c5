//! Guest-usage rate limiting: per-guest daily quotas with reset at UTC
//! day boundaries.
//!
//! Each unauthenticated caller is bucketed under a key derived from the
//! best available identity signal. A per-key counter admits up to
//! `MAX_GUEST_MESSAGES_PER_DAY` requests per UTC day; at the first
//! request on or after the stored reset time the counter starts over.

use vstd::prelude::*;
use vstd::string::*;
use vstd::pervasive::VecAdditionalExecFns;
use vstd::arithmetic::div_mod::lemma_fundamental_div_mod;

use crate::strutil::starts_with;
use crate::strutil::starts_with_spec;
use crate::strutil::str_eq;

verus! {

/// Daily request quota for unauthenticated callers.
pub const MAX_GUEST_MESSAGES_PER_DAY: u32 = 5;

/// Milliseconds in one day.
pub const MS_PER_DAY: u64 = 86_400_000;

/// Start of the UTC day strictly after `now`'s day: add one day, then
/// round down to a whole-day multiple of milliseconds since the epoch.
pub open spec fn next_day_start_spec(now: u64) -> int {
    ((now + MS_PER_DAY) as int / MS_PER_DAY as int) * MS_PER_DAY as int
}

/// The next day boundary lies strictly after `now`, at most one day
/// ahead, and on a whole-day multiple.
pub proof fn lemma_next_day_start(now: u64)
    ensures
        now < next_day_start_spec(now) <= now + MS_PER_DAY,
        next_day_start_spec(now) % (MS_PER_DAY as int) == 0,
{
    let d = MS_PER_DAY as int;
    let x = now + d;
    lemma_fundamental_div_mod(x as int, d);
}

/// Start of the next UTC day after `timestamp`.
pub fn start_of_next_day(timestamp: u64) -> (r: u64)
    requires
        timestamp <= u64::MAX - MS_PER_DAY,
    ensures
        r == next_day_start_spec(timestamp),
        timestamp < r,
        r % MS_PER_DAY == 0,
{
    proof {
        lemma_next_day_start(timestamp);
    }
    let next_day = timestamp + 24 * 60 * 60 * 1000;
    (next_day / (24 * 60 * 60 * 1000)) * (24 * 60 * 60 * 1000)
}

/// The view of an optional string argument.
pub open spec fn opt_view(o: Option<&str>) -> Option<Seq<char>> {
    match o {
        Some(s) => Some(s@),
        None => None,
    }
}

/// The tracking key for a guest: an anonymous-session id (when present
/// and of the `anon-` form) takes priority; otherwise fingerprint and
/// IP, each replaced by `"unknown"` when absent, joined by `|`.
pub open spec fn guest_key_spec(
    fingerprint: Option<Seq<char>>,
    ip: Option<Seq<char>>,
    user_id: Option<Seq<char>>,
) -> Seq<char> {
    if user_id is Some && starts_with_spec(user_id->Some_0, "anon-"@) {
        "anon:"@ + user_id->Some_0
    } else {
        (match fingerprint {
            Some(f) => f,
            None => "unknown"@,
        }) + "|"@ + (match ip {
            Some(i) => i,
            None => "unknown"@,
        })
    }
}

/// The fingerprint-and-IP fallback key.
fn fallback_key(fingerprint: Option<&str>, ip_address: Option<&str>) -> (r: String)
    ensures
        r@ == (match opt_view(fingerprint) {
            Some(f) => f,
            None => "unknown"@,
        }) + "|"@ + (match opt_view(ip_address) {
            Some(i) => i,
            None => "unknown"@,
        }),
{
    let fp = match fingerprint {
        Some(f) => f,
        None => "unknown",
    };
    let ip = match ip_address {
        Some(i) => i,
        None => "unknown",
    };
    String::from_str(fp).concat("|").concat(ip)
}

/// Derive the tracking key for a guest from its identity signals.
pub fn get_guest_key(
    fingerprint: Option<&str>,
    ip_address: Option<&str>,
    user_id: Option<&str>,
) -> (r: String)
    ensures
        r@ == guest_key_spec(
            opt_view(fingerprint),
            opt_view(ip_address),
            opt_view(user_id),
        ),
{
    match user_id {
        Some(uid) => {
            if starts_with(uid, "anon-") {
                String::from_str("anon:").concat(uid)
            } else {
                fallback_key(fingerprint, ip_address)
            }
        },
        None => fallback_key(fingerprint, ip_address),
    }
}

/// Usage record of one guest: how many requests the current window has
/// admitted, and when the window ends.
#[derive(Debug, Clone, Copy, PartialEq, Eq, Structural)]
pub struct GuestUsage {
    /// Requests admitted in the current window.
    pub count: u32,
    /// Timestamp (ms since the epoch) at which the window ends.
    pub reset_at: u64,
}

/// One admission decision over the abstract usage map: the map after
/// the call, whether the request is admitted, the remaining quota, and
/// the applicable reset time.
pub open spec fn quota_step(
    m: Map<Seq<char>, GuestUsage>,
    key: Seq<char>,
    now: u64,
) -> (Map<Seq<char>, GuestUsage>, bool, u32, u64) {
    if m.contains_key(key) && now < m[key].reset_at {
        let e = m[key];
        if e.count >= MAX_GUEST_MESSAGES_PER_DAY {
            (m, false, 0u32, e.reset_at)
        } else {
            let c = (e.count + 1) as u32;
            (
                m.insert(key, GuestUsage { count: c, reset_at: e.reset_at }),
                true,
                (MAX_GUEST_MESSAGES_PER_DAY - c) as u32,
                e.reset_at,
            )
        }
    } else {
        let r = next_day_start_spec(now) as u64;
        (
            m.insert(key, GuestUsage { count: 1u32, reset_at: r }),
            true,
            (MAX_GUEST_MESSAGES_PER_DAY - 1) as u32,
            r,
        )
    }
}

/// What one admission call promises: the new map, the returned flags
/// and numbers, and the reason code all match `quota_step` for the key
/// derived from the identity signals.
pub open spec fn check_result_matches(
    m0: Map<Seq<char>, GuestUsage>,
    m1: Map<Seq<char>, GuestUsage>,
    fingerprint: Option<Seq<char>>,
    ip: Option<Seq<char>>,
    user_id: Option<Seq<char>>,
    now: u64,
    admitted: bool,
    remaining: u32,
    reset_at: u64,
    reason: Seq<char>,
) -> bool {
    let key = guest_key_spec(fingerprint, ip, user_id);
    let step = quota_step(m0, key, now);
    &&& m1 == step.0
    &&& admitted == step.1
    &&& remaining == step.2
    &&& reset_at == step.3
    &&& reason == if step.1 {
        "fallback_ok"@
    } else {
        "fallback_limit"@
    }
}

/// One stored guest record: the tracking key and its usage.
struct GuestEntry {
    key: String,
    usage: GuestUsage,
}

/// The guest-usage limiter: a list of per-key usage records with
/// pairwise distinct keys, abstracted as a map from keys to usage.
/// The application shares one limiter behind a lock; each admission
/// check is one atomic read-modify-write of this structure.
pub struct GuestQuotaLimiter {
    entries: Vec<GuestEntry>,
}

spec fn guest_entries_map(s: Seq<GuestEntry>) -> Map<Seq<char>, GuestUsage>
    decreases s.len(),
{
    if s.len() == 0 {
        Map::empty()
    } else {
        guest_entries_map(s.drop_last()).insert(s.last().key@, s.last().usage)
    }
}

spec fn guest_unique_keys(s: Seq<GuestEntry>) -> bool {
    forall|i: int, j: int| 0 <= i < j < s.len() ==> s[i].key@ != s[j].key@
}

impl View for GuestQuotaLimiter {
    type V = Map<Seq<char>, GuestUsage>;

    closed spec fn view(&self) -> Map<Seq<char>, GuestUsage> {
        guest_entries_map(self.entries@)
    }
}

proof fn lemma_guest_entries_get(s: Seq<GuestEntry>, i: int)
    requires
        guest_unique_keys(s),
        0 <= i < s.len(),
    ensures
        guest_entries_map(s).contains_key(s[i].key@),
        guest_entries_map(s)[s[i].key@] == s[i].usage,
    decreases s.len(),
{
    if i < s.len() - 1 {
        assert(guest_unique_keys(s.drop_last()));
        lemma_guest_entries_get(s.drop_last(), i);
        assert(s.last().key@ != s[i].key@);
    }
}

proof fn lemma_guest_entries_absent(s: Seq<GuestEntry>, k: Seq<char>)
    requires
        forall|i: int| 0 <= i < s.len() ==> s[i].key@ != k,
    ensures
        !guest_entries_map(s).contains_key(k),
    decreases s.len(),
{
    if s.len() > 0 {
        lemma_guest_entries_absent(s.drop_last(), k);
    }
}

proof fn lemma_guest_entries_update(s: Seq<GuestEntry>, i: int, e: GuestEntry)
    requires
        guest_unique_keys(s),
        0 <= i < s.len(),
        e.key@ == s[i].key@,
    ensures
        guest_entries_map(s.update(i, e)) == guest_entries_map(s).insert(
            e.key@,
            e.usage,
        ),
        guest_unique_keys(s.update(i, e)),
    decreases s.len(),
{
    let s2 = s.update(i, e);
    if i == s.len() - 1 {
        assert(s2.drop_last() =~= s.drop_last());
        assert(guest_entries_map(s2) =~= guest_entries_map(s).insert(
            e.key@,
            e.usage,
        ));
    } else {
        assert(guest_unique_keys(s.drop_last()));
        lemma_guest_entries_update(s.drop_last(), i, e);
        assert(s2.drop_last() =~= s.drop_last().update(i, e));
        assert(s.last().key@ != e.key@);
        assert(guest_entries_map(s2) =~= guest_entries_map(s).insert(
            e.key@,
            e.usage,
        ));
    }
}

impl GuestQuotaLimiter {
    /// The limiter's internal validity: stored keys are pairwise
    /// distinct.
    pub closed spec fn wf(&self) -> bool {
        guest_unique_keys(self.entries@)
    }

    /// A fresh limiter with no tracked guests.
    pub fn new() -> (r: Self)
        ensures
            r.wf(),
            r@ == Map::<Seq<char>, GuestUsage>::empty(),
    {
        let r = GuestQuotaLimiter { entries: Vec::new() };
        proof {
            assert(r@ =~= Map::<Seq<char>, GuestUsage>::empty());
        }
        r
    }

    /// Admission check at an explicit time: derive the guest key, then
    /// admit or reject against the quota, creating or rolling the
    /// window over as `quota_step` describes. Returns admission,
    /// remaining quota, the applicable reset time, and a reason code.
    pub fn check_guest_daily_limit_at(
        &mut self,
        fingerprint: Option<&str>,
        ip_address: Option<&str>,
        user_id: Option<&str>,
        now_ms: u64,
    ) -> (r: (bool, u32, u64, String))
        requires
            old(self).wf(),
            now_ms <= u64::MAX - MS_PER_DAY,
        ensures
            final(self).wf(),
            check_result_matches(
                old(self)@,
                final(self)@,
                opt_view(fingerprint),
                opt_view(ip_address),
                opt_view(user_id),
                now_ms,
                r.0,
                r.1,
                r.2,
                r.3@,
            ),
    {
        let key = get_guest_key(fingerprint, ip_address, user_id);
        let n = self.entries.len();
        let mut i: usize = 0;
        while i < n
            invariant
                i <= n,
                n == self.entries.len(),
                self == old(self),
                self.wf(),
                key@ == guest_key_spec(
                    opt_view(fingerprint),
                    opt_view(ip_address),
                    opt_view(user_id),
                ),
                now_ms <= u64::MAX - MS_PER_DAY,
                forall|j: int| 0 <= j < i ==> self.entries@[j].key@ != key@,
            decreases n - i,
        {
            if str_eq(self.entries[i].key.as_str(), key.as_str()) {
                let e_count = self.entries[i].usage.count;
                let e_reset = self.entries[i].usage.reset_at;
                proof {
                    lemma_guest_entries_get(self.entries@, i as int);
                }
                if now_ms >= e_reset {
                    let reset_at = start_of_next_day(now_ms);
                    let usage = GuestUsage { count: 1, reset_at };
                    proof {
                        lemma_guest_entries_update(
                            self.entries@,
                            i as int,
                            GuestEntry { key, usage },
                        );
                    }
                    self.entries.set(i, GuestEntry { key, usage });
                    return (
                        true,
                        MAX_GUEST_MESSAGES_PER_DAY - 1,
                        reset_at,
                        String::from_str("fallback_ok"),
                    );
                }
                if e_count >= MAX_GUEST_MESSAGES_PER_DAY {
                    return (false, 0, e_reset, String::from_str("fallback_limit"));
                }
                let usage = GuestUsage { count: e_count + 1, reset_at: e_reset };
                proof {
                    lemma_guest_entries_update(
                        self.entries@,
                        i as int,
                        GuestEntry { key, usage },
                    );
                }
                self.entries.set(i, GuestEntry { key, usage });
                return (
                    true,
                    MAX_GUEST_MESSAGES_PER_DAY - (e_count + 1),
                    e_reset,
                    String::from_str("fallback_ok"),
                );
            }
            i = i + 1;
        }
        proof {
            lemma_guest_entries_absent(self.entries@, key@);
        }
        let reset_at = start_of_next_day(now_ms);
        let usage = GuestUsage { count: 1, reset_at };
        proof {
            assert(self.entries@.push(GuestEntry { key, usage }).drop_last()
                =~= self.entries@);
        }
        self.entries.push(GuestEntry { key, usage });
        (
            true,
            MAX_GUEST_MESSAGES_PER_DAY - 1,
            reset_at,
            String::from_str("fallback_ok"),
        )
    }

    /// Admission check against the wall clock: reads the current time
    /// once and decides as `check_guest_daily_limit_at` does at that
    /// time. Whatever the clock returned, the decision matches
    /// `quota_step` at some admissible time.
    pub fn check_guest_daily_limit(
        &mut self,
        fingerprint: Option<&str>,
        ip_address: Option<&str>,
        user_id: Option<&str>,
    ) -> (r: (bool, u32, u64, String))
        requires
            old(self).wf(),
        ensures
            final(self).wf(),
            exists|now: u64|
                now <= u64::MAX - MS_PER_DAY && check_result_matches(
                    old(self)@,
                    final(self)@,
                    opt_view(fingerprint),
                    opt_view(ip_address),
                    opt_view(user_id),
                    now,
                    r.0,
                    r.1,
                    r.2,
                    r.3@,
                ),
    {
        let clock = now_millis();
        // A reading this large (about year 584 million) cannot feed the
        // day arithmetic; clamp it to the largest admissible time.
        let now = if clock <= u64::MAX - MS_PER_DAY {
            clock
        } else {
            u64::MAX - MS_PER_DAY
        };
        let r = self.check_guest_daily_limit_at(fingerprint, ip_address, user_id, now);
        r
    }
}

/// Relies on std::time::SystemTime::now: the current wall-clock time,
/// read as whole milliseconds since the Unix epoch (0 when the clock
/// reads before the epoch).
#[verifier::external_body]
fn now_millis() -> u64 {
    match std::time::SystemTime::now().duration_since(std::time::UNIX_EPOCH) {
        Ok(d) => d.as_millis() as u64,
        Err(_) => 0,
    }
}

/// Every tracked count lies between 1 and the daily quota.
pub open spec fn counts_in_range(m: Map<Seq<char>, GuestUsage>) -> bool {
    forall|k: Seq<char>|
        m.contains_key(k) ==> 1 <= (#[trigger] m[k]).count
            <= MAX_GUEST_MESSAGES_PER_DAY
}

/// An admission check keeps every tracked count between 1 and the
/// daily quota.
pub proof fn lemma_quota_step_preserves_counts(
    m: Map<Seq<char>, GuestUsage>,
    key: Seq<char>,
    now: u64,
)
    requires
        counts_in_range(m),
    ensures
        counts_in_range(quota_step(m, key, now).0),
{
}

/// An admission check for one key leaves every other key's record
/// untouched.
pub proof fn lemma_quota_step_frame(
    m: Map<Seq<char>, GuestUsage>,
    key: Seq<char>,
    now: u64,
    other: Seq<char>,
)
    requires
        other != key,
    ensures
        quota_step(m, key, now).0.contains_key(other) == m.contains_key(other),
        m.contains_key(other) ==> quota_step(m, key, now).0[other] == m[other],
{
}

/// The usage map and admission count after a sequence of checks for
/// one key, at the given times.
pub open spec fn quota_run(
    m: Map<Seq<char>, GuestUsage>,
    key: Seq<char>,
    nows: Seq<u64>,
) -> (Map<Seq<char>, GuestUsage>, nat)
    decreases nows.len(),
{
    if nows.len() == 0 {
        (m, 0)
    } else {
        let step = quota_step(m, key, nows[0]);
        let rest = quota_run(step.0, key, nows.drop_first());
        (rest.0, (if step.1 { 1nat } else { 0nat }) + rest.1)
    }
}

/// Within an open window ending at `b`, a key whose count stands at
/// `c` admits exactly `MAX - c` further requests, however many are
/// made.
proof fn lemma_quota_run_in_window(
    m: Map<Seq<char>, GuestUsage>,
    key: Seq<char>,
    nows: Seq<u64>,
    b: u64,
)
    requires
        m.contains_key(key),
        m[key].reset_at == b,
        forall|j: int| 0 <= j < nows.len() ==> nows[j] < b,
    ensures
        quota_run(m, key, nows).1 == if nows.len()
            <= MAX_GUEST_MESSAGES_PER_DAY - m[key].count {
            nows.len() as int
        } else {
            if m[key].count <= MAX_GUEST_MESSAGES_PER_DAY {
                MAX_GUEST_MESSAGES_PER_DAY - m[key].count
            } else {
                0
            }
        },
    decreases nows.len(),
{
    if nows.len() > 0 {
        let step = quota_step(m, key, nows[0]);
        lemma_quota_run_in_window(step.0, key, nows.drop_first(), b);
    }
}

/// Serialized admission is exact: starting from a key the limiter does
/// not track, a sequence of checks all falling before the first call's
/// day boundary admits exactly `MAX` requests when there are that many,
/// and all of them when there are fewer — however the calls interleave
/// with other keys' (which, by `lemma_quota_step_frame`, do not touch
/// this one).
pub proof fn lemma_quota_admits_exactly_max(
    m: Map<Seq<char>, GuestUsage>,
    key: Seq<char>,
    nows: Seq<u64>,
)
    requires
        !m.contains_key(key),
        nows.len() > 0,
        nows[0] <= u64::MAX - MS_PER_DAY,
        forall|j: int|
            1 <= j < nows.len() ==> (#[trigger] nows[j] as int) < next_day_start_spec(
                nows[0],
            ),
    ensures
        quota_run(m, key, nows).1 == if nows.len() <= MAX_GUEST_MESSAGES_PER_DAY {
            nows.len() as int
        } else {
            MAX_GUEST_MESSAGES_PER_DAY as int
        },
{
    lemma_next_day_start(nows[0]);
    let step = quota_step(m, key, nows[0]);
    let b = next_day_start_spec(nows[0]) as u64;
    assert(step.0[key].count == 1);
    lemma_quota_run_in_window(step.0, key, nows.drop_first(), b);
}

/// Once `now` reaches a tracked key's reset time, the next check
/// admits again with a full fresh window: remaining quota `MAX - 1`
/// and a new, strictly later reset time.
pub proof fn lemma_day_boundary_reset_admits(
    m: Map<Seq<char>, GuestUsage>,
    key: Seq<char>,
    now: u64,
)
    requires
        m.contains_key(key),
        m[key].reset_at <= now,
        now <= u64::MAX - MS_PER_DAY,
    ensures
        quota_step(m, key, now).1 == true,
        quota_step(m, key, now).2 == MAX_GUEST_MESSAGES_PER_DAY - 1,
        quota_step(m, key, now).3 == next_day_start_spec(now),
        now < quota_step(m, key, now).3,
        m[key].reset_at < quota_step(m, key, now).3,
{
    lemma_next_day_start(now);
}

/// An anonymous-session id of the `anon-` form decides the key alone:
/// whatever fingerprint and IP accompany it, the key is `anon:` plus
/// the id, so all such calls share one bucket.
pub proof fn lemma_guest_key_anon_priority(
    fp1: Option<Seq<char>>,
    ip1: Option<Seq<char>>,
    fp2: Option<Seq<char>>,
    ip2: Option<Seq<char>>,
    uid: Seq<char>,
)
    requires
        starts_with_spec(uid, "anon-"@),
    ensures
        guest_key_spec(fp1, ip1, Some(uid)) == "anon:"@ + uid,
        guest_key_spec(fp1, ip1, Some(uid)) == guest_key_spec(fp2, ip2, Some(uid)),
{
}

/// Callers with no identity signal at all share one deliberate
/// fallback bucket, keyed `unknown|unknown`.
pub proof fn lemma_fallback_key_collision()
    ensures
        guest_key_spec(None, None, None) == "unknown|unknown"@,
{
    reveal_strlit("unknown");
    reveal_strlit("|");
    reveal_strlit("unknown|unknown");
    assert(("unknown"@ + "|"@ + "unknown"@) =~= "unknown|unknown"@);
}

} // verus!

