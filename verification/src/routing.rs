//! Provider routing: build a lookup table from a configuration string,
//! and resolve `(operation, tier)` pairs to provider/model targets.
//!
//! The configuration is a comma-separated list of entries of the form
//! `<operation>.<tier>=<provider>:<model>`, with arbitrary whitespace
//! around every token. Malformed entries are silently dropped; when the
//! same key appears twice, the later entry wins.

use vstd::prelude::*;
use vstd::string::*;
use vstd::pervasive::VecAdditionalExecFns;

use crate::strutil::eq_ignore_ascii_case;
use crate::strutil::eq_ignore_case_spec;
use crate::strutil::find_in;
use crate::strutil::index_of_first;
use crate::strutil::lemma_index_of_first;
use crate::strutil::str_eq;
use crate::strutil::trim_in;
use crate::strutil::trim_spec;
use crate::types::Provider;
use crate::types::RouteTarget;

verus! {

broadcast use lemma_index_of_first;

/// Mathematical value of one routing target: the provider, and the
/// model name as a character sequence.
pub type RouteTargetView = (Provider, Seq<char>);

/// The composite lookup key for an operation and a tier.
pub open spec fn key_of(op: Seq<char>, tier: Seq<char>) -> Seq<char> {
    op + "."@ + tier
}

/// The provider named by `s`, matched case-insensitively against the
/// known aliases; unrecognized strings map to the default, OpenAI.
pub open spec fn normalize_provider_spec(s: Seq<char>) -> Provider {
    if eq_ignore_case_spec(s, "cf"@) || eq_ignore_case_spec(s, "cloudflare"@) {
        Provider::Cloudflare
    } else if eq_ignore_case_spec(s, "mistral"@) {
        Provider::Mistral
    } else if eq_ignore_case_spec(s, "openai"@) {
        Provider::OpenAI
    } else if eq_ignore_case_spec(s, "xai"@) {
        Provider::Xai
    } else if eq_ignore_case_spec(s, "groq"@) {
        Provider::Groq
    } else if eq_ignore_case_spec(s, "openrouter"@) {
        Provider::OpenRouter
    } else if eq_ignore_case_spec(s, "meta"@) {
        Provider::Meta
    } else if eq_ignore_case_spec(s, "anthropic"@) {
        Provider::Anthropic
    } else {
        Provider::OpenAI
    }
}

/// The operation and tier of an entry's left-hand side: exactly one
/// `.`, and a non-empty trimmed part on each side of it.
pub open spec fn parse_lhs(lhs: Seq<char>) -> Option<(Seq<char>, Seq<char>)> {
    match index_of_first(lhs, '.') {
        None => None,
        Some(j) => {
            if index_of_first(lhs.subrange(j + 1, lhs.len() as int), '.') is Some {
                None
            } else {
                let op = trim_spec(lhs.subrange(0, j));
                let tier = trim_spec(lhs.subrange(j + 1, lhs.len() as int));
                if op.len() == 0 || tier.len() == 0 {
                    None
                } else {
                    Some((op, tier))
                }
            }
        },
    }
}

/// The target of an entry's right-hand side: exactly one `:`, with the
/// provider string before it and the model name after it, both trimmed.
pub open spec fn parse_rhs(rhs: Seq<char>) -> Option<RouteTargetView> {
    match index_of_first(rhs, ':') {
        None => None,
        Some(k) => {
            if index_of_first(rhs.subrange(k + 1, rhs.len() as int), ':') is Some {
                None
            } else {
                Some(
                    (
                        normalize_provider_spec(trim_spec(rhs.subrange(0, k))),
                        trim_spec(rhs.subrange(k + 1, rhs.len() as int)),
                    ),
                )
            }
        },
    }
}

/// The key and target of one comma-separated entry, or `None` when the
/// entry is malformed and must be dropped.
pub open spec fn parse_segment(seg: Seq<char>) -> Option<(Seq<char>, RouteTargetView)> {
    let t = trim_spec(seg);
    match index_of_first(t, '=') {
        None => None,
        Some(i) => {
            let lhs = trim_spec(t.subrange(0, i));
            let rhs = trim_spec(t.subrange(i + 1, t.len() as int));
            match (parse_lhs(lhs), parse_rhs(rhs)) {
                (Some((op, tier)), Some(tv)) => Some((key_of(op, tier), tv)),
                _ => None,
            }
        },
    }
}

/// The zero- or one-entry table contributed by one segment.
pub open spec fn seg_entry(seg: Seq<char>) -> Map<Seq<char>, RouteTargetView> {
    match parse_segment(seg) {
        None => Map::empty(),
        Some((k, v)) => Map::empty().insert(k, v),
    }
}

/// The table built from a whole configuration string: each segment's
/// entry, with entries further right taking precedence.
pub open spec fn routes_spec(s: Seq<char>) -> Map<Seq<char>, RouteTargetView>
    decreases s.len(),
{
    match index_of_first(s, ',') {
        None => seg_entry(s),
        Some(i) => seg_entry(s.subrange(0, i)).union_prefer_right(
            routes_spec(s.subrange(i + 1, s.len() as int)),
        ),
    }
}

/// What a lookup of `(op, tier)` in table `m` returns.
pub open spec fn resolve_spec(
    m: Map<Seq<char>, RouteTargetView>,
    op: Seq<char>,
    tier: Seq<char>,
) -> Option<RouteTargetView> {
    if m.contains_key(key_of(op, tier)) {
        Some(m[key_of(op, tier)])
    } else {
        None
    }
}

/// One stored routing entry: the composite key and its target.
struct RouteEntry {
    key: String,
    target: RouteTarget,
}

/// The routing table: a list of entries with pairwise distinct keys,
/// abstracted as a map from keys to targets.
pub struct RoutingMap {
    entries: Vec<RouteEntry>,
}

spec fn entries_map(s: Seq<RouteEntry>) -> Map<Seq<char>, RouteTargetView>
    decreases s.len(),
{
    if s.len() == 0 {
        Map::empty()
    } else {
        entries_map(s.drop_last()).insert(s.last().key@, s.last().target@)
    }
}

spec fn unique_keys(s: Seq<RouteEntry>) -> bool {
    forall|i: int, j: int| 0 <= i < j < s.len() ==> s[i].key@ != s[j].key@
}

impl View for RoutingMap {
    type V = Map<Seq<char>, RouteTargetView>;

    closed spec fn view(&self) -> Map<Seq<char>, RouteTargetView> {
        entries_map(self.entries@)
    }
}

proof fn lemma_entries_map_get(s: Seq<RouteEntry>, i: int)
    requires
        unique_keys(s),
        0 <= i < s.len(),
    ensures
        entries_map(s).contains_key(s[i].key@),
        entries_map(s)[s[i].key@] == s[i].target@,
    decreases s.len(),
{
    if i < s.len() - 1 {
        assert(unique_keys(s.drop_last()));
        lemma_entries_map_get(s.drop_last(), i);
        assert(s.last().key@ != s[i].key@);
    }
}

proof fn lemma_entries_map_absent(s: Seq<RouteEntry>, k: Seq<char>)
    requires
        forall|i: int| 0 <= i < s.len() ==> s[i].key@ != k,
    ensures
        !entries_map(s).contains_key(k),
    decreases s.len(),
{
    if s.len() > 0 {
        lemma_entries_map_absent(s.drop_last(), k);
    }
}

proof fn lemma_entries_map_update(s: Seq<RouteEntry>, i: int, e: RouteEntry)
    requires
        unique_keys(s),
        0 <= i < s.len(),
        e.key@ == s[i].key@,
    ensures
        entries_map(s.update(i, e)) == entries_map(s).insert(e.key@, e.target@),
        unique_keys(s.update(i, e)),
    decreases s.len(),
{
    let s2 = s.update(i, e);
    if i == s.len() - 1 {
        assert(s2.drop_last() =~= s.drop_last());
        assert(entries_map(s2) =~= entries_map(s).insert(e.key@, e.target@));
    } else {
        assert(unique_keys(s.drop_last()));
        lemma_entries_map_update(s.drop_last(), i, e);
        assert(s2.drop_last() =~= s.drop_last().update(i, e));
        assert(s.last().key@ != e.key@);
        assert(entries_map(s2) =~= entries_map(s).insert(e.key@, e.target@));
    }
}

proof fn lemma_entries_map_len(s: Seq<RouteEntry>)
    requires
        unique_keys(s),
    ensures
        entries_map(s).dom().finite(),
        entries_map(s).dom().len() == s.len(),
    decreases s.len(),
{
    if s.len() > 0 {
        assert(unique_keys(s.drop_last()));
        lemma_entries_map_len(s.drop_last());
        lemma_entries_map_absent(s.drop_last(), s.last().key@);
        assert(entries_map(s).dom() =~= entries_map(s.drop_last()).dom().insert(
            s.last().key@,
        ));
    }
}

impl RoutingMap {
    /// The table's internal validity: stored keys are pairwise distinct.
    pub closed spec fn wf(&self) -> bool {
        unique_keys(self.entries@)
    }

    /// An empty routing table.
    pub fn new() -> (r: Self)
        ensures
            r.wf(),
            r@ == Map::<Seq<char>, RouteTargetView>::empty(),
    {
        let r = RoutingMap { entries: Vec::new() };
        proof {
            assert(r@ =~= Map::<Seq<char>, RouteTargetView>::empty());
        }
        r
    }

    /// Insert a target under a key, overwriting any earlier entry for
    /// the same key.
    pub fn insert(&mut self, key: String, target: RouteTarget)
        requires
            old(self).wf(),
        ensures
            final(self).wf(),
            final(self)@ == old(self)@.insert(key@, target@),
    {
        let n = self.entries.len();
        let mut i: usize = 0;
        while i < n
            invariant
                i <= n,
                n == self.entries.len(),
                self == old(self),
                self.wf(),
                forall|j: int| 0 <= j < i ==> self.entries@[j].key@ != key@,
            decreases n - i,
        {
            if str_eq(self.entries[i].key.as_str(), key.as_str()) {
                proof {
                    lemma_entries_map_update(
                        self.entries@,
                        i as int,
                        RouteEntry { key, target },
                    );
                }
                self.entries.set(i, RouteEntry { key, target });
                return;
            }
            i = i + 1;
        }
        proof {
            lemma_entries_map_absent(self.entries@, key@);
            assert(self.entries@.push(RouteEntry { key, target }).drop_last()
                =~= self.entries@);
        }
        self.entries.push(RouteEntry { key, target });
    }

    /// Look a key up.
    pub fn get(&self, key: &str) -> (r: Option<&RouteTarget>)
        requires
            self.wf(),
        ensures
            match r {
                Some(t) => self@.contains_key(key@) && t@ == self@[key@],
                None => !self@.contains_key(key@),
            },
    {
        let n = self.entries.len();
        let mut i: usize = 0;
        while i < n
            invariant
                i <= n,
                n == self.entries.len(),
                self.wf(),
                forall|j: int| 0 <= j < i ==> self.entries@[j].key@ != key@,
            decreases n - i,
        {
            let e = &self.entries[i];
            if str_eq(e.key.as_str(), key) {
                proof {
                    lemma_entries_map_get(self.entries@, i as int);
                }
                return Some(&e.target);
            }
            i = i + 1;
        }
        proof {
            lemma_entries_map_absent(self.entries@, key@);
        }
        None
    }

    /// Whether the table holds an entry for a key.
    pub fn contains_key(&self, key: &str) -> (r: bool)
        requires
            self.wf(),
        ensures
            r == self@.contains_key(key@),
    {
        self.get(key).is_some()
    }

    /// The number of entries in the table.
    pub fn len(&self) -> (r: usize)
        requires
            self.wf(),
        ensures
            r == self@.dom().len(),
    {
        proof {
            lemma_entries_map_len(self.entries@);
        }
        self.entries.len()
    }
}

/// Map a provider string to the provider it names, defaulting to OpenAI.
pub fn normalize_provider(provider_str: &str) -> (r: Provider)
    ensures
        r == normalize_provider_spec(provider_str@),
{
    if eq_ignore_ascii_case(provider_str, "cf") || eq_ignore_ascii_case(
        provider_str,
        "cloudflare",
    ) {
        Provider::Cloudflare
    } else if eq_ignore_ascii_case(provider_str, "mistral") {
        Provider::Mistral
    } else if eq_ignore_ascii_case(provider_str, "openai") {
        Provider::OpenAI
    } else if eq_ignore_ascii_case(provider_str, "xai") {
        Provider::Xai
    } else if eq_ignore_ascii_case(provider_str, "groq") {
        Provider::Groq
    } else if eq_ignore_ascii_case(provider_str, "openrouter") {
        Provider::OpenRouter
    } else if eq_ignore_ascii_case(provider_str, "meta") {
        Provider::Meta
    } else if eq_ignore_ascii_case(provider_str, "anthropic") {
        Provider::Anthropic
    } else {
        Provider::OpenAI
    }
}

/// Parse the left-hand side of an entry, `s[lo..hi)`, into its composite
/// key, or `None` when it is malformed.
fn parse_lhs_in(s: &str, lo: usize, hi: usize) -> (r: Option<String>)
    requires
        lo <= hi <= s@.len(),
    ensures
        match r {
            Some(key) => {
                &&& parse_lhs(s@.subrange(lo as int, hi as int)) is Some
                &&& key@ == key_of(
                    parse_lhs(s@.subrange(lo as int, hi as int))->Some_0.0,
                    parse_lhs(s@.subrange(lo as int, hi as int))->Some_0.1,
                )
            },
            None => parse_lhs(s@.subrange(lo as int, hi as int)) is None,
        },
{
    let ghost lhs = s@.subrange(lo as int, hi as int);
    let dot_opt = find_in(s, lo, hi, '.');
    if dot_opt.is_none() {
        proof {
            assert forall|k: int| 0 <= k < lhs.len() implies lhs[k] != '.' by {
                assert(lhs[k] == s@[lo + k]);
            }
            assert(index_of_first(lhs, '.') is None);
        }
        return None;
    }
    let j = dot_opt.unwrap();
    proof {
        assert(lhs[j - lo as int] == '.');
        assert forall|k: int| 0 <= k < j - lo as int implies lhs[k] != '.' by {
            assert(lhs[k] == s@[lo + k]);
        }
        assert(index_of_first(lhs, '.') == Some(j - lo as int));
    }
    let ghost tail = lhs.subrange(j - lo as int + 1, lhs.len() as int);
    let dot2 = find_in(s, j + 1, hi, '.');
    if dot2.is_some() {
        proof {
            let j2 = dot2->Some_0 as int;
            assert(tail[j2 - j - 1] == s@[j2]);
            assert(index_of_first(tail, '.') is Some);
        }
        return None;
    }
    proof {
        assert forall|k: int| 0 <= k < tail.len() implies tail[k] != '.' by {
            assert(tail[k] == s@[j + 1 + k]);
        }
        assert(index_of_first(tail, '.') is None);
    }
    let (oa, ob) = trim_in(s, lo, j);
    let (ta, tb) = trim_in(s, j + 1, hi);
    proof {
        assert(lhs.subrange(0, j - lo as int) =~= s@.subrange(lo as int, j as int));
        assert(tail =~= s@.subrange(j as int + 1, hi as int));
    }
    if ob == oa || tb == ta {
        return None;
    }
    let key = String::from_str(s.substring_char(oa, ob)).concat(".").concat(
        s.substring_char(ta, tb),
    );
    proof {
        assert(key@ == s@.subrange(oa as int, ob as int) + "."@ + s@.subrange(
            ta as int,
            tb as int,
        ));
    }
    Some(key)
}

/// Parse the right-hand side of an entry, `s[lo..hi)`, into its target,
/// or `None` when it is malformed.
fn parse_rhs_in(s: &str, lo: usize, hi: usize) -> (r: Option<RouteTarget>)
    requires
        lo <= hi <= s@.len(),
    ensures
        match r {
            Some(t) => parse_rhs(s@.subrange(lo as int, hi as int)) == Some(t@),
            None => parse_rhs(s@.subrange(lo as int, hi as int)) is None,
        },
{
    let ghost rhs = s@.subrange(lo as int, hi as int);
    let colon_opt = find_in(s, lo, hi, ':');
    if colon_opt.is_none() {
        proof {
            assert forall|k: int| 0 <= k < rhs.len() implies rhs[k] != ':' by {
                assert(rhs[k] == s@[lo + k]);
            }
            assert(index_of_first(rhs, ':') is None);
        }
        return None;
    }
    let kpos = colon_opt.unwrap();
    proof {
        assert(rhs[kpos - lo as int] == ':');
        assert forall|k: int| 0 <= k < kpos - lo as int implies rhs[k] != ':' by {
            assert(rhs[k] == s@[lo + k]);
        }
        assert(index_of_first(rhs, ':') == Some(kpos - lo as int));
    }
    let ghost tail = rhs.subrange(kpos - lo as int + 1, rhs.len() as int);
    let colon2 = find_in(s, kpos + 1, hi, ':');
    if colon2.is_some() {
        proof {
            let k2 = colon2->Some_0 as int;
            assert(tail[k2 - kpos - 1] == s@[k2]);
            assert(index_of_first(tail, ':') is Some);
        }
        return None;
    }
    proof {
        assert forall|k: int| 0 <= k < tail.len() implies tail[k] != ':' by {
            assert(tail[k] == s@[kpos + 1 + k]);
        }
        assert(index_of_first(tail, ':') is None);
    }
    let (pa, pb) = trim_in(s, lo, kpos);
    let (ma, mb) = trim_in(s, kpos + 1, hi);
    proof {
        assert(rhs.subrange(0, kpos - lo as int) =~= s@.subrange(
            lo as int,
            kpos as int,
        ));
        assert(tail =~= s@.subrange(kpos as int + 1, hi as int));
    }
    let provider = normalize_provider(s.substring_char(pa, pb));
    let model = String::from_str(s.substring_char(ma, mb));
    Some(RouteTarget { provider, model })
}

/// Parse one comma-separated entry, `s[lo..hi)`, into its key and
/// target, or `None` when the entry is malformed and must be dropped.
fn parse_segment_in(s: &str, lo: usize, hi: usize) -> (r: Option<(String, RouteTarget)>)
    requires
        lo <= hi <= s@.len(),
    ensures
        match r {
            Some(p) => parse_segment(s@.subrange(lo as int, hi as int)) == Some(
                (p.0@, p.1@),
            ),
            None => parse_segment(s@.subrange(lo as int, hi as int)) is None,
        },
{
    let ghost seg = s@.subrange(lo as int, hi as int);
    let (a, b) = trim_in(s, lo, hi);
    let ghost t = trim_spec(seg);
    proof {
        assert(t == s@.subrange(a as int, b as int));
    }
    let eq_opt = find_in(s, a, b, '=');
    if eq_opt.is_none() {
        proof {
            assert forall|k: int| 0 <= k < t.len() implies t[k] != '=' by {
                assert(t[k] == s@[a + k]);
            }
            assert(index_of_first(t, '=') is None);
        }
        return None;
    }
    let i = eq_opt.unwrap();
    proof {
        assert(t[i - a as int] == '=');
        assert forall|k: int| 0 <= k < i - a as int implies t[k] != '=' by {
            assert(t[k] == s@[a + k]);
        }
        assert(index_of_first(t, '=') == Some(i - a as int));
        assert(t.subrange(0, i - a as int) =~= s@.subrange(a as int, i as int));
        assert(t.subrange(i - a as int + 1, t.len() as int) =~= s@.subrange(
            i as int + 1,
            b as int,
        ));
    }
    let (la, lb) = trim_in(s, a, i);
    let (ra, rb) = trim_in(s, i + 1, b);
    let key_opt = parse_lhs_in(s, la, lb);
    proof {
        assert(s@.subrange(la as int, lb as int) == trim_spec(
            t.subrange(0, i - a as int),
        ));
        assert(s@.subrange(ra as int, rb as int) == trim_spec(
            t.subrange(i - a as int + 1, t.len() as int),
        ));
    }
    let key = match key_opt {
        Some(key) => key,
        None => {
            return None;
        },
    };
    let target_opt = parse_rhs_in(s, ra, rb);
    let target = match target_opt {
        Some(target) => target,
        None => {
            return None;
        },
    };
    Some((key, target))
}

/// Build a routing table from a configuration string. Every well-formed
/// `op.tier=provider:model` entry is stored; malformed entries are
/// dropped; for entries that share a key the last one wins.
pub fn build_routing(routes_raw: &str) -> (map: RoutingMap)
    ensures
        map.wf(),
        map@ == routes_spec(routes_raw@),
{
    let mut map = RoutingMap::new();
    let n = routes_raw.unicode_len();
    let mut pos: usize = 0;
    proof {
        assert(routes_raw@.subrange(0, n as int) =~= routes_raw@);
        assert(Map::<Seq<char>, RouteTargetView>::empty().union_prefer_right(
            routes_spec(routes_raw@),
        ) =~= routes_spec(routes_raw@));
    }
    loop
        invariant
            pos <= n,
            n == routes_raw@.len(),
            map.wf(),
            routes_spec(routes_raw@) =~= map@.union_prefer_right(
                routes_spec(routes_raw@.subrange(pos as int, n as int)),
            ),
        decreases n - pos,
    {
        let ghost remaining = routes_raw@.subrange(pos as int, n as int);
        let ghost map_before = map@;
        let (hi, next, done) = match find_in(routes_raw, pos, n, ',') {
            Some(i) => (i, i + 1, false),
            None => (n, n, true),
        };
        let ghost seg = routes_raw@.subrange(pos as int, hi as int);
        proof {
            if !done {
                assert(remaining[hi - pos as int] == ',');
                assert forall|k: int| 0 <= k < hi - pos as int implies remaining[k]
                    != ',' by {
                    assert(remaining[k] == routes_raw@[pos + k]);
                }
                assert(index_of_first(remaining, ',') == Some(hi - pos as int));
                assert(remaining.subrange(0, hi - pos as int) =~= seg);
                assert(remaining.subrange(
                    hi - pos as int + 1,
                    remaining.len() as int,
                ) =~= routes_raw@.subrange(next as int, n as int));
            } else {
                assert forall|k: int| 0 <= k < remaining.len() implies remaining[k]
                    != ',' by {
                    assert(remaining[k] == routes_raw@[pos + k]);
                }
                assert(index_of_first(remaining, ',') is None);
                assert(remaining =~= seg);
            }
        }
        match parse_segment_in(routes_raw, pos, hi) {
            Some((key, target)) => {
                map.insert(key, target);
                proof {
                    assert(map@ =~= map_before.union_prefer_right(seg_entry(seg)));
                }
            },
            None => {
                proof {
                    assert(map@ =~= map_before.union_prefer_right(seg_entry(seg)));
                }
            },
        }
        if done {
            proof {
                assert(routes_spec(remaining) == seg_entry(seg));
                assert(routes_spec(routes_raw@) =~= map@);
            }
            return map;
        }
        proof {
            assert(routes_spec(remaining) == seg_entry(seg).union_prefer_right(
                routes_spec(routes_raw@.subrange(next as int, n as int)),
            ));
            assert(routes_spec(routes_raw@) =~= map@.union_prefer_right(
                routes_spec(routes_raw@.subrange(next as int, n as int)),
            ));
        }
        pos = next;
    }
}

/// Look the target for `(op, tier)` up in a built table. Absence is not
/// an error: callers decide their own fallback.
pub fn resolve_route<'a>(map: &'a RoutingMap, op: &str, tier: &str) -> (r: Option<
    &'a RouteTarget,
>)
    requires
        map.wf(),
    ensures
        match r {
            Some(t) => resolve_spec(map@, op@, tier@) == Some(t@),
            None => resolve_spec(map@, op@, tier@) is None,
        },
{
    let key = String::from_str(op).concat(".").concat(tier);
    map.get(key.as_str())
}

/// Equality up to ASCII case carries over to further case-insensitive
/// comparisons: `a` and `b` match the same strings.
proof fn lemma_eqic_same_matches(a: Seq<char>, b: Seq<char>, l: Seq<char>)
    requires
        eq_ignore_case_spec(a, b),
    ensures
        eq_ignore_case_spec(a, l) == eq_ignore_case_spec(b, l),
{
    if eq_ignore_case_spec(a, l) {
        assert forall|i: int| 0 <= i < b.len() implies
            crate::strutil::lower_code(b[i]) == crate::strutil::lower_code(l[i]) by {
            assert(crate::strutil::lower_code(a[i]) == crate::strutil::lower_code(
                b[i],
            ));
            assert(crate::strutil::lower_code(a[i]) == crate::strutil::lower_code(
                l[i],
            ));
        }
    }
    if eq_ignore_case_spec(b, l) {
        assert forall|i: int| 0 <= i < a.len() implies
            crate::strutil::lower_code(a[i]) == crate::strutil::lower_code(l[i]) by {
            assert(crate::strutil::lower_code(a[i]) == crate::strutil::lower_code(
                b[i],
            ));
            assert(crate::strutil::lower_code(b[i]) == crate::strutil::lower_code(
                l[i],
            ));
        }
    }
}

/// Provider normalization is case-insensitive: two provider strings
/// that differ only in ASCII case name the same provider.
pub proof fn lemma_normalize_provider_case_insensitive(a: Seq<char>, b: Seq<char>)
    requires
        eq_ignore_case_spec(a, b),
    ensures
        normalize_provider_spec(a) == normalize_provider_spec(b),
{
    lemma_eqic_same_matches(a, b, "cf"@);
    lemma_eqic_same_matches(a, b, "cloudflare"@);
    lemma_eqic_same_matches(a, b, "mistral"@);
    lemma_eqic_same_matches(a, b, "openai"@);
    lemma_eqic_same_matches(a, b, "xai"@);
    lemma_eqic_same_matches(a, b, "groq"@);
    lemma_eqic_same_matches(a, b, "openrouter"@);
    lemma_eqic_same_matches(a, b, "meta"@);
    lemma_eqic_same_matches(a, b, "anthropic"@);
}

/// Building from two configuration strings joined by a comma is building
/// from the first and letting the second's entries win: within one key,
/// the last occurrence takes precedence.
pub proof fn lemma_routes_append(s1: Seq<char>, s2: Seq<char>)
    ensures
        routes_spec(s1 + ","@ + s2) == routes_spec(s1).union_prefer_right(
            routes_spec(s2),
        ),
    decreases s1.len(),
{
    reveal_strlit(",");
    let s = s1 + ","@ + s2;
    match index_of_first(s1, ',') {
        None => {
            assert(s[s1.len() as int] == ',');
            assert forall|k: int| 0 <= k < s1.len() implies s[k] != ',' by {
                assert(s[k] == s1[k]);
            }
            assert(index_of_first(s, ',') == Some(s1.len() as int));
            assert(s.subrange(0, s1.len() as int) =~= s1);
            assert(s.subrange(s1.len() as int + 1, s.len() as int) =~= s2);
            assert(routes_spec(s) == seg_entry(s1).union_prefer_right(
                routes_spec(s2),
            ));
            assert(routes_spec(s1) == seg_entry(s1));
        },
        Some(i) => {
            assert(s[i] == s1[i]);
            assert forall|k: int| 0 <= k < i implies s[k] != ',' by {
                assert(s[k] == s1[k]);
            }
            assert(index_of_first(s, ',') == Some(i));
            assert(s.subrange(0, i) =~= s1.subrange(0, i));
            let rest1 = s1.subrange(i + 1, s1.len() as int);
            assert(s.subrange(i + 1, s.len() as int) =~= rest1 + ","@ + s2);
            lemma_routes_append(rest1, s2);
            assert(seg_entry(s1.subrange(0, i)).union_prefer_right(
                routes_spec(rest1).union_prefer_right(routes_spec(s2)),
            ) =~= seg_entry(s1.subrange(0, i)).union_prefer_right(
                routes_spec(rest1),
            ).union_prefer_right(routes_spec(s2)));
        },
    }
}

/// Resolution is a pure function of the table contents: equal tables and
/// equal arguments resolve equally, and a key the table does not hold
/// resolves to nothing.
pub proof fn lemma_resolve_pure(
    m1: Map<Seq<char>, RouteTargetView>,
    m2: Map<Seq<char>, RouteTargetView>,
    op: Seq<char>,
    tier: Seq<char>,
)
    requires
        m1 == m2,
    ensures
        resolve_spec(m1, op, tier) == resolve_spec(m2, op, tier),
        !m1.contains_key(key_of(op, tier)) ==> resolve_spec(m1, op, tier) is None,
{
}

} // verus!
