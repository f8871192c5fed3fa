//! The decisions a scan command takes for each fetched contract: its cache
//! key, whether it is skipped (already seen content, too large, a honeypot)
//! and which of its findings are kept. Fetching, hashing, timing and
//! printing are done by the caller.
use vstd::prelude::*;
use crate::text::{owned, push_str, sbytes, strs};
use crate::types::{Chain, Match, MatchView, Severity, severity_rank, chain_name, match_views, copy_match};
use crate::honeypot_filter::{HoneypotFilter, honeypot_hits};
use crate::runtime_env::dedupe;
use crate::dependency_analyzer::find_key;

verus! {

/// The cache key of a contract: its chain's name, a colon and its address.
pub fn cache_key(chain: Chain, address: &str) -> (r: String)
    ensures
        r@ == chain_name(chain) + ":"@ + address@,
{
    let mut k = owned(chain.as_str());
    push_str(&mut k, ":");
    push_str(&mut k, address);
    k
}

/// Sources above 5120 KiB are not scanned.
pub const MAX_SOURCE_BYTES: usize = 5120 * 1024;

/// The content hashes seen so far, each once.
pub struct SeenContent {
    hashes: Vec<u64>,
}

impl SeenContent {
    /// The hashes seen so far.
    pub closed spec fn seen(&self) -> Set<u64> {
        self.hashes@.to_set()
    }

    /// Nothing seen yet.
    pub fn new() -> (r: Self)
        ensures
            r.seen() == Set::<u64>::empty(),
    {
        let r = SeenContent { hashes: Vec::new() };
        assert(r.hashes@.to_set() =~= Set::<u64>::empty());
        r
    }

    /// Records hash `h`; says whether it is new.
    pub fn insert(&mut self, h: u64) -> (r: bool)
        ensures
            r == !old(self).seen().contains(h),
            final(self).seen() == old(self).seen().insert(h),
    {
        let mut i: usize = 0;
        while i < self.hashes.len()
            invariant
                i <= self.hashes.len(),
                self.hashes@ == old(self).hashes@,
                forall|j: int| 0 <= j < i ==> self.hashes@[j] != h,
            decreases self.hashes.len() - i,
        {
            if self.hashes[i] == h {
                assert(self.hashes@.to_set() =~= self.hashes@.to_set().insert(h));
                return false;
            }
            i = i + 1;
        }
        let ghost before = self.hashes@;
        self.hashes.push(h);
        proof {
            before.lemma_push_to_set_commute(h);
        }
        true
    }
}

/// What happens to a fetched contract before scanning.
#[derive(Debug, Clone)]
pub enum ContractGate {
    /// Its content was seen before.
    Duplicate,
    /// Its source is too large.
    TooLarge,
    /// It is a honeypot; the names of the patterns that matched.
    Honeypot(Vec<String>),
    /// It is scanned.
    Scan,
}

/// Decides on a fetched contract with source `source` whose content hash is
/// `hash`: skipped when its content was seen before, then when it is larger
/// than 5120 KiB, then when it is a honeypot; scanned otherwise. The hash is
/// recorded in every case but the first.
pub fn gate_contract(seen: &mut SeenContent, hash: u64, source: &str, filter: &HoneypotFilter) -> (r: ContractGate)
    requires
        filter.wf(),
    ensures
        final(seen).seen() == old(seen).seen().insert(hash),
        old(seen).seen().contains(hash) ==> r is Duplicate,
        !old(seen).seen().contains(hash) && sbytes(source).len() > MAX_SOURCE_BYTES ==> r is TooLarge,
        !old(seen).seen().contains(hash) && sbytes(source).len() <= MAX_SOURCE_BYTES && honeypot_hits(source@, 5).len()
            >= 2 ==> (r matches ContractGate::Honeypot(names) && strs(names@) == honeypot_hits(source@, 5)),
        !old(seen).seen().contains(hash) && sbytes(source).len() <= MAX_SOURCE_BYTES && honeypot_hits(source@, 5).len()
            < 2 ==> r is Scan,
{
    if !seen.insert(hash) {
        return ContractGate::Duplicate;
    }
    if source.as_bytes().len() > MAX_SOURCE_BYTES {
        return ContractGate::TooLarge;
    }
    let (is_honeypot, names) = filter.is_honeypot(source);
    if is_honeypot {
        ContractGate::Honeypot(names)
    } else {
        ContractGate::Scan
    }
}

/// The findings at least `min` whose severity is at least `floor` (and, where
/// `critical_only`, critical) and that were not marked filtered, in order.
pub open spec fn kept_findings(ms: Seq<MatchView>, min: Severity, floor: Severity, critical_only: bool) -> Seq<MatchView> {
    ms.filter(keeps(min, floor, critical_only))
}

/// Whether a finding is kept (see `kept_findings`).
pub open spec fn keeps(min: Severity, floor: Severity, critical_only: bool) -> spec_fn(MatchView) -> bool {
    |m: MatchView| severity_rank(m.severity) >= severity_rank(min) && severity_rank(m.severity) >= severity_rank(floor)
        && (!critical_only || (m.severity == Severity::Critical && !m.filtered))
}

/// The findings the scan command reports: at least `min`, critical, and not
/// marked filtered, in order.
pub fn critical_findings(matches: &Vec<Match>, min: Severity) -> (r: Vec<Match>)
    ensures
        match_views(r@) == kept_findings(match_views(matches@), min, Severity::Info, true),
{
    keep_findings(matches, min, Severity::Info, true)
}

/// The findings the recent-contract scans report: at least `min` and at
/// least high, in order.
pub fn high_findings(matches: &Vec<Match>, min: Severity) -> (r: Vec<Match>)
    ensures
        match_views(r@) == kept_findings(match_views(matches@), min, Severity::High, false),
{
    keep_findings(matches, min, Severity::High, false)
}

fn keep_findings(matches: &Vec<Match>, min: Severity, floor: Severity, critical_only: bool) -> (r: Vec<Match>)
    ensures
        match_views(r@) == kept_findings(match_views(matches@), min, floor, critical_only),
{
    let ghost pred = keeps(min, floor, critical_only);
    let ghost mv = match_views(matches@);
    let mut out: Vec<Match> = Vec::new();
    let mut i: usize = 0;
    while i < matches.len()
        invariant
            i <= matches.len(),
            mv == match_views(matches@),
            pred == keeps(min, floor, critical_only),
            match_views(out@) == mv.take(i as int).filter(pred),
        decreases matches.len() - i,
    {
        let m = &matches[i];
        let keep = m.severity.at_least(min) && m.severity.at_least(floor) && (!critical_only || (m.severity
            == Severity::Critical && !m.filtered));
        let ghost before = out@;
        if keep {
            out.push(copy_match(m));
            assert(match_views(out@) =~= match_views(before).push(m@));
        } else {
            assert(match_views(out@) =~= match_views(before));
        }
        proof {
            reveal(Seq::filter);
            let t = mv.take(i + 1);
            assert(t.drop_last() =~= mv.take(i as int));
            assert(t.last() == m@);
            assert(m@.severity == m.severity && m@.filtered == m.filtered);
            assert(pred(m@) == (severity_rank(m.severity) >= severity_rank(min) && severity_rank(m.severity) >= severity_rank(
                floor,
            ) && (!critical_only || (m.severity == Severity::Critical && !m.filtered))));
            assert(keep == pred(m@));
            assert(t.filter(pred) == if pred(t.last()) {
                t.drop_last().filter(pred).push(t.last())
            } else {
                t.drop_last().filter(pred)
            });
        }
        i = i + 1;
    }
    assert(mv.take(i as int) =~= mv);
    out
}

/// How many times `k` occurs in `ks`.
pub open spec fn occurrences(ks: Seq<Seq<char>>, k: Seq<char>) -> nat
    decreases ks.len(),
{
    if ks.len() == 0 {
        0
    } else {
        occurrences(ks.drop_last(), k) + if ks.last() == k { 1nat } else { 0nat }
    }
}

proof fn lemma_dedupe_contains(ks: Seq<Seq<char>>, k: Seq<char>)
    ensures
        dedupe(ks).contains(k) <==> ks.contains(k),
    decreases ks.len(),
{
    if ks.len() > 0 {
        let prev = ks.drop_last();
        lemma_dedupe_contains(prev, k);
        let tail = if prev.contains(ks.last()) { Seq::<Seq<char>>::empty() } else { seq![ks.last()] };
        if ks.contains(k) {
            let i = choose|i: int| 0 <= i < ks.len() && ks[i] == k;
            if i < ks.len() - 1 {
                assert(prev[i] == k);
                let j = choose|j: int| 0 <= j < dedupe(prev).len() && dedupe(prev)[j] == k;
                assert((dedupe(prev) + tail)[j] == k);
            } else if prev.contains(k) {
                let j = choose|j: int| 0 <= j < dedupe(prev).len() && dedupe(prev)[j] == k;
                assert((dedupe(prev) + tail)[j] == k);
            } else {
                assert((dedupe(prev) + tail)[dedupe(prev).len() as int] == k);
            }
        }
        if dedupe(ks).contains(k) {
            let j = choose|j: int| 0 <= j < dedupe(ks).len() && dedupe(ks)[j] == k;
            if j < dedupe(prev).len() {
                assert(dedupe(prev)[j] == k);
                let i = choose|i: int| 0 <= i < prev.len() && prev[i] == k;
                assert(ks[i] == k);
            } else {
                assert(ks[ks.len() - 1] == k);
            }
        }
    }
}

proof fn lemma_dedupe_distinct(ks: Seq<Seq<char>>)
    ensures
        dedupe(ks).no_duplicates(),
    decreases ks.len(),
{
    if ks.len() > 0 {
        let prev = ks.drop_last();
        lemma_dedupe_distinct(prev);
        lemma_dedupe_contains(prev, ks.last());
        let d = dedupe(ks);
        let dp = dedupe(prev);
        assert forall|a: int, b: int| 0 <= a < b < d.len() implies d[a] != d[b] by {
            if b >= dp.len() {
                assert(d[b] == ks.last());
                assert(d[a] == dp[a]);
                assert(!prev.contains(ks.last()));
            } else {
                assert(d[a] == dp[a] && d[b] == dp[b]);
            }
        }
    }
}

proof fn lemma_occurrences_zero(ks: Seq<Seq<char>>, k: Seq<char>)
    requires
        !ks.contains(k),
    ensures
        occurrences(ks, k) == 0,
    decreases ks.len(),
{
    if ks.len() > 0 {
        assert(!ks.drop_last().contains(k)) by {
            if ks.drop_last().contains(k) {
                let i = choose|i: int| 0 <= i < ks.len() - 1 && ks.drop_last()[i] == k;
                assert(ks[i] == k);
            }
        }
        lemma_occurrences_zero(ks.drop_last(), k);
    }
}

/// The keys of `ks`, each once in the order it first occurs, with how many
/// times it occurs.
pub fn tally(ks: &Vec<String>) -> (r: Vec<(String, usize)>)
    ensures
        r@.map_values(|e: (String, usize)| e.0@) == dedupe(strs(ks@)),
        forall|i: int| 0 <= i < r.len() ==> (#[trigger] r@[i]).1 == occurrences(strs(ks@), r@[i].0@),
{
    let ghost kv = strs(ks@);
    let mut out: Vec<(String, usize)> = Vec::new();
    let mut j: usize = 0;
    while j < ks.len()
        invariant
            j <= ks.len(),
            kv == strs(ks@),
            out@.map_values(|e: (String, usize)| e.0@) == dedupe(kv.take(j as int)),
            forall|i: int| 0 <= i < out.len() ==> (#[trigger] out@[i]).1 == occurrences(kv.take(j as int), out@[i].0@),
            forall|i: int| 0 <= i < out.len() ==> (#[trigger] out@[i]).1 <= j,
        decreases ks.len() - j,
    {
        let ghost prev = kv.take(j as int);
        let ghost cur = kv.take(j + 1);
        let key = ks[j].as_str();
        assert(cur.drop_last() =~= prev);
        assert(cur.last() == key@);
        let ghost keys0 = out@.map_values(|e: (String, usize)| e.0@);
        proof {
            lemma_dedupe_contains(prev, key@);
        }
        match find_key(&out, key) {
            Some(i) => {
                assert(keys0[i as int] == key@);
                assert(prev.contains(key@));
                let ghost old_out = out@;
                assert(old_out[i as int].1 == occurrences(prev, key@));
                proof {
                    lemma_dedupe_distinct(prev);
                }
                let n = out[i].1;
                let e = (owned(key), n + 1);
                out.set(i, e);
                assert(out@.map_values(|e: (String, usize)| e.0@) =~= keys0);
                assert forall|q: int| 0 <= q < out.len() implies (#[trigger] out@[q]).1 == occurrences(cur, out@[q].0@) by {
                    if q != i {
                        assert(out@[q] == old_out[q]);
                        assert(keys0[q] == old_out[q].0@ && keys0[i as int] == key@);
                    }
                }
            },
            None => {
                assert(!dedupe(prev).contains(key@)) by {
                    if dedupe(prev).contains(key@) {
                        let q = choose|q: int| 0 <= q < keys0.len() && keys0[q] == key@;
                        assert(out@[q].0@ == key@);
                    }
                }
                proof {
                    lemma_occurrences_zero(prev, key@);
                }
                let ghost old_out = out@;
                out.push((owned(key), 1));
                assert(out@.map_values(|e: (String, usize)| e.0@) =~= keys0.push(key@));
                assert forall|q: int| 0 <= q < out.len() implies (#[trigger] out@[q]).1 == occurrences(cur, out@[q].0@) by {
                    if q < old_out.len() {
                        assert(out@[q] == old_out[q]);
                        assert(keys0[q] == old_out[q].0@);
                        assert(old_out[q].0@ != key@);
                    }
                }
            },
        }
        j = j + 1;
    }
    assert(kv.take(ks.len() as int) =~= kv);
    out
}

} // verus!
