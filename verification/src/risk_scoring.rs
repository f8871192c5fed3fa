//! Risk levels of scan results: severity weights, the bonus for dangerous
//! combinations of patterns, thresholds and recommendations. The per-pattern
//! multipliers are floating point and are applied outside this library;
//! what comes in here is each finding's score.
use vstd::prelude::*;
use crate::types::{Match, Severity, severity_rank};
use crate::text::{contains, str_has, str_eq, owned, strs};
use crate::dependency_analyzer::find_key;
use crate::dataflow::{first_entry, lemma_first_entry_at, lemma_first_entry_none, lemma_first_entry_update, lemma_first_entry_push};

verus! {

/// How risky a contract is.
#[derive(Debug, Clone, Copy, PartialEq, Eq, Structural)]
pub enum RiskLevel {
    NoRisk,
    Low,
    Medium,
    High,
    Critical,
}

/// The name of a risk level.
pub open spec fn risk_level_name(l: RiskLevel) -> Seq<char> {
    match l {
        RiskLevel::NoRisk => "None"@,
        RiskLevel::Low => "Low"@,
        RiskLevel::Medium => "Medium"@,
        RiskLevel::High => "High"@,
        RiskLevel::Critical => "Critical"@,
    }
}

impl RiskLevel {
    /// The name of this risk level.
    pub fn as_str(&self) -> (r: &'static str)
        ensures
            r@ == risk_level_name(*self),
    {
        match self {
            RiskLevel::NoRisk => "None",
            RiskLevel::Low => "Low",
            RiskLevel::Medium => "Medium",
            RiskLevel::High => "High",
            RiskLevel::Critical => "Critical",
        }
    }
}

/// The scores at which risk levels start.
#[derive(Debug, Clone, Copy)]
pub struct RiskThresholds {
    pub low: u32,
    pub medium: u32,
    pub high: u32,
    pub critical: u32,
}

/// The default thresholds: 5, 15, 30 and 50.
pub fn default_thresholds() -> (r: RiskThresholds)
    ensures
        r.low == 5 && r.medium == 15 && r.high == 30 && r.critical == 50,
{
    RiskThresholds { low: 5, medium: 15, high: 30, critical: 50 }
}

/// The default weight of a severity: 1, 3, 7, 15, 30 from info to critical.
pub open spec fn default_weight(s: Severity) -> u32 {
    match s {
        Severity::Info => 1,
        Severity::Low => 3,
        Severity::Medium => 7,
        Severity::High => 15,
        Severity::Critical => 30,
    }
}

/// The default weight of a severity.
pub fn default_severity_weight(s: Severity) -> (r: u32)
    ensures
        r == default_weight(s),
{
    match s {
        Severity::Info => 1,
        Severity::Low => 3,
        Severity::Medium => 7,
        Severity::High => 15,
        Severity::Critical => 30,
    }
}

/// The bonus added for dangerous combinations.
pub const DEFAULT_COMPOSITION_BONUS: u32 = 10;

/// The risk level of a total score: none for 0, then low, medium and high
/// below the respective thresholds, high also below the critical threshold,
/// critical from it on.
pub open spec fn risk_level_of(t: RiskThresholds, score: u32) -> RiskLevel {
    if score == 0 {
        RiskLevel::NoRisk
    } else if score < t.low {
        RiskLevel::Low
    } else if score < t.medium {
        RiskLevel::Medium
    } else if score < t.high {
        RiskLevel::High
    } else if score < t.critical {
        RiskLevel::High
    } else {
        RiskLevel::Critical
    }
}

/// The risk level of a total score.
pub fn determine_risk_level(t: &RiskThresholds, score: u32) -> (r: RiskLevel)
    ensures
        r == risk_level_of(*t, score),
{
    if score == 0 {
        RiskLevel::NoRisk
    } else if score < t.low {
        RiskLevel::Low
    } else if score < t.medium {
        RiskLevel::Medium
    } else if score < t.high {
        RiskLevel::High
    } else if score < t.critical {
        RiskLevel::High
    } else {
        RiskLevel::Critical
    }
}

/// Some finding has exactly the pattern id `p`.
pub open spec fn has_pattern_id(ms: Seq<Match>, p: Seq<char>) -> bool {
    exists|i: int| 0 <= i < ms.len() && (#[trigger] ms[i]).pattern_id@ == p
}

fn has_pattern(matches: &Vec<Match>, pattern_id: &str) -> (r: bool)
    ensures
        r == has_pattern_id(matches@, pattern_id@),
{
    let mut i: usize = 0;
    while i < matches.len()
        invariant
            i <= matches.len(),
            forall|j: int| 0 <= j < i ==> (#[trigger] matches@[j]).pattern_id@ != pattern_id@,
        decreases matches.len() - i,
    {
        if str_eq(matches[i].pattern_id.as_str(), pattern_id) {
            return true;
        }
        i = i + 1;
    }
    false
}

/// The bonus for dangerous combinations: once for an external call together
/// with a state mutation, once for a critical function without an access
/// modifier.
pub open spec fn composition_bonus_of(ms: Seq<Match>, bonus: u32) -> int {
    (if has_pattern_id(ms, "external-call"@) && has_pattern_id(ms, "state-mutation"@) { bonus as int } else { 0 })
        + (if has_pattern_id(ms, "critical-function"@) && !has_pattern_id(ms, "access-modifier"@) { bonus as int } else { 0 })
}

/// The bonus for dangerous combinations of patterns among the findings.
pub fn calculate_composition_bonus(matches: &Vec<Match>, bonus: u32) -> (r: u32)
    requires
        2 * bonus <= u32::MAX,
    ensures
        r == composition_bonus_of(matches@, bonus),
{
    let mut b: u32 = 0;
    if has_pattern(matches, "external-call") && has_pattern(matches, "state-mutation") {
        b = b + bonus;
    }
    if has_pattern(matches, "critical-function") && !has_pattern(matches, "access-modifier") {
        b = b + bonus;
    }
    b
}

/// The recommendations for a severity breakdown (critical and high totals)
/// and the patterns found (any whose id contains `reentrancy`, any whose id
/// contains `access-control`).
pub open spec fn recommendations_for(critical: u32, high: u32, patterns: Seq<Seq<char>>) -> Seq<Seq<char>> {
    (if critical > 0 { seq!["URGENT: Critical vulnerabilities detected. Do not deploy."@] } else { Seq::empty() })
        + (if high > 0 { seq!["High severity issues require immediate attention."@] } else { Seq::empty() })
        + (if exists|i: int| 0 <= i < patterns.len() && str_has(#[trigger] patterns[i], "reentrancy"@) {
            seq!["Implement checks-effects-interactions pattern."@]
        } else {
            Seq::empty()
        })
        + (if exists|i: int| 0 <= i < patterns.len() && str_has(#[trigger] patterns[i], "access-control"@) {
            seq!["Add proper access control modifiers."@]
        } else {
            Seq::empty()
        })
}

fn any_contains(v: &Vec<String>, part: &str) -> (r: bool)
    ensures
        r == exists|i: int| 0 <= i < v.len() && str_has(#[trigger] strs(v@)[i], part@),
{
    let mut i: usize = 0;
    while i < v.len()
        invariant
            i <= v.len(),
            forall|j: int| 0 <= j < i ==> !str_has(#[trigger] strs(v@)[j], part@),
        decreases v.len() - i,
    {
        assert(strs(v@)[i as int] == v@[i as int]@);
        if contains(v[i].as_str(), part) {
            return true;
        }
        i = i + 1;
    }
    false
}

/// The recommendations for the critical and high totals and the pattern ids found.
pub fn generate_recommendations(critical: u32, high: u32, patterns: &Vec<String>) -> (r: Vec<String>)
    ensures
        strs(r@) == recommendations_for(critical, high, strs(patterns@)),
{
    let mut recs: Vec<String> = Vec::new();
    if critical > 0 {
        recs.push(owned("URGENT: Critical vulnerabilities detected. Do not deploy."));
    }
    if high > 0 {
        recs.push(owned("High severity issues require immediate attention."));
    }
    let ghost r2 = strs(recs@);
    if any_contains(patterns, "reentrancy") {
        recs.push(owned("Implement checks-effects-interactions pattern."));
    }
    let ghost r3 = strs(recs@);
    if any_contains(patterns, "access-control") {
        recs.push(owned("Add proper access control modifiers."));
    }
    proof {
        assert(strs(recs@) =~= recommendations_for(critical, high, strs(patterns@)));
    }
    recs
}

/// `a + b`, saturated at `u32::MAX`.
pub open spec fn sat_add(a: int, b: int) -> u32 {
    if a + b > u32::MAX { u32::MAX } else { (a + b) as u32 }
}

/// The saturating sum of the first `n` scores.
pub open spec fn score_total(scores: Seq<u32>, n: nat) -> u32
    decreases n,
{
    if n == 0 {
        0
    } else {
        sat_add(score_total(scores, (n - 1) as nat) as int, scores[n - 1] as int)
    }
}

/// The saturating sum of the scores of the first `n` findings whose severity is `s`.
pub open spec fn severity_total(ms: Seq<Match>, scores: Seq<u32>, s: Severity, n: nat) -> u32
    decreases n,
{
    if n == 0 {
        0
    } else {
        let prev = severity_total(ms, scores, s, (n - 1) as nat);
        if ms[n - 1].severity == s { sat_add(prev as int, scores[n - 1] as int) } else { prev }
    }
}

/// The saturating sum of the scores of the first `n` findings whose pattern id is `p`.
pub open spec fn pattern_total(ms: Seq<Match>, scores: Seq<u32>, p: Seq<char>, n: nat) -> u32
    decreases n,
{
    if n == 0 {
        0
    } else {
        let prev = pattern_total(ms, scores, p, (n - 1) as nat);
        if ms[n - 1].pattern_id@ == p { sat_add(prev as int, scores[n - 1] as int) } else { prev }
    }
}

/// One of the first `n` findings has severity `s`.
pub open spec fn severity_seen(ms: Seq<Match>, s: Severity, n: nat) -> bool {
    exists|j: int| 0 <= j < n && (#[trigger] ms[j]).severity == s
}

/// One of the first `n` findings has pattern id `p`.
pub open spec fn pattern_seen(ms: Seq<Match>, p: Seq<char>, n: nat) -> bool {
    exists|j: int| 0 <= j < n && (#[trigger] ms[j]).pattern_id@ == p
}

/// `bd` holds each severity among the first `n` findings once, with its total.
pub open spec fn severity_breakdown_ok(ms: Seq<Match>, scores: Seq<u32>, bd: Seq<(Severity, u32)>, n: nat) -> bool {
    &&& forall|i: int, j: int| 0 <= i < j < bd.len() ==> (#[trigger] bd[i]).0 != (#[trigger] bd[j]).0
    &&& forall|i: int| 0 <= i < bd.len() ==> severity_seen(ms, (#[trigger] bd[i]).0, n)
        && bd[i].1 == severity_total(ms, scores, bd[i].0, n)
    &&& forall|s: Severity| #[trigger] severity_seen(ms, s, n) ==> exists|i: int| 0 <= i < bd.len() && (#[trigger] bd[i]).0 == s
}

/// `bd` holds each pattern id among the first `n` findings once, with its total.
pub open spec fn pattern_breakdown_ok(ms: Seq<Match>, scores: Seq<u32>, bd: Seq<(String, u32)>, n: nat) -> bool {
    &&& forall|i: int, j: int| 0 <= i < j < bd.len() ==> (#[trigger] bd[i]).0@ != (#[trigger] bd[j]).0@
    &&& forall|i: int| 0 <= i < bd.len() ==> pattern_seen(ms, (#[trigger] bd[i]).0@, n)
        && bd[i].1 == pattern_total(ms, scores, bd[i].0@, n)
    &&& forall|p: Seq<char>| #[trigger] pattern_seen(ms, p, n) ==> exists|i: int| 0 <= i < bd.len() && (#[trigger] bd[i]).0@ == p
}

/// The pattern ids of the findings.
pub open spec fn pattern_ids(ms: Seq<Match>) -> Seq<Seq<char>> {
    Seq::new(ms.len(), |i: int| ms[i].pattern_id@)
}

/// The keys of a pattern breakdown.
pub open spec fn breakdown_keys(bd: Seq<(String, u32)>) -> Seq<Seq<char>> {
    Seq::new(bd.len(), |i: int| bd[i].0@)
}

proof fn lemma_severity_unseen(ms: Seq<Match>, scores: Seq<u32>, s: Severity, n: nat)
    requires
        n <= ms.len(),
        !severity_seen(ms, s, n),
    ensures
        severity_total(ms, scores, s, n) == 0,
    decreases n,
{
    if n > 0 {
        assert(ms[n - 1].severity != s);
        lemma_severity_unseen(ms, scores, s, (n - 1) as nat);
    }
}

proof fn lemma_pattern_unseen(ms: Seq<Match>, scores: Seq<u32>, p: Seq<char>, n: nat)
    requires
        n <= ms.len(),
        !pattern_seen(ms, p, n),
    ensures
        pattern_total(ms, scores, p, n) == 0,
    decreases n,
{
    if n > 0 {
        assert(ms[n - 1].pattern_id@ != p);
        lemma_pattern_unseen(ms, scores, p, (n - 1) as nat);
    }
}

fn find_severity(bd: &Vec<(Severity, u32)>, s: Severity) -> (r: Option<usize>)
    ensures
        match r {
            Some(k) => k < bd.len() && bd@[k as int].0 == s,
            None => forall|i: int| 0 <= i < bd.len() ==> (#[trigger] bd@[i]).0 != s,
        },
{
    let mut k: usize = 0;
    while k < bd.len()
        invariant
            k <= bd.len(),
            forall|i: int| 0 <= i < k ==> (#[trigger] bd@[i]).0 != s,
        decreases bd.len() - k,
    {
        if bd[k].0 == s {
            return Some(k);
        }
        k = k + 1;
    }
    None
}

fn find_pattern(bd: &Vec<(String, u32)>, p: &str) -> (r: Option<usize>)
    ensures
        match r {
            Some(k) => k < bd.len() && bd@[k as int].0@ == p@,
            None => forall|i: int| 0 <= i < bd.len() ==> (#[trigger] bd@[i]).0@ != p@,
        },
{
    let mut k: usize = 0;
    while k < bd.len()
        invariant
            k <= bd.len(),
            forall|i: int| 0 <= i < k ==> (#[trigger] bd@[i]).0@ != p@,
        decreases bd.len() - k,
    {
        if str_eq(bd[k].0.as_str(), p) {
            return Some(k);
        }
        k = k + 1;
    }
    None
}

fn tally_severity(bd: &mut Vec<(Severity, u32)>, matches: &Vec<Match>, scores: &Vec<u32>, i: usize)
    requires
        i < matches.len(),
        scores.len() == matches.len(),
        severity_breakdown_ok(matches@, scores@, old(bd)@, i as nat),
    ensures
        severity_breakdown_ok(matches@, scores@, final(bd)@, (i + 1) as nat),
{
    let ghost ms = matches@;
    let ghost sc = scores@;
    let ghost n = i as nat;
    let s = matches[i].severity;
    let c = scores[i];
    let ghost old_bd = bd@;
    assert forall|t: Severity| t != s implies #[trigger] severity_total(ms, sc, t, n + 1) == severity_total(ms, sc, t, n)
        && (severity_seen(ms, t, n + 1) == severity_seen(ms, t, n)) by {
        if severity_seen(ms, t, n + 1) {
            let j = choose|j: int| 0 <= j < n + 1 && (#[trigger] ms[j]).severity == t;
            assert(j < n);
        }
    }
    assert(severity_seen(ms, s, n + 1)) by {
        assert(ms[i as int].severity == s);
    }
    match find_severity(bd, s) {
        Some(k) => {
            let v = bd[k].1;
            bd.set(k, (s, v.saturating_add(c)));
            assert(severity_total(ms, sc, s, n + 1) == sat_add(old_bd[k as int].1 as int, c as int));
            assert forall|p: Severity| #[trigger] severity_seen(ms, p, n + 1) implies exists|q: int| 0 <= q < bd@.len() && (#[trigger] bd@[q]).0 == p by {
                if p == s {
                    assert(bd@[k as int].0 == p);
                } else {
                    let j = choose|j: int| 0 <= j < n + 1 && (#[trigger] ms[j]).severity == p;
                    assert(j < n);
                    assert(severity_seen(ms, p, n));
                    let q = choose|q: int| 0 <= q < old_bd.len() && (#[trigger] old_bd[q]).0 == p;
                    assert(bd@[q].0 == p);
                }
            }
        },
        None => {
            proof {
                if severity_seen(ms, s, n) {
                    let q = choose|q: int| 0 <= q < old_bd.len() && (#[trigger] old_bd[q]).0 == s;
                    assert(old_bd[q].0 != s);
                }
                lemma_severity_unseen(ms, sc, s, n);
            }
            bd.push((s, c));
            assert(bd@[old_bd.len() as int].0 == s);
            assert forall|p: Severity| #[trigger] severity_seen(ms, p, n + 1) implies exists|q: int| 0 <= q < bd@.len() && (#[trigger] bd@[q]).0 == p by {
                if p == s {
                    assert(bd@[old_bd.len() as int].0 == p);
                } else {
                    let j = choose|j: int| 0 <= j < n + 1 && (#[trigger] ms[j]).severity == p;
                    assert(j < n);
                    assert(severity_seen(ms, p, n));
                    let q = choose|q: int| 0 <= q < old_bd.len() && (#[trigger] old_bd[q]).0 == p;
                    assert(bd@[q].0 == p);
                }
            }
        },
    }
}

fn tally_pattern(bd: &mut Vec<(String, u32)>, matches: &Vec<Match>, scores: &Vec<u32>, i: usize)
    requires
        i < matches.len(),
        scores.len() == matches.len(),
        pattern_breakdown_ok(matches@, scores@, old(bd)@, i as nat),
    ensures
        pattern_breakdown_ok(matches@, scores@, final(bd)@, (i + 1) as nat),
{
    let ghost ms = matches@;
    let ghost sc = scores@;
    let ghost n = i as nat;
    let p = matches[i].pattern_id.as_str();
    let c = scores[i];
    let ghost old_bd = bd@;
    assert forall|t: Seq<char>| t != p@ implies #[trigger] pattern_total(ms, sc, t, n + 1) == pattern_total(ms, sc, t, n)
        && (pattern_seen(ms, t, n + 1) == pattern_seen(ms, t, n)) by {
        if pattern_seen(ms, t, n + 1) {
            let j = choose|j: int| 0 <= j < n + 1 && (#[trigger] ms[j]).pattern_id@ == t;
            assert(j < n);
        }
    }
    assert(pattern_seen(ms, p@, n + 1)) by {
        assert(ms[i as int].pattern_id@ == p@);
    }
    match find_pattern(bd, p) {
        Some(k) => {
            let v = bd[k].1;
            bd.set(k, (owned(p), v.saturating_add(c)));
            assert(pattern_total(ms, sc, p@, n + 1) == sat_add(old_bd[k as int].1 as int, c as int));
            assert forall|t: Seq<char>| #[trigger] pattern_seen(ms, t, n + 1) implies exists|q: int| 0 <= q < bd@.len() && (#[trigger] bd@[q]).0@ == t by {
                if t == p@ {
                    assert(bd@[k as int].0@ == t);
                } else {
                    let j = choose|j: int| 0 <= j < n + 1 && (#[trigger] ms[j]).pattern_id@ == t;
                    assert(j < n);
                    assert(pattern_seen(ms, t, n));
                    let q = choose|q: int| 0 <= q < old_bd.len() && (#[trigger] old_bd[q]).0@ == t;
                    assert(bd@[q].0@ == t);
                }
            }
        },
        None => {
            proof {
                if pattern_seen(ms, p@, n) {
                    let q = choose|q: int| 0 <= q < old_bd.len() && (#[trigger] old_bd[q]).0@ == p@;
                    assert(old_bd[q].0@ != p@);
                }
                lemma_pattern_unseen(ms, sc, p@, n);
            }
            bd.push((owned(p), c));
            assert(bd@[old_bd.len() as int].0@ == p@);
            assert forall|t: Seq<char>| #[trigger] pattern_seen(ms, t, n + 1) implies exists|q: int| 0 <= q < bd@.len() && (#[trigger] bd@[q]).0@ == t by {
                if t == p@ {
                    assert(bd@[old_bd.len() as int].0@ == t);
                } else {
                    let j = choose|j: int| 0 <= j < n + 1 && (#[trigger] ms[j]).pattern_id@ == t;
                    assert(j < n);
                    assert(pattern_seen(ms, t, n));
                    let q = choose|q: int| 0 <= q < old_bd.len() && (#[trigger] old_bd[q]).0@ == t;
                    assert(bd@[q].0@ == t);
                }
            }
        },
    }
}

fn keys_of_breakdown(bd: &Vec<(String, u32)>) -> (r: Vec<String>)
    ensures
        strs(r@) == breakdown_keys(bd@),
{
    let mut r: Vec<String> = Vec::new();
    let mut i: usize = 0;
    while i < bd.len()
        invariant
            i <= bd.len(),
            r.len() == i,
            forall|j: int| 0 <= j < i ==> (#[trigger] r@[j])@ == bd@[j].0@,
        decreases bd.len() - i,
    {
        r.push(owned(bd[i].0.as_str()));
        i = i + 1;
    }
    assert(strs(r@) =~= breakdown_keys(bd@));
    r
}

/// The weight of severity `s` in a weight table: the first entry for it, 1 if there is none.
pub open spec fn weight_in(weights: Seq<(Severity, u32)>, s: Severity) -> u32
    decreases weights.len(),
{
    if weights.len() == 0 {
        1
    } else if weights[0].0 == s {
        weights[0].1
    } else {
        weight_in(weights.drop_first(), s)
    }
}

/// The weight of a severity in a weight table, 1 where the table has none.
pub fn score_for_severity(weights: &Vec<(Severity, u32)>, s: Severity) -> (r: u32)
    ensures
        r == weight_in(weights@, s),
{
    let mut i: usize = 0;
    assert(weights@.skip(0) =~= weights@);
    while i < weights.len()
        invariant
            i <= weights.len(),
            weight_in(weights@.skip(i as int), s) == weight_in(weights@, s),
        decreases weights.len() - i,
    {
        assert(weights@.skip(i as int).drop_first() =~= weights@.skip(i + 1));
        if weights[i].0 == s {
            return weights[i].1;
        }
        i = i + 1;
    }
    1
}

/// The default weight table: info 1, low 3, medium 7, high 15, critical 30.
pub fn default_weights() -> (r: Vec<(Severity, u32)>)
    ensures
        forall|s: Severity| weight_in(r@, s) == default_weight(s),
{
    let r = vec![
        (Severity::Info, 1u32),
        (Severity::Low, 3u32),
        (Severity::Medium, 7u32),
        (Severity::High, 15u32),
        (Severity::Critical, 30u32),
    ];
    proof {
        assert forall|s: Severity| weight_in(r@, s) == default_weight(s) by {
            reveal_with_fuel(weight_in, 6);
        }
    }
    r
}

proof fn lemma_keys_have_part(ms: Seq<Match>, sc: Seq<u32>, bd: Seq<(String, u32)>, part: Seq<char>)
    requires
        pattern_breakdown_ok(ms, sc, bd, ms.len()),
    ensures
        (exists|i: int| 0 <= i < breakdown_keys(bd).len() && str_has(#[trigger] breakdown_keys(bd)[i], part))
            == (exists|i: int| 0 <= i < pattern_ids(ms).len() && str_has(#[trigger] pattern_ids(ms)[i], part)),
{
    let ks = breakdown_keys(bd);
    let ids = pattern_ids(ms);
    let n = ms.len();
    if exists|i: int| 0 <= i < ks.len() && str_has(#[trigger] ks[i], part) {
        let i = choose|i: int| 0 <= i < ks.len() && str_has(#[trigger] ks[i], part);
        assert(pattern_seen(ms, bd[i].0@, n));
        let j = choose|j: int| 0 <= j < n && (#[trigger] ms[j]).pattern_id@ == bd[i].0@;
        assert(str_has(ids[j], part));
    }
    if exists|i: int| 0 <= i < ids.len() && str_has(#[trigger] ids[i], part) {
        let j = choose|j: int| 0 <= j < ids.len() && str_has(#[trigger] ids[j], part);
        assert(ms[j].pattern_id@ == ids[j]);
        assert(pattern_seen(ms, ids[j], n));
        let i = choose|i: int| 0 <= i < bd.len() && (#[trigger] bd[i]).0@ == ids[j];
        assert(str_has(ks[i], part));
    }
}

/// The totals of a risk assessment.
#[derive(Debug, Clone)]
pub struct RiskTally {
    pub total_score: u32,
    pub risk_level: RiskLevel,
    pub severity_breakdown: Vec<(Severity, u32)>,
    pub pattern_breakdown: Vec<(String, u32)>,
    pub composition_score: u32,
    pub recommendations: Vec<String>,
}

/// Assesses findings whose scores are given, one per finding: the saturating
/// total with the composition bonus, its risk level, the totals per severity
/// and per pattern id, and the recommendations that follow from them.
pub fn assess_scores(matches: &Vec<Match>, scores: &Vec<u32>, thresholds: &RiskThresholds, bonus: u32) -> (r: RiskTally)
    requires
        scores.len() == matches.len(),
        2 * bonus <= u32::MAX,
    ensures
        r.composition_score == composition_bonus_of(matches@, bonus),
        r.total_score == sat_add(score_total(scores@, matches.len() as nat) as int, r.composition_score as int),
        r.risk_level == risk_level_of(*thresholds, r.total_score),
        severity_breakdown_ok(matches@, scores@, r.severity_breakdown@, matches.len() as nat),
        pattern_breakdown_ok(matches@, scores@, r.pattern_breakdown@, matches.len() as nat),
        strs(r.recommendations@) == recommendations_for(
            severity_total(matches@, scores@, Severity::Critical, matches.len() as nat),
            severity_total(matches@, scores@, Severity::High, matches.len() as nat),
            pattern_ids(matches@),
        ),
{
    let ghost ms = matches@;
    let ghost sc = scores@;
    let mut total: u32 = 0;
    let mut sev_bd: Vec<(Severity, u32)> = Vec::new();
    let mut pat_bd: Vec<(String, u32)> = Vec::new();
    let mut i: usize = 0;
    while i < matches.len()
        invariant
            i <= matches.len(),
            scores.len() == matches.len(),
            ms == matches@,
            sc == scores@,
            total == score_total(sc, i as nat),
            severity_breakdown_ok(ms, sc, sev_bd@, i as nat),
            pattern_breakdown_ok(ms, sc, pat_bd@, i as nat),
        decreases matches.len() - i,
    {
        total = total.saturating_add(scores[i]);
        tally_severity(&mut sev_bd, matches, scores, i);
        tally_pattern(&mut pat_bd, matches, scores, i);
        i = i + 1;
    }
    let composition_score = calculate_composition_bonus(matches, bonus);
    let total_score = total.saturating_add(composition_score);
    let risk_level = determine_risk_level(thresholds, total_score);
    let n = matches.len();
    let critical = match find_severity(&sev_bd, Severity::Critical) {
        Some(k) => sev_bd[k].1,
        None => {
            proof {
                if severity_seen(ms, Severity::Critical, n as nat) {
                    let q = choose|q: int| 0 <= q < sev_bd@.len() && (#[trigger] sev_bd@[q]).0 == Severity::Critical;
                    assert(sev_bd@[q].0 != Severity::Critical);
                }
                lemma_severity_unseen(ms, sc, Severity::Critical, n as nat);
            }
            0
        },
    };
    let high = match find_severity(&sev_bd, Severity::High) {
        Some(k) => sev_bd[k].1,
        None => {
            proof {
                if severity_seen(ms, Severity::High, n as nat) {
                    let q = choose|q: int| 0 <= q < sev_bd@.len() && (#[trigger] sev_bd@[q]).0 == Severity::High;
                    assert(sev_bd@[q].0 != Severity::High);
                }
                lemma_severity_unseen(ms, sc, Severity::High, n as nat);
            }
            0
        },
    };
    let keys = keys_of_breakdown(&pat_bd);
    let recommendations = generate_recommendations(critical, high, &keys);
    proof {
        let ks = breakdown_keys(pat_bd@);
        let ids = pattern_ids(ms);
        lemma_keys_have_part(ms, sc, pat_bd@, "reentrancy"@);
        lemma_keys_have_part(ms, sc, pat_bd@, "access-control"@);
        assert(recommendations_for(critical, high, ks) == recommendations_for(critical, high, ids));
    }
    RiskTally {
        total_score,
        risk_level,
        severity_breakdown: sev_bd,
        pattern_breakdown: pat_bd,
        composition_score,
        recommendations,
    }
}

/// The position of a risk level from none (0) to critical (4).
pub open spec fn risk_rank(l: RiskLevel) -> nat {
    match l {
        RiskLevel::NoRisk => 0,
        RiskLevel::Low => 1,
        RiskLevel::Medium => 2,
        RiskLevel::High => 3,
        RiskLevel::Critical => 4,
    }
}

/// A higher score never gives a lower risk level, when the thresholds are
/// in increasing order.
pub proof fn law_risk_level_monotone(t: RiskThresholds, a: u32, b: u32)
    requires
        t.low <= t.medium <= t.high <= t.critical,
        a <= b,
    ensures
        risk_rank(risk_level_of(t, a)) <= risk_rank(risk_level_of(t, b)),
{
}

/// The saturating total of the first `n` scores is at least the total of
/// each severity and of each pattern id among them.
pub proof fn law_total_bounds_parts(ms: Seq<Match>, scores: Seq<u32>, n: nat, s: Severity, p: Seq<char>)
    requires
        n <= ms.len(),
        n <= scores.len(),
    ensures
        severity_total(ms, scores, s, n) <= score_total(scores, n),
        pattern_total(ms, scores, p, n) <= score_total(scores, n),
    decreases n,
{
    if n > 0 {
        law_total_bounds_parts(ms, scores, (n - 1) as nat, s, p);
    }
}

} // verus!
