//! The integer parts of the weighted risk score of a set of findings: counts
//! per severity, the weighted severity score, the category and concentration
//! multipliers (in tenths), the risk level of a score and the recommendations.
//! Multiplying the score by the multipliers is floating point and happens
//! outside this library.
use vstd::prelude::*;
use crate::types::{Match, Severity};
use crate::text::{contains, str_has, str_eq, owned, push_str, push_decimal, decimal, strs};

verus! {

/// The number of findings of each severity.
#[derive(Debug, Clone, Copy, PartialEq, Eq, Structural)]
pub struct SeverityBreakdown {
    pub critical: u32,
    pub high: u32,
    pub medium: u32,
    pub low: u32,
    pub informational: u32,
}

/// How risky a set of findings is.
#[derive(Debug, Clone, Copy, PartialEq, Eq, Structural)]
pub enum RiskLevel {
    Critical,
    High,
    Medium,
    Low,
    Minimal,
}

/// The number of the first `n` findings with severity `s`.
pub open spec fn severity_count(ms: Seq<Match>, s: Severity, n: nat) -> nat
    decreases n,
{
    if n == 0 {
        0
    } else {
        severity_count(ms, s, (n - 1) as nat) + if ms[n - 1].severity == s { 1nat } else { 0nat }
    }
}

proof fn lemma_severity_count_bound(ms: Seq<Match>, s: Severity, n: nat)
    ensures
        severity_count(ms, s, n) <= n,
    decreases n,
{
    if n > 0 {
        lemma_severity_count_bound(ms, s, (n - 1) as nat);
    }
}

/// Counts the findings of each severity.
pub fn count_severities(findings: &Vec<Match>) -> (r: SeverityBreakdown)
    requires
        findings.len() <= u32::MAX,
    ensures
        r.critical == severity_count(findings@, Severity::Critical, findings.len() as nat),
        r.high == severity_count(findings@, Severity::High, findings.len() as nat),
        r.medium == severity_count(findings@, Severity::Medium, findings.len() as nat),
        r.low == severity_count(findings@, Severity::Low, findings.len() as nat),
        r.informational == severity_count(findings@, Severity::Info, findings.len() as nat),
{
    let mut b = SeverityBreakdown { critical: 0, high: 0, medium: 0, low: 0, informational: 0 };
    let mut i: usize = 0;
    while i < findings.len()
        invariant
            i <= findings.len() <= u32::MAX,
            b.critical == severity_count(findings@, Severity::Critical, i as nat),
            b.high == severity_count(findings@, Severity::High, i as nat),
            b.medium == severity_count(findings@, Severity::Medium, i as nat),
            b.low == severity_count(findings@, Severity::Low, i as nat),
            b.informational == severity_count(findings@, Severity::Info, i as nat),
        decreases findings.len() - i,
    {
        proof {
            lemma_severity_count_bound(findings@, Severity::Critical, i as nat);
            lemma_severity_count_bound(findings@, Severity::High, i as nat);
            lemma_severity_count_bound(findings@, Severity::Medium, i as nat);
            lemma_severity_count_bound(findings@, Severity::Low, i as nat);
            lemma_severity_count_bound(findings@, Severity::Info, i as nat);
        }
        match findings[i].severity {
            Severity::Critical => b.critical = b.critical + 1,
            Severity::High => b.high = b.high + 1,
            Severity::Medium => b.medium = b.medium + 1,
            Severity::Low => b.low = b.low + 1,
            Severity::Info => b.informational = b.informational + 1,
        }
        i = i + 1;
    }
    b
}

/// The weighted severity score: 25 per critical, 15 per high, 8 per medium,
/// 3 per low and 1 per informational finding.
pub open spec fn severity_score_of(b: SeverityBreakdown) -> int {
    b.critical * 25 + b.high * 15 + b.medium * 8 + b.low * 3 + b.informational * 1
}

/// The weighted severity score of a breakdown.
pub fn calculate_severity_score(b: &SeverityBreakdown) -> (r: u64)
    ensures
        r == severity_score_of(*b),
{
    b.critical as u64 * 25 + b.high as u64 * 15 + b.medium as u64 * 8 + b.low as u64 * 3 + b.informational as u64
}

/// The names whose presence in a pattern id weighs it. The severity names
/// are among them.
pub open spec fn category_names() -> Seq<Seq<char>> {
    seq![
        "critical"@, "high"@, "medium"@, "low"@, "info"@, "reentrancy"@, "access-control"@, "oracle"@,
        "upgrade"@, "cryptography"@, "governance"@,
    ]
}

/// The weights of the names, in tenths, in the same order; a severity name
/// weighs what its severity weighs.
pub open spec fn category_values() -> Seq<u32> {
    seq![250u32, 150u32, 80u32, 30u32, 10u32, 15u32, 14u32, 13u32, 13u32, 14u32, 13u32]
}

/// The largest of `cur` and the weights of the first `k` names that occur in `id`.
pub open spec fn id_factor(id: Seq<char>, cur: u32, k: nat) -> u32
    decreases k,
{
    if k == 0 {
        cur
    } else {
        let c = id_factor(id, cur, (k - 1) as nat);
        if str_has(id, category_names()[k - 1]) && category_values()[k - 1] > c {
            category_values()[k - 1]
        } else {
            c
        }
    }
}

/// The category multiplier of the first `n` findings, in tenths: the largest
/// weight of a name occurring in one of their pattern ids, at least 10.
pub open spec fn category_factor(ms: Seq<Match>, n: nat) -> u32
    decreases n,
{
    if n == 0 {
        10
    } else {
        id_factor(ms[n - 1].pattern_id@, category_factor(ms, (n - 1) as nat), category_names().len())
    }
}

/// The category multiplier of the findings, in tenths.
pub fn calculate_category_factor(findings: &Vec<Match>) -> (r: u32)
    ensures
        r == category_factor(findings@, findings.len() as nat),
{
    let names = vec![
        "critical", "high", "medium", "low", "info", "reentrancy", "access-control", "oracle", "upgrade",
        "cryptography", "governance",
    ];
    let weights: Vec<u32> = vec![250, 150, 80, 30, 10, 15, 14, 13, 13, 14, 13];
    assert(names@.map_values(|n: &str| n@) =~= category_names());
    assert(weights@ =~= category_values());
    let mut max: u32 = 10;
    let mut i: usize = 0;
    while i < findings.len()
        invariant
            i <= findings.len(),
            names@.map_values(|n: &str| n@) == category_names(),
            weights@ == category_values(),
            names.len() == 11,
            weights.len() == 11,
            max == category_factor(findings@, i as nat),
        decreases findings.len() - i,
    {
        let id = findings[i].pattern_id.as_str();
        let ghost start = max;
        let mut k: usize = 0;
        while k < names.len()
            invariant
                k <= names.len(),
                names@.map_values(|n: &str| n@) == category_names(),
                weights@ == category_values(),
                names.len() == 11,
                weights.len() == 11,
            names.len() == 11,
            weights.len() == 11,
                max == id_factor(id@, start, k as nat),
            decreases names.len() - k,
        {
            assert(names@[k as int]@ == category_names()[k as int]);
            if contains(id, names[k]) && weights[k] > max {
                max = weights[k];
            }
            k = k + 1;
        }
        i = i + 1;
    }
    max
}

/// The number of the first `n` findings with pattern id `p`.
pub open spec fn id_count(ms: Seq<Match>, p: Seq<char>, n: nat) -> nat
    decreases n,
{
    if n == 0 {
        0
    } else {
        id_count(ms, p, (n - 1) as nat) + if ms[n - 1].pattern_id@ == p { 1nat } else { 0nat }
    }
}

/// The largest number of findings sharing the pattern id of one of the first `k` findings.
pub open spec fn max_id_count(ms: Seq<Match>, k: nat) -> nat
    decreases k,
{
    if k == 0 {
        0
    } else {
        let prev = max_id_count(ms, (k - 1) as nat);
        let c = id_count(ms, ms[k - 1].pattern_id@, ms.len());
        if c > prev { c } else { prev }
    }
}

/// The concentration multiplier of a most repeated pattern occurring `m`
/// times, in tenths: 13 above 10, 12 above 5, 11 above 3, else 10.
pub open spec fn concentration_of(m: nat) -> u32 {
    if m > 10 { 13 } else if m > 5 { 12 } else if m > 3 { 11 } else { 10 }
}

proof fn lemma_id_count_bound(ms: Seq<Match>, p: Seq<char>, n: nat)
    ensures
        id_count(ms, p, n) <= n,
    decreases n,
{
    if n > 0 {
        lemma_id_count_bound(ms, p, (n - 1) as nat);
    }
}

fn count_id(findings: &Vec<Match>, p: &str) -> (r: usize)
    ensures
        r == id_count(findings@, p@, findings.len() as nat),
{
    let mut c: usize = 0;
    let mut i: usize = 0;
    while i < findings.len()
        invariant
            i <= findings.len(),
            c == id_count(findings@, p@, i as nat),
        decreases findings.len() - i,
    {
        proof {
            lemma_id_count_bound(findings@, p@, i as nat);
        }
        if str_eq(findings[i].pattern_id.as_str(), p) {
            c = c + 1;
        }
        i = i + 1;
    }
    c
}

/// The concentration multiplier of the findings, in tenths, from the number
/// of findings of the most repeated pattern id.
pub fn calculate_concentration_factor(findings: &Vec<Match>) -> (r: u32)
    ensures
        r == concentration_of(max_id_count(findings@, findings.len() as nat)),
{
    let mut max: usize = 0;
    let mut i: usize = 0;
    while i < findings.len()
        invariant
            i <= findings.len(),
            max == max_id_count(findings@, i as nat),
        decreases findings.len() - i,
    {
        let c = count_id(findings, findings[i].pattern_id.as_str());
        if c > max {
            max = c;
        }
        i = i + 1;
    }
    if max > 10 {
        13
    } else if max > 5 {
        12
    } else if max > 3 {
        11
    } else {
        10
    }
}

/// The risk level of a whole-number score.
pub open spec fn level_of(score: u32) -> RiskLevel {
    if 80 <= score <= 100 {
        RiskLevel::Critical
    } else if 60 <= score <= 79 {
        RiskLevel::High
    } else if 40 <= score <= 59 {
        RiskLevel::Medium
    } else if 20 <= score <= 39 {
        RiskLevel::Low
    } else {
        RiskLevel::Minimal
    }
}

/// The risk level of a score, given as its whole part.
pub fn score_to_level(score: u32) -> (r: RiskLevel)
    ensures
        r == level_of(score),
{
    if 80 <= score && score <= 100 {
        RiskLevel::Critical
    } else if 60 <= score && score <= 79 {
        RiskLevel::High
    } else if 40 <= score && score <= 59 {
        RiskLevel::Medium
    } else if 20 <= score && score <= 39 {
        RiskLevel::Low
    } else {
        RiskLevel::Minimal
    }
}

/// The recommendations for a breakdown and the whole part of a score.
pub open spec fn recommendations_of(b: SeverityBreakdown, score: u32) -> Seq<Seq<char>> {
    (if b.critical > 0 {
        seq!["🚨 CRITICAL: "@ + decimal(b.critical as nat) + " critical vulnerabilities found - DO NOT DEPLOY until fixed"@]
    } else {
        Seq::empty()
    }) + (if b.high > 0 {
        seq!["⚠️  HIGH: "@ + decimal(b.high as nat) + " high-severity issues require immediate attention"@]
    } else {
        Seq::empty()
    }) + if score >= 80 {
        seq![
            "❌ Risk Level: CRITICAL - Contract is not safe for production"@,
            "→ Conduct full security audit before deployment"@,
        ]
    } else if score >= 60 {
        seq!["⚠️  Risk Level: HIGH - Major security concerns present"@, "→ Fix critical and high-severity issues immediately"@]
    } else if score >= 40 {
        seq!["⚡ Risk Level: MEDIUM - Security improvements needed"@, "→ Address high and medium severity findings"@]
    } else if score >= 20 {
        seq!["✓ Risk Level: LOW - Minor security improvements recommended"@]
    } else {
        seq!["✅ Risk Level: MINIMAL - Good security posture"@]
    }
}

/// The recommendations for a breakdown and a score, given as its whole part.
pub fn generate_recommendations(b: &SeverityBreakdown, score: u32) -> (r: Vec<String>)
    ensures
        strs(r@) == recommendations_of(*b, score),
{
    let mut recs: Vec<String> = Vec::new();
    if b.critical > 0 {
        let mut t = owned("🚨 CRITICAL: ");
        push_decimal(&mut t, b.critical as usize);
        push_str(&mut t, " critical vulnerabilities found - DO NOT DEPLOY until fixed");
        recs.push(t);
    }
    if b.high > 0 {
        let mut t = owned("⚠️  HIGH: ");
        push_decimal(&mut t, b.high as usize);
        push_str(&mut t, " high-severity issues require immediate attention");
        recs.push(t);
    }
    if score >= 80 {
        recs.push(owned("❌ Risk Level: CRITICAL - Contract is not safe for production"));
        recs.push(owned("→ Conduct full security audit before deployment"));
    } else if score >= 60 {
        recs.push(owned("⚠️  Risk Level: HIGH - Major security concerns present"));
        recs.push(owned("→ Fix critical and high-severity issues immediately"));
    } else if score >= 40 {
        recs.push(owned("⚡ Risk Level: MEDIUM - Security improvements needed"));
        recs.push(owned("→ Address high and medium severity findings"));
    } else if score >= 20 {
        recs.push(owned("✓ Risk Level: LOW - Minor security improvements recommended"));
    } else {
        recs.push(owned("✅ Risk Level: MINIMAL - Good security posture"));
    }
    assert(strs(recs@) =~= recommendations_of(*b, score));
    recs
}

/// The position of a risk level from minimal (0) to critical (4).
pub open spec fn level_rank(l: RiskLevel) -> nat {
    match l {
        RiskLevel::Minimal => 0,
        RiskLevel::Low => 1,
        RiskLevel::Medium => 2,
        RiskLevel::High => 3,
        RiskLevel::Critical => 4,
    }
}

/// Within the score range 0 to 100, a higher score never gives a lower level.
pub proof fn law_score_level_monotone(a: u32, b: u32)
    requires
        a <= b <= 100,
    ensures
        level_rank(level_of(a)) <= level_rank(level_of(b)),
{
}

} // verus!
