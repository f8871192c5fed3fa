//! The content of a SARIF report: one rule per pattern (with the severity and
//! message of its first finding), one result per finding, and the levels and
//! scores severities map to. Serializing the report is done by the caller.
use vstd::prelude::*;
use crate::text::{owned, str_eq, strs};
use crate::types::{Match, Severity};

verus! {

/// The SARIF level of a severity.
pub open spec fn sarif_level(s: Severity) -> Seq<char> {
    match s {
        Severity::Critical | Severity::High => "error"@,
        Severity::Medium => "warning"@,
        Severity::Low | Severity::Info => "note"@,
    }
}

/// The SARIF level of a severity: errors for critical and high, warnings for
/// medium, notes otherwise.
pub fn severity_to_sarif_level(s: Severity) -> (r: String)
    ensures
        r@ == sarif_level(s),
{
    match s {
        Severity::Critical | Severity::High => owned("error"),
        Severity::Medium => owned("warning"),
        Severity::Low | Severity::Info => owned("note"),
    }
}

/// The security score of a severity.
pub open spec fn security_score(s: Severity) -> Seq<char> {
    match s {
        Severity::Critical => "10.0"@,
        Severity::High => "8.0"@,
        Severity::Medium => "5.0"@,
        Severity::Low => "3.0"@,
        Severity::Info => "1.0"@,
    }
}

/// The security score of a severity, from 10.0 for critical to 1.0 for info.
pub fn severity_to_score(s: Severity) -> (r: String)
    ensures
        r@ == security_score(s),
{
    match s {
        Severity::Critical => owned("10.0"),
        Severity::High => owned("8.0"),
        Severity::Medium => owned("5.0"),
        Severity::Low => owned("3.0"),
        Severity::Info => owned("1.0"),
    }
}

/// A rule of the report.
#[derive(Debug, Clone)]
pub struct SarifRuleData {
    pub id: String,
    pub message: String,
    pub level: String,
    pub security_severity: String,
}

/// A result of the report.
#[derive(Debug, Clone)]
pub struct SarifResultData {
    pub rule_id: String,
    pub level: String,
    pub message: String,
    pub uri: String,
    pub start_line: usize,
}

/// The rule a finding gives.
pub open spec fn rule_view(r: SarifRuleData) -> (Seq<char>, Seq<char>, Seq<char>, Seq<char>) {
    (r.id@, r.message@, r.level@, r.security_severity@)
}

/// The first findings of each pattern among the first `n`, as rules, in the
/// order the patterns first occur.
pub open spec fn rules_of(ms: Seq<Match>, n: nat) -> Seq<(Seq<char>, Seq<char>, Seq<char>, Seq<char>)>
    decreases n,
{
    if n == 0 {
        Seq::empty()
    } else {
        let prev = rules_of(ms, (n - 1) as nat);
        let m = ms[n - 1];
        if exists|j: int| 0 <= j < n - 1 && ms[j].pattern_id@ == m.pattern_id@ {
            prev
        } else {
            prev.push((m.pattern_id@, m.message@, sarif_level(m.severity), security_score(m.severity)))
        }
    }
}

/// The rules of the report: one per pattern, from its first finding.
pub fn sarif_rules(findings: &Vec<Match>) -> (r: Vec<SarifRuleData>)
    ensures
        r@.map_values(|x: SarifRuleData| rule_view(x)) == rules_of(findings@, findings.len() as nat),
{
    let mut rules: Vec<SarifRuleData> = Vec::new();
    let mut i: usize = 0;
    while i < findings.len()
        invariant
            i <= findings.len(),
            rules@.map_values(|x: SarifRuleData| rule_view(x)) == rules_of(findings@, i as nat),
            forall|k: int| 0 <= k < rules.len() ==> exists|j: int| 0 <= j < i && #[trigger] rules@[k].id@ == findings@[j].pattern_id@,
            forall|j: int| #![trigger findings@[j]] 0 <= j < i ==> exists|k: int| 0 <= k < rules.len() && #[trigger] rules@[k].id@ == findings@[j].pattern_id@,
        decreases findings.len() - i,
    {
        let m = &findings[i];
        let mut seen = false;
        let mut k: usize = 0;
        while k < rules.len()
            invariant
                k <= rules.len(),
                !seen ==> forall|q: int| 0 <= q < k ==> rules@[q].id@ != m.pattern_id@,
                seen ==> exists|q: int| 0 <= q < rules.len() && rules@[q].id@ == m.pattern_id@,
            decreases rules.len() - k,
        {
            if str_eq(rules[k].id.as_str(), m.pattern_id.as_str()) {
                seen = true;
            }
            k = k + 1;
        }
        let ghost before = rules@;
        proof {
            if seen {
                let q = choose|q: int| 0 <= q < rules.len() && rules@[q].id@ == m.pattern_id@;
                let j = choose|j: int| 0 <= j < i && #[trigger] rules@[q].id@ == findings@[j].pattern_id@;
                assert(exists|j: int| 0 <= j < i && findings@[j].pattern_id@ == m.pattern_id@);
            } else {
                assert forall|j: int| #![trigger findings@[j]] 0 <= j < i implies findings@[j].pattern_id@ != m.pattern_id@ by {
                    let q = choose|q: int| 0 <= q < rules.len() && #[trigger] rules@[q].id@ == findings@[j].pattern_id@;
                }
            }
        }
        if !seen {
            rules.push(SarifRuleData {
                id: owned(m.pattern_id.as_str()),
                message: owned(m.message.as_str()),
                level: severity_to_sarif_level(m.severity),
                security_severity: severity_to_score(m.severity),
            });
            assert(rules@.map_values(|x: SarifRuleData| rule_view(x)) =~= before.map_values(|x: SarifRuleData| rule_view(x)).push(
                rule_view(rules@[rules.len() - 1]),
            ));
            assert forall|k: int| 0 <= k < rules.len() implies exists|j: int| 0 <= j < i + 1 && #[trigger] rules@[k].id@
                == findings@[j].pattern_id@ by {
                if k < before.len() {
                    assert(rules@[k] == before[k]);
                } else {
                    assert(rules@[k].id@ == findings@[i as int].pattern_id@);
                }
            }
            assert forall|j: int| #![trigger findings@[j]] 0 <= j < i + 1 implies exists|k: int| 0 <= k < rules.len() && #[trigger] rules@[k].id@
                == findings@[j].pattern_id@ by {
                if j < i {
                    let k = choose|k: int| 0 <= k < before.len() && #[trigger] before[k].id@ == findings@[j].pattern_id@;
                    assert(rules@[k] == before[k]);
                } else {
                    assert(rules@[rules.len() - 1].id@ == findings@[j].pattern_id@);
                }
            }
        }
        i = i + 1;
    }
    rules
}

/// The result a finding gives.
pub open spec fn result_view(r: SarifResultData) -> (Seq<char>, Seq<char>, Seq<char>, Seq<char>, usize) {
    (r.rule_id@, r.level@, r.message@, r.uri@, r.start_line)
}

/// The results of the report, one per finding, in order.
pub fn sarif_results(findings: &Vec<Match>) -> (r: Vec<SarifResultData>)
    ensures
        r.len() == findings.len(),
        forall|k: int| 0 <= k < r.len() ==> #[trigger] result_view(r@[k]) == (findings@[k].pattern_id@, sarif_level(
            findings@[k].severity,
        ), findings@[k].message@, findings@[k].file_path@, findings@[k].line_number),
{
    let mut out: Vec<SarifResultData> = Vec::new();
    let mut i: usize = 0;
    while i < findings.len()
        invariant
            i <= findings.len(),
            out.len() == i,
            forall|k: int| 0 <= k < i ==> #[trigger] result_view(out@[k]) == (findings@[k].pattern_id@, sarif_level(
                findings@[k].severity,
            ), findings@[k].message@, findings@[k].file_path@, findings@[k].line_number),
        decreases findings.len() - i,
    {
        let m = &findings[i];
        out.push(SarifResultData {
            rule_id: owned(m.pattern_id.as_str()),
            level: severity_to_sarif_level(m.severity),
            message: owned(m.message.as_str()),
            uri: owned(m.file_path.as_str()),
            start_line: m.line_number,
        });
        i = i + 1;
    }
    out
}

} // verus!
