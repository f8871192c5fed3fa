//! The Markdown summary of a scan: how many contracts and findings, the most
//! frequent patterns, the findings per template and per severity, and the
//! contracts per chain.
use vstd::prelude::*;
use crate::text::{owned, push_str, push_decimal, decimal, strs};
use crate::types::{Match, ScanResult, Severity};
use crate::scan_pipeline::{tally, occurrences};
use crate::runtime_env::dedupe;

verus! {

/// Keys with their counts, as plain values.
pub open spec fn counts_view(v: Seq<(String, usize)>) -> Seq<(Seq<char>, nat)> {
    v.map_values(|e: (String, usize)| (e.0@, e.1 as nat))
}

/// The length of the longest prefix of `s` whose counts are at least `c`.
pub open spec fn at_least_prefix(s: Seq<(Seq<char>, nat)>, c: nat) -> nat
    decreases s.len(),
{
    if s.len() == 0 {
        0
    } else if s[0].1 >= c {
        1 + at_least_prefix(s.drop_first(), c)
    } else {
        0
    }
}

/// `s` ordered by count, highest first, entries of equal count keeping their
/// order: each entry goes after all the earlier ones whose count is at least
/// its own.
pub open spec fn by_count(s: Seq<(Seq<char>, nat)>) -> Seq<(Seq<char>, nat)>
    decreases s.len(),
{
    if s.len() == 0 {
        Seq::empty()
    } else {
        let t = by_count(s.drop_last());
        let p = at_least_prefix(t, s.last().1) as int;
        t.take(p) + seq![s.last()] + t.skip(p)
    }
}

proof fn lemma_at_least_prefix(s: Seq<(Seq<char>, nat)>, c: nat, p: int)
    requires
        0 <= p <= s.len(),
        forall|j: int| 0 <= j < p ==> (#[trigger] s[j]).1 >= c,
        p < s.len() ==> s[p].1 < c,
    ensures
        at_least_prefix(s, c) == p,
    decreases p,
{
    if p > 0 {
        let t = s.drop_first();
        assert forall|j: int| 0 <= j < p - 1 implies (#[trigger] t[j]).1 >= c by {
            assert(t[j] == s[j + 1]);
        }
        if p - 1 < t.len() {
            assert(t[p - 1] == s[p]);
        }
        assert(s[0].1 >= c);
        lemma_at_least_prefix(t, c, p - 1);
    }
}

/// `v` ordered by count, highest first, equal counts keeping their order.
pub fn sort_by_count(v: &Vec<(String, usize)>) -> (r: Vec<(String, usize)>)
    ensures
        counts_view(r@) == by_count(counts_view(v@)),
{
    let ghost vv = counts_view(v@);
    let mut out: Vec<(String, usize)> = Vec::new();
    let mut i: usize = 0;
    while i < v.len()
        invariant
            i <= v.len(),
            vv == counts_view(v@),
            counts_view(out@) == by_count(vv.take(i as int)),
        decreases v.len() - i,
    {
        let c = v[i].1;
        let mut p: usize = 0;
        while p < out.len() && out[p].1 >= c
            invariant
                p <= out.len(),
                forall|j: int| 0 <= j < p ==> (#[trigger] out@[j]).1 >= c,
            decreases out.len() - p,
        {
            p = p + 1;
        }
        let ghost t = counts_view(out@);
        proof {
            assert forall|j: int| 0 <= j < p implies (#[trigger] t[j]).1 >= c by {
                assert(t[j].1 == out@[j].1);
            }
            if p < out.len() {
                assert(t[p as int].1 == out@[p as int].1);
            }
            lemma_at_least_prefix(t, c as nat, p as int);
            assert(vv.take(i + 1).drop_last() =~= vv.take(i as int));
            assert(vv.take(i + 1).last() == vv[i as int]);
            assert(vv[i as int] == (v@[i as int].0@, c as nat));
        }
        let e = (owned(v[i].0.as_str()), c);
        let ghost before = out@;
        out.insert(p, e);
        assert(counts_view(out@) =~= t.take(p as int) + seq![(e.0@, c as nat)] + t.skip(p as int)) by {
            assert(out@ == before.insert(p as int, e));
        }
        i = i + 1;
    }
    assert(vv.take(v.len() as int) =~= vv);
    out
}

/// The findings of scan results, one result after the other.
pub open spec fn all_matches(rs: Seq<ScanResult>) -> Seq<Match>
    decreases rs.len(),
{
    if rs.len() == 0 {
        Seq::empty()
    } else {
        all_matches(rs.drop_last()) + rs.last().matches@
    }
}

/// The pattern ids of findings, in order.
pub open spec fn pattern_keys(ms: Seq<Match>) -> Seq<Seq<char>> {
    ms.map_values(|m: Match| m.pattern_id@)
}

/// The template ids of findings, in order.
pub open spec fn template_keys(ms: Seq<Match>) -> Seq<Seq<char>> {
    ms.map_values(|m: Match| m.template_id@)
}

/// The chains of scan results, in order.
pub open spec fn chain_keys(rs: Seq<ScanResult>) -> Seq<Seq<char>> {
    rs.map_values(|r: ScanResult| r.chain@)
}

/// How many findings have severity `s`.
pub open spec fn severity_total(ms: Seq<Match>, s: Severity) -> nat
    decreases ms.len(),
{
    if ms.len() == 0 {
        0
    } else {
        severity_total(ms.drop_last(), s) + if ms.last().severity == s { 1nat } else { 0nat }
    }
}

/// Each key once, in the order it first occurs, with how often it occurs.
pub open spec fn key_counts(ks: Seq<Seq<char>>) -> Seq<(Seq<char>, nat)> {
    dedupe(ks).map_values(|k: Seq<char>| (k, occurrences(ks, k)))
}

/// One line per entry: `- **key**: count` followed by `unit`.
pub open spec fn count_lines(s: Seq<(Seq<char>, nat)>, unit: Seq<char>) -> Seq<char>
    decreases s.len(),
{
    if s.len() == 0 {
        Seq::empty()
    } else {
        count_lines(s.drop_last(), unit) + "- **"@ + s.last().0 + "**: "@ + decimal(s.last().1) + unit
    }
}

/// The severity line for `n` findings of severity `name`, none when there are none.
pub open spec fn severity_line(name: Seq<char>, n: nat) -> Seq<char> {
    if n > 0 {
        "- **"@ + name + "**: "@ + decimal(n) + "\n"@
    } else {
        Seq::empty()
    }
}

/// At most the first ten entries.
pub open spec fn top_ten(s: Seq<(Seq<char>, nat)>) -> Seq<(Seq<char>, nat)> {
    if s.len() <= 10 { s } else { s.take(10) }
}

/// The body of the scan summary for `rs`: the numbers of contracts and
/// findings; the ten most frequent patterns and the templates, each by count,
/// highest first; the critical and high findings; the contracts per chain.
pub open spec fn summary_body(rs: Seq<ScanResult>) -> Seq<char> {
    let ms = all_matches(rs);
    "## 📊 Scan Results\n\n"@ + "- **Contracts Scanned:** "@ + decimal(rs.len()) + "\n"@ + "- **Total Findings:** "@
        + decimal(ms.len()) + "\n\n"@ + "## 🔍 Pattern Frequency\n\n"@ + count_lines(
        top_ten(by_count(key_counts(pattern_keys(ms)))),
        " occurrences\n"@,
    ) + "\n"@ + "## 📋 Findings by Template\n\n"@ + count_lines(by_count(key_counts(template_keys(ms))), " findings\n"@)
        + "\n"@ + "## ⚠️ Findings by Severity\n\n"@ + severity_line("Critical"@, severity_total(ms, Severity::Critical))
        + severity_line("High"@, severity_total(ms, Severity::High)) + "\n"@ + "## 🌐 Chain Distribution\n\n"@
        + count_lines(key_counts(chain_keys(rs)), " contracts\n"@) + "\n"@
}

/// Appends a line per entry among the first `n` of `v`.
fn push_count_lines(out: &mut String, v: &Vec<(String, usize)>, n: usize, unit: &str)
    requires
        n <= v.len(),
    ensures
        final(out)@ == old(out)@ + count_lines(counts_view(v@).take(n as int), unit@),
{
    let ghost cv = counts_view(v@);
    let ghost head = out@;
    let mut i: usize = 0;
    while i < n
        invariant
            i <= n <= v.len(),
            cv == counts_view(v@),
            out@ == head + count_lines(cv.take(i as int), unit@),
        decreases n - i,
    {
        assert(cv.take(i + 1).drop_last() =~= cv.take(i as int));
        assert(cv.take(i + 1).last() == (v@[i as int].0@, v@[i as int].1 as nat));
        push_str(out, "- **");
        push_str(out, v[i].0.as_str());
        push_str(out, "**: ");
        push_decimal(out, v[i].1);
        push_str(out, unit);
        i = i + 1;
    }
}

/// The tally of `ks` as plain values is each key once with its count.
proof fn lemma_tally_view(ks: Seq<String>, r: Seq<(String, usize)>)
    requires
        r.map_values(|e: (String, usize)| e.0@) == dedupe(strs(ks)),
        forall|i: int| 0 <= i < r.len() ==> (#[trigger] r[i]).1 == occurrences(strs(ks), r[i].0@),
    ensures
        counts_view(r) == key_counts(strs(ks)),
{
    let d = dedupe(strs(ks));
    assert(r.map_values(|e: (String, usize)| e.0@).len() == r.len());
    assert forall|i: int| 0 <= i < r.len() implies counts_view(r)[i] == key_counts(strs(ks))[i] by {
        assert(r.map_values(|e: (String, usize)| e.0@)[i] == r[i].0@);
        assert(d[i] == r[i].0@);
    }
    assert(counts_view(r) =~= key_counts(strs(ks)));
}

/// The body of the scan summary for `results` (see `summary_body`).
pub fn findings_summary(results: &Vec<ScanResult>) -> (r: String)
    ensures
        r@ == summary_body(results@),
{
    let ghost rs = results@;
    let mut pids: Vec<String> = Vec::new();
    let mut tids: Vec<String> = Vec::new();
    let mut chains: Vec<String> = Vec::new();
    let mut critical: usize = 0;
    let mut high: usize = 0;
    let mut i: usize = 0;
    while i < results.len()
        invariant
            i <= results.len(),
            rs == results@,
            strs(pids@) == pattern_keys(all_matches(rs.take(i as int))),
            strs(tids@) == template_keys(all_matches(rs.take(i as int))),
            strs(chains@) == chain_keys(rs.take(i as int)),
            critical == severity_total(all_matches(rs.take(i as int)), Severity::Critical),
            high == severity_total(all_matches(rs.take(i as int)), Severity::High),
            critical <= pids.len(),
            high <= pids.len(),
        decreases results.len() - i,
    {
        let r = &results[i];
        let ghost done = all_matches(rs.take(i as int));
        proof {
            assert(rs.take(i + 1).drop_last() =~= rs.take(i as int));
            assert(rs.take(i + 1).last() == *r);
        }
        let ghost before_c = chains@;
        chains.push(owned(r.chain.as_str()));
        assert(strs(chains@) =~= strs(before_c).push(r.chain@));
        assert(chain_keys(rs.take(i + 1)) =~= chain_keys(rs.take(i as int)).push(r.chain@));
        let mut j: usize = 0;
        while j < r.matches.len()
            invariant
                j <= r.matches.len(),
                strs(pids@) == pattern_keys(done + r.matches@.take(j as int)),
                strs(tids@) == template_keys(done + r.matches@.take(j as int)),
                critical == severity_total(done + r.matches@.take(j as int), Severity::Critical),
                high == severity_total(done + r.matches@.take(j as int), Severity::High),
                critical <= pids.len(),
                high <= pids.len(),
            decreases r.matches.len() - j,
        {
            let m = &r.matches[j];
            let ghost prev = done + r.matches@.take(j as int);
            let ghost next = done + r.matches@.take(j + 1);
            assert(next.drop_last() =~= prev);
            assert(next.last() == *m);
            let ghost bp = pids@;
            let ghost bt = tids@;
            pids.push(owned(m.pattern_id.as_str()));
            tids.push(owned(m.template_id.as_str()));
            assert(strs(pids@) =~= strs(bp).push(m.pattern_id@));
            assert(strs(tids@) =~= strs(bt).push(m.template_id@));
            assert(pattern_keys(next) =~= pattern_keys(prev).push(m.pattern_id@));
            assert(template_keys(next) =~= template_keys(prev).push(m.template_id@));
            // The counts stay within the number of findings, itself a `usize`.
            let n_found = pids.len();
            if m.severity == Severity::Critical {
                critical = critical + 1;
            }
            if m.severity == Severity::High {
                high = high + 1;
            }
            j = j + 1;
        }
        assert(r.matches@.take(r.matches@.len() as int) =~= r.matches@);
        i = i + 1;
    }
    assert(rs.take(rs.len() as int) =~= rs);
    let ghost ms = all_matches(rs);
    let pc0 = tally(&pids);
    let tc0 = tally(&tids);
    let cc = tally(&chains);
    proof {
        lemma_tally_view(pids@, pc0@);
        lemma_tally_view(tids@, tc0@);
        lemma_tally_view(chains@, cc@);
    }
    let pc = sort_by_count(&pc0);
    let tc = sort_by_count(&tc0);
    let top = if pc.len() <= 10 { pc.len() } else { 10 };
    proof {
        let cv = counts_view(pc@);
        if cv.len() <= 10 {
            assert(cv.take(cv.len() as int) =~= cv);
        }
        assert(tc.len() == counts_view(tc@).len());
        assert(counts_view(tc@).take(tc.len() as int) =~= counts_view(tc@));
        assert(counts_view(cc@).take(cc.len() as int) =~= counts_view(cc@));
        assert(pids@.len() == ms.len());
    }
    assert(counts_view(pc@).take(top as int) == top_ten(by_count(key_counts(pattern_keys(ms)))));
    assert(counts_view(tc@) == by_count(key_counts(template_keys(ms))));
    assert(counts_view(cc@) == key_counts(chain_keys(rs)));
    assert(pids.len() == ms.len()) by {
        assert(strs(pids@).len() == pids@.len());
    }
    let mut out = owned("## 📊 Scan Results\n\n");
    push_str(&mut out, "- **Contracts Scanned:** ");
    push_decimal(&mut out, results.len());
    push_str(&mut out, "\n");
    push_str(&mut out, "- **Total Findings:** ");
    push_decimal(&mut out, pids.len());
    push_str(&mut out, "\n\n");
    push_str(&mut out, "## 🔍 Pattern Frequency\n\n");
    push_count_lines(&mut out, &pc, top, " occurrences\n");
    push_str(&mut out, "\n");
    push_str(&mut out, "## 📋 Findings by Template\n\n");
    push_count_lines(&mut out, &tc, tc.len(), " findings\n");
    push_str(&mut out, "\n");
    push_str(&mut out, "## ⚠️ Findings by Severity\n\n");
    let ghost s1 = out@;
    if critical > 0 {
        push_str(&mut out, "- **");
        push_str(&mut out, "Critical");
        push_str(&mut out, "**: ");
        push_decimal(&mut out, critical);
        push_str(&mut out, "\n");
    }
    assert(out@ =~= s1 + severity_line("Critical"@, critical as nat));
    let ghost s2 = out@;
    if high > 0 {
        push_str(&mut out, "- **");
        push_str(&mut out, "High");
        push_str(&mut out, "**: ");
        push_decimal(&mut out, high);
        push_str(&mut out, "\n");
    }
    assert(out@ =~= s2 + severity_line("High"@, high as nat));
    push_str(&mut out, "\n");
    push_str(&mut out, "## 🌐 Chain Distribution\n\n");
    push_count_lines(&mut out, &cc, cc.len(), " contracts\n");
    push_str(&mut out, "\n");
    assert(out@ =~= summary_body(rs));
    out
}

} // verus!
