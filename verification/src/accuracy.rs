//! Accuracy of the scanner against labelled contracts: true positives, false
//! positives and false negatives, overall and per pattern.
use vstd::prelude::*;
use crate::types::Match;
use crate::text::{contains, str_has, str_eq, owned};
use crate::dependency_analyzer::{find_key, keys_distinct};
use crate::dataflow::{first_entry, lemma_first_entry_at, lemma_first_entry_none, lemma_first_entry_update, lemma_first_entry_push};

verus! {

/// The labelled contracts.
#[derive(Debug, Clone)]
pub struct GroundTruth {
    pub contracts: Vec<ContractLabel>,
}

/// A labelled contract: its file, its known vulnerabilities and safe patterns.
#[derive(Debug, Clone)]
pub struct ContractLabel {
    pub file_path: String,
    pub description: String,
    pub vulnerabilities: Vec<VulnerabilityLabel>,
    pub safe_patterns: Vec<String>,
}

/// A known vulnerability of a contract.
#[derive(Debug, Clone)]
pub struct VulnerabilityLabel {
    pub pattern_id: String,
    pub line_number: usize,
    pub severity: String,
    pub description: String,
    pub exploitable: bool,
}

/// The confusion counts of an evaluation, overall and per pattern.
#[derive(Debug, Clone)]
pub struct AccuracyCounts {
    pub true_positives: usize,
    pub false_positives: usize,
    pub false_negatives: usize,
    pub per_category: Vec<(String, (usize, usize, usize))>,
}

/// Compares findings against the labelled contracts.
pub struct AccuracyEvaluator {
    pub ground_truth: GroundTruth,
}

/// What a finding is against the labels.
pub enum Outcome {
    /// No labelled contract's file is in the finding's path.
    NoContract,
    /// The contract has no label of this pattern within two lines.
    Miss,
    /// It matches label `idx` of the contract.
    Hit(nat),
}

/// The first contract whose file is in `path`.
pub open spec fn contract_index(cs: Seq<ContractLabel>, path: Seq<char>) -> Option<nat>
    decreases cs.len(),
{
    if cs.len() == 0 {
        None
    } else {
        match contract_index(cs.drop_last(), path) {
            Some(i) => Some(i),
            None => if str_has(path, cs.last().file_path@) { Some((cs.len() - 1) as nat) } else { None },
        }
    }
}

/// A label matches a finding: same pattern, at most two lines apart.
pub open spec fn label_matches(v: VulnerabilityLabel, m: Match) -> bool {
    v.pattern_id@ == m.pattern_id@ && (if v.line_number >= m.line_number {
        v.line_number - m.line_number <= 2
    } else {
        m.line_number - v.line_number <= 2
    })
}

/// The first label of `vs` that matches `m`.
pub open spec fn label_index(vs: Seq<VulnerabilityLabel>, m: Match) -> Option<nat>
    decreases vs.len(),
{
    if vs.len() == 0 {
        None
    } else {
        match label_index(vs.drop_last(), m) {
            Some(i) => Some(i),
            None => if label_matches(vs.last(), m) { Some((vs.len() - 1) as nat) } else { None },
        }
    }
}

/// What a finding is against the labelled contracts.
pub open spec fn outcome(cs: Seq<ContractLabel>, m: Match) -> Outcome {
    match contract_index(cs, m.file_path@) {
        None => Outcome::NoContract,
        Some(c) => match label_index(cs[c as int].vulnerabilities@, m) {
            None => Outcome::Miss,
            Some(i) => Outcome::Hit(i),
        },
    }
}

/// How many findings of `ms` hit a label, for pattern `cat` when it is given.
pub open spec fn count_hits(cs: Seq<ContractLabel>, ms: Seq<Match>, cat: Option<Seq<char>>) -> nat
    decreases ms.len(),
{
    if ms.len() == 0 {
        0
    } else {
        count_hits(cs, ms.drop_last(), cat) + if outcome(cs, ms.last()) is Hit && (cat is None
            || cat == Some(ms.last().pattern_id@)) { 1nat } else { 0nat }
    }
}

/// How many findings of `ms` miss: overall counting those outside every
/// labelled contract, per pattern only those inside one.
pub open spec fn count_misses(cs: Seq<ContractLabel>, ms: Seq<Match>, cat: Option<Seq<char>>) -> nat
    decreases ms.len(),
{
    if ms.len() == 0 {
        0
    } else {
        count_misses(cs, ms.drop_last(), cat) + match cat {
            None => if outcome(cs, ms.last()) is Hit { 0nat } else { 1nat },
            Some(p) => if outcome(cs, ms.last()) is Miss && ms.last().pattern_id@ == p { 1nat } else { 0nat },
        }
    }
}

/// Label `idx` of the contract with file `path` was matched by a finding
/// whose path is exactly `path`.
pub open spec fn label_found(cs: Seq<ContractLabel>, ms: Seq<Match>, path: Seq<char>, idx: nat) -> bool {
    exists|k: int| 0 <= k < ms.len() && (#[trigger] ms[k]).file_path@ == path && outcome(cs, ms[k]) == Outcome::Hit(idx)
}

/// How many labels among the first `n` of contract `c` were not found, for
/// pattern `cat` when it is given.
pub open spec fn count_unfound_in(cs: Seq<ContractLabel>, ms: Seq<Match>, c: ContractLabel, n: nat, cat: Option<Seq<char>>) -> nat
    decreases n,
{
    if n == 0 {
        0
    } else {
        let i = (n - 1) as nat;
        count_unfound_in(cs, ms, c, i, cat) + if !label_found(cs, ms, c.file_path@, i) && (cat is None
            || cat == Some(c.vulnerabilities@[i as int].pattern_id@)) { 1nat } else { 0nat }
    }
}

/// How many labels of the first `n` contracts were not found.
pub open spec fn count_unfound(cs: Seq<ContractLabel>, ms: Seq<Match>, n: nat, cat: Option<Seq<char>>) -> nat
    decreases n,
{
    if n == 0 {
        0
    } else {
        let c = cs[n - 1];
        count_unfound(cs, ms, (n - 1) as nat, cat) + count_unfound_in(cs, ms, c, c.vulnerabilities@.len(), cat)
    }
}

/// The number of labels of the first `n` contracts.
pub open spec fn label_total(cs: Seq<ContractLabel>, n: nat) -> nat
    decreases n,
{
    if n == 0 { 0 } else { label_total(cs, (n - 1) as nat) + cs[n - 1].vulnerabilities@.len() }
}

/// The counts of pattern `cat` after the findings `ms` and the first `n`
/// contracts' labels, and after the first `j` labels of contract `n`.
pub open spec fn cat_counts(cs: Seq<ContractLabel>, all: Seq<Match>, ms: Seq<Match>, n: nat, j: nat, cat: Seq<char>) -> (nat, nat, nat) {
    (
        count_hits(cs, ms, Some(cat)),
        count_misses(cs, ms, Some(cat)),
        count_unfound(cs, all, n, Some(cat)) + if n < cs.len() { count_unfound_in(cs, all, cs[n as int], j, Some(cat)) } else { 0 },
    )
}

/// The entry of the per-pattern counts for a pattern: present once some count is.
pub open spec fn cat_entry(t: (nat, nat, nat)) -> Option<(nat, nat, nat)> {
    if t.0 + t.1 + t.2 > 0 { Some(t) } else { None }
}

/// An entry of the per-pattern counts as numbers.
pub open spec fn entry_view(o: Option<(usize, usize, usize)>) -> Option<(nat, nat, nat)> {
    match o {
        Some(t) => Some((t.0 as nat, t.1 as nat, t.2 as nat)),
        None => None,
    }
}

proof fn lemma_counts_bounded(cs: Seq<ContractLabel>, ms: Seq<Match>, cat: Option<Seq<char>>)
    ensures
        count_hits(cs, ms, cat) + count_misses(cs, ms, cat) <= ms.len(),
    decreases ms.len(),
{
    if ms.len() > 0 {
        lemma_counts_bounded(cs, ms.drop_last(), cat);
    }
}

proof fn lemma_unfound_in_bounded(cs: Seq<ContractLabel>, ms: Seq<Match>, c: ContractLabel, n: nat, cat: Option<Seq<char>>)
    ensures
        count_unfound_in(cs, ms, c, n, cat) <= n,
    decreases n,
{
    if n > 0 {
        lemma_unfound_in_bounded(cs, ms, c, (n - 1) as nat, cat);
    }
}

proof fn lemma_unfound_bounded(cs: Seq<ContractLabel>, ms: Seq<Match>, n: nat, cat: Option<Seq<char>>)
    requires
        n <= cs.len(),
    ensures
        count_unfound(cs, ms, n, cat) <= label_total(cs, n),
    decreases n,
{
    if n > 0 {
        lemma_unfound_bounded(cs, ms, (n - 1) as nat, cat);
        lemma_unfound_in_bounded(cs, ms, cs[n - 1], cs[n - 1].vulnerabilities@.len(), cat);
    }
}

proof fn lemma_label_total_mono(cs: Seq<ContractLabel>, a: nat, b: nat)
    requires
        a <= b <= cs.len(),
    ensures
        label_total(cs, a) <= label_total(cs, b),
    decreases b - a,
{
    if a < b {
        lemma_label_total_mono(cs, a, (b - 1) as nat);
    }
}

/// Adds one to count `which` (0, 1 or 2) of pattern `cat`, adding the
/// pattern with zero counts first when it is new.
fn bump(pc: &mut Vec<(String, (usize, usize, usize))>, cat: &str, which: u8, bound: usize)
    requires
        which < 3,
        forall|k: Seq<char>| #[trigger] first_entry(old(pc)@, k) is Some ==> first_entry(old(pc)@, k).unwrap().0 + first_entry(old(pc)@, k).unwrap().1 + first_entry(old(pc)@, k).unwrap().2 < bound,
        bound < usize::MAX,
        keys_distinct(old(pc)@),
    ensures
        keys_distinct(final(pc)@),
        entry_view(first_entry(final(pc)@, cat@)) == Some(match entry_view(first_entry(old(pc)@, cat@)) {
            Some(t) => if which == 0 { (t.0 + 1, t.1, t.2) } else if which == 1 { (t.0, t.1 + 1, t.2) } else { (t.0, t.1, t.2 + 1) },
            None => if which == 0 { (1nat, 0nat, 0nat) } else if which == 1 { (0nat, 1nat, 0nat) } else { (0nat, 0nat, 1nat) },
        }),
        forall|k: Seq<char>| k != cat@ ==> #[trigger] first_entry(final(pc)@, k) == first_entry(old(pc)@, k),
{
    let ghost old_v = pc@;
    match find_key(pc, cat) {
        Some(i) => {
            proof {
                lemma_first_entry_at(old_v, cat@, i as int);
            }
            let t = pc[i].1;
            assert(t.0 + t.1 + t.2 < bound);
            let nt = if which == 0 { (t.0 + 1, t.1, t.2) } else if which == 1 { (t.0, t.1 + 1, t.2) } else { (t.0, t.1, t.2 + 1) };
            let e = (owned(cat), nt);
            let ghost ge = e;
            pc.set(i, e);
            proof {
                lemma_first_entry_at(pc@, cat@, i as int);
                assert forall|k: Seq<char>| k != cat@ implies #[trigger] first_entry(pc@, k) == first_entry(old_v, k) by {
                    lemma_first_entry_update(old_v, i as int, ge, k);
                }
            }
        },
        None => {
            proof {
                lemma_first_entry_none(old_v, cat@);
            }
            let nt = if which == 0 { (1usize, 0usize, 0usize) } else if which == 1 { (0usize, 1usize, 0usize) } else { (0usize, 0usize, 1usize) };
            let e = (owned(cat), nt);
            let ghost ge = e;
            pc.push(e);
            proof {
                lemma_first_entry_at(pc@, cat@, old_v.len() as int);
                assert forall|k: Seq<char>| k != cat@ implies #[trigger] first_entry(pc@, k) == first_entry(old_v, k) by {
                    lemma_first_entry_push(old_v, ge, k);
                }
            }
        },
    }
}

impl AccuracyEvaluator {
    /// An evaluator for the labelled contracts.
    pub fn new(ground_truth: GroundTruth) -> (r: Self)
        ensures
            r.ground_truth.contracts@ == ground_truth.contracts@,
    {
        AccuracyEvaluator { ground_truth }
    }

    fn find_contract(&self, path: &str) -> (r: Option<usize>)
        ensures
            match r {
                Some(i) => contract_index(self.ground_truth.contracts@, path@) == Some(i as nat) && i < self.ground_truth.contracts.len(),
                None => contract_index(self.ground_truth.contracts@, path@) is None,
            },
    {
        let cs = &self.ground_truth.contracts;
        let mut i: usize = 0;
        while i < cs.len()
            invariant
                cs@ == self.ground_truth.contracts@,
                i <= cs.len(),
                contract_index(cs@.subrange(0, i as int), path@) is None,
            decreases cs.len() - i,
        {
            assert(cs@.subrange(0, i + 1).drop_last() =~= cs@.subrange(0, i as int));
            if contains(path, cs[i].file_path.as_str()) {
                proof {
                    assert(cs@.subrange(0, (i + 1) - 1) =~= cs@.subrange(0, i as int));
                    lemma_contract_index_prefix(cs@, path@, (i + 1) as nat);
                    assert(contract_index(cs@, path@) == Some(i as nat));
                }
                return Some(i);
            }
            i = i + 1;
        }
        assert(cs@.subrange(0, cs.len() as int) =~= cs@);
        None
    }

    /// Counts the findings that hit a label (true positives), the others
    /// (false positives) and the labels no finding hit (false negatives),
    /// and the same per pattern for the findings in labelled contracts.
    pub fn evaluate(&self, findings: &Vec<Match>) -> (r: AccuracyCounts)
        requires
            findings.len() + label_total(self.ground_truth.contracts@, self.ground_truth.contracts.len() as nat) < usize::MAX,
        ensures
            ({
                let cs = self.ground_truth.contracts@;
                let ms = findings@;
                &&& r.true_positives == count_hits(cs, ms, None)
                &&& r.false_positives == count_misses(cs, ms, None)
                &&& r.false_negatives == count_unfound(cs, ms, cs.len(), None)
                &&& forall|cat: Seq<char>| #[trigger] entry_view(first_entry(r.per_category@, cat))
                    == cat_entry(cat_counts(cs, ms, ms, cs.len(), 0, cat))
                &&& keys_distinct(r.per_category@)
                &&& forall|i: int| 0 <= i < r.per_category@.len() ==> entry_view(Some((#[trigger] r.per_category@[i]).1))
                    == cat_entry(cat_counts(cs, ms, ms, cs.len(), 0, r.per_category@[i].0@))
            }),
    {
        let ghost cs = self.ground_truth.contracts@;
        let ghost ms = findings@;
        let mut tp: usize = 0;
        let mut fp: usize = 0;
        let mut per_category: Vec<(String, (usize, usize, usize))> = Vec::new();
        let mut matched: Vec<(String, usize)> = Vec::new();
        let mut k: usize = 0;
        while k < findings.len()
            invariant
                cs == self.ground_truth.contracts@,
                ms == findings@,
                k <= findings.len(),
                findings.len() + label_total(cs, cs.len() as nat) < usize::MAX,
                tp == count_hits(cs, ms.subrange(0, k as int), None),
                fp == count_misses(cs, ms.subrange(0, k as int), None),
                keys_distinct(per_category@),
                forall|cat: Seq<char>| #[trigger] entry_view(first_entry(per_category@, cat))
                    == cat_entry(cat_counts(cs, ms, ms.subrange(0, k as int), 0, 0, cat)),
                forall|q: int| 0 <= q < matched.len() ==> label_found(cs, ms, #[trigger] matched@[q].0@, matched@[q].1 as nat),
                forall|p: Seq<char>, i: nat| #![trigger label_found(cs, ms.subrange(0, k as int), p, i)]
                    label_found(cs, ms.subrange(0, k as int), p, i) ==> exists|q: int| 0 <= q < matched.len() && matched@[q].0@ == p && matched@[q].1 == i,
            decreases findings.len() - k,
        {
            let m = &findings[k];
            let ghost prev = ms.subrange(0, k as int);
            assert(ms.subrange(0, k + 1).drop_last() =~= prev);
            assert(ms.subrange(0, k + 1).last() == *m);
            proof {
                lemma_counts_bounded(cs, prev, None);
                assert forall|cat: Seq<char>| #[trigger] first_entry(per_category@, cat) is Some implies first_entry(per_category@, cat).unwrap().0 + first_entry(per_category@, cat).unwrap().1 + first_entry(per_category@, cat).unwrap().2 < usize::MAX - 1 by {
                    lemma_counts_bounded(cs, prev, Some(cat));
                    assert(entry_view(first_entry(per_category@, cat)) == cat_entry(cat_counts(cs, ms, prev, 0, 0, cat)));
                }
            }
            let ghost old_matched = matched@;
            let ghost mut hit: Option<nat> = None;
            match self.find_contract(m.file_path.as_str()) {
                None => {
                    assert(outcome(cs, *m) == Outcome::NoContract);
                    fp = fp + 1;
                    proof {
                        assert forall|cat: Seq<char>| #[trigger] entry_view(first_entry(per_category@, cat))
                            == cat_entry(cat_counts(cs, ms, ms.subrange(0, k + 1), 0, 0, cat)) by {
                            assert(entry_view(first_entry(per_category@, cat)) == cat_entry(cat_counts(cs, ms, prev, 0, 0, cat)));
                        }
                    }
                },
                Some(ci) => {
                    let vs = &self.ground_truth.contracts[ci].vulnerabilities;
                    let mut found: Option<usize> = None;
                    let mut j: usize = 0;
                    while j < vs.len() && found.is_none()
                        invariant
                            j <= vs.len(),
                            found is None ==> label_index(vs@.subrange(0, j as int), *m) is None,
                            found matches Some(x) ==> label_index(vs@, *m) == Some(x as nat) && x < vs.len(),
                        decreases vs.len() - j + if found is None { 1int } else { 0int },
                    {
                        assert(vs@.subrange(0, j + 1).drop_last() =~= vs@.subrange(0, j as int));
                        let v = &vs[j];
                        let close = if v.line_number >= m.line_number {
                            v.line_number - m.line_number <= 2
                        } else {
                            m.line_number - v.line_number <= 2
                        };
                        if str_eq(v.pattern_id.as_str(), m.pattern_id.as_str()) && close {
                            found = Some(j);
                            proof {
                                assert(vs@.subrange(0, (j + 1) - 1) =~= vs@.subrange(0, j as int));
                                lemma_label_index_prefix(vs@, *m, (j + 1) as nat);
                            }
                        } else {
                            j = j + 1;
                        }
                    }
                    if found.is_none() {
                        assert(vs@.subrange(0, vs.len() as int) =~= vs@);
                    }
                    proof {
                        assert(cs[ci as int].vulnerabilities@ == vs@);
                        match found {
                            Some(x) => assert(outcome(cs, *m) == Outcome::Hit(x as nat)),
                            None => assert(outcome(cs, *m) == Outcome::Miss),
                        }
                    }
                    let ghost before_pc = per_category@;
                    match found {
                        Some(idx) => {
                            tp = tp + 1;
                            matched.push((owned(m.file_path.as_str()), idx));
                            proof {
                                hit = Some(idx as nat);
                            }
                            bump(&mut per_category, m.pattern_id.as_str(), 0, usize::MAX - 1);
                            proof {
                                assert(label_found(cs, ms, m.file_path@, idx as nat)) by {
                                    assert(ms[k as int] == *m);
                                }
                                assert forall|q: int| 0 <= q < matched.len() implies label_found(cs, ms, #[trigger] matched@[q].0@, matched@[q].1 as nat) by {
                                    if q < old_matched.len() {
                                        assert(matched@[q] == old_matched[q]);
                                    }
                                }
                            }
                        },
                        None => {
                            fp = fp + 1;
                            bump(&mut per_category, m.pattern_id.as_str(), 1, usize::MAX - 1);
                        },
                    }
                    proof {
                        assert forall|cat: Seq<char>| #[trigger] entry_view(first_entry(per_category@, cat))
                            == cat_entry(cat_counts(cs, ms, ms.subrange(0, k + 1), 0, 0, cat)) by {
                            assert(entry_view(first_entry(before_pc, cat)) == cat_entry(cat_counts(cs, ms, prev, 0, 0, cat)));
                        }
                    }
                },
            }
            proof {
                let cur = ms.subrange(0, k + 1);
                match hit {
                    Some(x) => {
                        assert(outcome(cs, *m) == Outcome::Hit(x));
                        assert(matched@ == old_matched.push(matched@.last()));
                        assert(matched@.last().0@ == m.file_path@ && matched@.last().1 == x);
                    },
                    None => {
                        assert(!(outcome(cs, *m) is Hit));
                        assert(matched@ == old_matched);
                    },
                }
                assert forall|p: Seq<char>, i: nat| #![trigger label_found(cs, cur, p, i)]
                    label_found(cs, cur, p, i) implies exists|q: int| 0 <= q < matched.len() && matched@[q].0@ == p && matched@[q].1 == i by {
                    let w = choose|w: int| 0 <= w < cur.len() && (#[trigger] cur[w]).file_path@ == p && outcome(cs, cur[w]) == Outcome::Hit(i);
                    if w < k {
                        assert(prev[w] == cur[w]);
                        assert(label_found(cs, prev, p, i));
                        let q0 = choose|q: int| 0 <= q < old_matched.len() && old_matched[q].0@ == p && old_matched[q].1 == i;
                        assert(matched@[q0] == old_matched[q0]);
                    } else {
                        assert(cur[w] == *m);
                        assert(matched@[matched.len() - 1].0@ == p && matched@[matched.len() - 1].1 == i);
                    }
                }
            }
            k = k + 1;
        }
        assert(ms.subrange(0, findings.len() as int) =~= ms);
        let cs_ref = &self.ground_truth.contracts;
        let mut fneg: usize = 0;
        let mut c: usize = 0;
        while c < cs_ref.len()
            invariant
                cs == cs_ref@,
                ms == findings@,
                c <= cs_ref.len(),
                findings.len() + label_total(cs, cs.len() as nat) < usize::MAX,
                fneg == count_unfound(cs, ms, c as nat, None),
                keys_distinct(per_category@),
                forall|cat: Seq<char>| #[trigger] entry_view(first_entry(per_category@, cat))
                    == cat_entry(cat_counts(cs, ms, ms, c as nat, 0, cat)),
                forall|q: int| 0 <= q < matched.len() ==> label_found(cs, ms, #[trigger] matched@[q].0@, matched@[q].1 as nat),
                forall|p: Seq<char>, i: nat| #![trigger label_found(cs, ms, p, i)]
                    label_found(cs, ms, p, i) ==> exists|q: int| 0 <= q < matched.len() && matched@[q].0@ == p && matched@[q].1 == i,
            decreases cs_ref.len() - c,
        {
            let contract = &cs_ref[c];
            let vs = &contract.vulnerabilities;
            let mut j: usize = 0;
            while j < vs.len()
                invariant
                    cs == cs_ref@,
                    ms == findings@,
                    c < cs_ref.len(),
                    *contract == cs[c as int],
                    vs == &contract.vulnerabilities,
                    j <= vs.len(),
                    findings.len() + label_total(cs, cs.len() as nat) < usize::MAX,
                    fneg == count_unfound(cs, ms, c as nat, None) + count_unfound_in(cs, ms, cs[c as int], j as nat, None),
                    keys_distinct(per_category@),
                    forall|cat: Seq<char>| #[trigger] entry_view(first_entry(per_category@, cat))
                        == cat_entry(cat_counts(cs, ms, ms, c as nat, j as nat, cat)),
                    forall|q: int| 0 <= q < matched.len() ==> label_found(cs, ms, #[trigger] matched@[q].0@, matched@[q].1 as nat),
                    forall|p: Seq<char>, i: nat| #![trigger label_found(cs, ms, p, i)]
                        label_found(cs, ms, p, i) ==> exists|q: int| 0 <= q < matched.len() && matched@[q].0@ == p && matched@[q].1 == i,
                decreases vs.len() - j,
            {
                let v = &vs[j];
                let mut hit = false;
                let mut q: usize = 0;
                while q < matched.len()
                    invariant
                        q <= matched.len(),
                        hit == exists|w: int| 0 <= w < q && matched@[w].0@ == contract.file_path@ && matched@[w].1 == j,
                    decreases matched.len() - q,
                {
                    if str_eq(matched[q].0.as_str(), contract.file_path.as_str()) && matched[q].1 == j {
                        hit = true;
                    }
                    q = q + 1;
                }
                proof {
                    if hit {
                        let w = choose|w: int| 0 <= w < matched.len() && matched@[w].0@ == contract.file_path@ && matched@[w].1 == j;
                        assert(label_found(cs, ms, matched@[w].0@, matched@[w].1 as nat));
                    }
                    assert(hit == label_found(cs, ms, contract.file_path@, j as nat));
                    lemma_counts_bounded(cs, ms, None);
                    lemma_unfound_bounded(cs, ms, c as nat, None);
                    lemma_unfound_in_bounded(cs, ms, cs[c as int], j as nat, None);
                    lemma_label_total_mono(cs, (c + 1) as nat, cs.len() as nat);
                    assert forall|cat: Seq<char>| #[trigger] first_entry(per_category@, cat) is Some implies first_entry(per_category@, cat).unwrap().0 + first_entry(per_category@, cat).unwrap().1 + first_entry(per_category@, cat).unwrap().2 < usize::MAX - 1 by {
                        lemma_counts_bounded(cs, ms, Some(cat));
                        lemma_unfound_bounded(cs, ms, c as nat, Some(cat));
                        lemma_unfound_in_bounded(cs, ms, cs[c as int], j as nat, Some(cat));
                        assert(entry_view(first_entry(per_category@, cat)) == cat_entry(cat_counts(cs, ms, ms, c as nat, j as nat, cat)));
                    }
                }
                let ghost before_pc = per_category@;
                if !hit {
                    fneg = fneg + 1;
                    bump(&mut per_category, v.pattern_id.as_str(), 2, usize::MAX - 1);
                }
                proof {
                    assert forall|cat: Seq<char>| #[trigger] entry_view(first_entry(per_category@, cat))
                        == cat_entry(cat_counts(cs, ms, ms, c as nat, (j + 1) as nat, cat)) by {
                        assert(entry_view(first_entry(before_pc, cat)) == cat_entry(cat_counts(cs, ms, ms, c as nat, j as nat, cat)));
                    }
                }
                j = j + 1;
            }
            proof {
                assert forall|cat: Seq<char>| #[trigger] entry_view(first_entry(per_category@, cat))
                    == cat_entry(cat_counts(cs, ms, ms, (c + 1) as nat, 0, cat)) by {
                    assert(entry_view(first_entry(per_category@, cat)) == cat_entry(cat_counts(cs, ms, ms, c as nat, vs.len() as nat, cat)));
                }
            }
            c = c + 1;
        }
        proof {
            assert forall|i: int| 0 <= i < per_category@.len() implies entry_view(Some((#[trigger] per_category@[i]).1))
                == cat_entry(cat_counts(cs, ms, ms, cs.len(), 0, per_category@[i].0@)) by {
                lemma_first_entry_at(per_category@, per_category@[i].0@, i);
            }
        }
        AccuracyCounts { true_positives: tp, false_positives: fp, false_negatives: fneg, per_category }
    }
}

proof fn lemma_contract_index_prefix(cs: Seq<ContractLabel>, path: Seq<char>, n: nat)
    requires
        0 < n <= cs.len(),
        contract_index(cs.subrange(0, n - 1), path) is None,
        str_has(path, cs[n - 1].file_path@),
    ensures
        contract_index(cs, path) == Some((n - 1) as nat),
    decreases cs.len() - n,
{
    if n == cs.len() {
        assert(cs.drop_last() =~= cs.subrange(0, n - 1));
    } else {
        assert(cs.drop_last().subrange(0, n - 1) =~= cs.subrange(0, n - 1));
        lemma_contract_index_prefix(cs.drop_last(), path, n);
    }
}

proof fn lemma_label_index_prefix(vs: Seq<VulnerabilityLabel>, m: Match, n: nat)
    requires
        0 < n <= vs.len(),
        label_index(vs.subrange(0, n - 1), m) is None,
        label_matches(vs[n - 1], m),
    ensures
        label_index(vs, m) == Some((n - 1) as nat),
    decreases vs.len() - n,
{
    if n == vs.len() {
        assert(vs.drop_last() =~= vs.subrange(0, n - 1));
    } else {
        assert(vs.drop_last().subrange(0, n - 1) =~= vs.subrange(0, n - 1));
        lemma_label_index_prefix(vs.drop_last(), m, n);
    }
}

/// Every finding is either a true or a false positive: the two counts add
/// up to the number of findings.
pub proof fn law_every_finding_counted(cs: Seq<ContractLabel>, ms: Seq<Match>)
    ensures
        count_hits(cs, ms, None) + count_misses(cs, ms, None) == ms.len(),
    decreases ms.len(),
{
    if ms.len() > 0 {
        law_every_finding_counted(cs, ms.drop_last());
    }
}

} // verus!
