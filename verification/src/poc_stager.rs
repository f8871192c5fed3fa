//! Staging of findings for proof-of-concept work: the lines around a finding,
//! the function it sits in, the signals that raise or lower confidence in it,
//! and how exploitable its kind of pattern is. The confidence arithmetic and
//! the priority it yields are floating point and are computed outside this
//! library from these signals.
use vstd::prelude::*;
use vstd::string::StrSliceExecFns;
use crate::text::{owned, push_str, push_decimal, decimal, str_eq, contains, str_has, str_trim, trimmed, joined};
use crate::types::Match;

verus! {

/// How urgently a candidate deserves a proof of concept.
#[derive(Debug, Clone, Copy, PartialEq, Eq, Structural)]
pub enum PocPriority {
    Low,
    Medium,
    High,
    Critical,
}

/// The number of a priority: 1 for low up to 4 for critical.
pub open spec fn priority_rank(p: PocPriority) -> u8 {
    match p {
        PocPriority::Low => 1,
        PocPriority::Medium => 2,
        PocPriority::High => 3,
        PocPriority::Critical => 4,
    }
}

impl PocPriority {
    /// The number of this priority: 1 for low up to 4 for critical.
    pub fn rank(&self) -> (r: u8)
        ensures
            r == priority_rank(*self),
    {
        match self {
            PocPriority::Low => 1,
            PocPriority::Medium => 2,
            PocPriority::High => 3,
            PocPriority::Critical => 4,
        }
    }
}

/// What a proof of concept needs to know about a finding.
#[derive(Debug, Clone)]
pub struct PocContext {
    pub source_code: String,
    pub vulnerable_function: String,
    pub line_number: usize,
    pub matched_code: String,
    pub contract_name: String,
    pub dependencies: Vec<String>,
}

/// `p` occurs in `s` at character index `i`.
pub open spec fn occurs_char_at(s: Seq<char>, p: Seq<char>, i: int) -> bool {
    0 <= i && i + p.len() <= s.len() && s.subrange(i, i + p.len()) == p
}

/// `i` is the first character index at which `p` occurs in `s`.
pub open spec fn first_at(s: Seq<char>, p: Seq<char>, i: int) -> bool {
    occurs_char_at(s, p, i) && forall|j: int| 0 <= j < i ==> !occurs_char_at(s, p, j)
}

/// The first character index at which `p` occurs in `s` (`str::find`).
pub fn find_chars(s: &str, p: &str) -> (r: Option<usize>)
    ensures
        match r {
            Some(i) => first_at(s@, p@, i as int),
            None => forall|j: int| !occurs_char_at(s@, p@, j),
        },
{
    let n = s.unicode_len();
    let m = p.unicode_len();
    if m > n {
        return None;
    }
    if m == 0 {
        assert(s@.subrange(0, 0) =~= p@);
        return Some(0);
    }
    let mut i: usize = 0;
    while i <= n - m
        invariant
            n == s@.len(),
            m == p@.len(),
            1 <= m <= n,
            i <= n - m + 1,
            forall|j: int| 0 <= j < i ==> !occurs_char_at(s@, p@, j),
        decreases n - i,
    {
        if str_eq(s.substring_char(i, i + m), p) {
            return Some(i);
        }
        i = i + 1;
    }
    None
}

/// The text of each line.
pub open spec fn line_views(lines: Seq<&str>) -> Seq<Seq<char>> {
    lines.map_values(|l: &str| l@)
}

/// The first line of the window around line `ln`: five lines before it.
pub open spec fn window_start(ln: nat) -> nat {
    if ln >= 5 { (ln - 5) as nat } else { 0 }
}

/// The end of the window around line `ln`: five lines after it, at most `n`.
pub open spec fn window_end(ln: nat, n: nat) -> nat {
    if ln + 5 < n { ln + 5 } else { n }
}

/// The lines around line number `ln` joined with newlines; nothing when the
/// window would start after the last line.
pub open spec fn function_context_of(lines: Seq<Seq<char>>, ln: nat) -> Seq<char> {
    if window_start(ln) <= window_end(ln, lines.len()) {
        joined(lines.subrange(window_start(ln) as int, window_end(ln, lines.len()) as int), "\n"@)
    } else {
        Seq::empty()
    }
}

/// The lines from five before `line_number` to five after it, joined with
/// newlines; empty when that window starts after the last line.
pub fn function_context(lines: &Vec<&str>, line_number: usize) -> (r: String)
    ensures
        r@ == function_context_of(line_views(lines@), line_number as nat),
{
    let start = line_number.saturating_sub(5);
    let end = if line_number < lines.len() && lines.len() - line_number > 5 { line_number + 5 } else { lines.len() };
    if start > end {
        return String::new();
    }
    let ghost lv = line_views(lines@);
    let ghost w = lv.subrange(start as int, end as int);
    let mut out = String::new();
    let mut k: usize = start;
    while k < end
        invariant
            start <= k <= end <= lines.len(),
            lv == line_views(lines@),
            w == lv.subrange(start as int, end as int),
            out@ == joined(w.take(k - start), "\n"@),
        decreases end - k,
    {
        if k > start {
            push_str(&mut out, "\n");
        }
        push_str(&mut out, lines[k]);
        proof {
            let t = w.take(k + 1 - start);
            assert(t.drop_last() =~= w.take(k - start));
            assert(t.last() == lines@[k as int]@);
            if k == start {
                assert(t =~= seq![lines@[k as int]@]);
            }
        }
        k = k + 1;
    }
    assert(w.take(end - start) =~= w);
    out
}

/// The name of the function declared on a line: after the first `function `,
/// up to the next `(`, trimmed; none where either is missing.
pub open spec fn declared_function(l: Seq<char>) -> Option<Seq<char>> {
    if exists|i: int| first_at(l, "function "@, i) {
        let i = choose|i: int| first_at(l, "function "@, i);
        let rest = l.subrange(i + 9, l.len() as int);
        if exists|e: int| first_at(rest, "("@, e) {
            let e = choose|e: int| first_at(rest, "("@, e);
            Some(trimmed(rest.subrange(0, e)))
        } else {
            None
        }
    } else {
        None
    }
}

/// The name of the nearest function declared on a line before line `k`
/// (counting down from `k - 1`), or `unknown`.
pub open spec fn enclosing_function(lines: Seq<Seq<char>>, k: nat) -> Seq<char>
    decreases k,
{
    if k == 0 {
        "unknown"@
    } else if k - 1 < lines.len() && declared_function(lines[k - 1]) is Some {
        declared_function(lines[k - 1]).unwrap()
    } else {
        enclosing_function(lines, (k - 1) as nat)
    }
}

proof fn lemma_first_unique(s: Seq<char>, p: Seq<char>, i: int)
    requires
        first_at(s, p, i),
    ensures
        forall|j: int| first_at(s, p, j) ==> j == i,
{
}

fn function_declared_on(line: &str) -> (r: Option<String>)
    ensures
        match r {
            Some(n) => declared_function(line@) == Some(n@),
            None => declared_function(line@) is None,
        },
{
    proof {
        reveal_strlit("function ");
        reveal_strlit("(");
    }
    match find_chars(line, "function ") {
        Some(i) => {
            proof {
                lemma_first_unique(line@, "function "@, i as int);
            }
            let n = line.unicode_len();
            let rest = line.substring_char(i + 9, n);
            match find_chars(rest, "(") {
                Some(e) => {
                    proof {
                        lemma_first_unique(rest@, "("@, e as int);
                    }
                    let name = str_trim(rest.substring_char(0, e));
                    Some(owned(name))
                },
                None => None,
            }
        },
        None => None,
    }
}

/// The name of the function a finding on line `line_number` sits in: the
/// nearest line before it that declares one, `unknown` if none does.
pub fn extract_function_name(lines: &Vec<&str>, line_number: usize) -> (r: String)
    ensures
        r@ == enclosing_function(line_views(lines@), line_number as nat),
{
    let ghost lv = line_views(lines@);
    let mut k: usize = line_number;
    while k > 0
        invariant
            k <= line_number,
            lv == line_views(lines@),
            enclosing_function(lv, k as nat) == enclosing_function(lv, line_number as nat),
        decreases k,
    {
        let i = k - 1;
        if i < lines.len() {
            assert(lv[i as int] == lines@[i as int]@);
            match function_declared_on(lines[i]) {
                Some(name) => {
                    return name;
                },
                None => {},
            }
        }
        k = i;
    }
    owned("unknown")
}

/// What the lines around a finding show.
#[derive(Debug, Clone, Copy, PartialEq, Eq, Structural)]
pub struct PocSignals {
    pub has_snippet: bool,
    pub vulnerable_pattern: bool,
    pub lacks_protection: bool,
    pub state_change: bool,
    pub external_call: bool,
    pub value_transfer: bool,
}

/// Some text of `ps` occurs in `c`.
pub open spec fn has_any(c: Seq<char>, ps: Seq<Seq<char>>) -> bool {
    exists|i: int| 0 <= i < ps.len() && str_has(c, #[trigger] ps[i])
}

/// The texts whose presence marks a dangerous construct. They are compared
/// literally, backslashes included.
pub open spec fn vulnerable_texts() -> Seq<Seq<char>> {
    seq!["\\.call\\{value:"@, "\\.delegatecall\\("@, "tx\\.origin"@, "selfdestruct\\("@, "suicide\\("@]
}

/// The texts whose presence marks a protection.
pub open spec fn protection_texts() -> Seq<Seq<char>> {
    seq!["onlyOwner"@, "require("@, "assert("@, "nonReentrant"@]
}

/// The signals of a finding with or without a snippet, whose surrounding lines read `c`.
pub open spec fn signals_of(has_snippet: bool, c: Seq<char>) -> PocSignals {
    PocSignals {
        has_snippet,
        vulnerable_pattern: has_any(c, vulnerable_texts()),
        lacks_protection: !has_any(c, protection_texts()),
        state_change: str_has(c, "="@) && !str_has(c, "=="@),
        external_call: str_has(c, ".call"@) || str_has(c, ".delegatecall"@) || str_has(c, ".transfer"@),
        value_transfer: str_has(c, "value:"@) || str_has(c, ".transfer("@) || str_has(c, ".send("@),
    }
}

fn contains_any(c: &str, ps: &Vec<&str>) -> (r: bool)
    ensures
        r == has_any(c@, ps@.map_values(|p: &str| p@)),
{
    let ghost pv = ps@.map_values(|p: &str| p@);
    let mut i: usize = 0;
    while i < ps.len()
        invariant
            i <= ps.len(),
            pv == ps@.map_values(|p: &str| p@),
            forall|j: int| 0 <= j < i ==> !str_has(c@, #[trigger] pv[j]),
        decreases ps.len() - i,
    {
        if contains(c, ps[i]) {
            assert(str_has(c@, pv[i as int]));
            return true;
        }
        i = i + 1;
    }
    false
}

/// The signals of a finding whose surrounding lines read `context`.
pub fn signals_in(finding: &Match, context: &str) -> (r: PocSignals)
    ensures
        r == signals_of(finding.code_snippet is Some, context@),
{
    let vulnerable = vec!["\\.call\\{value:", "\\.delegatecall\\(", "tx\\.origin", "selfdestruct\\(", "suicide\\("];
    let protections = vec!["onlyOwner", "require(", "assert(", "nonReentrant"];
    assert(vulnerable@.map_values(|p: &str| p@) =~= vulnerable_texts());
    assert(protections@.map_values(|p: &str| p@) =~= protection_texts());
    PocSignals {
        has_snippet: finding.code_snippet.is_some(),
        vulnerable_pattern: contains_any(context, &vulnerable),
        lacks_protection: !contains_any(context, &protections),
        state_change: contains(context, "=") && !contains(context, "=="),
        external_call: contains(context, ".call") || contains(context, ".delegatecall") || contains(context, ".transfer"),
        value_transfer: contains(context, "value:") || contains(context, ".transfer(") || contains(context, ".send("),
    }
}

/// How exploitable a kind of pattern is, in tenths.
pub open spec fn exploitability_of(id: Seq<char>) -> u32 {
    if str_has(id, "unprotected"@) || str_has(id, "missing-access"@) {
        9
    } else if str_has(id, "reentrancy"@) || str_has(id, "delegatecall"@) {
        8
    } else if str_has(id, "tx-origin"@) || str_has(id, "unchecked-call"@) {
        7
    } else if str_has(id, "timestamp"@) || str_has(id, "overflow"@) {
        6
    } else {
        5
    }
}

/// How exploitable findings of a pattern are, in tenths: 9 for missing
/// protection, 8 for reentrancy and delegate calls, 7 for `tx.origin` and
/// unchecked calls, 6 for timestamps and overflows, 5 otherwise.
pub fn exploitability_tenths(pattern_id: &str) -> (r: u32)
    ensures
        r == exploitability_of(pattern_id@),
{
    if contains(pattern_id, "unprotected") || contains(pattern_id, "missing-access") {
        9
    } else if contains(pattern_id, "reentrancy") || contains(pattern_id, "delegatecall") {
        8
    } else if contains(pattern_id, "tx-origin") || contains(pattern_id, "unchecked-call") {
        7
    } else if contains(pattern_id, "timestamp") || contains(pattern_id, "overflow") {
        6
    } else {
        5
    }
}

/// The id of a candidate: its pattern id, a colon and its line number.
pub fn candidate_id(pattern_id: &str, line_number: usize) -> (r: String)
    ensures
        r@ == pattern_id@ + ":"@ + decimal(line_number as nat),
{
    let mut out = owned(pattern_id);
    push_str(&mut out, ":");
    push_decimal(&mut out, line_number);
    out
}

/// The context of a finding for a proof of concept: the whole source, the
/// function it sits in, its line, the lines around it and the contract's name.
pub fn extract_context(finding: &Match, source_code: &str, lines: &Vec<&str>, contract_name: &str) -> (r: PocContext)
    ensures
        r.source_code@ == source_code@,
        r.vulnerable_function@ == enclosing_function(line_views(lines@), finding.line_number as nat),
        r.line_number == finding.line_number,
        r.matched_code@ == function_context_of(line_views(lines@), finding.line_number as nat),
        r.contract_name@ == contract_name@,
        r.dependencies@.len() == 0,
{
    PocContext {
        source_code: owned(source_code),
        vulnerable_function: extract_function_name(lines, finding.line_number),
        line_number: finding.line_number,
        matched_code: function_context(lines, finding.line_number),
        contract_name: owned(contract_name),
        dependencies: Vec::new(),
    }
}

} // verus!
