//! The pattern scanner: templates are compiled once, then every applicable
//! pattern is matched against a source, each match is checked against the
//! known-safe contexts, and the findings are deduplicated and bounded.
use vstd::prelude::*;
use crate::types::{Match, MatchView, Pattern, PatternKind, Severity, Template, match_views, CodeSnippet, copy_match, copy_match_at_line};
use crate::contract_type::{ContractType, ContractTypeDetector, contract_type_of, skipped_for};
use crate::scan_rules::{extract_solidity_version, is_version_gte_0_8, solidity_version_of, version_at_least_0_8};
use crate::text::{lowercase, count_byte};
use crate::chunking::{ChunkProcessor, chunk_plan, plan_on_char_boundaries, plan_terminates, flatten, calls_succeeded, chunk_call, line_offset_at};
use crate::text::{contains, str_has, sbytes, owned, push_str, str_slice, lemma_str_utf8, str_eq};
use crate::pattern_match::{
    regex_capture_spans, regex_valid, regex_group_spans, fancy_find_all, fancy_valid, fancy_find_spans,
    literal_match_starts, literal_starts, spans_view, text_span, span_view,
};
use crate::source_index::{
    newline_offsets, newline_positions, line_number_at, line_number_of, get_match_context, context_text,
    source_lines, line_count, line_range, line_text, snippet_of, extract_code_snippet_cached, lemma_newline_positions,
};
use crate::scan_rules::{
    is_reentrancy_pattern, is_reentrancy_template, fancy_matches, fancy_hit, check_filtered, filtered_context,
    is_openzeppelin_library, is_library_source, is_openzeppelin_safe_pattern, is_safe_library_match, span_text,
    REENTRANCY_GUARD_PATTERN, ACCESS_CONTROL_PATTERN, PAUSABLE_PATTERN,
};
use crate::regex_validator::{RegexValidator, PatternSafetyError, pattern_verdict};
use crate::ast_check::{validate_source, ast_answer};

verus! {

/// How a compiled pattern matches: a `regex` or `fancy-regex` pattern (with
/// multi-line mode switched on), or a literal text.
#[derive(Debug, Clone)]
pub enum CompiledMatcher {
    Regex(String),
    FancyRegex(String),
    Literal(String),
}

/// A pattern ready to be matched; `index` numbers the compiled patterns of a
/// scanner in order.
#[derive(Debug, Clone)]
pub struct CompiledPattern {
    pub matcher: CompiledMatcher,
    pub pattern_id: String,
    pub message: String,
    pub index: u32,
}

/// A template with its compiled patterns.
#[derive(Debug, Clone)]
pub struct CompiledTemplate {
    pub template_id: String,
    pub severity: Severity,
    pub patterns: Vec<CompiledPattern>,
}

/// Why a pattern was not compiled.
#[derive(Debug, Clone, PartialEq, Eq)]
pub enum PatternCompileError {
    /// The pattern failed the safety checks.
    Unsafe(PatternSafetyError),
    /// The `regex` crate rejected the pattern.
    InvalidRegex,
    /// The `fancy-regex` crate rejected the pattern.
    InvalidFancyRegex,
    /// A literal pattern was empty.
    EmptyLiteral,
    /// Semantic patterns are matched by the syntax-tree scanner instead.
    Semantic,
}

/// A compiled matcher is usable: literals are not empty.
pub open spec fn matcher_ok(m: CompiledMatcher) -> bool {
    match m {
        CompiledMatcher::Literal(l) => l@.len() > 0,
        _ => true,
    }
}

/// The present spans among `v`, in order.
pub open spec fn somes(v: Seq<Option<(nat, nat)>>) -> Seq<(nat, nat)>
    decreases v.len(),
{
    if v.len() == 0 {
        Seq::empty()
    } else {
        somes(v.drop_last()) + match v.last() {
            Some(s) => seq![s],
            None => Seq::empty(),
        }
    }
}

/// A compiled matcher as text.
pub enum MatcherText {
    Regex(Seq<char>),
    FancyRegex(Seq<char>),
    Literal(Seq<char>),
}

/// The text of a compiled matcher.
pub open spec fn matcher_text(m: CompiledMatcher) -> MatcherText {
    match m {
        CompiledMatcher::Regex(p) => MatcherText::Regex(p@),
        CompiledMatcher::FancyRegex(p) => MatcherText::FancyRegex(p@),
        CompiledMatcher::Literal(l) => MatcherText::Literal(l@),
    }
}

/// The spans that a matcher finds in the text `s`, in order.
pub open spec fn matcher_spans(m: MatcherText, s: Seq<char>) -> Seq<(nat, nat)> {
    match m {
        MatcherText::Regex(p) => if regex_valid(p) {
            somes(regex_group_spans(p, s, 0))
        } else {
            Seq::empty()
        },
        MatcherText::FancyRegex(p) => if fancy_valid(p) {
            fancy_find_spans(p, s).0
        } else {
            Seq::empty()
        },
        MatcherText::Literal(l) => {
            let lb = vstd::utf8::encode_utf8(l);
            literal_starts(vstd::utf8::encode_utf8(s), lb, 0).map_values(|i: nat| (i, i + lb.len()))
        },
    }
}

proof fn lemma_encode_nonempty(s: Seq<char>)
    requires
        s.len() > 0,
    ensures
        vstd::utf8::encode_utf8(s).len() > 0,
{
}

/// The spans the matcher `m` finds in `source`.
pub fn find_spans(m: &CompiledMatcher, source: &str) -> (r: Vec<(usize, usize)>)
    requires
        matcher_ok(*m),
    ensures
        spans_view(r@) == matcher_spans(matcher_text(*m), source@),
        forall|i: int| 0 <= i < r.len() ==> text_span(source, #[trigger] r@[i]),
{
    proof {
        lemma_str_utf8(source);
    }
    match m {
        CompiledMatcher::Regex(p) => {
            let spans = match regex_capture_spans(p.as_str(), source, 0) {
                Some(v) => v,
                None => {
                    return Vec::new();
                },
            };
            let mut r: Vec<(usize, usize)> = Vec::new();
            let mut i: usize = 0;
            while i < spans.len()
                invariant
                    i <= spans.len(),
                    crate::pattern_match::opt_spans_view(spans@) == regex_group_spans(p@, source@, 0),
                    forall|k: int| 0 <= k < spans.len() ==> (#[trigger] spans@[k] matches Some(s) ==> text_span(source, s)),
                    spans_view(r@) == somes(crate::pattern_match::opt_spans_view(spans@.subrange(0, i as int))),
                    forall|k: int| 0 <= k < r.len() ==> text_span(source, #[trigger] r@[k]),
                decreases spans.len() - i,
            {
                let ghost before = r@;
                assert(crate::pattern_match::opt_spans_view(spans@.subrange(0, i + 1)).drop_last()
                    =~= crate::pattern_match::opt_spans_view(spans@.subrange(0, i as int)));
                match spans[i] {
                    Some(s) => {
                        r.push(s);
                        assert(spans_view(r@) =~= spans_view(before).push(span_view(s)));
                    },
                    None => {},
                }
                i = i + 1;
            }
            assert(spans@.subrange(0, spans.len() as int) =~= spans@);
            r
        },
        CompiledMatcher::FancyRegex(p) => {
            match fancy_find_all(p.as_str(), source) {
                Some((v, _)) => v,
                None => Vec::new(),
            }
        },
        CompiledMatcher::Literal(l) => {
            let lit = l.as_str();
            proof {
                lemma_str_utf8(lit);
                lemma_encode_nonempty(lit@);
            }
            let plen = lit.as_bytes().len();
            let slen = source.as_bytes().len();
            let starts = literal_match_starts(source, lit);
            let mut r: Vec<(usize, usize)> = Vec::new();
            let mut i: usize = 0;
            while i < starts.len()
                invariant
                    i <= starts.len(),
                    plen == sbytes(lit).len(),
                    slen == sbytes(source).len(),
                    sbytes(lit) == vstd::utf8::encode_utf8(l@),
                    sbytes(source) == vstd::utf8::encode_utf8(source@),
                    forall|k: int| 0 <= k < starts.len() ==> starts@[k] + sbytes(lit).len() <= sbytes(source).len()
                        && text_span(source, (#[trigger] starts@[k], (starts@[k] + sbytes(lit).len()) as usize)),
                    r.len() == i,
                    forall|k: int| 0 <= k < i ==> #[trigger] r@[k] == (starts@[k], (starts@[k] + plen) as usize),
                decreases starts.len() - i,
            {
                let s = starts[i];
                r.push((s, s + plen));
                i = i + 1;
            }
            proof {
                let lb = vstd::utf8::encode_utf8(l@);
                let want = literal_starts(vstd::utf8::encode_utf8(source@), lb, 0).map_values(|i: nat| (i, i + lb.len()));
                assert(starts@.map_values(|i: usize| i as nat) == literal_starts(sbytes(source), sbytes(lit), 0));
                let ls = literal_starts(sbytes(source), sbytes(lit), 0);
                assert(ls.len() == starts.len());
                assert forall|k: int| 0 <= k < r.len() implies spans_view(r@)[k] == want[k] by {
                    assert(starts@.map_values(|i: usize| i as nat)[k] == starts@[k] as nat);
                    assert(ls[k] == starts@[k] as nat);
                    assert(r@[k] == (starts@[k], (starts@[k] + plen) as usize));
                    assert(spans_view(r@)[k] == span_view(r@[k]));
                }
                assert(spans_view(r@) =~= want);
            }
            r
        },
    }
}

/// A compiled pattern as text and numbers.
pub struct PatternText {
    pub matcher: MatcherText,
    pub pattern_id: Seq<char>,
    pub message: Seq<char>,
    pub index: nat,
}

/// A compiled template as text.
pub struct TemplateText {
    pub template_id: Seq<char>,
    pub severity: Severity,
    pub patterns: Seq<PatternText>,
}

/// The text of a compiled pattern.
pub open spec fn pattern_text(p: CompiledPattern) -> PatternText {
    PatternText { matcher: matcher_text(p.matcher), pattern_id: p.pattern_id@, message: p.message@, index: p.index as nat }
}

/// The text of a compiled template.
pub open spec fn template_text(t: CompiledTemplate) -> TemplateText {
    TemplateText {
        template_id: t.template_id@,
        severity: t.severity,
        patterns: t.patterns@.map_values(|p: CompiledPattern| pattern_text(p)),
    }
}

/// How a pattern of kind `kind` and text `p` compiles: the safety checks
/// first for regular expressions, then the outside crate's own parser; the
/// regular expressions get multi-line mode.
pub open spec fn compile_verdict(kind: PatternKind, p: Seq<char>) -> Result<MatcherText, PatternCompileError> {
    match kind {
        PatternKind::Regex => match pattern_verdict(vstd::utf8::encode_utf8(p)) {
            Err(e) => Err(PatternCompileError::Unsafe(e)),
            Ok(_) => if regex_valid("(?m)"@ + p) {
                Ok(MatcherText::Regex("(?m)"@ + p))
            } else {
                Err(PatternCompileError::InvalidRegex)
            },
        },
        PatternKind::FancyRegex => match pattern_verdict(vstd::utf8::encode_utf8(p)) {
            Err(e) => Err(PatternCompileError::Unsafe(e)),
            Ok(_) => if fancy_valid("(?m)"@ + p) {
                Ok(MatcherText::FancyRegex("(?m)"@ + p))
            } else {
                Err(PatternCompileError::InvalidFancyRegex)
            },
        },
        PatternKind::Literal => if p.len() == 0 {
            Err(PatternCompileError::EmptyLiteral)
        } else {
            Ok(MatcherText::Literal(p))
        },
        PatternKind::Semantic => Err(PatternCompileError::Semantic),
    }
}

/// The compiled patterns of `pats`, numbered from `idx`; patterns that do not
/// compile are left out and take no number.
pub open spec fn compile_patterns(pats: Seq<Pattern>, idx: nat) -> Seq<PatternText>
    decreases pats.len(),
{
    if pats.len() == 0 {
        Seq::empty()
    } else {
        let prev = compile_patterns(pats.drop_last(), idx);
        let p = pats.last();
        prev + match compile_verdict(p.kind, p.pattern@) {
            Ok(m) => seq![PatternText { matcher: m, pattern_id: p.id@, message: p.message@, index: idx + prev.len() }],
            Err(_) => Seq::empty(),
        }
    }
}

/// The number of patterns in a list of compiled templates.
pub open spec fn pattern_total(ts: Seq<TemplateText>) -> nat
    decreases ts.len(),
{
    if ts.len() == 0 {
        0
    } else {
        pattern_total(ts.drop_last()) + ts.last().patterns.len()
    }
}

/// The compiled templates of `ts`, their patterns numbered from `idx` on;
/// templates with no compiled pattern are left out.
pub open spec fn compile_templates(ts: Seq<Template>, idx: nat) -> Seq<TemplateText>
    decreases ts.len(),
{
    if ts.len() == 0 {
        Seq::empty()
    } else {
        let prev = compile_templates(ts.drop_last(), idx);
        let t = ts.last();
        let pats = compile_patterns(t.patterns@, idx + pattern_total(prev));
        prev + if pats.len() == 0 {
            Seq::empty()
        } else {
            seq![TemplateText { template_id: t.id@, severity: t.severity, patterns: pats }]
        }
    }
}

/// Compiles one pattern of template `template_id` under the number `index`.
pub fn compile_pattern_optimized(pattern: &Pattern, template_id: &str, index: u32) -> (r: Result<CompiledPattern, PatternCompileError>)
    ensures
        match r {
            Ok(c) => compile_verdict(pattern.kind, pattern.pattern@) == Ok::<MatcherText, PatternCompileError>(matcher_text(c.matcher))
                && c.pattern_id@ == pattern.id@ && c.message@ == pattern.message@ && c.index == index
                && matcher_ok(c.matcher),
            Err(e) => compile_verdict(pattern.kind, pattern.pattern@) == Err::<MatcherText, PatternCompileError>(e),
        },
{
    let p = pattern.pattern.as_str();
    proof {
        lemma_str_utf8(p);
    }
    let matcher = match pattern.kind {
        PatternKind::Regex => {
            match RegexValidator::validate_pattern(p) {
                Err(e) => return Err(PatternCompileError::Unsafe(e)),
                Ok(()) => {},
            }
            let mut multiline = owned("(?m)");
            push_str(&mut multiline, p);
            if regex_capture_spans(multiline.as_str(), "", 0).is_none() {
                return Err(PatternCompileError::InvalidRegex);
            }
            CompiledMatcher::Regex(multiline)
        },
        PatternKind::FancyRegex => {
            match RegexValidator::validate_pattern(p) {
                Err(e) => return Err(PatternCompileError::Unsafe(e)),
                Ok(()) => {},
            }
            let mut multiline = owned("(?m)");
            push_str(&mut multiline, p);
            if crate::pattern_match::fancy_is_match(multiline.as_str(), "").is_none() {
                return Err(PatternCompileError::InvalidFancyRegex);
            }
            CompiledMatcher::FancyRegex(multiline)
        },
        PatternKind::Literal => {
            if p.as_bytes().len() == 0 {
                assert(p@.len() == 0) by {
                    if p@.len() > 0 {
                        lemma_encode_nonempty(p@);
                    }
                }
                return Err(PatternCompileError::EmptyLiteral);
            }
            assert(p@.len() > 0);
            CompiledMatcher::Literal(owned(p))
        },
        PatternKind::Semantic => {
            return Err(PatternCompileError::Semantic);
        },
    };
    Ok(CompiledPattern {
        matcher,
        pattern_id: owned(pattern.id.as_str()),
        message: owned(pattern.message.as_str()),
        index,
    })
}

/// Compiles the patterns of a template, numbering them from `*pattern_index`
/// on; `None` when none of them compiles.
pub fn compile_template_optimized(template: &Template, pattern_index: &mut u32) -> (r: Option<CompiledTemplate>)
    requires
        *old(pattern_index) + template.patterns@.len() <= u32::MAX,
    ensures
        ({
            let pats = compile_patterns(template.patterns@, *old(pattern_index) as nat);
            &&& *final(pattern_index) == *old(pattern_index) + pats.len()
            &&& match r {
                Some(t) => pats.len() > 0 && template_text(t) == (TemplateText {
                    template_id: template.id@,
                    severity: template.severity,
                    patterns: pats,
                }) && forall|k: int| 0 <= k < t.patterns.len() ==> matcher_ok(#[trigger] t.patterns@[k].matcher),
                None => pats.len() == 0,
            }
        }),
{
    let ghost idx0 = *pattern_index as nat;
    let mut compiled: Vec<CompiledPattern> = Vec::new();
    let mut i: usize = 0;
    while i < template.patterns.len()
        invariant
            i <= template.patterns.len(),
            idx0 + template.patterns@.len() <= u32::MAX,
            compiled@.map_values(|p: CompiledPattern| pattern_text(p)) == compile_patterns(template.patterns@.subrange(0, i as int), idx0),
            *pattern_index == idx0 + compiled.len(),
            compiled.len() <= i,
            forall|k: int| 0 <= k < compiled.len() ==> matcher_ok(#[trigger] compiled@[k].matcher),
        decreases template.patterns.len() - i,
    {
        let ghost prev = compile_patterns(template.patterns@.subrange(0, i as int), idx0);
        assert(template.patterns@.subrange(0, i + 1).drop_last() =~= template.patterns@.subrange(0, i as int));
        let pattern = &template.patterns[i];
        match compile_pattern_optimized(pattern, template.id.as_str(), *pattern_index) {
            Ok(c) => {
                let ghost before = compiled@;
                compiled.push(c);
                *pattern_index = *pattern_index + 1;
                assert(compiled@.map_values(|p: CompiledPattern| pattern_text(p)) =~= before.map_values(|p: CompiledPattern| pattern_text(p)).push(pattern_text(c)));
            },
            Err(_) => {},
        }
        i = i + 1;
    }
    assert(template.patterns@.subrange(0, template.patterns.len() as int) =~= template.patterns@);
    if compiled.len() == 0 {
        return None;
    }
    Some(CompiledTemplate { template_id: owned(template.id.as_str()), severity: template.severity, patterns: compiled })
}

/// The first offset of line `ln` (from 1) of `b`.
pub open spec fn line_start_of(b: Seq<u8>, ln: nat) -> nat {
    if ln > 1 { (newline_positions(b)[ln - 2] + 1) as nat } else { 0 }
}

/// The raw matches of a template's patterns in `s`: each pattern's spans in
/// order, tagged with the pattern's position.
pub open spec fn template_candidates(s: Seq<char>, pats: Seq<PatternText>) -> Seq<(nat, nat, nat)>
    decreases pats.len(),
{
    if pats.len() == 0 {
        Seq::empty()
    } else {
        template_candidates(s, pats.drop_last()) + matcher_spans(pats.last().matcher, s).map_values(
            |sp: (nat, nat)| (sp.0, sp.1, (pats.len() - 1) as nat),
        )
    }
}

/// A raw match with the same span and pattern number came earlier.
pub open spec fn key_seen(t: TemplateText, prev: Seq<(nat, nat, nat)>, c: (nat, nat, nat)) -> bool {
    exists|j: int|
        0 <= j < prev.len() && #[trigger] prev[j].0 == c.0 && prev[j].1 == c.1
            && t.patterns[prev[j].2 as int].index == t.patterns[c.2 as int].index
}

/// The match `c` of template `t` in `s` is kept: not a protected reentrancy
/// or access-controlled spot, not paused code, not safe library code.
pub open spec fn keep_candidate(s: Seq<char>, t: TemplateText, c: (nat, nat, nat)) -> bool {
    let b = vstd::utf8::encode_utf8(s);
    let ctx = context_text(s, (c.0, c.1));
    &&& !(is_reentrancy_template(t.template_id) && ((fancy_hit(REENTRANCY_GUARD_PATTERN@, s)
        && fancy_hit(REENTRANCY_GUARD_PATTERN@, ctx)) || (fancy_hit(ACCESS_CONTROL_PATTERN@, s)
        && fancy_hit(ACCESS_CONTROL_PATTERN@, ctx))))
    &&& !(fancy_hit(PAUSABLE_PATTERN@, s) && fancy_hit(PAUSABLE_PATTERN@, ctx))
    &&& !(is_library_source(s) && is_safe_library_match(s, ctx, span_text(b, (c.0, c.1))))
}

/// The finding for the match `c` of template `t` in the file `path` with text `s`.
pub open spec fn candidate_view(s: Seq<char>, path: Seq<char>, t: TemplateText, c: (nat, nat, nat)) -> MatchView {
    let b = vstd::utf8::encode_utf8(s);
    let ln = line_number_of(b, c.0);
    let p = t.patterns[c.2 as int];
    let ctx = context_text(s, (c.0, c.1));
    MatchView {
        template_id: t.template_id,
        pattern_id: p.pattern_id,
        file_path: path,
        line_number: ln,
        column: (c.0 - line_start_of(b, ln)) as nat,
        matched_text: span_text(b, (c.0, c.1)),
        context: ctx,
        code_snippet: snippet_of(b, ln),
        severity: t.severity,
        message: p.message,
        start_byte: None,
        end_byte: None,
        function_context: None,
        protections: None,
        filtered: filtered_context(ctx),
    }
}

/// The findings of the raw matches `cands`: each one the first with its span
/// and pattern, and kept.
pub open spec fn scan_candidates(s: Seq<char>, path: Seq<char>, t: TemplateText, cands: Seq<(nat, nat, nat)>) -> Seq<MatchView>
    decreases cands.len(),
{
    if cands.len() == 0 {
        Seq::empty()
    } else {
        let prev = cands.drop_last();
        let c = cands.last();
        scan_candidates(s, path, t, prev) + if key_seen(t, prev, c) || !keep_candidate(s, t, c) {
            Seq::empty()
        } else {
            seq![candidate_view(s, path, t, c)]
        }
    }
}

/// The findings of template `t` in the file `path` with text `s`.
pub open spec fn template_scan(s: Seq<char>, path: Seq<char>, t: TemplateText) -> Seq<MatchView> {
    scan_candidates(s, path, t, template_candidates(s, t.patterns))
}

/// What the scanner knows of a source while matching templates against it.
pub struct ScanContext<'a> {
    pub source: &'a str,
    pub newlines: Vec<usize>,
    pub lines: Vec<&'a str>,
    pub file_path: &'a str,
    pub has_reentrancy_guard: bool,
    pub has_access_control: bool,
    pub has_pausable: bool,
    pub is_oz_library: bool,
}

impl<'a> ScanContext<'a> {
    /// The context was computed from its source.
    pub open spec fn ok(&self) -> bool {
        let s = self.source@;
        let b = sbytes(self.source);
        &&& b.len() < usize::MAX
        &&& self.newlines@ == newline_positions(b)
        &&& self.lines.len() == line_count(b)
        &&& forall|k: int| 0 <= k < self.lines.len() ==> (#[trigger] self.lines@[k])@ == line_text(b, k)
        &&& self.has_reentrancy_guard == fancy_hit(REENTRANCY_GUARD_PATTERN@, s)
        &&& self.has_access_control == fancy_hit(ACCESS_CONTROL_PATTERN@, s)
        &&& self.has_pausable == fancy_hit(PAUSABLE_PATTERN@, s)
        &&& self.is_oz_library == is_library_source(s)
    }

    /// Computes the context of `source` in the file `file_path`.
    pub fn new(source: &'a str, file_path: &'a str) -> (r: Self)
        requires
            sbytes(source).len() < usize::MAX,
        ensures
            r.ok(),
            r.source == source,
            r.file_path == file_path,
    {
        let newlines = newline_offsets(source);
        let lines = source_lines(source);
        proof {
            lemma_str_utf8(source);
            assert forall|k: int| 0 <= k < lines.len() implies (#[trigger] lines@[k])@ == line_text(sbytes(source), k) by {
                lemma_str_utf8(lines@[k]);
            }
        }
        ScanContext {
            source,
            newlines,
            lines,
            file_path,
            has_reentrancy_guard: fancy_matches(REENTRANCY_GUARD_PATTERN, source),
            has_access_control: fancy_matches(ACCESS_CONTROL_PATTERN, source),
            has_pausable: fancy_matches(PAUSABLE_PATTERN, source),
            is_oz_library: is_openzeppelin_library(source),
        }
    }
}

/// The keys of raw matches: span and pattern number.
pub open spec fn candidate_keys(t: TemplateText, cands: Seq<(nat, nat, nat)>) -> Seq<(usize, usize, u32)> {
    cands.map_values(|c: (nat, nat, nat)| (c.0 as usize, c.1 as usize, t.patterns[c.2 as int].index as u32))
}

/// Whether `keys` holds `k`.
fn keys_contain(keys: &Vec<(usize, usize, u32)>, k: (usize, usize, u32)) -> (r: bool)
    ensures
        r == exists|j: int| 0 <= j < keys.len() && #[trigger] keys@[j] == k,
{
    let mut i: usize = 0;
    while i < keys.len()
        invariant
            i <= keys.len(),
            forall|j: int| 0 <= j < i ==> #[trigger] keys@[j] != k,
        decreases keys.len() - i,
    {
        let e = keys[i];
        if e.0 == k.0 && e.1 == k.1 && e.2 == k.2 {
            return true;
        }
        i = i + 1;
    }
    false
}

/// The finding for a match from `start` to `end` of pattern `p` of template `t`.
fn make_match(t: &CompiledTemplate, p: &CompiledPattern, ctx: &ScanContext, start: usize, end: usize, line_number: usize, context: String) -> (r: Match)
    requires
        ctx.ok(),
        text_span(ctx.source, (start, end)),
        line_number == line_number_of(sbytes(ctx.source), start as nat),
        1 <= line_number <= ctx.newlines@.len() + 1,
        line_number > 1 ==> (ctx.newlines@[line_number - 2] as nat) < start,
        context@ == context_text(ctx.source@, (start as nat, end as nat)),
    ensures
        r@.template_id == t.template_id@,
        r@.pattern_id == p.pattern_id@,
        r@.file_path == ctx.file_path@,
        r@.line_number == line_number,
        r@.column == start - line_start_of(sbytes(ctx.source), line_number as nat),
        r@.matched_text == span_text(sbytes(ctx.source), (start as nat, end as nat)),
        r@.context == context@,
        r@.code_snippet == snippet_of(sbytes(ctx.source), line_number as nat),
        r@.severity == t.severity,
        r@.message == p.message@,
        r@.start_byte is None && r@.end_byte is None && r@.function_context is None && r@.protections is None,
        r@.filtered == filtered_context(context@),
{
    let ghost b = sbytes(ctx.source);
    proof {
        lemma_str_utf8(ctx.source);
        lemma_newline_positions(b);
    }
    let line_start = if line_number > 1 { ctx.newlines[line_number - 2] + 1 } else { 0 };
    let matched = str_slice(ctx.source, start, end);
    proof {
        lemma_str_utf8(matched);
    }
    let filtered = check_filtered(context.as_str());
    let snippet = extract_code_snippet_cached(&ctx.lines, line_number);
    proof {
        assert forall|k: int| true implies crate::source_index::snippet_line(ctx.lines@, k) == line_text(b, k) by {
        }
    }
    Match {
        template_id: owned(t.template_id.as_str()),
        pattern_id: owned(p.pattern_id.as_str()),
        file_path: owned(ctx.file_path),
        line_number,
        column: start - line_start,
        matched_text: owned(matched),
        context,
        code_snippet: snippet,
        severity: t.severity,
        message: owned(p.message.as_str()),
        start_byte: None,
        end_byte: None,
        function_context: None,
        protections: None,
        filtered,
    }
}

/// Raw matches whose spans lie in a text of `n` bytes and whose pattern
/// positions are below `np`.
pub open spec fn cands_in_range(cands: Seq<(nat, nat, nat)>, n: nat, np: nat) -> bool {
    forall|i: int| 0 <= i < cands.len() ==> (#[trigger] cands[i]).0 <= cands[i].1 <= n && cands[i].2 < np
}

proof fn lemma_key_seen(t: TemplateText, prev: Seq<(nat, nat, nat)>, c: (nat, nat, nat), n: nat, key: (usize, usize, u32))
    requires
        n < usize::MAX,
        cands_in_range(prev, n, t.patterns.len()),
        c.0 <= c.1 <= n,
        c.2 < t.patterns.len(),
        forall|q: int| 0 <= q < t.patterns.len() ==> (#[trigger] t.patterns[q]).index <= u32::MAX,
        key == (c.0 as usize, c.1 as usize, t.patterns[c.2 as int].index as u32),
    ensures
        key_seen(t, prev, c) == exists|j: int| 0 <= j < prev.len() && #[trigger] candidate_keys(t, prev)[j] == key,
{
    let ks = candidate_keys(t, prev);
    if key_seen(t, prev, c) {
        let j = choose|j: int|
            0 <= j < prev.len() && #[trigger] prev[j].0 == c.0 && prev[j].1 == c.1
                && t.patterns[prev[j].2 as int].index == t.patterns[c.2 as int].index;
        assert(ks[j] == key);
    }
    if exists|j: int| 0 <= j < prev.len() && #[trigger] ks[j] == key {
        let j = choose|j: int| 0 <= j < prev.len() && #[trigger] ks[j] == key;
        assert(prev[j].0 <= n && prev[j].1 <= n);
        assert(t.patterns[prev[j].2 as int].index <= u32::MAX);
        assert(prev[j].0 == c.0);
        assert(key_seen(t, prev, c));
    }
}

/// The findings of one template in the context's source.
fn scan_template(t: &CompiledTemplate, ctx: &ScanContext) -> (r: Vec<Match>)
    requires
        ctx.ok(),
        forall|k: int| 0 <= k < t.patterns.len() ==> matcher_ok(#[trigger] t.patterns@[k].matcher),
    ensures
        match_views(r@) == template_scan(ctx.source@, ctx.file_path@, template_text(*t)),
{
    let ghost s = ctx.source@;
    let ghost b = sbytes(ctx.source);
    let ghost path = ctx.file_path@;
    let ghost tt = template_text(*t);
    let is_reent = is_reentrancy_pattern(t.template_id.as_str());
    let mut out: Vec<Match> = Vec::new();
    let mut keys: Vec<(usize, usize, u32)> = Vec::new();
    let mut k: usize = 0;
    proof {
        lemma_str_utf8(ctx.source);
        assert forall|q: int| 0 <= q < tt.patterns.len() implies (#[trigger] tt.patterns[q]).index <= u32::MAX by {
            assert(tt.patterns[q] == pattern_text(t.patterns@[q]));
        }
    }
    while k < t.patterns.len()
        invariant
            ctx.ok(),
            forall|q: int| 0 <= q < t.patterns.len() ==> matcher_ok(#[trigger] t.patterns@[q].matcher),
            s == ctx.source@,
            b == sbytes(ctx.source),
            b == vstd::utf8::encode_utf8(s),
            path == ctx.file_path@,
            tt == template_text(*t),
            forall|q: int| 0 <= q < tt.patterns.len() ==> (#[trigger] tt.patterns[q]).index <= u32::MAX,
            is_reent == is_reentrancy_template(tt.template_id),
            k <= t.patterns.len(),
            match_views(out@) == scan_candidates(s, path, tt, template_candidates(s, tt.patterns.subrange(0, k as int))),
            keys@ == candidate_keys(tt, template_candidates(s, tt.patterns.subrange(0, k as int))),
            cands_in_range(template_candidates(s, tt.patterns.subrange(0, k as int)), b.len(), k as nat),
        decreases t.patterns.len() - k,
    {
        let p = &t.patterns[k];
        let spans = find_spans(&p.matcher, ctx.source);
        let ghost pre = template_candidates(s, tt.patterns.subrange(0, k as int));
        let ghost tagged = matcher_spans(tt.patterns[k as int].matcher, s).map_values(
            |sp: (nat, nat)| (sp.0, sp.1, k as nat),
        );
        proof {
            assert(tt.patterns.subrange(0, k + 1).drop_last() =~= tt.patterns.subrange(0, k as int));
            assert(tt.patterns[k as int] == pattern_text(*p));
            assert(template_candidates(s, tt.patterns.subrange(0, k + 1)) == pre + tagged);
            assert(tagged.len() == spans.len());
        }
        let mut j: usize = 0;
        while j < spans.len()
            invariant
                ctx.ok(),
                s == ctx.source@,
                b == sbytes(ctx.source),
                b == vstd::utf8::encode_utf8(s),
                path == ctx.file_path@,
                tt == template_text(*t),
                forall|q: int| 0 <= q < tt.patterns.len() ==> (#[trigger] tt.patterns[q]).index <= u32::MAX,
                is_reent == is_reentrancy_template(tt.template_id),
                k < t.patterns.len(),
                tt.patterns[k as int] == pattern_text(*p),
                spans_view(spans@) == matcher_spans(matcher_text(p.matcher), s),
                forall|q: int| 0 <= q < spans.len() ==> text_span(ctx.source, #[trigger] spans@[q]),
                tagged == matcher_spans(tt.patterns[k as int].matcher, s).map_values(|sp: (nat, nat)| (sp.0, sp.1, k as nat)),
                tagged.len() == spans.len(),
                j <= spans.len(),
                cands_in_range(pre, b.len(), k as nat),
                match_views(out@) == scan_candidates(s, path, tt, pre + tagged.subrange(0, j as int)),
                keys@ == candidate_keys(tt, pre + tagged.subrange(0, j as int)),
            decreases spans.len() - j,
        {
            let (start, end) = spans[j];
            let ghost prev = pre + tagged.subrange(0, j as int);
            let ghost c = tagged[j as int];
            proof {
                assert(spans_view(spans@)[j as int] == span_view(spans@[j as int]));
                assert(c == (start as nat, end as nat, k as nat));
                assert((pre + tagged.subrange(0, j + 1)).drop_last() =~= prev);
                assert((pre + tagged.subrange(0, j + 1)).last() == c);
                assert(cands_in_range(prev, b.len(), (k + 1) as nat)) by {
                    assert forall|i: int| 0 <= i < prev.len() implies (#[trigger] prev[i]).0 <= prev[i].1 <= b.len()
                        && prev[i].2 < k + 1 by {
                        if i < pre.len() {
                            assert(prev[i] == pre[i]);
                        } else {
                            let q = i - pre.len();
                            assert(prev[i] == tagged[q]);
                            assert(spans_view(spans@)[q] == span_view(spans@[q]));
                            assert(text_span(ctx.source, spans@[q]));
                        }
                    }
                }
            }
            let key = (start, end, p.index);
            proof {
                lemma_key_seen(tt, prev, c, b.len(), key);
            }
            let seen = keys_contain(&keys, key);
            let ghost keys_before = keys@;
            keys.push(key);
            proof {
                assert(keys@ =~= candidate_keys(tt, pre + tagged.subrange(0, j + 1)));
            }
            if !seen {
                let ln = line_number_at(&ctx.newlines, start, Ghost(b));
                let context = get_match_context(ctx.source, &ctx.newlines, start, end, ln);
                let matched = str_slice(ctx.source, start, end);
                proof {
                    lemma_str_utf8(matched);
                }
                let mut skip = false;
                if is_reent {
                    if ctx.has_reentrancy_guard && fancy_matches(REENTRANCY_GUARD_PATTERN, context.as_str()) {
                        skip = true;
                    }
                    if ctx.has_access_control && fancy_matches(ACCESS_CONTROL_PATTERN, context.as_str()) {
                        skip = true;
                    }
                }
                if ctx.has_pausable && fancy_matches(PAUSABLE_PATTERN, context.as_str()) {
                    skip = true;
                }
                if ctx.is_oz_library && is_openzeppelin_safe_pattern(ctx.source, context.as_str(), matched) {
                    skip = true;
                }
                assert(skip == !keep_candidate(s, tt, c));
                if !skip {
                    let m = make_match(t, p, ctx, start, end, ln, context);
                    let ghost before = out@;
                    out.push(m);
                    proof {
                        assert(m@ == candidate_view(s, path, tt, c));
                        assert(match_views(out@) =~= match_views(before).push(m@));
                    }
                }
            }
            j = j + 1;
        }
        proof {
            assert(tagged.subrange(0, spans.len() as int) =~= tagged);
            assert(cands_in_range(pre + tagged, b.len(), (k + 1) as nat)) by {
                assert forall|i: int| 0 <= i < (pre + tagged).len() implies (#[trigger] (pre + tagged)[i]).0 <= (pre + tagged)[i].1 <= b.len()
                    && (pre + tagged)[i].2 < k + 1 by {
                    if i >= pre.len() {
                        let q = i - pre.len();
                        assert(spans_view(spans@)[q] == span_view(spans@[q]));
                        assert(text_span(ctx.source, spans@[q]));
                    }
                }
            }
        }
        k = k + 1;
    }
    proof {
        assert(tt.patterns.subrange(0, t.patterns.len() as int) =~= tt.patterns);
    }
    out
}

/// The number of patterns of a list of templates, compiled or not.
pub open spec fn raw_pattern_total(ts: Seq<Template>) -> nat
    decreases ts.len(),
{
    if ts.len() == 0 {
        0
    } else {
        raw_pattern_total(ts.drop_last()) + ts.last().patterns@.len()
    }
}

proof fn lemma_compile_patterns_len(pats: Seq<Pattern>, idx: nat)
    ensures
        compile_patterns(pats, idx).len() <= pats.len(),
    decreases pats.len(),
{
    if pats.len() > 0 {
        lemma_compile_patterns_len(pats.drop_last(), idx);
    }
}

proof fn lemma_compile_templates_total(ts: Seq<Template>, idx: nat)
    ensures
        pattern_total(compile_templates(ts, idx)) <= raw_pattern_total(ts),
    decreases ts.len(),
{
    if ts.len() > 0 {
        lemma_compile_templates_total(ts.drop_last(), idx);
        let prev = compile_templates(ts.drop_last(), idx);
        lemma_compile_patterns_len(ts.last().patterns@, idx + pattern_total(prev));
        let pats = compile_patterns(ts.last().patterns@, idx + pattern_total(prev));
        if pats.len() > 0 {
            let nt = TemplateText { template_id: ts.last().id@, severity: ts.last().severity, patterns: pats };
            assert((prev + seq![nt]).drop_last() =~= prev);
        } else {
            assert(prev + Seq::<TemplateText>::empty() =~= prev);
        }
    }
}

proof fn lemma_raw_total_prefix(ts: Seq<Template>, i: int)
    requires
        0 <= i <= ts.len(),
    ensures
        raw_pattern_total(ts.subrange(0, i)) <= raw_pattern_total(ts),
        i < ts.len() ==> raw_pattern_total(ts.subrange(0, i)) + ts[i].patterns@.len() <= raw_pattern_total(ts),
    decreases ts.len() - i,
{
    if i < ts.len() {
        lemma_raw_total_prefix(ts, i + 1);
        assert(ts.subrange(0, i + 1).drop_last() =~= ts.subrange(0, i));
    } else {
        assert(ts.subrange(0, i) =~= ts);
    }
}

/// Matches templates against Solidity sources.
pub struct Scanner {
    templates: Vec<CompiledTemplate>,
}

/// The templates in force: for a source declaring 0.8 or later, none about
/// integer overflow; for a known contract kind, none with a pattern that does
/// not apply to it.
pub open spec fn template_applies(t: TemplateText, modern: bool, ct: Option<ContractType>) -> bool {
    &&& !(modern && str_has(t.template_id, "integer_overflow"@))
    &&& match ct {
        Some(ct) => !exists|k: int| 0 <= k < t.patterns.len() && skipped_for(ct, #[trigger] t.patterns[k].pattern_id),
        None => true,
    }
}

/// The findings of the templates `ts` in force, one template after the other.
pub open spec fn raw_scan(s: Seq<char>, path: Seq<char>, ts: Seq<TemplateText>, modern: bool, ct: Option<ContractType>) -> Seq<MatchView>
    decreases ts.len(),
{
    if ts.len() == 0 {
        Seq::empty()
    } else {
        raw_scan(s, path, ts.drop_last(), modern, ct) + if template_applies(ts.last(), modern, ct) {
            template_scan(s, path, ts.last())
        } else {
            Seq::empty()
        }
    }
}

/// A source declares Solidity 0.8 or later.
pub open spec fn is_modern_source(s: Seq<char>) -> bool {
    version_at_least_0_8(solidity_version_of(s))
}

/// A finding moved down by `off` lines (saturating).
pub open spec fn shift_line(m: MatchView, off: nat) -> MatchView {
    MatchView { line_number: if m.line_number + off <= usize::MAX { m.line_number + off } else { usize::MAX as nat }, ..m }
}

/// The findings in one chunk, whose first line is line `off + 1` of the file.
pub open spec fn chunk_scan(s: Seq<char>, path: Seq<char>, ts: Seq<TemplateText>, off: nat) -> Seq<MatchView> {
    raw_scan(s, path, ts, is_modern_source(s), None).map_values(|m: MatchView| shift_line(m, off))
}

impl Scanner {
    /// The compiled templates.
    pub closed spec fn templates_view(&self) -> Seq<TemplateText> {
        self.templates@.map_values(|t: CompiledTemplate| template_text(t))
    }

    /// Literal patterns are not empty.
    #[verifier::type_invariant]
    closed spec fn well_formed(self) -> bool {
        forall|i: int, k: int| 0 <= i < self.templates.len() && 0 <= k < self.templates@[i].patterns.len()
            ==> matcher_ok(#[trigger] self.templates@[i].patterns@[k].matcher)
    }

    /// Compiles the templates; patterns that fail to compile are left out, and
    /// so are templates left with no pattern. The patterns are numbered in order.
    pub fn new(templates: Vec<Template>) -> (r: Result<Self, PatternCompileError>)
        requires
            raw_pattern_total(templates@) <= u32::MAX,
        ensures
            r matches Ok(sc) && sc.templates_view() == compile_templates(templates@, 0),
    {
        let mut compiled: Vec<CompiledTemplate> = Vec::new();
        let mut pattern_index: u32 = 0;
        let mut i: usize = 0;
        while i < templates.len()
            invariant
                i <= templates.len(),
                raw_pattern_total(templates@) <= u32::MAX,
                compiled@.map_values(|t: CompiledTemplate| template_text(t)) == compile_templates(templates@.subrange(0, i as int), 0),
                pattern_index == pattern_total(compile_templates(templates@.subrange(0, i as int), 0)),
                forall|a: int, q: int| 0 <= a < compiled.len() && 0 <= q < compiled@[a].patterns.len()
                    ==> matcher_ok(#[trigger] compiled@[a].patterns@[q].matcher),
            decreases templates.len() - i,
        {
            let ghost prev = compile_templates(templates@.subrange(0, i as int), 0);
            proof {
                assert(templates@.subrange(0, i + 1).drop_last() =~= templates@.subrange(0, i as int));
                lemma_compile_templates_total(templates@.subrange(0, i as int), 0);
                lemma_raw_total_prefix(templates@, i as int);
            }
            let ghost before = compiled@;
            match compile_template_optimized(&templates[i], &mut pattern_index) {
                Some(t) => {
                    compiled.push(t);
                    proof {
                        assert(compiled@.map_values(|t: CompiledTemplate| template_text(t)) =~= before.map_values(|t: CompiledTemplate| template_text(t)).push(template_text(t)));
                        let nt = template_text(t);
                        assert((prev + seq![nt]).drop_last() =~= prev);
                    }
                },
                None => {
                    proof {
                        assert(prev + Seq::<TemplateText>::empty() =~= prev);
                    }
                },
            }
            i = i + 1;
        }
        proof {
            assert(templates@.subrange(0, templates.len() as int) =~= templates@);
        }
        Ok(Scanner { templates: compiled })
    }

    /// The findings of all templates in force for `ctx`'s source, in template order.
    fn scan_templates(&self, ctx: &ScanContext, modern: bool, ct: Option<ContractType>) -> (r: Vec<Match>)
        requires
            ctx.ok(),
        ensures
            match_views(r@) == raw_scan(ctx.source@, ctx.file_path@, self.templates_view(), modern, ct),
    {
        proof {
            use_type_invariant(self);
        }
        let ghost tv = self.templates_view();
        let mut out: Vec<Match> = Vec::new();
        let mut i: usize = 0;
        while i < self.templates.len()
            invariant
                ctx.ok(),
                tv == self.templates_view(),
                i <= self.templates.len(),
                forall|a: int, q: int| 0 <= a < self.templates.len() && 0 <= q < self.templates@[a].patterns.len()
                    ==> matcher_ok(#[trigger] self.templates@[a].patterns@[q].matcher),
                match_views(out@) == raw_scan(ctx.source@, ctx.file_path@, tv.subrange(0, i as int), modern, ct),
            decreases self.templates.len() - i,
        {
            let t = &self.templates[i];
            let ghost tt = template_text(*t);
            proof {
                assert(tv.subrange(0, i + 1).drop_last() =~= tv.subrange(0, i as int));
                assert(tv[i as int] == tt);
            }
            let mut applies = true;
            if modern && contains(t.template_id.as_str(), "integer_overflow") {
                applies = false;
            }
            match ct {
                Some(c) => {
                    let mut k: usize = 0;
                    while k < t.patterns.len()
                        invariant
                            k <= t.patterns.len(),
                            tt == template_text(*t),
                            applies ==> !(modern && str_has(tt.template_id, "integer_overflow"@)),
                            !applies ==> (modern && str_has(tt.template_id, "integer_overflow"@)) || exists|q: int| 0 <= q < tt.patterns.len() && skipped_for(c, #[trigger] tt.patterns[q].pattern_id),
                            applies ==> forall|q: int| 0 <= q < k ==> !skipped_for(c, #[trigger] tt.patterns[q].pattern_id),
                        decreases t.patterns.len() - k,
                    {
                        assert(tt.patterns[k as int] == pattern_text(t.patterns@[k as int]));
                        if ContractTypeDetector::should_skip_pattern(c, t.patterns[k].pattern_id.as_str()) {
                            applies = false;
                            assert(skipped_for(c, tt.patterns[k as int].pattern_id));
                        }
                        k = k + 1;
                    }
                },
                None => {},
            }
            assert(applies == template_applies(tt, modern, ct));
            let ghost before = out@;
            if applies {
                let mut found = scan_template(t, ctx);
                out.append(&mut found);
                proof {
                    assert(match_views(out@) =~= match_views(before) + template_scan(ctx.source@, ctx.file_path@, tt));
                }
            } else {
                assert(match_views(out@) =~= match_views(before) + Seq::<MatchView>::empty());
            }
            i = i + 1;
        }
        proof {
            assert(tv.subrange(0, self.templates.len() as int) =~= tv);
        }
        out
    }
}

/// The result of checking a finding against the contract's syntax tree.
#[derive(Debug, Clone, PartialEq, Eq)]
pub enum ValidationResult {
    /// The finding stands.
    Vulnerable,
    /// The function is protected; the reason says how.
    Protected(&'static str),
    /// No check applies to this finding.
    NotApplicable,
    /// The source did not parse.
    ParseError,
}

/// The findings whose check did not say `Protected`.
pub open spec fn retain_unprotected(ms: Seq<MatchView>, answers: Seq<ValidationResult>) -> Seq<MatchView>
    decreases ms.len(),
{
    if ms.len() == 0 || answers.len() != ms.len() {
        Seq::empty()
    } else {
        retain_unprotected(ms.drop_last(), answers.drop_last()) + if answers.last() is Protected {
            Seq::empty()
        } else {
            seq![ms.last()]
        }
    }
}

/// Two findings at the same line and column for the same pattern.
pub open spec fn same_spot(a: MatchView, b: MatchView) -> bool {
    a.line_number == b.line_number && a.column == b.column && a.pattern_id == b.pattern_id
}

/// The findings, each the first at its line, column and pattern.
pub open spec fn dedup_findings(ms: Seq<MatchView>) -> Seq<MatchView>
    decreases ms.len(),
{
    if ms.len() == 0 {
        Seq::empty()
    } else {
        let prev = ms.drop_last();
        dedup_findings(prev) + if exists|j: int| 0 <= j < prev.len() && same_spot(#[trigger] prev[j], ms.last()) {
            Seq::empty()
        } else {
            seq![ms.last()]
        }
    }
}

/// A finding inside an interface declaration: its context has `;` but no
/// `{`, and names a function.
pub open spec fn is_interface_finding(m: MatchView) -> bool {
    str_has(m.context, ";"@) && !str_has(m.context, "{"@) && (str_has(m.matched_text, "function"@)
        || str_has(m.context, "function"@))
}

/// The findings that are not inside interface declarations.
pub open spec fn drop_interface_findings(ms: Seq<MatchView>) -> Seq<MatchView>
    decreases ms.len(),
{
    if ms.len() == 0 {
        Seq::empty()
    } else {
        drop_interface_findings(ms.drop_last()) + if is_interface_finding(ms.last()) {
            Seq::empty()
        } else {
            seq![ms.last()]
        }
    }
}

/// Most findings reported for one file.
pub const MAX_PATTERNS_PER_FILE: usize = 10000;

/// The first `MAX_PATTERNS_PER_FILE` findings.
pub open spec fn bounded(ms: Seq<MatchView>) -> Seq<MatchView> {
    if ms.len() > MAX_PATTERNS_PER_FILE { ms.take(MAX_PATTERNS_PER_FILE as int) } else { ms }
}

/// Keeps, of the findings at the same line and column for the same pattern,
/// the first.
pub fn dedup_matches(matches: &Vec<Match>) -> (r: Vec<Match>)
    ensures
        match_views(r@) == dedup_findings(match_views(matches@)),
{
    let ghost mv = match_views(matches@);
    let mut out: Vec<Match> = Vec::new();
    let mut i: usize = 0;
    while i < matches.len()
        invariant
            i <= matches.len(),
            mv == match_views(matches@),
            match_views(out@) == dedup_findings(mv.subrange(0, i as int)),
        decreases matches.len() - i,
    {
        let m = &matches[i];
        let ghost prev = mv.subrange(0, i as int);
        proof {
            assert(mv.subrange(0, i + 1).drop_last() =~= prev);
            assert(mv[i as int] == m@);
        }
        let mut dup = false;
        let mut j: usize = 0;
        while j < i
            invariant
                j <= i < matches.len(),
                mv == match_views(matches@),
                prev == mv.subrange(0, i as int),
                m@ == mv[i as int],
                dup == exists|q: int| 0 <= q < j && same_spot(#[trigger] prev[q], m@),
            decreases i - j,
        {
            let o = &matches[j];
            assert(prev[j as int] == o@);
            if o.line_number == m.line_number && o.column == m.column && str_eq(o.pattern_id.as_str(), m.pattern_id.as_str()) {
                dup = true;
            }
            j = j + 1;
        }
        let ghost before = out@;
        if !dup {
            out.push(copy_match(m));
            assert(match_views(out@) =~= match_views(before).push(m@));
        }
        i = i + 1;
    }
    assert(mv.subrange(0, matches.len() as int) =~= mv);
    out
}

/// Whether a finding lies inside an interface declaration.
pub fn is_interface_match(m: &Match) -> (r: bool)
    ensures
        r == is_interface_finding(m@),
{
    contains(m.context.as_str(), ";") && !contains(m.context.as_str(), "{") && (contains(m.matched_text.as_str(), "function")
        || contains(m.context.as_str(), "function"))
}

/// The findings that are not inside interface declarations, at most
/// `MAX_PATTERNS_PER_FILE` of them.
pub fn drop_interfaces_bounded(matches: &Vec<Match>) -> (r: Vec<Match>)
    ensures
        match_views(r@) == bounded(drop_interface_findings(match_views(matches@))),
{
    let ghost mv = match_views(matches@);
    let mut out: Vec<Match> = Vec::new();
    let mut i: usize = 0;
    while i < matches.len()
        invariant
            i <= matches.len(),
            mv == match_views(matches@),
            match_views(out@) == drop_interface_findings(mv.subrange(0, i as int)),
        decreases matches.len() - i,
    {
        let m = &matches[i];
        proof {
            assert(mv.subrange(0, i + 1).drop_last() =~= mv.subrange(0, i as int));
            assert(mv[i as int] == m@);
        }
        let ghost before = out@;
        if !is_interface_match(m) {
            out.push(copy_match(m));
            assert(match_views(out@) =~= match_views(before).push(m@));
        }
        i = i + 1;
    }
    assert(mv.subrange(0, matches.len() as int) =~= mv);
    if out.len() > MAX_PATTERNS_PER_FILE {
        out.truncate(MAX_PATTERNS_PER_FILE);
        assert(match_views(out@) =~= drop_interface_findings(mv).take(MAX_PATTERNS_PER_FILE as int));
    }
    out
}

impl Scanner {
    /// The findings in one chunk of a larger file, with line numbers moved
    /// down by the `line_offset` lines before the chunk.
    fn scan_chunk_direct(&self, source: &str, file_path: &str, line_offset: usize) -> (r: Vec<Match>)
        requires
            sbytes(source).len() < usize::MAX,
        ensures
            match_views(r@) == chunk_scan(source@, file_path@, self.templates_view(), line_offset as nat),
    {
        let ctx = ScanContext::new(source, file_path);
        let version = extract_solidity_version(source);
        let modern = is_version_gte_0_8(&version);
        assert(modern == is_modern_source(source@));
        let raw = self.scan_templates(&ctx, modern, None);
        let ghost rv = match_views(raw@);
        let mut out: Vec<Match> = Vec::new();
        let mut i: usize = 0;
        while i < raw.len()
            invariant
                i <= raw.len(),
                rv == match_views(raw@),
                out.len() == i,
                match_views(out@) == rv.subrange(0, i as int).map_values(|m: MatchView| shift_line(m, line_offset as nat)),
            decreases raw.len() - i,
        {
            let m = &raw[i];
            let ln = m.line_number.saturating_add(line_offset);
            let ghost before = out@;
            out.push(copy_match_at_line(m, ln));
            proof {
                assert(rv[i as int] == m@);
                let f = |m: MatchView| shift_line(m, line_offset as nat);
                let want = rv.subrange(0, i + 1).map_values(f);
                assert(out@.last()@ == shift_line(m@, line_offset as nat));
                assert forall|k: int| 0 <= k < i + 1 implies match_views(out@)[k] == want[k] by {
                    if k < i {
                        assert(match_views(out@)[k] == out@[k]@);
                        assert(out@[k] == before[k]);
                        assert(match_views(before)[k] == before[k]@);
                        assert(rv.subrange(0, i as int).map_values(f)[k] == f(rv[k]));
                    }
                }
                assert(match_views(out@) =~= want);
            }
            i = i + 1;
        }
        assert(rv.subrange(0, raw.len() as int) =~= rv);
        out
    }
}

/// Files longer than this many bytes are not scanned.
pub const MAX_FILE_SIZE: usize = 1572864;
/// Files longer than this many bytes are scanned in chunks.
pub const CHUNK_THRESHOLD: usize = 700000;
/// The size of the chunks of large files.
pub const CHUNK_SIZE: usize = 200000;
/// How far consecutive chunks overlap.
pub const CHUNK_OVERLAP: usize = 50000;

/// The findings of each chunk of `plan` over the bytes `b`, one chunk after
/// the other, with line numbers counted from the start of the file.
pub open spec fn chunk_outputs(b: Seq<u8>, plan: Seq<(nat, nat)>, path: Seq<char>, ts: Seq<TemplateText>) -> Seq<MatchView>
    decreases plan.len(),
{
    if plan.len() == 0 {
        Seq::empty()
    } else {
        let p = plan.last();
        chunk_outputs(b, plan.drop_last(), path, ts) + chunk_scan(
            vstd::utf8::decode_utf8(b.subrange(p.0 as int, p.1 as int)),
            path,
            ts,
            line_offset_at(b, p.0),
        )
    }
}

/// The findings of a large file scanned in chunks of `c` bytes overlapping
/// by `CHUNK_OVERLAP`, each the first at its line, column and pattern.
pub open spec fn chunked_scan(s: Seq<char>, path: Seq<char>, ts: Seq<TemplateText>, c: nat) -> Seq<MatchView> {
    let b = vstd::utf8::encode_utf8(s);
    dedup_findings(chunk_outputs(b, chunk_plan(b.len(), c, CHUNK_OVERLAP as nat, 0), path, ts))
}

/// The syntax-tree check may answer `v` for finding `m` of the source `s`.
pub open spec fn validates(s: Seq<char>, m: MatchView, v: ValidationResult) -> bool {
    ast_answer(s, m.pattern_id, m.line_number as usize, v)
}

/// The findings of all templates in force for a source of at most
/// `CHUNK_THRESHOLD` bytes, before the syntax-tree check.
pub open spec fn direct_findings(s: Seq<char>, path: Seq<char>, ts: Seq<TemplateText>) -> Seq<MatchView> {
    raw_scan(s, path, ts, is_modern_source(s), Some(contract_type_of(lowercase(s))))
}

/// The findings reported for a small source once the syntax-tree check
/// answered `answers`: unprotected, deduplicated, outside interfaces, bounded.
pub open spec fn finish_findings(raw: Seq<MatchView>, answers: Seq<ValidationResult>) -> Seq<MatchView> {
    bounded(drop_interface_findings(dedup_findings(retain_unprotected(raw, answers))))
}

proof fn lemma_count_byte_le(s: Seq<u8>, c: u8)
    ensures
        count_byte(s, c) <= s.len(),
    decreases s.len(),
{
    if s.len() > 0 {
        lemma_count_byte_le(s.drop_last(), c);
    }
}

proof fn lemma_flatten_views(outs: Seq<Seq<Match>>, n: int)
    requires
        0 <= n < outs.len(),
    ensures
        match_views(flatten(outs.subrange(0, n + 1))) == match_views(flatten(outs.subrange(0, n))) + match_views(outs[n]),
{
    let a = outs.subrange(0, n + 1);
    assert(a.drop_last() =~= outs.subrange(0, n));
    assert(flatten(a) == flatten(outs.subrange(0, n)) + outs[n]);
    assert(match_views(flatten(a)) =~= match_views(flatten(outs.subrange(0, n))) + match_views(outs[n]));
}

proof fn lemma_chunk_outputs<F: FnMut(&str, usize) -> Result<Vec<Match>, anyhow::Error>>(
    f: F,
    b: Seq<u8>,
    plan: Seq<(nat, nat)>,
    outs: Seq<Seq<Match>>,
    args: Seq<&str>,
    path: Seq<char>,
    ts: Seq<TemplateText>,
    n: int,
)
    requires
        calls_succeeded(f, b, plan, outs, args),
        outs.len() == plan.len(),
        0 <= n <= plan.len(),
        forall|k: int| 0 <= k < plan.len() ==> (#[trigger] plan[k]).0 <= plan[k].1 <= b.len(),
        b.len() < usize::MAX,
        forall|chunk: &str, off: usize, r: Result<Vec<Match>, anyhow::Error>| #[trigger] call_ensures(f, (chunk, off), r)
            ==> (r matches Ok(w) && match_views(w@) == chunk_scan(chunk@, path, ts, off as nat)),
    ensures
        match_views(flatten(outs.subrange(0, n))) == chunk_outputs(b, plan.subrange(0, n), path, ts),
    decreases n,
{
    if n == 0 {
        assert(outs.subrange(0, 0) =~= Seq::<Seq<Match>>::empty());
        assert(plan.subrange(0, 0) =~= Seq::<(nat, nat)>::empty());
    } else {
        lemma_chunk_outputs(f, b, plan, outs, args, path, ts, n - 1);
        lemma_flatten_views(outs, n - 1);
        let k = n - 1;
        let w = choose|w: Vec<Match>| w@ == #[trigger] outs[k] && chunk_call(f, b, plan, k, args[k], Ok(w));
        assert(w@ == outs[k] && chunk_call(f, b, plan, k, args[k], Ok(w)));
        crate::text::lemma_str_utf8(args[k]);
        lemma_count_byte_le(b.subrange(0, plan[k].0 as int), 10u8);
        assert(plan.subrange(0, n).drop_last() =~= plan.subrange(0, k));
        assert(plan.subrange(0, n).last() == plan[k]);
    }
}

proof fn lemma_plan_in_range(len: nat, c: nat, o: nat, off: nat)
    ensures
        forall|k: int| 0 <= k < chunk_plan(len, c, o, off).len() ==> (#[trigger] chunk_plan(len, c, o, off)[k]).0 <= chunk_plan(len, c, o, off)[k].1 <= len,
    decreases len - off,
{
    if off < len {
        let end = if off + c < len { off + c } else { len };
        let nxt = crate::chunking::next_offset(len, c, o, off);
        let p = chunk_plan(len, c, o, off);
        if !(nxt <= off || nxt >= len) {
            lemma_plan_in_range(len, c, o, nxt);
            let rest = chunk_plan(len, c, o, nxt);
            assert(p == seq![(off, end)] + rest);
            assert forall|k: int| 0 <= k < p.len() implies (#[trigger] p[k]).0 <= p[k].1 <= len by {
                if k > 0 {
                    assert(p[k] == rest[k - 1]);
                }
            }
        } else {
            assert(p == seq![(off, end)]);
        }
    }
}

impl Scanner {
    /// Scans a large file in overlapping chunks and keeps, of the findings at
    /// the same line, column and pattern, the first.
    fn scan_chunked(&self, source: &str, file_path: &str, chunk_size: usize) -> (r: Result<Vec<Match>, anyhow::Error>)
        requires
            sbytes(source).len() < usize::MAX,
            plan_terminates(sbytes(source).len(), chunk_size as nat, CHUNK_OVERLAP as nat),
            plan_on_char_boundaries(sbytes(source), chunk_plan(sbytes(source).len(), chunk_size as nat, CHUNK_OVERLAP as nat, 0)),
        ensures
            r matches Ok(v) && match_views(v@) == chunked_scan(source@, file_path@, self.templates_view(), chunk_size as nat),
    {
        let ghost tv = self.templates_view();
        let ghost path = file_path@;
        let ghost b = sbytes(source);
        let source_len = source.as_bytes().len();
        let processor = ChunkProcessor::new(chunk_size, CHUNK_OVERLAP);
        let f = |chunk: &str, line_offset: usize| -> (r: Result<Vec<Match>, anyhow::Error>)
            requires
                sbytes(chunk).len() <= source_len,
                source_len < usize::MAX,
            ensures
                r matches Ok(w) && match_views(w@) == chunk_scan(chunk@, file_path@, self.templates_view(), line_offset as nat),
        {
            Ok(self.scan_chunk_direct(chunk, file_path, line_offset))
        };
        let result = processor.process(source, f);
        let all = match result {
            Ok(v) => v,
            Err(e) => {
                proof {
                    crate::text::lemma_str_utf8(source);
                    let plan = chunk_plan(b.len(), chunk_size as nat, CHUNK_OVERLAP as nat, 0);
                    let (outs, args, last) = choose|outs: Seq<Seq<Match>>, args: Seq<&str>, last: &str|
                        #[trigger] calls_succeeded(f, b, plan, outs, args) && outs.len() < plan.len()
                            && #[trigger] chunk_call(f, b, plan, outs.len() as int, last, Err(e));
                    assert(chunk_call(f, b, plan, outs.len() as int, last, Err(e)));
                }
                return Err(e);
            },
        };
        proof {
            crate::text::lemma_str_utf8(source);
            let plan = chunk_plan(b.len(), chunk_size as nat, CHUNK_OVERLAP as nat, 0);
            lemma_plan_in_range(b.len(), chunk_size as nat, CHUNK_OVERLAP as nat, 0);
            let (outs, args) = choose|outs: Seq<Seq<Match>>, args: Seq<&str>|
                #[trigger] calls_succeeded(f, b, plan, outs, args) && outs.len() == plan.len() && all@ == flatten(outs);
            lemma_chunk_outputs(f, b, plan, outs, args, path, tv, plan.len() as int);
            assert(outs.subrange(0, plan.len() as int) =~= outs);
            assert(plan.subrange(0, plan.len() as int) =~= plan);
        }
        Ok(dedup_matches(&all))
    }

    /// The findings of the templates in `source`, the file `file_path`.
    ///
    /// Files over `MAX_FILE_SIZE` bytes give none; files over `CHUNK_THRESHOLD`
    /// bytes are scanned in chunks. Otherwise every template in force is
    /// matched; findings that the syntax-tree check (`validate_source`)
    /// reports as protected are dropped, then repeated spots, then findings
    /// inside interface declarations; at most `MAX_PATTERNS_PER_FILE` remain.
    pub fn scan(&self, source: &str, file_path: &str) -> (r: Result<Vec<Match>, anyhow::Error>)
        requires
            sbytes(source).len() <= CHUNK_THRESHOLD || sbytes(source).len() > MAX_FILE_SIZE
                || plan_on_char_boundaries(sbytes(source), chunk_plan(sbytes(source).len(), CHUNK_SIZE as nat, CHUNK_OVERLAP as nat, 0)),
        ensures
            r matches Ok(v) && ({
                let mv = match_views(v@);
                let n = sbytes(source).len();
                if n > MAX_FILE_SIZE {
                    mv.len() == 0
                } else if n > CHUNK_THRESHOLD {
                    mv == chunked_scan(source@, file_path@, self.templates_view(), CHUNK_SIZE as nat)
                } else {
                    let raw = direct_findings(source@, file_path@, self.templates_view());
                    exists|answers: Seq<ValidationResult>|
                        answers.len() == raw.len()
                            && (forall|k: int| 0 <= k < raw.len() ==> #[trigger] validates(source@, raw[k], answers[k]))
                            && mv == finish_findings(raw, answers)
                }
            }),
    {
        let len = source.as_bytes().len();
        if len > MAX_FILE_SIZE {
            return Ok(Vec::new());
        }
        if len > CHUNK_THRESHOLD {
            return self.scan_chunked(source, file_path, CHUNK_SIZE);
        }
        let ctx = ScanContext::new(source, file_path);
        let version = extract_solidity_version(source);
        let modern = is_version_gte_0_8(&version);
        let contract_type = ContractTypeDetector::detect(source);
        let raw = self.scan_templates(&ctx, modern, Some(contract_type));
        let ghost rv = match_views(raw@);
        let ghost mut answers: Seq<ValidationResult> = Seq::empty();
        let mut kept: Vec<Match> = Vec::new();
        let mut i: usize = 0;
        while i < raw.len()
            invariant
                i <= raw.len(),
                rv == match_views(raw@),
                answers.len() == i,
                forall|k: int| 0 <= k < i ==> #[trigger] validates(source@, rv[k], answers[k]),
                match_views(kept@) == retain_unprotected(rv.subrange(0, i as int), answers),
            decreases raw.len() - i,
        {
            let m = &raw[i];
            let pid = m.pattern_id.as_str();
            let v = validate_source(source, pid, m.line_number);
            let ghost prev_answers = answers;
            proof {
                assert(rv[i as int] == m@);
                assert(rv[i as int].line_number as usize == m.line_number);
                assert(validates(source@, rv[i as int], v));
                answers = answers.push(v);
                assert(rv.subrange(0, i + 1).drop_last() =~= rv.subrange(0, i as int));
                assert(answers.drop_last() =~= prev_answers);
                assert forall|k: int| 0 <= k < i + 1 implies #[trigger] validates(source@, rv[k], answers[k]) by {
                    if k < i {
                        assert(answers[k] == prev_answers[k]);
                    }
                }
            }
            let ghost before = kept@;
            match v {
                ValidationResult::Protected(_) => {},
                _ => {
                    kept.push(copy_match(m));
                    assert(match_views(kept@) =~= match_views(before).push(m@));
                },
            }
            i = i + 1;
        }
        proof {
            assert(rv.subrange(0, raw.len() as int) =~= rv);
        }
        let deduped = dedup_matches(&kept);
        Ok(drop_interfaces_bounded(&deduped))
    }
}

/// No two findings sit at the same line and column for the same pattern.
pub open spec fn spots_distinct(ms: Seq<MatchView>) -> bool {
    forall|i: int, j: int| 0 <= i < j < ms.len() ==> !same_spot(#[trigger] ms[i], #[trigger] ms[j])
}

proof fn lemma_retain_members(ms: Seq<MatchView>, answers: Seq<ValidationResult>)
    ensures
        forall|x: MatchView| #[trigger] retain_unprotected(ms, answers).contains(x) ==> ms.contains(x),
    decreases ms.len(),
{
    if ms.len() > 0 && answers.len() == ms.len() {
        let prev = ms.drop_last();
        lemma_retain_members(prev, answers.drop_last());
        assert forall|x: MatchView| #[trigger] retain_unprotected(ms, answers).contains(x) implies ms.contains(x) by {
            let r = retain_unprotected(ms, answers);
            let k = choose|k: int| 0 <= k < r.len() && r[k] == x;
            let head = retain_unprotected(prev, answers.drop_last());
            if k < head.len() {
                assert(head.contains(x));
                let j = choose|j: int| 0 <= j < prev.len() && prev[j] == x;
                assert(ms[j] == x);
            } else {
                assert(ms[ms.len() - 1] == x);
            }
        }
    }
}

proof fn lemma_dedup_members(ms: Seq<MatchView>)
    ensures
        forall|x: MatchView| #[trigger] dedup_findings(ms).contains(x) ==> ms.contains(x),
    decreases ms.len(),
{
    if ms.len() > 0 {
        let prev = ms.drop_last();
        lemma_dedup_members(prev);
        assert forall|x: MatchView| #[trigger] dedup_findings(ms).contains(x) implies ms.contains(x) by {
            let r = dedup_findings(ms);
            let k = choose|k: int| 0 <= k < r.len() && r[k] == x;
            let head = dedup_findings(prev);
            if k < head.len() {
                assert(head.contains(x));
                let j = choose|j: int| 0 <= j < prev.len() && prev[j] == x;
                assert(ms[j] == x);
            } else {
                assert(ms[ms.len() - 1] == x);
            }
        }
    }
}

proof fn lemma_dedup_distinct(ms: Seq<MatchView>)
    ensures
        spots_distinct(dedup_findings(ms)),
    decreases ms.len(),
{
    if ms.len() > 0 {
        let prev = ms.drop_last();
        lemma_dedup_distinct(prev);
        lemma_dedup_members(prev);
        let head = dedup_findings(prev);
        let last = ms.last();
        if !(exists|j: int| 0 <= j < prev.len() && same_spot(#[trigger] prev[j], last)) {
            let r = dedup_findings(ms);
            assert(r == head.push(last));
            assert forall|i: int, j: int| 0 <= i < j < r.len() implies !same_spot(#[trigger] r[i], #[trigger] r[j]) by {
                if j == r.len() - 1 {
                    assert(head.contains(r[i]));
                    let q = choose|q: int| 0 <= q < prev.len() && prev[q] == r[i];
                    assert(!same_spot(prev[q], last));
                } else {
                    assert(r[i] == head[i] && r[j] == head[j]);
                }
            }
        } else {
            assert(dedup_findings(ms) =~= head);
        }
    }
}

proof fn lemma_drop_interface(ms: Seq<MatchView>)
    ensures
        forall|x: MatchView| #[trigger] drop_interface_findings(ms).contains(x) ==> ms.contains(x),
        forall|k: int| 0 <= k < drop_interface_findings(ms).len() ==> !is_interface_finding(
            #[trigger] drop_interface_findings(ms)[k],
        ),
        spots_distinct(ms) ==> spots_distinct(drop_interface_findings(ms)),
    decreases ms.len(),
{
    if ms.len() > 0 {
        let prev = ms.drop_last();
        lemma_drop_interface(prev);
        let head = drop_interface_findings(prev);
        let r = drop_interface_findings(ms);
        let last = ms.last();
        assert forall|x: MatchView| #[trigger] r.contains(x) implies ms.contains(x) by {
            let k = choose|k: int| 0 <= k < r.len() && r[k] == x;
            if k < head.len() {
                assert(head.contains(x));
                let j = choose|j: int| 0 <= j < prev.len() && prev[j] == x;
                assert(ms[j] == x);
            } else {
                assert(ms[ms.len() - 1] == x);
            }
        }
        assert forall|k: int| 0 <= k < r.len() implies !is_interface_finding(#[trigger] r[k]) by {
            if k < head.len() {
                assert(r[k] == head[k]);
            }
        }
        if spots_distinct(ms) {
            assert forall|i: int, j: int| 0 <= i < prev.len() && 0 <= j < prev.len() && i < j implies !same_spot(
                #[trigger] prev[i],
                #[trigger] prev[j],
            ) by {
                assert(prev[i] == ms[i] && prev[j] == ms[j]);
            }
            assert forall|i: int, j: int| 0 <= i < j < r.len() implies !same_spot(#[trigger] r[i], #[trigger] r[j]) by {
                if j >= head.len() {
                    assert(r[j] == last);
                    assert(head.contains(r[i]));
                    let q = choose|q: int| 0 <= q < prev.len() && prev[q] == r[i];
                    assert(ms[q] == r[i]);
                    assert(!same_spot(ms[q], ms[ms.len() - 1]));
                } else {
                    assert(r[i] == head[i] && r[j] == head[j]);
                }
            }
        }
    }
}

/// What a scan of a source small enough to be scanned whole reports,
/// whatever the syntax-tree check answered: at most `MAX_PATTERNS_PER_FILE`
/// findings, no two at the same line and column for the same pattern, none
/// inside an interface declaration, and each one of the templates' raw
/// findings.
pub proof fn law_whole_scan_findings(raw: Seq<MatchView>, answers: Seq<ValidationResult>)
    ensures
        finish_findings(raw, answers).len() <= MAX_PATTERNS_PER_FILE,
        spots_distinct(finish_findings(raw, answers)),
        forall|k: int| 0 <= k < finish_findings(raw, answers).len() ==> !is_interface_finding(
            #[trigger] finish_findings(raw, answers)[k],
        ),
        forall|k: int| 0 <= k < finish_findings(raw, answers).len() ==> raw.contains(
            #[trigger] finish_findings(raw, answers)[k],
        ),
{
    let a = retain_unprotected(raw, answers);
    let b = dedup_findings(a);
    let c = drop_interface_findings(b);
    let f = finish_findings(raw, answers);
    lemma_retain_members(raw, answers);
    lemma_dedup_members(a);
    lemma_dedup_distinct(a);
    lemma_drop_interface(b);
    assert forall|k: int| 0 <= k < f.len() implies raw.contains(#[trigger] f[k]) && !is_interface_finding(f[k]) by {
        assert(f[k] == c[k]);
        assert(c.contains(c[k]));
        assert(b.contains(c[k]));
        assert(a.contains(c[k]));
    }
    assert forall|i: int, j: int| 0 <= i < j < f.len() implies !same_spot(#[trigger] f[i], #[trigger] f[j]) by {
        assert(f[i] == c[i] && f[j] == c[j]);
    }
}

} // verus!
