//! Validation of the tree-sitter queries of semantic patterns: whether each
//! compiles against the Solidity grammar, where it fails, and a suggestion
//! for the usual mistakes. Parsing a template file is done by the caller.
use vstd::prelude::*;
use crate::text::{owned, push_str, push_char, push_decimal, decimal, contains, str_has, str_eq, strs, sbytes, copy_strings};
use crate::source_index::{source_lines, line_count, line_range};

verus! {

/// What compiling a query against the Solidity grammar gives: its capture
/// names and number of patterns, or the error's kind (as its `Debug` form
/// prints it), row, column and byte offset.
pub uninterp spec fn query_outcome(pattern: Seq<char>) -> Result<(Seq<Seq<char>>, nat), (Seq<char>, nat, nat, nat)>;

/// `tree_sitter::Query::new` with the Solidity grammar of
/// `tree_sitter_solidity`. Its outcome is named by `query_outcome`; only that
/// is stated.
#[verifier::external_body]
fn compile_query(pattern: &str) -> (r: Result<(Vec<String>, usize), (String, usize, usize, usize)>)
    ensures
        match r {
            Ok((names, n)) => query_outcome(pattern@) == Ok::<(Seq<Seq<char>>, nat), (Seq<char>, nat, nat, nat)>(
                (strs(names@), n as nat),
            ),
            Err((k, row, col, off)) => query_outcome(pattern@) == Err::<(Seq<Seq<char>>, nat), (Seq<char>, nat, nat, nat)>(
                (k@, row as nat, col as nat, off as nat),
            ),
        },
{
    let language: tree_sitter::Language = tree_sitter_solidity::LANGUAGE.into();
    match tree_sitter::Query::new(&language, pattern) {
        Ok(q) => Ok((q.capture_names().iter().map(|s| s.to_string()).collect(), q.pattern_count())),
        Err(e) => Err((format!("{:?}", e.kind), e.row, e.column, e.offset)),
    }
}

/// Where and why a query failed to compile.
#[derive(Debug, Clone)]
pub struct PatternError {
    pub kind: String,
    pub row: u32,
    pub column: u32,
    pub offset: usize,
    pub context: String,
    pub suggestion: Option<String>,
}

/// The outcome of validating one query.
#[derive(Debug, Clone)]
pub struct ValidationResult {
    pub valid: bool,
    pub capture_names: Vec<String>,
    pub pattern_count: usize,
    pub error: Option<PatternError>,
}

/// A suggestion for a query that failed to compile, by the first of the usual
/// mistakes it contains.
pub open spec fn suggestion_for(p: Seq<char>) -> Option<Seq<char>> {
    if str_has(p, "function_call"@) {
        Some("Use 'call_expression' instead of 'function_call'"@)
    } else if str_has(p, "member_access"@) {
        Some("Use 'member_expression' instead of 'member_access'"@)
    } else if str_has(p, "body:"@) {
        Some("Remove 'body:' field - use direct nesting instead"@)
    } else if str_has(p, "left:"@) || str_has(p, "right:"@) {
        Some("Remove field names - use positional children"@)
    } else {
        None
    }
}

/// A suggestion for a query that failed to compile.
pub fn suggest_fix(pattern: &str) -> (r: Option<String>)
    ensures
        match r {
            Some(s) => suggestion_for(pattern@) == Some(s@),
            None => suggestion_for(pattern@) is None,
        },
{
    if contains(pattern, "function_call") {
        return Some(owned("Use 'call_expression' instead of 'function_call'"));
    }
    if contains(pattern, "member_access") {
        return Some(owned("Use 'member_expression' instead of 'member_access'"));
    }
    if contains(pattern, "body:") {
        return Some(owned("Remove 'body:' field - use direct nesting instead"));
    }
    if contains(pattern, "left:") || contains(pattern, "right:") {
        return Some(owned("Remove field names - use positional children"));
    }
    None
}

/// The text of line `row` of `b` as `str::lines` splits it.
pub open spec fn row_text(b: Seq<u8>, row: nat) -> Seq<u8> {
    b.subrange(line_range(b, row).0 as int, line_range(b, row).1 as int)
}

/// `n` spaces.
pub open spec fn spaces(n: nat) -> Seq<char>
    decreases n,
{
    if n == 0 { Seq::empty() } else { spaces((n - 1) as nat).push(' ') }
}

impl PatternError {
    /// The error for a query `pattern` that failed with `kind` at `row`,
    /// `column` and `offset`: the failing line with a caret under the column
    /// (nothing when the row is past the last line) and a suggestion.
    pub fn from_query_error(kind: &str, row: usize, column: usize, offset: usize, pattern: &str) -> (r: Self)
        ensures
            r.kind@ == kind@,
            r.row == row as u32,
            r.column == column as u32,
            r.offset == offset,
            row < line_count(sbytes(pattern)) ==> exists|l: &str| #![auto]
                sbytes(l) == row_text(sbytes(pattern), row as nat) && r.context@ == l@ + "\n"@ + spaces(column as nat)
                    + "^"@,
            row >= line_count(sbytes(pattern)) ==> r.context@.len() == 0,
            match r.suggestion {
                Some(s) => suggestion_for(pattern@) == Some(s@),
                None => suggestion_for(pattern@) is None,
            },
    {
        let lines = source_lines(pattern);
        let mut context = String::new();
        if row < lines.len() {
            let l = lines[row];
            push_str(&mut context, l);
            push_str(&mut context, "\n");
            let mut k: usize = 0;
            while k < column
                invariant
                    k <= column,
                    context@ == l@ + "\n"@ + spaces(k as nat),
                decreases column - k,
            {
                push_char(&mut context, ' ');
                k = k + 1;
            }
            push_str(&mut context, "^");
            assert(sbytes(l) == row_text(sbytes(pattern), row as nat));
        }
        PatternError {
            kind: owned(kind),
            row: row as u32,
            column: column as u32,
            offset,
            context,
            suggestion: suggest_fix(pattern),
        }
    }
}

/// A semantic pattern of a template file.
#[derive(Debug, Clone)]
pub struct PatternDef {
    pub id: String,
    pub kind: String,
    pub pattern: String,
}

/// The outcome of validating the semantic patterns of a template.
#[derive(Debug, Clone)]
pub struct TemplateValidation {
    pub name: String,
    pub total: usize,
    pub passed: usize,
    pub failed: usize,
    pub patterns: Vec<(String, ValidationResult)>,
}

/// Validates tree-sitter queries against the Solidity grammar.
pub struct PatternValidator;

/// A result agrees with the outcome of compiling `p`.
pub open spec fn result_of(p: Seq<char>, r: ValidationResult) -> bool {
    match query_outcome(p) {
        Ok((names, n)) => r.valid && strs(r.capture_names@) == names && r.pattern_count == n && r.error is None,
        Err((k, row, col, off)) => !r.valid && r.capture_names@.len() == 0 && r.pattern_count == 0 && (r.error matches Some(
            e,
        ) && e.kind@ == k && e.row == row as u32 && e.column == col as u32 && e.offset == off),
    }
}

/// The number of results among the first `n` that are valid.
pub open spec fn valid_count(rs: Seq<(String, ValidationResult)>, n: nat) -> nat
    decreases n,
{
    if n == 0 {
        0
    } else {
        valid_count(rs, (n - 1) as nat) + if rs[n - 1].1.valid { 1nat } else { 0nat }
    }
}

/// The semantic patterns among the first `n` definitions, in order.
pub open spec fn semantic_defs(defs: Seq<PatternDef>, n: nat) -> Seq<PatternDef>
    decreases n,
{
    if n == 0 {
        Seq::empty()
    } else {
        let prev = semantic_defs(defs, (n - 1) as nat);
        if defs[n - 1].kind@ == "semantic"@ { prev.push(defs[n - 1]) } else { prev }
    }
}

proof fn lemma_valid_count_bound(rs: Seq<(String, ValidationResult)>, n: nat)
    ensures
        valid_count(rs, n) <= n,
    decreases n,
{
    if n > 0 {
        lemma_valid_count_bound(rs, (n - 1) as nat);
    }
}

impl PatternValidator {
    /// A validator for the Solidity grammar.
    pub fn new() -> (r: Self) {
        PatternValidator
    }

    /// Compiles a query and reports its captures or where it fails.
    pub fn validate(&self, pattern: &str) -> (r: ValidationResult)
        ensures
            result_of(pattern@, r),
    {
        match compile_query(pattern) {
            Ok((capture_names, pattern_count)) => ValidationResult {
                valid: true,
                capture_names,
                pattern_count,
                error: None,
            },
            Err((kind, row, column, offset)) => ValidationResult {
                valid: false,
                capture_names: Vec::new(),
                pattern_count: 0,
                error: Some(PatternError::from_query_error(kind.as_str(), row, column, offset, pattern)),
            },
        }
    }

    /// Validates the semantic patterns of a template named `name`, in order,
    /// and counts those that pass and fail.
    pub fn validate_template_patterns(&self, name: &str, patterns: &Vec<PatternDef>) -> (r: TemplateValidation)
        ensures
            r.name@ == name@,
            r.patterns.len() == semantic_defs(patterns@, patterns.len() as nat).len(),
            forall|k: int| 0 <= k < r.patterns.len() ==> {
                let d = #[trigger] semantic_defs(patterns@, patterns.len() as nat)[k];
                r.patterns@[k].0@ == d.id@ && result_of(d.pattern@, r.patterns@[k].1)
            },
            r.total == r.patterns.len(),
            r.passed == valid_count(r.patterns@, r.patterns.len() as nat),
            r.failed == r.total - r.passed,
    {
        let mut results: Vec<(String, ValidationResult)> = Vec::new();
        let mut passed: usize = 0;
        let mut i: usize = 0;
        while i < patterns.len()
            invariant
                i <= patterns.len(),
                results.len() == semantic_defs(patterns@, i as nat).len(),
                results.len() <= i,
                forall|k: int| 0 <= k < results.len() ==> {
                    let d = #[trigger] semantic_defs(patterns@, i as nat)[k];
                    results@[k].0@ == d.id@ && result_of(d.pattern@, results@[k].1)
                },
                passed == valid_count(results@, results.len() as nat),
            decreases patterns.len() - i,
        {
            let p = &patterns[i];
            if str_eq(p.kind.as_str(), "semantic") {
                let result = self.validate(p.pattern.as_str());
                proof {
                    lemma_valid_count_bound(results@, results.len() as nat);
                }
                if result.valid {
                    passed = passed + 1;
                }
                let ghost old_results = results@;
                results.push((owned(p.id.as_str()), result));
                assert(results@.drop_last() =~= old_results);
                assert(valid_count(results@, old_results.len() as nat) == valid_count(old_results, old_results.len() as nat)) by {
                    lemma_valid_count_prefix(results@, old_results, old_results.len() as nat);
                }
            }
            i = i + 1;
        }
        proof {
            lemma_valid_count_bound(results@, results.len() as nat);
        }
        let total = results.len();
        TemplateValidation { name: owned(name), total, passed, failed: total - passed, patterns: results }
    }
}

proof fn lemma_valid_count_prefix(a: Seq<(String, ValidationResult)>, b: Seq<(String, ValidationResult)>, n: nat)
    requires
        n <= b.len() <= a.len(),
        forall|k: int| 0 <= k < b.len() ==> a[k] == b[k],
    ensures
        valid_count(a, n) == valid_count(b, n),
    decreases n,
{
    if n > 0 {
        lemma_valid_count_prefix(a, b, (n - 1) as nat);
    }
}

} // verus!
