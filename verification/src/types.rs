//! The data model shared by the scanner and its analyses: severities,
//! templates and their patterns, matches and scan results, chains and API keys.
use vstd::prelude::*;
use crate::text::{owned, copy_strings};

verus! {

/// How serious a finding is, from least to most.
#[derive(Debug, Clone, Copy, PartialEq, Eq, Hash, PartialOrd, Ord, Structural)]
pub enum Severity {
    Info,
    Low,
    Medium,
    High,
    Critical,
}

/// The position of a severity in the order `Info < Low < Medium < High < Critical`.
pub open spec fn severity_rank(s: Severity) -> nat {
    match s {
        Severity::Info => 0,
        Severity::Low => 1,
        Severity::Medium => 2,
        Severity::High => 3,
        Severity::Critical => 4,
    }
}

impl Severity {
    /// The rank of this severity (see `severity_rank`).
    pub fn rank(&self) -> (r: u8)
        ensures
            r == severity_rank(*self),
    {
        match self {
            Severity::Info => 0,
            Severity::Low => 1,
            Severity::Medium => 2,
            Severity::High => 3,
            Severity::Critical => 4,
        }
    }

    /// Whether this severity is at least `other`.
    pub fn at_least(&self, other: Severity) -> (r: bool)
        ensures
            r == (severity_rank(*self) >= severity_rank(other)),
    {
        self.rank() >= other.rank()
    }
}

/// How a pattern is matched against source text.
#[derive(Debug, Clone, Copy, PartialEq, Eq, Hash, Structural)]
pub enum PatternKind {
    Regex,
    FancyRegex,
    Literal,
    Semantic,
}

/// One pattern of a template.
#[derive(Debug, Clone)]
pub struct Pattern {
    pub id: String,
    pub kind: PatternKind,
    pub pattern: String,
    pub severity: Severity,
    pub message: String,
}

/// A vulnerability template: a set of patterns sharing a severity.
#[derive(Debug, Clone)]
pub struct Template {
    pub id: String,
    pub name: String,
    pub description: String,
    pub severity: Severity,
    pub tags: Vec<String>,
    pub patterns: Vec<Pattern>,
}

/// The lines around a finding.
#[derive(Debug, Clone)]
pub struct CodeSnippet {
    pub before: String,
    pub vulnerable_line: String,
    pub after: String,
    pub line_start: usize,
}

/// One finding of the scanner.
#[derive(Debug, Clone)]
pub struct Match {
    pub template_id: String,
    pub pattern_id: String,
    pub file_path: String,
    pub line_number: usize,
    pub column: usize,
    pub matched_text: String,
    pub context: String,
    pub code_snippet: Option<CodeSnippet>,
    pub severity: Severity,
    pub message: String,
    pub start_byte: Option<usize>,
    pub end_byte: Option<usize>,
    pub function_context: Option<String>,
    pub protections: Option<Vec<String>>,
    pub filtered: bool,
}

/// The text of a code snippet: the lines before, at and after a finding, and
/// the index of the finding's line.
pub open spec fn snippet_view(s: CodeSnippet) -> (Seq<char>, Seq<char>, Seq<char>, nat) {
    (s.before@, s.vulnerable_line@, s.after@, s.line_start as nat)
}

/// A finding as plain text and numbers.
#[verifier::ext_equal]
pub struct MatchView {
    pub template_id: Seq<char>,
    pub pattern_id: Seq<char>,
    pub file_path: Seq<char>,
    pub line_number: nat,
    pub column: nat,
    pub matched_text: Seq<char>,
    pub context: Seq<char>,
    pub code_snippet: Option<(Seq<char>, Seq<char>, Seq<char>, nat)>,
    pub severity: Severity,
    pub message: Seq<char>,
    pub start_byte: Option<usize>,
    pub end_byte: Option<usize>,
    pub function_context: Option<Seq<char>>,
    pub protections: Option<Seq<Seq<char>>>,
    pub filtered: bool,
}

impl View for Match {
    type V = MatchView;

    open spec fn view(&self) -> MatchView {
        MatchView {
            template_id: self.template_id@,
            pattern_id: self.pattern_id@,
            file_path: self.file_path@,
            line_number: self.line_number as nat,
            column: self.column as nat,
            matched_text: self.matched_text@,
            context: self.context@,
            code_snippet: match self.code_snippet {
                Some(s) => Some(snippet_view(s)),
                None => None,
            },
            severity: self.severity,
            message: self.message@,
            start_byte: self.start_byte,
            end_byte: self.end_byte,
            function_context: match self.function_context {
                Some(f) => Some(f@),
                None => None,
            },
            protections: match self.protections {
                Some(p) => Some(p@.map_values(|x: String| x@)),
                None => None,
            },
            filtered: self.filtered,
        }
    }
}

/// A copy of a code snippet.
pub fn copy_snippet(s: &CodeSnippet) -> (r: CodeSnippet)
    ensures
        snippet_view(r) == snippet_view(*s),
{
    CodeSnippet {
        before: owned(s.before.as_str()),
        vulnerable_line: owned(s.vulnerable_line.as_str()),
        after: owned(s.after.as_str()),
        line_start: s.line_start,
    }
}

/// A copy of a finding with its line number replaced by `line_number`.
pub fn copy_match_at_line(m: &Match, line_number: usize) -> (r: Match)
    ensures
        r@ == (MatchView { line_number: line_number as nat, ..m@ }),
{
    let code_snippet = match &m.code_snippet {
        Some(s) => Some(copy_snippet(s)),
        None => None,
    };
    let function_context = match &m.function_context {
        Some(f) => Some(owned(f.as_str())),
        None => None,
    };
    let protections = match &m.protections {
        Some(p) => Some(copy_strings(p)),
        None => None,
    };
    let r = Match {
        template_id: owned(m.template_id.as_str()),
        pattern_id: owned(m.pattern_id.as_str()),
        file_path: owned(m.file_path.as_str()),
        line_number,
        column: m.column,
        matched_text: owned(m.matched_text.as_str()),
        context: owned(m.context.as_str()),
        code_snippet,
        severity: m.severity,
        message: owned(m.message.as_str()),
        start_byte: m.start_byte,
        end_byte: m.end_byte,
        function_context,
        protections,
        filtered: m.filtered,
    };
    assert(r@ =~= (MatchView { line_number: line_number as nat, ..m@ }));
    r
}

/// A copy of a finding.
pub fn copy_match(m: &Match) -> (r: Match)
    ensures
        r@ == m@,
{
    let r = copy_match_at_line(m, m.line_number);
    assert(r@ =~= m@);
    r
}

/// The views of a list of findings.
pub open spec fn match_views(v: Seq<Match>) -> Seq<MatchView> {
    v.map_values(|m: Match| m@)
}

/// The findings for one contract.
#[derive(Debug, Clone)]
pub struct ScanResult {
    pub address: String,
    pub chain: String,
    pub matches: Vec<Match>,
    pub scan_time_ms: u64,
    pub solidity_version: Option<String>,
}

/// A supported blockchain.
#[derive(Debug, Clone, Copy, PartialEq, Eq, Hash, Structural)]
pub enum Chain {
    Ethereum,
    Polygon,
    Arbitrum,
}

impl Chain {
    /// The lower-case name of the chain.
    pub fn as_str(&self) -> (r: &'static str)
        ensures
            r@ == chain_name(*self),
    {
        match self {
            Chain::Ethereum => "ethereum",
            Chain::Polygon => "polygon",
            Chain::Arbitrum => "arbitrum",
        }
    }

    /// The EVM chain id.
    pub fn chain_id(&self) -> (r: u64)
        ensures
            r == chain_id_of(*self),
    {
        match self {
            Chain::Ethereum => 1,
            Chain::Polygon => 137,
            Chain::Arbitrum => 42161,
        }
    }
}

/// The lower-case name of a chain.
pub open spec fn chain_name(c: Chain) -> Seq<char> {
    match c {
        Chain::Ethereum => "ethereum"@,
        Chain::Polygon => "polygon"@,
        Chain::Arbitrum => "arbitrum"@,
    }
}

/// The EVM chain id of a chain.
pub open spec fn chain_id_of(c: Chain) -> u64 {
    match c {
        Chain::Ethereum => 1,
        Chain::Polygon => 137,
        Chain::Arbitrum => 42161,
    }
}

} // verus!
