//! Semantic patterns: tree-sitter queries over the Solidity syntax tree. Each
//! capture of a query becomes a finding at the captured node, with the line
//! it starts on as context.
use vstd::prelude::*;
use crate::text::{owned, push_str, push_decimal, sbytes, str_slice, lemma_ascii_boundary, lemma_str_utf8};
use crate::types::{Match, MatchView, Pattern, Severity};
use crate::source_index::{newline_offsets, newline_positions, line_number_at, line_number_of, lemma_newline_positions, newlines_of};
use crate::scanner::line_start_of;
use tree_sitter::{Language, Parser, Query, QueryCursor, StreamingIterator};

verus! {

/// What running the tree-sitter query `pattern` over the Solidity syntax tree
/// of `source` gives: the byte range of each captured node, match by match
/// and capture by capture; or the query error's kind (as its `Debug` form
/// prints it), row and column; or the parse failing (row and column 0, kind
/// `Parse`).
pub uninterp spec fn query_captures(pattern: Seq<char>, source: Seq<char>) -> Result<Seq<(usize, usize)>, (Seq<char>, usize, usize)>;

/// `tree_sitter::Parser` with the Solidity grammar of `tree_sitter_solidity`,
/// `Query::new` and `QueryCursor::matches`: the byte range of every capture.
/// Its outcome is named by `query_captures`; only that is stated.
#[verifier::external_body]
fn capture_spans(pattern: &str, source: &str) -> (r: Result<Vec<(usize, usize)>, (String, usize, usize)>)
    ensures
        query_captures(pattern@, source@) == match r {
            Ok(v) => Ok::<Seq<(usize, usize)>, (Seq<char>, usize, usize)>(v@),
            Err((k, row, col)) => Err((k@, row, col)),
        },
{
    let language: Language = tree_sitter_solidity::LANGUAGE.into();
    let mut parser = Parser::new();
    let _ = parser.set_language(&language);
    let tree = parser.parse(source, None).ok_or(("Parse".to_string(), 0, 0))?;
    let query = Query::new(&language, pattern).map_err(|e| (format!("{:?}", e.kind), e.row, e.column))?;
    let mut cursor = QueryCursor::new();
    let mut it = cursor.matches(&query, tree.root_node(), source.as_bytes());
    let mut spans = Vec::new();
    while let Some(m) = it.next() {
        for c in m.captures {
            spans.push((c.node.start_byte(), c.node.end_byte()));
        }
    }
    Ok(spans)
}

/// The end of the line of byte `start`: its newline, or the end of the text.
pub open spec fn line_end_of(b: Seq<u8>, ln: nat) -> nat {
    if ln - 1 < newline_positions(b).len() { newline_positions(b)[ln - 1] as nat } else { b.len() }
}

/// The text of bytes `[s, e)` of `b`.
pub open spec fn bytes_text(b: Seq<u8>, s: nat, e: nat) -> Seq<char> {
    vstd::utf8::decode_utf8(b.subrange(s as int, e as int))
}

/// The finding for the captured span `(s, e)` of `source`.
pub open spec fn capture_view(b: Seq<u8>, path: Seq<char>, template_id: Seq<char>, p: Pattern, severity: Severity, s: nat, e: nat) -> MatchView {
    let ln = line_number_of(b, s);
    let ls = line_start_of(b, ln);
    MatchView {
        template_id,
        pattern_id: p.id@,
        file_path: path,
        line_number: ln,
        column: (s - ls) as nat,
        matched_text: bytes_text(b, s, e),
        context: bytes_text(b, ls, line_end_of(b, ln)),
        code_snippet: None,
        severity,
        message: p.message@,
        start_byte: Some(s as usize),
        end_byte: Some(e as usize),
        function_context: None,
        protections: None,
        filtered: false,
    }
}

/// The span `(s, e)` lies in `b` on character boundaries.
pub open spec fn span_ok(b: Seq<u8>, s: usize, e: usize) -> bool {
    s <= e <= b.len() && vstd::utf8::is_char_boundary(b, s as int) && vstd::utf8::is_char_boundary(b, e as int)
}

/// Finds the captures of semantic patterns.
pub struct SemanticScanner;

impl SemanticScanner {
    /// A scanner for the Solidity grammar.
    pub fn new() -> (r: Self) {
        SemanticScanner
    }

    /// The findings of semantic pattern `pattern` in `source`, one per
    /// capture, in order; or the query's error, `Query error at ROW:COLUMN -
    /// KIND` (`Parse` when the source could not be parsed). A capture not on
    /// character boundaries, which the node ranges of a parse of valid text
    /// are not expected to give, is an error too.
    pub fn scan(&self, source: &str, pattern: &Pattern, template_id: &str, severity: Severity, file_path: &str) -> (r: Result<Vec<Match>, String>)
        requires
            sbytes(source).len() < usize::MAX,
        ensures
            match query_captures(pattern.pattern@, source@) {
                Ok(spans) => match r {
                    Ok(v) => (forall|k: int| 0 <= k < spans.len() ==> span_ok(sbytes(source), #[trigger] spans[k].0, spans[k].1))
                        && v.len() == spans.len() && forall|k: int| 0 <= k < v.len() ==> #[trigger] v@[k]@ == capture_view(
                        sbytes(source),
                        file_path@,
                        template_id@,
                        *pattern,
                        severity,
                        spans[k].0 as nat,
                        spans[k].1 as nat,
                    ),
                    Err(_) => exists|k: int| 0 <= k < spans.len() && !span_ok(sbytes(source), #[trigger] spans[k].0, spans[k].1),
                },
                Err(_) => r is Err,
            },
    {
        let spans = match capture_spans(pattern.pattern.as_str(), source) {
            Ok(s) => s,
            Err((kind, row, column)) => {
                let mut m = owned("Query error at ");
                push_decimal(&mut m, row);
                push_str(&mut m, ":");
                push_decimal(&mut m, column);
                push_str(&mut m, " - ");
                push_str(&mut m, kind.as_str());
                return Err(m);
            },
        };
        let ghost b = sbytes(source);
        proof {
            lemma_str_utf8(source);
            lemma_newline_positions(b);
            vstd::utf8::is_char_boundary_start_end_of_seq(b);
        }
        let newlines = newline_offsets(source);
        let len = source.as_bytes().len();
        let mut out: Vec<Match> = Vec::new();
        let mut i: usize = 0;
        while i < spans.len()
            invariant
                b == sbytes(source),
                len == b.len(),
                len < usize::MAX,
                newlines@ == newline_positions(b),
                newlines_of(b, newlines@),
                newlines@.len() <= b.len(),
                vstd::utf8::valid_utf8(b),
                vstd::utf8::is_char_boundary(b, 0),
                vstd::utf8::is_char_boundary(b, b.len() as int),
                query_captures(pattern.pattern@, source@) == Ok::<Seq<(usize, usize)>, (Seq<char>, usize, usize)>(spans@),
                i <= spans.len(),
                out.len() == i,
                forall|k: int| 0 <= k < i ==> span_ok(b, #[trigger] spans@[k].0, spans@[k].1),
                forall|k: int| 0 <= k < i ==> #[trigger] out@[k]@ == capture_view(
                    b,
                    file_path@,
                    template_id@,
                    *pattern,
                    severity,
                    spans@[k].0 as nat,
                    spans@[k].1 as nat,
                ),
            decreases spans.len() - i,
        {
            let (s, e) = spans[i];
            if !(s <= e && e <= len && source.is_char_boundary(s) && source.is_char_boundary(e)) {
                assert(!span_ok(b, spans@[i as int].0, spans@[i as int].1));
                return Err(owned("Capture is not on character boundaries"));
            }
            let ln = line_number_at(&newlines, s, Ghost(b));
            let line_start = if ln > 1 { newlines[ln - 2] + 1 } else { 0 };
            let context_end = if ln - 1 < newlines.len() { newlines[ln - 1] } else { len };
            proof {
                if ln > 1 {
                    lemma_ascii_boundary(b, newlines@[ln - 2] as int);
                }
                if ln - 1 < newlines@.len() {
                    lemma_ascii_boundary(b, newlines@[ln - 1] as int);
                }
            }
            let context_text = str_slice(source, line_start, context_end);
            let matched_text = str_slice(source, s, e);
            proof {
                lemma_str_utf8(context_text);
                lemma_str_utf8(matched_text);
            }
            let context = owned(context_text);
            let matched = owned(matched_text);
            let m = Match {
                template_id: owned(template_id),
                pattern_id: owned(pattern.id.as_str()),
                file_path: owned(file_path),
                line_number: ln,
                column: s - line_start,
                matched_text: matched,
                context,
                code_snippet: None,
                severity,
                message: owned(pattern.message.as_str()),
                start_byte: Some(s),
                end_byte: Some(e),
                function_context: None,
                protections: None,
                filtered: false,
            };
            out.push(m);
            i = i + 1;
        }
        Ok(out)
    }
}

} // verus!
