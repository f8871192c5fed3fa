//! Regular expression matching through the `regex` and `fancy-regex` crates.
//!
//! The patterns are handed over as text and compiled by the outside crate on
//! each call; what a match is depends on the pattern and the text alone, so
//! the results are named here and the library states its own logic over them.
use vstd::prelude::*;
use crate::text::{sbytes, occurs_at};

verus! {

/// A byte span `(start, end)` of a text.
pub open spec fn span_view(s: (usize, usize)) -> (nat, nat) {
    (s.0 as nat, s.1 as nat)
}

/// The spans of a list of optional spans.
pub open spec fn opt_spans_view(v: Seq<Option<(usize, usize)>>) -> Seq<Option<(nat, nat)>> {
    v.map_values(|o: Option<(usize, usize)>| match o {
        Some(s) => Some(span_view(s)),
        None => None,
    })
}

/// The spans of a list of spans.
pub open spec fn spans_view(v: Seq<(usize, usize)>) -> Seq<(nat, nat)> {
    v.map_values(|s: (usize, usize)| span_view(s))
}

/// `(start, end)` is a span of `text` whose ends are character boundaries.
pub open spec fn text_span(text: &str, s: (usize, usize)) -> bool {
    &&& s.0 <= s.1 <= sbytes(text).len()
    &&& vstd::utf8::is_char_boundary(sbytes(text), s.0 as int)
    &&& vstd::utf8::is_char_boundary(sbytes(text), s.1 as int)
}

/// Whether `regex::Regex::new` accepts the pattern.
pub uninterp spec fn regex_valid(pattern: Seq<char>) -> bool;

/// For each successive match of `pattern` in `text` (as `Regex::captures_iter`
/// finds them), the span of capture group `group`, if it took part.
pub uninterp spec fn regex_group_spans(pattern: Seq<char>, text: Seq<char>, group: nat) -> Seq<Option<(nat, nat)>>;

/// `regex::Regex::new` then `Regex::captures_iter`: `None` when the pattern
/// does not compile, else the span of group `group` in each match, in order.
/// The spans lie on character boundaries of `text`, as the crate's `&str`
/// API guarantees.
#[verifier::external_body]
pub(crate) fn regex_capture_spans(pattern: &str, text: &str, group: usize) -> (r: Option<Vec<Option<(usize, usize)>>>)
    ensures
        r is Some <==> regex_valid(pattern@),
        r matches Some(v) ==> opt_spans_view(v@) == regex_group_spans(pattern@, text@, group as nat),
        r matches Some(v) ==> forall|i: int| 0 <= i < v.len() ==> (#[trigger] v@[i] matches Some(s) ==> text_span(text, s)),
{
    match regex::Regex::new(pattern) {
        Ok(re) => Some(re.captures_iter(text).map(|c| c.get(group).map(|m| (m.start(), m.end()))).collect()),
        Err(_) => None,
    }
}

/// Whether `fancy_regex::Regex::new` accepts the pattern.
pub uninterp spec fn fancy_valid(pattern: Seq<char>) -> bool;

/// The successive matches of `pattern` in `text` as `fancy_regex::Regex::find_iter`
/// yields them, up to the first one that ends in a matching error, and whether
/// such an error came.
pub uninterp spec fn fancy_find_spans(pattern: Seq<char>, text: Seq<char>) -> (Seq<(nat, nat)>, bool);

/// `fancy_regex::Regex::new` then `Regex::find_iter`: `None` when the pattern
/// does not compile, else the matches up to the first matching error (the
/// iterator yields that error again at each later step) and whether one came.
#[verifier::external_body]
pub(crate) fn fancy_find_all(pattern: &str, text: &str) -> (r: Option<(Vec<(usize, usize)>, bool)>)
    ensures
        r is Some <==> fancy_valid(pattern@),
        r matches Some(v) ==> (spans_view(v.0@), v.1) == fancy_find_spans(pattern@, text@),
        r matches Some(v) ==> forall|i: int| 0 <= i < v.0.len() ==> text_span(text, #[trigger] v.0@[i]),
{
    let re = match fancy_regex::Regex::new(pattern) {
        Ok(re) => re,
        Err(_) => return None,
    };
    let mut spans = Vec::new();
    for m in re.find_iter(text) {
        match m {
            Ok(m) => spans.push((m.start(), m.end())),
            Err(_) => return Some((spans, true)),
        }
    }
    Some((spans, false))
}

/// What `fancy_regex::Regex::is_match` answers: `Some(found)`, or `None` on a
/// matching error.
pub uninterp spec fn fancy_match_result(pattern: Seq<char>, text: Seq<char>) -> Option<bool>;

/// `fancy_regex::Regex::new` then `Regex::is_match`: `None` when the pattern
/// does not compile.
#[verifier::external_body]
pub(crate) fn fancy_is_match(pattern: &str, text: &str) -> (r: Option<Option<bool>>)
    ensures
        r is Some <==> fancy_valid(pattern@),
        r matches Some(v) ==> v == fancy_match_result(pattern@, text@),
{
    match fancy_regex::Regex::new(pattern) {
        Ok(re) => Some(re.is_match(text).ok()),
        Err(_) => None,
    }
}

/// What `fancy_regex::Regex::captures` gives for group `group` of the first
/// match: `Some(None)` when no match or the group did not take part, `None`
/// on a matching error.
pub uninterp spec fn fancy_first_group(pattern: Seq<char>, text: Seq<char>, group: nat) -> Option<Option<(nat, nat)>>;

/// `fancy_regex::Regex::new` then `Regex::captures`: `None` when the pattern
/// does not compile.
#[verifier::external_body]
pub(crate) fn fancy_first_capture(pattern: &str, text: &str, group: usize) -> (r: Option<Option<Option<(usize, usize)>>>)
    ensures
        r is Some <==> fancy_valid(pattern@),
        r matches Some(v) ==> match v {
            Some(Some(s)) => fancy_first_group(pattern@, text@, group as nat) == Some(Some(span_view(s)))
                && text_span(text, s),
            Some(None) => fancy_first_group(pattern@, text@, group as nat) == Some(None::<(nat, nat)>),
            None => fancy_first_group(pattern@, text@, group as nat) is None,
        },
{
    match fancy_regex::Regex::new(pattern) {
        Ok(re) => Some(match re.captures(text) {
            Ok(c) => Some(c.and_then(|c| c.get(group)).map(|m| (m.start(), m.end()))),
            Err(_) => None,
        }),
        Err(_) => None,
    }
}

/// The starts of the successive non-overlapping occurrences of the non-empty
/// `p` in `b` from offset `from` on, each search resuming after the last match.
pub open spec fn literal_starts(b: Seq<u8>, p: Seq<u8>, from: nat) -> Seq<nat>
    decreases b.len() - from,
{
    if p.len() == 0 || from + p.len() > b.len() {
        Seq::empty()
    } else if occurs_at(b, p, from as int) {
        seq![from] + literal_starts(b, p, from + p.len())
    } else {
        literal_starts(b, p, from + 1)
    }
}

/// The occurrences of `p` from `from` on begin with the first one, at `i`.
proof fn lemma_literal_first(b: Seq<u8>, p: Seq<u8>, from: nat, i: nat)
    requires
        p.len() > 0,
        from <= i,
        occurs_at(b, p, i as int),
        forall|j: int| from <= j < i ==> !occurs_at(b, p, j),
    ensures
        literal_starts(b, p, from) == seq![i] + literal_starts(b, p, i + p.len()),
    decreases i - from,
{
    if from < i {
        lemma_literal_first(b, p, from + 1, i);
    }
}

/// There are no occurrences of `p` from `from` on when none starts there.
proof fn lemma_literal_none(b: Seq<u8>, p: Seq<u8>, from: nat)
    requires
        p.len() > 0,
        forall|j: int| from <= j ==> !occurs_at(b, p, j),
    ensures
        literal_starts(b, p, from) == Seq::<nat>::empty(),
    decreases b.len() - from,
{
    if from + p.len() <= b.len() {
        lemma_literal_none(b, p, from + 1);
    }
}

/// A valid UTF-8 sequence that begins with the valid UTF-8 sequence `p` has a
/// character boundary where `p` ends.
proof fn lemma_prefix_boundary(b: Seq<u8>, p: Seq<u8>)
    requires
        vstd::utf8::valid_utf8(b),
        vstd::utf8::valid_utf8(p),
        p.len() <= b.len(),
        b.subrange(0, p.len() as int) == p,
    ensures
        vstd::utf8::is_char_boundary(b, p.len() as int),
    decreases p.len(),
{
    if p.len() > 0 {
        assert(b[0] == p[0]);
        let k = vstd::utf8::length_of_first_scalar(p);
        assert(vstd::utf8::length_of_first_scalar(b) == k);
        let pb = vstd::utf8::pop_first_scalar(b);
        let pp = vstd::utf8::pop_first_scalar(p);
        assert(pb.subrange(0, pp.len() as int) =~= pp) by {
            assert forall|j: int| 0 <= j < pp.len() implies pb.subrange(0, pp.len() as int)[j] == pp[j] by {
                assert(pb[j] == b[j + k]);
                assert(pp[j] == p[j + k]);
                assert(b.subrange(0, p.len() as int)[j + k] == b[j + k]);
            }
        }
        lemma_prefix_boundary(pb, pp);
    }
}

/// An occurrence of the valid UTF-8 sequence `p` in the valid UTF-8 sequence
/// `b` starts and ends on character boundaries.
proof fn lemma_occurrence_boundaries(b: Seq<u8>, p: Seq<u8>, i: int)
    requires
        vstd::utf8::valid_utf8(b),
        vstd::utf8::valid_utf8(p),
        p.len() > 0,
        occurs_at(b, p, i),
    ensures
        vstd::utf8::is_char_boundary(b, i),
        vstd::utf8::is_char_boundary(b, i + p.len()),
{
    assert(b[i] == p[0]) by {
        assert(b.subrange(i, i + p.len())[0] == b[i]);
    }
    vstd::utf8::is_char_boundary_start_end_of_seq(p);
    vstd::utf8::is_char_boundary_iff_not_is_continuation_byte(p, 0);
    vstd::utf8::is_char_boundary_iff_not_is_continuation_byte(b, i);
    let rest = b.subrange(i, b.len() as int);
    vstd::utf8::valid_utf8_split(b, i);
    assert(rest.subrange(0, p.len() as int) =~= p) by {
        assert forall|j: int| 0 <= j < p.len() implies rest.subrange(0, p.len() as int)[j] == p[j] by {
            assert(b.subrange(i, i + p.len())[j] == b[i + j]);
        }
    }
    lemma_prefix_boundary(rest, p);
    vstd::utf8::is_char_boundary_start_end_of_seq(b);
    if i + p.len() < b.len() {
        vstd::utf8::is_char_boundary_iff_not_is_continuation_byte(rest, p.len() as int);
        assert(rest[p.len() as int] == b[i + p.len()]);
        vstd::utf8::is_char_boundary_iff_not_is_continuation_byte(b, i + p.len());
    }
}

/// The starts of the successive non-overlapping occurrences of the non-empty
/// `p` in `text` (as `str::match_indices` gives them), each search resuming
/// after the last match; they lie on character boundaries.
pub(crate) fn literal_match_starts(text: &str, p: &str) -> (r: Vec<usize>)
    requires
        sbytes(p).len() > 0,
    ensures
        r@.map_values(|i: usize| i as nat) == literal_starts(sbytes(text), sbytes(p), 0),
        forall|i: int| 0 <= i < r.len() ==> r@[i] + sbytes(p).len() <= sbytes(text).len()
            && text_span(text, (r@[i], (r@[i] + sbytes(p).len()) as usize)),
{
    let b = text.as_bytes();
    let q = p.as_bytes();
    proof {
        crate::text::lemma_str_utf8(text);
        crate::text::lemma_str_utf8(p);
    }
    let n = b.len();
    let mut out: Vec<usize> = Vec::new();
    let mut from: usize = 0;
    loop
        invariant
            n == b@.len(),
            b@ == sbytes(text),
            q@ == sbytes(p),
            q@.len() > 0,
            vstd::utf8::valid_utf8(b@),
            vstd::utf8::valid_utf8(q@),
            from <= b@.len(),
            literal_starts(b@, q@, 0) == out@.map_values(|i: usize| i as nat) + literal_starts(b@, q@, from as nat),
            forall|i: int| 0 <= i < out.len() ==> out@[i] + q@.len() <= b@.len()
                && text_span(text, (out@[i], (out@[i] + q@.len()) as usize)),
        decreases b@.len() - from,
    {
        match crate::text::bytes_find_from(b, q, from) {
            None => {
                proof {
                    lemma_literal_none(b@, q@, from as nat);
                    assert(out@.map_values(|i: usize| i as nat) + Seq::<nat>::empty() =~= out@.map_values(|i: usize| i as nat));
                }
                return out;
            },
            Some(i) => {
                proof {
                    lemma_literal_first(b@, q@, from as nat, i as nat);
                    lemma_occurrence_boundaries(b@, q@, i as int);
                    let f = |k: usize| k as nat;
                    assert(out@.push(i).map_values(f) =~= out@.map_values(f).push(i as nat));
                    assert(out@.map_values(f) + (seq![i as nat] + literal_starts(b@, q@, (i + q@.len()) as nat))
                        =~= out@.map_values(f).push(i as nat) + literal_starts(b@, q@, (i + q@.len()) as nat));
                }
                assert(i + q@.len() <= n);
                let end = i + q.len();
                out.push(i);
                from = end;
            },
        }
    }
}

} // verus!
