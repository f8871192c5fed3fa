//! Positions in a source text: newline offsets, line numbers, the lines
//! themselves, the text around a match and the snippet of its line.
use vstd::prelude::*;
use crate::text::{sbytes, str_slice, owned, lemma_ascii_boundary, lemma_str_utf8};
use crate::types::CodeSnippet;

verus! {

/// The byte offsets of the newlines of `b`, in increasing order.
pub open spec fn newline_positions(b: Seq<u8>) -> Seq<usize>
    decreases b.len(),
{
    if b.len() == 0 {
        Seq::empty()
    } else {
        newline_positions(b.drop_last()) + if b.last() == 10u8 {
            seq![(b.len() - 1) as usize]
        } else {
            Seq::empty()
        }
    }
}

/// How many elements of `nl` are below `x`.
pub open spec fn count_below(nl: Seq<usize>, x: nat) -> nat
    decreases nl.len(),
{
    if nl.len() == 0 {
        0
    } else {
        count_below(nl.drop_last(), x) + if (nl.last() as nat) < x { 1nat } else { 0nat }
    }
}

/// The line (from 1) of byte offset `start` of `b`: one more than the
/// newlines before it.
pub open spec fn line_number_of(b: Seq<u8>, start: nat) -> nat {
    count_below(newline_positions(b), start) + 1
}

/// `nl` is strictly increasing and holds offsets of newline bytes of `b`.
pub open spec fn newlines_of(b: Seq<u8>, nl: Seq<usize>) -> bool {
    &&& forall|i: int, j: int| 0 <= i < j < nl.len() ==> nl[i] < nl[j]
    &&& forall|i: int| 0 <= i < nl.len() ==> (#[trigger] nl[i] as int) < b.len() && b[nl[i] as int] == 10u8
}

pub proof fn lemma_newline_positions(b: Seq<u8>)
    requires
        b.len() <= usize::MAX,
    ensures
        newlines_of(b, newline_positions(b)),
        newline_positions(b).len() <= b.len(),
    decreases b.len(),
{
    if b.len() > 0 {
        lemma_newline_positions(b.drop_last());
        let p = newline_positions(b.drop_last());
        let q = newline_positions(b);
        assert forall|i: int| 0 <= i < p.len() implies (#[trigger] p[i] as int) < b.len() - 1 && b[p[i] as int] == 10u8 by {
            assert(b.drop_last()[p[i] as int] == 10u8);
        }
        if b.last() == 10u8 {
            assert(q =~= p.push((b.len() - 1) as usize));
            assert forall|i: int, j: int| 0 <= i < j < q.len() implies q[i] < q[j] by {
                if j == q.len() - 1 {
                    assert(q[i] == p[i]);
                    assert((p[i] as int) < b.len() - 1);
                } else {
                    assert(q[i] == p[i] && q[j] == p[j]);
                }
            }
            assert forall|i: int| 0 <= i < q.len() implies (#[trigger] q[i] as int) < b.len() && b[q[i] as int] == 10u8 by {
                if i < p.len() {
                    assert(q[i] == p[i]);
                    assert((p[i] as int) < b.len() - 1 && b[p[i] as int] == 10u8);
                }
            }
        } else {
            assert(q =~= p);
        }
    }
}

proof fn lemma_count_below_partition(nl: Seq<usize>, x: nat, k: int)
    requires
        0 <= k <= nl.len(),
        forall|j: int| 0 <= j < k ==> (#[trigger] nl[j] as nat) < x,
        forall|j: int| k <= j < nl.len() ==> (#[trigger] nl[j] as nat) >= x,
    ensures
        count_below(nl, x) == k,
    decreases nl.len(),
{
    if nl.len() > 0 {
        if k == nl.len() {
            lemma_count_below_partition(nl.drop_last(), x, k - 1);
        } else {
            lemma_count_below_partition(nl.drop_last(), x, k);
        }
    }
}

proof fn lemma_count_below_le(nl: Seq<usize>, x: nat)
    ensures
        count_below(nl, x) <= nl.len(),
    decreases nl.len(),
{
    if nl.len() > 0 {
        lemma_count_below_le(nl.drop_last(), x);
    }
}

/// The byte offsets of the newlines of `source`.
pub fn newline_offsets(source: &str) -> (r: Vec<usize>)
    ensures
        r@ == newline_positions(sbytes(source)),
{
    let b = source.as_bytes();
    let mut r: Vec<usize> = Vec::new();
    let mut i: usize = 0;
    while i < b.len()
        invariant
            i <= b@.len(),
            r@ == newline_positions(b@.subrange(0, i as int)),
        decreases b.len() - i,
    {
        assert(b@.subrange(0, i + 1).drop_last() =~= b@.subrange(0, i as int));
        if b[i] == 10u8 {
            r.push(i);
        }
        i = i + 1;
    }
    assert(b@.subrange(0, b.len() as int) =~= b@);
    r
}

/// The line (from 1) of byte offset `start`, found by binary search in the
/// newline offsets.
pub fn line_number_at(newlines: &Vec<usize>, start: usize, b: Ghost<Seq<u8>>) -> (r: usize)
    requires
        newlines@ == newline_positions(b@),
        b@.len() < usize::MAX,
    ensures
        r == line_number_of(b@, start as nat),
        1 <= r <= newlines@.len() + 1,
        r > 1 ==> (newlines@[r - 2] as nat) < start,
        r - 1 < newlines@.len() ==> (newlines@[r - 1] as nat) >= start,
{
    proof {
        lemma_newline_positions(b@);
    }
    let mut lo: usize = 0;
    let mut hi: usize = newlines.len();
    while lo < hi
        invariant
            newlines@ == newline_positions(b@),
            newlines_of(b@, newlines@),
            newlines@.len() <= b@.len(),
            lo <= hi <= newlines.len(),
            forall|j: int| 0 <= j < lo ==> (#[trigger] newlines@[j] as nat) < start,
            forall|j: int| hi <= j < newlines.len() ==> (#[trigger] newlines@[j] as nat) >= start,
        decreases hi - lo,
    {
        let mid = lo + (hi - lo) / 2;
        if newlines[mid] < start {
            lo = mid + 1;
        } else {
            hi = mid;
        }
    }
    proof {
        lemma_count_below_partition(newlines@, start as nat, lo as int);
    }
    lo + 1
}

/// The greatest character boundary at or before `index`, or the length when
/// `index` is past the end.
pub open spec fn boundary_at_or_before(b: Seq<u8>, index: nat, r: nat) -> bool {
    if index >= b.len() {
        r == b.len()
    } else {
        &&& r <= index
        &&& vstd::utf8::is_char_boundary(b, r as int)
        &&& forall|j: int| r < j <= index ==> !vstd::utf8::is_char_boundary(b, j)
    }
}

/// The least character boundary at or after `index`, or the length when
/// `index` is past the end.
pub open spec fn boundary_at_or_after(b: Seq<u8>, index: nat, r: nat) -> bool {
    if index >= b.len() {
        r == b.len()
    } else {
        &&& index <= r <= b.len()
        &&& vstd::utf8::is_char_boundary(b, r as int)
        &&& forall|j: int| index <= j < r ==> !vstd::utf8::is_char_boundary(b, j)
    }
}

/// The character boundary reached by walking back from `index`.
pub fn adjust_to_char_boundary_start(source: &str, index: usize) -> (r: usize)
    ensures
        boundary_at_or_before(sbytes(source), index as nat, r as nat),
        vstd::utf8::is_char_boundary(sbytes(source), r as int),
{
    proof {
        lemma_str_utf8(source);
        vstd::utf8::is_char_boundary_start_end_of_seq(sbytes(source));
    }
    let len = source.as_bytes().len();
    if index >= len {
        return len;
    }
    let mut i = index;
    while !source.is_char_boundary(i)
        invariant
            i <= index < sbytes(source).len(),
            forall|j: int| i < j <= index ==> !vstd::utf8::is_char_boundary(sbytes(source), j),
            vstd::utf8::is_char_boundary(sbytes(source), 0),
            vstd::utf8::valid_utf8(sbytes(source)),
        decreases i,
    {
        i = i - 1;
    }
    i
}

/// The character boundary reached by walking forward from `index`.
pub fn adjust_to_char_boundary_end(source: &str, index: usize) -> (r: usize)
    ensures
        boundary_at_or_after(sbytes(source), index as nat, r as nat),
        vstd::utf8::is_char_boundary(sbytes(source), r as int),
{
    proof {
        lemma_str_utf8(source);
        vstd::utf8::is_char_boundary_start_end_of_seq(sbytes(source));
    }
    let len = source.as_bytes().len();
    if index >= len {
        return len;
    }
    let mut i = index;
    while !source.is_char_boundary(i)
        invariant
            len == sbytes(source).len(),
            index <= i <= sbytes(source).len(),
            forall|j: int| index <= j < i ==> !vstd::utf8::is_char_boundary(sbytes(source), j),
            vstd::utf8::is_char_boundary(sbytes(source), sbytes(source).len() as int),
            vstd::utf8::valid_utf8(sbytes(source)),
        decreases sbytes(source).len() - i,
    {
        i = i + 1;
    }
    i
}

/// The byte range of the context of a match from `start` to `end` on line
/// `ln`: 150 bytes on each side (widened to character boundaries) for a match
/// longer than 1500 bytes, else the 15 lines before and after.
pub open spec fn context_range(b: Seq<u8>, start: nat, end: nat, ln: nat, rs: nat, re: nat) -> bool {
    let nl = newline_positions(b);
    if end - start > 1500 {
        &&& boundary_at_or_before(b, if start >= 150 { (start - 150) as nat } else { 0 }, rs)
        &&& boundary_at_or_after(b, if end + 150 < b.len() { end + 150 } else { b.len() }, re)
    } else {
        let start_line: nat = if ln >= 15 { (ln - 15) as nat } else { 0 };
        let end_line: nat = if ln + 15 < nl.len() { ln + 15 } else { nl.len() };
        &&& rs == if start_line > 1 && start_line - 2 < nl.len() {
            nl[start_line - 2] + 1
        } else if start_line > 1 {
            1
        } else {
            0
        }
        &&& re == if end_line >= 1 && end_line - 1 < nl.len() {
            nl[end_line - 1] as nat
        } else if end_line == 0 && nl.len() > 0 {
            nl[0] as nat
        } else {
            b.len()
        }
    }
}

/// The byte range of the context of a match from `start` to `end`.
pub open spec fn context_bounds(b: Seq<u8>, start: nat, end: nat) -> (nat, nat) {
    choose|r: (nat, nat)| context_range(b, start, end, line_number_of(b, start), r.0, r.1) && r.0 <= r.1
}

/// The text of the context of the match `span` of the text `s`.
pub open spec fn context_text(s: Seq<char>, span: (nat, nat)) -> Seq<char> {
    let b = vstd::utf8::encode_utf8(s);
    vstd::utf8::decode_utf8(b.subrange(context_bounds(b, span.0, span.1).0 as int, context_bounds(b, span.0, span.1).1 as int))
}

proof fn lemma_context_range_unique(b: Seq<u8>, start: nat, end: nat, ln: nat, r1: (nat, nat), r2: (nat, nat))
    requires
        context_range(b, start, end, ln, r1.0, r1.1),
        context_range(b, start, end, ln, r2.0, r2.1),
    ensures
        r1 == r2,
{
    if end - start > 1500 {
        let x: nat = if start >= 150 { (start - 150) as nat } else { 0 };
        let y: nat = if end + 150 < b.len() { end + 150 } else { b.len() };
        if x < b.len() {
            if r1.0 < r2.0 {
                assert(vstd::utf8::is_char_boundary(b, r2.0 as int));
            } else if r2.0 < r1.0 {
                assert(vstd::utf8::is_char_boundary(b, r1.0 as int));
            }
        }
        if y < b.len() {
            if r1.1 < r2.1 {
                assert(vstd::utf8::is_char_boundary(b, r1.1 as int));
            } else if r2.1 < r1.1 {
                assert(vstd::utf8::is_char_boundary(b, r2.1 as int));
            }
        }
    }
}

/// The text around a match from byte `start` to byte `end` on line `ln`.
pub fn get_match_context(source: &str, newlines: &Vec<usize>, start: usize, end: usize, ln: usize) -> (r: String)
    requires
        start <= end <= sbytes(source).len(),
        newlines@ == newline_positions(sbytes(source)),
        ln == line_number_of(sbytes(source), start as nat),
    ensures
        r@ == context_text(source@, (start as nat, end as nat)),
{
    let ghost b = sbytes(source);
    let len = source.as_bytes().len();
    proof {
        lemma_str_utf8(source);
        lemma_newline_positions(b);
        lemma_count_below_le(newlines@, start as nat);
        vstd::utf8::is_char_boundary_start_end_of_seq(b);
    }
    let (cs, ce) = if end - start > 1500 {
        let raw_start = if start >= 150 { start - 150 } else { 0 };
        let raw_end = if end < len - 150 && len >= 150 { end + 150 } else { len };
        let s = adjust_to_char_boundary_start(source, raw_start);
        let e = adjust_to_char_boundary_end(source, raw_end);
        assert(s <= raw_start || raw_start >= len);
        (s, e)
    } else {
        let start_line = if ln >= 15 { ln - 15 } else { 0 };
        let nlen = newlines.len();
        let end_line = if nlen >= 15 && ln < nlen - 15 { ln + 15 } else { nlen };
        let cs = if start_line > 1 {
            if start_line - 2 < nlen { newlines[start_line - 2] + 1 } else { 1 }
        } else {
            0
        };
        let ce = if end_line >= 1 && end_line - 1 < nlen {
            newlines[end_line - 1]
        } else if end_line == 0 && nlen > 0 {
            newlines[0]
        } else {
            len
        };
        proof {
            if start_line > 1 {
                assert(start_line - 2 < nlen);
                lemma_ascii_boundary(b, newlines@[start_line - 2] as int);
            }
            if end_line >= 1 && end_line - 1 < nlen {
                lemma_ascii_boundary(b, newlines@[end_line - 1] as int);
                if start_line > 1 {
                    assert(start_line - 2 < end_line - 1);
                }
            } else if end_line == 0 && nlen > 0 {
                lemma_ascii_boundary(b, newlines@[0] as int);
            }
        }
        (cs, ce)
    };
    assert(cs <= ce);
    let t = str_slice(source, cs, ce);
    proof {
        lemma_str_utf8(t);
        assert(context_range(b, start as nat, end as nat, ln as nat, cs as nat, ce as nat));
        let cb = context_bounds(b, start as nat, end as nat);
        lemma_context_range_unique(b, start as nat, end as nat, ln as nat, cb, (cs as nat, ce as nat));
    }
    owned(t)
}

/// The number of lines of `b`: one per newline, and one more for text after
/// the last newline.
pub open spec fn line_count(b: Seq<u8>) -> nat {
    let nl = newline_positions(b);
    let last_start: nat = if nl.len() == 0 { 0 } else { (nl.last() + 1) as nat };
    nl.len() + if last_start < b.len() { 1nat } else { 0nat }
}

/// The byte range of line `k` (from 0) of `b`, without its line ending
/// (`\n`, or `\r\n`).
pub open spec fn line_range(b: Seq<u8>, k: nat) -> (nat, nat) {
    let nl = newline_positions(b);
    let s: nat = if k == 0 { 0 } else { (nl[k - 1] + 1) as nat };
    if k < nl.len() {
        let e = nl[k as int] as nat;
        (s, if e > s && b[e - 1] == 13u8 { (e - 1) as nat } else { e })
    } else {
        (s, b.len())
    }
}

/// The lines of `source` as `str::lines` splits them.
pub fn source_lines(source: &str) -> (r: Vec<&str>)
    ensures
        r.len() == line_count(sbytes(source)),
        forall|k: int| 0 <= k < r.len() ==> sbytes(#[trigger] r@[k]) == sbytes(source).subrange(
            line_range(sbytes(source), k as nat).0 as int,
            line_range(sbytes(source), k as nat).1 as int,
        ),
{
    let ghost b = sbytes(source);
    let bytes = source.as_bytes();
    let blen = bytes.len();
    let nl = newline_offsets(source);
    proof {
        lemma_str_utf8(source);
        lemma_newline_positions(b);
        vstd::utf8::is_char_boundary_start_end_of_seq(b);
    }
    let mut r: Vec<&str> = Vec::new();
    let mut k: usize = 0;
    let mut start: usize = 0;
    while k < nl.len()
        invariant
            b == sbytes(source),
            bytes@ == b,
            blen == b.len(),
            nl@ == newline_positions(b),
            newlines_of(b, nl@),
            vstd::utf8::valid_utf8(b),
            vstd::utf8::is_char_boundary(b, b.len() as int),
            k <= nl.len(),
            r.len() == k,
            start == if k == 0 { 0 } else { nl@[k - 1] + 1 },
            start <= b.len(),
            vstd::utf8::is_char_boundary(b, start as int),
            forall|j: int| 0 <= j < r.len() ==> sbytes(#[trigger] r@[j]) == b.subrange(
                line_range(b, j as nat).0 as int,
                line_range(b, j as nat).1 as int,
            ),
        decreases nl.len() - k,
    {
        let e = nl[k];
        proof {
            if k > 0 {
                assert(nl@[k - 1] < nl@[k as int]);
            }
            lemma_ascii_boundary(b, e as int);
        }
        let end = if e > start && bytes[e - 1] == 13u8 { e - 1 } else { e };
        proof {
            if end < e {
                lemma_ascii_boundary(b, end as int);
            }
        }
        r.push(str_slice(source, start, end));
        start = e + 1;
        k = k + 1;
    }
    if start < bytes.len() {
        r.push(str_slice(source, start, bytes.len()));
    }
    r
}

/// The text of line `k` (from 0) of `b`, or nothing when there is no such line.
pub open spec fn line_text(b: Seq<u8>, k: int) -> Seq<char> {
    if 0 <= k < line_count(b) {
        vstd::utf8::decode_utf8(b.subrange(line_range(b, k as nat).0 as int, line_range(b, k as nat).1 as int))
    } else {
        Seq::empty()
    }
}

/// The snippet of line `ln` (from 1) of `b`: the line before, the line and
/// the line after, and the index of the line.
pub open spec fn snippet_of(b: Seq<u8>, ln: nat) -> Option<(Seq<char>, Seq<char>, Seq<char>, nat)> {
    if ln == 0 || ln > line_count(b) {
        None
    } else {
        Some((line_text(b, ln - 2), line_text(b, ln - 1), line_text(b, ln as int), (ln - 1) as nat))
    }
}

/// The text of a snippet line: line `k` (from 0) when it exists, else empty.
pub open spec fn snippet_line(lines: Seq<&str>, k: int) -> Seq<char> {
    if 0 <= k < lines.len() { lines[k]@ } else { Seq::empty() }
}

/// The snippet of line `ln` (from 1): the line before, the line itself and
/// the line after.
pub fn extract_code_snippet_cached(lines: &Vec<&str>, line_number: usize) -> (r: Option<CodeSnippet>)
    ensures
        match r {
            None => line_number == 0 || line_number > lines.len(),
            Some(s) => 1 <= line_number <= lines.len()
                && s.before@ == snippet_line(lines@, line_number - 2)
                && s.vulnerable_line@ == lines@[line_number - 1]@
                && s.after@ == snippet_line(lines@, line_number as int)
                && s.line_start == line_number - 1,
        },
{
    if line_number == 0 || line_number > lines.len() {
        return None;
    }
    let idx = line_number - 1;
    let before = if idx > 0 { owned(lines[idx - 1]) } else { owned("") };
    let vulnerable_line = owned(lines[idx]);
    let after = if idx + 1 < lines.len() { owned(lines[idx + 1]) } else { owned("") };
    proof {
        reveal_strlit("");
    }
    Some(CodeSnippet { before, vulnerable_line, after, line_start: idx })
}

} // verus!
