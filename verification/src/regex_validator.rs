//! Static safety checks on regular-expression patterns: nested quantifiers
//! (catastrophic backtracking) and complexity limits.
use vstd::prelude::*;
use crate::text::{count_byte, sbytes, bytes_count};

verus! {

/// Longest pattern accepted, in bytes.
pub const MAX_PATTERN_LENGTH: usize = 1000;
/// Most `|` alternations accepted.
pub const MAX_ALTERNATIONS: usize = 50;
/// Most groups (unescaped `(`) accepted.
pub const MAX_GROUPS: usize = 20;

/// Why a pattern was judged unsafe.
#[derive(Debug, Clone, PartialEq, Eq)]
pub enum PatternSafetyError {
    /// A quantified group contains a quantifier, e.g. `(a+)+`.
    NestedQuantifier,
    /// The pattern is longer than `MAX_PATTERN_LENGTH` bytes.
    TooLong { length: usize },
    /// The pattern has more than `MAX_ALTERNATIONS` `|` bytes.
    TooManyAlternations { count: usize },
    /// The pattern has more than `MAX_GROUPS` unescaped `(` bytes.
    TooManyGroups { count: usize },
}

pub open spec fn is_quantifier(c: u8) -> bool {
    c == 42u8 || c == 43u8 || c == 123u8 || c == 63u8
}

/// The group stack after a quantifier-carrying group closes: the enclosing
/// group (if any) now contains a quantifier too.
pub open spec fn propagate(rest: Seq<bool>, had: bool) -> Seq<bool> {
    if had && rest.len() > 0 {
        rest.update(rest.len() - 1, true)
    } else {
        rest
    }
}

/// Escape-aware scan from byte `i` with the open-group stack `st` (each entry:
/// whether a quantifier occurred inside that group). True when some group that
/// contains a quantifier is itself directly followed by a quantifier.
pub open spec fn nested_from(b: Seq<u8>, i: int, st: Seq<bool>) -> bool
    decreases b.len() - i,
{
    if i < 0 || i >= b.len() {
        false
    } else if b[i] == 92u8 && i + 1 < b.len() {
        nested_from(b, i + 2, st)
    } else if b[i] == 40u8 {
        nested_from(b, i + 1, st.push(false))
    } else if b[i] == 41u8 {
        if st.len() == 0 {
            nested_from(b, i + 1, st)
        } else if i + 1 < b.len() && is_quantifier(b[i + 1]) && st.last() {
            true
        } else {
            nested_from(b, i + 1, propagate(st.drop_last(), st.last()))
        }
    } else if is_quantifier(b[i]) && st.len() > 0 {
        nested_from(b, i + 1, st.update(st.len() - 1, true))
    } else {
        nested_from(b, i + 1, st)
    }
}

/// The pattern has a nested quantifier.
pub open spec fn has_nested_quantifier(b: Seq<u8>) -> bool {
    nested_from(b, 0, Seq::empty())
}

/// The number of groups opened from byte `i` on: the `(` bytes not escaped
/// by a `\\`, scanning escapes as the nesting scan does.
pub open spec fn groups_from(b: Seq<u8>, i: int) -> nat
    decreases b.len() - i,
{
    if i < 0 || i >= b.len() {
        0
    } else if b[i] == 92u8 && i + 1 < b.len() {
        groups_from(b, i + 2)
    } else if b[i] == 40u8 {
        1 + groups_from(b, i + 1)
    } else {
        groups_from(b, i + 1)
    }
}

/// The number of groups of a pattern: its unescaped `(` bytes.
pub open spec fn group_count(b: Seq<u8>) -> nat {
    groups_from(b, 0)
}

proof fn lemma_groups_le(b: Seq<u8>, i: int)
    requires
        0 <= i,
    ensures
        groups_from(b, i) <= if i < b.len() { b.len() - i } else { 0 },
    decreases b.len() - i,
{
    if i < b.len() {
        if b[i] == 92u8 && i + 1 < b.len() {
            lemma_groups_le(b, i + 2);
        } else {
            lemma_groups_le(b, i + 1);
        }
    }
}

/// Counts the unescaped `(` bytes of a pattern.
fn count_groups(bytes: &[u8]) -> (r: usize)
    ensures
        r == group_count(bytes@),
{
    let ghost b = bytes@;
    let mut i: usize = 0;
    let mut n: usize = 0;
    proof {
        lemma_groups_le(b, 0);
    }
    while i < bytes.len()
        invariant
            b == bytes@,
            i <= bytes.len(),
            n + groups_from(b, i as int) == group_count(b),
            group_count(b) <= b.len(),
        decreases bytes.len() - i,
    {
        if bytes[i] == 92u8 && i + 1 < bytes.len() {
            i = i + 2;
        } else {
            if bytes[i] == 40u8 {
                n = n + 1;
            }
            i = i + 1;
        }
    }
    n
}

/// The verdict on a pattern's bytes, checks in order: nesting, length,
/// alternations, groups.
pub open spec fn pattern_verdict(b: Seq<u8>) -> Result<(), PatternSafetyError> {
    if has_nested_quantifier(b) {
        Err(PatternSafetyError::NestedQuantifier)
    } else if b.len() > MAX_PATTERN_LENGTH {
        Err(PatternSafetyError::TooLong { length: b.len() as usize })
    } else if count_byte(b, 124u8) > MAX_ALTERNATIONS {
        Err(PatternSafetyError::TooManyAlternations { count: count_byte(b, 124u8) as usize })
    } else if group_count(b) > MAX_GROUPS {
        Err(PatternSafetyError::TooManyGroups { count: group_count(b) as usize })
    } else {
        Ok(())
    }
}

/// Scanning bytes with no parenthesis and no backslash inside one open group
/// only records whether a quantifier occurred.
proof fn lemma_flat_scan(b: Seq<u8>, i: int, end: int, t: bool)
    requires
        0 <= i <= end < b.len(),
        forall|j: int| i <= j < end ==> b[j] != 40u8 && b[j] != 41u8 && b[j] != 92u8,
    ensures
        nested_from(b, i, seq![t]) == nested_from(
            b,
            end,
            seq![t || exists|j: int| i <= j < end && is_quantifier(#[trigger] b[j])],
        ),
    decreases end - i,
{
    if i < end {
        let t2 = t || is_quantifier(b[i]);
        if is_quantifier(b[i]) {
            assert(seq![t].update(0, true) =~= seq![true]);
        }
        lemma_flat_scan(b, i + 1, end, t2);
        let q1 = exists|j: int| i + 1 <= j < end && is_quantifier(#[trigger] b[j]);
        let q0 = exists|j: int| i <= j < end && is_quantifier(#[trigger] b[j]);
        assert(q0 == (is_quantifier(b[i]) || q1)) by {
            if q1 {
                let j = choose|j: int| i + 1 <= j < end && is_quantifier(#[trigger] b[j]);
                assert(i <= j < end && is_quantifier(b[j]));
            }
            if q0 && !is_quantifier(b[i]) {
                let j = choose|j: int| i <= j < end && is_quantifier(#[trigger] b[j]);
                assert(j != i);
            }
        }
        assert(seq![t2 || q1] =~= seq![t || q0]);
    } else {
        assert(!(exists|j: int| i <= j < end && is_quantifier(#[trigger] b[j])));
        assert(seq![t || false] =~= seq![t]);
    }
}

/// A group quantified from outside that holds a quantifier is a nested
/// quantifier: for a pattern `(x)c` where `x` has no parenthesis and no
/// backslash, the pattern has a nested quantifier exactly when `x` holds one
/// of `*`, `+`, `{`, `?` and `c` is one of them too; such a pattern is
/// refused with `NestedQuantifier`.
pub proof fn law_quantified_group_nesting(x: Seq<u8>, c: u8)
    requires
        forall|j: int| 0 <= j < x.len() ==> x[j] != 40u8 && x[j] != 41u8 && x[j] != 92u8,
        c != 40u8 && c != 41u8 && c != 92u8,
    ensures
        has_nested_quantifier(seq![40u8] + x + seq![41u8, c]) <==> ((exists|j: int|
            0 <= j < x.len() && (x[j] == 42u8 || x[j] == 43u8 || x[j] == 123u8 || x[j] == 63u8))
            && (c == 42u8 || c == 43u8 || c == 123u8 || c == 63u8)),
        ((exists|j: int| 0 <= j < x.len() && (x[j] == 42u8 || x[j] == 43u8 || x[j] == 123u8 || x[j] == 63u8))
            && (c == 42u8 || c == 43u8 || c == 123u8 || c == 63u8)) ==> pattern_verdict(seq![40u8] + x + seq![41u8, c])
            == Err::<(), PatternSafetyError>(PatternSafetyError::NestedQuantifier),
{
    let b = seq![40u8] + x + seq![41u8, c];
    let end: int = x.len() as int + 1;
    assert(b[0] == 40u8);
    assert(b[end] == 41u8);
    assert(b[end + 1] == c);
    assert(b.len() == end + 2);
    assert forall|j: int| 1 <= j < end implies b[j] != 40u8 && b[j] != 41u8 && b[j] != 92u8 by {
        assert(b[j] == x[j - 1]);
    }
    assert(Seq::<bool>::empty().push(false) =~= seq![false]);
    lemma_flat_scan(b, 1, end, false);
    let q = exists|j: int| 1 <= j < end && is_quantifier(#[trigger] b[j]);
    let qx = exists|j: int| 0 <= j < x.len() && (x[j] == 42u8 || x[j] == 43u8 || x[j] == 123u8 || x[j] == 63u8);
    assert(q == qx) by {
        if q {
            let j = choose|j: int| 1 <= j < end && is_quantifier(#[trigger] b[j]);
            assert(b[j] == x[j - 1]);
        }
        if qx {
            let j = choose|j: int| 0 <= j < x.len() && (x[j] == 42u8 || x[j] == 43u8 || x[j] == 123u8 || x[j] == 63u8);
            assert(b[j + 1] == x[j]);
            assert(is_quantifier(b[j + 1]));
        }
    }
    assert(seq![false || q] =~= seq![q]);
    assert(seq![q].last() == q);
    assert(seq![q].drop_last() =~= Seq::<bool>::empty());
    if !(q && is_quantifier(c)) {
        assert(propagate(Seq::<bool>::empty(), q) =~= Seq::<bool>::empty());
        assert(!nested_from(b, end + 2, Seq::<bool>::empty()));
        assert(nested_from(b, end + 1, Seq::<bool>::empty()) == nested_from(b, end + 2, Seq::<bool>::empty()));
    }
}

/// The limits after the nesting check, in order: at most 1000 bytes, at
/// most 50 `|` bytes, at most 20 groups; a pattern with no nested quantifier
/// within all three limits is accepted.
pub proof fn law_pattern_limits(b: Seq<u8>)
    ensures
        !has_nested_quantifier(b) && b.len() > 1000 ==> pattern_verdict(b) == Err::<(), PatternSafetyError>(
            PatternSafetyError::TooLong { length: b.len() as usize },
        ),
        !has_nested_quantifier(b) && b.len() <= 1000 && count_byte(b, 124u8) > 50 ==> pattern_verdict(b) == Err::<
            (),
            PatternSafetyError,
        >(PatternSafetyError::TooManyAlternations { count: count_byte(b, 124u8) as usize }),
        !has_nested_quantifier(b) && b.len() <= 1000 && count_byte(b, 124u8) <= 50 && group_count(b) > 20
            ==> pattern_verdict(b) == Err::<(), PatternSafetyError>(
            PatternSafetyError::TooManyGroups { count: group_count(b) as usize },
        ),
        !has_nested_quantifier(b) && b.len() <= 1000 && count_byte(b, 124u8) <= 50 && group_count(b) <= 20
            ==> pattern_verdict(b) is Ok,
{
}

/// Validates regex patterns for potential denial-of-service shapes.
pub struct RegexValidator;

proof fn lemma_count_le(s: Seq<u8>, c: u8)
    ensures
        count_byte(s, c) <= s.len(),
    decreases s.len(),
{
    if s.len() > 0 {
        lemma_count_le(s.drop_last(), c);
    }
}

impl RegexValidator {
    /// Checks a pattern: no nested quantifiers, at most `MAX_PATTERN_LENGTH`
    /// bytes, `MAX_ALTERNATIONS` alternations and `MAX_GROUPS` groups; an
    /// escaped parenthesis `\\(` opens no group.
    pub fn validate_pattern(pattern: &str) -> (r: Result<(), PatternSafetyError>)
        ensures
            r == pattern_verdict(sbytes(pattern)),
    {
        Self::check_nested_quantifiers(pattern)?;
        Self::check_pattern_complexity(pattern)?;
        Ok(())
    }

    /// Rejects nested quantifiers such as `(a+)+` or `(a*)*`.
    pub fn check_nested_quantifiers(pattern: &str) -> (r: Result<(), PatternSafetyError>)
        ensures
            r is Ok <==> !has_nested_quantifier(sbytes(pattern)),
            r is Err ==> r == Err::<(), PatternSafetyError>(PatternSafetyError::NestedQuantifier),
    {
        Self::scan_for_nested_quantifiers(pattern)
    }

    /// Escape-aware scan tracking, for each open group, whether a quantifier
    /// occurred inside it.
    pub fn scan_for_nested_quantifiers(pattern: &str) -> (r: Result<(), PatternSafetyError>)
        ensures
            r is Ok <==> !has_nested_quantifier(sbytes(pattern)),
            r is Err ==> r == Err::<(), PatternSafetyError>(PatternSafetyError::NestedQuantifier),
    {
        let bytes = pattern.as_bytes();
        let ghost b = bytes@;
        let mut i: usize = 0;
        let mut stack: Vec<bool> = Vec::new();
        while i < bytes.len()
            invariant
                b == bytes@,
                b == sbytes(pattern),
                i <= bytes.len(),
                nested_from(b, 0, Seq::empty()) == nested_from(b, i as int, stack@),
            decreases bytes.len() - i,
        {
            let ch = bytes[i];
            if ch == 92u8 && i + 1 < bytes.len() {
                i = i + 2;
                continue;
            }
            if ch == 40u8 {
                stack.push(false);
                i = i + 1;
                continue;
            }
            if ch == 41u8 {
                if stack.len() > 0 {
                    let has_quant = stack.pop().unwrap();
                    if i + 1 < bytes.len() {
                        let next = bytes[i + 1];
                        if (next == 42u8 || next == 43u8 || next == 123u8 || next == 63u8) && has_quant {
                            return Err(PatternSafetyError::NestedQuantifier);
                        }
                    }
                    if has_quant && stack.len() > 0 {
                        let last = stack.len() - 1;
                        stack.set(last, true);
                    }
                }
                i = i + 1;
                continue;
            }
            if (ch == 42u8 || ch == 43u8 || ch == 123u8 || ch == 63u8) && stack.len() > 0 {
                let last = stack.len() - 1;
                stack.set(last, true);
            }
            i = i + 1;
        }
        Ok(())
    }

    /// Checks the length, alternation and group limits, in that order.
    pub fn check_pattern_complexity(pattern: &str) -> (r: Result<(), PatternSafetyError>)
        ensures
            !has_nested_quantifier(sbytes(pattern)) ==> r == pattern_verdict(sbytes(pattern)),
    {
        let bytes = pattern.as_bytes();
        if bytes.len() > MAX_PATTERN_LENGTH {
            return Err(PatternSafetyError::TooLong { length: bytes.len() });
        }
        let alternations = bytes_count(bytes, 124u8);
        if alternations > MAX_ALTERNATIONS {
            return Err(PatternSafetyError::TooManyAlternations { count: alternations });
        }
        let groups = count_groups(bytes);
        if groups > MAX_GROUPS {
            return Err(PatternSafetyError::TooManyGroups { count: groups });
        }
        Ok(())
    }
}

} // verus!
