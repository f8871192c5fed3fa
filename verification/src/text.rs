//! Byte-level text utilities with exact specifications.
use vstd::prelude::*;
use vstd::string::StringSliceAdditionalSpecFns;
use vstd::string::StringExecFns;
use vstd::string::StrSliceExecFns;

verus! {

/// `p` occurs in `s` starting at byte index `i`.
pub open spec fn occurs_at(s: Seq<u8>, p: Seq<u8>, i: int) -> bool {
    0 <= i && i + p.len() <= s.len() && s.subrange(i, i + p.len()) == p
}

/// `p` occurs somewhere in `s`.
pub open spec fn has_sub(s: Seq<u8>, p: Seq<u8>) -> bool {
    exists|i: int| occurs_at(s, p, i)
}

/// The number of bytes of `s` equal to `c`.
pub open spec fn count_byte(s: Seq<u8>, c: u8) -> nat
    decreases s.len(),
{
    if s.len() == 0 {
        0
    } else {
        count_byte(s.drop_last(), c) + if s.last() == c { 1nat } else { 0nat }
    }
}

/// The bytes of a string slice.
pub open spec fn sbytes(s: &str) -> Seq<u8> {
    s.spec_bytes()
}

/// Whether `p` occurs at byte index `i` of `s` (executable).
pub fn bytes_occur_at(s: &[u8], p: &[u8], i: usize) -> (r: bool)
    ensures
        r == occurs_at(s@, p@, i as int),
{
    if i > s.len() || p.len() > s.len() - i {
        return false;
    }
    let mut k: usize = 0;
    while k < p.len()
        invariant
            i + p.len() <= s.len(),
            k <= p.len(),
            forall|j: int| 0 <= j < k ==> s@[i + j] == p@[j],
        decreases p.len() - k,
    {
        if s[i + k] != p[k] {
            assert(s@.subrange(i as int, i + p.len())[k as int] != p@[k as int]);
            return false;
        }
        k = k + 1;
    }
    assert(s@.subrange(i as int, i + p.len()) =~= p@);
    true
}

/// The first byte index at or after `from` where `p` occurs in `s`.
pub fn bytes_find_from(s: &[u8], p: &[u8], from: usize) -> (r: Option<usize>)
    ensures
        match r {
            Some(i) => from <= i && occurs_at(s@, p@, i as int) && forall|j: int|
                from <= j < i ==> !occurs_at(s@, p@, j),
            None => forall|j: int| from <= j ==> !occurs_at(s@, p@, j),
        },
{
    if from > s.len() {
        return None;
    }
    let mut i: usize = from;
    while i <= s.len()
        invariant
            from <= i,
            from <= s.len(),
            forall|j: int| from <= j < i ==> !occurs_at(s@, p@, j),
        decreases s.len() + 1 - i,
    {
        if bytes_occur_at(s, p, i) {
            return Some(i);
        }
        if i == s.len() {
            assert forall|j: int| from <= j implies !occurs_at(s@, p@, j) by {
                if j > i {
                    assert(j + p@.len() > s@.len());
                }
            }
            return None;
        }
        i = i + 1;
    }
    None
}

/// Whether `p` occurs in `s`.
pub fn bytes_contains(s: &[u8], p: &[u8]) -> (r: bool)
    ensures
        r == has_sub(s@, p@),
{
    match bytes_find_from(s, p, 0) {
        Some(i) => true,
        None => {
            assert forall|j: int| !occurs_at(s@, p@, j) by {
                if 0 <= j {
                }
            }
            false
        },
    }
}

/// `p` occurs in `s` (compared as UTF-8 bytes, as `str::contains` does).
pub open spec fn str_has(s: Seq<char>, p: Seq<char>) -> bool {
    has_sub(vstd::utf8::encode_utf8(s), vstd::utf8::encode_utf8(p))
}

/// Whether `p` occurs in `s`, stated over their characters.
pub fn contains(s: &str, p: &str) -> (r: bool)
    ensures
        r == str_has(s@, p@),
{
    let r = str_contains(s, p);
    assert(sbytes(s) == vstd::utf8::encode_utf8(s@));
    assert(sbytes(p) == vstd::utf8::encode_utf8(p@));
    r
}

/// Whether the string `p` occurs in the string `s` (byte-wise, as `str::contains`).
pub fn str_contains(s: &str, p: &str) -> (r: bool)
    ensures
        r == has_sub(sbytes(s), sbytes(p)),
{
    bytes_contains(s.as_bytes(), p.as_bytes())
}

/// A character boundary of a valid UTF-8 sequence at or after the boundary
/// `start` is a character boundary of the part from `start` on.
proof fn lemma_boundary_in_rest(b: Seq<u8>, start: int, end: int)
    requires
        vstd::utf8::valid_utf8(b),
        0 <= start <= end <= b.len(),
        vstd::utf8::is_char_boundary(b, start),
        vstd::utf8::is_char_boundary(b, end),
    ensures
        vstd::utf8::valid_utf8(b.subrange(start, b.len() as int)),
        vstd::utf8::is_char_boundary(b.subrange(start, b.len() as int), end - start),
{
    let rest = b.subrange(start, b.len() as int);
    vstd::utf8::valid_utf8_split(b, start);
    vstd::utf8::is_char_boundary_start_end_of_seq(rest);
    if end < b.len() {
        vstd::utf8::is_char_boundary_iff_not_is_continuation_byte(b, end);
        assert(rest[end - start] == b[end]);
        vstd::utf8::is_char_boundary_iff_not_is_continuation_byte(rest, end - start);
    }
}

/// The substring of `s` between byte offsets `start` and `end` (`&s[start..end]`).
pub fn str_slice(s: &str, start: usize, end: usize) -> (r: &str)
    requires
        start <= end <= sbytes(s).len(),
        vstd::utf8::is_char_boundary(sbytes(s), start as int),
        vstd::utf8::is_char_boundary(sbytes(s), end as int),
    ensures
        sbytes(r) == sbytes(s).subrange(start as int, end as int),
{
    proof {
        lemma_str_utf8(s);
        lemma_boundary_in_rest(sbytes(s), start as int, end as int);
    }
    let (_, rest) = s.split_at(start);
    let (mid, _) = rest.split_at(end - start);
    assert(sbytes(mid) =~= sbytes(s).subrange(start as int, end as int));
    mid
}

/// The number of bytes equal to `c` among the first `n` bytes of `s`.
pub fn bytes_count_prefix(s: &[u8], c: u8, n: usize) -> (r: usize)
    requires
        n <= s@.len(),
    ensures
        r == count_byte(s@.subrange(0, n as int), c),
{
    let mut k: usize = 0;
    let mut i: usize = 0;
    while i < n
        invariant
            i <= n <= s@.len(),
            k == count_byte(s@.subrange(0, i as int), c),
            k <= i,
        decreases n - i,
    {
        assert(s@.subrange(0, i + 1).drop_last() =~= s@.subrange(0, i as int));
        if s[i] == c {
            k = k + 1;
        }
        i = i + 1;
    }
    k
}

/// The number of bytes of `s` equal to `c`.
pub fn bytes_count(s: &[u8], c: u8) -> (r: usize)
    ensures
        r == count_byte(s@, c),
{
    let mut n: usize = 0;
    let mut i: usize = 0;
    while i < s.len()
        invariant
            i <= s.len(),
            n == count_byte(s@.subrange(0, i as int), c),
            n <= i,
        decreases s.len() - i,
    {
        assert(s@.subrange(0, i + 1).drop_last() =~= s@.subrange(0, i as int));
        if s[i] == c {
            n = n + 1;
        }
        i = i + 1;
    }
    assert(s@.subrange(0, s.len() as int) =~= s@);
    n
}


/// An owned copy of a string slice.
pub fn owned(s: &str) -> (r: String)
    ensures
        r@ == s@,
{
    s.to_owned()
}

/// Appends `t` to `s`.
pub fn push_str(s: &mut String, t: &str)
    ensures
        final(s)@ == old(s)@ + t@,
{
    s.append(t);
}

/// `String::push`: appends one character.
#[verifier::external_body]
pub fn push_char(s: &mut String, c: char)
    ensures
        final(s)@ == old(s)@.push(c),
{
    s.push(c);
}

/// The lower-case form of a text, as `str::to_lowercase` computes it from the
/// Unicode case tables.
pub uninterp spec fn lowercase(s: Seq<char>) -> Seq<char>;

/// The ASCII lower-case form of one character.
pub open spec fn ascii_lower_char(c: char) -> char {
    if 'A' <= c && c <= 'Z' { ((c as u32) + 32) as char } else { c }
}

/// All characters of `s` are ASCII.
pub open spec fn all_ascii(s: Seq<char>) -> bool {
    forall|i: int| 0 <= i < s.len() ==> (#[trigger] s[i] as u32) < 128
}

/// `str::to_lowercase`. Its result is named `lowercase`; on ASCII text the
/// Unicode mapping sends `A`..`Z` to `a`..`z` and keeps every other character.
#[verifier::external_body]
pub fn to_lowercase(s: &str) -> (r: String)
    ensures
        r@ == lowercase(s@),
        all_ascii(s@) ==> r@ == s@.map_values(|c: char| ascii_lower_char(c)),
{
    s.to_lowercase()
}

/// `char::is_whitespace`: the characters with the Unicode `White_Space` property.
pub open spec fn is_white_space(c: char) -> bool {
    ||| ('\t' <= c && c <= '\r')
    ||| c == ' '
    ||| c == '\u{85}'
    ||| c == '\u{A0}'
    ||| c == '\u{1680}'
    ||| ('\u{2000}' <= c && c <= '\u{200A}')
    ||| c == '\u{2028}'
    ||| c == '\u{2029}'
    ||| c == '\u{202F}'
    ||| c == '\u{205F}'
    ||| c == '\u{3000}'
}

/// `s` without its leading white space.
pub open spec fn trim_start_ws(s: Seq<char>) -> Seq<char>
    decreases s.len(),
{
    if s.len() > 0 && is_white_space(s[0]) {
        trim_start_ws(s.drop_first())
    } else {
        s
    }
}

/// `s` without its trailing white space.
pub open spec fn trim_end_ws(s: Seq<char>) -> Seq<char>
    decreases s.len(),
{
    if s.len() > 0 && is_white_space(s.last()) {
        trim_end_ws(s.drop_last())
    } else {
        s
    }
}

/// `s` without leading and trailing white space.
pub open spec fn trimmed(s: Seq<char>) -> Seq<char> {
    trim_end_ws(trim_start_ws(s))
}

/// Whether `c` is white space (`char::is_whitespace`).
pub fn is_white_space_char(c: char) -> (r: bool)
    ensures
        r == is_white_space(c),
{
    let v = c as u32;
    (9 <= v && v <= 13) || v == 32 || v == 0x85 || v == 0xA0 || v == 0x1680 || (0x2000 <= v && v <= 0x200A)
        || v == 0x2028 || v == 0x2029 || v == 0x202F || v == 0x205F || v == 0x3000
}

/// Dropping the `k` leading white-space characters of `s`, the next one (if
/// any) not being white space, leaves `trim_start_ws(s)`.
proof fn lemma_trim_start_at(s: Seq<char>, k: int)
    requires
        0 <= k <= s.len(),
        forall|j: int| 0 <= j < k ==> is_white_space(#[trigger] s[j]),
        k < s.len() ==> !is_white_space(s[k]),
    ensures
        trim_start_ws(s) == s.subrange(k, s.len() as int),
    decreases k,
{
    if k == 0 {
        assert(s.subrange(0, s.len() as int) =~= s);
    } else {
        assert(is_white_space(s[0]));
        let t = s.drop_first();
        assert forall|j: int| 0 <= j < k - 1 implies is_white_space(#[trigger] t[j]) by {
            assert(t[j] == s[j + 1]);
        }
        if k - 1 < t.len() {
            assert(t[k - 1] == s[k]);
        }
        lemma_trim_start_at(t, k - 1);
        assert(t.subrange(k - 1, t.len() as int) =~= s.subrange(k, s.len() as int));
    }
}

/// Keeping the first `e` characters of `s`, all later ones being white space
/// and the one before (if any) not, gives `trim_end_ws(s)`.
proof fn lemma_trim_end_at(s: Seq<char>, e: int)
    requires
        0 <= e <= s.len(),
        forall|j: int| e <= j < s.len() ==> is_white_space(#[trigger] s[j]),
        e > 0 ==> !is_white_space(s[e - 1]),
    ensures
        trim_end_ws(s) == s.subrange(0, e),
    decreases s.len() - e,
{
    if e == s.len() {
        assert(s.subrange(0, e) =~= s);
    } else {
        assert(is_white_space(s.last()));
        let t = s.drop_last();
        assert forall|j: int| e <= j < t.len() implies is_white_space(#[trigger] t[j]) by {
            assert(t[j] == s[j]);
        }
        if e > 0 {
            assert(t[e - 1] == s[e - 1]);
        }
        lemma_trim_end_at(t, e);
        assert(t.subrange(0, e) =~= s.subrange(0, e));
    }
}

/// The number of leading white-space characters of `s`, which has `n` characters.
fn leading_white_space(s: &str, n: usize) -> (k: usize)
    requires
        n == s@.len(),
    ensures
        k <= n,
        forall|j: int| 0 <= j < k ==> is_white_space(#[trigger] s@[j]),
        k < n ==> !is_white_space(s@[k as int]),
{
    let mut k: usize = 0;
    while k < n && is_white_space_char(s.get_char(k))
        invariant
            k <= n,
            n == s@.len(),
            forall|j: int| 0 <= j < k ==> is_white_space(#[trigger] s@[j]),
        decreases n - k,
    {
        k = k + 1;
    }
    k
}

/// `str::trim`: removes leading and trailing white space.
pub fn str_trim(s: &str) -> (r: &str)
    ensures
        r@ == trimmed(s@),
{
    let n = s.unicode_len();
    let k = leading_white_space(s, n);
    let mut e: usize = n;
    while e > k && is_white_space_char(s.get_char(e - 1))
        invariant
            k <= e <= n,
            n == s@.len(),
            forall|j: int| e <= j < n ==> is_white_space(#[trigger] s@[j]),
        decreases e,
    {
        e = e - 1;
    }
    proof {
        lemma_trim_start_at(s@, k as int);
        let t = s@.subrange(k as int, n as int);
        assert forall|j: int| e - k <= j < t.len() implies is_white_space(#[trigger] t[j]) by {
            assert(t[j] == s@[j + k]);
        }
        if e > k {
            assert(t[e - k - 1] == s@[e - 1]);
        }
        lemma_trim_end_at(t, e - k);
        assert(t.subrange(0, e - k) =~= s@.subrange(k as int, e as int));
    }
    s.substring_char(k, e)
}

/// `str::trim_start`: removes leading white space.
pub fn str_trim_start(s: &str) -> (r: &str)
    ensures
        r@ == trim_start_ws(s@),
{
    let n = s.unicode_len();
    let k = leading_white_space(s, n);
    proof {
        lemma_trim_start_at(s@, k as int);
    }
    s.substring_char(k, n)
}

/// The decimal digit character for `d < 10`.
pub open spec fn digit_char(d: nat) -> char {
    if d == 0 { '0' }
    else if d == 1 { '1' }
    else if d == 2 { '2' }
    else if d == 3 { '3' }
    else if d == 4 { '4' }
    else if d == 5 { '5' }
    else if d == 6 { '6' }
    else if d == 7 { '7' }
    else if d == 8 { '8' }
    else { '9' }
}

/// The decimal representation of `n`, without leading zeros.
pub open spec fn decimal(n: nat) -> Seq<char>
    decreases n,
{
    if n < 10 {
        seq![digit_char(n)]
    } else {
        decimal(n / 10).push(digit_char(n % 10))
    }
}

fn digit_of(d: usize) -> (c: char)
    requires
        d < 10,
    ensures
        c == digit_char(d as nat),
{
    if d == 0 { '0' }
    else if d == 1 { '1' }
    else if d == 2 { '2' }
    else if d == 3 { '3' }
    else if d == 4 { '4' }
    else if d == 5 { '5' }
    else if d == 6 { '6' }
    else if d == 7 { '7' }
    else if d == 8 { '8' }
    else { '9' }
}

/// Appends the decimal representation of `n` to `s`.
pub fn push_decimal(s: &mut String, n: usize)
    ensures
        final(s)@ == old(s)@ + decimal(n as nat),
    decreases n,
{
    if n >= 10 {
        push_decimal(s, n / 10);
    }
    let c = digit_of(n % 10);
    push_char(s, c);
    proof {
        if n >= 10 {
            assert(decimal(n as nat) == decimal((n / 10) as nat).push(digit_char((n % 10) as nat)));
        } else {
            assert(decimal(n as nat) == seq![digit_char(n as nat)]);
        }
    }
}

/// Appends the decimal representation of the 64-bit `n` to `s`.
pub fn push_decimal_u64(s: &mut String, n: u64)
    ensures
        final(s)@ == old(s)@ + decimal(n as nat),
    decreases n,
{
    if n >= 10 {
        push_decimal_u64(s, n / 10);
    }
    let c = digit_of((n % 10) as usize);
    push_char(s, c);
    proof {
        if n >= 10 {
            assert(decimal(n as nat) == decimal((n / 10) as nat).push(digit_char((n % 10) as nat)));
        } else {
            assert(decimal(n as nat) == seq![digit_char(n as nat)]);
        }
    }
}

/// The decimal representation of `n` as a new string.
pub fn decimal_string(n: usize) -> (r: String)
    ensures
        r@ == decimal(n as nat),
{
    let mut s = String::new();
    push_decimal(&mut s, n);
    s
}

/// Equality of string slices.
pub fn str_eq(a: &str, b: &str) -> (r: bool)
    ensures
        r == (a@ == b@),
{
    let x = a.as_bytes();
    let y = b.as_bytes();
    proof {
        vstd::utf8::encode_utf8_decode_utf8(a@);
        vstd::utf8::encode_utf8_decode_utf8(b@);
    }
    if x.len() != y.len() {
        assert(x@ == a.spec_bytes());
            assert(a.spec_bytes() == vstd::utf8::encode_utf8(a@));
        assert(y@ == b.spec_bytes());
        return false;
    }
    let mut i: usize = 0;
    while i < x.len()
        invariant
            x.len() == y.len(),
            x@ == a.spec_bytes(),
            y@ == b.spec_bytes(),
            a.spec_bytes() == vstd::utf8::encode_utf8(a@),
            b.spec_bytes() == vstd::utf8::encode_utf8(b@),
            i <= x.len(),
            forall|j: int| 0 <= j < i ==> x@[j] == y@[j],
        decreases x.len() - i,
    {
        if x[i] != y[i] {
            assert(x@ == a.spec_bytes());
            assert(a.spec_bytes() == vstd::utf8::encode_utf8(a@));
            assert(y@ == b.spec_bytes());
            assert(x@ != y@);
            return false;
        }
        i = i + 1;
    }
    assert(x@ =~= y@);
    true
}


/// The strings joined with `sep` between consecutive ones.
pub open spec fn joined(v: Seq<Seq<char>>, sep: Seq<char>) -> Seq<char>
    decreases v.len(),
{
    if v.len() == 0 {
        Seq::empty()
    } else if v.len() == 1 {
        v[0]
    } else {
        joined(v.drop_last(), sep) + sep + v.last()
    }
}

/// Appends the strings of `v` joined with `sep` to `s`.
pub fn push_joined(s: &mut String, v: &Vec<String>, sep: &str)
    ensures
        final(s)@ == old(s)@ + joined(strs(v@), sep@),
{
    let ghost s0 = s@;
    let mut i: usize = 0;
    while i < v.len()
        invariant
            i <= v@.len(),
            s@ == s0 + joined(strs(v@.subrange(0, i as int)), sep@),
        decreases v@.len() - i,
    {
        let ghost pre = strs(v@.subrange(0, i as int));
        assert(strs(v@.subrange(0, i + 1)) =~= pre.push(v@[i as int]@));
        assert(strs(v@.subrange(0, i + 1)).drop_last() =~= pre);
        if i > 0 {
            push_str(s, sep);
        }
        push_str(s, v[i].as_str());
        i = i + 1;
        proof {
            if i == 1 {
                assert(pre =~= Seq::<Seq<char>>::empty());
                assert(s@ =~= s0 + joined(strs(v@.subrange(0, i as int)), sep@));
            } else {
                assert(s@ =~= s0 + joined(strs(v@.subrange(0, i as int)), sep@));
            }
        }
    }
    assert(v@.subrange(0, v@.len() as int) =~= v@);
}

/// Extending a mapped prefix by one element.
pub proof fn lemma_map_push<A, B>(before: Seq<A>, x: A, s: Seq<A>, i: int, f: spec_fn(A) -> B)
    requires
        0 <= i < s.len(),
        before.map_values(f) == s.subrange(0, i).map_values(f),
        f(x) == f(s[i]),
    ensures
        before.push(x).map_values(f) == s.subrange(0, i + 1).map_values(f),
{
    let l = before.push(x).map_values(f);
    let r = s.subrange(0, i + 1).map_values(f);
    assert(before.map_values(f).len() == i);
    assert forall|j: int| 0 <= j < r.len() implies l[j] == r[j] by {
        assert(l[j] == f(before.push(x)[j]));
        assert(r[j] == f(s.subrange(0, i + 1)[j]));
        if j < i {
            assert(before.map_values(f)[j] == f(before[j]));
            assert(s.subrange(0, i).map_values(f)[j] == f(s.subrange(0, i)[j]));
            assert(before.map_values(f)[j] == s.subrange(0, i).map_values(f)[j]);
            assert(before.push(x)[j] == before[j]);
            assert(s.subrange(0, i)[j] == s[j]);
            assert(s.subrange(0, i + 1)[j] == s[j]);
        } else {
            assert(before.push(x)[j] == x);
            assert(s.subrange(0, i + 1)[j] == s[i]);
        }
    }
    assert(l =~= r);
}

/// The character views of a sequence of strings.
pub open spec fn strs(v: Seq<String>) -> Seq<Seq<char>> {
    v.map_values(|s: String| s@)
}

/// A copy of a vector of strings.
pub fn copy_strings(v: &Vec<String>) -> (r: Vec<String>)
    ensures
        r@ == v@,
{
    let r = v.clone();
    assert forall|i: int| 0 <= i < v.len() implies r@[i] == v@[i] by {
        assert(cloned::<String>(v[i], r[i]));
    }
    assert(r@ =~= v@);
    r
}

/// Whether some string of `v` equals `k`.
pub fn strings_contain(v: &Vec<String>, k: &str) -> (r: bool)
    ensures
        r == exists|i: int| 0 <= i < v.len() && v@[i]@ == k@,
{
    let mut i: usize = 0;
    while i < v.len()
        invariant
            i <= v.len(),
            forall|j: int| 0 <= j < i ==> v@[j]@ != k@,
        decreases v.len() - i,
    {
        if str_eq(v[i].as_str(), k) {
            return true;
        }
        i = i + 1;
    }
    false
}

} // verus!

verus! {

/// In valid UTF-8, an ASCII byte starts a character and the byte after it
/// does too.
pub proof fn lemma_ascii_boundary(b: Seq<u8>, i: int)
    requires
        vstd::utf8::valid_utf8(b),
        0 <= i < b.len(),
        b[i] < 0x80,
    ensures
        vstd::utf8::is_char_boundary(b, i),
        vstd::utf8::is_char_boundary(b, i + 1),
    decreases b.len(),
{
    let k = vstd::utf8::length_of_first_scalar(b);
    let rest = vstd::utf8::pop_first_scalar(b);
    assert(rest.len() == b.len() - k);
    if i < k {
        assert(i == 0);
        assert(k == 1);
        vstd::utf8::is_char_boundary_start_end_of_seq(rest);
        assert(vstd::utf8::is_char_boundary(rest, 0));
    } else {
        assert(rest[i - k] == b[i]);
        lemma_ascii_boundary(rest, i - k);
    }
}

} // verus!

verus! {

/// The bytes of a string slice are valid UTF-8 and encode its characters.
pub proof fn lemma_str_utf8(s: &str)
    ensures
        vstd::utf8::valid_utf8(sbytes(s)),
        sbytes(s) == vstd::utf8::encode_utf8(s@),
        vstd::utf8::decode_utf8(sbytes(s)) == s@,
{
    assert(sbytes(s) == vstd::utf8::encode_utf8(s@));
    vstd::utf8::encode_utf8_valid_utf8(s@);
    vstd::utf8::encode_utf8_decode_utf8(s@);
}

} // verus!
