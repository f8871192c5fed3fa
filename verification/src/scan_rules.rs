//! The rules the scanner applies around each match: which templates concern
//! reentrancy, which contexts are known-safe library or oracle code, which
//! sources are libraries, and which Solidity version a source declares.
use vstd::prelude::*;
use vstd::string::StrSliceExecFns;
use crate::text::{contains, str_has, str_eq, str_slice, sbytes, owned, str_trim, str_trim_start, trimmed, trim_start_ws, occurs_at, lemma_str_utf8};
use crate::pattern_match::{fancy_is_match, fancy_valid, fancy_match_result, fancy_first_capture, fancy_first_group};

verus! {

/// Names of reentrancy protections.
pub const REENTRANCY_GUARD_PATTERN: &'static str = "\\b(nonReentrant|ReentrancyGuard|noReentrancy|lock|mutex)\\b";
/// Names of access-control protections.
pub const ACCESS_CONTROL_PATTERN: &'static str = "\\b(onlyOwner|onlyRole|onlyAdmin|requireOwner|requireRole|AccessControl|Ownable|auth|authorized)\\b";
/// Names of pause protections.
pub const PAUSABLE_PATTERN: &'static str = "\\b(whenNotPaused|whenPaused|Pausable|notPaused)\\b";
/// Calls of OpenZeppelin's `Address` library.
pub const OZ_ADDRESS_LIB_PATTERN: &'static str = "(sendValue|functionCall|functionCallWithValue|functionStaticCall|functionDelegateCall)\\s*\\(";
/// Names used by proxy contracts.
pub const PROXY_PATTERN: &'static str = "\\b(Proxy|ERC1967|TransparentUpgradeable|BeaconProxy|_implementation|_delegate|_fallback)\\b";
/// Names used by NFT contracts.
pub const SAFE_NFT_PATTERN: &'static str = "\\b(ERC721|ERC1155|_mint|_burn|_transfer|_safeMint|tokenId|balanceOf)\\b";
/// Block time and number.
pub const TIMESTAMP_PATTERN: &'static str = "\\b(block\\.timestamp|block\\.number|now)\\b";
/// A version pragma; group 1 is the version requirement.
pub const PRAGMA_PATTERN: &'static str = "pragma\\s+solidity\\s+([^;]+);";
/// A `major.minor` version; groups 1 and 2 are the numbers.
pub const VERSION_PATTERN: &'static str = "(\\d+)\\.(\\d+)";

/// The pattern `p` compiles and matches somewhere in `t` without a matching error.
pub open spec fn fancy_hit(p: Seq<char>, t: Seq<char>) -> bool {
    fancy_valid(p) && fancy_match_result(p, t) == Some(true)
}

/// Whether `pattern` matches in `text`; a pattern that does not compile and a
/// matching error both count as no match.
pub fn fancy_matches(pattern: &str, text: &str) -> (r: bool)
    ensures
        r == fancy_hit(pattern@, text@),
{
    match fancy_is_match(pattern, text) {
        Some(Some(found)) => found,
        _ => false,
    }
}

/// A template whose id mentions reentrancy, external calls or low-level calls.
pub open spec fn is_reentrancy_template(id: Seq<char>) -> bool {
    str_has(id, "reentrancy"@) || str_has(id, "external-call"@) || str_has(id, "low-level-call"@)
}

/// Whether the template `template_id` is about reentrancy.
pub fn is_reentrancy_pattern(template_id: &str) -> (r: bool)
    ensures
        r == is_reentrancy_template(template_id@),
{
    contains(template_id, "reentrancy") || contains(template_id, "external-call") || contains(template_id, "low-level-call")
}

/// Contexts known to be safe: OpenZeppelin's `Address` helpers, Chainlink
/// oracles, diamond proxies, proxy and NFT plumbing, and block time reads.
pub open spec fn filtered_context(c: Seq<char>) -> bool {
    ||| str_has(c, "function sendValue(address payable recipient, uint256 amount) internal"@)
    ||| str_has(c, "Address: insufficient balance"@)
    ||| str_has(c, "Address: unable to send value"@)
    ||| str_has(c, "interface AggregatorV3Interface"@)
    ||| str_has(c, "EACAggregatorProxy"@)
    ||| str_has(c, "function latestRoundData()"@)
    ||| str_has(c, "ds.selectorToFacetAndPosition"@)
    ||| str_has(c, "LibDiamond"@)
    ||| str_has(c, "IDiamondCut"@)
    ||| fancy_hit(OZ_ADDRESS_LIB_PATTERN@, c)
    ||| fancy_hit(PROXY_PATTERN@, c)
    ||| (fancy_hit(SAFE_NFT_PATTERN@, c) && (str_has(c, "_mint"@) || str_has(c, "_burn"@) || str_has(c, "_transfer"@)))
    ||| fancy_hit(TIMESTAMP_PATTERN@, c)
}

/// Whether a match in `context` is marked as filtered.
pub fn check_filtered(context: &str) -> (r: bool)
    ensures
        r == filtered_context(context@),
{
    if contains(context, "function sendValue(address payable recipient, uint256 amount) internal") {
        return true;
    }
    if contains(context, "Address: insufficient balance") || contains(context, "Address: unable to send value") {
        return true;
    }
    if contains(context, "interface AggregatorV3Interface") || contains(context, "EACAggregatorProxy")
        || contains(context, "function latestRoundData()")
    {
        return true;
    }
    if contains(context, "ds.selectorToFacetAndPosition") || contains(context, "LibDiamond")
        || contains(context, "IDiamondCut")
    {
        return true;
    }
    if fancy_matches(OZ_ADDRESS_LIB_PATTERN, context) {
        return true;
    }
    if fancy_matches(PROXY_PATTERN, context) {
        return true;
    }
    if fancy_matches(SAFE_NFT_PATTERN, context) {
        if contains(context, "_mint") || contains(context, "_burn") || contains(context, "_transfer") {
            return true;
        }
    }
    fancy_matches(TIMESTAMP_PATTERN, context)
}

/// Library code (a `library` or abstract contract) attributed to OpenZeppelin
/// or Solady.
pub open spec fn is_library_source(s: Seq<char>) -> bool {
    (str_has(s, "library "@) || str_has(s, "abstract contract"@)) && (str_has(s, "@openzeppelin"@)
        || str_has(s, "OpenZeppelin"@) || str_has(s, "@solady"@) || str_has(s, "Solady"@))
}

/// Whether `source` is OpenZeppelin or Solady library code.
pub fn is_openzeppelin_library(source: &str) -> (r: bool)
    ensures
        r == is_library_source(source@),
{
    let has_library_indicators = contains(source, "library ") || contains(source, "abstract contract");
    let has_oz_attribution = contains(source, "@openzeppelin") || contains(source, "OpenZeppelin");
    let has_solady_attribution = contains(source, "@solady") || contains(source, "Solady");
    has_library_indicators && (has_oz_attribution || has_solady_attribution)
}


/// Whether the characters of `s` begin with those of `p`.
pub fn starts_with_chars(s: &str, p: &str) -> (r: bool)
    ensures
        r == (p@.len() <= s@.len() && s@.subrange(0, p@.len() as int) == p@),
{
    let n = s.unicode_len();
    let k = p.unicode_len();
    if k > n {
        return false;
    }
    str_eq(s.substring_char(0, k), p)
}

/// In library code, a match that is safe: inside a comment, in an `unchecked`
/// block, or a `delegatecall` of a proxy.
pub open spec fn is_safe_library_match(src: Seq<char>, c: Seq<char>, m: Seq<char>) -> bool {
    let t = trim_start_ws(c);
    &&& is_library_source(src)
    &&& {
        ||| (2 <= t.len() && t.subrange(0, 2) == "//"@)
        ||| (1 <= t.len() && t.subrange(0, 1) == "*"@)
        ||| (m == "unchecked"@ && str_has(c, "unchecked {"@))
        ||| (m == "delegatecall"@ && (str_has(c, "let result := delegatecall"@) || str_has(c, "target.delegatecall(data)"@)
            || str_has(c, "functionDelegateCall"@) || str_has(c, "_implementation"@) || str_has(c, "Proxy"@)
            || str_has(c, "@dev This abstract contract"@)))
    }
}

/// Whether a match of `matched_text` in `context` of the library `source` is safe.
pub fn is_openzeppelin_safe_pattern(source: &str, context: &str, matched_text: &str) -> (r: bool)
    ensures
        r == is_safe_library_match(source@, context@, matched_text@),
{
    if !is_openzeppelin_library(source) {
        return false;
    }
    let trimmed_ctx = str_trim_start(context);
    proof {
        reveal_strlit("//");
        reveal_strlit("*");
    }
    if starts_with_chars(trimmed_ctx, "//") || starts_with_chars(trimmed_ctx, "*") {
        return true;
    }
    if str_eq(matched_text, "unchecked") && contains(context, "unchecked {") {
        return true;
    }
    if str_eq(matched_text, "delegatecall") {
        if contains(context, "let result := delegatecall") {
            return true;
        }
        if contains(context, "target.delegatecall(data)") || contains(context, "functionDelegateCall") {
            return true;
        }
        if contains(context, "_implementation") || contains(context, "Proxy")
            || contains(context, "@dev This abstract contract")
        {
            return true;
        }
    }
    false
}

/// The decoded text of bytes `span` of `b`.
pub open spec fn span_text(b: Seq<u8>, s: (nat, nat)) -> Seq<char> {
    vstd::utf8::decode_utf8(b.subrange(s.0 as int, s.1 as int))
}

/// The version requirement of the first `pragma solidity` of a source, trimmed.
pub open spec fn solidity_version_of(s: Seq<char>) -> Option<Seq<char>> {
    if !fancy_valid(PRAGMA_PATTERN@) {
        None
    } else {
        match fancy_first_group(PRAGMA_PATTERN@, s, 1) {
            Some(Some(sp)) => Some(trimmed(span_text(vstd::utf8::encode_utf8(s), sp))),
            _ => None,
        }
    }
}

/// The version requirement declared by the source's `pragma solidity`.
pub fn extract_solidity_version(source: &str) -> (r: Option<String>)
    ensures
        match r {
            Some(v) => solidity_version_of(source@) == Some(v@),
            None => solidity_version_of(source@) is None,
        },
{
    proof {
        lemma_str_utf8(source);
    }
    match fancy_first_capture(PRAGMA_PATTERN, source, 1) {
        Some(Some(Some((a, b)))) => {
            let t = str_slice(source, a, b);
            proof {
                lemma_str_utf8(t);
            }
            Some(owned(str_trim(t)))
        },
        _ => None,
    }
}

/// The value of ASCII decimal digits `d`.
pub open spec fn digits_value(d: Seq<u8>) -> nat
    decreases d.len(),
{
    if d.len() == 0 {
        0
    } else {
        digits_value(d.drop_last()) * 10 + (d.last() - 48) as nat
    }
}

/// All bytes of `d` are ASCII digits.
pub open spec fn all_digits(d: Seq<u8>) -> bool {
    forall|i: int| 0 <= i < d.len() ==> 48 <= #[trigger] d[i] <= 57
}

/// What `u32::from_str` gives for the bytes `b`: an optional `+` and at least
/// one ASCII digit, with a value that fits.
pub open spec fn u32_value(b: Seq<u8>) -> Option<nat> {
    let d = if b.len() > 0 && b[0] == 43u8 { b.subrange(1, b.len() as int) } else { b };
    if d.len() > 0 && all_digits(d) && digits_value(d) <= u32::MAX {
        Some(digits_value(d))
    } else {
        None
    }
}

proof fn lemma_digits_value_mono(d: Seq<u8>, k: int)
    requires
        0 <= k <= d.len(),
        all_digits(d),
    ensures
        digits_value(d.subrange(0, k)) <= digits_value(d),
    decreases d.len() - k,
{
    if k < d.len() {
        lemma_digits_value_mono(d, k + 1);
        assert(d.subrange(0, k + 1).drop_last() =~= d.subrange(0, k));
    } else {
        assert(d.subrange(0, k) =~= d);
    }
}

/// `str::parse::<u32>`.
pub fn parse_u32(s: &str) -> (r: Option<u32>)
    ensures
        match r {
            Some(v) => u32_value(sbytes(s)) == Some(v as nat),
            None => u32_value(sbytes(s)) is None,
        },
{
    let b = s.as_bytes();
    let start: usize = if b.len() > 0 && b[0] == 43u8 { 1 } else { 0 };
    let ghost d = if b@.len() > 0 && b@[0] == 43u8 { b@.subrange(1, b@.len() as int) } else { b@ };
    assert(d =~= b@.subrange(start as int, b@.len() as int));
    assert(u32_value(b@) == if d.len() > 0 && all_digits(d) && digits_value(d) <= u32::MAX {
        Some(digits_value(d))
    } else {
        None
    });
    if start >= b.len() {
        return None;
    }
    let mut v: u64 = 0;
    let mut i = start;
    while i < b.len()
        invariant
            start <= i <= b.len(),
            d == b@.subrange(start as int, b@.len() as int),
            b@ == sbytes(s),
            u32_value(b@) == if d.len() > 0 && all_digits(d) && digits_value(d) <= u32::MAX {
                Some(digits_value(d))
            } else {
                None
            },
            all_digits(d.subrange(0, i - start)),
            v == digits_value(d.subrange(0, i - start)),
            v <= u32::MAX,
        decreases b.len() - i,
    {
        let c = b[i];
        assert(d.subrange(0, i + 1 - start).drop_last() =~= d.subrange(0, i - start));
        if c < 48 || c > 57 {
            assert(d[i - start] == c);
            assert(!all_digits(d));
            assert(u32_value(b@) is None);
            return None;
        }
        let nv = v * 10 + (c - 48) as u64;
        if nv > 4294967295 {
            proof {
                assert(all_digits(d.subrange(0, i + 1 - start)));
                if all_digits(d) {
                    lemma_digits_value_mono(d, i + 1 - start);
                }
                assert(u32_value(b@) is None);
            }
            return None;
        }
        v = nv;
        i = i + 1;
    }
    assert(d.subrange(0, i - start) =~= d);
    Some(v as u32)
}

/// The version requirement allows `0.8` or later: its first `major.minor`
/// has a major above 0 or a minor of at least 8.
pub open spec fn version_at_least_0_8(version: Option<Seq<char>>) -> bool {
    match version {
        None => false,
        Some(t) => {
            let b = vstd::utf8::encode_utf8(t);
            fancy_valid(VERSION_PATTERN@) && match (fancy_first_group(VERSION_PATTERN@, t, 1), fancy_first_group(VERSION_PATTERN@, t, 2)) {
                (Some(Some(a)), Some(Some(c))) => match (u32_value(b.subrange(a.0 as int, a.1 as int)), u32_value(b.subrange(c.0 as int, c.1 as int))) {
                    (Some(major), Some(minor)) => major > 0 || minor >= 8,
                    _ => false,
                },
                _ => false,
            }
        },
    }
}

/// Whether the version requirement allows only compilers with checked
/// arithmetic (0.8 or later).
pub fn is_version_gte_0_8(version: &Option<String>) -> (r: bool)
    ensures
        r == version_at_least_0_8(match version {
            Some(v) => Some(v@),
            None => None,
        }),
{
    let v = match version {
        Some(v) => v.as_str(),
        None => return false,
    };
    proof {
        lemma_str_utf8(v);
    }
    let major = match fancy_first_capture(VERSION_PATTERN, v, 1) {
        Some(Some(Some((a, b)))) => parse_u32(str_slice(v, a, b)),
        _ => return false,
    };
    let minor = match fancy_first_capture(VERSION_PATTERN, v, 2) {
        Some(Some(Some((a, b)))) => parse_u32(str_slice(v, a, b)),
        _ => return false,
    };
    match (major, minor) {
        (Some(maj), Some(min)) => maj > 0 || min >= 8,
        _ => false,
    }
}

} // verus!
