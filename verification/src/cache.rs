//! Where the on-disk cache keeps an entry and when an entry has expired. The
//! file reads and writes are done by the caller.
use vstd::prelude::*;
use crate::text::{owned, push_char, sbytes};
use crate::runtime_env::{join_path, join_spec};

verus! {

/// The time an entry stays valid by default: one day, in seconds.
pub const DEFAULT_TTL_SECS: u64 = 86400;

/// What `xxh3_64` computes from a byte string.
pub uninterp spec fn xxh3_hash(b: Seq<u8>) -> u64;

/// `xxhash_rust::xxh3::xxh3_64`: the 64-bit XXH3 hash of the bytes. Its
/// result is named by `xxh3_hash`; only that is stated.
#[verifier::external_body]
fn xxh3_64_of(b: &[u8]) -> (r: u64)
    ensures
        r == xxh3_hash(b@),
{
    xxhash_rust::xxh3::xxh3_64(b)
}

/// The lower-case hexadecimal digit for `d` (below 16).
pub open spec fn hex_digit(d: nat) -> char {
    if d < 10 {
        ((d + 48) as u8) as char
    } else {
        ((d - 10 + 97) as u8) as char
    }
}

/// The lower-case hexadecimal form of `n`, without leading zeros (`{:x}`).
pub open spec fn hex(n: nat) -> Seq<char>
    decreases n,
{
    if n < 16 {
        seq![hex_digit(n)]
    } else {
        hex(n / 16).push(hex_digit(n % 16))
    }
}

fn hex_digit_of(d: u64) -> (c: char)
    requires
        d < 16,
    ensures
        c == hex_digit(d as nat),
{
    if d < 10 {
        ((d as u8) + 48) as char
    } else {
        ((d as u8) - 10 + 97) as char
    }
}

/// Appends the lower-case hexadecimal form of `n`.
pub fn push_hex(s: &mut String, n: u64)
    ensures
        final(s)@ == old(s)@ + hex(n as nat),
    decreases n,
{
    if n >= 16 {
        push_hex(s, n / 16);
    }
    let c = hex_digit_of(n % 16);
    push_char(s, c);
    proof {
        if n >= 16 {
            assert(hex(n as nat) == hex((n / 16) as nat).push(hex_digit((n % 16) as nat)));
        } else {
            assert(hex(n as nat) == seq![hex_digit(n as nat)]);
        }
    }
}

/// A cache directory and how long its entries stay valid, in nanoseconds.
#[derive(Debug, Clone)]
pub struct Cache {
    pub cache_dir: String,
    pub ttl_nanos: u128,
}

impl Cache {
    /// A cache in `cache_dir` whose entries stay valid for a day.
    pub fn new(cache_dir: String) -> (r: Self)
        ensures
            r.cache_dir@ == cache_dir@,
            r.ttl_nanos == DEFAULT_TTL_SECS as u128 * 1_000_000_000,
    {
        Cache { cache_dir, ttl_nanos: DEFAULT_TTL_SECS as u128 * 1_000_000_000 }
    }

    /// A cache in `cache_dir` whose entries stay valid for `ttl_nanos` nanoseconds.
    pub fn with_ttl(cache_dir: String, ttl_nanos: u128) -> (r: Self)
        ensures
            r.cache_dir@ == cache_dir@,
            r.ttl_nanos == ttl_nanos,
    {
        Cache { cache_dir, ttl_nanos }
    }

    /// The file of the entry for `key`: the hexadecimal XXH3 hash of the key's
    /// bytes, in the cache directory (joined with `sep`).
    pub fn cache_path(&self, key: &str, sep: char) -> (r: String)
        ensures
            r@ == join_spec(self.cache_dir@, hex(xxh3_hash(sbytes(key)) as nat), sep),
    {
        let h = xxh3_64_of(key.as_bytes());
        let mut name = String::new();
        push_hex(&mut name, h);
        assert(name@ =~= hex(h as nat));
        join_path(self.cache_dir.as_str(), name.as_str(), sep)
    }

    /// Whether an entry last written `elapsed_nanos` ago has expired: when
    /// more time than the entry's validity has passed.
    pub fn is_expired(&self, elapsed_nanos: u128) -> (r: bool)
        ensures
            r == (elapsed_nanos > self.ttl_nanos),
    {
        elapsed_nanos > self.ttl_nanos
    }
}

} // verus!
