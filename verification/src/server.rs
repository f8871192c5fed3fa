//! The address the local service listens on and the origin clients use.
use vstd::prelude::*;
use vstd::string::StrSliceExecFns;
use crate::text::{str_trim, trimmed, owned, push_str, str_eq};

verus! {

/// The address used when none is configured.
pub const DEFAULT_SERVER_ADDR: &'static str = "127.0.0.1:32145";

/// The environment variable that names the server address.
pub const SERVER_ADDR_ENV_VAR: &'static str = "SCPF_SERVER_ADDR";

/// The address the server binds and the origin of its URLs.
#[derive(Debug, Clone, PartialEq, Eq)]
pub struct ServerConfig {
    pub addr: String,
    pub origin: String,
}

/// `s` with every leading repetition of the non-empty `p` removed.
pub open spec fn strip_all_prefix(s: Seq<char>, p: Seq<char>) -> Seq<char>
    decreases s.len(),
{
    if p.len() > 0 && p.len() <= s.len() && s.subrange(0, p.len() as int) == p {
        strip_all_prefix(s.subrange(p.len() as int, s.len() as int), p)
    } else {
        s
    }
}

/// `s` with every trailing `c` removed.
pub open spec fn strip_all_suffix_char(s: Seq<char>, c: char) -> Seq<char>
    decreases s.len(),
{
    if s.len() > 0 && s.last() == c {
        strip_all_suffix_char(s.drop_last(), c)
    } else {
        s
    }
}

/// The address text without surrounding white space, leading `http://` and
/// trailing slashes.
pub open spec fn server_addr_text(addr: Seq<char>) -> Seq<char> {
    strip_all_suffix_char(strip_all_prefix(trimmed(addr), "http://"@), '/')
}

/// The origin for an address text, using the socket address's own display
/// when the text parses as one.
pub open spec fn server_origin_of(addr: Seq<char>, socket_display: Option<Seq<char>>) -> Seq<char> {
    "http://"@ + match socket_display {
        Some(d) => d,
        None => server_addr_text(addr),
    }
}

/// `s` with every leading repetition of `p` removed (`str::trim_start_matches`).
pub fn trim_start_matches_str<'a>(s: &'a str, p: &str) -> (r: &'a str)
    ensures
        r@ == strip_all_prefix(s@, p@),
{
    let plen = p.unicode_len();
    let mut cur = s;
    if plen == 0 {
        return cur;
    }
    loop
        invariant
            plen == p@.len(),
            plen > 0,
            strip_all_prefix(cur@, p@) == strip_all_prefix(s@, p@),
        decreases cur@.len(),
    {
        let n = cur.unicode_len();
        if n < plen {
            return cur;
        }
        let head = cur.substring_char(0, plen);
        if !str_eq(head, p) {
            return cur;
        }
        cur = cur.substring_char(plen, n);
    }
}

/// `s` with every trailing `c` removed (`str::trim_end_matches` with a character).
pub fn trim_end_matches_char<'a>(s: &'a str, c: char) -> (r: &'a str)
    ensures
        r@ == strip_all_suffix_char(s@, c),
{
    let mut n = s.unicode_len();
    assert(s@.subrange(0, n as int) =~= s@);
    while n > 0 && s.get_char(n - 1) == c
        invariant
            n <= s@.len(),
            strip_all_suffix_char(s@.subrange(0, n as int), c) == strip_all_suffix_char(s@, c),
        decreases n,
    {
        assert(s@.subrange(0, n - 1) =~= s@.subrange(0, n as int).drop_last());
        n = n - 1;
    }
    s.substring_char(0, n)
}

/// The address text a server address stands for: without surrounding white
/// space, leading `http://` and trailing slashes.
pub fn server_addr_text_of(addr: &str) -> (r: &str)
    ensures
        r@ == server_addr_text(addr@),
{
    let t = str_trim(addr);
    let t = trim_start_matches_str(t, "http://");
    trim_end_matches_char(t, '/')
}

/// The configuration for the server address `addr`. `socket_display` is how
/// the address text (`server_addr_text_of(addr)`) prints once parsed as a
/// socket address, or `None` when it does not parse as one.
pub fn server_config_from_addr(addr: &str, socket_display: Option<&str>) -> (r: ServerConfig)
    ensures
        r.addr@ == addr@,
        r.origin@ == server_origin_of(addr@, match socket_display {
            Some(d) => Some(d@),
            None => None,
        }),
{
    let mut origin = owned("http://");
    match socket_display {
        Some(d) => push_str(&mut origin, d),
        None => push_str(&mut origin, server_addr_text_of(addr)),
    }
    ServerConfig { addr: owned(addr), origin }
}

} // verus!
