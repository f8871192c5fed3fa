//! The explorer API side of fetching contracts: which addresses are valid,
//! the request URLs, how a source-code reply is read (including the
//! multi-file JSON form of verified sources), and the paging of recently
//! deployed contracts. Sending the requests is done by the caller, which
//! hands each reply's text back.
use vstd::prelude::*;
use vstd::string::StrSliceExecFns;
use crate::text::{owned, push_str, push_decimal_u64, decimal, str_trim, trimmed, sbytes, contains, str_has, str_eq, strs};
use crate::scan_rules::starts_with_chars;
use crate::types::{Chain, chain_name, chain_id_of};

verus! {

/// The Etherscan v2 endpoint, shared by all chains.
pub const API_BASE_URL: &'static str = "https://api.etherscan.io/v2/api";

/// An address is a `0x` followed by 40 more bytes.
pub open spec fn valid_address(a: &str) -> bool {
    a@.len() >= 2 && a@.subrange(0, 2) == "0x"@ && sbytes(a).len() == 42
}

/// Whether `address` has the form of a contract address.
pub fn is_valid_address(address: &str) -> (r: bool)
    ensures
        r == valid_address(address),
{
    proof {
        reveal_strlit("0x");
    }
    starts_with_chars(address, "0x") && address.as_bytes().len() == 42
}

/// The source-code request for `address` on `chain` with API key `key`.
pub open spec fn source_url(address: Seq<char>, chain: Chain, key: Seq<char>) -> Seq<char> {
    API_BASE_URL@ + "?chainid="@ + decimal(chain_id_of(chain) as nat) + "&module=contract&action=getsourcecode&address="@
        + address + "&apikey="@ + key
}

/// The request for the source code of `address` on `chain` with API key `key`.
pub fn build_url_with_key(address: &str, chain: Chain, key: &str) -> (r: String)
    ensures
        r@ == source_url(address@, chain, key@),
{
    let mut url = owned(API_BASE_URL);
    push_str(&mut url, "?chainid=");
    push_decimal_u64(&mut url, chain.chain_id());
    push_str(&mut url, "&module=contract&action=getsourcecode&address=");
    push_str(&mut url, address);
    push_str(&mut url, "&apikey=");
    push_str(&mut url, key);
    url
}

/// The request for the last block before `timestamp` on `chain`.
pub fn build_block_url(chain: Chain, timestamp: u64, key: &str) -> (r: String)
    ensures
        r@ == API_BASE_URL@ + "?chainid="@ + decimal(chain_id_of(chain) as nat)
            + "&module=block&action=getblocknobytime&timestamp="@ + decimal(timestamp as nat) + "&closest=before&apikey="@
            + key@,
{
    let mut url = owned(API_BASE_URL);
    push_str(&mut url, "?chainid=");
    push_decimal_u64(&mut url, chain.chain_id());
    push_str(&mut url, "&module=block&action=getblocknobytime&timestamp=");
    push_decimal_u64(&mut url, timestamp);
    push_str(&mut url, "&closest=before&apikey=");
    push_str(&mut url, key);
    url
}

/// The topic of ownership-transfer events, which new contracts emit.
pub const OWNERSHIP_TOPIC: &'static str = "0x8be0079c531659141344cd1fd0a4f28419497f9722a3daafe3b4186f6b6457e0";

/// The request for page `page` (100 logs each) of ownership-transfer logs
/// from block `from_block` on.
pub fn build_logs_url(chain: Chain, from_block: &str, page: u64, key: &str) -> (r: String)
    ensures
        r@ == API_BASE_URL@ + "?chainid="@ + decimal(chain_id_of(chain) as nat) + "&module=logs&action=getLogs&fromBlock="@
            + from_block@ + "&toBlock=latest&topic0="@ + OWNERSHIP_TOPIC@ + "&page="@ + decimal(page as nat)
            + "&offset=100&apikey="@ + key@,
{
    let mut url = owned(API_BASE_URL);
    push_str(&mut url, "?chainid=");
    push_decimal_u64(&mut url, chain.chain_id());
    push_str(&mut url, "&module=logs&action=getLogs&fromBlock=");
    push_str(&mut url, from_block);
    push_str(&mut url, "&toBlock=latest&topic0=");
    push_str(&mut url, OWNERSHIP_TOPIC);
    push_str(&mut url, "&page=");
    push_decimal_u64(&mut url, page);
    push_str(&mut url, "&offset=100&apikey=");
    push_str(&mut url, key);
    url
}

/// What the JSON text `t` holds under `sources` when it parses and that is an
/// object: each file name with its `content` when that is a string, in the
/// object's key order.
pub uninterp spec fn json_source_files(t: Seq<char>) -> Option<Option<Seq<(Seq<char>, Option<Seq<char>>)>>>;

/// `serde_json::from_str` into a `Value`, then the entries of its `sources`
/// object with each entry's `content` string. `None` when the text does not
/// parse, `Some(None)` when `sources` is not an object. Its result is named by
/// `json_source_files`; only that is stated.
#[verifier::external_body]
fn source_files_of(t: &str) -> (r: Option<Option<Vec<(String, Option<String>)>>>)
    ensures
        json_source_files(t@) == match r {
            None => None,
            Some(None) => Some(None),
            Some(Some(v)) => Some(Some(v@.map_values(|e: (String, Option<String>)| (e.0@, match e.1 {
                Some(c) => Some(c@),
                None => None,
            })))),
        },
{
    let v: serde_json::Value = serde_json::from_str(t).ok()?;
    Some(v["sources"].as_object().map(|m| m.iter().map(|(k, f)| (k.clone(), f["content"].as_str().map(String::from))).collect()))
}

/// The files with string content, each as a header line with its name, its
/// content and a blank line.
pub open spec fn combined_files(fs: Seq<(Seq<char>, Option<Seq<char>>)>) -> Seq<char>
    decreases fs.len(),
{
    if fs.len() == 0 {
        Seq::empty()
    } else {
        combined_files(fs.drop_last()) + match fs.last().1 {
            Some(c) => "// File: "@ + fs.last().0 + "\n"@ + c + "\n\n"@,
            None => Seq::empty(),
        }
    }
}

/// The text to parse as JSON: the trimmed source, with one pair of braces
/// removed where it is wrapped in two.
pub open spec fn normalized_source(s: Seq<char>) -> Seq<char> {
    let t = trimmed(s);
    if t.len() >= 2 && t.subrange(0, 2) == "{{"@ && t.len() >= 2 && t.subrange(t.len() - 2, t.len() as int) == "}}"@ {
        t.subrange(1, t.len() - 1)
    } else {
        t
    }
}

/// The Solidity source of an explorer's `SourceCode` field: for the JSON
/// form, every file with content, each after a header naming it; otherwise
/// the field itself.
pub open spec fn source_of(s: Seq<char>) -> Seq<char> {
    let n = normalized_source(s);
    if n.len() > 0 && n[0] == '{' {
        match json_source_files(n) {
            Some(Some(fs)) => if combined_files(fs).len() > 0 { combined_files(fs) } else { s },
            _ => s,
        }
    } else {
        s
    }
}

/// The view of a file list: names with their content, if any.
pub open spec fn files_view(files: Seq<(String, Option<String>)>) -> Seq<(Seq<char>, Option<Seq<char>>)> {
    files.map_values(|e: (String, Option<String>)| (e.0@, match e.1 {
        Some(c) => Some(c@),
        None => None,
    }))
}

/// The files with string content one after the other, each after a header
/// line naming it and followed by a blank line.
pub fn combine_source_files(files: &Vec<(String, Option<String>)>) -> (r: String)
    ensures
        r@ == combined_files(files_view(files@)),
{
    let ghost fv = files_view(files@);
    let mut combined = String::new();
    let mut i: usize = 0;
    while i < files.len()
        invariant
            i <= files.len(),
            fv == files_view(files@),
            combined@ == combined_files(fv.take(i as int)),
        decreases files.len() - i,
    {
        assert(fv.take(i + 1).drop_last() =~= fv.take(i as int));
        match &files[i].1 {
            Some(c) => {
                push_str(&mut combined, "// File: ");
                push_str(&mut combined, files[i].0.as_str());
                push_str(&mut combined, "\n");
                push_str(&mut combined, c.as_str());
                push_str(&mut combined, "\n\n");
            },
            None => {},
        }
        assert(combined@ =~= combined_files(fv.take(i + 1)));
        i = i + 1;
    }
    assert(fv.take(i as int) =~= fv);
    combined
}

fn ends_with_chars(s: &str, p: &str) -> (r: bool)
    ensures
        r == (p@.len() <= s@.len() && s@.subrange(s@.len() - p@.len(), s@.len() as int) == p@),
{
    let n = s.unicode_len();
    let k = p.unicode_len();
    if k > n {
        return false;
    }
    str_eq(s.substring_char(n - k, n), p)
}

/// Reads an explorer's `SourceCode` field. A multi-file JSON source (with or
/// without a `language` field, and possibly wrapped in double braces) becomes
/// its files one after the other; anything else is kept as it is.
pub fn parse_source_code(source_code: &str) -> (r: String)
    ensures
        r@ == source_of(source_code@),
{
    proof {
        reveal_strlit("{{");
        reveal_strlit("}}");
    }
    let t = str_trim(source_code);
    let n = t.unicode_len();
    let normalized = if starts_with_chars(t, "{{") && ends_with_chars(t, "}}") {
        t.substring_char(1, n - 1)
    } else {
        t
    };
    assert(normalized@ == normalized_source(source_code@));
    if normalized.unicode_len() > 0 && normalized.get_char(0) == '{' {
        match source_files_of(normalized) {
            Some(Some(files)) => {
                let combined = combine_source_files(&files);
                if combined.unicode_len() > 0 {
                    return combined;
                }
            },
            _ => {},
        }
    }
    owned(source_code)
}

/// What a source-code reply's JSON text holds: its `status` and `message`
/// strings, and, when `result` is a non-empty array, its first element's
/// `SourceCode` string (itself absent when not a string); or, when the text
/// does not parse, the parse error's text.
pub uninterp spec fn source_reply_fields(t: Seq<char>) -> Result<(Option<Seq<char>>, Option<Seq<char>>, Option<Option<Seq<char>>>), Seq<char>>;

/// `serde_json::from_str` into a `Value`, then the fields a source-code reply
/// is read by; when the text does not parse, the parse error's `Display`
/// text. Its result is named by `source_reply_fields`; only that is stated.
#[verifier::external_body]
fn source_reply_of(t: &str) -> (r: Result<(Option<String>, Option<String>, Option<Option<String>>), String>)
    ensures
        match r {
            Ok((s, m, src)) => source_reply_fields(t@) == Ok::<_, Seq<char>>((opt_view(s), opt_view(m), match src {
                Some(x) => Some(opt_view(x)),
                None => None,
            })),
            Err(why) => source_reply_fields(t@) == Err::<(Option<Seq<char>>, Option<Seq<char>>, Option<Option<Seq<char>>>), Seq<char>>(why@),
        },
{
    let v: serde_json::Value = serde_json::from_str(t).map_err(|e| e.to_string())?;
    let first = v["result"].as_array().and_then(|a| a.first()).map(|r| r["SourceCode"].as_str().map(String::from));
    Ok((v["status"].as_str().map(String::from), v["message"].as_str().map(String::from), first))
}

/// What a block-number reply's JSON text holds: its `status` string, the
/// `Debug` text of its `message` value, and its `result` string; or, when the
/// text does not parse, the parse error's text.
pub uninterp spec fn block_reply_fields(t: Seq<char>) -> Result<(Option<Seq<char>>, Seq<char>, Option<Seq<char>>), Seq<char>>;

/// `serde_json::from_str` into a `Value`, then the fields a block-number
/// reply is read by; when the text does not parse, the parse error's
/// `Display` text. Its result is named by `block_reply_fields`; only that is
/// stated.
#[verifier::external_body]
fn block_reply_of(t: &str) -> (r: Result<(Option<String>, String, Option<String>), String>)
    ensures
        match r {
            Ok((s, m, b)) => block_reply_fields(t@) == Ok::<_, Seq<char>>((opt_view(s), m@, opt_view(b))),
            Err(why) => block_reply_fields(t@) == Err::<(Option<Seq<char>>, Seq<char>, Option<Seq<char>>), Seq<char>>(why@),
        },
{
    let v: serde_json::Value = serde_json::from_str(t).map_err(|e| e.to_string())?;
    Ok((v["status"].as_str().map(String::from), format!("{:?}", v["message"]), v["result"].as_str().map(String::from)))
}

/// How a block-number reply reads: the block number, or why the next key is
/// tried.
pub open spec fn block_reply_outcome(f: Result<(Option<Seq<char>>, Seq<char>, Option<Seq<char>>), Seq<char>>) -> Result<Seq<char>, Seq<char>> {
    match f {
        Err(why) => Err("Failed to decode response: "@ + why),
        Ok((status, message, block)) => if status != Some("1"@) {
            Err("Failed to get block number: "@ + message)
        } else {
            match block {
                Some(b) => Ok(b),
                None => Err("No block number in response"@),
            }
        },
    }
}

/// Reads one key's block-number reply: the block to read logs from, or the
/// error (`Failed to decode response: ...`, `Failed to get block number:
/// ...` with the reply's message, or no block number).
pub fn read_block_reply(text: &str) -> (r: Result<String, String>)
    ensures
        match r {
            Ok(b) => block_reply_outcome(block_reply_fields(text@)) == Ok::<Seq<char>, Seq<char>>(b@),
            Err(e) => block_reply_outcome(block_reply_fields(text@)) == Err::<Seq<char>, Seq<char>>(e@),
        },
{
    match block_reply_of(text) {
        Err(why) => {
            let mut e = owned("Failed to decode response: ");
            push_str(&mut e, why.as_str());
            Err(e)
        },
        Ok((status, message, block)) => {
            let ok = match &status {
                Some(s) => str_eq(s.as_str(), "1"),
                None => false,
            };
            if !ok {
                let mut e = owned("Failed to get block number: ");
                push_str(&mut e, message.as_str());
                return Err(e);
            }
            match block {
                Some(b) => Ok(b),
                None => Err(owned("No block number in response")),
            }
        },
    }
}

/// The text of an optional string.
pub open spec fn opt_view(o: Option<String>) -> Option<Seq<char>> {
    match o {
        Some(s) => Some(s@),
        None => None,
    }
}

/// How one key's source-code reply that parsed reads: the source, or the
/// error that makes the next key be tried.
pub open spec fn source_reply_outcome(
    fields: (Option<Seq<char>>, Option<Seq<char>>, Option<Option<Seq<char>>>),
) -> Result<Seq<char>, Seq<char>> {
    match fields {
        (status, message, first) => if status != Some("1"@) {
            Err("API error: "@ + match message {
                Some(m) => m,
                None => "Unknown error"@,
            })
        } else {
            match first {
                None => Err("No result in API response"@),
                Some(None) => Err("Source code not found"@),
                Some(Some(src)) => Ok(source_of(src)),
            }
        },
    }
}

/// Reads one key's source-code reply: the contract's source, or the error
/// (`Parse error: ...` with the parser's words, `API error: ...`, no result,
/// no source code).
pub fn read_source_reply(text: &str) -> (r: Result<String, String>)
    ensures
        match source_reply_fields(text@) {
            Err(why) => r matches Err(e) && e@ == "Parse error: "@ + why,
            Ok(fields) => match source_reply_outcome(fields) {
                Ok(src) => r matches Ok(s) && s@ == src,
                Err(m) => r matches Err(e) && e@ == m,
            },
        },
{
    match source_reply_of(text) {
        Err(why) => {
            let mut e = owned("Parse error: ");
            push_str(&mut e, why.as_str());
            Err(e)
        },
        Ok((status, message, first)) => {
            let ok = match &status {
                Some(s) => str_eq(s.as_str(), "1"),
                None => false,
            };
            if !ok {
                let mut e = owned("API error: ");
                match &message {
                    Some(m) => push_str(&mut e, m.as_str()),
                    None => push_str(&mut e, "Unknown error"),
                }
                return Err(e);
            }
            match first {
                None => Err(owned("No result in API response")),
                Some(None) => Err(owned("Source code not found")),
                Some(Some(src)) => Ok(parse_source_code(src.as_str())),
            }
        },
    }
}

/// What a page of logs' JSON text holds: its `status` and `message` strings
/// and, when `result` is an array, each log's `address` string (absent when
/// not a string).
pub uninterp spec fn log_page_fields(t: Seq<char>) -> Option<(Option<Seq<char>>, Option<Seq<char>>, Option<Seq<Option<Seq<char>>>>)>;

/// `serde_json::from_str` into a `Value`, then the fields a page of logs is
/// read by; `None` when the text does not parse. Its result is named by
/// `log_page_fields`; only that is stated.
#[verifier::external_body]
fn log_page_of(t: &str) -> (r: Option<(Option<String>, Option<String>, Option<Vec<Option<String>>>)>)
    ensures
        log_page_fields(t@) == match r {
            None => None,
            Some((st, m, logs)) => Some((opt_view(st), opt_view(m), match logs {
                Some(v) => Some(v@.map_values(|a: Option<String>| opt_view(a))),
                None => None,
            })),
        },
{
    let v: serde_json::Value = serde_json::from_str(t).ok()?;
    let logs = v["result"].as_array().map(|l| l.iter().map(|x| x["address"].as_str().map(String::from)).collect());
    Some((v["status"].as_str().map(String::from), v["message"].as_str().map(String::from), logs))
}

/// Pages are fetched 100 logs at a time.
pub const LOGS_PER_PAGE: usize = 100;

/// The most pages fetched.
pub const MAX_PAGES: u64 = 100;

/// After this many failures in a row the paging rotates keys or stops.
pub const MAX_CONSECUTIVE_FAILURES: u32 = 5;

/// The paging through recently deployed contracts: which page to fetch next
/// with which key, and the addresses found so far.
pub struct LogPager {
    next_page: u64,
    max_pages: u64,
    failures: u32,
    key_shift: usize,
    start_key: usize,
    key_count: usize,
    stopped: bool,
    addresses: Vec<String>,
}

/// The paging state as plain values: the next page, the last page, the
/// failures in a row, how many keys it rotated past, the first key, the
/// number of keys, whether it stopped, and the addresses found.
pub struct PagerView {
    pub next_page: u64,
    pub max_pages: u64,
    pub failures: u32,
    pub key_shift: nat,
    pub start_key: nat,
    pub key_count: nat,
    pub stopped: bool,
    pub addresses: Set<Seq<char>>,
}

/// One failure more; stops at the limit.
pub open spec fn after_failure(v: PagerView) -> PagerView {
    let f = if v.failures < u32::MAX { (v.failures + 1) as u32 } else { v.failures };
    PagerView { failures: f, next_page: (v.next_page + 1) as u64, stopped: v.stopped || f >= MAX_CONSECUTIVE_FAILURES, ..v }
}

/// The state after a page could not be fetched (all retries failed): a
/// failure more; at the limit, the next key is taken (the failures start over
/// and the next page is fetched with it) while keys remain, else paging stops.
pub open spec fn after_fetch_failed(v: PagerView) -> PagerView {
    let f = if v.failures < u32::MAX { (v.failures + 1) as u32 } else { v.failures };
    let w = PagerView { failures: f, next_page: (v.next_page + 1) as u64, ..v };
    if f >= MAX_CONSECUTIVE_FAILURES {
        if v.key_count > 1 && v.key_shift + 1 < v.key_count {
            PagerView { failures: 0, key_shift: v.key_shift + 1, ..w }
        } else {
            PagerView { stopped: true, ..w }
        }
    } else {
        w
    }
}

/// Whether a page's message says there are no more results.
pub open spec fn no_more_results(m: Seq<char>) -> bool {
    str_has(m, "No records found"@) || str_has(m, "No transactions found"@)
}

/// The addresses of a page's logs that are strings.
pub open spec fn page_addresses(logs: Seq<Option<Seq<char>>>) -> Set<Seq<char>> {
    Set::new(|a: Seq<char>| exists|i: int| 0 <= i < logs.len() && logs[i] == Some(a))
}

/// The state after page text `t` came back: a text that does not parse, or
/// an error other than the end of the results, counts as a failure (paging
/// stops at the limit); the end of the results, a status without message, and
/// an empty or missing list stop paging; otherwise the failures start over,
/// the page's addresses are added, and a short page stops paging.
pub open spec fn after_page(v: PagerView, t: Seq<char>) -> PagerView {
    match log_page_fields(t) {
        None => after_failure(v),
        Some((status, message, logs)) => if status != Some("1"@) {
            match message {
                Some(m) => if no_more_results(m) {
                    PagerView { stopped: true, ..v }
                } else {
                    after_failure(v)
                },
                None => PagerView { stopped: true, ..v },
            }
        } else {
            match logs {
                Some(l) => if l.len() == 0 {
                    PagerView { stopped: true, ..v }
                } else {
                    PagerView {
                        failures: 0,
                        addresses: v.addresses.union(page_addresses(l)),
                        next_page: (v.next_page + 1) as u64,
                        stopped: l.len() < LOGS_PER_PAGE,
                        ..v
                    }
                },
                None => PagerView { stopped: true, ..v },
            }
        },
    }
}

impl LogPager {
    /// The paging state as plain values.
    pub closed spec fn view_of(&self) -> PagerView {
        PagerView {
            next_page: self.next_page,
            max_pages: self.max_pages,
            failures: self.failures,
            key_shift: self.key_shift as nat,
            start_key: self.start_key as nat,
            key_count: self.key_count as nat,
            stopped: self.stopped,
            addresses: strs(self.addresses@).to_set(),
        }
    }

    /// The state invariant: the key count is positive and the rotation stays
    /// below it, the first key is one of them, pages stay numbered in range.
    pub closed spec fn wf(&self) -> bool {
        &&& self.key_count > 0
        &&& self.key_shift < self.key_count
        &&& self.start_key < self.key_count
        &&& 1 <= self.next_page
        &&& self.next_page <= self.max_pages + 1
        &&& self.max_pages <= MAX_PAGES
        &&& self.key_count < usize::MAX / 2
        &&& strs(self.addresses@).no_duplicates()
    }

    /// Paging for `pages` pages (at most 100) with `key_count` keys, starting
    /// with key `start_key`.
    pub fn new(pages: u64, start_key: usize, key_count: usize) -> (r: Self)
        requires
            start_key < key_count,
            key_count < usize::MAX / 2,
        ensures
            r.wf(),
            r.view_of() == (PagerView {
                next_page: 1,
                max_pages: if pages < MAX_PAGES { pages } else { MAX_PAGES },
                failures: 0,
                key_shift: 0,
                start_key: start_key as nat,
                key_count: key_count as nat,
                stopped: false,
                addresses: Set::empty(),
            }),
    {
        let r = LogPager {
            next_page: 1,
            max_pages: if pages < MAX_PAGES { pages } else { MAX_PAGES },
            failures: 0,
            key_shift: 0,
            start_key,
            key_count,
            stopped: false,
            addresses: Vec::new(),
        };
        assert(strs(r.addresses@).to_set() =~= Set::<Seq<char>>::empty());
        r
    }

    /// The page to fetch next and the index of the key to fetch it with, or
    /// `None` once paging is over.
    pub fn next_request(&self) -> (r: Option<(u64, usize)>)
        requires
            self.wf(),
        ensures
            match r {
                Some((p, k)) => !self.view_of().stopped && self.view_of().next_page <= self.view_of().max_pages
                    && p == self.view_of().next_page && k == (self.view_of().start_key + self.view_of().key_shift)
                    % self.view_of().key_count,
                None => self.view_of().stopped || self.view_of().next_page > self.view_of().max_pages,
            },
    {
        if self.stopped || self.next_page > self.max_pages {
            None
        } else {
            Some((self.next_page, (self.start_key + self.key_shift) % self.key_count))
        }
    }

    /// Records that the page could not be fetched.
    pub fn on_fetch_failed(&mut self)
        requires
            old(self).wf(),
            old(self).view_of().next_page <= old(self).view_of().max_pages,
        ensures
            final(self).wf(),
            final(self).view_of() == after_fetch_failed(old(self).view_of()),
    {
        let f = if self.failures < u32::MAX { self.failures + 1 } else { self.failures };
        self.failures = f;
        self.next_page = self.next_page + 1;
        if f >= MAX_CONSECUTIVE_FAILURES {
            if self.key_count > 1 && self.key_shift + 1 < self.key_count {
                self.failures = 0;
                self.key_shift = self.key_shift + 1;
            } else {
                self.stopped = true;
            }
        }
    }

    /// Records the text of the page that came back.
    pub fn on_page_text(&mut self, text: &str)
        requires
            old(self).wf(),
            old(self).view_of().next_page <= old(self).view_of().max_pages,
        ensures
            final(self).wf(),
            final(self).view_of() == after_page(old(self).view_of(), text@),
    {
        let ghost v = self.view_of();
        match log_page_of(text) {
            None => {
                self.count_failure();
            },
            Some((status, message, logs)) => {
                let ok = match &status {
                    Some(s) => str_eq(s.as_str(), "1"),
                    None => false,
                };
                if !ok {
                    match &message {
                        Some(m) => {
                            if contains(m.as_str(), "No records found") || contains(m.as_str(), "No transactions found") {
                                self.stopped = true;
                            } else {
                                self.count_failure();
                            }
                        },
                        None => {
                            self.stopped = true;
                        },
                    }
                    return;
                }
                match logs {
                    Some(l) => {
                        if l.len() == 0 {
                            self.stopped = true;
                            return;
                        }
                        self.failures = 0;
                        let ghost lv = l@.map_values(|a: Option<String>| opt_view(a));
                        let mut i: usize = 0;
                        while i < l.len()
                            invariant
                                i <= l.len(),
                                lv == l@.map_values(|a: Option<String>| opt_view(a)),
                                strs(self.addresses@).no_duplicates(),
                                strs(self.addresses@).to_set() == v.addresses.union(
                                    Set::new(|a: Seq<char>| exists|j: int| 0 <= j < i && lv[j] == Some(a)),
                                ),
                                self.next_page == v.next_page,
                                self.max_pages == v.max_pages,
                                self.key_shift == v.key_shift,
                                self.start_key == v.start_key,
                                self.key_count == v.key_count,
                                self.stopped == v.stopped,
                                self.failures == 0,
                            decreases l.len() - i,
                        {
                            let ghost s0 = strs(self.addresses@).to_set();
                            let ghost prev_set = Set::new(|a: Seq<char>| exists|j: int| 0 <= j < i && lv[j] == Some(a));
                            let ghost next_set = Set::new(|a: Seq<char>| exists|j: int| 0 <= j < i + 1 && lv[j] == Some(a));
                            assert(lv[i as int] == opt_view(l@[i as int]));
                            match &l[i] {
                                Some(a) => {
                                    self.add_address(a.as_str());
                                    assert(next_set =~= prev_set.insert(a@));
                                    assert(strs(self.addresses@).to_set() =~= v.addresses.union(next_set));
                                },
                                None => {
                                    assert(next_set =~= prev_set);
                                },
                            }
                            i = i + 1;
                        }
                        assert(Set::new(|a: Seq<char>| exists|j: int| 0 <= j < i && lv[j] == Some(a)) =~= page_addresses(lv));
                        self.next_page = self.next_page + 1;
                        self.stopped = l.len() < LOGS_PER_PAGE;
                    },
                    None => {
                        self.stopped = true;
                    },
                }
            },
        }
    }

    fn count_failure(&mut self)
        requires
            old(self).wf(),
            old(self).view_of().next_page <= old(self).view_of().max_pages,
        ensures
            final(self).wf(),
            final(self).view_of() == after_failure(old(self).view_of()),
    {
        let f = if self.failures < u32::MAX { self.failures + 1 } else { self.failures };
        self.failures = f;
        self.next_page = self.next_page + 1;
        if f >= MAX_CONSECUTIVE_FAILURES {
            self.stopped = true;
        }
    }

    #[verifier::loop_isolation(false)]
    fn add_address(&mut self, a: &str)
        requires
            strs(old(self).addresses@).no_duplicates(),
        ensures
            strs(final(self).addresses@).no_duplicates(),
            strs(final(self).addresses@).to_set() == strs(old(self).addresses@).to_set().insert(a@),
            final(self).next_page == old(self).next_page,
            final(self).max_pages == old(self).max_pages,
            final(self).failures == old(self).failures,
            final(self).key_shift == old(self).key_shift,
            final(self).start_key == old(self).start_key,
            final(self).key_count == old(self).key_count,
            final(self).stopped == old(self).stopped,
    {
        let ghost before = strs(self.addresses@);
        let mut k: usize = 0;
        while k < self.addresses.len()
            invariant
                k <= self.addresses.len(),
                before == strs(self.addresses@),
                forall|j: int| 0 <= j < k ==> before[j] != a@,
            decreases self.addresses.len() - k,
        {
            assert(before[k as int] == self.addresses@[k as int]@);
            if str_eq(self.addresses[k].as_str(), a) {
                assert(before.contains(a@));
                assert(before.to_set() =~= before.to_set().insert(a@));
                return;
            }
            k = k + 1;
        }
        self.addresses.push(owned(a));
        assert(strs(self.addresses@) =~= before.push(a@));
        assert(!before.contains(a@));
        proof {
            before.lemma_push_to_set_commute(a@);
        }
    }

    /// The addresses found, each once.
    pub fn addresses(&self) -> (r: &Vec<String>)
        ensures
            strs(r@).to_set() == self.view_of().addresses,
            strs(r@).no_duplicates() || !self.wf(),
    {
        &self.addresses
    }
}

} // verus!
