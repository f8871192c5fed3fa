//! The command line's options as plain values.
use vstd::prelude::*;
use crate::types::Chain;
use crate::text::{to_lowercase, lowercase, str_eq, owned, push_str};

verus! {

/// How scan results are printed.
#[derive(Debug, Clone, Copy, PartialEq, Eq, Structural)]
pub enum OutputFormat {
    Console,
    Json,
    Sarif,
}

/// The options of `scan` and `audit`.
#[derive(Debug, Clone)]
pub struct ScanArgs {
    pub addresses: Vec<String>,
    pub chains: Vec<Chain>,
    pub templates: Option<String>,
    pub output: OutputFormat,
    pub concurrency: usize,
    pub no_cache: bool,
    pub diff: Option<String>,
    pub update_templates: Option<i64>,
    pub days: u64,
    pub all_chains: bool,
    pub contract_type: Option<String>,
    pub updated_after: Option<String>,
    pub updated_before: Option<String>,
    pub min_severity: String,
    pub tags: Option<String>,
    pub exclude_templates: Option<String>,
    pub only_templates: Option<String>,
    pub fast: bool,
    pub sort_by_exploitability: bool,
}

/// The options of `init`.
#[derive(Debug, Clone)]
pub struct InitArgs {
    pub path: String,
    pub yes: bool,
}

/// The subcommands of `templates`.
#[derive(Debug, Clone)]
pub enum TemplatesCommand {
    List { templates: Option<String> },
    Show { id: String, templates: Option<String> },
    Install { collection: String, templates: Option<String> },
    Update { templates: Option<String> },
    Registry,
}

/// The options of `templates`.
#[derive(Debug, Clone)]
pub struct TemplatesArgs {
    pub command: TemplatesCommand,
}

/// The options of `fetch-zero-day`.
#[derive(Debug, Clone)]
pub struct FetchZeroDayArgs {
    pub days: u32,
    pub output: Option<String>,
    pub dry_run: bool,
}

/// The options of `pattern-builder`.
#[derive(Debug, Clone)]
pub struct PatternBuilderArgs {
    pub file: Option<String>,
    pub pattern: Option<String>,
}

/// The chain a (lower-cased) name stands for.
pub open spec fn chain_named(l: Seq<char>) -> Option<Chain> {
    if l == "ethereum"@ {
        Some(Chain::Ethereum)
    } else if l == "polygon"@ {
        Some(Chain::Polygon)
    } else if l == "arbitrum"@ {
        Some(Chain::Arbitrum)
    } else {
        None
    }
}

/// The chain named by `s`, in any case, or the message `Unknown chain: s`.
pub fn parse_chain(s: &str) -> (r: Result<Chain, String>)
    ensures
        match r {
            Ok(c) => chain_named(lowercase(s@)) == Some(c),
            Err(m) => chain_named(lowercase(s@)) is None && m@ == "Unknown chain: "@ + s@,
        },
{
    let l = to_lowercase(s);
    if str_eq(l.as_str(), "ethereum") {
        Ok(Chain::Ethereum)
    } else if str_eq(l.as_str(), "polygon") {
        Ok(Chain::Polygon)
    } else if str_eq(l.as_str(), "arbitrum") {
        Ok(Chain::Arbitrum)
    } else {
        let mut m = owned("Unknown chain: ");
        push_str(&mut m, s);
        Err(m)
    }
}

/// The chains a scan covers when none is named.
pub fn get_supported_chains() -> (r: Vec<Chain>)
    ensures
        r@ == seq![Chain::Ethereum, Chain::Polygon, Chain::Arbitrum],
{
    let r = vec![Chain::Ethereum, Chain::Polygon, Chain::Arbitrum];
    assert(r@ =~= seq![Chain::Ethereum, Chain::Polygon, Chain::Arbitrum]);
    r
}

} // verus!
