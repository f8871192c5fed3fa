//! Resource limits for pattern matching and template loading.
use vstd::prelude::*;

verus! {

/// Limits on pattern matching.
#[derive(Debug, Clone, Copy)]
pub struct MatcherLimits {
    pub max_patterns: usize,
    pub max_regex_length: usize,
    pub max_matches: usize,
    pub max_file_size: u64,
}

impl Default for MatcherLimits {
    /// At most 1000 patterns of at most 500 characters, 10000 matches and
    /// files of 10 MiB.
    fn default() -> (r: Self)
        ensures
            r.max_patterns == 1000,
            r.max_regex_length == 500,
            r.max_matches == 10_000,
            r.max_file_size == 10 * 1024 * 1024,
    {
        MatcherLimits { max_patterns: 1000, max_regex_length: 500, max_matches: 10_000, max_file_size: 10 * 1024 * 1024 }
    }
}

/// Limits on template loading.
#[derive(Debug, Clone, Copy)]
pub struct LoaderLimits {
    pub max_file_size: u64,
    pub max_lines: usize,
    pub max_templates: usize,
}

impl Default for LoaderLimits {
    /// Files of at most 1 MiB and 10000 lines, at most 100 templates.
    fn default() -> (r: Self)
        ensures
            r.max_file_size == 1024 * 1024,
            r.max_lines == 10_000,
            r.max_templates == 100,
    {
        LoaderLimits { max_file_size: 1024 * 1024, max_lines: 10_000, max_templates: 100 }
    }
}

} // verus!
