//! Ignore rules for paths, in the style of `.gitignore`: directory names,
//! globs (`*`, `**`, `?`) and literal names, each matched against the path's
//! components or, where the rule holds a `/`, against the path and its
//! suffixes. Reading the ignore file is done by the caller.
use vstd::prelude::*;
use vstd::string::StrSliceExecFns;
use crate::text::{owned, push_str, push_char, str_trim, trimmed, contains, str_has, str_eq, strs};
use crate::server::{trim_start_matches_str, trim_end_matches_char, strip_all_prefix, strip_all_suffix_char};
use crate::pattern_match::regex_valid;
use crate::poc_stager::{find_chars, first_at, occurs_char_at};
use crate::source_index::{source_lines, line_count};

verus! {

/// What `regex::Regex::is_match` answers for a pattern that compiles.
pub uninterp spec fn regex_hit(pattern: Seq<char>, text: Seq<char>) -> bool;

/// `regex::Regex::new` then `Regex::is_match`: `None` when the pattern does
/// not compile. What a match is is named by `regex_hit`; only that is stated.
#[verifier::external_body]
fn regex_is_match(pattern: &str, text: &str) -> (r: Option<bool>)
    ensures
        r is Some <==> regex_valid(pattern@),
        r matches Some(b) ==> b == regex_hit(pattern@, text@),
{
    match regex::Regex::new(pattern) {
        Ok(re) => Some(re.is_match(text)),
        Err(_) => None,
    }
}

/// The components of a path as `Path::components` splits it, each as text.
pub uninterp spec fn components_of(p: Seq<char>) -> Seq<Seq<char>>;

/// `Path::components`, each component as text. What it returns is named by
/// `components_of`; only that is stated.
#[verifier::external_body]
fn path_components(p: &str) -> (r: Vec<String>)
    ensures
        strs(r@) == components_of(p@),
{
    std::path::Path::new(p).components().map(|c| c.as_os_str().to_string_lossy().into_owned()).collect()
}

/// A rule that ignores some paths.
#[derive(Debug, Clone)]
pub enum IgnoreRule {
    /// Any path with a component of this name.
    Directory(String),
    /// Paths matching a glob, given as the regular expression it becomes.
    Glob { regex: String, match_components: bool },
    /// Paths with a component of this name, or holding this text.
    Literal { value: String, match_components: bool },
}

/// A rule as a mathematical value.
pub enum RuleView {
    Directory(Seq<char>),
    Glob(Seq<char>, bool),
    Literal(Seq<char>, bool),
}

impl View for IgnoreRule {
    type V = RuleView;

    open spec fn view(&self) -> RuleView {
        match self {
            IgnoreRule::Directory(d) => RuleView::Directory(d@),
            IgnoreRule::Glob { regex, match_components } => RuleView::Glob(regex@, *match_components),
            IgnoreRule::Literal { value, match_components } => RuleView::Literal(value@, *match_components),
        }
    }
}

/// Whether `c` has a meaning in a regular expression and is escaped.
pub open spec fn is_regex_special(c: char) -> bool {
    c == '.' || c == '+' || c == '(' || c == ')' || c == '|' || c == '^' || c == '$' || c == '{' || c == '}'
        || c == '[' || c == ']' || c == '\\'
}

/// The regular expression of a glob's text: `**` any text, `*` any text
/// without `/`, `?` one character other than `/`, special characters
/// escaped, everything else itself.
pub open spec fn glob_body(g: Seq<char>) -> Seq<char>
    decreases g.len(),
{
    if g.len() == 0 {
        Seq::empty()
    } else if g[0] == '*' && g.len() > 1 && g[1] == '*' {
        ".*"@ + glob_body(g.skip(2))
    } else if g[0] == '*' {
        "[^/]*"@ + glob_body(g.skip(1))
    } else if g[0] == '?' {
        "[^/]"@ + glob_body(g.skip(1))
    } else if is_regex_special(g[0]) {
        seq!['\\', g[0]] + glob_body(g.skip(1))
    } else {
        seq![g[0]] + glob_body(g.skip(1))
    }
}

/// The anchored regular expression of a glob.
pub open spec fn glob_regex(g: Seq<char>) -> Seq<char> {
    "^"@ + glob_body(g) + "$"@
}

/// The anchored regular expression of a glob.
pub fn glob_to_regex(glob: &str) -> (r: String)
    ensures
        r@ == glob_regex(glob@),
{
    proof {
        reveal_strlit("^");
        reveal_strlit("$");
        reveal_strlit(".*");
        reveal_strlit("[^/]*");
        reveal_strlit("[^/]");
    }
    let ghost g = glob@;
    let n = glob.unicode_len();
    let mut out = owned("^");
    let mut i: usize = 0;
    assert(g.skip(0) =~= g);
    while i < n
        invariant
            n == g.len(),
            g == glob@,
            i <= n,
            out@ + glob_body(g.skip(i as int)) == "^"@ + glob_body(g),
        decreases n - i,
    {
        let ghost o = out@;
        let ghost rest = g.skip(i as int);
        let c = glob.get_char(i);
        assert(rest[0] == c);
        if c == '*' && i + 1 < n && glob.get_char(i + 1) == '*' {
            assert(rest[1] == g[i + 1]);
            assert(rest.skip(2) =~= g.skip(i + 2));
            push_str(&mut out, ".*");
            assert(out@ + glob_body(g.skip(i + 2)) =~= o + glob_body(rest));
            i = i + 2;
        } else {
            assert(rest.skip(1) =~= g.skip(i + 1));
            if c == '*' {
                push_str(&mut out, "[^/]*");
            } else if c == '?' {
                push_str(&mut out, "[^/]");
            } else if c == '.' || c == '+' || c == '(' || c == ')' || c == '|' || c == '^' || c == '$' || c == '{'
                || c == '}' || c == '[' || c == ']' || c == '\\' {
                push_char(&mut out, '\\');
                push_char(&mut out, c);
            } else {
                push_char(&mut out, c);
            }
            assert(out@ + glob_body(g.skip(i + 1)) =~= o + glob_body(rest));
            i = i + 1;
        }
    }
    assert(g.skip(n as int) =~= Seq::<char>::empty());
    push_str(&mut out, "$");
    assert(out@ =~= glob_regex(g));
    out
}

/// `c` occurs in `s`.
pub open spec fn has_char(s: Seq<char>, c: char) -> bool {
    exists|i: int| 0 <= i < s.len() && s[i] == c
}

fn contains_char(s: &str, c: char) -> (r: bool)
    ensures
        r == has_char(s@, c),
{
    let n = s.unicode_len();
    let mut i: usize = 0;
    while i < n
        invariant
            n == s@.len(),
            i <= n,
            forall|j: int| 0 <= j < i ==> s@[j] != c,
        decreases n - i,
    {
        if s.get_char(i) == c {
            return true;
        }
        i = i + 1;
    }
    false
}

/// The rule a line of an ignore file gives: none for a blank line or a
/// comment; a directory for a name ending in `/`; a glob for a pattern with
/// `*` or `?` (none when its regular expression does not compile); else a
/// literal. Globs and literals without `/` match single components.
pub open spec fn rule_of(line: Seq<char>) -> Option<RuleView> {
    let p = trimmed(line);
    if p.len() == 0 || p[0] == '#' {
        None
    } else if p.last() == '/' {
        let d = trimmed(strip_all_suffix_char(p, '/'));
        if d.len() == 0 { None } else { Some(RuleView::Directory(d)) }
    } else if has_char(p, '*') || has_char(p, '?') {
        if regex_valid(glob_regex(p)) { Some(RuleView::Glob(glob_regex(p), !has_char(p, '/'))) } else { None }
    } else {
        Some(RuleView::Literal(p, !has_char(p, '/')))
    }
}

/// `s` with every backslash made a slash.
pub open spec fn slashed(s: Seq<char>) -> Seq<char> {
    s.map_values(|c: char| if c == '\\' { '/' } else { c })
}

fn replace_backslashes(s: &str) -> (r: String)
    ensures
        r@ == slashed(s@),
{
    let n = s.unicode_len();
    let mut out = String::new();
    let mut i: usize = 0;
    while i < n
        invariant
            n == s@.len(),
            i <= n,
            out@ == slashed(s@.take(i as int)),
        decreases n - i,
    {
        let c = s.get_char(i);
        push_char(&mut out, if c == '\\' { '/' } else { c });
        assert(slashed(s@.take(i + 1)) =~= slashed(s@.take(i as int)).push(if c == '\\' { '/' } else { c }));
        i = i + 1;
    }
    assert(s@.take(n as int) =~= s@);
    out
}

/// The regular expression `re` matches `s` or a suffix of it that follows a `/`.
pub open spec fn suffix_hit(re: Seq<char>, s: Seq<char>) -> bool
    decreases s.len(),
{
    regex_hit(re, s) || (exists|i: int| first_at(s, seq!['/'], i)) && suffix_hit(
        re,
        s.subrange((choose|i: int| first_at(s, seq!['/'], i)) + 1, s.len() as int),
    )
}

/// Some component of `p` is `name`.
pub open spec fn has_component(p: Seq<char>, name: Seq<char>) -> bool {
    exists|i: int| 0 <= i < components_of(p).len() && components_of(p)[i] == name
}

/// Some component of `p` matches `re`.
pub open spec fn component_hit(p: Seq<char>, re: Seq<char>) -> bool {
    exists|i: int| 0 <= i < components_of(p).len() && regex_hit(re, #[trigger] components_of(p)[i])
}

/// Whether rule `r` ignores the path `p`.
pub open spec fn rule_matches(r: RuleView, p: Seq<char>) -> bool {
    match r {
        RuleView::Directory(d) => has_component(p, d),
        RuleView::Glob(re, comps) => regex_valid(re) && if comps {
            component_hit(p, re)
        } else {
            regex_hit(re, slashed(p)) || suffix_hit(re, strip_all_prefix(slashed(p), "/"@))
        },
        RuleView::Literal(v, comps) => if comps {
            has_component(p, v)
        } else {
            str_has(p, v)
        },
    }
}

impl IgnoreRule {
    /// The rule a line of an ignore file gives.
    pub fn from_pattern(pattern: &str) -> (r: Option<Self>)
        ensures
            match r {
                Some(rule) => rule_of(pattern@) == Some(rule@),
                None => rule_of(pattern@) is None,
            },
    {
        let p = str_trim(pattern);
        let n = p.unicode_len();
        if n == 0 || p.get_char(0) == '#' {
            return None;
        }
        if p.get_char(n - 1) == '/' {
            let d = str_trim(trim_end_matches_char(p, '/'));
            if d.unicode_len() == 0 {
                return None;
            }
            return Some(IgnoreRule::Directory(owned(d)));
        }
        if contains_char(p, '*') || contains_char(p, '?') {
            let regex = glob_to_regex(p);
            match regex_is_match(regex.as_str(), "") {
                Some(_) => {
                    return Some(IgnoreRule::Glob { regex, match_components: !contains_char(p, '/') });
                },
                None => {
                    return None;
                },
            }
        }
        Some(IgnoreRule::Literal { value: owned(p), match_components: !contains_char(p, '/') })
    }

    /// Whether this rule ignores the path `path`.
    pub fn matches(&self, path: &str) -> (r: bool)
        ensures
            r == rule_matches(self@, path@),
    {
        match self {
            IgnoreRule::Directory(dir) => any_component_is(path, dir.as_str()),
            IgnoreRule::Glob { regex, match_components } => {
                if regex_is_match(regex.as_str(), "").is_none() {
                    return false;
                }
                if *match_components {
                    any_component_matches(path, regex.as_str())
                } else {
                    let normalized = replace_backslashes(path);
                    if regex_is_match(regex.as_str(), normalized.as_str()) == Some(true) {
                        return true;
                    }
                    let start = trim_start_matches_str(normalized.as_str(), "/");
                    suffix_matches(regex.as_str(), start)
                }
            },
            IgnoreRule::Literal { value, match_components } => {
                if *match_components {
                    any_component_is(path, value.as_str())
                } else {
                    contains(path, value.as_str())
                }
            },
        }
    }
}

fn any_component_is(path: &str, name: &str) -> (r: bool)
    ensures
        r == has_component(path@, name@),
{
    let comps = path_components(path);
    let mut i: usize = 0;
    while i < comps.len()
        invariant
            i <= comps.len(),
            strs(comps@) == components_of(path@),
            forall|j: int| 0 <= j < i ==> components_of(path@)[j] != name@,
        decreases comps.len() - i,
    {
        assert(components_of(path@)[i as int] == comps@[i as int]@);
        if str_eq(comps[i].as_str(), name) {
            return true;
        }
        i = i + 1;
    }
    false
}

fn any_component_matches(path: &str, re: &str) -> (r: bool)
    requires
        regex_valid(re@),
    ensures
        r == component_hit(path@, re@),
{
    let comps = path_components(path);
    let mut i: usize = 0;
    while i < comps.len()
        invariant
            regex_valid(re@),
            i <= comps.len(),
            strs(comps@) == components_of(path@),
            forall|j: int| 0 <= j < i ==> !regex_hit(re@, #[trigger] components_of(path@)[j]),
        decreases comps.len() - i,
    {
        assert(components_of(path@)[i as int] == comps@[i as int]@);
        if regex_is_match(re, comps[i].as_str()) == Some(true) {
            return true;
        }
        i = i + 1;
    }
    false
}

proof fn lemma_first_at_unique(s: Seq<char>, p: Seq<char>, i: int)
    requires
        first_at(s, p, i),
    ensures
        (choose|j: int| first_at(s, p, j)) == i,
{
    let j = choose|j: int| first_at(s, p, j);
    assert(first_at(s, p, j));
    if j < i {
        assert(!occurs_char_at(s, p, j));
    } else if i < j {
        assert(!occurs_char_at(s, p, i));
    }
}

fn suffix_matches(re: &str, s: &str) -> (r: bool)
    requires
        regex_valid(re@),
    ensures
        r == suffix_hit(re@, s@),
{
    let mut cur = s;
    loop
        invariant
            regex_valid(re@),
            suffix_hit(re@, cur@) == suffix_hit(re@, s@),
        decreases cur@.len(),
    {
        if regex_is_match(re, cur) == Some(true) {
            return true;
        }
        let found = find_chars(cur, "/");
        proof {
            reveal_strlit("/");
            assert("/"@ =~= seq!['/']);
        }
        match found {
            Some(pos) => {
                proof {
                    reveal_strlit("/");
                    assert("/"@ =~= seq!['/']);
                    lemma_first_at_unique(cur@, seq!['/'], pos as int);
                }
                let n = cur.unicode_len();
                cur = cur.substring_char(pos + 1, n);
            },
            None => {
                return false;
            },
        }
    }
}

/// The rules of the lines of an ignore file, in order, without the lines
/// that give none.
pub open spec fn rules_of_lines(lines: Seq<Seq<char>>) -> Seq<RuleView>
    decreases lines.len(),
{
    if lines.len() == 0 {
        Seq::empty()
    } else {
        let prev = rules_of_lines(lines.drop_last());
        match rule_of(lines.last()) {
            Some(r) => prev.push(r),
            None => prev,
        }
    }
}

/// The views of a sequence of rules.
pub open spec fn rule_views(rs: Seq<IgnoreRule>) -> Seq<RuleView> {
    rs.map_values(|r: IgnoreRule| r@)
}

/// The rules of an ignore file's text, line by line (as `str::lines` splits it).
pub fn rules_from_content(content: &str) -> (r: Vec<IgnoreRule>)
    ensures
        exists|lines: Seq<&str>| #![auto]
            lines.len() == line_count(crate::text::sbytes(content)) && rule_views(r@) == rules_of_lines(
                lines.map_values(|l: &str| l@),
            ) && forall|k: int| 0 <= k < lines.len() ==> crate::text::sbytes(lines[k])
                == crate::text::sbytes(content).subrange(
                crate::source_index::line_range(crate::text::sbytes(content), k as nat).0 as int,
                crate::source_index::line_range(crate::text::sbytes(content), k as nat).1 as int,
            ),
{
    let lines = source_lines(content);
    let ghost lv = lines@.map_values(|l: &str| l@);
    let mut rules: Vec<IgnoreRule> = Vec::new();
    let mut i: usize = 0;
    while i < lines.len()
        invariant
            i <= lines.len(),
            lv == lines@.map_values(|l: &str| l@),
            rule_views(rules@) == rules_of_lines(lv.take(i as int)),
        decreases lines.len() - i,
    {
        assert(lv.take(i + 1).drop_last() =~= lv.take(i as int));
        assert(lv.take(i + 1).last() == lines@[i as int]@);
        let ghost before = rules@;
        match IgnoreRule::from_pattern(lines[i]) {
            Some(rule) => {
                rules.push(rule);
                assert(rule_views(rules@) =~= rule_views(before).push(rules@.last()@));
            },
            None => {},
        }
        i = i + 1;
    }
    assert(lv.take(i as int) =~= lv);
    rules
}

/// The rules used when there is no ignore file: `node_modules/`, `target/`,
/// `.git/`, `*.test.sol`, `test/` and `tests/`, each where it gives a rule.
pub fn default_rules() -> (r: Vec<IgnoreRule>)
    ensures
        rule_views(r@) == rules_of_lines(
            seq!["node_modules/"@, "target/"@, ".git/"@, "*.test.sol"@, "test/"@, "tests/"@],
        ),
{
    let names = vec!["node_modules/", "target/", ".git/", "*.test.sol", "test/", "tests/"];
    let ghost lv = names@.map_values(|l: &str| l@);
    assert(lv =~= seq!["node_modules/"@, "target/"@, ".git/"@, "*.test.sol"@, "test/"@, "tests/"@]);
    let mut rules: Vec<IgnoreRule> = Vec::new();
    let mut i: usize = 0;
    while i < names.len()
        invariant
            i <= names.len(),
            lv == names@.map_values(|l: &str| l@),
            rule_views(rules@) == rules_of_lines(lv.take(i as int)),
        decreases names.len() - i,
    {
        assert(lv.take(i + 1).drop_last() =~= lv.take(i as int));
        assert(lv.take(i + 1).last() == names@[i as int]@);
        let ghost before = rules@;
        match IgnoreRule::from_pattern(names[i]) {
            Some(rule) => {
                rules.push(rule);
                assert(rule_views(rules@) =~= rule_views(before).push(rules@.last()@));
            },
            None => {},
        }
        i = i + 1;
    }
    assert(lv.take(i as int) =~= lv);
    rules
}

} // verus!
