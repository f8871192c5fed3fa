//! Which templates and findings a scan reports, from the command line's
//! filter options, and the standard interfaces a source implements.
use vstd::prelude::*;
use vstd::string::StrSliceExecFns;
use crate::types::{Match, Severity, Template, severity_rank};
use crate::text::{contains, str_has, str_eq, owned, str_trim, trimmed, to_lowercase, lowercase, strs, strings_contain};

verus! {

/// The filter options of a scan.
pub struct ScanFilters {
    pub min_severity: Option<Severity>,
    pub tags: Vec<String>,
    pub exclude_templates: Vec<String>,
    pub only_templates: Vec<String>,
}

/// The severity a (lower-cased) name stands for.
pub open spec fn severity_named(l: Seq<char>) -> Option<Severity> {
    if l == "critical"@ {
        Some(Severity::Critical)
    } else if l == "high"@ {
        Some(Severity::High)
    } else if l == "medium"@ {
        Some(Severity::Medium)
    } else if l == "low"@ {
        Some(Severity::Low)
    } else if l == "info"@ {
        Some(Severity::Info)
    } else {
        None
    }
}

/// The severity named by `s`, in any case.
pub fn parse_severity(s: &str) -> (r: Option<Severity>)
    ensures
        r == severity_named(lowercase(s@)),
{
    let l = to_lowercase(s);
    let l = l.as_str();
    if str_eq(l, "critical") {
        Some(Severity::Critical)
    } else if str_eq(l, "high") {
        Some(Severity::High)
    } else if str_eq(l, "medium") {
        Some(Severity::Medium)
    } else if str_eq(l, "low") {
        Some(Severity::Low)
    } else if str_eq(l, "info") {
        Some(Severity::Info)
    } else {
        None
    }
}

/// The pieces of `s` between commas (`str::split(',')`), in order.
pub open spec fn comma_pieces(s: Seq<char>) -> Seq<Seq<char>>
    decreases s.len(),
{
    if s.len() == 0 {
        seq![Seq::empty()]
    } else {
        let prev = comma_pieces(s.drop_last());
        if s.last() == ',' {
            prev.push(Seq::empty())
        } else {
            prev.update(prev.len() - 1, prev.last().push(s.last()))
        }
    }
}

/// The comma-separated items of an option, each trimmed; none without it.
pub open spec fn list_items(o: Option<String>) -> Seq<Seq<char>> {
    match o {
        Some(s) => comma_pieces(s@).map_values(|p: Seq<char>| trimmed(p)),
        None => Seq::empty(),
    }
}

proof fn lemma_comma_pieces_nonempty(s: Seq<char>)
    ensures
        comma_pieces(s).len() >= 1,
    decreases s.len(),
{
    if s.len() > 0 {
        lemma_comma_pieces_nonempty(s.drop_last());
    }
}

/// The comma-separated items of `s`, each trimmed.
pub fn split_list(s: &str) -> (r: Vec<String>)
    ensures
        strs(r@) == comma_pieces(s@).map_values(|p: Seq<char>| trimmed(p)),
{
    let n = s.unicode_len();
    let mut out: Vec<String> = Vec::new();
    let mut start: usize = 0;
    let mut i: usize = 0;
    while i < n
        invariant
            n == s@.len(),
            start <= i <= n,
            comma_pieces(s@.subrange(0, i as int)).len() >= 1,
            strs(out@) == comma_pieces(s@.subrange(0, i as int)).drop_last().map_values(|p: Seq<char>| trimmed(p)),
            comma_pieces(s@.subrange(0, i as int)).last() == s@.subrange(start as int, i as int),
        decreases n - i,
    {
        let ghost prefix = s@.subrange(0, i as int);
        let ghost prev = comma_pieces(prefix);
        assert(s@.subrange(0, i + 1).drop_last() =~= prefix);
        if s.get_char(i) == ',' {
            let piece = s.substring_char(start, i);
            let t = str_trim(piece);
            let ghost before = out@;
            out.push(owned(t));
            proof {
                let next = comma_pieces(s@.subrange(0, i + 1));
                assert(next == prev.push(Seq::empty()));
                assert(next.drop_last() =~= prev);
                assert(strs(out@) =~= strs(before).push(trimmed(prev.last())));
                assert(prev.drop_last().push(prev.last()) =~= prev);
                assert(strs(out@) =~= prev.map_values(|p: Seq<char>| trimmed(p)));
                assert(s@.subrange(i + 1, i + 1) =~= Seq::<char>::empty());
            }
            start = i + 1;
        } else {
            proof {
                let next = comma_pieces(s@.subrange(0, i + 1));
                assert(next == prev.update(prev.len() - 1, prev.last().push(s@[i as int])));
                assert(next.drop_last() =~= prev.drop_last());
                assert(s@.subrange(start as int, i + 1) =~= s@.subrange(start as int, i as int).push(s@[i as int]));
            }
        }
        i = i + 1;
    }
    let last = s.substring_char(start, n);
    let t = str_trim(last);
    let ghost before = out@;
    out.push(owned(t));
    proof {
        let all = comma_pieces(s@.subrange(0, n as int));
        assert(s@.subrange(0, n as int) =~= s@);
        assert(strs(out@) =~= strs(before).push(trimmed(all.last())));
        assert(all.drop_last().push(all.last()) =~= all);
        assert(strs(out@) =~= all.map_values(|p: Seq<char>| trimmed(p)));
    }
    out
}

fn split_option(o: Option<String>) -> (r: Vec<String>)
    ensures
        strs(r@) == list_items(o),
{
    match o {
        Some(s) => split_list(s.as_str()),
        None => Vec::new(),
    }
}

/// A template passes the filters: among the only-templates when some are
/// given, not excluded, and sharing a tag with the filter when tags are given.
pub open spec fn template_selected(f: ScanFilters, t: Template) -> bool {
    &&& (f.only_templates.len() == 0 || strs(f.only_templates@).contains(t.id@))
    &&& !strs(f.exclude_templates@).contains(t.id@)
    &&& (f.tags.len() == 0 || exists|i: int| 0 <= i < t.tags.len() && strs(f.tags@).contains(#[trigger] t.tags@[i]@))
}

/// The templates of `ts` that pass the filters, in order.
pub open spec fn selected_templates(f: ScanFilters, ts: Seq<Template>) -> Seq<Template>
    decreases ts.len(),
{
    if ts.len() == 0 {
        Seq::empty()
    } else {
        selected_templates(f, ts.drop_last()) + if template_selected(f, ts.last()) { seq![ts.last()] } else { Seq::empty() }
    }
}

/// A finding passes the filters: at least the minimum severity, if any.
pub open spec fn match_selected(f: ScanFilters, m: Match) -> bool {
    match f.min_severity {
        Some(min) => severity_rank(m.severity) >= severity_rank(min),
        None => true,
    }
}

/// The findings of `ms` that pass the filters, in order.
pub open spec fn selected_matches(f: ScanFilters, ms: Seq<Match>) -> Seq<Match>
    decreases ms.len(),
{
    if ms.len() == 0 {
        Seq::empty()
    } else {
        selected_matches(f, ms.drop_last()) + if match_selected(f, ms.last()) { seq![ms.last()] } else { Seq::empty() }
    }
}

fn strings_contain_any(v: &Vec<String>, tags: &Vec<String>) -> (r: bool)
    ensures
        r == exists|i: int| 0 <= i < tags.len() && strs(v@).contains(#[trigger] tags@[i]@),
{
    let mut i: usize = 0;
    while i < tags.len()
        invariant
            i <= tags.len(),
            forall|j: int| 0 <= j < i ==> !strs(v@).contains(#[trigger] tags@[j]@),
        decreases tags.len() - i,
    {
        if contains_str(v, tags[i].as_str()) {
            return true;
        }
        i = i + 1;
    }
    false
}

fn contains_str(v: &Vec<String>, k: &str) -> (r: bool)
    ensures
        r == strs(v@).contains(k@),
{
    let r = strings_contain(v, k);
    proof {
        if r {
            let i = choose|i: int| 0 <= i < v.len() && v@[i]@ == k@;
            assert(strs(v@)[i] == k@);
        } else {
            assert forall|i: int| 0 <= i < strs(v@).len() implies strs(v@)[i] != k@ by {
                assert(strs(v@)[i] == v@[i]@);
            }
        }
    }
    r
}

impl ScanFilters {
    /// The filters from the command line's options: a severity name, and
    /// comma-separated tags and template ids.
    pub fn from_args(
        min_severity: Option<String>,
        tags: Option<String>,
        exclude_templates: Option<String>,
        only_templates: Option<String>,
    ) -> (r: Self)
        ensures
            r.min_severity == match min_severity {
                Some(s) => severity_named(lowercase(s@)),
                None => None,
            },
            strs(r.tags@) == list_items(tags),
            strs(r.exclude_templates@) == list_items(exclude_templates),
            strs(r.only_templates@) == list_items(only_templates),
    {
        let min = match &min_severity {
            Some(s) => parse_severity(s.as_str()),
            None => None,
        };
        ScanFilters {
            min_severity: min,
            tags: split_option(tags),
            exclude_templates: split_option(exclude_templates),
            only_templates: split_option(only_templates),
        }
    }

    /// Whether a template passes the filters.
    pub fn template_passes(&self, t: &Template) -> (r: bool)
        ensures
            r == template_selected(*self, *t),
    {
        if self.only_templates.len() > 0 && !contains_str(&self.only_templates, t.id.as_str()) {
            return false;
        }
        if contains_str(&self.exclude_templates, t.id.as_str()) {
            return false;
        }
        if self.tags.len() > 0 && !strings_contain_any(&self.tags, &t.tags) {
            return false;
        }
        true
    }

    /// The templates that pass the filters, in order.
    pub fn filter_templates(&self, templates: Vec<Template>) -> (r: Vec<Template>)
        ensures
            r@ == selected_templates(*self, templates@),
    {
        let mut rest = templates;
        let ghost all = rest@;
        let n = rest.len();
        let mut out: Vec<Template> = Vec::new();
        let mut i: usize = 0;
        while rest.len() > 0
            invariant
                n == all.len(),
                i + rest@.len() == all.len(),
                rest@ == all.subrange(i as int, all.len() as int),
                out@ == selected_templates(*self, all.subrange(0, i as int)),
            decreases rest.len(),
        {
            let t = rest.remove(0);
            assert(all.subrange(0, i + 1).drop_last() =~= all.subrange(0, i as int));
            assert(t == all[i as int]);
            if self.template_passes(&t) {
                out.push(t);
            }
            i = i + 1;
            assert(rest@ =~= all.subrange(i as int, all.len() as int));
        }
        assert(all.subrange(0, i as int) =~= all);
        out
    }

    /// The findings that pass the filters, in order.
    pub fn filter_matches(&self, matches: Vec<Match>) -> (r: Vec<Match>)
        ensures
            r@ == selected_matches(*self, matches@),
    {
        let mut rest = matches;
        let ghost all = rest@;
        let mut reversed: Vec<Match> = Vec::new();
        while rest.len() > 0
            invariant
                rest@ + reversed@.reverse() == all,
            decreases rest.len(),
        {
            let m = rest.pop().unwrap();
            let ghost r0 = reversed@;
            reversed.push(m);
            assert(reversed@.reverse() =~= seq![m] + r0.reverse());
            assert(rest@.push(m) + r0.reverse() =~= rest@ + (seq![m] + r0.reverse()));
        }
        assert(reversed@.reverse() =~= all);
        let n = reversed.len();
        let mut out: Vec<Match> = Vec::new();
        let mut i: usize = 0;
        while reversed.len() > 0
            invariant
                n == all.len(),
                i + reversed@.len() == all.len(),
                reversed@.reverse() == all.subrange(i as int, all.len() as int),
                out@ == selected_matches(*self, all.subrange(0, i as int)),
            decreases reversed.len(),
        {
            let ghost r0 = reversed@;
            let m = reversed.pop().unwrap();
            assert(r0.reverse()[0] == m);
            assert(all[i as int] == m);
            assert(all.subrange(0, i + 1).drop_last() =~= all.subrange(0, i as int));
            let keep = match self.min_severity {
                Some(min) => m.severity.at_least(min),
                None => true,
            };
            if keep {
                out.push(m);
            }
            proof {
                assert(r0 =~= reversed@.push(m));
                assert(reversed@.reverse() =~= r0.reverse().subrange(1, r0.len() as int));
                assert(all.subrange(i + 1, all.len() as int) =~= all.subrange(i as int, all.len() as int).subrange(1, r0.len() as int));
            }
            i = i + 1;
        }
        assert(all.subrange(0, i as int) =~= all);
        out
    }
}

/// The standard interfaces and patterns a source shows: ERC-20, ERC-721,
/// ERC-1155, proxies, DeFi.
pub open spec fn contract_kinds(s: Seq<char>) -> Seq<Seq<char>> {
    (if str_has(s, "function transfer("@) && str_has(s, "function balanceOf("@) { seq!["erc20"@] } else { Seq::empty() })
        + (if str_has(s, "function ownerOf("@) && str_has(s, "function safeTransferFrom("@) { seq!["erc721"@] } else { Seq::empty() })
        + (if str_has(s, "function balanceOfBatch("@) && str_has(s, "function safeBatchTransferFrom("@) { seq!["erc1155"@] } else { Seq::empty() })
        + (if str_has(s, "delegatecall"@) || str_has(s, "implementation()"@) { seq!["proxy"@] } else { Seq::empty() })
        + (if str_has(s, "swap"@) || str_has(s, "liquidity"@) || str_has(s, "pool"@) { seq!["defi"@] } else { Seq::empty() })
}

/// The standard interfaces and patterns `source` shows.
pub fn detect_contract_type(source: &str) -> (r: Vec<String>)
    ensures
        strs(r@) == contract_kinds(source@),
{
    let mut types: Vec<String> = Vec::new();
    let ghost mut want: Seq<Seq<char>> = Seq::empty();
    if contains(source, "function transfer(") && contains(source, "function balanceOf(") {
        types.push(owned("erc20"));
    }
    assert(strs(types@) =~= (if str_has(source@, "function transfer("@) && str_has(source@, "function balanceOf("@) { seq!["erc20"@] } else { Seq::<Seq<char>>::empty() }));
    let ghost w1 = strs(types@);
    if contains(source, "function ownerOf(") && contains(source, "function safeTransferFrom(") {
        types.push(owned("erc721"));
    }
    assert(strs(types@) =~= w1 + (if str_has(source@, "function ownerOf("@) && str_has(source@, "function safeTransferFrom("@) { seq!["erc721"@] } else { Seq::<Seq<char>>::empty() }));
    let ghost w2 = strs(types@);
    if contains(source, "function balanceOfBatch(") && contains(source, "function safeBatchTransferFrom(") {
        types.push(owned("erc1155"));
    }
    assert(strs(types@) =~= w2 + (if str_has(source@, "function balanceOfBatch("@) && str_has(source@, "function safeBatchTransferFrom("@) { seq!["erc1155"@] } else { Seq::<Seq<char>>::empty() }));
    let ghost w3 = strs(types@);
    if contains(source, "delegatecall") || contains(source, "implementation()") {
        types.push(owned("proxy"));
    }
    assert(strs(types@) =~= w3 + (if str_has(source@, "delegatecall"@) || str_has(source@, "implementation()"@) { seq!["proxy"@] } else { Seq::<Seq<char>>::empty() }));
    let ghost w4 = strs(types@);
    if contains(source, "swap") || contains(source, "liquidity") || contains(source, "pool") {
        types.push(owned("defi"));
    }
    assert(strs(types@) =~= w4 + (if str_has(source@, "swap"@) || str_has(source@, "liquidity"@) || str_has(source@, "pool"@) { seq!["defi"@] } else { Seq::<Seq<char>>::empty() }));
    types
}

} // verus!
