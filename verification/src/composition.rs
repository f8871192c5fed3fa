//! Composed templates: rules over which base templates matched, and where.
use vstd::prelude::*;
use crate::types::{Severity, Template};
use crate::text::{owned, str_eq};
use crate::dependency_analyzer::find_key;
use crate::dataflow::{first_entry, lemma_first_entry_at, lemma_first_entry_none, lemma_first_entry_update, lemma_first_entry_push};

verus! {

/// A template made of others, with the rules their matches must meet.
#[derive(Debug, Clone)]
pub struct ComposedTemplate {
    pub id: String,
    pub name: String,
    pub description: String,
    pub severity: Severity,
    pub base_templates: Vec<String>,
    pub composition_rules: Vec<CompositionRule>,
}

/// A rule over the matches of base templates.
#[derive(Debug, Clone)]
pub enum CompositionRule {
    /// Every one of the templates matched.
    AllOf(Vec<String>),
    /// Some template matched.
    AnyOf(Vec<String>),
    /// Exactly `count` of the templates matched.
    ExactlyN { count: usize, templates: Vec<String> },
    /// `required` matched and `excluded` did not.
    AndNot { required: String, excluded: String },
    /// The templates matched in this order, each within `max_distance` lines
    /// after the previous one.
    Sequential { templates: Vec<String>, max_distance: usize },
}

/// Holds templates and compositions.
pub struct TemplateComposer {
    templates: Vec<(String, Template)>,
    compositions: Vec<ComposedTemplate>,
}

/// Template `t` has matches: its line list is present and not empty.
pub open spec fn has_hits(ms: Seq<(String, Vec<usize>)>, t: Seq<char>) -> bool {
    first_entry(ms, t) matches Some(v) && v@.len() > 0
}

/// How many of `ts` have matches.
pub open spec fn count_with_hits(ms: Seq<(String, Vec<usize>)>, ts: Seq<String>) -> nat
    decreases ts.len(),
{
    if ts.len() == 0 {
        0
    } else {
        count_with_hits(ms, ts.drop_last()) + if has_hits(ms, ts.last()@) { 1nat } else { 0nat }
    }
}

/// The first line of `lines` after `cur` and at most `d` past it.
pub open spec fn next_line(lines: Seq<usize>, cur: usize, d: usize) -> Option<usize>
    decreases lines.len(),
{
    if lines.len() == 0 {
        None
    } else if lines[0] > cur && lines[0] - cur <= d {
        Some(lines[0])
    } else {
        next_line(lines.drop_first(), cur, d)
    }
}

/// Following templates `ts[k..]` from line `cur`, each next match taken as
/// the first one within `d` lines after the previous, reaches the end.
pub open spec fn chain_from(ms: Seq<(String, Vec<usize>)>, ts: Seq<String>, k: nat, cur: usize, d: usize) -> bool
    decreases ts.len() - k,
{
    if k >= ts.len() {
        true
    } else {
        has_hits(ms, ts[k as int]@) && match next_line(first_entry(ms, ts[k as int]@).unwrap()@, cur, d) {
            Some(l) => chain_from(ms, ts, k + 1, l, d),
            None => false,
        }
    }
}

/// Some match of the first template starts a chain through the others.
pub open spec fn sequence_holds(ms: Seq<(String, Vec<usize>)>, ts: Seq<String>, d: usize) -> bool {
    ts.len() == 0 || (has_hits(ms, ts[0]@) && exists|i: int|
        0 <= i < first_entry(ms, ts[0]@).unwrap()@.len() && #[trigger] chain_from(ms, ts, 1, first_entry(ms, ts[0]@).unwrap()@[i], d))
}

/// Whether a rule holds of the matches.
pub open spec fn rule_holds(rule: CompositionRule, ms: Seq<(String, Vec<usize>)>) -> bool {
    match rule {
        CompositionRule::AllOf(ts) => forall|i: int| 0 <= i < ts.len() ==> has_hits(ms, #[trigger] ts@[i]@),
        CompositionRule::AnyOf(ts) => exists|i: int| 0 <= i < ts.len() && has_hits(ms, #[trigger] ts@[i]@),
        CompositionRule::ExactlyN { count, templates } => count_with_hits(ms, templates@) == count,
        CompositionRule::AndNot { required, excluded } => has_hits(ms, required@) && !has_hits(ms, excluded@),
        CompositionRule::Sequential { templates, max_distance } => sequence_holds(ms, templates@, max_distance),
    }
}

fn hits_of<'a>(ms: &'a Vec<(String, Vec<usize>)>, t: &str) -> (r: Option<&'a Vec<usize>>)
    ensures
        match r {
            Some(v) => first_entry(ms@, t@) == Some(*v) && v@.len() > 0,
            None => !has_hits(ms@, t@),
        },
{
    match find_key(ms, t) {
        Some(i) => {
            proof {
                lemma_first_entry_at(ms@, t@, i as int);
            }
            if ms[i].1.len() > 0 { Some(&ms[i].1) } else { None }
        },
        None => {
            proof {
                lemma_first_entry_none(ms@, t@);
            }
            None
        },
    }
}

fn find_next_line(lines: &Vec<usize>, cur: usize, d: usize) -> (r: Option<usize>)
    ensures
        r == next_line(lines@, cur, d),
{
    let mut i: usize = 0;
    assert(lines@.subrange(0, lines.len() as int) =~= lines@);
    while i < lines.len()
        invariant
            i <= lines.len(),
            next_line(lines@.subrange(i as int, lines.len() as int), cur, d) == next_line(lines@, cur, d),
        decreases lines.len() - i,
    {
        let l = lines[i];
        assert(lines@.subrange(i as int, lines.len() as int).drop_first() =~= lines@.subrange(i + 1, lines.len() as int));
        if l > cur && l - cur <= d {
            return Some(l);
        }
        i = i + 1;
    }
    None
}

impl TemplateComposer {
    /// A composer with no templates or compositions.
    pub fn new() -> (r: Self)
        ensures
            r.templates_view().len() == 0,
            r.compositions_view().len() == 0,
    {
        TemplateComposer { templates: Vec::new(), compositions: Vec::new() }
    }

    /// The templates by id.
    pub closed spec fn templates_view(&self) -> Seq<(String, Template)> {
        self.templates@
    }

    /// The compositions.
    pub closed spec fn compositions_view(&self) -> Seq<ComposedTemplate> {
        self.compositions@
    }

    /// Adds a template; one with the same id is replaced.
    pub fn add_template(&mut self, template: Template)
        ensures
            first_entry(final(self).templates_view(), template.id@) == Some(template),
            forall|k: Seq<char>| k != template.id@ ==> first_entry(final(self).templates_view(), k) == first_entry(old(self).templates_view(), k),
            final(self).compositions_view() == old(self).compositions_view(),
    {
        let key = owned(template.id.as_str());
        let entry = (key, template);
        let ghost old_v = self.templates@;
        let ghost e = entry;
        match find_key(&self.templates, entry.0.as_str()) {
            Some(i) => {
                self.templates.set(i, entry);
                proof {
                    lemma_first_entry_at(self.templates@, e.0@, i as int);
                    assert forall|k: Seq<char>| k != e.0@ implies first_entry(self.templates@, k) == first_entry(old_v, k) by {
                        lemma_first_entry_update(old_v, i as int, e, k);
                    }
                }
            },
            None => {
                self.templates.push(entry);
                proof {
                    lemma_first_entry_at(self.templates@, e.0@, old_v.len() as int);
                    assert forall|k: Seq<char>| k != e.0@ implies first_entry(self.templates@, k) == first_entry(old_v, k) by {
                        lemma_first_entry_push(old_v, e, k);
                    }
                }
            },
        }
    }

    /// Adds a composition.
    pub fn add_composition(&mut self, composition: ComposedTemplate)
        ensures
            final(self).compositions_view() == old(self).compositions_view().push(composition),
            final(self).templates_view() == old(self).templates_view(),
    {
        self.compositions.push(composition);
    }

    /// A composition from YAML text; the text is not read yet, an example
    /// composition comes back.
    pub fn compose_from_yaml(&mut self, yaml: &str) -> (r: Result<ComposedTemplate, String>)
        ensures
            r matches Ok(c) && c.id@ == "composed-example"@ && c.name@ == "Composed Template"@
                && c.description@ == "Example composition"@ && c.severity == Severity::High
                && c.base_templates@.len() == 0 && c.composition_rules@.len() == 0,
            final(self).templates_view() == old(self).templates_view(),
            final(self).compositions_view() == old(self).compositions_view(),
    {
        Ok(ComposedTemplate {
            id: owned("composed-example"),
            name: owned("Composed Template"),
            description: owned("Example composition"),
            severity: Severity::High,
            base_templates: Vec::new(),
            composition_rules: Vec::new(),
        })
    }

    /// Whether every rule of the composition holds of the matches (template
    /// id to matched lines).
    #[verifier::loop_isolation(false)]
    pub fn evaluate_composition(&self, composition: &ComposedTemplate, matches: &Vec<(String, Vec<usize>)>) -> (r: bool)
        ensures
            r == forall|i: int| 0 <= i < composition.composition_rules.len() ==> rule_holds(#[trigger] composition.composition_rules@[i], matches@),
    {
        let rules = &composition.composition_rules;
        let mut i: usize = 0;
        while i < rules.len()
            invariant
                i <= rules.len(),
                forall|j: int| 0 <= j < i ==> rule_holds(#[trigger] rules@[j], matches@),
            decreases rules.len() - i,
        {
            if !self.evaluate_rule(&rules[i], matches) {
                assert(!rule_holds(composition.composition_rules@[i as int], matches@));
                return false;
            }
            i = i + 1;
        }
        true
    }

    /// Whether one rule holds of the matches.
    #[verifier::loop_isolation(false)]
    pub fn evaluate_rule(&self, rule: &CompositionRule, matches: &Vec<(String, Vec<usize>)>) -> (r: bool)
        ensures
            r == rule_holds(*rule, matches@),
    {
        match rule {
            CompositionRule::AllOf(ts) => {
                let mut i: usize = 0;
                while i < ts.len()
                    invariant
                        i <= ts.len(),
                        forall|j: int| 0 <= j < i ==> has_hits(matches@, #[trigger] ts@[j]@),
                    decreases ts.len() - i,
                {
                    if hits_of(matches, ts[i].as_str()).is_none() {
                        assert(!has_hits(matches@, ts@[i as int]@));
                        return false;
                    }
                    i = i + 1;
                }
                true
            },
            CompositionRule::AnyOf(ts) => {
                let mut i: usize = 0;
                while i < ts.len()
                    invariant
                        i <= ts.len(),
                        forall|j: int| 0 <= j < i ==> !has_hits(matches@, #[trigger] ts@[j]@),
                    decreases ts.len() - i,
                {
                    if hits_of(matches, ts[i].as_str()).is_some() {
                        assert(has_hits(matches@, ts@[i as int]@));
                        return true;
                    }
                    i = i + 1;
                }
                false
            },
            CompositionRule::ExactlyN { count, templates } => {
                let mut n: usize = 0;
                let mut i: usize = 0;
                while i < templates.len()
                    invariant
                        i <= templates.len(),
                        n == count_with_hits(matches@, templates@.subrange(0, i as int)),
                        n <= i,
                    decreases templates.len() - i,
                {
                    assert(templates@.subrange(0, i + 1).drop_last() =~= templates@.subrange(0, i as int));
                    if hits_of(matches, templates[i].as_str()).is_some() {
                        n = n + 1;
                    }
                    i = i + 1;
                }
                assert(templates@.subrange(0, templates.len() as int) =~= templates@);
                n == *count
            },
            CompositionRule::AndNot { required, excluded } => {
                hits_of(matches, required.as_str()).is_some() && hits_of(matches, excluded.as_str()).is_none()
            },
            CompositionRule::Sequential { templates, max_distance } => {
                self.check_sequential(templates, matches, *max_distance)
            },
        }
    }

    /// Whether some match of the first template starts a chain through the
    /// others, each next match the first within `max_distance` lines after
    /// the previous one.
    pub fn check_sequential(&self, templates: &Vec<String>, matches: &Vec<(String, Vec<usize>)>, max_distance: usize) -> (r: bool)
        ensures
            r == sequence_holds(matches@, templates@, max_distance),
    {
        if templates.len() == 0 {
            return true;
        }
        let first = match hits_of(matches, templates[0].as_str()) {
            Some(v) => v,
            None => return false,
        };
        let mut s: usize = 0;
        while s < first.len()
            invariant
                templates.len() > 0,
                first_entry(matches@, templates@[0]@) == Some(*first),
                first@.len() > 0,
                s <= first.len(),
                forall|j: int| 0 <= j < s ==> !#[trigger] chain_from(matches@, templates@, 1, first@[j], max_distance),
            decreases first.len() - s,
        {
            let mut cur = first[s];
            let mut k: usize = 1;
            let mut ok = true;
            while k < templates.len() && ok
                invariant
                    s < first.len(),
                    1 <= k <= templates.len(),
                    ok ==> chain_from(matches@, templates@, k as nat, cur, max_distance) == chain_from(matches@, templates@, 1, first@[s as int], max_distance),
                    !ok ==> !chain_from(matches@, templates@, 1, first@[s as int], max_distance),
                decreases templates.len() - k + if ok { 1int } else { 0int },
            {
                match hits_of(matches, templates[k].as_str()) {
                    Some(next) => {
                        match find_next_line(next, cur, max_distance) {
                            Some(l) => {
                                cur = l;
                                k = k + 1;
                            },
                            None => {
                                ok = false;
                            },
                        }
                    },
                    None => {
                        ok = false;
                    },
                }
            }
            if ok {
                assert(chain_from(matches@, templates@, k as nat, cur, max_distance));
                return true;
            }
            s = s + 1;
        }
        false
    }
}

/// The composition for reentrancy: an external call followed within 50
/// lines by a state mutation.
pub fn create_reentrancy_composition() -> (r: ComposedTemplate)
    ensures
        r.id@ == "reentrancy-comprehensive"@,
        r.severity == Severity::Critical,
        r.base_templates@.len() == 3,
        r.composition_rules@.len() == 1,
        r.composition_rules@[0] matches CompositionRule::Sequential { templates, max_distance }
            && max_distance == 50 && templates@.len() == 2 && templates@[0]@ == "external-call"@
            && templates@[1]@ == "state-mutation"@,
{
    let rule = CompositionRule::Sequential { templates: vec![owned("external-call"), owned("state-mutation")], max_distance: 50 };
    ComposedTemplate {
        id: owned("reentrancy-comprehensive"),
        name: owned("Comprehensive Reentrancy Detection"),
        description: owned("Combines multiple reentrancy detection methods"),
        severity: Severity::Critical,
        base_templates: vec![
            owned("reentrancy-state-change-v4"),
            owned("unchecked-return-value-v4"),
            owned("strict-balance-equality-v4"),
        ],
        composition_rules: vec![rule],
    }
}

/// The composition for access control: a critical function without an
/// access modifier.
pub fn create_access_control_composition() -> (r: ComposedTemplate)
    ensures
        r.id@ == "access-control-comprehensive"@,
        r.severity == Severity::Critical,
        r.base_templates@.len() == 2,
        r.composition_rules@.len() == 1,
        r.composition_rules@[0] matches CompositionRule::AndNot { required, excluded }
            && required@ == "critical-function"@ && excluded@ == "access-modifier"@,
{
    let rule = CompositionRule::AndNot { required: owned("critical-function"), excluded: owned("access-modifier") };
    ComposedTemplate {
        id: owned("access-control-comprehensive"),
        name: owned("Comprehensive Access Control"),
        description: owned("Detects missing or weak access controls"),
        severity: Severity::Critical,
        base_templates: vec![owned("unprotected-selfdestruct-v4"), owned("tx-origin-authentication")],
        composition_rules: vec![rule],
    }
}

/// The DeFi composition: any of price manipulation, flash loan or sandwich
/// attack patterns.
pub fn create_defi_composition() -> (r: ComposedTemplate)
    ensures
        r.id@ == "defi-comprehensive"@,
        r.severity == Severity::High,
        r.base_templates@.len() == 3,
        r.composition_rules@.len() == 1,
        r.composition_rules@[0] matches CompositionRule::AnyOf(ts) && ts@.len() == 3 && ts@[0]@ == "price-manipulation"@
            && ts@[1]@ == "flash-loan-attack"@ && ts@[2]@ == "sandwich-attack"@,
{
    let rule = CompositionRule::AnyOf(vec![owned("price-manipulation"), owned("flash-loan-attack"), owned("sandwich-attack")]);
    ComposedTemplate {
        id: owned("defi-comprehensive"),
        name: owned("DeFi Vulnerability Suite"),
        description: owned("Comprehensive DeFi-specific vulnerability detection"),
        severity: Severity::High,
        base_templates: vec![
            owned("front-running-v4"),
            owned("strict-balance-equality-v4"),
            owned("reentrancy-state-change-v4"),
        ],
        composition_rules: vec![rule],
    }
}

/// Requiring all of some templates is requiring exactly as many of them as
/// there are: every template of `ts` has matches exactly when the number of
/// those with matches is the number of templates.
pub proof fn law_all_of_is_exactly_all(ms: Seq<(String, Vec<usize>)>, ts: Seq<String>)
    ensures
        (forall|i: int| 0 <= i < ts.len() ==> has_hits(ms, #[trigger] ts[i]@)) <==> count_with_hits(ms, ts) == ts.len(),
    decreases ts.len(),
{
    lemma_count_with_hits_le(ms, ts);
    if ts.len() > 0 {
        let prev = ts.drop_last();
        law_all_of_is_exactly_all(ms, prev);
        lemma_count_with_hits_le(ms, prev);
        if forall|i: int| 0 <= i < ts.len() ==> has_hits(ms, #[trigger] ts[i]@) {
            assert forall|i: int| 0 <= i < prev.len() implies has_hits(ms, #[trigger] prev[i]@) by {
                assert(prev[i] == ts[i]);
            }
            assert(has_hits(ms, ts[ts.len() - 1]@));
        }
        if count_with_hits(ms, ts) == ts.len() {
            assert forall|i: int| 0 <= i < ts.len() implies has_hits(ms, #[trigger] ts[i]@) by {
                if i < ts.len() - 1 {
                    assert(prev[i] == ts[i]);
                }
            }
        }
    }
}

proof fn lemma_count_with_hits_le(ms: Seq<(String, Vec<usize>)>, ts: Seq<String>)
    ensures
        count_with_hits(ms, ts) <= ts.len(),
    decreases ts.len(),
{
    if ts.len() > 0 {
        lemma_count_with_hits_le(ms, ts.drop_last());
    }
}

} // verus!
