//! The interactive pattern builder: the pattern being edited, the test code,
//! and the decisions of its menu; the terminal dialogue runs around it.
use vstd::prelude::*;
use vstd::string::StrSliceExecFns;
use crate::types::{Pattern, PatternKind, Severity, Template};
use crate::text::{owned, str_eq, str_trim, trimmed};

verus! {

/// The pattern being built and the code it is tried on.
pub struct PatternBuilder {
    pattern: String,
    test_code: String,
}

/// What a line typed at the menu asks for.
#[derive(Debug, Clone, Copy, PartialEq, Eq, Structural)]
pub enum MenuChoice {
    EditPattern,
    LoadTestCode,
    SavePattern,
    Exit,
    Invalid,
}

/// The menu choice a (trimmed) answer stands for.
pub open spec fn menu_choice_of(t: Seq<char>) -> MenuChoice {
    if t == "1"@ {
        MenuChoice::EditPattern
    } else if t == "2"@ {
        MenuChoice::LoadTestCode
    } else if t == "3"@ {
        MenuChoice::SavePattern
    } else if t == "4"@ {
        MenuChoice::Exit
    } else {
        MenuChoice::Invalid
    }
}

/// The menu choice of a typed line.
pub fn menu_choice(input: &str) -> (r: MenuChoice)
    ensures
        r == menu_choice_of(trimmed(input@)),
{
    let t = str_trim(input);
    if str_eq(t, "1") {
        MenuChoice::EditPattern
    } else if str_eq(t, "2") {
        MenuChoice::LoadTestCode
    } else if str_eq(t, "3") {
        MenuChoice::SavePattern
    } else if str_eq(t, "4") {
        MenuChoice::Exit
    } else {
        MenuChoice::Invalid
    }
}

/// Whether an answer to a yes/no question is yes (`y`, in any case).
pub fn confirms(answer: &str) -> (r: bool)
    ensures
        r == (trimmed(answer@) == "y"@ || trimmed(answer@) == "Y"@),
{
    let t = str_trim(answer);
    str_eq(t, "y") || str_eq(t, "Y")
}

impl PatternBuilder {
    /// The pattern being built.
    pub closed spec fn pattern_view(&self) -> Seq<char> {
        self.pattern@
    }

    /// The test code.
    pub closed spec fn test_code_view(&self) -> Seq<char> {
        self.test_code@
    }

    /// A builder with an empty pattern and no test code.
    pub fn new() -> (r: Self)
        ensures
            r.pattern_view() == Seq::<char>::empty(),
            r.test_code_view() == Seq::<char>::empty(),
    {
        proof {
            reveal_strlit("");
        }
        PatternBuilder { pattern: owned(""), test_code: owned("") }
    }

    /// Replaces the pattern.
    pub fn set_pattern(&mut self, pattern: &str)
        ensures
            final(self).pattern_view() == pattern@,
            final(self).test_code_view() == old(self).test_code_view(),
    {
        self.pattern = owned(pattern);
    }

    /// Replaces the test code.
    pub fn set_test_code(&mut self, code: String)
        ensures
            final(self).test_code_view() == code@,
            final(self).pattern_view() == old(self).pattern_view(),
    {
        self.test_code = code;
    }

    /// The pattern being built.
    pub fn pattern(&self) -> (r: &str)
        ensures
            r@ == self.pattern_view(),
    {
        self.pattern.as_str()
    }

    /// The test code.
    pub fn test_code(&self) -> (r: &str)
        ensures
            r@ == self.test_code_view(),
    {
        self.test_code.as_str()
    }

    /// Takes a line typed as the new pattern: a blank line keeps the pattern,
    /// any other replaces it, trimmed. Says whether the pattern changed.
    pub fn edit_with_input(&mut self, input: &str) -> (r: bool)
        ensures
            r == (trimmed(input@).len() > 0),
            final(self).pattern_view() == if r { trimmed(input@) } else { old(self).pattern_view() },
            final(self).test_code_view() == old(self).test_code_view(),
    {
        let t = str_trim(input);
        if t.unicode_len() > 0 {
            self.pattern = owned(t);
            true
        } else {
            false
        }
    }

    /// The semantic pattern to save: the builder's pattern under the typed
    /// id and message, trimmed.
    pub fn pattern_to_save(&self, pattern_id: &str, message: &str) -> (r: Pattern)
        ensures
            r.id@ == trimmed(pattern_id@),
            r.pattern@ == self.pattern_view(),
            r.message@ == trimmed(message@),
            r.kind == PatternKind::Semantic,
            r.severity == Severity::Medium,
    {
        Pattern {
            id: owned(str_trim(pattern_id)),
            kind: PatternKind::Semantic,
            pattern: owned(self.pattern.as_str()),
            severity: Severity::Medium,
            message: owned(str_trim(message)),
        }
    }
}

impl Default for PatternBuilder {
    fn default() -> (r: Self)
        ensures
            r.pattern_view() == Seq::<char>::empty(),
            r.test_code_view() == Seq::<char>::empty(),
    {
        Self::new()
    }
}

/// A new template made by the builder: the typed name, trimmed, medium
/// severity, no tags or patterns yet.
pub fn new_builder_template(id: &str, name: &str) -> (r: Template)
    ensures
        r.id@ == id@,
        r.name@ == trimmed(name@),
        r.description@ == "Created via Pattern Builder"@,
        r.severity == Severity::Medium,
        r.tags@.len() == 0,
        r.patterns@.len() == 0,
{
    Template {
        id: owned(id),
        name: owned(str_trim(name)),
        description: owned("Created via Pattern Builder"),
        severity: Severity::Medium,
        tags: Vec::new(),
        patterns: Vec::new(),
    }
}

} // verus!
