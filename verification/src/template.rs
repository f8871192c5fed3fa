//! The rules of template loading: which files are templates, how large and
//! how long a template file may be, that template ids are unique and how
//! many templates a directory may hold. Reading the directory and parsing
//! each file are done by the caller, file by file, in directory order.
use vstd::prelude::*;
use crate::limits::LoaderLimits;
use crate::text::{owned, sbytes, str_eq, strs};
use crate::source_index::{source_lines, line_count};

verus! {

/// Why a template directory was refused.
#[derive(Debug, Clone, PartialEq, Eq)]
pub enum LoadError {
    /// A template file has more bytes than allowed.
    TooLarge { size: u64, max: u64 },
    /// A template file has more lines than allowed.
    TooComplex { lines: usize, max: usize },
    /// Two templates share an id.
    Duplicate { id: String },
    /// The directory holds more templates than allowed.
    TooMany { count: usize, max: usize },
}

/// How `Path::extension` reads a path: the text after the last dot of the
/// file name, where the name has a dot that does not start it.
pub uninterp spec fn extension_of(p: Seq<char>) -> Option<Seq<char>>;

/// `Path::extension` as text. What it returns is named by `extension_of`;
/// only that is stated.
#[verifier::external_body]
fn path_extension(p: &str) -> (r: Option<String>)
    ensures
        match r {
            Some(e) => extension_of(p@) == Some(e@),
            None => extension_of(p@) is None,
        },
{
    std::path::Path::new(p).extension().and_then(|e| e.to_str()).map(|e| e.to_string())
}

/// A path names a template file when its extension is `yaml` or `yml`.
pub open spec fn is_template_path(p: Seq<char>) -> bool {
    extension_of(p) == Some("yaml"@) || extension_of(p) == Some("yml"@)
}

/// Loads templates under limits.
pub struct TemplateLoader {
    limits: LoaderLimits,
    seen_ids: Vec<String>,
}

impl TemplateLoader {
    /// The limits this loader enforces.
    pub closed spec fn limits_view(&self) -> LoaderLimits {
        self.limits
    }

    /// The ids of the templates admitted so far, in order.
    pub closed spec fn admitted(&self) -> Seq<Seq<char>> {
        strs(self.seen_ids@)
    }

    /// A loader that has admitted nothing yet.
    pub fn new(limits: LoaderLimits) -> (r: Self)
        ensures
            r.limits_view() == limits,
            r.admitted() == Seq::<Seq<char>>::empty(),
            r.admitted().no_duplicates(),
    {
        let r = TemplateLoader { limits, seen_ids: Vec::new() };
        assert(r.admitted() =~= Seq::<Seq<char>>::empty());
        r
    }

    /// Whether a path names a template file.
    pub fn is_template_file(path: &str) -> (r: bool)
        ensures
            r == is_template_path(path@),
    {
        match path_extension(path) {
            Some(e) => str_eq(e.as_str(), "yaml") || str_eq(e.as_str(), "yml"),
            None => false,
        }
    }

    /// Checks a template file's size in bytes against the limit.
    pub fn check_size(&self, size: u64) -> (r: Result<(), LoadError>)
        ensures
            match r {
                Ok(()) => size <= self.limits_view().max_file_size,
                Err(e) => size > self.limits_view().max_file_size && e == (LoadError::TooLarge {
                    size,
                    max: self.limits_view().max_file_size,
                }),
            },
    {
        if size > self.limits.max_file_size {
            Err(LoadError::TooLarge { size, max: self.limits.max_file_size })
        } else {
            Ok(())
        }
    }

    /// Checks a template file's number of lines (as `str::lines` counts them)
    /// against the limit.
    pub fn check_lines(&self, content: &str) -> (r: Result<(), LoadError>)
        ensures
            match r {
                Ok(()) => line_count(sbytes(content)) <= self.limits_view().max_lines,
                Err(e) => line_count(sbytes(content)) > self.limits_view().max_lines && e == (LoadError::TooComplex {
                    lines: line_count(sbytes(content)) as usize,
                    max: self.limits_view().max_lines,
                }),
            },
    {
        let lines = source_lines(content).len();
        if lines > self.limits.max_lines {
            Err(LoadError::TooComplex { lines, max: self.limits.max_lines })
        } else {
            Ok(())
        }
    }

    /// Accepts a parsed template with id `id`, refusing an id admitted before
    /// and a template beyond the limit. A refused duplicate is not admitted;
    /// the template beyond the limit is admitted before it is refused, as the
    /// count it reports includes it.
    pub fn accept_template(&mut self, id: &str) -> (r: Result<(), LoadError>)
        requires
            old(self).admitted().len() < usize::MAX,
        ensures
            final(self).limits_view() == old(self).limits_view(),
            old(self).admitted().no_duplicates() ==> final(self).admitted().no_duplicates(),
            old(self).admitted().contains(id@) ==> final(self).admitted() == old(self).admitted() && (r matches Err(
                LoadError::Duplicate { id: d },
            ) && d@ == id@),
            !old(self).admitted().contains(id@) ==> final(self).admitted() == old(self).admitted().push(id@),
            !old(self).admitted().contains(id@) ==> match r {
                Ok(()) => final(self).admitted().len() <= old(self).limits_view().max_templates,
                Err(e) => final(self).admitted().len() > old(self).limits_view().max_templates && e == (LoadError::TooMany {
                    count: final(self).admitted().len() as usize,
                    max: old(self).limits_view().max_templates,
                }),
            },
    {
        let ghost before = self.admitted();
        let mut i: usize = 0;
        while i < self.seen_ids.len()
            invariant
                i <= self.seen_ids.len(),
                before == strs(self.seen_ids@),
                forall|j: int| 0 <= j < i ==> before[j] != id@,
            decreases self.seen_ids.len() - i,
        {
            assert(before[i as int] == self.seen_ids@[i as int]@);
            if str_eq(self.seen_ids[i].as_str(), id) {
                assert(before.contains(id@));
                return Err(LoadError::Duplicate { id: owned(id) });
            }
            i = i + 1;
        }
        assert(!before.contains(id@));
        self.seen_ids.push(owned(id));
        assert(self.admitted() =~= before.push(id@));
        let count = self.seen_ids.len();
        if count > self.limits.max_templates {
            Err(LoadError::TooMany { count, max: self.limits.max_templates })
        } else {
            Ok(())
        }
    }
}

} // verus!
