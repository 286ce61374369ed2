//! Field masks: which commit attributes a term searches, plus the two
//! modifiers that negate a match or disable case folding.

use vstd::prelude::*;

verus! {

/// Field selection and modifiers of one search term.
///
/// The three field flags pick the commit attributes the term is compared
/// against; `negate` inverts the term's verdict and `case_sensitive`
/// disables the default case folding.
#[derive(Clone, Copy, Debug, PartialEq, Eq, Structural)]
pub struct FilterBy {
    pub sha: bool,
    pub author: bool,
    pub message: bool,
    pub negate: bool,
    pub case_sensitive: bool,
}

impl FilterBy {
    /// No field selected, no modifier set.
    pub open spec fn spec_empty() -> FilterBy {
        FilterBy { sha: false, author: false, message: false, negate: false, case_sensitive: false }
    }

    /// All three searchable fields, no modifier.
    pub open spec fn spec_everywhere() -> FilterBy {
        FilterBy { sha: true, author: true, message: true, negate: false, case_sensitive: false }
    }

    /// All fields and both modifiers.
    pub open spec fn spec_all() -> FilterBy {
        FilterBy { sha: true, author: true, message: true, negate: true, case_sensitive: true }
    }

    /// Flag-wise disjunction of two masks.
    pub open spec fn spec_union(self, other: FilterBy) -> FilterBy {
        FilterBy {
            sha: self.sha || other.sha,
            author: self.author || other.author,
            message: self.message || other.message,
            negate: self.negate || other.negate,
            case_sensitive: self.case_sensitive || other.case_sensitive,
        }
    }

    /// The mask with the two modifier flags cleared.
    pub open spec fn spec_exclude_modifiers(self) -> FilterBy {
        FilterBy { negate: false, case_sensitive: false, ..self }
    }

    /// True when no flag at all is set.
    pub open spec fn spec_is_empty(self) -> bool {
        self == FilterBy::spec_empty()
    }

    /// The flag a single query letter contributes; letters with no
    /// assigned flag contribute nothing.
    pub open spec fn spec_flag_of(c: char) -> FilterBy {
        if c == 's' {
            FilterBy { sha: true, ..FilterBy::spec_empty() }
        } else if c == 'a' {
            FilterBy { author: true, ..FilterBy::spec_empty() }
        } else if c == 'm' {
            FilterBy { message: true, ..FilterBy::spec_empty() }
        } else if c == '!' {
            FilterBy { negate: true, ..FilterBy::spec_empty() }
        } else if c == 'c' {
            FilterBy { case_sensitive: true, ..FilterBy::spec_empty() }
        } else {
            FilterBy::spec_empty()
        }
    }

    /// No field selected, no modifier set.
    pub fn empty() -> (r: FilterBy)
        ensures
            r == FilterBy::spec_empty(),
    {
        FilterBy { sha: false, author: false, message: false, negate: false, case_sensitive: false }
    }

    /// Searches only the commit identifier.
    pub fn sha() -> (r: FilterBy)
        ensures
            r.sha && !r.author && !r.message && !r.negate && !r.case_sensitive,
    {
        FilterBy { sha: true, author: false, message: false, negate: false, case_sensitive: false }
    }

    /// Searches only the author.
    pub fn author() -> (r: FilterBy)
        ensures
            !r.sha && r.author && !r.message && !r.negate && !r.case_sensitive,
    {
        FilterBy { sha: false, author: true, message: false, negate: false, case_sensitive: false }
    }

    /// Searches only the message.
    pub fn message() -> (r: FilterBy)
        ensures
            !r.sha && !r.author && r.message && !r.negate && !r.case_sensitive,
    {
        FilterBy { sha: false, author: false, message: true, negate: false, case_sensitive: false }
    }

    /// Only the negation modifier.
    pub fn negate() -> (r: FilterBy)
        ensures
            !r.sha && !r.author && !r.message && r.negate && !r.case_sensitive,
    {
        FilterBy { sha: false, author: false, message: false, negate: true, case_sensitive: false }
    }

    /// Only the case-sensitivity modifier.
    pub fn case_sensitive() -> (r: FilterBy)
        ensures
            !r.sha && !r.author && !r.message && !r.negate && r.case_sensitive,
    {
        FilterBy { sha: false, author: false, message: false, negate: false, case_sensitive: true }
    }

    /// All three searchable fields, no modifier.
    pub fn everywhere() -> (r: FilterBy)
        ensures
            r == FilterBy::spec_everywhere(),
    {
        FilterBy { sha: true, author: true, message: true, negate: false, case_sensitive: false }
    }

    /// All fields and both modifiers.
    pub fn all() -> (r: FilterBy)
        ensures
            r == FilterBy::spec_all(),
    {
        FilterBy { sha: true, author: true, message: true, negate: true, case_sensitive: true }
    }

    /// Flag-wise disjunction of two masks.
    pub fn union(self, other: FilterBy) -> (r: FilterBy)
        ensures
            r == self.spec_union(other),
    {
        FilterBy {
            sha: self.sha || other.sha,
            author: self.author || other.author,
            message: self.message || other.message,
            negate: self.negate || other.negate,
            case_sensitive: self.case_sensitive || other.case_sensitive,
        }
    }

    /// The mask with the two modifier flags cleared.
    pub fn exclude_modifiers(self) -> (r: FilterBy)
        ensures
            r == self.spec_exclude_modifiers(),
    {
        FilterBy { negate: false, case_sensitive: false, ..self }
    }

    /// True when no flag at all is set.
    pub fn is_empty(self) -> (r: bool)
        ensures
            r == self.spec_is_empty(),
    {
        !self.sha && !self.author && !self.message && !self.negate && !self.case_sensitive
    }

    /// The flag a single query letter contributes; letters with no
    /// assigned flag contribute nothing.
    pub fn from_char(c: char) -> (r: FilterBy)
        ensures
            r == FilterBy::spec_flag_of(c),
    {
        if c == 's' {
            FilterBy { sha: true, author: false, message: false, negate: false, case_sensitive: false }
        } else if c == 'a' {
            FilterBy { sha: false, author: true, message: false, negate: false, case_sensitive: false }
        } else if c == 'm' {
            FilterBy { sha: false, author: false, message: true, negate: false, case_sensitive: false }
        } else if c == '!' {
            FilterBy { sha: false, author: false, message: false, negate: true, case_sensitive: false }
        } else if c == 'c' {
            FilterBy { sha: false, author: false, message: false, negate: false, case_sensitive: true }
        } else {
            FilterBy { sha: false, author: false, message: false, negate: false, case_sensitive: false }
        }
    }
}

} // verus!
