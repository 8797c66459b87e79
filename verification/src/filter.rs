//! The optional display-name filter: a pattern compiled once and shared
//! read-only by the transform workers. A record whose display name does not
//! match is silently excluded; that is not an error.

use vstd::prelude::*;

verus! {

/// Whether the pattern, as the regular-expression library interprets it,
/// matches anywhere in the text; a pure function of the two character
/// sequences.
pub uninterp spec fn regex_match(pattern: Seq<char>, text: Seq<char>) -> bool;

/// Whether the regular-expression library accepts the pattern; a pure
/// function of the pattern's characters.
pub uninterp spec fn regex_compiles(pattern: Seq<char>) -> bool;

#[verifier::external_type_specification]
#[verifier::external_body]
pub struct ExRegex(regex::Regex);

/// A compiled display-name pattern, kept beside its source text. The only
/// constructor compiles `re` from `pattern`, so `is_match` answers for the
/// stored pattern.
pub struct NameFilter {
    pattern: String,
    re: regex::Regex,
}

/// Relies on `regex::Regex::new`: compiles the pattern, failing exactly on
/// one the library rejects; acceptance depends on the pattern alone.
#[verifier::external_body]
fn regex_compile(pattern: &str) -> (r: Option<regex::Regex>)
    ensures
        r is Some <==> regex_compiles(pattern@),
{
    regex::Regex::new(pattern).ok()
}

impl NameFilter {
    /// The source text of the pattern.
    pub closed spec fn spec_pattern(&self) -> Seq<char> {
        self.pattern@
    }

    /// Compiles a pattern, succeeding exactly when the library accepts it; a
    /// rejected pattern yields nothing, and the filter is then not applied.
    pub fn new(pattern: &str) -> (r: Option<NameFilter>)
        ensures
            r is Some <==> regex_compiles(pattern@),
            r is Some ==> r->Some_0.spec_pattern() == pattern@,
    {
        match regex_compile(pattern) {
            Some(re) => Some(NameFilter { pattern: String::from_str(pattern), re }),
            None => None,
        }
    }

    /// Relies on `regex::Regex::is_match`: true exactly when the pattern
    /// matches somewhere in `text`; a function of pattern and text alone.
    #[verifier::external_body]
    pub(crate) fn is_match(&self, text: &str) -> (r: bool)
        ensures
            r == regex_match(self.spec_pattern(), text@),
    {
        self.re.is_match(text)
    }
}

/// Whether a display name passes the optional filter: no filter accepts
/// every name.
pub open spec fn passes_filter(f: Option<NameFilter>, name: Seq<char>) -> bool {
    match f {
        None => true,
        Some(nf) => regex_match(nf.spec_pattern(), name),
    }
}

} // verus!
