//! The typed form of one decoded record document, and the identifier value
//! object used for organization lookups.

use vstd::prelude::*;

verus! {

/// The record's canonical identifier: an opaque path string plus its source
/// URI.
#[derive(Debug, Clone, PartialEq)]
pub struct Identifier {
    pub uri: String,
    pub path: String,
}

/// The person's name as found in the document; either part may be absent.
#[derive(Debug, Clone, PartialEq)]
pub struct PersonName {
    pub given_names: Option<String>,
    pub family_name: Option<String>,
}

#[derive(Debug, Clone, PartialEq)]
pub struct Person {
    pub name: PersonName,
}

/// An organization's disambiguated identifier: a scheme (`source`) and a
/// scheme-specific identifier value.
#[derive(Debug, Clone, PartialEq)]
pub struct OrgIdentifier {
    pub identifier: String,
    pub source: String,
}

#[derive(Debug, Clone, PartialEq)]
pub struct Organization {
    pub name: String,
    pub identifier: Option<OrgIdentifier>,
}

/// One employment: an optional end marker (presence means the employment is
/// over) and the organization.
#[derive(Debug, Clone, PartialEq)]
pub struct Employment {
    pub end: Option<()>,
    pub organization: Organization,
}

#[derive(Debug, Clone, PartialEq)]
pub struct AffiliationGroup {
    pub employment: Employment,
}

#[derive(Debug, Clone, PartialEq)]
pub struct Employments {
    pub employment: Option<Vec<AffiliationGroup>>,
}

#[derive(Debug, Clone, PartialEq)]
pub struct Activities {
    pub employments: Employments,
}

/// One decoded record document.
#[derive(Debug, Clone, PartialEq)]
pub struct Record {
    pub identifier: Identifier,
    pub person: Person,
    pub activities: Activities,
}

/// A (scheme, identifier) pair, the unit of organization-identifier
/// extraction and the key of the organization lookup table.
#[derive(Debug, Clone, PartialEq, Eq, Hash)]
pub struct ExtractedIdentifier {
    pub scheme: String,
    pub identifier: String,
}

impl Record {
    /// The employment entries of the record, in document order; an absent
    /// group list stands for no entries.
    pub open spec fn spec_groups(self) -> Seq<AffiliationGroup> {
        match self.activities.employments.employment {
            Some(v) => v@,
            None => Seq::empty(),
        }
    }
}

} // verus!
