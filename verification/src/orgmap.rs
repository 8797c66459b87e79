//! The run-scoped organization lookup table: an immutable mapping from a
//! (scheme, identifier) pair to the canonical organization id, built once
//! from the rows of the mapping file before processing starts.

use vstd::prelude::*;

use crate::record::ExtractedIdentifier;
use crate::text::{str_eq, tail_of, tail_segment};

verus! {

/// The lookup key of an identifier pair: both fields as character sequences.
pub open spec fn org_key(e: ExtractedIdentifier) -> (Seq<char>, Seq<char>) {
    (e.scheme@, e.identifier@)
}

/// The mapping that a row list denotes: rows are added in order, so a later
/// row with the same key shadows an earlier one.
pub open spec fn map_of_entries(s: Seq<(ExtractedIdentifier, String)>) -> Map<
    (Seq<char>, Seq<char>),
    Seq<char>,
>
    decreases s.len(),
{
    if s.len() == 0 {
        Map::empty()
    } else {
        map_of_entries(s.drop_last()).insert(org_key(s.last().0), s.last().1@)
    }
}

/// The key a mapping-file row is stored under: FUNDREF identifiers get the
/// same trailing-segment normalization that lookups apply, so that a row
/// written with the full identifier value still resolves.
pub open spec fn row_key(scheme: Seq<char>, identifier: Seq<char>) -> (Seq<char>, Seq<char>) {
    if scheme == "FUNDREF"@ {
        (scheme, tail_segment(identifier))
    } else {
        (scheme, identifier)
    }
}

/// The mapping denoted by (scheme, identifier, canonical id) rows.
pub open spec fn map_of_rows(rows: Seq<(String, String, String)>) -> Map<
    (Seq<char>, Seq<char>),
    Seq<char>,
>
    decreases rows.len(),
{
    if rows.len() == 0 {
        Map::empty()
    } else {
        map_of_rows(rows.drop_last()).insert(
            row_key(rows.last().0@, rows.last().1@),
            rows.last().2@,
        )
    }
}

/// The (scheme, identifier) -> canonical-organization-id lookup table.
pub struct OrgMap {
    entries: Vec<(ExtractedIdentifier, String)>,
}

impl View for OrgMap {
    type V = Map<(Seq<char>, Seq<char>), Seq<char>>;

    closed spec fn view(&self) -> Map<(Seq<char>, Seq<char>), Seq<char>> {
        map_of_entries(self.entries@)
    }
}

proof fn lemma_map_of_absent(s: Seq<(ExtractedIdentifier, String)>, k: (Seq<char>, Seq<char>))
    requires
        forall|j: int| 0 <= j < s.len() ==> org_key(s[j].0) != k,
    ensures
        !map_of_entries(s).contains_key(k),
    decreases s.len(),
{
    if s.len() > 0 {
        lemma_map_of_absent(s.drop_last(), k);
    }
}

proof fn lemma_map_of_found(s: Seq<(ExtractedIdentifier, String)>, k: (Seq<char>, Seq<char>), i: int)
    requires
        0 <= i < s.len(),
        org_key(s[i].0) == k,
        forall|j: int| i < j < s.len() ==> org_key(s[j].0) != k,
    ensures
        map_of_entries(s).contains_key(k),
        map_of_entries(s)[k] == s[i].1@,
    decreases s.len(),
{
    if i == s.len() - 1 {
    } else {
        lemma_map_of_found(s.drop_last(), k, i);
    }
}

impl OrgMap {
    /// The empty table; a missing mapping file yields this.
    pub fn new() -> (r: OrgMap)
        ensures
            r@ == Map::<(Seq<char>, Seq<char>), Seq<char>>::empty(),
    {
        OrgMap { entries: Vec::new() }
    }

    /// Adds one row; a later row with the same key shadows an earlier one.
    pub fn insert(&mut self, scheme: String, identifier: String, canonical: String)
        ensures
            final(self)@ == old(self)@.insert((scheme@, identifier@), canonical@),
    {
        let ghost k: (Seq<char>, Seq<char>) = (scheme@, identifier@);
        self.entries.push((ExtractedIdentifier { scheme, identifier }, canonical));
        proof {
            assert(self.entries@.drop_last() =~= old(self).entries@);
        }
    }

    /// The table holding the rows of the mapping file, in order.
    pub fn from_rows(rows: &Vec<(String, String, String)>) -> (r: OrgMap)
        ensures
            r@ == map_of_rows(rows@),
    {
        let mut m = OrgMap::new();
        let mut i: usize = 0;
        while i < rows.len()
            invariant
                0 <= i <= rows@.len(),
                m@ == map_of_rows(rows@.subrange(0, i as int)),
            decreases rows@.len() - i,
        {
            let scheme = rows[i].0.clone();
            let identifier = if str_eq(scheme.as_str(), "FUNDREF") {
                tail_of(rows[i].1.as_str())
            } else {
                rows[i].1.clone()
            };
            m.insert(scheme, identifier, rows[i].2.clone());
            i += 1;
            proof {
                let pre = rows@.subrange(0, i as int);
                assert(pre.drop_last() =~= rows@.subrange(0, i - 1));
                assert(pre.last() == rows@[i - 1]);
            }
        }
        proof {
            assert(rows@.subrange(0, rows@.len() as int) =~= rows@);
        }
        m
    }

    /// Looks a key up; the latest row with that key decides the result.
    pub fn get(&self, scheme: &str, identifier: &str) -> (r: Option<&String>)
        ensures
            match r {
                Some(v) => self@.contains_key((scheme@, identifier@)) && v@ == self@[
                    (scheme@, identifier@)
                ],
                None => !self@.contains_key((scheme@, identifier@)),
            },
    {
        let ghost k: (Seq<char>, Seq<char>) = (scheme@, identifier@);
        let mut i: usize = self.entries.len();
        while i > 0
            invariant
                0 <= i <= self.entries@.len(),
                k == (scheme@, identifier@),
                forall|j: int| i <= j < self.entries@.len() ==> org_key(self.entries@[j].0) != k,
            decreases i,
        {
            i -= 1;
            let e = &self.entries[i];
            if str_eq(e.0.scheme.as_str(), scheme) && str_eq(e.0.identifier.as_str(), identifier) {
                proof {
                    lemma_map_of_found(self.entries@, k, i as int);
                }
                return Some(&e.1);
            }
        }
        proof {
            lemma_map_of_absent(self.entries@, k);
        }
        None
    }
}

} // verus!
