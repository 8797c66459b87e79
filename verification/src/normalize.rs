//! The record normalizer: the pure transformation from one decoded record to
//! its compact identity form — name derivation, active-affiliation filtering,
//! organization-identifier resolution and affiliation deduplication.

use vstd::prelude::*;

use crate::orgmap::OrgMap;
use crate::record::{AffiliationGroup, Employment, Organization, PersonName, Record};
use crate::text::{blank, is_blank, nfc_of, nfc_str, str_eq, tail_of, tail_segment, StrSet};

verus! {

/// One normalized affiliation: the organization's display name and, when the
/// identifier resolves, the canonical organization id.
#[derive(Debug, Clone, PartialEq)]
pub struct NameAffiliation {
    pub id: Option<String>,
    pub name: String,
}

/// One identifier entry of the output: a scheme and an identifier value.
#[derive(Debug, Clone, PartialEq)]
pub struct NameIdentifier {
    pub scheme: String,
    pub identifier: String,
}

/// The normalized identity of one record.
#[derive(Debug, Clone, PartialEq)]
pub struct NameJson {
    pub given_name: String,
    pub family_name: String,
    pub name: String,
    pub identifiers: Vec<NameIdentifier>,
    pub affiliations: Option<Vec<NameAffiliation>>,
}

/// Normalization failed for one record: no usable person name. Carries the
/// record's canonical identifier for the diagnostic.
#[derive(Debug, Clone, PartialEq)]
pub struct NormalizeError {
    pub pid: String,
}

/// The mathematical form of one affiliation.
pub ghost struct AffView {
    pub id: Option<Seq<char>>,
    pub name: Seq<char>,
}

/// The mathematical form of one normalized identity.
pub ghost struct NameView {
    pub given: Seq<char>,
    pub family: Seq<char>,
    pub display: Seq<char>,
    pub orcid: Seq<char>,
    pub affs: Seq<AffView>,
}

pub open spec fn aff_view(a: NameAffiliation) -> AffView {
    AffView {
        id: match a.id {
            Some(s) => Some(s@),
            None => None,
        },
        name: a.name@,
    }
}

pub open spec fn affs_view(s: Seq<NameAffiliation>) -> Seq<AffView> {
    Seq::new(s.len(), |i: int| aff_view(s[i]))
}

/// The canonical organization id that an organization resolves to, if any:
/// a ROR identifier's trailing path segment directly; any other scheme via
/// the lookup table, with the same trailing-segment normalization applied
/// first to FUNDREF identifiers.
pub open spec fn resolve_spec(
    org: Organization,
    m: Map<(Seq<char>, Seq<char>), Seq<char>>,
) -> Option<Seq<char>> {
    match org.identifier {
        None => None,
        Some(oi) => {
            if oi.source@ == "ROR"@ {
                Some(tail_segment(oi.identifier@))
            } else {
                let key = if oi.source@ == "FUNDREF"@ {
                    tail_segment(oi.identifier@)
                } else {
                    oi.identifier@
                };
                if m.contains_key((oi.source@, key)) {
                    Some(m[(oi.source@, key)])
                } else {
                    None
                }
            }
        },
    }
}

/// The affiliation derived from one active employment.
pub open spec fn aff_of(e: Employment, m: Map<(Seq<char>, Seq<char>), Seq<char>>) -> AffView {
    AffView { id: resolve_spec(e.organization, m), name: nfc_of(e.organization.name@) }
}

/// The affiliations of the active employments (those without an end marker),
/// in document order.
pub open spec fn active_affs(
    gs: Seq<AffiliationGroup>,
    m: Map<(Seq<char>, Seq<char>), Seq<char>>,
) -> Seq<AffView>
    decreases gs.len(),
{
    if gs.len() == 0 {
        Seq::empty()
    } else {
        let p = active_affs(gs.drop_last(), m);
        if gs.last().employment.end is Some {
            p
        } else {
            p.push(aff_of(gs.last().employment, m))
        }
    }
}

/// Whether the canonical id of `s[i]` already occurs at an earlier position.
pub open spec fn id_seen_before(s: Seq<AffView>, i: int) -> bool {
    s[i].id is Some && exists|j: int| 0 <= j < i && s[j].id == s[i].id
}

/// The first deduplication pass applied to the first `i` entries.
pub open spec fn dedup_ids_upto(s: Seq<AffView>, i: int) -> Seq<AffView>
    decreases i,
{
    if i <= 0 {
        Seq::empty()
    } else {
        let p = dedup_ids_upto(s, i - 1);
        if id_seen_before(s, i - 1) {
            p
        } else {
            p.push(s[i - 1])
        }
    }
}

/// First deduplication pass: an affiliation whose canonical id already
/// occurred is dropped; affiliations without an id are always kept.
pub open spec fn dedup_ids(s: Seq<AffView>) -> Seq<AffView> {
    dedup_ids_upto(s, s.len() as int)
}

/// The canonical ids occurring among the first `i` entries.
pub open spec fn id_set(s: Seq<AffView>, i: int) -> Set<Seq<char>>
    decreases i,
{
    if i <= 0 {
        Set::empty()
    } else {
        let p = id_set(s, i - 1);
        match s[i - 1].id {
            Some(x) => p.insert(x),
            None => p,
        }
    }
}

proof fn lemma_id_set_mem(s: Seq<AffView>, i: int, x: Seq<char>)
    requires
        0 <= i <= s.len(),
    ensures
        id_set(s, i).contains(x) <==> exists|j: int|
            0 <= j < i && (#[trigger] s[j]).id == Some(x),
    decreases i,
{
    if i > 0 {
        lemma_id_set_mem(s, i - 1, x);
        if id_set(s, i).contains(x) {
            if s[i - 1].id == Some(x) {
                assert((s[i - 1]).id == Some(x));
            } else {
                let j = choose|j: int| 0 <= j < i - 1 && (#[trigger] s[j]).id == Some(x);
                assert((s[j]).id == Some(x));
            }
        }
        if exists|j: int| 0 <= j < i && (#[trigger] s[j]).id == Some(x) {
            let j = choose|j: int| 0 <= j < i && (#[trigger] s[j]).id == Some(x);
            if j < i - 1 {
                assert(id_set(s, i - 1).contains(x));
            }
        }
    }
}

/// Whether `s[i]` lacks an id and an earlier id-less entry has its name.
pub open spec fn name_seen_before(s: Seq<AffView>, i: int) -> bool {
    s[i].id is None && exists|j: int|
        0 <= j < i && s[j].id is None && s[j].name == s[i].name
}

/// The second deduplication pass applied to the first `i` entries.
pub open spec fn dedup_names_upto(s: Seq<AffView>, i: int) -> Seq<AffView>
    decreases i,
{
    if i <= 0 {
        Seq::empty()
    } else {
        let p = dedup_names_upto(s, i - 1);
        if name_seen_before(s, i - 1) {
            p
        } else {
            p.push(s[i - 1])
        }
    }
}

/// Second deduplication pass: among affiliations without a canonical id, a
/// display name that already occurred is dropped.
pub open spec fn dedup_names(s: Seq<AffView>) -> Seq<AffView> {
    dedup_names_upto(s, s.len() as int)
}

/// The display names of id-less affiliations among the first `i` entries.
pub open spec fn idless_name_set(s: Seq<AffView>, i: int) -> Set<Seq<char>>
    decreases i,
{
    if i <= 0 {
        Set::empty()
    } else {
        let p = idless_name_set(s, i - 1);
        if s[i - 1].id is None {
            p.insert(s[i - 1].name)
        } else {
            p
        }
    }
}

proof fn lemma_idless_name_set_mem(s: Seq<AffView>, i: int, x: Seq<char>)
    requires
        0 <= i <= s.len(),
    ensures
        idless_name_set(s, i).contains(x) <==> exists|j: int|
            0 <= j < i && (#[trigger] s[j]).id is None && s[j].name == x,
    decreases i,
{
    if i > 0 {
        lemma_idless_name_set_mem(s, i - 1, x);
        if idless_name_set(s, i).contains(x) {
            if s[i - 1].id is None && s[i - 1].name == x {
                assert((s[i - 1]).id is None && s[i - 1].name == x);
            } else {
                let j = choose|j: int|
                    0 <= j < i - 1 && (#[trigger] s[j]).id is None && s[j].name == x;
                assert((s[j]).id is None && s[j].name == x);
            }
        }
        if exists|j: int| 0 <= j < i && (#[trigger] s[j]).id is None && s[j].name == x {
            let j = choose|j: int| 0 <= j < i && (#[trigger] s[j]).id is None && s[j].name == x;
            if j < i - 1 {
                assert(idless_name_set(s, i - 1).contains(x));
            }
        }
    }
}

/// Both deduplication passes, in order.
pub open spec fn dedup_affs(s: Seq<AffView>) -> Seq<AffView> {
    dedup_names(dedup_ids(s))
}

/// Whether the option holds a value that is non-empty after trimming.
pub open spec fn present_nonblank(o: Option<String>) -> bool {
    o is Some && !blank(o->Some_0@)
}

/// The name parts derived from the person's name, before Unicode
/// normalization.
pub ghost struct NameParts {
    pub given: Seq<char>,
    pub family: Seq<char>,
    pub display: Seq<char>,
}

/// Name derivation: with both parts usable, the display name is
/// "family, given"; with exactly one usable part, that value serves as both
/// family and display name and the given name is empty; otherwise the record
/// has no usable name.
pub open spec fn derive_parts(n: PersonName) -> Option<NameParts> {
    let g = present_nonblank(n.given_names);
    let f = present_nonblank(n.family_name);
    if g && f {
        Some(
            NameParts {
                given: n.given_names->Some_0@,
                family: n.family_name->Some_0@,
                display: n.family_name->Some_0@ + ", "@ + n.given_names->Some_0@,
            },
        )
    } else if g {
        Some(
            NameParts {
                given: Seq::empty(),
                family: n.given_names->Some_0@,
                display: n.given_names->Some_0@,
            },
        )
    } else if f {
        Some(
            NameParts {
                given: Seq::empty(),
                family: n.family_name->Some_0@,
                display: n.family_name->Some_0@,
            },
        )
    } else {
        None
    }
}

/// Unicode normalization of a derived name part; the empty part stays empty.
pub open spec fn nfc_part(s: Seq<char>) -> Seq<char> {
    if s.len() == 0 {
        s
    } else {
        nfc_of(s)
    }
}

/// What normalization makes of one record: `None` exactly when no usable
/// name can be derived.
pub open spec fn normalize_spec(
    r: Record,
    m: Map<(Seq<char>, Seq<char>), Seq<char>>,
) -> Option<NameView> {
    match derive_parts(r.person.name) {
        None => None,
        Some(p) => Some(
            NameView {
                given: nfc_part(p.given),
                family: nfc_part(p.family),
                display: nfc_part(p.display),
                orcid: r.identifier.path@,
                affs: dedup_affs(active_affs(r.spec_groups(), m)),
            },
        ),
    }
}

/// Whether the in-memory output value denotes the mathematical identity `v`:
/// the name fields agree, the identifier list is the single "orcid" entry
/// bound to the record's canonical path, and the affiliation list is present
/// exactly when non-empty.
pub open spec fn name_json_matches(n: NameJson, v: NameView) -> bool {
    &&& n.given_name@ == v.given
    &&& n.family_name@ == v.family
    &&& n.name@ == v.display
    &&& n.identifiers@.len() == 1
    &&& n.identifiers@[0].scheme@ == "orcid"@
    &&& n.identifiers@[0].identifier@ == v.orcid
    &&& match n.affiliations {
        None => v.affs.len() == 0,
        Some(affs) => v.affs.len() > 0 && affs_view(affs@) == v.affs,
    }
}

/// A field-by-field copy of one affiliation.
fn clone_aff(a: &NameAffiliation) -> (r: NameAffiliation)
    ensures
        aff_view(r) == aff_view(*a),
{
    NameAffiliation {
        id: match &a.id {
            Some(s) => Some(s.clone()),
            None => None,
        },
        name: a.name.clone(),
    }
}

/// Resolves an organization's identifier to a canonical organization id.
fn resolve_org(org: &Organization, m: &OrgMap) -> (r: Option<String>)
    ensures
        match r {
            Some(s) => resolve_spec(*org, m@) == Some(s@),
            None => resolve_spec(*org, m@) is None,
        },
{
    match &org.identifier {
        None => None,
        Some(oi) => {
            if str_eq(oi.source.as_str(), "ROR") {
                Some(tail_of(oi.identifier.as_str()))
            } else {
                let key = if str_eq(oi.source.as_str(), "FUNDREF") {
                    tail_of(oi.identifier.as_str())
                } else {
                    oi.identifier.clone()
                };
                match m.get(oi.source.as_str(), key.as_str()) {
                    Some(v) => Some(v.clone()),
                    None => None,
                }
            }
        },
    }
}

/// The affiliations of the active employments, in document order, with
/// display names in canonical composition.
fn build_affiliations(groups: &Vec<AffiliationGroup>, m: &OrgMap) -> (r: Vec<NameAffiliation>)
    ensures
        affs_view(r@) == active_affs(groups@, m@),
{
    let mut r: Vec<NameAffiliation> = Vec::new();
    let mut i: usize = 0;
    while i < groups.len()
        invariant
            0 <= i <= groups@.len(),
            affs_view(r@) == active_affs(groups@.subrange(0, i as int), m@),
        decreases groups@.len() - i,
    {
        let e = &groups[i].employment;
        if e.end.is_none() {
            let id = resolve_org(&e.organization, m);
            let name = nfc_str(e.organization.name.as_str());
            r.push(NameAffiliation { id, name });
        }
        i += 1;
        proof {
            let pre = groups@.subrange(0, i as int);
            assert(pre.drop_last() =~= groups@.subrange(0, i - 1));
            assert(pre.last() == groups@[i - 1]);
            assert(affs_view(r@) =~= active_affs(pre, m@));
        }
    }
    proof {
        assert(groups@.subrange(0, groups@.len() as int) =~= groups@);
    }
    r
}

/// First pass: drop affiliations whose canonical id was already kept.
fn dedup_by_id(affs: &Vec<NameAffiliation>) -> (r: Vec<NameAffiliation>)
    ensures
        affs_view(r@) == dedup_ids(affs_view(affs@)),
{
    let ghost vs = affs_view(affs@);
    let mut r: Vec<NameAffiliation> = Vec::new();
    let mut seen = StrSet::new();
    let mut i: usize = 0;
    while i < affs.len()
        invariant
            0 <= i <= affs@.len(),
            vs == affs_view(affs@),
            affs_view(r@) == dedup_ids_upto(vs, i as int),
            seen@ == id_set(vs, i as int),
        decreases affs@.len() - i,
    {
        let a = &affs[i];
        proof {
            assert(aff_view(affs@[i as int]) == vs[i as int]);
        }
        let keep = match &a.id {
            Some(id) => {
                proof {
                    lemma_id_set_mem(vs, i as int, id@);
                }
                if seen.contains(id.as_str()) {
                    false
                } else {
                    seen.insert(id.clone());
                    true
                }
            },
            None => true,
        };
        if keep {
            r.push(clone_aff(a));
        }
        i += 1;
        proof {
            assert(id_seen_before(vs, i - 1) == !keep);
            assert(affs_view(r@) =~= dedup_ids_upto(vs, i as int));
            assert(seen@ =~= id_set(vs, i as int));
        }
    }
    r
}

/// Second pass: among affiliations without a canonical id, drop those whose
/// display name was already kept.
fn dedup_by_name(affs: &Vec<NameAffiliation>) -> (r: Vec<NameAffiliation>)
    ensures
        affs_view(r@) == dedup_names(affs_view(affs@)),
{
    let ghost vs = affs_view(affs@);
    let mut r: Vec<NameAffiliation> = Vec::new();
    let mut seen = StrSet::new();
    let mut i: usize = 0;
    while i < affs.len()
        invariant
            0 <= i <= affs@.len(),
            vs == affs_view(affs@),
            affs_view(r@) == dedup_names_upto(vs, i as int),
            seen@ == idless_name_set(vs, i as int),
        decreases affs@.len() - i,
    {
        let a = &affs[i];
        proof {
            assert(aff_view(affs@[i as int]) == vs[i as int]);
        }
        let keep = match &a.id {
            Some(_) => true,
            None => {
                proof {
                    lemma_idless_name_set_mem(vs, i as int, a.name@);
                }
                if seen.contains(a.name.as_str()) {
                    false
                } else {
                    seen.insert(a.name.clone());
                    true
                }
            },
        };
        if keep {
            r.push(clone_aff(a));
        }
        i += 1;
        proof {
            assert(name_seen_before(vs, i - 1) == !keep);
            assert(affs_view(r@) =~= dedup_names_upto(vs, i as int));
            assert(seen@ =~= idless_name_set(vs, i as int));
        }
    }
    r
}

/// Whether the option holds a value that is non-empty after trimming.
fn opt_nonblank(o: &Option<String>) -> (r: bool)
    ensures
        r == present_nonblank(*o),
{
    match o {
        Some(s) => !is_blank(s.as_str()),
        None => false,
    }
}

/// Normalizes one record: filters the active affiliations, resolves and
/// deduplicates them, and derives the display name. Fails exactly when no
/// usable person name can be derived; the error carries the record's
/// canonical identifier.
pub fn record_to_json(record: &Record, org_map: &OrgMap) -> (r: Result<NameJson, NormalizeError>)
    ensures
        r is Ok <==> normalize_spec(*record, org_map@) is Some,
        r is Ok ==> name_json_matches(r->Ok_0, normalize_spec(*record, org_map@)->Some_0),
        r is Err ==> r->Err_0.pid@ == record.identifier.path@,
{
    let raw = match &record.activities.employments.employment {
        Some(gs) => build_affiliations(gs, org_map),
        None => Vec::new(),
    };
    proof {
        assert(affs_view(raw@) =~= active_affs(record.spec_groups(), org_map@));
    }
    let pass1 = dedup_by_id(&raw);
    let affs = dedup_by_name(&pass1);

    let g_ok = opt_nonblank(&record.person.name.given_names);
    let f_ok = opt_nonblank(&record.person.name.family_name);

    let (given_name, family_name, name): (String, String, String) = if g_ok && f_ok {
        let g = match &record.person.name.given_names {
            Some(s) => s,
            None => unreached(),
        };
        let f = match &record.person.name.family_name {
            Some(s) => s,
            None => unreached(),
        };
        let mut display = f.clone();
        display.append(", ");
        display.append(g.as_str());
        (nfc_str(g.as_str()), nfc_str(f.as_str()), nfc_str(display.as_str()))
    } else if g_ok || f_ok {
        let v = if g_ok {
            match &record.person.name.given_names {
                Some(s) => s,
                None => unreached(),
            }
        } else {
            match &record.person.name.family_name {
                Some(s) => s,
                None => unreached(),
            }
        };
        (String::new(), nfc_str(v.as_str()), nfc_str(v.as_str()))
    } else {
        return Err(NormalizeError { pid: record.identifier.path.clone() });
    };

    let mut identifiers: Vec<NameIdentifier> = Vec::new();
    identifiers.push(
        NameIdentifier {
            scheme: String::from_str("orcid"),
            identifier: record.identifier.path.clone(),
        },
    );

    let affiliations = if affs.len() == 0 {
        None
    } else {
        Some(affs)
    };

    Ok(NameJson { given_name, family_name, name, identifiers, affiliations })
}

proof fn lemma_active_affs_mem(gs: Seq<AffiliationGroup>, m: Map<(Seq<char>, Seq<char>), Seq<char>>)
    ensures
        forall|l: int|
            #![trigger active_affs(gs, m)[l]]
            0 <= l < active_affs(gs, m).len() ==> exists|k: int|
                0 <= k < gs.len() && (#[trigger] gs[k]).employment.end is None && active_affs(
                    gs,
                    m,
                )[l] == aff_of(gs[k].employment, m),
    decreases gs.len(),
{
    if gs.len() > 0 {
        let p = gs.drop_last();
        lemma_active_affs_mem(p, m);
        let out = active_affs(gs, m);
        let pout = active_affs(p, m);
        assert(forall|k: int| 0 <= k < p.len() ==> #[trigger] p[k] == gs[k]);
        assert forall|l: int| #![trigger out[l]] 0 <= l < out.len() implies exists|k: int|
            0 <= k < gs.len() && (#[trigger] gs[k]).employment.end is None && out[l] == aff_of(
                gs[k].employment,
                m,
            ) by {
            if l < pout.len() {
                let k = choose|k: int|
                    0 <= k < p.len() && (#[trigger] p[k]).employment.end is None && pout[l]
                        == aff_of(p[k].employment, m);
                assert(gs[k].employment.end is None && out[l] == aff_of(gs[k].employment, m));
            } else {
                assert(gs[gs.len() - 1].employment.end is None && out[l] == aff_of(
                    gs[gs.len() - 1].employment,
                    m,
                ));
            }
        }
    }
}

proof fn lemma_dedup_ids_mem(s: Seq<AffView>, i: int)
    requires
        0 <= i <= s.len(),
    ensures
        forall|l: int|
            #![trigger dedup_ids_upto(s, i)[l]]
            0 <= l < dedup_ids_upto(s, i).len() ==> exists|j: int|
                0 <= j < i && dedup_ids_upto(s, i)[l] == #[trigger] s[j],
    decreases i,
{
    if i > 0 {
        lemma_dedup_ids_mem(s, i - 1);
        let out = dedup_ids_upto(s, i);
        let p = dedup_ids_upto(s, i - 1);
        assert forall|l: int| 0 <= l < out.len() implies exists|j: int|
            0 <= j < i && #[trigger] out[l] == s[j] by {
            if l < p.len() {
                let j = choose|j: int| 0 <= j < i - 1 && p[l] == #[trigger] s[j];
                assert(out[l] == s[j]);
            } else {
                assert(out[l] == s[i - 1]);
            }
        }
    }
}

proof fn lemma_dedup_ids_distinct(s: Seq<AffView>, i: int)
    requires
        0 <= i <= s.len(),
    ensures
        forall|l1: int, l2: int|
            0 <= l1 < l2 < dedup_ids_upto(s, i).len() && (#[trigger] dedup_ids_upto(s, i)[l1]).id
                is Some && (#[trigger] dedup_ids_upto(s, i)[l2]).id is Some ==> dedup_ids_upto(
                s,
                i,
            )[l1].id != dedup_ids_upto(s, i)[l2].id,
    decreases i,
{
    if i > 0 {
        lemma_dedup_ids_distinct(s, i - 1);
        lemma_dedup_ids_mem(s, i - 1);
        let out = dedup_ids_upto(s, i);
        let p = dedup_ids_upto(s, i - 1);
        assert forall|l1: int, l2: int|
            0 <= l1 < l2 < out.len() && (#[trigger] out[l1]).id is Some && (#[trigger] out[l2]).id
                is Some implies out[l1].id != out[l2].id by {
            if l2 < p.len() {
                assert(p[l1].id is Some && p[l2].id is Some);
            } else {
                let j = choose|j: int| 0 <= j < i - 1 && p[l1] == #[trigger] s[j];
                if s[j].id == s[i - 1].id {
                    assert(id_seen_before(s, i - 1));
                }
            }
        }
    }
}

proof fn lemma_dedup_names_mem(s: Seq<AffView>, i: int)
    requires
        0 <= i <= s.len(),
    ensures
        forall|l: int|
            #![trigger dedup_names_upto(s, i)[l]]
            0 <= l < dedup_names_upto(s, i).len() ==> exists|j: int|
                0 <= j < i && dedup_names_upto(s, i)[l] == #[trigger] s[j],
    decreases i,
{
    if i > 0 {
        lemma_dedup_names_mem(s, i - 1);
        let out = dedup_names_upto(s, i);
        let p = dedup_names_upto(s, i - 1);
        assert forall|l: int| 0 <= l < out.len() implies exists|j: int|
            0 <= j < i && #[trigger] out[l] == s[j] by {
            if l < p.len() {
                let j = choose|j: int| 0 <= j < i - 1 && p[l] == #[trigger] s[j];
                assert(out[l] == s[j]);
            } else {
                assert(out[l] == s[i - 1]);
            }
        }
    }
}

proof fn lemma_dedup_names_distinct(s: Seq<AffView>, i: int)
    requires
        0 <= i <= s.len(),
    ensures
        forall|l1: int, l2: int|
            0 <= l1 < l2 < dedup_names_upto(s, i).len() && (#[trigger] dedup_names_upto(s, i)[l1]).id
                is None && (#[trigger] dedup_names_upto(s, i)[l2]).id is None ==> dedup_names_upto(
                s,
                i,
            )[l1].name != dedup_names_upto(s, i)[l2].name,
    decreases i,
{
    if i > 0 {
        lemma_dedup_names_distinct(s, i - 1);
        lemma_dedup_names_mem(s, i - 1);
        let out = dedup_names_upto(s, i);
        let p = dedup_names_upto(s, i - 1);
        assert forall|l1: int, l2: int|
            0 <= l1 < l2 < out.len() && (#[trigger] out[l1]).id is None && (#[trigger] out[l2]).id
                is None implies out[l1].name != out[l2].name by {
            if l2 < p.len() {
                assert(p[l1].id is None && p[l2].id is None);
            } else {
                let j = choose|j: int| 0 <= j < i - 1 && p[l1] == #[trigger] s[j];
                if s[j].name == s[i - 1].name {
                    assert(name_seen_before(s, i - 1));
                }
            }
        }
    }
}

proof fn lemma_dedup_names_keeps_distinct_ids(s: Seq<AffView>, i: int)
    requires
        0 <= i <= s.len(),
        forall|j1: int, j2: int|
            0 <= j1 < j2 < s.len() && (#[trigger] s[j1]).id is Some && (#[trigger] s[j2]).id
                is Some ==> s[j1].id != s[j2].id,
    ensures
        forall|l1: int, l2: int|
            0 <= l1 < l2 < dedup_names_upto(s, i).len() && (#[trigger] dedup_names_upto(s, i)[l1]).id
                is Some && (#[trigger] dedup_names_upto(s, i)[l2]).id is Some ==> dedup_names_upto(
                s,
                i,
            )[l1].id != dedup_names_upto(s, i)[l2].id,
    decreases i,
{
    if i > 0 {
        lemma_dedup_names_keeps_distinct_ids(s, i - 1);
        lemma_dedup_names_mem(s, i - 1);
        let out = dedup_names_upto(s, i);
        let p = dedup_names_upto(s, i - 1);
        assert forall|l1: int, l2: int|
            0 <= l1 < l2 < out.len() && (#[trigger] out[l1]).id is Some && (#[trigger] out[l2]).id
                is Some implies out[l1].id != out[l2].id by {
            if l2 < p.len() {
                assert(p[l1].id is Some && p[l2].id is Some);
            } else {
                let j = choose|j: int| 0 <= j < i - 1 && p[l1] == #[trigger] s[j];
                assert(s[j].id is Some && s[i - 1].id is Some);
            }
        }
    }
}

/// The normalized affiliation list holds at most one entry per canonical
/// organization id and at most one id-less entry per display name, and every
/// entry stems from an employment without an end marker.
pub proof fn lemma_affiliations_deduplicated(
    r: Record,
    m: Map<(Seq<char>, Seq<char>), Seq<char>>,
)
    requires
        normalize_spec(r, m) is Some,
    ensures
        forall|l1: int, l2: int|
            0 <= l1 < l2 < normalize_spec(r, m)->Some_0.affs.len() && (#[trigger] normalize_spec(
                r,
                m,
            )->Some_0.affs[l1]).id is Some && (#[trigger] normalize_spec(r, m)->Some_0.affs[l2]).id
                is Some ==> normalize_spec(r, m)->Some_0.affs[l1].id != normalize_spec(
                r,
                m,
            )->Some_0.affs[l2].id,
        forall|l1: int, l2: int|
            0 <= l1 < l2 < normalize_spec(r, m)->Some_0.affs.len() && (#[trigger] normalize_spec(
                r,
                m,
            )->Some_0.affs[l1]).id is None && (#[trigger] normalize_spec(r, m)->Some_0.affs[l2]).id
                is None ==> normalize_spec(r, m)->Some_0.affs[l1].name != normalize_spec(
                r,
                m,
            )->Some_0.affs[l2].name,
        forall|l: int|
            #![trigger normalize_spec(r, m)->Some_0.affs[l]]
            0 <= l < normalize_spec(r, m)->Some_0.affs.len() ==> exists|k: int|
                0 <= k < r.spec_groups().len() && (#[trigger] r.spec_groups()[k]).employment.end
                    is None && normalize_spec(r, m)->Some_0.affs[l] == aff_of(
                    r.spec_groups()[k].employment,
                    m,
                ),
{
    let gs = r.spec_groups();
    let act = active_affs(gs, m);
    let mid = dedup_ids(act);
    let affs = normalize_spec(r, m)->Some_0.affs;
    assert(affs == dedup_names_upto(mid, mid.len() as int));
    lemma_dedup_ids_distinct(act, act.len() as int);
    lemma_dedup_ids_mem(act, act.len() as int);
    lemma_dedup_names_distinct(mid, mid.len() as int);
    lemma_dedup_names_keeps_distinct_ids(mid, mid.len() as int);
    lemma_dedup_names_mem(mid, mid.len() as int);
    lemma_active_affs_mem(gs, m);
    assert forall|l: int| #![trigger affs[l]] 0 <= l < affs.len() implies exists|k: int|
        0 <= k < gs.len() && (#[trigger] gs[k]).employment.end is None && affs[l] == aff_of(
            gs[k].employment,
            m,
        ) by {
        let j1 = choose|j: int| 0 <= j < mid.len() && affs[l] == #[trigger] mid[j];
        let j2 = choose|j: int| 0 <= j < act.len() && mid[j1] == #[trigger] act[j];
        let k = choose|k: int|
            0 <= k < gs.len() && (#[trigger] gs[k]).employment.end is None && act[j2] == aff_of(
                gs[k].employment,
                m,
            );
        assert(gs[k].employment.end is None && affs[l] == aff_of(gs[k].employment, m));
    }
}

/// With exactly one usable name part, that value (canonically composed)
/// becomes both the family name and the display name, and the given name is
/// empty.
pub proof fn lemma_single_name(r: Record, m: Map<(Seq<char>, Seq<char>), Seq<char>>)
    requires
        present_nonblank(r.person.name.given_names) != present_nonblank(r.person.name.family_name),
    ensures
        normalize_spec(r, m) is Some,
        normalize_spec(r, m)->Some_0.given == Seq::<char>::empty(),
        normalize_spec(r, m)->Some_0.family == normalize_spec(r, m)->Some_0.display,
        present_nonblank(r.person.name.given_names) ==> normalize_spec(r, m)->Some_0.display
            == nfc_of(r.person.name.given_names->Some_0@),
        present_nonblank(r.person.name.family_name) ==> normalize_spec(r, m)->Some_0.display
            == nfc_of(r.person.name.family_name->Some_0@),
{
    let p = derive_parts(r.person.name)->Some_0;
    assert(!blank(p.family) ==> p.family.len() > 0);
}

/// With both name parts usable, the display name is "family, given"
/// (canonically composed) and both parts are carried over.
pub proof fn lemma_both_names(r: Record, m: Map<(Seq<char>, Seq<char>), Seq<char>>)
    requires
        present_nonblank(r.person.name.given_names),
        present_nonblank(r.person.name.family_name),
    ensures
        normalize_spec(r, m) is Some,
        normalize_spec(r, m)->Some_0.given == nfc_of(r.person.name.given_names->Some_0@),
        normalize_spec(r, m)->Some_0.family == nfc_of(r.person.name.family_name->Some_0@),
        normalize_spec(r, m)->Some_0.display == nfc_of(
            r.person.name.family_name->Some_0@ + ", "@ + r.person.name.given_names->Some_0@,
        ),
{
    let g = r.person.name.given_names->Some_0@;
    let f = r.person.name.family_name->Some_0@;
    assert(!blank(g) ==> g.len() > 0);
    assert((f + ", "@ + g).len() > 0);
}

/// With no usable name part, normalization fails, and it succeeds in every
/// other case: a record enters the output exactly when it has a usable name.
pub proof fn lemma_no_name_fails(r: Record, m: Map<(Seq<char>, Seq<char>), Seq<char>>)
    ensures
        normalize_spec(r, m) is None <==> (!present_nonblank(r.person.name.given_names)
            && !present_nonblank(r.person.name.family_name)),
{
}

/// The canonical organization id of a decoded employment entry's identifier
/// pair, if any; the mathematical counterpart of `resolve_spec`.
pub open spec fn resolve_v(
    o: Option<crate::decode::OrgIdV>,
    m: Map<(Seq<char>, Seq<char>), Seq<char>>,
) -> Option<Seq<char>> {
    match o {
        None => None,
        Some(oi) => {
            if oi.source == "ROR"@ {
                Some(tail_segment(oi.identifier))
            } else {
                let key = if oi.source == "FUNDREF"@ {
                    tail_segment(oi.identifier)
                } else {
                    oi.identifier
                };
                if m.contains_key((oi.source, key)) {
                    Some(m[(oi.source, key)])
                } else {
                    None
                }
            }
        },
    }
}

/// The affiliation derived from one decoded employment entry.
pub open spec fn aff_of_v(
    g: crate::decode::GroupV,
    m: Map<(Seq<char>, Seq<char>), Seq<char>>,
) -> AffView {
    AffView { id: resolve_v(g.org_id, m), name: nfc_of(g.org_name) }
}

/// The affiliations of the active decoded employment entries, in order.
pub open spec fn active_affs_v(
    gs: Seq<crate::decode::GroupV>,
    m: Map<(Seq<char>, Seq<char>), Seq<char>>,
) -> Seq<AffView>
    decreases gs.len(),
{
    if gs.len() == 0 {
        Seq::empty()
    } else {
        let p = active_affs_v(gs.drop_last(), m);
        if gs.last().end {
            p
        } else {
            p.push(aff_of_v(gs.last(), m))
        }
    }
}

/// Whether the optional text is present and non-empty after trimming.
pub open spec fn present_nonblank_v(o: Option<Seq<char>>) -> bool {
    o is Some && !blank(o->Some_0)
}

/// Name derivation over decoded text values.
pub open spec fn derive_parts_v(g: Option<Seq<char>>, f: Option<Seq<char>>) -> Option<NameParts> {
    let gp = present_nonblank_v(g);
    let fp = present_nonblank_v(f);
    if gp && fp {
        Some(
            NameParts {
                given: g->Some_0,
                family: f->Some_0,
                display: f->Some_0 + ", "@ + g->Some_0,
            },
        )
    } else if gp {
        Some(NameParts { given: Seq::empty(), family: g->Some_0, display: g->Some_0 })
    } else if fp {
        Some(NameParts { given: Seq::empty(), family: f->Some_0, display: f->Some_0 })
    } else {
        None
    }
}

/// What normalization makes of one decoded record; the mathematical
/// counterpart of `normalize_spec`.
pub open spec fn normalize_of(
    v: crate::decode::RecordV,
    m: Map<(Seq<char>, Seq<char>), Seq<char>>,
) -> Option<NameView> {
    match derive_parts_v(v.given, v.family) {
        None => None,
        Some(p) => Some(
            NameView {
                given: nfc_part(p.given),
                family: nfc_part(p.family),
                display: nfc_part(p.display),
                orcid: v.path,
                affs: dedup_affs(active_affs_v(v.groups, m)),
            },
        ),
    }
}

proof fn lemma_active_affs_agree(
    gs: Seq<AffiliationGroup>,
    vs: Seq<crate::decode::GroupV>,
    m: Map<(Seq<char>, Seq<char>), Seq<char>>,
)
    requires
        crate::decode::groups_match(gs, vs),
    ensures
        active_affs(gs, m) == active_affs_v(vs, m),
    decreases gs.len(),
{
    if gs.len() > 0 {
        assert(crate::decode::group_matches(gs[gs.len() - 1], vs[gs.len() - 1]));
        assert(forall|i: int|
            0 <= i < gs.len() - 1 ==> crate::decode::group_matches(
                #[trigger] gs.drop_last()[i],
                vs.drop_last()[i],
            ));
        lemma_active_affs_agree(gs.drop_last(), vs.drop_last(), m);
    }
}

/// A record and its decoded form normalize alike: normalization depends only
/// on the decoded text values.
pub proof fn lemma_normalize_agrees(
    r: Record,
    v: crate::decode::RecordV,
    m: Map<(Seq<char>, Seq<char>), Seq<char>>,
)
    requires
        crate::decode::record_matches(r, v),
    ensures
        normalize_spec(r, m) == normalize_of(v, m),
{
    lemma_active_affs_agree(r.spec_groups(), v.groups, m);
    assert(derive_parts(r.person.name) == derive_parts_v(v.given, v.family));
}

} // verus!
