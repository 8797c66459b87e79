//! The decoder contract: a record document's text becomes a typed `Record`,
//! or a decode failure carrying the structural path at which decoding
//! failed. The shape expected is strict, but the known field-naming aliases
//! of the producers' schema versions are accepted.

use vstd::prelude::*;

use crate::record::{
    Activities, AffiliationGroup, Employment, Employments, Identifier, OrgIdentifier,
    Organization, Person, PersonName, Record,
};
use crate::text::{chars_of, str_eq, string_of_chars};
use crate::xml::{node_view, nodes_view, parse_document, parse_xml, XmlNode, XmlNodeV};

verus! {

/// A decode failure: the structural path at which decoding failed, empty
/// when the document itself could not be read.
#[derive(Debug, Clone, PartialEq)]
pub struct DecodeError {
    pub path: String,
}

/// The mathematical form of an organization's identifier pair.
pub ghost struct OrgIdV {
    pub identifier: Seq<char>,
    pub source: Seq<char>,
}

/// The mathematical form of one employment entry.
pub ghost struct GroupV {
    pub end: bool,
    pub org_name: Seq<char>,
    pub org_id: Option<OrgIdV>,
}

/// The mathematical form of one decoded record.
pub ghost struct RecordV {
    pub uri: Seq<char>,
    pub path: Seq<char>,
    pub given: Option<Seq<char>>,
    pub family: Option<Seq<char>>,
    pub groups: Seq<GroupV>,
}

/// The first child whose name is `a` or `b`.
pub open spec fn find_in(cs: Seq<XmlNodeV>, a: Seq<char>, b: Seq<char>) -> Option<XmlNodeV>
    decreases cs.len(),
{
    if cs.len() == 0 {
        None
    } else if cs[0].name == a || cs[0].name == b {
        Some(cs[0])
    } else {
        find_in(cs.drop_first(), a, b)
    }
}

/// The children that are employment entries, under either of the two names
/// the producers use for the group element.
pub open spec fn filter_groups(cs: Seq<XmlNodeV>) -> Seq<XmlNodeV>
    decreases cs.len(),
{
    if cs.len() == 0 {
        Seq::empty()
    } else {
        let p = filter_groups(cs.drop_last());
        if cs.last().name == "affiliation-group"@ || cs.last().name == "employment"@ {
            p.push(cs.last())
        } else {
            p
        }
    }
}

/// One employment entry from its group element.
pub open spec fn extract_group(g: XmlNodeV) -> Result<GroupV, Seq<char>> {
    match find_in(g.children, "employment-summary"@, "employment"@) {
        None => Err("activities.employments.employment"@),
        Some(emp) => {
            let end = find_in(emp.children, "end-date"@, "end"@) is Some;
            match find_in(emp.children, "organization"@, "organization"@) {
                None => Err("activities.employments.employment.organization"@),
                Some(org) => match find_in(org.children, "name"@, "name"@) {
                    None => Err("activities.employments.employment.organization.name"@),
                    Some(nm) => match find_in(
                        org.children,
                        "disambiguated-organization"@,
                        "identifier"@,
                    ) {
                        None => Ok(GroupV { end, org_name: nm.text, org_id: None }),
                        Some(d) => match find_in(
                            d.children,
                            "disambiguated-organization-identifier"@,
                            "identifier"@,
                        ) {
                            None => Err(
                                "activities.employments.employment.organization.identifier.identifier"@,
                            ),
                            Some(idn) => match find_in(
                                d.children,
                                "disambiguation-source"@,
                                "source"@,
                            ) {
                                None => Err(
                                    "activities.employments.employment.organization.identifier.source"@,
                                ),
                                Some(src) => Ok(
                                    GroupV {
                                        end,
                                        org_name: nm.text,
                                        org_id: Some(
                                            OrgIdV { identifier: idn.text, source: src.text },
                                        ),
                                    },
                                ),
                            },
                        },
                    },
                },
            }
        },
    }
}

/// All employment entries, in order; the first failure decides the error.
pub open spec fn extract_groups(gs: Seq<XmlNodeV>) -> Result<Seq<GroupV>, Seq<char>>
    decreases gs.len(),
{
    if gs.len() == 0 {
        Ok(Seq::empty())
    } else {
        match extract_groups(gs.drop_last()) {
            Err(e) => Err(e),
            Ok(p) => match extract_group(gs.last()) {
                Err(e) => Err(e),
                Ok(g) => Ok(p.push(g)),
            },
        }
    }
}

/// One record from the root element of its document.
pub open spec fn extract_record(root: XmlNodeV) -> Result<RecordV, Seq<char>> {
    match find_in(root.children, "orcid-identifier"@, "identifier"@) {
        None => Err("identifier"@),
        Some(idn) => match find_in(idn.children, "uri"@, "uri"@) {
            None => Err("identifier.uri"@),
            Some(uri) => match find_in(idn.children, "path"@, "path"@) {
                None => Err("identifier.path"@),
                Some(pth) => match find_in(root.children, "person"@, "person"@) {
                    None => Err("person"@),
                    Some(person) => match find_in(person.children, "name"@, "name"@) {
                        None => Err("person.name"@),
                        Some(nm) => {
                            let given = match find_in(
                                nm.children,
                                "given-names"@,
                                "given-names"@,
                            ) {
                                None => None,
                                Some(x) => Some(x.text),
                            };
                            let family = match find_in(
                                nm.children,
                                "family-name"@,
                                "family-name"@,
                            ) {
                                None => None,
                                Some(x) => Some(x.text),
                            };
                            match find_in(root.children, "activities-summary"@, "activities"@) {
                                None => Err("activities"@),
                                Some(acts) => match find_in(
                                    acts.children,
                                    "employments"@,
                                    "employments"@,
                                ) {
                                    None => Err("activities.employments"@),
                                    Some(emps) => match extract_groups(
                                        filter_groups(emps.children),
                                    ) {
                                        Err(e) => Err(e),
                                        Ok(groups) => Ok(
                                            RecordV {
                                                uri: uri.text,
                                                path: pth.text,
                                                given,
                                                family,
                                                groups,
                                            },
                                        ),
                                    },
                                },
                            }
                        },
                    },
                },
            },
        },
    }
}

/// What decoding makes of a document's text: the record, or the path of the
/// failure (empty when the document could not be read at all).
pub open spec fn decode_spec(s: Seq<char>) -> Result<RecordV, Seq<char>> {
    match parse_document(s) {
        None => Err(Seq::empty()),
        Some(root) => extract_record(root),
    }
}

/// Whether an optional string field holds the optional text `v`.
pub open spec fn opt_text_matches(o: Option<String>, v: Option<Seq<char>>) -> bool {
    match (o, v) {
        (None, None) => true,
        (Some(s), Some(t)) => s@ == t,
        _ => false,
    }
}

/// Whether one in-memory employment entry denotes `v`.
pub open spec fn group_matches(g: AffiliationGroup, v: GroupV) -> bool {
    &&& (g.employment.end is Some) == v.end
    &&& g.employment.organization.name@ == v.org_name
    &&& match (g.employment.organization.identifier, v.org_id) {
        (None, None) => true,
        (Some(oi), Some(ov)) => oi.identifier@ == ov.identifier && oi.source@ == ov.source,
        _ => false,
    }
}

/// Whether the in-memory employment list denotes `vs`.
pub open spec fn groups_match(gs: Seq<AffiliationGroup>, vs: Seq<GroupV>) -> bool {
    gs.len() == vs.len() && forall|i: int|
        0 <= i < gs.len() ==> group_matches(#[trigger] gs[i], vs[i])
}

/// Whether the in-memory record denotes `v`.
pub open spec fn record_matches(r: Record, v: RecordV) -> bool {
    &&& r.identifier.uri@ == v.uri
    &&& r.identifier.path@ == v.path
    &&& opt_text_matches(r.person.name.given_names, v.given)
    &&& opt_text_matches(r.person.name.family_name, v.family)
    &&& groups_match(r.spec_groups(), v.groups)
}

proof fn lemma_nodes_view_index(s: Seq<XmlNode>, i: int)
    requires
        0 <= i < s.len(),
    ensures
        nodes_view(s).len() == s.len(),
        nodes_view(s)[i] == node_view(s[i]),
    decreases s.len(),
{
    lemma_nodes_view_len(s);
    if i < s.len() - 1 {
        lemma_nodes_view_index(s.drop_last(), i);
        assert(s.drop_last()[i] == s[i]);
    } else {
        lemma_nodes_view_len(s.drop_last());
    }
}

proof fn lemma_nodes_view_len(s: Seq<XmlNode>)
    ensures
        nodes_view(s).len() == s.len(),
    decreases s.len(),
{
    if s.len() > 0 {
        lemma_nodes_view_len(s.drop_last());
    }
}

/// The first child of `n` named `a` or `b`.
fn find_child<'a>(n: &'a XmlNode, a: &str, b: &str) -> (r: Option<&'a XmlNode>)
    ensures
        r is Some <==> find_in(node_view(*n).children, a@, b@) is Some,
        r is Some ==> node_view(*r->Some_0) == find_in(node_view(*n).children, a@, b@)->Some_0,
{
    let ghost cs = node_view(*n).children;
    proof {
        lemma_nodes_view_len(n.children@);
    }
    let mut i: usize = 0;
    proof {
        assert(cs.skip(0) =~= cs);
    }
    while i < n.children.len()
        invariant
            0 <= i <= n.children@.len(),
            cs == node_view(*n).children,
            cs == nodes_view(n.children@),
            cs.len() == n.children@.len(),
            find_in(cs, a@, b@) == find_in(cs.skip(i as int), a@, b@),
        decreases n.children@.len() - i,
    {
        let c = &n.children[i];
        proof {
            lemma_nodes_view_index(n.children@, i as int);
            assert(cs.skip(i as int)[0] == cs[i as int]);
            assert(cs.skip(i as int).drop_first() =~= cs.skip(i + 1));
        }
        let nm = string_of_chars(&c.name);
        if str_eq(nm.as_str(), a) || str_eq(nm.as_str(), b) {
            return Some(c);
        }
        i += 1;
    }
    proof {
        assert(cs.skip(i as int).len() == 0);
    }
    None
}

/// The character data of a node as a string.
fn node_text(n: &XmlNode) -> (r: String)
    ensures
        r@ == node_view(*n).text,
{
    string_of_chars(&n.text)
}

proof fn lemma_extract_groups_append_err(a: Seq<XmlNodeV>, b: Seq<XmlNodeV>)
    requires
        extract_groups(a) is Err,
    ensures
        extract_groups(a + b) == extract_groups(a),
    decreases b.len(),
{
    if b.len() == 0 {
        assert(a + b =~= a);
    } else {
        lemma_extract_groups_append_err(a, b.drop_last());
        assert((a + b).drop_last() =~= a + b.drop_last());
    }
}

proof fn lemma_filter_groups_split(s: Seq<XmlNodeV>, i: int)
    requires
        0 <= i <= s.len(),
    ensures
        filter_groups(s) == filter_groups(s.subrange(0, i)) + filter_groups(
            s.subrange(i, s.len() as int),
        ),
    decreases s.len(),
{
    if i == s.len() {
        assert(s.subrange(0, i) =~= s);
        assert(filter_groups(s.subrange(i, s.len() as int)) =~= Seq::<XmlNodeV>::empty());
        assert(filter_groups(s) =~= filter_groups(s.subrange(0, i)) + filter_groups(
            s.subrange(i, s.len() as int),
        ));
    } else {
        let p = s.drop_last();
        lemma_filter_groups_split(p, i);
        assert(p.subrange(0, i) =~= s.subrange(0, i));
        let mid = s.subrange(i, s.len() as int);
        assert(mid.drop_last() =~= p.subrange(i, p.len() as int));
        assert(mid.last() == s.last());
        assert(filter_groups(s) =~= filter_groups(s.subrange(0, i)) + filter_groups(mid));
    }
}

/// One employment entry from its group element.
fn extract_group_x(g: &XmlNode) -> (r: Result<AffiliationGroup, DecodeError>)
    ensures
        r is Ok <==> extract_group(node_view(*g)) is Ok,
        r is Ok ==> group_matches(r->Ok_0, extract_group(node_view(*g))->Ok_0),
        r is Err ==> r->Err_0.path@ == extract_group(node_view(*g))->Err_0,
{
    let emp = match find_child(g, "employment-summary", "employment") {
        None => {
            return Err(
                DecodeError { path: String::from_str("activities.employments.employment") },
            );
        },
        Some(x) => x,
    };
    let end: Option<()> = match find_child(emp, "end-date", "end") {
        None => None,
        Some(_) => Some(()),
    };
    let org = match find_child(emp, "organization", "organization") {
        None => {
            return Err(
                DecodeError {
                    path: String::from_str("activities.employments.employment.organization"),
                },
            );
        },
        Some(x) => x,
    };
    let nm = match find_child(org, "name", "name") {
        None => {
            return Err(
                DecodeError {
                    path: String::from_str("activities.employments.employment.organization.name"),
                },
            );
        },
        Some(x) => x,
    };
    let identifier: Option<OrgIdentifier> = match find_child(
        org,
        "disambiguated-organization",
        "identifier",
    ) {
        None => None,
        Some(d) => {
            let idn = match find_child(d, "disambiguated-organization-identifier", "identifier") {
                None => {
                    return Err(
                        DecodeError {
                            path: String::from_str(
                                "activities.employments.employment.organization.identifier.identifier",
                            ),
                        },
                    );
                },
                Some(x) => x,
            };
            let src = match find_child(d, "disambiguation-source", "source") {
                None => {
                    return Err(
                        DecodeError {
                            path: String::from_str(
                                "activities.employments.employment.organization.identifier.source",
                            ),
                        },
                    );
                },
                Some(x) => x,
            };
            Some(OrgIdentifier { identifier: node_text(idn), source: node_text(src) })
        },
    };
    Ok(
        AffiliationGroup {
            employment: Employment {
                end,
                organization: Organization { name: node_text(nm), identifier },
            },
        },
    )
}

/// One record from the root element of its document.
#[verifier::loop_isolation(false)]
fn extract_record_x(root: &XmlNode) -> (r: Result<Record, DecodeError>)
    ensures
        r is Ok <==> extract_record(node_view(*root)) is Ok,
        r is Ok ==> record_matches(r->Ok_0, extract_record(node_view(*root))->Ok_0),
        r is Err ==> r->Err_0.path@ == extract_record(node_view(*root))->Err_0,
{
    let idn = match find_child(root, "orcid-identifier", "identifier") {
        None => {
            return Err(DecodeError { path: String::from_str("identifier") });
        },
        Some(x) => x,
    };
    let uri = match find_child(idn, "uri", "uri") {
        None => {
            return Err(DecodeError { path: String::from_str("identifier.uri") });
        },
        Some(x) => node_text(x),
    };
    let path = match find_child(idn, "path", "path") {
        None => {
            return Err(DecodeError { path: String::from_str("identifier.path") });
        },
        Some(x) => node_text(x),
    };
    let person = match find_child(root, "person", "person") {
        None => {
            return Err(DecodeError { path: String::from_str("person") });
        },
        Some(x) => x,
    };
    let nm = match find_child(person, "name", "name") {
        None => {
            return Err(DecodeError { path: String::from_str("person.name") });
        },
        Some(x) => x,
    };
    let given_names = match find_child(nm, "given-names", "given-names") {
        None => None,
        Some(x) => Some(node_text(x)),
    };
    let family_name = match find_child(nm, "family-name", "family-name") {
        None => None,
        Some(x) => Some(node_text(x)),
    };
    let acts = match find_child(root, "activities-summary", "activities") {
        None => {
            return Err(DecodeError { path: String::from_str("activities") });
        },
        Some(x) => x,
    };
    let emps = match find_child(acts, "employments", "employments") {
        None => {
            return Err(DecodeError { path: String::from_str("activities.employments") });
        },
        Some(x) => x,
    };

    let ghost cs = node_view(*emps).children;
    proof {
        lemma_nodes_view_len(emps.children@);
    }
    let mut groups: Vec<AffiliationGroup> = Vec::new();
    let mut i: usize = 0;
    while i < emps.children.len()
        invariant
            0 <= i <= emps.children@.len(),
            cs == node_view(*emps).children,
            cs == nodes_view(emps.children@),
            cs.len() == emps.children@.len(),
            extract_groups(filter_groups(cs.subrange(0, i as int))) is Ok,
            groups_match(
                groups@,
                extract_groups(filter_groups(cs.subrange(0, i as int)))->Ok_0,
            ),
        decreases emps.children@.len() - i,
    {
        let c = &emps.children[i];
        proof {
            lemma_nodes_view_index(emps.children@, i as int);
            let pre = cs.subrange(0, i + 1);
            assert(pre.drop_last() =~= cs.subrange(0, i as int));
            assert(pre.last() == cs[i as int]);
        }
        let cname = string_of_chars(&c.name);
        proof {
            assert(cs[i as int].name == cname@);
        }
        if str_eq(cname.as_str(), "affiliation-group") || str_eq(cname.as_str(), "employment") {
            match extract_group_x(c) {
                Ok(gr) => {
                    groups.push(gr);
                    proof {
                        let pre = cs.subrange(0, i + 1);
                        let fpre = filter_groups(pre);
                        assert(fpre == filter_groups(cs.subrange(0, i as int)).push(
                            cs[i as int],
                        ));
                        assert(fpre.drop_last() =~= filter_groups(cs.subrange(0, i as int)));
                        assert(extract_groups(fpre) is Ok);
                    }
                },
                Err(e) => {
                    proof {
                        let pre = cs.subrange(0, i + 1);
                        let fpre = filter_groups(pre);
                        assert(fpre == filter_groups(cs.subrange(0, i as int)).push(
                            cs[i as int],
                        ));
                        assert(fpre.drop_last() =~= filter_groups(cs.subrange(0, i as int)));
                        assert(extract_groups(fpre) is Err);
                        lemma_filter_groups_split(cs, i + 1);
                        lemma_extract_groups_append_err(
                            fpre,
                            filter_groups(cs.subrange(i + 1, cs.len() as int)),
                        );
                        assert(extract_groups(filter_groups(cs)) == extract_groups(fpre));
                        assert(extract_groups(filter_groups(cs)) == extract_groups(fpre));
                    }
                    return Err(e);
                },
            }
        } else {
            proof {
                let pre = cs.subrange(0, i + 1);
                assert(filter_groups(pre) == filter_groups(cs.subrange(0, i as int)));
            }
        }
        i += 1;
    }
    proof {
        assert(cs.subrange(0, cs.len() as int) =~= cs);
    }

    Ok(
        Record {
            identifier: Identifier { uri, path },
            person: Person { name: PersonName { given_names, family_name } },
            activities: Activities {
                employments: Employments {
                    employment: if groups.len() == 0 {
                        None
                    } else {
                        Some(groups)
                    },
                },
            },
        },
    )
}

/// Decodes one record document. Fails exactly when the document cannot be
/// read or lacks a required field; the error carries the structural path.
pub fn decode_record(xml: &str) -> (r: Result<Record, DecodeError>)
    ensures
        r is Ok <==> decode_spec(xml@) is Ok,
        r is Ok ==> record_matches(r->Ok_0, decode_spec(xml@)->Ok_0),
        r is Err ==> r->Err_0.path@ == decode_spec(xml@)->Err_0,
{
    let v = chars_of(xml);
    match parse_xml(&v) {
        None => Err(DecodeError { path: String::new() }),
        Some(root) => extract_record_x(&root),
    }
}

} // verus!
