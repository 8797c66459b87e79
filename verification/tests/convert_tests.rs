use orcid_data_toolkit::decode::decode_record;
use orcid_data_toolkit::json::{name_json_compact, name_json_pretty};
use orcid_data_toolkit::normalize::record_to_json;
use orcid_data_toolkit::orgmap::OrgMap;
use orcid_data_toolkit::record::{
    Activities, AffiliationGroup, Employment, Employments, Identifier, OrgIdentifier,
    Organization, Person, PersonName, Record,
};

fn record(given: Option<&str>, family: Option<&str>, groups: Vec<AffiliationGroup>) -> Record {
    Record {
        identifier: Identifier {
            uri: "https://orcid.org/0000-0002-5082-6404".to_string(),
            path: "0000-0002-5082-6404".to_string(),
        },
        person: Person {
            name: PersonName {
                given_names: given.map(|s| s.to_string()),
                family_name: family.map(|s| s.to_string()),
            },
        },
        activities: Activities {
            employments: Employments {
                employment: if groups.is_empty() { None } else { Some(groups) },
            },
        },
    }
}

fn employment(ended: bool, org_name: &str, id: Option<(&str, &str)>) -> AffiliationGroup {
    AffiliationGroup {
        employment: Employment {
            end: if ended { Some(()) } else { None },
            organization: Organization {
                name: org_name.to_string(),
                identifier: id.map(|(source, identifier)| OrgIdentifier {
                    identifier: identifier.to_string(),
                    source: source.to_string(),
                }),
            },
        },
    }
}

#[test]
fn single_given_name_becomes_family_and_display() {
    let r = record(Some("Alex"), None, vec![]);
    let n = record_to_json(&r, &OrgMap::new()).unwrap();
    assert_eq!(n.given_name, "");
    assert_eq!(n.family_name, "Alex");
    assert_eq!(n.name, "Alex");
}

#[test]
fn single_family_name_becomes_family_and_display() {
    let r = record(None, Some("Ioannidis"), vec![]);
    let n = record_to_json(&r, &OrgMap::new()).unwrap();
    assert_eq!(n.given_name, "");
    assert_eq!(n.family_name, "Ioannidis");
    assert_eq!(n.name, "Ioannidis");
}

#[test]
fn blank_family_beside_given_still_usable() {
    let r = record(Some("Alex"), Some("   "), vec![]);
    let n = record_to_json(&r, &OrgMap::new()).unwrap();
    assert_eq!(n.given_name, "");
    assert_eq!(n.family_name, "Alex");
    assert_eq!(n.name, "Alex");
}

#[test]
fn both_names_combine_into_display() {
    let r = record(Some("Alex"), Some("Ioannidis"), vec![]);
    let n = record_to_json(&r, &OrgMap::new()).unwrap();
    assert_eq!(n.given_name, "Alex");
    assert_eq!(n.family_name, "Ioannidis");
    assert_eq!(n.name, "Ioannidis, Alex");
}

#[test]
fn absent_names_fail_with_identifier() {
    let r = record(None, None, vec![]);
    let e = record_to_json(&r, &OrgMap::new()).unwrap_err();
    assert_eq!(e.pid, "0000-0002-5082-6404");
}

#[test]
fn whitespace_only_name_fails() {
    let r = record(Some("   "), None, vec![]);
    assert!(record_to_json(&r, &OrgMap::new()).is_err());
}

#[test]
fn ror_identifier_takes_trailing_segment() {
    let r = record(
        Some("Alex"),
        None,
        vec![employment(false, "CERN", Some(("ROR", "https://ror.org/01ggx4157")))],
    );
    let n = record_to_json(&r, &OrgMap::new()).unwrap();
    let affs = n.affiliations.unwrap();
    assert_eq!(affs.len(), 1);
    assert_eq!(affs[0].id.as_deref(), Some("01ggx4157"));
    assert_eq!(affs[0].name, "CERN");
}

#[test]
fn ror_identifier_without_slash_uses_raw_value() {
    let r = record(
        Some("Alex"),
        None,
        vec![employment(false, "CERN", Some(("ROR", "01ggx4157")))],
    );
    let n = record_to_json(&r, &OrgMap::new()).unwrap();
    let affs = n.affiliations.unwrap();
    assert_eq!(affs[0].id.as_deref(), Some("01ggx4157"));
}

#[test]
fn unknown_scheme_without_mapping_has_no_id() {
    let r = record(
        Some("Alex"),
        None,
        vec![employment(false, "CERN", Some(("GRID", "grid.9132.9")))],
    );
    let n = record_to_json(&r, &OrgMap::new()).unwrap();
    let affs = n.affiliations.unwrap();
    assert_eq!(affs[0].id, None);
    assert_eq!(affs[0].name, "CERN");
}

#[test]
fn mapping_file_resolves_fundref_identifier() {
    let rows = vec![(
        "FUNDREF".to_string(),
        "10.13039/501100001665".to_string(),
        "01234abc".to_string(),
    )];
    let m = OrgMap::from_rows(&rows);
    let r = record(
        Some("Alex"),
        None,
        vec![employment(false, "ANR", Some(("FUNDREF", "10.13039/501100001665")))],
    );
    let n = record_to_json(&r, &m).unwrap();
    let affs = n.affiliations.unwrap();
    assert_eq!(affs[0].id.as_deref(), Some("01234abc"));
}

#[test]
fn mapping_file_resolves_other_scheme_verbatim() {
    let rows = vec![("GRID".to_string(), "grid.9132.9".to_string(), "01ggx4157".to_string())];
    let m = OrgMap::from_rows(&rows);
    let r = record(
        Some("Alex"),
        None,
        vec![employment(false, "CERN", Some(("GRID", "grid.9132.9")))],
    );
    let n = record_to_json(&r, &m).unwrap();
    assert_eq!(n.affiliations.unwrap()[0].id.as_deref(), Some("01ggx4157"));
}

#[test]
fn later_mapping_row_shadows_earlier() {
    let rows = vec![
        ("GRID".to_string(), "g1".to_string(), "old".to_string()),
        ("GRID".to_string(), "g1".to_string(), "new".to_string()),
    ];
    let m = OrgMap::from_rows(&rows);
    let r = record(Some("A"), None, vec![employment(false, "X", Some(("GRID", "g1")))]);
    let n = record_to_json(&r, &m).unwrap();
    assert_eq!(n.affiliations.unwrap()[0].id.as_deref(), Some("new"));
}

#[test]
fn same_canonical_id_collapses_to_first_seen() {
    let r = record(
        Some("Alex"),
        None,
        vec![
            employment(false, "CERN", Some(("ROR", "https://ror.org/01ggx4157"))),
            employment(false, "CERN (Geneva)", Some(("ROR", "https://ror.org/01ggx4157"))),
        ],
    );
    let n = record_to_json(&r, &OrgMap::new()).unwrap();
    let affs = n.affiliations.unwrap();
    assert_eq!(affs.len(), 1);
    assert_eq!(affs[0].name, "CERN");
}

#[test]
fn idless_duplicate_names_collapse() {
    let r = record(
        Some("Alex"),
        None,
        vec![employment(false, "CERN", None), employment(false, "CERN", None)],
    );
    let n = record_to_json(&r, &OrgMap::new()).unwrap();
    assert_eq!(n.affiliations.unwrap().len(), 1);
}

#[test]
fn idless_distinct_names_both_kept() {
    let r = record(
        Some("Alex"),
        None,
        vec![employment(false, "CERN", None), employment(false, "Fermilab", None)],
    );
    let n = record_to_json(&r, &OrgMap::new()).unwrap();
    assert_eq!(n.affiliations.unwrap().len(), 2);
}

#[test]
fn ended_employment_never_appears() {
    let r = record(
        Some("Alex"),
        None,
        vec![employment(true, "CERN", Some(("ROR", "https://ror.org/01ggx4157")))],
    );
    let n = record_to_json(&r, &OrgMap::new()).unwrap();
    assert!(n.affiliations.is_none());
}

#[test]
fn names_are_canonically_composed() {
    // "Re\u{301}my": 'e' followed by a combining acute; composes to "Rémy".
    let r = record(Some("Re\u{301}my"), Some("Dupont"), vec![]);
    let n = record_to_json(&r, &OrgMap::new()).unwrap();
    assert_eq!(n.given_name, "R\u{e9}my");
    assert_eq!(n.name, "Dupont, R\u{e9}my");
}

#[test]
fn affiliation_names_are_canonically_composed() {
    let r = record(Some("A"), None, vec![employment(false, "Acade\u{301}mie", None)]);
    let n = record_to_json(&r, &OrgMap::new()).unwrap();
    assert_eq!(n.affiliations.unwrap()[0].name, "Acad\u{e9}mie");
}

#[test]
fn compact_json_escapes_exactly() {
    let r = record(None, Some("A\"B\\C\nD"), vec![]);
    let n = record_to_json(&r, &OrgMap::new()).unwrap();
    let out = name_json_compact(&n);
    let expected = "{\"$schema\":\"local://names/name-v1.0.0.json\",\"given_name\":\"\",\"family_name\":\"A\\\"B\\\\C\\nD\",\"name\":\"A\\\"B\\\\C\\nD\",\"identifiers\":[{\"scheme\":\"orcid\",\"identifier\":\"0000-0002-5082-6404\"}]}";
    assert_eq!(out, expected);
}

#[test]
fn compact_json_escapes_control_characters() {
    let r = record(None, Some("A\u{1}B"), vec![]);
    let n = record_to_json(&r, &OrgMap::new()).unwrap();
    let out = name_json_compact(&n);
    assert!(out.contains("\\u0001"));
}

fn alex_xml() -> &'static str {
    r#"<?xml version="1.0" encoding="UTF-8" standalone="yes"?>
<record:record xmlns:record="http://www.orcid.org/ns/record" xmlns:common="http://www.orcid.org/ns/common" path="/0000-0002-5082-6404">
    <common:orcid-identifier>
        <common:uri>https://orcid.org/0000-0002-5082-6404</common:uri>
        <common:path>0000-0002-5082-6404</common:path>
    </common:orcid-identifier>
    <person:person xmlns:person="http://www.orcid.org/ns/person">
        <person:name visibility="public">
            <personal-details:given-names xmlns:personal-details="http://www.orcid.org/ns/personal-details">Alex</personal-details:given-names>
            <personal-details:family-name xmlns:personal-details="http://www.orcid.org/ns/personal-details">Ioannidis</personal-details:family-name>
        </person:name>
    </person:person>
    <activities:activities-summary xmlns:activities="http://www.orcid.org/ns/activities">
        <activities:employments>
            <activities:affiliation-group>
                <employment:employment-summary xmlns:employment="http://www.orcid.org/ns/employment">
                    <employment:organization>
                        <common:name>European Organization for Nuclear Research</common:name>
                        <common:disambiguated-organization>
                            <common:disambiguated-organization-identifier>https://ror.org/01ggx4157</common:disambiguated-organization-identifier>
                            <common:disambiguation-source>ROR</common:disambiguation-source>
                        </common:disambiguated-organization>
                    </employment:organization>
                </employment:employment-summary>
            </activities:affiliation-group>
        </activities:employments>
    </activities:activities-summary>
</record:record>"#
}

#[test]
fn decoded_document_renders_expected_indented_json() {
    let record = decode_record(alex_xml()).unwrap();
    let n = record_to_json(&record, &OrgMap::new()).unwrap();
    let out = name_json_pretty(&n);
    let expected = r#"{
  "$schema": "local://names/name-v1.0.0.json",
  "given_name": "Alex",
  "family_name": "Ioannidis",
  "name": "Ioannidis, Alex",
  "identifiers": [
    {
      "scheme": "orcid",
      "identifier": "0000-0002-5082-6404"
    }
  ],
  "affiliations": [
    {
      "id": "01ggx4157",
      "name": "European Organization for Nuclear Research"
    }
  ]
}"#;
    assert_eq!(out, expected);
}

#[test]
fn decode_reads_identifier_and_names() {
    let record = decode_record(alex_xml()).unwrap();
    assert_eq!(record.identifier.path, "0000-0002-5082-6404");
    assert_eq!(record.identifier.uri, "https://orcid.org/0000-0002-5082-6404");
    assert_eq!(record.person.name.given_names.as_deref(), Some("Alex"));
    assert_eq!(record.person.name.family_name.as_deref(), Some("Ioannidis"));
}

#[test]
fn decode_missing_person_reports_path() {
    let xml = "<record><orcid-identifier><uri>u</uri><path>p</path></orcid-identifier></record>";
    let e = decode_record(xml).unwrap_err();
    assert_eq!(e.path, "person");
}

#[test]
fn decode_unreadable_document_reports_empty_path() {
    let e = decode_record("<record><unclosed>").unwrap_err();
    assert_eq!(e.path, "");
}

#[test]
fn decode_resolves_named_entities() {
    let xml = "<record><orcid-identifier><uri>u</uri><path>p</path></orcid-identifier><person><name><family-name>Johnson &amp; Johnson</family-name></name></person><activities-summary><employments/></activities-summary></record>";
    let record = decode_record(xml).unwrap();
    assert_eq!(record.person.name.family_name.as_deref(), Some("Johnson & Johnson"));
}

#[test]
fn decode_accepts_unprefixed_alias_names() {
    let xml = "<record><identifier><uri>u</uri><path>p</path></identifier><person><name><given-names>A</given-names></name></person><activities><employments><employment><employment><organization><name>Org</name></organization></employment></employment></employments></activities></record>";
    let record = decode_record(xml).unwrap();
    assert_eq!(record.identifier.path, "p");
    let groups = record.activities.employments.employment.unwrap();
    assert_eq!(groups.len(), 1);
    assert_eq!(groups[0].employment.organization.name, "Org");
}

#[test]
fn serialized_identity_reparses_structurally() {
    let r = record(
        Some("Alex"),
        Some("Io\"annidis"),
        vec![
            employment(false, "CERN", Some(("ROR", "https://ror.org/01ggx4157"))),
            employment(false, "Fermilab", None),
        ],
    );
    let n = record_to_json(&r, &OrgMap::new()).unwrap();
    let out = name_json_compact(&n);
    let v: serde_json::Value = serde_json::from_str(&out).unwrap();
    assert_eq!(v["given_name"].as_str().unwrap(), n.given_name);
    assert_eq!(v["family_name"].as_str().unwrap(), n.family_name);
    assert_eq!(v["name"].as_str().unwrap(), n.name);
    let ids = v["identifiers"].as_array().unwrap();
    assert_eq!(ids.len(), 1);
    assert_eq!(ids[0]["scheme"].as_str().unwrap(), "orcid");
    assert_eq!(ids[0]["identifier"].as_str().unwrap(), "0000-0002-5082-6404");
    let affs = v["affiliations"].as_array().unwrap();
    assert_eq!(affs.len(), 2);
    assert_eq!(affs[0]["id"].as_str().unwrap(), "01ggx4157");
    assert_eq!(affs[0]["name"].as_str().unwrap(), "CERN");
    assert!(affs[1].get("id").is_none());
    assert_eq!(affs[1]["name"].as_str().unwrap(), "Fermilab");
}

#[test]
fn omitted_affiliations_reparse_as_absent() {
    let r = record(Some("Alex"), None, vec![]);
    let n = record_to_json(&r, &OrgMap::new()).unwrap();
    let v: serde_json::Value = serde_json::from_str(&name_json_compact(&n)).unwrap();
    assert!(v.get("affiliations").is_none());
    assert_eq!(v["$schema"].as_str().unwrap(), "local://names/name-v1.0.0.json");
}

#[test]
fn indented_json_without_affiliations() {
    let r = record(Some("Alex"), Some("Ioannidis"), vec![]);
    let n = record_to_json(&r, &OrgMap::new()).unwrap();
    let out = name_json_pretty(&n);
    let expected = r#"{
  "$schema": "local://names/name-v1.0.0.json",
  "given_name": "Alex",
  "family_name": "Ioannidis",
  "name": "Ioannidis, Alex",
  "identifiers": [
    {
      "scheme": "orcid",
      "identifier": "0000-0002-5082-6404"
    }
  ]
}"#;
    assert_eq!(out, expected);
}

#[test]
fn decode_skips_comments_and_instructions() {
    let xml = "\u{feff}<?xml version=\"1.0\"?><!-- a dump --><record><!-- x --><orcid-identifier><uri>u</uri><path>p</path></orcid-identifier><?pi data?><person><name><given-names>A</given-names></name></person><activities-summary><employments/></activities-summary></record>";
    let record = decode_record(xml).unwrap();
    assert_eq!(record.identifier.path, "p");
    assert_eq!(record.person.name.given_names.as_deref(), Some("A"));
}

#[test]
fn decode_ignores_attributes_with_tricky_values() {
    let xml = "<record x=\"a>b\" y='c<d'><orcid-identifier><uri>u</uri><path>p</path></orcid-identifier><person><name><family-name>F</family-name></name></person><activities-summary><employments/></activities-summary></record>";
    let record = decode_record(xml).unwrap();
    assert_eq!(record.person.name.family_name.as_deref(), Some("F"));
}

#[test]
fn decode_rejects_mismatched_end_tags() {
    let xml = "<record><orcid-identifier><uri>u</uri><path>p</wrong></orcid-identifier><person><name><family-name>F</family-name></name></person><activities-summary><employments/></activities-summary></record>";
    assert!(decode_record(xml).is_err());
}
