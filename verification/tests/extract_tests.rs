use orcid_data_toolkit::extract::{
    collect_org_ids, extract_entry_org_ids, extracted_to_json, org_ids_json_pretty,
    OrgIdCollector,
};
use orcid_data_toolkit::record::{
    Activities, AffiliationGroup, Employment, Employments, ExtractedIdentifier, Identifier,
    OrgIdentifier, Organization, Person, PersonName, Record,
};

fn record_with(groups: Vec<AffiliationGroup>) -> Record {
    Record {
        identifier: Identifier { uri: "u".to_string(), path: "0001".to_string() },
        person: Person {
            name: PersonName { given_names: Some("A".to_string()), family_name: None },
        },
        activities: Activities {
            employments: Employments {
                employment: if groups.is_empty() { None } else { Some(groups) },
            },
        },
    }
}

fn employment_with(ended: bool, id: Option<(&str, &str)>) -> AffiliationGroup {
    AffiliationGroup {
        employment: Employment {
            end: if ended { Some(()) } else { None },
            organization: Organization {
                name: "Org".to_string(),
                identifier: id.map(|(source, identifier)| OrgIdentifier {
                    identifier: identifier.to_string(),
                    source: source.to_string(),
                }),
            },
        },
    }
}

fn pair(scheme: &str, identifier: &str) -> ExtractedIdentifier {
    ExtractedIdentifier { scheme: scheme.to_string(), identifier: identifier.to_string() }
}

#[test]
fn collects_distinct_pairs_in_first_seen_order() {
    let r = record_with(vec![
        employment_with(false, Some(("ROR", "https://ror.org/01ggx4157"))),
        employment_with(false, Some(("GRID", "grid.9132.9"))),
        employment_with(false, Some(("ROR", "https://ror.org/01ggx4157"))),
    ]);
    let ids = collect_org_ids(&r);
    assert_eq!(ids, vec![pair("ROR", "https://ror.org/01ggx4157"), pair("GRID", "grid.9132.9")]);
}

#[test]
fn collects_from_ended_employments_too() {
    let r = record_with(vec![employment_with(true, Some(("ROR", "x")))]);
    assert_eq!(collect_org_ids(&r), vec![pair("ROR", "x")]);
}

#[test]
fn employments_without_identifier_contribute_nothing() {
    let r = record_with(vec![employment_with(false, None)]);
    assert!(collect_org_ids(&r).is_empty());
}

#[test]
fn collector_emits_each_pair_once_across_records() {
    let mut collector = OrgIdCollector::new();
    let first = collector.absorb(&vec![pair("ROR", "x"), pair("GRID", "y")]);
    assert_eq!(first, vec![pair("ROR", "x"), pair("GRID", "y")]);
    let second = collector.absorb(&vec![pair("GRID", "y"), pair("ROR", "z")]);
    assert_eq!(second, vec![pair("ROR", "z")]);
}

#[test]
fn collector_drops_repetitions_within_one_batch() {
    let mut collector = OrgIdCollector::new();
    let fresh = collector.absorb(&vec![pair("ROR", "x"), pair("ROR", "x")]);
    assert_eq!(fresh, vec![pair("ROR", "x")]);
}

#[test]
fn identifier_pair_renders_as_compact_json() {
    let out = extracted_to_json(&pair("ROR", "https://ror.org/01ggx4157"));
    assert_eq!(out, "{\"scheme\":\"ROR\",\"identifier\":\"https://ror.org/01ggx4157\"}");
}

#[test]
fn identifier_pair_escapes_its_values() {
    let out = extracted_to_json(&pair("A\"B", "C\\D"));
    assert_eq!(out, "{\"scheme\":\"A\\\"B\",\"identifier\":\"C\\\\D\"}");
}

#[test]
fn identifier_list_renders_as_indented_array() {
    let out = org_ids_json_pretty(&vec![pair("ROR", "x"), pair("GRID", "y")]);
    let expected = r#"[
  {
    "scheme": "ROR",
    "identifier": "x"
  },
  {
    "scheme": "GRID",
    "identifier": "y"
  }
]"#;
    assert_eq!(out, expected);
}

#[test]
fn empty_identifier_list_renders_as_empty_array() {
    assert_eq!(org_ids_json_pretty(&Vec::new()), "[]");
}

#[test]
fn extraction_reads_pairs_from_a_document() {
    let xml = "<record><orcid-identifier><uri>u</uri><path>p</path></orcid-identifier><person><name><given-names>A</given-names></name></person><activities-summary><employments><affiliation-group><employment-summary><organization><name>Org</name><disambiguated-organization><disambiguated-organization-identifier>grid.9132.9</disambiguated-organization-identifier><disambiguation-source>GRID</disambiguation-source></disambiguated-organization></organization></employment-summary></affiliation-group></employments></activities-summary></record>";
    let ids = extract_entry_org_ids(xml).unwrap();
    assert_eq!(ids, vec![pair("GRID", "grid.9132.9")]);
}

#[test]
fn extraction_fails_on_an_unreadable_document() {
    assert!(extract_entry_org_ids("not xml at all").is_err());
}
