use orcid_data_toolkit::filter::NameFilter;
use orcid_data_toolkit::orgmap::OrgMap;
use orcid_data_toolkit::pipeline::{
    convert_entry_json, convert_entry_row, process_batch_json, process_batch_rows, Batcher,
    EntryError,
};
use orcid_data_toolkit::row::{row_to_csv, Row};

fn doc(path: &str, given: &str, family: &str) -> String {
    format!(
        "<record><orcid-identifier><uri>https://orcid.org/{p}</uri><path>{p}</path></orcid-identifier><person><name><given-names>{g}</given-names><family-name>{f}</family-name></name></person><activities-summary><employments/></activities-summary></record>",
        p = path,
        g = given,
        f = family,
    )
}

#[test]
fn one_valid_and_one_broken_document_yield_one_output() {
    let batch = vec![doc("0001", "Ada", "Lovelace"), "<record><broken>".to_string()];
    let (outs, errs) = process_batch_json(&batch, &OrgMap::new(), &None);
    assert_eq!(outs.len(), 1);
    assert_eq!(errs.len(), 1);
    assert!(outs[0].contains("\"name\":\"Lovelace, Ada\""));
    assert_eq!(errs[0], EntryError::Decode { path: "".to_string() });
}

#[test]
fn batch_size_does_not_change_outputs() {
    let a = doc("0001", "Ada", "Lovelace");
    let b = doc("0002", "Grace", "Hopper");
    let c = doc("0003", "Annie", "Easley");
    let m = OrgMap::new();

    let mut one_big: Vec<String> = Vec::new();
    let (outs, _) = process_batch_json(&vec![a.clone(), b.clone(), c.clone()], &m, &None);
    one_big.extend(outs);

    let mut two_small: Vec<String> = Vec::new();
    let (o1, _) = process_batch_json(&vec![a.clone(), b.clone()], &m, &None);
    let (o2, _) = process_batch_json(&vec![c.clone()], &m, &None);
    two_small.extend(o1);
    two_small.extend(o2);

    assert_eq!(one_big, two_small);
}

#[test]
fn batcher_hands_out_full_batches_then_the_rest() {
    let mut batcher = Batcher::new(2);
    let a = "a".to_string();
    let b = "b".to_string();
    let c = "c".to_string();
    assert!(batcher.push(a).is_none());
    let full = batcher.push(b).unwrap();
    assert_eq!(full, vec!["a".to_string(), "b".to_string()]);
    assert!(batcher.push(c).is_none());
    let rest = batcher.finish().unwrap();
    assert_eq!(rest, vec!["c".to_string()]);
}

#[test]
fn batcher_with_nothing_pending_finishes_empty() {
    let mut batcher = Batcher::new(1);
    let full = batcher.push("a".to_string()).unwrap();
    assert_eq!(full, vec!["a".to_string()]);
    assert!(batcher.finish().is_none());
}

#[test]
fn name_filter_rejects_mismatching_display_name() {
    let f = NameFilter::new("^Z");
    assert!(f.is_some());
    let r = convert_entry_json(&doc("0001", "Ada", "Lovelace"), &OrgMap::new(), &f);
    match r.unwrap_err() {
        EntryError::Filtered { name, pid } => {
            assert_eq!(name, "Lovelace, Ada");
            assert_eq!(pid, "0001");
        },
        other => panic!("unexpected: {:?}", other),
    }
}

#[test]
fn name_filter_admits_matching_display_name() {
    let f = NameFilter::new("^Lovelace");
    let r = convert_entry_json(&doc("0001", "Ada", "Lovelace"), &OrgMap::new(), &f);
    assert!(r.unwrap().contains("Lovelace, Ada"));
}

#[test]
fn unusable_pattern_yields_no_filter() {
    assert!(NameFilter::new("[").is_none());
}

#[test]
fn entry_without_name_reports_identifier() {
    let xml = "<record><orcid-identifier><uri>u</uri><path>0009</path></orcid-identifier><person><name/></person><activities-summary><employments/></activities-summary></record>";
    let r = convert_entry_json(xml, &OrgMap::new(), &None);
    assert_eq!(r.unwrap_err(), EntryError::NoName { pid: "0009".to_string() });
}

#[test]
fn row_carries_timestamp_id_and_path() {
    let r = convert_entry_row(&doc("0001", "Ada", "Lovelace"), &OrgMap::new(), "2024-01-01T00:00:00+00:00", &None)
        .unwrap();
    assert_eq!(r.created, "2024-01-01T00:00:00+00:00");
    assert_eq!(r.created, r.updated);
    assert_eq!(r.id.chars().count(), 36);
    assert_eq!(&r.id[8..9], "-");
    assert_eq!(r.version_id, 1);
    assert_eq!(r.pid, "0001");
    assert!(r.json.contains("\"name\":\"Lovelace, Ada\""));
}

#[test]
fn fresh_ids_differ_between_rows() {
    let m = OrgMap::new();
    let a = convert_entry_row(&doc("0001", "Ada", "Lovelace"), &m, "t", &None).unwrap();
    let b = convert_entry_row(&doc("0001", "Ada", "Lovelace"), &m, "t", &None).unwrap();
    assert_ne!(a.id, b.id);
}

#[test]
fn csv_line_quotes_only_what_needs_quoting() {
    let row = Row {
        created: "2024-01-01T00:00:00+00:00".to_string(),
        updated: "2024-01-01T00:00:00+00:00".to_string(),
        id: "00000000-0000-4000-8000-000000000000".to_string(),
        json: "{\"name\":\"X\"}".to_string(),
        version_id: 1,
        pid: "0001".to_string(),
    };
    let line = row_to_csv(&row);
    let expected = "2024-01-01T00:00:00+00:00,2024-01-01T00:00:00+00:00,00000000-0000-4000-8000-000000000000,\"{\"\"name\"\":\"\"X\"\"}\",1,0001\n";
    assert_eq!(line, expected);
}

#[test]
fn csv_field_with_comma_is_quoted() {
    let row = Row {
        created: "a,b".to_string(),
        updated: "c".to_string(),
        id: "i".to_string(),
        json: "j".to_string(),
        version_id: 1,
        pid: "p".to_string(),
    };
    assert_eq!(row_to_csv(&row), "\"a,b\",c,i,j,1,p\n");
}

#[test]
fn batch_rows_keep_entry_order_and_report_failures() {
    let batch = vec![
        doc("0001", "Ada", "Lovelace"),
        "<nonsense".to_string(),
        doc("0003", "Annie", "Easley"),
    ];
    let (rows, errs) = process_batch_rows(&batch, &OrgMap::new(), "now", &None);
    assert_eq!(rows.len(), 2);
    assert_eq!(errs.len(), 1);
    assert_eq!(rows[0].pid, "0001");
    assert_eq!(rows[1].pid, "0003");
}

#[test]
fn batch_diagnostics_follow_entry_order_with_their_content() {
    let no_name = "<record><orcid-identifier><uri>u</uri><path>0007</path></orcid-identifier><person><name/></person><activities-summary><employments/></activities-summary></record>";
    let batch = vec![
        "<record><broken>".to_string(),
        no_name.to_string(),
        doc("0008", "Ada", "Lovelace"),
    ];
    let f = NameFilter::new("^Z");
    let (outs, errs) = process_batch_json(&batch, &OrgMap::new(), &f);
    assert!(outs.is_empty());
    assert_eq!(
        errs,
        vec![
            EntryError::Decode { path: "".to_string() },
            EntryError::NoName { pid: "0007".to_string() },
            EntryError::Filtered { name: "Lovelace, Ada".to_string(), pid: "0008".to_string() },
        ]
    );
}
