use clubdam_anidb_indexer::error::Error;
use clubdam_anidb_indexer::reconcile::{msearch_body, Reconciliation};

fn strings(xs: &[&str]) -> Vec<String> {
    xs.iter().map(|x| x.to_string()).collect()
}

#[test]
fn msearch_body_builds_one_query_per_title() {
    let body = msearch_body(&strings(&["Aikatsu!", "PriPara"]), &strings(&["ja"]));
    let expected_one = "{}\n{\"size\":1,\"query\":{\"multi_match\":{\"query\":\"Aikatsu!\",\"fields\":[\"titles.ja\",\"main_title^10\"]}}}\n";
    let expected_two = "{}\n{\"size\":1,\"query\":{\"multi_match\":{\"query\":\"PriPara\",\"fields\":[\"titles.ja\",\"main_title^10\"]}}}\n";
    assert_eq!(body, format!("{}{}", expected_one, expected_two));
    for line in body.lines() {
        let v: serde_json::Value = serde_json::from_str(line).expect("every line must parse");
        if v.get("query").is_some() {
            assert_eq!(v.get("size").and_then(|s| s.as_u64()), Some(1));
        }
    }
}

#[test]
fn msearch_fields_boost_the_main_title_without_languages_too() {
    let body = msearch_body(&strings(&["x"]), &Vec::new());
    assert!(body.contains("\"fields\":[\"main_title^10\"]"));
}

#[test]
fn unmatched_entry_becomes_an_insert() {
    let mut recon = Reconciliation::new();
    recon.absorb(&strings(&["Aikatsu!"]), &vec![None]);
    assert!(recon.updates.is_empty());
    assert_eq!(recon.inserts.len(), 1);
    let doc = &recon.inserts[0];
    assert_eq!(doc.id, "Aikatsu!");
    assert_eq!(doc.main_title, Some("Aikatsu!".to_string()));
    assert!(doc.titles.0.is_empty());
    assert_eq!(doc.clubdam_titles, Some(vec!["Aikatsu!".to_string()]));
}

#[test]
fn matched_entries_group_by_document_id() {
    let mut recon = Reconciliation::new();
    recon.absorb(
        &strings(&["A", "B", "C", "D"]),
        &vec![
            Some("5".to_string()),
            Some("7".to_string()),
            Some("5".to_string()),
            None,
        ],
    );
    assert_eq!(
        recon.updates,
        vec![
            ("5".to_string(), strings(&["A", "C"])),
            ("7".to_string(), strings(&["B"])),
        ]
    );
    assert_eq!(recon.inserts.len(), 1);
    assert_eq!(recon.inserts[0].id, "D");
}

#[test]
fn batch_boundaries_do_not_change_the_outcome() {
    let titles = strings(&["A", "B", "C"]);
    let matches = vec![Some("1".to_string()), None, Some("1".to_string())];
    let mut whole = Reconciliation::new();
    whole.absorb(&titles, &matches);
    let mut split = Reconciliation::new();
    split.absorb(&strings(&["A"]), &vec![Some("1".to_string())]);
    split.absorb(&strings(&["B", "C"]), &vec![None, Some("1".to_string())]);
    assert_eq!(whole.updates, split.updates);
    assert_eq!(whole.inserts.len(), split.inserts.len());
    assert_eq!(whole.inserts[0].id, split.inserts[0].id);
}

#[test]
fn msearch_response_routes_matches_and_misses() {
    let mut recon = Reconciliation::new();
    let body = "{\"responses\":[{\"hits\":{\"hits\":[{\"_source\":{\"id\":\"42\"}}]}},{\"hits\":{\"hits\":[]}}]}";
    recon
        .absorb_response(&strings(&["Aikatsu!", "Nowhere"]), body)
        .expect("a well-formed response routes fine");
    assert_eq!(recon.updates, vec![("42".to_string(), strings(&["Aikatsu!"]))]);
    assert_eq!(recon.inserts.len(), 1);
    assert_eq!(recon.inserts[0].id, "Nowhere");
}

#[test]
fn msearch_response_of_wrong_arity_is_an_error() {
    let mut recon = Reconciliation::new();
    let body = "{\"responses\":[{\"hits\":{\"hits\":[]}}]}";
    match recon.absorb_response(&strings(&["A", "B"]), body) {
        Err(Error::UnexpectedResponse(path, b)) => {
            assert_eq!(path, "_msearch");
            assert_eq!(b, body);
        }
        other => panic!("expected an unexpected-response error, got {:?}", other),
    }
    assert!(recon.updates.is_empty());
    assert!(recon.inserts.is_empty());
}

#[test]
fn unparseable_msearch_body_is_an_error() {
    let mut recon = Reconciliation::new();
    match recon.absorb_response(&strings(&["A"]), "oops") {
        Err(Error::UnexpectedResponse(path, b)) => {
            assert_eq!(path, "_msearch");
            assert_eq!(b, "oops");
        }
        other => panic!("expected an unexpected-response error, got {:?}", other),
    }
}

#[test]
fn query_text_is_escaped_into_valid_json() {
    let tricky = "he said \"hi\"\\\nend";
    let body = msearch_body(&strings(&[tricky]), &strings(&["ja"]));
    let query_line = body.lines().nth(1).expect("a header and a query line");
    let v: serde_json::Value = serde_json::from_str(query_line).expect("query must parse");
    assert_eq!(
        v.pointer("/query/multi_match/query").and_then(|q| q.as_str()),
        Some(tricky)
    );
}
