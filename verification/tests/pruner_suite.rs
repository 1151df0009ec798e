use clubdam_anidb_indexer::error::Error;
use clubdam_anidb_indexer::request::Method;
use clubdam_anidb_indexer::scroll::{PruneStep, Pruner};

fn pruner() -> Pruner {
    Pruner::new("series".to_string(), "series".to_string())
}

fn ids(xs: &[&str]) -> Vec<String> {
    xs.iter().map(|x| x.to_string()).collect()
}

#[test]
fn initial_request_carries_predicate_sort_and_page_size() {
    let req = pruner().initial_request(2);
    assert_eq!(req.method, Method::Post);
    assert_eq!(req.path, "series/_search?scroll=1m");
    let body = req.body.expect("the opening search has a body");
    let v: serde_json::Value = serde_json::from_str(&body).expect("query must parse");
    assert_eq!(
        v.pointer("/query/bool/must_not/exists/field").and_then(|f| f.as_str()),
        Some("clubdam_titles")
    );
    assert_eq!(v.get("size").and_then(|s| s.as_u64()), Some(2));
    assert_eq!(v.pointer("/sort/0").and_then(|s| s.as_str()), Some("_doc"));
}

#[test]
fn five_documents_with_page_size_two_take_three_deletions() {
    let p = pruner();
    let pages: Vec<(Option<String>, Vec<String>)> = vec![
        (Some("c1".to_string()), ids(&["1", "2"])),
        (Some("c2".to_string()), ids(&["3", "4"])),
        (Some("c3".to_string()), ids(&["5"])),
        (Some("c4".to_string()), ids(&[])),
    ];
    let mut deletions = 0;
    let mut finished = false;
    for (sid, page) in &pages {
        match p.on_page(sid, page).expect("pages with cursors step fine") {
            PruneStep::Continue { delete, fetch } => {
                deletions += 1;
                assert_eq!(delete.method, Method::Put);
                assert_eq!(delete.path, "series/series/_bulk");
                assert_eq!(fetch.method, Method::Post);
                assert_eq!(fetch.path, "_search/scroll");
            }
            PruneStep::Done => {
                finished = true;
            }
        }
    }
    assert_eq!(deletions, 3);
    assert!(finished);
}

#[test]
fn page_deletion_body_lists_each_id() {
    let p = pruner();
    let step = p
        .on_page(&Some("c1".to_string()), &ids(&["10", "11"]))
        .expect("a page with a cursor steps fine");
    match step {
        PruneStep::Continue { delete, fetch } => {
            assert_eq!(
                delete.body.as_deref(),
                Some("{\"delete\":{\"_id\":\"10\"}}\n{\"delete\":{\"_id\":\"11\"}}\n")
            );
            assert_eq!(
                fetch.body.as_deref(),
                Some("{\"scroll\":\"1m\",\"scroll_id\":\"c1\"}")
            );
        }
        PruneStep::Done => panic!("a page of ids must not end the pass"),
    }
}

#[test]
fn scroll_response_body_drives_the_pass() {
    let p = pruner();
    let body =
        "{\"_scroll_id\":\"abc\",\"hits\":{\"hits\":[{\"_id\":\"10\"},{\"_id\":\"11\"}]}}";
    match p.on_response(body).expect("a full page steps fine") {
        PruneStep::Continue { delete, fetch } => {
            assert_eq!(
                delete.body.as_deref(),
                Some("{\"delete\":{\"_id\":\"10\"}}\n{\"delete\":{\"_id\":\"11\"}}\n")
            );
            assert_eq!(
                fetch.body.as_deref(),
                Some("{\"scroll\":\"1m\",\"scroll_id\":\"abc\"}")
            );
        }
        PruneStep::Done => panic!("two hits must not end the pass"),
    }
}

#[test]
fn empty_page_ends_the_pass() {
    let p = pruner();
    let body = "{\"_scroll_id\":\"abc\",\"hits\":{\"hits\":[]}}";
    assert!(matches!(p.on_response(body), Ok(PruneStep::Done)));
}

#[test]
fn page_without_cursor_token_is_an_error() {
    let p = pruner();
    let body = "{\"hits\":{\"hits\":[{\"_id\":\"10\"}]}}";
    match p.on_response(body) {
        Err(Error::UnexpectedResponse(path, _)) => assert_eq!(path, "_search/scroll"),
        other => panic!("expected an unexpected-response error, got {:?}", other),
    }
}

#[test]
fn unparseable_scroll_body_is_an_error() {
    let p = pruner();
    match p.on_response("not json") {
        Err(Error::UnexpectedResponse(path, body)) => {
            assert_eq!(path, "_search/scroll");
            assert_eq!(body, "not json");
        }
        other => panic!("expected an unexpected-response error, got {:?}", other),
    }
}

#[test]
fn empty_page_without_cursor_still_ends_the_pass() {
    let p = pruner();
    assert!(matches!(p.on_page(&None, &Vec::new()), Ok(PruneStep::Done)));
}
