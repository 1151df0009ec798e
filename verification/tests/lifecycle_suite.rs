use clubdam_anidb_indexer::bulk::{bulk_insert_bodies, bulk_update_bodies};
use clubdam_anidb_indexer::clock::Timestamp;
use clubdam_anidb_indexer::elastic::{Series, TitlesByLanguage};
use clubdam_anidb_indexer::error::Error;
use clubdam_anidb_indexer::lifecycle::{
    alias_swap_body, bulk_path, index_name, indexes_for_alias, mappings, rebuild_plan, retire_plan,
};
use clubdam_anidb_indexer::request::Method;

fn ts(year: u16, month: u8, day: u8, hour: u8, minute: u8, second: u8) -> Timestamp {
    Timestamp { year, month, day, hour, minute, second }
}

fn doc(id: &str, main: Option<&str>, langs: Vec<(&str, Vec<&str>)>) -> Series {
    Series {
        id: id.to_string(),
        main_title: main.map(|m| m.to_string()),
        titles: TitlesByLanguage(
            langs
                .into_iter()
                .map(|(l, ts)| (l.to_string(), ts.into_iter().map(|t| t.to_string()).collect()))
                .collect(),
        ),
        clubdam_titles: None,
    }
}

#[test]
fn index_name_carries_the_sortable_stamp() {
    assert_eq!(
        index_name("series", &ts(2023, 1, 2, 0, 0, 0)),
        "series_20230102_000000"
    );
    assert_eq!(
        index_name("series", &ts(987, 11, 30, 9, 5, 59)),
        "series_09871130_090559"
    );
}

#[test]
fn rebuild_returns_prior_indices_as_retire_list() {
    let docs = vec![doc("1", Some("main"), vec![("ja", vec!["main"])])];
    let old = vec!["series_20230101_000000".to_string()];
    let plan = rebuild_plan("series", "series", &ts(2023, 1, 2, 0, 0, 0), &docs, 1000, true, old);
    assert_eq!(plan.index_name, "series_20230102_000000");
    assert_eq!(plan.retire, vec!["series_20230101_000000".to_string()]);
    assert_eq!(plan.create.method, Method::Put);
    assert_eq!(plan.create.path, "series_20230102_000000");
    assert_eq!(plan.inserts.len(), 1);
    assert_eq!(
        plan.inserts[0].path,
        "series_20230102_000000/series/_bulk?refresh=wait_for"
    );
    assert_eq!(plan.swap.method, Method::Post);
    assert_eq!(plan.swap.path, "_aliases");
    assert_eq!(
        plan.swap.body.as_deref(),
        Some(
            "{\"actions\":[{\"remove\":{\"index\":\"series_20230101_000000\",\"alias\":\"series\"}},{\"add\":{\"index\":\"series_20230102_000000\",\"alias\":\"series\"}}]}"
        )
    );
}

#[test]
fn swap_body_with_no_old_indices_only_adds() {
    assert_eq!(
        alias_swap_body("series", &Vec::new(), "series_20230102_000000"),
        "{\"actions\":[{\"add\":{\"index\":\"series_20230102_000000\",\"alias\":\"series\"}}]}"
    );
}

#[test]
fn mappings_body_is_well_formed_json() {
    let m = mappings();
    let v: serde_json::Value = serde_json::from_str(&m).expect("mappings must parse");
    assert_eq!(
        v.pointer("/settings/analysis/analyzer/romaji/type").and_then(|t| t.as_str()),
        Some("custom")
    );
    assert_eq!(
        v.pointer("/mappings/series/properties/titles/properties/ja/analyzer")
            .and_then(|t| t.as_str()),
        Some("cjk")
    );
    assert_eq!(
        v.pointer("/mappings/series/properties/clubdam_titles/analyzer")
            .and_then(|t| t.as_str()),
        Some("cjk")
    );
}

#[test]
fn bulk_paths_carry_the_visibility_flag() {
    assert_eq!(bulk_path("idx", "series", false), "idx/series/_bulk");
    assert_eq!(bulk_path("idx", "series", true), "idx/series/_bulk?refresh=wait_for");
}

#[test]
fn insert_bodies_chunk_and_cover_all_documents() {
    let docs: Vec<Series> = (1..=5)
        .map(|i| doc(&i.to_string(), None, vec![("ja", vec!["t"])]))
        .collect();
    let bodies = bulk_insert_bodies(&docs, 2);
    assert_eq!(bodies.len(), 3);
    let whole = bulk_insert_bodies(&docs, 100);
    assert_eq!(whole.len(), 1);
    assert_eq!(bodies.concat(), whole[0]);
    let lines: Vec<&str> = whole[0].lines().collect();
    assert_eq!(lines.len(), 10);
    let action: serde_json::Value = serde_json::from_str(lines[0]).unwrap();
    assert_eq!(action.pointer("/index/_id").and_then(|v| v.as_str()), Some("1"));
    let body: serde_json::Value = serde_json::from_str(lines[1]).unwrap();
    assert_eq!(body.get("id").and_then(|v| v.as_str()), Some("1"));
    assert_eq!(body.get("main_title").map(|v| v.is_null()), Some(true));
    assert_eq!(
        body.pointer("/titles/ja/0").and_then(|v| v.as_str()),
        Some("t")
    );
}

#[test]
fn document_serialization_escapes_and_round_trips() {
    let tricky = "a\"b\\c\nd\tニャー\u{1}";
    let docs = vec![doc("x", Some(tricky), vec![(tricky, vec![tricky])])];
    let bodies = bulk_insert_bodies(&docs, 10);
    let lines: Vec<&str> = bodies[0].lines().collect();
    let body: serde_json::Value = serde_json::from_str(lines[1]).expect("document must parse");
    assert_eq!(body.get("main_title").and_then(|v| v.as_str()), Some(tricky));
    assert_eq!(
        body.get("titles").and_then(|t| t.get(tricky)).and_then(|l| l.get(0)).and_then(
            |v| v.as_str()
        ),
        Some(tricky)
    );
}

#[test]
fn update_bodies_patch_the_live_catalog_titles() {
    let items = vec![
        ("10".to_string(), vec!["A".to_string(), "B".to_string()]),
        ("20".to_string(), vec!["C".to_string()]),
    ];
    let bodies = bulk_update_bodies(&items, 1);
    assert_eq!(bodies.len(), 2);
    assert_eq!(
        bodies[0],
        "{\"update\":{\"_id\":\"10\"}}\n{\"doc\":{\"clubdam_titles\":[\"A\",\"B\"]}}\n"
    );
    assert_eq!(
        bodies[1],
        "{\"update\":{\"_id\":\"20\"}}\n{\"doc\":{\"clubdam_titles\":[\"C\"]}}\n"
    );
}

#[test]
fn retire_plan_deletes_each_index() {
    let reqs = retire_plan(&vec!["a".to_string(), "b".to_string()]);
    assert_eq!(reqs.len(), 2);
    assert_eq!(reqs[0].method, Method::Delete);
    assert_eq!(reqs[0].path, "a");
    assert!(reqs[0].body.is_none());
    assert_eq!(reqs[1].path, "b");
}

#[test]
fn alias_listing_parses_to_index_names() {
    let body = "{\"series_a\":{\"aliases\":{\"series\":{}}},\"series_b\":{\"aliases\":{}}}";
    assert_eq!(
        indexes_for_alias(body),
        Ok(vec!["series_a".to_string(), "series_b".to_string()])
    );
}

#[test]
fn alias_listing_that_is_no_object_is_rejected() {
    match indexes_for_alias("[1,2]") {
        Err(Error::UnexpectedResponse(path, body)) => {
            assert_eq!(path, "_aliases");
            assert_eq!(body, "[1,2]");
        }
        other => panic!("expected an unexpected-response error, got {:?}", other),
    }
}

#[test]
fn swap_body_removes_every_prior_index() {
    let old = vec!["series_a".to_string(), "series_b".to_string()];
    assert_eq!(
        alias_swap_body("series", &old, "series_c"),
        "{\"actions\":[{\"remove\":{\"index\":\"series_a\",\"alias\":\"series\"}},{\"remove\":{\"index\":\"series_b\",\"alias\":\"series\"}},{\"add\":{\"index\":\"series_c\",\"alias\":\"series\"}}]}"
    );
}
