use clubdam_anidb_indexer::elastic::{assemble, Series, TitlesByLanguage};
use clubdam_anidb_indexer::error::Error;
use clubdam_anidb_indexer::{parse_record_id, Title, TitleType};

fn record(id: u32, title_type: TitleType, language: &str, title: &str) -> Title {
    Title {
        id,
        title_type,
        language: language.to_string(),
        title: title.to_string(),
    }
}

fn lang_list(doc: &Series, language: &str) -> Option<Vec<String>> {
    doc.titles
        .0
        .iter()
        .find(|(l, _)| l.as_str() == language)
        .map(|(_, ts)| ts.clone())
}

#[test]
fn assembles_example_document() {
    let titles = vec![
        record(1, TitleType::Primary, "ja", "アイカツ!"),
        record(1, TitleType::Synonym, "en", "Aikatsu!"),
    ];
    let docs = assemble(&titles);
    assert_eq!(docs.len(), 1);
    let doc = &docs[0];
    assert_eq!(doc.id, "1");
    assert_eq!(doc.main_title, Some("アイカツ!".to_string()));
    assert_eq!(lang_list(doc, "ja"), Some(vec!["アイカツ!".to_string()]));
    assert_eq!(lang_list(doc, "en"), Some(vec!["Aikatsu!".to_string()]));
    assert!(doc.clubdam_titles.is_none());
}

#[test]
fn language_lists_are_priority_descending() {
    let titles = vec![
        record(7, TitleType::Short, "en", "short"),
        record(7, TitleType::Official, "en", "official"),
        record(7, TitleType::Primary, "en", "primary"),
        record(7, TitleType::Synonym, "en", "synonym"),
    ];
    let tbl = TitlesByLanguage::new(titles);
    assert_eq!(
        tbl.0,
        vec![(
            "en".to_string(),
            vec![
                "primary".to_string(),
                "official".to_string(),
                "synonym".to_string(),
                "short".to_string(),
            ],
        )]
    );
}

#[test]
fn priority_order_holds_under_permutation() {
    let a = vec![
        record(7, TitleType::Synonym, "en", "syn"),
        record(7, TitleType::Primary, "en", "pri"),
    ];
    let b = vec![
        record(7, TitleType::Primary, "en", "pri"),
        record(7, TitleType::Synonym, "en", "syn"),
    ];
    let ta = TitlesByLanguage::new(a);
    let tb = TitlesByLanguage::new(b);
    assert_eq!(ta.0, tb.0);
    assert_eq!(
        ta.0[0].1,
        vec!["pri".to_string(), "syn".to_string()]
    );
}

#[test]
fn equal_priority_titles_come_latest_first() {
    let titles = vec![
        record(7, TitleType::Synonym, "en", "first"),
        record(7, TitleType::Synonym, "en", "second"),
    ];
    let tbl = TitlesByLanguage::new(titles);
    assert_eq!(
        tbl.0,
        vec![(
            "en".to_string(),
            vec!["second".to_string(), "first".to_string()],
        )]
    );
}

#[test]
fn main_title_of_missing_language_is_none() {
    let tbl = TitlesByLanguage::new(vec![record(7, TitleType::Primary, "en", "pri")]);
    assert_eq!(tbl.main_title("ja"), None);
    assert_eq!(tbl.main_title("en"), Some("pri".to_string()));
}

#[test]
fn entity_without_records_yields_no_document() {
    let docs = assemble(&Vec::new());
    assert!(docs.is_empty());
}

#[test]
fn groups_records_by_owning_id_in_first_occurrence_order() {
    let titles = vec![
        record(5, TitleType::Primary, "ja", "five"),
        record(3, TitleType::Primary, "ja", "three"),
        record(5, TitleType::Synonym, "en", "cinq"),
    ];
    let docs = assemble(&titles);
    assert_eq!(docs.len(), 2);
    assert_eq!(docs[0].id, "5");
    assert_eq!(docs[1].id, "3");
    assert_eq!(lang_list(&docs[0], "en"), Some(vec!["cinq".to_string()]));
    assert_eq!(lang_list(&docs[1], "ja"), Some(vec!["three".to_string()]));
}

#[test]
fn title_type_codes_decode_by_the_dump_convention() {
    assert_eq!(TitleType::from_id("1"), Ok(TitleType::Primary));
    assert_eq!(TitleType::from_id("2"), Ok(TitleType::Synonym));
    assert_eq!(TitleType::from_id("3"), Ok(TitleType::Short));
    assert_eq!(TitleType::from_id("4"), Ok(TitleType::Official));
}

#[test]
fn unknown_title_type_code_is_a_fatal_error() {
    assert_eq!(
        TitleType::from_id("5"),
        Err(Error::InvalidTitleType("5".to_string()))
    );
    assert_eq!(
        TitleType::from_id(""),
        Err(Error::InvalidTitleType(String::new()))
    );
    assert_eq!(
        TitleType::from_id("10"),
        Err(Error::InvalidTitleType("10".to_string()))
    );
}

#[test]
fn priority_rises_from_short_to_primary() {
    assert!(TitleType::Short.priority() < TitleType::Synonym.priority());
    assert!(TitleType::Synonym.priority() < TitleType::Official.priority());
    assert!(TitleType::Official.priority() < TitleType::Primary.priority());
}

#[test]
fn record_ids_parse_as_decimal_numbers() {
    assert_eq!(parse_record_id("0", 4), Ok(0));
    assert_eq!(parse_record_id("4562", 4), Ok(4562));
    assert_eq!(parse_record_id("4294967295", 4), Ok(u32::MAX));
}

#[test]
fn bad_record_ids_are_reported_with_their_line() {
    assert_eq!(
        parse_record_id("", 7),
        Err(Error::InvalidId(String::new(), 7))
    );
    assert_eq!(
        parse_record_id("12a", 8),
        Err(Error::InvalidId("12a".to_string(), 8))
    );
    assert_eq!(
        parse_record_id("4294967296", 9),
        Err(Error::InvalidId("4294967296".to_string(), 9))
    );
    assert_eq!(
        parse_record_id("-3", 10),
        Err(Error::InvalidId("-3".to_string(), 10))
    );
}
