use zdoc::api::IndexError;
use zdoc::json::JsonValue;
use zdoc::search::{collect_matches, fuzzy_search_json, rank_results, SearchResult};

fn s(text: &str) -> JsonValue {
    JsonValue::Str(text.to_string())
}

fn obj(entries: Vec<(&str, JsonValue)>) -> JsonValue {
    JsonValue::Object(entries.into_iter().map(|(k, v)| (k.to_string(), v)).collect())
}

fn named(name: &str, kind: &str) -> JsonValue {
    obj(vec![("name", s(name)), ("inner", obj(vec![(kind, obj(vec![]))]))])
}

fn entries(items: Vec<JsonValue>) -> Vec<(String, JsonValue)> {
    items.into_iter().enumerate().map(|(i, v)| (i.to_string(), v)).collect()
}

fn result(name: &str, score: i64) -> SearchResult {
    SearchResult {
        name: name.to_string(),
        crate_name: "c".to_string(),
        item_type: "Function".to_string(),
        path: None,
        description: None,
        score,
    }
}

fn names(results: &[SearchResult]) -> Vec<String> {
    results.iter().map(|r| r.name.clone()).collect()
}

#[test]
fn scorer_that_rejects_nothing_returns_all_ranked() {
    let index = entries(vec![named("iter", "Function"), named("filter", "Method"), named("into_iter", "Function")]);
    let scores = vec![Some(40), Some(10), Some(25)];
    let found = collect_matches(&index, "std", &scores);
    assert_eq!(names(&found), vec!["iter", "filter", "into_iter"]);
    assert!(found.iter().all(|r| r.crate_name == "std" && r.path.is_none()));
    assert_eq!(found[1].item_type, "Method");
    let ranked = rank_results(found, 3);
    assert_eq!(names(&ranked), vec!["iter", "into_iter", "filter"]);
    let index = entries(vec![named("iter", "Function"), named("filter", "Method"), named("into_iter", "Function")]);
    let top = rank_results(collect_matches(&index, "std", &scores), 2);
    assert_eq!(names(&top), vec!["iter", "into_iter"]);
}

#[test]
fn skim_query_matches_all_three_names() {
    let doc = obj(vec![(
        "index",
        JsonValue::Object(entries(vec![named("iter", "Function"), named("filter", "Function"), named("into_iter", "Function")])),
    )]);
    let found = fuzzy_search_json(&doc, "std", "itr").unwrap();
    let mut got = names(&found);
    got.sort();
    assert_eq!(got, vec!["filter", "into_iter", "iter"]);
    let ranked = rank_results(found, 10);
    assert_eq!(ranked.len(), 3);
    assert!(ranked.windows(2).all(|w| w[0].score >= w[1].score));
}

#[test]
fn skim_rejects_a_query_that_does_not_match() {
    let doc = obj(vec![("index", JsonValue::Object(entries(vec![named("iter", "Function")])))]);
    assert!(fuzzy_search_json(&doc, "std", "zzz").unwrap().is_empty());
    let found = fuzzy_search_json(&doc, "std", "iter").unwrap();
    assert_eq!(found.len(), 1);
    assert!(found[0].score > 0);
}

#[test]
fn unnamed_and_unscored_items_are_dropped() {
    let index = entries(vec![
        obj(vec![("inner", obj(vec![("Function", obj(vec![]))]))]),
        named("kept", "Import"),
        named("rejected", "Function"),
    ]);
    let found = collect_matches(&index, "c", &vec![Some(5), Some(3), None]);
    assert_eq!(names(&found), vec!["kept"]);
    assert_eq!(found[0].item_type, "Import");
    assert_eq!(found[0].score, 3);
}

#[test]
fn kind_defaults_to_unknown_and_docs_are_carried() {
    let index = entries(vec![
        obj(vec![("name", s("a")), ("docs", s("Some text that is kept whole."))]),
        obj(vec![("name", s("b")), ("inner", obj(vec![]))]),
        obj(vec![("name", s("c")), ("inner", s("Struct"))]),
    ]);
    let found = collect_matches(&index, "c", &vec![Some(1), Some(1), Some(1)]);
    assert_eq!(found.len(), 3);
    assert!(found.iter().all(|r| r.item_type == "unknown"));
    assert_eq!(found[0].description.as_deref(), Some("Some text that is kept whole."));
    assert_eq!(found[1].description, None);
}

#[test]
fn missing_index_fails_search() {
    assert_eq!(fuzzy_search_json(&obj(vec![]), "c", "q"), Err(IndexError::MissingIndex));
}

#[test]
fn ranking_keeps_equal_scores_in_order_and_truncates() {
    let results = vec![result("a", 1), result("b", 5), result("c", 1), result("d", 5), result("e", 3)];
    assert_eq!(names(&rank_results(results.clone(), 10)), vec!["b", "d", "e", "a", "c"]);
    assert_eq!(names(&rank_results(results.clone(), 2)), vec!["b", "d"]);
    assert!(rank_results(results, 0).is_empty());
    assert!(rank_results(vec![], 3).is_empty());
    let negative = vec![result("x", -4), result("y", 0)];
    assert_eq!(names(&rank_results(negative, 5)), vec!["y", "x"]);
}
