use spsharp::merge::{merge_sources, tag_rows, union_sources, SourceInfo};
use spsharp::record::Record;

fn row(v: &str) -> Record {
    let mut r = Record::new();
    r.insert("x".to_string(), Some(v.to_string()));
    r
}

fn get(r: &Record, k: &str) -> Option<String> {
    r.get(k).flatten()
}

#[test]
fn merge_unions_in_source_order_with_provenance() {
    let rows = union_sources(vec![(vec![row("1")], "A".to_string()), (vec![row("2")], "B".to_string())]);
    assert_eq!(rows.len(), 2);
    assert_eq!(get(&rows[0], "x"), Some("1".to_string()));
    assert_eq!(get(&rows[0], "Source"), Some("A".to_string()));
    assert_eq!(get(&rows[1], "x"), Some("2".to_string()));
    assert_eq!(get(&rows[1], "Source"), Some("B".to_string()));
}

#[test]
fn merge_does_not_deduplicate() {
    let rows = union_sources(vec![(vec![row("1")], "A".to_string()), (vec![row("1")], "B".to_string())]);
    assert_eq!(rows.len(), 2);
    assert_eq!(get(&rows[0], "x"), get(&rows[1], "x"));
}

#[test]
fn merge_tags_rows_with_source_json() {
    let rows = merge_sources(vec![
        (vec![row("1")], SourceInfo { list: "A".to_string(), url: "http://a/".to_string() }),
        (vec![row("2")], SourceInfo { list: "B".to_string(), url: "http://b/".to_string() }),
    ]);
    assert_eq!(rows.len(), 2);
    assert_eq!(get(&rows[0], "Source"), Some("{\"list\":\"A\",\"url\":\"http://a/\"}".to_string()));
    assert_eq!(get(&rows[1], "Source"), Some("{\"list\":\"B\",\"url\":\"http://b/\"}".to_string()));
    assert_eq!(get(&rows[1], "x"), Some("2".to_string()));
}

#[test]
fn tagging_replaces_an_existing_source_field() {
    let mut r = row("1");
    r.insert("Source".to_string(), Some("old".to_string()));
    let rows = tag_rows(vec![r], "new");
    assert_eq!(get(&rows[0], "Source"), Some("new".to_string()));
    assert_eq!(rows[0].len(), 2);
}
