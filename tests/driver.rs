use spsharp::driver::Retrieval;
use spsharp::options::WhereClause;
use spsharp::record::Record;

fn row(v: &str) -> Record {
    let mut r = Record::new();
    r.insert("x".to_string(), Some(v.to_string()));
    r
}

fn xs(rows: &[Record]) -> Vec<String> {
    rows.iter().map(|r| r.get("x").flatten().unwrap()).collect()
}

#[test]
fn single_filter_without_paging_is_one_round() {
    let mut r = Retrieval::new(WhereClause::Single("<Eq/>".to_string()), false, 5000, None);
    assert_eq!(r.next_request(), ("<Eq/>".to_string(), None));
    let p = r.record_round(vec![row("1"), row("2")], Some("more".to_string()));
    assert!(p.is_none());
    assert!(r.is_done());
    let (rows, token) = r.finish();
    assert_eq!(xs(&rows), vec!["1", "2"]);
    assert_eq!(token, Some("more".to_string()));
}

#[test]
fn filter_list_runs_one_round_per_filter_in_order() {
    let filters = vec!["a".to_string(), "b".to_string(), "c".to_string()];
    let mut r = Retrieval::new(WhereClause::Multiple(filters), false, 5000, None);
    let mut seen = Vec::new();
    let mut progress = Vec::new();
    let mut n = 0;
    while !r.is_done() {
        let (f, t) = r.next_request();
        assert!(t.is_none());
        seen.push(f.clone());
        let p = r.record_round(vec![row(&f)], None).unwrap();
        progress.push((p.completed, p.total));
        n += 1;
    }
    assert_eq!(n, 3);
    assert_eq!(seen, vec!["a", "b", "c"]);
    assert_eq!(progress, vec![(1, Some(3)), (2, Some(3)), (3, Some(3))]);
    let (rows, token) = r.finish();
    assert_eq!(xs(&rows), vec!["a", "b", "c"]);
    assert_eq!(token, None);
}

#[test]
fn empty_filter_list_is_one_round_without_filter() {
    let mut r = Retrieval::new(WhereClause::Multiple(Vec::new()), false, 5000, None);
    assert_eq!(r.next_request(), (String::new(), None));
    r.record_round(Vec::new(), None);
    assert!(r.is_done());
}

#[test]
fn paging_runs_until_no_token() {
    let mut r = Retrieval::new(WhereClause::Single(String::new()), true, 10, Some("start".to_string()));
    let replies = vec![Some("t1".to_string()), Some("t2".to_string()), None];
    let mut sent = Vec::new();
    let mut k = 0;
    while !r.is_done() {
        let (_, t) = r.next_request();
        sent.push(t);
        r.record_round(vec![row(&k.to_string())], replies[k].clone());
        k += 1;
    }
    assert_eq!(k, 3);
    assert_eq!(sent, vec![Some("start".to_string()), Some("t1".to_string()), Some("t2".to_string())]);
    let (rows, token) = r.finish();
    assert_eq!(xs(&rows), vec!["0", "1", "2"]);
    assert_eq!(token, None);
}

#[test]
fn paging_stops_when_budget_is_spent() {
    let mut r = Retrieval::new(WhereClause::default(), true, 2, None);
    let p = r.record_round(vec![row("0")], Some("t1".to_string())).unwrap();
    assert_eq!((p.completed, p.total), (1, None));
    assert!(!r.is_done());
    r.record_round(vec![row("1")], Some("t2".to_string()));
    assert!(r.is_done());
    let (rows, token) = r.finish();
    assert_eq!(rows.len(), 2);
    assert_eq!(token, Some("t2".to_string()));
}

#[test]
fn paged_filter_list_resets_token_between_filters() {
    let mut r = Retrieval::new(WhereClause::Multiple(vec!["a".to_string(), "b".to_string()]), true, 10, None);
    r.record_round(vec![row("a1")], Some("p".to_string()));
    assert_eq!(r.next_request(), ("a".to_string(), Some("p".to_string())));
    r.record_round(vec![row("a2")], None);
    assert_eq!(r.next_request(), ("b".to_string(), None));
    r.record_round(vec![row("b1")], None);
    assert!(r.is_done());
    assert_eq!(xs(&r.finish().0), vec!["a1", "a2", "b1"]);
}
