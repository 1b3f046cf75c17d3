use spsharp::join::{fields_for, get_lookup_id, parse_on_clause, JoinData};
use spsharp::plan::{lookup_child_filter, lookup_filter_for, on_clause_for, restrict_filter, ChildFilter};
use spsharp::options::WhereClause;
use spsharp::record::Record;

fn rec(pairs: &[(&str, &str)]) -> Record {
    let mut r = Record::new();
    for (k, v) in pairs {
        r.insert(k.to_string(), Some(v.to_string()));
    }
    r
}

fn value(r: &Record, k: &str) -> Option<String> {
    r.get(k).flatten()
}

fn join(outer: bool) -> Vec<Record> {
    let parents = vec![rec(&[("id", "1")]), rec(&[("id", "2")])];
    let children = vec![
        rec(&[("pid", "1"), ("name", "a")]),
        rec(&[("pid", "1"), ("name", "b")]),
        rec(&[("pid", "3"), ("name", "c")]),
    ];
    let pairs = parse_on_clause("'parent'.id = 'child'.pid").unwrap();
    let pf = fields_for(&pairs, "parent").unwrap();
    let cf = fields_for(&pairs, "child").unwrap();
    let data = JoinData::build(&parents, pf, "parent".to_string(), outer);
    data.join_children(&children, &cf, "child")
}

#[test]
fn inner_join_keeps_matched_pairs_only() {
    let rows = join(false);
    assert_eq!(rows.len(), 2);
    assert_eq!(value(&rows[0], "parent.id"), Some("1".to_string()));
    assert_eq!(value(&rows[0], "child.name"), Some("a".to_string()));
    assert_eq!(value(&rows[0], "child.pid"), Some("1".to_string()));
    assert_eq!(value(&rows[1], "parent.id"), Some("1".to_string()));
    assert_eq!(value(&rows[1], "child.name"), Some("b".to_string()));
}

#[test]
fn outer_join_adds_unmatched_parents() {
    let rows = join(true);
    assert_eq!(rows.len(), 3);
    assert_eq!(value(&rows[0], "child.name"), Some("a".to_string()));
    assert_eq!(value(&rows[1], "child.name"), Some("b".to_string()));
    assert_eq!(value(&rows[2], "parent.id"), Some("2".to_string()));
    assert_eq!(rows[2].get("child.name"), None);
    assert_eq!(rows[2].len(), 1);
    for r in &rows {
        assert_ne!(value(r, "child.name"), Some("c".to_string()));
    }
}

#[test]
fn join_uses_lookup_ids_and_skips_empty_keys() {
    let parents = vec![rec(&[("ID", "7")]), rec(&[("Other", "x")])];
    let children = vec![rec(&[("Parent", "7;#Seven")]), rec(&[("Parent", "")])];
    let pairs = parse_on_clause("'Kids'.Parent = 'Main'.ID").unwrap();
    let data = JoinData::build(&parents, fields_for(&pairs, "Main").unwrap(), "Main".to_string(), true);
    let rows = data.join_children(&children, &fields_for(&pairs, "Kids").unwrap(), "Kids");
    assert_eq!(rows.len(), 1);
    assert_eq!(value(&rows[0], "Main.ID"), Some("7".to_string()));
    assert_eq!(value(&rows[0], "Kids.Parent"), Some("7;#Seven".to_string()));
}

#[test]
fn on_clause_with_several_pairs() {
    let pairs = parse_on_clause("'A'.Year = 'B'.Y AND 'A'.Region='B'.R").unwrap();
    assert_eq!(pairs.len(), 2);
    assert_eq!(pairs[1].list1_name, "A");
    assert_eq!(pairs[1].list1_field, "Region");
    assert_eq!(pairs[1].list2_name, "B");
    assert_eq!(pairs[1].list2_field, "R");
    assert_eq!(fields_for(&pairs, "B").unwrap(), vec!["Y".to_string(), "R".to_string()]);
    assert!(fields_for(&pairs, "C").is_none());
}

#[test]
fn malformed_on_clause_is_refused() {
    assert!(parse_on_clause("A.Year = B.Y").is_none());
    assert!(parse_on_clause("'A'.Year").is_none());
    assert!(parse_on_clause("'A'.Year = 'B'.").is_none());
}

#[test]
fn lookup_id_extraction() {
    assert_eq!(get_lookup_id("12;#Title"), Some("12".to_string()));
    assert_eq!(get_lookup_id("Title"), None);
    assert_eq!(get_lookup_id(";#Title"), None);
    assert_eq!(get_lookup_id("1a;#Title"), None);
}

#[test]
fn lookup_join_on_clause_and_filter() {
    assert_eq!(
        on_clause_for(None, Some("ParentID"), "child", "parent"),
        Some("'child'.ParentID = 'parent'.ID".to_string())
    );
    assert_eq!(on_clause_for(Some("x"), Some("ParentID"), "c", "p"), Some("x".to_string()));
    assert_eq!(on_clause_for(None, None, "c", "p"), None);
    let l = lookup_filter_for("ParentID", &vec!["~1".to_string(), "~2".to_string()]).unwrap();
    assert_eq!(l, "(ParentID IN [\"~1\",\"~2\"])");
    assert_eq!(
        restrict_filter(&l, &WhereClause::Single("Status = 'Open'".to_string())),
        "((ParentID IN [\"~1\",\"~2\"])) AND (Status = 'Open')"
    );
    assert_eq!(
        restrict_filter("(L)", &WhereClause::Multiple(vec!["a".to_string(), "b".to_string()])),
        "((L)) AND ((a) OR (b))"
    );
    assert_eq!(restrict_filter("(L)", &WhereClause::Single(String::new())), "(L)");
}

#[test]
fn lookup_filter_falls_back_when_too_large() {
    let many: Vec<String> = (0..4501).map(|i| format!("~{}", i)).collect();
    assert!(lookup_filter_for("P", &many).is_none());
    let some: Vec<String> = (0..4500).map(|i| format!("~{}", i)).collect();
    let f = lookup_filter_for("P", &some).unwrap();
    assert_eq!(f.matches(" OR ").count(), 8);
}

#[test]
fn lookup_child_filter_cases() {
    let parents = vec![rec(&[("ID", "1")]), rec(&[("ID", "1")]), rec(&[("ID", "2")])];
    match lookup_child_filter(&parents, "P", &WhereClause::Single(String::new())) {
        ChildFilter::Restricted(f) => assert_eq!(f, "(P IN [\"~1\",\"~2\"])"),
        _ => panic!("expected a restricted filter"),
    }
    let none = vec![rec(&[("Title", "x")])];
    assert!(matches!(lookup_child_filter(&none, "P", &WhereClause::default()), ChildFilter::NoParents));
}
