use spsharp::modal::get_modal_dialog;
use spsharp::options::{
    apply_view_filter, default_calendar_range, default_folder_show, default_page_limit, default_split_recurrence,
    default_true, merge_fields, merge_orderby, WhereClause,
};
use spsharp::query::{CalendarRange, FolderShow};
use spsharp::record::Record;

fn strings(v: &[&str]) -> Vec<String> {
    v.iter().map(|s| s.to_string()).collect()
}

#[test]
fn where_clause_accessors() {
    assert!(WhereClause::default().is_empty());
    assert!(WhereClause::Multiple(Vec::new()).is_empty());
    assert!(WhereClause::Multiple(strings(&["", ""])).is_empty());
    assert!(!WhereClause::Multiple(strings(&["", "a"])).is_empty());
    let s = WhereClause::Single("a".to_string());
    assert_eq!(s.get_single(), Some(&"a".to_string()));
    assert!(s.get_multiple().is_none());
    let m = WhereClause::Multiple(strings(&["a"]));
    assert!(m.get_single().is_none());
    assert_eq!(m.get_multiple(), Some(&strings(&["a"])));
}

#[test]
fn defaults() {
    assert_eq!(default_folder_show(), FolderShow::FilesAndFoldersInFolder);
    assert_eq!(default_calendar_range(), CalendarRange::Month);
    assert!(default_split_recurrence());
    assert!(default_true());
    assert_eq!(default_page_limit(), 5000);
}

#[test]
fn view_fields_are_a_union() {
    assert_eq!(
        merge_fields(&strings(&["Title", "ID"]), &strings(&["ID", "Status", "Title", "Owner"])),
        strings(&["Title", "ID", "Status", "Owner"])
    );
}

#[test]
fn view_sort_comes_after_user_sort() {
    assert_eq!(merge_orderby("Title", Some("Created desc")), "Title,Created desc");
    assert_eq!(merge_orderby("", Some("Created")), "Created");
    assert_eq!(merge_orderby("Title", Some("")), "Title");
    assert_eq!(merge_orderby("Title", None), "Title");
}

#[test]
fn view_filter_is_anded_with_user_filters() {
    let w = apply_view_filter(WhereClause::Single("<Eq/>".to_string()), Some("<Neq/>".to_string()));
    assert_eq!(w.get_single(), Some(&"<And><Eq/><Neq/></And>".to_string()));
    let w = apply_view_filter(WhereClause::default(), Some("<Neq/>".to_string()));
    assert_eq!(w.get_single(), Some(&"<Neq/>".to_string()));
    let w = apply_view_filter(WhereClause::Multiple(strings(&["<A/>", "<B/>"])), Some("<V/>".to_string()));
    assert_eq!(w.get_multiple(), Some(&strings(&["<And><A/><V/></And>", "<And><B/><V/></And>"])));
    let w = apply_view_filter(WhereClause::Multiple(strings(&["<A/>"])), Some("<V/>".to_string()));
    assert_eq!(w.get_single(), Some(&"<And><A/><V/></And>".to_string()));
    let w = apply_view_filter(WhereClause::Multiple(strings(&["<A/>", "<B/>"])), None);
    assert_eq!(w.get_multiple(), Some(&strings(&["<A/>", "<B/>"])));
}

#[test]
fn modal_dialog_lookup_by_sanitised_id() {
    let mut d1 = Record::new();
    d1.insert("id".to_string(), Some("sp_frame_other".to_string()));
    let mut d2 = Record::new();
    d2.insert("id".to_string(), Some("sp_frame_abc12".to_string()));
    d2.insert("title".to_string(), Some("Edit".to_string()));
    let dialogs = vec![d1, d2];
    let found = get_modal_dialog("abc-12!", &dialogs).unwrap();
    assert_eq!(found.get("title"), Some(Some("Edit".to_string())));
    assert!(get_modal_dialog("nope", &dialogs).is_none());
}
