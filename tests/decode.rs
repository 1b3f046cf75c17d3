use spsharp::decode::{decode_row, page_token};

fn attrs(pairs: &[(&str, &str)]) -> Vec<(String, String)> {
    pairs.iter().map(|(k, v)| (k.to_string(), v.to_string())).collect()
}

#[test]
fn decoded_row_strips_field_prefix() {
    let r = decode_row(&attrs(&[("ows_Title", "Ok")]), "Tasks", false);
    assert_eq!(r.get("Title"), Some(Some("Ok".to_string())));
    assert_eq!(r.len(), 1);
}

#[test]
fn decoded_row_ignores_other_attributes_and_qualifies() {
    let r = decode_row(&attrs(&[("ows_ID", "3"), ("xmlns", "z"), ("ows_Title", "Ok")]), "Tasks", true);
    assert_eq!(r.get("Tasks.ID"), Some(Some("3".to_string())));
    assert_eq!(r.get("Tasks.Title"), Some(Some("Ok".to_string())));
    assert_eq!(r.get("xmlns"), None);
    assert_eq!(r.len(), 2);
}

#[test]
fn continuation_token_is_read_when_present() {
    assert_eq!(
        page_token(&attrs(&[("ItemCount", "2"), ("ListItemCollectionPositionNext", "Paged=TRUE&p_ID=2")])),
        Some("Paged=TRUE&p_ID=2".to_string())
    );
    assert_eq!(page_token(&attrs(&[("ItemCount", "2"), ("ListItemCollectionPositionNext", "")])), None);
    assert_eq!(page_token(&attrs(&[])), None);
}
