use spsharp::clean::clean_result;

#[test]
fn test_id_value() {
    assert_eq!(clean_result(Some("15;#Paul"), None), "Paul");
}

#[test]
fn test_string_prefix() {
    assert_eq!(clean_result(Some("string;#Paul"), None), "Paul");
}

#[test]
fn test_string_prefix_empty() {
    assert_eq!(clean_result(Some("string;#"), None), "");
}

#[test]
fn test_list_default_sep() {
    assert_eq!(clean_result(Some(";#Paul;#Jacques;#Aymeric;#"), None), "Paul;Jacques;Aymeric");
}

#[test]
fn test_list_custom_sep() {
    assert_eq!(clean_result(Some(";#Paul;#Jacques;#Aymeric;#"), Some(", ")), "Paul, Jacques, Aymeric");
}

#[test]
fn test_date_time() {
    assert_eq!(clean_result(Some("2022-01-19 00:00:00"), None), "2022-01-19");
}

#[test]
fn test_null_input() {
    assert_eq!(clean_result(None, None), "");
}

#[test]
fn test_empty_string_input() {
    assert_eq!(clean_result(Some(""), None), "");
}

#[test]
fn test_float_prefix() {
    assert_eq!(clean_result(Some("float;#123.45"), None), "123.45");
}

#[test]
fn test_datetime_prefix_and_clean() {
    assert_eq!(clean_result(Some("datetime;#2023-10-27 00:00:00"), None), "2023-10-27");
}

#[test]
fn test_list_with_ids_default_sep() {
    assert_eq!(clean_result(Some("1;#Value1;#2;#Value2;#"), None), "Value1;Value2");
}

#[test]
fn test_list_with_ids_custom_sep() {
    assert_eq!(clean_result(Some("1;#Value1;#2;#Value2;#"), Some(" | ")), "Value1 | Value2");
}

#[test]
fn test_list_with_negative_id() {
    assert_eq!(clean_result(Some("-1;#NegativeValue;#"), None), "NegativeValue");
}

#[test]
fn test_no_cleaning_needed() {
    assert_eq!(clean_result(Some("Just a regular string"), None), "Just a regular string");
}

#[test]
fn test_only_separators_custom_sep() {
    assert_eq!(clean_result(Some(";#;#;#"), Some(",")), ",");
}

#[test]
fn only_separators_keep_the_middle_one() {
    assert_eq!(clean_result(Some(";#;#;#"), None), ";");
}

#[test]
fn test_tricky_separators() {
    assert_eq!(clean_result(Some(";#Value1;#;#Value2;#"), None), "Value1;;Value2");
}

#[test]
fn test_tricky_separators_custom() {
    assert_eq!(clean_result(Some(";#Value1;#;#Value2;#"), Some("|")), "Value1||Value2");
}

#[test]
fn test_id_only() {
    assert_eq!(clean_result(Some("15;#"), None), "");
}

#[test]
fn time_other_than_midnight_is_kept() {
    assert_eq!(clean_result(Some("2022-01-19 10:30:00"), None), "2022-01-19 10:30:00");
}
