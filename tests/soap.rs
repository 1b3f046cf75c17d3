use spsharp::soap::build_body_for_soap;

#[test]
fn test_build_body_for_soap() {
    let method_name = "GetListItems";
    let body_content = "<listName>MyList</listName>";
    let xmlns = "http://schemas.microsoft.com/sharepoint/soap/";

    let expected = r#"<soap:Envelope xmlns:xsi="http://www.w3.org/2001/XMLSchema-instance" xmlns:xsd="http://www.w3.org/2001/XMLSchema" xmlns:soap="http://schemas.xmlsoap.org/soap/envelope/">
            <soap:Body>
                <GetListItems xmlns="http://schemas.microsoft.com/sharepoint/soap/">
                    <listName>MyList</listName>
                </GetListItems>
            </soap:Body>
        </soap:Envelope>"#;

    let result = build_body_for_soap(method_name, body_content, Some(xmlns));
    assert_eq!(result, expected);
}

#[test]
fn envelope_defaults_namespace() {
    let with_default = build_body_for_soap("GetList", "<x/>", None);
    let explicit = build_body_for_soap("GetList", "<x/>", Some("http://schemas.microsoft.com/sharepoint/soap/"));
    assert_eq!(with_default, explicit);
}

#[test]
fn envelope_normalises_webpartpages_namespace() {
    let r = build_body_for_soap("GetWebPart", "", Some("http://microsoft.com/sharepoint/webpartpages/"));
    assert!(r.contains("<GetWebPart xmlns=\"http://microsoft.com/sharepoint/webpartpages\">"));
    assert!(!r.contains("webpartpages/"));
}
