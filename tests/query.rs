use spsharp::query::{
    compile_query, groupby_xml, orderby_xml, query_body_xml, where_xml, CalendarQuery, CalendarRange, FolderQuery,
    FolderShow, QueryParts,
};

fn parts() -> QueryParts {
    QueryParts {
        list_id: "Tasks".to_string(),
        fields: vec!["Title".to_string()],
        orderby: "Title desc, ID".to_string(),
        groupby: None,
        filter: String::new(),
        calendar: None,
        use_index_for_orderby: false,
        query_options: None,
        date_in_utc: false,
        page_token: None,
        expand_user_field: false,
        folder: None,
        paging: false,
        rowlimit: 0,
    }
}

#[test]
fn body_of_a_plain_query() {
    let expected = "<listName>Tasks</listName>\n               <viewName></viewName>\n               <query><Query>\
<OrderBy><FieldRef Name=\"Title\" Ascending=\"false\" /><FieldRef Name=\"ID\" Ascending=\"true\" /></OrderBy>\
</Query></query>\n               <viewFields><ViewFields Properties='True'><FieldRef Name=\"Title\" /></ViewFields></viewFields>\n               \
<rowLimit>0</rowLimit>\n               <queryOptions><QueryOptions><DateInUtc>False</DateInUtc>\
<Paging ListItemCollectionPositionNext=\"\" /><IncludeAttachmentUrls>True</IncludeAttachmentUrls>\
<IncludeMandatoryColumns>False</IncludeMandatoryColumns><ExpandUserField>False</ExpandUserField>\
<ViewAttributes Scope=\"Recursive\"/></QueryOptions></queryOptions>";
    assert_eq!(query_body_xml(&parts()), expected);
}

#[test]
fn compiling_twice_gives_the_same_document() {
    let q = parts();
    let a = compile_query(&q);
    let b = compile_query(&q);
    assert_eq!(a, b);
    assert!(a.starts_with("<soap:Envelope"));
    assert!(a.contains("<GetListItems xmlns=\"http://schemas.microsoft.com/sharepoint/soap/\">"));
    assert!(a.contains(&query_body_xml(&q)));
}

#[test]
fn empty_filter_gives_no_filter_block() {
    assert_eq!(where_xml("", None), "");
    assert_eq!(where_xml("<Eq/>", None), "<Where><Eq/></Where>");
}

#[test]
fn calendar_filter_adds_date_overlap() {
    let overlap = "<DateRangesOverlap><FieldRef Name='EventDate' /><FieldRef Name='EndDate' />\
<FieldRef Name='RecurrenceID' /><Value Type='DateTime'><Week /></Value></DateRangesOverlap>";
    assert_eq!(where_xml("", Some(CalendarRange::Week)), format!("<Where>{}</Where>", overlap));
    assert_eq!(where_xml("<Eq/>", Some(CalendarRange::Week)), format!("<Where><And><Eq/>{}</And></Where>", overlap));
}

#[test]
fn sort_block_variants() {
    assert_eq!(orderby_xml("", false, false), "");
    assert_eq!(
        orderby_xml("", false, true),
        "<OrderBy><FieldRef Name=\"EventDate\" Ascending=\"TRUE\" /></OrderBy>"
    );
    assert_eq!(
        orderby_xml("Created asc", true, false),
        "<OrderBy UseIndexForOrderBy='TRUE' Override='TRUE'><FieldRef Name=\"Created\" Ascending=\"true\" /></OrderBy>"
    );
    assert_eq!(
        orderby_xml("Title asc,Created Desc", false, false),
        "<OrderBy><FieldRef Name=\"Title\" Ascending=\"true\" /><FieldRef Name=\"Created\" Ascending=\"false\" /></OrderBy>"
    );
    assert_eq!(orderby_xml(" , Modified", false, false), "<OrderBy><FieldRef Name=\"Modified\" Ascending=\"true\" /></OrderBy>");
}

#[test]
fn group_block() {
    assert_eq!(groupby_xml(None), "");
    assert_eq!(
        groupby_xml(Some("Status, Owner")),
        "<GroupBy Collapse=\"TRUE\"><FieldRef Name=\"Status\" /><FieldRef Name=\"Owner\" /></GroupBy>"
    );
}

#[test]
fn options_with_folder_calendar_and_paging() {
    let mut q = parts();
    q.fields = Vec::new();
    q.orderby = String::new();
    q.paging = true;
    q.page_token = Some("Paged=TRUE".to_string());
    q.folder = Some(FolderQuery {
        path: "/Sub/Dir/".to_string(),
        show: FolderShow::FilesOnlyInFolder,
        root_folder: "/sites/x/Docs/".to_string(),
    });
    q.calendar = Some(CalendarQuery {
        range: CalendarRange::Month,
        reference_date: "2024-01-01T00:00:00Z".to_string(),
        split_recurrence: false,
    });
    let body = query_body_xml(&q);
    assert!(body.contains("<rowLimit>1</rowLimit>"));
    assert!(body.contains("<Paging ListItemCollectionPositionNext=\"Paged=TRUE\" />"));
    assert!(!body.contains("IncludeMandatoryColumns"));
    assert!(body.contains("<ViewAttributes Scope=\"FilesOnly\"/><Folder>/sites/x/Docs/Sub/Dir</Folder>"));
    assert!(body.contains("<CalendarDate>2024-01-01T00:00:00Z</CalendarDate><RecurrencePatternXMLVersion>v3</RecurrencePatternXMLVersion><ExpandRecurrence>FALSE</ExpandRecurrence>"));
    assert!(body.contains("<OrderBy><FieldRef Name=\"EventDate\" Ascending=\"TRUE\" /></OrderBy>"));
}

#[test]
fn raw_query_options_replace_computed_ones() {
    let mut q = parts();
    q.query_options = Some("<Custom/>".to_string());
    q.rowlimit = 250;
    let body = query_body_xml(&q);
    assert!(body.ends_with("<queryOptions><QueryOptions><Custom/></QueryOptions></queryOptions>"));
    assert!(body.contains("<rowLimit>250</rowLimit>"));
}
