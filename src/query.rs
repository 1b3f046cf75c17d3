use vstd::prelude::*;
use crate::soap::{build_body_for_soap, envelope, default_namespace, lemma_no_webpartpages};
use crate::text::{append_chars, chars_of, decimal, decimal_exec, skip_ws, split_exec, split_on, str_eq, string_of, strip_bounds, strip_end, strip_start, sub_vec, trim, trim_bounds, trim_start, ws_exec, ws_from};

verus! {

/// How much of a folder tree a query covers.
#[derive(PartialEq, Eq, Structural, Clone, Copy, Debug)]
pub enum FolderShow {
    FilesOnlyRecursive,
    FilesAndFoldersRecursive,
    FilesOnlyInFolder,
    FilesAndFoldersInFolder,
}

/// The span of a calendar query around its reference date.
#[derive(PartialEq, Eq, Structural, Clone, Copy, Debug)]
pub enum CalendarRange {
    Month,
    Week,
    Day,
}

/// Folder scope of a query. `root_folder` is the list's root folder path,
/// looked up from the list's metadata when not given.
pub struct FolderOptions {
    pub path: String,
    pub show: FolderShow,
    pub root_folder: Option<String>,
}

/// The folder part of a compiled query, with the root folder resolved.
pub struct FolderQuery {
    pub path: String,
    pub show: FolderShow,
    pub root_folder: String,
}

/// The calendar part of a compiled query.
pub struct CalendarQuery {
    pub range: CalendarRange,
    /// The reference date, already in the service's date format.
    pub reference_date: String,
    pub split_recurrence: bool,
}

/// One round's normalized request: everything the query document is built from.
pub struct QueryParts {
    pub list_id: String,
    /// Requested fields, without duplicates.
    pub fields: Vec<String>,
    /// Sort spec: "Field [ASC|DESC]" items separated by commas; "" for none.
    pub orderby: String,
    /// Grouping fields separated by commas.
    pub groupby: Option<String>,
    /// The round's filter, already in the service's query dialect; "" for none.
    pub filter: String,
    pub calendar: Option<CalendarQuery>,
    pub use_index_for_orderby: bool,
    /// A raw query-options block that replaces the computed one.
    pub query_options: Option<String>,
    pub date_in_utc: bool,
    pub page_token: Option<String>,
    pub expand_user_field: bool,
    pub folder: Option<FolderQuery>,
    pub paging: bool,
    pub rowlimit: usize,
}

/// Names what `str::to_uppercase` returns.
pub uninterp spec fn upper_of(s: Seq<char>) -> Seq<char>;

/// Relies on `str::to_uppercase`: the upper-case form of the characters,
/// which depends on them alone.
#[verifier::external_body]
fn uppercase(s: &str) -> (r: String)
    ensures
        r@ == upper_of(s@),
{
    s.to_uppercase()
}

pub open spec fn field_ref(f: Seq<char>) -> Seq<char> {
    "<FieldRef Name=\""@ + f + "\" />"@
}

/// One field reference per name, in order.
pub open spec fn field_refs(fs: Seq<Seq<char>>) -> Seq<char>
    decreases fs.len(),
{
    if fs.len() == 0 {
        Seq::empty()
    } else {
        field_refs(fs.drop_last()) + field_ref(fs.last())
    }
}

/// The sort reference of one sort item "Field [direction]": ascending unless
/// the direction, in upper case, is other than "ASC"; nothing for an item
/// without a field.
pub open spec fn sort_ref(part: Seq<char>) -> Seq<char> {
    let t = trim(part);
    let e = ws_from(t, 0);
    let field = t.subrange(0, e);
    let rest = trim_start(t.subrange(e, t.len() as int));
    let word = rest.subrange(0, ws_from(rest, 0));
    let dir = if word.len() == 0 { "ASC"@ } else { upper_of(word) };
    if field.len() == 0 {
        Seq::empty()
    } else {
        "<FieldRef Name=\""@ + field + "\" Ascending=\""@ + (if dir == "ASC"@ { "true"@ } else { "false"@ }) + "\" />"@
    }
}

pub open spec fn sort_refs(parts: Seq<Seq<char>>) -> Seq<char>
    decreases parts.len(),
{
    if parts.len() == 0 {
        Seq::empty()
    } else {
        sort_refs(parts.drop_last()) + sort_ref(parts.last())
    }
}

/// The sort block: the user's sort items, else the start-date sort of a
/// calendar query, else nothing.
pub open spec fn orderby_block(orderby: Seq<char>, use_index: bool, calendar: bool) -> Seq<char> {
    if orderby.len() > 0 {
        "<OrderBy"@ + (if use_index { " UseIndexForOrderBy='TRUE' Override='TRUE'"@ } else { Seq::empty() }) + ">"@
            + sort_refs(split_on(orderby, ","@)) + "</OrderBy>"@
    } else if calendar {
        "<OrderBy><FieldRef Name=\"EventDate\" Ascending=\"TRUE\" /></OrderBy>"@
    } else {
        Seq::empty()
    }
}

/// The group block: one reference per comma-separated, trimmed field.
pub open spec fn groupby_block(groupby: Option<Seq<char>>) -> Seq<char> {
    match groupby {
        Some(g) => "<GroupBy Collapse=\"TRUE\">"@
            + field_refs(split_on(g, ","@).map_values(|p: Seq<char>| trim(p))) + "</GroupBy>"@,
        None => Seq::empty(),
    }
}

pub open spec fn range_tag(r: CalendarRange) -> Seq<char> {
    match r {
        CalendarRange::Month => "Month"@,
        CalendarRange::Week => "Week"@,
        CalendarRange::Day => "Day"@,
    }
}

/// The date-overlap clause of a calendar query.
pub open spec fn overlap_clause(r: CalendarRange) -> Seq<char> {
    "<DateRangesOverlap><FieldRef Name='EventDate' /><FieldRef Name='EndDate' /><FieldRef Name='RecurrenceID' /><Value Type='DateTime'><"@
        + range_tag(r) + " /></Value></DateRangesOverlap>"@
}

/// The filter block: the filter, AND-ed with the date-overlap clause for a
/// calendar query; no block at all when both are empty.
pub open spec fn where_block(filter: Seq<char>, calendar: Option<CalendarRange>) -> Seq<char> {
    let inner = match calendar {
        Some(r) => if filter.len() > 0 { "<And>"@ + filter + overlap_clause(r) + "</And>"@ } else { overlap_clause(r) },
        None => filter,
    };
    if inner.len() > 0 { "<Where>"@ + inner + "</Where>"@ } else { Seq::empty() }
}

pub open spec fn scope_of(s: FolderShow) -> Seq<char> {
    match s {
        FolderShow::FilesAndFoldersRecursive => "RecursiveAll"@,
        FolderShow::FilesOnlyInFolder => "FilesOnly"@,
        FolderShow::FilesAndFoldersInFolder => Seq::empty(),
        FolderShow::FilesOnlyRecursive => "Recursive"@,
    }
}

/// The folder options: the view scope, and the folder under the root when a
/// path is given.
pub open spec fn folder_block(f: Option<(FolderShow, Seq<char>, Seq<char>)>) -> Seq<char> {
    match f {
        Some((show, root, path)) =>
            (if scope_of(show).len() > 0 { "<ViewAttributes Scope=\""@ + scope_of(show) + "\"/>"@ } else { Seq::empty() })
            + (if path.len() > 0 {
                "<Folder>"@ + strip_end(root, '/') + "/"@ + strip_end(strip_start(path, '/'), '/') + "</Folder>"@
            } else {
                Seq::empty()
            }),
        None => "<ViewAttributes Scope=\"Recursive\"/>"@,
    }
}

pub open spec fn calendar_options_block(c: Option<(Seq<char>, bool)>) -> Seq<char> {
    match c {
        Some((date, split)) => "<CalendarDate>"@ + date + "</CalendarDate><RecurrencePatternXMLVersion>v3</RecurrencePatternXMLVersion><ExpandRecurrence>"@
            + (if split { "TRUE"@ } else { "FALSE"@ }) + "</ExpandRecurrence>"@,
        None => Seq::empty(),
    }
}

pub open spec fn true_false(b: bool) -> Seq<char> {
    if b { "True"@ } else { "False"@ }
}

pub open spec fn folder_view(f: Option<FolderQuery>) -> Option<(FolderShow, Seq<char>, Seq<char>)> {
    match f {
        Some(f) => Some((f.show, f.root_folder@, f.path@)),
        None => None,
    }
}

pub open spec fn calendar_range(c: Option<CalendarQuery>) -> Option<CalendarRange> {
    match c {
        Some(c) => Some(c.range),
        None => None,
    }
}

pub open spec fn calendar_view(c: Option<CalendarQuery>) -> Option<(Seq<char>, bool)> {
    match c {
        Some(c) => Some((c.reference_date@, c.split_recurrence)),
        None => None,
    }
}

/// The query-options block: the raw override when given, else the computed options.
pub open spec fn options_block(q: QueryParts) -> Seq<char> {
    match q.query_options {
        Some(o) => o@,
        None => "<DateInUtc>"@ + true_false(q.date_in_utc) + "</DateInUtc>"@
            + "<Paging ListItemCollectionPositionNext=\""@
            + (match q.page_token { Some(t) => t@, None => Seq::empty() }) + "\" />"@
            + "<IncludeAttachmentUrls>True</IncludeAttachmentUrls>"@
            + (if q.fields@.len() > 0 { "<IncludeMandatoryColumns>False</IncludeMandatoryColumns>"@ } else { Seq::empty() })
            + "<ExpandUserField>"@ + true_false(q.expand_user_field) + "</ExpandUserField>"@
            + folder_block(folder_view(q.folder))
            + calendar_options_block(calendar_view(q.calendar)),
    }
}

/// The row limit sent: at least 1 when paging.
pub open spec fn row_limit(q: QueryParts) -> nat {
    if q.paging && q.rowlimit == 0 { 1 } else { q.rowlimit as nat }
}

/// The body of a list-items query for one round.
pub open spec fn query_body(q: QueryParts) -> Seq<char> {
    "<listName>"@ + q.list_id@ + "</listName>\n               <viewName></viewName>\n               <query><Query>"@
        + where_block(q.filter@, calendar_range(q.calendar))
        + groupby_block(match q.groupby { Some(g) => Some(g@), None => None })
        + orderby_block(q.orderby@, q.use_index_for_orderby, q.calendar.is_some())
        + "</Query></query>\n               <viewFields><ViewFields Properties='True'>"@
        + field_refs(q.fields@.map_values(|f: String| f@))
        + "</ViewFields></viewFields>\n               <rowLimit>"@ + decimal(row_limit(q))
        + "</rowLimit>\n               <queryOptions><QueryOptions>"@ + options_block(q)
        + "</QueryOptions></queryOptions>"@
}

fn append_field_ref(out: &mut String, f: &str)
    ensures
        final(out)@ == old(out)@ + field_ref(f@),
{
    out.append("<FieldRef Name=\"");
    out.append(f);
    out.append("\" />");
    proof { reveal_strlit("<FieldRef Name=\""); reveal_strlit("\" />"); }
    assert(final(out)@ =~= old(out)@ + field_ref(f@));
}

/// The field references of the requested fields.
pub fn fields_xml(fields: &Vec<String>) -> (r: String)
    ensures
        r@ == field_refs(fields@.map_values(|f: String| f@)),
{
    let ghost fs = fields@.map_values(|f: String| f@);
    let mut r = String::new();
    let mut i: usize = 0;
    while i < fields.len()
        invariant
            i <= fields@.len(),
            fs == fields@.map_values(|f: String| f@),
            r@ == field_refs(fs.subrange(0, i as int)),
        decreases fields@.len() - i,
    {
        append_field_ref(&mut r, fields[i].as_str());
        assert(fs.subrange(0, i + 1).drop_last() =~= fs.subrange(0, i as int));
        i = i + 1;
    }
    assert(fs.subrange(0, i as int) =~= fs);
    r
}

fn sort_ref_exec(part: &Vec<char>) -> (r: String)
    ensures
        r@ == sort_ref(part@),
{
    let (a, b) = trim_bounds(part, 0, part.len());
    assert(part@.subrange(0, part@.len() as int) =~= part@);
    let t = sub_vec(part, a, b);
    let e = ws_exec(&t, 0);
    if e == 0 {
        assert(t@.subrange(0, 0).len() == 0);
        return String::new();
    }
    let c = skip_ws(&t, e);
    let rest = sub_vec(&t, c, t.len());
    let w = ws_exec(&rest, 0);
    let field = string_of(&t, 0, e);
    let word = string_of(&rest, 0, w);
    let ascending = if w == 0 {
        true
    } else {
        let up = uppercase(word.as_str());
        str_eq(up.as_str(), "ASC")
    };
    proof { reveal_strlit("ASC"); }
    let mut r = String::from_str("<FieldRef Name=\"");
    r.append(field.as_str());
    r.append("\" Ascending=\"");
    if ascending {
        r.append("true");
    } else {
        r.append("false");
    }
    r.append("\" />");
    proof {
        reveal_strlit("<FieldRef Name=\"");
        reveal_strlit("\" Ascending=\"");
        reveal_strlit("true");
        reveal_strlit("false");
        reveal_strlit("\" />");
    }
    r
}

/// The sort block (see `orderby_block`).
pub fn orderby_xml(orderby: &str, use_index: bool, calendar: bool) -> (r: String)
    ensures
        r@ == orderby_block(orderby@, use_index, calendar),
{
    proof {
        reveal_strlit("<OrderBy");
        reveal_strlit(" UseIndexForOrderBy='TRUE' Override='TRUE'");
        reveal_strlit(">");
        reveal_strlit("</OrderBy>");
        reveal_strlit(",");
    }
    if orderby.unicode_len() > 0 {
        let v = chars_of(orderby);
        let comma = chars_of(",");
        let parts = split_exec(&v, &comma);
        let ghost ps = parts@.map_values(|p: Vec<char>| p@);
        let mut refs = String::new();
        let mut i: usize = 0;
        while i < parts.len()
            invariant
                i <= parts@.len(),
                ps == parts@.map_values(|p: Vec<char>| p@),
                refs@ == sort_refs(ps.subrange(0, i as int)),
            decreases parts@.len() - i,
        {
            let one = sort_ref_exec(&parts[i]);
            refs.append(one.as_str());
            assert(ps.subrange(0, i + 1).drop_last() =~= ps.subrange(0, i as int));
            i = i + 1;
        }
        assert(ps.subrange(0, i as int) =~= ps);
        let mut r = String::from_str("<OrderBy");
        if use_index {
            r.append(" UseIndexForOrderBy='TRUE' Override='TRUE'");
        } else {
            assert(r@ + Seq::<char>::empty() =~= r@);
        }
        r.append(">");
        r.append(refs.as_str());
        r.append("</OrderBy>");
        r
    } else if calendar {
        String::from_str("<OrderBy><FieldRef Name=\"EventDate\" Ascending=\"TRUE\" /></OrderBy>")
    } else {
        String::new()
    }
}

/// The group block (see `groupby_block`).
pub fn groupby_xml(groupby: Option<&str>) -> (r: String)
    ensures
        r@ == groupby_block(match groupby { Some(g) => Some(g@), None => None }),
{
    match groupby {
        Some(g) => {
            proof {
                reveal_strlit("<GroupBy Collapse=\"TRUE\">");
                reveal_strlit("</GroupBy>");
                reveal_strlit(",");
            }
            let v = chars_of(g);
            let comma = chars_of(",");
            let parts = split_exec(&v, &comma);
            let ghost ps = parts@.map_values(|p: Vec<char>| p@).map_values(|p: Seq<char>| trim(p));
            let mut refs = String::new();
            let mut i: usize = 0;
            while i < parts.len()
                invariant
                    i <= parts@.len(),
                    ps == parts@.map_values(|p: Vec<char>| p@).map_values(|p: Seq<char>| trim(p)),
                    refs@ == field_refs(ps.subrange(0, i as int)),
                decreases parts@.len() - i,
            {
                let (a, b) = trim_bounds(&parts[i], 0, parts[i].len());
                assert(parts@[i as int]@.subrange(0, parts@[i as int]@.len() as int) =~= parts@[i as int]@);
                let f = string_of(&parts[i], a, b);
                append_field_ref(&mut refs, f.as_str());
                assert(ps.subrange(0, i + 1).drop_last() =~= ps.subrange(0, i as int));
                i = i + 1;
            }
            assert(ps.subrange(0, i as int) =~= ps);
            let mut r = String::from_str("<GroupBy Collapse=\"TRUE\">");
            r.append(refs.as_str());
            r.append("</GroupBy>");
            r
        },
        None => String::new(),
    }
}

fn range_tag_exec(r: CalendarRange) -> (t: &'static str)
    ensures
        t@ == range_tag(r),
{
    proof { reveal_strlit("Month"); reveal_strlit("Week"); reveal_strlit("Day"); }
    match r {
        CalendarRange::Month => "Month",
        CalendarRange::Week => "Week",
        CalendarRange::Day => "Day",
    }
}

/// The filter block (see `where_block`).
pub fn where_xml(filter: &str, calendar: Option<CalendarRange>) -> (r: String)
    ensures
        r@ == where_block(filter@, calendar),
{
    proof {
        reveal_strlit("<DateRangesOverlap><FieldRef Name='EventDate' /><FieldRef Name='EndDate' /><FieldRef Name='RecurrenceID' /><Value Type='DateTime'><");
        reveal_strlit(" /></Value></DateRangesOverlap>");
        reveal_strlit("<And>");
        reveal_strlit("</And>");
        reveal_strlit("<Where>");
        reveal_strlit("</Where>");
    }
    let inner = match calendar {
        Some(range) => {
            let mut o = String::from_str("<DateRangesOverlap><FieldRef Name='EventDate' /><FieldRef Name='EndDate' /><FieldRef Name='RecurrenceID' /><Value Type='DateTime'><");
            o.append(range_tag_exec(range));
            o.append(" /></Value></DateRangesOverlap>");
            if filter.unicode_len() > 0 {
                let mut w = String::from_str("<And>");
                w.append(filter);
                w.append(o.as_str());
                w.append("</And>");
                w
            } else {
                o
            }
        },
        None => String::from_str(filter),
    };
    if inner.unicode_len() > 0 {
        let mut r = String::from_str("<Where>");
        r.append(inner.as_str());
        r.append("</Where>");
        r
    } else {
        String::new()
    }
}

fn scope_exec(s: FolderShow) -> (t: &'static str)
    ensures
        t@ == scope_of(s),
{
    proof { reveal_strlit("RecursiveAll"); reveal_strlit("FilesOnly"); reveal_strlit(""); reveal_strlit("Recursive"); }
    match s {
        FolderShow::FilesAndFoldersRecursive => "RecursiveAll",
        FolderShow::FilesOnlyInFolder => "FilesOnly",
        FolderShow::FilesAndFoldersInFolder => "",
        FolderShow::FilesOnlyRecursive => "Recursive",
    }
}

fn true_false_exec(b: bool) -> (t: &'static str)
    ensures
        t@ == true_false(b),
{
    proof { reveal_strlit("True"); reveal_strlit("False"); }
    if b { "True" } else { "False" }
}

fn folder_xml(f: &Option<FolderQuery>) -> (r: String)
    ensures
        r@ == folder_block(folder_view(*f)),
{
    proof {
        reveal_strlit("<ViewAttributes Scope=\"");
        reveal_strlit("\"/>");
        reveal_strlit("<Folder>");
        reveal_strlit("/");
        reveal_strlit("</Folder>");
        reveal_strlit("<ViewAttributes Scope=\"Recursive\"/>");
    }
    match f {
        Some(f) => {
            let scope = scope_exec(f.show);
            let mut r = String::new();
            if scope.unicode_len() > 0 {
                r.append("<ViewAttributes Scope=\"");
                r.append(scope);
                r.append("\"/>");
            }
            let ghost r0 = r@;
            if f.path.unicode_len() > 0 {
                let root = chars_of(f.root_folder.as_str());
                let (_ra, rb) = strip_bounds(&root, 0, root.len(), '/', false);
                assert(root@.subrange(0, root@.len() as int) =~= root@);
                let path = chars_of(f.path.as_str());
                let (pa, pb) = strip_bounds(&path, 0, path.len(), '/', true);
                assert(path@.subrange(0, path@.len() as int) =~= path@);
                r.append("<Folder>");
                append_chars(&mut r, &root, 0, rb);
                r.append("/");
                append_chars(&mut r, &path, pa, pb);
                r.append("</Folder>");
                assert(r@ =~= r0 + ("<Folder>"@ + strip_end(f.root_folder@, '/') + "/"@
                    + strip_end(strip_start(f.path@, '/'), '/') + "</Folder>"@));
            } else {
                assert(r@ =~= r0 + Seq::<char>::empty());
            }
            r
        },
        None => String::from_str("<ViewAttributes Scope=\"Recursive\"/>"),
    }
}

fn calendar_options_xml(c: &Option<CalendarQuery>) -> (r: String)
    ensures
        r@ == calendar_options_block(calendar_view(*c)),
{
    proof {
        reveal_strlit("<CalendarDate>");
        reveal_strlit("</CalendarDate><RecurrencePatternXMLVersion>v3</RecurrencePatternXMLVersion><ExpandRecurrence>");
        reveal_strlit("TRUE");
        reveal_strlit("FALSE");
        reveal_strlit("</ExpandRecurrence>");
    }
    match c {
        Some(c) => {
            let mut r = String::from_str("<CalendarDate>");
            r.append(c.reference_date.as_str());
            r.append("</CalendarDate><RecurrencePatternXMLVersion>v3</RecurrencePatternXMLVersion><ExpandRecurrence>");
            if c.split_recurrence {
                r.append("TRUE");
            } else {
                r.append("FALSE");
            }
            r.append("</ExpandRecurrence>");
            r
        },
        None => String::new(),
    }
}

/// The query-options block (see `options_block`).
pub fn options_xml(q: &QueryParts) -> (r: String)
    ensures
        r@ == options_block(*q),
{
    match &q.query_options {
        Some(o) => o.clone(),
        None => {
            proof {
                reveal_strlit("<DateInUtc>");
                reveal_strlit("</DateInUtc>");
                reveal_strlit("<Paging ListItemCollectionPositionNext=\"");
                reveal_strlit("\" />");
                reveal_strlit("<IncludeAttachmentUrls>True</IncludeAttachmentUrls>");
                reveal_strlit("<IncludeMandatoryColumns>False</IncludeMandatoryColumns>");
                reveal_strlit("<ExpandUserField>");
                reveal_strlit("</ExpandUserField>");
            }
            let mut r = String::from_str("<DateInUtc>");
            r.append(true_false_exec(q.date_in_utc));
            r.append("</DateInUtc>");
            r.append("<Paging ListItemCollectionPositionNext=\"");
            match &q.page_token {
                Some(t) => r.append(t.as_str()),
                None => {},
            }
            let ghost r1 = r@;
            r.append("\" />");
            r.append("<IncludeAttachmentUrls>True</IncludeAttachmentUrls>");
            if q.fields.len() > 0 {
                r.append("<IncludeMandatoryColumns>False</IncludeMandatoryColumns>");
            }
            let ghost r2 = r@;
            r.append("<ExpandUserField>");
            r.append(true_false_exec(q.expand_user_field));
            r.append("</ExpandUserField>");
            let f = folder_xml(&q.folder);
            r.append(f.as_str());
            let c = calendar_options_xml(&q.calendar);
            r.append(c.as_str());
            assert(r@ =~= options_block(*q));
            r
        },
    }
}

/// The body of the list-items query for one round (see `query_body`).
pub fn query_body_xml(q: &QueryParts) -> (r: String)
    ensures
        r@ == query_body(*q),
{
    proof {
        reveal_strlit("<listName>");
        reveal_strlit("</listName>\n               <viewName></viewName>\n               <query><Query>");
        reveal_strlit("</Query></query>\n               <viewFields><ViewFields Properties='True'>");
        reveal_strlit("</ViewFields></viewFields>\n               <rowLimit>");
        reveal_strlit("</rowLimit>\n               <queryOptions><QueryOptions>");
        reveal_strlit("</QueryOptions></queryOptions>");
    }
    let range = match &q.calendar {
        Some(c) => Some(c.range),
        None => None,
    };
    let w = where_xml(q.filter.as_str(), range);
    let g = match &q.groupby {
        Some(g) => groupby_xml(Some(g.as_str())),
        None => groupby_xml(None),
    };
    let o = orderby_xml(q.orderby.as_str(), q.use_index_for_orderby, q.calendar.is_some());
    let f = fields_xml(&q.fields);
    let limit: usize = if q.paging && q.rowlimit == 0 { 1 } else { q.rowlimit };
    let l = decimal_exec(limit);
    let opts = options_xml(q);
    let mut r = String::from_str("<listName>");
    r.append(q.list_id.as_str());
    r.append("</listName>\n               <viewName></viewName>\n               <query><Query>");
    r.append(w.as_str());
    r.append(g.as_str());
    r.append(o.as_str());
    r.append("</Query></query>\n               <viewFields><ViewFields Properties='True'>");
    r.append(f.as_str());
    r.append("</ViewFields></viewFields>\n               <rowLimit>");
    r.append(l.as_str());
    r.append("</rowLimit>\n               <queryOptions><QueryOptions>");
    r.append(opts.as_str());
    r.append("</QueryOptions></queryOptions>");
    assert(r@ =~= query_body(*q));
    r
}

/// The full request document of one round: the query body in the envelope
/// of the "GetListItems" call.
pub open spec fn query_document(q: QueryParts) -> Seq<char> {
    envelope("GetListItems"@, default_namespace(), query_body(q))
}

/// Compiles one round's request document.
pub fn compile_query(q: &QueryParts) -> (r: String)
    ensures
        r@ == query_document(*q),
{
    let body = query_body_xml(q);
    let r = build_body_for_soap("GetListItems", body.as_str(), None);
    proof {
        reveal_strlit("http://schemas.microsoft.com/sharepoint/soap/");
        reveal_strlit("webpartpages/");
        reveal_strlit("webpartpages");
        lemma_no_webpartpages();
    }
    r
}

/// Compiling is a function of the request alone: the same normalized request
/// always gives the same document, character for character.
pub proof fn compile_is_deterministic(a: QueryParts, b: QueryParts)
    requires
        a == b,
    ensures
        query_document(a) == query_document(b),
{
}

} // verus!
