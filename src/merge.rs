use vstd::prelude::*;
use crate::record::Record;
use crate::join::{Row, rows_view, all_wf};

verus! {

/// Where a merged row came from: the list and the site address.
pub struct SourceInfo {
    pub list: String,
    pub url: String,
}

/// Names what the JSON serializer returns for the object
/// `{"list": list, "url": url}`.
pub uninterp spec fn source_json_of(list: Seq<char>, url: Seq<char>) -> Seq<char>;

/// Relies on `serde_json::to_string` on a map with the keys "list" and
/// "url": the JSON text of that object, which depends on the two strings alone.
#[verifier::external_body]
fn source_json(list: &str, url: &str) -> (r: String)
    ensures
        r@ == source_json_of(list@, url@),
{
    let mut m = std::collections::BTreeMap::new();
    m.insert("list", list);
    m.insert("url", url);
    serde_json::to_string(&m).unwrap_or_default()
}

/// The name of the provenance field.
pub open spec fn source_field() -> Seq<char> {
    "Source"@
}

/// The rows with the provenance field set to `tag`.
pub open spec fn tagged(rows: Seq<Row>, tag: Seq<char>) -> Seq<Row> {
    rows.map_values(|r: Row| r.insert(source_field(), Some(tag)))
}

/// The union of the sources' rows in source order, each row tagged with its
/// source's tag; nothing is removed.
pub open spec fn union_tagged(sources: Seq<(Seq<Row>, Seq<char>)>) -> Seq<Row>
    decreases sources.len(),
{
    if sources.len() == 0 {
        Seq::empty()
    } else {
        union_tagged(sources.drop_last()) + tagged(sources.last().0, sources.last().1)
    }
}

/// Sets the provenance field of every row to `tag`, keeping the row order.
pub fn tag_rows(rows: Vec<Record>, tag: &str) -> (r: Vec<Record>)
    requires
        all_wf(rows@),
    ensures
        all_wf(r@),
        rows_view(r@) == tagged(rows_view(rows@), tag@),
{
    let mut out: Vec<Record> = Vec::new();
    let mut rows = rows;
    let ghost orig = rows_view(rows@);
    let n = rows.len();
    let mut i: usize = 0;
    proof { reveal_strlit("Source"); }
    while i < n
        invariant
            n == rows@.len(),
            i <= n,
            all_wf(rows@),
            orig == rows_view(rows@),
            all_wf(out@),
            rows_view(out@) == tagged(orig.subrange(0, i as int), tag@),
        decreases n - i,
    {
        let mut r = rows[i].copy();
        assert(rows@[i as int].wf());
        r.insert(String::from_str("Source"), Some(String::from_str(tag)));
        let ghost before = out@;
        out.push(r);
        proof {
            assert(rows_view(out@) =~= rows_view(before).push(r.view()));
            assert(tagged(orig.subrange(0, i + 1), tag@) =~= tagged(orig.subrange(0, i as int), tag@).push(
                orig[i as int].insert(source_field(), Some(tag@))));
        }
        i = i + 1;
    }
    assert(orig.subrange(0, i as int) =~= orig);
    out
}

pub open spec fn source_rows_view(sources: Seq<(Vec<Record>, String)>) -> Seq<(Seq<Row>, Seq<char>)> {
    sources.map_values(|s: (Vec<Record>, String)| (rows_view(s.0@), s.1@))
}

/// Unions the rows of several sources, each row tagged with its source's tag
/// (see `union_tagged`).
pub fn union_sources(sources: Vec<(Vec<Record>, String)>) -> (r: Vec<Record>)
    requires
        forall|i: int| 0 <= i < sources@.len() ==> all_wf(#[trigger] sources@[i].0@),
    ensures
        all_wf(r@),
        rows_view(r@) == union_tagged(source_rows_view(sources@)),
{
    let ghost orig = sources@;
    let ghost sv = source_rows_view(sources@);
    let mut out: Vec<Record> = Vec::new();
    let mut sources = sources;
    let ghost k: int = 0;
    while sources.len() > 0
        invariant
            0 <= k <= orig.len(),
            sv == source_rows_view(orig),
            forall|i: int| 0 <= i < orig.len() ==> all_wf(#[trigger] orig[i].0@),
            sources@ == orig.subrange(k, orig.len() as int),
            all_wf(out@),
            rows_view(out@) == union_tagged(sv.subrange(0, k)),
        decreases sources@.len(),
    {
        let (rows, tag) = sources.remove(0);
        proof {
            assert(orig[k] == (rows, tag));
            assert(all_wf(orig[k].0@));
        }
        let mut t = tag_rows(rows, tag.as_str());
        let ghost before_o = out@;
        out.append(&mut t);
        proof {
            assert(rows_view(out@) =~= rows_view(before_o) + tagged(sv[k].0, sv[k].1));
            assert(sv.subrange(0, k + 1).drop_last() =~= sv.subrange(0, k));
            k = k + 1;
            assert(sources@ =~= orig.subrange(k, orig.len() as int));
        }
    }
    assert(sv.subrange(0, k) =~= sv);
    out
}

/// Merges the rows of several lists, each row tagged with the JSON text of
/// its source (list and site address), in source order.
pub fn merge_sources(sources: Vec<(Vec<Record>, SourceInfo)>) -> (r: Vec<Record>)
    requires
        forall|i: int| 0 <= i < sources@.len() ==> all_wf(#[trigger] sources@[i].0@),
    ensures
        all_wf(r@),
        rows_view(r@) == union_tagged(sources@.map_values(|s: (Vec<Record>, SourceInfo)|
            (rows_view(s.0@), source_json_of(s.1.list@, s.1.url@)))),
{
    let ghost orig = sources@;
    let ghost target = sources@.map_values(|s: (Vec<Record>, SourceInfo)|
        (rows_view(s.0@), source_json_of(s.1.list@, s.1.url@)));
    let mut tagged_sources: Vec<(Vec<Record>, String)> = Vec::new();
    let mut sources = sources;
    let ghost k: int = 0;
    while sources.len() > 0
        invariant
            0 <= k <= orig.len(),
            target == orig.map_values(|s: (Vec<Record>, SourceInfo)|
                (rows_view(s.0@), source_json_of(s.1.list@, s.1.url@))),
            forall|i: int| 0 <= i < orig.len() ==> all_wf(#[trigger] orig[i].0@),
            sources@ == orig.subrange(k, orig.len() as int),
            tagged_sources@.len() == k,
            forall|i: int| 0 <= i < k ==> all_wf(#[trigger] tagged_sources@[i].0@),
            source_rows_view(tagged_sources@) == target.subrange(0, k),
        decreases sources@.len(),
    {
        let (rows, info) = sources.remove(0);
        let tag = source_json(info.list.as_str(), info.url.as_str());
        proof { assert(orig[k] == (rows, info)); }
        let ghost before = tagged_sources@;
        tagged_sources.push((rows, tag));
        proof {
            assert(source_rows_view(tagged_sources@) =~= target.subrange(0, k + 1));
            k = k + 1;
            assert(sources@ =~= orig.subrange(k, orig.len() as int));
        }
    }
    assert(target.subrange(0, k) =~= target);
    union_sources(tagged_sources)
}

/// The total number of rows of the sources.
pub open spec fn total_rows(sources: Seq<(Seq<Row>, Seq<char>)>) -> nat
    decreases sources.len(),
{
    if sources.len() == 0 {
        0
    } else {
        total_rows(sources.drop_last()) + sources.last().0.len()
    }
}

/// Merging is a pure union: it keeps every row of every source, duplicates
/// included, and the rows of each source come after those of the sources
/// before it, each tagged with its own source.
pub proof fn merge_keeps_every_row(sources: Seq<(Seq<Row>, Seq<char>)>, k: int, i: int)
    requires
        0 <= k < sources.len(),
        0 <= i < sources[k].0.len(),
    ensures
        union_tagged(sources).len() == total_rows(sources),
        union_tagged(sources)[total_rows(sources.subrange(0, k)) + i]
            == sources[k].0[i].insert(source_field(), Some(sources[k].1)),
    decreases sources.len(),
{
    let pre = sources.drop_last();
    lemma_union_len(pre);
    lemma_union_len(sources);
    if k < sources.len() - 1 {
        merge_keeps_every_row(pre, k, i);
        assert(pre.subrange(0, k) =~= sources.subrange(0, k));
        lemma_total_prefix(pre, k);
        assert(pre.subrange(0, k + 1).drop_last() =~= pre.subrange(0, k));
        lemma_total_le(pre, k + 1);
    } else {
        assert(sources.subrange(0, k) =~= pre);
        let t = tagged(sources.last().0, sources.last().1);
        assert(union_tagged(sources) == union_tagged(pre) + t);
        assert(t[i] == sources[k].0[i].insert(source_field(), Some(sources[k].1)));
    }
}

proof fn lemma_total_prefix(s: Seq<(Seq<Row>, Seq<char>)>, k: int)
    requires
        0 <= k < s.len(),
    ensures
        total_rows(s.subrange(0, k + 1)) == total_rows(s.subrange(0, k)) + s[k].0.len(),
{
    assert(s.subrange(0, k + 1).drop_last() =~= s.subrange(0, k));
}

proof fn lemma_total_le(s: Seq<(Seq<Row>, Seq<char>)>, j: int)
    requires
        0 <= j <= s.len(),
    ensures
        total_rows(s.subrange(0, j)) <= total_rows(s),
    decreases s.len(),
{
    if j == s.len() {
        assert(s.subrange(0, j) =~= s);
    } else {
        let pre = s.drop_last();
        lemma_total_le(pre, j);
        assert(pre.subrange(0, j) =~= s.subrange(0, j));
    }
}

proof fn lemma_union_len(sources: Seq<(Seq<Row>, Seq<char>)>)
    ensures
        union_tagged(sources).len() == total_rows(sources),
    decreases sources.len(),
{
    if sources.len() > 0 {
        lemma_union_len(sources.drop_last());
    }
}

} // verus!
