use vstd::prelude::*;
use crate::record::{Record, opt_view};
use crate::join::{Row, all_wf, rows_view, strings_view};
use crate::options::{WhereClause, dedup, merge_fields};
use crate::text::{concat2, concat3};

verus! {

/// The ON clause of a join: the one given, else the one a lookup field
/// implies (the child's lookup field equals the parent's ID).
pub open spec fn on_clause(on: Option<Seq<char>>, on_lookup: Option<Seq<char>>, child_alias: Seq<char>, parent_alias: Seq<char>)
    -> Option<Seq<char>>
{
    match on {
        Some(o) => Some(o),
        None => match on_lookup {
            Some(l) => Some("'"@ + child_alias + "'."@ + l + " = '"@ + parent_alias + "'.ID"@),
            None => None,
        },
    }
}

pub open spec fn opt_str(o: Option<&str>) -> Option<Seq<char>> {
    match o {
        Some(s) => Some(s@),
        None => None,
    }
}

/// Chooses or builds the ON clause of a join (see `on_clause`).
pub fn on_clause_for(on: Option<&str>, on_lookup: Option<&str>, child_alias: &str, parent_alias: &str) -> (r: Option<String>)
    ensures
        opt_view(r) == on_clause(opt_str(on), opt_str(on_lookup), child_alias@, parent_alias@),
{
    match on {
        Some(o) => Some(String::from_str(o)),
        None => match on_lookup {
            Some(l) => {
                proof { reveal_strlit("'"); reveal_strlit("'."); reveal_strlit(" = '"); reveal_strlit("'.ID"); }
                let mut r = concat3("'", child_alias, "'.");
                r.append(l);
                r.append(" = '");
                r.append(parent_alias);
                r.append("'.ID");
                Some(r)
            },
            None => None,
        },
    }
}

/// The pieces with `sep` between them.
pub open spec fn join_seq(parts: Seq<Seq<char>>, sep: Seq<char>) -> Seq<char>
    decreases parts.len(),
{
    if parts.len() == 0 {
        Seq::empty()
    } else if parts.len() == 1 {
        parts[0]
    } else {
        join_seq(parts.drop_last(), sep) + sep + parts.last()
    }
}

fn join_exec(parts: &Vec<String>, sep: &str) -> (r: String)
    ensures
        r@ == join_seq(strings_view(parts@), sep@),
{
    let ghost ps = strings_view(parts@);
    let mut r = String::new();
    let mut i: usize = 0;
    while i < parts.len()
        invariant
            i <= parts@.len(),
            ps == strings_view(parts@),
            r@ == join_seq(ps.subrange(0, i as int), sep@),
        decreases parts@.len() - i,
    {
        if i > 0 {
            r.append(sep);
        }
        r.append(parts[i].as_str());
        proof {
            let sub = ps.subrange(0, i + 1);
            assert(sub.drop_last() =~= ps.subrange(0, i as int));
            assert(sub.last() == ps[i as int]);
            if i == 0 {
                assert(r@ =~= sub[0]);
            }
        }
        i = i + 1;
    }
    assert(ps.subrange(0, i as int) =~= ps);
    r
}

/// The values from `from` to `to`, each in double quotes.
fn quoted(vals: &Vec<String>, from: usize, to: usize) -> (r: Vec<String>)
    requires
        from <= to <= vals@.len(),
    ensures
        strings_view(r@) == strings_view(vals@).subrange(from as int, to as int).map_values(|v: Seq<char>| "\""@ + v + "\""@),
{
    let ghost target = strings_view(vals@).subrange(from as int, to as int).map_values(|v: Seq<char>| "\""@ + v + "\""@);
    proof { reveal_strlit("\""); }
    let mut r: Vec<String> = Vec::new();
    let mut i: usize = from;
    while i < to
        invariant
            from <= i <= to <= vals@.len(),
            target == strings_view(vals@).subrange(from as int, to as int).map_values(|v: Seq<char>| "\""@ + v + "\""@),
            strings_view(r@) == target.subrange(0, (i - from) as int),
        decreases to - i,
    {
        let q = concat3("\"", vals[i].as_str(), "\"");
        let ghost before = r@;
        r.push(q);
        assert(strings_view(r@) =~= strings_view(before).push(q@));
        assert(target.subrange(0, (i + 1 - from) as int) =~= target.subrange(0, (i - from) as int).push(target[(i - from) as int]));
        i = i + 1;
    }
    assert(target.subrange(0, (to - from) as int) =~= target);
    r
}

/// Most values in one IN list.
pub const MAX_IN_VALUES: usize = 500;

/// Most IN lists in one filter; beyond that the filter is not used.
pub const MAX_IN_LISTS: usize = 10;

/// One IN list over `vals`.
pub open spec fn in_part(field: Seq<char>, vals: Seq<Seq<char>>) -> Seq<char> {
    field + " IN ["@ + join_seq(vals.map_values(|v: Seq<char>| "\""@ + v + "\""@), ","@) + "]"@
}

/// The IN lists over `vals`, in chunks of at most `MAX_IN_VALUES` values.
pub open spec fn in_parts(field: Seq<char>, vals: Seq<Seq<char>>) -> Seq<Seq<char>>
    decreases vals.len(),
{
    if vals.len() <= MAX_IN_VALUES {
        if vals.len() == 0 { Seq::empty() } else { seq![in_part(field, vals)] }
    } else {
        seq![in_part(field, vals.subrange(0, MAX_IN_VALUES as int))]
            + in_parts(field, vals.subrange(MAX_IN_VALUES as int, vals.len() as int))
    }
}

/// The filter that restricts the lookup field to the values: the IN lists
/// joined by OR, in parentheses; none when that takes `MAX_IN_LISTS` lists
/// or more.
pub open spec fn lookup_filter(field: Seq<char>, vals: Seq<Seq<char>>) -> Option<Seq<char>> {
    let parts = in_parts(field, vals);
    if parts.len() < MAX_IN_LISTS {
        Some("("@ + join_seq(parts, " OR "@) + ")"@)
    } else {
        None
    }
}

/// Builds the lookup filter (see `lookup_filter`).
pub fn lookup_filter_for(field: &str, vals: &Vec<String>) -> (r: Option<String>)
    ensures
        opt_view(r) == lookup_filter(field@, strings_view(vals@)),
{
    proof { reveal_strlit(" IN ["); reveal_strlit("]"); reveal_strlit(","); reveal_strlit("("); reveal_strlit(")"); reveal_strlit(" OR "); }
    let ghost vv = strings_view(vals@);
    let mut parts: Vec<String> = Vec::new();
    let mut start: usize = 0;
    assert(vv.subrange(0, vv.len() as int) =~= vv);
    assert(strings_view(parts@) + in_parts(field@, vv) =~= in_parts(field@, vv));
    while start < vals.len()
        invariant
            start <= vals@.len(),
            vv == strings_view(vals@),
            strings_view(parts@) + in_parts(field@, vv.subrange(start as int, vv.len() as int)) == in_parts(field@, vv),
        decreases vals@.len() - start,
    {
        let end: usize = if vals.len() - start <= MAX_IN_VALUES { vals.len() } else { start + MAX_IN_VALUES };
        let qs = quoted(vals, start, end);
        let list = join_exec(&qs, ",");
        assert(list@ == join_seq(vv.subrange(start as int, end as int).map_values(|v: Seq<char>| "\""@ + v + "\""@), ","@));
        let mut p = concat3(field, " IN [", list.as_str());
        p.append("]");
        let ghost rest = vv.subrange(start as int, vv.len() as int);
        proof {
            assert(vv.subrange(start as int, end as int) == strings_view(vals@).subrange(start as int, end as int));
            if rest.len() <= MAX_IN_VALUES {
                assert(rest =~= vv.subrange(start as int, end as int));
                assert(in_parts(field@, rest) == seq![in_part(field@, rest)]);
                assert(vv.subrange(end as int, vv.len() as int) =~= Seq::<Seq<char>>::empty());
            } else {
                assert(rest.subrange(0, MAX_IN_VALUES as int) =~= vv.subrange(start as int, end as int));
                assert(rest.subrange(MAX_IN_VALUES as int, rest.len() as int) =~= vv.subrange(end as int, vv.len() as int));
            }
            assert(p@ == in_part(field@, vv.subrange(start as int, end as int)));
        }
        let ghost before = parts@;
        parts.push(p);
        proof {
            assert(strings_view(parts@) =~= strings_view(before).push(p@));
            assert(strings_view(parts@) + in_parts(field@, vv.subrange(end as int, vv.len() as int))
                =~= strings_view(before) + in_parts(field@, rest));
        }
        start = end;
    }
    proof {
        assert(vv.subrange(start as int, vv.len() as int) =~= Seq::<Seq<char>>::empty());
        assert(strings_view(parts@) + Seq::<Seq<char>>::empty() =~= strings_view(parts@));
    }
    assert(strings_view(parts@) == in_parts(field@, vv));
    if parts.len() < MAX_IN_LISTS {
        let joined = join_exec(&parts, " OR ");
        Some(concat3("(", joined.as_str(), ")"))
    } else {
        None
    }
}

/// The "~ID" values of the rows that have an ID, in row order.
pub open spec fn id_values(rows: Seq<Row>) -> Seq<Seq<char>>
    decreases rows.len(),
{
    if rows.len() == 0 {
        Seq::empty()
    } else {
        let prev = id_values(rows.drop_last());
        let r = rows.last();
        if r.dom().contains("ID"@) && r["ID"@].is_some() {
            prev.push("~"@ + r["ID"@].unwrap())
        } else {
            prev
        }
    }
}

/// The "~ID" values of the parent rows, each once, in first-seen order.
pub fn lookup_values(parents: &Vec<Record>) -> (r: Vec<String>)
    requires
        all_wf(parents@),
    ensures
        strings_view(r@) == dedup(id_values(rows_view(parents@))),
{
    let ghost pv = rows_view(parents@);
    let mut all: Vec<String> = Vec::new();
    let mut i: usize = 0;
    proof { reveal_strlit("ID"); reveal_strlit("~"); }
    while i < parents.len()
        invariant
            i <= parents@.len(),
            all_wf(parents@),
            pv == rows_view(parents@),
            strings_view(all@) == id_values(pv.subrange(0, i as int)),
        decreases parents@.len() - i,
    {
        assert(parents@[i as int].wf());
        assert(pv.subrange(0, i + 1).drop_last() =~= pv.subrange(0, i as int));
        assert(pv.subrange(0, i + 1).last() == parents@[i as int].view());
        match parents[i].get("ID") {
            Some(Some(v)) => {
                let t = concat2("~", v.as_str());
                let ghost before = all@;
                all.push(t);
                assert(strings_view(all@) =~= strings_view(before).push(t@));
            },
            _ => {},
        }
        i = i + 1;
    }
    assert(pv.subrange(0, i as int) =~= pv);
    merge_fields(&all, &Vec::new())
}

/// The child's filter restricted to the lookup filter `l`: "(l) AND (f)" for
/// a non-empty single filter f, "(l) AND ((f1) OR (f2) ...)" for a list, and
/// `l` alone otherwise.
pub open spec fn restricted(l: Seq<char>, w: WhereClause) -> Seq<char> {
    match w {
        WhereClause::Single(s) => if s@.len() > 0 { "("@ + l + ") AND ("@ + s@ + ")"@ } else { l },
        WhereClause::Multiple(v) => "("@ + l + ") AND ("@ + ("("@ + join_seq(strings_view(v@), ") OR ("@) + ")"@) + ")"@,
    }
}

/// Restricts the child's filter to the lookup filter (see `restricted`).
pub fn restrict_filter(l: &str, w: &WhereClause) -> (r: String)
    ensures
        r@ == restricted(l@, *w),
{
    proof { reveal_strlit("("); reveal_strlit(") AND ("); reveal_strlit(")"); reveal_strlit(") OR ("); }
    match w {
        WhereClause::Single(s) => if s.as_str().unicode_len() > 0 {
            let mut r = concat3("(", l, ") AND (");
            r.append(s.as_str());
            r.append(")");
            r
        } else {
            String::from_str(l)
        },
        WhereClause::Multiple(v) => {
            let inner = join_exec(v, ") OR (");
            let mut r = concat3("(", l, ") AND (");
            r.append("(");
            r.append(inner.as_str());
            r.append(")");
            r.append(")");
            r
        },
    }
}

/// What a lookup join does to the child's request.
pub enum ChildFilter {
    /// No parent row has an ID: an inner join yields nothing.
    NoParents,
    /// The child's filter, restricted to the parents' IDs (a filter in the
    /// SQL-like dialect).
    Restricted(String),
    /// Too many IDs to list: the filter stays as it is and the child is paged.
    TooMany,
}

/// Decides the child's filter of a join on lookup field `field`: no parents,
/// the restricted filter, or too many IDs to list.
pub fn lookup_child_filter(parents: &Vec<Record>, field: &str, child_where: &WhereClause) -> (r: ChildFilter)
    requires
        all_wf(parents@),
    ensures
        ({
            let vals = dedup(id_values(rows_view(parents@)));
            match r {
                ChildFilter::NoParents => vals.len() == 0,
                ChildFilter::Restricted(f) => vals.len() > 0 && lookup_filter(field@, vals) is Some
                    && f@ == restricted(lookup_filter(field@, vals).unwrap(), *child_where),
                ChildFilter::TooMany => vals.len() > 0 && lookup_filter(field@, vals) is None,
            }
        }),
{
    let vals = lookup_values(parents);
    if vals.len() == 0 {
        return ChildFilter::NoParents;
    }
    match lookup_filter_for(field, &vals) {
        Some(l) => ChildFilter::Restricted(restrict_filter(l.as_str(), child_where)),
        None => ChildFilter::TooMany,
    }
}

} // verus!
