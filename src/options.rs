use vstd::prelude::*;
use crate::record::Record;
use crate::join::strings_view;
use crate::query::{FolderShow, CalendarRange};
use crate::text::concat3;

verus! {

fn all_empty(v: &Vec<String>) -> (r: bool)
    ensures
        r == forall|i: int| 0 <= i < v@.len() ==> (#[trigger] v@[i])@.len() == 0,
{
    let mut i: usize = 0;
    while i < v.len()
        invariant
            i <= v@.len(),
            forall|j: int| 0 <= j < i ==> (#[trigger] v@[j])@.len() == 0,
        decreases v@.len() - i,
    {
        let n = v[i].as_str().unicode_len();
        if n != 0 {
            assert(v@[i as int]@.len() != 0);
            return false;
        }
        i = i + 1;
    }
    true
}

/// A filter: one expression, or a list of expressions run as separate rounds.
pub enum WhereClause {
    Single(String),
    Multiple(Vec<String>),
}

/// A filter as the contracts see it: whether it is a single expression, and
/// its expressions.
pub open spec fn clause_view(w: WhereClause) -> (bool, Seq<Seq<char>>) {
    match w {
        WhereClause::Single(s) => (true, seq![s@]),
        WhereClause::Multiple(v) => (false, v@.map_values(|s: String| s@)),
    }
}

impl WhereClause {
    /// Whether the filter holds no expression: an empty single one, or a
    /// list that is empty or holds only empty ones.
    pub fn is_empty(&self) -> (r: bool)
        ensures
            r == match self {
                WhereClause::Single(s) => s@.len() == 0,
                WhereClause::Multiple(v) => forall|i: int| 0 <= i < v@.len() ==> (#[trigger] v@[i])@.len() == 0,
            },
    {
        match self {
            WhereClause::Single(s) => s.unicode_len() == 0,
            WhereClause::Multiple(v) => all_empty(v),
        }
    }

    /// The expression of a single filter.
    pub fn get_single(&self) -> (r: Option<&String>)
        ensures
            match self {
                WhereClause::Single(s) => r == Some(s),
                WhereClause::Multiple(_) => r.is_none(),
            },
    {
        match self {
            WhereClause::Single(s) => Some(s),
            WhereClause::Multiple(_) => None,
        }
    }

    /// The expressions of a filter list.
    pub fn get_multiple(&self) -> (r: Option<&Vec<String>>)
        ensures
            match self {
                WhereClause::Single(_) => r.is_none(),
                WhereClause::Multiple(v) => r == Some(v),
            },
    {
        match self {
            WhereClause::Single(_) => None,
            WhereClause::Multiple(v) => Some(v),
        }
    }
}

impl Default for WhereClause {
    /// No filter: an empty single expression.
    fn default() -> (r: WhereClause)
        ensures
            r matches WhereClause::Single(s) && s@.len() == 0,
    {
        WhereClause::Single(String::new())
    }
}

/// The folder scope used when none is given.
pub fn default_folder_show() -> (r: FolderShow)
    ensures
        r == FolderShow::FilesAndFoldersInFolder,
{
    FolderShow::FilesAndFoldersInFolder
}

/// Recurring calendar events are split by default.
pub fn default_split_recurrence() -> (r: bool)
    ensures
        r,
{
    true
}

/// The calendar range used when none is given.
pub fn default_calendar_range() -> (r: CalendarRange)
    ensures
        r == CalendarRange::Month,
{
    CalendarRange::Month
}

pub fn default_true() -> (r: bool)
    ensures
        r,
{
    true
}

/// The page budget used when none is given.
pub fn default_page_limit() -> (r: usize)
    ensures
        r == 5000,
{
    5000
}

/// The rows of a retrieval and the continuation token, if the service
/// reported more rows.
pub struct GetListItemsResult {
    pub items: Vec<Record>,
    pub next_page_token: Option<String>,
}

/// What a named view contributes to a request.
pub struct ViewDetails {
    pub fields: Vec<String>,
    pub order_by: Option<String>,
    /// The view's filter, in the service's query dialect.
    pub where_caml: Option<String>,
}

/// The names in first-seen order, each once.
pub open spec fn dedup(s: Seq<Seq<char>>) -> Seq<Seq<char>>
    decreases s.len(),
{
    if s.len() == 0 {
        Seq::empty()
    } else {
        let d = dedup(s.drop_last());
        if d.contains(s.last()) { d } else { d.push(s.last()) }
    }
}

/// The requested fields: the union of the user's fields and the view's, in
/// first-seen order.
pub fn merge_fields(user: &Vec<String>, view: &Vec<String>) -> (r: Vec<String>)
    ensures
        strings_view(r@) == dedup(strings_view(user@) + strings_view(view@)),
{
    let mut all: Vec<String> = Vec::new();
    let mut i: usize = 0;
    while i < user.len()
        invariant
            i <= user@.len(),
            strings_view(all@) == strings_view(user@).subrange(0, i as int),
        decreases user@.len() - i,
    {
        let ghost before = all@;
        let c = user[i].clone();
        assert(c@ == user@[i as int]@);
        all.push(c);
        assert(strings_view(all@) =~= strings_view(before).push(user@[i as int]@));
        assert(strings_view(all@) =~= strings_view(user@).subrange(0, i + 1));
        i = i + 1;
    }
    let mut j: usize = 0;
    while j < view.len()
        invariant
            j <= view@.len(),
            strings_view(all@) == strings_view(user@) + strings_view(view@).subrange(0, j as int),
        decreases view@.len() - j,
    {
        let ghost before = all@;
        let c = view[j].clone();
        assert(c@ == view@[j as int]@);
        all.push(c);
        assert(strings_view(all@) =~= strings_view(before).push(view@[j as int]@));
        assert(strings_view(all@) =~= strings_view(user@) + strings_view(view@).subrange(0, j + 1));
        j = j + 1;
    }
    assert(strings_view(user@).subrange(0, user@.len() as int) =~= strings_view(user@));
    assert(strings_view(view@).subrange(0, view@.len() as int) =~= strings_view(view@));
    let ghost av = strings_view(all@);
    let mut out: Vec<String> = Vec::new();
    let mut k: usize = 0;
    while k < all.len()
        invariant
            k <= all@.len(),
            av == strings_view(all@),
            strings_view(out@) == dedup(av.subrange(0, k as int)),
        decreases all@.len() - k,
    {
        let mut seen = false;
        let mut t: usize = 0;
        while t < out.len()
            invariant
                t <= out@.len(),
                k < all@.len(),
                seen == exists|x: int| 0 <= x < t && out@[x]@ == all@[k as int]@,
            decreases out@.len() - t,
        {
            if out[t] == all[k] {
                seen = true;
            }
            t = t + 1;
        }
        proof {
            let d = dedup(av.subrange(0, k as int));
            assert(av.subrange(0, k + 1).drop_last() =~= av.subrange(0, k as int));
            assert(av.subrange(0, k + 1).last() == all@[k as int]@);
            if seen {
                let x = choose|x: int| 0 <= x < out@.len() && out@[x]@ == all@[k as int]@;
                assert(d[x] == all@[k as int]@);
            } else {
                assert forall|x: int| 0 <= x < d.len() implies d[x] != all@[k as int]@ by {
                    assert(d[x] == out@[x]@);
                }
            }
        }
        if !seen {
            let ghost before = out@;
            out.push(all[k].clone());
            assert(strings_view(out@) =~= strings_view(before).push(all@[k as int]@));
        }
        k = k + 1;
    }
    assert(av.subrange(0, k as int) =~= av);
    out
}

/// The sort spec: the user's then the view's, comma-separated, when both are
/// given; else whichever is non-empty.
pub open spec fn merged_orderby(user: Seq<char>, view: Option<Seq<char>>) -> Seq<char> {
    match view {
        Some(v) => if user.len() > 0 && v.len() > 0 {
            user + ","@ + v
        } else if v.len() > 0 {
            v
        } else {
            user
        },
        None => user,
    }
}

/// Combines the user's sort spec with the view's (see `merged_orderby`).
pub fn merge_orderby(user: &str, view: Option<&str>) -> (r: String)
    ensures
        r@ == merged_orderby(user@, match view { Some(v) => Some(v@), None => None }),
{
    proof { reveal_strlit(","); }
    match view {
        Some(v) => if user.unicode_len() > 0 && v.unicode_len() > 0 {
            concat3(user, ",", v)
        } else if v.unicode_len() > 0 {
            String::from_str(v)
        } else {
            String::from_str(user)
        },
        None => String::from_str(user),
    }
}

/// The user's filter expressions that take part in a view's filter: the
/// expression of a non-empty single filter, or every expression of a list.
pub open spec fn user_filters(w: (bool, Seq<Seq<char>>)) -> Seq<Seq<char>> {
    if w.0 {
        if w.1[0].len() > 0 { seq![w.1[0]] } else { Seq::empty() }
    } else {
        w.1
    }
}

/// The filter after applying the view's filter `vw`: the view's alone when
/// the user gave none, else each user filter AND-ed with it; a single
/// filter when that leaves one expression.
pub open spec fn with_view_filter(w: (bool, Seq<Seq<char>>), vw: Seq<char>) -> (bool, Seq<Seq<char>>) {
    let u = user_filters(w);
    let c = if u.len() == 0 {
        seq![vw]
    } else {
        u.map_values(|x: Seq<char>| "<And>"@ + x + vw + "</And>"@)
    };
    (c.len() == 1, c)
}

/// Applies a view's filter to the user's filter, both in the service's query
/// dialect (see `with_view_filter`).
pub fn apply_view_filter(w: WhereClause, view_where: Option<String>) -> (r: WhereClause)
    ensures
        clause_view(r) == match view_where {
            Some(vw) => with_view_filter(clause_view(w), vw@),
            None => clause_view(w),
        },
{
    match view_where {
        None => w,
        Some(vw) => {
            proof { reveal_strlit("<And>"); reveal_strlit("</And>"); }
            let ghost wv = clause_view(w);
            let u: Vec<String> = match w {
                WhereClause::Single(s) => {
                    let mut u: Vec<String> = Vec::new();
                    if s.as_str().unicode_len() > 0 {
                        u.push(s);
                        assert(strings_view(u@) =~= seq![wv.1[0]]);
                    } else {
                        assert(strings_view(u@) =~= Seq::<Seq<char>>::empty());
                    }
                    u
                },
                WhereClause::Multiple(v) => {
                    assert(strings_view(v@) =~= wv.1);
                    v
                },
            };
            assert(strings_view(u@) =~= user_filters(wv));
            let mut out: Vec<String> = Vec::new();
            if u.len() == 0 {
                out.push(vw);
                assert(strings_view(out@) =~= seq![vw@]);
            } else {
                let ghost uv = strings_view(u@);
                let mut i: usize = 0;
                while i < u.len()
                    invariant
                        i <= u@.len(),
                        uv == strings_view(u@),
                        strings_view(out@) == uv.subrange(0, i as int).map_values(|x: Seq<char>| "<And>"@ + x + vw@ + "</And>"@),
                    decreases u@.len() - i,
                {
                    let mut w = concat3("<And>", u[i].as_str(), vw.as_str());
                    w.append("</And>");
                    let ghost before = out@;
                    out.push(w);
                    assert(strings_view(out@) =~= strings_view(before).push(w@));
                    assert(w@ == "<And>"@ + uv[i as int] + vw@ + "</And>"@);
                    assert(strings_view(out@) =~= uv.subrange(0, i + 1).map_values(|x: Seq<char>| "<And>"@ + x + vw@ + "</And>"@));
                    i = i + 1;
                }
                assert(uv.subrange(0, i as int) =~= uv);
            }
            if out.len() == 1 {
                let only = out.pop().unwrap();
                assert(seq![only@] =~= strings_view(out@.push(only)));
                WhereClause::Single(only)
            } else {
                WhereClause::Multiple(out)
            }
        },
    }
}

} // verus!
