use vstd::prelude::*;
use crate::record::{Record, opt_view, entries_map};
use crate::text::{concat3, str_eq, chars_of, sub_vec, string_of, find_exec, trim_bounds, trim, find_from, split_on};

verus! {

pub open spec fn is_digit(c: char) -> bool {
    '0' <= c && c <= '9'
}

/// Whether the lookup separator ";#" starts at `i`.
pub open spec fn sep_at(v: Seq<char>, i: int) -> bool {
    0 <= i && i + 1 < v.len() && v[i] == ';' && v[i + 1] == '#'
}

/// The id part of a lookup value such as "12;#Title": the non-empty run of
/// digits that starts the value and is followed by ";#".
pub open spec fn lookup_id(v: Seq<char>) -> Option<Seq<char>> {
    if exists|p: int| 0 < p && sep_at(v, p) && forall|j: int| 0 <= j < p ==> is_digit(#[trigger] v[j]) {
        Some(v.subrange(0, choose|p: int| 0 < p && sep_at(v, p) && forall|j: int| 0 <= j < p ==> is_digit(#[trigger] v[j])))
    } else {
        None
    }
}

/// The key part a field value contributes: the lookup id when the value is a
/// lookup value, else the value itself; an absent value gives "".
pub open spec fn key_part(v: Option<Seq<char>>) -> Seq<char> {
    match v {
        None => Seq::empty(),
        Some(s) => match lookup_id(s) {
            Some(id) => id,
            None => s,
        },
    }
}

/// The value of field `f` in row `m`: under "qualifier.f" when that key is
/// present, else under "f".
pub open spec fn field_value(m: Map<Seq<char>, Option<Seq<char>>>, qualifier: Option<Seq<char>>, f: Seq<char>)
    -> Option<Seq<char>>
{
    match qualifier {
        Some(a) if m.dom().contains(a + "."@ + f) => m[a + "."@ + f],
        _ => if m.dom().contains(f) { m[f] } else { None },
    }
}

/// "_" followed by the parts, each part after the first preceded by "_".
pub open spec fn key_text(parts: Seq<Seq<char>>) -> Seq<char>
    decreases parts.len(),
{
    if parts.len() == 0 {
        "_"@
    } else if parts.len() == 1 {
        "_"@ + parts[0]
    } else {
        key_text(parts.drop_last()) + "_"@ + parts.last()
    }
}

pub open spec fn key_parts(m: Map<Seq<char>, Option<Seq<char>>>, fields: Seq<Seq<char>>, qualifier: Option<Seq<char>>)
    -> Seq<Seq<char>>
{
    fields.map_values(|f: Seq<char>| key_part(field_value(m, qualifier, f)))
}

/// The join key of row `m` over the ON fields of its side; a row with an
/// empty key part has none and takes part in no match.
pub open spec fn row_key(m: Map<Seq<char>, Option<Seq<char>>>, fields: Seq<Seq<char>>, qualifier: Option<Seq<char>>)
    -> Option<Seq<char>>
{
    if exists|i: int| 0 <= i < fields.len() && #[trigger] key_parts(m, fields, qualifier)[i].len() == 0 {
        None
    } else {
        Some(key_text(key_parts(m, fields, qualifier)))
    }
}

/// Extracts the id part of a lookup value ("12;#Title" gives "12").
pub fn get_lookup_id(value: &str) -> (r: Option<String>)
    ensures
        match r {
            Some(id) => lookup_id(value@) == Some(id@),
            None => lookup_id(value@).is_none(),
        },
{
    let n = value.unicode_len();
    let mut p: usize = 0;
    while p < n && is_digit_exec(value.get_char(p))
        invariant
            n == value@.len(),
            p <= n,
            forall|j: int| 0 <= j < p ==> is_digit(#[trigger] value@[j]),
        decreases n - p,
    {
        p = p + 1;
    }
    if p > 0 && p < n && p + 1 < n && value.get_char(p) == ';' && value.get_char(p + 1) == '#' {
        proof { lemma_lookup_id_at(value@, p as int); }
        Some(String::from_str(value.substring_char(0, p)))
    } else {
        proof {
            if exists|q: int| 0 < q && sep_at(value@, q) && forall|j: int| 0 <= j < q ==> is_digit(#[trigger] value@[j]) {
                let w = choose|q: int| 0 < q && sep_at(value@, q) && forall|j: int| 0 <= j < q ==> is_digit(#[trigger] value@[j]);
                if w < p {
                    assert(is_digit(value@[w]));
                } else if w > p {
                    assert(is_digit(value@[p as int]));
                }
            }
        }
        None
    }
}

proof fn lemma_lookup_id_at(v: Seq<char>, p: int)
    requires
        0 < p,
        sep_at(v, p),
        forall|j: int| 0 <= j < p ==> is_digit(#[trigger] v[j]),
    ensures
        lookup_id(v) == Some(v.subrange(0, p)),
{
    let w = choose|q: int| 0 < q && sep_at(v, q) && forall|j: int| 0 <= j < q ==> is_digit(#[trigger] v[j]);
    if w < p {
        assert(is_digit(v[w]));
    } else if w > p {
        assert(is_digit(v[p]));
    }
}

fn is_digit_exec(c: char) -> (r: bool)
    ensures
        r == is_digit(c),
{
    '0' <= c && c <= '9'
}

fn key_part_exec(v: &Option<String>) -> (r: String)
    ensures
        r@ == key_part(opt_view(*v)),
{
    match v {
        None => String::new(),
        Some(s) => match get_lookup_id(s.as_str()) {
            Some(id) => id,
            None => s.clone(),
        },
    }
}

fn field_value_exec(row: &Record, qualifier: Option<&str>, f: &str) -> (r: Option<String>)
    requires
        row.wf(),
    ensures
        opt_view(r) == field_value(row.view(), match qualifier { Some(q) => Some(q@), None => None }, f@),
{
    if let Some(q) = qualifier {
        let qk = concat3(q, ".", f);
        proof { reveal_strlit("."); }
        if let Some(v) = row.get(qk.as_str()) {
            return v;
        }
    }
    match row.get(f) {
        Some(v) => v,
        None => None,
    }
}

/// Computes the join key of `row` over `fields` (see `row_key`).
pub fn row_key_exec(row: &Record, fields: &Vec<String>, qualifier: Option<&str>) -> (r: Option<String>)
    requires
        row.wf(),
    ensures
        opt_view(r) == row_key(
            row.view(),
            fields@.map_values(|f: String| f@),
            match qualifier { Some(q) => Some(q@), None => None },
        ),
{
    let ghost q = match qualifier { Some(q) => Some(q@), None => None };
    let ghost fs = fields@.map_values(|f: String| f@);
    let ghost parts = key_parts(row.view(), fs, q);
    let mut key = String::from_str("_");
    proof { reveal_strlit("_"); }
    let mut i: usize = 0;
    while i < fields.len()
        invariant
            i <= fields@.len(),
            fs == fields@.map_values(|f: String| f@),
            parts == key_parts(row.view(), fs, q),
            q == match qualifier { Some(q) => Some(q@), None => None },
            row.wf(),
            forall|j: int| 0 <= j < i ==> parts[j].len() > 0,
            i > 0 ==> key@ == key_text(parts.subrange(0, i as int)),
            i == 0 ==> key@ == "_"@,
        decreases fields@.len() - i,
    {
        let v = field_value_exec(row, qualifier, fields[i].as_str());
        let part = key_part_exec(&v);
        assert(part@ == parts[i as int]);
        if part.unicode_len() == 0 {
            assert(key_parts(row.view(), fs, q)[i as int].len() == 0);
            return None;
        }
        proof { reveal_strlit("_"); }
        if i > 0 {
            key.append("_");
        }
        key.append(part.as_str());
        proof {
            let s = parts.subrange(0, i + 1);
            assert(s.drop_last() =~= parts.subrange(0, i as int));
            if i == 0 {
                assert(key@ =~= "_"@ + s[0]);
            }
        }
        i = i + 1;
    }
    proof {
        assert(parts.subrange(0, i as int) =~= parts);
        if i == 0 {
            assert(parts =~= Seq::<Seq<char>>::empty());
        }
    }
    Some(key)
}

} // verus!

verus! {

pub type Row = Map<Seq<char>, Option<Seq<char>>>;

pub type Entries = Seq<(Seq<char>, Option<Seq<char>>)>;

/// A parent row's fields named "alias.field", leaving names that already
/// hold a dot as they are.
pub open spec fn qualified(s: Entries, alias: Seq<char>) -> Entries {
    s.map_values(|e: (Seq<char>, Option<Seq<char>>)|
        (if e.0.contains('.') { e.0 } else { alias + "."@ + e.0 }, e.1))
}

pub open spec fn index_keys_unique(idx: Seq<(Seq<char>, Seq<Row>)>) -> bool {
    forall|i: int, j: int| 0 <= i < idx.len() && 0 <= j < idx.len() && i != j ==> idx[i].0 != idx[j].0
}

/// The position of key `k` in the index, if it is there.
pub open spec fn key_pos(idx: Seq<(Seq<char>, Seq<Row>)>, k: Seq<char>) -> Option<int> {
    if exists|i: int| 0 <= i < idx.len() && idx[i].0 == k {
        Some(choose|i: int| 0 <= i < idx.len() && idx[i].0 == k)
    } else {
        None
    }
}

/// Adds row `r` under key `k`: at the end of that key's group, or as a new
/// group after all others.
pub open spec fn index_add(idx: Seq<(Seq<char>, Seq<Row>)>, k: Seq<char>, r: Row) -> Seq<(Seq<char>, Seq<Row>)> {
    match key_pos(idx, k) {
        Some(i) => idx.update(i, (k, idx[i].1.push(r))),
        None => idx.push((k, seq![r])),
    }
}

/// The index over the parent rows: keys in first-seen order, each with the
/// qualified rows that carry it, in row order. Rows without a key are left out.
pub open spec fn index_rows(parents: Seq<Entries>, fields: Seq<Seq<char>>, alias: Seq<char>)
    -> Seq<(Seq<char>, Seq<Row>)>
    decreases parents.len(),
{
    if parents.len() == 0 {
        Seq::empty()
    } else {
        let idx = index_rows(parents.drop_last(), fields, alias);
        let p = parents.last();
        match row_key(entries_map(p), fields, Some(alias)) {
            Some(k) => index_add(idx, k, entries_map(qualified(p, alias))),
            None => idx,
        }
    }
}

/// `m` with the pairs of `s` set in order.
pub open spec fn insert_all(m: Row, s: Entries) -> Row
    decreases s.len(),
{
    if s.len() == 0 {
        m
    } else {
        insert_all(m, s.drop_last()).insert(s.last().0, s.last().1)
    }
}

/// A parent row joined with a child row: the child's fields are added as
/// "child_alias.field".
pub open spec fn merged(p: Row, c: Entries, child_alias: Seq<char>) -> Row {
    insert_all(p, c.map_values(|e: (Seq<char>, Option<Seq<char>>)| (child_alias + "."@ + e.0, e.1)))
}

/// The joined rows that one child row yields: one per parent row with the same key.
pub open spec fn child_matches(idx: Seq<(Seq<char>, Seq<Row>)>, c: Entries, fields: Seq<Seq<char>>, child_alias: Seq<char>)
    -> Seq<Row>
{
    match row_key(entries_map(c), fields, None) {
        Some(k) => match key_pos(idx, k) {
            Some(i) => idx[i].1.map_values(|p: Row| merged(p, c, child_alias)),
            None => Seq::empty(),
        },
        None => Seq::empty(),
    }
}

/// The matched rows, child by child in child order.
pub open spec fn matched_rows(idx: Seq<(Seq<char>, Seq<Row>)>, children: Seq<Entries>, fields: Seq<Seq<char>>, child_alias: Seq<char>)
    -> Seq<Row>
    decreases children.len(),
{
    if children.len() == 0 {
        Seq::empty()
    } else {
        matched_rows(idx, children.drop_last(), fields, child_alias)
            + child_matches(idx, children.last(), fields, child_alias)
    }
}

/// Whether some child row carries key `k`.
pub open spec fn key_matched(k: Seq<char>, children: Seq<Entries>, fields: Seq<Seq<char>>) -> bool {
    exists|j: int| 0 <= j < children.len() && row_key(entries_map(#[trigger] children[j]), fields, None) == Some(k)
}

/// The parent rows of the first `n` keys that no child matched, key by key.
pub open spec fn unmatched_rows(idx: Seq<(Seq<char>, Seq<Row>)>, children: Seq<Entries>, fields: Seq<Seq<char>>, n: int)
    -> Seq<Row>
    decreases n,
{
    if n <= 0 {
        Seq::empty()
    } else if key_matched(idx[n - 1].0, children, fields) {
        unmatched_rows(idx, children, fields, n - 1)
    } else {
        unmatched_rows(idx, children, fields, n - 1) + idx[n - 1].1
    }
}

/// The result of joining the child rows to the indexed parents: the matched
/// rows, then for an outer join the parent rows that found no match.
pub open spec fn joined(idx: Seq<(Seq<char>, Seq<Row>)>, children: Seq<Entries>, fields: Seq<Seq<char>>, child_alias: Seq<char>, outer: bool)
    -> Seq<Row>
{
    matched_rows(idx, children, fields, child_alias)
        + if outer { unmatched_rows(idx, children, fields, idx.len() as int) } else { Seq::empty() }
}

pub open spec fn strings_view(v: Seq<String>) -> Seq<Seq<char>> {
    v.map_values(|s: String| s@)
}

pub open spec fn rows_view(v: Seq<Record>) -> Seq<Row> {
    v.map_values(|r: Record| r.view())
}

pub open spec fn rows_entries(v: Seq<Record>) -> Seq<Entries> {
    v.map_values(|r: Record| r.seq())
}

pub open spec fn all_wf(v: Seq<Record>) -> bool {
    forall|i: int| 0 <= i < v.len() ==> (#[trigger] v[i]).wf()
}

fn has_char(s: &str, c: char) -> (r: bool)
    ensures
        r == s@.contains(c),
{
    let n = s.unicode_len();
    let mut i: usize = 0;
    while i < n
        invariant
            n == s@.len(),
            i <= n,
            forall|j: int| 0 <= j < i ==> s@[j] != c,
        decreases n - i,
    {
        if s.get_char(i) == c {
            assert(s@[i as int] == c);
            return true;
        }
        i = i + 1;
    }
    false
}

/// A copy of a parent row with its fields qualified by `alias`.
fn qualified_copy(row: &Record, alias: &str) -> (r: Record)
    ensures
        r.wf(),
        r.view() == entries_map(qualified(row.seq(), alias@)),
{
    let es = row.entries();
    let ghost q = qualified(row.seq(), alias@);
    let mut r = Record::new();
    let mut i: usize = 0;
    proof { reveal_strlit("."); }
    while i < es.len()
        invariant
            i <= es@.len(),
            es@.map_values(|e: (String, Option<String>)| crate::record::entry_view(e)) == row.seq(),
            q == qualified(row.seq(), alias@),
            r.wf(),
            r.view() == entries_map(q.subrange(0, i as int)),
        decreases es@.len() - i,
    {
        let name = es[i].0.as_str();
        let k = if has_char(name, '.') {
            String::from_str(name)
        } else {
            concat3(alias, ".", name)
        };
        proof { reveal_strlit("."); }
        r.insert(k, crate::record::clone_opt(&es[i].1));
        assert(q.subrange(0, i + 1).drop_last() =~= q.subrange(0, i as int));
        i = i + 1;
    }
    assert(q.subrange(0, i as int) =~= q);
    r
}

/// A parent row joined with a child row (see `merged`).
fn merge_row(parent: &Record, child: &Record, child_alias: &str) -> (r: Record)
    requires
        parent.wf(),
    ensures
        r.wf(),
        r.view() == merged(parent.view(), child.seq(), child_alias@),
{
    let es = child.entries();
    let ghost cq = child.seq().map_values(|e: (Seq<char>, Option<Seq<char>>)| (child_alias@ + "."@ + e.0, e.1));
    let mut r = parent.copy();
    let mut i: usize = 0;
    assert(insert_all(parent.view(), cq.subrange(0, 0)) == parent.view());
    while i < es.len()
        invariant
            i <= es@.len(),
            es@.map_values(|e: (String, Option<String>)| crate::record::entry_view(e)) == child.seq(),
            cq == child.seq().map_values(|e: (Seq<char>, Option<Seq<char>>)| (child_alias@ + "."@ + e.0, e.1)),
            r.wf(),
            r.view() == insert_all(parent.view(), cq.subrange(0, i as int)),
        decreases es@.len() - i,
    {
        let k = concat3(child_alias, ".", es[i].0.as_str());
        proof { reveal_strlit("."); }
        r.insert(k, crate::record::clone_opt(&es[i].1));
        assert(cq.subrange(0, i + 1).drop_last() =~= cq.subrange(0, i as int));
        i = i + 1;
    }
    assert(cq.subrange(0, i as int) =~= cq);
    r
}

fn find_key(keys: &Vec<String>, k: &String) -> (r: Option<usize>)
    ensures
        match r {
            Some(i) => i < keys@.len() && keys@[i as int]@ == k@,
            None => forall|i: int| 0 <= i < keys@.len() ==> keys@[i]@ != k@,
        },
{
    let mut i: usize = 0;
    while i < keys.len()
        invariant
            i <= keys@.len(),
            forall|j: int| 0 <= j < i ==> keys@[j]@ != k@,
        decreases keys@.len() - i,
    {
        if keys[i] == *k {
            return Some(i);
        }
        i = i + 1;
    }
    None
}

} // verus!

verus! {

/// One equality of an ON clause: `'list1_name'.list1_field = 'list2_name'.list2_field`.
pub struct JoinFieldPair {
    pub list1_name: String,
    pub list1_field: String,
    pub list2_name: String,
    pub list2_field: String,
}

pub open spec fn pair_view(p: JoinFieldPair) -> (Seq<char>, Seq<char>, Seq<char>, Seq<char>) {
    (p.list1_name@, p.list1_field@, p.list2_name@, p.list2_field@)
}

pub open spec fn pairs_view(v: Seq<JoinFieldPair>) -> Seq<(Seq<char>, Seq<char>, Seq<char>, Seq<char>)> {
    v.map_values(|p: JoinFieldPair| pair_view(p))
}

/// The field that pair `p` names for the list called `alias`, if it names that list.
pub open spec fn side_field(p: (Seq<char>, Seq<char>, Seq<char>, Seq<char>), alias: Seq<char>) -> Option<Seq<char>> {
    if p.0 == alias {
        Some(p.1)
    } else if p.2 == alias {
        Some(p.3)
    } else {
        None
    }
}

/// The fields of list `alias` over all pairs; none when a pair does not name it.
pub open spec fn side_fields(pairs: Seq<(Seq<char>, Seq<char>, Seq<char>, Seq<char>)>, alias: Seq<char>) -> Option<Seq<Seq<char>>> {
    if forall|i: int| 0 <= i < pairs.len() ==> (#[trigger] side_field(pairs[i], alias)).is_some() {
        Some(pairs.map_values(|p: (Seq<char>, Seq<char>, Seq<char>, Seq<char>)| side_field(p, alias).unwrap()))
    } else {
        None
    }
}

/// The ON fields that belong to list `alias`, in pair order; `None` when some
/// pair does not name that list.
pub fn fields_for(pairs: &Vec<JoinFieldPair>, alias: &str) -> (r: Option<Vec<String>>)
    ensures
        match r {
            Some(v) => side_fields(pairs_view(pairs@), alias@) == Some(strings_view(v@)),
            None => side_fields(pairs_view(pairs@), alias@).is_none(),
        },
{
    let ghost pv = pairs_view(pairs@);
    let mut out: Vec<String> = Vec::new();
    let mut i: usize = 0;
    while i < pairs.len()
        invariant
            i <= pairs@.len(),
            pv == pairs_view(pairs@),
            out@.len() == i,
            forall|j: int| 0 <= j < i ==> (#[trigger] side_field(pv[j], alias@)).is_some()
                && side_field(pv[j], alias@).unwrap() == out@[j]@,
        decreases pairs@.len() - i,
    {
        let p = &pairs[i];
        if str_eq(p.list1_name.as_str(), alias) {
            out.push(p.list1_field.clone());
        } else if str_eq(p.list2_name.as_str(), alias) {
            out.push(p.list2_field.clone());
        } else {
            assert(side_field(pv[i as int], alias@).is_none());
            return None;
        }
        i = i + 1;
    }
    assert(strings_view(out@) =~= pv.map_values(|p: (Seq<char>, Seq<char>, Seq<char>, Seq<char>)| side_field(p, alias@).unwrap()));
    Some(out)
}

/// The parent side of a join: the parent rows indexed by their join key.
pub struct JoinData {
    /// Keys in first-seen order.
    index_keys: Vec<String>,
    /// For each key, the qualified parent rows that carry it, in row order.
    indexed_data: Vec<Vec<Record>>,
    parent_alias: String,
    outer: bool,
}

impl JoinData {
    /// The index as keys with their groups of rows.
    pub closed spec fn index(&self) -> Seq<(Seq<char>, Seq<Row>)> {
        Seq::new(self.index_keys@.len(), |i: int| (self.index_keys@[i]@, rows_view(self.indexed_data@[i]@)))
    }

    pub closed spec fn wf(&self) -> bool {
        &&& self.index_keys@.len() == self.indexed_data@.len()
        &&& index_keys_unique(self.index())
        &&& forall|i: int| 0 <= i < self.indexed_data@.len() ==> all_wf(#[trigger] self.indexed_data@[i]@)
    }

    pub closed spec fn is_outer(&self) -> bool {
        self.outer
    }

    pub closed spec fn alias(&self) -> Seq<char> {
        self.parent_alias@
    }

    /// Indexes `parents` by their key over `parent_fields`, reading each field
    /// under "alias.field" first; each stored row has its fields qualified by
    /// the alias.
    pub fn build(parents: &Vec<Record>, parent_fields: Vec<String>, parent_alias: String, outer: bool) -> (r: JoinData)
        requires
            all_wf(parents@),
        ensures
            r.wf(),
            r.is_outer() == outer,
            r.alias() == parent_alias@,
            r.index() == index_rows(rows_entries(parents@), strings_view(parent_fields@), parent_alias@),
    {
        let ghost fs = strings_view(parent_fields@);
        let ghost ps = rows_entries(parents@);
        let mut keys: Vec<String> = Vec::new();
        let mut groups: Vec<Vec<Record>> = Vec::new();
        let mut i: usize = 0;
        while i < parents.len()
            invariant
                i <= parents@.len(),
                all_wf(parents@),
                fs == strings_view(parent_fields@),
                ps == rows_entries(parents@),
                keys@.len() == groups@.len(),
                (JoinData { index_keys: keys, indexed_data: groups, parent_alias, outer }).wf(),
                (JoinData { index_keys: keys, indexed_data: groups, parent_alias, outer }).index()
                    == index_rows(ps.subrange(0, i as int), fs, parent_alias@),
            decreases parents@.len() - i,
        {
            let ghost old_index = (JoinData { index_keys: keys, indexed_data: groups, parent_alias, outer }).index();
            assert(ps.subrange(0, i + 1).drop_last() =~= ps.subrange(0, i as int));
            assert(parents@[i as int].wf());
            let key = row_key_exec(&parents[i], &parent_fields, Some(parent_alias.as_str()));
            assert(entries_map(ps[i as int]) == parents@[i as int].view());
            match key {
                Some(k) => {
                    let q = qualified_copy(&parents[i], parent_alias.as_str());
                    let ghost qv = q.view();
                    match find_key(&keys, &k) {
                        Some(j) => {
                            let mut g = groups.remove(j);
                            let ghost old_g = g@;
                            g.push(q);
                            groups.insert(j, g);
                            proof {
                                let ni = (JoinData { index_keys: keys, indexed_data: groups, parent_alias, outer }).index();
                                assert(old_index[j as int].0 == k@);
                                assert(key_pos(old_index, k@) == Some(j as int));
                                assert(rows_view(old_g.push(q)) =~= rows_view(old_g).push(qv));
                                assert(ni =~= index_add(old_index, k@, qv));
                                assert forall|a: int| 0 <= a < groups@.len() implies all_wf(#[trigger] groups@[a]@) by {
                                    if a == j {
                                        assert forall|b: int| 0 <= b < groups@[a]@.len() implies (#[trigger] groups@[a]@[b]).wf() by {
                                            if b < old_g.len() {
                                                assert(groups@[a]@[b] == old_g[b]);
                                            }
                                        }
                                    }
                                }
                            }
                        },
                        None => {
                            let ghost kv = k@;
                            keys.push(k);
                            let mut g: Vec<Record> = Vec::new();
                            g.push(q);
                            groups.push(g);
                            proof {
                                let ni = (JoinData { index_keys: keys, indexed_data: groups, parent_alias, outer }).index();
                                assert(key_pos(old_index, kv).is_none());
                                assert(rows_view(g@) =~= seq![qv]);
                                assert(ni =~= index_add(old_index, kv, qv));
                            }
                        },
                    }
                },
                None => {},
            }
            i = i + 1;
        }
        assert(ps.subrange(0, i as int) =~= ps);
        JoinData { index_keys: keys, indexed_data: groups, parent_alias, outer }
    }
}

impl JoinData {
    /// Joins the child rows to the indexed parents (see `joined`). A child row
    /// is keyed by its own unqualified fields `child_fields`.
    pub fn join_children(&self, children: &Vec<Record>, child_fields: &Vec<String>, child_alias: &str) -> (r: Vec<Record>)
        requires
            self.wf(),
            all_wf(children@),
        ensures
            all_wf(r@),
            rows_view(r@) == joined(self.index(), rows_entries(children@), strings_view(child_fields@), child_alias@, self.is_outer()),
    {
        let ghost idx = self.index();
        let ghost fs = strings_view(child_fields@);
        let ghost cs = rows_entries(children@);
        let mut out: Vec<Record> = Vec::new();
        let mut matched: Vec<bool> = Vec::new();
        let mut t: usize = 0;
        while t < self.index_keys.len()
            invariant
                t <= self.index_keys@.len(),
                matched@.len() == t,
                forall|a: int| 0 <= a < t ==> !matched@[a],
            decreases self.index_keys@.len() - t,
        {
            matched.push(false);
            t = t + 1;
        }
        let mut j: usize = 0;
        while j < children.len()
            invariant
                self.wf(),
                idx == self.index(),
                fs == strings_view(child_fields@),
                cs == rows_entries(children@),
                all_wf(children@),
                j <= children@.len(),
                matched@.len() == idx.len(),
                forall|a: int| 0 <= a < idx.len() ==>
                    (#[trigger] matched@[a] <==> key_matched(idx[a].0, cs.subrange(0, j as int), fs)),
                all_wf(out@),
                rows_view(out@) == matched_rows(idx, cs.subrange(0, j as int), fs, child_alias@),
            decreases children@.len() - j,
        {
            let ghost prev = cs.subrange(0, j as int);
            let ghost cur = cs.subrange(0, j + 1);
            assert(cur.drop_last() =~= prev);
            assert(cur.last() == children@[j as int].seq());
            let child = &children[j];
            assert(child.wf());
            let key = row_key_exec(child, child_fields, None);
            let ghost ck = row_key(entries_map(cs[j as int]), fs, None);
            assert(opt_view(key) == ck);
            proof {
                assert forall|a: int| 0 <= a < idx.len() && (ck != Some(idx[a].0)) implies
                    (key_matched(idx[a].0, cur, fs) <==> key_matched(idx[a].0, prev, fs)) by {
                    if key_matched(idx[a].0, cur, fs) {
                        let w = choose|w: int| 0 <= w < cur.len() && row_key(entries_map(#[trigger] cur[w]), fs, None) == Some(idx[a].0);
                        assert(w < prev.len());
                        assert(prev[w] == cur[w]);
                    }
                    if key_matched(idx[a].0, prev, fs) {
                        let w = choose|w: int| 0 <= w < prev.len() && row_key(entries_map(#[trigger] prev[w]), fs, None) == Some(idx[a].0);
                        assert(prev[w] == cur[w]);
                    }
                }
            }
            match key {
                Some(k) => {
                    match find_key(&self.index_keys, &k) {
                        Some(pi) => {
                            proof {
                                assert(idx[pi as int].0 == k@);
                                assert(key_pos(idx, k@) == Some(pi as int));
                            }
                            matched.set(pi, true);
                            proof {
                                assert(key_matched(idx[pi as int].0, cur, fs)) by {
                                    assert(cur[j as int] == cs[j as int]);
                                }
                                assert forall|a: int| 0 <= a < idx.len() && a != pi implies ck != Some(idx[a].0) by {}
                            }
                            let group = &self.indexed_data[pi];
                            let ghost out0 = rows_view(out@);
                            let mut g: usize = 0;
                            while g < group.len()
                                invariant
                                    self.wf(),
                                    pi < self.indexed_data@.len(),
                                    group == &self.indexed_data@[pi as int],
                                    g <= group@.len(),
                                    all_wf(out@),
                                    rows_view(out@) == out0 + rows_view(group@).subrange(0, g as int).map_values(
                                        |p: Row| merged(p, child.seq(), child_alias@)),
                                decreases group@.len() - g,
                            {
                                assert(all_wf(self.indexed_data@[pi as int]@));
                                assert(group@[g as int].wf());
                                let m = merge_row(&group[g], child, child_alias);
                                let ghost before = out@;
                                out.push(m);
                                proof {
                                    assert(rows_view(out@) =~= rows_view(before).push(m.view()));
                                    let gs = rows_view(group@);
                                    assert(gs.subrange(0, g + 1).map_values(|p: Row| merged(p, child.seq(), child_alias@))
                                        =~= gs.subrange(0, g as int).map_values(|p: Row| merged(p, child.seq(), child_alias@)).push(m.view()));
                                    assert(rows_view(out@) =~= out0 + gs.subrange(0, g + 1).map_values(
                                        |p: Row| merged(p, child.seq(), child_alias@)));
                                }
                                g = g + 1;
                            }
                            proof {
                                assert(rows_view(group@).subrange(0, g as int) =~= rows_view(group@));
                                assert(idx[pi as int].1 == rows_view(group@));
                            }
                        },
                        None => {
                            proof {
                                assert(key_pos(idx, k@).is_none());
                                assert(rows_view(out@) =~= rows_view(out@) + Seq::<Row>::empty());
                            }
                        },
                    }
                },
                None => {
                    assert(rows_view(out@) =~= rows_view(out@) + Seq::<Row>::empty());
                },
            }
            j = j + 1;
        }
        assert(cs.subrange(0, j as int) =~= cs);
        if self.outer {
            let ghost base = rows_view(out@);
            let mut a: usize = 0;
            while a < self.index_keys.len()
                invariant
                    self.wf(),
                    idx == self.index(),
                    matched@.len() == idx.len(),
                    forall|b: int| 0 <= b < idx.len() ==> (#[trigger] matched@[b] <==> key_matched(idx[b].0, cs, fs)),
                    a <= idx.len(),
                    all_wf(out@),
                    rows_view(out@) == base + unmatched_rows(idx, cs, fs, a as int),
                decreases idx.len() - a,
            {
                if !matched[a] {
                    let group = &self.indexed_data[a];
                    let ghost out0 = rows_view(out@);
                    let mut g: usize = 0;
                    while g < group.len()
                        invariant
                            self.wf(),
                            a < self.indexed_data@.len(),
                            group == &self.indexed_data@[a as int],
                            g <= group@.len(),
                            all_wf(out@),
                            rows_view(out@) == out0 + rows_view(group@).subrange(0, g as int),
                        decreases group@.len() - g,
                    {
                        assert(all_wf(self.indexed_data@[a as int]@));
                        assert(group@[g as int].wf());
                        let c = group[g].copy();
                        let ghost before = out@;
                        out.push(c);
                        proof {
                            assert(rows_view(out@) =~= rows_view(before).push(c.view()));
                            assert(rows_view(group@).subrange(0, g + 1) =~= rows_view(group@).subrange(0, g as int).push(c.view()));
                            assert(rows_view(out@) =~= out0 + rows_view(group@).subrange(0, g + 1));
                        }
                        g = g + 1;
                    }
                    assert(rows_view(group@).subrange(0, g as int) =~= rows_view(group@));
                    assert(idx[a as int].1 == rows_view(group@));
                }
                assert(base + unmatched_rows(idx, cs, fs, a + 1) =~= rows_view(out@));
                a = a + 1;
            }
        } else {
            assert(rows_view(out@) =~= rows_view(out@) + Seq::<Row>::empty());
        }
        out
    }
}

pub type PairView = (Seq<char>, Seq<char>, Seq<char>, Seq<char>);

/// A side of an ON pair, `'list'.field` with spaces around it: the list name
/// and the field, both non-empty.
pub open spec fn parse_side(t: Seq<char>) -> Option<(Seq<char>, Seq<char>)> {
    let u = trim(t);
    if u.len() >= 1 && u[0] == '\'' {
        let q = find_from(u, "'"@, 1);
        if 1 < q && q + 2 < u.len() && u[q + 1] == '.' {
            Some((u.subrange(1, q), u.subrange(q + 2, u.len() as int)))
        } else {
            None
        }
    } else {
        None
    }
}

/// One equality `side = side`, split at the first "=".
pub open spec fn parse_pair(s: Seq<char>) -> Option<PairView> {
    let e = find_from(s, "="@, 0);
    if e >= s.len() {
        None
    } else {
        match (parse_side(s.subrange(0, e)), parse_side(s.subrange(e + 1, s.len() as int))) {
            (Some(a), Some(b)) => Some((a.0, a.1, b.0, b.1)),
            _ => None,
        }
    }
}

/// An ON clause: equalities joined by " AND "; none when any of them is malformed.
pub open spec fn parse_on(s: Seq<char>) -> Option<Seq<PairView>> {
    let parts = split_on(s, " AND "@);
    if forall|i: int| 0 <= i < parts.len() ==> (#[trigger] parse_pair(parts[i])).is_some() {
        Some(parts.map_values(|p: Seq<char>| parse_pair(p).unwrap()))
    } else {
        None
    }
}

fn parse_side_exec(v: &Vec<char>) -> (r: Option<(String, String)>)
    ensures
        match r {
            Some(p) => parse_side(v@) == Some((p.0@, p.1@)),
            None => parse_side(v@).is_none(),
        },
{
    let (a, b) = trim_bounds(v, 0, v.len());
    assert(v@.subrange(0, v@.len() as int) =~= v@);
    let u = sub_vec(v, a, b);
    if u.len() < 1 || u[0] != '\'' {
        return None;
    }
    let quote = chars_of("'");
    proof { reveal_strlit("'"); }
    let q = find_exec(&u, &quote, 1);
    if 1 < q && q < u.len() && u.len() - q > 2 && u[q + 1] == '.' {
        Some((string_of(&u, 1, q), string_of(&u, q + 2, u.len())))
    } else {
        None
    }
}

fn parse_pair_exec(v: &Vec<char>) -> (r: Option<JoinFieldPair>)
    ensures
        match r {
            Some(p) => parse_pair(v@) == Some(pair_view(p)),
            None => parse_pair(v@).is_none(),
        },
{
    let eq = chars_of("=");
    proof { reveal_strlit("="); }
    let e = find_exec(v, &eq, 0);
    if e >= v.len() {
        return None;
    }
    let left = sub_vec(v, 0, e);
    let right = sub_vec(v, e + 1, v.len());
    match (parse_side_exec(&left), parse_side_exec(&right)) {
        (Some(a), Some(b)) => Some(JoinFieldPair { list1_name: a.0, list1_field: a.1, list2_name: b.0, list2_field: b.1 }),
        _ => None,
    }
}

/// Parses an ON clause such as `'Orders'.CustomerId = 'Customers'.ID`;
/// several equalities are joined by " AND ". `None` when any is malformed.
pub fn parse_on_clause(on: &str) -> (r: Option<Vec<JoinFieldPair>>)
    ensures
        match r {
            Some(v) => parse_on(on@) == Some(pairs_view(v@)),
            None => parse_on(on@).is_none(),
        },
{
    let sep = chars_of(" AND ");
    proof { reveal_strlit(" AND "); }
    let mut rest = chars_of(on);
    let mut out: Vec<JoinFieldPair> = Vec::new();
    let ghost parts = split_on(on@, " AND "@);
    let ghost done: int = 0;
    loop
        invariant
            sep@ == " AND "@,
            sep@.len() == 5,
            parts == split_on(on@, " AND "@),
            0 <= done <= parts.len(),
            parts.subrange(done, parts.len() as int) == split_on(rest@, " AND "@),
            out@.len() == done,
            forall|i: int| 0 <= i < done ==> (#[trigger] parse_pair(parts[i])) == Some(pair_view(out@[i])),
        decreases rest@.len(),
    {
        let p = find_exec(&rest, &sep, 0);
        let seg = if p < rest.len() && rest.len() - p >= 5 { sub_vec(&rest, 0, p) } else { sub_vec(&rest, 0, rest.len()) };
        proof {
            assert(rest@.subrange(0, rest@.len() as int) =~= rest@);
            assert(split_on(rest@, " AND "@).len() >= 1);
            assert(done < parts.len());
            assert(parts[done] == parts.subrange(done, parts.len() as int)[0]);
            assert(parts[done] == split_on(rest@, " AND "@)[0]);
            assert(seg@ == parts[done]);
        }
        match parse_pair_exec(&seg) {
            Some(pair) => {
                out.push(pair);
            },
            None => {
                assert(parse_pair(parts[done]).is_none());
                return None;
            },
        }
        if p < rest.len() && rest.len() - p >= 5 {
            let next = sub_vec(&rest, p + 5, rest.len());
            proof {
                let sp = split_on(rest@, " AND "@);
                assert(sp.subrange(1, sp.len() as int) =~= split_on(next@, " AND "@));
                assert(parts.subrange(done + 1, parts.len() as int) =~= sp.subrange(1, sp.len() as int));
                done = done + 1;
            }
            rest = next;
        } else {
            proof {
                done = done + 1;
                assert(split_on(rest@, " AND "@).len() == 1);
                assert(done == parts.len());
                assert(parse_on(on@) == Some(pairs_view(out@))) by {
                    assert(parts.map_values(|p: Seq<char>| parse_pair(p).unwrap()) =~= pairs_view(out@));
                }
            }
            return Some(out);
        }
    }
}

proof fn lemma_insert_all_dom(m: Row, s: Entries, k: Seq<char>)
    ensures
        insert_all(m, s).dom().contains(k) <==> (m.dom().contains(k) || exists|i: int| 0 <= i < s.len() && s[i].0 == k),
    decreases s.len(),
{
    if s.len() > 0 {
        lemma_insert_all_dom(m, s.drop_last(), k);
        if exists|i: int| 0 <= i < s.len() - 1 && s.drop_last()[i].0 == k {
            let i = choose|i: int| 0 <= i < s.len() - 1 && s.drop_last()[i].0 == k;
            assert(s[i].0 == k);
        }
        if exists|i: int| 0 <= i < s.len() && s[i].0 == k {
            let i = choose|i: int| 0 <= i < s.len() && s[i].0 == k;
            if i < s.len() - 1 {
                assert(s.drop_last()[i].0 == k);
            }
        }
    }
}

/// A joined row carries all fields of both sides: every field of the parent
/// row, and every field of the child row under "child_alias.field".
pub proof fn joined_row_has_both_sides(p: Row, c: Entries, child_alias: Seq<char>)
    ensures
        forall|k: Seq<char>| p.dom().contains(k) ==> #[trigger] merged(p, c, child_alias).dom().contains(k),
        forall|i: int| 0 <= i < c.len() ==> merged(p, c, child_alias).dom().contains(child_alias + "."@ + (#[trigger] c[i]).0),
{
    let cq = c.map_values(|e: (Seq<char>, Option<Seq<char>>)| (child_alias + "."@ + e.0, e.1));
    assert forall|k: Seq<char>| p.dom().contains(k) implies #[trigger] merged(p, c, child_alias).dom().contains(k) by {
        lemma_insert_all_dom(p, cq, k);
    }
    assert forall|i: int| 0 <= i < c.len() implies merged(p, c, child_alias).dom().contains(child_alias + "."@ + (#[trigger] c[i]).0) by {
        lemma_insert_all_dom(p, cq, child_alias + "."@ + c[i].0);
        assert(cq[i].0 == child_alias + "."@ + c[i].0);
    }
}

} // verus!
