use vstd::prelude::*;
use crate::record::{Record, opt_view};
use crate::text::{starts_with, has_prefix, concat3};

verus! {

/// The attribute prefix that marks a field of a row element.
pub open spec fn field_prefix() -> Seq<char> {
    "ows_"@
}

/// The record key of field `name`: qualified by the list alias when asked.
pub open spec fn field_key(name: Seq<char>, alias: Seq<char>, qualify: bool) -> Seq<char> {
    if qualify {
        alias + "."@ + name
    } else {
        name
    }
}

/// The record that a row element with attributes `attrs` stands for: each
/// attribute named `ows_<name>` sets `<name>` (a later one wins); other
/// attributes are ignored.
pub open spec fn decoded(attrs: Seq<(Seq<char>, Seq<char>)>, alias: Seq<char>, qualify: bool)
    -> Map<Seq<char>, Option<Seq<char>>>
    decreases attrs.len(),
{
    if attrs.len() == 0 {
        Map::empty()
    } else {
        let m = decoded(attrs.drop_last(), alias, qualify);
        let (k, v) = attrs.last();
        if starts_with(k, field_prefix()) {
            m.insert(field_key(k.subrange(4, k.len() as int), alias, qualify), Some(v))
        } else {
            m
        }
    }
}

pub open spec fn attrs_view(attrs: Seq<(String, String)>) -> Seq<(Seq<char>, Seq<char>)> {
    attrs.map_values(|a: (String, String)| (a.0@, a.1@))
}

/// Builds the record of one row element from its attributes, stripping the
/// `ows_` prefix and, when `qualify` holds, prefixing `alias.`.
pub fn decode_row(attrs: &Vec<(String, String)>, alias: &str, qualify: bool) -> (r: Record)
    ensures
        r.wf(),
        r.view() == decoded(attrs_view(attrs@), alias@, qualify),
{
    let mut r = Record::new();
    let mut i: usize = 0;
    proof { reveal_strlit("ows_"); }
    while i < attrs.len()
        invariant
            i <= attrs@.len(),
            r.wf(),
            r.view() == decoded(attrs_view(attrs@).subrange(0, i as int), alias@, qualify),
        decreases attrs@.len() - i,
    {
        let ghost pre = attrs_view(attrs@).subrange(0, i as int + 1);
        assert(pre.drop_last() =~= attrs_view(attrs@).subrange(0, i as int));
        let key = attrs[i].0.as_str();
        proof { reveal_strlit("ows_"); }
        if has_prefix(key, "ows_") {
            let name = key.substring_char(4, key.unicode_len());
            let k = if qualify {
                concat3(alias, ".", name)
            } else {
                String::from_str(name)
            };
            r.insert(k, Some(attrs[i].1.clone()));
        }
        i = i + 1;
    }
    assert(attrs_view(attrs@).subrange(0, i as int) =~= attrs_view(attrs@));
    r
}

/// The continuation token named by the attributes of the data element: the
/// last non-empty `ListItemCollectionPositionNext`, if any.
pub open spec fn token_of(attrs: Seq<(Seq<char>, Seq<char>)>) -> Option<Seq<char>>
    decreases attrs.len(),
{
    if attrs.len() == 0 {
        None
    } else {
        let (k, v) = attrs.last();
        if k == "ListItemCollectionPositionNext"@ && v.len() > 0 {
            Some(v)
        } else {
            token_of(attrs.drop_last())
        }
    }
}

/// Reads the next-page token from the attributes of the data element.
pub fn page_token(attrs: &Vec<(String, String)>) -> (r: Option<String>)
    ensures
        opt_view(r) == token_of(attrs_view(attrs@)),
{
    let mut i: usize = attrs.len();
    assert(attrs_view(attrs@).subrange(0, i as int) =~= attrs_view(attrs@));
    while i > 0
        invariant
            i <= attrs@.len(),
            token_of(attrs_view(attrs@)) == token_of(attrs_view(attrs@).subrange(0, i as int)),
        decreases i,
    {
        let ghost pre = attrs_view(attrs@).subrange(0, i as int);
        assert(pre.drop_last() =~= attrs_view(attrs@).subrange(0, i - 1));
        if crate::text::str_eq(attrs[i - 1].0.as_str(), "ListItemCollectionPositionNext")
            && attrs[i - 1].1.unicode_len() > 0 {
            return Some(attrs[i - 1].1.clone());
        }
        i = i - 1;
    }
    assert(attrs_view(attrs@).subrange(0, 0) =~= Seq::<(Seq<char>, Seq<char>)>::empty());
    None
}

/// A row whose one attribute is `ows_<name>` decodes to the record that maps
/// `<name>` to its value: the prefix is stripped.
pub proof fn decode_strips_prefix(name: Seq<char>, value: Seq<char>, alias: Seq<char>)
    ensures
        decoded(seq![("ows_"@ + name, value)], alias, false)
            == Map::<Seq<char>, Option<Seq<char>>>::empty().insert(name, Some(value)),
{
    reveal_strlit("ows_");
    let attrs = seq![("ows_"@ + name, value)];
    let k = "ows_"@ + name;
    assert(attrs.drop_last() =~= Seq::<(Seq<char>, Seq<char>)>::empty());
    assert(k.subrange(0, 4) =~= "ows_"@);
    assert(k.subrange(4, k.len() as int) =~= name);
    assert(starts_with(k, field_prefix()));
    assert(attrs.last() == (k, value));
    assert(decoded(attrs.drop_last(), alias, false) == Map::<Seq<char>, Option<Seq<char>>>::empty());
    assert(field_key(k.subrange(4, k.len() as int), alias, false) == name);
}

} // verus!
