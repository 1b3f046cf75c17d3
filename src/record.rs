use vstd::prelude::*;

verus! {

/// A field value as the contracts see it: absent value or its characters.
pub open spec fn opt_view(o: Option<String>) -> Option<Seq<char>> {
    match o {
        Some(s) => Some(s@),
        None => None,
    }
}

pub open spec fn entry_view(e: (String, Option<String>)) -> (Seq<char>, Option<Seq<char>>) {
    (e.0@, opt_view(e.1))
}

/// The map that a sequence of entries stands for; a later entry wins.
pub open spec fn entries_map(s: Seq<(Seq<char>, Option<Seq<char>>)>) -> Map<Seq<char>, Option<Seq<char>>>
    decreases s.len(),
{
    if s.len() == 0 {
        Map::empty()
    } else {
        entries_map(s.drop_last()).insert(s.last().0, s.last().1)
    }
}

pub open spec fn keys_unique(s: Seq<(Seq<char>, Option<Seq<char>>)>) -> bool {
    forall|i: int, j: int| 0 <= i < s.len() && 0 <= j < s.len() && i != j ==> s[i].0 != s[j].0
}

/// The entries after setting `k` to `v`: the entry of `k` is updated in
/// place, or a new one is added at the end.
pub open spec fn insert_entry(s: Seq<(Seq<char>, Option<Seq<char>>)>, k: Seq<char>, v: Option<Seq<char>>)
    -> Seq<(Seq<char>, Option<Seq<char>>)>
{
    if exists|i: int| 0 <= i < s.len() && s[i].0 == k {
        s.update(choose|i: int| 0 <= i < s.len() && s[i].0 == k, (k, v))
    } else {
        s.push((k, v))
    }
}

/// One row of a list: field names mapped to optional values.
pub struct Record {
    entries: Vec<(String, Option<String>)>,
}

pub(crate) fn clone_opt(o: &Option<String>) -> (r: Option<String>)
    ensures
        r == *o,
{
    match o {
        Some(s) => Some(s.clone()),
        None => None,
    }
}

proof fn lemma_map_contains(s: Seq<(Seq<char>, Option<Seq<char>>)>, k: Seq<char>)
    ensures
        entries_map(s).dom().contains(k) <==> exists|i: int| 0 <= i < s.len() && s[i].0 == k,
    decreases s.len(),
{
    if s.len() > 0 {
        lemma_map_contains(s.drop_last(), k);
        if exists|i: int| 0 <= i < s.len() && s[i].0 == k {
            let i = choose|i: int| 0 <= i < s.len() && s[i].0 == k;
            if i < s.len() - 1 {
                assert(s.drop_last()[i].0 == k);
            }
        }
        if exists|i: int| 0 <= i < s.len() - 1 && s.drop_last()[i].0 == k {
            let i = choose|i: int| 0 <= i < s.len() - 1 && s.drop_last()[i].0 == k;
            assert(s[i].0 == k);
        }
    }
}

proof fn lemma_map_at(s: Seq<(Seq<char>, Option<Seq<char>>)>, i: int)
    requires
        keys_unique(s),
        0 <= i < s.len(),
    ensures
        entries_map(s)[s[i].0] == s[i].1,
        entries_map(s).dom().contains(s[i].0),
    decreases s.len(),
{
    if i < s.len() - 1 {
        lemma_map_at(s.drop_last(), i);
    }
}

proof fn lemma_map_update(s: Seq<(Seq<char>, Option<Seq<char>>)>, i: int, v: Option<Seq<char>>)
    requires
        keys_unique(s),
        0 <= i < s.len(),
    ensures
        entries_map(s.update(i, (s[i].0, v))) == entries_map(s).insert(s[i].0, v),
    decreases s.len(),
{
    let t = s.update(i, (s[i].0, v));
    if i == s.len() - 1 {
        assert(t.drop_last() =~= s.drop_last());
        assert(entries_map(t) =~= entries_map(s).insert(s[i].0, v));
    } else {
        lemma_map_update(s.drop_last(), i, v);
        assert(t.drop_last() =~= s.drop_last().update(i, (s[i].0, v)));
        assert(entries_map(t) =~= entries_map(s).insert(s[i].0, v));
    }
}

impl Record {
    /// The stored (name, value) pairs, in storage order.
    pub closed spec fn seq(&self) -> Seq<(Seq<char>, Option<Seq<char>>)> {
        self.entries@.map_values(|e: (String, Option<String>)| entry_view(e))
    }

    /// The field map.
    pub open spec fn view(&self) -> Map<Seq<char>, Option<Seq<char>>> {
        entries_map(self.seq())
    }

    /// Field names are unique.
    pub open spec fn wf(&self) -> bool {
        keys_unique(self.seq())
    }

    /// A record without fields.
    pub fn new() -> (r: Record)
        ensures
            r.wf(),
            r.view() == Map::<Seq<char>, Option<Seq<char>>>::empty(),
    {
        let r = Record { entries: Vec::new() };
        assert(r.entries@.map_values(|e: (String, Option<String>)| entry_view(e)) =~= Seq::empty());
        r
    }

    /// Number of fields.
    pub fn len(&self) -> (n: usize)
        requires
            self.wf(),
        ensures
            n == self.view().dom().len(),
    {
        proof { self.lemma_dom_len(); }
        self.entries.len()
    }

    proof fn lemma_dom_len(&self)
        requires
            self.wf(),
        ensures
            self.view().dom().len() == self.entries@.len(),
    {
        let s = self.entries@.map_values(|e: (String, Option<String>)| entry_view(e));
        lemma_unique_dom_len(s);
    }

    /// Index of the entry for `key`, if any.
    fn find(&self, key: &str) -> (r: Option<usize>)
        ensures
            match r {
                Some(i) => i < self.entries@.len() && self.entries@[i as int].0@ == key@,
                None => forall|i: int| 0 <= i < self.entries@.len() ==> self.entries@[i].0@ != key@,
            },
    {
        let mut i: usize = 0;
        while i < self.entries.len()
            invariant
                i <= self.entries@.len(),
                forall|j: int| 0 <= j < i ==> self.entries@[j].0@ != key@,
            decreases self.entries@.len() - i,
        {
            if crate::text::str_eq(self.entries[i].0.as_str(), key) {
                return Some(i);
            }
            i = i + 1;
        }
        None
    }

    /// The value stored under `key`: `None` when the field is absent,
    /// `Some(None)` when it is present without a value.
    pub fn get(&self, key: &str) -> (r: Option<Option<String>>)
        requires
            self.wf(),
        ensures
            match r {
                Some(v) => self.view().dom().contains(key@) && self.view()[key@] == opt_view(v),
                None => !self.view().dom().contains(key@),
            },
    {
        let ghost s = self.entries@.map_values(|e: (String, Option<String>)| entry_view(e));
        match self.find(key) {
            Some(i) => {
                proof { lemma_map_at(s, i as int); }
                Some(clone_opt(&self.entries[i].1))
            },
            None => {
                proof { lemma_map_contains(s, key@); }
                None
            },
        }
    }

    /// A copy with the same entries in the same order.
    pub fn copy(&self) -> (r: Record)
        ensures
            r.seq() == self.seq(),
    {
        let mut entries: Vec<(String, Option<String>)> = Vec::new();
        let mut i: usize = 0;
        while i < self.entries.len()
            invariant
                i <= self.entries@.len(),
                entries@.len() == i,
                forall|j: int| 0 <= j < i ==> entries@[j] == self.entries@[j],
            decreases self.entries@.len() - i,
        {
            let e = &self.entries[i];
            entries.push((e.0.clone(), clone_opt(&e.1)));
            i = i + 1;
        }
        let r = Record { entries };
        assert(r.seq() =~= self.seq());
        r
    }

    /// Sets the field `key` to `value`, replacing any earlier value.
    pub fn insert(&mut self, key: String, value: Option<String>)
        requires
            old(self).wf(),
        ensures
            final(self).wf(),
            final(self).view() == old(self).view().insert(key@, opt_view(value)),
            final(self).seq() == insert_entry(old(self).seq(), key@, opt_view(value)),
    {
        let ghost s = self.entries@.map_values(|e: (String, Option<String>)| entry_view(e));
        match self.find(key.as_str()) {
            Some(i) => {
                proof { lemma_map_update(s, i as int, opt_view(value)); }
                self.entries.set(i, (key, value));
                assert(self.entries@.map_values(|e: (String, Option<String>)| entry_view(e))
                    =~= s.update(i as int, (s[i as int].0, opt_view(value))));
            },
            None => {
                let ghost kv = key@;
                let ghost vv = opt_view(value);
                self.entries.push((key, value));
                let ghost t = self.entries@.map_values(|e: (String, Option<String>)| entry_view(e));
                assert(t =~= s.push((kv, vv)));
                assert(t.drop_last() =~= s);
            },
        }
    }

    /// The fields as (name, value) pairs, in storage order.
    pub fn entries(&self) -> (r: &Vec<(String, Option<String>)>)
        ensures
            r@.map_values(|e: (String, Option<String>)| entry_view(e)) == self.seq(),
    {
        &self.entries
    }
}

proof fn lemma_unique_dom_len(s: Seq<(Seq<char>, Option<Seq<char>>)>)
    requires
        keys_unique(s),
    ensures
        entries_map(s).dom().len() == s.len(),
        entries_map(s).dom().finite(),
    decreases s.len(),
{
    if s.len() > 0 {
        let t = s.drop_last();
        assert(keys_unique(t));
        lemma_unique_dom_len(t);
        lemma_map_contains(t, s.last().0);
        assert(!entries_map(t).dom().contains(s.last().0));
    }
}

} // verus!
