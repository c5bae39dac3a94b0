//! A bounded cache from names to ids, owned by whoever resolves names.
//!
//! Each of the three tables (characters, corporations, alliances) holds at
//! most `capacity` names.  A name already cached keeps its first id; a new
//! name is appended, and when its table is full the oldest name leaves.
use vstd::prelude::*;

use crate::evetech::{EveItem, SearchCategory, SearchResult};
use crate::evetech::same_text;

verus! {

/// A table as names and ids.
pub open spec fn table_view(t: Seq<(String, i32)>) -> Seq<(Seq<char>, i32)> {
    t.map_values(|e: (String, i32)| (e.0@, e.1))
}

/// The position of the first entry for `name`, or -1.
pub open spec fn name_index(t: Seq<(Seq<char>, i32)>, name: Seq<char>) -> int
    decreases t.len(),
{
    if t.len() == 0 {
        -1
    } else {
        let p = name_index(t.drop_last(), name);
        if p >= 0 {
            p
        } else if t.last().0 == name {
            t.len() - 1
        } else {
            -1
        }
    }
}

/// The id cached for `name`, if any.
pub open spec fn lookup(t: Seq<(Seq<char>, i32)>, name: Seq<char>) -> Option<i32> {
    if name_index(t, name) >= 0 {
        Some(t[name_index(t, name)].1)
    } else {
        None
    }
}

/// The table after caching `name` with `id`.
pub open spec fn cache_one(t: Seq<(Seq<char>, i32)>, name: Seq<char>, id: i32, cap: nat) -> Seq<
    (Seq<char>, i32),
> {
    if name_index(t, name) >= 0 {
        t
    } else if t.len() < cap {
        t.push((name, id))
    } else {
        t.drop_first().push((name, id))
    }
}

/// The table after caching each item, in order.
pub open spec fn cache_all(t: Seq<(Seq<char>, i32)>, items: Seq<EveItem>, cap: nat) -> Seq<
    (Seq<char>, i32),
>
    decreases items.len(),
{
    if items.len() == 0 {
        t
    } else {
        let before = cache_all(t, items.drop_last(), cap);
        cache_one(before, items.last().name@, items.last().id, cap)
    }
}

/// The table after caching the items of an optional list.
pub open spec fn cache_list(t: Seq<(Seq<char>, i32)>, items: Option<Vec<EveItem>>, cap: nat) -> Seq<
    (Seq<char>, i32),
> {
    match items {
        Some(v) => cache_all(t, v@, cap),
        None => t,
    }
}

/// Names resolved to ids, by category, each table bounded by `capacity`.
pub struct IdProvider {
    characters: Vec<(String, i32)>,
    corporations: Vec<(String, i32)>,
    alliances: Vec<(String, i32)>,
    capacity: usize,
}

impl IdProvider {
    /// The table of a category; the categories not cached have none.
    pub closed spec fn table(&self, c: SearchCategory) -> Seq<(Seq<char>, i32)> {
        match c {
            SearchCategory::Character => table_view(self.characters@),
            SearchCategory::Corporation => table_view(self.corporations@),
            SearchCategory::Alliance => table_view(self.alliances@),
            _ => Seq::empty(),
        }
    }

    pub closed spec fn capacity(&self) -> nat {
        self.capacity as nat
    }

    pub open spec fn wf(&self) -> bool {
        &&& self.capacity() > 0
        &&& forall|c: SearchCategory| #[trigger] self.table(c).len() <= self.capacity()
    }

    #[verifier::type_invariant]
    spec fn inv(&self) -> bool {
        self.wf()
    }

    /// An empty cache whose tables hold at most `capacity` names each.
    pub fn new(capacity: usize) -> (r: IdProvider)
        requires
            capacity > 0,
        ensures
            r.wf(),
            r.capacity() == capacity,
            forall|c: SearchCategory| r.table(c) == Seq::<(Seq<char>, i32)>::empty(),
    {
        let r = IdProvider {
            characters: Vec::new(),
            corporations: Vec::new(),
            alliances: Vec::new(),
            capacity,
        };
        assert forall|c: SearchCategory| r.table(c) == Seq::<(Seq<char>, i32)>::empty() by {
            assert(r.table(c) =~= Seq::<(Seq<char>, i32)>::empty());
        }
        r
    }

    /// The id cached for `name` in `category`.
    pub fn find_id(&self, name: &str, category: SearchCategory) -> (r: Option<i32>)
        ensures
            r == lookup(self.table(category), name@),
            category != SearchCategory::Character && category != SearchCategory::Corporation
                && category != SearchCategory::Alliance ==> r is None,
    {
        match category {
            SearchCategory::Character => find_in(&self.characters, name),
            SearchCategory::Corporation => find_in(&self.corporations, name),
            SearchCategory::Alliance => find_in(&self.alliances, name),
            _ => None,
        }
    }

    /// Caches the characters, corporations and alliances a search found.
    pub fn update(&mut self, result: &SearchResult)
        ensures
            final(self).wf(),
            final(self).capacity() == old(self).capacity(),
            final(self).table(SearchCategory::Character) == cache_list(
                old(self).table(SearchCategory::Character),
                result.characters,
                old(self).capacity(),
            ),
            final(self).table(SearchCategory::Corporation) == cache_list(
                old(self).table(SearchCategory::Corporation),
                result.corporations,
                old(self).capacity(),
            ),
            final(self).table(SearchCategory::Alliance) == cache_list(
                old(self).table(SearchCategory::Alliance),
                result.alliances,
                old(self).capacity(),
            ),
    {
        proof {
            use_type_invariant(&*self);
        }
        let cap = self.capacity;
        assert(self.table(SearchCategory::Character).len() <= cap);
        assert(self.table(SearchCategory::Corporation).len() <= cap);
        assert(self.table(SearchCategory::Alliance).len() <= cap);
        let mut taken = IdProvider::new(cap);
        std::mem::swap(self, &mut taken);
        let IdProvider { mut characters, mut corporations, mut alliances, capacity } = taken;
        match &result.characters {
            Some(items) => cache_items(&mut characters, items, cap),
            None => {},
        }
        match &result.corporations {
            Some(items) => cache_items(&mut corporations, items, cap),
            None => {},
        }
        match &result.alliances {
            Some(items) => cache_items(&mut alliances, items, cap),
            None => {},
        }
        let updated = IdProvider { characters, corporations, alliances, capacity };
        assert forall|c: SearchCategory| #[trigger] updated.table(c).len() <= updated.capacity() by {
            match c {
                SearchCategory::Character => {},
                SearchCategory::Corporation => {},
                SearchCategory::Alliance => {},
                _ => {},
            }
        }
        *self = updated;
    }
}

/// The id cached for `name` in table `t`.
fn find_in(t: &Vec<(String, i32)>, name: &str) -> (r: Option<i32>)
    ensures
        r == lookup(table_view(t@), name@),
{
    let ghost v = table_view(t@);
    let mut i: usize = 0;
    while i < t.len()
        invariant
            v == table_view(t@),
            i <= t@.len(),
            name_index(v.take(i as int), name@) == -1,
        decreases t@.len() - i,
    {
        assert(v.take(i + 1).drop_last() =~= v.take(i as int));
        if same_text(t[i].0.as_str(), name) {
            proof {
                lemma_name_index_prefix(v, (i + 1) as int, name@);
            }
            return Some(t[i].1);
        }
        i += 1;
    }
    assert(v.take(v.len() as int) =~= v);
    None
}

/// `name_index` on a prefix agrees with `name_index` on the whole once it finds.
proof fn lemma_name_index_prefix(t: Seq<(Seq<char>, i32)>, n: int, name: Seq<char>)
    requires
        0 <= n <= t.len(),
        name_index(t.take(n), name) >= 0,
    ensures
        name_index(t, name) == name_index(t.take(n), name),
    decreases t.len() - n,
{
    if n < t.len() {
        assert(t.take(n + 1).drop_last() =~= t.take(n));
        lemma_name_index_prefix(t, n + 1, name);
    } else {
        assert(t.take(n) =~= t);
    }
}

/// Caches each item in table `t`, in order.
fn cache_items(t: &mut Vec<(String, i32)>, items: &Vec<EveItem>, cap: usize)
    requires
        cap > 0,
        old(t)@.len() <= cap,
    ensures
        final(t)@.len() <= cap,
        table_view(final(t)@) == cache_all(table_view(old(t)@), items@, cap as nat),
{
    let ghost start = table_view(t@);
    let mut j: usize = 0;
    while j < items.len()
        invariant
            cap > 0,
            t@.len() <= cap,
            j <= items@.len(),
            table_view(t@) == cache_all(start, items@.take(j as int), cap as nat),
        decreases items@.len() - j,
    {
        let item = &items[j];
        let ghost before = table_view(t@);
        assert(items@.take(j + 1).drop_last() =~= items@.take(j as int));
        assert(items@.take(j + 1).last() == *item);
        if find_in(t, item.name.as_str()).is_none() {
            proof {
                lemma_name_index_none(before, item.name@);
            }
            if t.len() >= cap {
                t.remove(0);
                assert(table_view(t@) =~= before.drop_first());
            }
            let ghost mid = t@;
            let entry = (item.name.clone(), item.id);
            t.push(entry);
            assert(table_view(t@) =~= table_view(mid).push((item.name@, item.id)));
        } else {
            proof {
                lemma_name_index_none(before, item.name@);
            }
        }
        j += 1;
    }
    assert(items@.take(items@.len() as int) =~= items@);
}

/// `lookup` finds nothing exactly when `name_index` is -1.
proof fn lemma_name_index_none(t: Seq<(Seq<char>, i32)>, name: Seq<char>)
    ensures
        -1 <= name_index(t, name) < t.len(),
        (lookup(t, name) is None) == (name_index(t, name) == -1),
    decreases t.len(),
{
    if t.len() > 0 {
        lemma_name_index_none(t.drop_last(), name);
    }
}

} // verus!
