//! Helpers of the report pages: the ids a page must resolve to names, and
//! the error a page shows.
use vstd::prelude::*;

verus! {

/// A participation row as the query service returns it to report pages.
#[derive(Debug, Clone)]
pub struct Killmail {
    pub killmail_id: i32,
    pub character_id: Option<i32>,
    pub corporation_id: Option<i32>,
    pub alliance_id: Option<i32>,
    pub ship_type_id: Option<i32>,
    pub damage: i32,
    pub is_victim: i32,
    pub solar_system_id: i32,
    pub killmail_time: String,
}

/// The ids a row names: its character, corporation, alliance and ship type
/// when present, and its solar system.
pub open spec fn row_ids(k: Killmail) -> Set<i32> {
    let s = set![k.solar_system_id];
    let s = if let Some(x) = k.character_id { s.insert(x) } else { s };
    let s = if let Some(x) = k.corporation_id { s.insert(x) } else { s };
    let s = if let Some(x) = k.alliance_id { s.insert(x) } else { s };
    if let Some(x) = k.ship_type_id { s.insert(x) } else { s }
}

/// The ids all rows name.
pub open spec fn all_ids(ks: Seq<Killmail>) -> Set<i32>
    decreases ks.len(),
{
    if ks.len() == 0 {
        Set::empty()
    } else {
        all_ids(ks.drop_last()).union(row_ids(ks.last()))
    }
}

pub open spec fn strictly_increasing(v: Seq<i32>) -> bool {
    forall|i: int, j: int| 0 <= i < j < v.len() ==> v[i] < v[j]
}

/// Adds `x` to a strictly increasing list, unless it is there.
fn insert_sorted(v: &mut Vec<i32>, x: i32)
    requires
        strictly_increasing(old(v)@),
    ensures
        strictly_increasing(final(v)@),
        final(v)@.to_set() == old(v)@.to_set().insert(x),
{
    let ghost s = v@;
    let mut i: usize = 0;
    while i < v.len() && v[i] < x
        invariant
            v@ == s,
            s == old(v)@,
            strictly_increasing(s),
            i <= s.len(),
            forall|t: int| 0 <= t < i ==> s[t] < x,
        decreases s.len() - i,
    {
        i += 1;
    }
    if i < v.len() && v[i] == x {
        assert(s[i as int] == x);
        assert(v@.to_set() =~= s.to_set().insert(x));
        return;
    }
    v.insert(i, x);
    assert(v@ == s.insert(i as int, x));
    assert forall|y: i32| v@.to_set().contains(y) == s.to_set().insert(x).contains(y) by {
        assert(v@.to_set().contains(y) == v@.contains(y));
        assert(s.to_set().contains(y) == s.contains(y));
        if s.contains(y) {
            let t = choose|t: int| 0 <= t < s.len() && s[t] == y;
            if t < i {
                assert(v@[t] == y);
            } else {
                assert(v@[t + 1] == y);
            }
        }
        if y == x {
            assert(v@[i as int] == x);
        }
        if v@.contains(y) {
            let t = choose|t: int| 0 <= t < v@.len() && v@[t] == y;
            if t < i {
                assert(s[t] == y);
            } else if t > i {
                assert(s[t - 1] == y);
            }
        }
    }
    assert(v@.to_set() =~= s.to_set().insert(x));
}

/// The distinct ids the rows name, in increasing order.
pub fn query_all_ids(killmails: &Vec<Killmail>) -> (r: Vec<i32>)
    ensures
        strictly_increasing(r@),
        r@.to_set() == all_ids(killmails@),
{
    let ghost ks = killmails@;
    let mut ids: Vec<i32> = Vec::new();
    let mut j: usize = 0;
    assert(ids@.to_set() =~= all_ids(ks.take(0)));
    while j < killmails.len()
        invariant
            ks == killmails@,
            j <= ks.len(),
            strictly_increasing(ids@),
            ids@.to_set() == all_ids(ks.take(j as int)),
        decreases ks.len() - j,
    {
        let row = &killmails[j];
        let ghost before = ids@;
        assert(ks.take(j + 1).drop_last() =~= ks.take(j as int));
        assert(ks.take(j + 1).last() == *row);
        match row.character_id {
            Some(x) => insert_sorted(&mut ids, x),
            None => {},
        }
        match row.corporation_id {
            Some(x) => insert_sorted(&mut ids, x),
            None => {},
        }
        match row.alliance_id {
            Some(x) => insert_sorted(&mut ids, x),
            None => {},
        }
        match row.ship_type_id {
            Some(x) => insert_sorted(&mut ids, x),
            None => {},
        }
        insert_sorted(&mut ids, row.solar_system_id);
        assert(all_ids(ks.take(j + 1)) == all_ids(ks.take(j as int)).union(row_ids(*row)));
        assert(ids@.to_set() =~= all_ids(ks.take(j + 1)));
        j += 1;
    }
    assert(ks.take(ks.len() as int) =~= ks);
    ids
}

/// The error a report page shows.
#[derive(Debug, Clone)]
pub struct Error {
    pub error: String,
}

impl Error {
    pub fn from(error: String) -> (r: Self)
        ensures
            r.error@ == error@,
    {
        Error { error }
    }
}

} // verus!
