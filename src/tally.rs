//! Counts keyed by an identifier, kept as a list of `(key, count)` pairs.
use vstd::prelude::*;

verus! {

/// The sum of the counts that `s` holds for `k`.
pub open spec fn tally(s: Seq<(i32, usize)>, k: i32) -> nat
    decreases s.len(),
{
    if s.len() == 0 {
        0
    } else {
        tally(s.drop_last(), k) + if s.last().0 == k {
            s.last().1 as nat
        } else {
            0
        }
    }
}

/// Each key occurs once, with a positive count.
pub open spec fn is_tally(s: Seq<(i32, usize)>) -> bool {
    &&& forall|i: int, j: int| 0 <= i < j < s.len() ==> (#[trigger] s[i]).0 != (#[trigger] s[j]).0
    &&& forall|i: int| 0 <= i < s.len() ==> (#[trigger] s[i]).1 > 0
}

/// A key that does not occur has count zero.
pub proof fn lemma_tally_absent(s: Seq<(i32, usize)>, k: i32)
    requires
        forall|i: int| 0 <= i < s.len() ==> (#[trigger] s[i]).0 != k,
    ensures
        tally(s, k) == 0,
    decreases s.len(),
{
    if s.len() > 0 {
        assert forall|i: int| 0 <= i < s.drop_last().len() implies (#[trigger] s.drop_last()[i]).0
            != k by {
            assert(s.drop_last()[i] == s[i]);
        }
        lemma_tally_absent(s.drop_last(), k);
    }
}

/// In a tally, the count of a listed key is the count beside it.
pub proof fn lemma_tally_entry(s: Seq<(i32, usize)>, j: int)
    requires
        is_tally(s),
        0 <= j < s.len(),
    ensures
        tally(s, s[j].0) == s[j].1,
    decreases s.len(),
{
    let d = s.drop_last();
    assert forall|i: int, t: int| 0 <= i < t < d.len() implies (#[trigger] d[i]).0 != (
    #[trigger] d[t]).0 by {
        assert(d[i] == s[i] && d[t] == s[t]);
    }
    assert forall|i: int| 0 <= i < d.len() implies (#[trigger] d[i]).1 > 0 by {
        assert(d[i] == s[i]);
    }
    if j == s.len() - 1 {
        assert forall|i: int| 0 <= i < d.len() implies (#[trigger] d[i]).0 != s[j].0 by {
            assert(d[i] == s[i]);
        }
        lemma_tally_absent(d, s[j].0);
    } else {
        assert(d[j] == s[j]);
        lemma_tally_entry(d, j);
    }
}

/// Raising the count at position `j` by one raises the tally of its key by one.
proof fn lemma_tally_bump(s: Seq<(i32, usize)>, j: int, k: i32)
    requires
        0 <= j < s.len(),
        s[j].0 == k,
        s[j].1 < usize::MAX,
    ensures
        forall|key: i32|
            tally(s.update(j, (k, (s[j].1 + 1) as usize)), key) == tally(s, key) + if key == k {
                1nat
            } else {
                0nat
            },
    decreases s.len(),
{
    let n = s.update(j, (k, (s[j].1 + 1) as usize));
    if j == s.len() - 1 {
        assert(n.drop_last() =~= s.drop_last());
    } else {
        assert(n.drop_last() =~= s.drop_last().update(j, (k, (s[j].1 + 1) as usize)));
        lemma_tally_bump(s.drop_last(), j, k);
        assert(n.last() == s.last());
    }
    assert forall|key: i32| tally(n, key) == tally(s, key) + if key == k {
        1nat
    } else {
        0nat
    } by {
        assert(tally(n, key) == tally(n.drop_last(), key) + if n.last().0 == key {
            n.last().1 as nat
        } else {
            0
        });
        assert(tally(s, key) == tally(s.drop_last(), key) + if s.last().0 == key {
            s.last().1 as nat
        } else {
            0
        });
    }
}

/// Counts one more `k`.
pub fn bump(res: &mut Vec<(i32, usize)>, k: i32)
    requires
        is_tally(old(res)@),
        tally(old(res)@, k) < usize::MAX,
    ensures
        is_tally(final(res)@),
        forall|key: i32|
            tally(#[trigger] final(res)@, key) == tally(old(res)@, key) + if key == k {
                1nat
            } else {
                0nat
            },
        final(res)@.len() == old(res)@.len() || final(res)@.len() == old(res)@.len() + 1,
        forall|i: int| 0 <= i < old(res)@.len() ==> (#[trigger] final(res)@[i]).0 == old(res)@[i].0,
        final(res)@.len() == old(res)@.len() + 1 ==> final(res)@[old(res)@.len() as int].0 == k,
{
    let ghost s = res@;
    let mut j: usize = 0;
    while j < res.len()
        invariant
            res@ == s,
            s == old(res)@,
            is_tally(s),
            tally(s, k) < usize::MAX,
            j <= s.len(),
            forall|t: int| 0 <= t < j ==> (#[trigger] s[t]).0 != k,
        decreases s.len() - j,
    {
        if res[j].0 == k {
            let c = res[j].1;
            proof {
                lemma_tally_entry(s, j as int);
                lemma_tally_bump(s, j as int, k);
            }
            res.set(j, (k, c + 1));
            assert(res@ =~= s.update(j as int, (k, (s[j as int].1 + 1) as usize)));
            assert forall|a: int, b: int| 0 <= a < b < res@.len() implies (#[trigger] res@[a]).0
                != (#[trigger] res@[b]).0 by {
                assert(res@[a].0 == s[a].0 && res@[b].0 == s[b].0);
            }
            return;
        }
        j += 1;
    }
    proof {
        lemma_tally_absent(s, k);
    }
    res.push((k, 1));
    assert(res@.drop_last() =~= s);
}

} // verus!
