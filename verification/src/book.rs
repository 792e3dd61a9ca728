//! Grouping corpus move statistics by position for the opening book export.

use vstd::prelude::*;

verus! {

/// The message of an export from an empty opening-move table.
pub open spec fn spec_empty_book_message() -> Seq<char> {
    "opening_moves is empty; run `gambit-ingest refresh-stats` after import first"@
}

/// The message of an export from an empty opening-move table.
pub fn empty_book_message() -> (r: String)
    ensures
        r@ == spec_empty_book_message(),
{
    crate::text::owned("opening_moves is empty; run `gambit-ingest refresh-stats` after import first")
}

/// The key a row is grouped under: its position hash read as unsigned.
pub open spec fn book_key(hash: i64) -> u64 {
    hash as u64
}

/// The values of the rows whose key is `k`, in row order.
pub open spec fn values_for<T>(rows: Seq<(i64, T)>, k: u64) -> Seq<T>
    decreases rows.len(),
{
    if rows.len() == 0 {
        Seq::empty()
    } else {
        let rest = values_for(rows.drop_last(), k);
        if book_key(rows.last().0) == k {
            rest.push(rows.last().1)
        } else {
            rest
        }
    }
}

/// The grouping of `rows` is `g`: keys strictly increasing, each key's values those
/// of its rows in row order (never none), and every row's key present.
pub open spec fn is_grouping<T>(rows: Seq<(i64, T)>, g: Seq<(u64, Seq<T>)>) -> bool {
    &&& forall|a: int, b: int| 0 <= a < b < g.len() ==> g[a].0 < g[b].0
    &&& forall|j: int|
        0 <= j < g.len() ==> (#[trigger] g[j]).1 == values_for(rows, g[j].0) && g[j].1.len() > 0
    &&& forall|i: int|
        0 <= i < rows.len() ==> exists|j: int| 0 <= j < g.len() && g[j].0 == book_key(#[trigger] rows[i].0)
}

/// Groups as plain values.
pub open spec fn groups_view<T>(g: Seq<(u64, Vec<T>)>) -> Seq<(u64, Seq<T>)> {
    Seq::new(g.len(), |j: int| (g[j].0, g[j].1@))
}

proof fn lemma_values_for_absent<T>(rows: Seq<(i64, T)>, k: u64)
    requires
        forall|i: int| 0 <= i < rows.len() ==> book_key(#[trigger] rows[i].0) != k,
    ensures
        values_for(rows, k).len() == 0,
    decreases rows.len(),
{
    if rows.len() > 0 {
        lemma_values_for_absent(rows.drop_last(), k);
    }
}

/// Groups rows of (position hash, value) by hash read as unsigned, in increasing
/// order of that key; each group keeps its values in row order.
pub fn group_by_hash<T>(rows: Vec<(i64, T)>) -> (r: Vec<(u64, Vec<T>)>)
    ensures
        is_grouping(rows@, groups_view(r@)),
{
    let ghost all = rows@;
    let mut groups: Vec<(u64, Vec<T>)> = Vec::new();
    for row in it: rows.into_iter()
        invariant
            it.seq() == all,
            is_grouping(all.take(it.index() as int), groups_view(groups@)),
    {
        let ghost i = it.index();
        let ghost before = all.take(i as int);
        let ghost after = all.take(i + 1);
        let ghost g0 = groups_view(groups@);
        proof {
            assert(after.drop_last() == before);
            assert(after.last() == all[i as int]);
            assert(row == all[i as int]);
        }
        let (hash, value) = row;
        let key = hash as u64;
        let n = groups.len();
        let mut p: usize = 0;
        while p < groups.len() && groups[p].0 < key
            invariant
                p <= groups@.len(),
                n == groups@.len(),
                g0 == groups_view(groups@),
                forall|q: int| 0 <= q < p ==> #[trigger] g0[q].0 < key,
            decreases groups@.len() - p,
        {
            p = p + 1;
        }
        if p < groups.len() && groups[p].0 == key {
            let (k, mut vals) = groups.remove(p);
            vals.push(value);
            groups.insert(p, (k, vals));
            proof {
                let g1 = groups_view(groups@);
                assert(g1 =~= g0.update(p as int, (key, g0[p as int].1.push(value))));
                assert forall|j: int| 0 <= j < g1.len() implies (#[trigger] g1[j]).1 == values_for(
                    after,
                    g1[j].0,
                ) && g1[j].1.len() > 0 by {
                    assert(values_for(after, g1[j].0) == if book_key(after.last().0) == g1[j].0 {
                        values_for(before, g1[j].0).push(after.last().1)
                    } else {
                        values_for(before, g1[j].0)
                    });
                    if j != p {
                        assert(g0[j].0 != key);
                    }
                }
                assert forall|x: int| 0 <= x < after.len() implies exists|j: int|
                    0 <= j < g1.len() && g1[j].0 == book_key(#[trigger] after[x].0) by {
                    if x < before.len() {
                        assert(after[x] == before[x]);
                        let j = choose|j: int| 0 <= j < g0.len() && g0[j].0 == book_key(before[x].0);
                        assert(g1[j].0 == g0[j].0);
                    } else {
                        assert(g1[p as int].0 == key);
                    }
                }
            }
        } else {
            let mut vals: Vec<T> = Vec::new();
            vals.push(value);
            groups.insert(p, (key, vals));
            proof {
                let g1 = groups_view(groups@);
                assert(g1 =~= g0.insert(p as int, (key, seq![value])));
                // No earlier row has this key: every key so far is in a group, and
                // none of the groups has it.
                assert forall|x: int| 0 <= x < before.len() implies book_key(#[trigger] before[x].0)
                    != key by {
                    let j = choose|j: int| 0 <= j < g0.len() && g0[j].0 == book_key(before[x].0);
                    if j < p {
                    } else if j == p {
                    } else {
                        assert(g0[p as int].0 < g0[j].0);
                    }
                }
                lemma_values_for_absent(before, key);
                assert forall|a: int, b: int| 0 <= a < b < g1.len() implies g1[a].0 < g1[b].0 by {
                    if b < p {
                    } else if b == p {
                        assert(g1[a] == g0[a]);
                    } else if a < p {
                        assert(g1[b] == g0[b - 1]);
                        if b - 1 > p {
                            assert(g0[p as int].0 < g0[b - 1].0);
                        }
                    } else if a == p {
                        assert(g1[b] == g0[b - 1]);
                        if b - 1 > p {
                            assert(g0[p as int].0 < g0[b - 1].0);
                        }
                    } else {
                        assert(g1[a] == g0[a - 1]);
                        assert(g1[b] == g0[b - 1]);
                    }
                }
                assert forall|j: int| 0 <= j < g1.len() implies (#[trigger] g1[j]).1 == values_for(
                    after,
                    g1[j].0,
                ) && g1[j].1.len() > 0 by {
                    assert(values_for(after, g1[j].0) == if book_key(after.last().0) == g1[j].0 {
                        values_for(before, g1[j].0).push(after.last().1)
                    } else {
                        values_for(before, g1[j].0)
                    });
                    if j < p {
                        assert(g1[j] == g0[j]);
                    } else if j == p {
                        assert(values_for(before, key) =~= Seq::<T>::empty());
                        assert(seq![value] =~= Seq::<T>::empty().push(value));
                    } else {
                        assert(g1[j] == g0[j - 1]);
                        if j - 1 > p {
                            assert(g0[p as int].0 < g0[j - 1].0);
                        }
                        assert(g0[j - 1].0 != key);
                    }
                }
                assert forall|x: int| 0 <= x < after.len() implies exists|j: int|
                    0 <= j < g1.len() && g1[j].0 == book_key(#[trigger] after[x].0) by {
                    if x < before.len() {
                        assert(after[x] == before[x]);
                        let j = choose|j: int| 0 <= j < g0.len() && g0[j].0 == book_key(before[x].0);
                        if j < p {
                            assert(g1[j] == g0[j]);
                        } else {
                            assert(g1[j + 1] == g0[j]);
                        }
                    } else {
                        assert(g1[p as int].0 == key);
                    }
                }
            }
        }
    }
    assert(all.take(all.len() as int) == all);
    groups
}

} // verus!
