//! Splitting parsed games into fixed-size batches.

use vstd::prelude::*;

verus! {

/// Batch `k` of `s` for batch size `bs`: items `k*bs` up to `(k+1)*bs`, or to the end.
pub open spec fn batch_at<T>(s: Seq<T>, bs: nat, k: int) -> Seq<T> {
    let lo = k * bs;
    let hi = if (k + 1) * bs <= s.len() {
        (k + 1) * bs
    } else {
        s.len() as int
    };
    s.subrange(lo, hi)
}

/// Number of batches: `s.len()` divided by `bs`, rounded up.
pub open spec fn batch_count(n: nat, bs: nat) -> nat {
    ((n + bs - 1) / (bs as int)) as nat
}

/// The batches of `s` for a requested size; a size of 0 counts as 1.
pub open spec fn spec_batches<T>(s: Seq<T>, batch_size: nat) -> Seq<Seq<T>> {
    let bs = if batch_size == 0 { 1 } else { batch_size };
    Seq::new(batch_count(s.len(), bs), |k: int| batch_at(s, bs, k))
}

/// Views of nested vectors.
pub open spec fn nested_view<T>(v: Seq<Vec<T>>) -> Seq<Seq<T>> {
    Seq::new(v.len(), |i: int| v[i]@)
}

/// Splits items into batches of at most `batch_size` items (at least one per batch),
/// keeping their order.
pub fn batch_games<T>(games: Vec<T>, batch_size: usize) -> (r: Vec<Vec<T>>)
    ensures
        nested_view(r@) == spec_batches(games@, batch_size as nat),
{
    let bs: usize = if batch_size == 0 { 1 } else { batch_size };
    let ghost all = games@;
    let mut batches: Vec<Vec<T>> = Vec::new();
    let mut cur: Vec<T> = Vec::new();
    let mut i: usize = 0;
    let n = games.len();
    assert(batches@.len() * bs + cur@.len() == 0) by (nonlinear_arith)
        requires
            batches@.len() == 0,
            cur@.len() == 0,
    ;
    for g in it: games.into_iter()
        invariant
            it.seq() == all,
            n == all.len(),
            i == it.index(),
            i <= all.len(),
            bs >= 1,
            bs == (if batch_size == 0 { 1 } else { batch_size }),
            batches@.len() * bs + cur@.len() == i,
            cur@.len() < bs,
            cur@ == all.subrange(batches@.len() * bs, i as int),
            forall|k: int|
                0 <= k < batches@.len() ==> #[trigger] batches@[k]@ == all.subrange(
                    k * bs,
                    (k + 1) * bs,
                ),
    {
        let ghost nb = batches@.len();
        let ghost before = batches@;
        assert(i < n);
        cur.push(g);
        i = i + 1;
        assert(cur@ =~= all.subrange(nb * bs, i as int));
        if cur.len() == bs {
            let full = cur;
            cur = Vec::new();
            batches.push(full);
            assert(nb * bs + bs == (nb + 1) * bs) by (nonlinear_arith);
            assert forall|k: int| 0 <= k < batches@.len() implies #[trigger] batches@[k]@
                == all.subrange(k * bs, (k + 1) * bs) by {
                if k < nb {
                    assert(batches@[k] == before[k]);
                }
            }
            assert(cur@ =~= all.subrange(batches@.len() * bs, i as int));
        }
    }
    let ghost nb = batches@.len();
    let ghost c = cur@.len();
    let ghost before = batches@;
    let ghost last = cur@;
    if cur.len() > 0 {
        batches.push(cur);
    }
    proof {
        lemma_batch_layout(all, bs as nat, nb, c);
        if c > 0 {
            assert(batches@.len() == before.len() + 1);
            assert(batches@[nb as int]@ == last);
        } else {
            assert(batches@ == before);
        }
        let want = spec_batches(all, batch_size as nat);
        assert forall|k: int| 0 <= k < batches@.len() implies #[trigger] nested_view(batches@)[k]
            == want[k] by {
            if k < nb {
                assert(batches@[k] == before[k]);
                assert(before[k]@ == all.subrange(k * bs, (k + 1) * bs));
            } else {
                assert(batches@[k]@ == last);
                assert(last == all.subrange((nb * bs) as int, all.len() as int));
            }
        }
    }
    assert(nested_view(batches@) =~= spec_batches(all, batch_size as nat));
    batches
}

/// Arithmetic of the final batch layout: `nb` full batches and `c` leftover items.
pub(crate) proof fn lemma_batch_layout<T>(all: Seq<T>, bs: nat, nb: nat, c: nat)
    requires
        bs >= 1,
        c < bs,
        nb * bs + c == all.len(),
    ensures
        batch_count(all.len(), bs) == nb + (if c > 0 { 1nat } else { 0nat }),
        c > 0 ==> nb * bs + bs > all.len(),
        forall|k: int| 0 <= k < nb ==> #[trigger] batch_at(all, bs, k) == all.subrange(k * bs, (k + 1) * bs),
        c > 0 ==> batch_at(all, bs, nb as int) == all.subrange((nb * bs) as int, all.len() as int),
{
    let n = all.len();
    assert(((nb * bs + c + bs - 1) as int) / (bs as int) == nb + (c + bs - 1) / (bs as int)) by {
        vstd::arithmetic::div_mod::lemma_hoist_over_denominator((c + bs - 1) as int, nb as int, bs);
        assert((c + bs - 1) + nb * bs == nb * bs + c + bs - 1);
    }
    if c > 0 {
        assert((c + bs - 1) / (bs as int) == 1) by {
            vstd::arithmetic::div_mod::lemma_div_pos_is_pos((c + bs - 1) as int, bs as int);
            vstd::arithmetic::div_mod::lemma_fundamental_div_mod((c + bs - 1) as int, bs as int);
            assert((c + bs - 1) < 2 * bs);
            let q = (c + bs - 1) / (bs as int);
            let r = (c + bs - 1) % (bs as int);
            assert(0 <= r < bs) by { vstd::arithmetic::div_mod::lemma_mod_bound((c + bs - 1) as int, bs as int); }
            assert(q < 2) by (nonlinear_arith) requires bs * q + r == c + bs - 1, c + bs - 1 < 2 * bs, r >= 0, bs >= 1;
            assert(q >= 1) by (nonlinear_arith) requires bs * q + r == c + bs - 1, c >= 1, r < bs, bs >= 1;
        }
    } else {
        assert((bs - 1) as int / (bs as int) == 0) by {
            vstd::arithmetic::div_mod::lemma_basic_div((bs - 1) as int, bs as int);
        }
    }
    assert forall|k: int| 0 <= k < nb implies #[trigger] batch_at(all, bs, k) == all.subrange(k * bs, (k + 1) * bs) by {
        assert((k + 1) * bs <= nb * bs) by (nonlinear_arith) requires 0 <= k < nb, bs >= 1;
    }
    assert(c > 0 ==> nb * bs + bs > n);
    assert(nb * bs + bs == (nb + 1) * bs) by (nonlinear_arith);
}

/// Law: every item lands in batch `j / bs` at position `j % bs`, so batching keeps
/// the items in order and loses none.
pub proof fn lemma_batch_position<T>(s: Seq<T>, batch_size: nat, j: int)
    requires
        0 <= j < s.len(),
    ensures
        ({
            let bs = if batch_size == 0 { 1 } else { batch_size };
            let b = spec_batches(s, batch_size);
            &&& j / (bs as int) < b.len()
            &&& j % (bs as int) < b[j / (bs as int)].len()
            &&& b[j / (bs as int)][j % (bs as int)] == s[j]
        }),
{
    let bs = if batch_size == 0 { 1nat } else { batch_size };
    let k = j / (bs as int);
    let m = j % (bs as int);
    vstd::arithmetic::div_mod::lemma_fundamental_div_mod(j, bs as int);
    vstd::arithmetic::div_mod::lemma_mod_bound(j, bs as int);
    assert(k >= 0) by { vstd::arithmetic::div_mod::lemma_div_pos_is_pos(j, bs as int); }
    assert(k * bs + m == j) by (nonlinear_arith) requires bs * k + m == j;
    let n = s.len();
    assert(k < batch_count(n, bs)) by {
        assert(((n + bs - 1) as int) / (bs as int) >= k + 1) by {
            assert((k + 1) * bs <= n + bs - 1) by (nonlinear_arith) requires k * bs + m == j, j < n, 0 <= m;
            vstd::arithmetic::div_mod::lemma_div_is_ordered(((k + 1) * bs) as int, (n + bs - 1) as int, bs as int);
            vstd::arithmetic::div_mod::lemma_div_by_multiple(k + 1, bs as int);
        }
    }
    let lo = k * bs;
    let hi = if (k + 1) * bs <= n { (k + 1) * bs } else { n as int };
    assert(lo + m < hi) by (nonlinear_arith) requires lo == k * bs, k * bs + m == j, j < n, m < bs, hi == (if (k + 1) * bs <= n { (k + 1) * bs } else { n as int });
    assert(spec_batches(s, batch_size)[k] == s.subrange(lo, hi));
}

/// The sequences of `ss`, one after another.
pub open spec fn concat_seqs<T>(ss: Seq<Seq<T>>) -> Seq<T>
    decreases ss.len(),
{
    if ss.len() == 0 {
        Seq::empty()
    } else {
        concat_seqs(ss.drop_last()) + ss.last()
    }
}

proof fn lemma_batch_count_bounds(n: nat, bs: nat)
    requires
        bs >= 1,
    ensures
        batch_count(n, bs) * bs >= n,
        batch_count(n, bs) >= 1 ==> (batch_count(n, bs) - 1) * bs < n,
        n == 0 ==> batch_count(n, bs) == 0,
{
    let c = batch_count(n, bs) as int;
    let t = (n + bs - 1) as int;
    vstd::arithmetic::div_mod::lemma_fundamental_div_mod(t, bs as int);
    vstd::arithmetic::div_mod::lemma_mod_bound(t, bs as int);
    let r = t % (bs as int);
    assert(bs * c + r == t);
    assert(c * bs >= n) by (nonlinear_arith) requires bs * c + r == t, t == n + bs - 1, r < bs;
    if c >= 1 {
        assert((c - 1) * bs < n) by (nonlinear_arith) requires bs * c + r == t, t == n + bs - 1, r >= 0;
    }
    if n == 0 {
        vstd::arithmetic::div_mod::lemma_basic_div((bs - 1) as int, bs as int);
    }
}

proof fn lemma_batches_prefix<T>(s: Seq<T>, bs: nat, m: int)
    requires
        bs >= 1,
        0 <= m <= batch_count(s.len(), bs),
    ensures
        concat_seqs(Seq::new(m as nat, |k: int| batch_at(s, bs, k))) == s.take(
            if m * bs <= s.len() { m * bs } else { s.len() as int },
        ),
    decreases m,
{
    let n = s.len() as int;
    if m == 0 {
        assert(m * bs == 0) by (nonlinear_arith) requires m == 0;
        assert(concat_seqs(Seq::new(m as nat, |k: int| batch_at(s, bs, k))) =~= s.take(0));
    } else {
        lemma_batches_prefix(s, bs, m - 1);
        lemma_batch_count_bounds(s.len(), bs);
        let prev = Seq::new((m - 1) as nat, |k: int| batch_at(s, bs, k));
        let cur = Seq::new(m as nat, |k: int| batch_at(s, bs, k));
        assert(cur.drop_last() =~= prev);
        assert((m - 1) * bs < n) by (nonlinear_arith)
            requires
                m <= batch_count(s.len(), bs),
                (batch_count(s.len(), bs) - 1) * bs < n,
                bs >= 1;
        assert((m - 1) * bs + bs == m * bs) by (nonlinear_arith);
        assert(concat_seqs(prev) == s.take((m - 1) * bs));
        assert(cur.last() == batch_at(s, bs, m - 1));
        assert(concat_seqs(cur) == concat_seqs(prev) + batch_at(s, bs, m - 1));
        assert(s.take((m - 1) * bs) + batch_at(s, bs, m - 1) =~= s.take(
            if m * bs <= n { m * bs } else { n },
        ));
        assert(concat_seqs(cur) == s.take(if m * bs <= n { m * bs } else { n }));
    }
}

/// Law: the batches, one after another, are the items in their order, and every batch
/// but the last holds exactly the batch size (a requested size of 0 counting as 1),
/// the last between one and that size.
pub proof fn lemma_batches_concat_and_sizes<T>(s: Seq<T>, batch_size: nat)
    ensures
        ({
            let bs = if batch_size == 0 { 1 } else { batch_size };
            let b = spec_batches(s, batch_size);
            &&& concat_seqs(b) == s
            &&& forall|k: int| 0 <= k < b.len() - 1 ==> (#[trigger] b[k]).len() == bs
            &&& b.len() > 0 ==> 1 <= b.last().len() <= bs
            &&& s.len() == 0 <==> b.len() == 0
        }),
{
    let bs = if batch_size == 0 { 1nat } else { batch_size };
    let n = s.len() as int;
    let c = batch_count(s.len(), bs) as int;
    lemma_batch_count_bounds(s.len(), bs);
    lemma_batches_prefix(s, bs, c);
    let b = spec_batches(s, batch_size);
    assert(b =~= Seq::new(c as nat, |k: int| batch_at(s, bs, k)));
    assert(s.take(n) =~= s);
    assert forall|k: int| 0 <= k < b.len() - 1 implies (#[trigger] b[k]).len() == bs by {
        assert((k + 1) * bs <= (c - 1) * bs) by (nonlinear_arith) requires k + 1 <= c - 1, bs >= 1;
        assert((k + 1) * bs == k * bs + bs) by (nonlinear_arith);
    }
    if c > 0 {
        assert(c * bs == (c - 1) * bs + bs) by (nonlinear_arith);
    }
    if n > 0 {
        assert(c >= 1) by {
            if c == 0 {
                assert(c * bs == 0) by (nonlinear_arith) requires c == 0;
            }
        }
    }
}

} // verus!
