//! Fork-join iteration primitives: a parallel indexed map, and the generic
//! "evaluate all unordered pairs, then apply" pattern shared by collision
//! resolution and N-body gravity.
//!
//! The parallel regions only read a shared immutable snapshot and produce
//! owned output; every write-back pass is strictly sequential.

use vstd::prelude::*;

verus! {

use rayon::iter::{IndexedParallelIterator, IntoParallelIterator, ParallelIterator};

/// Relies on rayon's indexed parallel iterators: `(0..n).into_par_iter().map(f).collect()`
/// produces one result per index, in index order.  Each result is whatever a
/// call of `f` on that index may return.
#[verifier::external_body]
pub fn par_map<T: Send, F: Fn(usize) -> T + Sync>(n: usize, f: &F) -> (r: Vec<T>)
    requires
        forall|i: usize| i < n ==> call_requires(*f, (i,)),
    ensures
        r@.len() == n,
        forall|i: int| 0 <= i < n ==> call_ensures(*f, (i as usize,), #[trigger] r@[i]),
{
    (0..n).into_par_iter().map(|i| f(i)).collect()
}

/// One decision per unordered pair: `dec[i][j - i - 1]` is a value the
/// mapping may return on the pair `(i, j)` of the snapshot, for `i < j`.
pub open spec fn pair_decisions_ok<E, T, M: Fn(E, E) -> Option<(T, T)>>(
    s: Seq<E>,
    map: M,
    dec: Seq<Seq<Option<(T, T)>>>,
) -> bool {
    &&& dec.len() == s.len()
    &&& forall|i: int| 0 <= i < s.len() ==> (#[trigger] dec[i]).len() == s.len() - i - 1
    &&& forall|i: int, j: int|
        0 <= i < s.len() && i < j < s.len() ==> call_ensures(
            map,
            (s[i], s[j]),
            #[trigger] dec[i][j - i - 1],
        )
}

/// The indexed corrections of row `i`: for each decided pair `(i, j)`, the
/// entry for `i` and then the entry for `j`.
pub open spec fn row_results<T>(dec_row: Seq<Option<(T, T)>>, i: int) -> Seq<(usize, T)>
    decreases dec_row.len(),
{
    if dec_row.len() == 0 {
        Seq::empty()
    } else {
        row_results(dec_row.drop_last(), i) + (match dec_row.last() {
            Option::Some(t) => seq![
                ((i as usize), t.0),
                (((i + dec_row.len()) as usize), t.1),
            ],
            Option::None => Seq::empty(),
        })
    }
}

/// All indexed corrections of the first `k` rows, in row order.
pub open spec fn all_results<T>(dec: Seq<Seq<Option<(T, T)>>>, k: int) -> Seq<(usize, T)>
    decreases k,
{
    if k <= 0 {
        Seq::empty()
    } else {
        all_results(dec, k - 1) + row_results(dec[k - 1], k - 1)
    }
}

/// The state after the first `m` corrections have been applied, where
/// `outs[m]` is the element that the apply function produced at step `m`.
pub open spec fn chain_state<E, T>(
    s0: Seq<E>,
    rs: Seq<(usize, T)>,
    outs: Seq<E>,
    m: int,
) -> Seq<E>
    decreases m,
{
    if m <= 0 {
        s0
    } else {
        let s = chain_state(s0, rs, outs, m - 1);
        if (rs[m - 1].0 as int) < s.len() {
            s.update(rs[m - 1].0 as int, outs[m - 1])
        } else {
            s
        }
    }
}

/// Every step of the chain is an output the apply function admits on that
/// step's input element and correction.
pub open spec fn apply_chain_ok<E, T, A: Fn(E, T) -> E>(
    apply: A,
    s0: Seq<E>,
    rs: Seq<(usize, T)>,
    outs: Seq<E>,
) -> bool {
    &&& outs.len() == rs.len()
    &&& forall|m: int|
        0 <= m < rs.len() && (rs[m].0 as int) < s0.len() ==> call_ensures(
            apply,
            (chain_state(s0, rs, outs, m)[rs[m].0 as int], rs[m].1),
            #[trigger] outs[m],
        )
}

/// Collected results of the first `k` rows depend only on those rows.
pub proof fn lemma_all_results_prefix<T>(
    d1: Seq<Seq<Option<(T, T)>>>,
    d2: Seq<Seq<Option<(T, T)>>>,
    k: int,
)
    requires
        forall|j: int| 0 <= j < k ==> d1[j] == d2[j],
    ensures
        all_results(d1, k) == all_results(d2, k),
    decreases k,
{
    if k > 0 {
        lemma_all_results_prefix(d1, d2, k - 1);
    }
}

/// Evaluate one outer index's pairs against the snapshot, producing that
/// row's indexed corrections beside the ghost record of the row's decisions:
/// each decision is some value the mapping admits on its pair, and the
/// corrections are exactly those decisions' entries.
fn pair_row<E: Copy, T: Copy, M: Fn(E, E) -> Option<(T, T)>>(v: &Vec<E>, map: &M, i: usize) -> (r:
    (Vec<(usize, T)>, Ghost<Seq<Option<(T, T)>>>))
    requires
        i < v@.len(),
        forall|x: E, y: E| call_requires(*map, (x, y)),
    ensures
        r.1@.len() == v@.len() - i - 1,
        forall|j: int|
            i < j < v@.len() ==> call_ensures(
                *map,
                (v@[i as int], v@[j]),
                #[trigger] r.1@[j - i - 1],
            ),
        r.0@ == row_results(r.1@, i as int),
{
    let mut r: Vec<(usize, T)> = Vec::new();
    let ghost mut row: Seq<Option<(T, T)>> = Seq::empty();
    let n = v.len();
    proof {
        assert(r@ =~= row_results(row, i as int));
    }
    let mut j: usize = i + 1;
    while j < n
        invariant
            n == v@.len(),
            forall|x: E, y: E| call_requires(*map, (x, y)),
            i < n,
            i + 1 <= j <= n,
            row.len() == j - i - 1,
            forall|jj: int|
                i < jj < j ==> call_ensures(
                    *map,
                    (v@[i as int], v@[jj]),
                    #[trigger] row[jj - i - 1],
                ),
            r@ == row_results(row, i as int),
        decreases n - j,
    {
        let d = map(v[i], v[j]);
        if let Option::Some(t) = d {
            r.push((i, t.0));
            r.push((j, t.1));
        }
        proof {
            let prev = row;
            row = row.push(d);
            assert(row.drop_last() =~= prev);
            assert(row.last() == d);
            assert(r@ =~= row_results(row, i as int));
        }
        j = j + 1;
    }
    (r, Ghost(row))
}

/// Evaluate all unordered pairs of a collection against a read-only snapshot
/// — rows in parallel — then apply every produced correction in one
/// sequential pass.
///
/// The pair (`i`, `j`) with `i < j` contributes its first value to item `i`
/// and its second to item `j`; both contributions are applied in row order.
/// The ghost result holds the pair decisions and the applied outputs, pinning
/// the final state as the correction chain over them.
pub trait ForPairs<E: Copy + Sync>: View<V = Seq<E>> {
    fn par_for_pairs<T: Copy + Send, M: Fn(E, E) -> Option<(T, T)> + Sync, A: Fn(E, T) -> E>(
        &mut self,
        map: M,
        apply: A,
    ) -> (w: Ghost<(Seq<Seq<Option<(T, T)>>>, Seq<E>)>)
        requires
            forall|x: E, y: E| call_requires(map, (x, y)),
            forall|e: E, t: T| call_requires(apply, (e, t)),
        ensures
            pair_decisions_ok(old(self)@, map, w@.0),
            apply_chain_ok(apply, old(self)@, all_results(w@.0, old(self)@.len() as int), w@.1),
            final(self)@ == chain_state(
                old(self)@,
                all_results(w@.0, old(self)@.len() as int),
                w@.1,
                all_results(w@.0, old(self)@.len() as int).len() as int,
            ),
            final(self)@.len() == old(self)@.len(),
    ;
}

impl<E: Copy + Sync> ForPairs<E> for Vec<E> {
    fn par_for_pairs<T: Copy + Send, M: Fn(E, E) -> Option<(T, T)> + Sync, A: Fn(E, T) -> E>(
        &mut self,
        map: M,
        apply: A,
    ) -> (w: Ghost<(Seq<Seq<Option<(T, T)>>>, Seq<E>)>)
    {
        let ghost s0 = self@;
        let n = self.len();
        let mut results: Vec<(usize, T)> = Vec::new();
        let ghost mut dec: Seq<Seq<Option<(T, T)>>> = Seq::empty();
        {
            let v_ref = &*self;
            let map_ref = &map;
            let row_fn = |i: usize| -> (r: (Vec<(usize, T)>, Ghost<Seq<Option<(T, T)>>>))
                requires
                    i < v_ref@.len(),
                    forall|x: E, y: E| call_requires(*map_ref, (x, y)),
                ensures
                    r.1@.len() == v_ref@.len() - i - 1,
                    forall|j: int|
                        i < j < v_ref@.len() ==> call_ensures(
                            *map_ref,
                            (v_ref@[i as int], v_ref@[j]),
                            #[trigger] r.1@[j - i - 1],
                        ),
                    r.0@ == row_results(r.1@, i as int),
                { pair_row(v_ref, map_ref, i) };
            let mut rows = par_map(n, &row_fn);
            let mut i: usize = 0;
            #[verifier::loop_isolation(false)]
            while i < n
                invariant
                    rows@.len() == n,
                    forall|k: int|
                        i <= k < n ==> call_ensures(row_fn, (k as usize,), #[trigger] rows@[k]),
                    i <= n,
                    dec.len() == i,
                    forall|k: int| 0 <= k < i ==> (#[trigger] dec[k]).len() == n - k - 1,
                    forall|k: int, j: int|
                        0 <= k < i && k < j < n ==> call_ensures(
                            map,
                            (s0[k], s0[j]),
                            #[trigger] dec[k][j - k - 1],
                        ),
                    results@ == all_results(dec, i as int),
                decreases n - i,
            {
                proof {
                    assert(call_ensures(row_fn, (i,), rows@[i as int]));
                    let rd = rows@[i as int].1@;
                    let prev_dec = dec;
                    dec = dec.push(rd);
                    lemma_all_results_prefix(prev_dec, dec, i as int);
                    assert(dec[i as int] == rd);
                    assert(all_results(dec, i as int + 1) == all_results(dec, i as int)
                        + row_results(rd, i as int));
                }
                results.append(&mut rows[i].0);
                i = i + 1;
            }
        }
        let m = results.len();
        let ghost rs = results@;
        let ghost mut outs: Seq<E> = Seq::empty();
        let mut k: usize = 0;
        while k < m
            invariant
                m == results@.len(),
                results@ == rs,
                forall|e: E, t: T| call_requires(apply, (e, t)),
                k <= m,
                outs.len() == k,
                self@ == chain_state(s0, rs, outs, k as int),
                self@.len() == s0.len(),
                forall|mm: int|
                    0 <= mm < k && (rs[mm].0 as int) < s0.len() ==> call_ensures(
                        apply,
                        (chain_state(s0, rs, outs, mm)[rs[mm].0 as int], rs[mm].1),
                        #[trigger] outs[mm],
                    ),
            decreases m - k,
        {
            let ghost pre = self@;
            let (idx, t) = results[k];
            let ghost old_outs = outs;
            if idx < self.len() {
                let e = self[idx];
                let e2 = apply(e, t);
                self[idx] = e2;
                proof {
                    outs = outs.push(e2);
                }
            } else {
                proof {
                    outs = outs.push(s0[0]);
                }
            }
            proof {
                lemma_chain_prefix(s0, rs, outs, old_outs, k as int);
                assert(chain_state(s0, rs, outs, k as int) == pre);
                assert(self@ == chain_state(s0, rs, outs, k as int + 1));
                assert forall|mm: int|
                    0 <= mm < k + 1 && (rs[mm].0 as int) < s0.len() implies call_ensures(
                    apply,
                    (chain_state(s0, rs, outs, mm)[rs[mm].0 as int], rs[mm].1),
                    #[trigger] outs[mm],
                ) by {
                    lemma_chain_prefix(s0, rs, outs, old_outs, mm);
                    if mm == k {
                        assert(chain_state(s0, rs, outs, mm) == pre);
                    }
                }
            }
            k = k + 1;
        }
        Ghost((dec, outs))
    }
}

/// The chain state after `m` steps depends only on the first `m` outputs.
pub proof fn lemma_chain_prefix<E, T>(
    s0: Seq<E>,
    rs: Seq<(usize, T)>,
    o1: Seq<E>,
    o2: Seq<E>,
    m: int,
)
    requires
        forall|k: int| 0 <= k < m ==> o1[k] == o2[k],
    ensures
        chain_state(s0, rs, o1, m) == chain_state(s0, rs, o2, m),
    decreases m,
{
    if m > 0 {
        lemma_chain_prefix(s0, rs, o1, o2, m - 1);
    }
}

} // verus!

