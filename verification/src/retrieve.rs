//! Hybrid retrieval: the vector ranking and the keyword ranking are fused by
//! reciprocal-rank fusion (RRF), score = Σ 1 / (RRF_K + rank), rank counted from 1.
use vstd::prelude::*;
use crate::text::chars_of;

verus! {

/// The RRF constant.
pub const RRF_K: u64 = 60;

/// How many entries of each ranking take part.
pub const CANDIDATES: usize = 30;

/// A common denominator of every RRF term: the least common multiple of
/// `RRF_K + 1 ..= RRF_K + CANDIDATES`. Scores are kept as exact numerators over it.
pub const RRF_DENOM: u128 = 698657301827002832768885427796800;

/// The numerator, over `RRF_DENOM`, of the RRF term for 0-based position `p`.
pub open spec fn rrf_weight(p: int) -> int {
    RRF_DENOM as int / (RRF_K + 1 + p)
}

/// Every term is exact: `rrf_weight(p) / RRF_DENOM == 1 / (RRF_K + 1 + p)`.
pub proof fn lemma_weight_exact(p: int)
    requires
        0 <= p < CANDIDATES,
    ensures
        rrf_weight(p) * (RRF_K + 1 + p) == RRF_DENOM,
{
    if p == 0 {
        assert(698657301827002832768885427796800int % 61 == 0);
    } else if p == 1 {
        assert(698657301827002832768885427796800int % 62 == 0);
    } else if p == 2 {
        assert(698657301827002832768885427796800int % 63 == 0);
    } else if p == 3 {
        assert(698657301827002832768885427796800int % 64 == 0);
    } else if p == 4 {
        assert(698657301827002832768885427796800int % 65 == 0);
    } else if p == 5 {
        assert(698657301827002832768885427796800int % 66 == 0);
    } else if p == 6 {
        assert(698657301827002832768885427796800int % 67 == 0);
    } else if p == 7 {
        assert(698657301827002832768885427796800int % 68 == 0);
    } else if p == 8 {
        assert(698657301827002832768885427796800int % 69 == 0);
    } else if p == 9 {
        assert(698657301827002832768885427796800int % 70 == 0);
    } else if p == 10 {
        assert(698657301827002832768885427796800int % 71 == 0);
    } else if p == 11 {
        assert(698657301827002832768885427796800int % 72 == 0);
    } else if p == 12 {
        assert(698657301827002832768885427796800int % 73 == 0);
    } else if p == 13 {
        assert(698657301827002832768885427796800int % 74 == 0);
    } else if p == 14 {
        assert(698657301827002832768885427796800int % 75 == 0);
    } else if p == 15 {
        assert(698657301827002832768885427796800int % 76 == 0);
    } else if p == 16 {
        assert(698657301827002832768885427796800int % 77 == 0);
    } else if p == 17 {
        assert(698657301827002832768885427796800int % 78 == 0);
    } else if p == 18 {
        assert(698657301827002832768885427796800int % 79 == 0);
    } else if p == 19 {
        assert(698657301827002832768885427796800int % 80 == 0);
    } else if p == 20 {
        assert(698657301827002832768885427796800int % 81 == 0);
    } else if p == 21 {
        assert(698657301827002832768885427796800int % 82 == 0);
    } else if p == 22 {
        assert(698657301827002832768885427796800int % 83 == 0);
    } else if p == 23 {
        assert(698657301827002832768885427796800int % 84 == 0);
    } else if p == 24 {
        assert(698657301827002832768885427796800int % 85 == 0);
    } else if p == 25 {
        assert(698657301827002832768885427796800int % 86 == 0);
    } else if p == 26 {
        assert(698657301827002832768885427796800int % 87 == 0);
    } else if p == 27 {
        assert(698657301827002832768885427796800int % 88 == 0);
    } else if p == 28 {
        assert(698657301827002832768885427796800int % 89 == 0);
    } else if p == 29 {
        assert(698657301827002832768885427796800int % 90 == 0);
    }
    assert(RRF_DENOM as int == (RRF_DENOM as int / (RRF_K + 1 + p)) * (RRF_K + 1 + p)) by (nonlinear_arith)
        requires
            (RRF_DENOM as int) % (RRF_K + 1 + p) == 0,
            RRF_K + 1 + p > 0,
    ;
}

/// The part of the score of `id` that the first `n` entries of list `l` give.
pub open spec fn list_score(l: Seq<i64>, id: i64, n: int) -> int
    decreases n,
{
    if n <= 0 {
        0
    } else {
        list_score(l, id, n - 1) + if l[n - 1] == id {
            rrf_weight(n - 1)
        } else {
            0
        }
    }
}

/// How many entries of a ranking take part.
pub open spec fn cut_len(l: Seq<i64>) -> int {
    if l.len() < CANDIDATES {
        l.len() as int
    } else {
        CANDIDATES as int
    }
}

/// The fused score of `id`, as a numerator over `RRF_DENOM`.
pub open spec fn rrf_score(v: Seq<i64>, f: Seq<i64>, id: i64) -> int {
    list_score(v, id, cut_len(v)) + list_score(f, id, cut_len(f))
}

/// `id` occurs among the entries that take part.
pub open spec fn is_candidate(v: Seq<i64>, f: Seq<i64>, id: i64) -> bool {
    v.take(cut_len(v)).contains(id) || f.take(cut_len(f)).contains(id)
}

/// The ranking that `rrf_fuse` returns: ids with their scores, best first.
pub open spec fn is_fused_ranking(v: Seq<i64>, f: Seq<i64>, top_k: int, r: Seq<(i64, u128)>) -> bool {
    &&& r.len() <= top_k
    &&& forall|i: int| 0 <= i < r.len() ==> is_candidate(v, f, (#[trigger] r[i]).0)
    &&& forall|i: int| 0 <= i < r.len() ==> (#[trigger] r[i]).1 == rrf_score(v, f, r[i].0)
    &&& forall|i: int, j: int| 0 <= i < j < r.len() ==> r[i].0 != r[j].0
    &&& forall|i: int, j: int| 0 <= i < j < r.len() ==> r[i].1 >= r[j].1
    &&& forall|x: i64|
        is_candidate(v, f, x) && !(exists|i: int| 0 <= i < r.len() && r[i].0 == x) ==> {
            &&& r.len() == top_k
            &&& forall|j: int| 0 <= j < r.len() ==> rrf_score(v, f, x) <= (#[trigger] r[j]).1
        }
}

proof fn lemma_weight_bounds(p: int)
    requires
        0 <= p < CANDIDATES,
    ensures
        0 < rrf_weight(p) <= rrf_weight(0),
{
    lemma_weight_exact(p);
    lemma_weight_exact(0);
    assert(rrf_weight(p) > 0) by (nonlinear_arith)
        requires
            rrf_weight(p) * (61 + p) == RRF_DENOM,
            61 + p > 0,
    ;
    assert(RRF_DENOM as int / (61 + p) <= RRF_DENOM as int / 61) by (nonlinear_arith)
        requires
            p >= 0,
    {
        vstd::arithmetic::div_mod::lemma_div_is_ordered_by_denominator(RRF_DENOM as int, 61, 61 + p);
    }
}

proof fn lemma_list_score_bound(l: Seq<i64>, id: i64, n: int)
    requires
        0 <= n <= CANDIDATES,
        n <= l.len(),
    ensures
        0 <= list_score(l, id, n) <= n * rrf_weight(0),
    decreases n,
{
    if n > 0 {
        lemma_list_score_bound(l, id, n - 1);
        lemma_weight_bounds(n - 1);
        assert((n - 1) * rrf_weight(0) + rrf_weight(0) == n * rrf_weight(0)) by (nonlinear_arith);
    }
}

proof fn lemma_list_score_absent(l: Seq<i64>, id: i64, n: int)
    requires
        0 <= n <= l.len(),
        !l.take(n).contains(id),
    ensures
        list_score(l, id, n) == 0,
    decreases n,
{
    if n > 0 {
        assert(l.take(n)[n - 1] == l[n - 1]);
        if l.take(n - 1).contains(id) {
            let i = choose|i: int| 0 <= i < n - 1 && #[trigger] l.take(n - 1)[i] == id;
            assert(l.take(n)[i] == id);
        }
        lemma_list_score_absent(l, id, n - 1);
    }
}

/// Exact weight of position `p`.
fn weight(p: usize) -> (w: u128)
    requires
        p < CANDIDATES,
    ensures
        w == rrf_weight(p as int),
{
    RRF_DENOM / (61 + p as u128)
}

/// Adds the first `cut_len(l)` entries of `l` to the candidate table.
fn add_ranking(l: &Vec<i64>, cands: &mut Vec<i64>, scores: &mut Vec<u128>, Ghost(base): Ghost<
    spec_fn(i64) -> int,
>, Ghost(bound): Ghost<int>)
    requires
        old(cands).len() == old(scores).len(),
        forall|i: int, j: int| 0 <= i < j < old(cands).len() ==> old(cands)@[i] != old(cands)@[j],
        forall|k: int| 0 <= k < old(cands).len() ==> (#[trigger] old(scores)@[k]) == base(old(cands)@[k]),
        forall|x: i64| 0 <= #[trigger] base(x) <= bound,
        forall|x: i64| !old(cands)@.contains(x) ==> #[trigger] base(x) == 0,
        0 <= bound <= 30 * rrf_weight(0),
    ensures
        final(cands).len() == final(scores).len(),
        forall|i: int, j: int| 0 <= i < j < final(cands).len() ==> final(cands)@[i] != final(cands)@[j],
        forall|k: int| 0 <= k < final(cands).len() ==> (#[trigger] final(scores)@[k]) == base(final(cands)@[k])
            + list_score(l@, final(cands)@[k], cut_len(l@)),
        forall|x: i64| #[trigger] final(cands)@.contains(x) <==> (old(cands)@.contains(x) || l@.take(
            cut_len(l@),
        ).contains(x)),
{
    let n = if l.len() < CANDIDATES {
        l.len()
    } else {
        CANDIDATES
    };
    let ghost c0 = cands@;
    let mut p: usize = 0;
    proof {
        assert forall|k: int| 0 <= k < cands.len() implies (#[trigger] scores@[k]) == base(cands@[k])
            + list_score(l@, cands@[k], 0) by {}
        assert(l@.take(0) =~= Seq::<i64>::empty());
    }
    while p < n
        invariant
            n == cut_len(l@),
            n <= l.len(),
            p <= n,
            cands.len() == scores.len(),
            forall|i: int, j: int| 0 <= i < j < cands.len() ==> cands@[i] != cands@[j],
            forall|k: int| 0 <= k < cands.len() ==> (#[trigger] scores@[k]) == base(cands@[k])
                + list_score(l@, cands@[k], p as int),
            forall|x: i64| 0 <= #[trigger] base(x) <= bound,
            forall|x: i64| !c0.contains(x) ==> #[trigger] base(x) == 0,
            0 <= bound <= 30 * rrf_weight(0),
            forall|x: i64| #[trigger] cands@.contains(x) <==> (c0.contains(x) || l@.take(p as int).contains(x)),
        decreases n - p,
    {
        let id = l[p];
        let w = weight(p);
        let mut k: usize = 0;
        let mut found = false;
        while k < cands.len() && !found
            invariant
                k <= cands.len(),
                found ==> (k < cands.len() && cands@[k as int] == id),
                !found ==> forall|q: int| 0 <= q < k ==> cands@[q] != id,
            decreases cands.len() - k + (if found {
                0int
            } else {
                1int
            }),
        {
            if cands[k] == id {
                found = true;
            } else {
                k = k + 1;
            }
        }
        let ghost old_c = cands@;
        let ghost old_s = scores@;
        proof {
            lemma_weight_bounds(p as int);
            assert(l@.take(p + 1) =~= l@.take(p as int).push(id));
        }
        if found {
            proof {
                lemma_list_score_bound(l@, id, p as int);
                assert(base(id) + list_score(l@, id, p as int) + w <= 30 * rrf_weight(0) + 30 * rrf_weight(0) + rrf_weight(0)) by (nonlinear_arith)
                    requires
                        base(id) <= 30 * rrf_weight(0),
                        list_score(l@, id, p as int) <= p * rrf_weight(0),
                        p < 30,
                        w <= rrf_weight(0),
                        rrf_weight(0) >= 0,
                ;
                assert(rrf_weight(0) == RRF_DENOM as int / 61);
            }
            let s = scores[k] + w;
            scores.set(k, s);
            proof {
                assert forall|q: int| 0 <= q < cands.len() implies (#[trigger] scores@[q]) == base(cands@[q])
                    + list_score(l@, cands@[q], p + 1) by {
                    if q != k {
                        assert(scores@[q] == old_s[q]);
                    }
                }
                assert forall|x: i64| #[trigger] cands@.contains(x) <==> (c0.contains(x) || l@.take(p + 1).contains(x)) by {
                    if l@.take(p + 1).contains(x) && !l@.take(p as int).contains(x) {
                        let i = choose|i: int| 0 <= i < p + 1 && #[trigger] l@.take(p + 1)[i] == x;
                        if i < p {
                            assert(l@.take(p as int)[i] == x);
                        }
                        assert(x == id);
                        assert(cands@[k as int] == x);
                    }
                    if l@.take(p as int).contains(x) {
                        let i = choose|i: int| 0 <= i < p && #[trigger] l@.take(p as int)[i] == x;
                        assert(l@.take(p + 1)[i] == x);
                    }
                }
            }
        } else {
            proof {
                if cands@.contains(id) {
                    let i = choose|i: int| 0 <= i < cands.len() && #[trigger] cands@[i] == id;
                    assert(false);
                }
                lemma_list_score_absent(l@, id, p as int);
                assert(base(id) == 0);
            }
            cands.push(id);
            scores.push(w);
            proof {
                assert forall|i: int, j: int| 0 <= i < j < cands.len() implies cands@[i] != cands@[j] by {
                    if j == cands.len() - 1 {
                        assert(old_c[i] != id);
                    } else {
                        assert(cands@[i] == old_c[i] && cands@[j] == old_c[j]);
                    }
                }
                assert forall|q: int| 0 <= q < cands.len() implies (#[trigger] scores@[q]) == base(cands@[q])
                    + list_score(l@, cands@[q], p + 1) by {
                    if q < cands.len() - 1 {
                        assert(scores@[q] == old_s[q]);
                        assert(cands@[q] == old_c[q]);
                        assert(old_c[q] != id);
                    }
                }
                assert forall|x: i64| #[trigger] cands@.contains(x) <==> (c0.contains(x) || l@.take(p + 1).contains(x)) by {
                    if cands@.contains(x) {
                        let i = choose|i: int| 0 <= i < cands.len() && #[trigger] cands@[i] == x;
                        if i < cands.len() - 1 {
                            assert(old_c[i] == x);
                            assert(old_c.contains(x));
                        } else {
                            assert(l@.take(p + 1)[p as int] == x);
                        }
                    }
                    if old_c.contains(x) {
                        let i = choose|i: int| 0 <= i < old_c.len() && #[trigger] old_c[i] == x;
                        assert(cands@[i] == x);
                    }
                    if l@.take(p + 1).contains(x) {
                        let i = choose|i: int| 0 <= i < p + 1 && #[trigger] l@.take(p + 1)[i] == x;
                        if i < p {
                            assert(l@.take(p as int)[i] == x);
                            assert(old_c.contains(x));
                            let m = choose|m: int| 0 <= m < old_c.len() && #[trigger] old_c[m] == x;
                            assert(cands@[m] == x);
                        } else {
                            assert(cands@[cands.len() - 1] == x);
                        }
                    }
                }
            }
        }
        p = p + 1;
    }
}

/// Candidate indices ordered by score, best first; equal scores keep table order.
fn order_by_score(scores: &Vec<u128>) -> (order: Vec<usize>)
    ensures
        order.len() == scores.len(),
        forall|a: int| 0 <= a < order.len() ==> (#[trigger] order@[a]) < scores.len(),
        forall|a: int, b: int| 0 <= a < b < order.len() ==> order@[a] != order@[b],
        forall|j: int| 0 <= j < scores.len() ==> #[trigger] order@.contains(j as usize),
        forall|a: int, b: int|
            0 <= a < b < order.len() ==> scores@[order@[a] as int] >= scores@[order@[b] as int],
{
    let n = scores.len();
    let mut order: Vec<usize> = Vec::new();
    let mut k: usize = 0;
    while k < n
        invariant
            n == scores.len(),
            k <= n,
            order.len() == k,
            forall|a: int| 0 <= a < order.len() ==> (#[trigger] order@[a]) < k,
            forall|a: int, b: int| 0 <= a < b < order.len() ==> order@[a] != order@[b],
            forall|j: int| 0 <= j < k ==> #[trigger] order@.contains(j as usize),
            forall|a: int, b: int|
                0 <= a < b < order.len() ==> scores@[order@[a] as int] >= scores@[order@[b] as int],
        decreases n - k,
    {
        let s = scores[k];
        let mut pos: usize = 0;
        while pos < order.len() && scores[order[pos]] >= s
            invariant
                pos <= order.len(),
                n == scores.len(),
                forall|a: int| 0 <= a < order.len() ==> (#[trigger] order@[a]) < k,
                k < n,
                forall|a: int| 0 <= a < pos ==> scores@[order@[a] as int] >= s,
            decreases order.len() - pos,
        {
            pos = pos + 1;
        }
        let ghost old_o = order@;
        proof {
            assert forall|a: int| pos <= a < old_o.len() implies scores@[old_o[a] as int] < s by {
                if a > pos {
                    assert(scores@[old_o[pos as int] as int] >= scores@[old_o[a] as int]);
                }
            }
            old_o.insert_ensures(pos as int, k);
        }
        order.insert(pos, k);
        proof {
            let o = order@;
            assert forall|a: int| 0 <= a < o.len() implies (#[trigger] o[a]) < k + 1 by {
                if a < pos {
                    assert(o[a] == old_o[a]);
                } else if a > pos {
                    assert(o[a] == old_o[a - 1]);
                }
            }
            assert forall|a: int, b: int| 0 <= a < b < o.len() implies o[a] != o[b] by {
                let oa = if a < pos { old_o[a] } else if a == pos { k } else { old_o[a - 1] };
                let ob = if b < pos { old_o[b] } else if b == pos { k } else { old_o[b - 1] };
                assert(o[a] == oa);
                assert(o[b] == ob);
                if a != pos && b != pos {
                    let a0 = if a < pos { a } else { a - 1 };
                    let b0 = if b < pos { b } else { b - 1 };
                    assert(a0 < b0);
                }
                if a == pos {
                    assert(old_o[b - 1] < k);
                }
                if b == pos {
                    assert(old_o[a] < k);
                }
            }
            assert forall|j: int| 0 <= j < k + 1 implies #[trigger] o.contains(j as usize) by {
                if j == k {
                    assert(o[pos as int] == k);
                } else {
                    assert(old_o.contains(j as usize));
                    let a = choose|a: int| 0 <= a < old_o.len() && #[trigger] old_o[a] == j as usize;
                    if a < pos {
                        assert(o[a] == j as usize);
                    } else {
                        assert(o[a + 1] == j as usize);
                    }
                }
            }
            assert forall|a: int, b: int| 0 <= a < b < o.len() implies scores@[o[a] as int]
                >= scores@[o[b] as int] by {
                if a < pos && b < pos {
                    assert(o[a] == old_o[a] && o[b] == old_o[b]);
                } else if a < pos && b == pos {
                    assert(o[a] == old_o[a]);
                } else if a < pos && b > pos {
                    assert(o[a] == old_o[a] && o[b] == old_o[b - 1]);
                } else if a == pos {
                    assert(o[b] == old_o[b - 1]);
                } else {
                    assert(o[a] == old_o[a - 1] && o[b] == old_o[b - 1]);
                }
            }
        }
        k = k + 1;
    }
    order
}

/// Reciprocal-rank fusion of a vector ranking and a keyword ranking (ids, best first):
/// each takes part with its first `CANDIDATES` entries; an id's score is the sum of
/// `1 / (RRF_K + rank)` over its places (kept exactly, as a numerator over `RRF_DENOM`);
/// the result holds the `top_k` best ids with their scores, best first. Among equal
/// scores, ids met earlier (vector ranking first) come first.
pub fn rrf_fuse(vec_ids: &Vec<i64>, fts_ids: &Vec<i64>, top_k: usize) -> (r: Vec<(i64, u128)>)
    ensures
        is_fused_ranking(vec_ids@, fts_ids@, top_k as int, r@),
{
    let ghost v = vec_ids@;
    let ghost f = fts_ids@;
    let mut cands: Vec<i64> = Vec::new();
    let mut scores: Vec<u128> = Vec::new();
    proof {
        lemma_weight_bounds(0);
    }
    add_ranking(vec_ids, &mut cands, &mut scores, Ghost(|x: i64| 0int), Ghost(0int));
    proof {
        assert forall|x: i64| 0 <= #[trigger] list_score(v, x, cut_len(v)) <= 30 * rrf_weight(0) by {
            lemma_list_score_bound(v, x, cut_len(v));
            assert(cut_len(v) * rrf_weight(0) <= 30 * rrf_weight(0)) by (nonlinear_arith)
                requires
                    cut_len(v) <= 30,
                    rrf_weight(0) >= 0,
            ;
        }
        assert forall|x: i64| !cands@.contains(x) implies #[trigger] list_score(v, x, cut_len(v))
            == 0 by {
            lemma_list_score_absent(v, x, cut_len(v));
        }
        assert(Seq::<i64>::empty().contains(0i64) == false);
    }
    let ghost c1 = cands@;
    add_ranking(
        fts_ids,
        &mut cands,
        &mut scores,
        Ghost(|x: i64| list_score(v, x, cut_len(v))),
        Ghost(30 * rrf_weight(0)),
    );
    let order = order_by_score(&scores);
    let n = cands.len();
    let m = if top_k < n {
        top_k
    } else {
        n
    };
    let mut r: Vec<(i64, u128)> = Vec::new();
    let mut i: usize = 0;
    while i < m
        invariant
            m <= n,
            n == cands.len(),
            n == scores.len(),
            n == order.len(),
            i <= m,
            r.len() == i,
            forall|q: int| 0 <= q < i ==> (#[trigger] r@[q]) == (cands@[order@[q] as int], scores@[order@[q] as int]),
            forall|a: int| 0 <= a < order.len() ==> (#[trigger] order@[a]) < scores.len(),
        decreases m - i,
    {
        let o = order[i];
        r.push((cands[o], scores[o]));
        i = i + 1;
    }
    proof {
        assert forall|x: i64| #[trigger] cands@.contains(x) <==> is_candidate(v, f, x) by {
            if c1.contains(x) {
                assert(Seq::<i64>::empty().contains(x) == false);
            }
        }
        assert forall|a: int, b: int| 0 <= a < b < r.len() implies r@[a].0 != r@[b].0 by {
            assert(order@[a] != order@[b]);
        }
        assert forall|q: int| 0 <= q < r.len() implies is_candidate(v, f, (#[trigger] r@[q]).0) by {
            assert(cands@[order@[q] as int] == r@[q].0);
            assert(cands@.contains(r@[q].0));
        }
        assert forall|x: i64|
            is_candidate(v, f, x) && !(exists|q: int| 0 <= q < r.len() && r@[q].0 == x) implies {
            &&& r.len() == top_k
            &&& forall|j: int| 0 <= j < r.len() ==> rrf_score(v, f, x) <= (#[trigger] r@[j]).1
        } by {
            assert(cands@.contains(x));
            let j = choose|j: int| 0 <= j < cands.len() && #[trigger] cands@[j] == x;
            assert(order@.contains(j as usize));
            let a = choose|a: int| 0 <= a < order.len() && #[trigger] order@[a] == j as usize;
            if a < m {
                assert(r@[a].0 == x);
            }
            assert forall|q: int| 0 <= q < r.len() implies rrf_score(v, f, x) <= (#[trigger] r@[q]).1 by {
                assert(scores@[order@[q] as int] >= scores@[order@[a] as int]);
            }
        }
    }
    r
}

/// No id occurs twice in `l`.
pub open spec fn distinct_ids(l: Seq<i64>) -> bool {
    forall|i: int, j: int| 0 <= i < j < l.len() ==> l[i] != l[j]
}

proof fn lemma_weight_decreasing(p: int, q: int)
    requires
        0 <= p <= q < CANDIDATES,
    ensures
        rrf_weight(q) <= rrf_weight(p),
{
    assert(RRF_DENOM as int / (61 + q) <= RRF_DENOM as int / (61 + p)) by {
        vstd::arithmetic::div_mod::lemma_div_is_ordered_by_denominator(RRF_DENOM as int, 61 + p, 61 + q);
    }
}

proof fn lemma_single_occurrence(l: Seq<i64>, y: i64, i: int, n: int)
    requires
        distinct_ids(l),
        0 <= i < n <= l.len(),
        l[i] == y,
    ensures
        list_score(l, y, n) == rrf_weight(i),
    decreases n,
{
    if n - 1 == i {
        assert(!l.take(n - 1).contains(y)) by {
            if l.take(n - 1).contains(y) {
                let j = choose|j: int| 0 <= j < n - 1 && #[trigger] l.take(n - 1)[j] == y;
                assert(l[j] == l[i]);
            }
        }
        lemma_list_score_absent(l, y, n - 1);
    } else {
        lemma_single_occurrence(l, y, i, n - 1);
        assert(l[n - 1] != l[i]);
    }
}

proof fn lemma_single_place(l: Seq<i64>, y: i64, n: int)
    requires
        distinct_ids(l),
        1 <= n <= l.len(),
        n <= CANDIDATES,
        l[0] != y,
    ensures
        0 <= list_score(l, y, n) <= rrf_weight(1),
{
    lemma_weight_bounds(1);
    if l.take(n).contains(y) {
        let i = choose|i: int| 0 <= i < n && #[trigger] l.take(n)[i] == y;
        assert(l[i] == y);
        lemma_single_occurrence(l, y, i, n);
        lemma_weight_decreasing(1, i);
    } else {
        lemma_list_score_absent(l, y, n);
    }
}

/// The id that tops both rankings (each without repeated ids) comes first after fusion.
pub proof fn law_top_of_both_first(v: Seq<i64>, f: Seq<i64>, top_k: int, r: Seq<(i64, u128)>)
    requires
        is_fused_ranking(v, f, top_k, r),
        top_k >= 1,
        v.len() > 0,
        f.len() > 0,
        v[0] == f[0],
        distinct_ids(v),
        distinct_ids(f),
    ensures
        r.len() > 0,
        r[0].0 == v[0],
{
    let x = v[0];
    assert(v.take(cut_len(v))[0] == x);
    assert(is_candidate(v, f, x));
    lemma_weight_bounds(0);
    lemma_weight_bounds(1);
    assert(rrf_weight(1) < rrf_weight(0)) by {
        lemma_weight_exact(0);
        lemma_weight_exact(1);
        assert(rrf_weight(1) * 62 == rrf_weight(0) * 61);
    }
    assert(list_score(v, x, 0) == 0);
    assert(list_score(f, x, 0) == 0);
    assert(list_score(v, x, 1) == rrf_weight(0));
    assert(list_score(f, x, 1) == rrf_weight(0));
    assert forall|y: i64| y != x implies rrf_score(v, f, y) < rrf_score(v, f, x) by {
        lemma_single_place(v, y, cut_len(v));
        lemma_single_place(f, y, cut_len(f));
        lemma_list_score_bound(v, x, cut_len(v));
        lemma_list_score_bound(f, x, cut_len(f));
        lemma_list_score_monotone(v, x, 1, cut_len(v));
        lemma_list_score_monotone(f, x, 1, cut_len(f));
    }
    if !(exists|i: int| 0 <= i < r.len() && r[i].0 == x) {
        assert(r.len() == top_k);
        assert(rrf_score(v, f, x) <= r[0].1);
        assert(rrf_score(v, f, r[0].0) < rrf_score(v, f, x));
    } else {
        let i = choose|i: int| 0 <= i < r.len() && r[i].0 == x;
        if i > 0 {
            assert(r[0].1 >= r[i].1);
            assert(rrf_score(v, f, r[0].0) < rrf_score(v, f, x));
        }
    }
}

proof fn lemma_list_score_monotone(l: Seq<i64>, id: i64, a: int, b: int)
    requires
        0 <= a <= b <= l.len(),
        b <= CANDIDATES,
    ensures
        list_score(l, id, a) <= list_score(l, id, b),
    decreases b - a,
{
    if a < b {
        lemma_list_score_monotone(l, id, a, b - 1);
        lemma_weight_bounds(b - 1);
    }
}


/// Whether a question takes part in keyword search: the trigram index needs at least
/// three characters.
pub fn fts_eligible(question: &str) -> (r: bool)
    ensures
        r == (question@.len() >= 3),
{
    let v = chars_of(question);
    v.len() >= 3
}

} // verus!
