//! Reciprocal Rank Fusion of the recall channels of a hybrid query.
//!
//! Each hit `(id, rank)` of each channel adds `1 / (k + rank)` to the score of
//! `id`. Scores are kept as exact fractions, so the fused order is the order of
//! the true sums: descending score, and on equal scores the smaller id first.

use vstd::prelude::*;

verus! {

/// One hit of a recall channel: an item id and its rank there, from 1.
#[derive(Debug, Clone, Copy)]
pub struct SearchHit {
    pub id: i64,
    pub rank: usize,
}

/// The smoothing constant of the fusion.
pub const RRF_K: u64 = 60;

/// The most hits that one channel contributes.
pub const PER_CHANNEL: usize = 100;

/// The largest `k + rank` that the exact scores admit.
pub const MAX_SHARE_DENOMINATOR: u64 = 32768;

/// The most hits that one id may have over all channels (one per channel).
pub const MAX_HITS_PER_ID: usize = 4;

/// The hits of all channels, channel after channel.
pub open spec fn all_hits(chs: Seq<Seq<SearchHit>>) -> Seq<SearchHit>
    decreases chs.len(),
{
    if chs.len() == 0 {
        Seq::empty()
    } else {
        all_hits(chs.drop_last()) + chs.last()
    }
}

/// The channels as sequences.
pub open spec fn channel_views(chs: Seq<Vec<SearchHit>>) -> Seq<Seq<SearchHit>> {
    chs.map_values(|c: Vec<SearchHit>| c@)
}

/// The exact fused score of `id` over `hs`, as (numerator, denominator):
/// the sum of `1 / (k + rank)` over the hits of `id`.
pub open spec fn fused_score(hs: Seq<SearchHit>, k: int, id: i64) -> (int, int)
    decreases hs.len(),
{
    if hs.len() == 0 {
        (0, 1)
    } else {
        let prev = fused_score(hs.drop_last(), k, id);
        let h = hs.last();
        if h.id == id {
            (prev.0 * (k + h.rank) + prev.1, prev.1 * (k + h.rank))
        } else {
            prev
        }
    }
}

/// The fraction order used for ranking: `a` before `b`.
pub open spec fn frac_before(an: int, ad: int, a: i64, bn: int, bd: int, b: i64) -> bool {
    an * bd > bn * ad || (an * bd == bn * ad && a < b)
}

/// `x` comes before `y` in the fused order of `hs`.
pub open spec fn ranks_before(hs: Seq<SearchHit>, k: int, x: i64, y: i64) -> bool {
    let sx = fused_score(hs, k, x);
    let sy = fused_score(hs, k, y);
    frac_before(sx.0, sx.1, x, sy.0, sy.1, y)
}

/// Some hit of `hs` has id `id`.
pub open spec fn has_hit(hs: Seq<SearchHit>, id: i64) -> bool {
    exists|i: int| 0 <= i < hs.len() && #[trigger] hs[i].id == id
}

/// The number of hits of `id` in `hs`.
pub open spec fn hit_count(hs: Seq<SearchHit>, id: i64) -> nat
    decreases hs.len(),
{
    if hs.len() == 0 {
        0
    } else {
        hit_count(hs.drop_last(), id) + if hs.last().id == id { 1nat } else { 0nat }
    }
}

/// The hits that the exact scores can carry: ranks from 1, `k + rank` bounded,
/// and no id with more hits than there are channels.
pub open spec fn fusible(hs: Seq<SearchHit>, k: int) -> bool {
    &&& forall|i: int| 0 <= i < hs.len() ==> 1 <= #[trigger] hs[i].rank && k + hs[i].rank <= MAX_SHARE_DENOMINATOR
    &&& forall|id: i64| #[trigger] hit_count(hs, id) <= MAX_HITS_PER_ID
}

/// The result of fusing `hs` into at most `top_n` ids.
pub open spec fn is_fused_top(hs: Seq<SearchHit>, k: int, top_n: int, r: Seq<i64>) -> bool {
    &&& r.len() <= top_n
    &&& r.no_duplicates()
    &&& forall|i: int| 0 <= i < r.len() ==> has_hit(hs, #[trigger] r[i])
    &&& forall|i: int, j: int| 0 <= i < j < r.len() ==> ranks_before(hs, k, #[trigger] r[i], #[trigger] r[j])
    &&& forall|id: i64| has_hit(hs, id) && !r.contains(id) ==> {
        &&& r.len() == top_n
        &&& forall|i: int| 0 <= i < r.len() ==> ranks_before(hs, k, #[trigger] r[i], id)
    }
}

spec fn den_bound(c: nat) -> int
    decreases c,
{
    if c == 0 { 1 } else { MAX_SHARE_DENOMINATOR * den_bound((c - 1) as nat) }
}

proof fn lemma_den_bound_mono(a: nat, b: nat)
    requires
        a <= b,
    ensures
        1 <= den_bound(a) <= den_bound(b),
    decreases b,
{
    if a < b {
        lemma_den_bound_mono(a, (b - 1) as nat);
    } else if a > 0 {
        lemma_den_bound_mono((a - 1) as nat, (a - 1) as nat);
    }
}

proof fn lemma_den_bound_four()
    ensures
        den_bound(4) == 0x1000_0000_0000_0000,
{
    reveal_with_fuel(den_bound, 5);
}

proof fn lemma_score_bounds(hs: Seq<SearchHit>, k: int, id: i64)
    requires
        forall|i: int| 0 <= i < hs.len() ==> 1 <= #[trigger] hs[i].rank && k + hs[i].rank <= MAX_SHARE_DENOMINATOR,
        k >= 0,
    ensures
        1 <= fused_score(hs, k, id).1 <= den_bound(hit_count(hs, id)),
        0 <= fused_score(hs, k, id).0 <= hit_count(hs, id) * fused_score(hs, k, id).1,
    decreases hs.len(),
{
    if hs.len() > 0 {
        let p = hs.drop_last();
        assert forall|i: int| 0 <= i < p.len() implies 1 <= #[trigger] p[i].rank && k + p[i].rank <= MAX_SHARE_DENOMINATOR by {
            assert(p[i] == hs[i]);
        }
        lemma_score_bounds(p, k, id);
        let h = hs.last();
        assert(1 <= h.rank && k + h.rank <= MAX_SHARE_DENOMINATOR) by {
            assert(h == hs[hs.len() - 1]);
        }
        if h.id == id {
            let (n, d) = fused_score(p, k, id);
            let c = hit_count(p, id);
            let a = k + h.rank;
            assert(1 <= d * a <= den_bound(c) * MAX_SHARE_DENOMINATOR) by (nonlinear_arith)
                requires
                    1 <= d <= den_bound(c),
                    1 <= a <= MAX_SHARE_DENOMINATOR,
            ;
            assert(0 <= n * a + d <= (c + 1) * (d * a)) by (nonlinear_arith)
                requires
                    0 <= n <= c * d,
                    1 <= d,
                    1 <= a,
                    c >= 0,
            ;
        }
    }
}

proof fn lemma_count_prefix(hs: Seq<SearchHit>, i: int, id: i64)
    requires
        0 <= i <= hs.len(),
    ensures
        hit_count(hs.subrange(0, i), id) <= hit_count(hs, id),
    decreases hs.len() - i,
{
    if i < hs.len() {
        lemma_count_prefix(hs, i + 1, id);
        assert(hs.subrange(0, i + 1).drop_last() =~= hs.subrange(0, i));
    } else {
        assert(hs.subrange(0, i) =~= hs);
    }
}

proof fn lemma_before_transitive(an: int, ad: int, a: i64, bn: int, bd: int, b: i64, cn: int, cd: int, c: i64)
    requires
        ad > 0,
        bd > 0,
        cd > 0,
        frac_before(an, ad, a, bn, bd, b),
        frac_before(bn, bd, b, cn, cd, c),
    ensures
        frac_before(an, ad, a, cn, cd, c),
{
    assert(an * bd * cd >= bn * ad * cd) by (nonlinear_arith)
        requires an * bd >= bn * ad, cd > 0;
    assert(bn * cd * ad >= cn * bd * ad) by (nonlinear_arith)
        requires bn * cd >= cn * bd, ad > 0;
    assert(an * bd * cd == an * cd * bd) by (nonlinear_arith);
    assert(bn * ad * cd == bn * cd * ad) by (nonlinear_arith);
    assert(cn * bd * ad == cn * ad * bd) by (nonlinear_arith);
    if an * bd > bn * ad || bn * cd > cn * bd {
        if an * bd > bn * ad {
            assert(an * bd * cd > bn * ad * cd) by (nonlinear_arith)
                requires an * bd > bn * ad, cd > 0;
        } else {
            assert(bn * cd * ad > cn * bd * ad) by (nonlinear_arith)
                requires bn * cd > cn * bd, ad > 0;
        }
        assert(an * cd * bd > cn * ad * bd) by (nonlinear_arith)
            requires
                an * bd * cd >= bn * ad * cd,
                bn * cd * ad >= cn * bd * ad,
                an * bd * cd > bn * ad * cd || bn * cd * ad > cn * bd * ad,
                an * bd * cd == an * cd * bd,
                bn * ad * cd == bn * cd * ad,
                cn * bd * ad == cn * ad * bd;
        assert(an * cd > cn * ad) by (nonlinear_arith)
            requires an * cd * bd > cn * ad * bd, bd > 0;
    } else {
        assert(an * cd * bd == cn * ad * bd) by (nonlinear_arith)
            requires
                an * bd == bn * ad,
                bn * cd == cn * bd,
                an * bd * cd == an * cd * bd,
                bn * ad * cd == bn * cd * ad,
                cn * bd * ad == cn * ad * bd;
        assert(an * cd == cn * ad) by (nonlinear_arith)
            requires an * cd * bd == cn * ad * bd, bd > 0;
    }
}


proof fn lemma_score_absent(hs: Seq<SearchHit>, k: int, id: i64)
    requires
        !has_hit(hs, id),
    ensures
        fused_score(hs, k, id) == (0int, 1int),
    decreases hs.len(),
{
    if hs.len() > 0 {
        let p = hs.drop_last();
        assert(!has_hit(p, id)) by {
            if has_hit(p, id) {
                let i = choose|i: int| 0 <= i < p.len() && #[trigger] p[i].id == id;
                assert(hs[i] == p[i]);
            }
        }
        lemma_score_absent(p, k, id);
        assert(hs[hs.len() - 1] == hs.last());
    }
}

/// An id with its exact score.
#[derive(Clone, Copy)]
struct Scored {
    id: i64,
    num: u128,
    den: u128,
}

spec fn small(e: Scored) -> bool {
    1 <= e.den <= 0x1000_0000_0000_0000 && e.num <= 0x4000_0000_0000_0000
}

spec fn exact(e: Scored, hs: Seq<SearchHit>, k: int) -> bool {
    (e.num as int, e.den as int) == fused_score(hs, k, e.id)
}

spec fn distinct_ids(es: Seq<Scored>) -> bool {
    forall|a: int, b: int| 0 <= a < b < es.len() ==> #[trigger] es[a].id != #[trigger] es[b].id
}

proof fn lemma_small(hs: Seq<SearchHit>, k: int, e: Scored)
    requires
        fusible(hs, k),
        k >= 0,
        exact(e, hs, k),
    ensures
        small(e),
{
    lemma_score_bounds(hs, k, e.id);
    let c = hit_count(hs, e.id);
    lemma_den_bound_mono(c, 4);
    lemma_den_bound_four();
    assert(e.num <= 4 * 0x1000_0000_0000_0000) by (nonlinear_arith)
        requires e.num <= c * e.den, c <= 4, e.den <= 0x1000_0000_0000_0000;
}

/// Whether `a` ranks before `b`.
fn scored_before(a: &Scored, b: &Scored) -> (r: bool)
    requires
        small(*a),
        small(*b),
    ensures
        r == frac_before(a.num as int, a.den as int, a.id, b.num as int, b.den as int, b.id),
{
    assert(a.num * b.den <= 0x4000_0000_0000_0000 * 0x1000_0000_0000_0000) by (nonlinear_arith)
        requires a.num <= 0x4000_0000_0000_0000, b.den <= 0x1000_0000_0000_0000;
    assert(b.num * a.den <= 0x4000_0000_0000_0000 * 0x1000_0000_0000_0000) by (nonlinear_arith)
        requires b.num <= 0x4000_0000_0000_0000, a.den <= 0x1000_0000_0000_0000;
    let l = a.num * b.den;
    let m = b.num * a.den;
    l > m || (l == m && a.id < b.id)
}

/// The hits of all channels in one sequence.
fn flatten(channels: &Vec<Vec<SearchHit>>) -> (r: Vec<SearchHit>)
    ensures
        r@ == all_hits(channel_views(channels@)),
{
    let ghost views = channel_views(channels@);
    let mut out: Vec<SearchHit> = Vec::new();
    let mut c: usize = 0;
    while c < channels.len()
        invariant
            c <= channels@.len(),
            views == channel_views(channels@),
            out@ == all_hits(views.subrange(0, c as int)),
        decreases channels@.len() - c,
    {
        let ch = &channels[c];
        let ghost before = out@;
        let mut h: usize = 0;
        while h < ch.len()
            invariant
                h <= ch@.len(),
                out@ == before + ch@.subrange(0, h as int),
            decreases ch@.len() - h,
        {
            out.push(ch[h]);
            assert(before + ch@.subrange(0, h as int + 1) =~= (before + ch@.subrange(0, h as int)).push(ch@[h as int]));
            h = h + 1;
        }
        proof {
            let v = views.subrange(0, c as int + 1);
            assert(v.drop_last() =~= views.subrange(0, c as int));
            assert(v.last() == ch@);
            assert(ch@.subrange(0, h as int) =~= ch@);
        }
        c = c + 1;
    }
    assert(views.subrange(0, c as int) =~= views);
    out
}

/// One entry per id with a hit, holding its exact score.
fn aggregate(hs: &Vec<SearchHit>, k: u64) -> (es: Vec<Scored>)
    requires
        fusible(hs@, k as int),
    ensures
        distinct_ids(es@),
        forall|j: int| 0 <= j < es@.len() ==> has_hit(hs@, #[trigger] es@[j].id) && exact(es@[j], hs@, k as int) && small(es@[j]),
        forall|id: i64| has_hit(hs@, id) ==> exists|j: int| 0 <= j < es@.len() && #[trigger] es@[j].id == id,
{
    let ghost kk = k as int;
    let mut es: Vec<Scored> = Vec::new();
    let mut i: usize = 0;
    while i < hs.len()
        invariant
            i <= hs@.len(),
            fusible(hs@, kk),
            kk == k as int,
            distinct_ids(es@),
            forall|j: int| 0 <= j < es@.len() ==> has_hit(hs@.subrange(0, i as int), #[trigger] es@[j].id) && exact(es@[j], hs@.subrange(0, i as int), kk),
            forall|id: i64| has_hit(hs@.subrange(0, i as int), id) ==> exists|j: int| 0 <= j < es@.len() && #[trigger] es@[j].id == id,
        decreases hs@.len() - i,
    {
        let h = hs[i];
        let ghost pre = hs@.subrange(0, i as int);
        let ghost post = hs@.subrange(0, i as int + 1);
        assert(post.drop_last() =~= pre);
        assert(post.last() == h);
        assert(1 <= h.rank && k + h.rank <= MAX_SHARE_DENOMINATOR) by {
            assert(hs@[i as int] == h);
        }
        let a: u128 = k as u128 + h.rank as u128;
        let mut j: usize = 0;
        while j < es.len() && es[j].id != h.id
            invariant
                j <= es@.len(),
                forall|t: int| 0 <= t < j ==> (#[trigger] es@[t]).id != h.id,
            decreases es@.len() - j,
        {
            j = j + 1;
        }
        proof {
            assert forall|t: int| 0 <= t < post.len() implies 1 <= #[trigger] post[t].rank && kk + post[t].rank <= MAX_SHARE_DENOMINATOR by {
                assert(post[t] == hs@[t]);
            }
            assert forall|id: i64| #[trigger] hit_count(post, id) <= MAX_HITS_PER_ID by {
                lemma_count_prefix(hs@, i as int + 1, id);
            }
            assert(fusible(post, kk));
            assert(has_hit(post, h.id)) by {
                assert(post[i as int].id == h.id);
            }
            assert forall|id: i64| has_hit(pre, id) implies has_hit(post, id) by {
                let t = choose|t: int| 0 <= t < pre.len() && #[trigger] pre[t].id == id;
                assert(post[t] == pre[t]);
            }
        }
        if j < es.len() {
            let e = es[j];
            proof {
                assert forall|t: int| 0 <= t < pre.len() implies 1 <= #[trigger] pre[t].rank && kk + pre[t].rank <= MAX_SHARE_DENOMINATOR by {
                    assert(pre[t] == hs@[t]);
                }
                lemma_score_bounds(pre, kk, h.id);
                lemma_score_bounds(post, kk, h.id);
                lemma_count_prefix(hs@, i as int + 1, h.id);
                lemma_den_bound_mono(hit_count(post, h.id), 4);
                lemma_den_bound_four();
                let c = hit_count(post, h.id);
                let nn = e.num * a + e.den;
                assert(nn <= 4 * 0x1000_0000_0000_0000) by (nonlinear_arith)
                    requires
                        nn <= c * (e.den * a),
                        c <= 4,
                        e.den * a <= 0x1000_0000_0000_0000;
                assert(e.num * a <= nn) by (nonlinear_arith)
                    requires nn == e.num * a + e.den, e.den >= 1;
            }
            let ne = Scored { id: h.id, num: e.num * a + e.den, den: e.den * a };
            let ghost es_before = es@;
            es.set(j, ne);
            proof {
                assert forall|t: int| 0 <= t < es@.len() implies has_hit(post, #[trigger] es@[t].id) && exact(es@[t], post, kk) by {
                    if t != j {
                        assert(es@[t] == es_before[t]);
                    }
                }
                assert forall|id: i64| has_hit(post, id) implies exists|w: int| 0 <= w < es@.len() && #[trigger] es@[w].id == id by {
                    let t = choose|t: int| 0 <= t < post.len() && #[trigger] post[t].id == id;
                    if t < i {
                        assert(pre[t] == post[t]);
                        assert(has_hit(pre, id));
                        let w = choose|w: int| 0 <= w < es_before.len() && #[trigger] es_before[w].id == id;
                        assert(es@[w].id == id);
                    } else {
                        assert(es@[j as int].id == id);
                    }
                }
            }
        } else {
            proof {
                assert(!has_hit(pre, h.id)) by {
                    if has_hit(pre, h.id) {
                        let w = choose|w: int| 0 <= w < es@.len() && #[trigger] es@[w].id == h.id;
                        assert(es@[w].id != h.id);
                    }
                }
                lemma_score_absent(pre, kk, h.id);
            }
            let ghost es_before = es@;
            es.push(Scored { id: h.id, num: 1, den: a });
            proof {
                assert forall|t: int| 0 <= t < es@.len() implies has_hit(post, #[trigger] es@[t].id) && exact(es@[t], post, kk) by {
                    if t < es_before.len() {
                        assert(es@[t] == es_before[t]);
                        assert(es_before[t].id != h.id);
                        assert(has_hit(pre, es_before[t].id));
                        assert(fused_score(post, kk, es_before[t].id) == fused_score(pre, kk, es_before[t].id));
                    } else {
                        assert(fused_score(pre, kk, h.id) == (0int, 1int));
                        assert(post.drop_last() == pre);
                        assert(0 * (kk + h.rank) == 0) by (nonlinear_arith);
                        assert(1 * (kk + h.rank) == kk + h.rank) by (nonlinear_arith);
                        assert(fused_score(post, kk, h.id) == (1int, a as int));
                    }
                }
                assert forall|id: i64| has_hit(post, id) implies exists|w: int| 0 <= w < es@.len() && #[trigger] es@[w].id == id by {
                    let t = choose|t: int| 0 <= t < post.len() && #[trigger] post[t].id == id;
                    if t < i {
                        assert(pre[t] == post[t]);
                        assert(has_hit(pre, id));
                        let w = choose|w: int| 0 <= w < es_before.len() && #[trigger] es_before[w].id == id;
                        assert(es@[w].id == id);
                    } else {
                        assert(es@[es@.len() - 1].id == id);
                    }
                }
            }
        }
        i = i + 1;
    }
    proof {
        assert(hs@.subrange(0, i as int) =~= hs@);
        assert forall|j: int| 0 <= j < es@.len() implies small(#[trigger] es@[j]) by {
            lemma_small(hs@, k as int, es@[j]);
        }
    }
    es
}


spec fn entry_before(a: Scored, b: Scored) -> bool {
    frac_before(a.num as int, a.den as int, a.id, b.num as int, b.den as int, b.id)
}

/// The index of the entry that ranks before every other.
fn best_index(es: &Vec<Scored>) -> (b: usize)
    requires
        es@.len() > 0,
        distinct_ids(es@),
        forall|j: int| 0 <= j < es@.len() ==> small(#[trigger] es@[j]),
    ensures
        b < es@.len(),
        forall|j: int| 0 <= j < es@.len() && j != b ==> entry_before(es@[b as int], #[trigger] es@[j]),
{
    let mut b: usize = 0;
    let mut j: usize = 1;
    while j < es.len()
        invariant
            1 <= j <= es@.len(),
            b < j,
            distinct_ids(es@),
            forall|t: int| 0 <= t < es@.len() ==> small(#[trigger] es@[t]),
            forall|t: int| 0 <= t < j && t != b ==> entry_before(es@[b as int], #[trigger] es@[t]),
        decreases es@.len() - j,
    {
        if scored_before(&es[j], &es[b]) {
            proof {
                let nb = es@[j as int];
                let ob = es@[b as int];
                assert forall|t: int| 0 <= t < j + 1 && t != j implies entry_before(nb, #[trigger] es@[t]) by {
                    if t != b {
                        let x = es@[t];
                        lemma_before_transitive(nb.num as int, nb.den as int, nb.id, ob.num as int, ob.den as int, ob.id, x.num as int, x.den as int, x.id);
                    }
                }
            }
            b = j;
        } else {
            proof {
                assert(es@[j as int].id != es@[b as int].id);
            }
        }
        j = j + 1;
    }
    b
}

/// Fuses the channels by Reciprocal Rank Fusion with constant `k` and returns
/// the ids of the best `top_n`, best first: by descending exact score
/// `sum of 1 / (k + rank)`, and by ascending id on equal scores.
pub fn rrf_merge(channels: Vec<Vec<SearchHit>>, k: u64, top_n: usize) -> (r: Vec<i64>)
    requires
        fusible(all_hits(channel_views(channels@)), k as int),
    ensures
        is_fused_top(all_hits(channel_views(channels@)), k as int, top_n as int, r@),
{
    let hs = flatten(&channels);
    let ghost h = hs@;
    let ghost kk = k as int;
    let mut es = aggregate(&hs, k);
    let mut r: Vec<i64> = Vec::new();
    while r.len() < top_n && es.len() > 0
        invariant
            h == hs@,
            kk == k as int,
            distinct_ids(es@),
            forall|j: int| 0 <= j < es@.len() ==> has_hit(h, #[trigger] es@[j].id) && exact(es@[j], h, kk) && small(es@[j]),
            forall|id: i64| has_hit(h, id) ==> r@.contains(id) || exists|j: int| 0 <= j < es@.len() && #[trigger] es@[j].id == id,
            forall|i: int, j: int| 0 <= i < r@.len() && 0 <= j < es@.len() ==> r@[i] != #[trigger] es@[j].id && ranks_before(h, kk, #[trigger] r@[i], es@[j].id),
            r@.len() <= top_n,
            r@.no_duplicates(),
            forall|i: int| 0 <= i < r@.len() ==> has_hit(h, #[trigger] r@[i]),
            forall|i: int, j: int| 0 <= i < j < r@.len() ==> ranks_before(h, kk, #[trigger] r@[i], #[trigger] r@[j]),
        decreases es@.len(),
    {
        assert forall|j: int| 0 <= j < es@.len() implies small(#[trigger] es@[j]) by {
            assert(has_hit(h, es@[j].id));
        }
        let b = best_index(&es);
        let ghost es0 = es@;
        let ghost r0 = r@;
        let e = es.remove(b);
        r.push(e.id);
        proof {
            assert(es@ == es0.remove(b as int));
            assert forall|j: int| 0 <= j < es@.len() implies #[trigger] es@[j] == es0[if j < b { j } else { j + 1 }] by {}
            assert forall|t: int| 0 <= t < es@.len() implies ranks_before(h, kk, e.id, #[trigger] es@[t].id) by {
                let s = if t < b { t } else { t + 1 };
                assert(es@[t] == es0[s]);
                assert(entry_before(es0[b as int], es0[s]));
            }
            assert forall|i: int, j: int| 0 <= i < r@.len() && 0 <= j < es@.len() implies r@[i] != #[trigger] es@[j].id && ranks_before(h, kk, #[trigger] r@[i], es@[j].id) by {
                let s = if j < b { j } else { j + 1 };
                assert(es@[j] == es0[s]);
                if i < r0.len() {
                    assert(r@[i] == r0[i]);
                } else {
                    assert(es0[s].id != es0[b as int].id);
                }
            }
            assert forall|id: i64| has_hit(h, id) implies r@.contains(id) || exists|j: int| 0 <= j < es@.len() && #[trigger] es@[j].id == id by {
                if r0.contains(id) {
                    let i = choose|i: int| 0 <= i < r0.len() && r0[i] == id;
                    assert(r@[i] == id);
                } else {
                    let w = choose|w: int| 0 <= w < es0.len() && #[trigger] es0[w].id == id;
                    if w == b {
                        assert(r@[r0.len() as int] == id);
                    } else if w < b {
                        assert(es@[w] == es0[w]);
                    } else {
                        assert(es@[w - 1] == es0[w]);
                    }
                }
            }
            assert(r@.no_duplicates()) by {
                assert forall|i: int, j: int| 0 <= i < j < r@.len() implies r@[i] != r@[j] by {
                    if j == r0.len() {
                        assert(r0[i] != es0[b as int].id);
                    } else {
                        assert(r@[i] == r0[i] && r@[j] == r0[j]);
                    }
                }
            }
            assert forall|i: int, j: int| 0 <= i < j < r@.len() implies ranks_before(h, kk, #[trigger] r@[i], #[trigger] r@[j]) by {
                if j == r0.len() {
                    assert(r@[i] == r0[i]);
                } else {
                    assert(r@[i] == r0[i] && r@[j] == r0[j]);
                }
            }
            assert forall|i: int| 0 <= i < r@.len() implies has_hit(h, #[trigger] r@[i]) by {
                if i < r0.len() {
                    assert(r@[i] == r0[i]);
                }
            }
        }
    }
    proof {
        assert forall|id: i64| has_hit(h, id) && !r@.contains(id) implies {
            &&& r@.len() == top_n
            &&& forall|i: int| 0 <= i < r@.len() ==> ranks_before(h, kk, #[trigger] r@[i], id)
        } by {
            let w = choose|w: int| 0 <= w < es@.len() && #[trigger] es@[w].id == id;
            assert forall|i: int| 0 <= i < r@.len() implies ranks_before(h, kk, #[trigger] r@[i], id) by {
                assert(ranks_before(h, kk, r@[i], es@[w].id));
            }
        }
    }
    r
}


proof fn lemma_all_hits_empty(chs: Seq<Seq<SearchHit>>)
    requires
        forall|c: int| 0 <= c < chs.len() ==> (#[trigger] chs[c]).len() == 0,
    ensures
        all_hits(chs) == Seq::<SearchHit>::empty(),
    decreases chs.len(),
{
    if chs.len() > 0 {
        let p = chs.drop_last();
        assert forall|c: int| 0 <= c < p.len() implies (#[trigger] p[c]).len() == 0 by {
            assert(p[c] == chs[c]);
        }
        lemma_all_hits_empty(p);
        assert(chs.last() == chs[chs.len() - 1]);
        assert(all_hits(chs) =~= Seq::<SearchHit>::empty());
    }
}

proof fn lemma_all_hits_one(chs: Seq<Seq<SearchHit>>, a: int)
    requires
        0 <= a < chs.len(),
        forall|c: int| 0 <= c < chs.len() && c != a ==> (#[trigger] chs[c]).len() == 0,
    ensures
        all_hits(chs) == chs[a],
    decreases chs.len(),
{
    let p = chs.drop_last();
    if a == chs.len() - 1 {
        assert forall|c: int| 0 <= c < p.len() implies (#[trigger] p[c]).len() == 0 by {
            assert(p[c] == chs[c]);
        }
        lemma_all_hits_empty(p);
        assert(all_hits(chs) =~= chs[a]);
    } else {
        assert forall|c: int| 0 <= c < p.len() && c != a implies (#[trigger] p[c]).len() == 0 by {
            assert(p[c] == chs[c]);
        }
        lemma_all_hits_one(p, a);
        assert(chs.last() == chs[chs.len() - 1]);
        assert(all_hits(chs) =~= chs[a]);
    }
}

proof fn lemma_score_single(hs: Seq<SearchHit>, k: int, i: int)
    requires
        0 <= i < hs.len(),
        forall|t: int| 0 <= t < hs.len() && t != i ==> (#[trigger] hs[t]).id != hs[i].id,
    ensures
        fused_score(hs, k, hs[i].id) == (1int, k + hs[i].rank),
    decreases hs.len(),
{
    let id = hs[i].id;
    let p = hs.drop_last();
    if i == hs.len() - 1 {
        assert(!has_hit(p, id)) by {
            if has_hit(p, id) {
                let t = choose|t: int| 0 <= t < p.len() && #[trigger] p[t].id == id;
                assert(hs[t] == p[t]);
            }
        }
        lemma_score_absent(p, k, id);
        assert(0 * (k + hs[i].rank) == 0) by (nonlinear_arith);
        assert(1 * (k + hs[i].rank) == k + hs[i].rank) by (nonlinear_arith);
    } else {
        assert forall|t: int| 0 <= t < p.len() && t != i implies (#[trigger] p[t]).id != p[i].id by {
            assert(p[t] == hs[t]);
        }
        lemma_score_single(p, k, i);
        assert(hs[hs.len() - 1].id != id);
    }
}

/// When every channel but one is empty, and that channel holds each id once
/// and ranks its hit `i` before its hit `j`, the fused order ranks the first
/// id before the second.
pub proof fn lemma_one_channel_order(chs: Seq<Seq<SearchHit>>, a: int, i: int, j: int, k: int)
    requires
        0 <= a < chs.len(),
        forall|c: int| 0 <= c < chs.len() && c != a ==> (#[trigger] chs[c]).len() == 0,
        0 <= i < chs[a].len(),
        0 <= j < chs[a].len(),
        forall|p: int, q: int| 0 <= p < q < chs[a].len() ==> (#[trigger] chs[a][p]).id != (#[trigger] chs[a][q]).id,
        chs[a][i].rank < chs[a][j].rank,
        k >= 0,
    ensures
        all_hits(chs) == chs[a],
        ranks_before(all_hits(chs), k, chs[a][i].id, chs[a][j].id),
{
    let hs = chs[a];
    lemma_all_hits_one(chs, a);
    assert forall|t: int| 0 <= t < hs.len() && t != i implies (#[trigger] hs[t]).id != hs[i].id by {
        if t < i {
            assert(hs[t].id != hs[i].id);
        } else {
            assert(hs[i].id != hs[t].id);
        }
    }
    assert forall|t: int| 0 <= t < hs.len() && t != j implies (#[trigger] hs[t]).id != hs[j].id by {
        if t < j {
            assert(hs[t].id != hs[j].id);
        } else {
            assert(hs[j].id != hs[t].id);
        }
    }
    lemma_score_single(hs, k, i);
    lemma_score_single(hs, k, j);
    assert(1 * (k + hs[j].rank) > 1 * (k + hs[i].rank)) by (nonlinear_arith)
        requires hs[i].rank < hs[j].rank;
}

/// The fused order is asymmetric: no two ids each come before the other.
pub proof fn lemma_ranks_before_asymmetric(hs: Seq<SearchHit>, k: int, x: i64, y: i64)
    ensures
        !(ranks_before(hs, k, x, y) && ranks_before(hs, k, y, x)),
{
}

/// A fused result keeps the fused order: when `x`, which has a hit, comes
/// before `y`, a result that holds `y` holds `x` ahead of it.
pub proof fn lemma_fused_top_keeps_order(hs: Seq<SearchHit>, k: int, top_n: int, r: Seq<i64>, x: i64, y: i64)
    requires
        is_fused_top(hs, k, top_n, r),
        has_hit(hs, x),
        ranks_before(hs, k, x, y),
    ensures
        r.contains(y) ==> exists|p: int, q: int| 0 <= p < q < r.len() && r[p] == x && r[q] == y,
{
    if r.contains(y) {
        let q = choose|q: int| 0 <= q < r.len() && r[q] == y;
        lemma_ranks_before_asymmetric(hs, k, x, y);
        if !r.contains(x) {
            assert(ranks_before(hs, k, r[q], x));
        } else {
            let p = choose|p: int| 0 <= p < r.len() && r[p] == x;
            if p > q {
                assert(ranks_before(hs, k, r[q], r[p]));
            }
            if p == q {
                assert(x == y);
                assert(!ranks_before(hs, k, x, x));
            }
            assert(0 <= p < q < r.len() && r[p] == x && r[q] == y);
        }
    }
}

/// When every channel but one is empty, and that channel holds each id once
/// and ranks `x` (its hit `i`) before `y` (its hit `j`), the fused order also
/// ranks `x` before `y`.
pub proof fn lemma_single_channel_keeps_order(channels: Seq<Vec<SearchHit>>, a: int, i: int, j: int, k: int)
    requires
        0 <= a < channels.len(),
        forall|c: int| 0 <= c < channels.len() && c != a ==> (#[trigger] channels[c])@.len() == 0,
        0 <= i < channels[a]@.len(),
        0 <= j < channels[a]@.len(),
        forall|p: int, q: int| 0 <= p < q < channels[a]@.len() ==> (#[trigger] channels[a]@[p]).id != (#[trigger] channels[a]@[q]).id,
        channels[a]@[i].rank < channels[a]@[j].rank,
        k >= 0,
    ensures
        ranks_before(all_hits(channel_views(channels)), k, channels[a]@[i].id, channels[a]@[j].id),
{
    let vs = channel_views(channels);
    assert forall|c: int| 0 <= c < vs.len() && c != a implies (#[trigger] vs[c]).len() == 0 by {
        assert(vs[c] == channels[c]@);
    }
    assert(vs[a] == channels[a]@);
    lemma_one_channel_order(vs, a, i, j, k);
}

} // verus!
