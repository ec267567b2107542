//! Hybrid retrieval: turning the recall channels' id lists into ranked hits,
//! fusing them, and the query's limit and type filter.

use vstd::prelude::*;
use crate::error::ApiError;
use crate::collections::{dedup_ids, first_occurrences, lemma_first_occurrences};
use crate::fusion::{
    all_hits, channel_views, fusible, has_hit, hit_count, is_fused_top, lemma_fused_top_keeps_order,
    lemma_one_channel_order, rrf_merge, SearchHit,
    MAX_HITS_PER_ID, PER_CHANNEL, RRF_K,
};

verus! {

/// The number of results when the query names none.
pub const DEFAULT_SEARCH_LIMIT: i64 = 50;

/// The most results one query returns.
pub const MAX_SEARCH_LIMIT: i64 = 100;

/// The most recall channels of one query: dense text, dense visual by text,
/// lexical, and dense visual by image.
pub const MAX_CHANNELS: usize = 4;

/// The number of results a query asks for: 50 when absent, at most 100, and
/// none for a negative count.
pub open spec fn search_limit_spec(limit: Option<i64>) -> int {
    match limit {
        None => DEFAULT_SEARCH_LIMIT as int,
        Some(l) => if l < 0 { 0 } else if l > MAX_SEARCH_LIMIT { MAX_SEARCH_LIMIT as int } else { l as int },
    }
}

/// The channel that a recall's id list gives: each id at its first
/// occurrence, at most `PER_CHANNEL` of them, ranked from 1 in order.
pub open spec fn ranked(ids: Seq<i64>) -> Seq<SearchHit> {
    let d = first_occurrences(ids);
    let t = if d.len() > PER_CHANNEL { d.subrange(0, PER_CHANNEL as int) } else { d };
    Seq::new(t.len(), |i: int| SearchHit { id: t[i], rank: (i + 1) as usize })
}

/// All recalls as channels.
pub open spec fn ranked_all(recalls: Seq<Vec<i64>>) -> Seq<Seq<SearchHit>> {
    recalls.map_values(|c: Vec<i64>| ranked(c@))
}

/// A query needs text or an image.
pub open spec fn query_is_valid(has_text: bool, has_image: bool) -> bool {
    has_text || has_image
}

/// A query needs text or an image; without either it is a bad request.
pub fn check_query(has_text: bool, has_image: bool) -> (r: Result<(), ApiError>)
    ensures
        r is Ok <==> query_is_valid(has_text, has_image),
        r matches Err(e) ==> e == ApiError::BadRequest,
{
    if has_text || has_image {
        Ok(())
    } else {
        Err(ApiError::BadRequest)
    }
}

/// The number of results a query asks for.
pub fn search_limit(limit: Option<i64>) -> (r: usize)
    ensures
        r as int == search_limit_spec(limit),
{
    match limit {
        None => DEFAULT_SEARCH_LIMIT as usize,
        Some(l) => {
            if l < 0 {
                0
            } else if l > MAX_SEARCH_LIMIT {
                MAX_SEARCH_LIMIT as usize
            } else {
                l as usize
            }
        },
    }
}

/// Whether a hydrated item of type `item_type` passes the query's type filter.
pub fn type_filter_keeps(filter: &Option<String>, item_type: &str) -> (r: bool)
    ensures
        r == match filter {
            None => true,
            Some(f) => f@ == item_type@,
        },
{
    match filter {
        None => true,
        Some(f) => crate::text::str_eq(f.as_str(), item_type),
    }
}

/// The ranked hits of one recall's id list.
pub fn ranked_hits(ids: &Vec<i64>) -> (r: Vec<SearchHit>)
    ensures
        r@ == ranked(ids@),
{
    let d = dedup_ids(ids);
    let n: usize = if d.len() > PER_CHANNEL { PER_CHANNEL } else { d.len() };
    let mut out: Vec<SearchHit> = Vec::new();
    let mut i: usize = 0;
    while i < n
        invariant
            n <= d@.len(),
            n <= PER_CHANNEL,
            d@ == first_occurrences(ids@),
            n == (if d@.len() > PER_CHANNEL { PER_CHANNEL as int } else { d@.len() as int }),
            i <= n,
            out@.len() == i,
            forall|t: int| 0 <= t < i ==> #[trigger] out@[t] == (SearchHit { id: d@[t], rank: (t + 1) as usize }),
        decreases n - i,
    {
        out.push(SearchHit { id: d[i], rank: i + 1 });
        i = i + 1;
    }
    assert(out@ =~= ranked(ids@));
    out
}

proof fn lemma_count_concat(a: Seq<SearchHit>, b: Seq<SearchHit>, id: i64)
    ensures
        hit_count(a + b, id) == hit_count(a, id) + hit_count(b, id),
    decreases b.len(),
{
    if b.len() > 0 {
        lemma_count_concat(a, b.drop_last(), id);
        assert((a + b).drop_last() =~= a + b.drop_last());
        assert((a + b).last() == b.last());
    } else {
        assert(a + b =~= a);
    }
}

proof fn lemma_count_distinct(c: Seq<SearchHit>, id: i64)
    requires
        forall|p: int, q: int| 0 <= p < q < c.len() ==> (#[trigger] c[p]).id != (#[trigger] c[q]).id,
    ensures
        hit_count(c, id) <= 1,
        hit_count(c, id) == 1 ==> exists|p: int| 0 <= p < c.len() && #[trigger] c[p].id == id,
    decreases c.len(),
{
    if c.len() > 0 {
        let p = c.drop_last();
        assert forall|x: int, y: int| 0 <= x < y < p.len() implies (#[trigger] p[x]).id != (#[trigger] p[y]).id by {
            assert(p[x] == c[x] && p[y] == c[y]);
        }
        lemma_count_distinct(p, id);
        if hit_count(p, id) == 1 && c.last().id == id {
            let w = choose|w: int| 0 <= w < p.len() && #[trigger] p[w].id == id;
            assert(c[w].id != c[c.len() - 1].id);
        }
        if hit_count(p, id) == 1 {
            let w = choose|w: int| 0 <= w < p.len() && #[trigger] p[w].id == id;
            assert(c[w].id == id);
        }
        if c.last().id == id {
            assert(c[c.len() - 1].id == id);
        }
    }
}

spec fn good_channel(c: Seq<SearchHit>) -> bool {
    &&& forall|p: int, q: int| 0 <= p < q < c.len() ==> (#[trigger] c[p]).id != (#[trigger] c[q]).id
    &&& forall|i: int| 0 <= i < c.len() ==> 1 <= (#[trigger] c[i]).rank <= PER_CHANNEL
}

proof fn lemma_ranked_good(ids: Seq<i64>)
    ensures
        good_channel(ranked(ids)),
{
    lemma_first_occurrences(ids);
    let d = first_occurrences(ids);
    let c = ranked(ids);
    assert forall|p: int, q: int| 0 <= p < q < c.len() implies (#[trigger] c[p]).id != (#[trigger] c[q]).id by {
        assert(c[p].id == d[p] && c[q].id == d[q]);
    }
}

proof fn lemma_all_good(chs: Seq<Seq<SearchHit>>, id: i64)
    requires
        forall|c: int| 0 <= c < chs.len() ==> good_channel(#[trigger] chs[c]),
    ensures
        hit_count(all_hits(chs), id) <= chs.len(),
        forall|i: int| 0 <= i < all_hits(chs).len() ==> 1 <= (#[trigger] all_hits(chs)[i]).rank <= PER_CHANNEL,
    decreases chs.len(),
{
    if chs.len() > 0 {
        let p = chs.drop_last();
        assert forall|c: int| 0 <= c < p.len() implies good_channel(#[trigger] p[c]) by {
            assert(p[c] == chs[c]);
        }
        lemma_all_good(p, id);
        assert(good_channel(chs[chs.len() - 1]));
        lemma_count_concat(all_hits(p), chs.last(), id);
        lemma_count_distinct(chs.last(), id);
        let a = all_hits(p);
        let l = chs.last();
        assert forall|i: int| 0 <= i < all_hits(chs).len() implies 1 <= (#[trigger] all_hits(chs)[i]).rank <= PER_CHANNEL by {
            if i < a.len() {
                assert(all_hits(chs)[i] == a[i]);
            } else {
                assert(all_hits(chs)[i] == l[i - a.len()]);
            }
        }
    }
}

/// Fuses the recalls of one query (at most four id lists, each in its
/// channel's order) and returns the best `limit` ids, best first.
pub fn fuse_recalls(recalls: &Vec<Vec<i64>>, limit: usize) -> (r: Vec<i64>)
    requires
        recalls@.len() <= MAX_CHANNELS,
    ensures
        is_fused_top(all_hits(ranked_all(recalls@)), RRF_K as int, limit as int, r@),
{
    let mut channels: Vec<Vec<SearchHit>> = Vec::new();
    let mut i: usize = 0;
    while i < recalls.len()
        invariant
            i <= recalls@.len(),
            channel_views(channels@) == ranked_all(recalls@).subrange(0, i as int),
        decreases recalls@.len() - i,
    {
        let c = ranked_hits(&recalls[i]);
        let ghost before = channels@;
        channels.push(c);
        proof {
            assert(channel_views(channels@) =~= channel_views(before).push(c@));
            assert(ranked_all(recalls@).subrange(0, i as int + 1) =~= ranked_all(recalls@).subrange(0, i as int).push(c@));
        }
        i = i + 1;
    }
    proof {
        let chs = ranked_all(recalls@);
        assert(chs.subrange(0, i as int) =~= chs);
        assert forall|c: int| 0 <= c < chs.len() implies good_channel(#[trigger] chs[c]) by {
            lemma_ranked_good(recalls@[c]@);
        }
        assert forall|id: i64| #[trigger] hit_count(all_hits(chs), id) <= MAX_HITS_PER_ID by {
            lemma_all_good(chs, id);
        }
        lemma_all_good(chs, 0);
        assert(fusible(all_hits(chs), RRF_K as int));
    }
    rrf_merge(channels, RRF_K, limit)
}


proof fn lemma_first_occurrences_distinct(s: Seq<i64>)
    requires
        s.no_duplicates(),
    ensures
        first_occurrences(s) == s,
    decreases s.len(),
{
    if s.len() > 0 {
        let p = s.drop_last();
        assert(p.no_duplicates()) by {
            assert forall|x: int, y: int| 0 <= x < y < p.len() implies p[x] != p[y] by {
                assert(p[x] == s[x] && p[y] == s[y]);
            }
        }
        lemma_first_occurrences_distinct(p);
        assert(!p.contains(s.last())) by {
            if p.contains(s.last()) {
                let w = choose|w: int| 0 <= w < p.len() && p[w] == s.last();
                assert(s[w] == s[s.len() - 1]);
            }
        }
        assert(p.push(s.last()) =~= s);
    }
}

/// When every recall but one is empty, and that recall lists each id once,
/// with `x` (its entry `i`) before `y` (its entry `j`, among the first
/// `PER_CHANNEL`), a fused result that holds `y` holds `x` ahead of it.
pub proof fn lemma_recall_order_kept(recalls: Seq<Vec<i64>>, a: int, i: int, j: int, limit: int, r: Seq<i64>)
    requires
        0 <= a < recalls.len(),
        forall|c: int| 0 <= c < recalls.len() && c != a ==> (#[trigger] recalls[c])@.len() == 0,
        recalls[a]@.no_duplicates(),
        0 <= i < j < recalls[a]@.len(),
        j < PER_CHANNEL,
        is_fused_top(all_hits(ranked_all(recalls)), RRF_K as int, limit, r),
    ensures
        r.contains(recalls[a]@[j]) ==> exists|p: int, q: int| 0 <= p < q < r.len()
            && r[p] == recalls[a]@[i] && r[q] == recalls[a]@[j],
{
    let chs = ranked_all(recalls);
    let s = recalls[a]@;
    lemma_first_occurrences_distinct(s);
    assert forall|c: int| 0 <= c < chs.len() && c != a implies (#[trigger] chs[c]).len() == 0 by {
        assert(recalls[c]@ =~= Seq::<i64>::empty());
        assert(first_occurrences(recalls[c]@) =~= Seq::<i64>::empty());
    }
    let h = chs[a];
    assert(h == ranked(s));
    assert(h[i] == SearchHit { id: s[i], rank: (i + 1) as usize });
    assert(h[j] == SearchHit { id: s[j], rank: (j + 1) as usize });
    assert forall|p: int, q: int| 0 <= p < q < h.len() implies (#[trigger] h[p]).id != (#[trigger] h[q]).id by {
        assert(h[p].id == s[p] && h[q].id == s[q]);
    }
    lemma_one_channel_order(chs, a, i, j, RRF_K as int);
    assert(has_hit(all_hits(chs), s[i])) by {
        assert(all_hits(chs)[i].id == s[i]);
    }
    lemma_fused_top_keeps_order(all_hits(chs), RRF_K as int, limit, r, s[i], s[j]);
}

} // verus!
