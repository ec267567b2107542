//! The read API's listings: page sizes, timeline and random modes, album
//! expansion of random picks, tag lookups, and cursors.

use vstd::prelude::*;
use crate::collections::{first_occurrences, contains_id};

verus! {

/// Items per page when the request names no count.
pub const DEFAULT_ITEMS_LIMIT: i64 = 20;

/// Entities per page when the request names no count.
pub const DEFAULT_ENTITIES_LIMIT: i64 = 10;

/// The most rows one page holds.
pub const MAX_PAGE_LIMIT: i64 = 100;

/// How items are listed.
#[derive(Debug, Clone, Copy, PartialEq, Eq, Structural)]
pub enum ListMode {
    /// Newest first, paged by a cursor of decreasing ids.
    Timeline,
    /// A random sample, with the albums of the picks completed.
    Random,
}

/// The list mode a request names: `random`, and the timeline otherwise.
pub fn list_mode(mode: Option<&str>) -> (r: ListMode)
    ensures
        r == (if mode matches Some(m) && m@ == "random"@ { ListMode::Random } else { ListMode::Timeline }),
{
    match mode {
        Some(m) => if crate::text::str_eq(m, "random") { ListMode::Random } else { ListMode::Timeline },
        None => ListMode::Timeline,
    }
}

/// The page size of an item listing: 20 when absent, at most 100, none for a
/// negative count.
pub open spec fn items_limit_spec(limit: Option<i64>) -> i64 {
    match limit {
        None => DEFAULT_ITEMS_LIMIT,
        Some(l) => if l < 0 { 0 } else if l > MAX_PAGE_LIMIT { MAX_PAGE_LIMIT } else { l },
    }
}

/// The page size of an item listing.
pub fn items_limit(limit: Option<i64>) -> (r: i64)
    ensures
        r == items_limit_spec(limit),
{
    match limit {
        None => DEFAULT_ITEMS_LIMIT,
        Some(l) => if l < 0 { 0 } else if l > MAX_PAGE_LIMIT { MAX_PAGE_LIMIT } else { l },
    }
}

/// The page size of an entity listing: 10 when absent, clamped to 1..=100.
pub open spec fn entities_limit_spec(limit: Option<i64>) -> i64 {
    match limit {
        None => DEFAULT_ENTITIES_LIMIT,
        Some(l) => if l < 1 { 1 } else if l > MAX_PAGE_LIMIT { MAX_PAGE_LIMIT } else { l },
    }
}

/// The page size of an entity listing.
pub fn entities_limit(limit: Option<i64>) -> (r: i64)
    ensures
        r == entities_limit_spec(limit),
{
    match limit {
        None => DEFAULT_ENTITIES_LIMIT,
        Some(l) => if l < 1 { 1 } else if l > MAX_PAGE_LIMIT { MAX_PAGE_LIMIT } else { l },
    }
}

/// The id cursor a listing applies: the request's, in timeline mode only.
pub fn effective_cursor(mode: ListMode, cursor: Option<i64>) -> (r: Option<i64>)
    ensures
        r == (if mode == ListMode::Timeline { cursor } else { None }),
{
    if mode == ListMode::Timeline { cursor } else { None }
}

/// The album ids of the picked rows, each once, in order.
pub open spec fn album_ids_spec(groups: Seq<Option<i64>>) -> Seq<i64>
    decreases groups.len(),
{
    if groups.len() == 0 {
        Seq::empty()
    } else {
        let p = album_ids_spec(groups.drop_last());
        match groups.last() {
            Some(g) => if p.contains(g) { p } else { p.push(g) },
            None => p,
        }
    }
}

/// The album ids of the picked rows, each once, in order: in random mode
/// every member of these albums is listed too.
pub fn album_ids(groups: &Vec<Option<i64>>) -> (r: Vec<i64>)
    ensures
        r@ == album_ids_spec(groups@),
{
    let mut out: Vec<i64> = Vec::new();
    let mut i: usize = 0;
    while i < groups.len()
        invariant
            i <= groups@.len(),
            out@ == album_ids_spec(groups@.subrange(0, i as int)),
        decreases groups@.len() - i,
    {
        proof {
            let p = groups@.subrange(0, i as int + 1);
            assert(p.drop_last() =~= groups@.subrange(0, i as int));
            assert(p.last() == groups@[i as int]);
        }
        match groups[i] {
            Some(g) => {
                if !contains_id(&out, g) {
                    out.push(g);
                }
            },
            None => {},
        }
        i = i + 1;
    }
    assert(groups@.subrange(0, i as int) =~= groups@);
    out
}

/// Which rows a listing keeps: each item at its first row only.
pub fn first_rows(ids: &Vec<i64>) -> (r: Vec<bool>)
    ensures
        r@.len() == ids@.len(),
        forall|i: int| 0 <= i < ids@.len() ==> #[trigger] r@[i] == !ids@.subrange(0, i).contains(ids@[i]),
{
    let mut out: Vec<bool> = Vec::new();
    let mut seen: Vec<i64> = Vec::new();
    let mut i: usize = 0;
    while i < ids.len()
        invariant
            i <= ids@.len(),
            out@.len() == i,
            seen@ == ids@.subrange(0, i as int),
            forall|j: int| 0 <= j < i ==> #[trigger] out@[j] == !ids@.subrange(0, j).contains(ids@[j]),
        decreases ids@.len() - i,
    {
        let x = ids[i];
        let fresh = !contains_id(&seen, x);
        out.push(fresh);
        seen.push(x);
        assert(seen@ =~= ids@.subrange(0, i as int + 1));
        i = i + 1;
    }
    out
}

/// Which rows a listing may show: an item is visible exactly when a task
/// that completed names it, `completed` being the items of such tasks.
pub fn visible_rows(ids: &Vec<i64>, completed: &Vec<i64>) -> (r: Vec<bool>)
    ensures
        r@.len() == ids@.len(),
        forall|i: int| 0 <= i < ids@.len() ==> (#[trigger] r@[i] <==> completed@.contains(ids@[i])),
{
    let mut out: Vec<bool> = Vec::new();
    let mut i: usize = 0;
    while i < ids.len()
        invariant
            i <= ids@.len(),
            out@.len() == i,
            forall|j: int| 0 <= j < i ==> (#[trigger] out@[j] <==> completed@.contains(ids@[j])),
        decreases ids@.len() - i,
    {
        out.push(contains_id(completed, ids[i]));
        i = i + 1;
    }
    out
}

/// An item appears on a listing page exactly when it is among the page's
/// rows, at its first row, and its task completed.
pub proof fn lemma_listing_visibility(ids: Seq<i64>, completed: Seq<i64>, keep: Seq<bool>, visible: Seq<bool>, x: i64)
    requires
        keep.len() == ids.len(),
        visible.len() == ids.len(),
        forall|i: int| 0 <= i < ids.len() ==> #[trigger] keep[i] == !ids.subrange(0, i).contains(ids[i]),
        forall|i: int| 0 <= i < ids.len() ==> (#[trigger] visible[i] <==> completed.contains(ids[i])),
    ensures
        (exists|i: int| 0 <= i < ids.len() && ids[i] == x && keep[i] && visible[i])
            <==> (ids.contains(x) && completed.contains(x)),
{
    if ids.contains(x) && completed.contains(x) {
        let w = choose|w: int| 0 <= w < ids.len() && ids[w] == x;
        let first = first_index(ids, w);
        assert(!ids.subrange(0, first).contains(ids[first])) by {
            if ids.subrange(0, first).contains(ids[first]) {
                let g = choose|g: int| 0 <= g < first && ids.subrange(0, first)[g] == ids[first];
                assert(ids[g] == x);
            }
        }
        assert(keep[first] && visible[first]);
    }
}

proof fn first_index(ids: Seq<i64>, w: int) -> (f: int)
    requires
        0 <= w < ids.len(),
    ensures
        0 <= f <= w,
        ids[f] == ids[w],
        forall|g: int| 0 <= g < f ==> ids[g] != ids[w],
    decreases w,
{
    if exists|g: int| 0 <= g < w && ids[g] == ids[w] {
        let g = choose|g: int| 0 <= g < w && ids[g] == ids[w];
        first_index(ids, g)
    } else {
        w
    }
}

/// The ids of `tags` that `known` holds, in the order of `tags`: the tag
/// objects an item shows.
pub open spec fn known_tags_spec(tags: Seq<i32>, known: Seq<i32>) -> Seq<i32>
    decreases tags.len(),
{
    if tags.len() == 0 {
        tags
    } else {
        let p = known_tags_spec(tags.drop_last(), known);
        if known.contains(tags.last()) { p.push(tags.last()) } else { p }
    }
}

/// The ids of `tags` that `known` holds, in the order of `tags`.
pub fn known_tags(tags: &Vec<i32>, known: &Vec<i32>) -> (r: Vec<i32>)
    ensures
        r@ == known_tags_spec(tags@, known@),
{
    let mut out: Vec<i32> = Vec::new();
    let mut i: usize = 0;
    while i < tags.len()
        invariant
            i <= tags@.len(),
            out@ == known_tags_spec(tags@.subrange(0, i as int), known@),
        decreases tags@.len() - i,
    {
        proof {
            let p = tags@.subrange(0, i as int + 1);
            assert(p.drop_last() =~= tags@.subrange(0, i as int));
            assert(p.last() == tags@[i as int]);
        }
        let mut j: usize = 0;
        let mut found = false;
        while j < known.len()
            invariant
                i < tags@.len(),
                j <= known@.len(),
                found == known@.subrange(0, j as int).contains(tags@[i as int]),
            decreases known@.len() - j,
        {
            proof {
                let q = known@.subrange(0, j as int + 1);
                assert(q =~= known@.subrange(0, j as int).push(known@[j as int]));
                if known@.subrange(0, j as int).contains(tags@[i as int]) {
                    let k = choose|k: int| 0 <= k < j && known@.subrange(0, j as int)[k] == tags@[i as int];
                    assert(q[k] == tags@[i as int]);
                }
                if q.contains(tags@[i as int]) && known@[j as int] != tags@[i as int] {
                    let k = choose|k: int| 0 <= k < q.len() && q[k] == tags@[i as int];
                    assert(known@.subrange(0, j as int)[k] == tags@[i as int]);
                }
                if known@[j as int] == tags@[i as int] {
                    assert(q[j as int] == tags@[i as int]);
                }
            }
            if known[j] == tags[i] {
                found = true;
            }
            j = j + 1;
        }
        assert(known@.subrange(0, j as int) =~= known@);
        if found {
            out.push(tags[i]);
        }
        i = i + 1;
    }
    assert(tags@.subrange(0, i as int) =~= tags@);
    out
}

/// The distinct tag ids of `all`, ascending: the batched tag lookup of a page.
pub fn sorted_unique_tags(all: &Vec<i32>) -> (r: Vec<i32>)
    ensures
        forall|i: int, j: int| 0 <= i < j < r@.len() ==> r@[i] < r@[j],
        forall|x: i32| r@.contains(x) <==> all@.contains(x),
{
    let mut out: Vec<i32> = Vec::new();
    let mut i: usize = 0;
    while i < all.len()
        invariant
            i <= all@.len(),
            forall|a: int, b: int| 0 <= a < b < out@.len() ==> out@[a] < out@[b],
            forall|x: i32| out@.contains(x) <==> all@.subrange(0, i as int).contains(x),
        decreases all@.len() - i,
    {
        let x = all[i];
        let mut p: usize = 0;
        while p < out.len() && out[p] < x
            invariant
                p <= out@.len(),
                forall|a: int| 0 <= a < p ==> out@[a] < x,
            decreases out@.len() - p,
        {
            p = p + 1;
        }
        let ghost o0 = out@;
        let ghost grew = false;
        if p == out.len() || out[p] != x {
            out.insert(p, x);
            proof {
                grew = true;
                assert(out@ == o0.insert(p as int, x));
                assert forall|k: int| 0 <= k < p implies out@[k] == o0[k] by {}
                assert forall|k: int| p < k < out@.len() implies out@[k] == o0[k - 1] by {}
                assert(out@[p as int] == x);
                assert forall|a: int, b: int| 0 <= a < b < out@.len() implies out@[a] < out@[b] by {
                    if b < p {
                        assert(out@[a] == o0[a] && out@[b] == o0[b]);
                    } else if b == p {
                        assert(out@[a] == o0[a]);
                    } else if a < p {
                        assert(out@[a] == o0[a] && out@[b] == o0[b - 1]);
                        if p < o0.len() {
                            assert(o0[p as int] > x);
                            assert(o0[p as int] <= o0[b - 1]);
                        }
                    } else if a == p {
                        assert(out@[b] == o0[b - 1]);
                        assert(o0[p as int] > x);
                        assert(o0[p as int] <= o0[b - 1]);
                    } else {
                        assert(out@[a] == o0[a - 1] && out@[b] == o0[b - 1]);
                    }
                }
            }
        }
        proof {
            let s = all@.subrange(0, i as int + 1);
            assert(s =~= all@.subrange(0, i as int).push(x));
            assert forall|y: i32| out@.contains(y) <==> s.contains(y) by {
                if !grew {
                    assert(out@ == o0);
                    assert(p < o0.len() && o0[p as int] == x);
                } else {
                    assert(out@ == o0.insert(p as int, x));
                    assert forall|k: int| 0 <= k < p implies out@[k] == o0[k] by {}
                    assert forall|k: int| p <= k < o0.len() implies out@[k + 1] == o0[k] by {}
                }
                if out@.contains(y) {
                    let k = choose|k: int| 0 <= k < out@.len() && out@[k] == y;
                    if y != x {
                        if grew {
                            assert(out@ == o0.insert(p as int, x));
                            if k < p { assert(out@[k] == o0[k]); } else { assert(out@[k] == o0[k - 1]); }
                        } else {
                            assert(o0[k] == y);
                        }
                        assert(o0.contains(y));
                        let m = choose|m: int| 0 <= m < i && all@.subrange(0, i as int)[m] == y;
                        assert(s[m] == y);
                    } else {
                        assert(s[i as int] == x);
                    }
                }
                if s.contains(y) {
                    if y == x {
                        assert(out@[p as int] == x);
                    } else {
                        let m = choose|m: int| 0 <= m < s.len() && s[m] == y;
                        assert(s[i as int] == x);
                        assert(m < i);
                        assert(all@.subrange(0, i as int)[m] == y);
                        assert(all@.subrange(0, i as int).contains(y));
                        assert(o0.contains(y));
                        let k = choose|k: int| 0 <= k < o0.len() && o0[k] == y;
                        if grew {
                            assert(out@ == o0.insert(p as int, x));
                            if k < p { assert(out@[k] == o0[k]); } else { assert(out@[k + 1] == o0[k]); }
                        } else {
                            assert(out@[k] == y);
                        }
                    }
                }
            }
        }
        i = i + 1;
    }
    assert(all@.subrange(0, i as int) =~= all@);
    out
}

/// The cursor of the next page of a listing: the last id of a full
/// timeline page, nothing otherwise.
pub fn next_item_cursor(mode: ListMode, page_len: usize, limit: i64, last_id: Option<i64>) -> (r: Option<i64>)
    ensures
        r == (if mode == ListMode::Timeline && page_len as int == limit as int { last_id } else { None }),
{
    if mode == ListMode::Timeline && limit >= 0 && page_len as u64 == limit as u64 {
        last_id
    } else {
        None
    }
}

} // verus!
