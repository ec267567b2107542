//! The deletion flow of an item: which entities to re-examine, which of them
//! to collect, and which blobs to remove.

use vstd::prelude::*;

verus! {

/// The entity references of an item.
#[derive(Debug, Clone, Copy, PartialEq, Eq, Structural)]
pub struct ItemRefs {
    pub tg_chat_id: Option<i64>,
    pub tg_user_id: Option<i64>,
}

/// The item references entity `e`.
pub open spec fn refs_entity(r: ItemRefs, e: i64) -> bool {
    r.tg_chat_id == Some(e) || r.tg_user_id == Some(e)
}

/// The number of items of `items` that reference `e`.
pub open spec fn count_refs(items: Seq<ItemRefs>, e: i64) -> nat
    decreases items.len(),
{
    if items.len() == 0 {
        0
    } else {
        count_refs(items.drop_last(), e) + if refs_entity(items.last(), e) { 1nat } else { 0nat }
    }
}

/// The entities a deleted item referenced: its chat, then its user.
pub open spec fn candidates_spec(r: ItemRefs) -> Seq<i64> {
    let c = match r.tg_chat_id { Some(c) => seq![c], None => Seq::empty() };
    match r.tg_user_id { Some(u) => c.push(u), None => c }
}

/// The candidates whose count of remaining items is zero.
pub open spec fn collect_spec(candidates: Seq<i64>, counts: Seq<i64>) -> Seq<i64>
    decreases candidates.len(),
{
    if candidates.len() == 0 || counts.len() == 0 {
        Seq::empty()
    } else {
        let p = collect_spec(candidates.drop_last(), counts.drop_last());
        if counts.last() == 0 { p.push(candidates.last()) } else { p }
    }
}

/// The entities to re-examine after deleting an item with references `r`.
pub fn entity_candidates(r: ItemRefs) -> (c: Vec<i64>)
    ensures
        c@ == candidates_spec(r),
{
    let mut v: Vec<i64> = Vec::new();
    match r.tg_chat_id {
        Some(c) => v.push(c),
        None => {},
    }
    match r.tg_user_id {
        Some(u) => v.push(u),
        None => {},
    }
    assert(v@ =~= candidates_spec(r));
    v
}

/// The entities to delete: the candidates that no remaining item references,
/// `counts[i]` being the number of remaining items that reference
/// `candidates[i]`.
pub fn entities_to_delete(candidates: &Vec<i64>, counts: &Vec<i64>) -> (r: Vec<i64>)
    requires
        candidates@.len() == counts@.len(),
    ensures
        r@ == collect_spec(candidates@, counts@),
{
    let mut out: Vec<i64> = Vec::new();
    let mut i: usize = 0;
    while i < candidates.len()
        invariant
            candidates@.len() == counts@.len(),
            i <= candidates@.len(),
            out@ == collect_spec(candidates@.subrange(0, i as int), counts@.subrange(0, i as int)),
        decreases candidates@.len() - i,
    {
        proof {
            let a = candidates@.subrange(0, i as int + 1);
            let b = counts@.subrange(0, i as int + 1);
            assert(a.drop_last() =~= candidates@.subrange(0, i as int));
            assert(b.drop_last() =~= counts@.subrange(0, i as int));
            assert(a.last() == candidates@[i as int]);
            assert(b.last() == counts@[i as int]);
        }
        if counts[i] == 0 {
            out.push(candidates[i]);
        }
        i = i + 1;
    }
    assert(candidates@.subrange(0, i as int) =~= candidates@);
    assert(counts@.subrange(0, i as int) =~= counts@);
    out
}

/// The blob keys to remove with an item: its media, then its thumbnail.
pub fn blob_keys(s3_key: Option<String>, thumbnail_key: Option<String>) -> (r: Vec<String>)
    ensures
        r@.len() == (if s3_key.is_some() { 1int } else { 0int }) + (if thumbnail_key.is_some() { 1int } else { 0int }),
        s3_key matches Some(k) ==> r@[0] == k,
        thumbnail_key matches Some(t) ==> r@[r@.len() - 1] == t,
{
    let mut v: Vec<String> = Vec::new();
    match s3_key {
        Some(k) => v.push(k),
        None => {},
    }
    match thumbnail_key {
        Some(t) => v.push(t),
        None => {},
    }
    v
}

proof fn lemma_collect_has(candidates: Seq<i64>, counts: Seq<i64>, i: int)
    requires
        candidates.len() == counts.len(),
        0 <= i < candidates.len(),
        counts[i] == 0,
    ensures
        collect_spec(candidates, counts).contains(candidates[i]),
    decreases candidates.len(),
{
    let n = candidates.len();
    if i == n - 1 {
        let p = collect_spec(candidates.drop_last(), counts.drop_last());
        assert(p.push(candidates.last())[p.len() as int] == candidates[i]);
    } else {
        lemma_collect_has(candidates.drop_last(), counts.drop_last(), i);
        let p = collect_spec(candidates.drop_last(), counts.drop_last());
        let w = choose|w: int| 0 <= w < p.len() && p[w] == candidates[i];
        if counts.last() == 0 {
            assert(p.push(candidates.last())[w] == candidates[i]);
        }
    }
}

/// Deleting the last item that references an entity collects the entity:
/// when the counts are those of the remaining items, every entity the
/// deleted item referenced that no remaining item references is deleted.
pub proof fn lemma_entity_gc(deleted: ItemRefs, remaining: Seq<ItemRefs>, counts: Seq<i64>, e: i64)
    requires
        counts.len() == candidates_spec(deleted).len(),
        forall|i: int| 0 <= i < counts.len() ==> counts[i] == count_refs(remaining, #[trigger] candidates_spec(deleted)[i]),
        refs_entity(deleted, e),
        count_refs(remaining, e) == 0,
    ensures
        collect_spec(candidates_spec(deleted), counts).contains(e),
{
    let c = candidates_spec(deleted);
    let i: int = if deleted.tg_chat_id == Some(e) { 0 } else { c.len() - 1 };
    assert(c[i] == e);
    assert(counts[i] == count_refs(remaining, c[i]));
    lemma_collect_has(c, counts, i);
}

} // verus!
