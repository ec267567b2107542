//! Reaction-driven tagging: reaction identities, the difference between the
//! old and new reactions of a message, and tag sets on items.
//!
//! The tag-set operations (`attach_tag`, `detach_tag`, `merge_tag_ids`) state
//! what the store's array updates do to an item's tags; the laws about them
//! hold of these functions, which model those updates.

use vstd::prelude::*;
use crate::text::str_eq;

verus! {

/// A reaction on a message of the submission surface.
#[derive(Debug, Clone)]
pub enum Reaction {
    /// A standard emoji.
    Emoji(String),
    /// A custom emoji, by its transport id.
    CustomEmoji(String),
    /// Any other kind of reaction, which names no tag.
    Other,
}

/// The kind of icon a tag is keyed on.
#[derive(Debug, Clone, Copy, PartialEq, Eq, Structural)]
pub enum IconType {
    Emoji,
    Tmoji,
}

impl IconType {
    /// The stored name of the icon type.
    pub fn name(&self) -> (r: &'static str)
        ensures
            r@ == icon_type_name(*self),
    {
        match self {
            IconType::Emoji => "emoji",
            IconType::Tmoji => "tmoji",
        }
    }

    /// The icon type a stored name denotes.
    pub fn from_name(name: &str) -> (r: Option<IconType>)
        ensures
            r == icon_type_of(name@),
    {
        if str_eq(name, "emoji") {
            Some(IconType::Emoji)
        } else if str_eq(name, "tmoji") {
            Some(IconType::Tmoji)
        } else {
            None
        }
    }
}

/// The stored name of an icon type.
pub open spec fn icon_type_name(t: IconType) -> Seq<char> {
    match t {
        IconType::Emoji => "emoji"@,
        IconType::Tmoji => "tmoji"@,
    }
}

/// The icon type a stored name denotes.
pub open spec fn icon_type_of(name: Seq<char>) -> Option<IconType> {
    if name == "emoji"@ {
        Some(IconType::Emoji)
    } else if name == "tmoji"@ {
        Some(IconType::Tmoji)
    } else {
        None
    }
}

/// The natural key of a tag: its icon type and value.
#[derive(Debug, Clone)]
pub struct TagKey {
    pub icon_type: IconType,
    pub icon_value: String,
}

/// A tag key as plain values.
pub open spec fn key_view(k: TagKey) -> (IconType, Seq<char>) {
    (k.icon_type, k.icon_value@)
}

/// Tag keys as plain values.
pub open spec fn key_views(ks: Seq<TagKey>) -> Seq<(IconType, Seq<char>)> {
    ks.map_values(|x: TagKey| key_view(x))
}

/// The tag key a reaction names, if any.
pub open spec fn reaction_key_spec(r: Reaction) -> Option<(IconType, Seq<char>)> {
    match r {
        Reaction::Emoji(e) => Some((IconType::Emoji, e@)),
        Reaction::CustomEmoji(id) => Some((IconType::Tmoji, id@)),
        Reaction::Other => None,
    }
}

/// The keys that the reactions name, in order.
pub open spec fn keys_of(rs: Seq<Reaction>) -> Seq<(IconType, Seq<char>)>
    decreases rs.len(),
{
    if rs.len() == 0 {
        Seq::empty()
    } else {
        let p = keys_of(rs.drop_last());
        match reaction_key_spec(rs.last()) {
            Some(k) => p.push(k),
            None => p,
        }
    }
}

/// The keys of `a` that are not in `b`, each once, in order of first occurrence.
pub open spec fn keys_minus(a: Seq<(IconType, Seq<char>)>, b: Seq<(IconType, Seq<char>)>) -> Seq<(IconType, Seq<char>)>
    decreases a.len(),
{
    if a.len() == 0 {
        Seq::empty()
    } else {
        let p = keys_minus(a.drop_last(), b);
        let k = a.last();
        if b.contains(k) || p.contains(k) { p } else { p.push(k) }
    }
}

/// The tag key a reaction names, if any.
pub fn reaction_key(r: &Reaction) -> (k: Option<TagKey>)
    ensures
        match k {
            Some(k) => reaction_key_spec(*r) == Some(key_view(k)),
            None => reaction_key_spec(*r).is_none(),
        },
{
    match r {
        Reaction::Emoji(e) => Some(TagKey { icon_type: IconType::Emoji, icon_value: e.clone() }),
        Reaction::CustomEmoji(id) => Some(TagKey { icon_type: IconType::Tmoji, icon_value: id.clone() }),
        Reaction::Other => None,
    }
}

/// Whether two keys are equal.
fn key_eq(a: &TagKey, b: &TagKey) -> (r: bool)
    ensures
        r == (key_view(*a) == key_view(*b)),
{
    a.icon_type == b.icon_type && str_eq(a.icon_value.as_str(), b.icon_value.as_str())
}

/// Whether `ks` holds a key equal to `k`.
fn has_key(ks: &Vec<TagKey>, k: &TagKey) -> (r: bool)
    ensures
        r == key_views(ks@).contains(key_view(*k)),
{
    let ghost v = key_views(ks@);
    let mut i: usize = 0;
    while i < ks.len()
        invariant
            i <= ks@.len(),
            v == key_views(ks@),
            forall|j: int| 0 <= j < i ==> v[j] != key_view(*k),
        decreases ks@.len() - i,
    {
        if key_eq(&ks[i], k) {
            assert(v[i as int] == key_view(*k));
            return true;
        }
        i = i + 1;
    }
    false
}

/// The keys that the reactions name, in order.
fn reaction_keys(rs: &Vec<Reaction>) -> (r: Vec<TagKey>)
    ensures
        key_views(r@) == keys_of(rs@),
{
    let mut out: Vec<TagKey> = Vec::new();
    let mut i: usize = 0;
    while i < rs.len()
        invariant
            i <= rs@.len(),
            key_views(out@) == keys_of(rs@.subrange(0, i as int)),
        decreases rs@.len() - i,
    {
        proof {
            let p = rs@.subrange(0, i as int + 1);
            assert(p.drop_last() =~= rs@.subrange(0, i as int));
            assert(p.last() == rs@[i as int]);
        }
        match reaction_key(&rs[i]) {
            Some(k) => {
                let ghost before = out@;
                out.push(k);
                assert(key_views(out@) =~= key_views(before).push(key_view(k)));
            },
            None => {},
        }
        i = i + 1;
    }
    assert(rs@.subrange(0, i as int) =~= rs@);
    out
}

/// The keys of `a` not in `b`, each once, in order.
fn minus_keys(a: &Vec<TagKey>, b: &Vec<TagKey>) -> (r: Vec<TagKey>)
    ensures
        key_views(r@) == keys_minus(key_views(a@), key_views(b@)),
{
    let ghost av = key_views(a@);
    let ghost bv = key_views(b@);
    let mut out: Vec<TagKey> = Vec::new();
    let mut i: usize = 0;
    while i < a.len()
        invariant
            i <= a@.len(),
            av == key_views(a@),
            bv == key_views(b@),
            key_views(out@) == keys_minus(av.subrange(0, i as int), bv),
        decreases a@.len() - i,
    {
        let k = &a[i];
        proof {
            let p = av.subrange(0, i as int + 1);
            assert(p.drop_last() =~= av.subrange(0, i as int));
            assert(p.last() == key_view(*k));
        }
        if !has_key(b, k) && !has_key(&out, k) {
            let c = TagKey { icon_type: k.icon_type, icon_value: k.icon_value.clone() };
            let ghost before = out@;
            out.push(c);
            assert(key_views(out@) =~= key_views(before).push(key_view(*k)));
        }
        i = i + 1;
    }
    assert(av.subrange(0, i as int) =~= av);
    out
}

/// The tag keys that a reaction update adds and removes: the keys of the new
/// reactions that the old ones lack, and the reverse, each once.
pub fn diff_reactions(old_reactions: &Vec<Reaction>, new_reactions: &Vec<Reaction>) -> (r: (Vec<TagKey>, Vec<TagKey>))
    ensures
        key_views(r.0@) == keys_minus(keys_of(new_reactions@), keys_of(old_reactions@)),
        key_views(r.1@) == keys_minus(keys_of(old_reactions@), keys_of(new_reactions@)),
{
    let o = reaction_keys(old_reactions);
    let n = reaction_keys(new_reactions);
    let added = minus_keys(&n, &o);
    let removed = minus_keys(&o, &n);
    (added, removed)
}


/// `tags` with `id` attached: unchanged when present, else appended.
pub open spec fn attach_spec(tags: Seq<i32>, id: i32) -> Seq<i32> {
    if tags.contains(id) { tags } else { tags.push(id) }
}

/// `tags` without any occurrence of `id`.
pub open spec fn detach_spec(tags: Seq<i32>, id: i32) -> Seq<i32>
    decreases tags.len(),
{
    if tags.len() == 0 {
        tags
    } else {
        let p = detach_spec(tags.drop_last(), id);
        if tags.last() == id { p } else { p.push(tags.last()) }
    }
}

/// The set of the ids of `s`: each at its first occurrence.
pub open spec fn tag_set(s: Seq<i32>) -> Seq<i32>
    decreases s.len(),
{
    if s.len() == 0 {
        s
    } else {
        attach_spec(tag_set(s.drop_last()), s.last())
    }
}

/// Whether `tags` holds `id`.
fn has_tag(tags: &Vec<i32>, id: i32) -> (r: bool)
    ensures
        r == tags@.contains(id),
{
    let mut i: usize = 0;
    while i < tags.len()
        invariant
            i <= tags@.len(),
            forall|j: int| 0 <= j < i ==> tags@[j] != id,
        decreases tags@.len() - i,
    {
        if tags[i] == id {
            return true;
        }
        i = i + 1;
    }
    false
}

/// Attaches the tag `id` to an item's tag set.
pub fn attach_tag(tags: &mut Vec<i32>, id: i32)
    ensures
        final(tags)@ == attach_spec(old(tags)@, id),
{
    if !has_tag(tags, id) {
        tags.push(id);
    }
}

/// Detaches the tag `id` from an item's tag set.
pub fn detach_tag(tags: &Vec<i32>, id: i32) -> (r: Vec<i32>)
    ensures
        r@ == detach_spec(tags@, id),
        !r@.contains(id),
{
    let mut out: Vec<i32> = Vec::new();
    let mut i: usize = 0;
    while i < tags.len()
        invariant
            i <= tags@.len(),
            out@ == detach_spec(tags@.subrange(0, i as int), id),
            !out@.contains(id),
        decreases tags@.len() - i,
    {
        proof {
            let p = tags@.subrange(0, i as int + 1);
            assert(p.drop_last() =~= tags@.subrange(0, i as int));
            assert(p.last() == tags@[i as int]);
        }
        if tags[i] != id {
            let ghost before = out@;
            out.push(tags[i]);
            proof {
                assert forall|j: int| 0 <= j < out@.len() implies out@[j] != id by {
                    if j < before.len() {
                        assert(out@[j] == before[j]);
                    }
                }
            }
        }
        i = i + 1;
    }
    assert(tags@.subrange(0, i as int) =~= tags@);
    out
}

/// The union of an item's tags and inherited ones, each once.
pub fn merge_tag_ids(tags: &Vec<i32>, inherited: &Vec<i32>) -> (r: Vec<i32>)
    ensures
        r@ == tag_set(tags@ + inherited@),
{
    let ghost all = tags@ + inherited@;
    let mut out: Vec<i32> = Vec::new();
    let mut i: usize = 0;
    while i < tags.len()
        invariant
            all == tags@ + inherited@,
            i <= tags@.len(),
            out@ == tag_set(all.subrange(0, i as int)),
        decreases tags@.len() - i,
    {
        let x = tags[i];
        proof {
            assert(all[i as int] == x);
            let p = all.subrange(0, i as int + 1);
            assert(p.drop_last() =~= all.subrange(0, i as int));
            assert(p.last() == x);
        }
        attach_tag(&mut out, x);
        i = i + 1;
    }
    let mut j: usize = 0;
    while j < inherited.len()
        invariant
            all == tags@ + inherited@,
            j <= inherited@.len(),
            out@ == tag_set(all.subrange(0, tags@.len() + j)),
        decreases inherited@.len() - j,
    {
        let x = inherited[j];
        proof {
            let n = tags@.len() + j;
            assert(all[n] == x);
            let p = all.subrange(0, n + 1);
            assert(p.drop_last() =~= all.subrange(0, n));
            assert(p.last() == x);
        }
        attach_tag(&mut out, x);
        j = j + 1;
    }
    assert(all.subrange(0, tags@.len() + j) =~= all);
    out
}

/// Attaching a tag twice is attaching it once: a repeated reaction event
/// leaves the item's tags as the first left them.
pub proof fn lemma_attach_idempotent(tags: Seq<i32>, id: i32)
    ensures
        attach_spec(attach_spec(tags, id), id) == attach_spec(tags, id),
        attach_spec(tags, id).contains(id),
{
    if !tags.contains(id) {
        assert(tags.push(id)[tags.len() as int] == id);
    }
}

/// Deleting a tag detaches it from every item: afterwards no item's tag set
/// holds its id.
pub proof fn lemma_tag_delete_clears(item_tags: Seq<Seq<i32>>, id: i32)
    ensures
        forall|i: int| 0 <= i < item_tags.len() ==> !detach_spec(#[trigger] item_tags[i], id).contains(id),
{
    assert forall|i: int| 0 <= i < item_tags.len() implies !detach_spec(#[trigger] item_tags[i], id).contains(id) by {
        lemma_detach_clears(item_tags[i], id);
    }
}

proof fn lemma_detach_clears(tags: Seq<i32>, id: i32)
    ensures
        !detach_spec(tags, id).contains(id),
        forall|x: i32| x != id ==> (detach_spec(tags, id).contains(x) <==> tags.contains(x)),
    decreases tags.len(),
{
    if tags.len() > 0 {
        let p = tags.drop_last();
        lemma_detach_clears(p, id);
        let d = detach_spec(p, id);
        let l = tags.last();
        assert forall|x: i32| tags.contains(x) <==> (p.contains(x) || x == l) by {
            if tags.contains(x) && x != l {
                let j = choose|j: int| 0 <= j < tags.len() && tags[j] == x;
                assert(p[j] == x);
            }
            if p.contains(x) {
                let j = choose|j: int| 0 <= j < p.len() && p[j] == x;
                assert(tags[j] == x);
            }
            if x == l {
                assert(tags[tags.len() - 1] == x);
            }
        }
        if l != id {
            assert forall|x: i32| d.push(l).contains(x) <==> (d.contains(x) || x == l) by {
                if d.push(l).contains(x) && x != l {
                    let j = choose|j: int| 0 <= j < d.push(l).len() && d.push(l)[j] == x;
                    assert(d[j] == x);
                }
                if d.contains(x) {
                    let j = choose|j: int| 0 <= j < d.len() && d[j] == x;
                    assert(d.push(l)[j] == x);
                }
                if x == l {
                    assert(d.push(l)[d.len() as int] == x);
                }
            }
        }
    }
}

} // verus!
