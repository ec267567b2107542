//! The submission payload that a task carries, as plain values.

use vstd::prelude::*;
use crate::text::{dec_int, i64_to_text, parse_i64, parse_i64_spec, str_eq, trim, trim_spec};

verus! {

/// The kind of content an item holds.
#[derive(Debug, Clone, Copy, PartialEq, Eq, Structural)]
pub enum ItemType {
    Image,
    Video,
    Text,
}

/// The name under which an item type is stored.
pub open spec fn item_type_name(t: ItemType) -> Seq<char> {
    match t {
        ItemType::Image => "image"@,
        ItemType::Video => "video"@,
        ItemType::Text => "text"@,
    }
}

/// The item type a stored name denotes: `image`, `video`, and `text` for
/// anything else.
pub open spec fn item_type_of(name: Seq<char>) -> ItemType {
    if name == "image"@ {
        ItemType::Image
    } else if name == "video"@ {
        ItemType::Video
    } else {
        ItemType::Text
    }
}

impl ItemType {
    /// The stored name.
    pub fn name(&self) -> (r: &'static str)
        ensures
            r@ == item_type_name(*self),
    {
        match self {
            ItemType::Image => "image",
            ItemType::Video => "video",
            ItemType::Text => "text",
        }
    }

    /// The item type that a stored name denotes.
    pub fn from_name(name: &str) -> (r: ItemType)
        ensures
            r == item_type_of(name@),
    {
        if str_eq(name, "image") {
            ItemType::Image
        } else if str_eq(name, "video") {
            ItemType::Video
        } else {
            ItemType::Text
        }
    }
}

/// The album id field of a payload, as the JSON held it.
#[derive(Debug, Clone)]
pub enum GroupField {
    Absent,
    /// A JSON string.
    Text(String),
    /// A JSON number that is an `i64`.
    Integer(i64),
    /// Another JSON number, as its JSON text.
    OtherNumber(String),
    /// Any other JSON value.
    Other,
}

/// The album key of a payload: a non-blank string as it is, a number as its
/// text, nothing otherwise.
pub open spec fn group_key_spec(g: GroupField) -> Option<Seq<char>> {
    match g {
        GroupField::Text(s) => if trim_spec(s@).len() > 0 { Some(s@) } else { None },
        GroupField::Integer(n) => Some(dec_int(n as int)),
        GroupField::OtherNumber(t) => Some(t@),
        _ => None,
    }
}

/// The album id stored on an item: an `i64` number, or a string that parses
/// as one.
pub open spec fn group_number_spec(g: GroupField) -> Option<i64> {
    match g {
        GroupField::Integer(n) => Some(n),
        GroupField::Text(s) => parse_i64_spec(s@),
        _ => None,
    }
}

/// The album key of a payload.
pub fn group_key(g: &GroupField) -> (r: Option<String>)
    ensures
        match r {
            Some(s) => group_key_spec(*g) == Some(s@),
            None => group_key_spec(*g).is_none(),
        },
{
    match g {
        GroupField::Text(s) => {
            if trim(s.as_str()).unicode_len() > 0 {
                Some(s.clone())
            } else {
                None
            }
        },
        GroupField::Integer(n) => Some(i64_to_text(*n)),
        GroupField::OtherNumber(t) => Some(t.clone()),
        _ => None,
    }
}

/// The album id stored on an item.
pub fn group_number(g: &GroupField) -> (r: Option<i64>)
    ensures
        r == group_number_spec(*g),
{
    match g {
        GroupField::Integer(n) => Some(*n),
        GroupField::Text(s) => parse_i64(s.as_str()),
        _ => None,
    }
}

/// The tag ids a payload's list names: its integers that fit in `i32`, in order.
pub open spec fn tag_ids_spec(raw: Seq<Option<i64>>) -> Seq<i32>
    decreases raw.len(),
{
    if raw.len() == 0 {
        Seq::empty()
    } else {
        let p = tag_ids_spec(raw.drop_last());
        match raw.last() {
            Some(n) => if i32::MIN <= n && n <= i32::MAX { p.push(n as i32) } else { p },
            None => p,
        }
    }
}

/// The tag ids a payload's list names.
pub fn payload_tag_ids(raw: &Vec<Option<i64>>) -> (r: Vec<i32>)
    ensures
        r@ == tag_ids_spec(raw@),
{
    let mut out: Vec<i32> = Vec::new();
    let mut i: usize = 0;
    while i < raw.len()
        invariant
            i <= raw@.len(),
            out@ == tag_ids_spec(raw@.subrange(0, i as int)),
        decreases raw@.len() - i,
    {
        proof {
            let s = raw@.subrange(0, i as int + 1);
            assert(s.drop_last() =~= raw@.subrange(0, i as int));
            assert(s.last() == raw@[i as int]);
        }
        match raw[i] {
            Some(n) => {
                if i32::MIN as i64 <= n && n <= i32::MAX as i64 {
                    out.push(n as i32);
                }
            },
            None => {},
        }
        i = i + 1;
    }
    assert(raw@.subrange(0, raw@.len() as int) =~= raw@);
    out
}

/// A task's payload: what the submission carried.
#[derive(Debug, Clone)]
pub struct Payload {
    /// The transport's file id, for media.
    pub file_id: Option<String>,
    pub item_type: ItemType,
    pub content_text: String,
    pub group: GroupField,
    /// The payload's `tag_ids`, each as an `i64` where it is one.
    pub raw_tag_ids: Vec<Option<i64>>,
    /// The name of a privacy-masked forward origin.
    pub forward_sender_name: Option<String>,
}

} // verus!
