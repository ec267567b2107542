//! The entity listing's cursor: `"<rfc3339>|<id>"`, paging by
//! `(updated_at, id)` descending.

use vstd::prelude::*;
use crate::text::{dec_int, parse_i64, parse_i64_spec, push_i64};

verus! {

/// A point in time: Unix seconds and nanoseconds within the second.
#[derive(Debug, Clone, Copy, PartialEq, Eq, Structural)]
pub struct Instant {
    pub secs: i64,
    pub nanos: u32,
}

/// Where the next page of entities starts: after this update time and id.
#[derive(Debug, Clone, Copy, PartialEq, Eq, Structural)]
pub struct EntityCursor {
    pub updated_at: Instant,
    pub id: i64,
}

/// The instant an RFC 3339 text denotes, as (seconds, nanoseconds).
pub uninterp spec fn rfc3339_instant_of(s: Seq<char>) -> Option<(int, int)>;

/// The RFC 3339 text (UTC) of an instant given as (seconds, nanoseconds).
pub uninterp spec fn rfc3339_text_of(secs: int, nanos: int) -> Option<Seq<char>>;

/// Relies on `chrono::DateTime::parse_from_rfc3339`: the instant the text
/// denotes, as Unix seconds and nanoseconds, or `None` when it is not RFC 3339.
#[verifier::external_body]
fn parse_rfc3339(s: &str) -> (r: Option<Instant>)
    ensures
        match r {
            Some(t) => rfc3339_instant_of(s@) == Some((t.secs as int, t.nanos as int)),
            None => rfc3339_instant_of(s@).is_none(),
        },
{
    match chrono::DateTime::parse_from_rfc3339(s) {
        Ok(d) => Some(Instant { secs: d.timestamp(), nanos: d.timestamp_subsec_nanos() }),
        Err(_) => None,
    }
}

/// Relies on `chrono::DateTime::from_timestamp` and `to_rfc3339`: the RFC 3339
/// text of the instant in UTC, or `None` out of chrono's range.
#[verifier::external_body]
fn format_rfc3339(t: Instant) -> (r: Option<String>)
    ensures
        match r {
            Some(s) => rfc3339_text_of(t.secs as int, t.nanos as int) == Some(s@),
            None => rfc3339_text_of(t.secs as int, t.nanos as int).is_none(),
        },
{
    match chrono::DateTime::from_timestamp(t.secs, t.nanos) {
        Some(d) => Some(d.to_rfc3339()),
        None => None,
    }
}

/// The index of the first `|` of `s`, if any.
pub open spec fn first_bar(s: Seq<char>) -> Option<int> {
    if exists|i: int| 0 <= i < s.len() && s[i] == '|' {
        Some(choose|i: int| 0 <= i < s.len() && s[i] == '|' && forall|j: int| 0 <= j < i ==> s[j] != '|')
    } else {
        None
    }
}

/// The cursor a text denotes: an RFC 3339 time, `|`, and a decimal id.
pub open spec fn entity_cursor_spec(s: Seq<char>) -> Option<EntityCursor> {
    match first_bar(s) {
        Some(b) => match (rfc3339_instant_of(s.subrange(0, b)), parse_i64_spec(s.subrange(b + 1, s.len() as int))) {
            (Some(t), Some(id)) => if i64::MIN <= t.0 <= i64::MAX && 0 <= t.1 <= u32::MAX {
                Some(EntityCursor { updated_at: Instant { secs: t.0 as i64, nanos: t.1 as u32 }, id })
            } else {
                None
            },
            _ => None,
        },
        None => None,
    }
}

/// Parses an entity cursor; a text that is not one starts from the first page.
pub fn parse_entity_cursor(raw: &str) -> (r: Option<EntityCursor>)
    ensures
        r == entity_cursor_spec(raw@),
{
    let n = raw.unicode_len();
    let mut b: usize = 0;
    while b < n && raw.get_char(b) != '|'
        invariant
            b <= n,
            n == raw@.len(),
            forall|j: int| 0 <= j < b ==> raw@[j] != '|',
        decreases n - b,
    {
        b = b + 1;
    }
    if b == n {
        return None;
    }
    proof {
        let w = choose|i: int| 0 <= i < raw@.len() && raw@[i] == '|' && forall|j: int| 0 <= j < i ==> raw@[j] != '|';
        assert(raw@[b as int] == '|');
        if w < b {
            assert(raw@[w] != '|');
        }
        if w > b {
            assert(raw@[b as int] != '|');
        }
        assert(first_bar(raw@) == Some(b as int));
    }
    let ts = parse_rfc3339(raw.substring_char(0, b));
    let id = parse_i64(raw.substring_char(b + 1, n));
    match (ts, id) {
        (Some(t), Some(i)) => Some(EntityCursor { updated_at: t, id: i }),
        _ => None,
    }
}

/// The text of the cursor after the entity `(updated_at, id)`.
pub open spec fn cursor_text_spec(t: Instant, id: i64) -> Option<Seq<char>> {
    match rfc3339_text_of(t.secs as int, t.nanos as int) {
        Some(ts) => Some(ts + seq!['|'] + dec_int(id as int)),
        None => None,
    }
}

/// The cursor text of the next entity page.
pub open spec fn entity_next_cursor_spec(page_len: int, limit: int, last: Option<(Option<Instant>, i64)>) -> Option<Seq<char>> {
    if page_len == limit {
        match last {
            Some((Some(t), id)) => cursor_text_spec(t, id),
            _ => None,
        }
    } else {
        None
    }
}

/// The cursor of the next entity page: after the last row of a full page
/// that has an update time; nothing otherwise.
pub fn entity_next_cursor(page_len: usize, limit: i64, last: Option<(Option<Instant>, i64)>) -> (r: Option<String>)
    ensures
        match r {
            Some(s) => entity_next_cursor_spec(page_len as int, limit as int, last) == Some(s@),
            None => entity_next_cursor_spec(page_len as int, limit as int, last).is_none(),
        },
{
    if limit < 0 || page_len as u64 != limit as u64 {
        return None;
    }
    match last {
        Some((Some(t), id)) => {
            match format_rfc3339(t) {
                Some(mut s) => {
                    proof {
                        reveal_strlit("|");
                    }
                    s.append("|");
                    push_i64(&mut s, id);
                    Some(s)
                },
                None => None,
            }
        },
        _ => None,
    }
}

} // verus!
