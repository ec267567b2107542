//! Links back to the source of an item on the chat surface.

use vstd::prelude::*;
use crate::text::{dec_int, push_i64};

verus! {

/// What channel and supergroup chat ids carry below zero: `-100` followed by
/// the public id, that is `-(10^12 + id)`.
pub const CHANNEL_ID_OFFSET: i64 = 1_000_000_000_000;

/// The start of a link to a channel or supergroup.
pub const CHANNEL_LINK_PREFIX: &'static str = "https://t.me/c/";

/// The start of a link to a user.
pub const USER_LINK_PREFIX: &'static str = "tg://user?id=";

/// The link to a chat message: a channel or supergroup (id at most
/// `-10^12`) by its public id, with the message when known; a private user
/// (id above zero) by its id; nothing otherwise.
pub open spec fn tg_link_spec(chat: Option<i64>, msg: Option<i64>) -> Option<Seq<char>> {
    match chat {
        Some(c) => {
            if c <= -CHANNEL_ID_OFFSET {
                let base = CHANNEL_LINK_PREFIX@ + dec_int(-(c + CHANNEL_ID_OFFSET));
                match msg {
                    Some(m) => Some(base + seq!['/'] + dec_int(m as int)),
                    None => Some(base),
                }
            } else if c > 0 {
                Some(USER_LINK_PREFIX@ + dec_int(c as int))
            } else {
                None
            }
        },
        None => None,
    }
}

/// The source link of a listed item: its user when it has one (a link only
/// for ids above zero), else the link of its chat message.
pub open spec fn source_url_spec(user: Option<i64>, chat: Option<i64>, msg: Option<i64>) -> Option<Seq<char>> {
    match user {
        Some(u) => if u > 0 { Some(USER_LINK_PREFIX@ + dec_int(u as int)) } else { None },
        None => tg_link_spec(chat, msg),
    }
}

/// The link to a user.
fn user_link(id: i64) -> (r: String)
    ensures
        r@ == USER_LINK_PREFIX@ + dec_int(id as int),
{
    let mut s = String::from_str(USER_LINK_PREFIX);
    push_i64(&mut s, id);
    s
}

/// The link to a chat message.
pub fn tg_link(chat: Option<i64>, msg: Option<i64>) -> (r: Option<String>)
    ensures
        match r {
            Some(s) => tg_link_spec(chat, msg) == Some(s@),
            None => tg_link_spec(chat, msg).is_none(),
        },
{
    match chat {
        Some(c) => {
            if c <= -CHANNEL_ID_OFFSET {
                let mut s = String::from_str(CHANNEL_LINK_PREFIX);
                push_i64(&mut s, -(c + CHANNEL_ID_OFFSET));
                match msg {
                    Some(m) => {
                        proof {
                            reveal_strlit("/");
                        }
                        s.append("/");
                        push_i64(&mut s, m);
                    },
                    None => {},
                }
                Some(s)
            } else if c > 0 {
                Some(user_link(c))
            } else {
                None
            }
        },
        None => None,
    }
}

/// The source link of a listed item.
pub fn source_url(user: Option<i64>, chat: Option<i64>, msg: Option<i64>) -> (r: Option<String>)
    ensures
        match r {
            Some(s) => source_url_spec(user, chat, msg) == Some(s@),
            None => source_url_spec(user, chat, msg).is_none(),
        },
{
    match user {
        Some(u) => if u > 0 { Some(user_link(u)) } else { None },
        None => tg_link(chat, msg),
    }
}

} // verus!
