//! What a submitted message becomes: its content, the source entity to
//! record, and the source coordinates its task carries.

use vstd::prelude::*;
use crate::payload::{GroupField, ItemType, Payload};

verus! {

/// The name of the entity that stands for every privacy-masked forward origin.
pub const HIDDEN_ENTITY_NAME: &'static str = "Hidden Users";

/// The id of that entity.
pub const HIDDEN_ENTITY_ID: i64 = 0;

/// The kind of a source entity.
#[derive(Debug, Clone, Copy, PartialEq, Eq, Structural)]
pub enum EntityKind {
    User,
    Bot,
    Group,
    Supergroup,
    Channel,
    Private,
    Hidden,
}

impl EntityKind {
    /// The stored name of the kind.
    pub fn name(&self) -> (r: &'static str)
        ensures
            r@ == entity_kind_name(*self),
    {
        match self {
            EntityKind::User => "user",
            EntityKind::Bot => "bot",
            EntityKind::Group => "group",
            EntityKind::Supergroup => "supergroup",
            EntityKind::Channel => "channel",
            EntityKind::Private => "private",
            EntityKind::Hidden => "hidden",
        }
    }
}

/// The stored name of an entity kind.
pub open spec fn entity_kind_name(k: EntityKind) -> Seq<char> {
    match k {
        EntityKind::User => "user"@,
        EntityKind::Bot => "bot"@,
        EntityKind::Group => "group"@,
        EntityKind::Supergroup => "supergroup"@,
        EntityKind::Channel => "channel"@,
        EntityKind::Private => "private"@,
        EntityKind::Hidden => "hidden"@,
    }
}

/// The kind of a chat that sent a forwarded message.
#[derive(Debug, Clone, Copy, PartialEq, Eq, Structural)]
pub enum ChatKind {
    Channel,
    Group,
    Supergroup,
    Private,
}

/// Where a forwarded message came from.
#[derive(Debug, Clone)]
pub enum Origin {
    User { id: u64, first_name: String, last_name: Option<String>, username: Option<String>, is_bot: bool },
    Chat { id: i64, title: Option<String>, username: Option<String>, kind: ChatKind },
    Channel { id: i64, title: Option<String>, username: Option<String>, message_id: i32 },
    HiddenUser { name: String },
}

/// The user who sent a message that is not a forward.
#[derive(Debug, Clone)]
pub struct Sender {
    pub id: u64,
    pub first_name: String,
    pub last_name: Option<String>,
    pub username: Option<String>,
}

/// An entity row to upsert.
#[derive(Debug, Clone)]
pub struct EntityRecord {
    pub id: i64,
    pub name: String,
    pub username: Option<String>,
    pub kind: EntityKind,
}

/// How the source entity of a submission is recorded.
#[derive(Debug, Clone)]
pub enum EntityUpsert {
    /// Insert, or update name, username, kind and time.
    Origin(EntityRecord),
    /// Insert as a user, or update name, username and time.
    Sender(EntityRecord),
    /// Insert the hidden-users entity, or update its time.
    Hidden,
    /// Record nothing.
    Nothing,
}

/// What a submission records of its source.
#[derive(Debug, Clone)]
pub struct SourceInfo {
    pub source_chat_id: Option<i64>,
    pub source_message_id: Option<i64>,
    pub source_user_id: Option<i64>,
    pub entity: EntityUpsert,
    /// The entity whose avatar to fetch, if any.
    pub avatar_of: Option<i64>,
    /// The name of a privacy-masked origin.
    pub forward_sender_name: Option<String>,
}

/// A person's display name: the first name, and the last after a space.
pub open spec fn display_name_spec(first: Seq<char>, last: Option<String>) -> Seq<char> {
    match last {
        Some(l) => first + seq![' '] + l@,
        None => first,
    }
}

/// A person's display name.
pub fn display_name(first: &String, last: &Option<String>) -> (r: String)
    ensures
        r@ == display_name_spec(first@, *last),
{
    let mut s = first.clone();
    match last {
        Some(l) => {
            proof {
                reveal_strlit(" ");
            }
            s.append(" ");
            s.append(l.as_str());
        },
        None => {},
    }
    s
}

/// The text of an optional title, or `default`.
fn title_or(title: &Option<String>, default: &str) -> (r: String)
    ensures
        r@ == match title {
            Some(t) => t@,
            None => default@,
        },
{
    match title {
        Some(t) => t.clone(),
        None => String::from_str(default),
    }
}

/// What a submission records of its source: a forward's origin, or else its
/// sender. A forward from a user records no chat, from a chat no message,
/// from a channel both; a hidden origin records the user 0 and its name.
pub fn source_of(origin: Option<Origin>, sender: Option<Sender>) -> (r: SourceInfo)
    ensures
        match origin {
            Some(Origin::User { id, first_name, last_name, username, is_bot }) => {
                &&& r.source_chat_id.is_none() && r.source_message_id.is_none()
                &&& r.source_user_id == Some(id as i64)
                &&& r.avatar_of == Some(id as i64)
                &&& r.forward_sender_name.is_none()
                &&& r.entity matches EntityUpsert::Origin(e) && e.id == id as i64
                    && e.name@ == display_name_spec(first_name@, last_name) && e.username == username
                    && e.kind == (if is_bot { EntityKind::Bot } else { EntityKind::User })
            },
            Some(Origin::Chat { id, title, username, kind }) => {
                &&& r.source_chat_id == Some(id) && r.source_message_id.is_none() && r.source_user_id.is_none()
                &&& r.avatar_of == Some(id)
                &&& r.forward_sender_name.is_none()
                &&& r.entity matches EntityUpsert::Origin(e) && e.id == id
                    && e.name@ == (match title { Some(t) => t@, None => "Unknown"@ }) && e.username == username
                    && e.kind == match kind {
                        ChatKind::Channel => EntityKind::Channel,
                        ChatKind::Group => EntityKind::Group,
                        ChatKind::Supergroup => EntityKind::Supergroup,
                        ChatKind::Private => EntityKind::Private,
                    }
            },
            Some(Origin::Channel { id, title, username, message_id }) => {
                &&& r.source_chat_id == Some(id) && r.source_message_id == Some(message_id as i64) && r.source_user_id.is_none()
                &&& r.avatar_of == Some(id)
                &&& r.forward_sender_name.is_none()
                &&& r.entity matches EntityUpsert::Origin(e) && e.id == id
                    && e.name@ == (match title { Some(t) => t@, None => Seq::<char>::empty() }) && e.username == username
                    && e.kind == EntityKind::Channel
            },
            Some(Origin::HiddenUser { name }) => {
                &&& r.source_chat_id.is_none() && r.source_message_id.is_none()
                &&& r.source_user_id == Some(HIDDEN_ENTITY_ID)
                &&& r.avatar_of.is_none()
                &&& r.forward_sender_name == Some(name)
                &&& r.entity is Hidden
            },
            None => {
                &&& r.source_chat_id.is_none() && r.source_message_id.is_none()
                &&& r.forward_sender_name.is_none()
                &&& match sender {
                    Some(s) => {
                        &&& r.source_user_id == Some(s.id as i64)
                        &&& r.avatar_of == Some(s.id as i64)
                        &&& r.entity matches EntityUpsert::Sender(e) && e.id == s.id as i64
                            && e.name@ == display_name_spec(s.first_name@, s.last_name) && e.username == s.username
                            && e.kind == EntityKind::User
                    },
                    None => r.source_user_id == Some(0i64) && r.avatar_of.is_none() && r.entity is Nothing,
                }
            },
        },
{
    match origin {
        Some(Origin::User { id, first_name, last_name, username, is_bot }) => {
            let name = display_name(&first_name, &last_name);
            let kind = if is_bot { EntityKind::Bot } else { EntityKind::User };
            SourceInfo {
                source_chat_id: None,
                source_message_id: None,
                source_user_id: Some(id as i64),
                entity: EntityUpsert::Origin(EntityRecord { id: id as i64, name, username, kind }),
                avatar_of: Some(id as i64),
                forward_sender_name: None,
            }
        },
        Some(Origin::Chat { id, title, username, kind }) => {
            let name = title_or(&title, "Unknown");
            let k = match kind {
                ChatKind::Channel => EntityKind::Channel,
                ChatKind::Group => EntityKind::Group,
                ChatKind::Supergroup => EntityKind::Supergroup,
                ChatKind::Private => EntityKind::Private,
            };
            SourceInfo {
                source_chat_id: Some(id),
                source_message_id: None,
                source_user_id: None,
                entity: EntityUpsert::Origin(EntityRecord { id, name, username, kind: k }),
                avatar_of: Some(id),
                forward_sender_name: None,
            }
        },
        Some(Origin::Channel { id, title, username, message_id }) => {
            let name = title_or(&title, "");
            proof {
                reveal_strlit("");
            }
            SourceInfo {
                source_chat_id: Some(id),
                source_message_id: Some(message_id as i64),
                source_user_id: None,
                entity: EntityUpsert::Origin(EntityRecord { id, name, username, kind: EntityKind::Channel }),
                avatar_of: Some(id),
                forward_sender_name: None,
            }
        },
        Some(Origin::HiddenUser { name }) => SourceInfo {
            source_chat_id: None,
            source_message_id: None,
            source_user_id: Some(HIDDEN_ENTITY_ID),
            entity: EntityUpsert::Hidden,
            avatar_of: None,
            forward_sender_name: Some(name),
        },
        None => match sender {
            Some(s) => {
                let name = display_name(&s.first_name, &s.last_name);
                SourceInfo {
                    source_chat_id: None,
                    source_message_id: None,
                    source_user_id: Some(s.id as i64),
                    entity: EntityUpsert::Sender(EntityRecord { id: s.id as i64, name, username: s.username, kind: EntityKind::User }),
                    avatar_of: Some(s.id as i64),
                    forward_sender_name: None,
                }
            },
            None => SourceInfo {
                source_chat_id: None,
                source_message_id: None,
                source_user_id: Some(0),
                entity: EntityUpsert::Nothing,
                avatar_of: None,
                forward_sender_name: None,
            },
        },
    }
}

/// The payload of a submission: a photo (its largest size), else a video,
/// each with its caption as text, else a text message; nothing otherwise.
pub fn submission_payload(
    photo_file_id: Option<String>,
    video_file_id: Option<String>,
    text: Option<String>,
    caption: Option<String>,
    forward_sender_name: Option<String>,
) -> (r: Option<Payload>)
    ensures
        match r {
            Some(p) => {
                &&& p.group is Absent && p.raw_tag_ids@.len() == 0
                &&& p.forward_sender_name == forward_sender_name
                &&& if photo_file_id.is_some() {
                    p.file_id == photo_file_id && p.item_type == ItemType::Image
                        && p.content_text@ == (match caption { Some(c) => c@, None => Seq::<char>::empty() })
                } else if video_file_id.is_some() {
                    p.file_id == video_file_id && p.item_type == ItemType::Video
                        && p.content_text@ == (match caption { Some(c) => c@, None => Seq::<char>::empty() })
                } else {
                    p.file_id.is_none() && p.item_type == ItemType::Text && (text matches Some(t) && p.content_text@ == t@)
                }
            },
            None => photo_file_id.is_none() && video_file_id.is_none() && text.is_none(),
        },
{
    let cap = match caption {
        Some(c) => c,
        None => String::new(),
    };
    if photo_file_id.is_some() {
        Some(Payload {
            file_id: photo_file_id,
            item_type: ItemType::Image,
            content_text: cap,
            group: GroupField::Absent,
            raw_tag_ids: Vec::new(),
            forward_sender_name,
        })
    } else if video_file_id.is_some() {
        Some(Payload {
            file_id: video_file_id,
            item_type: ItemType::Video,
            content_text: cap,
            group: GroupField::Absent,
            raw_tag_ids: Vec::new(),
            forward_sender_name,
        })
    } else {
        match text {
            Some(t) => Some(Payload {
                file_id: None,
                item_type: ItemType::Text,
                content_text: t,
                group: GroupField::Absent,
                raw_tag_ids: Vec::new(),
                forward_sender_name,
            }),
            None => None,
        }
    }
}

} // verus!
