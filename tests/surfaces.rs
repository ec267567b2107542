use brainpile_core::album::Feedback;
use brainpile_core::config::{Config, ConfigVar};
use brainpile_core::cursor::{entity_next_cursor, parse_entity_cursor, EntityCursor, Instant};
use brainpile_core::deletion::{blob_keys, entities_to_delete, entity_candidates, ItemRefs};
use brainpile_core::feedback::{
    failure_feedback, failure_reply_text, panic_message, poll_delay_secs, stored_reply_id, success_feedback,
    FeedbackAction, PollOutcome,
};
use brainpile_core::links::{source_url, tg_link};
use brainpile_core::listing::{
    album_ids, effective_cursor, entities_limit, first_rows, items_limit, known_tags, list_mode, next_item_cursor,
    sorted_unique_tags, visible_rows, ListMode,
};
use brainpile_core::submission::{source_of, submission_payload, ChatKind, EntityKind, EntityUpsert, Origin, Sender};
use brainpile_core::payload::ItemType;
use brainpile_core::tags::{attach_tag, detach_tag, diff_reactions, merge_tag_ids, reaction_key, IconType, Reaction};

#[test]
fn reaction_tagging_adds_emoji_tag() {
    let (added, removed) = diff_reactions(&vec![], &vec![Reaction::Emoji("\u{1F44D}".to_string())]);
    assert_eq!(added.len(), 1);
    assert!(removed.is_empty());
    assert_eq!(added[0].icon_type, IconType::Emoji);
    assert_eq!(added[0].icon_value, "\u{1F44D}");
    assert_eq!(added[0].icon_type.name(), "emoji");
    let mut tags = vec![3];
    attach_tag(&mut tags, 12);
    assert_eq!(tags, vec![3, 12]);
    attach_tag(&mut tags, 12);
    assert_eq!(tags, vec![3, 12]);
}

#[test]
fn reaction_diff_both_ways() {
    let old = vec![Reaction::Emoji("a".to_string()), Reaction::CustomEmoji("77".to_string()), Reaction::Other];
    let new = vec![Reaction::CustomEmoji("77".to_string()), Reaction::Emoji("b".to_string()), Reaction::Emoji("b".to_string())];
    let (added, removed) = diff_reactions(&old, &new);
    assert_eq!(added.len(), 1);
    assert_eq!(added[0].icon_value, "b");
    assert_eq!(removed.len(), 1);
    assert_eq!(removed[0].icon_value, "a");
    let k = reaction_key(&Reaction::CustomEmoji("77".to_string())).unwrap();
    assert_eq!(k.icon_type, IconType::Tmoji);
    assert!(reaction_key(&Reaction::Other).is_none());
    assert_eq!(IconType::from_name("tmoji"), Some(IconType::Tmoji));
    assert_eq!(IconType::from_name("other"), None);
}

#[test]
fn tag_delete_detaches_everywhere() {
    let items = vec![vec![1, 5, 2, 5], vec![5], vec![3]];
    for t in &items {
        assert!(!detach_tag(t, 5).contains(&5));
    }
    assert_eq!(detach_tag(&items[0], 5), vec![1, 2]);
    assert_eq!(detach_tag(&items[2], 5), vec![3]);
}

#[test]
fn inherited_tags_merge_as_set() {
    assert_eq!(merge_tag_ids(&vec![1, 2], &vec![2, 3, 1, 4]), vec![1, 2, 3, 4]);
    assert_eq!(merge_tag_ids(&vec![], &vec![]), Vec::<i32>::new());
}

#[test]
fn deletion_cascade_collects_last_entity() {
    let refs = ItemRefs { tg_chat_id: Some(-1001234567890), tg_user_id: None };
    let c = entity_candidates(refs);
    assert_eq!(c, vec![-1001234567890]);
    assert_eq!(entities_to_delete(&c, &vec![0]), vec![-1001234567890]);
    assert_eq!(entities_to_delete(&c, &vec![2]), Vec::<i64>::new());
    let keys = blob_keys(Some("2024/01/02/abc.jpg".to_string()), None);
    assert_eq!(keys, vec!["2024/01/02/abc.jpg".to_string()]);
}

#[test]
fn deletion_candidates_chat_then_user() {
    let refs = ItemRefs { tg_chat_id: Some(-5), tg_user_id: Some(8) };
    assert_eq!(entity_candidates(refs), vec![-5, 8]);
    assert_eq!(entities_to_delete(&vec![-5, 8], &vec![1, 0]), vec![8]);
    assert_eq!(blob_keys(Some("a".to_string()), Some("b".to_string())).len(), 2);
}

#[test]
fn source_links() {
    assert_eq!(tg_link(Some(-1001234567890), Some(55)), Some("https://t.me/c/1234567890/55".to_string()));
    assert_eq!(tg_link(Some(-1001234567890), None), Some("https://t.me/c/1234567890".to_string()));
    assert_eq!(tg_link(Some(42), Some(1)), Some("tg://user?id=42".to_string()));
    assert_eq!(tg_link(Some(-42), Some(1)), None);
    assert_eq!(tg_link(None, Some(1)), None);
    assert_eq!(source_url(Some(9), Some(-1001234567890), Some(5)), Some("tg://user?id=9".to_string()));
    assert_eq!(source_url(Some(0), Some(42), None), None);
    assert_eq!(source_url(None, Some(-1001234567890), Some(5)), Some("https://t.me/c/1234567890/5".to_string()));
}

#[test]
fn entity_cursor_round_trip() {
    let c = parse_entity_cursor("2024-01-02T03:04:05+00:00|17").unwrap();
    assert_eq!(c, EntityCursor { updated_at: Instant { secs: 1_704_164_645, nanos: 0 }, id: 17 });
    assert!(parse_entity_cursor("garbage").is_none());
    assert!(parse_entity_cursor("2024-01-02T03:04:05+00:00|x").is_none());
    assert!(parse_entity_cursor("nope|17").is_none());
    let next = entity_next_cursor(2, 2, Some((Some(Instant { secs: 1_704_164_645, nanos: 0 }), 17)));
    assert_eq!(next, Some("2024-01-02T03:04:05+00:00|17".to_string()));
    assert_eq!(entity_next_cursor(1, 2, Some((Some(Instant { secs: 0, nanos: 0 }), 1))), None);
    assert_eq!(entity_next_cursor(2, 2, Some((None, 1))), None);
}

#[test]
fn listing_limits_and_modes() {
    assert_eq!(items_limit(None), 20);
    assert_eq!(items_limit(Some(500)), 100);
    assert_eq!(items_limit(Some(-1)), 0);
    assert_eq!(entities_limit(None), 10);
    assert_eq!(entities_limit(Some(0)), 1);
    assert_eq!(entities_limit(Some(1000)), 100);
    assert_eq!(list_mode(Some("random")), ListMode::Random);
    assert_eq!(list_mode(Some("timeline")), ListMode::Timeline);
    assert_eq!(list_mode(None), ListMode::Timeline);
    assert_eq!(effective_cursor(ListMode::Random, Some(5)), None);
    assert_eq!(effective_cursor(ListMode::Timeline, Some(5)), Some(5));
    assert_eq!(next_item_cursor(ListMode::Timeline, 20, 20, Some(81)), Some(81));
    assert_eq!(next_item_cursor(ListMode::Timeline, 19, 20, Some(81)), None);
    assert_eq!(next_item_cursor(ListMode::Random, 20, 20, Some(81)), None);
}

#[test]
fn random_mode_album_expansion() {
    assert_eq!(album_ids(&vec![Some(7), None, Some(3), Some(7)]), vec![7, 3]);
    assert_eq!(first_rows(&vec![1, 2, 1, 3, 2]), vec![true, true, false, true, false]);
    assert_eq!(sorted_unique_tags(&vec![5, 1, 5, 3, 1]), vec![1, 3, 5]);
    assert_eq!(known_tags(&vec![4, 2, 9], &vec![2, 4]), vec![4, 2]);
}

#[test]
fn feedback_plans() {
    let s = success_feedback(7, None, Some(99));
    assert_eq!(s.len(), 2);
    assert!(matches!(s[0], FeedbackAction::React { message_id: 7, feedback: Feedback::Heart }));
    assert!(matches!(s[1], FeedbackAction::DeleteMessage { message_id: 99 }));
    let a = success_feedback(7, Some("G1".to_string()), None);
    assert_eq!(a.len(), 1);
    assert!(matches!(&a[0], FeedbackAction::RefreshAlbum { group_key } if group_key == "G1"));
    let f = failure_feedback(7, None, None, "boom");
    assert!(matches!(f[0], FeedbackAction::React { message_id: 7, feedback: Feedback::ThumbsDown }));
    assert!(matches!(&f[1], FeedbackAction::Reply { to_message_id: 7, text } if text == "\u{274C} \u{5904}\u{7406}\u{5931}\u{8D25}: boom"));
    let e = failure_feedback(7, None, Some(31), "boom");
    assert!(matches!(&e[1], FeedbackAction::EditMessage { message_id: 31, .. }));
    assert_eq!(failure_reply_text("x"), "\u{274C} \u{5904}\u{7406}\u{5931}\u{8D25}: x");
    assert_eq!(stored_reply_id(Some(31), Some(40)), Some(31));
    assert_eq!(stored_reply_id(None, Some(40)), Some(40));
    assert_eq!(stored_reply_id(None, None), None);
    assert_eq!(panic_message(Some("oops")), "Internal Panic: oops");
    assert_eq!(panic_message(None), "Internal Panic: Unknown cause");
    assert_eq!(poll_delay_secs(PollOutcome::Processed), 0);
    assert_eq!(poll_delay_secs(PollOutcome::Idle), 1);
    assert_eq!(poll_delay_secs(PollOutcome::Error), 5);
    assert_eq!(poll_delay_secs(PollOutcome::Panicked), 5);
}

#[test]
fn submission_sources() {
    let u = source_of(
        Some(Origin::User { id: 11, first_name: "Ann".to_string(), last_name: Some("Lee".to_string()), username: None, is_bot: false }),
        None,
    );
    assert_eq!((u.source_chat_id, u.source_message_id, u.source_user_id), (None, None, Some(11)));
    match &u.entity {
        EntityUpsert::Origin(e) => {
            assert_eq!(e.name, "Ann Lee");
            assert_eq!(e.kind, EntityKind::User);
        }
        _ => panic!("expected an origin entity"),
    }
    let ch = source_of(Some(Origin::Channel { id: -1001, title: None, username: None, message_id: 9 }), None);
    assert_eq!((ch.source_chat_id, ch.source_message_id, ch.source_user_id), (Some(-1001), Some(9), None));
    let gr = source_of(Some(Origin::Chat { id: -5, title: None, username: None, kind: ChatKind::Supergroup }), None);
    match &gr.entity {
        EntityUpsert::Origin(e) => {
            assert_eq!(e.name, "Unknown");
            assert_eq!(e.kind.name(), "supergroup");
        }
        _ => panic!("expected an origin entity"),
    }
    let h = source_of(Some(Origin::HiddenUser { name: "Ghost".to_string() }), None);
    assert_eq!(h.source_user_id, Some(0));
    assert_eq!(h.forward_sender_name.as_deref(), Some("Ghost"));
    assert!(matches!(h.entity, EntityUpsert::Hidden));
    let s = source_of(None, Some(Sender { id: 3, first_name: "Bo".to_string(), last_name: None, username: Some("bo".to_string()) }));
    assert_eq!(s.source_user_id, Some(3));
    assert_eq!(s.avatar_of, Some(3));
    assert!(matches!(s.entity, EntityUpsert::Sender(_)));
    let n = source_of(None, None);
    assert_eq!(n.source_user_id, Some(0));
    assert!(matches!(n.entity, EntityUpsert::Nothing));
}

#[test]
fn submission_payloads() {
    let p = submission_payload(Some("F1".to_string()), None, None, None, None).unwrap();
    assert_eq!(p.item_type, ItemType::Image);
    assert_eq!(p.content_text, "");
    let t = submission_payload(None, None, Some("hello world".to_string()), None, None).unwrap();
    assert_eq!(t.item_type, ItemType::Text);
    assert_eq!(t.file_id, None);
    assert_eq!(t.content_text, "hello world");
    let v = submission_payload(None, Some("V".to_string()), None, Some("cap".to_string()), None).unwrap();
    assert_eq!(v.item_type, ItemType::Video);
    assert_eq!(v.content_text, "cap");
    assert!(submission_payload(None, None, None, Some("c".to_string()), None).is_none());
}

fn some(s: &str) -> Option<String> {
    Some(s.to_string())
}

#[test]
fn config_from_values() {
    let c = Config::from_values(
        some("db"), some("s3"), some("pub"), some("ak"), some("sk"), None, some("clip"), some("vb"),
        some("vk"), some("vm"), some("eb"), some("ek"), some("em"), some("tok"),
    )
    .unwrap();
    assert_eq!(c.s3_bucket, "brainpile");
    assert_eq!(c.database_url, "db");
    let e = Config::from_values(
        None, some("s3"), some("pub"), some("ak"), some("sk"), None, some("clip"), some("vb"),
        some("vk"), some("vm"), some("eb"), some("ek"), some("em"), some("tok"),
    );
    assert_eq!(e.err(), Some(ConfigVar::DatabaseUrl));
    assert_eq!(ConfigVar::TgBotToken.name(), "TG_BOT_TOKEN");
}

#[test]
fn listing_shows_completed_items_only() {
    assert_eq!(visible_rows(&vec![4, 5, 6], &vec![6, 4]), vec![true, false, true]);
    assert_eq!(visible_rows(&vec![], &vec![1]), Vec::<bool>::new());
}
