use brainpile_core::album::{album_reaction, AlbumMember, Feedback};
use brainpile_core::payload::{GroupField, ItemType, Payload};
use brainpile_core::queue::{EnqueueOutcome, TaskQueue, TaskStatus};

fn payload(text: &str, group: Option<&str>) -> Payload {
    Payload {
        file_id: None,
        item_type: ItemType::Text,
        content_text: text.to_string(),
        group: match group {
            Some(g) => GroupField::Text(g.to_string()),
            None => GroupField::Absent,
        },
        raw_tag_ids: vec![],
        forward_sender_name: None,
    }
}

#[test]
fn text_only_ingest_lifecycle() {
    let mut q = TaskQueue::new();
    let id = match q.enqueue(42, 7, None, None, Some(5), payload("hello world", None)) {
        EnqueueOutcome::Accepted(id) => id,
        other => panic!("unexpected {:?}", other),
    };
    assert_eq!(q.tasks()[0].status, TaskStatus::Pending);
    assert_eq!(q.lease_next(), Some(id));
    assert_eq!(q.tasks()[0].status, TaskStatus::Processing);
    assert!(q.complete(id, 900));
    assert_eq!(q.tasks()[0].status, TaskStatus::Completed);
    assert_eq!(q.tasks()[0].item_id, Some(900));
    assert_eq!(q.item_for_message(42, 7), Some(900));
}

#[test]
fn duplicate_submission_is_ignored() {
    let mut q = TaskQueue::new();
    assert_eq!(q.enqueue(1, 2, None, None, None, payload("a", None)), EnqueueOutcome::Accepted(1));
    assert_eq!(q.enqueue(1, 2, None, None, None, payload("b", None)), EnqueueOutcome::Duplicate(TaskStatus::Pending));
    assert_eq!(q.tasks().len(), 1);
    assert_eq!(q.tasks()[0].payload.content_text, "a");
}

#[test]
fn leases_are_exclusive_and_fifo() {
    let mut q = TaskQueue::new();
    q.enqueue(1, 1, None, None, None, payload("a", None));
    q.enqueue(1, 2, None, None, None, payload("b", None));
    let a = q.lease_next();
    let b = q.lease_next();
    assert_eq!(a, Some(1));
    assert_eq!(b, Some(2));
    assert_eq!(q.lease_next(), None);
}

#[test]
fn only_processing_tasks_finish() {
    let mut q = TaskQueue::new();
    q.enqueue(1, 1, None, None, None, payload("a", None));
    assert!(!q.complete(1, 5));
    assert!(!q.fail(1, "x".to_string(), None));
    q.lease_next();
    assert!(q.fail(1, "boom".to_string(), Some(77)));
    assert_eq!(q.tasks()[0].status, TaskStatus::Failed);
    assert_eq!(q.tasks()[0].error_message.as_deref(), Some("boom"));
    assert_eq!(q.tasks()[0].error_reply_id, Some(77));
    assert_eq!(q.tasks()[0].item_id, None);
    assert!(!q.complete(1, 5));
    assert_eq!(q.item_for_message(1, 1), None);
}

#[test]
fn items_exist_only_for_completed_tasks() {
    let mut q = TaskQueue::new();
    q.enqueue(1, 1, None, None, None, payload("a", None));
    q.enqueue(1, 2, None, None, None, payload("b", None));
    q.enqueue(1, 3, None, None, None, payload("c", None));
    q.lease_next();
    q.lease_next();
    q.complete(1, 10);
    q.fail(2, "e".to_string(), None);
    for t in q.tasks() {
        assert_eq!(t.item_id.is_some(), t.status == TaskStatus::Completed);
    }
}

#[test]
fn album_completion_with_one_failure() {
    let mut q = TaskQueue::new();
    for m in [10, 11, 12] {
        q.enqueue(5, m, None, None, None, payload("", Some("G1")));
    }
    q.lease_next();
    q.lease_next();
    q.lease_next();
    q.complete(1, 100);
    q.complete(2, 101);
    let members = q.album_members(5, "G1");
    assert_eq!(album_reaction(&members), None);
    q.fail(3, "boom".to_string(), None);
    let members = q.album_members(5, "G1");
    assert_eq!(members.len(), 3);
    assert_eq!(album_reaction(&members), Some((10, Feedback::ThumbsDown)));
    assert_eq!(q.tasks()[0].item_id, Some(100));
    assert_eq!(q.tasks()[1].item_id, Some(101));
}

#[test]
fn album_reaction_policy() {
    let m = |id: i64, status: TaskStatus| AlbumMember { bot_message_id: id, status };
    assert_eq!(album_reaction(&vec![]), None);
    assert_eq!(
        album_reaction(&vec![m(12, TaskStatus::Completed), m(11, TaskStatus::Completed)]),
        Some((11, Feedback::Heart))
    );
    assert_eq!(album_reaction(&vec![m(12, TaskStatus::Completed), m(11, TaskStatus::Processing)]), None);
    assert_eq!(
        album_reaction(&vec![m(3, TaskStatus::Pending), m(4, TaskStatus::Failed)]),
        Some((3, Feedback::ThumbsDown))
    );
}

#[test]
fn feedback_emojis() {
    assert_eq!(Feedback::Eyes.emoji(), "\u{1F440}");
    assert_eq!(Feedback::Heart.emoji(), "\u{2764}\u{FE0F}");
    assert_eq!(Feedback::ThumbsDown.emoji(), "\u{1F44E}");
}

#[test]
fn tasks_for_a_deleted_item_go() {
    let mut q = TaskQueue::new();
    q.enqueue(-1001234567890, 1, None, None, None, payload("a", None));
    q.enqueue(9, 2, None, None, None, payload("b", None));
    q.lease_next();
    q.lease_next();
    q.complete(1, 900);
    q.complete(2, 901);
    q.remove_for_item(900);
    assert_eq!(q.tasks().len(), 1);
    assert!(q.tasks().iter().all(|t| t.item_id != Some(900)));
    assert_eq!(q.tasks()[0].item_id, Some(901));
}

#[test]
fn status_names() {
    assert_eq!(TaskStatus::Failed.name(), "failed");
    assert_eq!(TaskStatus::from_name("completed"), Some(TaskStatus::Completed));
    assert_eq!(TaskStatus::from_name("done"), None);
}
