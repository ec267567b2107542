//! The feedback emitter's decisions: which reactions, edits, deletions and
//! replies a task's outcome calls for on the submission surface, and what the
//! worker loop does after each poll.

use vstd::prelude::*;
use crate::album::Feedback;

verus! {

/// The prefix of the reply that reports a failed task.
pub const FAILURE_MARKER: &'static str = "\u{274C} \u{5904}\u{7406}\u{5931}\u{8D25}: ";

/// The prefix of the error message of a task whose processing panicked.
pub const PANIC_MARKER: &'static str = "Internal Panic: ";

/// The panic message when the panic carried no text.
pub const UNKNOWN_PANIC_CAUSE: &'static str = "Unknown cause";

/// One operation on the submission surface.
#[derive(Debug, Clone)]
pub enum FeedbackAction {
    /// Set this reaction on the message.
    React { message_id: i64, feedback: Feedback },
    /// Recompute the reaction of the album with this key (see `album_reaction`).
    RefreshAlbum { group_key: String },
    /// Delete the message.
    DeleteMessage { message_id: i64 },
    /// Replace the text of the message.
    EditMessage { message_id: i64, text: String },
    /// Send a reply to the message; its id becomes the task's error reply.
    Reply { to_message_id: i64, text: String },
}

/// The text of the reply that reports `error`.
pub open spec fn failure_text(error: Seq<char>) -> Seq<char> {
    FAILURE_MARKER@ + error
}

/// The reaction step: per message, or through the album.
pub open spec fn reaction_step(message_id: i64, group_key: Option<String>, f: Feedback) -> FeedbackAction {
    match group_key {
        Some(g) => FeedbackAction::RefreshAlbum { group_key: g },
        None => FeedbackAction::React { message_id, feedback: f },
    }
}

/// The text of the reply that reports `error`.
pub fn failure_reply_text(error: &str) -> (r: String)
    ensures
        r@ == failure_text(error@),
{
    let mut s = String::from_str(FAILURE_MARKER);
    s.append(error);
    s
}

/// The error message of a task whose processing panicked with `cause`.
pub fn panic_message(cause: Option<&str>) -> (r: String)
    ensures
        r@ == PANIC_MARKER@ + match cause {
            Some(c) => c@,
            None => UNKNOWN_PANIC_CAUSE@,
        },
{
    let mut s = String::from_str(PANIC_MARKER);
    match cause {
        Some(c) => s.append(c),
        None => s.append(UNKNOWN_PANIC_CAUSE),
    }
    s
}

/// The feedback for a completed task: a heart on its message (or the album's
/// refresh), then the deletion of an error reply left by an earlier attempt.
pub fn success_feedback(message_id: i64, group_key: Option<String>, prev_reply: Option<i64>) -> (r: Vec<FeedbackAction>)
    ensures
        r@ == match prev_reply {
            Some(p) => seq![reaction_step(message_id, group_key, Feedback::Heart), FeedbackAction::DeleteMessage { message_id: p }],
            None => seq![reaction_step(message_id, group_key, Feedback::Heart)],
        },
{
    let mut v: Vec<FeedbackAction> = Vec::new();
    match group_key {
        Some(g) => v.push(FeedbackAction::RefreshAlbum { group_key: g }),
        None => v.push(FeedbackAction::React { message_id, feedback: Feedback::Heart }),
    }
    match prev_reply {
        Some(p) => v.push(FeedbackAction::DeleteMessage { message_id: p }),
        None => {},
    }
    assert(v@ =~= match prev_reply {
        Some(p) => seq![reaction_step(message_id, group_key, Feedback::Heart), FeedbackAction::DeleteMessage { message_id: p }],
        None => seq![reaction_step(message_id, group_key, Feedback::Heart)],
    });
    v
}

/// The feedback for a failed task: thumbs down on its message (or the
/// album's refresh), then the error reply: the earlier one edited, or a new
/// one sent.
pub fn failure_feedback(message_id: i64, group_key: Option<String>, prev_reply: Option<i64>, error: &str) -> (r: Vec<FeedbackAction>)
    ensures
        r@.len() == 2,
        r@[0] == reaction_step(message_id, group_key, Feedback::ThumbsDown),
        match prev_reply {
            Some(p) => r@[1] matches FeedbackAction::EditMessage { message_id: m, text } && m == p && text@ == failure_text(error@),
            None => r@[1] matches FeedbackAction::Reply { to_message_id: m, text } && m == message_id && text@ == failure_text(error@),
        },
{
    let mut v: Vec<FeedbackAction> = Vec::new();
    match group_key {
        Some(g) => v.push(FeedbackAction::RefreshAlbum { group_key: g }),
        None => v.push(FeedbackAction::React { message_id, feedback: Feedback::ThumbsDown }),
    }
    let text = failure_reply_text(error);
    match prev_reply {
        Some(p) => v.push(FeedbackAction::EditMessage { message_id: p, text }),
        None => v.push(FeedbackAction::Reply { to_message_id: message_id, text }),
    }
    v
}

/// The error reply id stored with a failed task: the earlier reply when there
/// was one, else the id of the reply just sent; ids that are not positive
/// (a reply that could not be sent) store none.
pub fn stored_reply_id(prev_reply: Option<i64>, sent: Option<i64>) -> (r: Option<i64>)
    ensures
        r == ({
            let id = match prev_reply {
                Some(p) => p,
                None => match sent {
                    Some(s) => s,
                    None => 0,
                },
            };
            if id > 0 { Some(id) } else { None }
        }),
{
    let id = match prev_reply {
        Some(p) => p,
        None => match sent {
            Some(s) => s,
            None => 0,
        },
    };
    if id > 0 { Some(id) } else { None }
}

/// How a poll of the worker loop ended.
#[derive(Debug, Clone, Copy, PartialEq, Eq, Structural)]
pub enum PollOutcome {
    /// A task was processed.
    Processed,
    /// No task was pending.
    Idle,
    /// The poll itself failed.
    Error,
    /// The poll panicked.
    Panicked,
}

/// Seconds the worker waits before the next poll.
pub open spec fn poll_delay_spec(o: PollOutcome) -> u64 {
    match o {
        PollOutcome::Processed => 0,
        PollOutcome::Idle => 1,
        PollOutcome::Error => 5,
        PollOutcome::Panicked => 5,
    }
}

/// Seconds the worker waits before the next poll: none after a task, one
/// when idle, five after an error or a panic.
pub fn poll_delay_secs(o: PollOutcome) -> (r: u64)
    ensures
        r == poll_delay_spec(o),
{
    match o {
        PollOutcome::Processed => 0,
        PollOutcome::Idle => 1,
        PollOutcome::Error => 5,
        PollOutcome::Panicked => 5,
    }
}

} // verus!
