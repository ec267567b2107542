//! Album coordination: the aggregate reaction of a multi-part submission,
//! set on its leader message once the outcome is known.

use vstd::prelude::*;
use crate::queue::TaskStatus;

verus! {

/// The reactions the feedback emitter sets on a submission.
#[derive(Debug, Clone, Copy, PartialEq, Eq, Structural)]
pub enum Feedback {
    /// Being processed.
    Eyes,
    /// Stored.
    Heart,
    /// Failed.
    ThumbsDown,
}

impl Feedback {
    /// The emoji of the reaction.
    pub fn emoji(&self) -> (r: &'static str)
        ensures
            r@ == feedback_emoji(*self),
    {
        match self {
            Feedback::Eyes => "\u{1F440}",
            Feedback::Heart => "\u{2764}\u{FE0F}",
            Feedback::ThumbsDown => "\u{1F44E}",
        }
    }
}

/// The emoji of a reaction.
pub open spec fn feedback_emoji(f: Feedback) -> Seq<char> {
    match f {
        Feedback::Eyes => "\u{1F440}"@,
        Feedback::Heart => "\u{2764}\u{FE0F}"@,
        Feedback::ThumbsDown => "\u{1F44E}"@,
    }
}

/// One task of an album: its submission message and its status.
#[derive(Debug, Clone, Copy, PartialEq, Eq, Structural)]
pub struct AlbumMember {
    pub bot_message_id: i64,
    pub status: TaskStatus,
}

/// Some member failed.
pub open spec fn any_failed(m: Seq<AlbumMember>) -> bool {
    exists|i: int| 0 <= i < m.len() && (#[trigger] m[i]).status == TaskStatus::Failed
}

/// Every member completed.
pub open spec fn all_completed(m: Seq<AlbumMember>) -> bool {
    forall|i: int| 0 <= i < m.len() ==> (#[trigger] m[i]).status == TaskStatus::Completed
}

/// `l` is the smallest submission message id of the album.
pub open spec fn is_leader(m: Seq<AlbumMember>, l: i64) -> bool {
    &&& exists|i: int| 0 <= i < m.len() && (#[trigger] m[i]).bot_message_id == l
    &&& forall|i: int| 0 <= i < m.len() ==> l <= (#[trigger] m[i]).bot_message_id
}

/// The album's reaction: thumbs down when a member failed, else a heart when
/// all completed, else none (the leader keeps what it has).
pub open spec fn album_feedback(m: Seq<AlbumMember>) -> Option<Feedback> {
    if m.len() == 0 {
        None
    } else if any_failed(m) {
        Some(Feedback::ThumbsDown)
    } else if all_completed(m) {
        Some(Feedback::Heart)
    } else {
        None
    }
}

/// The reaction to set on the album's leader, with the leader's message id,
/// or `None` when the leader keeps its reaction.
pub fn album_reaction(members: &Vec<AlbumMember>) -> (r: Option<(i64, Feedback)>)
    ensures
        match r {
            Some((l, f)) => album_feedback(members@) == Some(f) && is_leader(members@, l),
            None => album_feedback(members@).is_none(),
        },
{
    let n = members.len();
    if n == 0 {
        return None;
    }
    let mut leader: i64 = members[0].bot_message_id;
    let mut failed = false;
    let mut done = true;
    let mut i: usize = 0;
    while i < n
        invariant
            n == members@.len(),
            n > 0,
            i <= n,
            exists|j: int| 0 <= j < n && (#[trigger] members@[j]).bot_message_id == leader,
            forall|j: int| 0 <= j < i ==> leader <= (#[trigger] members@[j]).bot_message_id,
            failed == exists|j: int| 0 <= j < i && (#[trigger] members@[j]).status == TaskStatus::Failed,
            done == forall|j: int| 0 <= j < i ==> (#[trigger] members@[j]).status == TaskStatus::Completed,
        decreases n - i,
    {
        let m = members[i];
        if m.bot_message_id < leader {
            leader = m.bot_message_id;
        }
        if m.status == TaskStatus::Failed {
            failed = true;
        }
        if m.status != TaskStatus::Completed {
            done = false;
        }
        proof {
            assert(members@[i as int] == m);
            if !done {
                if m.status != TaskStatus::Completed {
                    assert(members@[i as int].status != TaskStatus::Completed);
                }
            }
        }
        i = i + 1;
    }
    if failed {
        Some((leader, Feedback::ThumbsDown))
    } else if done {
        Some((leader, Feedback::Heart))
    } else {
        None
    }
}

} // verus!
