//! The task queue: durable submission records and their lifecycle
//! pending → processing → completed | failed, with at-most-once enqueue and
//! leases that hand each pending task to one leaser only.
//!
//! `TaskQueue` is an in-memory model of the task table and of its contract.
//! The service keeps its tasks in the relational store and runs the same
//! transitions as SQL statements; the laws proved here (exclusive leases,
//! at-most-once enqueue, an item exactly for a completed task) hold of this
//! model, not of those statements.

use vstd::prelude::*;
use crate::album::AlbumMember;
use crate::payload::{group_key, group_key_spec, Payload};

verus! {

/// Where a task stands.
#[derive(Debug, Clone, Copy, PartialEq, Eq, Structural)]
pub enum TaskStatus {
    Pending,
    Processing,
    Completed,
    Failed,
}

impl TaskStatus {
    /// The stored name of the status.
    pub fn name(&self) -> (r: &'static str)
        ensures
            r@ == status_name(*self),
    {
        match self {
            TaskStatus::Pending => "pending",
            TaskStatus::Processing => "processing",
            TaskStatus::Completed => "completed",
            TaskStatus::Failed => "failed",
        }
    }

    /// The status that a stored name denotes.
    pub fn from_name(name: &str) -> (r: Option<TaskStatus>)
        ensures
            r.is_some() <==> (name@ == "pending"@ || name@ == "processing"@ || name@ == "completed"@ || name@ == "failed"@),
            r matches Some(s) ==> status_name(s) == name@,
    {
        if crate::text::str_eq(name, "pending") {
            Some(TaskStatus::Pending)
        } else if crate::text::str_eq(name, "processing") {
            Some(TaskStatus::Processing)
        } else if crate::text::str_eq(name, "completed") {
            Some(TaskStatus::Completed)
        } else if crate::text::str_eq(name, "failed") {
            Some(TaskStatus::Failed)
        } else {
            None
        }
    }
}

/// The stored name of a status.
pub open spec fn status_name(s: TaskStatus) -> Seq<char> {
    match s {
        TaskStatus::Pending => "pending"@,
        TaskStatus::Processing => "processing"@,
        TaskStatus::Completed => "completed"@,
        TaskStatus::Failed => "failed"@,
    }
}

/// A submission record.
#[derive(Debug, Clone)]
pub struct Task {
    pub id: i64,
    pub bot_chat_id: i64,
    pub bot_message_id: i64,
    pub source_chat_id: Option<i64>,
    pub source_message_id: Option<i64>,
    pub source_user_id: Option<i64>,
    pub status: TaskStatus,
    pub payload: Payload,
    pub item_id: Option<i64>,
    pub error_message: Option<String>,
    pub error_reply_id: Option<i64>,
}

/// A task's own invariant: it has an item exactly when completed, and an
/// error message exactly when failed.
pub open spec fn task_wf(t: Task) -> bool {
    &&& (t.item_id.is_some() <==> t.status == TaskStatus::Completed)
    &&& (t.error_message.is_some() <==> t.status == TaskStatus::Failed)
}

/// The queue's invariant: ids ascend in the order of submission, the
/// submission coordinates are unique, and each task is well formed.
pub open spec fn queue_wf(s: Seq<Task>) -> bool {
    &&& forall|i: int, j: int| 0 <= i < j < s.len() ==> (#[trigger] s[i]).id < (#[trigger] s[j]).id
    &&& forall|i: int, j: int| 0 <= i < j < s.len() ==> !same_coords(#[trigger] s[i], #[trigger] s[j])
    &&& forall|i: int| 0 <= i < s.len() ==> task_wf(#[trigger] s[i])
}

/// Two tasks come from the same submission message.
pub open spec fn same_coords(a: Task, b: Task) -> bool {
    a.bot_chat_id == b.bot_chat_id && a.bot_message_id == b.bot_message_id
}

/// The position of the task for the message `(chat, msg)`, if one exists.
pub open spec fn has_coords(s: Seq<Task>, chat: i64, msg: i64) -> bool {
    exists|i: int| 0 <= i < s.len() && (#[trigger] s[i]).bot_chat_id == chat && s[i].bot_message_id == msg
}

/// The number of tasks for the message `(chat, msg)`.
pub open spec fn count_coords(s: Seq<Task>, chat: i64, msg: i64) -> nat
    decreases s.len(),
{
    if s.len() == 0 {
        0
    } else {
        count_coords(s.drop_last(), chat, msg)
            + if s.last().bot_chat_id == chat && s.last().bot_message_id == msg { 1nat } else { 0nat }
    }
}

/// The queue after submitting `t`: unchanged when its message already has a
/// task, else with `t` appended.
pub open spec fn enqueue_spec(s: Seq<Task>, t: Task) -> Seq<Task> {
    if has_coords(s, t.bot_chat_id, t.bot_message_id) { s } else { s.push(t) }
}

/// The index of the oldest pending task, if any.
pub open spec fn first_pending(s: Seq<Task>) -> Option<int>
    decreases s.len(),
{
    if s.len() == 0 {
        None
    } else {
        match first_pending(s.drop_last()) {
            Some(i) => Some(i),
            None => if s.last().status == TaskStatus::Pending { Some(s.len() - 1) } else { None },
        }
    }
}

/// `t` with a new status.
pub open spec fn with_status(t: Task, st: TaskStatus) -> Task {
    Task { status: st, ..t }
}

/// The queue after one lease, and the index of the leased task: the oldest
/// pending task, now processing.
pub open spec fn lease_spec(s: Seq<Task>) -> (Seq<Task>, Option<int>) {
    match first_pending(s) {
        Some(i) => (s.update(i, with_status(s[i], TaskStatus::Processing)), Some(i)),
        None => (s, None),
    }
}

/// A new pending task.
pub open spec fn new_task(
    id: i64,
    chat: i64,
    msg: i64,
    source_chat_id: Option<i64>,
    source_message_id: Option<i64>,
    source_user_id: Option<i64>,
    payload: Payload,
) -> Task {
    Task {
        id,
        bot_chat_id: chat,
        bot_message_id: msg,
        source_chat_id,
        source_message_id,
        source_user_id,
        status: TaskStatus::Pending,
        payload,
        item_id: None,
        error_message: None,
        error_reply_id: None,
    }
}

/// `t` completed with `item_id`; an earlier error reply is cleared.
pub open spec fn completed(t: Task, item_id: i64) -> Task {
    Task {
        status: TaskStatus::Completed,
        item_id: Some(item_id),
        error_message: None,
        error_reply_id: None,
        ..t
    }
}

/// `t` failed with `message`, its error reply being `reply_id`.
pub open spec fn failed(t: Task, message: String, reply_id: Option<i64>) -> Task {
    Task {
        status: TaskStatus::Failed,
        item_id: None,
        error_message: Some(message),
        error_reply_id: reply_id,
        ..t
    }
}

/// Some task has id `id` and the status `st`.
pub open spec fn has_task_in(s: Seq<Task>, id: i64, st: TaskStatus) -> bool {
    exists|i: int| 0 <= i < s.len() && (#[trigger] s[i]).id == id && s[i].status == st
}

/// The item of the latest task for the message `(chat, msg)` that has one.
pub open spec fn item_of_message(s: Seq<Task>, chat: i64, msg: i64) -> Option<i64>
    decreases s.len(),
{
    if s.len() == 0 {
        None
    } else if s.last().bot_chat_id == chat && s.last().bot_message_id == msg && s.last().item_id.is_some() {
        s.last().item_id
    } else {
        item_of_message(s.drop_last(), chat, msg)
    }
}

/// The tasks that do not reference the item `item_id`.
pub open spec fn without_item(s: Seq<Task>, item_id: i64) -> Seq<Task>
    decreases s.len(),
{
    if s.len() == 0 {
        s
    } else {
        let p = without_item(s.drop_last(), item_id);
        if s.last().item_id == Some(item_id) { p } else { p.push(s.last()) }
    }
}

proof fn lemma_first_pending(s: Seq<Task>)
    ensures
        match first_pending(s) {
            Some(i) => 0 <= i < s.len() && s[i].status == TaskStatus::Pending
                && forall|j: int| 0 <= j < i ==> (#[trigger] s[j]).status != TaskStatus::Pending,
            None => forall|j: int| 0 <= j < s.len() ==> (#[trigger] s[j]).status != TaskStatus::Pending,
        },
    decreases s.len(),
{
    if s.len() > 0 {
        let p = s.drop_last();
        lemma_first_pending(p);
        match first_pending(p) {
            Some(i) => {
                assert(s[i] == p[i]);
                assert forall|j: int| 0 <= j < i implies (#[trigger] s[j]).status != TaskStatus::Pending by {
                    assert(s[j] == p[j]);
                }
            },
            None => {
                assert forall|j: int| 0 <= j < s.len() - 1 implies (#[trigger] s[j]).status != TaskStatus::Pending by {
                    assert(s[j] == p[j]);
                }
                assert(s[s.len() - 1] == s.last());
            },
        }
    }
}

/// What submitting a message gave.
#[derive(Debug, Clone, Copy, PartialEq, Eq, Structural)]
pub enum EnqueueOutcome {
    /// A new pending task with this id.
    Accepted(i64),
    /// The message already had a task, which stands as it was, with this status.
    Duplicate(TaskStatus),
    /// No task id is left.
    IdsExhausted,
}

/// The durable queue of submissions.
pub struct TaskQueue {
    tasks: Vec<Task>,
    next_id: i64,
}

impl View for TaskQueue {
    type V = Seq<Task>;

    closed spec fn view(&self) -> Seq<Task> {
        self.tasks@
    }
}

impl TaskQueue {
    /// The id the next accepted task receives.
    pub closed spec fn next_task_id(&self) -> int {
        self.next_id as int
    }

    /// The queue's invariant.
    pub closed spec fn wf(&self) -> bool {
        &&& queue_wf(self.tasks@)
        &&& self.next_id >= 1
        &&& forall|i: int| 0 <= i < self.tasks@.len() ==> (#[trigger] self.tasks@[i]).id < self.next_id
    }

    /// An empty queue.
    pub fn new() -> (r: TaskQueue)
        ensures
            r.wf(),
            r@ == Seq::<Task>::empty(),
    {
        TaskQueue { tasks: Vec::new(), next_id: 1 }
    }

    /// The tasks, oldest first.
    pub fn tasks(&self) -> (r: &Vec<Task>)
        ensures
            r@ == self@,
    {
        &self.tasks
    }

    /// The index of the task for the message `(chat, msg)`.
    fn find_coords(&self, chat: i64, msg: i64) -> (r: Option<usize>)
        ensures
            match r {
                Some(i) => i < self@.len() && self@[i as int].bot_chat_id == chat && self@[i as int].bot_message_id == msg,
                None => !has_coords(self@, chat, msg),
            },
    {
        let mut i: usize = 0;
        while i < self.tasks.len()
            invariant
                i <= self.tasks@.len(),
                forall|j: int| 0 <= j < i ==> !((#[trigger] self.tasks@[j]).bot_chat_id == chat && self.tasks@[j].bot_message_id == msg),
            decreases self.tasks@.len() - i,
        {
            if self.tasks[i].bot_chat_id == chat && self.tasks[i].bot_message_id == msg {
                return Some(i);
            }
            i = i + 1;
        }
        None
    }
}


impl TaskQueue {
    /// Submits the message `(chat, msg)`: a new pending task, unless the
    /// message already has one, which then stands as it was.
    pub fn enqueue(
        &mut self,
        chat: i64,
        msg: i64,
        source_chat_id: Option<i64>,
        source_message_id: Option<i64>,
        source_user_id: Option<i64>,
        payload: Payload,
    ) -> (r: EnqueueOutcome)
        requires
            old(self).wf(),
        ensures
            final(self).wf(),
            match r {
                EnqueueOutcome::Accepted(id) => {
                    &&& !has_coords(old(self)@, chat, msg)
                    &&& id == old(self).next_task_id()
                    &&& final(self)@ == enqueue_spec(old(self)@, new_task(id, chat, msg, source_chat_id, source_message_id, source_user_id, payload))
                    &&& final(self)@ == old(self)@.push(new_task(id, chat, msg, source_chat_id, source_message_id, source_user_id, payload))
                },
                EnqueueOutcome::Duplicate(st) => {
                    &&& final(self)@ == old(self)@
                    &&& exists|i: int| 0 <= i < old(self)@.len() && (#[trigger] old(self)@[i]).bot_chat_id == chat
                        && old(self)@[i].bot_message_id == msg && old(self)@[i].status == st
                },
                EnqueueOutcome::IdsExhausted => {
                    &&& !has_coords(old(self)@, chat, msg)
                    &&& old(self).next_task_id() == i64::MAX
                    &&& final(self)@ == old(self)@
                },
            },
    {
        match self.find_coords(chat, msg) {
            Some(i) => EnqueueOutcome::Duplicate(self.tasks[i].status),
            None => {
                if self.next_id == i64::MAX {
                    return EnqueueOutcome::IdsExhausted;
                }
                let id = self.next_id;
                let t = Task {
                    id,
                    bot_chat_id: chat,
                    bot_message_id: msg,
                    source_chat_id,
                    source_message_id,
                    source_user_id,
                    status: TaskStatus::Pending,
                    payload,
                    item_id: None,
                    error_message: None,
                    error_reply_id: None,
                };
                let ghost before = self.tasks@;
                self.tasks.push(t);
                self.next_id = id + 1;
                proof {
                    let s = self.tasks@;
                    assert forall|a: int, b: int| 0 <= a < b < s.len() implies !same_coords(#[trigger] s[a], #[trigger] s[b]) by {
                        if b == s.len() - 1 {
                            assert(s[a] == before[a]);
                        } else {
                            assert(s[a] == before[a] && s[b] == before[b]);
                        }
                    }
                    assert forall|a: int, b: int| 0 <= a < b < s.len() implies (#[trigger] s[a]).id < (#[trigger] s[b]).id by {
                        if b == s.len() - 1 {
                            assert(s[a] == before[a]);
                        } else {
                            assert(s[a] == before[a] && s[b] == before[b]);
                        }
                    }
                    assert forall|a: int| 0 <= a < s.len() implies task_wf(#[trigger] s[a]) by {
                        if a < before.len() {
                            assert(s[a] == before[a]);
                        }
                    }
                    assert forall|a: int| 0 <= a < s.len() implies (#[trigger] s[a]).id < self.next_id by {
                        if a < before.len() {
                            assert(s[a] == before[a]);
                        }
                    }
                }
                EnqueueOutcome::Accepted(id)
            },
        }
    }

    /// Leases the oldest pending task: marks it processing and returns its id.
    pub fn lease_next(&mut self) -> (r: Option<i64>)
        requires
            old(self).wf(),
        ensures
            final(self).wf(),
            final(self).next_task_id() == old(self).next_task_id(),
            final(self)@ == lease_spec(old(self)@).0,
            r == match lease_spec(old(self)@).1 {
                Some(i) => Some(old(self)@[i].id),
                None => None::<i64>,
            },
    {
        proof {
            lemma_first_pending(self.tasks@);
        }
        let ghost s0 = self.tasks@;
        let mut i: usize = 0;
        while i < self.tasks.len()
            invariant
                i <= self.tasks@.len(),
                s0 == self.tasks@,
                s0 == old(self).tasks@,
                self.next_id == old(self).next_id,
                self.wf(),
                forall|j: int| 0 <= j < i ==> (#[trigger] self.tasks@[j]).status != TaskStatus::Pending,
            decreases self.tasks@.len() - i,
        {
            if self.tasks[i].status == TaskStatus::Pending {
                proof {
                    lemma_first_pending(self.tasks@);
                    match first_pending(self.tasks@) {
                        Some(f) => {
                            if f < i {
                                assert(self.tasks@[f].status != TaskStatus::Pending);
                            }
                            if f > i {
                                assert(self.tasks@[i as int].status != TaskStatus::Pending);
                            }
                        },
                        None => {
                            assert(self.tasks@[i as int].status != TaskStatus::Pending);
                        },
                    }
                }
                let ghost before = self.tasks@;
                let id = self.tasks[i].id;
                self.set_status(i, TaskStatus::Processing);
                proof {
                    let s = self.tasks@;
                    assert(s =~= before.update(i as int, with_status(before[i as int], TaskStatus::Processing)));
                }
                return Some(id);
            }
            i = i + 1;
        }
        proof {
            lemma_first_pending(self.tasks@);
            match first_pending(self.tasks@) {
                Some(f) => {
                    assert(self.tasks@[f].status != TaskStatus::Pending);
                },
                None => {},
            }
        }
        None
    }

    /// Sets the status of the task at `i`, which keeps its item and error.
    fn set_status(&mut self, i: usize, st: TaskStatus)
        requires
            old(self).wf(),
            i < old(self)@.len(),
            st != TaskStatus::Completed,
            st != TaskStatus::Failed,
            old(self)@[i as int].status != TaskStatus::Completed,
            old(self)@[i as int].status != TaskStatus::Failed,
        ensures
            final(self).wf(),
            final(self).next_task_id() == old(self).next_task_id(),
            final(self)@ == old(self)@.update(i as int, with_status(old(self)@[i as int], st)),
    {
        let ghost before = self.tasks@;
        let mut t = self.tasks.remove(i);
        t.status = st;
        self.tasks.insert(i, t);
        proof {
            let s = self.tasks@;
            assert(s =~= before.update(i as int, with_status(before[i as int], st)));
            assert forall|a: int| 0 <= a < s.len() && a != i implies #[trigger] s[a] == before[a] by {}
            assert forall|a: int, b: int| 0 <= a < b < s.len() implies !same_coords(#[trigger] s[a], #[trigger] s[b]) by {
                assert(before[a].bot_chat_id == s[a].bot_chat_id && before[b].bot_chat_id == s[b].bot_chat_id);
            }
            assert forall|a: int, b: int| 0 <= a < b < s.len() implies (#[trigger] s[a]).id < (#[trigger] s[b]).id by {
                assert(before[a].id == s[a].id && before[b].id == s[b].id);
            }
            assert forall|a: int| 0 <= a < s.len() implies task_wf(#[trigger] s[a]) by {
                assert(task_wf(before[a]));
            }
            assert forall|a: int| 0 <= a < s.len() implies (#[trigger] s[a]).id < self.next_id by {
                assert(before[a].id == s[a].id);
            }
        }
    }
}


impl TaskQueue {
    /// The index of the task with id `id`.
    fn find_id(&self, id: i64) -> (r: Option<usize>)
        ensures
            match r {
                Some(i) => i < self@.len() && self@[i as int].id == id,
                None => forall|j: int| 0 <= j < self@.len() ==> (#[trigger] self@[j]).id != id,
            },
    {
        let mut i: usize = 0;
        while i < self.tasks.len()
            invariant
                i <= self.tasks@.len(),
                forall|j: int| 0 <= j < i ==> (#[trigger] self.tasks@[j]).id != id,
            decreases self.tasks@.len() - i,
        {
            if self.tasks[i].id == id {
                return Some(i);
            }
            i = i + 1;
        }
        None
    }

    /// Sets the lifecycle fields of the task at `i`.
    fn update_task(
        &mut self,
        i: usize,
        status: TaskStatus,
        item_id: Option<i64>,
        error_message: Option<String>,
        error_reply_id: Option<i64>,
    )
        requires
            old(self).wf(),
            i < old(self)@.len(),
            item_id.is_some() <==> status == TaskStatus::Completed,
            error_message.is_some() <==> status == TaskStatus::Failed,
        ensures
            final(self).wf(),
            final(self).next_task_id() == old(self).next_task_id(),
            final(self)@ == old(self)@.update(i as int, Task { status, item_id, error_message, error_reply_id, ..old(self)@[i as int] }),
    {
        let ghost before = self.tasks@;
        let mut t = self.tasks.remove(i);
        t.status = status;
        t.item_id = item_id;
        t.error_message = error_message;
        t.error_reply_id = error_reply_id;
        self.tasks.insert(i, t);
        proof {
            let s = self.tasks@;
            assert(s =~= before.update(i as int, t));
            assert forall|a: int, b: int| 0 <= a < b < s.len() implies !same_coords(#[trigger] s[a], #[trigger] s[b]) by {
                assert(before[a].bot_chat_id == s[a].bot_chat_id && before[b].bot_chat_id == s[b].bot_chat_id);
                assert(before[a].bot_message_id == s[a].bot_message_id && before[b].bot_message_id == s[b].bot_message_id);
            }
            assert forall|a: int, b: int| 0 <= a < b < s.len() implies (#[trigger] s[a]).id < (#[trigger] s[b]).id by {
                assert(before[a].id == s[a].id && before[b].id == s[b].id);
            }
            assert forall|a: int| 0 <= a < s.len() implies task_wf(#[trigger] s[a]) by {
                assert(task_wf(before[a]));
            }
            assert forall|a: int| 0 <= a < s.len() implies (#[trigger] s[a]).id < self.next_id by {
                assert(before[a].id == s[a].id);
            }
        }
    }

    /// The index of the processing task `task_id`, if there is one.
    fn find_processing(&self, task_id: i64) -> (r: Option<usize>)
        requires
            self.wf(),
        ensures
            r.is_some() == has_task_in(self@, task_id, TaskStatus::Processing),
            r matches Some(i) ==> i < self@.len() && self@[i as int].id == task_id
                && forall|j: int| 0 <= j < self@.len() && (#[trigger] self@[j]).id == task_id ==> j == i,
    {
        match self.find_id(task_id) {
            Some(i) => {
                assert forall|j: int| 0 <= j < self@.len() && (#[trigger] self@[j]).id == task_id implies j == i by {
                    if j < i { assert(self@[j].id < self@[i as int].id); }
                    if j > i { assert(self@[i as int].id < self@[j].id); }
                }
                if self.tasks[i].status == TaskStatus::Processing {
                    Some(i)
                } else {
                    None
                }
            },
            None => None,
        }
    }

    /// Completes the processing task `task_id` with the item `item_id`, and
    /// clears its error reply. A task that is not processing stays as it is.
    pub fn complete(&mut self, task_id: i64, item_id: i64) -> (r: bool)
        requires
            old(self).wf(),
        ensures
            final(self).wf(),
            final(self).next_task_id() == old(self).next_task_id(),
            r == has_task_in(old(self)@, task_id, TaskStatus::Processing),
            r ==> forall|i: int| 0 <= i < old(self)@.len() && (#[trigger] old(self)@[i]).id == task_id
                ==> final(self)@ == old(self)@.update(i, completed(old(self)@[i], item_id)),
            !r ==> final(self)@ == old(self)@,
    {
        match self.find_processing(task_id) {
            Some(i) => {
                self.update_task(i, TaskStatus::Completed, Some(item_id), None, None);
                true
            },
            None => false,
        }
    }

    /// Fails the processing task `task_id` with `message`, recording its error
    /// reply. A task that is not processing stays as it is.
    pub fn fail(&mut self, task_id: i64, message: String, reply_id: Option<i64>) -> (r: bool)
        requires
            old(self).wf(),
        ensures
            final(self).wf(),
            final(self).next_task_id() == old(self).next_task_id(),
            r == has_task_in(old(self)@, task_id, TaskStatus::Processing),
            r ==> forall|i: int| 0 <= i < old(self)@.len() && (#[trigger] old(self)@[i]).id == task_id
                ==> final(self)@ == old(self)@.update(i, failed(old(self)@[i], message, reply_id)),
            !r ==> final(self)@ == old(self)@,
    {
        match self.find_processing(task_id) {
            Some(i) => {
                self.update_task(i, TaskStatus::Failed, None, Some(message), reply_id);
                true
            },
            None => false,
        }
    }
}


impl TaskQueue {
    /// The item of the latest task for the message `(chat, msg)` that has
    /// one: reactions act on it.
    pub fn item_for_message(&self, chat: i64, msg: i64) -> (r: Option<i64>)
        ensures
            r == item_of_message(self@, chat, msg),
    {
        let mut i: usize = self.tasks.len();
        assert(self.tasks@.subrange(0, i as int) =~= self.tasks@);
        while i > 0
            invariant
                i <= self.tasks@.len(),
                item_of_message(self.tasks@, chat, msg) == item_of_message(self.tasks@.subrange(0, i as int), chat, msg),
            decreases i,
        {
            let t = &self.tasks[i - 1];
            proof {
                let p = self.tasks@.subrange(0, i as int);
                assert(p.drop_last() =~= self.tasks@.subrange(0, i - 1));
                assert(p.last() == *t);
            }
            if t.bot_chat_id == chat && t.bot_message_id == msg && t.item_id.is_some() {
                return t.item_id;
            }
            i = i - 1;
        }
        None
    }

    /// Deletes the tasks that reference the item `item_id`.
    pub fn remove_for_item(&mut self, item_id: i64)
        requires
            old(self).wf(),
        ensures
            final(self).wf(),
            final(self).next_task_id() == old(self).next_task_id(),
            final(self)@ == without_item(old(self)@, item_id),
            forall|i: int| 0 <= i < final(self)@.len() ==> (#[trigger] final(self)@[i]).item_id != Some(item_id),
    {
        let ghost s0 = self.tasks@;
        let mut kept: Vec<Task> = Vec::new();
        let mut rest: Vec<Task> = Vec::new();
        std::mem::swap(&mut rest, &mut self.tasks);
        let mut n: usize = 0;
        let total = rest.len();
        while rest.len() > 0
            invariant
                n + rest@.len() == s0.len(),
                total == s0.len(),
                rest@ =~= s0.subrange(n as int, s0.len() as int),
                kept@ == without_item(s0.subrange(0, n as int), item_id),
                forall|i: int| 0 <= i < kept@.len() ==> (#[trigger] kept@[i]).item_id != Some(item_id),
            decreases rest@.len(),
        {
            let ghost r0 = rest@;
            let t = rest.remove(0);
            proof {
                assert(t == s0[n as int]);
                let p = s0.subrange(0, n as int + 1);
                assert(p.drop_last() =~= s0.subrange(0, n as int));
                assert(p.last() == t);
                assert(rest@ =~= s0.subrange(n as int + 1, s0.len() as int));
            }
            if t.item_id != Some(item_id) {
                kept.push(t);
            }
            n = n + 1;
        }
        proof {
            assert(s0.subrange(0, n as int) =~= s0);
        }
        self.tasks = kept;
        proof {
            lemma_without_item_keeps_wf(s0, item_id);
        }
    }
}

proof fn lemma_without_item_keeps_wf(s: Seq<Task>, item_id: i64)
    ensures
        forall|j: int| 0 <= j < without_item(s, item_id).len() ==> exists|i: int| 0 <= i < s.len() && s[i] == #[trigger] without_item(s, item_id)[j],
        queue_wf(s) ==> queue_wf(without_item(s, item_id)),
        forall|j: int, k: int| 0 <= j < k < without_item(s, item_id).len() ==> exists|a: int, b: int| 0 <= a < b < s.len()
            && s[a] == #[trigger] without_item(s, item_id)[j] && s[b] == #[trigger] without_item(s, item_id)[k],
    decreases s.len(),
{
    if s.len() > 0 {
        let p = s.drop_last();
        lemma_without_item_keeps_wf(p, item_id);
        let w = without_item(p, item_id);
        let ws = without_item(s, item_id);
        assert forall|j: int| 0 <= j < ws.len() implies exists|i: int| 0 <= i < s.len() && s[i] == #[trigger] ws[j] by {
            if j < w.len() {
                assert(ws[j] == w[j]);
                let i = choose|i: int| 0 <= i < p.len() && p[i] == w[j];
                assert(s[i] == p[i]);
            } else {
                assert(s[s.len() - 1] == ws[j]);
            }
        }
        assert forall|j: int, k: int| 0 <= j < k < ws.len() implies exists|a: int, b: int| 0 <= a < b < s.len()
            && s[a] == #[trigger] ws[j] && s[b] == #[trigger] ws[k] by {
            if k < w.len() {
                assert(ws[j] == w[j] && ws[k] == w[k]);
                let (a, b) = choose|a: int, b: int| 0 <= a < b < p.len() && p[a] == #[trigger] w[j] && p[b] == #[trigger] w[k];
                assert(s[a] == p[a] && s[b] == p[b]);
            } else {
                assert(ws[j] == w[j]);
                let a = choose|a: int| 0 <= a < p.len() && p[a] == #[trigger] w[j];
                assert(s[a] == p[a]);
                assert(s[s.len() - 1] == ws[k]);
            }
        }
        if queue_wf(s) {
            assert forall|i: int, j: int| 0 <= i < j < p.len() implies (#[trigger] p[i]).id < (#[trigger] p[j]).id by {
                assert(p[i] == s[i] && p[j] == s[j]);
            }
            assert forall|i: int, j: int| 0 <= i < j < p.len() implies !same_coords(#[trigger] p[i], #[trigger] p[j]) by {
                assert(p[i] == s[i] && p[j] == s[j]);
            }
            assert forall|i: int| 0 <= i < p.len() implies task_wf(#[trigger] p[i]) by {
                assert(p[i] == s[i]);
            }
            assert forall|j: int, k: int| 0 <= j < k < ws.len() implies (#[trigger] ws[j]).id < (#[trigger] ws[k]).id && !same_coords(ws[j], ws[k]) by {
                let (a, b) = choose|a: int, b: int| 0 <= a < b < s.len() && s[a] == #[trigger] ws[j] && s[b] == #[trigger] ws[k];
                assert(s[a].id < s[b].id);
                assert(!same_coords(s[a], s[b]));
            }
            assert forall|j: int| 0 <= j < ws.len() implies task_wf(#[trigger] ws[j]) by {
                let i = choose|i: int| 0 <= i < s.len() && s[i] == #[trigger] ws[j];
                assert(task_wf(s[i]));
            }
        }
    }
}


/// The queue after `n` leases one after the other, and the ids of the tasks
/// they handed out.
pub open spec fn lease_run(s: Seq<Task>, n: nat) -> (Seq<Task>, Seq<i64>)
    decreases n,
{
    if n == 0 {
        (s, Seq::empty())
    } else {
        let (s1, ids) = lease_run(s, (n - 1) as nat);
        let (s2, a) = lease_spec(s1);
        match a {
            Some(i) => (s2, ids.push(s1[i].id)),
            None => (s2, ids),
        }
    }
}

/// Every id of `ids` is that of a task of `s` that is not pending.
spec fn leased_not_pending(s: Seq<Task>, ids: Seq<i64>) -> bool {
    forall|k: int| 0 <= k < ids.len() ==> exists|j: int| 0 <= j < s.len()
        && s[j].id == #[trigger] ids[k] && s[j].status != TaskStatus::Pending
}

proof fn lemma_lease_run(s: Seq<Task>, n: nat)
    requires
        queue_wf(s),
    ensures
        lease_run(s, n).0.len() == s.len(),
        forall|i: int| 0 <= i < s.len() ==> (#[trigger] lease_run(s, n).0[i]).id == s[i].id,
        lease_run(s, n).1.no_duplicates(),
        leased_not_pending(lease_run(s, n).0, lease_run(s, n).1),
    decreases n,
{
    if n > 0 {
        lemma_lease_run(s, (n - 1) as nat);
        let (s1, ids) = lease_run(s, (n - 1) as nat);
        lemma_first_pending(s1);
        let (s2, a) = lease_spec(s1);
        let (t, r) = lease_run(s, n);
        assert(t == s2);
        match a {
            Some(i) => {
                assert(r == ids.push(s1[i].id));
                assert forall|k: int| 0 <= k < ids.len() implies ids[k] != s1[i].id by {
                    let j = choose|j: int| 0 <= j < s.len() && s1[j].id == #[trigger] ids[k] && s1[j].status != TaskStatus::Pending;
                    if j != i {
                        if j < i { assert(s[j].id < s[i].id); } else { assert(s[i].id < s[j].id); }
                    }
                }
                assert(r.no_duplicates()) by {
                    assert forall|p: int, q: int| 0 <= p < r.len() && 0 <= q < r.len() && p != q implies r[p] != r[q] by {
                        if p < ids.len() && q < ids.len() {
                            assert(r[p] == ids[p] && r[q] == ids[q]);
                        } else if p < ids.len() {
                            assert(r[p] == ids[p]);
                        } else {
                            assert(r[q] == ids[q]);
                        }
                    }
                }
                assert forall|k: int| 0 <= k < r.len() implies exists|j: int| 0 <= j < s.len()
                    && t[j].id == #[trigger] r[k] && t[j].status != TaskStatus::Pending by {
                    if k < ids.len() {
                        assert(r[k] == ids[k]);
                        let j = choose|j: int| 0 <= j < s.len() && s1[j].id == #[trigger] ids[k] && s1[j].status != TaskStatus::Pending;
                        assert(t[j].id == r[k]);
                        assert(t[j].status != TaskStatus::Pending);
                    } else {
                        assert(t[i].id == r[k]);
                    }
                }
            },
            None => {
                assert(t == s1 && r == ids);
                assert forall|k: int| 0 <= k < r.len() implies exists|j: int| 0 <= j < s.len()
                    && t[j].id == #[trigger] r[k] && t[j].status != TaskStatus::Pending by {
                    assert(0 <= k < ids.len());
                    assert(r[k] == ids[k]);
                    let j = choose|j: int| 0 <= j < s.len() && s1[j].id == #[trigger] ids[k] && s1[j].status != TaskStatus::Pending;
                    assert(t[j].id == r[k]);
                }
            },
        }
        assert(leased_not_pending(t, r));
    } else {
        assert(lease_run(s, n).1.len() == 0);
    }
}

/// Leases never hand out a task twice: however many leasers take tasks one
/// after the other, the tasks they receive are pairwise distinct, since a
/// lease takes a pending task and leaves it processing.
pub proof fn lemma_lease_exclusive(s: Seq<Task>, n: nat)
    requires
        queue_wf(s),
    ensures
        lease_run(s, n).1.no_duplicates(),
{
    lemma_lease_run(s, n);
}

proof fn lemma_count_coords(s: Seq<Task>, chat: i64, msg: i64)
    requires
        forall|i: int, j: int| 0 <= i < j < s.len() ==> !same_coords(#[trigger] s[i], #[trigger] s[j]),
    ensures
        count_coords(s, chat, msg) == if has_coords(s, chat, msg) { 1nat } else { 0nat },
    decreases s.len(),
{
    if s.len() > 0 {
        let p = s.drop_last();
        assert forall|i: int, j: int| 0 <= i < j < p.len() implies !same_coords(#[trigger] p[i], #[trigger] p[j]) by {
            assert(p[i] == s[i] && p[j] == s[j]);
        }
        lemma_count_coords(p, chat, msg);
        let l = s.last();
        assert(l == s[s.len() - 1]);
        if has_coords(p, chat, msg) {
            let i = choose|i: int| 0 <= i < p.len() && (#[trigger] p[i]).bot_chat_id == chat && p[i].bot_message_id == msg;
            assert(s[i] == p[i]);
            assert(!same_coords(s[i], s[s.len() - 1]));
        } else if has_coords(s, chat, msg) {
            let i = choose|i: int| 0 <= i < s.len() && (#[trigger] s[i]).bot_chat_id == chat && s[i].bot_message_id == msg;
            if i < s.len() - 1 {
                assert(p[i] == s[i]);
            }
        } else {
            assert(!(s[s.len() - 1].bot_chat_id == chat && s[s.len() - 1].bot_message_id == msg));
        }
    }
}

/// Submitting the same message twice leaves exactly one task for it.
pub proof fn lemma_enqueue_at_most_once(s: Seq<Task>, t1: Task, t2: Task)
    requires
        queue_wf(s),
        same_coords(t1, t2),
    ensures
        count_coords(enqueue_spec(enqueue_spec(s, t1), t2), t1.bot_chat_id, t1.bot_message_id) == 1,
{
    let chat = t1.bot_chat_id;
    let msg = t1.bot_message_id;
    let s1 = enqueue_spec(s, t1);
    if !has_coords(s, chat, msg) {
        assert(s1 == s.push(t1));
        assert(s1[s.len() as int] == t1);
        assert(has_coords(s1, chat, msg));
        assert forall|i: int, j: int| 0 <= i < j < s1.len() implies !same_coords(#[trigger] s1[i], #[trigger] s1[j]) by {
            if j == s.len() {
                assert(s1[i] == s[i]);
                assert(!(s[i].bot_chat_id == chat && s[i].bot_message_id == msg));
            } else {
                assert(s1[i] == s[i] && s1[j] == s[j]);
            }
        }
        lemma_count_coords(s1, chat, msg);
    } else {
        lemma_count_coords(s, chat, msg);
    }
}

/// Every queue that the operations build holds an item for a task exactly
/// when the task completed: items become visible on completion only.
pub proof fn lemma_item_iff_completed(q: &TaskQueue)
    requires
        q.wf(),
    ensures
        forall|i: int| 0 <= i < q@.len() ==> ((#[trigger] q@[i]).item_id.is_some() <==> q@[i].status == TaskStatus::Completed),
{
    assert forall|i: int| 0 <= i < q@.len() implies ((#[trigger] q@[i]).item_id.is_some() <==> q@[i].status == TaskStatus::Completed) by {
        assert(task_wf(q.tasks@[i]));
    }
}


/// The members of the album `key` in the chat `chat`: the tasks of that chat
/// whose payload names that album, in order.
pub open spec fn album_of(s: Seq<Task>, chat: i64, key: Seq<char>) -> Seq<AlbumMember>
    decreases s.len(),
{
    if s.len() == 0 {
        Seq::empty()
    } else {
        let p = album_of(s.drop_last(), chat, key);
        let t = s.last();
        if t.bot_chat_id == chat && group_key_spec(t.payload.group) == Some(key) {
            p.push(AlbumMember { bot_message_id: t.bot_message_id, status: t.status })
        } else {
            p
        }
    }
}

impl TaskQueue {
    /// The members of the album `key` in the chat `chat`.
    pub fn album_members(&self, chat: i64, key: &str) -> (r: Vec<AlbumMember>)
        ensures
            r@ == album_of(self@, chat, key@),
    {
        let mut out: Vec<AlbumMember> = Vec::new();
        let mut i: usize = 0;
        while i < self.tasks.len()
            invariant
                i <= self.tasks@.len(),
                out@ == album_of(self.tasks@.subrange(0, i as int), chat, key@),
            decreases self.tasks@.len() - i,
        {
            let t = &self.tasks[i];
            proof {
                let p = self.tasks@.subrange(0, i as int + 1);
                assert(p.drop_last() =~= self.tasks@.subrange(0, i as int));
                assert(p.last() == *t);
            }
            if t.bot_chat_id == chat {
                match group_key(&t.payload.group) {
                    Some(g) => {
                        if crate::text::str_eq(g.as_str(), key) {
                            out.push(AlbumMember { bot_message_id: t.bot_message_id, status: t.status });
                        }
                    },
                    None => {},
                }
            }
            i = i + 1;
        }
        assert(self.tasks@.subrange(0, i as int) =~= self.tasks@);
        out
    }
}

} // verus!
