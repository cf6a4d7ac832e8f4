//! Batches of transfers and how far they have come.

use vstd::prelude::*;

use crate::transfer::{RequestView, TransferRequest};

verus! {

/// How far a transfer or a batch of them has come.
#[derive(Debug, Clone, Copy, PartialEq, Eq, Structural)]
pub enum TransferStatus {
    Waiting,
    /// It is under way.
    Pending,
    /// It has succeeded.
    Completed,
    /// It has failed.
    Failed,
}

/// A transfer of a batch.
#[derive(Debug, PartialEq, Eq)]
pub struct TransferTask {
    pub request: TransferRequest,
    pub status: TransferStatus,
}

/// What a [`TransferTask`] says.
pub struct TaskView {
    pub request: RequestView,
    pub status: TransferStatus,
}

impl View for TransferTask {
    type V = TaskView;

    open spec fn view(&self) -> TaskView {
        TaskView { request: self.request@, status: self.status }
    }
}

impl Clone for TransferTask {
    fn clone(&self) -> (copy: Self)
        ensures
            copy@ == self@,
    {
        TransferTask { request: self.request.clone(), status: self.status }
    }
}

/// The transfers of a batch, how many of them have ended and whether one of
/// them has failed.
pub struct BatchState {
    tasks: Vec<TransferTask>,
    completed_count: usize,
    has_failure: bool,
}

/// What a [`BatchState`] says.
#[verifier::ext_equal]
pub struct BatchView {
    pub tasks: Seq<TaskView>,
    pub completed_count: nat,
    pub has_failure: bool,
}

impl View for BatchState {
    type V = BatchView;

    closed spec fn view(&self) -> BatchView {
        BatchView {
            tasks: self.tasks@.map_values(|task: TransferTask| task@),
            completed_count: self.completed_count as nat,
            has_failure: self.has_failure,
        }
    }
}

/// The status of a transfer that has ended.
pub open spec fn ended_status(success: bool) -> TransferStatus {
    if success {
        TransferStatus::Completed
    } else {
        TransferStatus::Failed
    }
}

/// The number of tasks that have ended.
pub open spec fn ended_count(tasks: Seq<TaskView>) -> nat
    decreases tasks.len(),
{
    if tasks.len() == 0 {
        0
    } else {
        ended_count(tasks.drop_last()) + (if tasks.last().status == TransferStatus::Pending {
            0nat
        } else {
            1nat
        })
    }
}

impl BatchView {
    /// A batch without transfers.
    pub open spec fn empty() -> BatchView {
        BatchView { tasks: Seq::empty(), completed_count: 0, has_failure: false }
    }

    /// The batch with one more transfer that is under way.
    pub open spec fn with_pending(self, request: RequestView) -> BatchView {
        BatchView {
            tasks: self.tasks.push(TaskView { request, status: TransferStatus::Pending }),
            ..self
        }
    }

    /// The batch once one more transfer has ended. A transfer that is not
    /// part of the batch counts as well.
    pub open spec fn with_done(self, index: nat, success: bool) -> BatchView {
        BatchView {
            tasks: if index < self.tasks.len() {
                self.tasks.update(
                    index as int,
                    TaskView { status: ended_status(success), ..self.tasks[index as int] },
                )
            } else {
                self.tasks
            },
            completed_count: self.completed_count + 1,
            has_failure: self.has_failure || !success,
        }
    }

    /// How far the batch as a whole has come.
    pub open spec fn overall_status(self) -> TransferStatus {
        if self.completed_count < self.tasks.len() {
            TransferStatus::Pending
        } else if self.has_failure {
            TransferStatus::Failed
        } else {
            TransferStatus::Completed
        }
    }

    /// Whether the transfer at `index` is under way.
    pub open spec fn is_pending(self, index: nat) -> bool {
        index < self.tasks.len() && self.tasks[index as int].status == TransferStatus::Pending
    }

    /// Every transfer is under way or has ended, the count is that of the
    /// transfers that have ended, and a failure is noted exactly if one of
    /// them has failed.
    pub open spec fn consistent(self) -> bool {
        &&& forall|i: int|
            0 <= i < self.tasks.len() ==> (#[trigger] self.tasks[i]).status
                != TransferStatus::Waiting
        &&& self.completed_count == ended_count(self.tasks)
        &&& self.has_failure <==> exists|i: int|
            0 <= i < self.tasks.len() && (#[trigger] self.tasks[i]).status == TransferStatus::Failed
    }
}

impl BatchState {
    /// A batch holds no more transfers than can be counted.
    pub proof fn lemma_len(self)
        ensures
            self@.tasks.len() <= usize::MAX,
    {
        assert(self@.tasks.len() == self.tasks.len());
    }

    /// A batch without transfers. The size is how many are expected; a batch
    /// takes any number of them.
    pub fn new(_batch_size: usize) -> (batch: Self)
        ensures
            batch@ == BatchView::empty(),
            batch@.consistent(),
    {
        let batch = BatchState { tasks: Vec::new(), completed_count: 0, has_failure: false };
        assert(batch@ =~= BatchView::empty());
        batch
    }

    /// Adds a transfer that is under way and returns its index.
    pub fn add_pending(&mut self, request: TransferRequest) -> (index: usize)
        ensures
            final(self)@ == old(self)@.with_pending(request@),
            index == old(self)@.tasks.len(),
    {
        let index = self.tasks.len();
        self.tasks.push(TransferTask { request, status: TransferStatus::Pending });
        assert(self@ =~= old(self)@.with_pending(request@));
        index
    }

    /// How far the batch as a whole has come.
    pub fn overall_status(&self) -> (status: TransferStatus)
        ensures
            status == self@.overall_status(),
    {
        if self.completed_count < self.tasks.len() {
            return TransferStatus::Pending;
        }
        if self.has_failure {
            TransferStatus::Failed
        } else {
            TransferStatus::Completed
        }
    }

    /// Whether the transfer at `index` is under way.
    pub fn is_pending(&self, index: usize) -> (pending: bool)
        ensures
            pending == self@.is_pending(index as nat),
    {
        index < self.tasks.len() && self.tasks[index].status == TransferStatus::Pending
    }

    /// Notes that the transfer at `index` has ended. A transfer that is not
    /// part of the batch counts as well.
    pub fn mark_task_done(&mut self, index: usize, success: bool)
        requires
            old(self)@.completed_count < usize::MAX,
        ensures
            final(self)@ == old(self)@.with_done(index as nat, success),
    {
        if index < self.tasks.len() {
            self.tasks[index].status = if success {
                TransferStatus::Completed
            } else {
                TransferStatus::Failed
            };
        }
        if !success {
            self.has_failure = true;
        }
        self.completed_count = self.completed_count + 1;
        assert(self@ =~= old(self)@.with_done(index as nat, success));
    }
}

/// At most all tasks have ended, and all of them only if none is pending.
proof fn lemma_ended_count_bound(tasks: Seq<TaskView>)
    ensures
        ended_count(tasks) <= tasks.len(),
        ended_count(tasks) == tasks.len() <==> forall|i: int|
            0 <= i < tasks.len() ==> (#[trigger] tasks[i]).status != TransferStatus::Pending,
    decreases tasks.len(),
{
    if tasks.len() > 0 {
        let rest = tasks.drop_last();
        lemma_ended_count_bound(rest);
        if ended_count(tasks) == tasks.len() {
            assert forall|i: int| 0 <= i < tasks.len() implies (#[trigger] tasks[i]).status
                != TransferStatus::Pending by {
                if i < rest.len() {
                    assert(rest[i] == tasks[i]);
                }
            }
        } else if tasks.last().status == TransferStatus::Pending {
            assert(tasks[tasks.len() - 1].status == TransferStatus::Pending);
        } else {
            let i = choose|i: int|
                0 <= i < rest.len() && (#[trigger] rest[i]).status == TransferStatus::Pending;
            assert(tasks[i].status == TransferStatus::Pending);
        }
    }
}

/// Ending a pending task raises the count of ended tasks by one.
proof fn lemma_ended_count_update(tasks: Seq<TaskView>, index: int, task: TaskView)
    requires
        0 <= index < tasks.len(),
        tasks[index].status == TransferStatus::Pending,
        task.status != TransferStatus::Pending,
    ensures
        ended_count(tasks.update(index, task)) == ended_count(tasks) + 1,
    decreases tasks.len(),
{
    let updated = tasks.update(index, task);
    if index == tasks.len() - 1 {
        assert(updated.drop_last() =~= tasks.drop_last());
    } else {
        assert(updated.drop_last() =~= tasks.drop_last().update(index, task));
        lemma_ended_count_update(tasks.drop_last(), index, task);
    }
}

/// Adding a transfer keeps a batch consistent.
pub proof fn law_adding_keeps_consistent(batch: BatchView, request: RequestView)
    requires
        batch.consistent(),
    ensures
        batch.with_pending(request).consistent(),
        batch.with_pending(request).is_pending(batch.tasks.len()),
        forall|i: nat|
            i < batch.tasks.len() ==> (#[trigger] batch.with_pending(request).is_pending(i)
                <==> batch.is_pending(i)),
{
    let after = batch.with_pending(request);
    assert(after.tasks.drop_last() =~= batch.tasks);
    if batch.has_failure {
        let i = choose|i: int|
            0 <= i < batch.tasks.len() && (#[trigger] batch.tasks[i]).status
                == TransferStatus::Failed;
        assert(after.tasks[i].status == TransferStatus::Failed);
    }
}

/// Noting the end of a transfer that was under way keeps a batch consistent
/// and leaves the other transfers as they were.
pub proof fn law_ending_keeps_consistent(batch: BatchView, index: nat, success: bool)
    requires
        batch.consistent(),
        batch.is_pending(index),
    ensures
        batch.completed_count < batch.tasks.len(),
        batch.with_done(index, success).consistent(),
        batch.with_done(index, success).tasks[index as int].status == ended_status(success),
        forall|i: int|
            0 <= i < batch.tasks.len() && i != index ==> #[trigger] batch.with_done(
                index,
                success,
            ).tasks[i] == batch.tasks[i],
{
    let after = batch.with_done(index, success);
    lemma_ended_count_bound(batch.tasks);
    lemma_ended_count_update(batch.tasks, index as int, after.tasks[index as int]);
    assert(after.tasks[index as int].status == ended_status(success));
    if batch.has_failure {
        let i = choose|i: int|
            0 <= i < batch.tasks.len() && (#[trigger] batch.tasks[i]).status
                == TransferStatus::Failed;
        assert(after.tasks[i].status == TransferStatus::Failed);
    }
    if exists|i: int|
        0 <= i < after.tasks.len() && (#[trigger] after.tasks[i]).status == TransferStatus::Failed {
        let i = choose|i: int|
            0 <= i < after.tasks.len() && (#[trigger] after.tasks[i]).status
                == TransferStatus::Failed;
        if i != index {
            assert(batch.tasks[i].status == TransferStatus::Failed);
        }
    }
}

/// A consistent batch is pending exactly while one of its transfers is. Once
/// all have ended, it has failed exactly if one of them has, and else it has
/// completed, with every one of them completed.
pub proof fn law_overall_status_sums_up_tasks(batch: BatchView)
    requires
        batch.consistent(),
    ensures
        batch.overall_status() == TransferStatus::Pending <==> exists|i: int|
            0 <= i < batch.tasks.len() && (#[trigger] batch.tasks[i]).status
                == TransferStatus::Pending,
        batch.overall_status() == TransferStatus::Failed <==> (forall|i: int|
            0 <= i < batch.tasks.len() ==> (#[trigger] batch.tasks[i]).status
                != TransferStatus::Pending) && (exists|i: int|
            0 <= i < batch.tasks.len() && (#[trigger] batch.tasks[i]).status
                == TransferStatus::Failed),
        batch.overall_status() == TransferStatus::Completed <==> forall|i: int|
            0 <= i < batch.tasks.len() ==> (#[trigger] batch.tasks[i]).status
                == TransferStatus::Completed,
        batch.overall_status() != TransferStatus::Waiting,
{
    lemma_ended_count_bound(batch.tasks);
}

/// A failure is never forgotten: whatever is added or ends after it, the
/// batch does not complete.
pub proof fn law_failure_is_final(
    batch: BatchView,
    request: RequestView,
    index: nat,
    success: bool,
)
    requires
        batch.has_failure,
    ensures
        batch.overall_status() != TransferStatus::Completed,
        batch.with_pending(request).has_failure,
        batch.with_done(index, success).has_failure,
{
}

impl TransferTask {
    /// The view keeps every field.
    pub proof fn law_view_tells_all(self)
        ensures
            self@.request == self.request@,
            self@.status == self.status,
    {
    }
}

/// Adding a transfer touches nothing that the batch already says: every task
/// stays as it was, the one that is new comes last and is under way, and no
/// more have ended or failed than before.
pub proof fn law_adding_appends_one_pending_task(batch: BatchView, request: RequestView)
    ensures
        ({
            let after = batch.with_pending(request);
            &&& after.tasks.len() == batch.tasks.len() + 1
            &&& after.tasks.drop_last() == batch.tasks
            &&& after.tasks.last().request == request
            &&& after.tasks.last().status == TransferStatus::Pending
            &&& after.completed_count == batch.completed_count
            &&& after.has_failure == batch.has_failure
            &&& after.overall_status() == TransferStatus::Pending <==> batch.completed_count
                <= batch.tasks.len()
        }),
{
    assert(batch.with_pending(request).tasks.drop_last() =~= batch.tasks);
}

/// Noting the end of a transfer counts it once and tells how it ended, in its
/// own task alone: its request, every other task and the number of tasks stay
/// as they were, and a failure is noted exactly if there was one or this is
/// one.
pub proof fn law_ending_changes_one_status(batch: BatchView, index: nat, success: bool)
    ensures
        ({
            let after = batch.with_done(index, success);
            &&& after.tasks.len() == batch.tasks.len()
            &&& after.completed_count == batch.completed_count + 1
            &&& after.has_failure <==> batch.has_failure || !success
            &&& forall|i: int|
                0 <= i < batch.tasks.len() ==> (#[trigger] after.tasks[i]).request
                    == batch.tasks[i].request
            &&& forall|i: int|
                0 <= i < batch.tasks.len() && i != index ==> (#[trigger] after.tasks[i]).status
                    == batch.tasks[i].status
            &&& index < batch.tasks.len() ==> after.tasks[index as int].status == (if success {
                TransferStatus::Completed
            } else {
                TransferStatus::Failed
            })
        }),
{
}

/// A batch is pending exactly while fewer transfers have ended than it has;
/// after that it has failed exactly if a failure was noted, and else it has
/// completed. A batch without transfers has completed.
pub proof fn law_overall_status_is_a_count(batch: BatchView)
    ensures
        batch.overall_status() == TransferStatus::Pending <==> batch.completed_count
            < batch.tasks.len(),
        batch.overall_status() == TransferStatus::Failed <==> batch.completed_count
            >= batch.tasks.len() && batch.has_failure,
        batch.overall_status() == TransferStatus::Completed <==> batch.completed_count
            >= batch.tasks.len() && !batch.has_failure,
        BatchView::empty().tasks.len() == 0,
        BatchView::empty().completed_count == 0,
        !BatchView::empty().has_failure,
        BatchView::empty().overall_status() == TransferStatus::Completed,
{
}

/// A task is under way exactly if the batch has it and it is pending, and a
/// consistent batch counts as ended exactly the tasks that are not.
pub proof fn law_pending_tasks_are_those_not_ended(batch: BatchView, index: nat)
    ensures
        batch.is_pending(index) <==> index < batch.tasks.len() && batch.tasks[index as int].status
            == TransferStatus::Pending,
        batch.consistent() ==> batch.completed_count == batch.tasks.filter(
            |task: TaskView| task.status != TransferStatus::Pending,
        ).len(),
{
    lemma_ended_count_is_filter(batch.tasks);
}

proof fn lemma_ended_count_is_filter(tasks: Seq<TaskView>)
    ensures
        ended_count(tasks) == tasks.filter(
            |task: TaskView| task.status != TransferStatus::Pending,
        ).len(),
    decreases tasks.len(),
{
    reveal(Seq::filter);
    if tasks.len() > 0 {
        lemma_ended_count_is_filter(tasks.drop_last());
    }
}

} // verus!
