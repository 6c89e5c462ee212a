//! The replicated task queues: one serialized queue of long-running tasks
//! per wallet, with preemption, history, and executor reassignment.
//!
//! Each state transition is a deterministic function of the queues and the
//! transition, so every replica that applies the same log reaches the same
//! queues.

use crate::ids::{TaskIdentifier, TaskQueueKey, WalletIdentifier, WrappedPeerId};
use crate::search::{
    first_index, lemma_first_index_bounds, lemma_first_index_extend, lemma_first_index_spec,
    opt_int,
};
use crate::tasks::{
    initial_running_state, spec_historical, HistoricalTask, QueuedTask, QueuedTaskState,
    TaskDescriptor,
};
use vstd::prelude::*;

verus! {

// ---------
// | Model |
// ---------

/// The mathematical content of a task queue
pub struct TaskQueueView {
    pub key: TaskQueueKey,
    /// The queued tasks, head first
    pub tasks: Seq<QueuedTask>,
    /// Whether a preemption holds the queue
    pub paused: bool,
    /// The node running the head task, if any
    pub executor: Option<WrappedPeerId>,
    /// The tasks that left the queue, most recent first
    pub history: Seq<HistoricalTask>,
}

/// A queue that holds nothing
pub open spec fn empty_queue(key: TaskQueueKey) -> TaskQueueView {
    TaskQueueView {
        key,
        tasks: Seq::empty(),
        paused: false,
        executor: None,
        history: Seq::empty(),
    }
}

/// Every task but the head waits; the head of a paused queue is the
/// preempting task and the head of an active queue is running
pub open spec fn queue_wf(q: TaskQueueView) -> bool {
    &&& forall|i: int| 1 <= i < q.tasks.len() ==> #[trigger] q.tasks[i].state == QueuedTaskState::Queued
    &&& q.paused ==> q.tasks.len() > 0 && q.tasks[0].state == QueuedTaskState::Preemptive
    &&& (!q.paused && q.tasks.len() > 0) ==> q.tasks[0].state is Running
}

/// The predicate selecting the queue with the given key
pub open spec fn has_key(key: TaskQueueKey) -> spec_fn(TaskQueueView) -> bool {
    |q: TaskQueueView| q.key == key
}

/// The position of the queue with the given key
pub open spec fn key_index(qs: Seq<TaskQueueView>, key: TaskQueueKey) -> Option<int> {
    first_index(qs, has_key(key))
}

/// The queue with the given key; a key that was never used has an empty queue
pub open spec fn queue_of(qs: Seq<TaskQueueView>, key: TaskQueueKey) -> TaskQueueView {
    match key_index(qs, key) {
        Some(i) => qs[i],
        None => empty_queue(key),
    }
}

/// The queues with `q` stored under its key
pub open spec fn with_queue(qs: Seq<TaskQueueView>, q: TaskQueueView) -> Seq<TaskQueueView> {
    match key_index(qs, q.key) {
        Some(i) => qs.update(i, q),
        None => qs.push(q),
    }
}

/// Keys are distinct and every queue is well formed
pub open spec fn queues_wf(qs: Seq<TaskQueueView>) -> bool {
    &&& forall|i: int, j: int|
        0 <= i < qs.len() && 0 <= j < qs.len() && i != j ==> #[trigger] qs[i].key != #[trigger] qs[j].key
    &&& forall|i: int| 0 <= i < qs.len() ==> queue_wf(#[trigger] qs[i])
}

// ------------------------
// | Per-queue transitions |
// ------------------------

/// Appends a task; a task appended to an idle queue starts running at once
/// under the proposing executor
pub open spec fn spec_append(q: TaskQueueView, task: QueuedTask, executor: WrappedPeerId) -> TaskQueueView {
    if q.tasks.len() == 0 && !q.paused {
        TaskQueueView {
            tasks: seq![QueuedTask { state: initial_running_state(), ..task }],
            executor: Some(executor),
            ..q
        }
    } else {
        TaskQueueView { tasks: q.tasks.push(QueuedTask { state: QueuedTaskState::Queued, ..task }), ..q }
    }
}


/// The predicate selecting an active queue whose head is the given task
pub open spec fn runs_head(id: TaskIdentifier) -> spec_fn(TaskQueueView) -> bool {
    |q: TaskQueueView| q.tasks.len() > 0 && !q.paused && q.tasks[0].id == id
}

/// The position of the active queue running the given task
pub open spec fn running_index(qs: Seq<TaskQueueView>, id: TaskIdentifier) -> Option<int> {
    first_index(qs, runs_head(id))
}

/// Pops the head into the history as completed or failed, and starts the
/// next task under `executor`
pub open spec fn spec_pop(q: TaskQueueView, success: bool, executor: WrappedPeerId) -> TaskQueueView {
    let head = q.tasks[0];
    let rest = q.tasks.drop_first();
    let done = if success {
        QueuedTaskState::Completed
    } else {
        QueuedTaskState::Failed
    };
    TaskQueueView {
        tasks: if rest.len() > 0 {
            rest.update(0, QueuedTask { state: initial_running_state(), ..rest[0] })
        } else {
            rest
        },
        executor: if rest.len() > 0 {
            Some(executor)
        } else {
            None
        },
        history: seq![spec_historical(q.key, QueuedTask { state: done, ..head })] + q.history,
        ..q
    }
}

/// A running task may move to a later (or the same) step, and may set its
/// committed flag but never clear it
pub open spec fn valid_step(current: QueuedTaskState, next: QueuedTaskState) -> bool {
    match (current, next) {
        (
            QueuedTaskState::Running { step: s1, committed: c1 },
            QueuedTaskState::Running { step: s2, committed: c2 },
        ) => s1 <= s2 && (c1 ==> c2),
        _ => false,
    }
}

/// The head task moved to a new state
pub open spec fn spec_transition(q: TaskQueueView, state: QueuedTaskState) -> TaskQueueView {
    TaskQueueView { tasks: q.tasks.update(0, QueuedTask { state, ..q.tasks[0] }), ..q }
}

/// The queue with its tasks dropped and its preemption lifted
pub open spec fn spec_clear(q: TaskQueueView) -> TaskQueueView {
    TaskQueueView { tasks: Seq::empty(), paused: false, executor: None, ..q }
}

/// Whether the head of the queue is a running task that has committed
pub open spec fn head_committed(q: TaskQueueView) -> bool {
    q.tasks.len() > 0 && q.tasks[0].state.spec_is_committed()
}


/// Places a preempting task at the front of a queue and pauses it; a task
/// that was running goes back to waiting
pub open spec fn spec_preempt(q: TaskQueueView, task: QueuedTask, executor: WrappedPeerId) -> TaskQueueView {
    TaskQueueView {
        tasks: seq![QueuedTask { state: QueuedTaskState::Preemptive, ..task }] + if q.tasks.len() > 0 {
            q.tasks.update(0, QueuedTask { state: QueuedTaskState::Queued, ..q.tasks[0] })
        } else {
            q.tasks
        },
        paused: true,
        executor: Some(executor),
        ..q
    }
}

/// Preempts each of the queues in turn
pub open spec fn preempt_all(
    qs: Seq<TaskQueueView>,
    keys: Seq<TaskQueueKey>,
    task: QueuedTask,
    executor: WrappedPeerId,
) -> Seq<TaskQueueView>
    decreases keys.len(),
{
    if keys.len() == 0 {
        qs
    } else {
        let prev = preempt_all(qs, keys.drop_last(), task, executor);
        with_queue(prev, spec_preempt(queue_of(prev, keys.last()), task, executor))
    }
}

/// Whether one of the queues has a committed running task
pub open spec fn any_committed(qs: Seq<TaskQueueView>, keys: Seq<TaskQueueKey>) -> bool {
    exists|j: int| 0 <= j < keys.len() && head_committed(#[trigger] queue_of(qs, keys[j]))
}

/// Lifts a preemption: the preempting task goes into the history and the
/// next task starts running under `executor`; an active queue is left alone
pub open spec fn spec_resume(q: TaskQueueView, success: bool, executor: WrappedPeerId) -> TaskQueueView {
    if q.paused {
        TaskQueueView { paused: false, ..spec_pop(q, success, executor) }
    } else {
        q
    }
}

/// Resumes each of the queues in turn
pub open spec fn resume_all(
    qs: Seq<TaskQueueView>,
    keys: Seq<TaskQueueKey>,
    success: bool,
    executor: WrappedPeerId,
) -> Seq<TaskQueueView>
    decreases keys.len(),
{
    if keys.len() == 0 {
        qs
    } else {
        let prev = resume_all(qs, keys.drop_last(), success, executor);
        with_queue(prev, spec_resume(queue_of(prev, keys.last()), success, executor))
    }
}

/// Hands the queue from a failed executor to a new one, which resumes the
/// running task from the step it last recorded
pub open spec fn spec_reassign(q: TaskQueueView, from: WrappedPeerId, to: WrappedPeerId) -> TaskQueueView {
    if q.executor == Some(from) {
        TaskQueueView { executor: Some(to), ..q }
    } else {
        q
    }
}

/// The predicate selecting a task by identifier
pub open spec fn is_task(id: TaskIdentifier) -> spec_fn(QueuedTask) -> bool {
    |t: QueuedTask| t.id == id
}

/// The predicate selecting a queue that holds the given task
pub open spec fn holds_task(id: TaskIdentifier) -> spec_fn(TaskQueueView) -> bool {
    |q: TaskQueueView| first_index(q.tasks, is_task(id)) is Some
}

/// The first queue holding the given task, with the task as queued there
pub open spec fn task_of(qs: Seq<TaskQueueView>, id: TaskIdentifier) -> Option<(TaskQueueKey, QueuedTask)> {
    match first_index(qs, holds_task(id)) {
        Some(i) => match first_index(qs[i].tasks, is_task(id)) {
            Some(j) => Some((qs[i].key, qs[i].tasks[j])),
            None => None,
        },
        None => None,
    }
}

/// The queue's tasks followed by its history, most recent first, cut to
/// at most `len` entries
pub open spec fn spec_task_history(q: TaskQueueView, len: nat) -> Seq<HistoricalTask> {
    let all = q.tasks.map_values(|t: QueuedTask| spec_historical(q.key, t)) + q.history;
    all.subrange(0, if len < all.len() { len as int } else { all.len() as int })
}

/// The running task of the queue if it has committed
pub open spec fn spec_committed_task(q: TaskQueueView) -> Option<TaskIdentifier> {
    if head_committed(q) {
        Some(q.tasks[0].id)
    } else {
        None
    }
}


// ---------------
// | Transitions |
// ---------------

/// A state transition of the task queues, as committed to the replicated log
#[derive(Clone, Debug)]
pub enum StateTransition {
    /// Append a task to its wallet's queue
    AppendTask { task: QueuedTask, executor: WrappedPeerId },
    /// Pop a finished task from the head of its queue
    PopTask { task_id: TaskIdentifier, success: bool, executor: WrappedPeerId },
    /// Move a running task to a new state
    TransitionTask { task_id: TaskIdentifier, state: QueuedTaskState },
    /// Drop every task of a queue
    ClearTaskQueue { queue: TaskQueueKey },
    /// Pause queues behind a preempting task
    PreemptTaskQueues { keys: Vec<TaskQueueKey>, task: QueuedTask, executor: WrappedPeerId },
    /// Lift a preemption
    ResumeTaskQueues { keys: Vec<TaskQueueKey>, success: bool, executor: WrappedPeerId },
    /// Hand the queues of a failed peer to another
    ReassignTasks { from: WrappedPeerId, to: WrappedPeerId },
}

/// The queues after one transition
pub open spec fn spec_apply(qs: Seq<TaskQueueView>, t: StateTransition) -> Seq<TaskQueueView> {
    match t {
        StateTransition::AppendTask { task, executor } => with_queue(
            qs,
            spec_append(queue_of(qs, task.descriptor.spec_queue_key()), task, executor),
        ),
        StateTransition::PopTask { task_id, success, executor } => match running_index(qs, task_id) {
            Some(i) => if !success && head_committed(qs[i]) {
                qs
            } else {
                with_queue(qs, spec_pop(qs[i], success, executor))
            },
            None => qs,
        },
        StateTransition::TransitionTask { task_id, state } => match running_index(qs, task_id) {
            Some(i) => if valid_step(qs[i].tasks[0].state, state) {
                with_queue(qs, spec_transition(qs[i], state))
            } else {
                qs
            },
            None => qs,
        },
        StateTransition::ClearTaskQueue { queue } => with_queue(qs, spec_clear(queue_of(qs, queue))),
        StateTransition::PreemptTaskQueues { keys, task, executor } => if any_committed(qs, keys@) {
            qs
        } else {
            preempt_all(qs, keys@, task, executor)
        },
        StateTransition::ResumeTaskQueues { keys, success, executor } => resume_all(qs, keys@, success, executor),
        StateTransition::ReassignTasks { from, to } => qs.map_values(|q: TaskQueueView| spec_reassign(q, from, to)),
    }
}

/// Whether a transition is applied or rejected, and why
pub open spec fn spec_apply_result(qs: Seq<TaskQueueView>, t: StateTransition) -> Result<(), StateError> {
    match t {
        StateTransition::PopTask { task_id, success, .. } => match running_index(qs, task_id) {
            Some(i) => if !success && head_committed(qs[i]) {
                Err(StateError::CommittedTask)
            } else {
                Ok(())
            },
            None => Err(StateError::TaskNotRunning),
        },
        StateTransition::TransitionTask { task_id, state } => match running_index(qs, task_id) {
            Some(i) => if valid_step(qs[i].tasks[0].state, state) {
                Ok(())
            } else {
                Err(StateError::InvalidTransition)
            },
            None => Err(StateError::TaskNotRunning),
        },
        StateTransition::PreemptTaskQueues { keys, .. } => if any_committed(qs, keys@) {
            Err(StateError::CommittedTask)
        } else {
            Ok(())
        },
        _ => Ok(()),
    }
}

/// The queues after a sequence of transitions, applied in log order
pub open spec fn spec_apply_log(qs: Seq<TaskQueueView>, log: Seq<StateTransition>) -> Seq<TaskQueueView>
    decreases log.len(),
{
    if log.len() == 0 {
        qs
    } else {
        spec_apply(spec_apply_log(qs, log.drop_last()), log.last())
    }
}

// ------------
// | Concrete |
// ------------

/// A task queue
pub struct TaskQueue {
    key: TaskQueueKey,
    tasks: Vec<QueuedTask>,
    paused: bool,
    executor: Option<WrappedPeerId>,
    history: Vec<HistoricalTask>,
}

impl View for TaskQueue {
    type V = TaskQueueView;

    closed spec fn view(&self) -> TaskQueueView {
        TaskQueueView {
            key: self.key,
            tasks: self.tasks@,
            paused: self.paused,
            executor: self.executor,
            history: self.history@,
        }
    }
}

impl TaskQueue {
    fn new(key: TaskQueueKey) -> (r: TaskQueue)
        ensures
            r@ == empty_queue(key),
    {
        TaskQueue { key, tasks: Vec::new(), paused: false, executor: None, history: Vec::new() }
    }
}

/// The task queues of a node
pub struct StateInner {
    queues: Vec<TaskQueue>,
}

impl View for StateInner {
    type V = Seq<TaskQueueView>;

    closed spec fn view(&self) -> Seq<TaskQueueView> {
        self.queues@.map_values(|q: TaskQueue| q@)
    }
}

/// The errors a task-queue transition can be rejected with
#[derive(Clone, Copy, Debug, PartialEq, Eq, Structural)]
pub enum StateError {
    /// No active queue has the task at its head
    TaskNotRunning,
    /// The new state does not follow from the running task's state
    InvalidTransition,
    /// The transition would displace or fail a task that has committed
    CommittedTask,
}

impl StateInner {
    /// A node with no task queues
    pub fn new() -> (r: StateInner)
        ensures
            r@ == Seq::<TaskQueueView>::empty(),
            queues_wf(r@),
    {
        let r = StateInner { queues: Vec::new() };
        assert(r@ =~= Seq::<TaskQueueView>::empty());
        r
    }

    /// The position of the queue with the given key
    fn find_queue(&self, key: TaskQueueKey) -> (r: Option<usize>)
        ensures
            opt_int(r) == key_index(self@, key),
            r matches Some(i) ==> i < self@.len(),
    {
        let ghost p = has_key(key);
        proof {
            lemma_first_index_bounds(self@, p);
        }
        let mut i: usize = 0;
        while i < self.queues.len()
            invariant
                i <= self.queues.len(),
                self@.len() == self.queues.len(),
                p == has_key(key),
                first_index(self@.subrange(0, i as int), p) is None,
            decreases self.queues.len() - i,
        {
            proof {
                lemma_first_index_extend(self@, p, i as int);
            }
            if self.queues[i].key == key {
                proof {
                    lemma_first_index_bounds(self@, p);
                    lemma_first_index_spec(self@, p);
                    assert(self.queues@[i as int]@.key == key);
                    assert(first_index(self@.subrange(0, i as int + 1), p) == Some(i as int));
                    lemma_prefix_match_is_first(self@, p, i as int);
                }
                return Some(i);
            }
            assert(self.queues@[i as int]@.key != key);
            i = i + 1;
        }
        proof {
            lemma_first_index_bounds(self@, p);
        }
        None
    }

    /// Takes the queue with the given key out of the store, or a fresh one;
    /// the returned index is where it goes back
    fn take_queue(&mut self, key: TaskQueueKey) -> (r: (TaskQueue, usize))
        ensures
            r.0@ == queue_of(old(self)@, key),
            r.1 <= final(self)@.len(),
            final(self)@ =~= match key_index(old(self)@, key) {
                Some(i) => old(self)@.remove(i),
                None => old(self)@,
            },
            key_index(old(self)@, key) matches Some(i) ==> r.1 == i,
            key_index(old(self)@, key) is None ==> r.1 == old(self)@.len(),
    {
        match self.find_queue(key) {
            Some(i) => {
                let q = self.queues.remove(i);
                proof {
                    assert(self@ =~= old(self)@.remove(i as int));
                }
                (q, i)
            },
            None => {
                let n = self.queues.len();
                (TaskQueue::new(key), n)
            },
        }
    }

    /// Puts a queue taken with `take_queue` back at its index
    fn put_queue(&mut self, q: TaskQueue, i: usize)
        requires
            i <= old(self)@.len(),
        ensures
            final(self)@ =~= old(self)@.insert(i as int, q@),
    {
        self.queues.insert(i, q);
    }

    /// Stores a queue taken out with `take_queue` back under its key
    fn store_queue(&mut self, q: TaskQueue, i: usize, ghost_old: Ghost<Seq<TaskQueueView>>)
        requires
            queues_wf(ghost_old@),
            queue_wf(q@),
            i <= old(self)@.len(),
            old(self)@ == (match key_index(ghost_old@, q@.key) {
                Some(k) => ghost_old@.remove(k),
                None => ghost_old@,
            }),
            key_index(ghost_old@, q@.key) matches Some(k) ==> i == k,
            key_index(ghost_old@, q@.key) is None ==> i == ghost_old@.len(),
        ensures
            final(self)@ == with_queue(ghost_old@, q@),
            queues_wf(final(self)@),
    {
        let ghost qv = q@;
        self.put_queue(q, i);
        proof {
            lemma_take_put(ghost_old@, qv);
        }
    }

    // ---------------
    // | Transitions |
    // ---------------

    /// Appends a task to the tail of its wallet's queue; on an idle queue the
    /// task starts running at once under `executor`
    pub fn append_task(&mut self, task: QueuedTask, executor: WrappedPeerId)
        requires
            queues_wf(old(self)@),
        ensures
            queues_wf(final(self)@),
            final(self)@ == with_queue(
                old(self)@,
                spec_append(queue_of(old(self)@, task.descriptor.spec_queue_key()), task, executor),
            ),
            ({
                let q = queue_of(old(self)@, task.descriptor.spec_queue_key());
                q.tasks.len() == 0 && !q.paused ==> queue_of(final(self)@, task.descriptor.spec_queue_key()).tasks
                    == seq![QueuedTask { state: initial_running_state(), ..task }]
            }),
    {
        let ghost before = self@;
        let key = task.descriptor.queue_key();
        let (mut q, i) = self.take_queue(key);
        proof {
            lemma_key_index(before, key);
            if let Some(k) = key_index(before, key) {
                assert(queue_wf(before[k]));
            }
        }
        if q.tasks.len() == 0 && !q.paused {
            let t = QueuedTask { state: QueuedTaskState::Running { step: 0, committed: false }, ..task };
            q.tasks.push(t);
            q.executor = Some(executor);
            proof {
                assert(q.tasks@ =~= seq![t]);
            }
        } else {
            q.tasks.push(QueuedTask { state: QueuedTaskState::Queued, ..task });
        }
        assert(q@ == spec_append(queue_of(before, key), task, executor));
        let ghost qv = q@;
        self.store_queue(q, i, Ghost(before));
        proof {
            lemma_take_put(before, qv);
        }
    }

    /// The position of the active queue whose head is the given task
    fn find_running(&self, id: TaskIdentifier) -> (r: Option<usize>)
        ensures
            opt_int(r) == running_index(self@, id),
            r matches Some(i) ==> i < self@.len() && self@[i as int].tasks.len() > 0
                && !self@[i as int].paused && self@[i as int].tasks[0].id == id,
    {
        let ghost p = runs_head(id);
        proof {
            lemma_first_index_bounds(self@, p);
        }
        let mut i: usize = 0;
        while i < self.queues.len()
            invariant
                i <= self.queues.len(),
                self@.len() == self.queues.len(),
                p == runs_head(id),
                first_index(self@.subrange(0, i as int), p) is None,
            decreases self.queues.len() - i,
        {
            proof {
                lemma_first_index_extend(self@, p, i as int);
            }
            let q = &self.queues[i];
            assert(q@ == self@[i as int]);
            if q.tasks.len() > 0 && !q.paused && q.tasks[0].id == id {
                proof {
                    lemma_prefix_match_is_first(self@, p, i as int);
                    assert(self.queues@[i as int]@ == self@[i as int]);
                }
                return Some(i);
            }
            i = i + 1;
        }
        proof {
            lemma_first_index_bounds(self@, p);
        }
        None
    }

    /// Takes out the queue at a known position
    fn take_at(&mut self, i: usize) -> (r: TaskQueue)
        requires
            queues_wf(old(self)@),
            i < old(self)@.len(),
        ensures
            r@ == old(self)@[i as int],
            key_index(old(self)@, r@.key) == Some(i as int),
            final(self)@ == old(self)@.remove(i as int),
    {
        let q = self.queues.remove(i);
        proof {
            lemma_key_index_of(old(self)@, q@.key, i as int);
            assert(self@ =~= old(self)@.remove(i as int));
        }
        q
    }

    /// Pops a finished task from the head of its queue into the queue's
    /// history and starts the next task under `executor`. A committed task
    /// cannot be popped as failed.
    pub fn pop_task(&mut self, task_id: TaskIdentifier, success: bool, executor: WrappedPeerId) -> (r: Result<(), StateError>)
        requires
            queues_wf(old(self)@),
        ensures
            queues_wf(final(self)@),
            match running_index(old(self)@, task_id) {
                None => r == Err::<(), StateError>(StateError::TaskNotRunning) && final(self)@ == old(self)@,
                Some(i) => if !success && head_committed(old(self)@[i]) {
                    r == Err::<(), StateError>(StateError::CommittedTask) && final(self)@ == old(self)@
                } else {
                    r == Ok::<(), StateError>(()) && final(self)@ == with_queue(old(self)@, spec_pop(old(self)@[i], success, executor))
                },
            },
    {
        let ghost before = self@;
        let i = match self.find_running(task_id) {
            Some(i) => i,
            None => return Err(StateError::TaskNotRunning),
        };
        if !success && self.queues[i].tasks[0].state.is_committed() {
            return Err(StateError::CommittedTask);
        }
        let mut q = self.take_at(i);
        proof {
            assert(queue_wf(before[i as int]));
        }
        let head = q.tasks.remove(0);
        let done = if success { QueuedTaskState::Completed } else { QueuedTaskState::Failed };
        let entry = HistoricalTask::from_queued_task(q.key, QueuedTask { state: done, ..head });
        q.history.insert(0, entry);
        if q.tasks.len() > 0 {
            let next = QueuedTask { state: QueuedTaskState::Running { step: 0, committed: false }, ..q.tasks[0] };
            q.tasks.set(0, next);
            q.executor = Some(executor);
        } else {
            q.executor = None;
        }
        proof {
            let expected = spec_pop(before[i as int], success, executor);
            assert(q@.tasks =~= expected.tasks);
            assert(q@.history =~= expected.history);
            assert(q@ == expected);
        }
        self.store_queue(q, i, Ghost(before));
        Ok(())
    }

    /// Moves the running task at the head of its queue to a new state; steps
    /// only move forward and a committed task stays committed
    pub fn transition_task(&mut self, task_id: TaskIdentifier, state: QueuedTaskState) -> (r: Result<(), StateError>)
        requires
            queues_wf(old(self)@),
        ensures
            queues_wf(final(self)@),
            match running_index(old(self)@, task_id) {
                None => r == Err::<(), StateError>(StateError::TaskNotRunning) && final(self)@ == old(self)@,
                Some(i) => if !valid_step(old(self)@[i].tasks[0].state, state) {
                    r == Err::<(), StateError>(StateError::InvalidTransition) && final(self)@ == old(self)@
                } else {
                    r == Ok::<(), StateError>(()) && final(self)@ == with_queue(old(self)@, spec_transition(old(self)@[i], state))
                },
            },
    {
        let ghost before = self@;
        let i = match self.find_running(task_id) {
            Some(i) => i,
            None => return Err(StateError::TaskNotRunning),
        };
        let current = self.queues[i].tasks[0].state;
        let valid = match (current, state) {
            (
                QueuedTaskState::Running { step: s1, committed: c1 },
                QueuedTaskState::Running { step: s2, committed: c2 },
            ) => s1 <= s2 && (!c1 || c2),
            _ => false,
        };
        if !valid {
            return Err(StateError::InvalidTransition);
        }
        let mut q = self.take_at(i);
        proof {
            assert(queue_wf(before[i as int]));
        }
        let moved = QueuedTask { state, ..q.tasks[0] };
        q.tasks.set(0, moved);
        proof {
            assert(q@ == spec_transition(before[i as int], state));
        }
        self.store_queue(q, i, Ghost(before));
        Ok(())
    }

    /// Drops every task of a queue and lifts its preemption
    pub fn clear_task_queue(&mut self, key: TaskQueueKey)
        requires
            queues_wf(old(self)@),
        ensures
            queues_wf(final(self)@),
            final(self)@ == with_queue(old(self)@, spec_clear(queue_of(old(self)@, key))),
    {
        let ghost before = self@;
        let (mut q, i) = self.take_queue(key);
        proof {
            lemma_key_index(before, key);
        }
        q.tasks = Vec::new();
        q.paused = false;
        q.executor = None;
        proof {
            assert(q@ == spec_clear(queue_of(before, key)));
        }
        self.store_queue(q, i, Ghost(before));
    }

    /// Whether the queue with the given key has a committed running task
    fn has_committed_head(&self, key: TaskQueueKey) -> (r: bool)
        ensures
            r == head_committed(queue_of(self@, key)),
    {
        match self.find_queue(key) {
            Some(i) => {
                let q = &self.queues[i];
                assert(q@ == self@[i as int]);
                q.tasks.len() > 0 && q.tasks[0].state.is_committed()
            },
            None => false,
        }
    }

    /// Pauses every queue in `keys`, placing the preempting task at the front
    /// of each. Fails without any change if one of the queues has a committed
    /// running task, which cannot be displaced. The keys are taken in turn: a
    /// key listed twice is preempted twice and gets the preempting task twice.
    pub fn pause_multiple_task_queues(
        &mut self,
        keys: &Vec<TaskQueueKey>,
        task: QueuedTask,
        executor: WrappedPeerId,
    ) -> (r: Result<(), StateError>)
        requires
            queues_wf(old(self)@),
        ensures
            queues_wf(final(self)@),
            any_committed(old(self)@, keys@) ==> r == Err::<(), StateError>(StateError::CommittedTask)
                && final(self)@ == old(self)@,
            !any_committed(old(self)@, keys@) ==> r == Ok::<(), StateError>(()) && final(self)@ == preempt_all(old(self)@, keys@, task, executor),
            !any_committed(old(self)@, keys@) && distinct_keys(keys@) ==> forall|k: TaskQueueKey| #[trigger] queue_of(final(self)@, k) == if keys@.contains(k) {
                spec_preempt(queue_of(old(self)@, k), task, executor)
            } else {
                queue_of(old(self)@, k)
            },
    {
        let ghost before = self@;
        let mut j: usize = 0;
        while j < keys.len()
            invariant
                j <= keys.len(),
                self@ == before,
                queues_wf(before),
                forall|k: int| 0 <= k < j ==> !head_committed(#[trigger] queue_of(before, keys@[k])),
            decreases keys.len() - j,
        {
            if self.has_committed_head(keys[j]) {
                return Err(StateError::CommittedTask);
            }
            j = j + 1;
        }
        assert(!any_committed(before, keys@));
        let mut j: usize = 0;
        while j < keys.len()
            invariant
                j <= keys.len(),
                queues_wf(self@),
                self@ == preempt_all(before, keys@.subrange(0, j as int), task, executor),
            decreases keys.len() - j,
        {
            let ghost mid = self@;
            let key = keys[j];
            let (mut q, i) = self.take_queue(key);
            proof {
                lemma_key_index(mid, key);
                if let Some(k) = key_index(mid, key) {
                    assert(queue_wf(mid[k]));
                }
            }
            if q.tasks.len() > 0 {
                let waiting = QueuedTask { state: QueuedTaskState::Queued, ..q.tasks[0] };
                q.tasks.set(0, waiting);
            }
            let ghost rest = q.tasks@;
            q.tasks.insert(0, QueuedTask { state: QueuedTaskState::Preemptive, ..task });
            q.paused = true;
            q.executor = Some(executor);
            proof {
                let expected = spec_preempt(queue_of(mid, key), task, executor);
                assert(q@.tasks =~= expected.tasks);
                assert(q@ == expected);
                assert(keys@.subrange(0, j as int + 1).drop_last() =~= keys@.subrange(0, j as int));
            }
            self.store_queue(q, i, Ghost(mid));
            j = j + 1;
        }
        proof {
            assert(keys@.subrange(0, keys@.len() as int) =~= keys@);
            if distinct_keys(keys@) {
                assert forall|k: TaskQueueKey| #[trigger] queue_of(self@, k) == if keys@.contains(k) {
                    spec_preempt(queue_of(before, k), task, executor)
                } else {
                    queue_of(before, k)
                } by {
                    lemma_preempt_all_queues(before, keys@, task, executor, k);
                }
            }
        }
        Ok(())
    }

    /// Pauses one queue, placing the preempting task at its front
    pub fn pause_task_queue(&mut self, key: TaskQueueKey, task: QueuedTask, executor: WrappedPeerId) -> (r: Result<(), StateError>)
        requires
            queues_wf(old(self)@),
        ensures
            queues_wf(final(self)@),
            head_committed(queue_of(old(self)@, key)) ==> r == Err::<(), StateError>(StateError::CommittedTask)
                && final(self)@ == old(self)@,
            !head_committed(queue_of(old(self)@, key)) ==> r == Ok::<(), StateError>(()) && final(self)@ == with_queue(
                old(self)@,
                spec_preempt(queue_of(old(self)@, key), task, executor),
            ),
    {
        let keys = vec![key];
        proof {
            assert(keys@.drop_last() =~= Seq::<TaskQueueKey>::empty());
            assert(keys@.last() == key);
            assert(preempt_all(self@, keys@.drop_last(), task, executor) == self@);
            if head_committed(queue_of(self@, key)) {
                assert(keys@[0] == key);
                assert(head_committed(queue_of(self@, keys@[0])));
            }
        }
        self.pause_multiple_task_queues(&keys, task, executor)
    }

    /// Lifts the preemption on every queue in `keys`, recording the
    /// preempting task's outcome and restarting each queue's next task
    pub fn resume_multiple_task_queues(&mut self, keys: &Vec<TaskQueueKey>, success: bool, executor: WrappedPeerId)
        requires
            queues_wf(old(self)@),
        ensures
            queues_wf(final(self)@),
            final(self)@ == resume_all(old(self)@, keys@, success, executor),
    {
        let ghost before = self@;
        let mut j: usize = 0;
        while j < keys.len()
            invariant
                j <= keys.len(),
                queues_wf(self@),
                self@ == resume_all(before, keys@.subrange(0, j as int), success, executor),
            decreases keys.len() - j,
        {
            let ghost mid = self@;
            let key = keys[j];
            let (mut q, i) = self.take_queue(key);
            proof {
                lemma_key_index(mid, key);
                if let Some(k) = key_index(mid, key) {
                    assert(queue_wf(mid[k]));
                }
                assert(keys@.subrange(0, j as int + 1).drop_last() =~= keys@.subrange(0, j as int));
            }
            if q.paused {
                let head = q.tasks.remove(0);
                let done = if success { QueuedTaskState::Completed } else { QueuedTaskState::Failed };
                let entry = HistoricalTask::from_queued_task(q.key, QueuedTask { state: done, ..head });
                q.history.insert(0, entry);
                if q.tasks.len() > 0 {
                    let next = QueuedTask { state: QueuedTaskState::Running { step: 0, committed: false }, ..q.tasks[0] };
                    q.tasks.set(0, next);
                    q.executor = Some(executor);
                } else {
                    q.executor = None;
                }
                q.paused = false;
                proof {
                    let expected = spec_resume(queue_of(mid, key), success, executor);
                    assert(q@.tasks =~= expected.tasks);
                    assert(q@.history =~= expected.history);
                    assert(q@ == expected);
                }
            }
            self.store_queue(q, i, Ghost(mid));
            j = j + 1;
        }
        proof {
            assert(keys@.subrange(0, keys@.len() as int) =~= keys@);
        }
    }

    /// Lifts the preemption on one queue
    pub fn resume_task_queue(&mut self, key: TaskQueueKey, success: bool, executor: WrappedPeerId)
        requires
            queues_wf(old(self)@),
        ensures
            queues_wf(final(self)@),
            final(self)@ == with_queue(old(self)@, spec_resume(queue_of(old(self)@, key), success, executor)),
    {
        let keys = vec![key];
        proof {
            assert(keys@.drop_last() =~= Seq::<TaskQueueKey>::empty());
            assert(keys@.last() == key);
            assert(resume_all(self@, keys@.drop_last(), success, executor) == self@);
        }
        self.resume_multiple_task_queues(&keys, success, executor);
    }

    /// Moves every queue run by a failed peer to the local peer
    pub fn reassign_tasks(&mut self, from: WrappedPeerId, to: WrappedPeerId)
        requires
            queues_wf(old(self)@),
        ensures
            queues_wf(final(self)@),
            final(self)@ == old(self)@.map_values(|q: TaskQueueView| spec_reassign(q, from, to)),
    {
        let ghost before = self@;
        let n = self.queues.len();
        let mut i: usize = 0;
        while i < n
            invariant
                n == before.len(),
                i <= n,
                self@.len() == n,
                forall|k: int| 0 <= k < i ==> #[trigger] self@[k] == spec_reassign(before[k], from, to),
                forall|k: int| i <= k < n ==> #[trigger] self@[k] == before[k],
                queues_wf(before),
            decreases n - i,
        {
            let ghost cur = self@;
            proof {
                assert(cur[i as int] == before[i as int]);
                assert(self.queues@[i as int]@ == cur[i as int]);
            }
            let mut q = self.queues.remove(i);
            proof {
                assert(queue_wf(before[i as int]));
            }
            if q.executor == Some(from) {
                q.executor = Some(to);
            }
            proof {
                assert(q@ == spec_reassign(before[i as int], from, to));
            }
            let ghost qv = q@;
            self.queues.insert(i, q);
            proof {
                assert(self@ =~= cur.update(i as int, qv));
            }
            i = i + 1;
        }
        proof {
            let expected = before.map_values(|q: TaskQueueView| spec_reassign(q, from, to));
            assert(self@ =~= expected);
            assert(queues_wf(self@)) by {
                assert forall|a: int, b: int| 0 <= a < n && 0 <= b < n && a != b implies #[trigger] self@[a].key != #[trigger] self@[b].key by {
                    assert(before[a].key != before[b].key);
                }
                assert forall|a: int| 0 <= a < n implies queue_wf(#[trigger] self@[a]) by {
                    assert(queue_wf(before[a]));
                }
            }
        }
    }

    // -----------
    // | Getters |
    // -----------

    /// The queue with the given key, if one was ever used
    fn queue_ref(&self, key: TaskQueueKey) -> (r: Option<&TaskQueue>)
        ensures
            r matches Some(q) ==> q@ == queue_of(self@, key),
            r is None ==> queue_of(self@, key) == empty_queue(key),
    {
        match self.find_queue(key) {
            Some(i) => {
                assert(self.queues@[i as int]@ == self@[i as int]);
                Some(&self.queues[i])
            },
            None => None,
        }
    }

    /// Whether a queue is paused by a preemption
    pub fn is_queue_paused(&self, key: TaskQueueKey) -> (r: bool)
        ensures
            r == queue_of(self@, key).paused,
    {
        match self.queue_ref(key) {
            Some(q) => q.paused,
            None => false,
        }
    }

    /// The number of tasks in a queue
    pub fn get_task_queue_len(&self, key: TaskQueueKey) -> (r: usize)
        ensures
            r == queue_of(self@, key).tasks.len(),
    {
        match self.queue_ref(key) {
            Some(q) => q.tasks.len(),
            None => 0,
        }
    }

    /// The tasks of a queue, head first
    pub fn get_queued_tasks(&self, key: TaskQueueKey) -> (r: Vec<QueuedTask>)
        ensures
            r@ == queue_of(self@, key).tasks,
    {
        let mut r: Vec<QueuedTask> = Vec::new();
        if let Some(q) = self.queue_ref(key) {
            let mut i: usize = 0;
            while i < q.tasks.len()
                invariant
                    i <= q.tasks.len(),
                    r@ == q.tasks@.subrange(0, i as int),
                decreases q.tasks.len() - i,
            {
                r.push(q.tasks[i]);
                i = i + 1;
                assert(r@ =~= q.tasks@.subrange(0, i as int));
            }
            assert(r@ =~= q.tasks@);
            assert(q@.tasks == q.tasks@);
        } else {
            assert(r@ =~= Seq::<QueuedTask>::empty());
        }
        r
    }

    /// The queue's running and waiting tasks followed by its finished ones,
    /// most recent first, up to `len` entries
    pub fn get_task_history(&self, len: usize, key: TaskQueueKey) -> (r: Vec<HistoricalTask>)
        ensures
            r@ == spec_task_history(queue_of(self@, key), len as nat),
    {
        let mut r: Vec<HistoricalTask> = Vec::new();
        match self.queue_ref(key) {
            Some(q) => {
                let ghost all = q@.tasks.map_values(|t: QueuedTask| spec_historical(q.key, t)) + q@.history;
                let mut i: usize = 0;
                while i < q.tasks.len() && r.len() < len
                    invariant
                        i <= q.tasks.len(),
                        r.len() == i,
                        i <= len,
                        all == q@.tasks.map_values(|t: QueuedTask| spec_historical(q.key, t)) + q@.history,
                        q@.tasks == q.tasks@,
                        r@ == all.subrange(0, i as int),
                    decreases q.tasks.len() - i,
                {
                    r.push(HistoricalTask::from_queued_task(q.key, q.tasks[i]));
                    i = i + 1;
                    assert(r@ =~= all.subrange(0, i as int));
                }
                let mut j: usize = 0;
                if r.len() < len {
                    while j < q.history.len() && r.len() < len
                        invariant
                            i == q.tasks.len(),
                            j <= q.history.len(),
                            r.len() == i + j,
                            r.len() <= len,
                            all == q@.tasks.map_values(|t: QueuedTask| spec_historical(q.key, t)) + q@.history,
                            q@.history == q.history@,
                            q@.tasks.len() == i,
                            r@ == all.subrange(0, (i + j) as int),
                        decreases q.history.len() - j,
                    {
                        r.push(q.history[j]);
                        j = j + 1;
                        assert(r@ =~= all.subrange(0, (i + j) as int));
                    }
                }
                assert(r@ =~= spec_task_history(q@, len as nat));
            },
            None => {
                assert(r@ =~= spec_task_history(empty_queue(key), len as nat));
            },
        }
        r
    }

    /// The running task of a queue if it has already committed
    pub fn current_committed_task(&self, key: TaskQueueKey) -> (r: Option<TaskIdentifier>)
        ensures
            r == spec_committed_task(queue_of(self@, key)),
    {
        match self.queue_ref(key) {
            Some(q) => {
                if q.tasks.len() > 0 && q.tasks[0].state.is_committed() {
                    Some(q.tasks[0].id)
                } else {
                    None
                }
            },
            None => None,
        }
    }

    /// The first position of a task in a list of tasks
    fn position_of(tasks: &Vec<QueuedTask>, id: TaskIdentifier) -> (r: Option<usize>)
        ensures
            opt_int(r) == first_index(tasks@, is_task(id)),
            r matches Some(j) ==> j < tasks.len(),
    {
        let ghost p = is_task(id);
        proof {
            lemma_first_index_bounds(tasks@, p);
        }
        let mut j: usize = 0;
        while j < tasks.len()
            invariant
                j <= tasks.len(),
                p == is_task(id),
                first_index(tasks@.subrange(0, j as int), p) is None,
            decreases tasks.len() - j,
        {
            proof {
                lemma_first_index_extend(tasks@, p, j as int);
            }
            if tasks[j].id == id {
                proof {
                    lemma_prefix_match_is_first(tasks@, p, j as int);
                }
                return Some(j);
            }
            j = j + 1;
        }
        proof {
            lemma_first_index_bounds(tasks@, p);
        }
        None
    }

    /// The first queue holding a task, and the task's place in it
    fn find_task(&self, id: TaskIdentifier) -> (r: Option<(usize, usize)>)
        ensures
            match r {
                Some((i, j)) => i < self@.len() && j < self@[i as int].tasks.len()
                    && task_of(self@, id) == Some((self@[i as int].key, self@[i as int].tasks[j as int])),
                None => task_of(self@, id) is None,
            },
    {
        let ghost p = holds_task(id);
        proof {
            lemma_first_index_bounds(self@, p);
        }
        let mut i: usize = 0;
        while i < self.queues.len()
            invariant
                i <= self.queues.len(),
                self@.len() == self.queues.len(),
                p == holds_task(id),
                first_index(self@.subrange(0, i as int), p) is None,
            decreases self.queues.len() - i,
        {
            proof {
                lemma_first_index_extend(self@, p, i as int);
            }
            let q = &self.queues[i];
            assert(q@ == self@[i as int]);
            if let Some(j) = Self::position_of(&q.tasks, id) {
                proof {
                    lemma_prefix_match_is_first(self@, p, i as int);
                }
                return Some((i, j));
            }
            i = i + 1;
        }
        proof {
            lemma_first_index_bounds(self@, p);
        }
        None
    }

    /// Whether some queue holds the task
    pub fn contains_task(&self, task_id: TaskIdentifier) -> (r: bool)
        ensures
            r == (task_of(self@, task_id) is Some),
    {
        self.find_task(task_id).is_some()
    }

    /// The key of the queue that holds the task
    pub fn get_task_queue_key(&self, task_id: TaskIdentifier) -> (r: Option<TaskQueueKey>)
        ensures
            r == (match task_of(self@, task_id) {
                Some((key, _)) => Some(key),
                None => None,
            }),
    {
        match self.find_task(task_id) {
            Some((i, _)) => Some(self.queues[i].key),
            None => None,
        }
    }

    /// The task as it stands in its queue
    pub fn get_task(&self, task_id: TaskIdentifier) -> (r: Option<QueuedTask>)
        ensures
            r == (match task_of(self@, task_id) {
                Some((_, t)) => Some(t),
                None => None,
            }),
    {
        match self.find_task(task_id) {
            Some((i, j)) => Some(self.queues[i].tasks[j]),
            None => None,
        }
    }

    /// The state of the task in its queue
    pub fn get_task_status(&self, task_id: TaskIdentifier) -> (r: Option<QueuedTaskState>)
        ensures
            r == (match task_of(self@, task_id) {
                Some((_, t)) => Some(t.state),
                None => None,
            }),
    {
        match self.get_task(task_id) {
            Some(t) => Some(t.state),
            None => None,
        }
    }

    /// Appends a task that refreshes a wallet from its on-chain state, and
    /// returns the task's identifier
    pub fn append_wallet_refresh_task(
        &mut self,
        wallet_id: WalletIdentifier,
        task_id: TaskIdentifier,
        created_at: u64,
        executor: WrappedPeerId,
    ) -> (r: TaskIdentifier)
        requires
            queues_wf(old(self)@),
        ensures
            r == task_id,
            queues_wf(final(self)@),
            final(self)@ == with_queue(
                old(self)@,
                spec_append(
                    queue_of(old(self)@, wallet_id),
                    QueuedTask {
                        id: task_id,
                        descriptor: TaskDescriptor::RefreshWallet { wallet_id },
                        state: QueuedTaskState::Queued,
                        created_at,
                    },
                    executor,
                ),
            ),
    {
        let task = QueuedTask {
            id: task_id,
            descriptor: TaskDescriptor::RefreshWallet { wallet_id },
            state: QueuedTaskState::Queued,
            created_at,
        };
        self.append_task(task, executor);
        task_id
    }

    // -------------------
    // | The replicated log |
    // -------------------

    /// Applies one committed transition
    pub fn apply_transition(&mut self, t: &StateTransition) -> (r: Result<(), StateError>)
        requires
            queues_wf(old(self)@),
        ensures
            queues_wf(final(self)@),
            final(self)@ == spec_apply(old(self)@, *t),
            r == spec_apply_result(old(self)@, *t),
    {
        match t {
            StateTransition::AppendTask { task, executor } => {
                self.append_task(*task, *executor);
                Ok(())
            },
            StateTransition::PopTask { task_id, success, executor } => self.pop_task(*task_id, *success, *executor),
            StateTransition::TransitionTask { task_id, state } => self.transition_task(*task_id, *state),
            StateTransition::ClearTaskQueue { queue } => {
                self.clear_task_queue(*queue);
                Ok(())
            },
            StateTransition::PreemptTaskQueues { keys, task, executor } => self.pause_multiple_task_queues(keys, *task, *executor),
            StateTransition::ResumeTaskQueues { keys, success, executor } => {
                self.resume_multiple_task_queues(keys, *success, *executor);
                Ok(())
            },
            StateTransition::ReassignTasks { from, to } => {
                self.reassign_tasks(*from, *to);
                Ok(())
            },
        }
    }

    /// Applies a prefix of the replicated log, in order; a rejected
    /// transition leaves the queues as they were and the rest still applies
    pub fn apply_log(&mut self, log: &Vec<StateTransition>)
        requires
            queues_wf(old(self)@),
        ensures
            queues_wf(final(self)@),
            final(self)@ == spec_apply_log(old(self)@, log@),
    {
        let ghost before = self@;
        let mut i: usize = 0;
        while i < log.len()
            invariant
                i <= log.len(),
                queues_wf(self@),
                self@ == spec_apply_log(before, log@.subrange(0, i as int)),
            decreases log.len() - i,
        {
            let _ = self.apply_transition(&log[i]);
            proof {
                assert(log@.subrange(0, i as int + 1).drop_last() =~= log@.subrange(0, i as int));
            }
            i = i + 1;
        }
        proof {
            assert(log@.subrange(0, log@.len() as int) =~= log@);
        }
    }
}

/// Where the key's queue sits, if anywhere
pub proof fn lemma_key_index(qs: Seq<TaskQueueView>, key: TaskQueueKey)
    ensures
        key_index(qs, key) matches Some(i) ==> 0 <= i < qs.len() && qs[i].key == key,
        key_index(qs, key) is None ==> forall|j: int| 0 <= j < qs.len() ==> #[trigger] qs[j].key != key,
{
    lemma_first_index_spec(qs, has_key(key));
    if key_index(qs, key) is None {
        assert forall|j: int| 0 <= j < qs.len() implies #[trigger] qs[j].key != key by {
            assert(!has_key(key)(qs[j]));
        }
    }
}

/// In well-formed queues the key's queue is the one stored under it
pub proof fn lemma_key_index_of(qs: Seq<TaskQueueView>, key: TaskQueueKey, i: int)
    requires
        queues_wf(qs),
        0 <= i < qs.len(),
        qs[i].key == key,
    ensures
        key_index(qs, key) == Some(i),
{
    assert forall|j: int| 0 <= j < i implies !#[trigger] has_key(key)(qs[j]) by {
        assert(qs[j].key != qs[i].key);
    }
    crate::search::lemma_first_index_unique(qs, has_key(key), i);
}

/// Putting a queue back where it was taken from stores it under its key,
/// keeps the queues well formed, and leaves every other queue as it was
pub proof fn lemma_take_put(qs: Seq<TaskQueueView>, q: TaskQueueView)
    requires
        queues_wf(qs),
        queue_wf(q),
    ensures
        (match key_index(qs, q.key) {
            Some(i) => qs.remove(i).insert(i, q),
            None => qs.insert(qs.len() as int, q),
        }) == with_queue(qs, q),
        queues_wf(with_queue(qs, q)),
        queue_of(with_queue(qs, q), q.key) == q,
        forall|k: TaskQueueKey| k != q.key ==> #[trigger] queue_of(with_queue(qs, q), k) == queue_of(qs, k),
{
    lemma_key_index(qs, q.key);
    let r = with_queue(qs, q);
    match key_index(qs, q.key) {
        Some(i) => {
            assert(qs.remove(i).insert(i, q) =~= qs.update(i, q));
        },
        None => {
            assert(qs.insert(qs.len() as int, q) =~= qs.push(q));
        },
    }
    assert(queues_wf(r)) by {
        assert forall|i: int, j: int|
            0 <= i < r.len() && 0 <= j < r.len() && i != j implies #[trigger] r[i].key != #[trigger] r[j].key by {
            match key_index(qs, q.key) {
                Some(k) => {
                    if i != k && j != k {
                        assert(qs[i].key != qs[j].key);
                    }
                },
                None => {},
            }
        }
    }
    let idx = match key_index(qs, q.key) { Some(i) => i, None => qs.len() as int };
    assert(r[idx] == q);
    lemma_key_index_of(r, q.key, idx);
    assert forall|k: TaskQueueKey| k != q.key implies #[trigger] queue_of(r, k) == queue_of(qs, k) by {
        lemma_key_index(qs, k);
        match key_index(qs, k) {
            Some(j) => {
                assert(j != idx);
                assert(r[j] == qs[j]);
                lemma_key_index_of(r, k, j);
            },
            None => {
                lemma_key_index(r, k);
                match key_index(r, k) {
                    Some(j) => {
                        assert(r[j].key == k);
                        assert(j != idx);
                        assert(qs[j].key == k);
                    },
                    None => {},
                }
            },
        }
    }
}

/// A first match in a prefix is the first match of the whole sequence
pub proof fn lemma_prefix_match_is_first<A>(s: Seq<A>, p: spec_fn(A) -> bool, i: int)
    requires
        0 <= i < s.len(),
        first_index(s.subrange(0, i + 1), p) == Some(i),
    ensures
        first_index(s, p) == Some(i),
{
    lemma_first_index_spec(s.subrange(0, i + 1), p);
    assert forall|j: int| 0 <= j < i implies !#[trigger] p(s[j]) by {
        assert(s.subrange(0, i + 1)[j] == s[j]);
    }
    assert(s.subrange(0, i + 1)[i] == s[i]);
    crate::search::lemma_first_index_unique(s, p, i);
}


/// The keys are pairwise distinct
pub open spec fn distinct_keys(keys: Seq<TaskQueueKey>) -> bool {
    forall|i: int, j: int| 0 <= i < keys.len() && 0 <= j < keys.len() && i != j ==> keys[i] != keys[j]
}

/// The queue stored under a key carries that key
pub proof fn lemma_queue_of_key(qs: Seq<TaskQueueView>, key: TaskQueueKey)
    ensures
        queue_of(qs, key).key == key,
{
    lemma_key_index(qs, key);
}

/// Preempting a well-formed queue gives a well-formed queue
pub proof fn lemma_preempt_wf(q: TaskQueueView, task: QueuedTask, executor: WrappedPeerId)
    requires
        queue_wf(q),
    ensures
        queue_wf(spec_preempt(q, task, executor)),
{
    let r = spec_preempt(q, task, executor);
    assert forall|i: int| 1 <= i < r.tasks.len() implies #[trigger] r.tasks[i].state == QueuedTaskState::Queued by {
        if i >= 2 {
            assert(r.tasks[i] == q.tasks[i - 1]);
        }
    }
}

/// Preempting distinct queues places the preempting task at the front of
/// each of them, behind which the queue's old tasks wait in their old order,
/// and leaves every other queue as it was.
pub proof fn lemma_preempt_all_queues(
    qs: Seq<TaskQueueView>,
    keys: Seq<TaskQueueKey>,
    task: QueuedTask,
    executor: WrappedPeerId,
    k: TaskQueueKey,
)
    requires
        queues_wf(qs),
        distinct_keys(keys),
    ensures
        queues_wf(preempt_all(qs, keys, task, executor)),
        keys.contains(k) ==> queue_of(preempt_all(qs, keys, task, executor), k) == spec_preempt(queue_of(qs, k), task, executor),
        !keys.contains(k) ==> queue_of(preempt_all(qs, keys, task, executor), k) == queue_of(qs, k),
    decreases keys.len(),
{
    if keys.len() > 0 {
        let init = keys.drop_last();
        let last = keys.last();
        assert(distinct_keys(init));
        lemma_preempt_all_queues(qs, init, task, executor, k);
        lemma_preempt_all_queues(qs, init, task, executor, last);
        let prev = preempt_all(qs, init, task, executor);
        let q = queue_of(prev, last);
        lemma_key_index(prev, last);
        if let Some(j) = key_index(prev, last) {
            assert(queue_wf(prev[j]));
        }
        lemma_preempt_wf(q, task, executor);
        lemma_queue_of_key(prev, last);
        lemma_take_put(prev, spec_preempt(q, task, executor));
        assert(!init.contains(last)) by {
            if init.contains(last) {
                let j = choose|j: int| 0 <= j < init.len() && init[j] == last;
                assert(keys[j] == keys[keys.len() - 1]);
            }
        }
        assert(keys.contains(k) <==> (init.contains(k) || k == last)) by {
            if keys.contains(k) && k != last {
                let j = choose|j: int| 0 <= j < keys.len() && keys[j] == k;
                assert(init[j] == k);
            }
            if init.contains(k) {
                let j = choose|j: int| 0 <= j < init.len() && init[j] == k;
                assert(keys[j] == k);
            }
            if k == last {
                assert(keys[keys.len() - 1] == k);
            }
        }
    }
}

// --------
// | Laws |
// --------

/// In every queue of a node's task queues at most one task is running, and
/// a running task is the head of its queue.
pub proof fn lemma_running_task_is_head(qs: Seq<TaskQueueView>, key: TaskQueueKey, i: int, j: int)
    requires
        queues_wf(qs),
        0 <= i < queue_of(qs, key).tasks.len(),
        0 <= j < queue_of(qs, key).tasks.len(),
        queue_of(qs, key).tasks[i].state is Running,
        queue_of(qs, key).tasks[j].state is Running,
    ensures
        i == 0,
        j == 0,
{
    lemma_key_index(qs, key);
    let q = queue_of(qs, key);
    if let Some(k) = key_index(qs, key) {
        assert(queue_wf(qs[k]));
    }
    if i != 0 {
        assert(q.tasks[i].state == QueuedTaskState::Queued);
    }
    if j != 0 {
        assert(q.tasks[j].state == QueuedTaskState::Queued);
    }
}

/// Two replicas that start from the same queues and apply the same log
/// prefix reach the same queues.
pub proof fn lemma_apply_log_deterministic(a: Seq<TaskQueueView>, b: Seq<TaskQueueView>, log: Seq<StateTransition>)
    requires
        a == b,
    ensures
        spec_apply_log(a, log) == spec_apply_log(b, log),
{
}

/// A task appended to an empty, active queue is at once the queue's only
/// task, running from its first step.
pub proof fn lemma_append_to_idle_queue_runs(
    qs: Seq<TaskQueueView>,
    task: QueuedTask,
    executor: WrappedPeerId,
)
    requires
        queues_wf(qs),
        queue_of(qs, task.descriptor.spec_queue_key()).tasks.len() == 0,
        !queue_of(qs, task.descriptor.spec_queue_key()).paused,
    ensures
        queue_of(
            spec_apply(qs, StateTransition::AppendTask { task, executor }),
            task.descriptor.spec_queue_key(),
        ).tasks == seq![QueuedTask { state: initial_running_state(), ..task }],
{
    let key = task.descriptor.spec_queue_key();
    let q = spec_append(queue_of(qs, key), task, executor);
    lemma_key_index(qs, key);
    lemma_take_put(qs, q);
}

/// Preempting queues of which one has a committed running task changes
/// nothing.
pub proof fn lemma_preempt_committed_is_rejected(
    qs: Seq<TaskQueueView>,
    keys: Vec<TaskQueueKey>,
    task: QueuedTask,
    executor: WrappedPeerId,
    j: int,
)
    requires
        0 <= j < keys@.len(),
        head_committed(queue_of(qs, keys@[j])),
    ensures
        spec_apply(qs, StateTransition::PreemptTaskQueues { keys, task, executor }) == qs,
{
}

} // verus!

