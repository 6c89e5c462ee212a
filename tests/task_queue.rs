use relayer_core::ids::WrappedPeerId;
use relayer_core::task_queue::{StateError, StateInner, StateTransition};
use relayer_core::tasks::{QueuedTask, QueuedTaskState, TaskDescriptor};

const LOCAL: WrappedPeerId = WrappedPeerId(1);
const OTHER: WrappedPeerId = WrappedPeerId(2);

fn task(id: u128, wallet: u128) -> QueuedTask {
    QueuedTask {
        id,
        descriptor: TaskDescriptor::UpdateWallet { wallet_id: wallet },
        state: QueuedTaskState::Queued,
        created_at: 0,
    }
}

fn running(step: u32, committed: bool) -> QueuedTaskState {
    QueuedTaskState::Running { step, committed }
}

#[test]
fn test_empty_queue() {
    let state = StateInner::new();
    let key = 7u128;
    assert_eq!(state.get_task_queue_len(key), 0);
    assert!(state.get_queued_tasks(key).is_empty());
}

#[test]
fn test_append() {
    let mut state = StateInner::new();
    let key = 7u128;
    let t = task(100, key);
    state.append_task(t, LOCAL);

    assert_eq!(state.get_task_queue_len(key), 1);
    let tasks = state.get_queued_tasks(key);
    assert_eq!(tasks.len(), 1);
    assert_eq!(tasks[0].id, 100);
    assert!(matches!(tasks[0].state, QueuedTaskState::Running { .. }));
    assert!(state.get_task(100).is_some());
}

#[test]
fn test_pop() {
    let mut state = StateInner::new();
    let wallet_id = 9u128;
    state.append_task(task(100, wallet_id), LOCAL);
    assert_eq!(state.pop_task(100, true, LOCAL), Ok(()));
    assert_eq!(state.get_task_queue_len(wallet_id), 0);
}

#[test]
fn test_transition() {
    let mut state = StateInner::new();
    let key = 7u128;
    state.append_task(task(100, key), LOCAL);
    assert_eq!(state.transition_task(100, running(1, false)), Ok(()));
    let t = state.get_task(100).unwrap();
    assert_eq!(t.state, running(1, false));
}

#[test]
fn test_has_committed_task() {
    let mut state = StateInner::new();
    let key = 7u128;
    state.append_task(task(100, key), LOCAL);
    assert!(state.current_committed_task(key).is_none());

    assert_eq!(state.transition_task(100, running(1, false)), Ok(()));
    assert!(state.current_committed_task(key).is_none());

    assert_eq!(state.transition_task(100, running(1, true)), Ok(()));
    assert_eq!(state.current_committed_task(key), Some(100));
}

#[test]
fn test_task_history() {
    const N: usize = 10;
    let mut state = StateInner::new();
    let wallet_id = 9u128;
    for i in 0..N {
        let id = 1000 + i as u128;
        state.append_task(task(id, wallet_id), LOCAL);
        assert_eq!(state.pop_task(id, true, LOCAL), Ok(()));
    }
    for i in 0..N / 2 {
        state.append_task(task(2000 + i as u128, wallet_id), LOCAL);
    }

    let history = state.get_task_history(N, wallet_id);
    assert_eq!(history.len(), N);
    assert!(matches!(history[0].state, QueuedTaskState::Running { .. }));
    for t in history.iter().take(N / 2).skip(1) {
        assert_eq!(t.state, QueuedTaskState::Queued);
    }
    for t in history.iter().skip(N / 2) {
        assert!(matches!(t.state, QueuedTaskState::Completed));
    }
}

#[test]
fn append_to_empty_queue_runs_immediately() {
    let mut state = StateInner::new();
    state.append_task(task(1, 5), LOCAL);
    state.append_task(task(2, 5), LOCAL);
    let tasks = state.get_queued_tasks(5);
    assert_eq!(tasks[0].state, running(0, false));
    assert_eq!(tasks[1].state, QueuedTaskState::Queued);
}

#[test]
fn at_most_one_running_task_per_queue() {
    let mut state = StateInner::new();
    for id in 1..6u128 {
        state.append_task(task(id, 5), LOCAL);
    }
    assert_eq!(state.pop_task(1, true, OTHER), Ok(()));
    let tasks = state.get_queued_tasks(5);
    let running_count = tasks.iter().filter(|t| matches!(t.state, QueuedTaskState::Running { .. })).count();
    assert_eq!(running_count, 1);
    assert_eq!(tasks[0].id, 2);
    assert!(matches!(tasks[0].state, QueuedTaskState::Running { .. }));
}

#[test]
fn preempting_committed_queue_fails_without_side_effects() {
    let mut state = StateInner::new();
    state.append_task(task(1, 5), LOCAL);
    state.append_task(task(2, 6), LOCAL);
    assert_eq!(state.transition_task(1, running(3, true)), Ok(()));
    let before5 = state.get_queued_tasks(5);
    let before6 = state.get_queued_tasks(6);

    let preempt = QueuedTask { state: QueuedTaskState::Preemptive, ..task(50, 5) };
    let r = state.pause_multiple_task_queues(&vec![6, 5], preempt, OTHER);
    assert_eq!(r, Err(StateError::CommittedTask));
    assert_eq!(state.get_queued_tasks(5), before5);
    assert_eq!(state.get_queued_tasks(6), before6);
    assert!(!state.is_queue_paused(5));
    assert!(!state.is_queue_paused(6));
}

#[test]
fn preempt_and_resume() {
    let mut state = StateInner::new();
    state.append_task(task(1, 5), LOCAL);
    let preempt = task(50, 5);
    assert_eq!(state.pause_task_queue(5, preempt, OTHER), Ok(()));
    assert!(state.is_queue_paused(5));
    let tasks = state.get_queued_tasks(5);
    assert_eq!(tasks[0].id, 50);
    assert_eq!(tasks[0].state, QueuedTaskState::Preemptive);
    assert_eq!(tasks[1].state, QueuedTaskState::Queued);
    // a task behind a preemption cannot be popped
    assert_eq!(state.pop_task(1, true, LOCAL), Err(StateError::TaskNotRunning));

    state.resume_task_queue(5, true, LOCAL);
    assert!(!state.is_queue_paused(5));
    let tasks = state.get_queued_tasks(5);
    assert_eq!(tasks.len(), 1);
    assert_eq!(tasks[0].state, running(0, false));
    let history = state.get_task_history(10, 5);
    assert_eq!(history[1].id, 50);
    assert_eq!(history[1].state, QueuedTaskState::Completed);
}

#[test]
fn committed_task_cannot_fail_and_steps_only_advance() {
    let mut state = StateInner::new();
    state.append_task(task(1, 5), LOCAL);
    assert_eq!(state.transition_task(1, running(2, true)), Ok(()));
    assert_eq!(state.transition_task(1, running(1, true)), Err(StateError::InvalidTransition));
    assert_eq!(state.transition_task(1, running(2, false)), Err(StateError::InvalidTransition));
    assert_eq!(state.pop_task(1, false, LOCAL), Err(StateError::CommittedTask));
    assert_eq!(state.get_task_queue_len(5), 1);
    assert_eq!(state.pop_task(77, true, LOCAL), Err(StateError::TaskNotRunning));
}

#[test]
fn failover_after_commit_resumes_without_resubmitting() {
    // the executor of a settlement commits on chain, then crashes before popping
    let mut state = StateInner::new();
    let settle = QueuedTask { descriptor: TaskDescriptor::SettleMatch { wallet_id: 5 }, ..task(1, 5) };
    state.append_task(settle, OTHER);
    state.append_task(task(2, 5), OTHER);
    assert_eq!(state.transition_task(1, running(4, true)), Ok(()));

    // a surviving replica takes over the failed peer's queues
    state.reassign_tasks(OTHER, LOCAL);
    let tasks = state.get_queued_tasks(5);
    assert_eq!(tasks[0].state, running(4, true));
    assert_eq!(state.current_committed_task(5), Some(1));

    // the new executor completes the cleanup and pops the task
    assert_eq!(state.pop_task(1, true, LOCAL), Ok(()));
    let tasks = state.get_queued_tasks(5);
    assert_eq!(tasks[0].id, 2);
    assert_eq!(tasks[0].state, running(0, false));
}

#[test]
fn reassign_resumes_from_the_recorded_step() {
    let mut state = StateInner::new();
    state.append_task(task(1, 5), OTHER);
    assert_eq!(state.transition_task(1, running(3, false)), Ok(()));
    state.reassign_tasks(OTHER, LOCAL);
    assert_eq!(state.get_queued_tasks(5)[0].state, running(3, false));
    // the new executor carries on from there
    assert_eq!(state.transition_task(1, running(4, true)), Ok(()));
}

#[test]
fn replaying_the_same_log_gives_the_same_queues() {
    let log = vec![
        StateTransition::AppendTask { task: task(1, 5), executor: LOCAL },
        StateTransition::AppendTask { task: task(2, 5), executor: LOCAL },
        StateTransition::TransitionTask { task_id: 1, state: running(1, true) },
        StateTransition::PreemptTaskQueues { keys: vec![5], task: task(9, 5), executor: OTHER },
        StateTransition::PopTask { task_id: 1, success: true, executor: LOCAL },
        StateTransition::ClearTaskQueue { queue: 6 },
        StateTransition::ReassignTasks { from: LOCAL, to: OTHER },
    ];
    let mut a = StateInner::new();
    let mut b = StateInner::new();
    a.apply_log(&log);
    b.apply_log(&log);
    assert_eq!(a.get_task_history(20, 5), b.get_task_history(20, 5));
    assert_eq!(a.get_queued_tasks(5), b.get_queued_tasks(5));
    assert_eq!(a.get_queued_tasks(5).len(), 1);
    // the committed task was not preempted, and was popped into the history
    assert_eq!(a.get_task_status(1), None);
    assert_eq!(a.get_task_history(20, 5)[1].state, QueuedTaskState::Completed);
    assert!(!a.is_queue_paused(5));
}

#[test]
fn refresh_task_and_lookups() {
    let mut state = StateInner::new();
    let id = state.append_wallet_refresh_task(8, 42, 1234, LOCAL);
    assert_eq!(id, 42);
    assert!(state.contains_task(42));
    assert_eq!(state.get_task_queue_key(42), Some(8));
    let t = state.get_task(42).unwrap();
    assert_eq!(t.descriptor, TaskDescriptor::RefreshWallet { wallet_id: 8 });
    assert_eq!(t.created_at, 1234);
    assert_eq!(state.get_task_status(42), Some(running(0, false)));
    state.clear_task_queue(8);
    assert!(!state.contains_task(42));
    assert_eq!(state.get_task_queue_key(42), None);
}

#[test]
fn applying_a_transition_reports_rejections() {
    let mut state = StateInner::new();
    assert_eq!(state.apply_transition(&StateTransition::AppendTask { task: task(1, 5), executor: LOCAL }), Ok(()));
    assert_eq!(
        state.apply_transition(&StateTransition::TransitionTask { task_id: 1, state: running(2, true) }),
        Ok(())
    );
    assert_eq!(
        state.apply_transition(&StateTransition::PreemptTaskQueues { keys: vec![5], task: task(9, 5), executor: OTHER }),
        Err(StateError::CommittedTask)
    );
    assert_eq!(
        state.apply_transition(&StateTransition::TransitionTask { task_id: 1, state: running(1, true) }),
        Err(StateError::InvalidTransition)
    );
    assert_eq!(
        state.apply_transition(&StateTransition::PopTask { task_id: 1, success: false, executor: LOCAL }),
        Err(StateError::CommittedTask)
    );
    assert_eq!(
        state.apply_transition(&StateTransition::PopTask { task_id: 2, success: true, executor: LOCAL }),
        Err(StateError::TaskNotRunning)
    );
}

#[test]
fn preempting_distinct_queues_keeps_their_tasks_in_order() {
    let mut state = StateInner::new();
    state.append_task(task(1, 5), LOCAL);
    state.append_task(task(2, 5), LOCAL);
    state.append_task(task(3, 6), LOCAL);
    assert_eq!(state.pause_multiple_task_queues(&vec![5, 6, 7], task(9, 5), OTHER), Ok(()));
    for key in [5u128, 6, 7] {
        assert!(state.is_queue_paused(key));
        let tasks = state.get_queued_tasks(key);
        assert_eq!(tasks[0].id, 9);
        assert_eq!(tasks[0].state, QueuedTaskState::Preemptive);
        assert!(tasks.iter().skip(1).all(|t| t.state == QueuedTaskState::Queued));
    }
    let ids: Vec<u128> = state.get_queued_tasks(5).iter().map(|t| t.id).collect();
    assert_eq!(ids, vec![9, 1, 2]);
}
