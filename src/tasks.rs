//! Task descriptors and the states a queued task moves through.

use crate::ids::{TaskIdentifier, TaskQueueKey, WalletIdentifier};
use vstd::prelude::*;

verus! {

/// What a long-running task does, and on which wallets
#[derive(Clone, Copy, Debug, PartialEq, Eq, Structural)]
pub enum TaskDescriptor {
    /// Create a wallet on chain
    NewWallet { wallet_id: WalletIdentifier },
    /// Update a wallet: reblind, re-share and submit a new commitment
    UpdateWallet { wallet_id: WalletIdentifier },
    /// Settle a match between a local order and a remote one
    SettleMatch { wallet_id: WalletIdentifier },
    /// Settle a match between two orders both managed by the local cluster
    SettleMatchInternal { wallet_id1: WalletIdentifier, wallet_id2: WalletIdentifier },
    /// Rediscover a wallet's on-chain state
    RefreshWallet { wallet_id: WalletIdentifier },
}

impl TaskDescriptor {
    /// The queue that the task is serialized on
    pub open spec fn spec_queue_key(self) -> TaskQueueKey {
        match self {
            TaskDescriptor::NewWallet { wallet_id } => wallet_id,
            TaskDescriptor::UpdateWallet { wallet_id } => wallet_id,
            TaskDescriptor::SettleMatch { wallet_id } => wallet_id,
            TaskDescriptor::SettleMatchInternal { wallet_id1, .. } => wallet_id1,
            TaskDescriptor::RefreshWallet { wallet_id } => wallet_id,
        }
    }

    /// The queue that the task is serialized on
    pub fn queue_key(&self) -> (r: TaskQueueKey)
        ensures
            r == self.spec_queue_key(),
    {
        match self {
            TaskDescriptor::NewWallet { wallet_id } => *wallet_id,
            TaskDescriptor::UpdateWallet { wallet_id } => *wallet_id,
            TaskDescriptor::SettleMatch { wallet_id } => *wallet_id,
            TaskDescriptor::SettleMatchInternal { wallet_id1, .. } => *wallet_id1,
            TaskDescriptor::RefreshWallet { wallet_id } => *wallet_id,
        }
    }
}

/// The state of a task in a queue or in a queue's history
#[derive(Clone, Copy, Debug, PartialEq, Eq, Structural)]
pub enum QueuedTaskState {
    /// Waiting behind the head of its queue
    Queued,
    /// Placed at the front of a paused queue by a preemption
    Preemptive,
    /// The head of its queue, at the given step; once `committed` is set
    /// the task's effects are visible on chain and it can no longer be
    /// rolled back
    Running { step: u32, committed: bool },
    /// Finished successfully
    Completed,
    /// Finished with an error
    Failed,
}

impl QueuedTaskState {
    /// Whether the task is running and has committed its effects
    pub open spec fn spec_is_committed(self) -> bool {
        match self {
            QueuedTaskState::Running { committed, .. } => committed,
            _ => false,
        }
    }

    /// Whether the task is running and has committed its effects
    pub fn is_committed(&self) -> (r: bool)
        ensures
            r == self.spec_is_committed(),
    {
        match self {
            QueuedTaskState::Running { committed, .. } => *committed,
            _ => false,
        }
    }
}

/// The state a task starts running in
pub open spec fn initial_running_state() -> QueuedTaskState {
    QueuedTaskState::Running { step: 0, committed: false }
}

/// A task in a task queue
#[derive(Clone, Copy, Debug, PartialEq, Eq, Structural)]
pub struct QueuedTask {
    /// The task's identifier
    pub id: TaskIdentifier,
    /// What the task does
    pub descriptor: TaskDescriptor,
    /// Where the task stands
    pub state: QueuedTaskState,
    /// When the task was created, in milliseconds since the epoch
    pub created_at: u64,
}

/// A task as it appears in a queue's history
#[derive(Clone, Copy, Debug, PartialEq, Eq, Structural)]
pub struct HistoricalTask {
    /// The task's identifier
    pub id: TaskIdentifier,
    /// The queue the task ran on
    pub queue_key: TaskQueueKey,
    /// What the task did
    pub descriptor: TaskDescriptor,
    /// The task's state; `Completed` or `Failed` once it has left the queue
    pub state: QueuedTaskState,
    /// When the task was created, in milliseconds since the epoch
    pub created_at: u64,
}

/// The history entry describing a task of the given queue
pub open spec fn spec_historical(key: TaskQueueKey, t: QueuedTask) -> HistoricalTask {
    HistoricalTask {
        id: t.id,
        queue_key: key,
        descriptor: t.descriptor,
        state: t.state,
        created_at: t.created_at,
    }
}

impl HistoricalTask {
    /// The history entry describing a task that is still in the given queue
    pub fn from_queued_task(key: TaskQueueKey, task: QueuedTask) -> (r: HistoricalTask)
        ensures
            r == spec_historical(key, task),
    {
        HistoricalTask {
            id: task.id,
            queue_key: key,
            descriptor: task.descriptor,
            state: task.state,
            created_at: task.created_at,
        }
    }
}

} // verus!
