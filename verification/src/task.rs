//! A task that a customer posts with a cost, that workers propose to do, and
//! that moves through its statuses until the customer completes it.

use vstd::prelude::*;
use crate::ledger::{AccountId, Balance};
use crate::user::TagSet;

verus! {

/// Block number on the chain.
pub type BlockNumber = u32;

/// Identifier of a task.
pub type TaskId = u128;

/// Blocks in a day (a block every six seconds).
pub const DAYS: BlockNumber = 14400;

/// Progress of a task.
#[derive(Clone, Copy, PartialEq, Eq, Structural, Debug)]
pub enum TaskStatus {
    /// The task accepts proposals.
    Open,
    /// The customer accepted a proposal; the bidder has to take the work on.
    AwaitingBidderResponse,
    /// The worker is doing the task.
    InProgress,
    /// The worker has handed in the work.
    PendingApproval,
    /// The customer sent the work back for revision.
    InRevision,
    /// The customer approved the work; the worker has to rate the customer.
    CustomerRatingPending,
    /// The worker rated the customer; the customer has to complete the task.
    AwaitingCompletion,
    /// The task is done.
    Completed,
}

/// A task.
pub struct Task {
    owner: AccountId,
    metadata: Vec<u8>,
    status: TaskStatus,
    cost: Balance,
    tags: TagSet,
    created_at: BlockNumber,
    finishes_at: Option<BlockNumber>,
    deadline: u8,
    revisions: u8,
    worker: Option<AccountId>,
    worker_attachments: Option<Vec<u8>>,
}

/// A task as mathematical values.
pub struct TaskView {
    pub owner: AccountId,
    pub metadata: Seq<u8>,
    pub status: TaskStatus,
    pub cost: Balance,
    pub tags: Set<Seq<u8>>,
    pub created_at: BlockNumber,
    pub finishes_at: Option<BlockNumber>,
    pub deadline: u8,
    pub revisions: u8,
    pub worker: Option<AccountId>,
    pub worker_attachments: Option<Seq<u8>>,
}

pub open spec fn opt_bytes(o: Option<Vec<u8>>) -> Option<Seq<u8>> {
    match o {
        Some(v) => Some(v@),
        None => None,
    }
}

impl View for Task {
    type V = TaskView;

    closed spec fn view(&self) -> TaskView {
        TaskView {
            owner: self.owner,
            metadata: self.metadata@,
            status: self.status,
            cost: self.cost,
            tags: self.tags@,
            created_at: self.created_at,
            finishes_at: self.finishes_at,
            deadline: self.deadline,
            revisions: self.revisions,
            worker: self.worker,
            worker_attachments: opt_bytes(self.worker_attachments),
        }
    }
}

/// A task just posted.
pub open spec fn new_task(
    owner: AccountId,
    metadata: Seq<u8>,
    cost: Balance,
    tags: Set<Seq<u8>>,
    created_at: BlockNumber,
    deadline: u8,
) -> TaskView {
    TaskView {
        owner,
        metadata,
        status: TaskStatus::Open,
        cost,
        tags,
        created_at,
        finishes_at: None,
        deadline,
        revisions: 0,
        worker: None,
        worker_attachments: None,
    }
}

impl Task {
    /// An open task without a worker.
    pub fn new(
        owner: AccountId,
        metadata: Vec<u8>,
        cost: Balance,
        tags: TagSet,
        created_at: BlockNumber,
        deadline: u8,
    ) -> (t: Self)
        ensures
            t@ == new_task(owner, metadata@, cost, tags@, created_at, deadline),
    {
        Task {
            owner,
            metadata,
            status: TaskStatus::Open,
            cost,
            tags,
            created_at,
            finishes_at: None,
            deadline,
            revisions: 0,
            worker: None,
            worker_attachments: None,
        }
    }

    /// Whether `account_id` posted the task.
    pub fn check_ownership(&self, account_id: &AccountId) -> (b: bool)
        ensures
            b == (self@.owner == *account_id),
    {
        self.owner == *account_id
    }

    /// Sets the block by which the work is due.
    pub fn extend_completion(&mut self, new_deadline: Option<BlockNumber>)
        ensures
            final(self)@ == (TaskView { finishes_at: new_deadline, ..old(self)@ }),
    {
        self.finishes_at = new_deadline;
    }

    pub fn get_cost(&self) -> (c: Balance)
        ensures
            c == self@.cost,
    {
        self.cost
    }

    pub fn get_status(&self) -> (s: &TaskStatus)
        ensures
            *s == self@.status,
    {
        &self.status
    }

    /// The days the worker has for the task.
    pub fn get_deadline(&self) -> (d: u8)
        ensures
            d == self@.deadline,
    {
        self.deadline
    }

    pub fn get_revisions(&self) -> (n: u8)
        ensures
            n == self@.revisions,
    {
        self.revisions
    }

    /// Counts one more revision.
    pub fn increment_revisions(&mut self)
        requires
            old(self)@.revisions < u8::MAX,
        ensures
            final(self)@ == (TaskView { revisions: (old(self)@.revisions + 1) as u8, ..old(self)@ }),
    {
        self.revisions = self.revisions + 1;
    }

    pub fn get_worker_details(&self) -> (w: &Option<AccountId>)
        ensures
            *w == self@.worker,
    {
        &self.worker
    }

    pub fn get_owner_details(&self) -> (o: &AccountId)
        ensures
            *o == self@.owner,
    {
        &self.owner
    }

    /// The block by which the work is due, once a worker took it on.
    pub fn get_completion(&self) -> (b: Option<BlockNumber>)
        ensures
            b == self@.finishes_at,
    {
        self.finishes_at
    }

    pub fn update_cost(&mut self, new_cost: Balance)
        ensures
            final(self)@ == (TaskView { cost: new_cost, ..old(self)@ }),
    {
        self.cost = new_cost;
    }

    pub fn update_status(&mut self, new_status: TaskStatus)
        ensures
            final(self)@ == (TaskView { status: new_status, ..old(self)@ }),
    {
        self.status = new_status;
    }

    pub fn add_worker(&mut self, worker: AccountId)
        ensures
            final(self)@ == (TaskView { worker: Some(worker), ..old(self)@ }),
    {
        self.worker = Some(worker);
    }

    pub fn add_worker_attachments(&mut self, attachment_url: Vec<u8>)
        ensures
            final(self)@ == (TaskView { worker_attachments: Some(attachment_url@), ..old(self)@ }),
    {
        self.worker_attachments = Some(attachment_url);
    }
}

} // verus!
