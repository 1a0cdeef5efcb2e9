//! The task board: a customer posts a task and pays its cost into the task's
//! escrow; workers propose to do it; the customer accepts a proposal; the
//! bidder takes the work on by staking the bid amount; the worker hands in
//! the work, which the customer approves (rating the worker) or sends back
//! for revision; the worker rates the customer; the customer completes the
//! task and pays the worker.

use std::collections::BTreeSet;
use vstd::prelude::*;
use crate::dispatch::{DispatchError, Origin, ensure_signed};
use crate::ledger::{AccountId, Balance, ExistenceRequirement, Holder, Ledger, transfer_result};
use crate::table::Table;
use crate::task::{BlockNumber, DAYS, Task, TaskId, TaskStatus, TaskView, new_task};
use crate::user;
use crate::user::{
    DirectoryView, TagSet, average_fits, rated_as_publisher, rated_as_worker, user_or_default,
    UserTrait,
};

verus! {

/// A set of accounts.
pub struct AccountSet {
    items: BTreeSet<AccountId>,
}

impl View for AccountSet {
    type V = Set<AccountId>;

    closed spec fn view(&self) -> Set<AccountId> {
        self.items@
    }
}

impl AccountSet {
    /// The empty set.
    pub fn new() -> (s: Self)
        ensures
            s@ == Set::<AccountId>::empty(),
    {
        AccountSet { items: BTreeSet::new() }
    }

    /// Whether `a` is in the set.
    pub fn contains(&self, a: &AccountId) -> (b: bool)
        ensures
            b == self@.contains(*a),
    {
        broadcast use vstd::laws_cmp::group_laws_cmp;
        self.items.contains(a)
    }

    /// Adds `a` to the set.
    pub fn insert(&mut self, a: AccountId)
        ensures
            final(self)@ == old(self)@.insert(a),
    {
        broadcast use vstd::laws_cmp::group_laws_cmp;
        self.items.insert(a);
    }

    /// Removes `a`; whether it was in the set.
    pub fn remove(&mut self, a: &AccountId) -> (b: bool)
        ensures
            b == old(self)@.contains(*a),
            final(self)@ == old(self)@.remove(*a),
    {
        broadcast use vstd::laws_cmp::group_laws_cmp;
        self.items.remove(a)
    }

    /// Empties the set.
    pub fn clear(&mut self)
        ensures
            final(self)@ == Set::<AccountId>::empty(),
    {
        self.items.clear();
    }
}

/// What the task board reports.
#[derive(Clone, Copy, PartialEq, Eq, Structural, Debug)]
pub enum Event {
    TaskCreated { task_id: TaskId, owner: AccountId },
    BidPlaced { task_id: TaskId, bidder: AccountId },
    BidRemoved { task_id: TaskId, bidder: AccountId },
    BidAccepted { task_id: TaskId, bidder: AccountId },
    BidRejected { task_id: TaskId, bidder: AccountId },
    WorkAccepted { task_id: TaskId, bidder: AccountId },
    WorkRejected { task_id: TaskId, bidder: AccountId },
    WorkCompleted { task_id: TaskId, worker: AccountId },
    TaskApproved { task_id: TaskId, rating: u8 },
    TaskDisapproved { task_id: TaskId },
    CustomerRatingProvided { task_id: TaskId, rating: u8 },
    TaskCompleted { task_id: TaskId },
}

/// Why the task board refused an operation.
#[derive(Clone, Copy, PartialEq, Eq, Structural, Debug)]
pub enum Error {
    TaskDoesNotExist,
    OwnerCannotBid,
    BidAlreadyPlaced,
    NotAllowed,
    BidDoesNotExist,
    NoPermission,
    NotWorker,
    InvalidRatingInput,
}

/// Outcome of an operation of the task board.
pub type TaskResult = Result<(), DispatchError<Error>>;

/// The task board's state, as mathematical values.
#[verifier::ext_equal]
pub struct BoardView {
    /// The id of the last task posted.
    pub task_number: TaskId,
    pub tasks: Map<TaskId, TaskView>,
    /// Proposals per task.
    pub proposals: Map<TaskId, Set<AccountId>>,
    /// The accepted proposal of a task, until the bidder answers.
    pub accepted: Map<TaskId, AccountId>,
    pub events: Seq<Event>,
    /// The current block.
    pub block_number: BlockNumber,
    /// What a bidder stakes when taking a task on.
    pub bid_amount: Balance,
}

/// The escrow account of a task.
pub open spec fn task_escrow(id: TaskId) -> Holder {
    Holder::TaskEscrow(id)
}

/// The proposals of task `id`, none when no set is stored.
pub open spec fn proposals_of(v: BoardView, id: TaskId) -> Set<AccountId> {
    if v.proposals.contains_key(id) {
        v.proposals[id]
    } else {
        Set::empty()
    }
}

pub open spec fn task_error(e: Error) -> DispatchError<Error> {
    DispatchError::Module(e)
}

/// `v` with task `id` replaced by `t`.
pub open spec fn with_task(v: BoardView, id: TaskId, t: TaskView) -> BoardView {
    BoardView { tasks: v.tasks.insert(id, t), ..v }
}

/// `v` with event `e` reported.
pub open spec fn with_event(v: BoardView, e: Event) -> BoardView {
    BoardView { events: v.events.push(e), ..v }
}

/// `t` with status `s`.
pub open spec fn with_status(t: TaskView, s: TaskStatus) -> TaskView {
    TaskView { status: s, ..t }
}

/// Posting a task: it gets the next id, and its cost moves from the owner
/// into its escrow.
pub open spec fn create_task_outcome(
    v: BoardView,
    l: Map<Holder, Balance>,
    who: AccountId,
    metadata: Seq<u8>,
    cost: Balance,
    deadline: u8,
) -> Result<(BoardView, Map<Holder, Balance>), DispatchError<Error>> {
    let id = (v.task_number + 1) as TaskId;
    match transfer_result(l, Holder::Account(who), task_escrow(id), cost, ExistenceRequirement::KeepAlive) {
        Err(e) => Err(DispatchError::Currency(e)),
        Ok(l2) => Ok((
            BoardView {
                task_number: id,
                tasks: v.tasks.insert(id, new_task(who, metadata, cost, Set::empty(), v.block_number, deadline)),
                events: v.events.push(Event::TaskCreated { task_id: id, owner: who }),
                ..v
            },
            l2,
        )),
    }
}

/// Proposing to do an open task of somebody else, once.
pub open spec fn propose_outcome(v: BoardView, who: AccountId, id: TaskId) -> Result<BoardView, DispatchError<Error>> {
    if !v.tasks.contains_key(id) {
        Err(task_error(Error::TaskDoesNotExist))
    } else if v.tasks[id].status != TaskStatus::Open {
        Err(task_error(Error::NotAllowed))
    } else if v.tasks[id].owner == who {
        Err(task_error(Error::OwnerCannotBid))
    } else if proposals_of(v, id).contains(who) {
        Err(task_error(Error::BidAlreadyPlaced))
    } else {
        Ok(with_event(
            BoardView { proposals: v.proposals.insert(id, proposals_of(v, id).insert(who)), ..v },
            Event::BidPlaced { task_id: id, bidder: who },
        ))
    }
}

/// The owner accepting a proposal of an open task: the proposal leaves the
/// set and waits for the bidder's answer.
pub open spec fn accept_proposal_outcome(v: BoardView, who: AccountId, id: TaskId, bidder: AccountId) -> Result<BoardView, DispatchError<Error>> {
    if !v.tasks.contains_key(id) {
        Err(task_error(Error::TaskDoesNotExist))
    } else if v.tasks[id].owner != who {
        Err(task_error(Error::NoPermission))
    } else if v.tasks[id].status != TaskStatus::Open {
        Err(task_error(Error::NotAllowed))
    } else if !proposals_of(v, id).contains(bidder) {
        Err(task_error(Error::BidDoesNotExist))
    } else {
        Ok(with_event(
            BoardView {
                accepted: v.accepted.insert(id, bidder),
                tasks: v.tasks.insert(id, with_status(v.tasks[id], TaskStatus::AwaitingBidderResponse)),
                proposals: v.proposals.insert(id, proposals_of(v, id).remove(bidder)),
                ..v
            },
            Event::BidAccepted { task_id: id, bidder },
        ))
    }
}

/// The owner rejecting a proposal: the accepted one (which reopens the
/// task) or one still in the set.
pub open spec fn reject_proposal_outcome(v: BoardView, who: AccountId, id: TaskId, bidder: AccountId) -> Result<BoardView, DispatchError<Error>> {
    if !v.tasks.contains_key(id) {
        Err(task_error(Error::TaskDoesNotExist))
    } else if v.tasks[id].owner != who {
        Err(task_error(Error::NoPermission))
    } else if !(v.tasks[id].status == TaskStatus::Open || v.tasks[id].status == TaskStatus::AwaitingBidderResponse) {
        Err(task_error(Error::NotAllowed))
    } else if v.accepted.contains_key(id) && v.accepted[id] == bidder {
        Ok(with_event(
            BoardView {
                tasks: v.tasks.insert(id, with_status(v.tasks[id], TaskStatus::Open)),
                accepted: v.accepted.remove(id),
                ..v
            },
            Event::BidRejected { task_id: id, bidder },
        ))
    } else if !proposals_of(v, id).contains(bidder) {
        Err(task_error(Error::BidDoesNotExist))
    } else {
        Ok(with_event(
            BoardView { proposals: v.proposals.insert(id, proposals_of(v, id).remove(bidder)), ..v },
            Event::BidRejected { task_id: id, bidder },
        ))
    }
}

/// A bidder retracting a proposal: it leaves the task's proposals.
pub open spec fn retract_outcome(v: BoardView, who: AccountId, id: TaskId) -> Result<BoardView, DispatchError<Error>> {
    if !v.tasks.contains_key(id) {
        Err(task_error(Error::TaskDoesNotExist))
    } else if !proposals_of(v, id).contains(who) {
        Err(task_error(Error::BidDoesNotExist))
    } else {
        Ok(with_event(
            BoardView { proposals: v.proposals.insert(id, proposals_of(v, id).remove(who)), ..v },
            Event::BidRemoved { task_id: id, bidder: who },
        ))
    }
}

/// The accepted bidder declining the work: the task reopens.
pub open spec fn reject_work_outcome(v: BoardView, who: AccountId, id: TaskId) -> Result<BoardView, DispatchError<Error>> {
    if !v.accepted.contains_key(id) || v.accepted[id] != who {
        Err(task_error(Error::NotAllowed))
    } else if !v.tasks.contains_key(id) {
        Err(task_error(Error::TaskDoesNotExist))
    } else {
        Ok(with_event(
            BoardView {
                tasks: v.tasks.insert(id, with_status(v.tasks[id], TaskStatus::Open)),
                accepted: v.accepted.remove(id),
                ..v
            },
            Event::WorkRejected { task_id: id, bidder: who },
        ))
    }
}

/// The accepted bidder taking the work on: they become the worker, the work
/// is due `deadline` days from now, they stake the bid amount into the
/// task's escrow, and the remaining proposals are dropped.
pub open spec fn accept_work_outcome(v: BoardView, l: Map<Holder, Balance>, who: AccountId, id: TaskId) -> Result<(BoardView, Map<Holder, Balance>), DispatchError<Error>> {
    if !v.accepted.contains_key(id) || v.accepted[id] != who {
        Err(task_error(Error::NotAllowed))
    } else if !v.tasks.contains_key(id) {
        Err(task_error(Error::TaskDoesNotExist))
    } else {
        let t = v.tasks[id];
        let due = (v.block_number + t.deadline * DAYS) as BlockNumber;
        match transfer_result(l, Holder::Account(who), task_escrow(id), v.bid_amount, ExistenceRequirement::KeepAlive) {
            Err(e) => Err(DispatchError::Currency(e)),
            Ok(l2) => Ok((
                with_event(
                    BoardView {
                        tasks: v.tasks.insert(id, TaskView {
                            status: TaskStatus::InProgress,
                            worker: Some(who),
                            finishes_at: Some(due),
                            ..t
                        }),
                        accepted: v.accepted.remove(id),
                        proposals: v.proposals.insert(id, Set::empty()),
                        ..v
                    },
                    Event::WorkAccepted { task_id: id, bidder: who },
                ),
                l2,
            )),
        }
    }
}

/// The worker handing in the work, with attachments.
pub open spec fn complete_work_outcome(v: BoardView, who: AccountId, id: TaskId, attachments: Seq<u8>) -> Result<BoardView, DispatchError<Error>> {
    if !v.tasks.contains_key(id) {
        Err(task_error(Error::TaskDoesNotExist))
    } else if v.tasks[id].worker != Some(who) {
        Err(task_error(Error::NotWorker))
    } else if !(v.tasks[id].status == TaskStatus::InProgress || v.tasks[id].status == TaskStatus::InRevision) {
        Err(task_error(Error::NotAllowed))
    } else {
        Ok(with_event(
            with_task(v, id, TaskView {
                status: TaskStatus::PendingApproval,
                worker_attachments: Some(attachments),
                ..v.tasks[id]
            }),
            Event::WorkCompleted { task_id: id, worker: who },
        ))
    }
}

/// A rating between one and five.
pub open spec fn valid_rating(r: u8) -> bool {
    1 <= r <= 5
}

/// Why the owner cannot approve the work, if it cannot.
pub open spec fn approve_work_error(v: BoardView, who: AccountId, id: TaskId, rating: u8) -> Option<DispatchError<Error>> {
    if !v.tasks.contains_key(id) {
        Some(task_error(Error::TaskDoesNotExist))
    } else if v.tasks[id].owner != who {
        Some(task_error(Error::NoPermission))
    } else if v.tasks[id].status != TaskStatus::PendingApproval {
        Some(task_error(Error::NotAllowed))
    } else if !valid_rating(rating) {
        Some(task_error(Error::InvalidRatingInput))
    } else {
        None
    }
}

/// Why the worker cannot rate the customer, if it cannot.
pub open spec fn customer_rating_error(v: BoardView, who: AccountId, id: TaskId, rating: u8) -> Option<DispatchError<Error>> {
    if !v.tasks.contains_key(id) {
        Some(task_error(Error::TaskDoesNotExist))
    } else if v.tasks[id].worker != Some(who) {
        Some(task_error(Error::NoPermission))
    } else if v.tasks[id].status != TaskStatus::CustomerRatingPending {
        Some(task_error(Error::NotAllowed))
    } else if !valid_rating(rating) {
        Some(task_error(Error::InvalidRatingInput))
    } else {
        None
    }
}

/// The owner sending pending work back for revision.
pub open spec fn disapprove_outcome(v: BoardView, who: AccountId, id: TaskId) -> Result<BoardView, DispatchError<Error>> {
    if !v.tasks.contains_key(id) {
        Err(task_error(Error::TaskDoesNotExist))
    } else if v.tasks[id].owner != who {
        Err(task_error(Error::NoPermission))
    } else if v.tasks[id].status != TaskStatus::PendingApproval {
        Err(task_error(Error::NotAllowed))
    } else {
        Ok(with_event(
            with_task(v, id, TaskView {
                status: TaskStatus::InRevision,
                revisions: (v.tasks[id].revisions + 1) as u8,
                ..v.tasks[id]
            }),
            Event::TaskDisapproved { task_id: id },
        ))
    }
}

/// Why the owner cannot complete the task, if it cannot.
pub open spec fn complete_task_error(v: BoardView, who: AccountId, id: TaskId) -> Option<DispatchError<Error>> {
    if !v.tasks.contains_key(id) {
        Some(task_error(Error::TaskDoesNotExist))
    } else if v.tasks[id].owner != who {
        Some(task_error(Error::NoPermission))
    } else if v.tasks[id].status != TaskStatus::AwaitingCompletion {
        Some(task_error(Error::NotAllowed))
    } else {
        None
    }
}

/// The owner completing the task: the task's escrow pays the worker the
/// cost and the bid amount, and the task is completed.
pub open spec fn complete_task_outcome(v: BoardView, l: Map<Holder, Balance>, who: AccountId, id: TaskId) -> Result<(BoardView, Map<Holder, Balance>), DispatchError<Error>> {
    match complete_task_error(v, who, id) {
        Some(e) => Err(e),
        None => {
            let t = v.tasks[id];
            match transfer_result(l, task_escrow(id), Holder::Account(t.worker.unwrap()), (t.cost + v.bid_amount) as Balance, ExistenceRequirement::AllowDeath) {
                Err(e) => Err(DispatchError::Currency(e)),
                Ok(l2) => Ok((
                    with_event(
                        with_task(v, id, with_status(t, TaskStatus::Completed)),
                        Event::TaskCompleted { task_id: id },
                    ),
                    l2,
                )),
            }
        },
    }
}


/// The owner approving pending work of task `id`: the worker's profile
/// takes the rating, and the worker has to rate the customer next.
pub open spec fn approve_work_outcome(v: BoardView, d: DirectoryView, who: AccountId, id: TaskId, rating: u8) -> Result<(BoardView, DirectoryView), DispatchError<Error>> {
    match approve_work_error(v, who, id, rating) {
        Some(e) => Err(e),
        None => {
            let w = v.tasks[id].worker.unwrap();
            Ok((
                with_event(
                    with_task(v, id, with_status(v.tasks[id], TaskStatus::CustomerRatingPending)),
                    Event::TaskApproved { task_id: id, rating },
                ),
                DirectoryView { users: d.users.insert(w, rated_as_worker(user_or_default(d.users, w), rating)), ..d },
            ))
        },
    }
}

/// The worker rating the customer of task `id`: the owner's profile takes
/// the rating, and the owner has to complete the task next.
pub open spec fn customer_rating_outcome(v: BoardView, d: DirectoryView, who: AccountId, id: TaskId, rating: u8) -> Result<(BoardView, DirectoryView), DispatchError<Error>> {
    match customer_rating_error(v, who, id, rating) {
        Some(e) => Err(e),
        None => {
            let o = v.tasks[id].owner;
            Ok((
                with_event(
                    with_task(v, id, with_status(v.tasks[id], TaskStatus::AwaitingCompletion)),
                    Event::CustomerRatingProvided { task_id: id, rating },
                ),
                DirectoryView { users: d.users.insert(o, rated_as_publisher(user_or_default(d.users, o), rating)), ..d },
            ))
        },
    }
}

/// Averaging a worker rating into the stored profile of the worker of
/// task `id` stays within `u32`.
pub open spec fn worker_rating_fits(v: BoardView, d: DirectoryView, id: TaskId, rating: u8) -> bool {
    let u = user_or_default(d.users, v.tasks[id].worker.unwrap());
    average_fits(u.total_work_as_worker, u.rating_as_worker, rating, u.rating_as_publisher)
}

/// Averaging a publisher rating into the stored profile of the owner of
/// task `id` stays within `u32`.
pub open spec fn publisher_rating_fits(v: BoardView, d: DirectoryView, id: TaskId, rating: u8) -> bool {
    let u = user_or_default(d.users, v.tasks[id].owner);
    average_fits(u.total_work_as_publisher, u.rating_as_publisher, rating, u.rating_as_worker)
}


/// `u2` is `u` after one more rating `r` on one side: that side's count
/// grows by one, its rating becomes `r` (scaled by a thousand) when it had
/// none and else the mean of the earlier ratings and `r`, rounded down.
pub open spec fn one_more_rating(count: u32, rating: Option<u32>, count2: u32, rating2: Option<u32>, r: u8) -> bool {
    &&& count2 == count + 1
    &&& rating is None ==> rating2 == Some((r * user::RATING_SCALE) as u32)
    &&& rating matches Some(x) ==> (rating2 matches Some(y)
        && y * (count + 1) <= count * x + r * user::RATING_SCALE < (y + 1) * (count + 1))
}

/// The profile `u2` is `u` rated once more on one side (worker when
/// `as_worker`, else publisher); name, contact, tags and the other side
/// are kept, and the overall rating combines the two sides.
pub open spec fn rated_once_more(u: user::UserView, u2: user::UserView, r: u8, as_worker: bool) -> bool {
    &&& u2.name == u.name
    &&& u2.email == u.email
    &&& u2.phone_number == u.phone_number
    &&& u2.tags == u.tags
    &&& if as_worker {
        &&& one_more_rating(u.total_work_as_worker, u.rating_as_worker, u2.total_work_as_worker, u2.rating_as_worker, r)
        &&& u2.total_work_as_publisher == u.total_work_as_publisher
        &&& u2.rating_as_publisher == u.rating_as_publisher
    } else {
        &&& one_more_rating(u.total_work_as_publisher, u.rating_as_publisher, u2.total_work_as_publisher, u2.rating_as_publisher, r)
        &&& u2.total_work_as_worker == u.total_work_as_worker
        &&& u2.rating_as_worker == u.rating_as_worker
    }
    &&& u2.overall_rating == match (u2.rating_as_worker, u2.rating_as_publisher) {
        (Some(w), Some(p)) => Some(((w + p) / 2) as u32),
        (Some(w), None) => Some(w),
        (None, Some(p)) => Some(p),
        (None, None) => None,
    }
}

/// Only account `a`'s profile differs between `d` and `d2`, and it is
/// stored in `d2`.
pub open spec fn only_profile_changed(d: DirectoryView, d2: DirectoryView, a: AccountId) -> bool {
    &&& d2.users.contains_key(a)
    &&& forall|o: AccountId| o != a ==> (#[trigger] d2.users.contains_key(o) <==> d.users.contains_key(o))
    &&& forall|o: AccountId| o != a && #[trigger] d.users.contains_key(o) ==> d2.users[o] == d.users[o]
    &&& d2.tags == d.tags
    &&& d2.events == d.events
}

/// Approving work rates the worker on top of the profile stored for it:
/// the worker's stored profile changes only by one more worker rating
/// (name, contact, tags and earlier ratings kept, the count of work grown
/// by one), and no other profile changes. Rating the customer likewise adds
/// one publisher rating to the owner's stored profile.
pub proof fn lemma_ratings_build_on_stored_profiles(v: BoardView, d: DirectoryView, who: AccountId, id: TaskId, rating: u8)
    ensures
        worker_rating_fits(v, d, id, rating) ==> (approve_work_outcome(v, d, who, id, rating) matches Ok((_, d2)) ==> {
            let w = v.tasks[id].worker.unwrap();
            &&& only_profile_changed(d, d2, w)
            &&& rated_once_more(user_or_default(d.users, w), d2.users[w], rating, true)
        }),
        publisher_rating_fits(v, d, id, rating) ==> (customer_rating_outcome(v, d, who, id, rating) matches Ok((_, d2)) ==> {
            let o = v.tasks[id].owner;
            &&& only_profile_changed(d, d2, o)
            &&& rated_once_more(user_or_default(d.users, o), d2.users[o], rating, false)
        }),
{
    let w = v.tasks[id].worker.unwrap();
    let u = user_or_default(d.users, w);
    if worker_rating_fits(v, d, id, rating) {
        if let Some(x) = u.rating_as_worker {
            let t = u.total_work_as_worker as int;
            let num = t * x + rating * 1000;
            let y = num / (t + 1);
            assert(y * (t + 1) <= num < (y + 1) * (t + 1)) by (nonlinear_arith)
                requires y == num / (t + 1), t >= 0, num >= 0;
        }
    }
    let o = v.tasks[id].owner;
    let u = user_or_default(d.users, o);
    if publisher_rating_fits(v, d, id, rating) {
        if let Some(x) = u.rating_as_publisher {
            let t = u.total_work_as_publisher as int;
            let num = t * x + rating * 1000;
            let y = num / (t + 1);
            assert(y * (t + 1) <= num < (y + 1) * (t + 1)) by (nonlinear_arith)
                requires y == num / (t + 1), t >= 0, num >= 0;
        }
    }
}

/// A task that a worker has taken on has its worker recorded.
pub open spec fn task_wf(t: TaskView) -> bool {
    (t.status != TaskStatus::Open && t.status != TaskStatus::AwaitingBidderResponse) ==> t.worker is Some
}

impl BoardView {
    /// Every task has an id that was handed out and has its worker recorded
    /// once taken on; an accepted proposal waits on a task that awaits the
    /// bidder's answer.
    pub open spec fn wf(self) -> bool {
        &&& forall|id: TaskId| #[trigger] self.tasks.contains_key(id) ==> 1 <= id <= self.task_number && task_wf(self.tasks[id])
        &&& forall|id: TaskId| #[trigger] self.accepted.contains_key(id) ==> self.tasks.contains_key(id) && self.tasks[id].status == TaskStatus::AwaitingBidderResponse
    }
}


/// The steps a task's status may take: a proposal is accepted, declined or
/// taken on; work is handed in, sent back or approved; the customer is
/// rated; the task is completed.
pub open spec fn status_step(a: TaskStatus, b: TaskStatus) -> bool {
    match (a, b) {
        (TaskStatus::Open, TaskStatus::AwaitingBidderResponse) => true,
        (TaskStatus::AwaitingBidderResponse, TaskStatus::Open) => true,
        (TaskStatus::AwaitingBidderResponse, TaskStatus::InProgress) => true,
        (TaskStatus::InProgress, TaskStatus::PendingApproval) => true,
        (TaskStatus::InRevision, TaskStatus::PendingApproval) => true,
        (TaskStatus::PendingApproval, TaskStatus::InRevision) => true,
        (TaskStatus::PendingApproval, TaskStatus::CustomerRatingPending) => true,
        (TaskStatus::CustomerRatingPending, TaskStatus::AwaitingCompletion) => true,
        (TaskStatus::AwaitingCompletion, TaskStatus::Completed) => true,
        _ => a == b,
    }
}

/// From `v` to `v2` no task disappears, each task keeps its owner, cost
/// and description and moves its status by at most one step, and each new
/// task is open.
pub open spec fn follows_lifecycle(v: BoardView, v2: BoardView) -> bool {
    &&& forall|id: TaskId| #[trigger] v.tasks.contains_key(id) ==> v2.tasks.contains_key(id)
    &&& forall|id: TaskId| #[trigger] v2.tasks.contains_key(id) ==> if v.tasks.contains_key(id) {
        &&& status_step(v.tasks[id].status, v2.tasks[id].status)
        &&& v2.tasks[id].owner == v.tasks[id].owner
        &&& v2.tasks[id].cost == v.tasks[id].cost
        &&& v2.tasks[id].metadata == v.tasks[id].metadata
    } else {
        v2.tasks[id].status == TaskStatus::Open
    }
}

/// Every operation of the task board that succeeds moves the tasks along
/// their lifecycle: a task is never lost, never changes hands or price, and
/// its status only takes the permitted steps.
pub proof fn lemma_operations_follow_lifecycle(
    v: BoardView,
    d: DirectoryView,
    l: Map<Holder, Balance>,
    who: AccountId,
    id: TaskId,
    bidder: AccountId,
    metadata: Seq<u8>,
    cost: Balance,
    deadline: u8,
    rating: u8,
    attachments: Seq<u8>,
)
    requires
        v.wf(),
    ensures
        v.task_number < u128::MAX ==> (create_task_outcome(v, l, who, metadata, cost, deadline) matches Ok((v2, _)) ==> follows_lifecycle(v, v2)),
        propose_outcome(v, who, id) matches Ok(v2) ==> follows_lifecycle(v, v2),
        accept_proposal_outcome(v, who, id, bidder) matches Ok(v2) ==> follows_lifecycle(v, v2),
        reject_proposal_outcome(v, who, id, bidder) matches Ok(v2) ==> follows_lifecycle(v, v2),
        retract_outcome(v, who, id) matches Ok(v2) ==> follows_lifecycle(v, v2),
        reject_work_outcome(v, who, id) matches Ok(v2) ==> follows_lifecycle(v, v2),
        accept_work_outcome(v, l, who, id) matches Ok((v2, _)) ==> follows_lifecycle(v, v2),
        complete_work_outcome(v, who, id, attachments) matches Ok(v2) ==> follows_lifecycle(v, v2),
        approve_work_outcome(v, d, who, id, rating) matches Ok((v2, _)) ==> follows_lifecycle(v, v2),
        disapprove_outcome(v, who, id) matches Ok(v2) ==> follows_lifecycle(v, v2),
        customer_rating_outcome(v, d, who, id, rating) matches Ok((v2, _)) ==> follows_lifecycle(v, v2),
        complete_task_outcome(v, l, who, id) matches Ok((v2, _)) ==> follows_lifecycle(v, v2),
{
    if v.task_number < u128::MAX {
        let fresh = (v.task_number + 1) as TaskId;
        assert(!v.tasks.contains_key(fresh));
    }
}

/// The state of the task board.
pub struct Pallet {
    task_number: TaskId,
    tasks: Table<TaskId, Task>,
    proposals: Table<TaskId, AccountSet>,
    accepted: Table<TaskId, AccountId>,
    events: Vec<Event>,
    block_number: BlockNumber,
    bid_amount: Balance,
}

impl View for Pallet {
    type V = BoardView;

    closed spec fn view(&self) -> BoardView {
        BoardView {
            task_number: self.task_number,
            tasks: self.tasks@.map_values(|t: Task| t@),
            proposals: self.proposals@.map_values(|s: AccountSet| s@),
            accepted: self.accepted@,
            events: self.events@,
            block_number: self.block_number,
            bid_amount: self.bid_amount,
        }
    }
}

impl Pallet {
    pub open spec fn wf(&self) -> bool {
        self@.wf()
    }

    /// An empty board at block `block_number`, with the given bid amount.
    pub fn new(block_number: BlockNumber, bid_amount: Balance) -> (b: Self)
        ensures
            b.wf(),
            b@ == (BoardView {
                task_number: 0,
                tasks: Map::empty(),
                proposals: Map::empty(),
                accepted: Map::empty(),
                events: Seq::empty(),
                block_number,
                bid_amount,
            }),
    {
        let b = Pallet {
            task_number: 0,
            tasks: Table::new(),
            proposals: Table::new(),
            accepted: Table::new(),
            events: Vec::new(),
            block_number,
            bid_amount,
        };
        assert(b@.tasks =~= Map::<TaskId, TaskView>::empty());
        assert(b@.proposals =~= Map::<TaskId, Set<AccountId>>::empty());
        b
    }

    /// Moves the board to a later block.
    pub fn set_block_number(&mut self, block_number: BlockNumber)
        requires
            old(self).wf(),
        ensures
            final(self).wf(),
            final(self)@ == (BoardView { block_number, ..old(self)@ }),
    {
        self.block_number = block_number;
    }

    /// The current block.
    pub fn get_current_block_number(&self) -> (b: BlockNumber)
        ensures
            b == self@.block_number,
    {
        self.block_number
    }

    /// What a bidder stakes when taking a task on.
    pub fn get_bid_amount(&self) -> (a: Balance)
        ensures
            a == self@.bid_amount,
    {
        self.bid_amount
    }

    /// The escrow account of task `id`.
    pub fn escrow_account_id(id: TaskId) -> (h: Holder)
        ensures
            h == task_escrow(id),
    {
        Holder::TaskEscrow(id)
    }

    /// The id of the last task posted.
    pub fn task_id(&self) -> (n: TaskId)
        ensures
            n == self@.task_number,
    {
        self.task_number
    }

    /// Task `id`, if there is one.
    pub fn tasks(&self, id: TaskId) -> (t: Option<&Task>)
        ensures
            match t {
                Some(t) => self@.tasks.contains_key(id) && t@ == self@.tasks[id],
                None => !self@.tasks.contains_key(id),
            },
    {
        self.tasks.get(&id)
    }

    /// The events reported so far, oldest first.
    pub fn events(&self) -> (e: &[Event])
        ensures
            e@ == self@.events,
    {
        self.events.as_slice()
    }

    fn put_task(&mut self, id: TaskId, t: Task)
        ensures
            final(self)@ == with_task(old(self)@, id, t@),
    {
        let ghost before = self.tasks@;
        let ghost tv = t@;
        self.tasks.insert(id, t);
        proof {
            assert(self.tasks@.map_values(|t: Task| t@) =~= before.map_values(|t: Task| t@).insert(id, tv));
        }
    }

    fn take_task(&mut self, id: TaskId) -> (t: Task)
        requires
            old(self)@.tasks.contains_key(id),
        ensures
            t@ == old(self)@.tasks[id],
            final(self)@ == (BoardView { tasks: old(self)@.tasks.remove(id), ..old(self)@ }),
    {
        let ghost before = self.tasks@;
        assert(before.map_values(|t: Task| t@).contains_key(id));
        let t = self.tasks.remove(&id).unwrap();
        proof {
            assert(self.tasks@.map_values(|t: Task| t@) =~= before.map_values(|t: Task| t@).remove(id));
        }
        t
    }

    fn put_proposals(&mut self, id: TaskId, s: AccountSet)
        ensures
            final(self)@ == (BoardView { proposals: old(self)@.proposals.insert(id, s@), ..old(self)@ }),
    {
        let ghost before = self.proposals@;
        let ghost sv = s@;
        self.proposals.insert(id, s);
        proof {
            assert(self.proposals@.map_values(|s: AccountSet| s@) =~= before.map_values(|s: AccountSet| s@).insert(id, sv));
        }
    }

    fn take_proposals(&mut self, id: TaskId) -> (s: AccountSet)
        ensures
            s@ == proposals_of(old(self)@, id),
            final(self)@ == (BoardView { proposals: old(self)@.proposals.remove(id), ..old(self)@ }),
    {
        let ghost before = self.proposals@;
        let r = self.proposals.remove(&id);
        proof {
            assert(self.proposals@.map_values(|s: AccountSet| s@) =~= before.map_values(|s: AccountSet| s@).remove(id));
        }
        match r {
            Some(s) => s,
            None => AccountSet::new(),
        }
    }
}


/// The result that an operation signed by `origin` has: a refusal when
/// nobody signed it, else what `outcome` gives for the signer.
pub open spec fn by_origin<T>(origin: Origin, outcome: spec_fn(AccountId) -> Result<T, DispatchError<Error>>) -> Result<T, DispatchError<Error>> {
    match origin {
        Origin::Signed(a) => outcome(a),
        _ => Err(DispatchError::BadOrigin),
    }
}

impl Pallet {
    fn proposals_contain(&self, id: TaskId, who: AccountId) -> (b: bool)
        ensures
            b == proposals_of(self@, id).contains(who),
    {
        match self.proposals.get(&id) {
            Some(s) => {
                assert(self@.proposals.contains_key(id) && self@.proposals[id] == s@);
                s.contains(&who)
            },
            None => false,
        }
    }

    fn accepted_is(&self, id: TaskId, who: AccountId) -> (b: bool)
        ensures
            b == (self@.accepted.contains_key(id) && self@.accepted[id] == who),
    {
        match self.accepted.get(&id) {
            Some(a) => *a == who,
            None => false,
        }
    }

    /// Posts a task with the given metadata, cost and deadline in days; its
    /// cost moves from `who` into the task's escrow.
    pub fn do_create_task(&mut self, ledger: &mut Ledger, who: AccountId, metadata: Vec<u8>, cost: Balance, deadline: u8) -> (r: TaskResult)
        requires
            old(self).wf(),
            old(self)@.task_number < u128::MAX,
        ensures
            final(self).wf(),
            final(ledger).total() == old(ledger).total(),
            match create_task_outcome(old(self)@, old(ledger)@, who, metadata@, cost, deadline) {
                Ok((v, l)) => r is Ok && final(self)@ == v && final(ledger)@ == l,
                Err(e) => r == Err::<(), DispatchError<Error>>(e) && final(self)@ == old(self)@ && final(ledger)@ == old(ledger)@,
            },
    {
        let task_id = self.task_number + 1;
        let created_at = self.get_current_block_number();
        let task = Task::new(who, metadata, cost, TagSet::new(), created_at, deadline);
        let escrow = Self::escrow_account_id(task_id);
        match ledger.transfer(Holder::Account(who), escrow, task.get_cost(), ExistenceRequirement::KeepAlive) {
            Ok(()) => {},
            Err(e) => return Err(DispatchError::Currency(e)),
        }
        self.put_task(task_id, task);
        self.task_number = task_id;
        self.events.push(Event::TaskCreated { task_id, owner: who });
        proof {
            let v = create_task_outcome(old(self)@, old(ledger)@, who, metadata@, cost, deadline).unwrap().0;
            assert(self@ =~= v);
        }
        Ok(())
    }

    /// `who` proposes to do task `task_id`.
    pub fn do_propose(&mut self, who: AccountId, task_id: TaskId) -> (r: TaskResult)
        requires
            old(self).wf(),
        ensures
            final(self).wf(),
            match propose_outcome(old(self)@, who, task_id) {
                Ok(v) => r is Ok && final(self)@ == v,
                Err(e) => r == Err::<(), DispatchError<Error>>(e) && final(self)@ == old(self)@,
            },
    {
        match self.tasks(task_id) {
            None => return Err(DispatchError::Module(Error::TaskDoesNotExist)),
            Some(task) => {
                if *task.get_status() != TaskStatus::Open {
                    return Err(DispatchError::Module(Error::NotAllowed));
                }
                if task.check_ownership(&who) {
                    return Err(DispatchError::Module(Error::OwnerCannotBid));
                }
            },
        }
        if self.proposals_contain(task_id, who) {
            return Err(DispatchError::Module(Error::BidAlreadyPlaced));
        }
        let mut proposal_list = self.take_proposals(task_id);
        proposal_list.insert(who);
        self.put_proposals(task_id, proposal_list);
        self.events.push(Event::BidPlaced { task_id, bidder: who });
        proof {
            let v = propose_outcome(old(self)@, who, task_id).unwrap();
            assert(self@.proposals =~= v.proposals);
            assert(self@ =~= v);
        }
        Ok(())
    }
}


impl Pallet {
    /// The owner `who` accepts the proposal of `bidder` for task `task_id`.
    pub fn do_accept_proposal(&mut self, who: AccountId, task_id: TaskId, bidder: AccountId) -> (r: TaskResult)
        requires
            old(self).wf(),
        ensures
            final(self).wf(),
            match accept_proposal_outcome(old(self)@, who, task_id, bidder) {
                Ok(v) => r is Ok && final(self)@ == v,
                Err(e) => r == Err::<(), DispatchError<Error>>(e) && final(self)@ == old(self)@,
            },
    {
        match self.tasks(task_id) {
            None => return Err(DispatchError::Module(Error::TaskDoesNotExist)),
            Some(task) => {
                if !task.check_ownership(&who) {
                    return Err(DispatchError::Module(Error::NoPermission));
                }
                if *task.get_status() != TaskStatus::Open {
                    return Err(DispatchError::Module(Error::NotAllowed));
                }
            },
        }
        if !self.proposals_contain(task_id, bidder) {
            return Err(DispatchError::Module(Error::BidDoesNotExist));
        }
        let mut proposal_list = self.take_proposals(task_id);
        proposal_list.remove(&bidder);
        self.accepted.insert(task_id, bidder);
        let mut task = self.take_task(task_id);
        task.update_status(TaskStatus::AwaitingBidderResponse);
        self.put_task(task_id, task);
        self.put_proposals(task_id, proposal_list);
        self.events.push(Event::BidAccepted { task_id, bidder });
        proof {
            let v = accept_proposal_outcome(old(self)@, who, task_id, bidder).unwrap();
            assert(self@.tasks =~= v.tasks);
            assert(self@.proposals =~= v.proposals);
            assert(self@ =~= v);
            assert forall|id: TaskId| #[trigger] self@.tasks.contains_key(id) implies task_wf(self@.tasks[id]) by {
                if id != task_id {
                    assert(old(self)@.tasks.contains_key(id));
                }
            }
        }
        Ok(())
    }

    /// The owner `who` rejects the proposal of `bidder` for task `task_id`:
    /// the accepted one, which reopens the task, or one still pending.
    pub fn do_reject_proposal(&mut self, who: AccountId, task_id: TaskId, bidder: AccountId) -> (r: TaskResult)
        requires
            old(self).wf(),
        ensures
            final(self).wf(),
            match reject_proposal_outcome(old(self)@, who, task_id, bidder) {
                Ok(v) => r is Ok && final(self)@ == v,
                Err(e) => r == Err::<(), DispatchError<Error>>(e) && final(self)@ == old(self)@,
            },
    {
        match self.tasks(task_id) {
            None => return Err(DispatchError::Module(Error::TaskDoesNotExist)),
            Some(task) => {
                if !task.check_ownership(&who) {
                    return Err(DispatchError::Module(Error::NoPermission));
                }
                if !(*task.get_status() == TaskStatus::Open || *task.get_status() == TaskStatus::AwaitingBidderResponse) {
                    return Err(DispatchError::Module(Error::NotAllowed));
                }
            },
        }
        if self.accepted_is(task_id, bidder) {
            let mut task = self.take_task(task_id);
            task.update_status(TaskStatus::Open);
            self.accepted.remove(&task_id);
            self.put_task(task_id, task);
        } else {
            if !self.proposals_contain(task_id, bidder) {
                return Err(DispatchError::Module(Error::BidDoesNotExist));
            }
            let mut proposal_list = self.take_proposals(task_id);
            proposal_list.remove(&bidder);
            self.put_proposals(task_id, proposal_list);
        }
        self.events.push(Event::BidRejected { task_id, bidder });
        proof {
            let v = reject_proposal_outcome(old(self)@, who, task_id, bidder).unwrap();
            assert(self@.tasks =~= v.tasks);
            assert(self@.proposals =~= v.proposals);
            assert(self@.accepted =~= v.accepted);
            assert(self@ =~= v);
            assert forall|id: TaskId| #[trigger] self@.tasks.contains_key(id) implies task_wf(self@.tasks[id]) by {
                if id != task_id {
                    assert(old(self)@.tasks.contains_key(id));
                }
            }
        }
        Ok(())
    }

    /// `who` retracts the proposal for task `task_id`.
    pub fn retract_proposal(&mut self, who: AccountId, task_id: TaskId) -> (r: TaskResult)
        requires
            old(self).wf(),
        ensures
            final(self).wf(),
            match retract_outcome(old(self)@, who, task_id) {
                Ok(v) => r is Ok && final(self)@ == v,
                Err(e) => r == Err::<(), DispatchError<Error>>(e) && final(self)@ == old(self)@,
            },
    {
        if self.tasks(task_id).is_none() {
            return Err(DispatchError::Module(Error::TaskDoesNotExist));
        }
        if !self.proposals_contain(task_id, who) {
            return Err(DispatchError::Module(Error::BidDoesNotExist));
        }
        let mut proposal_list = self.take_proposals(task_id);
        proposal_list.remove(&who);
        self.put_proposals(task_id, proposal_list);
        self.events.push(Event::BidRemoved { task_id, bidder: who });
        proof {
            let v = retract_outcome(old(self)@, who, task_id).unwrap();
            assert(self@.proposals =~= v.proposals);
            assert(self@ =~= v);
        }
        Ok(())
    }

    /// The accepted bidder `who` declines the work of task `task_id`.
    pub fn do_reject_work(&mut self, who: AccountId, task_id: TaskId) -> (r: TaskResult)
        requires
            old(self).wf(),
        ensures
            final(self).wf(),
            match reject_work_outcome(old(self)@, who, task_id) {
                Ok(v) => r is Ok && final(self)@ == v,
                Err(e) => r == Err::<(), DispatchError<Error>>(e) && final(self)@ == old(self)@,
            },
    {
        if !self.accepted_is(task_id, who) {
            return Err(DispatchError::Module(Error::NotAllowed));
        }
        if self.tasks(task_id).is_none() {
            return Err(DispatchError::Module(Error::TaskDoesNotExist));
        }
        let mut task = self.take_task(task_id);
        task.update_status(TaskStatus::Open);
        self.accepted.remove(&task_id);
        self.put_task(task_id, task);
        self.events.push(Event::WorkRejected { task_id, bidder: who });
        proof {
            let v = reject_work_outcome(old(self)@, who, task_id).unwrap();
            assert(self@.tasks =~= v.tasks);
            assert(self@.accepted =~= v.accepted);
            assert(self@ =~= v);
            assert forall|id: TaskId| #[trigger] self@.tasks.contains_key(id) implies task_wf(self@.tasks[id]) by {
                if id != task_id {
                    assert(old(self)@.tasks.contains_key(id));
                }
            }
        }
        Ok(())
    }

    /// The block by which work taken on now must be done, for a deadline
    /// in days.
    fn completion_block(&self, deadline: u8) -> (b: BlockNumber)
        requires
            self@.block_number + deadline * DAYS <= u32::MAX,
        ensures
            b == self@.block_number + deadline * DAYS,
    {
        assert(deadline * DAYS <= 255 * 14400) by (nonlinear_arith)
            requires deadline <= 255;
        self.get_current_block_number() + deadline as u32 * DAYS
    }

    /// The accepted bidder `who` takes the work of task `task_id` on and
    /// stakes the bid amount into the task's escrow; the other proposals
    /// are dropped.
    pub fn do_accept_work(&mut self, ledger: &mut Ledger, who: AccountId, task_id: TaskId) -> (r: TaskResult)
        requires
            old(self).wf(),
            old(self)@.accepted.contains_key(task_id) && old(self)@.accepted[task_id] == who
                ==> old(self)@.block_number + old(self)@.tasks[task_id].deadline * DAYS <= u32::MAX,
        ensures
            final(self).wf(),
            final(ledger).total() == old(ledger).total(),
            match accept_work_outcome(old(self)@, old(ledger)@, who, task_id) {
                Ok((v, l)) => r is Ok && final(self)@ == v && final(ledger)@ == l,
                Err(e) => r == Err::<(), DispatchError<Error>>(e) && final(self)@ == old(self)@ && final(ledger)@ == old(ledger)@,
            },
    {
        if !self.accepted_is(task_id, who) {
            return Err(DispatchError::Module(Error::NotAllowed));
        }
        let deadline = match self.tasks(task_id) {
            None => return Err(DispatchError::Module(Error::TaskDoesNotExist)),
            Some(task) => task.get_deadline(),
        };
        let completion = self.completion_block(deadline);
        let escrow = Self::escrow_account_id(task_id);
        match ledger.transfer(Holder::Account(who), escrow, self.get_bid_amount(), ExistenceRequirement::KeepAlive) {
            Ok(()) => {},
            Err(e) => return Err(DispatchError::Currency(e)),
        }
        let mut task = self.take_task(task_id);
        task.update_status(TaskStatus::InProgress);
        task.add_worker(who);
        task.extend_completion(Some(completion));
        self.accepted.remove(&task_id);
        self.put_task(task_id, task);
        self.reject_all_proposals(task_id);
        self.events.push(Event::WorkAccepted { task_id, bidder: who });
        proof {
            let v = accept_work_outcome(old(self)@, old(ledger)@, who, task_id).unwrap().0;
            assert(self@.tasks =~= v.tasks);
            assert(self@.accepted =~= v.accepted);
            assert(self@.proposals =~= v.proposals);
            assert(self@ =~= v);
            assert forall|id: TaskId| #[trigger] self@.tasks.contains_key(id) implies task_wf(self@.tasks[id]) by {
                if id != task_id {
                    assert(old(self)@.tasks.contains_key(id));
                }
            }
        }
        Ok(())
    }

    /// Drops every proposal for task `task_id`.
    pub fn reject_all_proposals(&mut self, task_id: TaskId)
        requires
            old(self).wf(),
        ensures
            final(self).wf(),
            final(self)@ == (BoardView { proposals: old(self)@.proposals.insert(task_id, Set::empty()), ..old(self)@ }),
    {
        let mut proposal_list = self.take_proposals(task_id);
        proposal_list.clear();
        self.put_proposals(task_id, proposal_list);
        proof {
            assert(self@.proposals =~= old(self)@.proposals.insert(task_id, Set::empty()));
        }
    }

    /// The worker `who` hands in the work of task `task_id` with its
    /// attachments.
    pub fn do_complete_work(&mut self, who: AccountId, task_id: TaskId, worker_attachments: Vec<u8>) -> (r: TaskResult)
        requires
            old(self).wf(),
        ensures
            final(self).wf(),
            match complete_work_outcome(old(self)@, who, task_id, worker_attachments@) {
                Ok(v) => r is Ok && final(self)@ == v,
                Err(e) => r == Err::<(), DispatchError<Error>>(e) && final(self)@ == old(self)@,
            },
    {
        match self.tasks(task_id) {
            None => return Err(DispatchError::Module(Error::TaskDoesNotExist)),
            Some(task) => {
                if *task.get_worker_details() != Some(who) {
                    return Err(DispatchError::Module(Error::NotWorker));
                }
                if !(*task.get_status() == TaskStatus::InProgress || *task.get_status() == TaskStatus::InRevision) {
                    return Err(DispatchError::Module(Error::NotAllowed));
                }
            },
        }
        let ghost attachments = worker_attachments@;
        let mut task = self.take_task(task_id);
        task.update_status(TaskStatus::PendingApproval);
        task.add_worker_attachments(worker_attachments);
        self.put_task(task_id, task);
        self.events.push(Event::WorkCompleted { task_id, worker: who });
        proof {
            let v = complete_work_outcome(old(self)@, who, task_id, attachments).unwrap();
            assert(self@.tasks =~= v.tasks);
            assert(self@ =~= v);
            assert forall|id: TaskId| #[trigger] self@.tasks.contains_key(id) implies task_wf(self@.tasks[id]) by {
                if id != task_id {
                    assert(old(self)@.tasks.contains_key(id));
                }
            }
        }
        Ok(())
    }
}


impl Pallet {
    /// The owner `who` approves the work handed in for task `task_id` and
    /// rates the worker.
    pub fn do_approve_work(&mut self, users: &mut user::Pallet, who: AccountId, task_id: TaskId, worker_ratings: u8) -> (r: TaskResult)
        requires
            old(self).wf(),
            approve_work_error(old(self)@, who, task_id, worker_ratings) is None ==> worker_rating_fits(old(self)@, old(users)@, task_id, worker_ratings),
        ensures
            final(self).wf(),
            match approve_work_outcome(old(self)@, old(users)@, who, task_id, worker_ratings) {
                Ok((v, d)) => r is Ok && final(self)@ == v && final(users)@ == d,
                Err(e) => r == Err::<(), DispatchError<Error>>(e) && final(self)@ == old(self)@ && final(users)@ == old(users)@,
            },
    {
        let worker_address = match self.tasks(task_id) {
            None => return Err(DispatchError::Module(Error::TaskDoesNotExist)),
            Some(task) => {
                if !task.check_ownership(&who) {
                    return Err(DispatchError::Module(Error::NoPermission));
                }
                if *task.get_status() != TaskStatus::PendingApproval {
                    return Err(DispatchError::Module(Error::NotAllowed));
                }
                if !(worker_ratings >= 1 && worker_ratings <= 5) {
                    return Err(DispatchError::Module(Error::InvalidRatingInput));
                }
                proof {
                    assert(old(self)@.tasks.contains_key(task_id));
                    assert(task_wf(old(self)@.tasks[task_id]));
                }
                task.get_worker_details().unwrap()
            },
        };
        let mut worker = users.get_user_from_storage(worker_address);
        worker.update_worker_rating(worker_ratings);
        users.save_user_to_storage(worker_address, worker);
        let mut task = self.take_task(task_id);
        task.update_status(TaskStatus::CustomerRatingPending);
        self.put_task(task_id, task);
        self.events.push(Event::TaskApproved { task_id, rating: worker_ratings });
        proof {
            let (v, d) = approve_work_outcome(old(self)@, old(users)@, who, task_id, worker_ratings).unwrap();
            assert(self@.tasks =~= v.tasks);
            assert(self@ =~= v);
            assert(users@ =~= d);
            assert forall|id: TaskId| #[trigger] self@.tasks.contains_key(id) implies task_wf(self@.tasks[id]) by {
                if id != task_id {
                    assert(old(self)@.tasks.contains_key(id));
                }
            }
        }
        Ok(())
    }

    /// The owner `who` sends the work handed in for task `task_id` back
    /// for revision.
    pub fn do_disapprove_work(&mut self, who: AccountId, task_id: TaskId) -> (r: TaskResult)
        requires
            old(self).wf(),
            disapprove_outcome(old(self)@, who, task_id) is Ok ==> old(self)@.tasks[task_id].revisions < u8::MAX,
        ensures
            final(self).wf(),
            match disapprove_outcome(old(self)@, who, task_id) {
                Ok(v) => r is Ok && final(self)@ == v,
                Err(e) => r == Err::<(), DispatchError<Error>>(e) && final(self)@ == old(self)@,
            },
    {
        match self.tasks(task_id) {
            None => return Err(DispatchError::Module(Error::TaskDoesNotExist)),
            Some(task) => {
                if !task.check_ownership(&who) {
                    return Err(DispatchError::Module(Error::NoPermission));
                }
                if *task.get_status() != TaskStatus::PendingApproval {
                    return Err(DispatchError::Module(Error::NotAllowed));
                }
            },
        }
        let mut task = self.take_task(task_id);
        task.increment_revisions();
        task.update_status(TaskStatus::InRevision);
        self.put_task(task_id, task);
        self.events.push(Event::TaskDisapproved { task_id });
        proof {
            let v = disapprove_outcome(old(self)@, who, task_id).unwrap();
            assert(self@.tasks =~= v.tasks);
            assert(self@ =~= v);
            assert forall|id: TaskId| #[trigger] self@.tasks.contains_key(id) implies task_wf(self@.tasks[id]) by {
                if id != task_id {
                    assert(old(self)@.tasks.contains_key(id));
                }
            }
        }
        Ok(())
    }

    /// The worker `who` of task `task_id` rates its customer.
    pub fn do_provide_customer_rating(&mut self, users: &mut user::Pallet, who: AccountId, task_id: TaskId, customer_rating: u8) -> (r: TaskResult)
        requires
            old(self).wf(),
            customer_rating_error(old(self)@, who, task_id, customer_rating) is None ==> publisher_rating_fits(old(self)@, old(users)@, task_id, customer_rating),
        ensures
            final(self).wf(),
            match customer_rating_outcome(old(self)@, old(users)@, who, task_id, customer_rating) {
                Ok((v, d)) => r is Ok && final(self)@ == v && final(users)@ == d,
                Err(e) => r == Err::<(), DispatchError<Error>>(e) && final(self)@ == old(self)@ && final(users)@ == old(users)@,
            },
    {
        let owner_address = match self.tasks(task_id) {
            None => return Err(DispatchError::Module(Error::TaskDoesNotExist)),
            Some(task) => {
                if *task.get_worker_details() != Some(who) {
                    return Err(DispatchError::Module(Error::NoPermission));
                }
                if *task.get_status() != TaskStatus::CustomerRatingPending {
                    return Err(DispatchError::Module(Error::NotAllowed));
                }
                if !(customer_rating >= 1 && customer_rating <= 5) {
                    return Err(DispatchError::Module(Error::InvalidRatingInput));
                }
                *task.get_owner_details()
            },
        };
        let mut owner = users.get_user_from_storage(owner_address);
        owner.update_publisher_rating(customer_rating);
        users.save_user_to_storage(owner_address, owner);
        let mut task = self.take_task(task_id);
        task.update_status(TaskStatus::AwaitingCompletion);
        self.put_task(task_id, task);
        self.events.push(Event::CustomerRatingProvided { task_id, rating: customer_rating });
        proof {
            let (v, d) = customer_rating_outcome(old(self)@, old(users)@, who, task_id, customer_rating).unwrap();
            assert(self@.tasks =~= v.tasks);
            assert(self@ =~= v);
            assert(users@ =~= d);
            assert forall|id: TaskId| #[trigger] self@.tasks.contains_key(id) implies task_wf(self@.tasks[id]) by {
                if id != task_id {
                    assert(old(self)@.tasks.contains_key(id));
                }
            }
        }
        Ok(())
    }

    /// The owner `who` completes task `task_id`: its escrow pays the worker
    /// the cost and the bid amount.
    pub fn do_complete_task(&mut self, ledger: &mut Ledger, who: AccountId, task_id: TaskId) -> (r: TaskResult)
        requires
            old(self).wf(),
            complete_task_error(old(self)@, who, task_id) is None ==> old(self)@.tasks[task_id].cost + old(self)@.bid_amount <= u128::MAX,
        ensures
            final(self).wf(),
            final(ledger).total() == old(ledger).total(),
            match complete_task_outcome(old(self)@, old(ledger)@, who, task_id) {
                Ok((v, l)) => r is Ok && final(self)@ == v && final(ledger)@ == l,
                Err(e) => r == Err::<(), DispatchError<Error>>(e) && final(self)@ == old(self)@ && final(ledger)@ == old(ledger)@,
            },
    {
        let (worker, cost) = match self.tasks(task_id) {
            None => return Err(DispatchError::Module(Error::TaskDoesNotExist)),
            Some(task) => {
                if !task.check_ownership(&who) {
                    return Err(DispatchError::Module(Error::NoPermission));
                }
                if *task.get_status() != TaskStatus::AwaitingCompletion {
                    return Err(DispatchError::Module(Error::NotAllowed));
                }
                proof {
                    assert(old(self)@.tasks.contains_key(task_id));
                    assert(task_wf(old(self)@.tasks[task_id]));
                }
                (task.get_worker_details().unwrap(), task.get_cost())
            },
        };
        let amount = cost + self.get_bid_amount();
        let escrow = Self::escrow_account_id(task_id);
        match ledger.transfer(escrow, Holder::Account(worker), amount, ExistenceRequirement::AllowDeath) {
            Ok(()) => {},
            Err(e) => return Err(DispatchError::Currency(e)),
        }
        let mut task = self.take_task(task_id);
        task.update_status(TaskStatus::Completed);
        self.put_task(task_id, task);
        self.events.push(Event::TaskCompleted { task_id });
        proof {
            let v = complete_task_outcome(old(self)@, old(ledger)@, who, task_id).unwrap().0;
            assert(self@.tasks =~= v.tasks);
            assert(self@ =~= v);
            assert forall|id: TaskId| #[trigger] self@.tasks.contains_key(id) implies task_wf(self@.tasks[id]) by {
                if id != task_id {
                    assert(old(self)@.tasks.contains_key(id));
                }
            }
        }
        Ok(())
    }
}


impl Pallet {
    /// Posts a task signed by `origin`.
    pub fn create_task(&mut self, ledger: &mut Ledger, origin: Origin, metadata: Vec<u8>, cost: Balance, deadline: u8) -> (r: TaskResult)
        requires
            old(self).wf(),
            origin is Signed ==> old(self)@.task_number < u128::MAX,
        ensures
            final(self).wf(),
            final(ledger).total() == old(ledger).total(),
            match by_origin(origin, (|a: AccountId| create_task_outcome(old(self)@, old(ledger)@, a, metadata@, cost, deadline))) {
                Ok((v, l)) => r is Ok && final(self)@ == v && final(ledger)@ == l,
                Err(e) => r == Err::<(), DispatchError<Error>>(e) && final(self)@ == old(self)@ && final(ledger)@ == old(ledger)@,
            },
    {
        let who = match ensure_signed(origin) {
            Ok(a) => a,
            Err(e) => return Err(e),
        };
        self.do_create_task(ledger, who, metadata, cost, deadline)
    }

    /// Proposes, as the signer of `origin`, to do task `task_id`.
    pub fn bid_on_task(&mut self, origin: Origin, task_id: TaskId) -> (r: TaskResult)
        requires
            old(self).wf(),
        ensures
            final(self).wf(),
            match by_origin(origin, (|a: AccountId| propose_outcome(old(self)@, a, task_id))) {
                Ok(v) => r is Ok && final(self)@ == v,
                Err(e) => r == Err::<(), DispatchError<Error>>(e) && final(self)@ == old(self)@,
            },
    {
        let who = match ensure_signed(origin) {
            Ok(a) => a,
            Err(e) => return Err(e),
        };
        self.do_propose(who, task_id)
    }

    /// Retracts the signer's proposal for task `task_id`.
    pub fn undo_bid(&mut self, origin: Origin, task_id: TaskId) -> (r: TaskResult)
        requires
            old(self).wf(),
        ensures
            final(self).wf(),
            match by_origin(origin, (|a: AccountId| retract_outcome(old(self)@, a, task_id))) {
                Ok(v) => r is Ok && final(self)@ == v,
                Err(e) => r == Err::<(), DispatchError<Error>>(e) && final(self)@ == old(self)@,
            },
    {
        let who = match ensure_signed(origin) {
            Ok(a) => a,
            Err(e) => return Err(e),
        };
        self.retract_proposal(who, task_id)
    }

    /// The signer, owner of task `task_id`, accepts the proposal of `bidder`.
    pub fn accept_bid(&mut self, origin: Origin, task_id: TaskId, bidder: AccountId) -> (r: TaskResult)
        requires
            old(self).wf(),
        ensures
            final(self).wf(),
            match by_origin(origin, (|a: AccountId| accept_proposal_outcome(old(self)@, a, task_id, bidder))) {
                Ok(v) => r is Ok && final(self)@ == v,
                Err(e) => r == Err::<(), DispatchError<Error>>(e) && final(self)@ == old(self)@,
            },
    {
        let who = match ensure_signed(origin) {
            Ok(a) => a,
            Err(e) => return Err(e),
        };
        self.do_accept_proposal(who, task_id, bidder)
    }

    /// The signer, owner of task `task_id`, rejects the proposal of `bidder`.
    pub fn reject_bid(&mut self, origin: Origin, task_id: TaskId, bidder: AccountId) -> (r: TaskResult)
        requires
            old(self).wf(),
        ensures
            final(self).wf(),
            match by_origin(origin, (|a: AccountId| reject_proposal_outcome(old(self)@, a, task_id, bidder))) {
                Ok(v) => r is Ok && final(self)@ == v,
                Err(e) => r == Err::<(), DispatchError<Error>>(e) && final(self)@ == old(self)@,
            },
    {
        let who = match ensure_signed(origin) {
            Ok(a) => a,
            Err(e) => return Err(e),
        };
        self.do_reject_proposal(who, task_id, bidder)
    }

    /// The signer, whose proposal was accepted, takes the work on.
    pub fn accept_work(&mut self, ledger: &mut Ledger, origin: Origin, task_id: TaskId) -> (r: TaskResult)
        requires
            old(self).wf(),
            old(self)@.accepted.contains_key(task_id) && origin == Origin::Signed(old(self)@.accepted[task_id])
                ==> old(self)@.block_number + old(self)@.tasks[task_id].deadline * DAYS <= u32::MAX,
        ensures
            final(self).wf(),
            final(ledger).total() == old(ledger).total(),
            match by_origin(origin, (|a: AccountId| accept_work_outcome(old(self)@, old(ledger)@, a, task_id))) {
                Ok((v, l)) => r is Ok && final(self)@ == v && final(ledger)@ == l,
                Err(e) => r == Err::<(), DispatchError<Error>>(e) && final(self)@ == old(self)@ && final(ledger)@ == old(ledger)@,
            },
    {
        let who = match ensure_signed(origin) {
            Ok(a) => a,
            Err(e) => return Err(e),
        };
        self.do_accept_work(ledger, who, task_id)
    }

    /// The signer, whose proposal was accepted, declines the work.
    pub fn reject_work(&mut self, origin: Origin, task_id: TaskId) -> (r: TaskResult)
        requires
            old(self).wf(),
        ensures
            final(self).wf(),
            match by_origin(origin, (|a: AccountId| reject_work_outcome(old(self)@, a, task_id))) {
                Ok(v) => r is Ok && final(self)@ == v,
                Err(e) => r == Err::<(), DispatchError<Error>>(e) && final(self)@ == old(self)@,
            },
    {
        let who = match ensure_signed(origin) {
            Ok(a) => a,
            Err(e) => return Err(e),
        };
        self.do_reject_work(who, task_id)
    }

    /// The signer, worker of task `task_id`, hands the work in.
    pub fn complete_work(&mut self, origin: Origin, task_id: TaskId, worker_attachments: Vec<u8>) -> (r: TaskResult)
        requires
            old(self).wf(),
        ensures
            final(self).wf(),
            match by_origin(origin, (|a: AccountId| complete_work_outcome(old(self)@, a, task_id, worker_attachments@))) {
                Ok(v) => r is Ok && final(self)@ == v,
                Err(e) => r == Err::<(), DispatchError<Error>>(e) && final(self)@ == old(self)@,
            },
    {
        let who = match ensure_signed(origin) {
            Ok(a) => a,
            Err(e) => return Err(e),
        };
        self.do_complete_work(who, task_id, worker_attachments)
    }

    /// The signer, owner of task `task_id`, approves the work and rates the
    /// worker.
    pub fn approve_task(&mut self, users: &mut user::Pallet, origin: Origin, task_id: TaskId, worker_ratings: u8) -> (r: TaskResult)
        requires
            old(self).wf(),
            forall|a: AccountId| origin == Origin::Signed(a) && approve_work_error(old(self)@, a, task_id, worker_ratings) is None ==> worker_rating_fits(old(self)@, old(users)@, task_id, worker_ratings),
        ensures
            final(self).wf(),
            match by_origin(origin, (|a: AccountId| approve_work_outcome(old(self)@, old(users)@, a, task_id, worker_ratings))) {
                Ok((v, d)) => r is Ok && final(self)@ == v && final(users)@ == d,
                Err(e) => r == Err::<(), DispatchError<Error>>(e) && final(self)@ == old(self)@ && final(users)@ == old(users)@,
            },
    {
        let who = match ensure_signed(origin) {
            Ok(a) => a,
            Err(e) => return Err(e),
        };
        self.do_approve_work(users, who, task_id, worker_ratings)
    }

    /// The signer, owner of task `task_id`, sends the work back for revision.
    pub fn disapprove_task(&mut self, origin: Origin, task_id: TaskId) -> (r: TaskResult)
        requires
            old(self).wf(),
            forall|a: AccountId| origin == Origin::Signed(a) && disapprove_outcome(old(self)@, a, task_id) is Ok ==> old(self)@.tasks[task_id].revisions < u8::MAX,
        ensures
            final(self).wf(),
            match by_origin(origin, (|a: AccountId| disapprove_outcome(old(self)@, a, task_id))) {
                Ok(v) => r is Ok && final(self)@ == v,
                Err(e) => r == Err::<(), DispatchError<Error>>(e) && final(self)@ == old(self)@,
            },
    {
        let who = match ensure_signed(origin) {
            Ok(a) => a,
            Err(e) => return Err(e),
        };
        self.do_disapprove_work(who, task_id)
    }

    /// The signer, worker of task `task_id`, rates the customer.
    pub fn provide_customer_rating(&mut self, users: &mut user::Pallet, origin: Origin, task_id: TaskId, customer_rating: u8) -> (r: TaskResult)
        requires
            old(self).wf(),
            forall|a: AccountId| origin == Origin::Signed(a) && customer_rating_error(old(self)@, a, task_id, customer_rating) is None ==> publisher_rating_fits(old(self)@, old(users)@, task_id, customer_rating),
        ensures
            final(self).wf(),
            match by_origin(origin, (|a: AccountId| customer_rating_outcome(old(self)@, old(users)@, a, task_id, customer_rating))) {
                Ok((v, d)) => r is Ok && final(self)@ == v && final(users)@ == d,
                Err(e) => r == Err::<(), DispatchError<Error>>(e) && final(self)@ == old(self)@ && final(users)@ == old(users)@,
            },
    {
        let who = match ensure_signed(origin) {
            Ok(a) => a,
            Err(e) => return Err(e),
        };
        self.do_provide_customer_rating(users, who, task_id, customer_rating)
    }

    /// The signer, owner of task `task_id`, completes it and pays the worker.
    pub fn complete_task(&mut self, ledger: &mut Ledger, origin: Origin, task_id: TaskId) -> (r: TaskResult)
        requires
            old(self).wf(),
            forall|a: AccountId| origin == Origin::Signed(a) && complete_task_error(old(self)@, a, task_id) is None ==> old(self)@.tasks[task_id].cost + old(self)@.bid_amount <= u128::MAX,
        ensures
            final(self).wf(),
            final(ledger).total() == old(ledger).total(),
            match by_origin(origin, (|a: AccountId| complete_task_outcome(old(self)@, old(ledger)@, a, task_id))) {
                Ok((v, l)) => r is Ok && final(self)@ == v && final(ledger)@ == l,
                Err(e) => r == Err::<(), DispatchError<Error>>(e) && final(self)@ == old(self)@ && final(ledger)@ == old(ledger)@,
            },
    {
        let who = match ensure_signed(origin) {
            Ok(a) => a,
            Err(e) => return Err(e),
        };
        self.do_complete_task(ledger, who, task_id)
    }
}

} // verus!
