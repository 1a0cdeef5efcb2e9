//! The project marketplace: a publisher creates a project of up to five
//! milestones and pays their costs into escrow, opens it on the marketplace,
//! workers bid for milestones by staking the cost, the publisher accepts one
//! bid (the others are refunded), the worker completes the milestone, the
//! publisher approves it with a rating for the worker, the worker rates the
//! publisher, and the publisher closes the milestone, which pays the escrow to
//! the worker. Closing a project refunds the milestones still open.

use vstd::prelude::*;
use crate::dispatch::{DispatchError, Origin, ensure_signed};
use crate::ledger::{
    AccountId, Balance, ExistenceRequirement, Holder, Ledger, TransferError, balance_in,
    transfer_result,
};
use crate::milestone_id::{
    MilestoneKey, create_milestone_id, get_milestone_and_project_id, lemma_parse_milestone_id_of,
    milestone_id_of, parsed_milestone_id,
};
use crate::table::Table;
use crate::user::copy_bytes;
use crate::utils::{rounded_average, roundoff};

verus! {

/// Most milestones a project can have.
pub const MAX_MILESTONES: usize = 5;

/// Skill areas of a milestone or a worker.
#[derive(Clone, Copy, PartialEq, Eq, Structural, Debug)]
pub enum TaskTypeTags {
    WebDevelopment,
    MobileDevelopment,
    MachineLearning,
    DeepLearning,
    FullStackDevelopment,
    CoreBlockchainDevelopment,
}

/// Progress of a milestone.
#[derive(Clone, Copy, PartialEq, Eq, Structural, Debug)]
pub enum Status {
    Open,
    InProgress,
    PendingApproval,
    CustomerRatingPending,
    CustomerRatingProvided,
    Completed,
}

impl Default for Status {
    fn default() -> (s: Self)
        ensures
            s == Status::Open,
    {
        Status::Open
    }
}

/// Progress of a project.
#[derive(Clone, Copy, PartialEq, Eq, Structural, Debug)]
pub enum ProjectStatus {
    /// Created, not yet on the marketplace.
    Ready,
    /// On the marketplace.
    Open,
    /// Completed or closed.
    Closed,
}

impl Default for ProjectStatus {
    fn default() -> (s: Self)
        ensures
            s == ProjectStatus::Ready,
    {
        ProjectStatus::Ready
    }
}

/// What a publisher gives for each milestone of a project.
#[derive(Debug)]
pub struct MilestoneHelper {
    pub name: Vec<u8>,
    pub cost: Balance,
    pub tags: Vec<TaskTypeTags>,
    pub deadline: u8,
    pub publisher_attachments: Vec<Vec<u8>>,
}

/// A project of the marketplace.
#[derive(Debug)]
pub struct ProjectDetails {
    pub project_id: u128,
    pub publisher: AccountId,
    pub project_name: Vec<u8>,
    pub tags: Vec<TaskTypeTags>,
    pub publisher_name: Option<Vec<u8>>,
    pub milestones: Option<Vec<Milestone>>,
    pub overall_customer_rating: Option<u8>,
    pub status: ProjectStatus,
}

impl ProjectDetails {
    /// A project without milestones, ready to be put on the marketplace.
    pub fn new(
        project_id: u128,
        project_name: Vec<u8>,
        tags: Vec<TaskTypeTags>,
        publisher: AccountId,
        publisher_name: Vec<u8>,
    ) -> (p: Self)
        ensures
            p == (ProjectDetails {
                project_id,
                publisher,
                project_name,
                tags,
                publisher_name: Some(publisher_name),
                milestones: None,
                overall_customer_rating: None,
                status: ProjectStatus::Ready,
            }),
    {
        ProjectDetails {
            project_id,
            project_name,
            tags,
            publisher,
            publisher_name: Some(publisher_name),
            milestones: None,
            overall_customer_rating: None,
            status: ProjectStatus::default(),
        }
    }
}

/// A milestone of a project.
#[derive(Debug)]
pub struct Milestone {
    pub milestone_id: Vec<u8>,
    pub milestone_name: Vec<u8>,
    pub tags: Vec<TaskTypeTags>,
    pub cost: Balance,
    pub status: Status,
    pub deadline: u8,
    pub worker_id: Option<AccountId>,
    pub worker_name: Option<Vec<u8>>,
    pub publisher_attachments: Option<Vec<Vec<u8>>>,
    pub worker_attachments: Option<Vec<Vec<u8>>>,
    pub final_worker_rating: Option<u8>,
    pub final_customer_rating: Option<u8>,
}

impl Milestone {
    /// An open milestone with no worker.
    pub fn new(
        milestone_id: Vec<u8>,
        milestone_name: Vec<u8>,
        tags: Vec<TaskTypeTags>,
        cost: Balance,
        deadline: u8,
        publisher_attachments: Vec<Vec<u8>>,
    ) -> (m: Self)
        ensures
            m == (Milestone {
                milestone_id,
                milestone_name,
                tags,
                cost,
                status: Status::Open,
                deadline,
                worker_id: None,
                worker_name: None,
                publisher_attachments: Some(publisher_attachments),
                worker_attachments: None,
                final_worker_rating: None,
                final_customer_rating: None,
            }),
    {
        Milestone {
            milestone_id,
            milestone_name,
            tags,
            cost,
            status: Status::default(),
            deadline,
            worker_id: None,
            worker_name: None,
            publisher_attachments: Some(publisher_attachments),
            worker_attachments: None,
            final_worker_rating: None,
            final_customer_rating: None,
        }
    }
}

/// A bid for a milestone; bids are numbered from one in the order they came.
#[derive(Debug)]
pub struct Bid {
    pub bid_number: u32,
    pub bidder_id: AccountId,
    pub bidder_name: Vec<u8>,
    pub account: AccountDetails,
}

impl Bid {
    pub fn new(bid_number: u32, bidder_id: AccountId, bidder_name: Vec<u8>, account: AccountDetails) -> (b: Self)
        ensures
            b == (Bid { bid_number, bidder_id, bidder_name, account }),
    {
        Bid { bid_number, bidder_id, bidder_name, account }
    }
}

/// The side a user takes in a task.
#[derive(Clone, Copy, PartialEq, Eq, Structural, Debug)]
pub enum UserType {
    Customer,
    Worker,
}

impl Default for UserType {
    fn default() -> (u: Self)
        ensures
            u == UserType::Worker,
    {
        UserType::Worker
    }
}

/// A user's record: the ratings received and their average.
#[derive(Debug)]
pub struct AccountDetails {
    pub balance: Balance,
    pub ratings: Vec<u8>,
    pub avg_rating: Option<u8>,
    pub tags: Vec<TaskTypeTags>,
    pub sudo: bool,
}

/// The record of a user that has none yet.
pub open spec fn is_default_account(a: AccountDetails) -> bool {
    &&& a.balance == 0
    &&& a.ratings@.len() == 0
    &&& a.avg_rating is None
    &&& a.tags@.len() == 0
    &&& !a.sudo
}

/// Two records that hold the same data.
pub open spec fn same_account(a: AccountDetails, b: AccountDetails) -> bool {
    &&& a.balance == b.balance
    &&& a.ratings@ == b.ratings@
    &&& a.avg_rating == b.avg_rating
    &&& a.tags@ == b.tags@
    &&& a.sudo == b.sudo
}

impl Default for AccountDetails {
    fn default() -> (a: Self)
        ensures
            is_default_account(a),
    {
        AccountDetails { balance: 0, ratings: Vec::new(), avg_rating: None, tags: Vec::new(), sudo: false }
    }
}

pub open spec fn ratings_sum(s: Seq<u8>) -> nat
    decreases s.len(),
{
    if s.len() == 0 {
        0
    } else {
        ratings_sum(s.drop_last()) + s.last() as nat
    }
}

proof fn lemma_ratings_sum_prefix(s: Seq<u8>, i: int)
    requires
        0 <= i < s.len(),
    ensures
        ratings_sum(s.take(i + 1)) == ratings_sum(s.take(i)) + s[i],
        ratings_sum(s.take(i + 1)) <= ratings_sum(s),
    decreases s.len() - i,
{
    assert(s.take(i + 1).drop_last() =~= s.take(i));
    if i + 1 < s.len() {
        lemma_ratings_sum_prefix(s, i + 1);
    } else {
        assert(s.take(i + 1) =~= s);
    }
}

/// The average of a list of ratings as the pallet computes it: the count is
/// taken modulo 256; a count of one gives the first rating, any other count
/// the rounded average of the sum.
pub open spec fn list_average(list: Seq<u8>) -> u8 {
    if (list.len() as u8) == 1 {
        list[0]
    } else {
        rounded_average(ratings_sum(list) as u8, list.len() as u8)
    }
}

/// The list can be averaged without the running sum overflowing a byte.
pub open spec fn list_average_fits(list: Seq<u8>) -> bool {
    (list.len() as u8) == 1 || ratings_sum(list) <= u8::MAX
}

impl AccountDetails {
    /// Appends `new_rating` to the ratings of `account_id` (starting from an
    /// empty record) and sets its average rating to the average of the list.
    pub fn update_rating(account_map: &mut Table<AccountId, AccountDetails>, account_id: AccountId, new_rating: u8)
        requires
            list_average_fits(ratings_of(old(account_map)@, account_id).push(new_rating)),
        ensures
            rating_updated(old(account_map)@, final(account_map)@, account_id, new_rating),
    {
        let mut account_details = match account_map.remove(&account_id) {
            Some(a) => a,
            None => AccountDetails::default(),
        };
        let ghost before_details = account_details;
        account_details.ratings.push(new_rating);
        let avg = Self::get_list_average(&account_details.ratings);
        account_details.avg_rating = Some(avg);
        account_map.insert(account_id, account_details);
        proof {
            let before = old(account_map)@;
            let after = final(account_map)@;
            assert(after.dom() =~= before.dom().insert(account_id));
            assert(after[account_id] == account_details);
            assert(before.contains_key(account_id) ==> before[account_id] == before_details);
            assert(ratings_of(before, account_id) == before_details.ratings@);
            assert(after[account_id].ratings@ == ratings_of(before, account_id).push(new_rating));
            assert(forall|x: AccountId| x != account_id && #[trigger] before.contains_key(x) ==> after[x] == before[x]);
        }
    }

    /// The average of `list`, as [`list_average`] defines it.
    pub fn get_list_average(list: &Vec<u8>) -> (avg: u8)
        requires
            list_average_fits(list@),
        ensures
            avg == list_average(list@),
    {
        let n: usize = list.len();
        let list_len: u8 = n as u8;
        assert(list_len == list@.len() as u8);
        if list_len == 1 {
            return list[0];
        }
        let mut total_sum: u8 = 0;
        let mut i: usize = 0;
        while i < list.len()
            invariant
                i <= list@.len(),
                ratings_sum(list@) <= u8::MAX,
                total_sum == ratings_sum(list@.take(i as int)),
            decreases list@.len() - i,
        {
            proof {
                lemma_ratings_sum_prefix(list@, i as int);
            }
            total_sum = total_sum + list[i];
            i = i + 1;
        }
        assert(list@.take(i as int) =~= list@);
        roundoff(total_sum, list_len)
    }
}

/// The ratings recorded for `a`, empty when it has no record.
pub open spec fn ratings_of(accounts: Map<AccountId, AccountDetails>, a: AccountId) -> Seq<u8> {
    if accounts.contains_key(a) {
        accounts[a].ratings@
    } else {
        Seq::empty()
    }
}

/// `after` is `before` with rating `r` appended for `a` and its average updated;
/// the other fields of `a`'s record stay (or are those of an empty record).
pub open spec fn rating_updated(
    before: Map<AccountId, AccountDetails>,
    after: Map<AccountId, AccountDetails>,
    a: AccountId,
    r: u8,
) -> bool {
    &&& after.dom() == before.dom().insert(a)
    &&& forall|x: AccountId| x != a && #[trigger] before.contains_key(x) ==> after[x] == before[x]
    &&& after[a].ratings@ == ratings_of(before, a).push(r)
    &&& after[a].avg_rating == Some(list_average(ratings_of(before, a).push(r)))
    &&& if before.contains_key(a) {
        &&& after[a].balance == before[a].balance
        &&& after[a].tags == before[a].tags
        &&& after[a].sudo == before[a].sudo
    } else {
        &&& after[a].balance == 0
        &&& after[a].tags@.len() == 0
        &&& !after[a].sudo
    }
}

/// What the marketplace reports as it works.
#[derive(Debug)]
pub enum Event {
    AmountTransfered(AccountId, AccountId, Balance),
    AccBalance(AccountId, Balance),
    CountIncreased(u128),
    /// A transfer: sender, its balance before and after, receiver, its balance before and after.
    TransferMoney(AccountId, Balance, Balance, AccountId, Balance, Balance),
    VoteRecorded(u128, AccountId),
    /// A project has been created: project id, name, publisher.
    ProjectCreated(u128, Vec<u8>, AccountId),
    /// A milestone has been added to a project: milestone id, cost.
    MileStoneCreated(Vec<u8>, Balance),
    /// A project has been put on the marketplace.
    ProjectAddedToMarketplace(u128),
    /// A bid has been placed: milestone id, bidder.
    BidSuccessful(Vec<u8>, AccountId),
    /// A bid has been accepted: milestone id, number of the bid (from one).
    BidAccepted(Vec<u8>, u32),
    /// A milestone has been completed by its worker.
    MilestoneCompleted(Vec<u8>),
    /// A milestone has been approved with a rating for the worker.
    MilestoneApproved(Vec<u8>, u8),
    /// The worker has rated the publisher for a milestone.
    CustomerRatingProvided(Vec<u8>, u8),
    /// A milestone has been closed and its escrow paid to the worker.
    MilestoneClosed(Vec<u8>),
    /// A project has been closed.
    ProjectClosed(u128),
}

/// Why the marketplace refused an operation.
#[derive(Clone, Copy, PartialEq, Eq, Structural, Debug)]
pub enum Error {
    NoneValue,
    StorageOverflow,
    MilestoneNotOpen,
    NotEnoughBalanceToBid,
    UnauthorisedToBid,
    TaskIsNotInProgress,
    WorkerNotSet,
    UnauthorisedToComplete,
    MilestoneNotPendingApproval,
    UnauthorisedToApprove,
    MilestoneNotPendingRating,
    UnauthorisedToProvideCustomerRating,
    NotEnoughBalance,
    MilestoneInProgress,
    UnauthorisedToDisapprove,
    CustomerRatingNotProvided,
    CannotCreateFurtherProjects,
    ProjectDoesNotExist,
    MilestoneLimitReached,
    Unauthorised,
    ProjectNotReady,
    ProjectClosed,
    InvalidMilestoneId,
    ProjectNotOpenForBidding,
    MilestoneNotOpenForBidding,
    PublisherCannotBid,
    InvalidBidNumber,
    FailedToTransferBack,
    MilestoneNotInProgress,
    PublisherCannotCompleteMilestone,
    ProjectNotOpenForMilestoneCompletion,
    ProjectNotOpenToProvideRating,
    PublisherCannotRateSelf,
    CannotCloseProject,
    ProjectNotOpen,
    MilestoneJustOpened,
}

/// Outcome of an operation of the marketplace.
pub type DispatchResult = Result<(), DispatchError<Error>>;

/// A transfer between two users, with both balances before and after it.
#[derive(Clone, Copy, PartialEq, Eq, Structural, Debug)]
pub struct TransferDetails {
    transfer_from: AccountId,
    from_before: Balance,
    from_after: Balance,
    transfer_to: AccountId,
    to_before: Balance,
    to_after: Balance,
}

impl TransferDetails {
    pub closed spec fn spec_new(
        transfer_from: AccountId,
        from_before: Balance,
        from_after: Balance,
        transfer_to: AccountId,
        to_before: Balance,
        to_after: Balance,
    ) -> Self {
        TransferDetails { transfer_from, from_before, from_after, transfer_to, to_before, to_after }
    }
}

/// The marketplace's state, as mathematical maps and sequences.
#[verifier::ext_equal]
pub struct MarketView {
    /// Users' records; a user without one has an empty record.
    pub accounts: Map<AccountId, AccountDetails>,
    /// Number of projects created so far; project ids run from one to it.
    pub project_count: u128,
    pub projects: Map<u128, ProjectDetails>,
    /// Bids placed on each milestone still open for bidding.
    pub bidders: Map<MilestoneKey, Vec<Bid>>,
    pub count: u128,
    /// The last transfer made with [`Pallet::transfer_money`].
    pub transfers: Seq<TransferDetails>,
    /// Events reported so far, oldest first.
    pub events: Seq<Event>,
}

/// The state of the project marketplace.
pub struct Pallet {
    accounts: Table<AccountId, AccountDetails>,
    project_count: u128,
    projects: Table<u128, ProjectDetails>,
    bidders: Table<MilestoneKey, Vec<Bid>>,
    count: u128,
    transfers: Vec<TransferDetails>,
    events: Vec<Event>,
}

impl View for Pallet {
    type V = MarketView;

    closed spec fn view(&self) -> MarketView {
        MarketView {
            accounts: self.accounts@,
            project_count: self.project_count,
            projects: self.projects@,
            bidders: self.bidders@,
            count: self.count,
            transfers: self.transfers@,
            events: self.events@,
        }
    }
}

/// A milestone whose worker has been chosen has the worker recorded, one that
/// has been approved has the worker's rating, one that has been rated by the
/// worker has the publisher's rating.
pub open spec fn milestone_wf(m: Milestone) -> bool {
    &&& m.status != Status::Open ==> m.worker_id is Some
    &&& (m.status == Status::CustomerRatingPending || m.status == Status::CustomerRatingProvided
        || m.status == Status::Completed) ==> m.final_worker_rating is Some
    &&& (m.status == Status::CustomerRatingProvided || m.status == Status::Completed)
        ==> m.final_customer_rating is Some
}

/// Project `pid` is stored under its id, which is at most the number of
/// projects created, and has between one and five milestones, each named by
/// its id and consistent in its status.
pub open spec fn project_wf(pid: u128, project_count: u128, p: ProjectDetails) -> bool {
    &&& p.project_id == pid
    &&& 1 <= pid <= project_count
    &&& p.milestones is Some
    &&& 1 <= p.milestones.unwrap()@.len() <= MAX_MILESTONES
    &&& forall|i: int|
        0 <= i < p.milestones.unwrap()@.len() ==> {
            &&& (#[trigger] p.milestones.unwrap()@[i]).milestone_id@ == milestone_id_of(pid, i as u8)
            &&& milestone_wf(p.milestones.unwrap()@[i])
        }
}

/// The bid at each position `i` has the number `i + 1`.
pub open spec fn bids_numbered(bids: Seq<Bid>) -> bool {
    forall|i: int| 0 <= i < bids.len() ==> #[trigger] bids[i].bid_number == i + 1
}

impl MarketView {
    /// Every stored project is well formed, and the bids of each milestone
    /// are numbered from one in the order they were placed.
    pub open spec fn wf(self) -> bool {
        &&& forall|pid: u128| #[trigger] self.projects.contains_key(pid) ==> project_wf(pid, self.project_count, self.projects[pid])
        &&& forall|k: MilestoneKey| #[trigger] self.bidders.contains_key(k) ==> bids_numbered(self.bidders[k]@)
    }

    /// The bids placed on milestone `k`, none when no list is stored.
    pub open spec fn bids_of(self, k: MilestoneKey) -> Seq<Bid> {
        if self.bidders.contains_key(k) {
            self.bidders[k]@
        } else {
            Seq::empty()
        }
    }
}

/// What every well-formed marketplace keeps: a project has one to five
/// milestones; a milestone that left `Open` has its worker, one that was
/// approved has the worker's rating, one the worker rated has the
/// publisher's rating; and the bid at position `j` of a milestone's list has
/// the number `j + 1`.
pub proof fn lemma_market_invariants(v: MarketView, pid: u128, i: int, k: MilestoneKey, j: int)
    requires
        v.wf(),
    ensures
        v.projects.contains_key(pid) ==> 1 <= milestones_of(v.projects[pid]).len() <= MAX_MILESTONES,
        v.projects.contains_key(pid) && 0 <= i < milestones_of(v.projects[pid]).len() ==> {
            let m = milestones_of(v.projects[pid])[i];
            &&& m.status != Status::Open ==> m.worker_id is Some
            &&& milestone_rank(m.status) >= milestone_rank(Status::CustomerRatingPending) ==> m.final_worker_rating is Some
            &&& milestone_rank(m.status) >= milestone_rank(Status::CustomerRatingProvided) ==> m.final_customer_rating is Some
        },
        v.bidders.contains_key(k) && 0 <= j < v.bidders[k]@.len() ==> v.bidders[k]@[j].bid_number == j + 1,
{
    if v.projects.contains_key(pid) && 0 <= i < milestones_of(v.projects[pid]).len() {
        assert(milestone_wf(v.projects[pid].milestones.unwrap()@[i]));
    }
}


/// The sum of ratings that all lie between `lo` and `hi` lies between `lo`
/// and `hi` times their number.
proof fn lemma_ratings_sum_bounds(s: Seq<u8>, lo: int, hi: int)
    requires
        forall|i: int| 0 <= i < s.len() ==> lo <= #[trigger] s[i] <= hi,
    ensures
        lo * s.len() <= ratings_sum(s) <= hi * s.len(),
    decreases s.len(),
{
    if s.len() > 0 {
        let t = s.drop_last();
        assert forall|i: int| 0 <= i < t.len() implies lo <= #[trigger] t[i] <= hi by {
            assert(t[i] == s[i]);
        }
        lemma_ratings_sum_bounds(t, lo, hi);
        let n = t.len() as int;
        assert(lo * (n + 1) == lo * n + lo && hi * (n + 1) == hi * n + hi) by (nonlinear_arith);
        assert(lo <= s.last() <= hi) by {
            assert(s.last() == s[s.len() - 1]);
        }
    }
}

/// A rounded mean `a` of `n` ratings summing to `sum` that each lie between
/// `lo >= 1` and `hi` lies between `lo` and `hi` as well.
proof fn lemma_rounded_mean_between(a: int, sum: int, n: int, lo: int, hi: int)
    requires
        n >= 1,
        1 <= lo,
        lo * n <= sum <= hi * n,
        (2 * a - 1) * n <= 2 * sum < (2 * a + 1) * n,
    ensures
        lo <= a <= hi,
{
    assert(2 * lo * n < (2 * a + 1) * n) by (nonlinear_arith)
        requires lo * n <= sum, 2 * sum < (2 * a + 1) * n;
    assert(lo <= a) by (nonlinear_arith)
        requires 2 * lo * n < (2 * a + 1) * n, n >= 1;
    assert((2 * a - 1) * n <= 2 * hi * n) by (nonlinear_arith)
        requires sum <= hi * n, (2 * a - 1) * n <= 2 * sum;
    assert(a <= hi) by (nonlinear_arith)
        requires (2 * a - 1) * n <= 2 * hi * n, n >= 1;
}

/// The average of a list of two or more ratings whose sum fits a byte is
/// the integer nearest to their mean, halves rounded up (zero when the mean
/// is below one), so it lies between any bounds `lo >= 1` and `hi` of the
/// ratings and depends on their sum and number only; one rating is its own
/// average.
pub proof fn lemma_list_average_is_rounded_mean(list: Seq<u8>, lo: int, hi: int)
    requires
        1 <= list.len() <= u8::MAX,
        ratings_sum(list) <= u8::MAX,
    ensures
        list.len() == 1 ==> list_average(list) == list[0],
        list.len() >= 2 && ratings_sum(list) >= list.len() ==> (2 * list_average(list) - 1) * list.len()
            <= 2 * ratings_sum(list) < (2 * list_average(list) + 1) * list.len(),
        list.len() >= 2 && ratings_sum(list) < list.len() ==> list_average(list) == 0,
        1 <= lo && (forall|i: int| 0 <= i < list.len() ==> lo <= #[trigger] list[i] <= hi)
            ==> lo <= list_average(list) <= hi,
{
    let n = list.len() as u8;
    let sum = ratings_sum(list) as u8;
    crate::utils::lemma_rounded_average_is_nearest(sum, n);
    if 1 <= lo && (forall|i: int| 0 <= i < list.len() ==> lo <= #[trigger] list[i] <= hi) {
        lemma_ratings_sum_bounds(list, lo, hi);
        if list.len() >= 2 {
            assert(lo * list.len() >= list.len()) by (nonlinear_arith)
                requires 1 <= lo;
            lemma_rounded_mean_between(list_average(list) as int, ratings_sum(list) as int, list.len() as int, lo, hi);
        } else {
            assert(lo <= list[0] <= hi);
        }
    }
}

/// The publisher's rating recorded when a project closes is the integer
/// nearest to the mean of the ratings the workers gave (halves rounded up,
/// zero when the mean is below one): there is one exactly when some worker
/// rated the publisher, and it lies between any bounds `lo >= 1` and `hi`
/// of those ratings.
pub proof fn lemma_publisher_rating_is_rounded_mean(p: ProjectDetails, lo: int, hi: int)
    requires
        publisher_rating_fits(p),
    ensures
        ({
            let rs = customer_ratings(milestones_of(p));
            let n = rs.len();
            let sum = ratings_sum(rs);
            &&& (publisher_rating(p) is Some <==> p.milestones is Some && n > 0)
            &&& publisher_rating(p) matches Some(r) ==> {
                &&& (sum >= n ==> (2 * r - 1) * n <= 2 * sum < (2 * r + 1) * n)
                &&& (sum < n ==> r == 0)
                &&& (1 <= lo && (forall|i: int| 0 <= i < n ==> lo <= #[trigger] rs[i] <= hi) ==> lo <= r <= hi)
            }
        }),
{
    let rs = customer_ratings(milestones_of(p));
    if p.milestones is Some && rs.len() > 0 {
        crate::utils::lemma_rounded_average_is_nearest(ratings_sum(rs) as u8, rs.len() as u8);
        let r = publisher_rating(p).unwrap();
        if 1 <= lo && (forall|i: int| 0 <= i < rs.len() ==> lo <= #[trigger] rs[i] <= hi) {
            lemma_ratings_sum_bounds(rs, lo, hi);
            assert(lo * rs.len() >= rs.len()) by (nonlinear_arith)
                requires 1 <= lo;
            lemma_rounded_mean_between(r as int, ratings_sum(rs) as int, rs.len() as int, lo, hi);
        }
    }
}


/// How many of the first `k` bids, leaving out the one at position
/// `except`, the account `h` placed.
pub open spec fn stakes_owed_to(bids: Seq<Bid>, except: u32, h: Holder, k: nat) -> nat
    decreases k,
{
    if k == 0 {
        0
    } else {
        stakes_owed_to(bids, except, h, (k - 1) as nat) + if k - 1 != except && Holder::Account(bids[k - 1].bidder_id) == h {
            1nat
        } else {
            0nat
        }
    }
}

/// How many of the first `k` bids there are, leaving out the one at
/// position `except`.
pub open spec fn stakes_owed(bids: Seq<Bid>, except: u32, k: nat) -> nat
    decreases k,
{
    if k == 0 {
        0
    } else {
        stakes_owed(bids, except, (k - 1) as nat) + if k - 1 != except { 1nat } else { 0nat }
    }
}

/// Refunding the bidders of a milestone, when it goes through, gives every
/// bidder but the one at position `except` its stake back: each account
/// gains the cost once for every such bid it placed, the escrow loses the
/// cost once for every such bid, and no other balance changes. Leaving out
/// one of `k` bids refunds the other `k - 1`.
pub proof fn lemma_refunds_return_each_stake(
    m: Map<Holder, Balance>,
    escrow: Holder,
    bids: Seq<Bid>,
    cost: Balance,
    except: u32,
    k: nat,
    h: Holder,
)
    requires
        k <= bids.len() <= u32::MAX,
        escrow !is Account,
        refund_bidders(m, escrow, bids, cost, except, k).1,
    ensures
        balance_in(refund_bidders(m, escrow, bids, cost, except, k).0, h) == balance_in(m, h)
            + cost * stakes_owed_to(bids, except, h, k) - (if h == escrow { cost * stakes_owed(bids, except, k) } else { 0 }),
        except < k ==> stakes_owed(bids, except, k) == k - 1,
        except >= k ==> stakes_owed(bids, except, k) == k,
    decreases k,
{
    if k > 0 {
        let j = (k - 1) as nat;
        let (m1, ok1) = refund_bidders(m, escrow, bids, cost, except, j);
        assert(ok1);
        lemma_refunds_return_each_stake(m, escrow, bids, cost, except, j, h);
        let c = stakes_owed_to(bids, except, h, j) as int;
        let t = stakes_owed(bids, except, j) as int;
        let x = cost as int;
        assert(x * (c + 1) == x * c + x && x * (t + 1) == x * t + x) by (nonlinear_arith);
        assert(((k - 1) as u32 == except) == (j == except));
        if j != except {
            let to = Holder::Account(bids[j as int].bidder_id);
            assert(to != escrow);
        }
    }
}

/// The escrow account of milestone `key`.
pub open spec fn escrow_of(key: MilestoneKey) -> Holder {
    Holder::MilestoneEscrow(key)
}

impl Pallet {
    /// The marketplace's state is well formed.
    pub open spec fn wf(&self) -> bool {
        self@.wf()
    }

    /// A marketplace without projects, whose users start with the given
    /// records; a later record of the same user replaces an earlier one.
    pub fn new(account_map: Vec<(AccountId, AccountDetails)>) -> (m: Self)
        ensures
            m.wf(),
            m@ == (MarketView {
                accounts: genesis_accounts(account_map@),
                project_count: 0,
                projects: Map::empty(),
                bidders: Map::empty(),
                count: 0,
                transfers: Seq::empty(),
                events: Seq::empty(),
            }),
    {
        let mut accounts: Table<AccountId, AccountDetails> = Table::new();
        let mut list = account_map;
        let ghost initial = list@;
        let ghost mut k: int = 0;
        while list.len() > 0
            invariant
                0 <= k <= initial.len(),
                list@ == initial.skip(k),
                accounts@ == genesis_accounts(initial.take(k)),
            decreases list.len(),
        {
            let (a, details) = list.remove(0);
            proof {
                assert(initial.take(k + 1).drop_last() =~= initial.take(k));
                assert(initial[k] == (a, details));
                k = k + 1;
            }
            accounts.insert(a, details);
            assert(list@ =~= initial.skip(k));
        }
        assert(initial.take(k) =~= initial);
        let m = Pallet {
            accounts,
            project_count: 0,
            projects: Table::new(),
            bidders: Table::new(),
            count: 0,
            transfers: Vec::new(),
            events: Vec::new(),
        };
        assert(m@.projects =~= Map::<u128, ProjectDetails>::empty());
        m
    }

    /// The record of user `a`; an empty record when there is none.
    pub fn accounts(&self, a: AccountId) -> (d: AccountDetails)
        ensures
            if self@.accounts.contains_key(a) {
                same_account(d, self@.accounts[a])
            } else {
                is_default_account(d)
            },
    {
        match self.accounts.get(&a) {
            Some(details) => copy_account(details),
            None => AccountDetails::default(),
        }
    }

    /// Number of projects created so far.
    pub fn get_project_count(&self) -> (n: u128)
        ensures
            n == self@.project_count,
    {
        self.project_count
    }

    /// Project `pid`, if there is one.
    pub fn get_project(&self, pid: u128) -> (p: Option<&ProjectDetails>)
        ensures
            match p {
                Some(p) => self@.projects.contains_key(pid) && *p == self@.projects[pid],
                None => !self@.projects.contains_key(pid),
            },
    {
        self.projects.get(&pid)
    }

    /// The bids placed on milestone `key`.
    pub fn get_bidder_list(&self, key: MilestoneKey) -> (bids: &[Bid])
        ensures
            bids@ == self@.bids_of(key),
    {
        match self.bidders.get(&key) {
            Some(v) => v.as_slice(),
            None => &[],
        }
    }

    /// The counter reported by transfers.
    pub fn get_count(&self) -> (n: u128)
        ensures
            n == self@.count,
    {
        self.count
    }

    /// The last transfer made with `transfer_money`.
    pub fn get_transfers(&self) -> (t: &[TransferDetails])
        ensures
            t@ == self@.transfers,
    {
        self.transfers.as_slice()
    }

    /// The events reported so far, oldest first.
    pub fn events(&self) -> (e: &[Event])
        ensures
            e@ == self@.events,
    {
        self.events.as_slice()
    }

    /// Removes project `pid` and its milestone `n`, handing out the project
    /// without its milestones, the other milestones, and milestone `n`.
    fn take_milestone(&mut self, pid: u128, n: usize) -> (r: (ProjectDetails, Vec<Milestone>, Milestone))
        requires
            old(self)@.projects.contains_key(pid),
            old(self)@.projects[pid].milestones is Some,
            n < milestones_of(old(self)@.projects[pid]).len(),
        ensures
            final(self)@ == (MarketView { projects: old(self)@.projects.remove(pid), ..old(self)@ }),
            r.0 == (ProjectDetails { milestones: None, ..old(self)@.projects[pid] }),
            r.1@ == milestones_of(old(self)@.projects[pid]).remove(n as int),
            r.2 == milestones_of(old(self)@.projects[pid])[n as int],
    {
        let mut project = self.projects.remove(&pid).unwrap();
        let mut milestones = project.milestones.take().unwrap();
        let m = milestones.remove(n);
        (project, milestones, m)
    }

    /// Puts milestone `m` back at position `n` and the project back under `pid`.
    fn put_milestone(&mut self, pid: u128, project: ProjectDetails, milestones: Vec<Milestone>, n: usize, m: Milestone)
        requires
            n <= milestones@.len(),
        ensures
            final(self)@.projects.contains_key(pid),
            final(self)@ == (MarketView { projects: old(self)@.projects.insert(pid, final(self)@.projects[pid]), ..old(self)@ }),
            final(self)@.projects[pid] == (ProjectDetails { milestones: final(self)@.projects[pid].milestones, ..project }),
            final(self)@.projects[pid].milestones is Some,
            milestones_of(final(self)@.projects[pid]) == milestones@.insert(n as int, m),
    {
        let mut project = project;
        let mut milestones = milestones;
        milestones.insert(n, m);
        project.milestones = Some(milestones);
        self.projects.insert(pid, project);
    }

    /// Records an approved milestone and the worker's rating.
    pub fn approve_milestone(&mut self, origin: Origin, milestone_id: Vec<u8>, rating_for_the_worker: u8) -> (r: DispatchResult)
        requires
            old(self).wf(),
        ensures
            final(self).wf(),
            match approve_milestone_error(old(self)@, origin, milestone_id@) {
                Some(e) => r == Err::<(), DispatchError<Error>>(e) && final(self)@ == old(self)@,
                None => {
                    let (n, pid) = parsed_milestone_id(milestone_id@).unwrap();
                    let m = milestones_of(old(self)@.projects[pid])[n as int];
                    &&& r is Ok
                    &&& milestone_replaced(old(self)@, final(self)@, pid, n as int, Milestone {
                        status: Status::CustomerRatingPending,
                        final_worker_rating: Some(rating_for_the_worker),
                        ..m
                    })
                    &&& final(self)@.events == old(self)@.events.push(Event::MilestoneApproved(milestone_id, rating_for_the_worker))
                },
            },
            market_advances(old(self)@, final(self)@),
    {
        let sender = match ensure_signed(origin) {
            Ok(a) => a,
            Err(e) => return Err(e),
        };
        let (milestone_number, project_id) = match get_milestone_and_project_id(&milestone_id) {
            Some(parts) => parts,
            None => return Err(DispatchError::Module(Error::InvalidMilestoneId)),
        };
        let n = milestone_number as usize;
        match self.projects.get(&project_id) {
            None => return Err(DispatchError::Module(Error::ProjectDoesNotExist)),
            Some(project) => {
                if project.publisher != sender {
                    return Err(DispatchError::Module(Error::UnauthorisedToApprove));
                }
                if project.status != ProjectStatus::Open {
                    return Err(DispatchError::Module(Error::ProjectNotOpenToProvideRating));
                }
                match &project.milestones {
                    None => return Err(DispatchError::Module(Error::InvalidMilestoneId)),
                    Some(ms) => {
                        if milestone_number >= ms.len() as u8 {
                            return Err(DispatchError::Module(Error::InvalidMilestoneId));
                        }
                        if ms[n].status != Status::PendingApproval {
                            return Err(DispatchError::Module(Error::MilestoneNotPendingApproval));
                        }
                    },
                }
            },
        }
        let ghost old_view = self@;
        let (project, milestones, mut m) = self.take_milestone(project_id, n);
        m.status = Status::CustomerRatingPending;
        m.final_worker_rating = Some(rating_for_the_worker);
        self.put_milestone(project_id, project, milestones, n, m);
        self.events.push(Event::MilestoneApproved(milestone_id, rating_for_the_worker));
        proof {
            assert(self@.projects =~= old_view.projects.insert(project_id, self@.projects[project_id]));
            assert(old_view.projects[project_id].milestones.unwrap()@[n as int] == milestones_of(old_view.projects[project_id])[n as int]);
            lemma_milestone_replaced(old_view, self@, project_id, n as int, m);
            lemma_replaced_advances(old_view, self@, project_id, n as int, m);
        }
        Ok(())
    }

    /// Records that the worker has completed a milestone, with the worker's attachments.
    pub fn complete_milestone(&mut self, origin: Origin, milestone_id: Vec<u8>, worker_attachments: Vec<Vec<u8>>) -> (r: DispatchResult)
        requires
            old(self).wf(),
        ensures
            final(self).wf(),
            match complete_milestone_error(old(self)@, origin, milestone_id@) {
                Some(e) => r == Err::<(), DispatchError<Error>>(e) && final(self)@ == old(self)@,
                None => {
                    let (n, pid) = parsed_milestone_id(milestone_id@).unwrap();
                    let m = milestones_of(old(self)@.projects[pid])[n as int];
                    &&& r is Ok
                    &&& milestone_replaced(old(self)@, final(self)@, pid, n as int, Milestone {
                        status: Status::PendingApproval,
                        worker_attachments: Some(worker_attachments),
                        ..m
                    })
                    &&& final(self)@.events == old(self)@.events.push(Event::MilestoneCompleted(milestone_id))
                },
            },
            market_advances(old(self)@, final(self)@),
    {
        let sender = match ensure_signed(origin) {
            Ok(a) => a,
            Err(e) => return Err(e),
        };
        let (milestone_number, project_id) = match get_milestone_and_project_id(&milestone_id) {
            Some(parts) => parts,
            None => return Err(DispatchError::Module(Error::InvalidMilestoneId)),
        };
        let n = milestone_number as usize;
        match self.projects.get(&project_id) {
            None => return Err(DispatchError::Module(Error::ProjectDoesNotExist)),
            Some(project) => {
                if project.status != ProjectStatus::Open {
                    return Err(DispatchError::Module(Error::ProjectNotOpenForMilestoneCompletion));
                }
                if sender == project.publisher {
                    return Err(DispatchError::Module(Error::PublisherCannotCompleteMilestone));
                }
                match &project.milestones {
                    None => return Err(DispatchError::Module(Error::InvalidMilestoneId)),
                    Some(ms) => {
                        if milestone_number >= ms.len() as u8 {
                            return Err(DispatchError::Module(Error::InvalidMilestoneId));
                        }
                        if ms[n].status != Status::InProgress {
                            return Err(DispatchError::Module(Error::MilestoneNotInProgress));
                        }
                        if ms[n].worker_id != Some(sender) {
                            return Err(DispatchError::Module(Error::UnauthorisedToComplete));
                        }
                    },
                }
            },
        }
        let ghost old_view = self@;
        let (project, milestones, mut m) = self.take_milestone(project_id, n);
        m.worker_attachments = Some(worker_attachments);
        m.status = Status::PendingApproval;
        self.put_milestone(project_id, project, milestones, n, m);
        self.events.push(Event::MilestoneCompleted(milestone_id));
        proof {
            assert(self@.projects =~= old_view.projects.insert(project_id, self@.projects[project_id]));
            assert(old_view.projects[project_id].milestones.unwrap()@[n as int] == milestones_of(old_view.projects[project_id])[n as int]);
            lemma_milestone_replaced(old_view, self@, project_id, n as int, m);
            lemma_replaced_advances(old_view, self@, project_id, n as int, m);
        }
        Ok(())
    }

    /// Records the worker's rating of the publisher for a milestone.
    pub fn provide_customer_rating(&mut self, origin: Origin, milestone_id: Vec<u8>, rating_for_customer: u8) -> (r: DispatchResult)
        requires
            old(self).wf(),
        ensures
            final(self).wf(),
            match provide_customer_rating_error(old(self)@, origin, milestone_id@) {
                Some(e) => r == Err::<(), DispatchError<Error>>(e) && final(self)@ == old(self)@,
                None => {
                    let (n, pid) = parsed_milestone_id(milestone_id@).unwrap();
                    let m = milestones_of(old(self)@.projects[pid])[n as int];
                    &&& r is Ok
                    &&& milestone_replaced(old(self)@, final(self)@, pid, n as int, Milestone {
                        status: Status::CustomerRatingProvided,
                        final_customer_rating: Some(rating_for_customer),
                        ..m
                    })
                    &&& final(self)@.events == old(self)@.events.push(Event::CustomerRatingProvided(milestone_id, rating_for_customer))
                },
            },
            market_advances(old(self)@, final(self)@),
    {
        let sender = match ensure_signed(origin) {
            Ok(a) => a,
            Err(e) => return Err(e),
        };
        let (milestone_number, project_id) = match get_milestone_and_project_id(&milestone_id) {
            Some(parts) => parts,
            None => return Err(DispatchError::Module(Error::InvalidMilestoneId)),
        };
        let n = milestone_number as usize;
        match self.projects.get(&project_id) {
            None => return Err(DispatchError::Module(Error::ProjectDoesNotExist)),
            Some(project) => {
                if project.publisher == sender {
                    return Err(DispatchError::Module(Error::PublisherCannotRateSelf));
                }
                if project.status != ProjectStatus::Open {
                    return Err(DispatchError::Module(Error::ProjectNotOpenToProvideRating));
                }
                match &project.milestones {
                    None => return Err(DispatchError::Module(Error::InvalidMilestoneId)),
                    Some(ms) => {
                        if milestone_number >= ms.len() as u8 {
                            return Err(DispatchError::Module(Error::InvalidMilestoneId));
                        }
                        if ms[n].status != Status::CustomerRatingPending {
                            return Err(DispatchError::Module(Error::MilestoneNotPendingRating));
                        }
                        if ms[n].worker_id != Some(sender) {
                            return Err(DispatchError::Module(Error::UnauthorisedToProvideCustomerRating));
                        }
                    },
                }
            },
        }
        let ghost old_view = self@;
        let (project, milestones, mut m) = self.take_milestone(project_id, n);
        m.status = Status::CustomerRatingProvided;
        m.final_customer_rating = Some(rating_for_customer);
        self.put_milestone(project_id, project, milestones, n, m);
        self.events.push(Event::CustomerRatingProvided(milestone_id, rating_for_customer));
        proof {
            assert(self@.projects =~= old_view.projects.insert(project_id, self@.projects[project_id]));
            assert(old_view.projects[project_id].milestones.unwrap()@[n as int] == milestones_of(old_view.projects[project_id])[n as int]);
            lemma_milestone_replaced(old_view, self@, project_id, n as int, m);
            lemma_replaced_advances(old_view, self@, project_id, n as int, m);
        }
        Ok(())
    }

    /// Puts a ready project on the marketplace.
    pub fn add_project_to_marketplace(&mut self, origin: Origin, project_id: u128) -> (r: DispatchResult)
        requires
            old(self).wf(),
        ensures
            final(self).wf(),
            match add_project_to_marketplace_error(old(self)@, origin, project_id) {
                Some(e) => r == Err::<(), DispatchError<Error>>(e) && final(self)@ == old(self)@,
                None => r is Ok && final(self)@ == (MarketView {
                    projects: old(self)@.projects.insert(project_id, ProjectDetails {
                        status: ProjectStatus::Open,
                        ..old(self)@.projects[project_id]
                    }),
                    events: old(self)@.events.push(Event::ProjectAddedToMarketplace(project_id)),
                    ..old(self)@
                }),
            },
            market_advances(old(self)@, final(self)@),
    {
        let sender = match ensure_signed(origin) {
            Ok(a) => a,
            Err(e) => return Err(e),
        };
        match self.projects.get(&project_id) {
            None => return Err(DispatchError::Module(Error::ProjectDoesNotExist)),
            Some(project) => {
                if project.publisher != sender {
                    return Err(DispatchError::Module(Error::Unauthorised));
                }
                if project.status != ProjectStatus::Ready {
                    return Err(DispatchError::Module(Error::ProjectNotReady));
                }
            },
        }
        let ghost old_view = self@;
        let mut project = self.projects.remove(&project_id).unwrap();
        project.status = ProjectStatus::Open;
        self.projects.insert(project_id, project);
        self.events.push(Event::ProjectAddedToMarketplace(project_id));
        proof {
            assert(self@.projects =~= old_view.projects.insert(project_id, project));
            assert(self@ =~= (MarketView {
                projects: old_view.projects.insert(project_id, project),
                events: old_view.events.push(Event::ProjectAddedToMarketplace(project_id)),
                ..old_view
            }));
            assert forall|q: u128| #[trigger] self@.projects.contains_key(q) implies project_wf(q, self@.project_count, self@.projects[q]) by {
                if q == project_id {
                    assert(milestones_of(self@.projects[q]) == milestones_of(old_view.projects[q]));
                }
            }
        }
        Ok(())
    }

    /// The publisher pays the cost of each milestone into the escrow of the
    /// milestone's id. Refused, with the payments made so far kept, when the
    /// publisher's balance is below the capped sum of the costs or a payment
    /// fails.
    pub fn collect_publisher_tokens(
        ledger: &mut Ledger,
        publisher: AccountId,
        milestones: &[Milestone],
    ) -> (r: Result<(), Error>)
        requires
            capped_costs(costs_of(milestones@)) <= u32::MAX,
        ensures
            final(ledger)@ == collect_by_ids(old(ledger)@, publisher, milestones@).0,
            r is Ok <==> collect_by_ids(old(ledger)@, publisher, milestones@).1,
            r is Err ==> r == Err::<(), Error>(Error::NotEnoughBalance),
            final(ledger).total() == old(ledger).total(),
    {
        let ghost cs = costs_of(milestones@);
        let mut total_cost: u32 = 0;
        let mut i: usize = 0;
        while i < milestones.len()
            invariant
                i <= milestones@.len(),
                cs == costs_of(milestones@),
                capped_costs(cs) <= u32::MAX,
                total_cost == capped_costs(cs.take(i as int)),
            decreases milestones@.len() - i,
        {
            proof {
                lemma_capped_costs_prefix(cs, i as int);
            }
            let cost = milestones[i].cost;
            let capped: u32 = if cost > u32::MAX as u128 { u32::MAX } else { cost as u32 };
            total_cost = total_cost + capped;
            i = i + 1;
        }
        assert(cs.take(i as int) =~= cs);
        if ledger.free_balance(Holder::Account(publisher)) < total_cost as u128 {
            return Err(Error::NotEnoughBalance);
        }
        let mut j: usize = 0;
        while j < milestones.len()
            invariant
                j <= milestones@.len(),
                cs == costs_of(milestones@),
                !(balance_in(old(ledger)@, Holder::Account(publisher)) < capped_costs(cs)),
                (ledger@, true) == pay_by_ids(old(ledger)@, publisher, milestones@, j as nat),
                ledger.total() == old(ledger).total(),
            decreases milestones@.len() - j,
        {
            let escrow = Self::get_escrow(copy_bytes(&milestones[j].milestone_id));
            let ghost before = ledger@;
            match ledger.transfer(Holder::Account(publisher), escrow, milestones[j].cost, ExistenceRequirement::KeepAlive) {
                Ok(()) => {},
                Err(_) => {
                    proof {
                        assert(pay_by_ids(old(ledger)@, publisher, milestones@, (j + 1) as nat) == (before, false));
                        lemma_pay_by_ids_stops(old(ledger)@, publisher, milestones@, (j + 1) as nat, milestones@.len());
                    }
                    return Err(Error::NotEnoughBalance);
                },
            }
            j = j + 1;
        }
        Ok(())
    }

    /// Refunds `cost` from `escrow` to every bidder on milestone `key` but the
    /// one at position `except`, then forgets the milestone's bids. Refused,
    /// with the refunds made so far kept and the bids kept, when a refund fails.
    pub fn reject_all(&mut self, ledger: &mut Ledger, key: MilestoneKey, escrow: Holder, cost: Balance, except: u32) -> (r: Result<(), Error>)
        ensures
            final(ledger)@ == refund_bidders(old(ledger)@, escrow, old(self)@.bids_of(key), cost, except, old(self)@.bids_of(key).len()).0,
            final(ledger).total() == old(ledger).total(),
            if refund_bidders(old(ledger)@, escrow, old(self)@.bids_of(key), cost, except, old(self)@.bids_of(key).len()).1 {
                r is Ok && final(self)@ == (MarketView { bidders: old(self)@.bidders.remove(key), ..old(self)@ })
            } else {
                r == Err::<(), Error>(Error::FailedToTransferBack) && final(self)@ == old(self)@
            },
    {
        let bidder_list = self.get_bidder_list(key);
        if !refund_all(ledger, bidder_list, escrow, cost, except) {
            return Err(Error::FailedToTransferBack);
        }
        let ghost old_view = self@;
        self.bidders.remove(&key);
        proof {
            assert(self@ =~= (MarketView { bidders: old_view.bidders.remove(key), ..old_view }));
        }
        Ok(())
    }

    /// Places a bid on an open milestone: the bidder stakes the milestone's
    /// cost into its escrow and the bid, with a copy of the bidder's record,
    /// joins the milestone's list under the next number.
    pub fn bid_for_milestone(&mut self, ledger: &mut Ledger, origin: Origin, milestone_id: Vec<u8>, worker_name: Vec<u8>) -> (r: DispatchResult)
        requires
            old(self).wf(),
            bid_for_milestone_error(old(self)@, origin, milestone_id@) is None ==> old(self)@.bids_of(key_of(milestone_id@)).len() < u32::MAX,
        ensures
            final(self).wf(),
            final(ledger).total() == old(ledger).total(),
            match bid_for_milestone_error(old(self)@, origin, milestone_id@) {
                Some(e) => r == Err::<(), DispatchError<Error>>(e) && final(self)@ == old(self)@ && final(ledger)@ == old(ledger)@,
                None => {
                    let sender = signer(origin).unwrap();
                    let key = key_of(milestone_id@);
                    let cost = named_milestone(old(self)@, milestone_id@).cost;
                    if balance_in(old(ledger)@, Holder::Account(sender)) <= cost {
                        r == Err::<(), DispatchError<Error>>(DispatchError::Module(Error::NotEnoughBalanceToBid))
                            && final(self)@ == old(self)@ && final(ledger)@ == old(ledger)@
                    } else {
                        match transfer_result(old(ledger)@, Holder::Account(sender), escrow_of(key), cost, ExistenceRequirement::KeepAlive) {
                            Err(e) => r == Err::<(), DispatchError<Error>>(DispatchError::Currency(e))
                                && final(self)@ == old(self)@ && final(ledger)@ == old(ledger)@,
                            Ok(l) => {
                                let bids = final(self)@.bidders[key]@;
                                let bid = bids.last();
                                &&& r is Ok
                                &&& final(ledger)@ == l
                                &&& final(self)@.bidders.contains_key(key)
                                &&& final(self)@ == (MarketView {
                                    bidders: old(self)@.bidders.insert(key, final(self)@.bidders[key]),
                                    events: old(self)@.events.push(Event::BidSuccessful(milestone_id, sender)),
                                    ..old(self)@
                                })
                                &&& bids == old(self)@.bids_of(key).push(bid)
                                &&& bid.bid_number == old(self)@.bids_of(key).len() + 1
                                &&& bid.bidder_id == sender
                                &&& bid.bidder_name == worker_name
                                &&& if old(self)@.accounts.contains_key(sender) {
                                    same_account(bid.account, old(self)@.accounts[sender])
                                } else {
                                    is_default_account(bid.account)
                                }
                            },
                        }
                    }
                },
            },
            market_advances(old(self)@, final(self)@),
    {
        let sender = match ensure_signed(origin) {
            Ok(a) => a,
            Err(e) => return Err(e),
        };
        let (milestone_number, project_id) = match get_milestone_and_project_id(&milestone_id) {
            Some(parts) => parts,
            None => return Err(DispatchError::Module(Error::InvalidMilestoneId)),
        };
        let n = milestone_number as usize;
        let milestone_cost: Balance;
        match self.projects.get(&project_id) {
            None => return Err(DispatchError::Module(Error::ProjectDoesNotExist)),
            Some(project) => {
                if project.status != ProjectStatus::Open {
                    return Err(DispatchError::Module(Error::ProjectNotOpenForBidding));
                }
                if project.publisher == sender {
                    return Err(DispatchError::Module(Error::PublisherCannotBid));
                }
                match &project.milestones {
                    None => return Err(DispatchError::Module(Error::InvalidMilestoneId)),
                    Some(ms) => {
                        if milestone_number >= ms.len() as u8 {
                            return Err(DispatchError::Module(Error::InvalidMilestoneId));
                        }
                        if ms[n].status != Status::Open {
                            return Err(DispatchError::Module(Error::MilestoneNotOpenForBidding));
                        }
                        milestone_cost = ms[n].cost;
                    },
                }
            },
        }
        if ledger.free_balance(Holder::Account(sender)) <= milestone_cost {
            return Err(DispatchError::Module(Error::NotEnoughBalanceToBid));
        }
        let key = MilestoneKey { project_id, milestone_number };
        let escrow_id = Self::escrow_for(key);
        match ledger.transfer(Holder::Account(sender), escrow_id, milestone_cost, ExistenceRequirement::KeepAlive) {
            Ok(()) => {},
            Err(e) => return Err(DispatchError::Currency(e)),
        }
        let account = self.accounts(sender);
        let ghost old_view = self@;
        let mut bidder_vector = match self.bidders.remove(&key) {
            Some(v) => v,
            None => Vec::new(),
        };
        let bid_number = bidder_vector.len() as u32 + 1;
        let bid = Bid::new(bid_number, sender, worker_name, account);
        bidder_vector.push(bid);
        self.bidders.insert(key, bidder_vector);
        self.events.push(Event::BidSuccessful(milestone_id, sender));
        proof {
            assert(self@.bidders =~= old_view.bidders.insert(key, self@.bidders[key]));
            assert(self@ =~= (MarketView {
                bidders: old_view.bidders.insert(key, self@.bidders[key]),
                events: old_view.events.push(Event::BidSuccessful(milestone_id, sender)),
                ..old_view
            }));
        }
        Ok(())
    }

    /// Accepts bid number `bid_number` (counted from one) for an open
    /// milestone: the bidder becomes its worker, every other bidder gets the
    /// stake back from the escrow, and the milestone's bids are forgotten.
    /// Refused as a whole when a refund fails.
    pub fn accept_bid(&mut self, ledger: &mut Ledger, origin: Origin, milestone_id: Vec<u8>, bid_number: u32) -> (r: DispatchResult)
        requires
            old(self).wf(),
        ensures
            final(self).wf(),
            final(ledger).total() == old(ledger).total(),
            match accept_bid_error(old(self)@, origin, milestone_id@, bid_number) {
                Some(e) => r == Err::<(), DispatchError<Error>>(e) && final(self)@ == old(self)@ && final(ledger)@ == old(ledger)@,
                None => {
                    let key = key_of(milestone_id@);
                    let pid = key.project_id;
                    let n = key.milestone_number as int;
                    let b = (bid_number - 1) as u32;
                    let bids = old(self)@.bids_of(key);
                    let m = milestones_of(old(self)@.projects[pid])[n];
                    let refund = refund_bidders(old(ledger)@, escrow_of(key), bids, m.cost, b, bids.len());
                    if !refund.1 {
                        r == Err::<(), DispatchError<Error>>(DispatchError::Module(Error::FailedToTransferBack))
                            && final(self)@ == old(self)@ && final(ledger)@ == old(ledger)@
                    } else {
                        &&& r is Ok
                        &&& final(ledger)@ == refund.0
                        &&& final(self)@.projects.contains_key(pid)
                        &&& final(self)@.projects == old(self)@.projects.insert(pid, final(self)@.projects[pid])
                        &&& replaces_milestone(old(self)@.projects[pid], final(self)@.projects[pid], n, milestones_of(final(self)@.projects[pid])[n])
                        &&& assigned_to_bidder(m, milestones_of(final(self)@.projects[pid])[n], bids[b as int])
                        &&& bids[b as int].bid_number == bid_number
                        &&& final(self)@.bidders == old(self)@.bidders.remove(key)
                        &&& final(self)@.accounts == old(self)@.accounts
                        &&& final(self)@.project_count == old(self)@.project_count
                        &&& final(self)@.count == old(self)@.count
                        &&& final(self)@.transfers == old(self)@.transfers
                        &&& final(self)@.events == old(self)@.events.push(Event::BidAccepted(milestone_id, bid_number))
                    }
                },
            },
            market_advances(old(self)@, final(self)@),
    {
        let sender = match ensure_signed(origin) {
            Ok(a) => a,
            Err(e) => return Err(e),
        };
        let (milestone_number, project_id) = match get_milestone_and_project_id(&milestone_id) {
            Some(parts) => parts,
            None => return Err(DispatchError::Module(Error::InvalidMilestoneId)),
        };
        let n = milestone_number as usize;
        let key = MilestoneKey { project_id, milestone_number };
        let milestone_cost: Balance;
        match self.projects.get(&project_id) {
            None => return Err(DispatchError::Module(Error::ProjectDoesNotExist)),
            Some(project) => {
                if project.publisher != sender {
                    return Err(DispatchError::Module(Error::Unauthorised));
                }
                if project.status != ProjectStatus::Open {
                    return Err(DispatchError::Module(Error::ProjectNotOpenForBidding));
                }
                match &project.milestones {
                    None => return Err(DispatchError::Module(Error::InvalidMilestoneId)),
                    Some(ms) => {
                        if milestone_number >= ms.len() as u8 {
                            return Err(DispatchError::Module(Error::InvalidMilestoneId));
                        }
                        if ms[n].status != Status::Open {
                            return Err(DispatchError::Module(Error::MilestoneNotOpenForBidding));
                        }
                        milestone_cost = ms[n].cost;
                    },
                }
            },
        }
        let (worker_id, worker_name, index) = {
            let bidder_list = self.get_bidder_list(key);
            if bid_number == 0 || bid_number as usize > bidder_list.len() {
                return Err(DispatchError::Module(Error::InvalidBidNumber));
            }
            let index: u32 = bid_number - 1;
            (bidder_list[index as usize].bidder_id, copy_bytes(&bidder_list[index as usize].bidder_name), index)
        };
        let ghost old_view = self@;
        let ghost bids = self@.bids_of(key);
        let escrow_id = Self::escrow_for(key);
        let mut work = ledger.duplicate();
        match self.reject_all(&mut work, key, escrow_id, milestone_cost, index) {
            Ok(()) => {},
            Err(_) => return Err(DispatchError::Module(Error::FailedToTransferBack)),
        }
        *ledger = work;
        let ghost mid_view = self@;
        let (project, milestones, mut m) = self.take_milestone(project_id, n);
        let ghost old_m = m;
        m.status = Status::InProgress;
        m.worker_id = Some(worker_id);
        m.worker_name = Some(worker_name);
        self.put_milestone(project_id, project, milestones, n, m);
        self.events.push(Event::BidAccepted(milestone_id, bid_number));
        proof {
            assert(self@.projects =~= mid_view.projects.insert(project_id, self@.projects[project_id]));
            assert(mid_view.projects[project_id].milestones.unwrap()@[n as int] == milestones_of(mid_view.projects[project_id])[n as int]);
            lemma_milestone_replaced(mid_view, self@, project_id, n as int, m);
            lemma_replaced_advances(mid_view, self@, project_id, n as int, m);
            assert(self@.projects =~= old_view.projects.insert(project_id, self@.projects[project_id]));
            assert(milestones_of(self@.projects[project_id])[n as int] == m);
            assert(assigned_to_bidder(old_m, m, bids[index as int]));
        }
        Ok(())
    }

    /// Closes a milestone the worker has rated: it becomes completed, the
    /// publisher's rating of the worker joins the worker's record, and the
    /// whole escrow of the milestone is paid to the worker.
    pub fn close_milestone(&mut self, ledger: &mut Ledger, origin: Origin, milestone_id: Vec<u8>) -> (r: DispatchResult)
        requires
            old(self).wf(),
            close_milestone_error(old(self)@, origin, milestone_id@) is None ==> list_average_fits(ratings_of(
                old(self)@.accounts,
                named_milestone(old(self)@, milestone_id@).worker_id.unwrap(),
            ).push(named_milestone(old(self)@, milestone_id@).final_worker_rating.unwrap())),
        ensures
            final(self).wf(),
            final(ledger).total() == old(ledger).total(),
            match close_milestone_error(old(self)@, origin, milestone_id@) {
                Some(e) => r == Err::<(), DispatchError<Error>>(e) && final(self)@ == old(self)@ && final(ledger)@ == old(ledger)@,
                None => {
                    let key = key_of(milestone_id@);
                    let pid = key.project_id;
                    let n = key.milestone_number as int;
                    let m = milestones_of(old(self)@.projects[pid])[n];
                    let worker = m.worker_id.unwrap();
                    let escrow = escrow_of(key);
                    match transfer_result(old(ledger)@, escrow, Holder::Account(worker), balance_in(old(ledger)@, escrow), ExistenceRequirement::AllowDeath) {
                        Err(e) => r == Err::<(), DispatchError<Error>>(DispatchError::Currency(e))
                            && final(self)@ == old(self)@ && final(ledger)@ == old(ledger)@,
                        Ok(l) => {
                            &&& r is Ok
                            &&& final(ledger)@ == l
                            &&& final(self)@.projects.contains_key(pid)
                            &&& final(self)@.projects == old(self)@.projects.insert(pid, final(self)@.projects[pid])
                            &&& replaces_milestone(old(self)@.projects[pid], final(self)@.projects[pid], n, Milestone { status: Status::Completed, ..m })
                            &&& rating_updated(old(self)@.accounts, final(self)@.accounts, worker, m.final_worker_rating.unwrap())
                            &&& final(self)@.bidders == old(self)@.bidders
                            &&& final(self)@.project_count == old(self)@.project_count
                            &&& final(self)@.count == old(self)@.count
                            &&& final(self)@.transfers == old(self)@.transfers
                            &&& final(self)@.events == old(self)@.events.push(Event::MilestoneClosed(milestone_id))
                        },
                    }
                },
            },
            market_advances(old(self)@, final(self)@),
    {
        let sender = match ensure_signed(origin) {
            Ok(a) => a,
            Err(e) => return Err(e),
        };
        let (milestone_number, project_id) = match get_milestone_and_project_id(&milestone_id) {
            Some(parts) => parts,
            None => return Err(DispatchError::Module(Error::InvalidMilestoneId)),
        };
        let n = milestone_number as usize;
        let key = MilestoneKey { project_id, milestone_number };
        let worker_id: AccountId;
        let worker_rating: u8;
        match self.projects.get(&project_id) {
            None => return Err(DispatchError::Module(Error::ProjectDoesNotExist)),
            Some(project) => {
                if project.publisher != sender {
                    return Err(DispatchError::Module(Error::Unauthorised));
                }
                if project.status != ProjectStatus::Open {
                    return Err(DispatchError::Module(Error::ProjectNotOpen));
                }
                match &project.milestones {
                    None => return Err(DispatchError::Module(Error::InvalidMilestoneId)),
                    Some(ms) => {
                        if milestone_number >= ms.len() as u8 {
                            return Err(DispatchError::Module(Error::InvalidMilestoneId));
                        }
                        if ms[n].status != Status::CustomerRatingProvided {
                            return Err(DispatchError::Module(Error::CustomerRatingNotProvided));
                        }
                        proof {
                            assert(ms@[n as int] == milestones_of(self@.projects[project_id])[n as int]);
                            assert(project_wf(project_id, self@.project_count, self@.projects[project_id]));
                        }
                        worker_id = ms[n].worker_id.unwrap();
                        worker_rating = ms[n].final_worker_rating.unwrap();
                    },
                }
            },
        }
        let escrow_id = Self::escrow_for(key);
        let transfer_amount = ledger.free_balance(escrow_id);
        match ledger.transfer(escrow_id, Holder::Account(worker_id), transfer_amount, ExistenceRequirement::AllowDeath) {
            Ok(()) => {},
            Err(e) => return Err(DispatchError::Currency(e)),
        }
        let ghost old_view = self@;
        let (project, milestones, mut m) = self.take_milestone(project_id, n);
        m.status = Status::Completed;
        self.put_milestone(project_id, project, milestones, n, m);
        let ghost mid_view = self@;
        proof {
            assert(self@.projects =~= old_view.projects.insert(project_id, self@.projects[project_id]));
            assert(old_view.projects[project_id].milestones.unwrap()@[n as int] == milestones_of(old_view.projects[project_id])[n as int]);
            lemma_milestone_replaced(old_view, self@, project_id, n as int, m);
            lemma_replaced_advances(old_view, self@, project_id, n as int, m);
        }
        AccountDetails::update_rating(&mut self.accounts, worker_id, worker_rating);
        self.events.push(Event::MilestoneClosed(milestone_id));
        proof {
            assert(self@.projects == mid_view.projects);
        }
        Ok(())
    }

    /// The rounded average of the ratings that workers gave the publisher of
    /// project `project_id`, if any was given.
    pub fn get_publisher_rating(&self, project_id: u128) -> (rating: Option<u8>)
        requires
            self@.projects.contains_key(project_id),
            publisher_rating_fits(self@.projects[project_id]),
        ensures
            rating == publisher_rating(self@.projects[project_id]),
    {
        let project = self.projects.get(&project_id).unwrap();
        match &project.milestones {
            None => None,
            Some(ms) => {
                let mut number_of_rating: u8 = 0;
                let mut total_rating: u8 = 0;
                let mut i: usize = 0;
                while i < ms.len()
                    invariant
                        i <= ms@.len(),
                        publisher_rating_fits(*project),
                        milestones_of(*project) == ms@,
                        number_of_rating == customer_ratings(ms@.take(i as int)).len(),
                        total_rating == ratings_sum(customer_ratings(ms@.take(i as int))),
                    decreases ms@.len() - i,
                {
                    proof {
                        lemma_customer_ratings_step(ms@, i as int);
                        lemma_customer_ratings_prefix_bounded(ms@, i + 1);
                    }
                    match ms[i].final_customer_rating {
                        Some(rating) => {
                            proof {
                                let rs = customer_ratings(ms@.take(i as int));
                                assert(rs.push(rating).drop_last() =~= rs);
                            }
                            number_of_rating = number_of_rating + 1;
                            total_rating = total_rating + rating;
                        },
                        None => {},
                    }
                    i = i + 1;
                }
                assert(ms@.take(i as int) =~= ms@);
                if number_of_rating > 0 {
                    Some(roundoff(total_rating, number_of_rating))
                } else {
                    None
                }
            },
        }
    }

    /// Closes a project of the caller. Its completed milestones stay as they
    /// are; for each open one the cost goes back from the escrow to the
    /// publisher and the bidders are refunded; any milestone in between makes
    /// the closing fail. On success the publisher's average rating from the
    /// workers, if any, is recorded on the project and in the publisher's
    /// record, and the project is closed.
    pub fn close_project(&mut self, ledger: &mut Ledger, origin: Origin, project_id: u128) -> (r: DispatchResult)
        requires
            old(self).wf(),
            close_project_error(old(self)@, origin, project_id) is None ==> publisher_rating_fits(old(self)@.projects[project_id]),
            close_project_error(old(self)@, origin, project_id) is None && publisher_rating(old(self)@.projects[project_id]) is Some
                ==> list_average_fits(ratings_of(old(self)@.accounts, old(self)@.projects[project_id].publisher).push(
                    publisher_rating(old(self)@.projects[project_id]).unwrap())),
        ensures
            final(self).wf(),
            final(ledger).total() == old(ledger).total(),
            match close_project_error(old(self)@, origin, project_id) {
                Some(e) => r == Err::<(), DispatchError<Error>>(e) && final(self)@ == old(self)@ && final(ledger)@ == old(ledger)@,
                None => {
                    let p = old(self)@.projects[project_id];
                    let ms = milestones_of(p);
                    let steps = close_steps(old(ledger)@, old(self)@.bidders, p.publisher, project_id, ms, ms.len());
                    if steps.3 {
                        r == Err::<(), DispatchError<Error>>(DispatchError::Module(Error::CannotCloseProject))
                            && final(self)@ == old(self)@ && final(ledger)@ == old(ledger)@
                    } else if !steps.2 {
                        r == Err::<(), DispatchError<Error>>(DispatchError::Module(Error::FailedToTransferBack))
                            && final(self)@ == old(self)@ && final(ledger)@ == old(ledger)@
                    } else {
                        let rating = publisher_rating(p);
                        &&& r is Ok
                        &&& final(ledger)@ == steps.0
                        &&& final(self)@.bidders == steps.1
                        &&& final(self)@.projects == old(self)@.projects.insert(project_id, ProjectDetails {
                            status: ProjectStatus::Closed,
                            overall_customer_rating: if rating is Some { rating } else { p.overall_customer_rating },
                            ..p
                        })
                        &&& if rating is Some {
                            rating_updated(old(self)@.accounts, final(self)@.accounts, p.publisher, rating.unwrap())
                        } else {
                            final(self)@.accounts == old(self)@.accounts
                        }
                        &&& final(self)@.project_count == old(self)@.project_count
                        &&& final(self)@.count == old(self)@.count
                        &&& final(self)@.transfers == old(self)@.transfers
                        &&& final(self)@.events == old(self)@.events.push(Event::ProjectClosed(project_id))
                    }
                },
            },
            market_advances(old(self)@, final(self)@),
    {
        let sender = match ensure_signed(origin) {
            Ok(a) => a,
            Err(e) => return Err(e),
        };
        let mut statuses: Vec<Status> = Vec::new();
        let mut costs: Vec<Balance> = Vec::new();
        let ghost ms: Seq<Milestone>;
        match self.projects.get(&project_id) {
            None => return Err(DispatchError::Module(Error::ProjectDoesNotExist)),
            Some(project) => {
                if sender != project.publisher {
                    return Err(DispatchError::Module(Error::Unauthorised));
                }
                proof {
                    ms = milestones_of(*project);
                }
                match &project.milestones {
                    None => {},
                    Some(v) => {
                        let mut i: usize = 0;
                        while i < v.len()
                            invariant
                                ms == v@,
                                i <= v@.len(),
                                statuses@.len() == i,
                                costs@.len() == i,
                                forall|j: int| 0 <= j < i ==> statuses@[j] == #[trigger] ms[j].status && costs@[j] == ms[j].cost,
                            decreases v@.len() - i,
                        {
                            statuses.push(v[i].status);
                            costs.push(v[i].cost);
                            i = i + 1;
                        }
                    },
                }
            },
        }
        let ghost old_view = self@;
        let ghost p = self@.projects[project_id];
        proof {
            assert(project_wf(project_id, self@.project_count, p));
        }
        // Work on a copy of the balances and only record which bids to forget,
        // so that a refused closing changes nothing.
        let mut work = ledger.duplicate();
        let mut forgotten: Vec<MilestoneKey> = Vec::new();
        let mut refunds_ok = true;
        let mut k: usize = 0;
        while k < statuses.len()
            invariant
                statuses@.len() == ms.len(),
                costs@.len() == ms.len(),
                ms.len() <= MAX_MILESTONES,
                forall|j: int| 0 <= j < ms.len() ==> statuses@[j] == #[trigger] ms[j].status && costs@[j] == ms[j].cost,
                self@ == old_view,
                old_view == old(self)@,
                old(self).wf(),
                close_project_error(old(self)@, origin, project_id) is None,
                *ledger == *old(ledger),
                sender == p.publisher,
                p == old_view.projects[project_id],
                old_view.projects.contains_key(project_id),
                ms == milestones_of(p),
                k <= ms.len(),
                forall|j: int| 0 <= j < forgotten@.len() ==> (#[trigger] forgotten@[j]).project_id == project_id && forgotten@[j].milestone_number < k,
                ({
                    let steps = close_steps(old(ledger)@, old_view.bidders, sender, project_id, ms, k as nat);
                    &&& work@ == steps.0
                    &&& steps.1 == remove_keys(old_view.bidders, forgotten@)
                    &&& refunds_ok == steps.2
                    &&& !steps.3
                }),
                work.total() == old(ledger).total(),
            decreases ms.len() - k,
        {
            let status = statuses[k];
            if status == Status::Completed {
            } else if status == Status::Open {
                let key = MilestoneKey { project_id, milestone_number: k as u8 };
                let escrow_id = Self::escrow_for(key);
                let cost = costs[k];
                let _ = work.transfer(escrow_id, Holder::Account(sender), cost, ExistenceRequirement::AllowDeath);
                proof {
                    lemma_remove_keys_keeps(old_view.bidders, forgotten@, key);
                }
                let bidder_list = self.get_bidder_list(key);
                let ok = refund_all(&mut work, bidder_list, escrow_id, cost, u32::MAX);
                refunds_ok = ok;
                if ok {
                    proof {
                        assert(forgotten@.push(key).drop_last() =~= forgotten@);
                        assert(remove_keys(old_view.bidders, forgotten@.push(key)) == remove_keys(old_view.bidders, forgotten@).remove(key));
                    }
                    forgotten.push(key);
                }
            } else {
                proof {
                    assert(ms[k as int].status == status);
                    assert(close_steps(old(ledger)@, old_view.bidders, sender, project_id, ms, (k + 1) as nat).3);
                    lemma_close_steps_stopped(old(ledger)@, old_view.bidders, sender, project_id, ms, (k + 1) as nat, ms.len());
                }
                return Err(DispatchError::Module(Error::CannotCloseProject));
            }
            k = k + 1;
        }
        proof {
            assert(sender == p.publisher);
            assert(ms == milestones_of(p));
        }
        if !refunds_ok {
            return Err(DispatchError::Module(Error::FailedToTransferBack));
        }
        let rating = self.get_publisher_rating(project_id);
        *ledger = work;
        let mut j: usize = 0;
        while j < forgotten.len()
            invariant
                j <= forgotten@.len(),
                self@ == (MarketView { bidders: remove_keys(old_view.bidders, forgotten@.take(j as int)), ..old_view }),
            decreases forgotten@.len() - j,
        {
            self.bidders.remove(&forgotten[j]);
            proof {
                assert(forgotten@.take(j + 1).drop_last() =~= forgotten@.take(j as int));
            }
            j = j + 1;
        }
        proof {
            assert(forgotten@.take(j as int) =~= forgotten@);
        }
        let ghost before_projects = self@;
        let mut project = self.projects.remove(&project_id).unwrap();
        match rating {
            Some(r) => {
                project.overall_customer_rating = Some(r);
                AccountDetails::update_rating(&mut self.accounts, sender, r);
            },
            None => {},
        }
        project.status = ProjectStatus::Closed;
        self.projects.insert(project_id, project);
        self.events.push(Event::ProjectClosed(project_id));
        proof {
            assert(self@.projects =~= old_view.projects.insert(project_id, project));
            assert forall|k: MilestoneKey| #[trigger] self@.bidders.contains_key(k) implies bids_numbered(self@.bidders[k]@) by {
                lemma_remove_keys_sub(old_view.bidders, forgotten@, k);
            }
            assert forall|q: u128| #[trigger] self@.projects.contains_key(q) implies project_wf(q, self@.project_count, self@.projects[q]) by {
                if q == project_id {
                    assert(milestones_of(self@.projects[q]) == milestones_of(old_view.projects[q]));
                }
            }
        }
        Ok(())
    }

    /// Creates a project of the caller with `milestone_one` and up to four
    /// more milestones, numbered in order, and collects each milestone's cost
    /// from the publisher into the milestone's escrow; refused as a whole when
    /// the publisher cannot pay.
    pub fn create_project(
        &mut self,
        ledger: &mut Ledger,
        origin: Origin,
        publisher_name: Vec<u8>,
        project_name: Vec<u8>,
        tags: Vec<TaskTypeTags>,
        milestone_one: MilestoneHelper,
        add_milestones: Vec<MilestoneHelper>,
    ) -> (r: DispatchResult)
        requires
            old(self).wf(),
            create_project_error(old(self)@, origin, add_milestones@) is None ==> capped_costs(helper_costs(seq![milestone_one] + add_milestones@)) <= u32::MAX,
        ensures
            final(self).wf(),
            final(ledger).total() == old(ledger).total(),
            match create_project_error(old(self)@, origin, add_milestones@) {
                Some(e) => r == Err::<(), DispatchError<Error>>(e) && final(self)@ == old(self)@ && final(ledger)@ == old(ledger)@,
                None => {
                    let sender = signer(origin).unwrap();
                    let pid = (old(self)@.project_count + 1) as u128;
                    let hs = seq![milestone_one] + add_milestones@;
                    let collected = collect_outcome(old(ledger)@, sender, pid, 0, helper_costs(hs));
                    if !collected.1 {
                        r == Err::<(), DispatchError<Error>>(DispatchError::Module(Error::NotEnoughBalance))
                            && final(self)@ == old(self)@ && final(ledger)@ == old(ledger)@
                    } else {
                        let p = final(self)@.projects[pid];
                        let ms = milestones_of(p);
                        let n = old(self)@.events.len();
                        &&& r is Ok
                        &&& final(ledger)@ == collected.0
                        &&& final(self)@.project_count == pid
                        &&& final(self)@.projects.contains_key(pid)
                        &&& final(self)@.projects == old(self)@.projects.insert(pid, p)
                        &&& p == (ProjectDetails {
                            project_id: pid,
                            publisher: sender,
                            project_name,
                            tags,
                            publisher_name: Some(publisher_name),
                            milestones: p.milestones,
                            overall_customer_rating: None,
                            status: ProjectStatus::Ready,
                        })
                        &&& p.milestones is Some
                        &&& ms.len() == hs.len()
                        &&& forall|i: int| 0 <= i < hs.len() ==> milestone_from_helper(#[trigger] ms[i], pid, i as nat, hs[i])
                        &&& final(self)@.accounts == old(self)@.accounts
                        &&& final(self)@.bidders == old(self)@.bidders
                        &&& final(self)@.count == old(self)@.count
                        &&& final(self)@.transfers == old(self)@.transfers
                        &&& final(self)@.events.len() == n + add_milestones@.len() + 1
                        &&& final(self)@.events.take(n as int) == old(self)@.events
                        &&& milestone_created_events(final(self)@.events.subrange(n as int, (n + add_milestones@.len()) as int), pid, 1, add_milestones@)
                        &&& match final(self)@.events.last() {
                            Event::ProjectCreated(q, name, publisher) => q == pid && name@ == project_name@ && publisher == sender,
                            _ => false,
                        }
                    }
                },
            },
            market_advances(old(self)@, final(self)@),
    {
        let publisher = match ensure_signed(origin) {
            Ok(a) => a,
            Err(e) => return Err(e),
        };
        if add_milestones.len() >= MAX_MILESTONES {
            return Err(DispatchError::Module(Error::MilestoneLimitReached));
        }
        let ghost hs = seq![milestone_one] + add_milestones@;
        let project_id = match self.project_count.checked_add(1) {
            Some(id) => id,
            None => return Err(DispatchError::Module(Error::CannotCreateFurtherProjects)),
        };
        let name_for_event = copy_bytes(&project_name);
        let mut project = ProjectDetails::new(project_id, project_name, tags, publisher, publisher_name);
        let mid = create_milestone_id(project_id, 0);
        let milestone1 = Milestone::new(
            mid,
            milestone_one.name,
            milestone_one.tags,
            milestone_one.cost,
            milestone_one.deadline,
            milestone_one.publisher_attachments,
        );
        let mut vector_of_milestones: Vec<Milestone> = Vec::new();
        vector_of_milestones.push(milestone1);
        let mut created_events: Vec<Event> = Vec::new();
        let mut rest = add_milestones;
        let ghost added = rest@;
        while rest.len() > 0
            invariant
                hs == seq![milestone_one] + added,
                added.len() < MAX_MILESTONES,
                1 <= vector_of_milestones@.len() <= added.len() + 1,
                rest@ == added.skip(vector_of_milestones@.len() - 1),
                forall|i: int| 0 <= i < vector_of_milestones@.len() ==> milestone_from_helper(#[trigger] vector_of_milestones@[i], project_id, i as nat, hs[i]),
                milestone_created_events(created_events@, project_id, 1, added.take(vector_of_milestones@.len() - 1)),
            decreases rest.len(),
        {
            let ghost k = vector_of_milestones@.len() as int;
            let milestone_helper = rest.remove(0);
            assert(milestone_helper == hs[k]);
            let mid = create_milestone_id(project_id, vector_of_milestones.len() as u8);
            created_events.push(Event::MileStoneCreated(copy_bytes(&mid), milestone_helper.cost));
            let milestone = Milestone::new(
                mid,
                milestone_helper.name,
                milestone_helper.tags,
                milestone_helper.cost,
                milestone_helper.deadline,
                milestone_helper.publisher_attachments,
            );
            vector_of_milestones.push(milestone);
            proof {
                assert(rest@ =~= added.skip(vector_of_milestones@.len() - 1));
                assert(added.take(k) =~= added.take(k - 1).push(added[k - 1]));
                assert(added[k - 1] == hs[k]);
            }
        }
        assert(vector_of_milestones@.len() == hs.len());
        assert(added.take(added.len() as int) =~= added);
        proof {
            lemma_costs_of_helpers(vector_of_milestones@, project_id, hs);
        }
        let mut work = ledger.duplicate();
        proof {
            assert forall|i: int| 0 <= i < vector_of_milestones@.len() implies (#[trigger] vector_of_milestones@[i]).milestone_id@ == milestone_id_of(project_id, (0 + i) as u8) by {
                assert(milestone_from_helper(vector_of_milestones@[i], project_id, i as nat, hs[i]));
            }
            lemma_collect_by_ids_positional(work@, publisher, vector_of_milestones@, project_id, 0);
        }
        match Self::collect_publisher_tokens(&mut work, publisher, vector_of_milestones.as_slice()) {
            Ok(()) => {},
            Err(_) => return Err(DispatchError::Module(Error::NotEnoughBalance)),
        }
        *ledger = work;
        let ghost old_view = self@;
        let ghost evs = created_events@;
        project.milestones = Some(vector_of_milestones);
        self.project_count = project_id;
        self.projects.insert(project_id, project);
        self.events.append(&mut created_events);
        self.events.push(Event::ProjectCreated(project_id, name_for_event, publisher));
        proof {
            assert(self@.bidders == old(self)@.bidders);
            let n = old_view.events.len();
            assert(self@.events.take(n as int) =~= old_view.events);
            assert(self@.events.subrange(n as int, (n + added.len()) as int) =~= evs);
            assert forall|q: u128| #[trigger] self@.projects.contains_key(q) implies project_wf(q, self@.project_count, self@.projects[q]) by {
                if q != project_id {
                    assert(old_view.projects.contains_key(q));
                }
            }
        }
        Ok(())
    }

    /// Adds milestones to a project of the caller that is not closed,
    /// numbered after its existing ones, up to five in all, and collects each
    /// new milestone's cost from the publisher into its escrow; refused as a
    /// whole when the publisher cannot pay.
    pub fn add_milestones_to_project(
        &mut self,
        ledger: &mut Ledger,
        origin: Origin,
        project_id: u128,
        milestones: Vec<MilestoneHelper>,
    ) -> (r: DispatchResult)
        requires
            old(self).wf(),
            add_milestones_error(old(self)@, origin, project_id, milestones@) is None ==> capped_costs(helper_costs(milestones@)) <= u32::MAX,
        ensures
            final(self).wf(),
            final(ledger).total() == old(ledger).total(),
            match add_milestones_error(old(self)@, origin, project_id, milestones@) {
                Some(e) => r == Err::<(), DispatchError<Error>>(e) && final(self)@ == old(self)@ && final(ledger)@ == old(ledger)@,
                None => {
                    let sender = signer(origin).unwrap();
                    let p = old(self)@.projects[project_id];
                    let first = milestones_of(p).len();
                    let collected = collect_outcome(old(ledger)@, sender, project_id, first, helper_costs(milestones@));
                    if !collected.1 {
                        r == Err::<(), DispatchError<Error>>(DispatchError::Module(Error::NotEnoughBalance))
                            && final(self)@ == old(self)@ && final(ledger)@ == old(ledger)@
                    } else {
                        let q = final(self)@.projects[project_id];
                        let ms = milestones_of(q);
                        let n = old(self)@.events.len();
                        &&& r is Ok
                        &&& final(ledger)@ == collected.0
                        &&& final(self)@.projects.contains_key(project_id)
                        &&& final(self)@.projects == old(self)@.projects.insert(project_id, q)
                        &&& q == (ProjectDetails { milestones: q.milestones, ..p })
                        &&& q.milestones is Some
                        &&& ms.len() == first + milestones@.len()
                        &&& ms.take(first as int) == milestones_of(p)
                        &&& forall|i: int| 0 <= i < milestones@.len() ==> milestone_from_helper(#[trigger] ms[first + i], project_id, (first + i) as nat, milestones@[i])
                        &&& final(self)@.accounts == old(self)@.accounts
                        &&& final(self)@.project_count == old(self)@.project_count
                        &&& final(self)@.bidders == old(self)@.bidders
                        &&& final(self)@.count == old(self)@.count
                        &&& final(self)@.transfers == old(self)@.transfers
                        &&& final(self)@.events.take(n as int) == old(self)@.events
                        &&& milestone_created_events(final(self)@.events.skip(n as int), project_id, first, milestones@)
                    }
                },
            },
            market_advances(old(self)@, final(self)@),
    {
        let sender = match ensure_signed(origin) {
            Ok(a) => a,
            Err(e) => return Err(e),
        };
        let first: usize = match self.projects.get(&project_id) {
            None => return Err(DispatchError::Module(Error::ProjectDoesNotExist)),
            Some(project) => {
                if project.publisher != sender {
                    return Err(DispatchError::Module(Error::Unauthorised));
                }
                if project.status == ProjectStatus::Closed {
                    return Err(DispatchError::Module(Error::ProjectClosed));
                }
                match &project.milestones {
                    None => 0,
                    Some(v) => {
                        if milestones.len() > MAX_MILESTONES - v.len() {
                            return Err(DispatchError::Module(Error::MilestoneLimitReached));
                        }
                        v.len()
                    },
                }
            },
        };
        let ghost old_view = self@;
        let ghost p = self@.projects[project_id];
        proof {
            assert(project_wf(project_id, self@.project_count, p));
        }
        let ghost hs = milestones@;
        let mut new_milestones: Vec<Milestone> = Vec::new();
        let mut created_events: Vec<Event> = Vec::new();
        let mut rest = milestones;
        while rest.len() > 0
            invariant
                first + hs.len() <= MAX_MILESTONES,
                new_milestones@.len() <= hs.len(),
                rest@ == hs.skip(new_milestones@.len() as int),
                forall|i: int| 0 <= i < new_milestones@.len() ==> milestone_from_helper(#[trigger] new_milestones@[i], project_id, (first + i) as nat, hs[i]),
                milestone_created_events(created_events@, project_id, first as nat, hs.take(new_milestones@.len() as int)),
            decreases rest.len(),
        {
            let ghost k = new_milestones@.len() as int;
            let milestone_helper = rest.remove(0);
            assert(milestone_helper == hs[k]);
            assert(k < hs.len());
            assert(first + hs.len() <= MAX_MILESTONES);
            assert(first + k < MAX_MILESTONES);
            let made = new_milestones.len();
            assert(made == k);
            let number = first + made;
            let mid = create_milestone_id(project_id, number as u8);
            created_events.push(Event::MileStoneCreated(copy_bytes(&mid), milestone_helper.cost));
            let milestone = Milestone::new(
                mid,
                milestone_helper.name,
                milestone_helper.tags,
                milestone_helper.cost,
                milestone_helper.deadline,
                milestone_helper.publisher_attachments,
            );
            new_milestones.push(milestone);
            proof {
                assert(rest@ =~= hs.skip(new_milestones@.len() as int));
                assert(hs.take(k + 1) =~= hs.take(k).push(hs[k]));
            }
        }
        assert(hs.take(hs.len() as int) =~= hs);
        proof {
            assert(costs_of(new_milestones@) =~= helper_costs(hs)) by {
                assert forall|i: int| 0 <= i < hs.len() implies costs_of(new_milestones@)[i] == helper_costs(hs)[i] by {
                    assert(milestone_from_helper(new_milestones@[i], project_id, (first + i) as nat, hs[i]));
                }
            }
        }
        let mut work = ledger.duplicate();
        proof {
            assert forall|i: int| 0 <= i < new_milestones@.len() implies (#[trigger] new_milestones@[i]).milestone_id@ == milestone_id_of(project_id, (first + i) as u8) by {
                assert(milestone_from_helper(new_milestones@[i], project_id, (first + i) as nat, hs[i]));
            }
            lemma_collect_by_ids_positional(work@, sender, new_milestones@, project_id, first as nat);
        }
        match Self::collect_publisher_tokens(&mut work, sender, new_milestones.as_slice()) {
            Ok(()) => {},
            Err(_) => return Err(DispatchError::Module(Error::NotEnoughBalance)),
        }
        *ledger = work;
        let ghost evs = created_events@;
        let ghost added = new_milestones@;
        let mut project = self.projects.remove(&project_id).unwrap();
        let mut vector_of_milestones = match project.milestones.take() {
            Some(v) => v,
            None => Vec::new(),
        };
        let ghost before_ms = vector_of_milestones@;
        vector_of_milestones.append(&mut new_milestones);
        project.milestones = Some(vector_of_milestones);
        self.projects.insert(project_id, project);
        self.events.append(&mut created_events);
        proof {
            let n = old_view.events.len();
            assert(before_ms == milestones_of(p));
            assert(self@.bidders == old(self)@.bidders);
            assert(self@.projects =~= old_view.projects.insert(project_id, project));
            assert(self@.events.take(n as int) =~= old_view.events);
            assert(self@.events.skip(n as int) =~= evs);
            let ms = milestones_of(project);
            assert(ms == before_ms + added);
            assert(ms.take(first as int) =~= milestones_of(p));
            assert forall|i: int| 0 <= i < hs.len() implies milestone_from_helper(#[trigger] ms[first + i], project_id, (first + i) as nat, hs[i]) by {
                assert(ms[first + i] == added[i]);
            }
            assert forall|q: u128| #[trigger] self@.projects.contains_key(q) implies project_wf(q, self@.project_count, self@.projects[q]) by {
                if q == project_id {
                    assert forall|i: int| 0 <= i < ms.len() implies {
                        &&& (#[trigger] project.milestones.unwrap()@[i]).milestone_id@ == milestone_id_of(q, i as u8)
                        &&& milestone_wf(project.milestones.unwrap()@[i])
                    } by {
                        if i >= first {
                            assert(milestone_from_helper(added[i - first], project_id, i as nat, hs[i - first]));
                        } else {
                            assert(ms[i] == before_ms[i]);
                        }
                    }
                }
            }
        }
        Ok(())
    }

    /// Transfers `transfer_amount` from the caller to `to`, keeping the
    /// caller's account alive, and records both balances before and after.
    pub fn transfer_money(&mut self, ledger: &mut Ledger, origin: Origin, to: AccountId, transfer_amount: Balance) -> (r: DispatchResult)
        requires
            old(self).wf(),
        ensures
            final(self).wf(),
            final(ledger).total() == old(ledger).total(),
            match signer(origin) {
                None => r == Err::<(), DispatchError<Error>>(DispatchError::BadOrigin) && final(self)@ == old(self)@ && final(ledger)@ == old(ledger)@,
                Some(sender) => {
                    let from = Holder::Account(sender);
                    let dest = Holder::Account(to);
                    let from_before = balance_in(old(ledger)@, from);
                    let to_before = balance_in(old(ledger)@, dest);
                    if from_before < transfer_amount {
                        r == Err::<(), DispatchError<Error>>(DispatchError::Module(Error::NotEnoughBalance))
                            && final(self)@ == old(self)@ && final(ledger)@ == old(ledger)@
                    } else {
                        match transfer_result(old(ledger)@, from, dest, transfer_amount, ExistenceRequirement::KeepAlive) {
                            Err(e) => r == Err::<(), DispatchError<Error>>(DispatchError::Currency(e))
                                && final(self)@ == old(self)@ && final(ledger)@ == old(ledger)@,
                            Ok(l) => {
                                let from_after = balance_in(l, from);
                                let to_after = balance_in(l, dest);
                                &&& r is Ok
                                &&& final(ledger)@ == l
                                &&& final(self)@ == (MarketView {
                                    transfers: seq![TransferDetails::spec_new(sender, from_before, from_after, to, to_before, to_after)],
                                    events: old(self)@.events.push(Event::CountIncreased(old(self)@.count)).push(
                                        Event::TransferMoney(sender, from_before, from_after, to, to_before, to_after)),
                                    ..old(self)@
                                })
                            },
                        }
                    }
                },
            },
            market_advances(old(self)@, final(self)@),
    {
        let sender = match ensure_signed(origin) {
            Ok(a) => a,
            Err(e) => return Err(e),
        };
        let sender_account_balance = ledger.total_balance(Holder::Account(sender));
        if sender_account_balance < transfer_amount {
            return Err(DispatchError::Module(Error::NotEnoughBalance));
        }
        let to_account_balance = ledger.total_balance(Holder::Account(to));
        match ledger.transfer(Holder::Account(sender), Holder::Account(to), transfer_amount, ExistenceRequirement::KeepAlive) {
            Ok(()) => {},
            Err(e) => return Err(DispatchError::Currency(e)),
        }
        let updated_sender_account_balance = ledger.total_balance(Holder::Account(sender));
        let updated_to_account_balance = ledger.total_balance(Holder::Account(to));
        self.events.push(Event::CountIncreased(self.count));
        let transfer_details = TransferDetails {
            transfer_from: sender,
            from_before: sender_account_balance,
            from_after: updated_sender_account_balance,
            transfer_to: to,
            to_before: to_account_balance,
            to_after: updated_to_account_balance,
        };
        let mut details: Vec<TransferDetails> = Vec::new();
        details.push(transfer_details);
        self.transfers = details;
        self.events.push(Event::TransferMoney(
            sender,
            sender_account_balance,
            updated_sender_account_balance,
            to,
            to_account_balance,
            updated_to_account_balance,
        ));
        proof {
            assert(self@.transfers =~= seq![transfer_details]);
            assert(self@.projects == old(self)@.projects);
            assert(self@.project_count == old(self)@.project_count);
        }
        Ok(())
    }

    /// The escrow account of the milestone that `id` names.
    pub fn get_escrow(id: Vec<u8>) -> (h: Holder)
        ensures
            h == escrow_of(key_of(id@)),
    {
        match get_milestone_and_project_id(&id) {
            Some((milestone_number, project_id)) => Self::escrow_for(MilestoneKey { project_id, milestone_number }),
            None => Self::escrow_for(MilestoneKey { project_id: 0, milestone_number: u8::MAX }),
        }
    }

    fn escrow_for(key: MilestoneKey) -> (h: Holder)
        ensures
            h == escrow_of(key),
    {
        Holder::MilestoneEscrow(key)
    }
}

/// The milestones of `p`, none when it has no list.
pub open spec fn milestones_of(p: ProjectDetails) -> Seq<Milestone> {
    match p.milestones {
        Some(ms) => ms@,
        None => Seq::empty(),
    }
}

/// `q` is `p` with its milestone `n` replaced by `m`.
pub open spec fn replaces_milestone(p: ProjectDetails, q: ProjectDetails, n: int, m: Milestone) -> bool {
    &&& q.project_id == p.project_id
    &&& q.publisher == p.publisher
    &&& q.project_name == p.project_name
    &&& q.tags == p.tags
    &&& q.publisher_name == p.publisher_name
    &&& q.overall_customer_rating == p.overall_customer_rating
    &&& q.status == p.status
    &&& q.milestones is Some
    &&& q.milestones.unwrap()@ == milestones_of(p).update(n, m)
}

/// The error of a call whose origin must be a signed account, if it is not.
pub open spec fn signer(origin: Origin) -> Option<AccountId> {
    match origin {
        Origin::Signed(a) => Some(a),
        _ => None,
    }
}

pub open spec fn module_error(e: Error) -> Option<DispatchError<Error>> {
    Some(DispatchError::Module(e))
}

/// Why `approve_milestone` refuses, if it does.
pub open spec fn approve_milestone_error(v: MarketView, origin: Origin, id: Seq<u8>) -> Option<DispatchError<Error>> {
    match signer(origin) {
        None => Some(DispatchError::BadOrigin),
        Some(sender) => match parsed_milestone_id(id) {
            None => module_error(Error::InvalidMilestoneId),
            Some((n, pid)) => if !v.projects.contains_key(pid) {
                module_error(Error::ProjectDoesNotExist)
            } else if v.projects[pid].publisher != sender {
                module_error(Error::UnauthorisedToApprove)
            } else if v.projects[pid].status != ProjectStatus::Open {
                module_error(Error::ProjectNotOpenToProvideRating)
            } else if v.projects[pid].milestones is None || n >= (milestones_of(v.projects[pid]).len() as u8) {
                module_error(Error::InvalidMilestoneId)
            } else if milestones_of(v.projects[pid])[n as int].status != Status::PendingApproval {
                module_error(Error::MilestoneNotPendingApproval)
            } else {
                None
            },
        },
    }
}

/// Why `complete_milestone` refuses, if it does.
pub open spec fn complete_milestone_error(v: MarketView, origin: Origin, id: Seq<u8>) -> Option<DispatchError<Error>> {
    match signer(origin) {
        None => Some(DispatchError::BadOrigin),
        Some(sender) => match parsed_milestone_id(id) {
            None => module_error(Error::InvalidMilestoneId),
            Some((n, pid)) => if !v.projects.contains_key(pid) {
                module_error(Error::ProjectDoesNotExist)
            } else if v.projects[pid].status != ProjectStatus::Open {
                module_error(Error::ProjectNotOpenForMilestoneCompletion)
            } else if sender == v.projects[pid].publisher {
                module_error(Error::PublisherCannotCompleteMilestone)
            } else if v.projects[pid].milestones is None || n >= (milestones_of(v.projects[pid]).len() as u8) {
                module_error(Error::InvalidMilestoneId)
            } else if milestones_of(v.projects[pid])[n as int].status != Status::InProgress {
                module_error(Error::MilestoneNotInProgress)
            } else if milestones_of(v.projects[pid])[n as int].worker_id != Some(sender) {
                module_error(Error::UnauthorisedToComplete)
            } else {
                None
            },
        },
    }
}

/// Why `provide_customer_rating` refuses, if it does.
pub open spec fn provide_customer_rating_error(v: MarketView, origin: Origin, id: Seq<u8>) -> Option<DispatchError<Error>> {
    match signer(origin) {
        None => Some(DispatchError::BadOrigin),
        Some(sender) => match parsed_milestone_id(id) {
            None => module_error(Error::InvalidMilestoneId),
            Some((n, pid)) => if !v.projects.contains_key(pid) {
                module_error(Error::ProjectDoesNotExist)
            } else if v.projects[pid].publisher == sender {
                module_error(Error::PublisherCannotRateSelf)
            } else if v.projects[pid].status != ProjectStatus::Open {
                module_error(Error::ProjectNotOpenToProvideRating)
            } else if v.projects[pid].milestones is None || n >= (milestones_of(v.projects[pid]).len() as u8) {
                module_error(Error::InvalidMilestoneId)
            } else if milestones_of(v.projects[pid])[n as int].status != Status::CustomerRatingPending {
                module_error(Error::MilestoneNotPendingRating)
            } else if milestones_of(v.projects[pid])[n as int].worker_id != Some(sender) {
                module_error(Error::UnauthorisedToProvideCustomerRating)
            } else {
                None
            },
        },
    }
}

/// Balances after refunding `cost` from `escrow` to each of the first `k`
/// bidders but the one at position `except`, stopping at the first refund the
/// currency refuses; `false` when one was refused.
pub open spec fn refund_bidders(
    m: Map<Holder, Balance>,
    escrow: Holder,
    bids: Seq<Bid>,
    cost: Balance,
    except: u32,
    k: nat,
) -> (Map<Holder, Balance>, bool)
    decreases k,
{
    if k == 0 {
        (m, true)
    } else {
        let (m1, ok) = refund_bidders(m, escrow, bids, cost, except, (k - 1) as nat);
        if !ok {
            (m1, false)
        } else if ((k - 1) as u32) == except {
            (m1, true)
        } else {
            match transfer_result(m1, escrow, Holder::Account(bids[k - 1].bidder_id), cost, ExistenceRequirement::AllowDeath) {
                Ok(m2) => (m2, true),
                Err(_) => (m1, false),
            }
        }
    }
}

/// The costs of the milestones, in order.
pub open spec fn costs_of(ms: Seq<Milestone>) -> Seq<Balance> {
    Seq::new(ms.len(), |i: int| ms[i].cost)
}

/// The costs of the milestones that the helpers describe, in order.
pub open spec fn helper_costs(hs: Seq<MilestoneHelper>) -> Seq<Balance> {
    Seq::new(hs.len(), |i: int| hs[i].cost)
}

/// A cost capped at the largest `u32`.
pub open spec fn capped(c: Balance) -> nat {
    if c > u32::MAX {
        u32::MAX as nat
    } else {
        c as nat
    }
}

/// Sum of the costs, each capped at the largest `u32`.
pub open spec fn capped_costs(cs: Seq<Balance>) -> nat
    decreases cs.len(),
{
    if cs.len() == 0 {
        0
    } else {
        capped_costs(cs.drop_last()) + capped(cs.last())
    }
}

proof fn lemma_capped_costs_prefix(cs: Seq<Balance>, i: int)
    requires
        0 <= i < cs.len(),
    ensures
        capped_costs(cs.take(i + 1)) == capped_costs(cs.take(i)) + capped(cs[i]),
        capped_costs(cs.take(i + 1)) <= capped_costs(cs),
    decreases cs.len() - i,
{
    assert(cs.take(i + 1).drop_last() =~= cs.take(i));
    if i + 1 < cs.len() {
        lemma_capped_costs_prefix(cs, i + 1);
    } else {
        assert(cs.take(i + 1) =~= cs);
    }
}

/// The escrow of milestone number `n` of project `pid`.
pub open spec fn milestone_escrow(pid: u128, n: nat) -> Holder {
    escrow_of(MilestoneKey { project_id: pid, milestone_number: n as u8 })
}

/// Balances after the publisher pays each of the first `k` costs into the
/// escrow of its milestone (cost `i` belonging to milestone number
/// `first + i`), stopping at the first payment the currency refuses; `false`
/// when one was refused.
pub open spec fn pay_into_escrows(
    m: Map<Holder, Balance>,
    publisher: AccountId,
    pid: u128,
    first: nat,
    cs: Seq<Balance>,
    k: nat,
) -> (Map<Holder, Balance>, bool)
    decreases k,
{
    if k == 0 {
        (m, true)
    } else {
        let (m1, ok) = pay_into_escrows(m, publisher, pid, first, cs, (k - 1) as nat);
        if !ok {
            (m1, false)
        } else {
            match transfer_result(m1, Holder::Account(publisher), milestone_escrow(pid, (first + k - 1) as nat), cs[k - 1], ExistenceRequirement::KeepAlive) {
                Ok(m2) => (m2, true),
                Err(_) => (m1, false),
            }
        }
    }
}

/// Balances after the publisher pays for milestones of the given costs:
/// nothing moves when its balance is below the capped sum of the costs
/// (`false`), else the costs are paid one by one.
pub open spec fn collect_outcome(
    m: Map<Holder, Balance>,
    publisher: AccountId,
    pid: u128,
    first: nat,
    cs: Seq<Balance>,
) -> (Map<Holder, Balance>, bool) {
    if balance_in(m, Holder::Account(publisher)) < capped_costs(cs) {
        (m, false)
    } else {
        pay_into_escrows(m, publisher, pid, first, cs, cs.len())
    }
}

/// Balances after the publisher pays the cost of each of the first `k`
/// milestones into the escrow of the milestone's id, and whether every
/// payment went through; the payments stop at the first refused one.
pub open spec fn pay_by_ids(
    m: Map<Holder, Balance>,
    publisher: AccountId,
    ms: Seq<Milestone>,
    k: nat,
) -> (Map<Holder, Balance>, bool)
    decreases k,
{
    if k == 0 {
        (m, true)
    } else {
        let (m1, ok) = pay_by_ids(m, publisher, ms, (k - 1) as nat);
        if !ok {
            (m1, false)
        } else {
            match transfer_result(m1, Holder::Account(publisher), escrow_of(key_of(ms[k - 1].milestone_id@)), ms[k - 1].cost, ExistenceRequirement::KeepAlive) {
                Ok(m2) => (m2, true),
                Err(_) => (m1, false),
            }
        }
    }
}

/// What collecting the costs of milestones `ms` from the publisher gives:
/// nothing moves when the balance is below the capped sum of the costs,
/// else each cost is paid into the escrow of its milestone's id.
pub open spec fn collect_by_ids(m: Map<Holder, Balance>, publisher: AccountId, ms: Seq<Milestone>) -> (Map<Holder, Balance>, bool) {
    if balance_in(m, Holder::Account(publisher)) < capped_costs(costs_of(ms)) {
        (m, false)
    } else {
        pay_by_ids(m, publisher, ms, ms.len())
    }
}

proof fn lemma_pay_by_ids_stops(m: Map<Holder, Balance>, publisher: AccountId, ms: Seq<Milestone>, k: nat, n: nat)
    requires
        k <= n,
        !pay_by_ids(m, publisher, ms, k).1,
    ensures
        pay_by_ids(m, publisher, ms, n) == pay_by_ids(m, publisher, ms, k),
    decreases n - k,
{
    if k < n {
        lemma_pay_by_ids_stops(m, publisher, ms, k, (n - 1) as nat);
    }
}

proof fn lemma_pay_by_ids_positional(m: Map<Holder, Balance>, publisher: AccountId, ms: Seq<Milestone>, pid: u128, first: nat, k: nat)
    requires
        k <= ms.len(),
        first + ms.len() <= MAX_MILESTONES,
        forall|i: int| 0 <= i < ms.len() ==> (#[trigger] ms[i]).milestone_id@ == milestone_id_of(pid, (first + i) as u8),
    ensures
        pay_by_ids(m, publisher, ms, k) == pay_into_escrows(m, publisher, pid, first, costs_of(ms), k),
    decreases k,
{
    if k > 0 {
        lemma_pay_by_ids_positional(m, publisher, ms, pid, first, (k - 1) as nat);
        let i = k - 1;
        assert(ms[i].milestone_id@ == milestone_id_of(pid, (first + i) as u8));
        lemma_parse_milestone_id_of(pid, (first + i) as u8);
        assert(key_of(ms[i].milestone_id@) == MilestoneKey { project_id: pid, milestone_number: (first + i) as u8 });
    }
}

/// Collecting the costs of milestones whose ids number them from `first` in
/// project `pid` pays them in that order into those milestones' escrows.
proof fn lemma_collect_by_ids_positional(m: Map<Holder, Balance>, publisher: AccountId, ms: Seq<Milestone>, pid: u128, first: nat)
    requires
        first + ms.len() <= MAX_MILESTONES,
        forall|i: int| 0 <= i < ms.len() ==> (#[trigger] ms[i]).milestone_id@ == milestone_id_of(pid, (first + i) as u8),
    ensures
        collect_by_ids(m, publisher, ms) == collect_outcome(m, publisher, pid, first, costs_of(ms)),
{
    lemma_pay_by_ids_positional(m, publisher, ms, pid, first, ms.len());
}

/// The milestone that an id names; an id that names none gets the key of
/// project zero with the largest milestone number, which no id of a
/// milestone carries.
pub open spec fn key_of(id: Seq<u8>) -> MilestoneKey {
    match parsed_milestone_id(id) {
        Some((n, pid)) => MilestoneKey { project_id: pid, milestone_number: n },
        None => MilestoneKey { project_id: 0, milestone_number: u8::MAX },
    }
}

/// The milestone that a well-formed id names in `v`.
pub open spec fn named_milestone(v: MarketView, id: Seq<u8>) -> Milestone {
    milestones_of(v.projects[key_of(id).project_id])[key_of(id).milestone_number as int]
}

/// Why `bid_for_milestone` refuses before looking at the bidder's balance, if it does.
pub open spec fn bid_for_milestone_error(v: MarketView, origin: Origin, id: Seq<u8>) -> Option<DispatchError<Error>> {
    match signer(origin) {
        None => Some(DispatchError::BadOrigin),
        Some(sender) => match parsed_milestone_id(id) {
            None => module_error(Error::InvalidMilestoneId),
            Some((n, pid)) => if !v.projects.contains_key(pid) {
                module_error(Error::ProjectDoesNotExist)
            } else if v.projects[pid].status != ProjectStatus::Open {
                module_error(Error::ProjectNotOpenForBidding)
            } else if v.projects[pid].publisher == sender {
                module_error(Error::PublisherCannotBid)
            } else if v.projects[pid].milestones is None || n >= (milestones_of(v.projects[pid]).len() as u8) {
                module_error(Error::InvalidMilestoneId)
            } else if milestones_of(v.projects[pid])[n as int].status != Status::Open {
                module_error(Error::MilestoneNotOpenForBidding)
            } else {
                None
            },
        },
    }
}

/// Why `accept_bid` refuses before refunding the other bidders, if it does.
pub open spec fn accept_bid_error(v: MarketView, origin: Origin, id: Seq<u8>, bid_number: u32) -> Option<DispatchError<Error>> {
    match signer(origin) {
        None => Some(DispatchError::BadOrigin),
        Some(sender) => match parsed_milestone_id(id) {
            None => module_error(Error::InvalidMilestoneId),
            Some((n, pid)) => if !v.projects.contains_key(pid) {
                module_error(Error::ProjectDoesNotExist)
            } else if v.projects[pid].publisher != sender {
                module_error(Error::Unauthorised)
            } else if v.projects[pid].status != ProjectStatus::Open {
                module_error(Error::ProjectNotOpenForBidding)
            } else if v.projects[pid].milestones is None || n >= (milestones_of(v.projects[pid]).len() as u8) {
                module_error(Error::InvalidMilestoneId)
            } else if milestones_of(v.projects[pid])[n as int].status != Status::Open {
                module_error(Error::MilestoneNotOpenForBidding)
            } else if bid_number == 0 || bid_number > v.bids_of(key_of(id)).len() {
                module_error(Error::InvalidBidNumber)
            } else {
                None
            },
        },
    }
}

/// `after` is milestone `before` given to the bidder of `bid`.
pub open spec fn assigned_to_bidder(before: Milestone, after: Milestone, bid: Bid) -> bool {
    &&& after == (Milestone {
        status: Status::InProgress,
        worker_id: Some(bid.bidder_id),
        worker_name: after.worker_name,
        ..before
    })
    &&& after.worker_name is Some
    &&& after.worker_name.unwrap()@ == bid.bidder_name@
}

/// Why `close_milestone` refuses before paying the worker, if it does.
pub open spec fn close_milestone_error(v: MarketView, origin: Origin, id: Seq<u8>) -> Option<DispatchError<Error>> {
    match signer(origin) {
        None => Some(DispatchError::BadOrigin),
        Some(sender) => match parsed_milestone_id(id) {
            None => module_error(Error::InvalidMilestoneId),
            Some((n, pid)) => if !v.projects.contains_key(pid) {
                module_error(Error::ProjectDoesNotExist)
            } else if v.projects[pid].publisher != sender {
                module_error(Error::Unauthorised)
            } else if v.projects[pid].status != ProjectStatus::Open {
                module_error(Error::ProjectNotOpen)
            } else if v.projects[pid].milestones is None || n >= (milestones_of(v.projects[pid]).len() as u8) {
                module_error(Error::InvalidMilestoneId)
            } else if milestones_of(v.projects[pid])[n as int].status != Status::CustomerRatingProvided {
                module_error(Error::CustomerRatingNotProvided)
            } else {
                None
            },
        },
    }
}

/// The ratings that workers gave the publisher, milestone by milestone.
pub open spec fn customer_ratings(ms: Seq<Milestone>) -> Seq<u8>
    decreases ms.len(),
{
    if ms.len() == 0 {
        Seq::empty()
    } else {
        let rest = customer_ratings(ms.drop_last());
        match ms.last().final_customer_rating {
            Some(r) => rest.push(r),
            None => rest,
        }
    }
}

/// The rounded average of the ratings workers gave the publisher of `p`, if any.
pub open spec fn publisher_rating(p: ProjectDetails) -> Option<u8> {
    let rs = customer_ratings(milestones_of(p));
    if p.milestones is Some && rs.len() > 0 {
        Some(rounded_average(ratings_sum(rs) as u8, rs.len() as u8))
    } else {
        None
    }
}

/// The publisher's ratings of `p` can be added up in a byte.
pub open spec fn publisher_rating_fits(p: ProjectDetails) -> bool {
    ratings_sum(customer_ratings(milestones_of(p))) <= u8::MAX && customer_ratings(milestones_of(p)).len() <= u8::MAX
}

proof fn lemma_customer_ratings_step(ms: Seq<Milestone>, i: int)
    requires
        0 <= i < ms.len(),
    ensures
        customer_ratings(ms.take(i + 1)) == match ms[i].final_customer_rating {
            Some(r) => customer_ratings(ms.take(i)).push(r),
            None => customer_ratings(ms.take(i)),
        },
{
    assert(ms.take(i + 1).drop_last() =~= ms.take(i));
}

proof fn lemma_customer_ratings_prefix_bounded(ms: Seq<Milestone>, i: int)
    requires
        0 <= i <= ms.len(),
    ensures
        ratings_sum(customer_ratings(ms.take(i))) <= ratings_sum(customer_ratings(ms)),
        customer_ratings(ms.take(i)).len() <= customer_ratings(ms).len(),
    decreases ms.len() - i,
{
    if i < ms.len() {
        lemma_customer_ratings_prefix_bounded(ms, i + 1);
        lemma_customer_ratings_step(ms, i);
        let rs = customer_ratings(ms.take(i));
        match ms[i].final_customer_rating {
            Some(r) => {
                assert(rs.push(r).drop_last() =~= rs);
            },
            None => {},
        }
    } else {
        assert(ms.take(i) =~= ms);
    }
}

/// What closing a project does, milestone by milestone, to the balances and
/// the bids, and whether it succeeds so far: a completed milestone is left as
/// it is; an open milestone's cost goes back from its escrow to the publisher
/// (a refused payment is ignored), then its bidders are refunded and its bids
/// forgotten (a refused refund makes the outcome a failure, which a later open
/// milestone's refunds overwrite); any other milestone stops the closing.
/// The result is (balances, bids, refunds succeeded, stopped).
pub open spec fn close_steps(
    m: Map<Holder, Balance>,
    bidders: Map<MilestoneKey, Vec<Bid>>,
    publisher: AccountId,
    pid: u128,
    ms: Seq<Milestone>,
    k: nat,
) -> (Map<Holder, Balance>, Map<MilestoneKey, Vec<Bid>>, bool, bool)
    decreases k,
{
    if k == 0 {
        (m, bidders, true, false)
    } else {
        let (l, b, ok, stopped) = close_steps(m, bidders, publisher, pid, ms, (k - 1) as nat);
        let mi = ms[k - 1];
        if stopped {
            (l, b, ok, true)
        } else if mi.status == Status::Completed {
            (l, b, ok, false)
        } else if mi.status == Status::Open {
            let key = MilestoneKey { project_id: pid, milestone_number: (k - 1) as u8 };
            let escrow = escrow_of(key);
            let l1 = match transfer_result(l, escrow, Holder::Account(publisher), mi.cost, ExistenceRequirement::AllowDeath) {
                Ok(x) => x,
                Err(_) => l,
            };
            let bids = if b.contains_key(key) { b[key]@ } else { Seq::<Bid>::empty() };
            let (l2, ok2) = refund_bidders(l1, escrow, bids, mi.cost, u32::MAX, bids.len());
            (l2, if ok2 { b.remove(key) } else { b }, ok2, false)
        } else {
            (l, b, ok, true)
        }
    }
}

/// Why `close_project` refuses before looking at the milestones, if it does.
pub open spec fn close_project_error(v: MarketView, origin: Origin, pid: u128) -> Option<DispatchError<Error>> {
    match signer(origin) {
        None => Some(DispatchError::BadOrigin),
        Some(sender) => if !v.projects.contains_key(pid) {
            module_error(Error::ProjectDoesNotExist)
        } else if sender != v.projects[pid].publisher {
            module_error(Error::Unauthorised)
        } else {
            None
        },
    }
}

/// `m` is milestone number `i` of project `pid`, made from helper `h`.
pub open spec fn milestone_from_helper(m: Milestone, pid: u128, i: nat, h: MilestoneHelper) -> bool {
    &&& m.milestone_id@ == milestone_id_of(pid, i as u8)
    &&& m == (Milestone {
        milestone_id: m.milestone_id,
        milestone_name: h.name,
        tags: h.tags,
        cost: h.cost,
        status: Status::Open,
        deadline: h.deadline,
        worker_id: None,
        worker_name: None,
        publisher_attachments: Some(h.publisher_attachments),
        worker_attachments: None,
        final_worker_rating: None,
        final_customer_rating: None,
    })
}

/// `evs` report, in order, the creation of milestones numbered from `first`
/// of project `pid`, made from the helpers `hs`.
pub open spec fn milestone_created_events(evs: Seq<Event>, pid: u128, first: nat, hs: Seq<MilestoneHelper>) -> bool {
    &&& evs.len() == hs.len()
    &&& forall|k: int| 0 <= k < hs.len() ==> match #[trigger] evs[k] {
        Event::MileStoneCreated(id, c) => id@ == milestone_id_of(pid, (first + k) as u8) && c == hs[k].cost,
        _ => false,
    }
}

/// Why `create_project` refuses before collecting the costs, if it does.
pub open spec fn create_project_error(v: MarketView, origin: Origin, add_milestones: Seq<MilestoneHelper>) -> Option<DispatchError<Error>> {
    match signer(origin) {
        None => Some(DispatchError::BadOrigin),
        Some(_) => if add_milestones.len() >= MAX_MILESTONES {
            module_error(Error::MilestoneLimitReached)
        } else if v.project_count == u128::MAX {
            module_error(Error::CannotCreateFurtherProjects)
        } else {
            None
        },
    }
}

/// Why `add_milestones_to_project` refuses before collecting the costs, if it does.
pub open spec fn add_milestones_error(v: MarketView, origin: Origin, pid: u128, hs: Seq<MilestoneHelper>) -> Option<DispatchError<Error>> {
    match signer(origin) {
        None => Some(DispatchError::BadOrigin),
        Some(sender) => if !v.projects.contains_key(pid) {
            module_error(Error::ProjectDoesNotExist)
        } else if v.projects[pid].publisher != sender {
            module_error(Error::Unauthorised)
        } else if v.projects[pid].status == ProjectStatus::Closed {
            module_error(Error::ProjectClosed)
        } else if v.projects[pid].milestones is Some && hs.len() + milestones_of(v.projects[pid]).len() > MAX_MILESTONES {
            module_error(Error::MilestoneLimitReached)
        } else {
            None
        },
    }
}

/// Why `add_project_to_marketplace` refuses, if it does.
pub open spec fn add_project_to_marketplace_error(v: MarketView, origin: Origin, pid: u128) -> Option<DispatchError<Error>> {
    match signer(origin) {
        None => Some(DispatchError::BadOrigin),
        Some(sender) => if !v.projects.contains_key(pid) {
            module_error(Error::ProjectDoesNotExist)
        } else if v.projects[pid].publisher != sender {
            module_error(Error::Unauthorised)
        } else if v.projects[pid].status != ProjectStatus::Ready {
            module_error(Error::ProjectNotReady)
        } else {
            None
        },
    }
}

/// `after` is `before` with milestone `n` of project `pid` replaced by `m` and
/// the events extended by `new_events`.
pub open spec fn milestone_replaced(before: MarketView, after: MarketView, pid: u128, n: int, m: Milestone) -> bool {
    &&& after.projects.contains_key(pid)
    &&& after.projects == before.projects.insert(pid, after.projects[pid])
    &&& replaces_milestone(before.projects[pid], after.projects[pid], n, m)
    &&& after.accounts == before.accounts
    &&& after.project_count == before.project_count
    &&& after.bidders == before.bidders
    &&& after.count == before.count
    &&& after.transfers == before.transfers
}


/// The position of a milestone status in a milestone's life.
pub open spec fn milestone_rank(s: Status) -> int {
    match s {
        Status::Open => 0,
        Status::InProgress => 1,
        Status::PendingApproval => 2,
        Status::CustomerRatingPending => 3,
        Status::CustomerRatingProvided => 4,
        Status::Completed => 5,
    }
}

/// The position of a project status in a project's life.
pub open spec fn project_rank(s: ProjectStatus) -> int {
    match s {
        ProjectStatus::Ready => 0,
        ProjectStatus::Open => 1,
        ProjectStatus::Closed => 2,
    }
}

/// From `p` to `q` the project keeps its publisher, its milestones keep
/// their costs and places, none is removed, and no status goes back.
pub open spec fn project_advances(p: ProjectDetails, q: ProjectDetails) -> bool {
    &&& q.publisher == p.publisher
    &&& project_rank(p.status) <= project_rank(q.status)
    &&& milestones_of(p).len() <= milestones_of(q).len()
    &&& forall|i: int| #![trigger milestones_of(q)[i]]
        0 <= i < milestones_of(p).len() ==> {
            &&& milestone_rank(milestones_of(p)[i].status) <= milestone_rank(milestones_of(q)[i].status)
            &&& milestones_of(q)[i].cost == milestones_of(p)[i].cost
        }
}

/// From `v` to `v2` no project disappears and every project advances.
pub open spec fn market_advances(v: MarketView, v2: MarketView) -> bool {
    forall|pid: u128| #[trigger] v.projects.contains_key(pid) ==> v2.projects.contains_key(pid)
        && project_advances(v.projects[pid], v2.projects[pid])
}

proof fn lemma_replaced_advances(before: MarketView, after: MarketView, pid: u128, n: int, m: Milestone)
    requires
        milestone_replaced(before, after, pid, n, m),
        before.projects.contains_key(pid),
        0 <= n < milestones_of(before.projects[pid]).len(),
        milestone_rank(milestones_of(before.projects[pid])[n].status) <= milestone_rank(m.status),
        m.cost == milestones_of(before.projects[pid])[n].cost,
    ensures
        market_advances(before, after),
{
    assert forall|q: u128| #[trigger] before.projects.contains_key(q) implies after.projects.contains_key(q)
        && project_advances(before.projects[q], after.projects[q]) by {
        if q != pid {
            assert(after.projects[q] == before.projects[q]);
        }
    }
}

proof fn lemma_milestone_replaced(before: MarketView, after: MarketView, pid: u128, n: int, m: Milestone)
    requires
        before.wf(),
        before.projects.contains_key(pid),
        0 <= n < milestones_of(before.projects[pid]).len(),
        m.milestone_id == milestones_of(before.projects[pid])[n].milestone_id,
        milestone_wf(m),
        after.projects.contains_key(pid),
        after.projects == before.projects.insert(pid, after.projects[pid]),
        after.projects[pid] == (ProjectDetails { milestones: after.projects[pid].milestones, ..before.projects[pid] }),
        after.projects[pid].milestones is Some,
        milestones_of(after.projects[pid]) == milestones_of(before.projects[pid]).remove(n).insert(n, m),
        after.project_count == before.project_count,
        after.bidders == before.bidders,
    ensures
        replaces_milestone(before.projects[pid], after.projects[pid], n, m),
        after.wf(),
{
    let old_ms = milestones_of(before.projects[pid]);
    assert(milestones_of(after.projects[pid]) =~= old_ms.update(n, m));
    assert forall|q: u128| #[trigger] after.projects.contains_key(q) implies project_wf(q, after.project_count, after.projects[q]) by {
        if q == pid {
            let p2 = after.projects[pid];
            assert forall|i: int| 0 <= i < p2.milestones.unwrap()@.len() implies {
                &&& (#[trigger] p2.milestones.unwrap()@[i]).milestone_id@ == milestone_id_of(pid, i as u8)
                &&& milestone_wf(p2.milestones.unwrap()@[i])
            } by {
                if i != n {
                    assert(p2.milestones.unwrap()@[i] == old_ms[i]);
                }
            }
        }
    }
}

proof fn lemma_refund_bidders_stops(m: Map<Holder, Balance>, escrow: Holder, bids: Seq<Bid>, cost: Balance, except: u32, k: nat, n: nat)
    requires
        k <= n,
        !refund_bidders(m, escrow, bids, cost, except, k).1,
    ensures
        refund_bidders(m, escrow, bids, cost, except, n) == refund_bidders(m, escrow, bids, cost, except, k),
    decreases n - k,
{
    if k < n {
        lemma_refund_bidders_stops(m, escrow, bids, cost, except, k, (n - 1) as nat);
    }
}

/// Refunds `cost` from `escrow` to each bidder but the one at position
/// `except`, stopping at the first refund the currency refuses.
fn refund_all(ledger: &mut Ledger, bids: &[Bid], escrow: Holder, cost: Balance, except: u32) -> (ok: bool)
    ensures
        (final(ledger)@, ok) == refund_bidders(old(ledger)@, escrow, bids@, cost, except, bids@.len()),
        final(ledger).total() == old(ledger).total(),
{
    let mut i: usize = 0;
    while i < bids.len()
        invariant
            i <= bids@.len(),
            (ledger@, true) == refund_bidders(old(ledger)@, escrow, bids@, cost, except, i as nat),
            ledger.total() == old(ledger).total(),
        decreases bids@.len() - i,
    {
        assert((i as u32) == ((((i + 1) as nat) - 1) as u32));
        if i as u32 == except {
            i = i + 1;
            continue;
        }
        let ghost before = ledger@;
        match ledger.transfer(escrow, Holder::Account(bids[i].bidder_id), cost, ExistenceRequirement::AllowDeath) {
            Ok(()) => {},
            Err(_) => {
                proof {
                    assert(refund_bidders(old(ledger)@, escrow, bids@, cost, except, (i + 1) as nat) == (before, false));
                    lemma_refund_bidders_stops(old(ledger)@, escrow, bids@, cost, except, (i + 1) as nat, bids@.len());
                }
                return false;
            },
        }
        i = i + 1;
    }
    true
}

proof fn lemma_costs_of_helpers(ms: Seq<Milestone>, pid: u128, hs: Seq<MilestoneHelper>)
    requires
        ms.len() == hs.len(),
        forall|i: int| 0 <= i < hs.len() ==> milestone_from_helper(#[trigger] ms[i], pid, i as nat, hs[i]),
    ensures
        costs_of(ms) == helper_costs(hs),
{
    assert forall|i: int| 0 <= i < hs.len() implies costs_of(ms)[i] == helper_costs(hs)[i] by {
        assert(milestone_from_helper(ms[i], pid, i as nat, hs[i]));
    }
    assert(costs_of(ms) =~= helper_costs(hs));
}

/// `m` without the keys of `s`.
pub open spec fn remove_keys(m: Map<MilestoneKey, Vec<Bid>>, s: Seq<MilestoneKey>) -> Map<MilestoneKey, Vec<Bid>>
    decreases s.len(),
{
    if s.len() == 0 {
        m
    } else {
        remove_keys(m, s.drop_last()).remove(s.last())
    }
}

proof fn lemma_remove_keys_sub(m: Map<MilestoneKey, Vec<Bid>>, s: Seq<MilestoneKey>, k: MilestoneKey)
    ensures
        remove_keys(m, s).contains_key(k) ==> m.contains_key(k) && remove_keys(m, s)[k] == m[k],
    decreases s.len(),
{
    if s.len() > 0 {
        lemma_remove_keys_sub(m, s.drop_last(), k);
    }
}

proof fn lemma_remove_keys_keeps(m: Map<MilestoneKey, Vec<Bid>>, s: Seq<MilestoneKey>, k: MilestoneKey)
    requires
        !s.contains(k),
    ensures
        remove_keys(m, s).contains_key(k) == m.contains_key(k),
        m.contains_key(k) ==> remove_keys(m, s)[k] == m[k],
    decreases s.len(),
{
    if s.len() > 0 {
        assert(!s.drop_last().contains(k)) by {
            if s.drop_last().contains(k) {
                let i = choose|i: int| 0 <= i < s.drop_last().len() && s.drop_last()[i] == k;
                assert(s[i] == k);
            }
        }
        assert(s.last() != k) by {
            assert(s[s.len() - 1] == s.last());
        }
        lemma_remove_keys_keeps(m, s.drop_last(), k);
    }
}

proof fn lemma_close_steps_stopped(
    m: Map<Holder, Balance>,
    bidders: Map<MilestoneKey, Vec<Bid>>,
    publisher: AccountId,
    pid: u128,
    ms: Seq<Milestone>,
    k: nat,
    n: nat,
)
    requires
        k <= n,
        close_steps(m, bidders, publisher, pid, ms, k).3,
    ensures
        close_steps(m, bidders, publisher, pid, ms, n).3,
    decreases n - k,
{
    if k < n {
        lemma_close_steps_stopped(m, bidders, publisher, pid, ms, k, (n - 1) as nat);
    }
}

/// The user records that the initial list gives, a later record of a user
/// replacing an earlier one.
pub open spec fn genesis_accounts(s: Seq<(AccountId, AccountDetails)>) -> Map<AccountId, AccountDetails>
    decreases s.len(),
{
    if s.len() == 0 {
        Map::empty()
    } else {
        genesis_accounts(s.drop_last()).insert(s.last().0, s.last().1)
    }
}

fn copy_tags(v: &Vec<TaskTypeTags>) -> (c: Vec<TaskTypeTags>)
    ensures
        c@ == v@,
{
    let mut c: Vec<TaskTypeTags> = Vec::new();
    let mut i: usize = 0;
    while i < v.len()
        invariant
            i <= v@.len(),
            c@ == v@.take(i as int),
        decreases v@.len() - i,
    {
        c.push(v[i]);
        assert(v@.take(i + 1) =~= v@.take(i as int).push(v@[i as int]));
        i = i + 1;
    }
    assert(v@.take(i as int) =~= v@);
    c
}

fn copy_account(a: &AccountDetails) -> (c: AccountDetails)
    ensures
        same_account(c, *a),
{
    AccountDetails {
        balance: a.balance,
        ratings: copy_bytes(&a.ratings),
        avg_rating: a.avg_rating,
        tags: copy_tags(&a.tags),
        sudo: a.sudo,
    }
}


/// The records that users start with.
pub struct GenesisConfig {
    pub account_map: Vec<(AccountId, AccountDetails)>,
}

impl Default for GenesisConfig {
    fn default() -> (g: Self)
        ensures
            g.account_map@.len() == 0,
    {
        GenesisConfig { account_map: Vec::new() }
    }
}

impl GenesisConfig {
    /// The marketplace that starts from these records.
    pub fn build(self) -> (m: Pallet)
        ensures
            m.wf(),
            m@ == (MarketView {
                accounts: genesis_accounts(self.account_map@),
                project_count: 0,
                projects: Map::empty(),
                bidders: Map::empty(),
                count: 0,
                transfers: Seq::empty(),
                events: Seq::empty(),
            }),
    {
        Pallet::new(self.account_map)
    }
}

} // verus!
