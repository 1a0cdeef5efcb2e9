use dot_marketplace::dispatch::{DispatchError, Origin};
use dot_marketplace::ledger::{Holder, Ledger, TransferError};
use dot_marketplace::marketplace::{
    AccountDetails, Error, Event, GenesisConfig, Milestone, MilestoneHelper, Pallet, ProjectStatus,
    Status, TaskTypeTags, UserType,
};
use dot_marketplace::milestone_id::{create_milestone_id, MilestoneKey};

fn funded_ledger() -> Ledger {
    let mut ledger = Ledger::new();
    for account in 1..=7u64 {
        ledger.deposit_creating(Holder::Account(account), 100000).unwrap();
    }
    ledger
}

fn helper(name: &[u8], cost: u128) -> MilestoneHelper {
    MilestoneHelper {
        name: name.to_vec(),
        cost,
        tags: vec![TaskTypeTags::WebDevelopment],
        deadline: 10,
        publisher_attachments: vec![b"http://aws/publisher.png".to_vec()],
    }
}

fn escrow(project_id: u128, milestone_number: u8) -> Holder {
    Pallet::get_escrow(create_milestone_id(project_id, milestone_number))
}

fn module(e: Error) -> Result<(), DispatchError<Error>> {
    Err(DispatchError::Module(e))
}

/// Project 1 of account 1 with milestones `1a` (300) and `1b` (200), open on
/// the marketplace.
fn open_project(ledger: &mut Ledger) -> Pallet {
    let mut market = Pallet::new(vec![]);
    market
        .create_project(
            ledger,
            Origin::Signed(1),
            b"Alice".to_vec(),
            b"Website".to_vec(),
            vec![TaskTypeTags::WebDevelopment],
            helper(b"Design", 300),
            vec![helper(b"Build", 200)],
        )
        .unwrap();
    market.add_project_to_marketplace(Origin::Signed(1), 1).unwrap();
    market
}

fn milestone_status(market: &Pallet, project_id: u128, n: usize) -> Status {
    market.get_project(project_id).unwrap().milestones.as_ref().unwrap()[n].status
}

#[test]
fn creating_a_project_pays_every_milestone_into_its_escrow() {
    let mut ledger = funded_ledger();
    let mut market = Pallet::new(vec![]);
    assert_eq!(
        market.create_project(
            &mut ledger,
            Origin::Signed(1),
            b"Alice".to_vec(),
            b"Website".to_vec(),
            vec![TaskTypeTags::WebDevelopment],
            helper(b"Design", 300),
            vec![helper(b"Build", 200)],
        ),
        Ok(())
    );
    assert_eq!(market.get_project_count(), 1);
    let project = market.get_project(1).unwrap();
    assert_eq!(project.project_id, 1);
    assert_eq!(project.publisher, 1);
    assert_eq!(project.publisher_name, Some(b"Alice".to_vec()));
    assert_eq!(project.status, ProjectStatus::Ready);
    let milestones = project.milestones.as_ref().unwrap();
    assert_eq!(milestones.len(), 2);
    assert_eq!(milestones[0].milestone_id, b"1a".to_vec());
    assert_eq!(milestones[1].milestone_id, b"1b".to_vec());
    assert_eq!(milestones[1].cost, 200);
    assert_eq!(milestones[0].status, Status::Open);
    assert_eq!(ledger.free_balance(Holder::Account(1)), 99500);
    assert_eq!(ledger.free_balance(escrow(1, 0)), 300);
    assert_eq!(ledger.free_balance(escrow(1, 1)), 200);
    assert!(matches!(&market.events()[0], Event::MileStoneCreated(id, 200) if id == &b"1b".to_vec()));
    assert!(matches!(&market.events()[1], Event::ProjectCreated(1, name, 1) if name == &b"Website".to_vec()));
}

#[test]
fn a_project_has_at_most_five_milestones() {
    let mut ledger = funded_ledger();
    let mut market = Pallet::new(vec![]);
    let more: Vec<MilestoneHelper> = (0..5).map(|_| helper(b"m", 1)).collect();
    assert_eq!(
        market.create_project(&mut ledger, Origin::Signed(1), vec![], vec![], vec![], helper(b"m", 1), more),
        module(Error::MilestoneLimitReached)
    );
    assert_eq!(market.get_project_count(), 0);
    assert_eq!(ledger.free_balance(Holder::Account(1)), 100000);
}

#[test]
fn a_publisher_without_funds_creates_nothing() {
    let mut ledger = funded_ledger();
    let mut market = Pallet::new(vec![]);
    assert_eq!(
        market.create_project(&mut ledger, Origin::Signed(9), vec![], vec![], vec![], helper(b"m", 10), vec![]),
        module(Error::NotEnoughBalance)
    );
    assert!(market.get_project(1).is_none());
}

#[test]
fn milestones_are_added_up_to_the_limit() {
    let mut ledger = funded_ledger();
    let mut market = open_project(&mut ledger);
    assert_eq!(
        market.add_milestones_to_project(&mut ledger, Origin::Signed(1), 1, vec![helper(b"Test", 50)]),
        Ok(())
    );
    let milestones = market.get_project(1).unwrap().milestones.as_ref().unwrap();
    assert_eq!(milestones.len(), 3);
    assert_eq!(milestones[2].milestone_id, b"1c".to_vec());
    assert_eq!(ledger.free_balance(escrow(1, 2)), 50);
    assert_eq!(
        market.add_milestones_to_project(&mut ledger, Origin::Signed(1), 1, vec![helper(b"x", 1), helper(b"y", 1), helper(b"z", 1)]),
        module(Error::MilestoneLimitReached)
    );
    assert_eq!(
        market.add_milestones_to_project(&mut ledger, Origin::Signed(2), 1, vec![]),
        module(Error::Unauthorised)
    );
    assert_eq!(
        market.add_milestones_to_project(&mut ledger, Origin::Signed(1), 8, vec![]),
        module(Error::ProjectDoesNotExist)
    );
}

#[test]
fn only_a_ready_project_goes_on_the_marketplace() {
    let mut ledger = funded_ledger();
    let mut market = open_project(&mut ledger);
    assert_eq!(market.get_project(1).unwrap().status, ProjectStatus::Open);
    assert_eq!(market.add_project_to_marketplace(Origin::Signed(1), 1), module(Error::ProjectNotReady));
    assert_eq!(market.add_project_to_marketplace(Origin::Signed(2), 1), module(Error::Unauthorised));
    assert_eq!(market.add_project_to_marketplace(Origin::Signed(1), 2), module(Error::ProjectDoesNotExist));
}

#[test]
fn a_milestone_goes_from_bids_to_payment() {
    let mut ledger = funded_ledger();
    let mut market = open_project(&mut ledger);
    assert_eq!(market.bid_for_milestone(&mut ledger, Origin::Signed(3), b"1a".to_vec(), b"Bob".to_vec()), Ok(()));
    assert_eq!(market.bid_for_milestone(&mut ledger, Origin::Signed(4), b"1a".to_vec(), b"Carol".to_vec()), Ok(()));
    let bids = market.get_bidder_list(MilestoneKey { project_id: 1, milestone_number: 0 });
    assert_eq!(bids.len(), 2);
    assert_eq!(bids[0].bid_number, 1);
    assert_eq!(bids[1].bid_number, 2);
    assert_eq!(bids[1].bidder_id, 4);
    assert_eq!(ledger.free_balance(escrow(1, 0)), 900);

    assert_eq!(market.accept_bid(&mut ledger, Origin::Signed(1), b"1a".to_vec(), 1), Ok(()));
    assert!(matches!(market.events().last(), Some(Event::BidAccepted(id, 1)) if id == &b"1a".to_vec()));
    // the other bidder gets the stake back; the list is gone
    assert_eq!(ledger.free_balance(Holder::Account(4)), 100000);
    assert_eq!(ledger.free_balance(Holder::Account(3)), 99700);
    assert_eq!(ledger.free_balance(escrow(1, 0)), 600);
    assert!(market.get_bidder_list(MilestoneKey { project_id: 1, milestone_number: 0 }).is_empty());
    let m = &market.get_project(1).unwrap().milestones.as_ref().unwrap()[0];
    assert_eq!(m.status, Status::InProgress);
    assert_eq!(m.worker_id, Some(3));
    assert_eq!(m.worker_name, Some(b"Bob".to_vec()));

    assert_eq!(market.complete_milestone(Origin::Signed(3), b"1a".to_vec(), vec![b"http://aws/worker.png".to_vec()]), Ok(()));
    assert_eq!(milestone_status(&market, 1, 0), Status::PendingApproval);
    assert_eq!(market.approve_milestone(Origin::Signed(1), b"1a".to_vec(), 4), Ok(()));
    assert_eq!(milestone_status(&market, 1, 0), Status::CustomerRatingPending);
    assert_eq!(market.provide_customer_rating(Origin::Signed(3), b"1a".to_vec(), 5), Ok(()));
    assert_eq!(milestone_status(&market, 1, 0), Status::CustomerRatingProvided);
    assert_eq!(market.close_milestone(&mut ledger, Origin::Signed(1), b"1a".to_vec()), Ok(()));
    assert_eq!(milestone_status(&market, 1, 0), Status::Completed);
    // the whole escrow, cost and stake, goes to the worker
    assert_eq!(ledger.free_balance(Holder::Account(3)), 100300);
    assert_eq!(ledger.free_balance(escrow(1, 0)), 0);
    let worker = market.accounts(3);
    assert_eq!(worker.ratings, vec![4]);
    assert_eq!(worker.avg_rating, Some(4));

    // closing the project refunds the open milestone and rates the publisher
    assert_eq!(market.close_project(&mut ledger, Origin::Signed(1), 1), Ok(()));
    let project = market.get_project(1).unwrap();
    assert_eq!(project.status, ProjectStatus::Closed);
    assert_eq!(project.overall_customer_rating, Some(5));
    assert_eq!(ledger.free_balance(Holder::Account(1)), 99700);
    assert_eq!(ledger.free_balance(escrow(1, 1)), 0);
    assert_eq!(market.accounts(1).ratings, vec![5]);
    assert!(matches!(market.events().last(), Some(Event::ProjectClosed(1))));
}

#[test]
fn bidding_is_refused_where_it_does_not_belong() {
    let mut ledger = funded_ledger();
    let mut market = open_project(&mut ledger);
    assert_eq!(
        market.bid_for_milestone(&mut ledger, Origin::Signed(1), b"1a".to_vec(), vec![]),
        module(Error::PublisherCannotBid)
    );
    assert_eq!(
        market.bid_for_milestone(&mut ledger, Origin::Signed(3), b"1z".to_vec(), vec![]),
        module(Error::InvalidMilestoneId)
    );
    assert_eq!(
        market.bid_for_milestone(&mut ledger, Origin::Signed(3), b"garbage".to_vec(), vec![]),
        module(Error::InvalidMilestoneId)
    );
    assert_eq!(
        market.bid_for_milestone(&mut ledger, Origin::Signed(3), b"2a".to_vec(), vec![]),
        module(Error::ProjectDoesNotExist)
    );
    assert_eq!(
        market.bid_for_milestone(&mut ledger, Origin::Signed(9), b"1a".to_vec(), vec![]),
        module(Error::NotEnoughBalanceToBid)
    );
    assert_eq!(
        market.bid_for_milestone(&mut ledger, Origin::Unsigned, b"1a".to_vec(), vec![]),
        Err(DispatchError::BadOrigin)
    );
}

#[test]
fn accepting_needs_a_valid_bid_number() {
    let mut ledger = funded_ledger();
    let mut market = open_project(&mut ledger);
    assert_eq!(market.accept_bid(&mut ledger, Origin::Signed(1), b"1a".to_vec(), 1), module(Error::InvalidBidNumber));
    market.bid_for_milestone(&mut ledger, Origin::Signed(3), b"1a".to_vec(), vec![]).unwrap();
    assert_eq!(market.accept_bid(&mut ledger, Origin::Signed(1), b"1a".to_vec(), 0), module(Error::InvalidBidNumber));
    // bid number zero is checked after the project and milestone
    assert_eq!(market.accept_bid(&mut ledger, Origin::Signed(2), b"1a".to_vec(), 0), module(Error::Unauthorised));
    assert_eq!(ledger.free_balance(escrow(1, 0)), 600);
    assert_eq!(market.accept_bid(&mut ledger, Origin::Signed(1), b"1a".to_vec(), 2), module(Error::InvalidBidNumber));
    assert_eq!(market.accept_bid(&mut ledger, Origin::Signed(3), b"1a".to_vec(), 1), module(Error::Unauthorised));
    market.accept_bid(&mut ledger, Origin::Signed(1), b"1a".to_vec(), 1).unwrap();
    assert_eq!(
        market.accept_bid(&mut ledger, Origin::Signed(1), b"1a".to_vec(), 1),
        module(Error::MilestoneNotOpenForBidding)
    );
}

#[test]
fn milestone_steps_are_checked() {
    let mut ledger = funded_ledger();
    let mut market = open_project(&mut ledger);
    market.bid_for_milestone(&mut ledger, Origin::Signed(3), b"1a".to_vec(), vec![]).unwrap();
    assert_eq!(market.complete_milestone(Origin::Signed(3), b"1a".to_vec(), vec![]), module(Error::MilestoneNotInProgress));
    market.accept_bid(&mut ledger, Origin::Signed(1), b"1a".to_vec(), 1).unwrap();
    assert_eq!(market.complete_milestone(Origin::Signed(1), b"1a".to_vec(), vec![]), module(Error::PublisherCannotCompleteMilestone));
    assert_eq!(market.complete_milestone(Origin::Signed(4), b"1a".to_vec(), vec![]), module(Error::UnauthorisedToComplete));
    assert_eq!(market.approve_milestone(Origin::Signed(1), b"1a".to_vec(), 3), module(Error::MilestoneNotPendingApproval));
    market.complete_milestone(Origin::Signed(3), b"1a".to_vec(), vec![]).unwrap();
    assert_eq!(market.approve_milestone(Origin::Signed(3), b"1a".to_vec(), 3), module(Error::UnauthorisedToApprove));
    assert_eq!(market.provide_customer_rating(Origin::Signed(3), b"1a".to_vec(), 3), module(Error::MilestoneNotPendingRating));
    market.approve_milestone(Origin::Signed(1), b"1a".to_vec(), 3).unwrap();
    assert_eq!(market.provide_customer_rating(Origin::Signed(1), b"1a".to_vec(), 3), module(Error::PublisherCannotRateSelf));
    assert_eq!(market.provide_customer_rating(Origin::Signed(4), b"1a".to_vec(), 3), module(Error::UnauthorisedToProvideCustomerRating));
    assert_eq!(market.close_milestone(&mut ledger, Origin::Signed(1), b"1a".to_vec()), module(Error::CustomerRatingNotProvided));
    market.provide_customer_rating(Origin::Signed(3), b"1a".to_vec(), 3).unwrap();
    assert_eq!(market.close_milestone(&mut ledger, Origin::Signed(3), b"1a".to_vec()), module(Error::Unauthorised));
}

#[test]
fn a_project_with_work_under_way_cannot_close() {
    let mut ledger = funded_ledger();
    let mut market = open_project(&mut ledger);
    market.bid_for_milestone(&mut ledger, Origin::Signed(3), b"1b".to_vec(), vec![]).unwrap();
    market.accept_bid(&mut ledger, Origin::Signed(1), b"1b".to_vec(), 1).unwrap();
    assert_eq!(market.close_project(&mut ledger, Origin::Signed(1), 1), module(Error::CannotCloseProject));
    assert_eq!(market.close_project(&mut ledger, Origin::Signed(2), 1), module(Error::Unauthorised));
    assert_eq!(market.get_project(1).unwrap().status, ProjectStatus::Open);
}

#[test]
fn closing_refunds_bidders_of_open_milestones() {
    let mut ledger = funded_ledger();
    let mut market = open_project(&mut ledger);
    market.bid_for_milestone(&mut ledger, Origin::Signed(3), b"1a".to_vec(), vec![]).unwrap();
    market.bid_for_milestone(&mut ledger, Origin::Signed(4), b"1b".to_vec(), vec![]).unwrap();
    assert_eq!(market.close_project(&mut ledger, Origin::Signed(1), 1), Ok(()));
    for account in 1..=4u64 {
        assert_eq!(ledger.free_balance(Holder::Account(account)), 100000);
    }
    assert_eq!(market.get_project(1).unwrap().overall_customer_rating, None);
}

#[test]
fn transfers_record_both_balances() {
    let mut ledger = funded_ledger();
    let mut market = Pallet::new(vec![]);
    assert_eq!(market.transfer_money(&mut ledger, Origin::Signed(2), 5, 1000), Ok(()));
    assert_eq!(ledger.free_balance(Holder::Account(2)), 99000);
    assert_eq!(ledger.free_balance(Holder::Account(5)), 101000);
    assert_eq!(market.get_transfers().len(), 1);
    assert!(matches!(market.events().last(), Some(Event::TransferMoney(2, 100000, 99000, 5, 100000, 101000))));
    assert_eq!(market.transfer_money(&mut ledger, Origin::Signed(2), 5, 100000), module(Error::NotEnoughBalance));
    assert_eq!(
        market.transfer_money(&mut ledger, Origin::Signed(2), 5, 99000),
        Err(DispatchError::Currency(TransferError::KeepAlive))
    );
}

#[test]
fn genesis_records_and_rating_averages() {
    let seeded = AccountDetails { balance: 7, ratings: vec![4, 5], avg_rating: Some(5), tags: vec![], sudo: true };
    let market = Pallet::new(vec![(6, seeded)]);
    let a = market.accounts(6);
    assert_eq!(a.ratings, vec![4, 5]);
    assert!(a.sudo);
    assert_eq!(market.accounts(2).ratings, Vec::<u8>::new());
    assert_eq!(AccountDetails::get_list_average(&vec![4, 5]), 5);
    assert_eq!(AccountDetails::get_list_average(&vec![3]), 3);
    assert_eq!(AccountDetails::get_list_average(&vec![1, 2, 2]), 2);
    assert_eq!(UserType::default(), UserType::Worker);
    assert_eq!(Status::default(), Status::Open);
}

#[test]
fn genesis_config_builds_the_marketplace() {
    let empty = GenesisConfig::default().build();
    assert_eq!(empty.get_project_count(), 0);
    assert!(empty.accounts(1).ratings.is_empty());
    let first = AccountDetails { balance: 1, ratings: vec![1], avg_rating: Some(1), tags: vec![], sudo: false };
    let second = AccountDetails { balance: 2, ratings: vec![2, 3], avg_rating: Some(3), tags: vec![], sudo: false };
    let market = GenesisConfig { account_map: vec![(5, first), (5, second)] }.build();
    // a later record of the same user replaces an earlier one
    assert_eq!(market.accounts(5).ratings, vec![2, 3]);
    assert_eq!(market.accounts(5).balance, 2);
    assert_eq!(market.get_count(), 0);
}

fn total_held(ledger: &Ledger) -> u128 {
    let mut total = 0;
    for account in 1..=9u64 {
        total += ledger.free_balance(Holder::Account(account));
    }
    for project_id in 1..=2u128 {
        for n in 0..5u8 {
            total += ledger.free_balance(escrow(project_id, n));
        }
    }
    total
}

#[test]
fn funds_are_moved_never_made_or_lost() {
    let mut ledger = funded_ledger();
    let before = total_held(&ledger);
    let mut market = open_project(&mut ledger);
    market.bid_for_milestone(&mut ledger, Origin::Signed(3), b"1a".to_vec(), vec![]).unwrap();
    market.bid_for_milestone(&mut ledger, Origin::Signed(4), b"1a".to_vec(), vec![]).unwrap();
    market.accept_bid(&mut ledger, Origin::Signed(1), b"1a".to_vec(), 2).unwrap();
    assert!(matches!(market.events().last(), Some(Event::BidAccepted(_, 2))));
    market.complete_milestone(Origin::Signed(4), b"1a".to_vec(), vec![]).unwrap();
    market.approve_milestone(Origin::Signed(1), b"1a".to_vec(), 5).unwrap();
    market.provide_customer_rating(Origin::Signed(4), b"1a".to_vec(), 2).unwrap();
    market.close_milestone(&mut ledger, Origin::Signed(1), b"1a".to_vec()).unwrap();
    market.transfer_money(&mut ledger, Origin::Signed(5), 6, 123).unwrap();
    market.close_project(&mut ledger, Origin::Signed(1), 1).unwrap();
    assert_eq!(total_held(&ledger), before);
    assert_eq!(ledger.free_balance(Holder::Account(4)), 100300);
    assert_eq!(ledger.free_balance(Holder::Account(3)), 100000);
}

#[test]
fn milestone_statuses_only_move_forward() {
    let mut ledger = funded_ledger();
    let mut market = open_project(&mut ledger);
    market.bid_for_milestone(&mut ledger, Origin::Signed(3), b"1a".to_vec(), vec![]).unwrap();
    market.accept_bid(&mut ledger, Origin::Signed(1), b"1a".to_vec(), 1).unwrap();
    market.complete_milestone(Origin::Signed(3), b"1a".to_vec(), vec![]).unwrap();
    // a second bid or completion cannot take the milestone back
    assert!(market.bid_for_milestone(&mut ledger, Origin::Signed(4), b"1a".to_vec(), vec![]).is_err());
    assert!(market.complete_milestone(Origin::Signed(3), b"1a".to_vec(), vec![]).is_err());
    assert_eq!(milestone_status(&market, 1, 0), Status::PendingApproval);
    assert_eq!(milestone_status(&market, 1, 1), Status::Open);
}

fn milestone(id: &[u8], cost: u128) -> Milestone {
    Milestone::new(id.to_vec(), b"m".to_vec(), vec![], cost, 1, vec![])
}

#[test]
fn publisher_tokens_go_to_each_milestone_s_own_escrow() {
    let mut ledger = funded_ledger();
    let ms = vec![milestone(b"1a", 100), milestone(b"2a", 100)];
    assert_eq!(Pallet::collect_publisher_tokens(&mut ledger, 1, &ms), Ok(()));
    assert_eq!(ledger.free_balance(Pallet::get_escrow(b"1a".to_vec())), 100);
    assert_eq!(ledger.free_balance(Pallet::get_escrow(b"2a".to_vec())), 100);
    assert_eq!(ledger.free_balance(Holder::Account(1)), 99800);
    // the escrow of an id is that of the milestone it names
    assert_eq!(
        Pallet::get_escrow(b"2a".to_vec()),
        Holder::MilestoneEscrow(MilestoneKey { project_id: 2, milestone_number: 0 })
    );
    assert_ne!(Pallet::get_escrow(b"1a".to_vec()), Pallet::get_escrow(b"1b".to_vec()));
}

#[test]
fn publisher_tokens_need_the_whole_sum() {
    let mut ledger = funded_ledger();
    let ms = vec![milestone(b"1a", 60000), milestone(b"1b", 60000)];
    assert_eq!(Pallet::collect_publisher_tokens(&mut ledger, 1, &ms), Err(Error::NotEnoughBalance));
    assert_eq!(ledger.free_balance(Holder::Account(1)), 100000);
    assert_eq!(ledger.free_balance(Pallet::get_escrow(b"1a".to_vec())), 0);
    // a payment that would leave the publisher with nothing is refused; the earlier one stays
    let ms = vec![milestone(b"1a", 40000), milestone(b"1b", 60000)];
    assert_eq!(Pallet::collect_publisher_tokens(&mut ledger, 1, &ms), Err(Error::NotEnoughBalance));
    assert_eq!(ledger.free_balance(Pallet::get_escrow(b"1a".to_vec())), 40000);
    assert_eq!(ledger.free_balance(Pallet::get_escrow(b"1b".to_vec())), 0);
}

#[test]
fn ids_that_name_no_milestone_share_one_escrow() {
    assert_eq!(Pallet::get_escrow(b"x".to_vec()), Pallet::get_escrow(b"garbage".to_vec()));
    assert_ne!(Pallet::get_escrow(b"x".to_vec()), Pallet::get_escrow(b"0a".to_vec()));
}
