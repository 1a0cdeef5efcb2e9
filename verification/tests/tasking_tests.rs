use dot_marketplace::dispatch::{DispatchError, Origin};
use dot_marketplace::ledger::{Holder, Ledger, TransferError};
use dot_marketplace::task::{Task, TaskStatus, DAYS};
use dot_marketplace::tasking::{Error, Event, Pallet};
use dot_marketplace::user::{self, TagSet, UserTrait};

const BID_AMOUNT: u128 = 100;

fn funded_ledger() -> Ledger {
    let mut ledger = Ledger::new();
    for account in 1..=7u64 {
        ledger.deposit_creating(Holder::Account(account), 100000).unwrap();
    }
    ledger
}

fn module(e: Error) -> Result<(), DispatchError<Error>> {
    Err(DispatchError::Module(e))
}

/// A board with task 1, "Backend Systems", posted by account 1.
fn board_with_task(ledger: &mut Ledger) -> Pallet {
    let mut board = Pallet::new(1, BID_AMOUNT);
    board
        .create_task(ledger, Origin::Signed(1), b"Backend Systems".to_vec(), 500, 50)
        .unwrap();
    board
}

/// Task 1 taken on by account 3.
fn board_in_progress(ledger: &mut Ledger) -> Pallet {
    let mut board = board_with_task(ledger);
    board.bid_on_task(Origin::Signed(3), 1).unwrap();
    board.accept_bid(Origin::Signed(1), 1, 3).unwrap();
    board.accept_work(ledger, Origin::Signed(3), 1).unwrap();
    board
}

fn status_of(board: &Pallet, id: u128) -> TaskStatus {
    *board.tasks(id).unwrap().get_status()
}

#[test]
fn test_create_task() {
    let mut ledger = funded_ledger();
    let mut board = Pallet::new(1, BID_AMOUNT);
    assert_eq!(
        board.create_task(&mut ledger, Origin::Signed(1), b"Create a website".to_vec(), 300, 30),
        Ok(())
    );
    let task = board.tasks(1).unwrap();
    assert_eq!(*task.get_owner_details(), 1);
    assert_eq!(task.get_cost(), 300);
    assert_eq!(task.get_deadline(), 30);
    assert_eq!(*task.get_status(), TaskStatus::Open);
    assert_eq!(*task.get_worker_details(), None);
    assert_eq!(task.get_revisions(), 0);
    assert_eq!(task.get_completion(), None);
    assert_eq!(board.task_id(), 1);
    assert_eq!(ledger.free_balance(Holder::Account(1)), 99700);
    assert_eq!(ledger.free_balance(Pallet::escrow_account_id(1)), 300);

    let mut board = Pallet::new(1, BID_AMOUNT);
    assert_eq!(
        board.create_task(&mut ledger, Origin::Unsigned, b"Create a website".to_vec(), 300, 30),
        Err(DispatchError::BadOrigin)
    );
    assert!(board.tasks(1).is_none());
}

#[test]
fn test_bid_for_task() {
    let mut ledger = funded_ledger();
    let mut board = board_with_task(&mut ledger);
    assert_eq!(board.bid_on_task(Origin::Signed(3), 1), Ok(()));
    assert_eq!(board.bid_on_task(Origin::Signed(3), 10), module(Error::TaskDoesNotExist));
}

#[test]
fn test_task_completed() {
    let mut ledger = funded_ledger();
    let mut board = board_in_progress(&mut ledger);
    assert_eq!(
        board.complete_work(Origin::Signed(3), 1, b"http://aws/worker.png".to_vec()),
        Ok(())
    );
    assert_eq!(
        board.complete_work(Origin::Signed(4), 1, b"http://aws/worker.png".to_vec()),
        module(Error::NotWorker)
    );
}

#[test]
fn test_approve_task() {
    let mut ledger = funded_ledger();
    let mut users = user::Pallet::new();
    let mut board = board_in_progress(&mut ledger);
    board.complete_work(Origin::Signed(3), 1, b"http://aws/worker.png".to_vec()).unwrap();
    assert_eq!(board.approve_task(&mut users, Origin::Signed(1), 1, 5), Ok(()));
    assert_eq!(board.approve_task(&mut users, Origin::Signed(2), 1, 5), module(Error::NoPermission));
}

#[test]
fn test_provide_customer_ratings() {
    let mut ledger = funded_ledger();
    let mut users = user::Pallet::new();
    let mut board = board_in_progress(&mut ledger);
    board.complete_work(Origin::Signed(3), 1, b"http://aws/worker.png".to_vec()).unwrap();
    board.approve_task(&mut users, Origin::Signed(1), 1, 5).unwrap();
    assert_eq!(board.provide_customer_rating(&mut users, Origin::Signed(3), 1, 5), Ok(()));
    assert_eq!(
        board.provide_customer_rating(&mut users, Origin::Signed(3), 2, 5),
        module(Error::TaskDoesNotExist)
    );
}

#[test]
fn task_goes_through_its_whole_lifecycle() {
    let mut ledger = funded_ledger();
    let mut users = user::Pallet::new();
    let mut board = board_with_task(&mut ledger);
    assert_eq!(status_of(&board, 1), TaskStatus::Open);
    board.bid_on_task(Origin::Signed(3), 1).unwrap();
    board.accept_bid(Origin::Signed(1), 1, 3).unwrap();
    assert_eq!(status_of(&board, 1), TaskStatus::AwaitingBidderResponse);
    board.accept_work(&mut ledger, Origin::Signed(3), 1).unwrap();
    assert_eq!(status_of(&board, 1), TaskStatus::InProgress);
    assert_eq!(*board.tasks(1).unwrap().get_worker_details(), Some(3));
    assert_eq!(board.tasks(1).unwrap().get_completion(), Some(1 + 50 * DAYS));
    board.complete_work(Origin::Signed(3), 1, b"http://aws/worker.png".to_vec()).unwrap();
    assert_eq!(status_of(&board, 1), TaskStatus::PendingApproval);
    board.approve_task(&mut users, Origin::Signed(1), 1, 5).unwrap();
    assert_eq!(status_of(&board, 1), TaskStatus::CustomerRatingPending);
    assert_eq!(users.get_user_from_storage(3).get_worker_rating(), Some(5000));
    board.provide_customer_rating(&mut users, Origin::Signed(3), 1, 4).unwrap();
    assert_eq!(status_of(&board, 1), TaskStatus::AwaitingCompletion);
    assert_eq!(users.get_user_from_storage(1).get_publisher_rating(), Some(4000));
    board.complete_task(&mut ledger, Origin::Signed(1), 1).unwrap();
    // the escrow pays the worker the cost and the bid amount
    assert_eq!(ledger.free_balance(Holder::Account(1)), 100000 - 500);
    assert_eq!(ledger.free_balance(Holder::Account(3)), 100000 - BID_AMOUNT + 500 + BID_AMOUNT);
    assert_eq!(ledger.free_balance(Pallet::escrow_account_id(1)), 0);
    assert_eq!(status_of(&board, 1), TaskStatus::Completed);
    assert_eq!(board.complete_task(&mut ledger, Origin::Signed(1), 1), module(Error::NotAllowed));
    assert_eq!(
        board.events().to_vec(),
        vec![
            Event::TaskCreated { task_id: 1, owner: 1 },
            Event::BidPlaced { task_id: 1, bidder: 3 },
            Event::BidAccepted { task_id: 1, bidder: 3 },
            Event::WorkAccepted { task_id: 1, bidder: 3 },
            Event::WorkCompleted { task_id: 1, worker: 3 },
            Event::TaskApproved { task_id: 1, rating: 5 },
            Event::CustomerRatingProvided { task_id: 1, rating: 4 },
            Event::TaskCompleted { task_id: 1 },
        ]
    );
}

#[test]
fn task_ids_count_up_from_one() {
    let mut ledger = funded_ledger();
    let mut board = board_with_task(&mut ledger);
    board.create_task(&mut ledger, Origin::Signed(2), b"Second".to_vec(), 10, 1).unwrap();
    assert_eq!(board.task_id(), 2);
    assert_eq!(*board.tasks(2).unwrap().get_owner_details(), 2);
    assert_eq!(*board.tasks(1).unwrap().get_owner_details(), 1);
}

#[test]
fn owner_cannot_bid_and_nobody_bids_twice() {
    let mut ledger = funded_ledger();
    let mut board = board_with_task(&mut ledger);
    assert_eq!(board.bid_on_task(Origin::Signed(1), 1), module(Error::OwnerCannotBid));
    board.bid_on_task(Origin::Signed(2), 1).unwrap();
    assert_eq!(board.bid_on_task(Origin::Signed(2), 1), module(Error::BidAlreadyPlaced));
    assert_eq!(board.bid_on_task(Origin::Root, 1), Err(DispatchError::BadOrigin));
}

#[test]
fn bids_only_on_open_tasks() {
    let mut ledger = funded_ledger();
    let mut board = board_in_progress(&mut ledger);
    assert_eq!(board.bid_on_task(Origin::Signed(4), 1), module(Error::NotAllowed));
}

#[test]
fn accepting_needs_owner_and_a_bid() {
    let mut ledger = funded_ledger();
    let mut board = board_with_task(&mut ledger);
    board.bid_on_task(Origin::Signed(3), 1).unwrap();
    assert_eq!(board.accept_bid(Origin::Signed(2), 1, 3), module(Error::NoPermission));
    assert_eq!(board.accept_bid(Origin::Signed(1), 1, 4), module(Error::BidDoesNotExist));
    assert_eq!(board.accept_bid(Origin::Signed(1), 9, 3), module(Error::TaskDoesNotExist));
    board.accept_bid(Origin::Signed(1), 1, 3).unwrap();
    assert_eq!(board.accept_bid(Origin::Signed(1), 1, 3), module(Error::NotAllowed));
}

#[test]
fn rejecting_the_accepted_bid_reopens_the_task() {
    let mut ledger = funded_ledger();
    let mut board = board_with_task(&mut ledger);
    board.bid_on_task(Origin::Signed(3), 1).unwrap();
    board.bid_on_task(Origin::Signed(4), 1).unwrap();
    board.accept_bid(Origin::Signed(1), 1, 3).unwrap();
    assert_eq!(board.reject_bid(Origin::Signed(1), 1, 3), Ok(()));
    assert_eq!(status_of(&board, 1), TaskStatus::Open);
    // the accepted bidder can no longer take the work on
    assert_eq!(board.accept_work(&mut ledger, Origin::Signed(3), 1), module(Error::NotAllowed));
    // a pending bid can be rejected once
    assert_eq!(board.reject_bid(Origin::Signed(1), 1, 4), Ok(()));
    assert_eq!(board.reject_bid(Origin::Signed(1), 1, 4), module(Error::BidDoesNotExist));
    assert_eq!(board.reject_bid(Origin::Signed(2), 1, 4), module(Error::NoPermission));
}

#[test]
fn declining_the_work_reopens_the_task() {
    let mut ledger = funded_ledger();
    let mut board = board_with_task(&mut ledger);
    board.bid_on_task(Origin::Signed(3), 1).unwrap();
    board.accept_bid(Origin::Signed(1), 1, 3).unwrap();
    assert_eq!(board.reject_work(Origin::Signed(4), 1), module(Error::NotAllowed));
    assert_eq!(board.reject_work(Origin::Signed(3), 1), Ok(()));
    assert_eq!(status_of(&board, 1), TaskStatus::Open);
    assert_eq!(board.reject_work(Origin::Signed(3), 1), module(Error::NotAllowed));
}

#[test]
fn retracting_a_bid_is_checked_and_reported() {
    let mut ledger = funded_ledger();
    let mut board = board_with_task(&mut ledger);
    assert_eq!(board.undo_bid(Origin::Signed(3), 1), module(Error::BidDoesNotExist));
    assert_eq!(board.undo_bid(Origin::Signed(3), 5), module(Error::TaskDoesNotExist));
    board.bid_on_task(Origin::Signed(3), 1).unwrap();
    board.bid_on_task(Origin::Signed(4), 1).unwrap();
    assert_eq!(board.undo_bid(Origin::Signed(3), 1), Ok(()));
    assert_eq!(board.events().last(), Some(&Event::BidRemoved { task_id: 1, bidder: 3 }));
    // the retracted bid is gone: it can neither be retracted again nor accepted
    assert_eq!(board.undo_bid(Origin::Signed(3), 1), module(Error::BidDoesNotExist));
    assert_eq!(board.accept_bid(Origin::Signed(1), 1, 3), module(Error::BidDoesNotExist));
    // the other bid stays, and the bidder may propose again
    assert_eq!(board.accept_bid(Origin::Signed(1), 1, 4), Ok(()));
    assert_eq!(board.reject_bid(Origin::Signed(1), 1, 4), Ok(()));
    assert_eq!(board.bid_on_task(Origin::Signed(3), 1), Ok(()));
}

#[test]
fn taking_work_on_stakes_the_bid_amount() {
    let mut ledger = funded_ledger();
    let board = board_in_progress(&mut ledger);
    assert_eq!(ledger.free_balance(Holder::Account(3)), 100000 - BID_AMOUNT);
    assert_eq!(ledger.free_balance(Pallet::escrow_account_id(1)), 500 + BID_AMOUNT);
    assert_eq!(board.get_bid_amount(), BID_AMOUNT);
}

#[test]
fn taking_work_on_without_funds_changes_nothing() {
    let mut ledger = funded_ledger();
    let mut board = board_with_task(&mut ledger);
    board.bid_on_task(Origin::Signed(8), 1).unwrap();
    board.accept_bid(Origin::Signed(1), 1, 8).unwrap();
    assert_eq!(
        board.accept_work(&mut ledger, Origin::Signed(8), 1),
        Err(DispatchError::Currency(TransferError::InsufficientBalance))
    );
    assert_eq!(status_of(&board, 1), TaskStatus::AwaitingBidderResponse);
    assert_eq!(ledger.free_balance(Pallet::escrow_account_id(1)), 500);
}

#[test]
fn posting_needs_funds_and_keeps_the_owner_alive() {
    let mut ledger = funded_ledger();
    let mut board = Pallet::new(1, BID_AMOUNT);
    assert_eq!(
        board.create_task(&mut ledger, Origin::Signed(1), b"All of it".to_vec(), 100000, 3),
        Err(DispatchError::Currency(TransferError::KeepAlive))
    );
    assert_eq!(
        board.create_task(&mut ledger, Origin::Signed(1), b"Too much".to_vec(), 100001, 3),
        Err(DispatchError::Currency(TransferError::InsufficientBalance))
    );
    assert_eq!(board.task_id(), 0);
    assert_eq!(ledger.free_balance(Holder::Account(1)), 100000);
}

#[test]
fn only_the_worker_hands_work_in_while_in_progress() {
    let mut ledger = funded_ledger();
    let mut board = board_with_task(&mut ledger);
    board.bid_on_task(Origin::Signed(3), 1).unwrap();
    board.accept_bid(Origin::Signed(1), 1, 3).unwrap();
    // not taken on yet: no worker recorded
    assert_eq!(board.complete_work(Origin::Signed(3), 1, vec![]), module(Error::NotWorker));
    board.accept_work(&mut ledger, Origin::Signed(3), 1).unwrap();
    board.complete_work(Origin::Signed(3), 1, vec![]).unwrap();
    assert_eq!(board.complete_work(Origin::Signed(3), 1, vec![]), module(Error::NotAllowed));
}

#[test]
fn disapproval_sends_work_back_and_counts_revisions() {
    let mut ledger = funded_ledger();
    let mut board = board_in_progress(&mut ledger);
    board.complete_work(Origin::Signed(3), 1, b"v1".to_vec()).unwrap();
    assert_eq!(board.disapprove_task(Origin::Signed(3), 1), module(Error::NoPermission));
    assert_eq!(board.disapprove_task(Origin::Signed(1), 1), Ok(()));
    assert_eq!(status_of(&board, 1), TaskStatus::InRevision);
    assert_eq!(board.tasks(1).unwrap().get_revisions(), 1);
    assert_eq!(board.disapprove_task(Origin::Signed(1), 1), module(Error::NotAllowed));
    board.complete_work(Origin::Signed(3), 1, b"v2".to_vec()).unwrap();
    board.disapprove_task(Origin::Signed(1), 1).unwrap();
    assert_eq!(board.tasks(1).unwrap().get_revisions(), 2);
}

#[test]
fn ratings_must_be_between_one_and_five() {
    let mut ledger = funded_ledger();
    let mut users = user::Pallet::new();
    let mut board = board_in_progress(&mut ledger);
    board.complete_work(Origin::Signed(3), 1, vec![]).unwrap();
    assert_eq!(board.approve_task(&mut users, Origin::Signed(1), 1, 0), module(Error::InvalidRatingInput));
    assert_eq!(board.approve_task(&mut users, Origin::Signed(1), 1, 6), module(Error::InvalidRatingInput));
    assert_eq!(users.get_user_from_storage(3).get_worker_rating(), None);
    board.approve_task(&mut users, Origin::Signed(1), 1, 1).unwrap();
    assert_eq!(
        board.provide_customer_rating(&mut users, Origin::Signed(3), 1, 9),
        module(Error::InvalidRatingInput)
    );
    assert_eq!(
        board.provide_customer_rating(&mut users, Origin::Signed(1), 1, 3),
        module(Error::NoPermission)
    );
    assert_eq!(users.get_user_from_storage(3).get_worker_rating(), Some(1000));
}

#[test]
fn completion_only_when_awaiting_it() {
    let mut ledger = funded_ledger();
    let mut board = board_in_progress(&mut ledger);
    assert_eq!(board.complete_task(&mut ledger, Origin::Signed(1), 1), module(Error::NotAllowed));
    assert_eq!(board.complete_task(&mut ledger, Origin::Signed(3), 1), module(Error::NoPermission));
    assert_eq!(board.complete_task(&mut ledger, Origin::Signed(1), 2), module(Error::TaskDoesNotExist));
    assert_eq!(board.complete_task(&mut ledger, Origin::Unsigned, 1), Err(DispatchError::BadOrigin));
}

#[test]
fn rejected_operations_leave_funds_where_they_were() {
    let mut ledger = funded_ledger();
    let mut board = board_with_task(&mut ledger);
    let before: Vec<u128> = (1..=7u64).map(|a| ledger.free_balance(Holder::Account(a))).collect();
    assert!(board.accept_work(&mut ledger, Origin::Signed(3), 1).is_err());
    assert!(board.complete_task(&mut ledger, Origin::Signed(1), 1).is_err());
    let after: Vec<u128> = (1..=7u64).map(|a| ledger.free_balance(Holder::Account(a))).collect();
    assert_eq!(before, after);
}

#[test]
fn block_number_moves_the_due_block() {
    let mut ledger = funded_ledger();
    let mut board = board_with_task(&mut ledger);
    board.set_block_number(1000);
    assert_eq!(board.get_current_block_number(), 1000);
    board.bid_on_task(Origin::Signed(3), 1).unwrap();
    board.accept_bid(Origin::Signed(1), 1, 3).unwrap();
    board.accept_work(&mut ledger, Origin::Signed(3), 1).unwrap();
    assert_eq!(board.tasks(1).unwrap().get_completion(), Some(1000 + 50 * 14400));
}

#[test]
fn a_task_records_its_changes() {
    let mut task = Task::new(4, b"Logo".to_vec(), 250, TagSet::new(), 12, 7);
    assert!(task.check_ownership(&4));
    assert!(!task.check_ownership(&5));
    assert_eq!(*task.get_status(), TaskStatus::Open);
    task.update_cost(300);
    assert_eq!(task.get_cost(), 300);
    task.add_worker(9);
    assert_eq!(*task.get_worker_details(), Some(9));
    task.update_status(TaskStatus::InProgress);
    assert_eq!(*task.get_status(), TaskStatus::InProgress);
    task.extend_completion(Some(99));
    assert_eq!(task.get_completion(), Some(99));
    task.increment_revisions();
    task.increment_revisions();
    assert_eq!(task.get_revisions(), 2);
    task.add_worker_attachments(b"http://aws/worker.png".to_vec());
    assert_eq!(*task.get_owner_details(), 4);
    assert_eq!(task.get_deadline(), 7);
}

#[test]
fn task_funds_are_moved_never_made_or_lost() {
    let mut ledger = funded_ledger();
    let held = |l: &Ledger| -> u128 {
        (1..=8u64).map(|a| l.free_balance(Holder::Account(a))).sum::<u128>()
            + (1..=3u128).map(|id| l.free_balance(Pallet::escrow_account_id(id))).sum::<u128>()
    };
    let before = held(&ledger);
    let mut users = user::Pallet::new();
    let mut board = board_in_progress(&mut ledger);
    board.complete_work(Origin::Signed(3), 1, vec![]).unwrap();
    board.approve_task(&mut users, Origin::Signed(1), 1, 3).unwrap();
    board.provide_customer_rating(&mut users, Origin::Signed(3), 1, 3).unwrap();
    board.complete_task(&mut ledger, Origin::Signed(1), 1).unwrap();
    assert!(board.create_task(&mut ledger, Origin::Signed(8), vec![], 5, 1).is_err());
    assert_eq!(held(&ledger), before);
}
