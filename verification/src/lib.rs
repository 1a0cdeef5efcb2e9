//! A decentralised marketplace: projects split into milestones that workers
//! bid for, single tasks with proposals, user profiles with ratings, and a
//! one-to-one chat between customers and workers.

pub mod chat;
pub mod dispatch;
pub mod ledger;
pub mod marketplace;
pub mod milestone_id;
pub mod table;
pub mod task;
pub mod tasking;
pub mod user;
pub mod utils;
