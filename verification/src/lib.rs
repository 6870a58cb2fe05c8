//! A ledger of clubs, of the stakes on them and of the rewards they earn.
//!
//! A club has one owner, who can release it to a buyer. Anyone can stake
//! tokens on a club and withdraw them again, at once from matured bonds or
//! into a bond that has to mature. In rounds, the reward that has been paid
//! into a pool goes to the owners and stakers, by how the clubs rank.
//!
//! Every operation takes the ledger and says in its contract what the ledger
//! is afterwards and what the host is asked to transfer. The ledger keeps as

//! its invariant that each club's total is the sum of the stakes on it.

pub mod bonding;
pub mod contract;
pub mod distribution;
pub mod error;
pub mod fees;
pub mod laws;
pub mod ledger;
pub mod msg;
pub mod ownership;
pub mod query;
pub mod ranking;
pub mod response;
pub mod staking;
pub mod state;
