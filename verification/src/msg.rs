//! The messages that create, change and query the ledger.

use vstd::prelude::*;
use crate::state::{ClubStakingDetails, Timestamp};

verus! {

/// What the ledger is created with.
#[derive(Debug, PartialEq)]
pub struct InstantiateMsg {
    /// Administrator privilege wallet address.
    pub admin_address: String,
    /// Address of the contract that holds the token.
    pub minting_contract_address: String,
    /// Address that is asked for exchange rates.
    pub astro_proxy_address: String,
    /// Wallet to which the price of a club goes.
    pub club_fee_collector_wallet: String,
    /// When the first reward round may run; zero for one second before the
    /// block in which the ledger is created.
    pub club_reward_next_timestamp: Timestamp,
    /// Seconds between two reward rounds.
    pub reward_periodicity: u64,
    /// Price of a club.
    pub club_price: u128,
    /// Seconds for which a deferred withdrawal is bonded.
    pub bonding_duration: u64,
    /// Seconds for which a released club stays open to a buyer.
    pub owner_release_locking_duration: u64,
    /// Wallet to which platform fees go.
    pub platform_fees_collector_wallet: String,
    /// Percentage multiplied by 100, i.e. 100% = 10000 and 0.01% = 1.
    pub platform_fees: u128,
    /// Percentage multiplied by 100.
    pub transaction_fees: u128,
    /// Percentage multiplied by 100.
    pub control_fees: u128,
    pub max_bonding_limit_per_user: u64,
}

/// The operations that change the ledger.
#[derive(Debug, PartialEq)]
pub enum ExecuteMsg {
    /// The caller buys a club.
    BuyAClub { buyer: String, seller: Option<String>, club_name: String, auto_stake: bool },
    /// The administrator hands a club to a buyer.
    AssignAClub { buyer: String, seller: Option<String>, club_name: String, auto_stake: bool },
    /// The caller stakes on a club.
    StakeOnAClub { staker: String, club_name: String, amount: u128, auto_stake: bool },
    /// The administrator stakes on a club on behalf of stakers.
    AssignStakesToAClub { stake_list: Vec<ClubStakingDetails>, club_name: String },
    /// The owner opens a club to a buyer.
    ReleaseClub { owner: String, club_name: String },
    /// The owner claims the reward of a club.
    ClaimOwnerRewards { owner: String, club_name: String },
    /// A previous owner claims the reward carried over from a sale.
    ClaimPreviousOwnerRewards { previous_owner: String },
    /// The caller withdraws from a stake: from matured bonds, or into a bond.
    StakeWithdrawFromAClub {
        staker: String,
        club_name: String,
        amount: u128,
        immediate_withdrawal: bool,
    },
    /// The administrator distributes the reward to stakers of one club.
    CalculateAndDistributeRewards {
        staker_list: Vec<String>,
        club_name: String,
        is_first_batch: bool,
        is_final_batch: bool,
    },
    /// The caller claims the reward of its stakes on a club.
    ClaimStakerRewards { staker: String, club_name: String },
    /// The administrator pays into the reward pool.
    IncreaseRewardAmount { reward_from: String, amount: u128 },
}

/// The questions that the ledger answers.
#[derive(Debug, PartialEq)]
pub enum QueryMsg {
    ClubStakingDetails { club_name: String, user_list: Vec<String> },
    ClubOwnershipDetails { club_name: String },
    ClubPreviousOwnershipDetails { previous_owner: String },
    ClubOwnershipDetailsForOwner { owner_address: String },
    AllClubOwnershipDetails {},
    AllPreviousClubOwnershipDetails {},
    AllStakes { user_address_list: Vec<String> },
    AllStakesForUser { user_address: String },
    AllBonds { user_address_list: Vec<String> },
    ClubBondingDetailsForUser { club_name: String, user_address: String },
    RewardAmount {},
    /// The platform fee of an operation, given what the amount it moves is
    /// worth in the currency of fees.
    QueryPlatformFees { msg: ExecuteMsg, ust_equiv_for_fury: u128 },
    QueryStakerRewards { staker: String, club_name: String },
}

/// What may come with tokens sent to the ledger.
#[derive(Debug, PartialEq)]
pub enum ReceivedMsg {
    /// The tokens are a reward to distribute.
    IncreaseRewardAmount(IncreaseRewardAmountCommand),
}

/// Says who pays a reward in.
#[derive(Debug, PartialEq)]
pub struct IncreaseRewardAmountCommand {
    pub reward_from: String,
}

/// What a migration of the ledger is called with: nothing.
#[derive(Debug, PartialEq)]
pub struct MigrateMsg {}

/// The questions asked of the exchange-rate oracle.
#[allow(non_camel_case_types)]
#[derive(Debug, PartialEq)]
pub enum ProxyQueryMsgs {
    get_fury_equivalent_to_ust { ust_count: u128 },
    get_ust_equivalent_to_fury { fury_count: u128 },
}

} // verus!
