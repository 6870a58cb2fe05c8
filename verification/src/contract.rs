//! The ledger's surface: its creation, its transactions and its queries.

use vstd::prelude::*;
use crate::bonding::{withdraw_outcome, withdraw_stake_from_a_club};
use crate::distribution::{
    calculate_and_distribute_rewards, calculate_outcome, increase_reward_amount,
    increase_reward_outcome,
};
use crate::error::{overflow, overflow_err, ContractError, ContractErrorView, StdError, StdErrorView};
use crate::fees::{platform_fees, query_platform_fees};
use crate::ledger::{
    bond_position, bonds_view, club_position, clubs_view, previous_owner_position,
    previous_owners_view, stakes_view, Ledger, LedgerView,
};
use crate::msg::{ExecuteMsg, InstantiateMsg, MigrateMsg, QueryMsg, ReceivedMsg};
use crate::ownership::{
    assign_a_club, assign_outcome, buy_a_club, buy_outcome, claim_owner_outcome,
    claim_owner_rewards, claim_previous_owner_outcome, claim_previous_owner_rewards,
    release_club, release_outcome, seller_name,
};
use crate::query::{
    bonds_by, bonds_on_clubs, clubs_owned_by, query_all_bonds, query_all_club_ownership_details,
    query_all_previous_club_ownership_details, query_all_stakes, query_all_stakes_for_user,
    query_club_bonding_details_for_user, query_club_ownership_details,
    query_club_ownership_details_for_owner, query_club_previous_owner_details,
    query_club_staking_details, query_reward_amount, query_staker_rewards, stakes_held,
    stakes_of_user, stakes_of_users, stakes_on_clubs,
};
use crate::response::{
    coins_view, empty_response, result_view, Env, MessageInfo, Response, ResponseView,
};
use crate::staking::{
    assign_stakes_outcome, assign_stakes_to_a_club, claim_staker_outcome, claim_staker_rewards,
    claimable, stake_on_a_club, stake_outcome,
};
use crate::state::{
    names_view, ClubBondingDetails, ClubOwnershipDetails, ClubPreviousOwnerDetails,
    ClubStakingDetails, Config, ConfigView, Timestamp, WinningClubDetails, WinningView,
    NANOS_PER_SECOND,
};

verus! {

/// From when on the first reward round may run: as asked for, or one second
/// before `now` where nothing is asked for. `None` where that would lie before
/// the epoch.
pub open spec fn first_round_start(asked: Timestamp, now: Timestamp) -> Option<Timestamp> {
    if asked.nanos / NANOS_PER_SECOND != 0 {
        Some(asked)
    } else if now.before(1) >= 0 {
        Some(Timestamp { nanos: now.before(1) as u64 })
    } else {
        None
    }
}

/// The ledger as it is created: configured, and empty.
pub open spec fn initial_ledger(msg: InstantiateMsg, first_round: Timestamp) -> LedgerView {
    LedgerView {
        config: ConfigView {
            admin_address: msg.admin_address@,
            minting_contract_address: msg.minting_contract_address@,
            astro_proxy_address: msg.astro_proxy_address@,
            club_fee_collector_wallet: msg.club_fee_collector_wallet@,
            club_reward_next_timestamp: first_round,
            reward_periodicity: msg.reward_periodicity,
            club_price: msg.club_price,
            bonding_duration: msg.bonding_duration,
            owner_release_locking_duration: msg.owner_release_locking_duration,
            platform_fees_collector_wallet: msg.platform_fees_collector_wallet@,
            platform_fees: msg.platform_fees,
            transaction_fees: msg.transaction_fees,
            control_fees: msg.control_fees,
            max_bonding_limit_per_user: msg.max_bonding_limit_per_user,
        },
        clubs: Seq::empty(),
        stakes: Seq::empty(),
        bonds: Seq::empty(),
        previous_owners: Seq::empty(),
        reward: 0,
        reward_given_in_current_timestamp: 0,
        club_reward_next_timestamp: first_round,
        staking_snapshot: Seq::empty(),
        winning_club_details: WinningView {
            total_number_of_clubs: 0,
            total_stake_across_all_clubs: 0,
            total_stake_in_winning_club: 0,
            winner_list: Seq::empty(),
        },
    }
}

/// Creates the ledger.
pub fn instantiate(env: &Env, msg: InstantiateMsg) -> (r: Result<Ledger, ContractError>)
    ensures
        match first_round_start(msg.club_reward_next_timestamp, env.block_time) {
            Some(first_round) => r is Ok && r->Ok_0@ == initial_ledger(msg, first_round)
                && r->Ok_0@.wf(),
            None => r is Err && r->Err_0@ == overflow(),
        },
{
    let first_round: Timestamp = if msg.club_reward_next_timestamp.seconds() == 0 {
        match env.block_time.checked_minus_seconds(1) {
            None => {
                return Err(overflow_err());
            },
            Some(t) => t,
        }
    } else {
        msg.club_reward_next_timestamp
    };
    let ghost expected = initial_ledger(msg, first_round);
    let ledger = Ledger {
        config: Config {
            admin_address: msg.admin_address,
            minting_contract_address: msg.minting_contract_address,
            astro_proxy_address: msg.astro_proxy_address,
            club_fee_collector_wallet: msg.club_fee_collector_wallet,
            club_reward_next_timestamp: first_round,
            reward_periodicity: msg.reward_periodicity,
            club_price: msg.club_price,
            bonding_duration: msg.bonding_duration,
            owner_release_locking_duration: msg.owner_release_locking_duration,
            platform_fees_collector_wallet: msg.platform_fees_collector_wallet,
            platform_fees: msg.platform_fees,
            transaction_fees: msg.transaction_fees,
            control_fees: msg.control_fees,
            max_bonding_limit_per_user: msg.max_bonding_limit_per_user,
        },
        clubs: Vec::new(),
        stakes: Vec::new(),
        bonds: Vec::new(),
        previous_owners: Vec::new(),
        reward: 0,
        reward_given_in_current_timestamp: 0,
        club_reward_next_timestamp: first_round,
        staking_snapshot: Vec::new(),
        winning_club_details: WinningClubDetails {
            total_number_of_clubs: 0,
            total_stake_across_all_clubs: 0,
            total_stake_in_winning_club: 0,
            winner_list: Vec::new(),
        },
    };
    proof {
        assert(ledger@.clubs =~= expected.clubs);
        assert(ledger@.stakes =~= expected.stakes);
        assert(ledger@.bonds =~= expected.bonds);
        assert(ledger@.previous_owners =~= expected.previous_owners);
        assert(ledger@.staking_snapshot =~= expected.staking_snapshot);
        assert(ledger@.winning_club_details.winner_list =~= expected.winning_club_details.winner_list);
    }
    Ok(ledger)
}

/// What the operation that `msg` names does to the ledger, and what it returns.
pub open spec fn operation_outcome(
    pre: LedgerView,
    env: Env,
    info: MessageInfo,
    msg: ExecuteMsg,
    required_ust_fees: u128,
) -> (LedgerView, Result<ResponseView, ContractErrorView>) {
    let now = env.block_time;
    let sender = info.sender@;
    let funds = coins_view(info.funds@);
    match msg {
        ExecuteMsg::StakeOnAClub { staker, club_name, amount, auto_stake } => stake_outcome(
            pre,
            now,
            env.contract_address@,
            sender,
            funds,
            staker@,
            club_name@,
            amount,
            auto_stake,
            required_ust_fees,
        ),
        ExecuteMsg::AssignStakesToAClub { stake_list, club_name } => assign_stakes_outcome(
            pre,
            now,
            env.contract_address@,
            sender,
            stakes_view(stake_list@),
            club_name@,
        ),
        ExecuteMsg::BuyAClub { buyer, seller, club_name, auto_stake } => buy_outcome(
            pre,
            now,
            sender,
            funds,
            buyer@,
            seller_name(seller),
            club_name@,
            pre.config.club_price,
            auto_stake,
            required_ust_fees,
        ),
        ExecuteMsg::AssignAClub { buyer, seller, club_name, auto_stake } => assign_outcome(
            pre,
            now,
            sender,
            buyer@,
            seller_name(seller),
            club_name@,
            auto_stake,
        ),
        ExecuteMsg::ReleaseClub { owner, club_name } => release_outcome(
            pre,
            now,
            sender,
            owner@,
            club_name@,
        ),
        ExecuteMsg::ClaimOwnerRewards { owner, club_name } => claim_owner_outcome(
            pre,
            sender,
            owner@,
            club_name@,
        ),
        ExecuteMsg::ClaimPreviousOwnerRewards { previous_owner } => claim_previous_owner_outcome(
            pre,
            sender,
            previous_owner@,
        ),
        ExecuteMsg::StakeWithdrawFromAClub {
            staker,
            club_name,
            amount,
            immediate_withdrawal,
        } => withdraw_outcome(
            pre,
            now,
            sender,
            funds,
            staker@,
            club_name@,
            amount,
            immediate_withdrawal,
            required_ust_fees,
        ),
        ExecuteMsg::CalculateAndDistributeRewards {
            staker_list,
            club_name,
            is_first_batch,
            is_final_batch,
        } => calculate_outcome(
            pre,
            now,
            sender,
            names_view(staker_list@),
            club_name@,
            is_first_batch,
            is_final_batch,
        ),
        ExecuteMsg::ClaimStakerRewards { staker, club_name } => claim_staker_outcome(
            pre,
            sender,
            funds,
            staker@,
            club_name@,
            required_ust_fees,
        ),
        ExecuteMsg::IncreaseRewardAmount { reward_from, amount } => increase_reward_outcome(
            pre,
            sender,
            amount,
        ),
    }
}

/// What a transaction does to the ledger, and what it returns.
///
/// The operation that `msg` names is charged the platform fee that
/// `platform_fees` takes from `ust_equiv_for_fury`, what the amount that the
/// operation moves is worth in the currency of fees. The transaction does what
/// the operation does where that succeeds, and nothing where it fails.
pub open spec fn execute_outcome(
    pre: LedgerView,
    env: Env,
    info: MessageInfo,
    msg: ExecuteMsg,
    ust_equiv_for_fury: u128,
) -> (LedgerView, Result<ResponseView, ContractErrorView>) {
    match platform_fees(pre, msg, ust_equiv_for_fury) {
        None => (pre, Err(overflow())),
        Some(required_ust_fees) => {
            let (post, result) = operation_outcome(pre, env, info, msg, required_ust_fees);
            if result is Ok {
                (post, result)
            } else {
                (pre, result)
            }
        },
    }
}

/// Runs one transaction: the operation that `msg` names, all of it or none
/// of it. `ust_equiv_for_fury` is what the exchange-rate oracle answered to
/// the question that `quote_request` gives for the operation's fee basis; it
/// is not looked at for an operation that is free.
pub fn execute(
    ledger: &mut Ledger,
    env: &Env,
    info: &MessageInfo,
    msg: ExecuteMsg,
    ust_equiv_for_fury: u128,
) -> (r: Result<Response, ContractError>)
    ensures
        (final(ledger)@, result_view(r)) == execute_outcome(
            old(ledger)@,
            *env,
            *info,
            msg,
            ust_equiv_for_fury,
        ),
        old(ledger)@.wf() ==> final(ledger)@.wf(),
{
    let required_ust_fees: u128 = match query_platform_fees(ledger, &msg, ust_equiv_for_fury) {
        Ok(fee) => fee,
        Err(e) => {
            return Err(ContractError::Std(e));
        },
    };
    match msg {
        ExecuteMsg::StakeOnAClub { staker, club_name, amount, auto_stake } => stake_on_a_club(
            ledger,
            env,
            info,
            staker,
            club_name,
            amount,
            auto_stake,
            required_ust_fees,
        ),
        ExecuteMsg::AssignStakesToAClub { stake_list, club_name } => assign_stakes_to_a_club(
            ledger,
            env,
            info,
            stake_list,
            club_name,
        ),
        ExecuteMsg::BuyAClub { buyer, seller, club_name, auto_stake } => {
            let price: u128 = ledger.config.club_price;
            buy_a_club(
                ledger,
                env,
                info,
                buyer,
                seller,
                club_name,
                price,
                auto_stake,
                required_ust_fees,
            )
        },
        ExecuteMsg::AssignAClub { buyer, seller, club_name, auto_stake } => assign_a_club(
            ledger,
            env,
            info,
            buyer,
            seller,
            club_name,
            auto_stake,
        ),
        ExecuteMsg::ReleaseClub { owner, club_name } => release_club(
            ledger,
            env,
            info,
            owner,
            club_name,
        ),
        ExecuteMsg::ClaimOwnerRewards { owner, club_name } => claim_owner_rewards(
            ledger,
            info,
            owner,
            club_name,
        ),
        ExecuteMsg::ClaimPreviousOwnerRewards { previous_owner } => claim_previous_owner_rewards(
            ledger,
            info,
            previous_owner,
        ),
        ExecuteMsg::StakeWithdrawFromAClub { staker, club_name, amount, immediate_withdrawal } => {
            let saved = ledger.duplicate();
            let r = withdraw_stake_from_a_club(
                ledger,
                env,
                info,
                staker,
                club_name,
                amount,
                immediate_withdrawal,
                required_ust_fees,
            );
            if r.is_err() {
                *ledger = saved;
            }
            r
        },
        ExecuteMsg::CalculateAndDistributeRewards {
            staker_list,
            club_name,
            is_first_batch,
            is_final_batch,
        } => calculate_and_distribute_rewards(
            ledger,
            env,
            info,
            staker_list,
            club_name,
            is_first_batch,
            is_final_batch,
        ),
        ExecuteMsg::ClaimStakerRewards { staker, club_name } => claim_staker_rewards(
            ledger,
            info,
            staker,
            club_name,
            required_ust_fees,
        ),
        ExecuteMsg::IncreaseRewardAmount { reward_from, amount } => increase_reward_amount(
            ledger,
            info,
            reward_from,
            amount,
        ),
    }
}

/// Migrates the ledger: nothing is changed.
pub fn migrate(ledger: &mut Ledger, msg: MigrateMsg) -> (r: Result<Response, ContractError>)
    ensures
        final(ledger)@ == old(ledger)@,
        result_view(r) == Ok::<ResponseView, ContractErrorView>(empty_response()),
{
    Ok(Response::new())
}

/// Takes in tokens sent to the ledger with a message.
pub fn received_message(
    ledger: &mut Ledger,
    info: &MessageInfo,
    msg: ReceivedMsg,
    amount: u128,
) -> (r: Result<Response, ContractError>)
    ensures
        (final(ledger)@, result_view(r)) == increase_reward_outcome(
            old(ledger)@,
            info.sender@,
            amount,
        ),
        old(ledger)@.wf() ==> final(ledger)@.wf(),
{
    match msg {
        ReceivedMsg::IncreaseRewardAmount(command) => increase_reward_amount(
            ledger,
            info,
            command.reward_from,
            amount,
        ),
    }
}

/// What the ledger answers to a question.
#[derive(Debug, PartialEq)]
pub enum QueryResponse {
    Stakes(Vec<ClubStakingDetails>),
    Bonds(Vec<ClubBondingDetails>),
    Ownership(ClubOwnershipDetails),
    Ownerships(Vec<ClubOwnershipDetails>),
    PreviousOwner(ClubPreviousOwnerDetails),
    PreviousOwners(Vec<ClubPreviousOwnerDetails>),
    Amount(u128),
}

/// Whether `r` answers the question `msg` asks of the ledger.
pub open spec fn answers(pre: LedgerView, msg: QueryMsg, r: Result<QueryResponse, StdError>) -> bool {
    match msg {
        QueryMsg::QueryPlatformFees { msg, ust_equiv_for_fury } => match platform_fees(
            pre,
            msg,
            ust_equiv_for_fury,
        ) {
            Some(fee) => r matches Ok(QueryResponse::Amount(a)) && a == fee,
            None => r matches Err(e) && e@ == StdErrorView::Overflow,
        },
        QueryMsg::ClubStakingDetails { club_name, user_list } => r matches Ok(
            QueryResponse::Stakes(v),
        ) && stakes_view(v@) == stakes_of_users(pre.stakes, club_name@, names_view(user_list@)),
        QueryMsg::ClubOwnershipDetails { club_name } => match club_position(
            pre.clubs,
            club_name@,
        ) {
            Some(c) => r matches Ok(QueryResponse::Ownership(d)) && d@ == pre.clubs[c],
            None => r matches Err(e) && e@ == (StdErrorView::GenericErr {
                msg: "No ownership details found"@,
            }),
        },
        QueryMsg::ClubPreviousOwnershipDetails { previous_owner } => match previous_owner_position(
            pre.previous_owners,
            previous_owner@,
        ) {
            Some(p) => r matches Ok(QueryResponse::PreviousOwner(d)) && d@
                == pre.previous_owners[p],
            None => r matches Err(e) && e@ == (StdErrorView::GenericErr {
                msg: "No previous ownership details found"@,
            }),
        },
        QueryMsg::AllClubOwnershipDetails {  } => r matches Ok(QueryResponse::Ownerships(v))
            && clubs_view(v@) == pre.clubs,
        QueryMsg::AllPreviousClubOwnershipDetails {  } => r matches Ok(
            QueryResponse::PreviousOwners(v),
        ) && previous_owners_view(v@) == pre.previous_owners,
        QueryMsg::ClubOwnershipDetailsForOwner { owner_address } => r matches Ok(
            QueryResponse::Ownerships(v),
        ) && clubs_view(v@) == clubs_owned_by(pre.clubs, owner_address@),
        QueryMsg::AllStakes { user_address_list } => r matches Ok(QueryResponse::Stakes(v))
            && stakes_view(v@) == stakes_on_clubs(
            pre.stakes,
            pre.clubs,
            names_view(user_address_list@),
        ),
        QueryMsg::AllStakesForUser { user_address } => match stakes_of_user(
            pre.stakes,
            pre.clubs,
            user_address@,
        ) {
            Some(found) => r matches Ok(QueryResponse::Stakes(v)) && stakes_view(v@) == found,
            None => r matches Err(e) && e@ == (StdErrorView::NotFound {
                kind: "ClubStakingDetails"@,
            }),
        },
        QueryMsg::AllBonds { user_address_list } => r matches Ok(QueryResponse::Bonds(v))
            && bonds_view(v@) == bonds_on_clubs(
            pre.bonds,
            pre.clubs,
            names_view(user_address_list@),
        ),
        QueryMsg::ClubBondingDetailsForUser { club_name, user_address } => match bond_position(
            pre.bonds,
            club_name@,
            user_address@,
        ) {
            Some(b) => r matches Ok(QueryResponse::Bonds(v)) && bonds_view(v@) == bonds_by(
                pre.bonds[b].bonds,
                user_address@,
            ),
            None => r matches Err(e) && e@ == (StdErrorView::GenericErr {
                msg: "No bonding details found"@,
            }),
        },
        QueryMsg::RewardAmount {  } => r matches Ok(QueryResponse::Amount(a)) && a == pre.reward,
        QueryMsg::QueryStakerRewards { staker, club_name } => {
            let reward = claimable(stakes_held(pre.stakes, club_name@, staker@), staker@);
            if reward > u128::MAX {
                r matches Err(e) && e@ == StdErrorView::Overflow
            } else {
                r matches Ok(QueryResponse::Amount(a)) && a == reward
            }
        },
    }
}

/// Answers a question from the ledger.
pub fn query(ledger: &Ledger, msg: QueryMsg) -> (r: Result<QueryResponse, StdError>)
    ensures
        answers(ledger@, msg, r),
{
    match msg {
        QueryMsg::QueryPlatformFees { msg, ust_equiv_for_fury } => match query_platform_fees(
            ledger,
            &msg,
            ust_equiv_for_fury,
        ) {
            Ok(fee) => Ok(QueryResponse::Amount(fee)),
            Err(e) => Err(e),
        },
        QueryMsg::ClubStakingDetails { club_name, user_list } => Ok(
            QueryResponse::Stakes(query_club_staking_details(ledger, club_name, user_list)),
        ),
        QueryMsg::ClubOwnershipDetails { club_name } => match query_club_ownership_details(
            ledger,
            club_name,
        ) {
            Ok(d) => Ok(QueryResponse::Ownership(d)),
            Err(e) => Err(e),
        },
        QueryMsg::ClubPreviousOwnershipDetails {
            previous_owner,
        } => match query_club_previous_owner_details(ledger, previous_owner) {
            Ok(d) => Ok(QueryResponse::PreviousOwner(d)),
            Err(e) => Err(e),
        },
        QueryMsg::AllClubOwnershipDetails {  } => Ok(
            QueryResponse::Ownerships(query_all_club_ownership_details(ledger)),
        ),
        QueryMsg::AllPreviousClubOwnershipDetails {  } => Ok(
            QueryResponse::PreviousOwners(query_all_previous_club_ownership_details(ledger)),
        ),
        QueryMsg::ClubOwnershipDetailsForOwner { owner_address } => Ok(
            QueryResponse::Ownerships(
                query_club_ownership_details_for_owner(ledger, owner_address),
            ),
        ),
        QueryMsg::AllStakes { user_address_list } => Ok(
            QueryResponse::Stakes(query_all_stakes(ledger, user_address_list)),
        ),
        QueryMsg::AllStakesForUser { user_address } => match query_all_stakes_for_user(
            ledger,
            user_address,
        ) {
            Ok(v) => Ok(QueryResponse::Stakes(v)),
            Err(e) => Err(e),
        },
        QueryMsg::AllBonds { user_address_list } => Ok(
            QueryResponse::Bonds(query_all_bonds(ledger, user_address_list)),
        ),
        QueryMsg::ClubBondingDetailsForUser {
            club_name,
            user_address,
        } => match query_club_bonding_details_for_user(ledger, club_name, user_address) {
            Ok(v) => Ok(QueryResponse::Bonds(v)),
            Err(e) => Err(e),
        },
        QueryMsg::RewardAmount {  } => Ok(QueryResponse::Amount(query_reward_amount(ledger))),
        QueryMsg::QueryStakerRewards { staker, club_name } => match query_staker_rewards(
            ledger,
            staker,
            club_name,
        ) {
            Ok(a) => Ok(QueryResponse::Amount(a)),
            Err(e) => Err(e),
        },
    }
}

} // verus!
