use club_staking::bonding::{order_latest_first, settle_matured_bonds, withdraw_stake_from_a_club};
use club_staking::contract::{
    execute, instantiate, migrate, query, received_message, QueryResponse,
};
use club_staking::distribution::{
    calculate_and_distribute_rewards, distribute_reward_to_club_stakers, increase_reward_amount,
};
use club_staking::error::{ContractError, StdError};
use club_staking::fees::{check_fees, platform_fee_basis, query_platform_fees, quote_request, FeeBasis};
use club_staking::ledger::{Ledger, SnapshotEntry};
use club_staking::msg::{
    ExecuteMsg, IncreaseRewardAmountCommand, InstantiateMsg, MigrateMsg, ProxyQueryMsgs, QueryMsg,
    ReceivedMsg,
};
use club_staking::ownership::{
    assign_a_club, buy_a_club, claim_owner_rewards, claim_previous_owner_rewards, release_club,
};
use club_staking::query::{
    query_all_bonds, query_all_club_ownership_details, query_all_stakes,
    query_all_stakes_for_user, query_club_bonding_details_for_user,
    query_club_ownership_details, query_club_ownership_details_for_owner,
    query_club_previous_owner_details, query_club_staking_details, query_reward_amount,
    query_staker_rewards,
};
use club_staking::ranking::{get_winning_clubs_details, is_winning_club, Growth};
use club_staking::response::{
    Attribute, AttributeValue, Coin, Env, MessageInfo, Receipt, Response, Transfer,
};
use club_staking::staking::{
    assign_stakes_to_a_club, claim_staker_rewards, save_staking_details, stake_on_a_club,
};
use club_staking::state::{
    ClubBondingDetails, ClubOwnershipDetails, ClubStakingDetails, Timestamp,
};

const NOW: u64 = 1_571_797_419_879_305_533;
const SECOND: u64 = 1_000_000_000;

fn env_at(nanos: u64) -> Env {
    Env { block_time: Timestamp::from_nanos(nanos), contract_address: "cosmos2contract".to_string() }
}

fn env() -> Env {
    env_at(NOW)
}

fn info(sender: &str) -> MessageInfo {
    MessageInfo { sender: sender.to_string(), funds: Vec::new() }
}

fn info_with(sender: &str, amount: u128, denom: &str) -> MessageInfo {
    MessageInfo {
        sender: sender.to_string(),
        funds: vec![Coin { denom: denom.to_string(), amount }],
    }
}

fn ledger_with(next: u64, reward_periodicity: u64) -> Ledger {
    instantiate(
        &env(),
        InstantiateMsg {
            admin_address: "admin".to_string(),
            minting_contract_address: "token".to_string(),
            astro_proxy_address: "proxy".to_string(),
            club_fee_collector_wallet: "club_fees".to_string(),
            club_reward_next_timestamp: Timestamp::from_nanos(next),
            reward_periodicity,
            club_price: 1000000,
            bonding_duration: 300,
            owner_release_locking_duration: 86400,
            platform_fees_collector_wallet: "platform_fees".to_string(),
            platform_fees: 100,
            transaction_fees: 30,
            control_fees: 50,
            max_bonding_limit_per_user: 3,
        },
    )
    .unwrap()
}

fn ledger() -> Ledger {
    ledger_with(NOW - 3600 * SECOND, 86400)
}

fn generic(msg: &str) -> ContractError {
    ContractError::Std(StdError::GenericErr { msg: msg.to_string() })
}

fn buy(ledger: &mut Ledger, buyer: &str, seller: Option<&str>, club: &str) -> Result<Response, ContractError> {
    buy_a_club(
        ledger,
        &env(),
        &info(buyer),
        buyer.to_string(),
        seller.map(|s| s.to_string()),
        club.to_string(),
        1000000,
        true,
        0,
    )
}

fn stake(ledger: &mut Ledger, staker: &str, club: &str, amount: u128, auto_stake: bool) -> Result<Response, ContractError> {
    stake_on_a_club(
        ledger,
        &env(),
        &info(staker),
        staker.to_string(),
        club.to_string(),
        amount,
        auto_stake,
        0,
    )
}

fn withdraw_at(ledger: &mut Ledger, nanos: u64, staker: &str, amount: u128, immediate: bool) -> Result<Response, ContractError> {
    withdraw_stake_from_a_club(
        ledger,
        &env_at(nanos),
        &info(staker),
        staker.to_string(),
        "CLUB001".to_string(),
        amount,
        immediate,
        0,
    )
}

fn round(ledger: &mut Ledger, stakers: &[&str], club: &str, first: bool, last: bool) -> Result<Response, ContractError> {
    calculate_and_distribute_rewards(
        ledger,
        &env(),
        &info("admin"),
        stakers.iter().map(|s| s.to_string()).collect(),
        club.to_string(),
        first,
        last,
    )
}

fn names(list: &[&str]) -> Vec<String> {
    list.iter().map(|s| s.to_string()).collect()
}

fn staked(ledger: &Ledger, club: &str, staker: &str) -> u128 {
    let stakes = query_club_staking_details(ledger, club.to_string(), names(&[staker]));
    assert_eq!(stakes.len(), 1);
    stakes[0].staked_amount
}

fn club(ledger: &Ledger, name: &str) -> ClubOwnershipDetails {
    query_club_ownership_details(ledger, name.to_string()).unwrap()
}

fn assert_totals_match(ledger: &Ledger) {
    for club in ledger.clubs.iter() {
        let mut sum: u128 = 0;
        for entry in ledger.stakes.iter() {
            if entry.club_name == club.club_name {
                for stake in entry.stakes.iter() {
                    sum += stake.staked_amount;
                }
            }
        }
        assert_eq!(club.total_staked_amount, sum);
    }
}

#[test]
fn club_total_is_the_sum_of_its_stakes() {
    let mut ledger = ledger();
    buy(&mut ledger, "Owner001", None, "CLUB001").unwrap();
    buy(&mut ledger, "Owner002", None, "CLUB002").unwrap();
    stake(&mut ledger, "Staker001", "CLUB001", 1000, false).unwrap();
    stake(&mut ledger, "Staker002", "CLUB002", 77, true).unwrap();
    assert_totals_match(&ledger);
    assert_eq!(club(&ledger, "CLUB001").total_staked_amount, 1000);

    increase_reward_amount(&mut ledger, &info("admin"), "anyone".to_string(), 1000).unwrap();
    round(&mut ledger, &["Staker001", "Owner001"], "CLUB001", true, true).unwrap();
    assert_totals_match(&ledger);

    withdraw_at(&mut ledger, NOW, "Staker001", 400, false).unwrap();
    assert_totals_match(&ledger);
    assert_eq!(staked(&ledger, "CLUB001", "Staker001"), 600);

    let failed = withdraw_at(&mut ledger, NOW, "Staker001", 50, true).unwrap_err();
    assert_eq!(failed, generic("Not Sufficient Matured Unstaked Bonds"));
    assert_totals_match(&ledger);
    assert_eq!(staked(&ledger, "CLUB001", "Staker001"), 550);
}

#[test]
fn turning_auto_stake_on_folds_the_accrued_reward_into_stake_and_total() {
    let mut ledger = ledger();
    buy(&mut ledger, "Owner001", None, "CLUB001").unwrap();
    stake(&mut ledger, "Staker001", "CLUB001", 1000, false).unwrap();
    increase_reward_amount(&mut ledger, &info("admin"), "anyone".to_string(), 1000).unwrap();
    round(&mut ledger, &["Staker001", "Owner001"], "CLUB001", true, true).unwrap();

    let stakes = query_club_staking_details(&ledger, "CLUB001".to_string(), names(&["Staker001"]));
    assert_eq!(stakes[0].staked_amount, 1000);
    assert_eq!(stakes[0].reward_amount, 970);
    assert_eq!(staked(&ledger, "CLUB001", "Owner001"), 30);
    assert_eq!(club(&ledger, "CLUB001").total_staked_amount, 1030);
    assert_eq!(query_reward_amount(&ledger), 0);

    stake(&mut ledger, "Staker001", "CLUB001", 5, true).unwrap();
    let stakes = query_club_staking_details(&ledger, "CLUB001".to_string(), names(&["Staker001"]));
    assert_eq!(stakes[0].staked_amount, 1975);
    assert_eq!(stakes[0].reward_amount, 0);
    assert!(stakes[0].auto_stake);
    assert_eq!(club(&ledger, "CLUB001").total_staked_amount, 2005);
    assert_totals_match(&ledger);
}

#[test]
fn immediate_withdrawal_takes_matured_bonds_latest_first_and_conserves_them() {
    let mut ledger = ledger();
    buy(&mut ledger, "Owner001", None, "CLUB001").unwrap();
    stake(&mut ledger, "Staker001", "CLUB001", 99, true).unwrap();
    withdraw_at(&mut ledger, NOW, "Staker001", 10, false).unwrap();
    withdraw_at(&mut ledger, NOW + 100 * SECOND, "Staker001", 20, false).unwrap();
    withdraw_at(&mut ledger, NOW + 200 * SECOND, "Staker001", 30, false).unwrap();
    assert_eq!(staked(&ledger, "CLUB001", "Staker001"), 39);

    let response = withdraw_at(&mut ledger, NOW + 450 * SECOND, "Staker001", 25, true).unwrap();
    assert_eq!(
        response.messages,
        vec![
            Transfer::TokenTransfer {
                token_contract: "token".to_string(),
                recipient: "Staker001".to_string(),
                amount: 25,
            },
            Transfer::BankSend { to_address: "platform_fees".to_string(), funds: vec![] },
        ]
    );
    assert_eq!(response.data, Some(Receipt::AmountTransferred(25)));

    let bonds =
        query_club_bonding_details_for_user(&ledger, "CLUB001".to_string(), "Staker001".to_string())
            .unwrap();
    let amounts: Vec<u128> = bonds.iter().map(|b| b.bonded_amount).collect();
    assert_eq!(amounts, vec![30, 5]);
    assert_eq!(amounts.iter().sum::<u128>() + 25, 10 + 20 + 30);
    assert_eq!(staked(&ledger, "CLUB001", "Staker001"), 39);
    assert_totals_match(&ledger);
}

#[test]
fn a_bond_matures_when_its_duration_has_passed() {
    let bond = |start: u64, amount: u128| ClubBondingDetails {
        club_name: "CLUB001".to_string(),
        bonder_address: "Staker001".to_string(),
        bonding_start_timestamp: Timestamp::from_nanos(start),
        bonded_amount: amount,
        bonding_duration: 300,
    };
    let bonds = vec![bond(NOW, 7)];
    let staker = "Staker001".to_string();

    let (kept, open) = settle_matured_bonds(&bonds, &staker, Timestamp::from_nanos(NOW + 300 * SECOND - 1), 7);
    assert_eq!(kept.len(), 1);
    assert_eq!(open, 7);

    let (kept, open) = settle_matured_bonds(&bonds, &staker, Timestamp::from_nanos(NOW + 300 * SECOND), 7);
    assert_eq!(kept.len(), 0);
    assert_eq!(open, 0);

    let other = "Staker002".to_string();
    let (kept, open) = settle_matured_bonds(&bonds, &other, Timestamp::from_nanos(NOW + 900 * SECOND), 7);
    assert_eq!(kept.len(), 1);
    assert_eq!(open, 7);

    let (kept, open) = settle_matured_bonds(&bonds, &staker, Timestamp::from_nanos(NOW + 900 * SECOND), 3);
    assert_eq!(kept.len(), 1);
    assert_eq!(kept[0].bonded_amount, 4);
    assert_eq!(open, 0);
}

#[test]
fn bonds_are_ordered_by_the_second_of_their_start() {
    let bond = |start: u64, amount: u128| ClubBondingDetails {
        club_name: "CLUB001".to_string(),
        bonder_address: "Staker001".to_string(),
        bonding_start_timestamp: Timestamp::from_nanos(start),
        bonded_amount: amount,
        bonding_duration: 300,
    };
    let bonds = vec![
        bond(5 * SECOND, 1),
        bond(9 * SECOND + 1, 2),
        bond(5 * SECOND + 7, 3),
        bond(9 * SECOND, 4),
        bond(12 * SECOND, 5),
    ];
    let sorted = order_latest_first(&bonds);
    let amounts: Vec<u128> = sorted.iter().map(|b| b.bonded_amount).collect();
    assert_eq!(amounts, vec![5, 2, 4, 1, 3]);
}

#[test]
fn deferred_withdrawals_open_bonds_of_exactly_their_amounts() {
    let mut ledger = ledger_with(NOW - 3600 * SECOND, 86400);
    ledger.config.max_bonding_limit_per_user = 10;
    buy(&mut ledger, "Owner001", None, "CLUB001").unwrap();
    stake(&mut ledger, "Staker001", "CLUB001", 99, true).unwrap();
    for amount in [11u128, 12, 13, 63] {
        let response = withdraw_at(&mut ledger, NOW, "Staker001", amount, false).unwrap();
        assert_eq!(response.data, Some(Receipt::AmountBonded(amount)));
        assert_eq!(
            response.messages,
            vec![Transfer::BankSend { to_address: "platform_fees".to_string(), funds: vec![] }]
        );
    }
    let bonds = query_all_bonds(&ledger, names(&["Staker001"]));
    let amounts: Vec<u128> = bonds.iter().map(|b| b.bonded_amount).collect();
    assert_eq!(amounts, vec![11, 12, 13, 63]);
    for bond in bonds.iter() {
        assert_eq!(bond.bonding_duration, 300);
        assert_eq!(bond.bonding_start_timestamp, Timestamp::from_nanos(NOW));
        assert_eq!(bond.bonder_address, "Staker001");
    }
    assert_eq!(staked(&ledger, "CLUB001", "Staker001"), 0);
    assert_eq!(club(&ledger, "CLUB001").total_staked_amount, 0);
}

#[test]
fn deferred_withdrawal_is_refused_beyond_the_stake_or_the_bond_limit() {
    let mut ledger = ledger();
    buy(&mut ledger, "Owner001", None, "CLUB001").unwrap();
    stake(&mut ledger, "Staker001", "CLUB001", 99, true).unwrap();
    assert_eq!(
        withdraw_at(&mut ledger, NOW, "Staker001", 100, false).unwrap_err(),
        generic("Excess amount demanded for unstaking")
    );
    for _ in 0..3 {
        withdraw_at(&mut ledger, NOW, "Staker001", 1, false).unwrap();
    }
    assert_eq!(
        withdraw_at(&mut ledger, NOW, "Staker001", 1, false).unwrap_err(),
        generic("Too many bonded stakes for this staker")
    );
    assert_eq!(staked(&ledger, "CLUB001", "Staker001"), 96);
    assert_eq!(query_all_bonds(&ledger, names(&["Staker001"])).len(), 3);
}

#[test]
fn withdrawal_is_refused_without_a_stake() {
    let mut ledger = ledger();
    buy(&mut ledger, "Owner001", None, "CLUB001").unwrap();
    assert_eq!(
        withdraw_at(&mut ledger, NOW, "Staker001", 1, false).unwrap_err(),
        generic("No stake found for this club")
    );
    let other = withdraw_stake_from_a_club(
        &mut ledger,
        &env(),
        &info("Staker002"),
        "Staker001".to_string(),
        "CLUB001".to_string(),
        1,
        false,
        0,
    );
    assert_eq!(other.unwrap_err(), ContractError::Unauthorized {});
    let before = ledger.duplicate();
    assert_eq!(
        withdraw_at(&mut ledger, NOW, "Owner001", 1, true).unwrap_err(),
        generic("Excess amount demanded for withdrawal")
    );
    assert_eq!(ledger, before);
}

#[test]
fn failed_immediate_withdrawals_in_transactions_leave_the_stake() {
    let mut ledger = ledger();
    buy(&mut ledger, "Owner001", None, "CLUB001").unwrap();
    stake(&mut ledger, "Staker001", "CLUB001", 99, true).unwrap();
    let before = ledger.duplicate();
    for amount in [11u128, 12, 13] {
        let result = execute(
            &mut ledger,
            &env(),
            &info("Staker001"),
            ExecuteMsg::StakeWithdrawFromAClub {
                staker: "Staker001".to_string(),
                club_name: "CLUB001".to_string(),
                amount,
                immediate_withdrawal: true,
            },
            0,
        );
        assert_eq!(result.unwrap_err(), generic("Not Sufficient Matured Unstaked Bonds"));
    }
    assert_eq!(staked(&ledger, "CLUB001", "Staker001"), 99);
    assert_eq!(ledger, before);
}

#[test]
fn an_owner_cannot_acquire_its_club_but_can_acquire_another() {
    let mut ledger = ledger();
    buy(&mut ledger, "Owner001", None, "CLUB001").unwrap();
    assert_eq!(
        buy(&mut ledger, "Owner001", Some("Owner001"), "CLUB001").unwrap_err(),
        generic("buyer already owns this club")
    );
    release_club(&mut ledger, &env(), &info("Owner001"), "Owner001".to_string(), "CLUB001".to_string())
        .unwrap();
    assert_eq!(
        buy(&mut ledger, "Owner001", Some("Owner001"), "CLUB001").unwrap_err(),
        generic("buyer already owns this club")
    );
    buy(&mut ledger, "Owner001", None, "CLUB002").unwrap();
    let owned = query_club_ownership_details_for_owner(&ledger, "Owner001".to_string());
    let clubs: Vec<&str> = owned.iter().map(|c| c.club_name.as_str()).collect();
    assert_eq!(clubs, vec!["CLUB001", "CLUB002"]);
    assert_eq!(query_all_club_ownership_details(&ledger).len(), 2);
}

#[test]
fn acquisition_needs_a_release_that_has_not_expired_and_the_right_seller() {
    let mut ledger = ledger();
    buy(&mut ledger, "Owner001", None, "CLUB001").unwrap();
    assert_eq!(
        buy(&mut ledger, "Owner002", Some("Owner001"), "CLUB001").unwrap_err(),
        generic("Owner has not released the club")
    );
    assert_eq!(
        release_club(&mut ledger, &env(), &info("Owner002"), "Owner002".to_string(), "CLUB001".to_string())
            .unwrap_err(),
        generic("Releaser is not the owner for the club")
    );
    assert_eq!(
        release_club(&mut ledger, &env(), &info("Owner002"), "Owner001".to_string(), "CLUB001".to_string())
            .unwrap_err(),
        ContractError::Unauthorized {}
    );
    release_club(&mut ledger, &env(), &info("Owner001"), "Owner001".to_string(), "CLUB001".to_string())
        .unwrap();
    assert_eq!(
        buy(&mut ledger, "Owner002", Some("Owner003"), "CLUB001").unwrap_err(),
        generic("Seller is not the owner for the club")
    );

    let late = env_at(NOW + 86400 * SECOND + 1);
    let expired = assign_a_club(
        &mut ledger,
        &late,
        &info("admin"),
        "Owner002".to_string(),
        Some("Owner001".to_string()),
        "CLUB001".to_string(),
        true,
    );
    assert_eq!(expired.unwrap_err(), generic("Release time for the club has expired"));

    let in_time = env_at(NOW + 86400 * SECOND);
    assign_a_club(
        &mut ledger,
        &in_time,
        &info("admin"),
        "Owner002".to_string(),
        Some("Owner001".to_string()),
        "CLUB001".to_string(),
        true,
    )
    .unwrap();
    let record = club(&ledger, "CLUB001");
    assert_eq!(record.owner_address, "Owner002");
    assert_eq!(record.price_paid, 0);
    assert_eq!(record.start_timestamp, in_time.block_time);
    assert_eq!(record.locking_period, 86400);
    assert!(!record.owner_released);
    assert_eq!(staked(&ledger, "CLUB001", "Owner002"), 0);
}

#[test]
fn purchase_checks_caller_price_and_fees_and_asks_for_the_transfers() {
    let mut ledger = ledger();
    let funds = info_with("Owner001", 999, "uusd");
    let wrong_caller = buy_a_club(
        &mut ledger,
        &env(),
        &funds,
        "Owner002".to_string(),
        None,
        "CLUB001".to_string(),
        1000000,
        true,
        1000,
    );
    assert_eq!(wrong_caller.unwrap_err(), ContractError::Unauthorized {});
    let wrong_price = buy_a_club(
        &mut ledger,
        &env(),
        &funds,
        "Owner001".to_string(),
        None,
        "CLUB001".to_string(),
        999999,
        true,
        1000,
    );
    assert_eq!(wrong_price.unwrap_err(), generic("Club price is not matching"));
    let short = buy_a_club(
        &mut ledger,
        &env(),
        &info_with("Owner001", 998, "uusd"),
        "Owner001".to_string(),
        None,
        "CLUB001".to_string(),
        1000000,
        true,
        1000,
    );
    assert_eq!(
        short.unwrap_err(),
        ContractError::InsufficientFees { required: 1000, received: 998 }
    );
    assert_eq!(ledger.clubs.len(), 0);

    let response = buy_a_club(
        &mut ledger,
        &env(),
        &funds,
        "Owner001".to_string(),
        None,
        "CLUB001".to_string(),
        1000000,
        true,
        1000,
    )
    .unwrap();
    assert_eq!(
        response.messages,
        vec![
            Transfer::TokenTransferFrom {
                token_contract: "token".to_string(),
                owner: "Owner001".to_string(),
                recipient: "club_fees".to_string(),
                amount: 1000000,
            },
            Transfer::BankSend {
                to_address: "platform_fees".to_string(),
                funds: vec![Coin { denom: "uusd".to_string(), amount: 999 }],
            },
        ]
    );
    assert_eq!(
        response.attributes,
        vec![
            Attribute { key: "action".to_string(), value: AttributeValue::Text("buy_a_club".to_string()) },
            Attribute { key: "buyer".to_string(), value: AttributeValue::Text("Owner001".to_string()) },
            Attribute { key: "club_name".to_string(), value: AttributeValue::Text("CLUB001".to_string()) },
            Attribute { key: "fees".to_string(), value: AttributeValue::Amount(1000000) },
        ]
    );
    assert_eq!(response.data, Some(Receipt::ClubFeesReceived(1000000)));
}

#[test]
fn fees_count_only_the_fee_currency_and_allow_a_tenth_of_a_percent() {
    let coins = |list: &[(u128, &str)]| -> Vec<Coin> {
        list.iter().map(|(a, d)| Coin { denom: d.to_string(), amount: *a }).collect()
    };
    assert_eq!(check_fees(&coins(&[(999, "uusd")]), 1000), Ok(()));
    assert_eq!(check_fees(&coins(&[(500, "uusd"), (7, "stake"), (499, "uusd")]), 1000), Ok(()));
    assert_eq!(
        check_fees(&coins(&[(998, "uusd"), (1000, "stake")]), 1000),
        Err(ContractError::InsufficientFees { required: 1000, received: 998 })
    );
    assert_eq!(check_fees(&coins(&[]), 0), Ok(()));
    assert_eq!(check_fees(&coins(&[]), 1), Ok(()));
    assert_eq!(
        check_fees(&coins(&[]), 1001),
        Err(ContractError::InsufficientFees { required: 1001, received: 0 })
    );
    assert_eq!(
        check_fees(&coins(&[(u128::MAX, "uusd"), (1, "uusd")]), 0),
        Err(ContractError::Std(StdError::Overflow))
    );
    assert_eq!(
        check_fees(&coins(&[(5, "uusd")]), u128::MAX),
        Err(ContractError::Std(StdError::Overflow))
    );
}

#[test]
fn platform_fees_are_the_share_due_of_the_quote() {
    let mut ledger = ledger();
    buy(&mut ledger, "Owner001", None, "CLUB001").unwrap();
    stake(&mut ledger, "Staker001", "CLUB001", 1000, false).unwrap();

    let buy_msg = ExecuteMsg::BuyAClub {
        buyer: "b".to_string(),
        seller: None,
        club_name: "CLUB009".to_string(),
        auto_stake: true,
    };
    let basis = platform_fee_basis(&ledger, &buy_msg).unwrap().unwrap();
    assert_eq!(basis, FeeBasis { percentage: 130, fury_amount: 1000000 });
    assert_eq!(
        quote_request(basis),
        ProxyQueryMsgs::get_ust_equivalent_to_fury { fury_count: 1000000 }
    );
    assert_eq!(query_platform_fees(&ledger, &buy_msg, 5_000_000), Ok(65000));

    let stake_msg = ExecuteMsg::StakeOnAClub {
        staker: "s".to_string(),
        club_name: "CLUB001".to_string(),
        amount: 777,
        auto_stake: true,
    };
    assert_eq!(
        platform_fee_basis(&ledger, &stake_msg),
        Ok(Some(FeeBasis { percentage: 180, fury_amount: 777 }))
    );
    assert_eq!(query_platform_fees(&ledger, &stake_msg, 1234), Ok(22));
    assert_eq!(query_platform_fees(&ledger, &stake_msg, u128::MAX), Err(StdError::Overflow));

    let withdraw_msg = ExecuteMsg::StakeWithdrawFromAClub {
        staker: "s".to_string(),
        club_name: "CLUB001".to_string(),
        amount: 40,
        immediate_withdrawal: false,
    };
    assert_eq!(
        platform_fee_basis(&ledger, &withdraw_msg),
        Ok(Some(FeeBasis { percentage: 130, fury_amount: 40 }))
    );

    let free = ExecuteMsg::ReleaseClub { owner: "o".to_string(), club_name: "CLUB001".to_string() };
    assert_eq!(platform_fee_basis(&ledger, &free), Ok(None));
    assert_eq!(query_platform_fees(&ledger, &free, u128::MAX), Ok(0));

    increase_reward_amount(&mut ledger, &info("admin"), "anyone".to_string(), 1000).unwrap();
    round(&mut ledger, &["Staker001"], "CLUB001", true, true).unwrap();
    let claim_msg = ExecuteMsg::ClaimStakerRewards {
        staker: "Staker001".to_string(),
        club_name: "CLUB001".to_string(),
    };
    assert_eq!(
        platform_fee_basis(&ledger, &claim_msg),
        Ok(Some(FeeBasis { percentage: 130, fury_amount: 970 }))
    );
    assert_eq!(
        query(&ledger, QueryMsg::QueryPlatformFees { msg: claim_msg, ust_equiv_for_fury: 20000 }),
        Ok(QueryResponse::Amount(260))
    );
}

#[test]
fn a_repeated_call_of_a_round_pays_nothing_twice() {
    let mut ledger = ledger_with(NOW - SECOND, 5 * 3600);
    buy(&mut ledger, "Owner001", None, "CLUB001").unwrap();
    buy(&mut ledger, "Owner002", None, "CLUB002").unwrap();
    stake(&mut ledger, "Staker001", "CLUB001", 330000, true).unwrap();
    stake(&mut ledger, "Staker002", "CLUB002", 110000, false).unwrap();
    increase_reward_amount(&mut ledger, &info("admin"), "anyone".to_string(), 1000000).unwrap();

    let stakers = ["Staker001", "Owner001", "Staker009"];
    round(&mut ledger, &stakers, "CLUB001", true, false).unwrap();
    let once = ledger.duplicate();
    assert_eq!(staked(&ledger, "CLUB001", "Staker001"), 330000 + 585000 + 190000);
    assert_eq!(ledger.reward_given_in_current_timestamp, 585000 + 190000 + 10000);

    round(&mut ledger, &stakers, "CLUB001", false, false).unwrap();
    assert_eq!(ledger, once);
    round(&mut ledger, &stakers, "CLUB001", false, false).unwrap();
    assert_eq!(ledger, once);
    assert_eq!(query_reward_amount(&ledger), 1000000);
}

#[test]
fn the_final_call_closes_the_round() {
    let mut ledger = ledger_with(NOW - SECOND, 5 * 3600);
    buy(&mut ledger, "Owner001", None, "CLUB001").unwrap();
    buy(&mut ledger, "Owner002", None, "CLUB002").unwrap();
    stake(&mut ledger, "Staker001", "CLUB001", 330000, true).unwrap();
    stake(&mut ledger, "Staker002", "CLUB002", 110000, false).unwrap();
    increase_reward_amount(&mut ledger, &info("admin"), "anyone".to_string(), 1000000).unwrap();

    round(&mut ledger, &["Staker001", "Owner001"], "CLUB001", true, false).unwrap();
    assert_eq!(ledger.club_reward_next_timestamp, Timestamp::from_nanos(NOW - SECOND));
    round(&mut ledger, &["Staker002", "Owner002"], "CLUB002", false, true).unwrap();

    let stakes = query_club_staking_details(&ledger, "CLUB002".to_string(), names(&["Staker002"]));
    assert_eq!(stakes[0].reward_amount, 195000);
    assert_eq!(stakes[0].staked_amount, 110000);
    assert_eq!(
        stakes[0].staking_start_timestamp,
        Timestamp::from_nanos(NOW - SECOND + 5 * 3600 * SECOND)
    );
    assert_eq!(staked(&ledger, "CLUB002", "Owner002"), 20000);
    assert_eq!(query_reward_amount(&ledger), 1000000 - 785000 - 215000);
    assert_eq!(ledger.reward_given_in_current_timestamp, 0);
    assert_eq!(
        ledger.club_reward_next_timestamp,
        Timestamp::from_nanos(NOW - SECOND + 5 * 3600 * SECOND)
    );
    assert_eq!(ledger.winning_club_details.winner_list, names(&["CLUB001"]));
    assert_eq!(ledger.winning_club_details.total_number_of_clubs, 2);
    assert_eq!(ledger.winning_club_details.total_stake_across_all_clubs, 440000);
    assert_eq!(ledger.winning_club_details.total_stake_in_winning_club, 330000);
    assert_eq!(
        ledger.staking_snapshot,
        vec![
            SnapshotEntry { club_name: "CLUB001".to_string(), staked_amount: 330000 },
            SnapshotEntry { club_name: "CLUB002".to_string(), staked_amount: 110000 },
        ]
    );
    assert_totals_match(&ledger);
}

#[test]
fn the_round_start_advances_by_one_period_on_a_final_call_only() {
    let period = 86400 * SECOND;
    let mut ledger = ledger();
    buy(&mut ledger, "Owner001", None, "CLUB001").unwrap();
    let start = NOW - 3600 * SECOND;

    let response = round(&mut ledger, &[], "CLUB001", true, false).unwrap();
    assert_eq!(ledger.club_reward_next_timestamp, Timestamp::from_nanos(start));
    assert_eq!(
        response.attributes,
        vec![
            Attribute {
                key: "response".to_string(),
                value: AttributeValue::Text("no accumulated rewards".to_string()),
            },
            Attribute {
                key: "next_timestamp".to_string(),
                value: AttributeValue::Time(Timestamp::from_nanos(start)),
            },
        ]
    );

    round(&mut ledger, &[], "CLUB001", false, true).unwrap();
    assert_eq!(ledger.club_reward_next_timestamp, Timestamp::from_nanos(start + period));

    assert_eq!(
        round(&mut ledger, &[], "CLUB001", true, true).unwrap_err(),
        generic("Time for Reward not yet arrived")
    );
    assert_eq!(ledger.club_reward_next_timestamp, Timestamp::from_nanos(start + period));

    let mut due_now = ledger_with(NOW, 86400);
    round(&mut due_now, &[], "CLUB001", true, true).unwrap();
    assert_eq!(due_now.club_reward_next_timestamp, Timestamp::from_nanos(NOW));

    let outsider = calculate_and_distribute_rewards(
        &mut due_now,
        &env(),
        &info("Owner001"),
        vec![],
        "CLUB001".to_string(),
        true,
        true,
    );
    assert_eq!(outsider.unwrap_err(), generic("not authorised"));
}

#[test]
fn clubs_that_tie_in_growth_and_stake_win_together() {
    let club = |name: &str, total: u128| ClubOwnershipDetails {
        club_name: name.to_string(),
        start_timestamp: Timestamp::from_nanos(NOW),
        locking_period: 0,
        owner_address: "owner".to_string(),
        price_paid: 0,
        reward_amount: 0,
        owner_released: false,
        total_staked_amount: total,
    };
    let seen = |name: &str, amount: u128| SnapshotEntry {
        club_name: name.to_string(),
        staked_amount: amount,
    };

    let clubs = vec![club("A", 100), club("B", 300), club("C", 100), club("D", 300)];
    let (round, recorded) = get_winning_clubs_details(&clubs, &vec![]).unwrap();
    assert_eq!(round.winner_list, names(&["B", "D"]));
    assert_eq!(round.total_number_of_clubs, 4);
    assert_eq!(round.total_stake_across_all_clubs, 800);
    assert_eq!(round.total_stake_in_winning_club, 300);
    assert_eq!(
        recorded,
        vec![seen("A", 100), seen("B", 300), seen("C", 100), seen("D", 300)]
    );

    // equal growth of 50: the larger stake wins alone, whichever comes first
    let clubs = vec![club("A", 150), club("B", 350), club("C", 90)];
    let snapshot = vec![seen("A", 100), seen("B", 300), seen("C", 100)];
    let (round, _) = get_winning_clubs_details(&clubs, &snapshot).unwrap();
    assert_eq!(round.winner_list, names(&["B"]));
    assert_eq!(round.total_stake_in_winning_club, 350);
    let clubs = vec![club("B", 350), club("A", 150)];
    let (round, _) = get_winning_clubs_details(&clubs, &snapshot).unwrap();
    assert_eq!(round.winner_list, names(&["B"]));

    // the club that shrank least wins when all shrank
    let clubs = vec![club("A", 10), club("B", 290)];
    let (round, _) = get_winning_clubs_details(&clubs, &snapshot).unwrap();
    assert_eq!(round.winner_list, names(&["B"]));

    // a club that lost more than all tokens there are cannot win
    let huge = 420000000000000u128;
    let clubs = vec![club("A", 0)];
    let (round, _) = get_winning_clubs_details(&clubs, &vec![seen("A", huge + 1)]).unwrap();
    assert_eq!(round.winner_list, names(&[]));
    assert_eq!(round.total_number_of_clubs, 1);
    let (round, _) = get_winning_clubs_details(&clubs, &vec![seen("A", huge)]).unwrap();
    assert_eq!(round.winner_list, names(&["A"]));

    let (round, recorded) = get_winning_clubs_details(&vec![], &snapshot).unwrap();
    assert_eq!(round.winner_list, names(&[]));
    assert_eq!(round.total_number_of_clubs, 0);
    assert_eq!(recorded, vec![]);

    let clubs = vec![club("A", u128::MAX), club("B", 1)];
    assert_eq!(
        get_winning_clubs_details(&clubs, &vec![]).unwrap_err(),
        ContractError::Std(StdError::Overflow)
    );

    assert!(is_winning_club("B".to_string(), names(&["A", "B"])));
    assert!(!is_winning_club("C".to_string(), names(&["A", "B"])));
    assert!(!is_winning_club("C".to_string(), names(&[])));
}

#[test]
fn growth_compares_as_a_signed_number() {
    let g = |current: u128, previous: u128| Growth::between(current, previous);
    assert_eq!(g(5, 3), Growth { negative: false, size: 2 });
    assert_eq!(g(3, 5), Growth { negative: true, size: 2 });
    assert!(g(5, 3).exceeds(&g(3, 5)));
    assert!(!g(3, 5).exceeds(&g(5, 3)));
    assert!(g(3, 5).exceeds(&g(0, u128::MAX)));
    assert!(g(u128::MAX, 0).exceeds(&g(u128::MAX - 1, 0)));
    assert!(!g(4, 4).exceeds(&Growth { negative: true, size: 0 }));
    assert!(g(4, 4).equals(&Growth { negative: true, size: 0 }));
    assert!(!g(5, 4).equals(&g(4, 5)));
}

#[test]
fn winners_that_are_all_the_clubs_share_three_percent_among_their_owners() {
    let mut ledger = ledger();
    buy(&mut ledger, "Owner001", None, "CLUB001").unwrap();
    buy(&mut ledger, "Owner002", None, "CLUB002").unwrap();
    stake(&mut ledger, "Staker001", "CLUB001", 500, true).unwrap();
    stake(&mut ledger, "Staker002", "CLUB002", 500, true).unwrap();
    increase_reward_amount(&mut ledger, &info("admin"), "anyone".to_string(), 100000).unwrap();

    round(&mut ledger, &["Staker001", "Owner001"], "CLUB001", true, false).unwrap();
    assert_eq!(ledger.winning_club_details.winner_list, names(&["CLUB001", "CLUB002"]));
    assert_eq!(staked(&ledger, "CLUB001", "Owner001"), 1500);
    assert_eq!(staked(&ledger, "CLUB001", "Staker001"), 500 + 39000 + 9500);
    assert_eq!(club(&ledger, "CLUB001").total_staked_amount, 500 + 39000 + 9500 + 1500);
}

#[test]
fn a_call_without_a_ranking_cannot_pay_a_club() {
    let mut ledger = ledger();
    buy(&mut ledger, "Owner001", None, "CLUB001").unwrap();
    stake(&mut ledger, "Staker001", "CLUB001", 500, true).unwrap();
    increase_reward_amount(&mut ledger, &info("admin"), "anyone".to_string(), 100000).unwrap();
    let before = ledger.duplicate();
    assert_eq!(
        round(&mut ledger, &["Staker001"], "CLUB001", false, false).unwrap_err(),
        generic("computation error - should never happen")
    );
    assert_eq!(
        round(&mut ledger, &["Staker001"], "CLUB007", true, false).unwrap_err(),
        generic("No ownership details found")
    );
    assert_eq!(ledger, before);
}

#[test]
fn a_stake_that_starts_in_the_future_is_left_out_of_the_round() {
    let mut ledger = ledger();
    buy(&mut ledger, "Owner001", None, "CLUB001").unwrap();
    stake(&mut ledger, "Staker001", "CLUB001", 500, true).unwrap();
    stake_on_a_club(
        &mut ledger,
        &env_at(NOW + 1),
        &info("Staker002"),
        "Staker002".to_string(),
        "CLUB001".to_string(),
        500,
        true,
        0,
    )
    .unwrap();
    let result = distribute_reward_to_club_stakers(
        &mut ledger,
        &env(),
        86400,
        Timestamp::from_nanos(NOW),
        names(&["Staker001", "Staker002"]),
        "CLUB001".to_string(),
        1000,
        true,
        false,
    );
    assert_eq!(result, Ok(Response::new()));
    let stakes = query_club_staking_details(
        &ledger,
        "CLUB001".to_string(),
        names(&["Staker001", "Staker002"]),
    );
    assert_eq!(stakes[0].staked_amount, 500 + 390 + 95);
    assert_eq!(stakes[0].staking_start_timestamp, Timestamp::from_nanos(NOW));
    assert_eq!(stakes[1].staked_amount, 500);
    assert_eq!(stakes[1].staking_start_timestamp, Timestamp::from_nanos(NOW + 1));
    assert_eq!(ledger.reward_given_in_current_timestamp, 485);
    assert_eq!(query_reward_amount(&ledger), 0);
    assert_totals_match(&ledger);
}

#[test]
fn a_staker_claims_the_accrued_reward_once() {
    let mut ledger = ledger();
    buy(&mut ledger, "Owner001", None, "CLUB001").unwrap();
    stake(&mut ledger, "Staker001", "CLUB001", 33000, false).unwrap();
    increase_reward_amount(&mut ledger, &info("admin"), "anyone".to_string(), 1000000).unwrap();
    round(&mut ledger, &["Staker001", "Owner001"], "CLUB001", true, true).unwrap();
    assert_eq!(
        query_staker_rewards(&ledger, "Staker001".to_string(), "CLUB001".to_string()),
        Ok(970000)
    );
    assert_eq!(
        query_staker_rewards(&ledger, "Staker007".to_string(), "CLUB001".to_string()),
        Ok(0)
    );

    let funds = info_with("Staker001", 10, "uusd");
    let claim = |ledger: &mut Ledger, fees: u128| {
        claim_staker_rewards(ledger, &funds, "Staker001".to_string(), "CLUB001".to_string(), fees)
    };
    assert_eq!(
        claim(&mut ledger, 20).unwrap_err(),
        ContractError::InsufficientFees { required: 20, received: 10 }
    );
    let response = claim(&mut ledger, 10).unwrap();
    assert_eq!(
        response.messages,
        vec![
            Transfer::TokenTransfer {
                token_contract: "token".to_string(),
                recipient: "Staker001".to_string(),
                amount: 970000,
            },
            Transfer::BankSend {
                to_address: "platform_fees".to_string(),
                funds: vec![Coin { denom: "uusd".to_string(), amount: 10 }],
            },
        ]
    );
    assert_eq!(response.data, Some(Receipt::AmountTransferred(970000)));
    assert_eq!(
        query_staker_rewards(&ledger, "Staker001".to_string(), "CLUB001".to_string()),
        Ok(0)
    );
    assert_eq!(staked(&ledger, "CLUB001", "Staker001"), 33000);
    assert_eq!(claim(&mut ledger, 10).unwrap_err(), generic("No rewards for this user"));
    let stranger = claim_staker_rewards(
        &mut ledger,
        &info("Staker002"),
        "Staker002".to_string(),
        "CLUB001".to_string(),
        0,
    );
    assert_eq!(stranger.unwrap_err(), generic("Not a valid staker for the club"));
    let impostor = claim_staker_rewards(
        &mut ledger,
        &info("Staker002"),
        "Staker001".to_string(),
        "CLUB001".to_string(),
        0,
    );
    assert_eq!(impostor.unwrap_err(), ContractError::Unauthorized {});
}

#[test]
fn the_reward_of_a_club_goes_with_its_seller_and_is_claimed_once() {
    let mut ledger = ledger();
    buy(&mut ledger, "Owner001", None, "CLUB001").unwrap();
    assert_eq!(
        claim_owner_rewards(&mut ledger, &info("Owner001"), "Owner001".to_string(), "CLUB001".to_string())
            .unwrap_err(),
        generic("No rewards for this owner")
    );
    ledger.clubs[0].reward_amount = 500;
    assert_eq!(
        claim_owner_rewards(&mut ledger, &info("Owner002"), "Owner002".to_string(), "CLUB001".to_string())
            .unwrap_err(),
        generic("Not a valid owner for the club")
    );
    let paid =
        claim_owner_rewards(&mut ledger, &info("Owner001"), "Owner001".to_string(), "CLUB001".to_string())
            .unwrap();
    assert_eq!(
        paid.messages,
        vec![Transfer::TokenTransfer {
            token_contract: "token".to_string(),
            recipient: "Owner001".to_string(),
            amount: 500,
        }]
    );
    assert_eq!(
        paid.attributes,
        vec![
            Attribute { key: "action".to_string(), value: AttributeValue::Text("owner_reward".to_string()) },
            Attribute { key: "amount".to_string(), value: AttributeValue::Amount(500) },
        ]
    );
    assert_eq!(club(&ledger, "CLUB001").reward_amount, 0);

    ledger.clubs[0].reward_amount = 300;
    release_club(&mut ledger, &env(), &info("Owner001"), "Owner001".to_string(), "CLUB001".to_string())
        .unwrap();
    buy(&mut ledger, "Owner002", Some("Owner001"), "CLUB001").unwrap();
    assert_eq!(club(&ledger, "CLUB001").reward_amount, 0);
    assert_eq!(
        query_club_previous_owner_details(&ledger, "Owner001".to_string()).unwrap().reward_amount,
        300
    );

    ledger.clubs[0].reward_amount = 45;
    release_club(&mut ledger, &env(), &info("Owner002"), "Owner002".to_string(), "CLUB001".to_string())
        .unwrap();
    buy(&mut ledger, "Owner003", Some("Owner002"), "CLUB001").unwrap();
    ledger.clubs[0].reward_amount = 5;
    release_club(&mut ledger, &env(), &info("Owner003"), "Owner003".to_string(), "CLUB001".to_string())
        .unwrap();
    buy(&mut ledger, "Owner001", Some("Owner003"), "CLUB001").unwrap();
    ledger.clubs[0].reward_amount = 7;
    release_club(&mut ledger, &env(), &info("Owner001"), "Owner001".to_string(), "CLUB001".to_string())
        .unwrap();
    buy(&mut ledger, "Owner002", Some("Owner001"), "CLUB001").unwrap();
    assert_eq!(
        query_club_previous_owner_details(&ledger, "Owner001".to_string()).unwrap().reward_amount,
        307
    );

    assert_eq!(
        claim_previous_owner_rewards(&mut ledger, &info("Owner002"), "Owner001".to_string()).unwrap_err(),
        ContractError::Unauthorized {}
    );
    let paid = claim_previous_owner_rewards(&mut ledger, &info("Owner001"), "Owner001".to_string())
        .unwrap();
    assert_eq!(
        paid.messages,
        vec![Transfer::TokenTransfer {
            token_contract: "token".to_string(),
            recipient: "Owner001".to_string(),
            amount: 307,
        }]
    );
    assert_eq!(
        claim_previous_owner_rewards(&mut ledger, &info("Owner001"), "Owner001".to_string()).unwrap_err(),
        generic("Not a valid previous owner for the club")
    );
    assert_eq!(ledger.previous_owners.len(), 2);
}

#[test]
fn staking_needs_the_staker_a_club_and_room_in_the_total() {
    let mut ledger = ledger();
    assert_eq!(
        stake(&mut ledger, "Staker001", "CLUB001", 5, true).unwrap_err(),
        generic("The club is not available for staking")
    );
    assert_eq!(
        save_staking_details(
            &mut ledger,
            Timestamp::from_nanos(NOW),
            &"Staker001".to_string(),
            &"CLUB001".to_string(),
            5,
            true,
            true
        )
        .unwrap_err(),
        ContractError::Std(StdError::NotFound { kind: "ClubOwnershipDetails".to_string() })
    );
    buy(&mut ledger, "Owner001", None, "CLUB001").unwrap();
    let other = stake_on_a_club(
        &mut ledger,
        &env(),
        &info("Staker002"),
        "Staker001".to_string(),
        "CLUB001".to_string(),
        5,
        true,
        0,
    );
    assert_eq!(other.unwrap_err(), ContractError::Unauthorized {});

    let response = stake(&mut ledger, "Staker001", "CLUB001", u128::MAX - 1, true).unwrap();
    assert_eq!(
        response.messages[0],
        Transfer::TokenTransferFrom {
            token_contract: "token".to_string(),
            owner: "Staker001".to_string(),
            recipient: "cosmos2contract".to_string(),
            amount: u128::MAX - 1,
        }
    );
    assert_eq!(response.data, Some(Receipt::ClubStakeReceived(u128::MAX - 1)));
    let before = ledger.duplicate();
    assert_eq!(
        stake(&mut ledger, "Staker002", "CLUB001", 2, true).unwrap_err(),
        ContractError::Std(StdError::Overflow)
    );
    assert_eq!(
        stake(&mut ledger, "Staker001", "CLUB001", 2, true).unwrap_err(),
        ContractError::Std(StdError::Overflow)
    );
    assert_eq!(ledger, before);
    stake(&mut ledger, "Staker002", "CLUB001", 1, true).unwrap();
    assert_eq!(club(&ledger, "CLUB001").total_staked_amount, u128::MAX);
}

#[test]
fn stakes_are_assigned_together_or_not_at_all() {
    let mut ledger = ledger();
    buy(&mut ledger, "Owner001", None, "CLUB001").unwrap();
    let row = |staker: &str, club: &str, amount: u128| ClubStakingDetails {
        club_name: club.to_string(),
        staker_address: staker.to_string(),
        staking_start_timestamp: Timestamp::from_nanos(0),
        staked_amount: amount,
        staking_duration: 9,
        reward_amount: 4,
        auto_stake: false,
    };
    let assign = |ledger: &mut Ledger, sender: &str, list: Vec<ClubStakingDetails>, club: &str| {
        assign_stakes_to_a_club(ledger, &env(), &info(sender), list, club.to_string())
    };
    let before = ledger.duplicate();
    assert_eq!(
        assign(&mut ledger, "Owner001", vec![row("Staker001", "CLUB001", 1)], "CLUB001").unwrap_err(),
        ContractError::Unauthorized {}
    );
    assert_eq!(
        assign(
            &mut ledger,
            "admin",
            vec![row("Staker001", "CLUB001", 1), row("Staker002", "CLUB002", 1)],
            "CLUB001"
        )
        .unwrap_err(),
        generic("Passed club names do not match")
    );
    assert_eq!(
        assign(&mut ledger, "admin", vec![row("Staker001", "CLUB002", 1)], "CLUB002").unwrap_err(),
        generic("The club is not available for staking")
    );
    assert_eq!(
        assign(
            &mut ledger,
            "admin",
            vec![row("Staker001", "CLUB001", 1), row("Staker002", "CLUB001", u128::MAX)],
            "CLUB001"
        )
        .unwrap_err(),
        ContractError::Std(StdError::Overflow)
    );
    assert_eq!(ledger, before);

    let response = assign(
        &mut ledger,
        "admin",
        vec![
            row("Staker001", "CLUB001", 10),
            row("Staker002", "CLUB001", 20),
            row("Staker001", "CLUB001", 5),
        ],
        "CLUB001",
    )
    .unwrap();
    assert_eq!(
        response.messages,
        vec![Transfer::TokenTransferFrom {
            token_contract: "token".to_string(),
            owner: "admin".to_string(),
            recipient: "cosmos2contract".to_string(),
            amount: 35,
        }]
    );
    assert_eq!(response.data, Some(Receipt::StakesAssigned(35)));
    let stakes = query_all_stakes(&ledger, names(&["Staker001", "Staker002"]));
    assert_eq!(stakes.len(), 2);
    assert_eq!(stakes[0].staked_amount, 15);
    assert_eq!(stakes[0].reward_amount, 0);
    assert_eq!(stakes[0].staking_duration, 0);
    assert_eq!(stakes[0].staking_start_timestamp, Timestamp::from_nanos(NOW));
    assert_eq!(stakes[1].staked_amount, 20);
    assert_eq!(club(&ledger, "CLUB001").total_staked_amount, 35);
}

#[test]
fn the_reward_pool_grows_by_what_the_administrator_pays_in() {
    let mut ledger = ledger();
    assert_eq!(
        increase_reward_amount(&mut ledger, &info("Owner001"), "x".to_string(), 5).unwrap_err(),
        ContractError::Unauthorized {}
    );
    increase_reward_amount(&mut ledger, &info("admin"), "x".to_string(), 5).unwrap();
    received_message(
        &mut ledger,
        &info("admin"),
        ReceivedMsg::IncreaseRewardAmount(IncreaseRewardAmountCommand { reward_from: "x".to_string() }),
        7,
    )
    .unwrap();
    assert_eq!(query_reward_amount(&ledger), 12);
    assert_eq!(
        increase_reward_amount(&mut ledger, &info("admin"), "x".to_string(), u128::MAX).unwrap_err(),
        ContractError::Std(StdError::Overflow)
    );
    assert_eq!(query_reward_amount(&ledger), 12);
    assert_eq!(query(&ledger, QueryMsg::RewardAmount {}), Ok(QueryResponse::Amount(12)));
}

#[test]
fn the_ledger_starts_empty_and_a_round_is_due_at_once_when_none_is_asked_for() {
    let ledger = ledger_with(999_999_999, 60);
    assert_eq!(ledger.club_reward_next_timestamp, Timestamp::from_nanos(NOW - SECOND));
    assert_eq!(ledger.config.club_reward_next_timestamp, Timestamp::from_nanos(NOW - SECOND));
    let ledger = ledger_with(SECOND, 60);
    assert_eq!(ledger.club_reward_next_timestamp, Timestamp::from_nanos(SECOND));
    assert_eq!(ledger.config.club_price, 1000000);
    assert_eq!(ledger.config.admin_address, "admin");
    assert!(ledger.clubs.is_empty() && ledger.stakes.is_empty() && ledger.bonds.is_empty());
    assert_eq!(query_reward_amount(&ledger), 0);

    let too_early = instantiate(
        &env_at(SECOND - 1),
        InstantiateMsg {
            admin_address: "admin".to_string(),
            minting_contract_address: "token".to_string(),
            astro_proxy_address: "proxy".to_string(),
            club_fee_collector_wallet: "club_fees".to_string(),
            club_reward_next_timestamp: Timestamp::from_nanos(0),
            reward_periodicity: 1,
            club_price: 1,
            bonding_duration: 1,
            owner_release_locking_duration: 1,
            platform_fees_collector_wallet: "platform_fees".to_string(),
            platform_fees: 0,
            transaction_fees: 0,
            control_fees: 0,
            max_bonding_limit_per_user: 1,
        },
    );
    assert_eq!(too_early.unwrap_err(), ContractError::Std(StdError::Overflow));
}

#[test]
fn timestamps_move_by_whole_seconds_within_their_range() {
    let t = Timestamp::from_nanos(5 * SECOND + 7);
    assert_eq!(t.seconds(), 5);
    assert_eq!(t.checked_plus_seconds(3), Some(Timestamp::from_nanos(8 * SECOND + 7)));
    assert_eq!(t.checked_minus_seconds(5), Some(Timestamp::from_nanos(7)));
    assert_eq!(t.checked_minus_seconds(6), None);
    assert_eq!(t.checked_plus_seconds(u64::MAX), None);
    assert_eq!(Timestamp::from_nanos(u64::MAX).checked_plus_seconds(0), Some(Timestamp::from_nanos(u64::MAX)));
    assert_eq!(Timestamp::from_nanos(u64::MAX).checked_plus_seconds(1), None);
    assert!(t.elapsed_by(2, Timestamp::from_nanos(7 * SECOND + 7)));
    assert!(!t.elapsed_by(2, Timestamp::from_nanos(7 * SECOND + 6)));
    assert!(t.elapsed_by_not_after(2, Timestamp::from_nanos(7 * SECOND + 7)));
    assert!(!t.elapsed_by_not_after(2, Timestamp::from_nanos(7 * SECOND + 8)));
    assert!(t.elapsed_by_not_after(u64::MAX, Timestamp::from_nanos(u64::MAX)));
}

#[test]
fn queries_answer_from_the_ledger() {
    let mut ledger = ledger();
    buy(&mut ledger, "Owner001", None, "CLUB001").unwrap();
    buy(&mut ledger, "Owner002", None, "CLUB002").unwrap();
    stake(&mut ledger, "Staker001", "CLUB001", 10, true).unwrap();
    stake(&mut ledger, "Staker001", "CLUB002", 20, true).unwrap();
    stake(&mut ledger, "Staker002", "CLUB002", 30, true).unwrap();

    let amounts = |stakes: &Vec<ClubStakingDetails>| -> Vec<u128> {
        stakes.iter().map(|s| s.staked_amount).collect()
    };
    assert_eq!(
        amounts(&query_all_stakes(&ledger, names(&["Staker002", "Staker001"]))),
        vec![10, 30, 20]
    );
    assert_eq!(
        amounts(&query_club_staking_details(
            &ledger,
            "CLUB002".to_string(),
            names(&["Staker001", "Nobody", "Staker002", "Staker001"])
        )),
        vec![20, 30, 20]
    );
    assert_eq!(
        amounts(&query_all_stakes_for_user(&ledger, "Staker001".to_string()).unwrap()),
        vec![10, 20]
    );
    assert_eq!(
        query_all_stakes_for_user(&ledger, "Staker002".to_string()).unwrap_err(),
        StdError::NotFound { kind: "ClubStakingDetails".to_string() }
    );
    assert_eq!(
        query_club_ownership_details(&ledger, "CLUB003".to_string()).unwrap_err(),
        StdError::GenericErr { msg: "No ownership details found".to_string() }
    );
    assert_eq!(
        query_club_bonding_details_for_user(&ledger, "CLUB001".to_string(), "Staker001".to_string())
            .unwrap_err(),
        StdError::GenericErr { msg: "No bonding details found".to_string() }
    );
    match query(&ledger, QueryMsg::ClubOwnershipDetailsForOwner { owner_address: "Owner002".to_string() }) {
        Ok(QueryResponse::Ownerships(list)) => {
            assert_eq!(list.len(), 1);
            assert_eq!(list[0].club_name, "CLUB002");
            assert_eq!(list[0].total_staked_amount, 50);
        }
        other => panic!("{:?}", other),
    }
    match query(&ledger, QueryMsg::AllStakes { user_address_list: names(&["Staker002"]) }) {
        Ok(QueryResponse::Stakes(list)) => assert_eq!(amounts(&list), vec![30]),
        other => panic!("{:?}", other),
    }
    assert_eq!(
        query(&ledger, QueryMsg::QueryStakerRewards { staker: "Staker001".to_string(), club_name: "CLUB001".to_string() }),
        Ok(QueryResponse::Amount(0))
    );
}

#[test]
fn a_transaction_commits_what_its_operation_does() {
    let mut ledger = ledger();
    let bought = execute(
        &mut ledger,
        &env(),
        &info("Owner001"),
        ExecuteMsg::BuyAClub {
            buyer: "Owner001".to_string(),
            seller: None,
            club_name: "CLUB001".to_string(),
            auto_stake: true,
        },
        0,
    )
    .unwrap();
    assert_eq!(bought.data, Some(Receipt::ClubFeesReceived(1000000)));
    assert_eq!(club(&ledger, "CLUB001").price_paid, 1000000);
    execute(
        &mut ledger,
        &env(),
        &info("Staker001"),
        ExecuteMsg::StakeOnAClub {
            staker: "Staker001".to_string(),
            club_name: "CLUB001".to_string(),
            amount: 99,
            auto_stake: true,
        },
        0,
    )
    .unwrap();
    execute(
        &mut ledger,
        &env(),
        &info("Staker001"),
        ExecuteMsg::StakeWithdrawFromAClub {
            staker: "Staker001".to_string(),
            club_name: "CLUB001".to_string(),
            amount: 9,
            immediate_withdrawal: false,
        },
        0,
    )
    .unwrap();
    assert_eq!(staked(&ledger, "CLUB001", "Staker001"), 90);
    execute(
        &mut ledger,
        &env(),
        &info("Owner001"),
        ExecuteMsg::ReleaseClub { owner: "Owner001".to_string(), club_name: "CLUB001".to_string() },
        0,
    )
    .unwrap();
    assert!(club(&ledger, "CLUB001").owner_released);
    let refused = execute(
        &mut ledger,
        &env(),
        &info("Owner001"),
        ExecuteMsg::AssignAClub {
            buyer: "Owner002".to_string(),
            seller: Some("Owner001".to_string()),
            club_name: "CLUB001".to_string(),
            auto_stake: true,
        },
        0,
    );
    assert_eq!(refused.unwrap_err(), ContractError::Unauthorized {});
}

#[test]
fn a_transaction_charges_the_platform_fee_of_its_operation() {
    let mut ledger = ledger();
    buy(&mut ledger, "Owner001", None, "CLUB001").unwrap();
    let stake_msg = || ExecuteMsg::StakeOnAClub {
        staker: "Staker001".to_string(),
        club_name: "CLUB001".to_string(),
        amount: 500,
        auto_stake: true,
    };
    let before = ledger.duplicate();
    let short = execute(&mut ledger, &env(), &info_with("Staker001", 178, "uusd"), stake_msg(), 10000);
    assert_eq!(
        short.unwrap_err(),
        ContractError::InsufficientFees { required: 180, received: 178 }
    );
    assert_eq!(ledger, before);
    let unpayable = execute(&mut ledger, &env(), &info("Staker001"), stake_msg(), u128::MAX);
    assert_eq!(unpayable.unwrap_err(), ContractError::Std(StdError::Overflow));
    execute(&mut ledger, &env(), &info_with("Staker001", 179, "uusd"), stake_msg(), 10000).unwrap();
    assert_eq!(staked(&ledger, "CLUB001", "Staker001"), 500);

    let free = execute(
        &mut ledger,
        &env(),
        &info("Owner001"),
        ExecuteMsg::ReleaseClub { owner: "Owner001".to_string(), club_name: "CLUB001".to_string() },
        u128::MAX,
    );
    assert_eq!(free, Ok(Response::new()));
}

#[test]
fn a_round_leaves_in_the_pool_only_what_truncation_kept_back() {
    let mut ledger = ledger_with(NOW - SECOND, 5 * 3600);
    let clubs = [("Owner001", "CLUB001"), ("Owner002", "CLUB002"), ("Owner003", "CLUB003")];
    for (owner, club) in clubs {
        buy(&mut ledger, owner, None, club).unwrap();
    }
    let stakes = [
        ("Staker001", "CLUB001", 330000u128),
        ("Staker002", "CLUB001", 110000),
        ("Staker003", "CLUB002", 420000),
        ("Staker004", "CLUB002", 100000),
        ("Staker005", "CLUB003", 820000),
        ("Staker006", "CLUB003", 50000),
    ];
    for (staker, club, amount) in stakes {
        stake(&mut ledger, staker, club, amount, true).unwrap();
    }
    increase_reward_amount(&mut ledger, &info("admin"), "anyone".to_string(), 1000000).unwrap();
    let everyone = [
        "Staker001", "Staker002", "Staker003", "Staker004", "Staker005", "Staker006", "Owner001",
        "Owner002", "Owner003",
    ];
    round(&mut ledger, &everyone, "CLUB001", true, false).unwrap();
    assert_eq!(ledger.reward_given_in_current_timestamp, 140655 + 46885 + 10000);
    round(&mut ledger, &everyone, "CLUB002", false, false).unwrap();
    assert_eq!(ledger.reward_given_in_current_timestamp, 197540 + 179016 + 42622 + 10000);
    round(&mut ledger, &everyone, "CLUB003", false, true).unwrap();

    assert_eq!(query_reward_amount(&ledger), 4);
    assert_eq!(ledger.reward_given_in_current_timestamp, 0);
    let staked_in_all: u128 =
        query_all_club_ownership_details(&ledger).iter().map(|c| c.total_staked_amount).sum();
    assert_eq!(staked_in_all, 1830000 + 1000000 - 4);
    assert_totals_match(&ledger);
}

#[test]
fn a_migration_changes_nothing() {
    let mut ledger = ledger();
    buy(&mut ledger, "Owner001", None, "CLUB001").unwrap();
    let before = ledger.duplicate();
    assert_eq!(migrate(&mut ledger, MigrateMsg {}), Ok(Response::new()));
    assert_eq!(ledger, before);
}
