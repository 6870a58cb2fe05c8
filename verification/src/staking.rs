//! Stakes on clubs: increase, decrease, assignment, and the stakers' claims.

use vstd::prelude::*;
use crate::error::{
    generic, generic_err, not_found, not_found_err, overflow, overflow_err, ContractError,
    ContractErrorView,
};
use crate::fees::{check_fees, fee_shortfall};
use crate::response::{
    amount_attr, bank_send, coins_view, forward_funds, result_view, text_attr, CoinView, Env,
    MessageInfo, Receipt, Response, ResponseView, Transfer, TransferView,
};
use crate::ledger::{
    club_position, club_stake_total, find_club, find_stake_entry, lemma_club_total_push,
    lemma_club_total_update, lemma_stakes_total_push, lemma_stakes_total_update,
    lemma_wf_after_stake_change, lemma_wf_after_stake_rewrite, stakes_total, stake_position,
    stakes_view, Ledger, LedgerView, StakeEntry, StakeEntryView,
};
use crate::state::{ClubStakingDetails, ClubView, StakeView, Timestamp};

verus! {

/// Where the first stake of `staker` stands among `stakes`.
pub open spec fn staker_position(stakes: Seq<StakeView>, staker: Seq<char>) -> Option<int> {
    stakes.map_values(|s: StakeView| s.staker_address).index_of_first(staker)
}

/// What an increase adds to a stake: the amount, and the reward it has
/// accrued when rewards are to be compounded from now on.
pub open spec fn increase_delta(stake: StakeView, amount: u128, auto_stake: bool) -> int {
    amount + (if auto_stake {
        stake.reward_amount as int
    } else {
        0
    })
}

/// A stake after an increase.
pub open spec fn increased_stake(stake: StakeView, amount: u128, auto_stake: bool) -> StakeView {
    StakeView {
        staked_amount: (stake.staked_amount + increase_delta(stake, amount, auto_stake)) as u128,
        reward_amount: if auto_stake {
            0
        } else {
            stake.reward_amount
        },
        auto_stake,
        ..stake
    }
}

/// The first stake of a staker on a club.
pub open spec fn fresh_stake(
    club_name: Seq<char>,
    staker: Seq<char>,
    now: Timestamp,
    amount: u128,
    auto_stake: bool,
) -> StakeView {
    StakeView {
        club_name,
        staker_address: staker,
        staking_start_timestamp: now,
        staked_amount: amount,
        staking_duration: 0,
        reward_amount: 0,
        auto_stake,
    }
}

/// The club records with `delta` added to what club `c` has staked.
pub open spec fn with_club_total(pre: LedgerView, c: int, delta: int) -> Seq<ClubView> {
    pre.clubs.update(
        c,
        (ClubView {
            total_staked_amount: (pre.clubs[c].total_staked_amount + delta) as u128,
            ..pre.clubs[c]
        }),
    )
}

/// What an increase of a staker's stake on a club does to the ledger.
///
/// The club must have a record. A staker who has a stake on the club gets
/// the amount added to it, and the reward it has accrued folded in when
/// `auto_stake` is set; another staker gets a first stake of that amount. The
/// club's total grows by what the stake grew. On an error the ledger stays as
/// it was.
pub open spec fn stake_increase(
    pre: LedgerView,
    now: Timestamp,
    staker: Seq<char>,
    club_name: Seq<char>,
    amount: u128,
    auto_stake: bool,
) -> Result<LedgerView, ContractErrorView> {
    match club_position(pre.clubs, club_name) {
        None => Err(not_found("ClubOwnershipDetails"@)),
        Some(c) => {
            let fresh = fresh_stake(club_name, staker, now, amount, auto_stake);
            match stake_position(pre.stakes, club_name, staker) {
                None => {
                    if pre.clubs[c].total_staked_amount + amount > u128::MAX {
                        Err(overflow())
                    } else {
                        Ok(
                            LedgerView {
                                clubs: with_club_total(pre, c, amount as int),
                                stakes: pre.stakes.push(
                                    StakeEntryView {
                                        club_name,
                                        staker_address: staker,
                                        stakes: seq![fresh],
                                    },
                                ),
                                ..pre
                            },
                        )
                    }
                },
                Some(k) => {
                    let entry = pre.stakes[k];
                    match staker_position(entry.stakes, staker) {
                        None => {
                            if pre.clubs[c].total_staked_amount + amount > u128::MAX {
                                Err(overflow())
                            } else {
                                Ok(
                                    LedgerView {
                                        clubs: with_club_total(pre, c, amount as int),
                                        stakes: pre.stakes.update(
                                            k,
                                            (StakeEntryView {
                                                stakes: entry.stakes.push(fresh),
                                                ..entry
                                            }),
                                        ),
                                        ..pre
                                    },
                                )
                            }
                        },
                        Some(j) => {
                            let delta = increase_delta(entry.stakes[j], amount, auto_stake);
                            if entry.stakes[j].staked_amount + delta > u128::MAX
                                || pre.clubs[c].total_staked_amount + delta > u128::MAX {
                                Err(overflow())
                            } else {
                                Ok(
                                    LedgerView {
                                        clubs: with_club_total(pre, c, delta),
                                        stakes: pre.stakes.update(
                                            k,
                                            (StakeEntryView {
                                                stakes: entry.stakes.update(
                                                    j,
                                                    increased_stake(
                                                        entry.stakes[j],
                                                        amount,
                                                        auto_stake,
                                                    ),
                                                ),
                                                ..entry
                                            }),
                                        ),
                                        ..pre
                                    },
                                )
                            }
                        },
                    }
                },
            }
        },
    }
}

/// What a decrease of a staker's stake on a club does to the ledger.
///
/// The club must have a record and the staker a stake on it that holds at
/// least the amount; the stake and the club's total then shrink by it. On an
/// error the ledger stays as it was.
pub open spec fn stake_decrease(
    pre: LedgerView,
    staker: Seq<char>,
    club_name: Seq<char>,
    amount: u128,
) -> Result<LedgerView, ContractErrorView> {
    match club_position(pre.clubs, club_name) {
        None => Err(not_found("ClubOwnershipDetails"@)),
        Some(c) => match stake_position(pre.stakes, club_name, staker) {
            None => Err(generic("No stake found for this club"@)),
            Some(k) => {
                let entry = pre.stakes[k];
                match staker_position(entry.stakes, staker) {
                    None => Err(generic("User has not staked in this club"@)),
                    Some(j) => {
                        if entry.stakes[j].staked_amount < amount {
                            Err(generic("Excess amount demanded for withdrawal"@))
                        } else if pre.clubs[c].total_staked_amount < amount {
                            Err(overflow())
                        } else {
                            Ok(
                                LedgerView {
                                    clubs: with_club_total(pre, c, -(amount as int)),
                                    stakes: pre.stakes.update(
                                        k,
                                        (StakeEntryView {
                                            stakes: entry.stakes.update(
                                                j,
                                                (StakeView {
                                                    staked_amount: (entry.stakes[j].staked_amount
                                                        - amount) as u128,
                                                    ..entry.stakes[j]
                                                }),
                                            ),
                                            ..entry
                                        }),
                                    ),
                                    ..pre
                                },
                            )
                        }
                    },
                }
            },
        },
    }
}

/// What `save_staking_details` does to the ledger.
pub open spec fn save_staking_outcome(
    pre: LedgerView,
    now: Timestamp,
    staker: Seq<char>,
    club_name: Seq<char>,
    amount: u128,
    auto_stake: bool,
    increase_stake: bool,
) -> Result<LedgerView, ContractErrorView> {
    if increase_stake {
        stake_increase(pre, now, staker, club_name, amount, auto_stake)
    } else {
        stake_decrease(pre, staker, club_name, amount)
    }
}

/// The view of a result that carries nothing on success.
pub open spec fn unit_result_view(r: Result<(), ContractError>) -> Result<(), ContractErrorView> {
    match r {
        Ok(_) => Ok(()),
        Err(e) => Err(e@),
    }
}

/// Looks up the first stake of a staker in a list of stakes.
pub fn find_staker(stakes: &Vec<ClubStakingDetails>, staker: &String) -> (r: Option<usize>)
    ensures
        match r {
            Some(j) => j < stakes.len() && staker_position(stakes_view(stakes@), staker@) == Some(
                j as int,
            ) && stakes[j as int].staker_address@ == staker@,
            None => staker_position(stakes_view(stakes@), staker@) is None,
        },
{
    let ghost keys = stakes_view(stakes@).map_values(|s: StakeView| s.staker_address);
    let mut j: usize = 0;
    while j < stakes.len()
        invariant
            j <= stakes.len(),
            keys == stakes_view(stakes@).map_values(|s: StakeView| s.staker_address),
            forall|i: int| 0 <= i < j ==> keys[i] != staker@,
        decreases stakes.len() - j,
    {
        if stakes[j].staker_address == *staker {
            proof {
                crate::ledger::lemma_first_index(keys, staker@, j as int);
            }
            return Some(j);
        }
        j += 1;
    }
    proof {
        crate::ledger::lemma_no_index(keys, staker@);
    }
    None
}

/// Increases or decreases the stake of `staker` on `club_name` and mirrors
/// the change into the club's total.
pub fn save_staking_details(
    ledger: &mut Ledger,
    now: Timestamp,
    staker: &String,
    club_name: &String,
    amount: u128,
    auto_stake: bool,
    increase_stake: bool,
) -> (r: Result<(), ContractError>)
    ensures
        match save_staking_outcome(
            old(ledger)@,
            now,
            staker@,
            club_name@,
            amount,
            auto_stake,
            increase_stake,
        ) {
            Ok(post) => r is Ok && final(ledger)@ == post,
            Err(e) => unit_result_view(r) == Err::<(), ContractErrorView>(e) && final(ledger)@
                == old(ledger)@,
        },
        old(ledger)@.wf() ==> final(ledger)@.wf(),
{
    let ghost pre = ledger@;
    let c = match find_club(&ledger.clubs, club_name) {
        None => {
            return Err(not_found_err("ClubOwnershipDetails"));
        },
        Some(c) => c,
    };
    let total: u128 = ledger.clubs[c].total_staked_amount;
    let found = find_stake_entry(&ledger.stakes, club_name, staker);
    if increase_stake {
        match found {
            None => {
                let new_total = match total.checked_add(amount) {
                    None => {
                        return Err(overflow_err());
                    },
                    Some(t) => t,
                };
                let mut stakes: Vec<ClubStakingDetails> = Vec::new();
                stakes.push(make_stake(club_name, staker, now, amount, auto_stake));
                let entry = StakeEntry {
                    club_name: club_name.clone(),
                    staker_address: staker.clone(),
                    stakes,
                };
                let ghost fresh = fresh_stake(club_name@, staker@, now, amount, auto_stake);
                assert(entry@.stakes =~= seq![fresh]);
                ledger.stakes.push(entry);
                ledger.clubs[c].total_staked_amount = new_total;
                proof {
                    assert(ledger@.stakes =~= pre.stakes.push(entry@));
                    assert(ledger@.clubs =~= with_club_total(pre, c as int, amount as int));
                    if pre.wf() {
                        assert forall|name: Seq<char>| #[trigger]
                            club_stake_total(ledger@.stakes, name) == club_stake_total(
                                pre.stakes,
                                name,
                            ) + (if name == pre.clubs[c as int].club_name {
                                amount as int
                            } else {
                                0
                            }) by {
                            lemma_club_total_push(pre.stakes, entry@, name);
                            lemma_stakes_total_push(Seq::empty(), fresh);
                        }
                        lemma_wf_after_stake_change(pre, ledger@, c as int, amount as int);
                    }
                }
                Ok(())
            },
            Some(k) => {
                match find_staker(&ledger.stakes[k].stakes, staker) {
                    None => {
                        let new_total = match total.checked_add(amount) {
                            None => {
                                return Err(overflow_err());
                            },
                            Some(t) => t,
                        };
                        let ghost fresh = fresh_stake(club_name@, staker@, now, amount, auto_stake);
                        let ghost entry = StakeEntryView {
                            stakes: pre.stakes[k as int].stakes.push(fresh),
                            ..pre.stakes[k as int]
                        };
                        ledger.stakes[k].stakes.push(
                            make_stake(club_name, staker, now, amount, auto_stake),
                        );
                        ledger.clubs[c].total_staked_amount = new_total;
                        proof {
                            assert(ledger.stakes[k as int]@.stakes =~= entry.stakes);
                            assert(ledger@.stakes =~= pre.stakes.update(k as int, entry));
                            assert(ledger@.clubs =~= with_club_total(pre, c as int, amount as int));
                            if pre.wf() {
                                assert forall|name: Seq<char>| #[trigger]
                                    club_stake_total(ledger@.stakes, name) == club_stake_total(
                                        pre.stakes,
                                        name,
                                    ) + (if name == pre.clubs[c as int].club_name {
                                        amount as int
                                    } else {
                                        0
                                    }) by {
                                    lemma_club_total_update(pre.stakes, k as int, entry, name);
                                    lemma_stakes_total_push(pre.stakes[k as int].stakes, fresh);
                                }
                                assert forall|i: int| 0 <= i < ledger@.stakes.len() implies (
                                #[trigger] club_position(pre.clubs, ledger@.stakes[i].club_name))
                                    is Some by {}
                                lemma_wf_after_stake_change(pre, ledger@, c as int, amount as int);
                            }
                        }
                        Ok(())
                    },
                    Some(j) => {
                        let reward: u128 = if auto_stake {
                            ledger.stakes[k].stakes[j].reward_amount
                        } else {
                            0
                        };
                        let staked: u128 = ledger.stakes[k].stakes[j].staked_amount;
                        let delta = match amount.checked_add(reward) {
                            None => {
                                return Err(overflow_err());
                            },
                            Some(d) => d,
                        };
                        let new_staked = match staked.checked_add(delta) {
                            None => {
                                return Err(overflow_err());
                            },
                            Some(s) => s,
                        };
                        let new_total = match total.checked_add(delta) {
                            None => {
                                return Err(overflow_err());
                            },
                            Some(t) => t,
                        };
                        let ghost old_stake = pre.stakes[k as int].stakes[j as int];
                        let ghost new_stake = increased_stake(old_stake, amount, auto_stake);
                        let ghost entry = StakeEntryView {
                            stakes: pre.stakes[k as int].stakes.update(j as int, new_stake),
                            ..pre.stakes[k as int]
                        };
                        ledger.stakes[k].stakes[j].staked_amount = new_staked;
                        ledger.stakes[k].stakes[j].auto_stake = auto_stake;
                        if auto_stake {
                            ledger.stakes[k].stakes[j].reward_amount = 0;
                        }
                        ledger.clubs[c].total_staked_amount = new_total;
                        proof {
                            assert(ledger.stakes[k as int]@.stakes =~= entry.stakes);
                            assert(ledger@.stakes =~= pre.stakes.update(k as int, entry));
                            assert(ledger@.clubs =~= with_club_total(pre, c as int, delta as int));
                            if pre.wf() {
                                assert forall|name: Seq<char>| #[trigger]
                                    club_stake_total(ledger@.stakes, name) == club_stake_total(
                                        pre.stakes,
                                        name,
                                    ) + (if name == pre.clubs[c as int].club_name {
                                        delta as int
                                    } else {
                                        0
                                    }) by {
                                    lemma_club_total_update(pre.stakes, k as int, entry, name);
                                    lemma_stakes_total_update(
                                        pre.stakes[k as int].stakes,
                                        j as int,
                                        new_stake,
                                    );
                                }
                                assert forall|i: int| 0 <= i < ledger@.stakes.len() implies (
                                #[trigger] club_position(pre.clubs, ledger@.stakes[i].club_name))
                                    is Some by {}
                                lemma_wf_after_stake_change(pre, ledger@, c as int, delta as int);
                            }
                        }
                        Ok(())
                    },
                }
            },
        }
    } else {
        let k = match found {
            None => {
                return Err(generic_err("No stake found for this club"));
            },
            Some(k) => k,
        };
        let j = match find_staker(&ledger.stakes[k].stakes, staker) {
            None => {
                return Err(generic_err("User has not staked in this club"));
            },
            Some(j) => j,
        };
        let staked: u128 = ledger.stakes[k].stakes[j].staked_amount;
        if staked < amount {
            return Err(generic_err("Excess amount demanded for withdrawal"));
        }
        if total < amount {
            return Err(overflow_err());
        }
        let ghost old_stake = pre.stakes[k as int].stakes[j as int];
        let ghost new_stake = StakeView {
            staked_amount: (old_stake.staked_amount - amount) as u128,
            ..old_stake
        };
        let ghost entry = StakeEntryView {
            stakes: pre.stakes[k as int].stakes.update(j as int, new_stake),
            ..pre.stakes[k as int]
        };
        ledger.stakes[k].stakes[j].staked_amount = staked - amount;
        ledger.clubs[c].total_staked_amount = total - amount;
        proof {
            assert(ledger.stakes[k as int]@.stakes =~= entry.stakes);
            assert(ledger@.stakes =~= pre.stakes.update(k as int, entry));
            assert(ledger@.clubs =~= with_club_total(pre, c as int, -(amount as int)));
            if pre.wf() {
                assert forall|name: Seq<char>| #[trigger]
                    club_stake_total(ledger@.stakes, name) == club_stake_total(pre.stakes, name)
                        + (if name == pre.clubs[c as int].club_name {
                        -(amount as int)
                    } else {
                        0
                    }) by {
                    lemma_club_total_update(pre.stakes, k as int, entry, name);
                    lemma_stakes_total_update(pre.stakes[k as int].stakes, j as int, new_stake);
                }
                assert forall|i: int| 0 <= i < ledger@.stakes.len() implies (#[trigger] club_position(
                    pre.clubs,
                    ledger@.stakes[i].club_name,
                )) is Some by {}
                lemma_wf_after_stake_change(pre, ledger@, c as int, -(amount as int));
            }
        }
        Ok(())
    }
}

/// The first stake of a staker on a club.
pub fn make_stake(
    club_name: &String,
    staker: &String,
    now: Timestamp,
    amount: u128,
    auto_stake: bool,
) -> (s: ClubStakingDetails)
    ensures
        s@ == fresh_stake(club_name@, staker@, now, amount, auto_stake),
{
    ClubStakingDetails {
        club_name: club_name.clone(),
        staker_address: staker.clone(),
        staking_start_timestamp: now,
        staked_amount: amount,
        staking_duration: 0,
        reward_amount: 0,
        auto_stake,
    }
}

/// What a stake hands back: the amount goes from the staker to the ledger's
/// own address, the native funds of the call to the collector of platform fees.
pub open spec fn staked_response(
    pre: LedgerView,
    contract_address: Seq<char>,
    sender: Seq<char>,
    funds: Seq<CoinView>,
    staker: Seq<char>,
    club_name: Seq<char>,
    amount: u128,
) -> ResponseView {
    ResponseView {
        messages: seq![
            TransferView::TokenTransferFrom {
                token_contract: pre.config.minting_contract_address,
                owner: sender,
                recipient: contract_address,
                amount,
            },
            bank_send(pre.config.platform_fees_collector_wallet, funds),
        ],
        attributes: seq![
            text_attr("action"@, "stake_on_a_club"@),
            text_attr("staker"@, staker),
            text_attr("club_name"@, club_name),
            amount_attr("stake"@, amount),
        ],
        data: Some(Receipt::ClubStakeReceived(amount)),
    }
}

/// What a stake on a club does to the ledger, and what it returns.
///
/// The staker must be the caller, the funds sent must settle the fee quoted,
/// and the club must have a record; the stake then grows as `stake_increase`
/// says.
pub open spec fn stake_outcome(
    pre: LedgerView,
    now: Timestamp,
    contract_address: Seq<char>,
    sender: Seq<char>,
    funds: Seq<CoinView>,
    staker: Seq<char>,
    club_name: Seq<char>,
    amount: u128,
    auto_stake: bool,
    required_ust_fees: u128,
) -> (LedgerView, Result<ResponseView, ContractErrorView>) {
    if sender != staker {
        (pre, Err(ContractErrorView::Unauthorized))
    } else if fee_shortfall(funds, required_ust_fees) is Some {
        (pre, Err(fee_shortfall(funds, required_ust_fees)->0))
    } else if club_position(pre.clubs, club_name) is None {
        (pre, Err(generic("The club is not available for staking"@)))
    } else {
        match stake_increase(pre, now, staker, club_name, amount, auto_stake) {
            Err(e) => (pre, Err(e)),
            Ok(post) => (
                post,
                Ok(
                    staked_response(
                        pre,
                        contract_address,
                        sender,
                        funds,
                        staker,
                        club_name,
                        amount,
                    ),
                ),
            ),
        }
    }
}

/// The caller stakes `amount` on a club.
pub fn stake_on_a_club(
    ledger: &mut Ledger,
    env: &Env,
    info: &MessageInfo,
    staker: String,
    club_name: String,
    amount: u128,
    auto_stake: bool,
    required_ust_fees: u128,
) -> (r: Result<Response, ContractError>)
    ensures
        (final(ledger)@, result_view(r)) == stake_outcome(
            old(ledger)@,
            env.block_time,
            env.contract_address@,
            info.sender@,
            coins_view(info.funds@),
            staker@,
            club_name@,
            amount,
            auto_stake,
            required_ust_fees,
        ),
        old(ledger)@.wf() ==> final(ledger)@.wf(),
{
    let ghost pre = ledger@;
    if info.sender != staker {
        return Err(ContractError::Unauthorized {  });
    }
    match check_fees(&info.funds, required_ust_fees) {
        Err(e) => {
            return Err(e);
        },
        Ok(_) => {},
    }
    if find_club(&ledger.clubs, &club_name).is_none() {
        return Err(generic_err("The club is not available for staking"));
    }
    match save_staking_details(
        ledger,
        env.block_time,
        &staker,
        &club_name,
        amount,
        auto_stake,
        true,
    ) {
        Err(e) => {
            return Err(e);
        },
        Ok(_) => {},
    }
    let mut response = Response::new();
    response.add_message(
        Transfer::TokenTransferFrom {
            token_contract: ledger.config.minting_contract_address.clone(),
            owner: info.sender.clone(),
            recipient: env.contract_address.clone(),
            amount,
        },
    );
    response.add_message(
        forward_funds(&ledger.config.platform_fees_collector_wallet, &info.funds),
    );
    response.add_text("action", &"stake_on_a_club".to_owned());
    response.add_text("staker", &staker);
    response.add_text("club_name", &club_name);
    response.add_amount("stake", amount);
    response.set_data(Receipt::ClubStakeReceived(amount));
    proof {
        let expected = staked_response(
            pre,
            env.contract_address@,
            info.sender@,
            coins_view(info.funds@),
            staker@,
            club_name@,
            amount,
        );
        assert(response@.messages =~= expected.messages);
        assert(response@.attributes =~= expected.attributes);
    }
    Ok(response)
}

/// Whether every stake listed names `club_name` as its club.
pub open spec fn all_on_club(stakes: Seq<StakeView>, club_name: Seq<char>) -> bool {
    forall|i: int| 0 <= i < stakes.len() ==> (#[trigger] stakes[i]).club_name == club_name
}

/// The ledger after the stakes listed have been added to `club_name` in
/// their order, and the sum of their amounts.
pub open spec fn stakes_assigned(
    pre: LedgerView,
    now: Timestamp,
    club_name: Seq<char>,
    stakes: Seq<StakeView>,
) -> Result<(LedgerView, u128), ContractErrorView>
    decreases stakes.len(),
{
    if stakes.len() == 0 {
        Ok((pre, 0))
    } else {
        match stakes_assigned(pre, now, club_name, stakes.drop_last()) {
            Err(e) => Err(e),
            Ok((done, sum)) => {
                let stake = stakes.last();
                if sum + stake.staked_amount > u128::MAX {
                    Err(overflow())
                } else {
                    match stake_increase(
                        done,
                        now,
                        stake.staker_address,
                        club_name,
                        stake.staked_amount,
                        stake.auto_stake,
                    ) {
                        Err(e) => Err(e),
                        Ok(post) => Ok((post, (sum + stake.staked_amount) as u128)),
                    }
                }
            },
        }
    }
}

/// What an assignment of stakes hands back: their sum goes from the
/// administrator to the ledger's own address, in one transfer.
pub open spec fn assigned_response(
    pre: LedgerView,
    contract_address: Seq<char>,
    sender: Seq<char>,
    club_name: Seq<char>,
    total_amount: u128,
) -> ResponseView {
    ResponseView {
        messages: seq![
            TransferView::TokenTransferFrom {
                token_contract: pre.config.minting_contract_address,
                owner: sender,
                recipient: contract_address,
                amount: total_amount,
            },
        ],
        attributes: seq![
            text_attr("action"@, "assign_stakes_to_a_club"@),
            text_attr("club_name"@, club_name),
            amount_attr("total_stake"@, total_amount),
        ],
        data: Some(Receipt::StakesAssigned(total_amount)),
    }
}

/// What an assignment of stakes does to the ledger, and what it returns.
///
/// Only the administrator may assign, every stake listed must name the club,
/// and the club must have a record. On an error the ledger stays as it was.
pub open spec fn assign_stakes_outcome(
    pre: LedgerView,
    now: Timestamp,
    contract_address: Seq<char>,
    sender: Seq<char>,
    stakes: Seq<StakeView>,
    club_name: Seq<char>,
) -> (LedgerView, Result<ResponseView, ContractErrorView>) {
    if sender != pre.config.admin_address {
        (pre, Err(ContractErrorView::Unauthorized))
    } else if !all_on_club(stakes, club_name) {
        (pre, Err(generic("Passed club names do not match"@)))
    } else if club_position(pre.clubs, club_name) is None {
        (pre, Err(generic("The club is not available for staking"@)))
    } else {
        match stakes_assigned(pre, now, club_name, stakes) {
            Err(e) => (pre, Err(e)),
            Ok((post, total)) => (
                post,
                Ok(assigned_response(pre, contract_address, sender, club_name, total)),
            ),
        }
    }
}

/// Stakes that cannot be assigned in part cannot be assigned in whole.
pub proof fn lemma_stakes_assigned_err(
    pre: LedgerView,
    now: Timestamp,
    club_name: Seq<char>,
    stakes: Seq<StakeView>,
    i: int,
)
    requires
        0 <= i <= stakes.len(),
        stakes_assigned(pre, now, club_name, stakes.take(i)) is Err,
    ensures
        stakes_assigned(pre, now, club_name, stakes) == stakes_assigned(
            pre,
            now,
            club_name,
            stakes.take(i),
        ),
    decreases stakes.len() - i,
{
    if i == stakes.len() {
        assert(stakes.take(i) =~= stakes);
    } else {
        assert(stakes.take(i + 1).drop_last() =~= stakes.take(i));
        lemma_stakes_assigned_err(pre, now, club_name, stakes, i + 1);
    }
}

/// The administrator adds the stakes listed to a club, on behalf of their
/// stakers.
#[verifier::loop_isolation(false)]
pub fn assign_stakes_to_a_club(
    ledger: &mut Ledger,
    env: &Env,
    info: &MessageInfo,
    stake_list: Vec<ClubStakingDetails>,
    club_name: String,
) -> (r: Result<Response, ContractError>)
    ensures
        (final(ledger)@, result_view(r)) == assign_stakes_outcome(
            old(ledger)@,
            env.block_time,
            env.contract_address@,
            info.sender@,
            stakes_view(stake_list@),
            club_name@,
        ),
        old(ledger)@.wf() ==> final(ledger)@.wf(),
{
    let ghost pre = ledger@;
    let ghost listed = stakes_view(stake_list@);
    let now = env.block_time;
    if info.sender != ledger.config.admin_address {
        return Err(ContractError::Unauthorized {  });
    }
    let mut i: usize = 0;
    while i < stake_list.len()
        invariant
            i <= stake_list.len(),
            listed == stakes_view(stake_list@),
            forall|j: int| 0 <= j < i ==> (#[trigger] listed[j]).club_name == club_name@,
        decreases stake_list.len() - i,
    {
        if stake_list[i].club_name != club_name {
            assert(listed[i as int].club_name != club_name@);
            return Err(generic_err("Passed club names do not match"));
        }
        i += 1;
    }
    if find_club(&ledger.clubs, &club_name).is_none() {
        return Err(generic_err("The club is not available for staking"));
    }
    let mut work = ledger.duplicate();
    let mut total_amount: u128 = 0;
    let mut i: usize = 0;
    while i < stake_list.len()
        invariant
            i <= stake_list.len(),
            listed == stakes_view(stake_list@),
            pre == old(ledger)@,
            pre == ledger@,
            pre.wf() ==> work@.wf(),
            stakes_assigned(pre, now, club_name@, listed.take(i as int)) == Ok::<
                (LedgerView, u128),
                ContractErrorView,
            >((work@, total_amount)),
        decreases stake_list.len() - i,
    {
        proof {
            assert(listed.take(i as int + 1).drop_last() =~= listed.take(i as int));
        }
        let amount: u128 = stake_list[i].staked_amount;
        let sum = match total_amount.checked_add(amount) {
            None => {
                proof {
                    lemma_stakes_assigned_err(pre, now, club_name@, listed, i as int + 1);
                }
                return Err(overflow_err());
            },
            Some(sum) => sum,
        };
        match save_staking_details(
            &mut work,
            now,
            &stake_list[i].staker_address,
            &club_name,
            amount,
            stake_list[i].auto_stake,
            true,
        ) {
            Err(e) => {
                proof {
                    lemma_stakes_assigned_err(pre, now, club_name@, listed, i as int + 1);
                }
                return Err(e);
            },
            Ok(_) => {},
        }
        total_amount = sum;
        i += 1;
    }
    proof {
        assert(listed.take(i as int) =~= listed);
    }
    *ledger = work;
    let mut response = Response::new();
    response.add_message(
        Transfer::TokenTransferFrom {
            token_contract: ledger.config.minting_contract_address.clone(),
            owner: info.sender.clone(),
            recipient: env.contract_address.clone(),
            amount: total_amount,
        },
    );
    response.add_text("action", &"assign_stakes_to_a_club".to_owned());
    response.add_text("club_name", &club_name);
    response.add_amount("total_stake", total_amount);
    response.set_data(Receipt::StakesAssigned(total_amount));
    proof {
        let expected = assigned_response(
            pre,
            env.contract_address@,
            info.sender@,
            club_name@,
            total_amount,
        );
        assert(ledger@.config == pre.config) by {
            lemma_stakes_assigned_config(pre, now, club_name@, listed);
        }
        assert(response@.attributes =~= expected.attributes);
    }
    Ok(response)
}

/// Assigning stakes leaves the configuration as it is.
pub proof fn lemma_stakes_assigned_config(
    pre: LedgerView,
    now: Timestamp,
    club_name: Seq<char>,
    stakes: Seq<StakeView>,
)
    ensures
        stakes_assigned(pre, now, club_name, stakes) is Ok ==> stakes_assigned(
            pre,
            now,
            club_name,
            stakes,
        )->Ok_0.0.config == pre.config,
    decreases stakes.len(),
{
    if stakes.len() > 0 {
        lemma_stakes_assigned_config(pre, now, club_name, stakes.drop_last());
    }
}

/// The reward that the stakes of `staker` among `stakes` have accrued.
pub open spec fn claimable(stakes: Seq<StakeView>, staker: Seq<char>) -> int
    decreases stakes.len(),
{
    if stakes.len() == 0 {
        0
    } else {
        claimable(stakes.drop_last(), staker) + (if stakes.last().staker_address == staker {
            stakes.last().reward_amount as int
        } else {
            0
        })
    }
}

/// A stake once its staker has claimed what it had accrued.
pub open spec fn claimed_stake(stake: StakeView, staker: Seq<char>) -> StakeView {
    if stake.staker_address == staker {
        StakeView { reward_amount: 0, ..stake }
    } else {
        stake
    }
}

/// The stakes once `staker` has claimed what they had accrued.
pub open spec fn claimed(stakes: Seq<StakeView>, staker: Seq<char>) -> Seq<StakeView> {
    Seq::new(stakes.len(), |i: int| claimed_stake(stakes[i], staker))
}

/// A claim leaves the staked amounts as they are.
pub proof fn lemma_claimed_total(stakes: Seq<StakeView>, staker: Seq<char>)
    ensures
        stakes_total(claimed(stakes, staker)) == stakes_total(stakes),
    decreases stakes.len(),
{
    if stakes.len() > 0 {
        lemma_claimed_total(stakes.drop_last(), staker);
        assert(claimed(stakes, staker).drop_last() =~= claimed(stakes.drop_last(), staker));
    }
}

/// What the first stakes have accrued does not exceed what all of them have.
pub proof fn lemma_claimable_monotone(stakes: Seq<StakeView>, staker: Seq<char>, i: int)
    requires
        0 <= i <= stakes.len(),
    ensures
        0 <= claimable(stakes.take(i), staker) <= claimable(stakes, staker),
    decreases stakes.len() - i,
{
    if i == stakes.len() {
        assert(stakes.take(i) =~= stakes);
        lemma_claimable_nonnegative(stakes, staker);
    } else {
        lemma_claimable_monotone(stakes, staker, i + 1);
        assert(stakes.take(i + 1).drop_last() =~= stakes.take(i));
        lemma_claimable_nonnegative(stakes.take(i), staker);
    }
}

/// Stakes have accrued no less than nothing.
pub proof fn lemma_claimable_nonnegative(stakes: Seq<StakeView>, staker: Seq<char>)
    ensures
        0 <= claimable(stakes, staker),
    decreases stakes.len(),
{
    if stakes.len() > 0 {
        lemma_claimable_nonnegative(stakes.drop_last(), staker);
    }
}

/// Adds up what the stakes of `staker` among `stakes` have accrued; `None`
/// where the sum leaves the range of an amount.
pub fn accrued_rewards(stakes: &Vec<ClubStakingDetails>, staker: &String) -> (r: Option<u128>)
    ensures
        r == (if claimable(stakes_view(stakes@), staker@) > u128::MAX {
            None
        } else {
            Some(claimable(stakes_view(stakes@), staker@) as u128)
        }),
{
    let ghost all = stakes_view(stakes@);
    let mut amount: u128 = 0;
    let mut i: usize = 0;
    while i < stakes.len()
        invariant
            i <= stakes.len(),
            all == stakes_view(stakes@),
            amount == claimable(all.take(i as int), staker@),
        decreases stakes.len() - i,
    {
        proof {
            assert(all.take(i as int + 1).drop_last() =~= all.take(i as int));
            lemma_claimable_monotone(all, staker@, i as int + 1);
        }
        if stakes[i].staker_address == *staker {
            amount = match amount.checked_add(stakes[i].reward_amount) {
                None => {
                    return None;
                },
                Some(a) => a,
            };
        }
        i += 1;
    }
    proof {
        assert(all.take(i as int) =~= all);
    }
    Some(amount)
}

/// What a staker's claim hands back: the reward goes to the staker, the
/// native funds of the call to the collector of platform fees.
pub open spec fn claim_response(
    pre: LedgerView,
    funds: Seq<CoinView>,
    staker: Seq<char>,
    amount: u128,
) -> ResponseView {
    ResponseView {
        messages: seq![
            TransferView::TokenTransfer {
                token_contract: pre.config.minting_contract_address,
                recipient: staker,
                amount,
            },
            bank_send(pre.config.platform_fees_collector_wallet, funds),
        ],
        attributes: seq![
            text_attr("action"@, "staking_reward_claim"@),
            text_attr("staker"@, staker),
            amount_attr("amount"@, amount),
        ],
        data: Some(Receipt::AmountTransferred(amount)),
    }
}

/// What a staker's claim does to the ledger, and what it returns.
///
/// The staker must be the caller, the funds sent must settle the fee quoted,
/// and the staker must have a stake on the club that has accrued a reward.
/// The stakes then have accrued nothing, and the reward is paid out.
pub open spec fn claim_staker_outcome(
    pre: LedgerView,
    sender: Seq<char>,
    funds: Seq<CoinView>,
    staker: Seq<char>,
    club_name: Seq<char>,
    required_ust_fees: u128,
) -> (LedgerView, Result<ResponseView, ContractErrorView>) {
    if staker != sender {
        (pre, Err(ContractErrorView::Unauthorized))
    } else if fee_shortfall(funds, required_ust_fees) is Some {
        (pre, Err(fee_shortfall(funds, required_ust_fees)->0))
    } else {
        match stake_position(pre.stakes, club_name, staker) {
            None => (pre, Err(generic("Not a valid staker for the club"@))),
            Some(k) => {
                let held = pre.stakes[k].stakes;
                if staker_position(held, staker) is None {
                    (pre, Err(generic("Not a valid staker for the club"@)))
                } else if claimable(held, staker) > u128::MAX {
                    (pre, Err(overflow()))
                } else if claimable(held, staker) == 0 {
                    (pre, Err(generic("No rewards for this user"@)))
                } else {
                    (
                        LedgerView {
                            stakes: pre.stakes.update(
                                k,
                                (StakeEntryView {
                                    stakes: claimed(held, staker),
                                    ..pre.stakes[k]
                                }),
                            ),
                            ..pre
                        },
                        Ok(
                            claim_response(
                                pre,
                                funds,
                                staker,
                                claimable(held, staker) as u128,
                            ),
                        ),
                    )
                }
            },
        }
    }
}

/// The caller claims the reward that its stakes on a club have accrued.
#[verifier::loop_isolation(false)]
pub fn claim_staker_rewards(
    ledger: &mut Ledger,
    info: &MessageInfo,
    staker: String,
    club_name: String,
    required_ust_fees: u128,
) -> (r: Result<Response, ContractError>)
    ensures
        (final(ledger)@, result_view(r)) == claim_staker_outcome(
            old(ledger)@,
            info.sender@,
            coins_view(info.funds@),
            staker@,
            club_name@,
            required_ust_fees,
        ),
        old(ledger)@.wf() ==> final(ledger)@.wf(),
{
    let ghost pre = ledger@;
    if staker != info.sender {
        return Err(ContractError::Unauthorized {  });
    }
    match check_fees(&info.funds, required_ust_fees) {
        Err(e) => {
            return Err(e);
        },
        Ok(_) => {},
    }
    let k = match find_stake_entry(&ledger.stakes, &club_name, &staker) {
        None => {
            return Err(generic_err("Not a valid staker for the club"));
        },
        Some(k) => k,
    };
    if find_staker(&ledger.stakes[k].stakes, &staker).is_none() {
        return Err(generic_err("Not a valid staker for the club"));
    }
    let amount: u128 = match accrued_rewards(&ledger.stakes[k].stakes, &staker) {
        None => {
            return Err(overflow_err());
        },
        Some(a) => a,
    };
    proof {
        lemma_claimable_nonnegative(pre.stakes[k as int].stakes, staker@);
    }
    if amount == 0 {
        return Err(generic_err("No rewards for this user"));
    }
    let ghost held = pre.stakes[k as int].stakes;
    let n: usize = ledger.stakes[k].stakes.len();
    let mut i: usize = 0;
    while i < n
        invariant
            i <= n,
            n == held.len(),
            ledger.stakes.len() == pre.stakes.len(),
            ledger.stakes[k as int].stakes.len() == n,
            forall|j: int| 0 <= j < i ==> (#[trigger] ledger.stakes[k as int].stakes[j])@
                == claimed_stake(held[j], staker@),
            forall|j: int| i <= j < n ==> (#[trigger] ledger.stakes[k as int].stakes[j])@
                == held[j],
            forall|m: int|
                0 <= m < ledger.stakes.len() && m != k ==> (#[trigger] ledger.stakes[m])@
                    == pre.stakes[m],
            ledger.stakes[k as int].club_name@ == pre.stakes[k as int].club_name,
            ledger.stakes[k as int].staker_address@ == pre.stakes[k as int].staker_address,
            ledger@.clubs == pre.clubs,
            ledger@.config == pre.config,
            ledger@.bonds == pre.bonds,
            ledger@.previous_owners == pre.previous_owners,
            ledger@.staking_snapshot == pre.staking_snapshot,
            ledger@.winning_club_details == pre.winning_club_details,
            ledger.reward == pre.reward,
            ledger.reward_given_in_current_timestamp == pre.reward_given_in_current_timestamp,
            ledger.club_reward_next_timestamp == pre.club_reward_next_timestamp,
        decreases n - i,
    {
        if ledger.stakes[k].stakes[i].staker_address == staker {
            ledger.stakes[k].stakes[i].reward_amount = 0;
        }
        i += 1;
    }
    proof {
        let entry = StakeEntryView { stakes: claimed(held, staker@), ..pre.stakes[k as int] };
        assert(ledger.stakes[k as int]@.stakes =~= claimed(held, staker@));
        assert(ledger@.stakes =~= pre.stakes.update(k as int, entry));
        if pre.wf() {
            assert forall|name: Seq<char>| #[trigger]
                club_stake_total(ledger@.stakes, name) == club_stake_total(pre.stakes, name) by {
                lemma_club_total_update(pre.stakes, k as int, entry, name);
                lemma_claimed_total(held, staker@);
            }
            lemma_wf_after_stake_rewrite(pre, ledger@);
        }
    }
    let mut response = Response::new();
    response.add_message(
        Transfer::TokenTransfer {
            token_contract: ledger.config.minting_contract_address.clone(),
            recipient: staker.clone(),
            amount,
        },
    );
    response.add_message(
        forward_funds(&ledger.config.platform_fees_collector_wallet, &info.funds),
    );
    response.add_text("action", &"staking_reward_claim".to_owned());
    response.add_text("staker", &staker);
    response.add_amount("amount", amount);
    response.set_data(Receipt::AmountTransferred(amount));
    proof {
        let expected = claim_response(pre, coins_view(info.funds@), staker@, amount);
        assert(response@.messages =~= expected.messages);
        assert(response@.attributes =~= expected.attributes);
    }
    Ok(response)
}

} // verus!
