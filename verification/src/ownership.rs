//! Ownership of clubs: acquisition, release, and the owners' rewards.

use vstd::prelude::*;
use crate::error::{generic, generic_err, overflow, overflow_err, ContractError, ContractErrorView};
use crate::fees::{check_fees, fee_shortfall};
use crate::ledger::{
    club_position, club_stake_total, find_club, find_previous_owner, find_stake_entry,
    lemma_club_total_absent, lemma_index_found, lemma_wf_after_club_change, previous_owner_position,
    previous_owners_view, stake_position, Ledger, LedgerView,
};
use crate::response::{
    amount_attr, bank_send, coins_view, empty_response, forward_funds, result_view, text_attr,
    CoinView, Env, MessageInfo, Receipt, Response, ResponseView, Transfer, TransferView,
};
use crate::staking::{find_staker, save_staking_details, stake_increase, staker_position};
use crate::state::{
    ClubOwnershipDetails, ClubPreviousOwnerDetails, ClubView, PreviousOwnerView, Timestamp,
};

verus! {

/// The record of a club that `buyer` has just acquired.
pub open spec fn acquired_club(
    pre: LedgerView,
    now: Timestamp,
    buyer: Seq<char>,
    club_name: Seq<char>,
    price_paid: u128,
    total_staked_amount: u128,
) -> ClubView {
    ClubView {
        club_name,
        start_timestamp: now,
        locking_period: pre.config.owner_release_locking_duration,
        owner_address: buyer,
        price_paid,
        reward_amount: 0,
        owner_released: false,
        total_staked_amount,
    }
}

/// What is owed to `owner` as a previous owner; nothing where no record stands.
pub open spec fn previous_reward(owners: Seq<PreviousOwnerView>, owner: Seq<char>) -> u128 {
    match previous_owner_position(owners, owner) {
        Some(p) => owners[p].reward_amount,
        None => 0,
    }
}

/// The previous owners with `amount` more owed to `owner`.
pub open spec fn credited(owners: Seq<PreviousOwnerView>, owner: Seq<char>, amount: u128) -> Seq<
    PreviousOwnerView,
> {
    let record = PreviousOwnerView {
        previous_owner_address: owner,
        reward_amount: (previous_reward(owners, owner) + amount) as u128,
    };
    match previous_owner_position(owners, owner) {
        Some(p) => owners.update(p, record),
        None => owners.push(record),
    }
}

/// Whether `staker` has a stake on `club_name`.
pub open spec fn has_stake(pre: LedgerView, club_name: Seq<char>, staker: Seq<char>) -> bool {
    match stake_position(pre.stakes, club_name, staker) {
        Some(k) => staker_position(pre.stakes[k].stakes, staker) is Some,
        None => false,
    }
}

/// The ledger in which the new owner of a club is known as one of its
/// stakers: an owner without a stake on the club gets one of nothing.
pub open spec fn with_owner_stake(
    pre: LedgerView,
    now: Timestamp,
    buyer: Seq<char>,
    club_name: Seq<char>,
    auto_stake: bool,
) -> LedgerView {
    if has_stake(pre, club_name, buyer) {
        pre
    } else {
        match stake_increase(pre, now, buyer, club_name, 0, auto_stake) {
            Ok(post) => post,
            Err(_) => pre,
        }
    }
}

/// Why `buyer` cannot take over the club recorded as `club`, if so.
///
/// The buyer must not own the club already; its owner must have released it,
/// at most the locking period ago; and the seller named must be that owner,
/// where the record names one.
pub open spec fn takeover_refusal(
    club: ClubView,
    now: Timestamp,
    buyer: Seq<char>,
    seller: Seq<char>,
) -> Option<ContractErrorView> {
    if club.owner_address == buyer {
        Some(generic("buyer already owns this club"@))
    } else if !club.owner_released {
        Some(generic("Owner has not released the club"@))
    } else if now.nanos > club.start_timestamp.after(club.locking_period) {
        Some(generic("Release time for the club has expired"@))
    } else if club.owner_address != Seq::<char>::empty() && club.owner_address != seller {
        Some(generic("Seller is not the owner for the club"@))
    } else {
        None
    }
}

/// What the acquisition of a club does to the ledger.
///
/// A club without a record gets one, with nothing staked. A club with a
/// record changes hands where `takeover_refusal` has no objection: the reward
/// that the record owes, if any, is credited to `seller` as a previous owner,
/// and the record is written anew with what the club has staked. The buyer is
/// then made one of the club's stakers. On an error the ledger stays as it was.
pub open spec fn acquire(
    pre: LedgerView,
    now: Timestamp,
    buyer: Seq<char>,
    seller: Seq<char>,
    club_name: Seq<char>,
    price_paid: u128,
    auto_stake: bool,
) -> Result<LedgerView, ContractErrorView> {
    match club_position(pre.clubs, club_name) {
        None => Ok(
            with_owner_stake(
                LedgerView {
                    clubs: pre.clubs.push(
                        acquired_club(pre, now, buyer, club_name, price_paid, 0),
                    ),
                    ..pre
                },
                now,
                buyer,
                club_name,
                auto_stake,
            ),
        ),
        Some(c) => {
            let club = pre.clubs[c];
            if takeover_refusal(club, now, buyer, seller) is Some {
                Err(takeover_refusal(club, now, buyer, seller)->0)
            } else if club.reward_amount != 0 && previous_reward(pre.previous_owners, seller)
                + club.reward_amount > u128::MAX {
                Err(overflow())
            } else {
                Ok(
                    with_owner_stake(
                        LedgerView {
                            clubs: pre.clubs.update(
                                c,
                                acquired_club(
                                    pre,
                                    now,
                                    buyer,
                                    club_name,
                                    price_paid,
                                    club.total_staked_amount,
                                ),
                            ),
                            previous_owners: if club.reward_amount != 0 {
                                credited(pre.previous_owners, seller, club.reward_amount)
                            } else {
                                pre.previous_owners
                            },
                            ..pre
                        },
                        now,
                        buyer,
                        club_name,
                        auto_stake,
                    ),
                )
            }
        },
    }
}

/// The invariant survives the record of a club that had none and has
/// nothing staked.
pub proof fn lemma_wf_after_new_club(pre: LedgerView, post: LedgerView, club: ClubView)
    requires
        pre.wf(),
        club_position(pre.clubs, club.club_name) is None,
        club.total_staked_amount == 0,
        post.clubs == pre.clubs.push(club),
        post.stakes == pre.stakes,
    ensures
        post.wf(),
{
    let keys = pre.clubs.map_values(|c: ClubView| c.club_name);
    let after = post.clubs.map_values(|c: ClubView| c.club_name);
    lemma_index_found(keys, club.club_name);
    assert forall|i: int, j: int| 0 <= i < j < post.clubs.len() implies post.clubs[i].club_name
        != post.clubs[j].club_name by {
        if j == pre.clubs.len() {
            assert(keys[i] != club.club_name);
        }
    }
    assert forall|k: int| 0 <= k < post.stakes.len() implies (#[trigger] club_position(
        post.clubs,
        post.stakes[k].club_name,
    )) is Some by {
        let name = pre.stakes[k].club_name;
        assert(club_position(pre.clubs, name) is Some);
        lemma_index_found(keys, name);
        let p = keys.index_of_first(name)->0;
        assert(after[p] == name);
        lemma_index_found(after, name);
    }
    assert forall|i: int| 0 <= i < post.clubs.len() implies (#[trigger] post.clubs[i]).total_staked_amount
        == club_stake_total(post.stakes, post.clubs[i].club_name) by {
        if i == pre.clubs.len() {
            assert forall|k: int| 0 <= k < pre.stakes.len() implies pre.stakes[k].club_name
                != club.club_name by {}
            lemma_club_total_absent(pre.stakes, club.club_name);
        } else {
        }
    }
}

/// Credits `amount` to `owner` as a previous owner.
pub(crate) fn credit_previous_owner(
    owners: &mut Vec<ClubPreviousOwnerDetails>,
    owner: &String,
    amount: u128,
)
    requires
        previous_reward(previous_owners_view(old(owners)@), owner@) + amount <= u128::MAX,
    ensures
        previous_owners_view(final(owners)@) == credited(
            previous_owners_view(old(owners)@),
            owner@,
            amount,
        ),
{
    let ghost pre = previous_owners_view(owners@);
    match find_previous_owner(owners, owner) {
        Some(p) => {
            let ghost record = PreviousOwnerView {
                previous_owner_address: owner@,
                reward_amount: (pre[p as int].reward_amount + amount) as u128,
            };
            owners[p].reward_amount = owners[p].reward_amount + amount;
        },
        None => {
            let record = ClubPreviousOwnerDetails {
                previous_owner_address: owner.clone(),
                reward_amount: amount,
            };
            owners.push(record);
        },
    }
}

/// The empty name, for a seller that is not given.
pub open spec fn seller_name(seller: Option<String>) -> Seq<char> {
    match seller {
        Some(s) => s@,
        None => Seq::empty(),
    }
}

/// Hands the club to `buyer`, where the club's state allows it.
pub fn acquire_club(
    ledger: &mut Ledger,
    now: Timestamp,
    buyer: &String,
    seller: &String,
    club_name: &String,
    price_paid: u128,
    auto_stake: bool,
) -> (r: Result<(), ContractError>)
    ensures
        match acquire(old(ledger)@, now, buyer@, seller@, club_name@, price_paid, auto_stake) {
            Ok(post) => r is Ok && final(ledger)@ == post,
            Err(e) => r is Err && r->Err_0@ == e && final(ledger)@ == old(ledger)@,
        },
        old(ledger)@.wf() ==> final(ledger)@.wf(),
{
    let ghost pre = ledger@;
    let locking_period: u64 = ledger.config.owner_release_locking_duration;
    match find_club(&ledger.clubs, club_name) {
        None => {
            let club = ClubOwnershipDetails {
                club_name: club_name.clone(),
                start_timestamp: now,
                locking_period,
                owner_address: buyer.clone(),
                price_paid,
                reward_amount: 0,
                owner_released: false,
                total_staked_amount: 0,
            };
            ledger.clubs.push(club);
            proof {
                assert(ledger@.clubs =~= pre.clubs.push(club@));
                if pre.wf() {
                    lemma_wf_after_new_club(pre, ledger@, club@);
                }
            }
        },
        Some(c) => {
            if ledger.clubs[c].owner_address == *buyer {
                return Err(generic_err("buyer already owns this club"));
            }
            if !ledger.clubs[c].owner_released {
                return Err(generic_err("Owner has not released the club"));
            }
            if !ledger.clubs[c].start_timestamp.elapsed_by_not_after(
                ledger.clubs[c].locking_period,
                now,
            ) {
                return Err(generic_err("Release time for the club has expired"));
            }
            let no_owner = String::new();
            if ledger.clubs[c].owner_address != no_owner && ledger.clubs[c].owner_address
                != *seller {
                return Err(generic_err("Seller is not the owner for the club"));
            }
            let reward: u128 = ledger.clubs[c].reward_amount;
            if reward != 0 {
                let owed: u128 = match find_previous_owner(&ledger.previous_owners, seller) {
                    Some(p) => ledger.previous_owners[p].reward_amount,
                    None => 0,
                };
                if owed.checked_add(reward).is_none() {
                    return Err(overflow_err());
                }
                credit_previous_owner(&mut ledger.previous_owners, seller, reward);
            }
            let ghost club = acquired_club(
                pre,
                now,
                buyer@,
                club_name@,
                price_paid,
                pre.clubs[c as int].total_staked_amount,
            );
            ledger.clubs[c].start_timestamp = now;
            ledger.clubs[c].locking_period = locking_period;
            ledger.clubs[c].owner_address = buyer.clone();
            ledger.clubs[c].price_paid = price_paid;
            ledger.clubs[c].reward_amount = 0;
            ledger.clubs[c].owner_released = false;
            proof {
                assert(ledger@.clubs =~= pre.clubs.update(c as int, club));
                if pre.wf() {
                    lemma_wf_after_club_change(pre, ledger@, c as int, club);
                }
            }
        },
    }
    let has_stake = match find_stake_entry(&ledger.stakes, club_name, buyer) {
        Some(k) => find_staker(&ledger.stakes[k].stakes, buyer).is_some(),
        None => false,
    };
    if !has_stake {
        let ghost mid = ledger@;
        let _ = save_staking_details(ledger, now, buyer, club_name, 0, auto_stake, true);
        proof {
            assert(club_position(mid.clubs, club_name@) is Some) by {
                let keys = mid.clubs.map_values(|c: ClubView| c.club_name);
                match club_position(pre.clubs, club_name@) {
                    None => {
                        assert(keys[pre.clubs.len() as int] == club_name@);
                    },
                    Some(c) => {
                        lemma_index_found(
                            pre.clubs.map_values(|c: ClubView| c.club_name),
                            club_name@,
                        );
                        assert(keys[c] == club_name@);
                    },
                }
                lemma_index_found(keys, club_name@);
            }
        }
    }
    Ok(())
}

/// What a purchase hands back: the price goes from the buyer to the
/// collector of club fees, the native funds of the call to the collector of
/// platform fees.
pub open spec fn purchase_response(
    pre: LedgerView,
    sender: Seq<char>,
    funds: Seq<CoinView>,
    buyer: Seq<char>,
    club_name: Seq<char>,
    price: u128,
) -> ResponseView {
    ResponseView {
        messages: seq![
            TransferView::TokenTransferFrom {
                token_contract: pre.config.minting_contract_address,
                owner: sender,
                recipient: pre.config.club_fee_collector_wallet,
                amount: price,
            },
            bank_send(pre.config.platform_fees_collector_wallet, funds),
        ],
        attributes: seq![
            text_attr("action"@, "buy_a_club"@),
            text_attr("buyer"@, buyer),
            text_attr("club_name"@, club_name),
            amount_attr("fees"@, price),
        ],
        data: Some(Receipt::ClubFeesReceived(price)),
    }
}

/// What the purchase of a club does to the ledger, and what it returns.
///
/// The buyer must be the caller, the price the configured one, and the funds
/// sent must settle the fee quoted; the club then changes hands as `acquire`
/// says.
pub open spec fn buy_outcome(
    pre: LedgerView,
    now: Timestamp,
    sender: Seq<char>,
    funds: Seq<CoinView>,
    buyer: Seq<char>,
    seller: Seq<char>,
    club_name: Seq<char>,
    price: u128,
    auto_stake: bool,
    required_ust_fees: u128,
) -> (LedgerView, Result<ResponseView, ContractErrorView>) {
    if sender != buyer {
        (pre, Err(ContractErrorView::Unauthorized))
    } else if price != pre.config.club_price {
        (pre, Err(generic("Club price is not matching"@)))
    } else if fee_shortfall(funds, required_ust_fees) is Some {
        (pre, Err(fee_shortfall(funds, required_ust_fees)->0))
    } else {
        match acquire(pre, now, buyer, seller, club_name, price, auto_stake) {
            Err(e) => (pre, Err(e)),
            Ok(post) => (post, Ok(purchase_response(pre, sender, funds, buyer, club_name, price))),
        }
    }
}

/// The caller buys a club at the configured price.
pub fn buy_a_club(
    ledger: &mut Ledger,
    env: &Env,
    info: &MessageInfo,
    buyer: String,
    seller_opt: Option<String>,
    club_name: String,
    price: u128,
    auto_stake: bool,
    required_ust_fees: u128,
) -> (r: Result<Response, ContractError>)
    ensures
        (final(ledger)@, result_view(r)) == buy_outcome(
            old(ledger)@,
            env.block_time,
            info.sender@,
            coins_view(info.funds@),
            buyer@,
            seller_name(seller_opt),
            club_name@,
            price,
            auto_stake,
            required_ust_fees,
        ),
        old(ledger)@.wf() ==> final(ledger)@.wf(),
{
    let ghost pre = ledger@;
    if info.sender != buyer {
        return Err(ContractError::Unauthorized {  });
    }
    let seller: String = match seller_opt {
        Some(s) => s,
        None => String::new(),
    };
    if price != ledger.config.club_price {
        return Err(generic_err("Club price is not matching"));
    }
    match check_fees(&info.funds, required_ust_fees) {
        Err(e) => {
            return Err(e);
        },
        Ok(_) => {},
    }
    match acquire_club(ledger, env.block_time, &buyer, &seller, &club_name, price, auto_stake) {
        Err(e) => {
            return Err(e);
        },
        Ok(_) => {},
    }
    let mut response = Response::new();
    response.add_message(
        Transfer::TokenTransferFrom {
            token_contract: ledger.config.minting_contract_address.clone(),
            owner: info.sender.clone(),
            recipient: ledger.config.club_fee_collector_wallet.clone(),
            amount: price,
        },
    );
    response.add_message(
        forward_funds(&ledger.config.platform_fees_collector_wallet, &info.funds),
    );
    response.add_text("action", &"buy_a_club".to_owned());
    response.add_text("buyer", &buyer);
    response.add_text("club_name", &club_name);
    response.add_amount("fees", price);
    response.set_data(Receipt::ClubFeesReceived(price));
    proof {
        let expected = purchase_response(
            pre,
            info.sender@,
            coins_view(info.funds@),
            buyer@,
            club_name@,
            price,
        );
        assert(response@.messages =~= expected.messages);
        assert(response@.attributes =~= expected.attributes);
    }
    Ok(response)
}

/// What the assignment of a club does to the ledger, and what it returns.
///
/// Only the administrator may assign; the club then changes hands as
/// `acquire` says, at no price.
pub open spec fn assign_outcome(
    pre: LedgerView,
    now: Timestamp,
    sender: Seq<char>,
    buyer: Seq<char>,
    seller: Seq<char>,
    club_name: Seq<char>,
    auto_stake: bool,
) -> (LedgerView, Result<ResponseView, ContractErrorView>) {
    if sender != pre.config.admin_address {
        (pre, Err(ContractErrorView::Unauthorized))
    } else {
        match acquire(pre, now, buyer, seller, club_name, 0, auto_stake) {
            Err(e) => (pre, Err(e)),
            Ok(post) => (post, Ok(empty_response())),
        }
    }
}

/// The administrator hands a club to `buyer`.
pub fn assign_a_club(
    ledger: &mut Ledger,
    env: &Env,
    info: &MessageInfo,
    buyer: String,
    seller_opt: Option<String>,
    club_name: String,
    auto_stake: bool,
) -> (r: Result<Response, ContractError>)
    ensures
        (final(ledger)@, result_view(r)) == assign_outcome(
            old(ledger)@,
            env.block_time,
            info.sender@,
            buyer@,
            seller_name(seller_opt),
            club_name@,
            auto_stake,
        ),
        old(ledger)@.wf() ==> final(ledger)@.wf(),
{
    if info.sender != ledger.config.admin_address {
        return Err(ContractError::Unauthorized {  });
    }
    let seller: String = match seller_opt {
        Some(s) => s,
        None => String::new(),
    };
    match acquire_club(ledger, env.block_time, &buyer, &seller, &club_name, 0, auto_stake) {
        Err(e) => {
            return Err(e);
        },
        Ok(_) => {},
    }
    Ok(Response::new())
}

/// What the release of a club does to the ledger, and what it returns.
///
/// Only the owner of the club may release it. The club is then open to a
/// buyer, and its locking period starts anew at `now`.
pub open spec fn release_outcome(
    pre: LedgerView,
    now: Timestamp,
    sender: Seq<char>,
    seller: Seq<char>,
    club_name: Seq<char>,
) -> (LedgerView, Result<ResponseView, ContractErrorView>) {
    if seller != sender {
        (pre, Err(ContractErrorView::Unauthorized))
    } else {
        match club_position(pre.clubs, club_name) {
            None => (pre, Err(generic("Releaser is not the owner for the club"@))),
            Some(c) => if pre.clubs[c].owner_address != seller {
                (pre, Err(generic("Releaser is not the owner for the club"@)))
            } else {
                (
                    LedgerView {
                        clubs: pre.clubs.update(
                            c,
                            (ClubView {
                                start_timestamp: now,
                                owner_released: true,
                                ..pre.clubs[c]
                            }),
                        ),
                        ..pre
                    },
                    Ok(empty_response()),
                )
            },
        }
    }
}

/// The owner of a club opens it to a buyer.
pub fn release_club(
    ledger: &mut Ledger,
    env: &Env,
    info: &MessageInfo,
    seller: String,
    club_name: String,
) -> (r: Result<Response, ContractError>)
    ensures
        (final(ledger)@, result_view(r)) == release_outcome(
            old(ledger)@,
            env.block_time,
            info.sender@,
            seller@,
            club_name@,
        ),
        old(ledger)@.wf() ==> final(ledger)@.wf(),
{
    let ghost pre = ledger@;
    if seller != info.sender {
        return Err(ContractError::Unauthorized {  });
    }
    let c = match find_club(&ledger.clubs, &club_name) {
        None => {
            return Err(generic_err("Releaser is not the owner for the club"));
        },
        Some(c) => c,
    };
    if ledger.clubs[c].owner_address != seller {
        return Err(generic_err("Releaser is not the owner for the club"));
    }
    let ghost club = ClubView {
        start_timestamp: env.block_time,
        owner_released: true,
        ..pre.clubs[c as int]
    };
    ledger.clubs[c].start_timestamp = env.block_time;
    ledger.clubs[c].owner_released = true;
    proof {
        assert(ledger@.clubs =~= pre.clubs.update(c as int, club));
        if pre.wf() {
            lemma_wf_after_club_change(pre, ledger@, c as int, club);
        }
    }
    Ok(Response::new())
}

/// What the payment of a reward from the ledger's own tokens hands back.
pub open spec fn payout_response(
    pre: LedgerView,
    wallet_owner: Seq<char>,
    amount: u128,
    action: Seq<char>,
) -> ResponseView {
    ResponseView {
        messages: seq![
            TransferView::TokenTransfer {
                token_contract: pre.config.minting_contract_address,
                recipient: wallet_owner,
                amount,
            },
        ],
        attributes: seq![text_attr("action"@, action), amount_attr("amount"@, amount)],
        data: Some(Receipt::AmountTransferred(amount)),
    }
}

/// Asks the host to pay `amount` of the ledger's own tokens to `wallet_owner`.
pub fn transfer_from_contract_to_wallet(
    ledger: &Ledger,
    wallet_owner: String,
    amount: u128,
    action: String,
) -> (r: Response)
    ensures
        r@ == payout_response(ledger@, wallet_owner@, amount, action@),
{
    let mut response = Response::new();
    response.add_message(
        Transfer::TokenTransfer {
            token_contract: ledger.config.minting_contract_address.clone(),
            recipient: wallet_owner,
            amount,
        },
    );
    response.add_text("action", &action);
    response.add_amount("amount", amount);
    response.set_data(Receipt::AmountTransferred(amount));
    proof {
        let expected = payout_response(ledger@, wallet_owner@, amount, action@);
        assert(response@.attributes =~= expected.attributes);
    }
    response
}

/// What an owner's claim does to the ledger, and what it returns.
///
/// Only the owner of the club may claim, and only a reward that is not
/// nothing. The record then owes nothing, and the reward is paid out.
pub open spec fn claim_owner_outcome(
    pre: LedgerView,
    sender: Seq<char>,
    owner: Seq<char>,
    club_name: Seq<char>,
) -> (LedgerView, Result<ResponseView, ContractErrorView>) {
    if owner != sender {
        (pre, Err(ContractErrorView::Unauthorized))
    } else {
        match club_position(pre.clubs, club_name) {
            None => (pre, Err(generic("Not a valid owner for the club"@))),
            Some(c) => if pre.clubs[c].owner_address != owner {
                (pre, Err(generic("Not a valid owner for the club"@)))
            } else if pre.clubs[c].reward_amount == 0 {
                (pre, Err(generic("No rewards for this owner"@)))
            } else {
                (
                    LedgerView {
                        clubs: pre.clubs.update(
                            c,
                            (ClubView { reward_amount: 0, ..pre.clubs[c] }),
                        ),
                        ..pre
                    },
                    Ok(
                        payout_response(
                            pre,
                            owner,
                            pre.clubs[c].reward_amount,
                            "owner_reward"@,
                        ),
                    ),
                )
            },
        }
    }
}

/// The owner of a club claims the reward that its record owes.
pub fn claim_owner_rewards(
    ledger: &mut Ledger,
    info: &MessageInfo,
    owner: String,
    club_name: String,
) -> (r: Result<Response, ContractError>)
    ensures
        (final(ledger)@, result_view(r)) == claim_owner_outcome(
            old(ledger)@,
            info.sender@,
            owner@,
            club_name@,
        ),
        old(ledger)@.wf() ==> final(ledger)@.wf(),
{
    let ghost pre = ledger@;
    if owner != info.sender {
        return Err(ContractError::Unauthorized {  });
    }
    let c = match find_club(&ledger.clubs, &club_name) {
        None => {
            return Err(generic_err("Not a valid owner for the club"));
        },
        Some(c) => c,
    };
    if ledger.clubs[c].owner_address != owner {
        return Err(generic_err("Not a valid owner for the club"));
    }
    let amount: u128 = ledger.clubs[c].reward_amount;
    if amount == 0 {
        return Err(generic_err("No rewards for this owner"));
    }
    let ghost club = ClubView { reward_amount: 0, ..pre.clubs[c as int] };
    ledger.clubs[c].reward_amount = 0;
    proof {
        assert(ledger@.clubs =~= pre.clubs.update(c as int, club));
        if pre.wf() {
            lemma_wf_after_club_change(pre, ledger@, c as int, club);
        }
    }
    Ok(transfer_from_contract_to_wallet(ledger, owner, amount, "owner_reward".to_owned()))
}

/// What a previous owner's claim does to the ledger, and what it returns.
///
/// Only the previous owner may claim, and only a reward that is not nothing.
/// The record of what is owed then leaves the ledger, and the reward is paid
/// out.
pub open spec fn claim_previous_owner_outcome(
    pre: LedgerView,
    sender: Seq<char>,
    previous_owner: Seq<char>,
) -> (LedgerView, Result<ResponseView, ContractErrorView>) {
    if previous_owner != sender {
        (pre, Err(ContractErrorView::Unauthorized))
    } else {
        match previous_owner_position(pre.previous_owners, previous_owner) {
            None => (pre, Err(generic("Not a valid previous owner for the club"@))),
            Some(p) => if pre.previous_owners[p].reward_amount == 0 {
                (pre, Err(generic("No rewards for this previous owner"@)))
            } else {
                (
                    LedgerView { previous_owners: pre.previous_owners.remove(p), ..pre },
                    Ok(
                        payout_response(
                            pre,
                            previous_owner,
                            pre.previous_owners[p].reward_amount,
                            "previous_owners_reward"@,
                        ),
                    ),
                )
            },
        }
    }
}

/// A previous owner claims the reward carried over from a club's sale.
pub fn claim_previous_owner_rewards(
    ledger: &mut Ledger,
    info: &MessageInfo,
    previous_owner: String,
) -> (r: Result<Response, ContractError>)
    ensures
        (final(ledger)@, result_view(r)) == claim_previous_owner_outcome(
            old(ledger)@,
            info.sender@,
            previous_owner@,
        ),
        old(ledger)@.wf() ==> final(ledger)@.wf(),
{
    let ghost pre = ledger@;
    if previous_owner != info.sender {
        return Err(ContractError::Unauthorized {  });
    }
    let p = match find_previous_owner(&ledger.previous_owners, &previous_owner) {
        None => {
            return Err(generic_err("Not a valid previous owner for the club"));
        },
        Some(p) => p,
    };
    let amount: u128 = ledger.previous_owners[p].reward_amount;
    if amount == 0 {
        return Err(generic_err("No rewards for this previous owner"));
    }
    ledger.previous_owners.remove(p);
    assert(ledger@.previous_owners =~= pre.previous_owners.remove(p as int));
    Ok(
        transfer_from_contract_to_wallet(
            ledger,
            previous_owner,
            amount,
            "previous_owners_reward".to_owned(),
        ),
    )
}

} // verus!
