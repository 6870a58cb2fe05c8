//! Withdrawals: bonds that wait out their bonding period, and the matured
//! bonds that an immediate withdrawal is paid from.

use vstd::prelude::*;
use crate::error::{generic, generic_err, ContractError, ContractErrorView};
use crate::fees::{check_fees, fee_shortfall};
use crate::ledger::{
    bond_position, bonds_view, club_position, find_bond_entry, find_club, find_stake_entry,
    stake_position, BondEntry, BondEntryView, Ledger, LedgerView,
};
use crate::response::{
    amount_attr, bank_send, coins_view, forward_funds, result_view, text_attr, CoinView, Env,
    MessageInfo, Receipt, Response, ResponseView, Transfer, TransferView,
};
use crate::staking::{find_staker, save_staking_details, stake_decrease, staker_position};
use crate::state::{BondView, ClubBondingDetails, Timestamp, NANOS_PER_SECOND};

verus! {

/// The second in which a bond started, by which bonds are ordered.
pub open spec fn start_second(bond: BondView) -> int {
    bond.bonding_start_timestamp.nanos as int / (NANOS_PER_SECOND as int)
}

/// Whether a bond has waited out its bonding period at `now`.
pub open spec fn matured(bond: BondView, now: Timestamp) -> bool {
    bond.bonding_start_timestamp.after(bond.bonding_duration) <= now.nanos
}

/// The sum of the amounts of a sequence of bonds.
pub open spec fn bonds_total(bonds: Seq<BondView>) -> int
    decreases bonds.len(),
{
    if bonds.len() == 0 {
        0
    } else {
        bonds_total(bonds.drop_last()) + bonds.last().bonded_amount
    }
}

/// How many bonds at the head of `bonds` started no earlier than second `key`.
pub open spec fn head_not_before(bonds: Seq<BondView>, key: int) -> int
    decreases bonds.len(),
{
    if bonds.len() == 0 || start_second(bonds[0]) < key {
        0
    } else {
        1 + head_not_before(bonds.drop_first(), key)
    }
}

/// `bonds` ordered by the second of their start, latest first; bonds that
/// started in the same second keep their order.
pub open spec fn latest_first(bonds: Seq<BondView>) -> Seq<BondView>
    decreases bonds.len(),
{
    if bonds.len() == 0 {
        Seq::empty()
    } else {
        let sorted = latest_first(bonds.drop_last());
        sorted.insert(head_not_before(sorted, start_second(bonds.last())), bonds.last())
    }
}

/// Whether no bond in `bonds` started in a later second than one before it.
pub open spec fn is_latest_first(bonds: Seq<BondView>) -> bool {
    forall|i: int, j: int|
        0 <= i < j < bonds.len() ==> start_second(bonds[i]) >= start_second(bonds[j])
}

/// A place before which all bonds started no earlier than `key`, and at which
/// one starts earlier or none stands, is the number that `head_not_before` gives.
pub proof fn lemma_head_not_before(bonds: Seq<BondView>, key: int, p: int)
    requires
        0 <= p <= bonds.len(),
        forall|t: int| 0 <= t < p ==> start_second(bonds[t]) >= key,
        p < bonds.len() ==> start_second(bonds[p]) < key,
    ensures
        head_not_before(bonds, key) == p,
    decreases bonds.len(),
{
    if p > 0 {
        lemma_head_not_before(bonds.drop_first(), key, p - 1);
    }
}

/// What `head_not_before` gives lies within the sequence and parts it as its
/// name says.
pub proof fn lemma_head_not_before_range(bonds: Seq<BondView>, key: int)
    ensures
        0 <= head_not_before(bonds, key) <= bonds.len(),
        forall|t: int|
            0 <= t < head_not_before(bonds, key) ==> start_second(#[trigger] bonds[t]) >= key,
        head_not_before(bonds, key) < bonds.len() ==> start_second(
            bonds[head_not_before(bonds, key)],
        ) < key,
    decreases bonds.len(),
{
    if !(bonds.len() == 0 || start_second(bonds[0]) < key) {
        let rest = bonds.drop_first();
        lemma_head_not_before_range(rest, key);
        assert forall|t: int| 0 <= t < head_not_before(bonds, key) implies start_second(
            #[trigger] bonds[t],
        ) >= key by {
            if t > 0 {
                assert(bonds[t] == rest[t - 1]);
            }
        }
    }
}

/// A bond inserted adds its amount to the sum.
pub proof fn lemma_bonds_total_insert(bonds: Seq<BondView>, p: int, bond: BondView)
    requires
        0 <= p <= bonds.len(),
    ensures
        bonds_total(bonds.insert(p, bond)) == bonds_total(bonds) + bond.bonded_amount,
    decreases bonds.len(),
{
    let after = bonds.insert(p, bond);
    if p == bonds.len() {
        assert(after.drop_last() =~= bonds);
    } else {
        assert(after.drop_last() =~= bonds.drop_last().insert(p, bond));
        lemma_bonds_total_insert(bonds.drop_last(), p, bond);
    }
}

/// Ordering the bonds keeps their number and their sum, and orders them.
pub proof fn lemma_latest_first(bonds: Seq<BondView>)
    ensures
        latest_first(bonds).len() == bonds.len(),
        bonds_total(latest_first(bonds)) == bonds_total(bonds),
        is_latest_first(latest_first(bonds)),
        latest_first(bonds).to_multiset() == bonds.to_multiset(),
    decreases bonds.len(),
{
    if bonds.len() == 0 {
        assert(latest_first(bonds) =~= bonds);
    } else {
        let sorted = latest_first(bonds.drop_last());
        let key = start_second(bonds.last());
        let p = head_not_before(sorted, key);
        lemma_latest_first(bonds.drop_last());
        lemma_head_not_before_range(sorted, key);
        lemma_bonds_total_insert(sorted, p, bonds.last());
        let after = sorted.insert(p, bonds.last());
        assert forall|i: int, j: int| 0 <= i < j < after.len() implies start_second(after[i])
            >= start_second(after[j]) by {}
        assert(bonds.drop_last().push(bonds.last()) =~= bonds);
        vstd::seq_lib::to_multiset_build(bonds.drop_last(), bonds.last());
        vstd::seq_lib::to_multiset_insert(sorted, p, bonds.last());
    }
}

/// Orders bonds by the second of their start, latest first.
pub fn order_latest_first(bonds: &Vec<ClubBondingDetails>) -> (sorted: Vec<ClubBondingDetails>)
    ensures
        bonds_view(sorted@) == latest_first(bonds_view(bonds@)),
{
    let ghost all = bonds_view(bonds@);
    let mut sorted: Vec<ClubBondingDetails> = Vec::new();
    let mut i: usize = 0;
    while i < bonds.len()
        invariant
            i <= bonds.len(),
            all == bonds_view(bonds@),
            bonds_view(sorted@) == latest_first(all.take(i as int)),
        decreases bonds.len() - i,
    {
        let key: u64 = bonds[i].bonding_start_timestamp.seconds();
        let mut p: usize = 0;
        while p < sorted.len() && sorted[p].bonding_start_timestamp.seconds() >= key
            invariant
                p <= sorted.len(),
                forall|t: int| 0 <= t < p ==> start_second(bonds_view(sorted@)[t]) >= key,
            decreases sorted.len() - p,
        {
            p += 1;
        }
        proof {
            lemma_head_not_before(bonds_view(sorted@), key as int, p as int);
            assert(all.take(i as int + 1).drop_last() =~= all.take(i as int));
        }
        let bond = bonds[i].duplicate();
        sorted.insert(p, bond);
        i += 1;
    }
    assert(all.take(i as int) =~= all);
    sorted
}

/// What is left of `bonds` once `wanted` has been taken from those of
/// `staker` that have matured at `now`, and how much of `wanted` they could
/// not cover.
///
/// The bonds are taken in their order. A bond that holds more than is still
/// wanted stays with the rest of its amount; one that holds no more leaves.
/// Every other bond stays as it is.
pub open spec fn settle(bonds: Seq<BondView>, staker: Seq<char>, now: Timestamp, wanted: u128) -> (
    Seq<BondView>,
    u128,
)
    decreases bonds.len(),
{
    if bonds.len() == 0 {
        (Seq::empty(), wanted)
    } else {
        let (kept, open) = settle(bonds.drop_last(), staker, now, wanted);
        let bond = bonds.last();
        if bond.bonder_address == staker && matured(bond, now) && open > 0 {
            if bond.bonded_amount > open {
                (
                    kept.push(
                        BondView { bonded_amount: (bond.bonded_amount - open) as u128, ..bond },
                    ),
                    0,
                )
            } else {
                (kept, (open - bond.bonded_amount) as u128)
            }
        } else {
            (kept.push(bond), open)
        }
    }
}

/// What was taken from the bonds and what is left of them add up to what
/// they held, and no more is taken than was wanted.
pub proof fn lemma_settle_conserves(
    bonds: Seq<BondView>,
    staker: Seq<char>,
    now: Timestamp,
    wanted: u128,
)
    ensures
        settle(bonds, staker, now, wanted).1 <= wanted,
        bonds_total(settle(bonds, staker, now, wanted).0) + (wanted - settle(
            bonds,
            staker,
            now,
            wanted,
        ).1) == bonds_total(bonds),
        settle(bonds, staker, now, wanted).0.len() <= bonds.len(),
    decreases bonds.len(),
{
    if bonds.len() > 0 {
        lemma_settle_conserves(bonds.drop_last(), staker, now, wanted);
        let (kept, open) = settle(bonds.drop_last(), staker, now, wanted);
        let bond = bonds.last();
        if bond.bonder_address == staker && matured(bond, now) && open > 0 {
            if bond.bonded_amount > open {
                let rest = BondView { bonded_amount: (bond.bonded_amount - open) as u128, ..bond };
                assert(kept.push(rest).drop_last() =~= kept);
            }
        } else {
            assert(kept.push(bond).drop_last() =~= kept);
        }
    }
}

/// Takes `wanted` from the matured bonds of `staker`, in the order of
/// `bonds`; returns what is left of the bonds and what could not be covered.
pub fn settle_matured_bonds(
    bonds: &Vec<ClubBondingDetails>,
    staker: &String,
    now: Timestamp,
    wanted: u128,
) -> (r: (Vec<ClubBondingDetails>, u128))
    ensures
        (bonds_view(r.0@), r.1) == settle(bonds_view(bonds@), staker@, now, wanted),
{
    let ghost all = bonds_view(bonds@);
    let mut kept: Vec<ClubBondingDetails> = Vec::new();
    let mut open: u128 = wanted;
    let mut i: usize = 0;
    while i < bonds.len()
        invariant
            i <= bonds.len(),
            all == bonds_view(bonds@),
            (bonds_view(kept@), open) == settle(all.take(i as int), staker@, now, wanted),
        decreases bonds.len() - i,
    {
        proof {
            assert(all.take(i as int + 1).drop_last() =~= all.take(i as int));
        }
        let mut bond = bonds[i].duplicate();
        let is_matured = bond.bonding_start_timestamp.elapsed_by(bond.bonding_duration, now);
        if bond.bonder_address == *staker && is_matured && open > 0 {
            if bond.bonded_amount > open {
                bond.bonded_amount = bond.bonded_amount - open;
                open = 0;
                kept.push(bond);
            } else {
                open = open - bond.bonded_amount;
            }
        } else {
            kept.push(bond);
        }
        i += 1;
    }
    assert(all.take(i as int) =~= all);
    (kept, open)
}

/// The bonds that `bonder` holds on `club_name`; none where no entry stands.
pub open spec fn bonds_held(entries: Seq<BondEntryView>, club_name: Seq<char>, bonder: Seq<char>) -> Seq<
    BondView,
> {
    match bond_position(entries, club_name, bonder) {
        Some(b) => entries[b].bonds,
        None => Seq::empty(),
    }
}

/// The bond entries with the bonds of `bonder` on `club_name` set to `bonds`.
pub open spec fn with_bonds(
    entries: Seq<BondEntryView>,
    club_name: Seq<char>,
    bonder: Seq<char>,
    bonds: Seq<BondView>,
) -> Seq<BondEntryView> {
    match bond_position(entries, club_name, bonder) {
        Some(b) => entries.update(b, (BondEntryView { bonds, ..entries[b] })),
        None => entries.push(BondEntryView { club_name, bonder_address: bonder, bonds }),
    }
}

/// The bond that a deferred withdrawal opens.
pub open spec fn fresh_bond(
    club_name: Seq<char>,
    bonder: Seq<char>,
    now: Timestamp,
    amount: u128,
    duration: u64,
) -> BondView {
    BondView {
        club_name,
        bonder_address: bonder,
        bonding_start_timestamp: now,
        bonded_amount: amount,
        bonding_duration: duration,
    }
}

/// What `save_bonding_details` does to the ledger: the bonder's bonds on the
/// club get one more, which starts at `now`.
pub open spec fn bond_added(
    pre: LedgerView,
    now: Timestamp,
    bonder: Seq<char>,
    club_name: Seq<char>,
    amount: u128,
    duration: u64,
) -> LedgerView {
    LedgerView {
        bonds: with_bonds(
            pre.bonds,
            club_name,
            bonder,
            bonds_held(pre.bonds, club_name, bonder).push(
                fresh_bond(club_name, bonder, now, amount, duration),
            ),
        ),
        ..pre
    }
}

/// Sets the bonds of `bonder` on `club_name`.
pub fn store_bonds(
    ledger: &mut Ledger,
    club_name: &String,
    bonder: &String,
    bonds: Vec<ClubBondingDetails>,
)
    ensures
        final(ledger)@ == (LedgerView {
            bonds: with_bonds(old(ledger)@.bonds, club_name@, bonder@, bonds_view(bonds@)),
            ..old(ledger)@
        }),
        old(ledger)@.wf() ==> final(ledger)@.wf(),
{
    let ghost pre = ledger@;
    match find_bond_entry(&ledger.bonds, club_name, bonder) {
        Some(b) => {
            ledger.bonds[b].bonds = bonds;
            assert(ledger@.bonds =~= with_bonds(pre.bonds, club_name@, bonder@, bonds_view(bonds@)));
        },
        None => {
            let entry = BondEntry {
                club_name: club_name.clone(),
                bonder_address: bonder.clone(),
                bonds,
            };
            ledger.bonds.push(entry);
            assert(ledger@.bonds =~= with_bonds(pre.bonds, club_name@, bonder@, bonds_view(bonds@)));
        },
    }
}

/// Opens a bond of `bonded_amount` for `bonder` on `club_name`.
pub fn save_bonding_details(
    ledger: &mut Ledger,
    now: Timestamp,
    bonder: &String,
    club_name: &String,
    bonded_amount: u128,
    duration: u64,
)
    ensures
        final(ledger)@ == bond_added(
            old(ledger)@,
            now,
            bonder@,
            club_name@,
            bonded_amount,
            duration,
        ),
        old(ledger)@.wf() ==> final(ledger)@.wf(),
{
    let ghost pre = ledger@;
    let bond = ClubBondingDetails {
        club_name: club_name.clone(),
        bonder_address: bonder.clone(),
        bonding_start_timestamp: now,
        bonded_amount,
        bonding_duration: duration,
    };
    match find_bond_entry(&ledger.bonds, club_name, bonder) {
        Some(b) => {
            ledger.bonds[b].bonds.push(bond);
            assert(ledger.bonds[b as int]@.bonds =~= pre.bonds[b as int].bonds.push(bond@));
            assert(ledger@.bonds =~= with_bonds(
                pre.bonds,
                club_name@,
                bonder@,
                pre.bonds[b as int].bonds.push(bond@),
            ));
        },
        None => {
            let mut bonds: Vec<ClubBondingDetails> = Vec::new();
            bonds.push(bond);
            let entry = BondEntry {
                club_name: club_name.clone(),
                bonder_address: bonder.clone(),
                bonds,
            };
            assert(entry@.bonds =~= Seq::<BondView>::empty().push(bond@));
            ledger.bonds.push(entry);
            assert(ledger@.bonds =~= with_bonds(
                pre.bonds,
                club_name@,
                bonder@,
                Seq::<BondView>::empty().push(bond@),
            ));
        },
    }
}

/// What a settled immediate withdrawal hands back: the tokens go to the
/// staker, the native funds of the call to the collector of platform fees.
pub open spec fn withdrawn_response(
    pre: LedgerView,
    funds: Seq<CoinView>,
    staker: Seq<char>,
    amount: u128,
) -> ResponseView {
    ResponseView {
        messages: seq![
            TransferView::TokenTransfer {
                token_contract: pre.config.minting_contract_address,
                recipient: staker,
                amount,
            },
            bank_send(pre.config.platform_fees_collector_wallet, funds),
        ],
        attributes: seq![
            text_attr("action"@, "withdraw_stake"@),
            amount_attr("withdrawn"@, amount),
        ],
        data: Some(Receipt::AmountTransferred(amount)),
    }
}

/// What a deferred withdrawal hands back: no tokens move, the native funds
/// of the call go to the collector of platform fees.
pub open spec fn bonded_response(pre: LedgerView, funds: Seq<CoinView>, amount: u128) -> ResponseView {
    ResponseView {
        messages: seq![bank_send(pre.config.platform_fees_collector_wallet, funds)],
        attributes: seq![
            text_attr("action"@, "withdrawn_stake_bonded"@),
            amount_attr("bonded"@, amount),
        ],
        data: Some(Receipt::AmountBonded(amount)),
    }
}

/// An immediate withdrawal by a staker who has a stake on a recorded club.
///
/// The amount is taken from the staker's matured bonds on the club, latest
/// started first. Where they cover the amount they are stored as the taking
/// left them, and the amount is paid out. Where they do not, the bonds stay as
/// they were, the staker's stake shrinks by what was not covered, and the
/// withdrawal fails.
pub open spec fn immediate_withdrawal(
    pre: LedgerView,
    now: Timestamp,
    funds: Seq<CoinView>,
    staker: Seq<char>,
    club_name: Seq<char>,
    amount: u128,
) -> (LedgerView, Result<ResponseView, ContractErrorView>) {
    let (kept, open) = settle(
        latest_first(bonds_held(pre.bonds, club_name, staker)),
        staker,
        now,
        amount,
    );
    match stake_decrease(pre, staker, club_name, open) {
        Err(e) => (pre, Err(e)),
        Ok(reduced) => if open > 0 {
            (reduced, Err(generic("Not Sufficient Matured Unstaked Bonds"@)))
        } else {
            (
                LedgerView { bonds: with_bonds(pre.bonds, club_name, staker, kept), ..reduced },
                Ok(withdrawn_response(pre, funds, staker, amount)),
            )
        },
    }
}

/// A deferred withdrawal by a staker who has stake `held` on a recorded club.
///
/// It is refused where the stake holds less than the amount, or where the
/// staker's bonds on the club have reached the limit. Else the stake shrinks
/// by the amount and a bond of that amount starts at `now`.
pub open spec fn deferred_withdrawal(
    pre: LedgerView,
    now: Timestamp,
    funds: Seq<CoinView>,
    staker: Seq<char>,
    club_name: Seq<char>,
    amount: u128,
    held: u128,
) -> (LedgerView, Result<ResponseView, ContractErrorView>) {
    if held < amount {
        (pre, Err(generic("Excess amount demanded for unstaking"@)))
    } else if pre.config.max_bonding_limit_per_user <= bonds_held(
        pre.bonds,
        club_name,
        staker,
    ).len() {
        (pre, Err(generic("Too many bonded stakes for this staker"@)))
    } else {
        match stake_decrease(pre, staker, club_name, amount) {
            Err(e) => (pre, Err(e)),
            Ok(reduced) => (
                bond_added(reduced, now, staker, club_name, amount, pre.config.bonding_duration),
                Ok(bonded_response(pre, funds, amount)),
            ),
        }
    }
}

/// What a withdrawal does to the ledger, and what it returns.
///
/// Only the staker may withdraw, the funds sent must settle the fee quoted,
/// the staker must have a stake on the club, and the club a record.
pub open spec fn withdraw_outcome(
    pre: LedgerView,
    now: Timestamp,
    sender: Seq<char>,
    funds: Seq<CoinView>,
    staker: Seq<char>,
    club_name: Seq<char>,
    amount: u128,
    immediate_withdrawal: bool,
    required_ust_fees: u128,
) -> (LedgerView, Result<ResponseView, ContractErrorView>) {
    if staker != sender {
        (pre, Err(ContractErrorView::Unauthorized))
    } else if fee_shortfall(funds, required_ust_fees) is Some {
        (pre, Err(fee_shortfall(funds, required_ust_fees)->0))
    } else {
        match stake_position(pre.stakes, club_name, staker) {
            None => (pre, Err(generic("No stake found for this club"@))),
            Some(k) => match staker_position(pre.stakes[k].stakes, staker) {
                None => (pre, Err(generic("User has not staked in this club"@))),
                Some(j) => if club_position(pre.clubs, club_name) is None {
                    (pre, Err(generic("Invalid club"@)))
                } else if immediate_withdrawal {
                    self::immediate_withdrawal(pre, now, funds, staker, club_name, amount)
                } else {
                    deferred_withdrawal(
                        pre,
                        now,
                        funds,
                        staker,
                        club_name,
                        amount,
                        pre.stakes[k].stakes[j].staked_amount,
                    )
                },
            },
        }
    }
}

/// Withdraws `withdrawal_amount` of the stake of `staker` on `club_name`:
/// at once from matured bonds, or into a new bond.
pub fn withdraw_stake_from_a_club(
    ledger: &mut Ledger,
    env: &Env,
    info: &MessageInfo,
    staker: String,
    club_name: String,
    withdrawal_amount: u128,
    immediate_withdrawal: bool,
    required_ust_fees: u128,
) -> (r: Result<Response, ContractError>)
    ensures
        (final(ledger)@, result_view(r)) == withdraw_outcome(
            old(ledger)@,
            env.block_time,
            info.sender@,
            coins_view(info.funds@),
            staker@,
            club_name@,
            withdrawal_amount,
            immediate_withdrawal,
            required_ust_fees,
        ),
        old(ledger)@.wf() ==> final(ledger)@.wf(),
{
    let ghost pre = ledger@;
    let now = env.block_time;
    if staker != info.sender {
        return Err(ContractError::Unauthorized {  });
    }
    match check_fees(&info.funds, required_ust_fees) {
        Err(e) => {
            return Err(e);
        },
        Ok(_) => {},
    }
    let k = match find_stake_entry(&ledger.stakes, &club_name, &staker) {
        None => {
            return Err(generic_err("No stake found for this club"));
        },
        Some(k) => k,
    };
    let j = match find_staker(&ledger.stakes[k].stakes, &staker) {
        None => {
            return Err(generic_err("User has not staked in this club"));
        },
        Some(j) => j,
    };
    let held: u128 = ledger.stakes[k].stakes[j].staked_amount;
    if find_club(&ledger.clubs, &club_name).is_none() {
        return Err(generic_err("Invalid club"));
    }
    let found = find_bond_entry(&ledger.bonds, &club_name, &staker);
    if immediate_withdrawal {
        let (kept, open) = match found {
            Some(b) => {
                let sorted = order_latest_first(&ledger.bonds[b].bonds);
                settle_matured_bonds(&sorted, &staker, now, withdrawal_amount)
            },
            None => {
                let none: Vec<ClubBondingDetails> = Vec::new();
                let sorted = order_latest_first(&none);
                settle_matured_bonds(&sorted, &staker, now, withdrawal_amount)
            },
        };
        match save_staking_details(ledger, now, &staker, &club_name, open, false, false) {
            Err(e) => {
                return Err(e);
            },
            Ok(_) => {},
        }
        if open > 0 {
            return Err(generic_err("Not Sufficient Matured Unstaked Bonds"));
        }
        let token_contract = ledger.config.minting_contract_address.clone();
        let collector = ledger.config.platform_fees_collector_wallet.clone();
        store_bonds(ledger, &club_name, &staker, kept);
        let mut response = Response::new();
        response.add_message(
            Transfer::TokenTransfer {
                token_contract,
                recipient: staker,
                amount: withdrawal_amount,
            },
        );
        response.add_message(forward_funds(&collector, &info.funds));
        response.add_text("action", &"withdraw_stake".to_owned());
        response.add_amount("withdrawn", withdrawal_amount);
        response.set_data(Receipt::AmountTransferred(withdrawal_amount));
        proof {
            let expected = withdrawn_response(
                pre,
                coins_view(info.funds@),
                staker@,
                withdrawal_amount,
            );
            assert(response@.messages =~= expected.messages);
            assert(response@.attributes =~= expected.attributes);
        }
        Ok(response)
    } else {
        if held < withdrawal_amount {
            return Err(generic_err("Excess amount demanded for unstaking"));
        }
        let bonds_for_staker: usize = match found {
            Some(b) => ledger.bonds[b].bonds.len(),
            None => 0,
        };
        if ledger.config.max_bonding_limit_per_user <= bonds_for_staker as u64 {
            return Err(generic_err("Too many bonded stakes for this staker"));
        }
        match save_staking_details(
            ledger,
            now,
            &staker,
            &club_name,
            withdrawal_amount,
            false,
            false,
        ) {
            Err(e) => {
                return Err(e);
            },
            Ok(_) => {},
        }
        let duration: u64 = ledger.config.bonding_duration;
        let collector = ledger.config.platform_fees_collector_wallet.clone();
        save_bonding_details(ledger, now, &staker, &club_name, withdrawal_amount, duration);
        let mut response = Response::new();
        response.add_message(forward_funds(&collector, &info.funds));
        response.add_text("action", &"withdrawn_stake_bonded".to_owned());
        response.add_amount("bonded", withdrawal_amount);
        response.set_data(Receipt::AmountBonded(withdrawal_amount));
        proof {
            let expected = bonded_response(pre, coins_view(info.funds@), withdrawal_amount);
            assert(response@.attributes =~= expected.attributes);
        }
        Ok(response)
    }
}

} // verus!
