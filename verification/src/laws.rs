//! What holds of the ledger's operations taken together.

use vstd::prelude::*;
use crate::bonding::{
    bonds_held, bonds_total, fresh_bond, latest_first, lemma_latest_first, lemma_settle_conserves,
    settle, with_bonds, withdraw_outcome,
};
use crate::distribution::{
    calculate_outcome, distribute_outcome, next_stake_start, stake_paid, staker_paid,
    stakers_paid, stakes_paid, Tally, TermsView,
};
use crate::error::{generic, ContractErrorView};
use crate::ledger::{
    bond_position, club_position, club_stake_total, lemma_first_index, lemma_index_found,
    stake_position, BondEntryView, LedgerView, StakeEntryView,
};
use crate::ownership::acquire;
use crate::ledger::SnapshotView;
use crate::ranking::{lead_of, stake_growth, MAX_UFURY_COUNT};
use crate::response::CoinView;

use crate::staking::with_club_total;
use crate::state::{BondView, ClubView, StakeView, Timestamp};

verus! {

/// In a ledger that keeps its invariant, what a club's record gives as its
/// total is the sum of the stakes on the club, and no other record bears the
/// club's name: the club has one owner.
pub proof fn law_one_record_per_club(ledger: LedgerView, i: int, j: int)
    requires
        ledger.wf(),
        0 <= i < ledger.clubs.len(),
        0 <= j < ledger.clubs.len(),
    ensures
        ledger.clubs[i].total_staked_amount == club_stake_total(
            ledger.stakes,
            ledger.clubs[i].club_name,
        ),
        ledger.clubs[i].club_name == ledger.clubs[j].club_name ==> i == j,
        club_position(ledger.clubs, ledger.clubs[i].club_name) == Some(i),
{
    let keys = ledger.clubs.map_values(|c: ClubView| c.club_name);
    assert forall|k: int| 0 <= k < i implies keys[k] != keys[i] by {}
    lemma_first_index(keys, ledger.clubs[i].club_name, i);
}

/// Who owns a club cannot acquire it again; whether an address can acquire a
/// club does not depend on the other clubs, so the owner of one club can
/// acquire another that has no record yet.
pub proof fn law_acquisition(
    pre: LedgerView,
    now: Timestamp,
    buyer: Seq<char>,
    seller: Seq<char>,
    club_name: Seq<char>,
    price_paid: u128,
    auto_stake: bool,
)
    ensures
        match club_position(pre.clubs, club_name) {
            Some(c) => pre.clubs[c].owner_address == buyer ==> acquire(
                pre,
                now,
                buyer,
                seller,
                club_name,
                price_paid,
                auto_stake,
            ) == Err::<LedgerView, ContractErrorView>(generic("buyer already owns this club"@)),
            None => acquire(pre, now, buyer, seller, club_name, price_paid, auto_stake) is Ok,
        },
{
}

/// What leaves a staker's bonds and what stays in them add up to what they
/// held, whatever amount is wanted and whenever.
pub proof fn law_bonds_conserved(
    bonds: Seq<BondView>,
    staker: Seq<char>,
    now: Timestamp,
    wanted: u128,
)
    ensures
        ({
            let (kept, open) = settle(latest_first(bonds), staker, now, wanted);
            open <= wanted && bonds_total(kept) + (wanted - open) == bonds_total(bonds)
        }),
{
    lemma_latest_first(bonds);
    lemma_settle_conserves(latest_first(bonds), staker, now, wanted);
}

/// The bonds of a bonder on a club are what they were last set to.
pub proof fn lemma_bonds_held_after(
    entries: Seq<BondEntryView>,
    club_name: Seq<char>,
    bonder: Seq<char>,
    bonds: Seq<BondView>,
)
    ensures
        bonds_held(with_bonds(entries, club_name, bonder, bonds), club_name, bonder) == bonds,
{
    let keys = entries.map_values(|e: BondEntryView| (e.club_name, e.bonder_address));
    let after = with_bonds(entries, club_name, bonder, bonds);
    let keys_after = after.map_values(|e: BondEntryView| (e.club_name, e.bonder_address));
    lemma_index_found(keys, (club_name, bonder));
    match bond_position(entries, club_name, bonder) {
        Some(b) => {
            assert(keys_after =~= keys);
        },
        None => {
            assert(keys_after =~= keys.push((club_name, bonder)));
            lemma_first_index(keys_after, (club_name, bonder), entries.len() as int);
        },
    }
}

/// A withdrawal that succeeds conserves what the staker's bonds on the club
/// hold: an immediate one takes exactly the amount paid out from them, a
/// deferred one adds exactly the amount withdrawn to them. A withdrawal that
/// fails leaves all bonds as they were.
pub proof fn law_withdrawal_conserves_bonds(
    pre: LedgerView,
    now: Timestamp,
    sender: Seq<char>,
    funds: Seq<CoinView>,
    staker: Seq<char>,
    club_name: Seq<char>,
    amount: u128,
    immediate: bool,
    required_ust_fees: u128,
)
    ensures
        ({
            let (post, result) = withdraw_outcome(
                pre,
                now,
                sender,
                funds,
                staker,
                club_name,
                amount,
                immediate,
                required_ust_fees,
            );
            let before = bonds_total(bonds_held(pre.bonds, club_name, staker));
            let after = bonds_total(bonds_held(post.bonds, club_name, staker));
            if result is Err {
                post.bonds == pre.bonds
            } else if immediate {
                after + amount == before
            } else {
                after == before + amount
            }
        }),
{
    let (post, result) = withdraw_outcome(
        pre,
        now,
        sender,
        funds,
        staker,
        club_name,
        amount,
        immediate,
        required_ust_fees,
    );
    let held = bonds_held(pre.bonds, club_name, staker);
    if result is Ok {
        if immediate {
            let (kept, open) = settle(latest_first(held), staker, now, amount);
            law_bonds_conserved(held, staker, now, amount);
            lemma_bonds_held_after(pre.bonds, club_name, staker, kept);
        } else {
            let bond = fresh_bond(club_name, staker, now, amount, pre.config.bonding_duration);
            lemma_bonds_held_after(pre.bonds, club_name, staker, held.push(bond));
            assert(held.push(bond).drop_last() =~= held);
        }
    }
}

/// The start of the next round moves by exactly one period on a final call
/// that finds the round's start elapsed, and stays where it is on every other
/// call, and on every call that fails.
pub proof fn law_round_start_advances(
    pre: LedgerView,
    now: Timestamp,
    sender: Seq<char>,
    stakers: Seq<Seq<char>>,
    club_name: Seq<char>,
    is_first_batch: bool,
    is_final_batch: bool,
)
    ensures
        ({
            let (post, result) = calculate_outcome(
                pre,
                now,
                sender,
                stakers,
                club_name,
                is_first_batch,
                is_final_batch,
            );
            if result is Ok && is_final_batch && pre.club_reward_next_timestamp.nanos
                < now.nanos {
                post.club_reward_next_timestamp.nanos == pre.club_reward_next_timestamp.after(
                    pre.config.reward_periodicity,
                )
            } else {
                post.club_reward_next_timestamp == pre.club_reward_next_timestamp
            }
        }),
{
}

/// Whether none of `stakes` takes part in a round at `now`.
pub open spec fn none_eligible(stakes: Seq<StakeView>, now: Timestamp) -> bool {
    forall|j: int|
        0 <= j < stakes.len() ==> (#[trigger] stakes[j]).staking_start_timestamp.nanos > now.nanos
}

/// Whether `staker` has an entry on `club_name` none of whose stakes takes
/// part in a round at `now`.
pub open spec fn settled(
    entries: Seq<StakeEntryView>,
    club_name: Seq<char>,
    staker: Seq<char>,
    now: Timestamp,
) -> bool {
    match stake_position(entries, club_name, staker) {
        Some(k) => none_eligible(entries[k].stakes, now),
        None => false,
    }
}

/// Stakes that do not take part in the round are left as they are, and
/// nothing is handed out.
pub proof fn lemma_nothing_paid(stakes: Seq<StakeView>, terms: TermsView, tally: Tally)
    requires
        none_eligible(stakes, terms.now),
    ensures
        stakes_paid(stakes, terms, tally) == Some((stakes, tally)),
    decreases stakes.len(),
{
    if stakes.len() == 0 {
    } else {
        assert forall|j: int| 0 <= j < stakes.drop_last().len() implies (
        #[trigger] stakes.drop_last()[j]).staking_start_timestamp.nanos > terms.now.nanos by {}
        lemma_nothing_paid(stakes.drop_last(), terms, tally);
    }
}

/// Once paid, no stake takes part in the round again, where the start that
/// paid stakes are moved to lies in the future.
pub proof fn lemma_paid_not_eligible(stakes: Seq<StakeView>, terms: TermsView, tally: Tally)
    requires
        terms.next_start.nanos > terms.now.nanos,
        stakes_paid(stakes, terms, tally) is Some,
    ensures
        none_eligible((stakes_paid(stakes, terms, tally)->0).0, terms.now),
        (stakes_paid(stakes, terms, tally)->0).0.len() == stakes.len(),
    decreases stakes.len(),
{
    if stakes.len() > 0 {
        lemma_paid_not_eligible(stakes.drop_last(), terms, tally);
        let (done, so_far) = stakes_paid(stakes.drop_last(), terms, tally)->0;
        let (stake, then) = stake_paid(stakes.last(), terms, so_far)->0;
        let paid = (stakes_paid(stakes, terms, tally)->0).0;
        assert forall|j: int| 0 <= j < paid.len() implies (
        #[trigger] paid[j]).staking_start_timestamp.nanos > terms.now.nanos by {}
    }
}

/// Paying a staker settles that staker, and leaves settled who was.
pub proof fn lemma_staker_settled(
    entries: Seq<StakeEntryView>,
    club_name: Seq<char>,
    staker: Seq<char>,
    other: Seq<char>,
    terms: TermsView,
    tally: Tally,
)
    requires
        terms.next_start.nanos > terms.now.nanos,
        staker_paid(entries, club_name, staker, terms, tally) is Some,
    ensures
        settled(
            (staker_paid(entries, club_name, staker, terms, tally)->0).0,
            club_name,
            staker,
            terms.now,
        ),
        settled(entries, club_name, other, terms.now) ==> settled(
            (staker_paid(entries, club_name, staker, terms, tally)->0).0,
            club_name,
            other,
            terms.now,
        ),
{
    let keys = entries.map_values(|e: StakeEntryView| (e.club_name, e.staker_address));
    let after = (staker_paid(entries, club_name, staker, terms, tally)->0).0;
    let keys_after = after.map_values(|e: StakeEntryView| (e.club_name, e.staker_address));
    lemma_index_found(keys, (club_name, staker));
    lemma_index_found(keys, (club_name, other));
    match stake_position(entries, club_name, staker) {
        None => {
            assert(keys_after =~= keys.push((club_name, staker)));
            lemma_first_index(keys_after, (club_name, staker), entries.len() as int);
            if settled(entries, club_name, other, terms.now) {
                let k = stake_position(entries, club_name, other)->0;
                lemma_first_index(keys_after, (club_name, other), k);
            }
        },
        Some(k) => {
            assert(keys_after =~= keys);
            lemma_paid_not_eligible(entries[k].stakes, terms, tally);
        },
    }
}

/// Paying the stakers listed settles all of them.
pub proof fn lemma_stakers_settled(
    entries: Seq<StakeEntryView>,
    club_name: Seq<char>,
    stakers: Seq<Seq<char>>,
    terms: TermsView,
    tally: Tally,
)
    requires
        terms.next_start.nanos > terms.now.nanos,
        stakers_paid(entries, club_name, stakers, terms, tally) is Some,
    ensures
        forall|i: int|
            0 <= i < stakers.len() ==> settled(
                (stakers_paid(entries, club_name, stakers, terms, tally)->0).0,
                club_name,
                #[trigger] stakers[i],
                terms.now,
            ),
    decreases stakers.len(),
{
    if stakers.len() > 0 {
        let rest = stakers.drop_last();
        lemma_stakers_settled(entries, club_name, rest, terms, tally);
        let (done, so_far) = stakers_paid(entries, club_name, rest, terms, tally)->0;
        let after = (stakers_paid(entries, club_name, stakers, terms, tally)->0).0;
        assert forall|i: int| 0 <= i < stakers.len() implies settled(
            after,
            club_name,
            #[trigger] stakers[i],
            terms.now,
        ) by {
            lemma_staker_settled(done, club_name, stakers.last(), stakers[i], terms, so_far);
            if i < rest.len() {
                assert(rest[i] == stakers[i]);
            }
        }
    }
}

/// Stakers that are all settled are left as they are, and nothing is handed
/// out.
pub proof fn lemma_settled_unpaid(
    entries: Seq<StakeEntryView>,
    club_name: Seq<char>,
    stakers: Seq<Seq<char>>,
    terms: TermsView,
    tally: Tally,
)
    requires
        forall|i: int|
            0 <= i < stakers.len() ==> settled(entries, club_name, #[trigger] stakers[i], terms.now),
    ensures
        stakers_paid(entries, club_name, stakers, terms, tally) == Some((entries, tally)),
    decreases stakers.len(),
{
    if stakers.len() > 0 {
        let rest = stakers.drop_last();
        assert forall|i: int| 0 <= i < rest.len() implies settled(
            entries,
            club_name,
            #[trigger] rest[i],
            terms.now,
        ) by {}
        lemma_settled_unpaid(entries, club_name, rest, terms, tally);
        let k = stake_position(entries, club_name, stakers.last())->0;
        lemma_index_found(
            entries.map_values(|e: StakeEntryView| (e.club_name, e.staker_address)),
            (club_name, stakers.last()),
        );
        lemma_nothing_paid(entries[k].stakes, terms, tally);
    }
}

/// A call of a round that is repeated for the same club and the same stakers
/// pays nothing twice: where the stakes paid were moved to a start that lies
/// in the future, a second call that is not the first of the round leaves the
/// ledger as the first call left it.
pub proof fn law_round_idempotent(
    pre: LedgerView,
    now: Timestamp,
    reward_periodicity: u64,
    saved_next_reward_timestamp: Timestamp,
    stakers: Seq<Seq<char>>,
    club_name: Seq<char>,
    total_reward: u128,
    is_first_batch: bool,
)
    requires
        next_stake_start(saved_next_reward_timestamp, reward_periodicity, now) is Some ==> now.nanos
            < next_stake_start(saved_next_reward_timestamp, reward_periodicity, now)->0.nanos,
    ensures
        match distribute_outcome(
            pre,
            now,
            reward_periodicity,
            saved_next_reward_timestamp,
            stakers,
            club_name,
            total_reward,
            is_first_batch,
            false,
        ) {
            Ok(once) => distribute_outcome(
                once,
                now,
                reward_periodicity,
                saved_next_reward_timestamp,
                stakers,
                club_name,
                total_reward,
                false,
                false,
            ) == Ok::<LedgerView, ContractErrorView>(once),
            Err(_) => true,
        },
{
    let first = distribute_outcome(
        pre,
        now,
        reward_periodicity,
        saved_next_reward_timestamp,
        stakers,
        club_name,
        total_reward,
        is_first_batch,
        false,
    );
    if first is Ok {
        let once = first->Ok_0;
        let round = once.winning_club_details;
        let start = next_stake_start(saved_next_reward_timestamp, reward_periodicity, now)->0;
        let c = club_position(pre.clubs, club_name)->0;
        let terms = crate::distribution::round_terms(
            round,
            club_name,
            pre.clubs[c].owner_address,
            now,
            start,
            total_reward,
        );
        let none = Tally { given: 0, added: 0 };
        lemma_index_found(pre.clubs.map_values(|c: ClubView| c.club_name), club_name);
        assert(once.clubs.map_values(|c: ClubView| c.club_name) =~= pre.clubs.map_values(
            |c: ClubView| c.club_name,
        ));
        lemma_stakers_settled(pre.stakes, club_name, stakers, terms, none);
        lemma_settled_unpaid(once.stakes, club_name, stakers, terms, none);
        assert(with_club_total(once, c, 0) =~= once.clubs);
    }
}

/// The same for the call as the administrator makes it: a call that is not
/// the final one of its round, made while the round's start has elapsed and
/// the start after it has not, can be repeated for the same club and the same
/// stakers without changing the ledger again.
pub proof fn law_repeated_call_pays_nothing(
    pre: LedgerView,
    now: Timestamp,
    sender: Seq<char>,
    stakers: Seq<Seq<char>>,
    club_name: Seq<char>,
    is_first_batch: bool,
)
    requires
        pre.club_reward_next_timestamp.nanos < now.nanos,
        now.nanos < pre.club_reward_next_timestamp.after(pre.config.reward_periodicity),
    ensures
        ({
            let (once, result) = calculate_outcome(
                pre,
                now,
                sender,
                stakers,
                club_name,
                is_first_batch,
                false,
            );
            result is Ok ==> calculate_outcome(
                once,
                now,
                sender,
                stakers,
                club_name,
                false,
                false,
            ).0 == once
        }),
{
    let (once, result) = calculate_outcome(
        pre,
        now,
        sender,
        stakers,
        club_name,
        is_first_batch,
        false,
    );
    if result is Ok && pre.reward != 0 {
        law_round_idempotent(
            pre,
            now,
            pre.config.reward_periodicity,
            pre.club_reward_next_timestamp,
            stakers,
            club_name,
            pre.reward,
            is_first_batch,
        );
    }
}

/// The winners of a ranking are the clubs that grew most since the last
/// ranking and, among those, have most staked: no club grew more than the
/// lead or as much with a larger stake, and a club is a winner exactly if it
/// has the lead's growth and stake.
pub proof fn law_winners_grew_most(clubs: Seq<ClubView>, snapshot: Seq<SnapshotView>)
    ensures
        lead_of(clubs, snapshot).growth >= -(MAX_UFURY_COUNT as int),
        forall|i: int|
            0 <= i < clubs.len() ==> !(stake_growth(snapshot, #[trigger] clubs[i]) > lead_of(
                clubs,
                snapshot,
            ).growth || (stake_growth(snapshot, clubs[i]) == lead_of(clubs, snapshot).growth
                && clubs[i].total_staked_amount > lead_of(clubs, snapshot).stake)),
        forall|name: Seq<char>| #[trigger]
            lead_of(clubs, snapshot).winners.contains(name) <==> exists|i: int|
                0 <= i < clubs.len() && (#[trigger] clubs[i]).club_name == name && stake_growth(
                    snapshot,
                    clubs[i],
                ) == lead_of(clubs, snapshot).growth && clubs[i].total_staked_amount == lead_of(
                    clubs,
                    snapshot,
                ).stake,
    decreases clubs.len(),
{
    let lead = lead_of(clubs, snapshot);
    if clubs.len() == 0 {
        assert forall|name: Seq<char>| !(#[trigger] lead.winners.contains(name)) by {}
    } else {
        let rest = clubs.drop_last();
        let last = clubs.last();
        let before = lead_of(rest, snapshot);
        let growth = stake_growth(snapshot, last);
        law_winners_grew_most(rest, snapshot);
        assert forall|i: int| 0 <= i < clubs.len() implies !(stake_growth(
            snapshot,
            #[trigger] clubs[i],
        ) > lead.growth || (stake_growth(snapshot, clubs[i]) == lead.growth
            && clubs[i].total_staked_amount > lead.stake)) by {
            if i < rest.len() {
                assert(rest[i] == clubs[i]);
            }
        }
        assert forall|name: Seq<char>| #[trigger]
            lead.winners.contains(name) <==> exists|i: int|
                0 <= i < clubs.len() && (#[trigger] clubs[i]).club_name == name && stake_growth(
                    snapshot,
                    clubs[i],
                ) == lead.growth && clubs[i].total_staked_amount == lead.stake by {
            let takes = growth > before.growth || (growth == before.growth
                && last.total_staked_amount > before.stake);
            let shares = growth == before.growth && last.total_staked_amount == before.stake;
            if lead.winners.contains(name) {
                if takes {
                } else if shares {
                    let w = choose|w: int| 0 <= w < lead.winners.len() && lead.winners[w] == name;
                    if w < before.winners.len() {
                        assert(before.winners.contains(name));
                        let i = choose|i: int|
                            0 <= i < rest.len() && (#[trigger] rest[i]).club_name == name
                                && stake_growth(snapshot, rest[i]) == before.growth
                                && rest[i].total_staked_amount == before.stake;
                    } else {
                    }
                } else {
                    let i = choose|i: int|
                        0 <= i < rest.len() && (#[trigger] rest[i]).club_name == name
                            && stake_growth(snapshot, rest[i]) == before.growth
                            && rest[i].total_staked_amount == before.stake;
                }
            }
            if exists|i: int|
                0 <= i < clubs.len() && (#[trigger] clubs[i]).club_name == name && stake_growth(
                    snapshot,
                    clubs[i],
                ) == lead.growth && clubs[i].total_staked_amount == lead.stake {
                let i = choose|i: int|
                    0 <= i < clubs.len() && (#[trigger] clubs[i]).club_name == name
                        && stake_growth(snapshot, clubs[i]) == lead.growth
                        && clubs[i].total_staked_amount == lead.stake;
                if i == clubs.len() - 1 {
                    if takes {
                        assert(lead.winners[0] == name);
                    } else {
                        assert(lead.winners[before.winners.len() as int] == name);
                    }
                } else {
                    assert(rest[i] == clubs[i]);
                    assert(before.winners.contains(name));
                    let w = choose|w: int|
                        0 <= w < before.winners.len() && before.winners[w] == name;
                    if shares {
                        assert(lead.winners[w] == name);
                    }
                }
            }
        }
    }
}

} // verus!
