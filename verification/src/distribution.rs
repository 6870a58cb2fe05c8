//! Reward rounds: what a stake earns, and the calls that distribute the
//! reward pool club by club.

use vstd::prelude::*;
use crate::error::{generic, generic_err, overflow, overflow_err, ContractError, ContractErrorView};
use crate::ledger::{
    club_position, club_stake_total, find_club, find_stake_entry, lemma_club_total_push,
    lemma_club_total_update, lemma_wf_after_stake_change, stake_entries_view, stake_position,
    stakes_total, stakes_view, Ledger, LedgerView, StakeEntry, StakeEntryView,
};
use crate::ranking::{get_winning_clubs_details, is_winning_club, ranking, stakes_recorded};
use crate::response::{
    empty_response, result_view, time_attr, text_attr, Env, MessageInfo, Response, ResponseView,
};
use crate::staking::with_club_total;
use crate::state::{
    duplicate_names, names_view, ClubStakingDetails, StakeView, Timestamp, WinningView,
};

verus! {

/// The product of two amounts; nothing where it leaves their range.
pub open spec fn mul_or_zero(a: u128, b: u128) -> u128 {
    if a * b > u128::MAX {
        0
    } else {
        (a * b) as u128
    }
}

/// The quotient of two amounts, truncated; nothing where the divisor is nothing.
pub open spec fn div_or_zero(a: u128, b: u128) -> u128 {
    if b == 0 {
        0
    } else {
        a / b
    }
}

/// `percent` hundredths of `total`, truncated.
pub open spec fn percent_of(total: u128, percent: u128) -> u128 {
    div_or_zero(mul_or_zero(total, percent), 100)
}

/// The share of `pool` that falls to `stake` out of `total_stake`, truncated.
pub open spec fn share_of(pool: u128, stake: u128, total_stake: u128) -> u128 {
    div_or_zero(mul_or_zero(pool, stake), total_stake)
}

/// The product of two amounts; nothing where it leaves their range.
pub fn mul_or_default(a: u128, b: u128) -> (r: u128)
    ensures
        r == mul_or_zero(a, b),
{
    match a.checked_mul(b) {
        Some(p) => p,
        None => 0,
    }
}

/// The quotient of two amounts, truncated; nothing where the divisor is nothing.
pub fn div_or_default(a: u128, b: u128) -> (r: u128)
    ensures
        r == div_or_zero(a, b),
{
    if b == 0 {
        0
    } else {
        a / b
    }
}

/// What one call of a round's distribution pays by: the pools, the totals
/// they are shared by, and the start that a paid stake is moved to.
#[derive(Debug, PartialEq)]
pub struct RoundTerms {
    pub now: Timestamp,
    /// The start that a stake gets once it has been paid.
    pub next_start: Timestamp,
    /// What all stakers of all clubs share by their stakes.
    pub all_stakers_reward: u128,
    /// What the stakers of the club share by their stakes because it won.
    pub winners_reward: u128,
    /// What the owner of the club gets on top.
    pub owner_reward: u128,
    pub total_stake_across_all_clubs: u128,
    pub total_stake_in_winning_club: u128,
    pub owner_address: String,
}

/// What `RoundTerms` holds, as values.
pub struct TermsView {
    pub now: Timestamp,
    pub next_start: Timestamp,
    pub all_stakers_reward: u128,
    pub winners_reward: u128,
    pub owner_reward: u128,
    pub total_stake_across_all_clubs: u128,
    pub total_stake_in_winning_club: u128,
    pub owner_address: Seq<char>,
}

impl View for RoundTerms {
    type V = TermsView;

    open spec fn view(&self) -> TermsView {
        TermsView {
            now: self.now,
            next_start: self.next_start,
            all_stakers_reward: self.all_stakers_reward,
            winners_reward: self.winners_reward,
            owner_reward: self.owner_reward,
            total_stake_across_all_clubs: self.total_stake_across_all_clubs,
            total_stake_in_winning_club: self.total_stake_in_winning_club,
            owner_address: self.owner_address@,
        }
    }
}

/// What one call has handed out so far, and how much of it went into stakes.
#[derive(Clone, Copy, Debug, PartialEq, Eq, Structural)]
pub struct Tally {
    pub given: u128,
    pub added: u128,
}

/// Whether a stake takes part in the round: its start is not in the future.
pub open spec fn eligible(stake: StakeView, terms: TermsView) -> bool {
    stake.staking_start_timestamp.nanos <= terms.now.nanos
}

/// The reward of a stake: its share of what all stakers get, its share of
/// what the stakers of a winning club get, and the owner's reward where the
/// staker owns the club.
pub open spec fn reward_for(stake: StakeView, terms: TermsView) -> int {
    share_of(terms.all_stakers_reward, stake.staked_amount, terms.total_stake_across_all_clubs)
        + share_of(terms.winners_reward, stake.staked_amount, terms.total_stake_in_winning_club)
        + (if stake.staker_address == terms.owner_address {
        terms.owner_reward as int
    } else {
        0
    })
}

/// What compounding adds to a stake that is paid: its reward and the reward
/// it had accrued before; nothing for a stake that does not compound.
pub open spec fn compounded(stake: StakeView, terms: TermsView) -> int {
    if stake.auto_stake {
        reward_for(stake, terms) + stake.reward_amount
    } else {
        0
    }
}

/// A stake after the round, and the tally with its reward. `None` where an
/// amount leaves its range.
///
/// A stake that is not eligible stays as it is. An eligible one is moved to
/// the next start; its reward is folded into it together with what it had
/// accrued, where it compounds, and accrues otherwise.
pub open spec fn stake_paid(stake: StakeView, terms: TermsView, tally: Tally) -> Option<
    (StakeView, Tally),
> {
    if !eligible(stake, terms) {
        Some((stake, tally))
    } else {
        let reward = reward_for(stake, terms);
        let more = compounded(stake, terms);
        if reward > u128::MAX || tally.given + reward > u128::MAX || tally.added + more
            > u128::MAX || stake.staked_amount + more > u128::MAX || stake.reward_amount + reward
            > u128::MAX {
            None
        } else {
            Some(
                (
                    StakeView {
                        staking_start_timestamp: terms.next_start,
                        staked_amount: (stake.staked_amount + more) as u128,
                        reward_amount: if stake.auto_stake {
                            0
                        } else {
                            (stake.reward_amount + reward) as u128
                        },
                        ..stake
                    },
                    Tally {
                        given: (tally.given + reward) as u128,
                        added: (tally.added + more) as u128,
                    },
                ),
            )
        }
    }
}

/// The stakes after the round, paid in their order.
pub open spec fn stakes_paid(stakes: Seq<StakeView>, terms: TermsView, tally: Tally) -> Option<
    (Seq<StakeView>, Tally),
>
    decreases stakes.len(),
{
    if stakes.len() == 0 {
        Some((Seq::empty(), tally))
    } else {
        match stakes_paid(stakes.drop_last(), terms, tally) {
            None => None,
            Some((done, so_far)) => match stake_paid(stakes.last(), terms, so_far) {
                None => None,
                Some((stake, then)) => Some((done.push(stake), then)),
            },
        }
    }
}

/// The stake entries after the stakes of `staker` on `club_name` have been
/// paid. A staker without an entry gets one without stakes.
pub open spec fn staker_paid(
    entries: Seq<StakeEntryView>,
    club_name: Seq<char>,
    staker: Seq<char>,
    terms: TermsView,
    tally: Tally,
) -> Option<(Seq<StakeEntryView>, Tally)> {
    match stake_position(entries, club_name, staker) {
        None => Some(
            (
                entries.push(
                    StakeEntryView { club_name, staker_address: staker, stakes: Seq::empty() },
                ),
                tally,
            ),
        ),
        Some(k) => match stakes_paid(entries[k].stakes, terms, tally) {
            None => None,
            Some((stakes, then)) => Some(
                (entries.update(k, (StakeEntryView { stakes, ..entries[k] })), then),
            ),
        },
    }
}

/// The stake entries after the stakers listed have been paid in their order.
pub open spec fn stakers_paid(
    entries: Seq<StakeEntryView>,
    club_name: Seq<char>,
    stakers: Seq<Seq<char>>,
    terms: TermsView,
    tally: Tally,
) -> Option<(Seq<StakeEntryView>, Tally)>
    decreases stakers.len(),
{
    if stakers.len() == 0 {
        Some((entries, tally))
    } else {
        match stakers_paid(entries, club_name, stakers.drop_last(), terms, tally) {
            None => None,
            Some((done, so_far)) => staker_paid(done, club_name, stakers.last(), terms, so_far),
        }
    }
}

/// Pays one stake its reward of the round.
pub(crate) fn pay_stake(stake: &mut ClubStakingDetails, terms: &RoundTerms, tally: &mut Tally) -> (ok:
    bool)
    ensures
        match stake_paid(old(stake)@, terms@, *old(tally)) {
            Some((paid, then)) => ok && final(stake)@ == paid && *final(tally) == then
                && final(stake).staked_amount - old(stake).staked_amount == then.added - old(tally).added,
            None => !ok,
        },
{
    if stake.staking_start_timestamp.nanos > terms.now.nanos {
        return true;
    }
    let general: u128 = div_or_default(
        mul_or_default(terms.all_stakers_reward, stake.staked_amount),
        terms.total_stake_across_all_clubs,
    );
    let winning: u128 = div_or_default(
        mul_or_default(terms.winners_reward, stake.staked_amount),
        terms.total_stake_in_winning_club,
    );
    let owner: u128 = if stake.staker_address == terms.owner_address {
        terms.owner_reward
    } else {
        0
    };
    let reward: u128 = match general.checked_add(winning) {
        None => {
            return false;
        },
        Some(sum) => match sum.checked_add(owner) {
            None => {
                return false;
            },
            Some(sum) => sum,
        },
    };
    let given: u128 = match tally.given.checked_add(reward) {
        None => {
            return false;
        },
        Some(g) => g,
    };
    let accrued: u128 = match stake.reward_amount.checked_add(reward) {
        None => {
            return false;
        },
        Some(a) => a,
    };
    if stake.auto_stake {
        let added: u128 = match tally.added.checked_add(accrued) {
            None => {
                return false;
            },
            Some(a) => a,
        };
        let staked: u128 = match stake.staked_amount.checked_add(accrued) {
            None => {
                return false;
            },
            Some(s) => s,
        };
        stake.staked_amount = staked;
        stake.reward_amount = 0;
        tally.added = added;
    } else {
        stake.reward_amount = accrued;
    }
    stake.staking_start_timestamp = terms.next_start;
    tally.given = given;
    true
}

/// Paying the stakes one more at a time pays them all.
pub proof fn lemma_stakes_paid_step(stakes: Seq<StakeView>, i: int, terms: TermsView, tally: Tally)
    requires
        0 <= i < stakes.len(),
    ensures
        stakes_paid(stakes.take(i + 1), terms, tally) == (match stakes_paid(
            stakes.take(i),
            terms,
            tally,
        ) {
            None => None,
            Some((done, so_far)) => match stake_paid(stakes[i], terms, so_far) {
                None => None,
                Some((stake, then)) => Some((done.push(stake), then)),
            },
        }),
{
    assert(stakes.take(i + 1).drop_last() =~= stakes.take(i));
}

/// Stakes that cannot be paid in part cannot be paid in whole.
pub proof fn lemma_stakes_paid_none(stakes: Seq<StakeView>, i: int, terms: TermsView, tally: Tally)
    requires
        0 <= i <= stakes.len(),
        stakes_paid(stakes.take(i), terms, tally) is None,
    ensures
        stakes_paid(stakes, terms, tally) is None,
    decreases stakes.len() - i,
{
    if i == stakes.len() {
        assert(stakes.take(i) =~= stakes);
    } else {
        lemma_stakes_paid_step(stakes, i, terms, tally);
        lemma_stakes_paid_none(stakes, i + 1, terms, tally);
    }
}

/// Pays a list of stakes their rewards of the round, in their order.
pub(crate) fn pay_stakes(stakes: &mut Vec<ClubStakingDetails>, terms: &RoundTerms, tally: &mut Tally) -> (ok:
    bool)
    ensures
        match stakes_paid(stakes_view(old(stakes)@), terms@, *old(tally)) {
            Some((paid, then)) => ok && stakes_view(final(stakes)@) == paid && *final(tally)
                == then && stakes_total(paid) - stakes_total(stakes_view(old(stakes)@))
                == then.added - old(tally).added,
            None => !ok,
        },
{
    let ghost before = stakes_view(stakes@);
    let ghost start = *tally;
    let mut i: usize = 0;
    while i < stakes.len()
        invariant
            i <= stakes.len(),
            before == stakes_view(old(stakes)@),
            start == *old(tally),
            stakes.len() == before.len(),
            forall|j: int| i <= j < stakes.len() ==> (#[trigger] stakes[j])@ == before[j],
            stakes_paid(before.take(i as int), terms@, start) == Some(
                (stakes_view(stakes@).take(i as int), *tally),
            ),
            stakes_total(stakes_view(stakes@).take(i as int)) - stakes_total(
                before.take(i as int),
            ) == tally.added - start.added,
        decreases stakes.len() - i,
    {
        let ghost done = stakes_view(stakes@).take(i as int);
        proof {
            lemma_stakes_paid_step(before, i as int, terms@, start);
        }
        let ok = pay_stake(&mut stakes[i], terms, tally);
        if !ok {
            proof {
                lemma_stakes_paid_none(before, i as int + 1, terms@, start);
            }
            return false;
        }
        proof {
            let after = stakes_view(stakes@);
            assert(after.take(i as int + 1).drop_last() =~= done);
            assert(before.take(i as int + 1).drop_last() =~= before.take(i as int));
        }
        i += 1;
    }
    proof {
        assert(before.take(i as int) =~= before);
    }
    true
}

/// Pays the stakes of `staker` on `club_name` their rewards of the round.
pub(crate) fn pay_staker(
    entries: &mut Vec<StakeEntry>,
    club_name: &String,
    staker: &String,
    terms: &RoundTerms,
    tally: &mut Tally,
) -> (ok: bool)
    ensures
        match staker_paid(
            stake_entries_view(old(entries)@),
            club_name@,
            staker@,
            terms@,
            *old(tally),
        ) {
            Some((paid, then)) => ok && stake_entries_view(final(entries)@) == paid && *final(tally) == then && paid.len() >= old(entries).len() && (forall|name: Seq<char>| #[trigger]
                club_stake_total(paid, name) == club_stake_total(
                    stake_entries_view(old(entries)@),
                    name,
                ) + (if name == club_name@ {
                    then.added - old(tally).added
                } else {
                    0
                })) && (forall|k: int|
                0 <= k < paid.len() ==> (#[trigger] paid[k]).club_name == (if k < old(entries).len() {
                    stake_entries_view(old(entries)@)[k].club_name
                } else {
                    club_name@
                })),
            None => !ok,
        },
{
    let ghost before = stake_entries_view(entries@);
    let ghost start = *tally;
    match find_stake_entry(entries, club_name, staker) {
        None => {
            let entry = StakeEntry {
                club_name: club_name.clone(),
                staker_address: staker.clone(),
                stakes: Vec::new(),
            };
            assert(entry@.stakes =~= Seq::<StakeView>::empty());
            entries.push(entry);
            proof {
                let paid = stake_entries_view(entries@);
                assert(paid =~= before.push(entry@));
                assert forall|name: Seq<char>| #[trigger]
                    club_stake_total(paid, name) == club_stake_total(before, name) by {
                    lemma_club_total_push(before, entry@, name);
                }
            }
            true
        },
        Some(k) => {
            let ok = pay_stakes(&mut entries[k].stakes, terms, tally);
            if !ok {
                return false;
            }
            proof {
                let paid = stake_entries_view(entries@);
                let entry = StakeEntryView { stakes: paid[k as int].stakes, ..before[k as int] };
                assert(paid =~= before.update(k as int, entry));
                assert forall|name: Seq<char>| #[trigger]
                    club_stake_total(paid, name) == club_stake_total(before, name) + (if name
                        == club_name@ {
                        tally.added - start.added
                    } else {
                        0
                    }) by {
                    lemma_club_total_update(before, k as int, entry, name);
                }
            }
            true
        },
    }
}

/// Paying the stakers one more at a time pays them all.
pub proof fn lemma_stakers_paid_step(
    entries: Seq<StakeEntryView>,
    club_name: Seq<char>,
    stakers: Seq<Seq<char>>,
    i: int,
    terms: TermsView,
    tally: Tally,
)
    requires
        0 <= i < stakers.len(),
    ensures
        stakers_paid(entries, club_name, stakers.take(i + 1), terms, tally) == (match stakers_paid(
            entries,
            club_name,
            stakers.take(i),
            terms,
            tally,
        ) {
            None => None,
            Some((done, so_far)) => staker_paid(done, club_name, stakers[i], terms, so_far),
        }),
{
    assert(stakers.take(i + 1).drop_last() =~= stakers.take(i));
}

/// Stakers that cannot be paid in part cannot be paid in whole.
pub proof fn lemma_stakers_paid_none(
    entries: Seq<StakeEntryView>,
    club_name: Seq<char>,
    stakers: Seq<Seq<char>>,
    i: int,
    terms: TermsView,
    tally: Tally,
)
    requires
        0 <= i <= stakers.len(),
        stakers_paid(entries, club_name, stakers.take(i), terms, tally) is None,
    ensures
        stakers_paid(entries, club_name, stakers, terms, tally) is None,
    decreases stakers.len() - i,
{
    if i == stakers.len() {
        assert(stakers.take(i) =~= stakers);
    } else {
        lemma_stakers_paid_step(entries, club_name, stakers, i, terms, tally);
        lemma_stakers_paid_none(entries, club_name, stakers, i + 1, terms, tally);
    }
}

/// Pays the stakes of the stakers listed on `club_name` their rewards of the
/// round, in the order of the list.
pub(crate) fn pay_stakers(
    entries: &mut Vec<StakeEntry>,
    club_name: &String,
    staker_list: &Vec<String>,
    terms: &RoundTerms,
) -> (r: Option<Tally>)
    ensures
        match stakers_paid(
            stake_entries_view(old(entries)@),
            club_name@,
            names_view(staker_list@),
            terms@,
            Tally { given: 0, added: 0 },
        ) {
            Some((paid, then)) => r == Some(then) && stake_entries_view(final(entries)@) == paid
                && paid.len() >= old(entries).len() && (forall|name: Seq<char>| #[trigger]
                club_stake_total(paid, name) == club_stake_total(
                    stake_entries_view(old(entries)@),
                    name,
                ) + (if name == club_name@ {
                    then.added as int
                } else {
                    0
                })) && (forall|k: int|
                0 <= k < paid.len() ==> (#[trigger] paid[k]).club_name == (if k < old(entries).len() {
                    stake_entries_view(old(entries)@)[k].club_name
                } else {
                    club_name@
                })),
            None => r is None,
        },
{
    let ghost before = stake_entries_view(entries@);
    let ghost stakers = names_view(staker_list@);
    let ghost start = Tally { given: 0, added: 0 };
    let mut tally = Tally { given: 0, added: 0 };
    let mut i: usize = 0;
    while i < staker_list.len()
        invariant
            i <= staker_list.len(),
            stakers == names_view(staker_list@),
            before == stake_entries_view(old(entries)@),
            start == (Tally { given: 0, added: 0 }),
            stakers_paid(before, club_name@, stakers.take(i as int), terms@, start) == Some(
                (stake_entries_view(entries@), tally),
            ),
            entries.len() >= before.len(),
            forall|name: Seq<char>| #[trigger]
                club_stake_total(stake_entries_view(entries@), name) == club_stake_total(
                    before,
                    name,
                ) + (if name == club_name@ {
                    tally.added as int
                } else {
                    0
                }),
            forall|k: int|
                0 <= k < entries.len() ==> (#[trigger] stake_entries_view(entries@)[k]).club_name
                    == (if k < before.len() {
                    before[k].club_name
                } else {
                    club_name@
                }),
        decreases staker_list.len() - i,
    {
        proof {
            lemma_stakers_paid_step(before, club_name@, stakers, i as int, terms@, start);
        }
        let ok = pay_staker(entries, club_name, &staker_list[i], terms, &mut tally);
        if !ok {
            proof {
                lemma_stakers_paid_none(before, club_name@, stakers, i as int + 1, terms@, start);
            }
            return None;
        }
        i += 1;
    }
    proof {
        assert(stakers.take(i as int) =~= stakers);
    }
    Some(tally)
}

/// The start that a stake gets once it has been paid: the next round's
/// boundary. `None` where that leaves the range of a timestamp.
pub open spec fn next_stake_start(
    saved_next_reward_timestamp: Timestamp,
    reward_periodicity: u64,
    now: Timestamp,
) -> Option<Timestamp> {
    if saved_next_reward_timestamp.nanos < now.nanos {
        if saved_next_reward_timestamp.after(reward_periodicity) <= u64::MAX {
            Some(
                Timestamp { nanos: saved_next_reward_timestamp.after(reward_periodicity) as u64 },
            )
        } else {
            None
        }
    } else {
        Some(saved_next_reward_timestamp)
    }
}

/// How many clubs of the round did not win.
pub open spec fn other_clubs(round: WinningView) -> int {
    round.total_number_of_clubs - round.winner_list.len()
}

/// What a call for `club_name` pays by.
///
/// All stakers share 78% of the reward. The stakers of a winning club share
/// 19% of it, split evenly among the winners. The owner of a winning club
/// gets 1% of it split evenly among the winners, or 3% where every club won;
/// the owner of another club gets 2% of it split evenly among those clubs.
pub open spec fn round_terms(
    round: WinningView,
    club_name: Seq<char>,
    owner_address: Seq<char>,
    now: Timestamp,
    next_start: Timestamp,
    total_reward: u128,
) -> TermsView {
    let winners = round.winner_list.len() as u128;
    let others = other_clubs(round) as u128;
    let is_winner = round.winner_list.contains(club_name);
    TermsView {
        now,
        next_start,
        all_stakers_reward: percent_of(total_reward, 78),
        winners_reward: if is_winner {
            div_or_zero(percent_of(total_reward, 19), winners)
        } else {
            0
        },
        owner_reward: if is_winner {
            if others > 0 {
                div_or_zero(percent_of(total_reward, 1), winners)
            } else {
                div_or_zero(percent_of(total_reward, 3), winners)
            }
        } else {
            div_or_zero(percent_of(total_reward, 2), others)
        },
        total_stake_across_all_clubs: round.total_stake_across_all_clubs,
        total_stake_in_winning_club: round.total_stake_in_winning_club,
        owner_address,
    }
}

/// What is left of the reward once `given` of it has been handed out.
pub open spec fn reward_left(total_reward: u128, given: u128) -> u128 {
    if total_reward > given {
        (total_reward - given) as u128
    } else {
        0
    }
}

/// What one call of a round's distribution does to the ledger.
///
/// The first call of a round ranks the clubs and remembers the ranking and
/// the clubs' stakes; a later call goes by the ranking remembered. The stakes
/// of the stakers listed on the club are paid, the club's total grows by what
/// went into stakes, and what was handed out is counted. The final call of a
/// round leaves in the pool what the round did not hand out, and starts the
/// count anew. On an error the ledger stays as it was.
pub open spec fn distribute_outcome(
    pre: LedgerView,
    now: Timestamp,
    reward_periodicity: u64,
    saved_next_reward_timestamp: Timestamp,
    stakers: Seq<Seq<char>>,
    club_name: Seq<char>,
    total_reward: u128,
    is_first_batch: bool,
    is_final_batch: bool,
) -> Result<LedgerView, ContractErrorView> {
    let round = if is_first_batch {
        ranking(pre.clubs, pre.staking_snapshot)
    } else {
        Some(pre.winning_club_details)
    };
    let start = next_stake_start(saved_next_reward_timestamp, reward_periodicity, now);
    if round is None {
        Err(overflow())
    } else if club_position(pre.clubs, club_name) is None {
        Err(generic("No ownership details found"@))
    } else if other_clubs(round->0) < 0 {
        Err(overflow())
    } else if !round->0.winner_list.contains(club_name) && other_clubs(round->0) == 0 {
        Err(generic("computation error - should never happen"@))
    } else if start is None {
        Err(overflow())
    } else {
        let c = club_position(pre.clubs, club_name)->0;
        let terms = round_terms(
            round->0,
            club_name,
            pre.clubs[c].owner_address,
            now,
            start->0,
            total_reward,
        );
        match stakers_paid(pre.stakes, club_name, stakers, terms, Tally { given: 0, added: 0 }) {
            None => Err(overflow()),
            Some((stakes, tally)) => {
                let given = pre.reward_given_in_current_timestamp + tally.given;
                if pre.clubs[c].total_staked_amount + tally.added > u128::MAX || given
                    > u128::MAX {
                    Err(overflow())
                } else {
                    Ok(
                        LedgerView {
                            clubs: with_club_total(pre, c, tally.added as int),
                            stakes,
                            staking_snapshot: if is_first_batch {
                                stakes_recorded(pre.clubs)
                            } else {
                                pre.staking_snapshot
                            },
                            winning_club_details: round->0,
                            reward: if is_final_batch {
                                reward_left(total_reward, given as u128)
                            } else {
                                pre.reward
                            },
                            reward_given_in_current_timestamp: if is_final_batch {
                                0
                            } else {
                                given as u128
                            },
                            ..pre
                        },
                    )
                }
            },
        }
    }
}

/// Pays the stakers listed their share of the round's reward for the club.
pub fn distribute_reward_to_club_stakers(
    ledger: &mut Ledger,
    env: &Env,
    reward_periodicity: u64,
    saved_next_reward_timestamp: Timestamp,
    staker_list: Vec<String>,
    club_name: String,
    total_reward: u128,
    is_first_batch: bool,
    is_final_batch: bool,
) -> (r: Result<Response, ContractError>)
    ensures
        match distribute_outcome(
            old(ledger)@,
            env.block_time,
            reward_periodicity,
            saved_next_reward_timestamp,
            names_view(staker_list@),
            club_name@,
            total_reward,
            is_first_batch,
            is_final_batch,
        ) {
            Ok(post) => final(ledger)@ == post && result_view(r) == Ok::<
                ResponseView,
                ContractErrorView,
            >(empty_response()),
            Err(e) => final(ledger)@ == old(ledger)@ && result_view(r) == Err::<
                ResponseView,
                ContractErrorView,
            >(e),
        },
        old(ledger)@.wf() ==> final(ledger)@.wf(),
{
    let ghost pre = ledger@;
    let now = env.block_time;
    let (round, recorded) = if is_first_batch {
        match get_winning_clubs_details(&ledger.clubs, &ledger.staking_snapshot) {
            Err(e) => {
                return Err(e);
            },
            Ok((round, recorded)) => (round, Some(recorded)),
        }
    } else {
        (ledger.winning_club_details.duplicate(), None)
    };
    let c = match find_club(&ledger.clubs, &club_name) {
        None => {
            return Err(generic_err("No ownership details found"));
        },
        Some(c) => c,
    };
    let winners: u64 = round.winner_list.len() as u64;
    if round.total_number_of_clubs < winners {
        return Err(overflow_err());
    }
    let others: u64 = round.total_number_of_clubs - winners;
    let is_winner = is_winning_club(club_name.clone(), duplicate_names(&round.winner_list));
    if !is_winner && others == 0 {
        return Err(generic_err("computation error - should never happen"));
    }
    let next_start: Timestamp = if saved_next_reward_timestamp.nanos < now.nanos {
        match saved_next_reward_timestamp.checked_plus_seconds(reward_periodicity) {
            None => {
                return Err(overflow_err());
            },
            Some(t) => t,
        }
    } else {
        saved_next_reward_timestamp
    };
    let owner_reward: u128 = if is_winner {
        if others > 0 {
            div_or_default(
                div_or_default(mul_or_default(total_reward, 1), 100),
                winners as u128,
            )
        } else {
            div_or_default(
                div_or_default(mul_or_default(total_reward, 3), 100),
                winners as u128,
            )
        }
    } else {
        div_or_default(div_or_default(mul_or_default(total_reward, 2), 100), others as u128)
    };
    let winners_reward: u128 = if is_winner {
        div_or_default(div_or_default(mul_or_default(total_reward, 19), 100), winners as u128)
    } else {
        0
    };
    let terms = RoundTerms {
        now,
        next_start,
        all_stakers_reward: div_or_default(mul_or_default(total_reward, 78), 100),
        winners_reward,
        owner_reward,
        total_stake_across_all_clubs: round.total_stake_across_all_clubs,
        total_stake_in_winning_club: round.total_stake_in_winning_club,
        owner_address: ledger.clubs[c].owner_address.clone(),
    };
    let mut stakes = crate::ledger::duplicate_stake_entries(&ledger.stakes);
    let tally = match pay_stakers(&mut stakes, &club_name, &staker_list, &terms) {
        None => {
            return Err(overflow_err());
        },
        Some(tally) => tally,
    };
    let given: u128 = match ledger.reward_given_in_current_timestamp.checked_add(tally.given) {
        None => {
            return Err(overflow_err());
        },
        Some(g) => g,
    };
    let total: u128 = match ledger.clubs[c].total_staked_amount.checked_add(tally.added) {
        None => {
            return Err(overflow_err());
        },
        Some(t) => t,
    };
    ledger.stakes = stakes;
    ledger.clubs[c].total_staked_amount = total;
    ledger.winning_club_details = round;
    match recorded {
        Some(recorded) => {
            ledger.staking_snapshot = recorded;
        },
        None => {},
    }
    if is_final_batch {
        ledger.reward = if total_reward > given {
            total_reward - given
        } else {
            0
        };
        ledger.reward_given_in_current_timestamp = 0;
    } else {
        ledger.reward_given_in_current_timestamp = given;
    }
    proof {
        assert(ledger@.clubs =~= with_club_total(pre, c as int, tally.added as int));
        if pre.wf() {
            assert forall|k: int| 0 <= k < ledger@.stakes.len() implies (#[trigger] club_position(
                pre.clubs,
                ledger@.stakes[k].club_name,
            )) is Some by {}
            lemma_wf_after_stake_change(pre, ledger@, c as int, tally.added as int);
        }
    }
    Ok(Response::new())
}

/// From when on the round after this call may run: one period later once a
/// final call finds the round's start elapsed, else as before. `None` where
/// that leaves the range of a timestamp.
pub open spec fn next_round_start(
    next_reward_time: Timestamp,
    reward_periodicity: u64,
    now: Timestamp,
    is_final_batch: bool,
) -> Option<Timestamp> {
    if is_final_batch && next_reward_time.nanos < now.nanos {
        if next_reward_time.after(reward_periodicity) <= u64::MAX {
            Some(Timestamp { nanos: next_reward_time.after(reward_periodicity) as u64 })
        } else {
            None
        }
    } else {
        Some(next_reward_time)
    }
}

/// What a call reports that found no reward to distribute.
pub open spec fn no_rewards_response(next_reward_time: Timestamp) -> ResponseView {
    ResponseView {
        messages: Seq::empty(),
        attributes: seq![
            text_attr("response"@, "no accumulated rewards"@),
            time_attr("next_timestamp"@, next_reward_time),
        ],
        data: None,
    }
}

/// What one call of a round does to the ledger, and what it returns.
///
/// Only the administrator may call, and not before the round is due. A final
/// call moves the start of the next round. Where the pool holds a reward, the
/// call distributes it as `distribute_outcome` says; where it holds none, the
/// call does no more. On an error the ledger stays as it was.
pub open spec fn calculate_outcome(
    pre: LedgerView,
    now: Timestamp,
    sender: Seq<char>,
    stakers: Seq<Seq<char>>,
    club_name: Seq<char>,
    is_first_batch: bool,
    is_final_batch: bool,
) -> (LedgerView, Result<ResponseView, ContractErrorView>) {
    let next = next_round_start(
        pre.club_reward_next_timestamp,
        pre.config.reward_periodicity,
        now,
        is_final_batch,
    );
    if sender != pre.config.admin_address {
        (pre, Err(generic("not authorised"@)))
    } else if now.nanos < pre.club_reward_next_timestamp.nanos {
        (pre, Err(generic("Time for Reward not yet arrived"@)))
    } else if next is None {
        (pre, Err(overflow()))
    } else if pre.reward == 0 {
        (
            LedgerView { club_reward_next_timestamp: next->0, ..pre },
            Ok(no_rewards_response(next->0)),
        )
    } else {
        match distribute_outcome(
            pre,
            now,
            pre.config.reward_periodicity,
            pre.club_reward_next_timestamp,
            stakers,
            club_name,
            pre.reward,
            is_first_batch,
            is_final_batch,
        ) {
            Err(e) => (pre, Err(e)),
            Ok(post) => (
                LedgerView { club_reward_next_timestamp: next->0, ..post },
                Ok(empty_response()),
            ),
        }
    }
}

/// One call of a reward round: distributes the reward in the pool to the
/// stakers listed of one club.
pub fn calculate_and_distribute_rewards(
    ledger: &mut Ledger,
    env: &Env,
    info: &MessageInfo,
    staker_list: Vec<String>,
    club_name: String,
    is_first_batch: bool,
    is_final_batch: bool,
) -> (r: Result<Response, ContractError>)
    ensures
        (final(ledger)@, result_view(r)) == calculate_outcome(
            old(ledger)@,
            env.block_time,
            info.sender@,
            names_view(staker_list@),
            club_name@,
            is_first_batch,
            is_final_batch,
        ),
        old(ledger)@.wf() ==> final(ledger)@.wf(),
{
    let now = env.block_time;
    if info.sender != ledger.config.admin_address {
        return Err(generic_err("not authorised"));
    }
    let total_reward: u128 = ledger.reward;
    let saved_next_reward_timestamp: Timestamp = ledger.club_reward_next_timestamp;
    if now.nanos < saved_next_reward_timestamp.nanos {
        return Err(generic_err("Time for Reward not yet arrived"));
    }
    let periodicity: u64 = ledger.config.reward_periodicity;
    let next_reward_time: Timestamp = if is_final_batch && saved_next_reward_timestamp.nanos
        < now.nanos {
        match saved_next_reward_timestamp.checked_plus_seconds(periodicity) {
            None => {
                return Err(overflow_err());
            },
            Some(t) => t,
        }
    } else {
        saved_next_reward_timestamp
    };
    if total_reward == 0 {
        ledger.club_reward_next_timestamp = next_reward_time;
        let mut response = Response::new();
        response.add_text("response", &"no accumulated rewards".to_owned());
        response.add_time("next_timestamp", next_reward_time);
        assert(response@.attributes =~= no_rewards_response(next_reward_time).attributes);
        return Ok(response);
    }
    match distribute_reward_to_club_stakers(
        ledger,
        env,
        periodicity,
        saved_next_reward_timestamp,
        staker_list,
        club_name,
        total_reward,
        is_first_batch,
        is_final_batch,
    ) {
        Err(e) => Err(e),
        Ok(response) => {
            ledger.club_reward_next_timestamp = next_reward_time;
            Ok(response)
        },
    }
}

/// What a payment into the reward pool does to the ledger, and what it
/// returns. Only the administrator may pay in.
pub open spec fn increase_reward_outcome(pre: LedgerView, sender: Seq<char>, amount: u128) -> (
    LedgerView,
    Result<ResponseView, ContractErrorView>,
) {
    if sender != pre.config.admin_address {
        (pre, Err(ContractErrorView::Unauthorized))
    } else if pre.reward + amount > u128::MAX {
        (pre, Err(overflow()))
    } else {
        (LedgerView { reward: (pre.reward + amount) as u128, ..pre }, Ok(empty_response()))
    }
}

/// The administrator pays `amount` into the reward pool.
pub fn increase_reward_amount(
    ledger: &mut Ledger,
    info: &MessageInfo,
    reward_from: String,
    amount: u128,
) -> (r: Result<Response, ContractError>)
    ensures
        (final(ledger)@, result_view(r)) == increase_reward_outcome(
            old(ledger)@,
            info.sender@,
            amount,
        ),
        old(ledger)@.wf() ==> final(ledger)@.wf(),
{
    if info.sender != ledger.config.admin_address {
        return Err(ContractError::Unauthorized {  });
    }
    let new_reward: u128 = match ledger.reward.checked_add(amount) {
        None => {
            return Err(overflow_err());
        },
        Some(r) => r,
    };
    ledger.reward = new_reward;
    Ok(Response::new())
}

} // verus!
