//! The ranking of clubs by the growth of their stakes.

use vstd::prelude::*;
use crate::error::{overflow_err, ContractError};
use crate::ledger::{
    clubs_view, find_snapshot, snapshot_position, snapshot_view, SnapshotEntry, SnapshotView,
};
use crate::state::{names_view, ClubOwnershipDetails, ClubView, WinningClubDetails, WinningView};

verus! {

/// The largest amount of tokens that can exist. A club that lost more than
/// this since the last ranking cannot win.
pub const MAX_UFURY_COUNT: u128 = 420000000000000u128;

/// What a club had staked at the last ranking; nothing where none is recorded.
pub open spec fn recorded_stake(snapshot: Seq<SnapshotView>, club_name: Seq<char>) -> u128 {
    match snapshot_position(snapshot, club_name) {
        Some(p) => snapshot[p].staked_amount,
        None => 0,
    }
}

/// By how much the stake of a club has grown since the last ranking.
pub open spec fn stake_growth(snapshot: Seq<SnapshotView>, club: ClubView) -> int {
    club.total_staked_amount - recorded_stake(snapshot, club.club_name)
}

/// The best clubs among those scanned so far.
pub struct Lead {
    /// The largest growth seen; the floor where none reached it.
    pub growth: int,
    /// The largest stake among the clubs with that growth.
    pub stake: u128,
    /// The clubs with that growth and that stake, in the order scanned.
    pub winners: Seq<Seq<char>>,
}

/// The lead after one more club has been scanned.
///
/// A club that grew more than the lead takes it alone. One that grew as much
/// takes it alone with a larger stake, and shares it with an equal stake.
pub open spec fn lead_with(lead: Lead, growth: int, club: ClubView) -> Lead {
    if growth > lead.growth || (growth == lead.growth && club.total_staked_amount > lead.stake) {
        Lead { growth, stake: club.total_staked_amount, winners: seq![club.club_name] }
    } else if growth == lead.growth && club.total_staked_amount == lead.stake {
        Lead { winners: lead.winners.push(club.club_name), ..lead }
    } else {
        lead
    }
}

/// The lead after all of `clubs` have been scanned in their order.
pub open spec fn lead_of(clubs: Seq<ClubView>, snapshot: Seq<SnapshotView>) -> Lead
    decreases clubs.len(),
{
    if clubs.len() == 0 {
        Lead { growth: -(MAX_UFURY_COUNT as int), stake: 0, winners: Seq::empty() }
    } else {
        lead_with(
            lead_of(clubs.drop_last(), snapshot),
            stake_growth(snapshot, clubs.last()),
            clubs.last(),
        )
    }
}

/// The sum of what the clubs have staked.
pub open spec fn stake_across(clubs: Seq<ClubView>) -> int
    decreases clubs.len(),
{
    if clubs.len() == 0 {
        0
    } else {
        stake_across(clubs.drop_last()) + clubs.last().total_staked_amount
    }
}

/// The ranking of a round: how many clubs there are, what they have staked
/// together, what a winning club has staked, and which clubs win. `None`
/// where the sum of the stakes leaves the range of an amount.
pub open spec fn ranking(clubs: Seq<ClubView>, snapshot: Seq<SnapshotView>) -> Option<WinningView> {
    if stake_across(clubs) > u128::MAX {
        None
    } else {
        Some(
            WinningView {
                total_number_of_clubs: clubs.len() as u64,
                total_stake_across_all_clubs: stake_across(clubs) as u128,
                total_stake_in_winning_club: lead_of(clubs, snapshot).stake,
                winner_list: lead_of(clubs, snapshot).winners,
            },
        )
    }
}

/// What the clubs have staked, as the next ranking will remember it.
pub open spec fn stakes_recorded(clubs: Seq<ClubView>) -> Seq<SnapshotView> {
    clubs.map_values(
        |c: ClubView| SnapshotView { club_name: c.club_name, staked_amount: c.total_staked_amount },
    )
}

/// What the first clubs have staked does not exceed what all of them have.
pub proof fn lemma_stake_across_monotone(clubs: Seq<ClubView>, i: int)
    requires
        0 <= i <= clubs.len(),
    ensures
        0 <= stake_across(clubs.take(i)) <= stake_across(clubs),
    decreases clubs.len() - i,
{
    if i == clubs.len() {
        assert(clubs.take(i) =~= clubs);
        lemma_stake_across_nonnegative(clubs);
    } else {
        lemma_stake_across_monotone(clubs, i + 1);
        assert(clubs.take(i + 1).drop_last() =~= clubs.take(i));
        lemma_stake_across_nonnegative(clubs.take(i));
    }
}

/// Clubs have no less than nothing staked.
pub proof fn lemma_stake_across_nonnegative(clubs: Seq<ClubView>)
    ensures
        0 <= stake_across(clubs),
    decreases clubs.len(),
{
    if clubs.len() > 0 {
        lemma_stake_across_nonnegative(clubs.drop_last());
    }
}

/// A difference of two amounts, kept as its sign and its size.
#[derive(Clone, Copy, Debug, PartialEq, Eq, Structural)]
pub struct Growth {
    pub negative: bool,
    pub size: u128,
}

impl Growth {
    /// The difference as a number.
    pub open spec fn value(self) -> int {
        if self.negative {
            -(self.size as int)
        } else {
            self.size as int
        }
    }

    /// The difference `current - previous`.
    pub fn between(current: u128, previous: u128) -> (g: Growth)
        ensures
            g.value() == current - previous,
    {
        if current >= previous {
            Growth { negative: false, size: current - previous }
        } else {
            Growth { negative: true, size: previous - current }
        }
    }

    /// Whether `self` is larger than `other`.
    pub fn exceeds(&self, other: &Growth) -> (r: bool)
        ensures
            r == (self.value() > other.value()),
    {
        if self.negative {
            other.negative && self.size < other.size
        } else if other.negative {
            self.size > 0 || other.size > 0
        } else {
            self.size > other.size
        }
    }

    /// Whether `self` is as large as `other`.
    pub fn equals(&self, other: &Growth) -> (r: bool)
        ensures
            r == (self.value() == other.value()),
    {
        self.size == other.size && (self.size == 0 || self.negative == other.negative)
    }
}

/// Ranks the clubs by the growth of their stakes since the last ranking.
/// Returns the ranking, and the stakes for the next ranking to compare with.
pub fn get_winning_clubs_details(
    clubs: &Vec<ClubOwnershipDetails>,
    snapshot: &Vec<SnapshotEntry>,
) -> (r: Result<(WinningClubDetails, Vec<SnapshotEntry>), ContractError>)
    ensures
        match ranking(clubs_view(clubs@), snapshot_view(snapshot@)) {
            Some(w) => r is Ok && r->Ok_0.0@ == w && snapshot_view(r->Ok_0.1@) == stakes_recorded(
                clubs_view(clubs@),
            ),
            None => r is Err && r->Err_0@ == crate::error::overflow(),
        },
{
    let ghost all = clubs_view(clubs@);
    let ghost seen = snapshot_view(snapshot@);
    let mut best = Growth { negative: true, size: MAX_UFURY_COUNT };
    let mut best_stake: u128 = 0;
    let mut winners: Vec<String> = Vec::new();
    let mut across: u128 = 0;
    let mut recorded: Vec<SnapshotEntry> = Vec::new();
    let mut i: usize = 0;
    while i < clubs.len()
        invariant
            i <= clubs.len(),
            all == clubs_view(clubs@),
            seen == snapshot_view(snapshot@),
            across == stake_across(all.take(i as int)),
            best.value() == lead_of(all.take(i as int), seen).growth,
            best_stake == lead_of(all.take(i as int), seen).stake,
            names_view(winners@) == lead_of(all.take(i as int), seen).winners,
            recorded.len() == i,
            forall|j: int| 0 <= j < i ==> (#[trigger] recorded[j])@ == stakes_recorded(all)[j],
        decreases clubs.len() - i,
    {
        proof {
            assert(all.take(i as int + 1).drop_last() =~= all.take(i as int));
            lemma_stake_across_monotone(all, i as int + 1);
        }
        let stake: u128 = clubs[i].total_staked_amount;
        across = match across.checked_add(stake) {
            None => {
                return Err(overflow_err());
            },
            Some(a) => a,
        };
        let previous: u128 = match find_snapshot(snapshot, &clubs[i].club_name) {
            Some(p) => snapshot[p].staked_amount,
            None => 0,
        };
        let growth = Growth::between(stake, previous);
        if growth.exceeds(&best) || (growth.equals(&best) && stake > best_stake) {
            best = growth;
            best_stake = stake;
            winners = Vec::new();
            winners.push(clubs[i].club_name.clone());
        } else if growth.equals(&best) && stake == best_stake {
            winners.push(clubs[i].club_name.clone());
        }
        recorded.push(SnapshotEntry { club_name: clubs[i].club_name.clone(), staked_amount: stake });
        i += 1;
    }
    proof {
        assert(all.take(i as int) =~= all);
    }
    Ok(
        (
            WinningClubDetails {
                total_number_of_clubs: clubs.len() as u64,
                total_stake_across_all_clubs: across,
                total_stake_in_winning_club: best_stake,
                winner_list: winners,
            },
            recorded,
        ),
    )
}

/// Whether `club_name` is one of the winners.
pub fn is_winning_club(club_name: String, winner_list: Vec<String>) -> (r: bool)
    ensures
        r == names_view(winner_list@).contains(club_name@),
{
    let mut i: usize = 0;
    while i < winner_list.len()
        invariant
            i <= winner_list.len(),
            forall|j: int| 0 <= j < i ==> names_view(winner_list@)[j] != club_name@,
        decreases winner_list.len() - i,
    {
        if club_name == winner_list[i] {
            assert(names_view(winner_list@)[i as int] == club_name@);
            return true;
        }
        i += 1;
    }
    false
}

} // verus!
