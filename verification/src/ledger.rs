//! The ledger's state, its invariant, and the lookups in it.

use vstd::prelude::*;
use crate::state::{
    BondView, ClubBondingDetails, ClubOwnershipDetails, ClubPreviousOwnerDetails,
    ClubStakingDetails, ClubView, Config, ConfigView, PreviousOwnerView, StakeView, Timestamp,
    WinningClubDetails, WinningView,
};

verus! {

/// The stakes that one staker holds on one club.
#[derive(Debug, PartialEq)]
pub struct StakeEntry {
    pub club_name: String,
    pub staker_address: String,
    pub stakes: Vec<ClubStakingDetails>,
}

/// What a `StakeEntry` holds, as values.
pub struct StakeEntryView {
    pub club_name: Seq<char>,
    pub staker_address: Seq<char>,
    pub stakes: Seq<StakeView>,
}

/// The views of a sequence of stakes.
pub open spec fn stakes_view(stakes: Seq<ClubStakingDetails>) -> Seq<StakeView> {
    stakes.map_values(|s: ClubStakingDetails| s@)
}

impl View for StakeEntry {
    type V = StakeEntryView;

    open spec fn view(&self) -> StakeEntryView {
        StakeEntryView {
            club_name: self.club_name@,
            staker_address: self.staker_address@,
            stakes: stakes_view(self.stakes@),
        }
    }
}

/// The bonds that one staker holds on one club.
#[derive(Debug, PartialEq)]
pub struct BondEntry {
    pub club_name: String,
    pub bonder_address: String,
    pub bonds: Vec<ClubBondingDetails>,
}

/// What a `BondEntry` holds, as values.
pub struct BondEntryView {
    pub club_name: Seq<char>,
    pub bonder_address: Seq<char>,
    pub bonds: Seq<BondView>,
}

/// The views of a sequence of bonds.
pub open spec fn bonds_view(bonds: Seq<ClubBondingDetails>) -> Seq<BondView> {
    bonds.map_values(|b: ClubBondingDetails| b@)
}

impl View for BondEntry {
    type V = BondEntryView;

    open spec fn view(&self) -> BondEntryView {
        BondEntryView {
            club_name: self.club_name@,
            bonder_address: self.bonder_address@,
            bonds: bonds_view(self.bonds@),
        }
    }
}

/// What a club had staked when the last round was ranked.
#[derive(Debug, PartialEq)]
pub struct SnapshotEntry {
    pub club_name: String,
    pub staked_amount: u128,
}

/// What a `SnapshotEntry` holds, as values.
pub struct SnapshotView {
    pub club_name: Seq<char>,
    pub staked_amount: u128,
}

impl View for SnapshotEntry {
    type V = SnapshotView;

    open spec fn view(&self) -> SnapshotView {
        SnapshotView { club_name: self.club_name@, staked_amount: self.staked_amount }
    }
}

/// The whole state of the engine: every record that an operation reads or
/// writes.
#[derive(Debug, PartialEq)]
pub struct Ledger {
    pub config: Config,
    /// One record per club name.
    pub clubs: Vec<ClubOwnershipDetails>,
    /// One entry per club and staker.
    pub stakes: Vec<StakeEntry>,
    /// One entry per club and staker.
    pub bonds: Vec<BondEntry>,
    /// One record per address that is owed an owner's reward.
    pub previous_owners: Vec<ClubPreviousOwnerDetails>,
    /// The reward waiting to be distributed.
    pub reward: u128,
    /// The reward handed out so far in the round that is open.
    pub reward_given_in_current_timestamp: u128,
    /// From when on the next round may run.
    pub club_reward_next_timestamp: Timestamp,
    /// The clubs' stakes as the last ranking saw them.
    pub staking_snapshot: Vec<SnapshotEntry>,
    /// The ranking of the round that is open.
    pub winning_club_details: WinningClubDetails,
}

/// What a `Ledger` holds, as values: the state that the contracts speak of.
pub struct LedgerView {
    pub config: ConfigView,
    pub clubs: Seq<ClubView>,
    pub stakes: Seq<StakeEntryView>,
    pub bonds: Seq<BondEntryView>,
    pub previous_owners: Seq<PreviousOwnerView>,
    pub reward: u128,
    pub reward_given_in_current_timestamp: u128,
    pub club_reward_next_timestamp: Timestamp,
    pub staking_snapshot: Seq<SnapshotView>,
    pub winning_club_details: WinningView,
}

/// The views of a sequence of club records.
pub open spec fn clubs_view(clubs: Seq<ClubOwnershipDetails>) -> Seq<ClubView> {
    clubs.map_values(|c: ClubOwnershipDetails| c@)
}

/// The views of a sequence of stake entries.
pub open spec fn stake_entries_view(entries: Seq<StakeEntry>) -> Seq<StakeEntryView> {
    entries.map_values(|e: StakeEntry| e@)
}

/// The views of a sequence of bond entries.
pub open spec fn bond_entries_view(entries: Seq<BondEntry>) -> Seq<BondEntryView> {
    entries.map_values(|e: BondEntry| e@)
}

/// The views of a sequence of previous owners.
pub open spec fn previous_owners_view(owners: Seq<ClubPreviousOwnerDetails>) -> Seq<
    PreviousOwnerView,
> {
    owners.map_values(|p: ClubPreviousOwnerDetails| p@)
}

/// The views of a snapshot.
pub open spec fn snapshot_view(entries: Seq<SnapshotEntry>) -> Seq<SnapshotView> {
    entries.map_values(|e: SnapshotEntry| e@)
}

impl View for Ledger {
    type V = LedgerView;

    open spec fn view(&self) -> LedgerView {
        LedgerView {
            config: self.config@,
            clubs: clubs_view(self.clubs@),
            stakes: stake_entries_view(self.stakes@),
            bonds: bond_entries_view(self.bonds@),
            previous_owners: previous_owners_view(self.previous_owners@),
            reward: self.reward,
            reward_given_in_current_timestamp: self.reward_given_in_current_timestamp,
            club_reward_next_timestamp: self.club_reward_next_timestamp,
            staking_snapshot: snapshot_view(self.staking_snapshot@),
            winning_club_details: self.winning_club_details@,
        }
    }
}

/// The sum of the staked amounts of a sequence of stakes.
pub open spec fn stakes_total(stakes: Seq<StakeView>) -> int
    decreases stakes.len(),
{
    if stakes.len() == 0 {
        0
    } else {
        stakes_total(stakes.drop_last()) + stakes.last().staked_amount
    }
}

/// The sum of the staked amounts of all stakes on `club_name`.
pub open spec fn club_stake_total(entries: Seq<StakeEntryView>, club_name: Seq<char>) -> int
    decreases entries.len(),
{
    if entries.len() == 0 {
        0
    } else {
        club_stake_total(entries.drop_last(), club_name) + (if entries.last().club_name
            == club_name {
            stakes_total(entries.last().stakes)
        } else {
            0
        })
    }
}

/// Where the record of `club_name` stands among `clubs`, if it has one.
pub open spec fn club_position(clubs: Seq<ClubView>, club_name: Seq<char>) -> Option<int> {
    clubs.map_values(|c: ClubView| c.club_name).index_of_first(club_name)
}

/// Where the stakes of `staker` on `club_name` stand among `entries`.
pub open spec fn stake_position(
    entries: Seq<StakeEntryView>,
    club_name: Seq<char>,
    staker: Seq<char>,
) -> Option<int> {
    entries.map_values(|e: StakeEntryView| (e.club_name, e.staker_address)).index_of_first(
        (club_name, staker),
    )
}

/// Where the bonds of `bonder` on `club_name` stand among `entries`.
pub open spec fn bond_position(
    entries: Seq<BondEntryView>,
    club_name: Seq<char>,
    bonder: Seq<char>,
) -> Option<int> {
    entries.map_values(|e: BondEntryView| (e.club_name, e.bonder_address)).index_of_first(
        (club_name, bonder),
    )
}

/// Where the record of `owner` stands among `owners`.
pub open spec fn previous_owner_position(owners: Seq<PreviousOwnerView>, owner: Seq<char>) -> Option<
    int,
> {
    owners.map_values(|p: PreviousOwnerView| p.previous_owner_address).index_of_first(owner)
}

/// Where the snapshot of `club_name` stands among `entries`.
pub open spec fn snapshot_position(entries: Seq<SnapshotView>, club_name: Seq<char>) -> Option<int> {
    entries.map_values(|e: SnapshotView| e.club_name).index_of_first(club_name)
}

impl LedgerView {
    /// No club name has two records.
    pub open spec fn clubs_distinct(self) -> bool {
        forall|i: int, j: int|
            0 <= i < j < self.clubs.len() ==> self.clubs[i].club_name != self.clubs[j].club_name
    }

    /// Every stake entry stands under a club that has a record.
    pub open spec fn stakes_on_clubs(self) -> bool {
        forall|k: int|
            0 <= k < self.stakes.len() ==> (#[trigger] club_position(
                self.clubs,
                self.stakes[k].club_name,
            )) is Some
    }

    /// Each club's recorded total is the sum of the stakes on it.
    pub open spec fn totals_match(self) -> bool {
        forall|i: int|
            0 <= i < self.clubs.len() ==> (#[trigger] self.clubs[i]).total_staked_amount
                == club_stake_total(self.stakes, self.clubs[i].club_name)
    }

    /// The invariant of the ledger.
    pub open spec fn wf(self) -> bool {
        &&& self.clubs_distinct()
        &&& self.stakes_on_clubs()
        &&& self.totals_match()
    }
}

/// The first place at which a key stands is its position.
pub proof fn lemma_first_index<K>(keys: Seq<K>, key: K, i: int)
    requires
        0 <= i < keys.len(),
        keys[i] == key,
        forall|j: int| 0 <= j < i ==> keys[j] != key,
    ensures
        keys.index_of_first(key) == Some(i),
{
    keys.index_of_first_ensures(key);
}

/// A key that stands nowhere has no position.
pub proof fn lemma_no_index<K>(keys: Seq<K>, key: K)
    requires
        forall|j: int| 0 <= j < keys.len() ==> keys[j] != key,
    ensures
        keys.index_of_first(key) is None,
{
    keys.index_of_first_ensures(key);
}

/// What a position says of the sequence it was found in.
pub proof fn lemma_index_found<K>(keys: Seq<K>, key: K)
    ensures
        match keys.index_of_first(key) {
            Some(i) => 0 <= i < keys.len() && keys[i] == key && forall|j: int|
                0 <= j < i ==> keys[j] != key,
            None => forall|j: int| 0 <= j < keys.len() ==> keys[j] != key,
        },
{
    keys.index_of_first_ensures(key);
    if keys.index_of_first(key) is None {
        assert forall|j: int| 0 <= j < keys.len() implies keys[j] != key by {}
    }
}

/// Looks a club up by its name.
pub fn find_club(clubs: &Vec<ClubOwnershipDetails>, club_name: &String) -> (r: Option<usize>)
    ensures
        match r {
            Some(i) => i < clubs.len() && club_position(clubs_view(clubs@), club_name@) == Some(
                i as int,
            ) && clubs[i as int].club_name@ == club_name@,
            None => club_position(clubs_view(clubs@), club_name@) is None,
        },
{
    let ghost keys = clubs_view(clubs@).map_values(|c: ClubView| c.club_name);
    let mut i: usize = 0;
    while i < clubs.len()
        invariant
            i <= clubs.len(),
            keys == clubs_view(clubs@).map_values(|c: ClubView| c.club_name),
            forall|j: int| 0 <= j < i ==> keys[j] != club_name@,
        decreases clubs.len() - i,
    {
        if clubs[i].club_name == *club_name {
            proof {
                lemma_first_index(keys, club_name@, i as int);
            }
            return Some(i);
        }
        i += 1;
    }
    proof {
        lemma_no_index(keys, club_name@);
    }
    None
}

/// Looks up the stakes of a staker on a club.
pub fn find_stake_entry(entries: &Vec<StakeEntry>, club_name: &String, staker: &String) -> (r:
    Option<usize>)
    ensures
        match r {
            Some(i) => i < entries.len() && stake_position(
                stake_entries_view(entries@),
                club_name@,
                staker@,
            ) == Some(i as int) && entries[i as int].club_name@ == club_name@
                && entries[i as int].staker_address@ == staker@,
            None => stake_position(stake_entries_view(entries@), club_name@, staker@) is None,
        },
{
    let ghost keys = stake_entries_view(entries@).map_values(
        |e: StakeEntryView| (e.club_name, e.staker_address),
    );
    let mut i: usize = 0;
    while i < entries.len()
        invariant
            i <= entries.len(),
            keys == stake_entries_view(entries@).map_values(
                |e: StakeEntryView| (e.club_name, e.staker_address),
            ),
            forall|j: int| 0 <= j < i ==> keys[j] != (club_name@, staker@),
        decreases entries.len() - i,
    {
        if entries[i].club_name == *club_name && entries[i].staker_address == *staker {
            proof {
                lemma_first_index(keys, (club_name@, staker@), i as int);
            }
            return Some(i);
        }
        i += 1;
    }
    proof {
        lemma_no_index(keys, (club_name@, staker@));
    }
    None
}

/// Looks up the bonds of a staker on a club.
pub fn find_bond_entry(entries: &Vec<BondEntry>, club_name: &String, bonder: &String) -> (r: Option<
    usize,
>)
    ensures
        match r {
            Some(i) => i < entries.len() && bond_position(
                bond_entries_view(entries@),
                club_name@,
                bonder@,
            ) == Some(i as int) && entries[i as int].club_name@ == club_name@
                && entries[i as int].bonder_address@ == bonder@,
            None => bond_position(bond_entries_view(entries@), club_name@, bonder@) is None,
        },
{
    let ghost keys = bond_entries_view(entries@).map_values(
        |e: BondEntryView| (e.club_name, e.bonder_address),
    );
    let mut i: usize = 0;
    while i < entries.len()
        invariant
            i <= entries.len(),
            keys == bond_entries_view(entries@).map_values(
                |e: BondEntryView| (e.club_name, e.bonder_address),
            ),
            forall|j: int| 0 <= j < i ==> keys[j] != (club_name@, bonder@),
        decreases entries.len() - i,
    {
        if entries[i].club_name == *club_name && entries[i].bonder_address == *bonder {
            proof {
                lemma_first_index(keys, (club_name@, bonder@), i as int);
            }
            return Some(i);
        }
        i += 1;
    }
    proof {
        lemma_no_index(keys, (club_name@, bonder@));
    }
    None
}

/// Looks up what is owed to a previous owner.
pub fn find_previous_owner(owners: &Vec<ClubPreviousOwnerDetails>, owner: &String) -> (r: Option<
    usize,
>)
    ensures
        match r {
            Some(i) => i < owners.len() && previous_owner_position(
                previous_owners_view(owners@),
                owner@,
            ) == Some(i as int) && owners[i as int].previous_owner_address@ == owner@,
            None => previous_owner_position(previous_owners_view(owners@), owner@) is None,
        },
{
    let ghost keys = previous_owners_view(owners@).map_values(
        |p: PreviousOwnerView| p.previous_owner_address,
    );
    let mut i: usize = 0;
    while i < owners.len()
        invariant
            i <= owners.len(),
            keys == previous_owners_view(owners@).map_values(
                |p: PreviousOwnerView| p.previous_owner_address,
            ),
            forall|j: int| 0 <= j < i ==> keys[j] != owner@,
        decreases owners.len() - i,
    {
        if owners[i].previous_owner_address == *owner {
            proof {
                lemma_first_index(keys, owner@, i as int);
            }
            return Some(i);
        }
        i += 1;
    }
    proof {
        lemma_no_index(keys, owner@);
    }
    None
}

/// Looks up what a club had staked at the last ranking.
pub fn find_snapshot(entries: &Vec<SnapshotEntry>, club_name: &String) -> (r: Option<usize>)
    ensures
        match r {
            Some(i) => i < entries.len() && snapshot_position(snapshot_view(entries@), club_name@)
                == Some(i as int) && entries[i as int].club_name@ == club_name@,
            None => snapshot_position(snapshot_view(entries@), club_name@) is None,
        },
{
    let ghost keys = snapshot_view(entries@).map_values(|e: SnapshotView| e.club_name);
    let mut i: usize = 0;
    while i < entries.len()
        invariant
            i <= entries.len(),
            keys == snapshot_view(entries@).map_values(|e: SnapshotView| e.club_name),
            forall|j: int| 0 <= j < i ==> keys[j] != club_name@,
        decreases entries.len() - i,
    {
        if entries[i].club_name == *club_name {
            proof {
                lemma_first_index(keys, club_name@, i as int);
            }
            return Some(i);
        }
        i += 1;
    }
    proof {
        lemma_no_index(keys, club_name@);
    }
    None
}

/// Replacing one stake changes the sum by the difference of the two amounts.
pub proof fn lemma_stakes_total_update(stakes: Seq<StakeView>, j: int, stake: StakeView)
    requires
        0 <= j < stakes.len(),
    ensures
        stakes_total(stakes.update(j, stake)) == stakes_total(stakes) - stakes[j].staked_amount
            + stake.staked_amount,
    decreases stakes.len(),
{
    let after = stakes.update(j, stake);
    if j == stakes.len() - 1 {
        assert(after.drop_last() =~= stakes.drop_last());
    } else {
        assert(after.drop_last() =~= stakes.drop_last().update(j, stake));
        lemma_stakes_total_update(stakes.drop_last(), j, stake);
    }
}

/// A stake appended adds its amount to the sum.
pub proof fn lemma_stakes_total_push(stakes: Seq<StakeView>, stake: StakeView)
    ensures
        stakes_total(stakes.push(stake)) == stakes_total(stakes) + stake.staked_amount,
{
    assert(stakes.push(stake).drop_last() =~= stakes);
}

/// Replacing the stakes of one entry changes its club's sum by the difference,
/// and no other club's.
pub proof fn lemma_club_total_update(
    entries: Seq<StakeEntryView>,
    k: int,
    entry: StakeEntryView,
    club_name: Seq<char>,
)
    requires
        0 <= k < entries.len(),
        entry.club_name == entries[k].club_name,
    ensures
        club_stake_total(entries.update(k, entry), club_name) == club_stake_total(
            entries,
            club_name,
        ) + (if entry.club_name == club_name {
            stakes_total(entry.stakes) - stakes_total(entries[k].stakes)
        } else {
            0
        }),
    decreases entries.len(),
{
    let after = entries.update(k, entry);
    if k == entries.len() - 1 {
        assert(after.drop_last() =~= entries.drop_last());
    } else {
        assert(after.drop_last() =~= entries.drop_last().update(k, entry));
        lemma_club_total_update(entries.drop_last(), k, entry, club_name);
    }
}

/// An entry appended adds its stakes to its club's sum, and to no other's.
pub proof fn lemma_club_total_push(
    entries: Seq<StakeEntryView>,
    entry: StakeEntryView,
    club_name: Seq<char>,
)
    ensures
        club_stake_total(entries.push(entry), club_name) == club_stake_total(entries, club_name)
            + (if entry.club_name == club_name {
            stakes_total(entry.stakes)
        } else {
            0
        }),
{
    assert(entries.push(entry).drop_last() =~= entries);
}

/// A club without stake entries has nothing staked.
pub proof fn lemma_club_total_absent(entries: Seq<StakeEntryView>, club_name: Seq<char>)
    requires
        forall|k: int| 0 <= k < entries.len() ==> entries[k].club_name != club_name,
    ensures
        club_stake_total(entries, club_name) == 0,
    decreases entries.len(),
{
    if entries.len() > 0 {
        lemma_club_total_absent(entries.drop_last(), club_name);
    }
}

/// The invariant survives a change of the stakes on one club that the club's
/// record mirrors.
pub proof fn lemma_wf_after_stake_change(pre: LedgerView, post: LedgerView, c: int, delta: int)
    requires
        pre.wf(),
        0 <= c < pre.clubs.len(),
        0 <= pre.clubs[c].total_staked_amount + delta <= u128::MAX,
        post.clubs == pre.clubs.update(
            c,
            (ClubView {
                total_staked_amount: (pre.clubs[c].total_staked_amount + delta) as u128,
                ..pre.clubs[c]
            }),
        ),
        forall|name: Seq<char>| #[trigger]
            club_stake_total(post.stakes, name) == club_stake_total(pre.stakes, name) + (if name
                == pre.clubs[c].club_name {
                delta
            } else {
                0
            }),
        forall|k: int|
            0 <= k < post.stakes.len() ==> (#[trigger] club_position(
                pre.clubs,
                post.stakes[k].club_name,
            )) is Some,
    ensures
        post.wf(),
{
    assert(post.clubs.map_values(|c: ClubView| c.club_name) =~= pre.clubs.map_values(
        |c: ClubView| c.club_name,
    ));
    assert forall|i: int| 0 <= i < post.clubs.len() implies (#[trigger] post.clubs[i]).total_staked_amount
        == club_stake_total(post.stakes, post.clubs[i].club_name) by {}
    assert forall|k: int| 0 <= k < post.stakes.len() implies (#[trigger] club_position(
        post.clubs,
        post.stakes[k].club_name,
    )) is Some by {
        assert(club_position(pre.clubs, post.stakes[k].club_name) is Some);
    }
}

/// The invariant does not depend on what a club's record says besides its
/// name and its total.
pub proof fn lemma_wf_after_club_change(pre: LedgerView, post: LedgerView, c: int, club: ClubView)
    requires
        pre.wf(),
        0 <= c < pre.clubs.len(),
        club.club_name == pre.clubs[c].club_name,
        club.total_staked_amount == pre.clubs[c].total_staked_amount,
        post.clubs == pre.clubs.update(c, club),
        post.stakes == pre.stakes,
    ensures
        post.wf(),
{
    assert(post.clubs.map_values(|c: ClubView| c.club_name) =~= pre.clubs.map_values(
        |c: ClubView| c.club_name,
    ));
    assert forall|i: int| 0 <= i < post.clubs.len() implies (#[trigger] post.clubs[i]).total_staked_amount
        == club_stake_total(post.stakes, post.clubs[i].club_name) by {}
    assert forall|k: int| 0 <= k < post.stakes.len() implies (#[trigger] club_position(
        post.clubs,
        post.stakes[k].club_name,
    )) is Some by {
        assert(club_position(pre.clubs, pre.stakes[k].club_name) is Some);
    }
}

/// The invariant survives a change of stakes that changes no club's sum.
pub proof fn lemma_wf_after_stake_rewrite(pre: LedgerView, post: LedgerView)
    requires
        pre.wf(),
        post.clubs == pre.clubs,
        post.stakes.len() == pre.stakes.len(),
        forall|k: int|
            0 <= k < pre.stakes.len() ==> (#[trigger] post.stakes[k]).club_name
                == pre.stakes[k].club_name,
        forall|name: Seq<char>| #[trigger]
            club_stake_total(post.stakes, name) == club_stake_total(pre.stakes, name),
    ensures
        post.wf(),
{
    assert forall|i: int| 0 <= i < post.clubs.len() implies (#[trigger] post.clubs[i]).total_staked_amount
        == club_stake_total(post.stakes, post.clubs[i].club_name) by {}
    assert forall|k: int| 0 <= k < post.stakes.len() implies (#[trigger] club_position(
        post.clubs,
        post.stakes[k].club_name,
    )) is Some by {}
}

/// A copy of a list of stakes.
pub fn duplicate_stakes(stakes: &Vec<ClubStakingDetails>) -> (c: Vec<ClubStakingDetails>)
    ensures
        stakes_view(c@) == stakes_view(stakes@),
{
    let mut c: Vec<ClubStakingDetails> = Vec::new();
    let mut i: usize = 0;
    while i < stakes.len()
        invariant
            i <= stakes.len(),
            c.len() == i,
            forall|j: int| 0 <= j < i ==> c[j]@ == stakes[j]@,
        decreases stakes.len() - i,
    {
        c.push(stakes[i].duplicate());
        i += 1;
    }
    c
}

/// A copy of a list of bonds.
pub fn duplicate_bonds(bonds: &Vec<ClubBondingDetails>) -> (c: Vec<ClubBondingDetails>)
    ensures
        bonds_view(c@) == bonds_view(bonds@),
{
    let mut c: Vec<ClubBondingDetails> = Vec::new();
    let mut i: usize = 0;
    while i < bonds.len()
        invariant
            i <= bonds.len(),
            c.len() == i,
            forall|j: int| 0 <= j < i ==> c[j]@ == bonds[j]@,
        decreases bonds.len() - i,
    {
        c.push(bonds[i].duplicate());
        i += 1;
    }
    c
}

/// A copy of a list of club records.
pub fn duplicate_clubs(clubs: &Vec<ClubOwnershipDetails>) -> (c: Vec<ClubOwnershipDetails>)
    ensures
        clubs_view(c@) == clubs_view(clubs@),
{
    let mut c: Vec<ClubOwnershipDetails> = Vec::new();
    let mut i: usize = 0;
    while i < clubs.len()
        invariant
            i <= clubs.len(),
            c.len() == i,
            forall|j: int| 0 <= j < i ==> c[j]@ == clubs[j]@,
        decreases clubs.len() - i,
    {
        c.push(clubs[i].duplicate());
        i += 1;
    }
    c
}

/// A copy of a list of stake entries.
pub fn duplicate_stake_entries(entries: &Vec<StakeEntry>) -> (c: Vec<StakeEntry>)
    ensures
        stake_entries_view(c@) == stake_entries_view(entries@),
{
    let mut c: Vec<StakeEntry> = Vec::new();
    let mut i: usize = 0;
    while i < entries.len()
        invariant
            i <= entries.len(),
            c.len() == i,
            forall|j: int| 0 <= j < i ==> c[j]@ == entries[j]@,
        decreases entries.len() - i,
    {
        c.push(
            StakeEntry {
                club_name: entries[i].club_name.clone(),
                staker_address: entries[i].staker_address.clone(),
                stakes: duplicate_stakes(&entries[i].stakes),
            },
        );
        i += 1;
    }
    c
}

/// A copy of a list of bond entries.
pub fn duplicate_bond_entries(entries: &Vec<BondEntry>) -> (c: Vec<BondEntry>)
    ensures
        bond_entries_view(c@) == bond_entries_view(entries@),
{
    let mut c: Vec<BondEntry> = Vec::new();
    let mut i: usize = 0;
    while i < entries.len()
        invariant
            i <= entries.len(),
            c.len() == i,
            forall|j: int| 0 <= j < i ==> c[j]@ == entries[j]@,
        decreases entries.len() - i,
    {
        c.push(
            BondEntry {
                club_name: entries[i].club_name.clone(),
                bonder_address: entries[i].bonder_address.clone(),
                bonds: duplicate_bonds(&entries[i].bonds),
            },
        );
        i += 1;
    }
    c
}

/// A copy of a list of previous owners.
pub fn duplicate_previous_owners(owners: &Vec<ClubPreviousOwnerDetails>) -> (c: Vec<
    ClubPreviousOwnerDetails,
>)
    ensures
        previous_owners_view(c@) == previous_owners_view(owners@),
{
    let mut c: Vec<ClubPreviousOwnerDetails> = Vec::new();
    let mut i: usize = 0;
    while i < owners.len()
        invariant
            i <= owners.len(),
            c.len() == i,
            forall|j: int| 0 <= j < i ==> c[j]@ == owners[j]@,
        decreases owners.len() - i,
    {
        c.push(owners[i].duplicate());
        i += 1;
    }
    c
}

/// A copy of a snapshot.
pub fn duplicate_snapshot(entries: &Vec<SnapshotEntry>) -> (c: Vec<SnapshotEntry>)
    ensures
        snapshot_view(c@) == snapshot_view(entries@),
{
    let mut c: Vec<SnapshotEntry> = Vec::new();
    let mut i: usize = 0;
    while i < entries.len()
        invariant
            i <= entries.len(),
            c.len() == i,
            forall|j: int| 0 <= j < i ==> c[j]@ == entries[j]@,
        decreases entries.len() - i,
    {
        c.push(
            SnapshotEntry {
                club_name: entries[i].club_name.clone(),
                staked_amount: entries[i].staked_amount,
            },
        );
        i += 1;
    }
    c
}

impl Ledger {
    /// A copy of the whole ledger.
    pub fn duplicate(&self) -> (c: Ledger)
        ensures
            c@ == self@,
    {
        Ledger {
            config: self.config.duplicate(),
            clubs: duplicate_clubs(&self.clubs),
            stakes: duplicate_stake_entries(&self.stakes),
            bonds: duplicate_bond_entries(&self.bonds),
            previous_owners: duplicate_previous_owners(&self.previous_owners),
            reward: self.reward,
            reward_given_in_current_timestamp: self.reward_given_in_current_timestamp,
            club_reward_next_timestamp: self.club_reward_next_timestamp,
            staking_snapshot: duplicate_snapshot(&self.staking_snapshot),
            winning_club_details: self.winning_club_details.duplicate(),
        }
    }
}

} // verus!
