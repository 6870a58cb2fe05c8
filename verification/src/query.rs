//! Read-only views of the ledger.

use vstd::prelude::*;
use crate::error::{StdError, StdErrorView};
use crate::ledger::{
    bond_entries_view, bond_position, bonds_view, club_position, clubs_view, duplicate_clubs,
    duplicate_previous_owners, find_bond_entry, find_club, find_previous_owner, find_stake_entry,
    previous_owner_position, stake_position, stakes_view, BondEntry, BondEntryView, Ledger,
    StakeEntry, StakeEntryView,
};
use crate::staking::{accrued_rewards, claimable};
use crate::state::{
    names_view, BondView, ClubBondingDetails, ClubOwnershipDetails, ClubPreviousOwnerDetails,
    ClubStakingDetails, ClubView, StakeView,
};

verus! {

/// A failed query with the given message.
pub fn generic_std_err(msg: &str) -> (e: StdError)
    ensures
        e@ == (StdErrorView::GenericErr { msg: msg@ }),
{
    StdError::GenericErr { msg: msg.to_owned() }
}

/// The stakes of `staker` on `club_name`; none where no entry stands.
pub open spec fn stakes_held(
    entries: Seq<StakeEntryView>,
    club_name: Seq<char>,
    staker: Seq<char>,
) -> Seq<StakeView> {
    match stake_position(entries, club_name, staker) {
        Some(k) => entries[k].stakes,
        None => Seq::empty(),
    }
}

/// The stakes of the users listed on `club_name`, user by user.
pub open spec fn stakes_of_users(
    entries: Seq<StakeEntryView>,
    club_name: Seq<char>,
    users: Seq<Seq<char>>,
) -> Seq<StakeView>
    decreases users.len(),
{
    if users.len() == 0 {
        Seq::empty()
    } else {
        stakes_of_users(entries, club_name, users.drop_last()) + stakes_held(
            entries,
            club_name,
            users.last(),
        )
    }
}

/// The stakes of the users listed on all of `clubs`, club by club.
pub open spec fn stakes_on_clubs(
    entries: Seq<StakeEntryView>,
    clubs: Seq<ClubView>,
    users: Seq<Seq<char>>,
) -> Seq<StakeView>
    decreases clubs.len(),
{
    if clubs.len() == 0 {
        Seq::empty()
    } else {
        stakes_on_clubs(entries, clubs.drop_last(), users) + stakes_of_users(
            entries,
            clubs.last().club_name,
            users,
        )
    }
}

/// The bonds of `bonder` on `club_name`; none where no entry stands.
pub open spec fn bonds_kept(
    entries: Seq<BondEntryView>,
    club_name: Seq<char>,
    bonder: Seq<char>,
) -> Seq<BondView> {
    match bond_position(entries, club_name, bonder) {
        Some(b) => entries[b].bonds,
        None => Seq::empty(),
    }
}

/// The bonds of the users listed on `club_name`, user by user.
pub open spec fn bonds_of_users(
    entries: Seq<BondEntryView>,
    club_name: Seq<char>,
    users: Seq<Seq<char>>,
) -> Seq<BondView>
    decreases users.len(),
{
    if users.len() == 0 {
        Seq::empty()
    } else {
        bonds_of_users(entries, club_name, users.drop_last()) + bonds_kept(
            entries,
            club_name,
            users.last(),
        )
    }
}

/// The bonds of the users listed on all of `clubs`, club by club.
pub open spec fn bonds_on_clubs(
    entries: Seq<BondEntryView>,
    clubs: Seq<ClubView>,
    users: Seq<Seq<char>>,
) -> Seq<BondView>
    decreases clubs.len(),
{
    if clubs.len() == 0 {
        Seq::empty()
    } else {
        bonds_on_clubs(entries, clubs.drop_last(), users) + bonds_of_users(
            entries,
            clubs.last().club_name,
            users,
        )
    }
}

/// Those of `stakes` whose staker is `staker`, in their order.
pub open spec fn stakes_by(stakes: Seq<StakeView>, staker: Seq<char>) -> Seq<StakeView>
    decreases stakes.len(),
{
    if stakes.len() == 0 {
        Seq::empty()
    } else if stakes.last().staker_address == staker {
        stakes_by(stakes.drop_last(), staker).push(stakes.last())
    } else {
        stakes_by(stakes.drop_last(), staker)
    }
}

/// Those of `bonds` whose bonder is `bonder`, in their order.
pub open spec fn bonds_by(bonds: Seq<BondView>, bonder: Seq<char>) -> Seq<BondView>
    decreases bonds.len(),
{
    if bonds.len() == 0 {
        Seq::empty()
    } else if bonds.last().bonder_address == bonder {
        bonds_by(bonds.drop_last(), bonder).push(bonds.last())
    } else {
        bonds_by(bonds.drop_last(), bonder)
    }
}

/// Those of `clubs` whose owner is `owner`, in their order.
pub open spec fn clubs_owned_by(clubs: Seq<ClubView>, owner: Seq<char>) -> Seq<ClubView>
    decreases clubs.len(),
{
    if clubs.len() == 0 {
        Seq::empty()
    } else if clubs.last().owner_address == owner {
        clubs_owned_by(clubs.drop_last(), owner).push(clubs.last())
    } else {
        clubs_owned_by(clubs.drop_last(), owner)
    }
}

/// The stakes of `user` on all of `clubs`, club by club; `None` where the
/// user has no entry on one of them.
pub open spec fn stakes_of_user(
    entries: Seq<StakeEntryView>,
    clubs: Seq<ClubView>,
    user: Seq<char>,
) -> Option<Seq<StakeView>>
    decreases clubs.len(),
{
    if clubs.len() == 0 {
        Some(Seq::empty())
    } else {
        match stakes_of_user(entries, clubs.drop_last(), user) {
            None => None,
            Some(found) => match stake_position(entries, clubs.last().club_name, user) {
                None => None,
                Some(k) => Some(found + stakes_by(entries[k].stakes, user)),
            },
        }
    }
}

/// Appends copies of `stakes` to `all`.
pub(crate) fn append_stakes(all: &mut Vec<ClubStakingDetails>, stakes: &Vec<ClubStakingDetails>)
    ensures
        stakes_view(final(all)@) == stakes_view(old(all)@) + stakes_view(stakes@),
{
    let ghost before = stakes_view(all@);
    let mut i: usize = 0;
    while i < stakes.len()
        invariant
            i <= stakes.len(),
            stakes_view(all@) == before + stakes_view(stakes@).take(i as int),
        decreases stakes.len() - i,
    {
        let ghost so_far = stakes_view(all@);
        all.push(stakes[i].duplicate());
        assert(stakes_view(all@) =~= so_far.push(stakes_view(stakes@)[i as int]));
        i += 1;
    }
}

/// Appends copies of `bonds` to `all`.
pub(crate) fn append_bonds(all: &mut Vec<ClubBondingDetails>, bonds: &Vec<ClubBondingDetails>)
    ensures
        bonds_view(final(all)@) == bonds_view(old(all)@) + bonds_view(bonds@),
{
    let ghost before = bonds_view(all@);
    let mut i: usize = 0;
    while i < bonds.len()
        invariant
            i <= bonds.len(),
            bonds_view(all@) == before + bonds_view(bonds@).take(i as int),
        decreases bonds.len() - i,
    {
        let ghost so_far = bonds_view(all@);
        all.push(bonds[i].duplicate());
        assert(bonds_view(all@) =~= so_far.push(bonds_view(bonds@)[i as int]));
        i += 1;
    }
}

/// Appends the stakes of the users listed on `club_name` to `all`.
pub(crate) fn append_stakes_of_users(
    all: &mut Vec<ClubStakingDetails>,
    entries: &Vec<StakeEntry>,
    club_name: &String,
    user_list: &Vec<String>,
)
    ensures
        stakes_view(final(all)@) == stakes_view(old(all)@) + stakes_of_users(
            crate::ledger::stake_entries_view(entries@),
            club_name@,
            names_view(user_list@),
        ),
{
    let ghost before = stakes_view(all@);
    let ghost held = crate::ledger::stake_entries_view(entries@);
    let ghost users = names_view(user_list@);
    let mut i: usize = 0;
    while i < user_list.len()
        invariant
            i <= user_list.len(),
            held == crate::ledger::stake_entries_view(entries@),
            users == names_view(user_list@),
            stakes_view(all@) == before + stakes_of_users(held, club_name@, users.take(i as int)),
        decreases user_list.len() - i,
    {
        proof {
            assert(users.take(i as int + 1).drop_last() =~= users.take(i as int));
        }
        match find_stake_entry(entries, club_name, &user_list[i]) {
            Some(k) => {
                append_stakes(all, &entries[k].stakes);
            },
            None => {},
        }
        i += 1;
    }
    assert(users.take(i as int) =~= users);
}

/// Appends the bonds of the users listed on `club_name` to `all`.
pub(crate) fn append_bonds_of_users(
    all: &mut Vec<ClubBondingDetails>,
    entries: &Vec<BondEntry>,
    club_name: &String,
    user_list: &Vec<String>,
)
    ensures
        bonds_view(final(all)@) == bonds_view(old(all)@) + bonds_of_users(
            bond_entries_view(entries@),
            club_name@,
            names_view(user_list@),
        ),
{
    let ghost before = bonds_view(all@);
    let ghost held = bond_entries_view(entries@);
    let ghost users = names_view(user_list@);
    let mut i: usize = 0;
    while i < user_list.len()
        invariant
            i <= user_list.len(),
            held == bond_entries_view(entries@),
            users == names_view(user_list@),
            bonds_view(all@) == before + bonds_of_users(held, club_name@, users.take(i as int)),
        decreases user_list.len() - i,
    {
        proof {
            assert(users.take(i as int + 1).drop_last() =~= users.take(i as int));
        }
        match find_bond_entry(entries, club_name, &user_list[i]) {
            Some(b) => {
                append_bonds(all, &entries[b].bonds);
            },
            None => {},
        }
        i += 1;
    }
    assert(users.take(i as int) =~= users);
}

/// The stakes of the users listed on a club.
pub fn query_club_staking_details(ledger: &Ledger, club_name: String, user_list: Vec<String>) -> (r:
    Vec<ClubStakingDetails>)
    ensures
        stakes_view(r@) == stakes_of_users(ledger@.stakes, club_name@, names_view(user_list@)),
{
    let mut all: Vec<ClubStakingDetails> = Vec::new();
    append_stakes_of_users(&mut all, &ledger.stakes, &club_name, &user_list);
    all
}

/// The stakes of the users listed on all clubs.
pub fn query_all_stakes(ledger: &Ledger, user_address_list: Vec<String>) -> (r: Vec<
    ClubStakingDetails,
>)
    ensures
        stakes_view(r@) == stakes_on_clubs(
            ledger@.stakes,
            ledger@.clubs,
            names_view(user_address_list@),
        ),
{
    let ghost clubs = ledger@.clubs;
    let ghost users = names_view(user_address_list@);
    let mut all: Vec<ClubStakingDetails> = Vec::new();
    let mut i: usize = 0;
    while i < ledger.clubs.len()
        invariant
            i <= ledger.clubs.len(),
            clubs == ledger@.clubs,
            users == names_view(user_address_list@),
            stakes_view(all@) == stakes_on_clubs(ledger@.stakes, clubs.take(i as int), users),
        decreases ledger.clubs.len() - i,
    {
        proof {
            assert(clubs.take(i as int + 1).drop_last() =~= clubs.take(i as int));
        }
        append_stakes_of_users(
            &mut all,
            &ledger.stakes,
            &ledger.clubs[i].club_name,
            &user_address_list,
        );
        i += 1;
    }
    assert(clubs.take(i as int) =~= clubs);
    all
}

/// The bonds of the users listed on all clubs.
pub fn query_all_bonds(ledger: &Ledger, user_address_list: Vec<String>) -> (r: Vec<
    ClubBondingDetails,
>)
    ensures
        bonds_view(r@) == bonds_on_clubs(
            ledger@.bonds,
            ledger@.clubs,
            names_view(user_address_list@),
        ),
{
    let ghost clubs = ledger@.clubs;
    let ghost users = names_view(user_address_list@);
    let mut all: Vec<ClubBondingDetails> = Vec::new();
    let mut i: usize = 0;
    while i < ledger.clubs.len()
        invariant
            i <= ledger.clubs.len(),
            clubs == ledger@.clubs,
            users == names_view(user_address_list@),
            bonds_view(all@) == bonds_on_clubs(ledger@.bonds, clubs.take(i as int), users),
        decreases ledger.clubs.len() - i,
    {
        proof {
            assert(clubs.take(i as int + 1).drop_last() =~= clubs.take(i as int));
        }
        append_bonds_of_users(
            &mut all,
            &ledger.bonds,
            &ledger.clubs[i].club_name,
            &user_address_list,
        );
        i += 1;
    }
    assert(clubs.take(i as int) =~= clubs);
    all
}

/// The reward waiting to be distributed.
pub fn query_reward_amount(ledger: &Ledger) -> (r: u128)
    ensures
        r == ledger@.reward,
{
    ledger.reward
}

/// The reward that the stakes of `staker` on `club_name` have accrued; an
/// overflow where the sum leaves the range of an amount.
pub fn query_staker_rewards(ledger: &Ledger, staker: String, club_name: String) -> (r: Result<
    u128,
    StdError,
>)
    ensures
        match r {
            Ok(amount) => amount == claimable(
                stakes_held(ledger@.stakes, club_name@, staker@),
                staker@,
            ),
            Err(e) => e@ == StdErrorView::Overflow && claimable(
                stakes_held(ledger@.stakes, club_name@, staker@),
                staker@,
            ) > u128::MAX,
        },
{
    proof {
        crate::staking::lemma_claimable_nonnegative(
            stakes_held(ledger@.stakes, club_name@, staker@),
            staker@,
        );
    }
    match find_stake_entry(&ledger.stakes, &club_name, &staker) {
        None => Ok(0),
        Some(k) => match accrued_rewards(&ledger.stakes[k].stakes, &staker) {
            Some(amount) => Ok(amount),
            None => Err(StdError::Overflow),
        },
    }
}

/// The record of a club.
pub fn query_club_ownership_details(ledger: &Ledger, club_name: String) -> (r: Result<
    ClubOwnershipDetails,
    StdError,
>)
    ensures
        match club_position(ledger@.clubs, club_name@) {
            Some(c) => r is Ok && r->Ok_0@ == ledger@.clubs[c],
            None => r is Err && r->Err_0@ == (StdErrorView::GenericErr {
                msg: "No ownership details found"@,
            }),
        },
{
    match find_club(&ledger.clubs, &club_name) {
        Some(c) => Ok(ledger.clubs[c].duplicate()),
        None => Err(generic_std_err("No ownership details found")),
    }
}

/// What is owed to a previous owner.
pub fn query_club_previous_owner_details(ledger: &Ledger, previous_owner: String) -> (r: Result<
    ClubPreviousOwnerDetails,
    StdError,
>)
    ensures
        match previous_owner_position(ledger@.previous_owners, previous_owner@) {
            Some(p) => r is Ok && r->Ok_0@ == ledger@.previous_owners[p],
            None => r is Err && r->Err_0@ == (StdErrorView::GenericErr {
                msg: "No previous ownership details found"@,
            }),
        },
{
    match find_previous_owner(&ledger.previous_owners, &previous_owner) {
        Some(p) => Ok(ledger.previous_owners[p].duplicate()),
        None => Err(generic_std_err("No previous ownership details found")),
    }
}

/// The stakes of one user on all clubs. Fails where the user has no entry
/// on one of the clubs.
pub fn query_all_stakes_for_user(ledger: &Ledger, user_address: String) -> (r: Result<
    Vec<ClubStakingDetails>,
    StdError,
>)
    ensures
        match stakes_of_user(ledger@.stakes, ledger@.clubs, user_address@) {
            Some(found) => r is Ok && stakes_view(r->Ok_0@) == found,
            None => r is Err && r->Err_0@ == (StdErrorView::NotFound {
                kind: "ClubStakingDetails"@,
            }),
        },
{
    let ghost clubs = ledger@.clubs;
    let mut all: Vec<ClubStakingDetails> = Vec::new();
    let mut i: usize = 0;
    while i < ledger.clubs.len()
        invariant
            i <= ledger.clubs.len(),
            clubs == ledger@.clubs,
            stakes_of_user(ledger@.stakes, clubs.take(i as int), user_address@) == Some(
                stakes_view(all@),
            ),
        decreases ledger.clubs.len() - i,
    {
        proof {
            assert(clubs.take(i as int + 1).drop_last() =~= clubs.take(i as int));
        }
        let k = match find_stake_entry(&ledger.stakes, &ledger.clubs[i].club_name, &user_address) {
            None => {
                proof {
                    lemma_stakes_of_user_none(
                        ledger@.stakes,
                        clubs,
                        user_address@,
                        i as int + 1,
                    );
                }
                return Err(StdError::NotFound { kind: "ClubStakingDetails".to_owned() });
            },
            Some(k) => k,
        };
        let ghost before = stakes_view(all@);
        let ghost held = stakes_view(ledger.stakes[k as int].stakes@);
        let mut j: usize = 0;
        while j < ledger.stakes[k].stakes.len()
            invariant
                j <= ledger.stakes[k as int].stakes.len(),
                k < ledger.stakes.len(),
                held == stakes_view(ledger.stakes[k as int].stakes@),
                stakes_view(all@) == before + stakes_by(held.take(j as int), user_address@),
            decreases ledger.stakes[k as int].stakes.len() - j,
        {
            proof {
                assert(held.take(j as int + 1).drop_last() =~= held.take(j as int));
            }
            let ghost so_far = stakes_view(all@);
            if ledger.stakes[k].stakes[j].staker_address == user_address {
                all.push(ledger.stakes[k].stakes[j].duplicate());
                assert(stakes_view(all@) =~= so_far.push(held[j as int]));
            }
            j += 1;
        }
        assert(held.take(j as int) =~= held);
        i += 1;
    }
    assert(clubs.take(i as int) =~= clubs);
    Ok(all)
}

/// A user without an entry on one club has no answer for all of them.
pub proof fn lemma_stakes_of_user_none(
    entries: Seq<StakeEntryView>,
    clubs: Seq<ClubView>,
    user: Seq<char>,
    i: int,
)
    requires
        0 <= i <= clubs.len(),
        stakes_of_user(entries, clubs.take(i), user) is None,
    ensures
        stakes_of_user(entries, clubs, user) is None,
    decreases clubs.len() - i,
{
    if i == clubs.len() {
        assert(clubs.take(i) =~= clubs);
    } else {
        assert(clubs.take(i + 1).drop_last() =~= clubs.take(i));
        lemma_stakes_of_user_none(entries, clubs, user, i + 1);
    }
}

/// The bonds of a user on a club. Fails where the user has no entry on it.
pub fn query_club_bonding_details_for_user(
    ledger: &Ledger,
    club_name: String,
    user_address: String,
) -> (r: Result<Vec<ClubBondingDetails>, StdError>)
    ensures
        match bond_position(ledger@.bonds, club_name@, user_address@) {
            Some(b) => r is Ok && bonds_view(r->Ok_0@) == bonds_by(
                ledger@.bonds[b].bonds,
                user_address@,
            ),
            None => r is Err && r->Err_0@ == (StdErrorView::GenericErr {
                msg: "No bonding details found"@,
            }),
        },
{
    let b = match find_bond_entry(&ledger.bonds, &club_name, &user_address) {
        None => {
            return Err(generic_std_err("No bonding details found"));
        },
        Some(b) => b,
    };
    let ghost held = bonds_view(ledger.bonds[b as int].bonds@);
    let mut all: Vec<ClubBondingDetails> = Vec::new();
    let mut j: usize = 0;
    while j < ledger.bonds[b].bonds.len()
        invariant
            j <= ledger.bonds[b as int].bonds.len(),
            b < ledger.bonds.len(),
            held == bonds_view(ledger.bonds[b as int].bonds@),
            bonds_view(all@) == bonds_by(held.take(j as int), user_address@),
        decreases ledger.bonds[b as int].bonds.len() - j,
    {
        proof {
            assert(held.take(j as int + 1).drop_last() =~= held.take(j as int));
        }
        if ledger.bonds[b].bonds[j].bonder_address == user_address {
            all.push(ledger.bonds[b].bonds[j].duplicate());
        }
        j += 1;
    }
    assert(held.take(j as int) =~= held);
    Ok(all)
}

/// The records of all clubs.
pub fn query_all_club_ownership_details(ledger: &Ledger) -> (r: Vec<ClubOwnershipDetails>)
    ensures
        clubs_view(r@) == ledger@.clubs,
{
    duplicate_clubs(&ledger.clubs)
}

/// What is owed to all previous owners.
pub fn query_all_previous_club_ownership_details(ledger: &Ledger) -> (r: Vec<
    ClubPreviousOwnerDetails,
>)
    ensures
        crate::ledger::previous_owners_view(r@) == ledger@.previous_owners,
{
    duplicate_previous_owners(&ledger.previous_owners)
}

/// The records of the clubs that `owner_address` owns.
pub fn query_club_ownership_details_for_owner(ledger: &Ledger, owner_address: String) -> (r: Vec<
    ClubOwnershipDetails,
>)
    ensures
        clubs_view(r@) == clubs_owned_by(ledger@.clubs, owner_address@),
{
    let ghost clubs = ledger@.clubs;
    let mut all: Vec<ClubOwnershipDetails> = Vec::new();
    let mut i: usize = 0;
    while i < ledger.clubs.len()
        invariant
            i <= ledger.clubs.len(),
            clubs == ledger@.clubs,
            clubs_view(all@) == clubs_owned_by(clubs.take(i as int), owner_address@),
        decreases ledger.clubs.len() - i,
    {
        proof {
            assert(clubs.take(i as int + 1).drop_last() =~= clubs.take(i as int));
        }
        if ledger.clubs[i].owner_address == owner_address {
            all.push(ledger.clubs[i].duplicate());
        }
        i += 1;
    }
    assert(clubs.take(i as int) =~= clubs);
    all
}

} // verus!
