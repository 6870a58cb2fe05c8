//! The records that the ledger keeps, and points in time.

use vstd::prelude::*;

verus! {

/// Number of nanoseconds in one second.
pub const NANOS_PER_SECOND: u64 = 1_000_000_000u64;

/// A point in time, counted in nanoseconds since the epoch.
#[derive(Clone, Copy, Debug, PartialEq, Eq, Structural)]
pub struct Timestamp {
    pub nanos: u64,
}

/// The length of `seconds` seconds in nanoseconds.
pub fn span_nanos(seconds: u64) -> (n: u128)
    ensures
        n == seconds * NANOS_PER_SECOND,
        n <= 0xffff_ffff_ffff_ffff * 1_000_000_000,
{
    assert(seconds * 1_000_000_000 <= 0xffff_ffff_ffff_ffff * 1_000_000_000) by (nonlinear_arith)
        requires
            seconds <= 0xffff_ffff_ffff_ffff,
    ;
    seconds as u128 * (NANOS_PER_SECOND as u128)
}

impl Timestamp {
    /// The point in time `nanos` nanoseconds after the epoch.
    pub fn from_nanos(nanos: u64) -> (t: Timestamp)
        ensures
            t.nanos == nanos,
    {
        Timestamp { nanos }
    }

    /// The whole seconds of this point in time.
    pub fn seconds(&self) -> (s: u64)
        ensures
            s == self.nanos / NANOS_PER_SECOND,
    {
        self.nanos / NANOS_PER_SECOND
    }

    /// The nanosecond count of `self` moved forward by `seconds`, as a
    /// mathematical integer.
    pub open spec fn after(self, seconds: u64) -> int {
        self.nanos + seconds * NANOS_PER_SECOND
    }

    /// The nanosecond count of `self` moved back by `seconds`, as a
    /// mathematical integer (negative before the epoch).
    pub open spec fn before(self, seconds: u64) -> int {
        self.nanos - seconds * NANOS_PER_SECOND
    }

    /// Moves the timestamp forward; `None` when the result does not fit.
    pub fn checked_plus_seconds(&self, seconds: u64) -> (r: Option<Timestamp>)
        ensures
            r == (if self.after(seconds) <= u64::MAX {
                Some(Timestamp { nanos: self.after(seconds) as u64 })
            } else {
                None
            }),
    {
        let span: u128 = span_nanos(seconds);
        let wide: u128 = self.nanos as u128 + span;
        if wide <= u64::MAX as u128 {
            Some(Timestamp { nanos: wide as u64 })
        } else {
            None
        }
    }

    /// Moves the timestamp back; `None` when the result would lie before the epoch.
    pub fn checked_minus_seconds(&self, seconds: u64) -> (r: Option<Timestamp>)
        ensures
            r == (if self.before(seconds) >= 0 {
                Some(Timestamp { nanos: self.before(seconds) as u64 })
            } else {
                None
            }),
    {
        let wide: u128 = span_nanos(seconds);
        if wide <= self.nanos as u128 {
            Some(Timestamp { nanos: (self.nanos as u128 - wide) as u64 })
        } else {
            None
        }
    }

    /// Whether `now` is not later than `self` moved forward by `seconds`,
    /// decided without overflow.
    pub fn elapsed_by_not_after(&self, seconds: u64, now: Timestamp) -> (r: bool)
        ensures
            r == (now.nanos <= self.after(seconds)),
    {
        let span: u128 = span_nanos(seconds);
        let wide: u128 = self.nanos as u128 + span;
        now.nanos as u128 <= wide
    }

    /// Whether `self` moved forward by `seconds` is not later than `now`,
    /// decided without overflow.
    pub fn elapsed_by(&self, seconds: u64, now: Timestamp) -> (r: bool)
        ensures
            r == (self.after(seconds) <= now.nanos),
    {
        let span: u128 = span_nanos(seconds);
        let wide: u128 = self.nanos as u128 + span;
        wide <= now.nanos as u128
    }
}

/// Parameters fixed when the ledger is created.
#[derive(Debug, PartialEq)]
pub struct Config {
    pub admin_address: String,
    pub minting_contract_address: String,
    pub astro_proxy_address: String,
    pub club_fee_collector_wallet: String,
    pub club_reward_next_timestamp: Timestamp,
    pub reward_periodicity: u64,
    pub club_price: u128,
    pub bonding_duration: u64,
    pub owner_release_locking_duration: u64,
    pub platform_fees_collector_wallet: String,
    /// Percentage multiplied by 100, i.e. 100% = 10000 and 0.01% = 1.
    pub platform_fees: u128,
    /// Percentage multiplied by 100.
    pub transaction_fees: u128,
    /// Percentage multiplied by 100.
    pub control_fees: u128,
    pub max_bonding_limit_per_user: u64,
}

/// What a `Config` holds, as values.
pub struct ConfigView {
    pub admin_address: Seq<char>,
    pub minting_contract_address: Seq<char>,
    pub astro_proxy_address: Seq<char>,
    pub club_fee_collector_wallet: Seq<char>,
    pub club_reward_next_timestamp: Timestamp,
    pub reward_periodicity: u64,
    pub club_price: u128,
    pub bonding_duration: u64,
    pub owner_release_locking_duration: u64,
    pub platform_fees_collector_wallet: Seq<char>,
    pub platform_fees: u128,
    pub transaction_fees: u128,
    pub control_fees: u128,
    pub max_bonding_limit_per_user: u64,
}

impl View for Config {
    type V = ConfigView;

    open spec fn view(&self) -> ConfigView {
        ConfigView {
            admin_address: self.admin_address@,
            minting_contract_address: self.minting_contract_address@,
            astro_proxy_address: self.astro_proxy_address@,
            club_fee_collector_wallet: self.club_fee_collector_wallet@,
            club_reward_next_timestamp: self.club_reward_next_timestamp,
            reward_periodicity: self.reward_periodicity,
            club_price: self.club_price,
            bonding_duration: self.bonding_duration,
            owner_release_locking_duration: self.owner_release_locking_duration,
            platform_fees_collector_wallet: self.platform_fees_collector_wallet@,
            platform_fees: self.platform_fees,
            transaction_fees: self.transaction_fees,
            control_fees: self.control_fees,
            max_bonding_limit_per_user: self.max_bonding_limit_per_user,
        }
    }
}

impl Config {
    /// A copy of the record.
    pub fn duplicate(&self) -> (c: Config)
        ensures
            c@ == self@,
    {
        Config {
            admin_address: self.admin_address.clone(),
            minting_contract_address: self.minting_contract_address.clone(),
            astro_proxy_address: self.astro_proxy_address.clone(),
            club_fee_collector_wallet: self.club_fee_collector_wallet.clone(),
            club_reward_next_timestamp: self.club_reward_next_timestamp,
            reward_periodicity: self.reward_periodicity,
            club_price: self.club_price,
            bonding_duration: self.bonding_duration,
            owner_release_locking_duration: self.owner_release_locking_duration,
            platform_fees_collector_wallet: self.platform_fees_collector_wallet.clone(),
            platform_fees: self.platform_fees,
            transaction_fees: self.transaction_fees,
            control_fees: self.control_fees,
            max_bonding_limit_per_user: self.max_bonding_limit_per_user,
        }
    }
}

/// The ownership record of one club.
#[derive(Debug, PartialEq)]
pub struct ClubOwnershipDetails {
    pub club_name: String,
    /// When the club was acquired, or when its owner last released it.
    pub start_timestamp: Timestamp,
    /// Seconds after `start_timestamp` during which a release stays open.
    pub locking_period: u64,
    pub owner_address: String,
    pub price_paid: u128,
    pub reward_amount: u128,
    /// Whether the owner has released the club for a new buyer.
    pub owner_released: bool,
    /// Total amount staked across all stakes for this club.
    pub total_staked_amount: u128,
}

/// What a `ClubOwnershipDetails` holds, as values.
pub struct ClubView {
    pub club_name: Seq<char>,
    pub start_timestamp: Timestamp,
    pub locking_period: u64,
    pub owner_address: Seq<char>,
    pub price_paid: u128,
    pub reward_amount: u128,
    pub owner_released: bool,
    pub total_staked_amount: u128,
}

impl View for ClubOwnershipDetails {
    type V = ClubView;

    open spec fn view(&self) -> ClubView {
        ClubView {
            club_name: self.club_name@,
            start_timestamp: self.start_timestamp,
            locking_period: self.locking_period,
            owner_address: self.owner_address@,
            price_paid: self.price_paid,
            reward_amount: self.reward_amount,
            owner_released: self.owner_released,
            total_staked_amount: self.total_staked_amount,
        }
    }
}

impl ClubOwnershipDetails {
    /// A copy of the record.
    pub fn duplicate(&self) -> (c: ClubOwnershipDetails)
        ensures
            c@ == self@,
    {
        ClubOwnershipDetails {
            club_name: self.club_name.clone(),
            start_timestamp: self.start_timestamp,
            locking_period: self.locking_period,
            owner_address: self.owner_address.clone(),
            price_paid: self.price_paid,
            reward_amount: self.reward_amount,
            owner_released: self.owner_released,
            total_staked_amount: self.total_staked_amount,
        }
    }
}

/// Reward still owed to an address that no longer owns a club.
#[derive(Debug, PartialEq)]
pub struct ClubPreviousOwnerDetails {
    pub previous_owner_address: String,
    pub reward_amount: u128,
}

/// What a `ClubPreviousOwnerDetails` holds, as values.
pub struct PreviousOwnerView {
    pub previous_owner_address: Seq<char>,
    pub reward_amount: u128,
}

impl View for ClubPreviousOwnerDetails {
    type V = PreviousOwnerView;

    open spec fn view(&self) -> PreviousOwnerView {
        PreviousOwnerView {
            previous_owner_address: self.previous_owner_address@,
            reward_amount: self.reward_amount,
        }
    }
}

impl ClubPreviousOwnerDetails {
    /// A copy of the record.
    pub fn duplicate(&self) -> (c: ClubPreviousOwnerDetails)
        ensures
            c@ == self@,
    {
        ClubPreviousOwnerDetails {
            previous_owner_address: self.previous_owner_address.clone(),
            reward_amount: self.reward_amount,
        }
    }
}

/// One stake of a staker on a club.
#[derive(Debug, PartialEq)]
pub struct ClubStakingDetails {
    pub club_name: String,
    pub staker_address: String,
    /// From when on the stake takes part in a reward round.
    pub staking_start_timestamp: Timestamp,
    pub staked_amount: u128,
    pub staking_duration: u64,
    /// Reward earned and not yet compounded or claimed.
    pub reward_amount: u128,
    /// Whether rewards are folded into the stake.
    pub auto_stake: bool,
}

/// What a `ClubStakingDetails` holds, as values.
pub struct StakeView {
    pub club_name: Seq<char>,
    pub staker_address: Seq<char>,
    pub staking_start_timestamp: Timestamp,
    pub staked_amount: u128,
    pub staking_duration: u64,
    pub reward_amount: u128,
    pub auto_stake: bool,
}

impl View for ClubStakingDetails {
    type V = StakeView;

    open spec fn view(&self) -> StakeView {
        StakeView {
            club_name: self.club_name@,
            staker_address: self.staker_address@,
            staking_start_timestamp: self.staking_start_timestamp,
            staked_amount: self.staked_amount,
            staking_duration: self.staking_duration,
            reward_amount: self.reward_amount,
            auto_stake: self.auto_stake,
        }
    }
}

impl ClubStakingDetails {
    /// A copy of the record.
    pub fn duplicate(&self) -> (c: ClubStakingDetails)
        ensures
            c@ == self@,
    {
        ClubStakingDetails {
            club_name: self.club_name.clone(),
            staker_address: self.staker_address.clone(),
            staking_start_timestamp: self.staking_start_timestamp,
            staked_amount: self.staked_amount,
            staking_duration: self.staking_duration,
            reward_amount: self.reward_amount,
            auto_stake: self.auto_stake,
        }
    }
}

/// An amount withdrawn from a stake that waits out its bonding period.
#[derive(Debug, PartialEq)]
pub struct ClubBondingDetails {
    pub club_name: String,
    pub bonder_address: String,
    pub bonding_start_timestamp: Timestamp,
    pub bonded_amount: u128,
    /// Seconds from `bonding_start_timestamp` until the bond matures.
    pub bonding_duration: u64,
}

/// What a `ClubBondingDetails` holds, as values.
pub struct BondView {
    pub club_name: Seq<char>,
    pub bonder_address: Seq<char>,
    pub bonding_start_timestamp: Timestamp,
    pub bonded_amount: u128,
    pub bonding_duration: u64,
}

impl View for ClubBondingDetails {
    type V = BondView;

    open spec fn view(&self) -> BondView {
        BondView {
            club_name: self.club_name@,
            bonder_address: self.bonder_address@,
            bonding_start_timestamp: self.bonding_start_timestamp,
            bonded_amount: self.bonded_amount,
            bonding_duration: self.bonding_duration,
        }
    }
}

impl ClubBondingDetails {
    /// A copy of the record.
    pub fn duplicate(&self) -> (c: ClubBondingDetails)
        ensures
            c@ == self@,
    {
        ClubBondingDetails {
            club_name: self.club_name.clone(),
            bonder_address: self.bonder_address.clone(),
            bonding_start_timestamp: self.bonding_start_timestamp,
            bonded_amount: self.bonded_amount,
            bonding_duration: self.bonding_duration,
        }
    }
}

/// The ranking of one reward round, computed by its first batch.
#[derive(Debug, PartialEq)]
pub struct WinningClubDetails {
    pub total_number_of_clubs: u64,
    pub total_stake_across_all_clubs: u128,
    pub total_stake_in_winning_club: u128,
    pub winner_list: Vec<String>,
}

/// What a `WinningClubDetails` holds, as values.
pub struct WinningView {
    pub total_number_of_clubs: u64,
    pub total_stake_across_all_clubs: u128,
    pub total_stake_in_winning_club: u128,
    pub winner_list: Seq<Seq<char>>,
}

/// The views of a sequence of strings.
pub open spec fn names_view(names: Seq<String>) -> Seq<Seq<char>> {
    names.map_values(|s: String| s@)
}

impl View for WinningClubDetails {
    type V = WinningView;

    open spec fn view(&self) -> WinningView {
        WinningView {
            total_number_of_clubs: self.total_number_of_clubs,
            total_stake_across_all_clubs: self.total_stake_across_all_clubs,
            total_stake_in_winning_club: self.total_stake_in_winning_club,
            winner_list: names_view(self.winner_list@),
        }
    }
}

/// A copy of a list of names.
pub fn duplicate_names(names: &Vec<String>) -> (c: Vec<String>)
    ensures
        names_view(c@) == names_view(names@),
{
    let mut c: Vec<String> = Vec::new();
    let mut i: usize = 0;
    while i < names.len()
        invariant
            i <= names.len(),
            c.len() == i,
            forall|j: int| 0 <= j < i ==> c[j]@ == names[j]@,
        decreases names.len() - i,
    {
        c.push(names[i].clone());
        i += 1;
    }
    c
}

impl WinningClubDetails {
    /// A copy of the record.
    pub fn duplicate(&self) -> (c: WinningClubDetails)
        ensures
            c@ == self@,
    {
        WinningClubDetails {
            total_number_of_clubs: self.total_number_of_clubs,
            total_stake_across_all_clubs: self.total_stake_across_all_clubs,
            total_stake_in_winning_club: self.total_stake_in_winning_club,
            winner_list: duplicate_names(&self.winner_list),
        }
    }
}

} // verus!
