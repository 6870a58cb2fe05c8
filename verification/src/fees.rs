//! Platform fees: what an operation is charged on, and whether the funds
//! sent settle it.

use vstd::prelude::*;
use crate::error::{overflow, overflow_err, ContractError, ContractErrorView, StdError};
use crate::ledger::{find_stake_entry, Ledger, LedgerView};
use crate::msg::{ExecuteMsg, ProxyQueryMsgs};
use crate::query::stakes_held;
use crate::response::{coins_view, Coin, CoinView};
use crate::staking::{accrued_rewards, claimable};

verus! {

/// 100%, in hundredths of a percent.
pub const HUNDRED_PERCENT: u128 = 10000u128;

/// The share of a quoted fee that has to be paid at least: 99.9%.
pub const NINETY_NINE_NINE_PERCENT: u128 = 9990u128;

/// What `funds` hold in the currency in which fees are paid.
pub open spec fn uusd_total(funds: Seq<CoinView>) -> int
    decreases funds.len(),
{
    if funds.len() == 0 {
        0
    } else {
        uusd_total(funds.drop_last()) + (if funds.last().denom == "uusd"@ {
            funds.last().amount as int
        } else {
            0
        })
    }
}

/// What has to be paid at least when `required` is the fee quoted.
pub open spec fn adjusted_fees(required: u128) -> int {
    required * NINETY_NINE_NINE_PERCENT / (HUNDRED_PERCENT as int)
}

/// Why `funds` do not settle the fee quoted, if they do not.
pub open spec fn fee_shortfall(funds: Seq<CoinView>, required: u128) -> Option<ContractErrorView> {
    if uusd_total(funds) > u128::MAX || required * NINETY_NINE_NINE_PERCENT > u128::MAX {
        Some(overflow())
    } else if uusd_total(funds) < adjusted_fees(required) {
        Some(
            ContractErrorView::InsufficientFees {
                required,
                received: uusd_total(funds) as u128,
            },
        )
    } else {
        None
    }
}

/// What the first funds hold does not exceed what all of them hold.
pub proof fn lemma_uusd_total_monotone(funds: Seq<CoinView>, i: int)
    requires
        0 <= i <= funds.len(),
    ensures
        0 <= uusd_total(funds.take(i)) <= uusd_total(funds),
    decreases funds.len() - i,
{
    if i == funds.len() {
        assert(funds.take(i) =~= funds);
        lemma_uusd_total_nonnegative(funds);
    } else {
        lemma_uusd_total_monotone(funds, i + 1);
        assert(funds.take(i + 1).drop_last() =~= funds.take(i));
        lemma_uusd_total_nonnegative(funds.take(i));
    }
}

/// Funds hold no less than nothing.
pub proof fn lemma_uusd_total_nonnegative(funds: Seq<CoinView>)
    ensures
        0 <= uusd_total(funds),
    decreases funds.len(),
{
    if funds.len() > 0 {
        lemma_uusd_total_nonnegative(funds.drop_last());
    }
}

/// Holds the funds sent against the fee quoted for the operation.
pub fn check_fees(funds: &Vec<Coin>, required_ust_fees: u128) -> (r: Result<(), ContractError>)
    ensures
        match fee_shortfall(coins_view(funds@), required_ust_fees) {
            Some(e) => r is Err && r->Err_0@ == e,
            None => r is Ok,
        },
{
    let uusd: String = "uusd".to_owned();
    let ghost all = coins_view(funds@);
    let mut fees: u128 = 0;
    let mut i: usize = 0;
    while i < funds.len()
        invariant
            i <= funds.len(),
            all == coins_view(funds@),
            uusd@ == "uusd"@,
            fees == uusd_total(all.take(i as int)),
        decreases funds.len() - i,
    {
        proof {
            assert(all.take(i as int + 1).drop_last() =~= all.take(i as int));
            lemma_uusd_total_monotone(all, i as int + 1);
        }
        if funds[i].denom == uusd {
            fees = match fees.checked_add(funds[i].amount) {
                None => {
                    return Err(overflow_err());
                },
                Some(f) => f,
            };
        }
        i += 1;
    }
    proof {
        assert(all.take(i as int) =~= all);
    }
    let scaled = match required_ust_fees.checked_mul(NINETY_NINE_NINE_PERCENT) {
        None => {
            return Err(overflow_err());
        },
        Some(s) => s,
    };
    let adjusted: u128 = scaled / HUNDRED_PERCENT;
    if fees < adjusted {
        return Err(ContractError::InsufficientFees { required: required_ust_fees, received: fees });
    }
    Ok(())
}

/// What the platform fee of an operation is taken from.
#[derive(Clone, Copy, Debug, PartialEq, Eq, Structural)]
pub struct FeeBasis {
    /// The share that is due, in hundredths of a percent.
    pub percentage: u128,
    /// The amount of tokens that the operation moves.
    pub fury_amount: u128,
}

/// What the platform fee of an operation is taken from: `Ok(None)` for an
/// operation that is free, `Err` where a sum leaves the range of an amount.
///
/// A purchase pays platform and transaction fees on the price of a club; a
/// stake pays platform, transaction and control fees on its amount; a
/// withdrawal pays platform and transaction fees on its amount; a staker's
/// claim pays them on the reward claimed. Every other operation is free.
pub open spec fn fee_basis(pre: LedgerView, msg: ExecuteMsg) -> Result<Option<FeeBasis>, ()> {
    let base = pre.config.platform_fees + pre.config.transaction_fees;
    match msg {
        ExecuteMsg::BuyAClub { .. } => if base > u128::MAX {
            Err(())
        } else {
            Ok(Some(FeeBasis { percentage: base as u128, fury_amount: pre.config.club_price }))
        },
        ExecuteMsg::StakeOnAClub { amount, .. } => if base + pre.config.control_fees
            > u128::MAX {
            Err(())
        } else {
            Ok(
                Some(
                    FeeBasis {
                        percentage: (base + pre.config.control_fees) as u128,
                        fury_amount: amount,
                    },
                ),
            )
        },
        ExecuteMsg::StakeWithdrawFromAClub { amount, .. } => if base > u128::MAX {
            Err(())
        } else {
            Ok(Some(FeeBasis { percentage: base as u128, fury_amount: amount }))
        },
        ExecuteMsg::ClaimStakerRewards { staker, club_name } => {
            let reward = claimable(stakes_held(pre.stakes, club_name@, staker@), staker@);
            if reward > u128::MAX || base > u128::MAX {
                Err(())
            } else {
                Ok(Some(FeeBasis { percentage: base as u128, fury_amount: reward as u128 }))
            }
        },
        _ => Ok(None),
    }
}

/// The question to put to the exchange-rate oracle for a fee basis.
pub fn quote_request(basis: FeeBasis) -> (q: ProxyQueryMsgs)
    ensures
        q == (ProxyQueryMsgs::get_ust_equivalent_to_fury { fury_count: basis.fury_amount }),
{
    ProxyQueryMsgs::get_ust_equivalent_to_fury { fury_count: basis.fury_amount }
}

/// Finds what the platform fee of an operation is taken from.
pub fn platform_fee_basis(ledger: &Ledger, msg: &ExecuteMsg) -> (r: Result<
    Option<FeeBasis>,
    StdError,
>)
    ensures
        match fee_basis(ledger@, *msg) {
            Ok(basis) => r == Ok::<Option<FeeBasis>, StdError>(basis),
            Err(_) => r is Err && r->Err_0@ == crate::error::StdErrorView::Overflow,
        },
{
    let base: Option<u128> = ledger.config.platform_fees.checked_add(
        ledger.config.transaction_fees,
    );
    match msg {
        ExecuteMsg::BuyAClub { .. } => match base {
            None => Err(StdError::Overflow),
            Some(percentage) => Ok(
                Some(FeeBasis { percentage, fury_amount: ledger.config.club_price }),
            ),
        },
        ExecuteMsg::StakeOnAClub { amount, .. } => match base {
            None => Err(StdError::Overflow),
            Some(base) => match base.checked_add(ledger.config.control_fees) {
                None => Err(StdError::Overflow),
                Some(percentage) => Ok(Some(FeeBasis { percentage, fury_amount: *amount })),
            },
        },
        ExecuteMsg::StakeWithdrawFromAClub { amount, .. } => match base {
            None => Err(StdError::Overflow),
            Some(percentage) => Ok(Some(FeeBasis { percentage, fury_amount: *amount })),
        },
        ExecuteMsg::ClaimStakerRewards { staker, club_name } => {
            proof {
                crate::staking::lemma_claimable_nonnegative(
                    stakes_held(ledger@.stakes, club_name@, staker@),
                    staker@,
                );
            }
            let reward: Option<u128> = match find_stake_entry(&ledger.stakes, club_name, staker) {
                None => Some(0),
                Some(k) => accrued_rewards(&ledger.stakes[k].stakes, staker),
            };
            match (reward, base) {
                (Some(fury_amount), Some(percentage)) => Ok(
                    Some(FeeBasis { percentage, fury_amount }),
                ),
                _ => Err(StdError::Overflow),
            }
        },
        _ => Ok(None),
    }
}

/// The platform fee where `ust_equiv_for_fury` is what the amount moved is
/// worth: the share due of it, truncated. `None` where the product leaves the
/// range of an amount.
pub open spec fn fee_of_quote(ust_equiv_for_fury: u128, percentage: u128) -> Option<u128> {
    if ust_equiv_for_fury * percentage > u128::MAX {
        None
    } else {
        Some(((ust_equiv_for_fury * percentage) / (HUNDRED_PERCENT as int)) as u128)
    }
}

/// The platform fee of an operation, given what the oracle answered.
pub open spec fn platform_fees(pre: LedgerView, msg: ExecuteMsg, ust_equiv_for_fury: u128) -> Option<
    u128,
> {
    match fee_basis(pre, msg) {
        Err(_) => None,
        Ok(None) => Some(0),
        Ok(Some(basis)) => fee_of_quote(ust_equiv_for_fury, basis.percentage),
    }
}

/// Computes the platform fee of an operation. `ust_equiv_for_fury` is what
/// the oracle answered to the question that `quote_request` gives for the
/// operation's fee basis; it is not looked at for an operation that is free.
pub fn query_platform_fees(ledger: &Ledger, msg: &ExecuteMsg, ust_equiv_for_fury: u128) -> (r:
    Result<u128, StdError>)
    ensures
        match platform_fees(ledger@, *msg, ust_equiv_for_fury) {
            Some(fee) => r == Ok::<u128, StdError>(fee),
            None => r is Err && r->Err_0@ == crate::error::StdErrorView::Overflow,
        },
{
    let basis = match platform_fee_basis(ledger, msg) {
        Err(e) => {
            return Err(e);
        },
        Ok(None) => {
            return Ok(0);
        },
        Ok(Some(basis)) => basis,
    };
    match ust_equiv_for_fury.checked_mul(basis.percentage) {
        None => Err(StdError::Overflow),
        Some(scaled) => Ok(scaled / HUNDRED_PERCENT),
    }
}

} // verus!
