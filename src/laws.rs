//! Laws that hold of every deposit and query.

use vstd::prelude::*;
use crate::contract::{after_deposit, deposit_result, StakingError};
use crate::ledger::{default_stake, stake_of, StakeState};

verus! {

/// Two deposits by one account add up: its amount grows by both.
pub proof fn lemma_deposits_accumulate(
    stakes: Map<Seq<u8>, StakeState>,
    caller: Seq<u8>,
    a1: nat,
    a2: nat,
    lock: nat,
)
    ensures
        stake_of(after_deposit(after_deposit(stakes, caller, a1, lock), caller, a2, lock), caller).amount
            == stake_of(stakes, caller).amount + a1 + a2,
{
}

/// The lock that the later of two deposits sets replaces the earlier one,
/// whatever the earlier one was.
pub proof fn lemma_lock_overwritten(
    stakes: Map<Seq<u8>, StakeState>,
    caller: Seq<u8>,
    a1: nat,
    a2: nat,
    e1: nat,
    e2: nat,
    d: nat,
)
    requires
        e1 <= e2,
    ensures
        stake_of(after_deposit(after_deposit(stakes, caller, a1, e1 + d), caller, a2, e2 + d), caller).lock_until_epoch
            == e2 + d,
{
}

/// A deposit of another token than the accepted one is refused as such,
/// whatever its amount.
pub proof fn lemma_wrong_token_refused(accepted: Seq<u8>, token: Seq<u8>, amount: nat)
    requires
        token != accepted,
    ensures
        deposit_result(accepted, token, amount) == Err::<(), StakingError>(StakingError::InvalidToken),
{
}

/// A deposit of no tokens of the accepted token is refused for its amount.
pub proof fn lemma_zero_amount_refused(accepted: Seq<u8>)
    ensures
        deposit_result(accepted, accepted, 0) == Err::<(), StakingError>(StakingError::InvalidAmount),
{
}

/// An account with no record reads as no amount and no lock.
pub proof fn lemma_default_record(stakes: Map<Seq<u8>, StakeState>, k: Seq<u8>)
    requires
        !stakes.contains_key(k),
    ensures
        stake_of(stakes, k) == default_stake(),
        stake_of(stakes, k).amount == 0,
        stake_of(stakes, k).lock_until_epoch == 0,
{
}

/// A deposit by one account leaves every other account's record as it was,
/// present or absent.
pub proof fn lemma_deposit_isolated(
    stakes: Map<Seq<u8>, StakeState>,
    caller: Seq<u8>,
    other: Seq<u8>,
    amount: nat,
    lock: nat,
)
    requires
        caller != other,
    ensures
        stake_of(after_deposit(stakes, caller, amount, lock), other) == stake_of(stakes, other),
        after_deposit(stakes, caller, amount, lock).contains_key(other) == stakes.contains_key(other),
{
}

} // verus!
