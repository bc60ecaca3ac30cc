//! The staking contract: deposits that accumulate and relock, and queries.

use vstd::prelude::*;
use crate::amount::Amount;
use crate::ids::{Address, TokenId};
use crate::ledger::{stake_of, StakeState, StakedTokens, StakingLedger};

verus! {

/// The settings that the contract reads and never changes.
pub struct StakingConfig {
    /// The only token that deposits may carry.
    pub accepted_token: TokenId,
    /// How many epochs past the current one a deposit stays locked.
    pub min_staking_epochs: u64,
}

/// What the host tells the contract about the call at hand.
pub struct ExecutionContext {
    /// The account that makes the call.
    pub caller: Address,
    /// The epoch in which the call runs.
    pub current_epoch: u64,
}

/// Why a deposit was refused.
#[derive(Debug, Clone, Copy, PartialEq, Eq, Structural)]
pub enum StakingError {
    /// The deposit carries another token than the accepted one.
    InvalidToken,
    /// The deposit carries no tokens.
    InvalidAmount,
}

/// The outcome of depositing `amount` of `token` where `accepted` is the
/// accepted token.
pub open spec fn deposit_result(accepted: Seq<u8>, token: Seq<u8>, amount: nat) -> Result<
    (),
    StakingError,
> {
    if token != accepted {
        Err(StakingError::InvalidToken)
    } else if amount == 0 {
        Err(StakingError::InvalidAmount)
    } else {
        Ok(())
    }
}

/// The stakes after `caller` deposited `amount` with the lock set to `lock`:
/// the amount adds up, the lock is overwritten.
pub open spec fn after_deposit(
    stakes: Map<Seq<u8>, StakeState>,
    caller: Seq<u8>,
    amount: nat,
    lock: nat,
) -> Map<Seq<u8>, StakeState> {
    stakes.insert(
        caller,
        StakeState { amount: stake_of(stakes, caller).amount + amount, lock_until_epoch: lock },
    )
}

/// The contract's state: its settings and the stake records.
pub struct WinterTokenStaking {
    pub config: StakingConfig,
    pub staked_tokens: StakingLedger,
}

impl WinterTokenStaking {
    /// The state is consistent.
    pub open spec fn wf(&self) -> bool {
        self.staked_tokens.wf()
    }

    /// The stake record of every account that has one.
    pub open spec fn stakes(&self) -> Map<Seq<u8>, StakeState> {
        self.staked_tokens@
    }

    /// A contract with the settings `config` and no stake.
    pub fn init(config: StakingConfig) -> (r: WinterTokenStaking)
        ensures
            r.wf(),
            r.config == config,
            r.stakes() == Map::<Seq<u8>, StakeState>::empty(),
    {
        WinterTokenStaking { config, staked_tokens: StakingLedger::new() }
    }

    /// Deposits `amount` of `token` for the caller; see [`stake_token_winter`].
    pub fn stake_token_winter(&mut self, ctx: &ExecutionContext, token: TokenId, amount: Amount) -> (r:
        Result<(), StakingError>)
        requires
            old(self).wf(),
            deposit_result(old(self).config.accepted_token@, token@, amount@) is Ok
                ==> ctx.current_epoch + old(self).config.min_staking_epochs <= u64::MAX,
        ensures
            final(self).wf(),
            final(self).config == old(self).config,
            r == deposit_result(old(self).config.accepted_token@, token@, amount@),
            r is Ok ==> final(self).stakes() == after_deposit(
                old(self).stakes(),
                ctx.caller@,
                amount@,
                (ctx.current_epoch + old(self).config.min_staking_epochs) as nat,
            ),
            r is Err ==> final(self).stakes() == old(self).stakes(),
    {
        stake_token_winter(self, ctx, token, amount)
    }

    /// The stake record of `address`; see [`get_staked_tokens`].
    pub fn get_staked_tokens(&self, address: Address) -> (r: StakedTokens)
        requires
            self.wf(),
        ensures
            r@ == stake_of(self.stakes(), address@),
    {
        get_staked_tokens(self, address)
    }
}

/// Whether a deposit of `amount` of `token` passes the checks of `config`:
/// the token is checked first, then the amount.
pub fn validate_deposit(config: &StakingConfig, token: &TokenId, amount: &Amount) -> (r: Result<
    (),
    StakingError,
>)
    ensures
        r == deposit_result(config.accepted_token@, token@, amount@),
{
    if !token.same_as(&config.accepted_token) {
        return Err(StakingError::InvalidToken);
    }
    if amount.is_zero() {
        return Err(StakingError::InvalidAmount);
    }
    Ok(())
}

/// Deposits `amount` of `token` for the caller of `ctx`.
///
/// A deposit of another token than the accepted one fails with
/// `InvalidToken`, one of no tokens with `InvalidAmount`; either way nothing
/// changes. Otherwise the caller's amount grows by `amount` and its lock is set
/// to the current epoch plus the minimum staking duration, even where that is
/// earlier than the lock it had.
pub fn stake_token_winter(
    contract: &mut WinterTokenStaking,
    ctx: &ExecutionContext,
    token: TokenId,
    amount: Amount,
) -> (r: Result<(), StakingError>)
    requires
        old(contract).wf(),
        deposit_result(old(contract).config.accepted_token@, token@, amount@) is Ok
            ==> ctx.current_epoch + old(contract).config.min_staking_epochs <= u64::MAX,
    ensures
        final(contract).wf(),
        final(contract).config == old(contract).config,
        r == deposit_result(old(contract).config.accepted_token@, token@, amount@),
        r is Ok ==> final(contract).stakes() == after_deposit(
            old(contract).stakes(),
            ctx.caller@,
            amount@,
            (ctx.current_epoch + old(contract).config.min_staking_epochs) as nat,
        ),
        r is Err ==> final(contract).stakes() == old(contract).stakes(),
{
    let checked = validate_deposit(&contract.config, &token, &amount);
    if checked.is_err() {
        return checked;
    }
    let lock_until_epoch: u64 = ctx.current_epoch + contract.config.min_staking_epochs;
    let staked = contract.staked_tokens.get_or_default(&ctx.caller);
    let updated = StakedTokens { amount: staked.amount.add(&amount), lock_until_epoch };
    contract.staked_tokens.set(ctx.caller.duplicate(), updated);
    Ok(())
}

/// The stake record of `address`: the default one, no amount and no lock,
/// where it never deposited.
pub fn get_staked_tokens(contract: &WinterTokenStaking, address: Address) -> (r: StakedTokens)
    requires
        contract.wf(),
    ensures
        r@ == stake_of(contract.stakes(), address@),
{
    contract.staked_tokens.get_or_default(&address)
}

} // verus!
