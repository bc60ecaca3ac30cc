//! A token-staking ledger: per account, the tokens deposited and the epoch
//! up to which they stay locked.

pub mod amount;
pub mod ids;
pub mod ledger;
pub mod contract;
pub mod laws;

pub use amount::Amount;
pub use contract::{
    get_staked_tokens, stake_token_winter, validate_deposit, ExecutionContext, StakingConfig, StakingError,
    WinterTokenStaking,
};
pub use ids::{Address, TokenId};
pub use ledger::{StakedTokens, StakingLedger};
