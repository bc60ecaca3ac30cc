use winter_staking::{
    get_staked_tokens, stake_token_winter, Address, Amount, ExecutionContext, StakingConfig,
    StakingError, TokenId, WinterTokenStaking, validate_deposit,
};

fn token(name: &str) -> TokenId {
    TokenId::new(name.as_bytes().to_vec())
}

fn account(name: &str) -> Address {
    Address::new(name.as_bytes().to_vec())
}

fn contract(min_staking_epochs: u64) -> WinterTokenStaking {
    WinterTokenStaking::init(StakingConfig {
        accepted_token: token("WINTER"),
        min_staking_epochs,
    })
}

fn ctx(caller: &str, current_epoch: u64) -> ExecutionContext {
    ExecutionContext { caller: account(caller), current_epoch }
}

fn record(c: &WinterTokenStaking, who: &str) -> (Option<u64>, u64) {
    let r = get_staked_tokens(c, account(who));
    (r.amount.to_u64(), r.lock_until_epoch)
}

#[test]
fn example_two_deposits_and_unknown_account() {
    let mut c = contract(10);
    assert_eq!(stake_token_winter(&mut c, &ctx("A", 100), token("WINTER"), Amount::from_u64(50)), Ok(()));
    assert_eq!(record(&c, "A"), (Some(50), 110));
    assert_eq!(stake_token_winter(&mut c, &ctx("A", 105), token("WINTER"), Amount::from_u64(25)), Ok(()));
    assert_eq!(record(&c, "A"), (Some(75), 115));
    assert_eq!(record(&c, "B"), (Some(0), 0));
}

#[test]
fn deposits_accumulate_in_one_epoch() {
    let mut c = contract(7);
    assert_eq!(stake_token_winter(&mut c, &ctx("A", 3), token("WINTER"), Amount::from_u64(4)), Ok(()));
    assert_eq!(stake_token_winter(&mut c, &ctx("A", 3), token("WINTER"), Amount::from_u64(9)), Ok(()));
    assert_eq!(record(&c, "A"), (Some(13), 10));
}

#[test]
fn later_deposit_overwrites_lock() {
    let mut c = contract(10);
    stake_token_winter(&mut c, &ctx("A", 100), token("WINTER"), Amount::from_u64(1)).unwrap();
    stake_token_winter(&mut c, &ctx("A", 200), token("WINTER"), Amount::from_u64(1)).unwrap();
    assert_eq!(record(&c, "A"), (Some(2), 210));
}

#[test]
fn lock_is_overwritten_not_maximised() {
    let mut c = contract(10);
    stake_token_winter(&mut c, &ctx("A", 100), token("WINTER"), Amount::from_u64(1)).unwrap();
    stake_token_winter(&mut c, &ctx("A", 90), token("WINTER"), Amount::from_u64(1)).unwrap();
    assert_eq!(record(&c, "A"), (Some(2), 100));
}

#[test]
fn wrong_token_is_refused_and_changes_nothing() {
    let mut c = contract(10);
    stake_token_winter(&mut c, &ctx("A", 100), token("WINTER"), Amount::from_u64(50)).unwrap();
    stake_token_winter(&mut c, &ctx("B", 100), token("WINTER"), Amount::from_u64(5)).unwrap();
    let r = stake_token_winter(&mut c, &ctx("A", 120), token("SUMMER"), Amount::from_u64(30));
    assert_eq!(r, Err(StakingError::InvalidToken));
    assert_eq!(record(&c, "A"), (Some(50), 110));
    assert_eq!(record(&c, "B"), (Some(5), 110));
}

#[test]
fn wrong_token_wins_over_zero_amount() {
    let mut c = contract(10);
    let r = stake_token_winter(&mut c, &ctx("A", 1), token("WINTE"), Amount::zero());
    assert_eq!(r, Err(StakingError::InvalidToken));
    assert_eq!(record(&c, "A"), (Some(0), 0));
}

#[test]
fn zero_amount_is_refused_and_changes_nothing() {
    let mut c = contract(10);
    stake_token_winter(&mut c, &ctx("A", 100), token("WINTER"), Amount::from_u64(50)).unwrap();
    let r = stake_token_winter(&mut c, &ctx("A", 150), token("WINTER"), Amount::from_u64(0));
    assert_eq!(r, Err(StakingError::InvalidAmount));
    assert_eq!(record(&c, "A"), (Some(50), 110));
    let r = stake_token_winter(&mut c, &ctx("C", 150), token("WINTER"), Amount::from_limbs(vec![0, 0, 0]));
    assert_eq!(r, Err(StakingError::InvalidAmount));
    assert_eq!(record(&c, "C"), (Some(0), 0));
}

#[test]
fn never_deposited_reads_as_default() {
    let c = contract(10);
    assert_eq!(record(&c, "nobody"), (Some(0), 0));
    assert!(c.get_staked_tokens(account("nobody")).amount.is_zero());
}

#[test]
fn deposit_leaves_other_accounts_alone() {
    let mut c = contract(5);
    stake_token_winter(&mut c, &ctx("B", 1), token("WINTER"), Amount::from_u64(8)).unwrap();
    stake_token_winter(&mut c, &ctx("A", 40), token("WINTER"), Amount::from_u64(3)).unwrap();
    stake_token_winter(&mut c, &ctx("A", 41), token("WINTER"), Amount::from_u64(3)).unwrap();
    assert_eq!(record(&c, "B"), (Some(8), 6));
    assert_eq!(record(&c, "A"), (Some(6), 46));
}

#[test]
fn addresses_differing_in_length_are_distinct() {
    let mut c = contract(5);
    stake_token_winter(&mut c, &ctx("AB", 1), token("WINTER"), Amount::from_u64(8)).unwrap();
    assert_eq!(record(&c, "A"), (Some(0), 0));
    assert_eq!(record(&c, "ABC"), (Some(0), 0));
    assert_eq!(record(&c, "AB"), (Some(8), 6));
}

#[test]
fn methods_match_free_functions() {
    let mut c = contract(2);
    assert_eq!(c.stake_token_winter(&ctx("A", 1), token("WINTER"), Amount::from_u64(3)), Ok(()));
    assert_eq!(c.stake_token_winter(&ctx("A", 1), token("OTHER"), Amount::from_u64(3)), Err(StakingError::InvalidToken));
    let r = c.get_staked_tokens(account("A"));
    assert_eq!((r.amount.to_u64(), r.lock_until_epoch), (Some(3), 3));
}

#[test]
fn largest_epoch_sum_is_accepted() {
    let mut c = contract(10);
    stake_token_winter(&mut c, &ctx("A", u64::MAX - 10), token("WINTER"), Amount::from_u64(1)).unwrap();
    assert_eq!(record(&c, "A"), (Some(1), u64::MAX));
}

#[test]
fn amounts_grow_past_u64() {
    let mut c = contract(1);
    stake_token_winter(&mut c, &ctx("A", 0), token("WINTER"), Amount::from_u64(u64::MAX)).unwrap();
    stake_token_winter(&mut c, &ctx("A", 0), token("WINTER"), Amount::from_u64(u64::MAX)).unwrap();
    let r = get_staked_tokens(&c, account("A"));
    assert_eq!(r.amount.to_u64(), None);
    let back = r.amount.add(&Amount::from_limbs(vec![2, 0, u32::MAX - 1]));
    // 2 * (2^64 - 1) + 2 + (2^32 - 2) * 2^64 == 2^96
    assert_eq!(back.to_u64(), None);
    assert!(!back.is_zero());
}

#[test]
fn amount_add_carries_across_limbs() {
    let a = Amount::from_u64(0xFFFF_FFFF);
    let b = Amount::from_u64(1);
    assert_eq!(a.add(&b).to_u64(), Some(0x1_0000_0000));
    assert_eq!(Amount::from_u64(123).add(&Amount::zero()).to_u64(), Some(123));
    assert_eq!(Amount::from_u64(u64::MAX - 5).add(&Amount::from_u64(5)).to_u64(), Some(u64::MAX));
    assert_eq!(Amount::from_u64(u64::MAX).add(&Amount::from_u64(1)).to_u64(), None);
}

#[test]
fn amount_from_limbs_reads_little_endian() {
    assert_eq!(Amount::from_limbs(vec![5, 0, 0, 0]).to_u64(), Some(5));
    assert_eq!(Amount::from_limbs(vec![0, 1]).to_u64(), Some(1 << 32));
    assert_eq!(Amount::from_limbs(vec![0, 0, 1]).to_u64(), None);
    assert!(Amount::from_limbs(vec![]).is_zero());
    assert!(!Amount::from_limbs(vec![0, 0, 7]).is_zero());
    assert_eq!(Amount::from_u64(77).duplicate().to_u64(), Some(77));
}

#[test]
fn identifiers_compare_by_bytes() {
    assert!(token("WINTER").same_as(&token("WINTER")));
    assert!(!token("WINTER").same_as(&token("WINTEr")));
    assert!(account("x").same_as(&account("x").duplicate()));
    assert!(!account("x").same_as(&account("xy")));
}

#[test]
fn amount_bytes_round_trip() {
    let a = Amount::from_bytes_be(&vec![0x01, 0x02, 0x03, 0x04, 0x05]);
    assert_eq!(a.to_u64(), Some(0x01_0203_0405));
    assert_eq!(a.to_bytes_be(), vec![0, 0, 0, 0x01, 0x02, 0x03, 0x04, 0x05]);
    assert_eq!(Amount::from_bytes_be(&vec![0, 0, 7]).to_u64(), Some(7));
    assert!(Amount::from_bytes_be(&vec![]).is_zero());
    assert_eq!(Amount::zero().to_bytes_be(), Vec::<u8>::new());
    let big = Amount::from_bytes_be(&vec![1, 0, 0, 0, 0, 0, 0, 0, 0]);
    assert_eq!(big.to_u64(), None);
    assert_eq!(big.to_bytes_be(), vec![0, 0, 0, 1, 0, 0, 0, 0, 0, 0, 0, 0]);
    assert_eq!(Amount::from_u64(300).mul_add_small(256, 9).to_u64(), Some(300 * 256 + 9));
}

#[test]
fn rejected_deposits_at_the_last_epochs_change_nothing() {
    let mut c = contract(10);
    stake_token_winter(&mut c, &ctx("A", 1), token("WINTER"), Amount::from_u64(4)).unwrap();
    let r = stake_token_winter(&mut c, &ctx("A", u64::MAX), token("SUMMER"), Amount::from_u64(5));
    assert_eq!(r, Err(StakingError::InvalidToken));
    let r = stake_token_winter(&mut c, &ctx("A", u64::MAX - 3), token("WINTER"), Amount::zero());
    assert_eq!(r, Err(StakingError::InvalidAmount));
    let r = stake_token_winter(&mut c, &ctx("B", u64::MAX), token("OTHER"), Amount::zero());
    assert_eq!(r, Err(StakingError::InvalidToken));
    assert_eq!(record(&c, "A"), (Some(4), 11));
    assert_eq!(record(&c, "B"), (Some(0), 0));
}

#[test]
fn validation_checks_token_then_amount() {
    let config = StakingConfig { accepted_token: token("WINTER"), min_staking_epochs: 3 };
    assert_eq!(validate_deposit(&config, &token("WINTER"), &Amount::from_u64(1)), Ok(()));
    assert_eq!(validate_deposit(&config, &token("WINTER"), &Amount::zero()), Err(StakingError::InvalidAmount));
    assert_eq!(validate_deposit(&config, &token("SUMMER"), &Amount::zero()), Err(StakingError::InvalidToken));
    assert_eq!(validate_deposit(&config, &token("SUMMER"), &Amount::from_u64(9)), Err(StakingError::InvalidToken));
}
