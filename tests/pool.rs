use contract_schema::pool::{
    assets_match, deposit, trade_fixed_in, trade_fixed_out, withdraw, PoolError, PoolState,
};

fn state(circulating: i64, reserve_a: i64, reserve_b: i64) -> PoolState {
    PoolState { circulating, reserve_a, reserve_b }
}

#[test]
fn first_deposit_earns_square_root_of_product() {
    assert_eq!(deposit(state(0, 0, 0), 1000, 100), Ok(316));
    assert_eq!(deposit(state(0, 0, 0), 4, 9), Ok(6));
    assert_eq!(deposit(state(0, 0, 0), i64::MAX, i64::MAX), Ok(i64::MAX));
}

#[test]
fn later_deposit_earns_smaller_share() {
    assert_eq!(deposit(state(100, 1000, 500), 100, 100), Ok(10));
    assert_eq!(deposit(state(100, 1000, 0), 100, 100), Ok(10));
    assert_eq!(deposit(state(100, 0, 500), 100, 100), Ok(20));
}

#[test]
fn deposit_errors() {
    assert_eq!(deposit(state(0, 0, 0), 0, 100), Err(PoolError::InvalidAmount));
    assert_eq!(deposit(state(0, 0, 0), 10, -1), Err(PoolError::InvalidAmount));
    assert_eq!(deposit(state(-1, 0, 0), 10, 10), Err(PoolError::InvalidState));
    assert_eq!(deposit(state(5, 0, 0), 10, 10), Err(PoolError::EmptyReserves));
    assert_eq!(deposit(state(i64::MAX, 1, 1), 2, 2), Err(PoolError::Overflow));
}

#[test]
fn withdraw_pays_proportion() {
    assert_eq!(withdraw(state(100, 1000, 500), 10), Ok((100, 50)));
    assert_eq!(withdraw(state(3, 10, 10), 1), Ok((3, 3)));
    assert_eq!(withdraw(state(100, 1000, 500), 0), Err(PoolError::InvalidAmount));
    assert_eq!(withdraw(state(0, 1000, 500), 10), Err(PoolError::NothingIssued));
    assert_eq!(withdraw(state(1, i64::MAX, 0), 2), Err(PoolError::Overflow));
}

#[test]
fn trades_keep_the_product() {
    assert_eq!(trade_fixed_in(1000, 1000, 100, 0), Ok(90));
    assert_eq!(trade_fixed_in(1000, 1000, 100, 91), Err(PoolError::MinAmountNotMet));
    assert_eq!(trade_fixed_in(1000, 1000, 0, 0), Err(PoolError::InvalidAmount));
    assert_eq!(trade_fixed_out(1000, 1000, 100, 100), Ok(90));
    assert_eq!(trade_fixed_out(1000, 1000, 89, 100), Err(PoolError::MaxAmountExceeded));
    assert_eq!(trade_fixed_out(-5, 1000, 89, 100), Err(PoolError::InvalidState));
}

#[test]
fn trade_assets_must_be_the_pair() {
    assert!(assets_match(1, 2, 1, 2));
    assert!(assets_match(2, 1, 1, 2));
    assert!(!assets_match(1, 1, 1, 2));
    assert!(!assets_match(3, 2, 1, 2));
}
