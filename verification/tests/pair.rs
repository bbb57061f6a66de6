use amm_pool::math::{MathError, U256};
use amm_pool::pair::{PairError, Pool, MINIMUM_LIQUIDITY};
use amm_pool::NULL_ACCOUNT;

const OWNER: u128 = 1;
const POOL_ACCOUNT: u128 = 2;
const TOKEN_A: u128 = 100;
const TOKEN_B: u128 = 200;
const ALICE: u128 = 7;
const BOB: u128 = 8;
const CAROL: u128 = 9;
const FEE_SINK: u128 = 55;

fn fresh_pool() -> Pool {
    let mut pool = Pool::new(OWNER, POOL_ACCOUNT);
    pool.initialize(OWNER, TOKEN_A, TOKEN_B).unwrap();
    pool
}

/// A pool whose recorded reserves were driven to `(ra, rb)` by `sync`,
/// without any shares outstanding.
fn synced_pool(ra: u128, rb: u128) -> Pool {
    let mut pool = fresh_pool();
    pool.sync(ra, rb, 1).unwrap();
    pool
}

#[test]
fn initialize_exactly_once_by_owner() {
    let mut pool = Pool::new(OWNER, POOL_ACCOUNT);
    assert_eq!(
        pool.initialize(ALICE, TOKEN_A, TOKEN_B),
        Err(PairError::AlreadyInitialized)
    );
    assert_eq!(pool.initialize(OWNER, TOKEN_A, TOKEN_B), Ok(()));
    assert_eq!(pool.get_token_a(), TOKEN_A);
    assert_eq!(pool.get_token_b(), TOKEN_B);
    assert_eq!(
        pool.initialize(OWNER, TOKEN_A, TOKEN_B),
        Err(PairError::AlreadyInitialized)
    );
}

#[test]
fn genesis_mint_locks_minimum_liquidity() {
    // reserves (0,0), genesis deposit (2000, 2000):
    // isqrt(2000*2000) = 2000, minus MINIMUM_LIQUIDITY = 1000 to the depositor
    let mut pool = fresh_pool();
    let minted = pool.mint(ALICE, 2000, 2000, 1, None).unwrap();
    assert_eq!(minted, 1000);
    assert_eq!(pool.balance_of(ALICE), 1000);
    assert_eq!(pool.balance_of(NULL_ACCOUNT), MINIMUM_LIQUIDITY);
    assert_eq!(pool.total_shares(), 2000);
    let (ra, rb, ts) = pool.get_reserves();
    assert_eq!((ra, rb, ts), (2000, 2000, 1));
}

#[test]
fn tiny_genesis_mint_is_rejected() {
    // a one-unit deposit cannot cover the permanent minimum-liquidity burn
    let mut pool = fresh_pool();
    assert_eq!(
        pool.mint(ALICE, 1, 1, 1, None),
        Err(PairError::InsufficientLiquidityMinted)
    );
    // and the failed call left nothing behind
    assert_eq!(pool.total_shares(), 0);
    assert_eq!(pool.get_reserves(), (0, 0, 0));
    // the boundary case: isqrt product exactly MINIMUM_LIQUIDITY still fails
    assert_eq!(
        pool.mint(ALICE, 1000, 1000, 1, None),
        Err(PairError::InsufficientLiquidityMinted)
    );
    // one unit more than the square of the burn succeeds with 1 share
    let minted = pool.mint(ALICE, 1001, 1001, 1, None).unwrap();
    assert_eq!(minted, 1);
}

#[test]
fn mint_requires_the_deposit_to_have_arrived() {
    let mut pool = synced_pool(1000, 1000);
    assert_eq!(
        pool.mint(ALICE, 900, 1000, 2, None),
        Err(PairError::InsufficientInputAmount)
    );
    assert_eq!(
        pool.mint(ALICE, 1000, 999, 2, None),
        Err(PairError::InsufficientInputAmount)
    );
}

#[test]
fn later_mint_takes_lesser_proportional_share() {
    let mut pool = fresh_pool();
    pool.mint(ALICE, 2000, 2000, 1, None).unwrap();
    // an imbalanced deposit (1000, 500) earns only the lesser side's slice
    let minted = pool.mint(BOB, 3000, 2500, 2, None).unwrap();
    assert_eq!(minted, 500); // min(1000*2000/2000, 500*2000/2000)
    assert_eq!(pool.total_shares(), 2500);
    assert_eq!(pool.get_reserves(), (3000, 2500, 2));
}

#[test]
fn mint_burn_round_trip_returns_deposit() {
    let mut pool = fresh_pool();
    pool.mint(ALICE, 2000, 2000, 1, None).unwrap();
    let minted = pool.mint(BOB, 3000, 3000, 2, None).unwrap();
    assert_eq!(minted, 1000); // 1000 * 2000 / 2000
    // Bob sends the shares to the pool account and burns them at once
    pool.transfer_shares(BOB, POOL_ACCOUNT, minted).unwrap();
    let (out_a, out_b) = pool.burn(BOB, 3000, 3000, 2, None).unwrap();
    assert_eq!((out_a, out_b), (1000, 1000));
    assert_eq!(pool.get_reserves(), (2000, 2000, 2));
    assert_eq!(pool.total_shares(), 2000);
    assert_eq!(pool.balance_of(BOB), 0);
    assert_eq!(pool.balance_of(POOL_ACCOUNT), 0);
}

#[test]
fn burn_without_shares_fails() {
    let mut pool = fresh_pool();
    pool.mint(ALICE, 2000, 2000, 1, None).unwrap();
    // nothing was transferred to the pool account, so there is nothing to burn
    assert_eq!(
        pool.burn(ALICE, 2000, 2000, 1, None),
        Err(PairError::InsufficientLiquidityBurned)
    );
    // with no shares outstanding at all, the payout division has no divisor
    let mut empty = synced_pool(1000, 1000);
    assert_eq!(
        empty.burn(ALICE, 1000, 1000, 2, None),
        Err(PairError::Math(MathError::DivByZero))
    );
}

#[test]
fn swap_requires_an_output() {
    let mut pool = synced_pool(1000, 1000);
    assert_eq!(
        pool.swap(0, 0, CAROL),
        Err(PairError::InsufficientOutputAmount)
    );
    assert!(!pool.is_locked());
}

#[test]
fn swap_rejects_output_draining_a_reserve() {
    // amount_a_out >= reserve_a fails before any transfer is owed
    let mut pool = synced_pool(1000, 1000);
    assert_eq!(
        pool.swap(1000, 0, CAROL),
        Err(PairError::InsufficientLiquidity)
    );
    assert_eq!(pool.swap(0, 1500, CAROL), Err(PairError::InsufficientLiquidity));
    assert_eq!(pool.get_reserves(), (1000, 1000, 1));
    assert!(!pool.is_locked());
}

#[test]
fn swap_rejects_token_accounts_as_recipient() {
    let mut pool = synced_pool(1000, 1000);
    assert_eq!(pool.swap(0, 90, TOKEN_A), Err(PairError::InvalidRecipient));
    assert_eq!(pool.swap(0, 90, TOKEN_B), Err(PairError::InvalidRecipient));
    assert_eq!(pool.swap(0, 90, CAROL), Ok(()));
}

#[test]
fn swap_charges_three_per_mille_on_input() {
    // reserves (1000, 1000); deposit 100 of token a, take 90 of token b:
    // (1000*1100 - 3*100) * (1000*910) >= 1000*1000*10^6 holds
    let mut pool = synced_pool(1000, 1000);
    pool.swap(0, 90, CAROL).unwrap();
    assert!(pool.is_locked());
    assert_eq!(pool.swap_settle(1100, 910, 2), Ok(()));
    assert!(!pool.is_locked());
    assert_eq!(pool.get_reserves(), (1100, 910, 2));

    // one more unit out tips the fee-adjusted product below the reserves'
    let mut pool = synced_pool(1000, 1000);
    pool.swap(0, 91, CAROL).unwrap();
    assert_eq!(pool.swap_settle(1100, 909, 2), Err(PairError::KInvariantViolated));
    // the guard is released and the reserves are untouched
    assert!(!pool.is_locked());
    assert_eq!(pool.get_reserves(), (1000, 1000, 1));
}

#[test]
fn swap_settle_needs_some_input() {
    let mut pool = synced_pool(1000, 1000);
    pool.swap(0, 90, CAROL).unwrap();
    // balances show the output gone and nothing deposited
    assert_eq!(
        pool.swap_settle(1000, 910, 2),
        Err(PairError::InsufficientInputAmount)
    );
    assert!(!pool.is_locked());
    assert_eq!(pool.get_reserves(), (1000, 1000, 1));
}

#[test]
fn reentrant_calls_fail_mid_swap() {
    // a callback running while the swap's outputs are in flight cannot touch
    // the pool: every reserve-mutating entry fails with Reentrant and the
    // reserves stay as they were
    let mut pool = synced_pool(1000, 1000);
    pool.swap(0, 90, CAROL).unwrap();
    assert_eq!(pool.swap(0, 10, CAROL), Err(PairError::Reentrant));
    assert_eq!(pool.mint(CAROL, 2000, 2000, 2, None), Err(PairError::Reentrant));
    assert_eq!(pool.burn(CAROL, 2000, 2000, 2, None), Err(PairError::Reentrant));
    assert_eq!(pool.sync(5000, 5000, 2), Err(PairError::Reentrant));
    assert_eq!(pool.skim(1100, 1000), Err(PairError::Reentrant));
    assert_eq!(pool.get_reserves(), (1000, 1000, 1));
    // the original swap still settles normally afterwards
    assert_eq!(pool.swap_settle(1100, 910, 2), Ok(()));
    assert_eq!(pool.get_reserves(), (1100, 910, 2));
}

#[test]
fn product_never_decreases_across_swaps() {
    let mut pool = synced_pool(1000, 1000);
    let mut last_product: u128 = 1000 * 1000;
    let trades: [(u128, u128, u128, u128); 3] = [
        // (a_out, b_out, balance_a_after, balance_b_after)
        (0, 90, 1100, 910),
        (200, 0, 900, 1180),
        (0, 100, 1060, 1080),
    ];
    for (a_out, b_out, ba, bb) in trades {
        pool.swap(a_out, b_out, CAROL).unwrap();
        pool.swap_settle(ba, bb, 2).unwrap();
        let (ra, rb, _) = pool.get_reserves();
        assert!(ra * rb >= last_product);
        last_product = ra * rb;
    }
}

#[test]
fn skim_reports_the_excess() {
    let pool = synced_pool(1000, 1000);
    assert_eq!(pool.skim(1100, 1050), Ok((100, 50)));
    assert_eq!(pool.skim(1000, 1000), Ok((0, 0)));
    assert_eq!(
        pool.skim(900, 1000),
        Err(PairError::Math(MathError::SubUnderflow))
    );
    // skim never changes recorded state
    assert_eq!(pool.get_reserves(), (1000, 1000, 1));
}

#[test]
fn sync_records_balances_and_advances_oracle() {
    let mut pool = fresh_pool();
    pool.sync(500, 250, 10).unwrap();
    assert_eq!(pool.get_reserves(), (500, 250, 10));
    // 15 seconds at prices b/a = 0 (truncated) and a/b = 2
    pool.sync(600, 300, 25).unwrap();
    assert_eq!(pool.price_a_cumulative_last(), U256 { hi: 0, lo: 0 });
    assert_eq!(pool.price_b_cumulative_last(), U256 { hi: 0, lo: 30 });
    // no time elapsed: the accumulators hold still
    pool.sync(700, 700, 25).unwrap();
    assert_eq!(pool.price_b_cumulative_last(), U256 { hi: 0, lo: 30 });
}

#[test]
fn sync_rejects_unrepresentable_balances() {
    let mut pool = synced_pool(1000, 1000);
    assert_eq!(pool.sync(u128::MAX, 1, 2), Err(PairError::Overflow));
    assert_eq!(pool.sync(1, u128::MAX, 2), Err(PairError::Overflow));
    assert_eq!(pool.get_reserves(), (1000, 1000, 1));
}

#[test]
fn protocol_fee_mints_a_sixth_of_growth() {
    let mut pool = fresh_pool();
    // genesis with the fee enabled records k_last = 2000 * 2000
    pool.mint(ALICE, 2000, 2000, 1, Some(FEE_SINK)).unwrap();
    assert_eq!(pool.total_shares(), 2000);
    // the invariant grows fourfold (sqrt doubles) outside any liquidity event
    pool.sync(4000, 4000, 2).unwrap();
    // the next mint first pays the recipient:
    // 2000 * (4000 - 2000) / (5 * 4000 + 2000) = 181 shares
    let minted = pool.mint(BOB, 8000, 8000, 3, Some(FEE_SINK)).unwrap();
    assert_eq!(pool.balance_of(FEE_SINK), 181);
    // Bob's deposit doubles the pool against supply 2181
    assert_eq!(minted, 2181);
    assert_eq!(pool.total_shares(), 2000 + 181 + 2181);
}

#[test]
fn disabled_fee_clears_k_last() {
    let mut pool = fresh_pool();
    pool.mint(ALICE, 2000, 2000, 1, Some(FEE_SINK)).unwrap();
    pool.sync(4000, 4000, 2).unwrap();
    // with no recipient configured the growth is not skimmed, and k_last
    // resets so it cannot be charged retroactively later
    let minted = pool.mint(BOB, 8000, 8000, 3, None).unwrap();
    assert_eq!(minted, 2000);
    assert_eq!(pool.balance_of(FEE_SINK), 0);
    pool.sync(16000, 16000, 4).unwrap();
    let minted = pool.mint(CAROL, 32000, 32000, 5, Some(FEE_SINK)).unwrap();
    // k_last was zero, so still no fee; only from now on is growth tracked
    assert_eq!(pool.balance_of(FEE_SINK), 0);
    assert_eq!(minted, 4000);
}

#[test]
fn share_conservation_holds_through_a_session() {
    let mut pool = fresh_pool();
    pool.mint(ALICE, 2000, 2000, 1, Some(FEE_SINK)).unwrap();
    pool.sync(4000, 4000, 2).unwrap();
    pool.mint(BOB, 8000, 8000, 3, Some(FEE_SINK)).unwrap();
    pool.transfer_shares(BOB, POOL_ACCOUNT, 1000).unwrap();
    pool.burn(BOB, 8000, 8000, 4, Some(FEE_SINK)).unwrap();
    let held = pool.balance_of(ALICE)
        + pool.balance_of(BOB)
        + pool.balance_of(CAROL)
        + pool.balance_of(FEE_SINK)
        + pool.balance_of(POOL_ACCOUNT)
        + pool.balance_of(NULL_ACCOUNT);
    assert_eq!(pool.total_shares(), held);
}

#[test]
fn swap_settle_rejects_unscalable_balances() {
    // a balance too large to scale by 1000 fails the fee adjustment
    let mut pool = synced_pool(1000, 1000);
    pool.swap(0, 90, CAROL).unwrap();
    assert_eq!(
        pool.swap_settle(u128::MAX / 2, 910, 2),
        Err(PairError::Math(MathError::MulOverflow))
    );
    assert!(!pool.is_locked());
    assert_eq!(pool.get_reserves(), (1000, 1000, 1));
}

#[test]
fn fee_skimmer_arithmetic_failures_surface() {
    // genesis fixes k_last's square root near a sixth of the u128 range;
    // growing sqrt(k) past a fifth of it overflows the fee denominator
    let a: u128 = 64_000_000_000_000_000_000_000_000_000_000_000_000;
    let b: u128 = 68_000_000_000_000_000_000_000_000_000_000_000_000;
    let c: u128 = 70_000_000_000_000_000_000_000_000_000_000_000_000;
    assert!(b.checked_mul(5).is_some());
    assert!(b.checked_mul(5).unwrap().checked_add(a).is_none());
    let mut pool = fresh_pool();
    pool.mint(ALICE, a, a, 1, Some(FEE_SINK)).unwrap();
    pool.sync(b, b, 2).unwrap();
    assert_eq!(
        pool.mint(BOB, b, b, 3, Some(FEE_SINK)),
        Err(PairError::Math(MathError::AddOverflow))
    );
    // and a root large enough that even five times it overflows
    assert!(c.checked_mul(5).is_none());
    let mut pool = fresh_pool();
    pool.mint(ALICE, a, a, 1, Some(FEE_SINK)).unwrap();
    pool.sync(c, c, 2).unwrap();
    assert_eq!(
        pool.mint(BOB, c, c, 3, Some(FEE_SINK)),
        Err(PairError::Math(MathError::MulOverflow))
    );
    // without a fee recipient the same growth mints fine
    let mut pool = fresh_pool();
    pool.mint(ALICE, a, a, 1, None).unwrap();
    pool.sync(b, b, 2).unwrap();
    assert!(pool.mint(BOB, 2 * b, 2 * b, 3, None).is_ok());
}

#[test]
fn share_transfers_need_cover() {
    let mut pool = fresh_pool();
    pool.mint(ALICE, 2000, 2000, 1, None).unwrap();
    assert_eq!(
        pool.transfer_shares(ALICE, BOB, 1001),
        Err(PairError::Math(MathError::SubUnderflow))
    );
    assert_eq!(pool.transfer_shares(ALICE, BOB, 400), Ok(()));
    assert_eq!(pool.balance_of(ALICE), 600);
    assert_eq!(pool.balance_of(BOB), 400);
    // a self-transfer moves nothing
    assert_eq!(pool.transfer_shares(ALICE, ALICE, 600), Ok(()));
    assert_eq!(pool.balance_of(ALICE), 600);
    assert_eq!(pool.total_shares(), 2000);
}
