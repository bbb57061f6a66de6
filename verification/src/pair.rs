//! The constant-product pool engine: a two-asset reserve, fungible liquidity
//! shares, the mint / burn / swap state transitions with their invariant
//! checks and trading fee, a protocol-fee skimmer, a time-weighted price
//! oracle, and a reentrancy guard.
//!
//! The pooled assets themselves live on external token ledgers. Every
//! operation therefore takes the pool account's balances of the two tokens,
//! as observed by the host right before the call, as plain arguments; where
//! an operation owes outbound transfers, it returns the amounts and the host
//! performs them. A swap spans an external transfer, so it is split into
//! [`Pool::swap`] (validate and promise the outputs) and
//! [`Pool::swap_settle`] (check the invariant on the balances observed after
//! the transfers); the guard stays locked in between, and every
//! reserve-mutating call in that window fails with [`PairError::Reentrant`].

use crate::ledger::{LedgerError, ShareLedger};
use crate::math::{isqrt, isqrt_u256, mul_wide, muldiv, p128, p256, MathError, U256};
use crate::{AccountId, Balance, Timestamp, NULL_ACCOUNT};
use vstd::prelude::*;

verus! {

/// Liquidity shares permanently locked at the genesis mint, held by
/// [`NULL_ACCOUNT`], so the first depositor cannot set an arbitrarily small
/// share-to-asset ratio.
pub const MINIMUM_LIQUIDITY: u128 = 1000;

/// Why a pool operation failed. Every failure leaves the pool unchanged.
#[derive(Clone, Copy, Debug, PartialEq, Eq, Structural)]
pub enum PairError {
    /// A checked arithmetic step overflowed, underflowed, or divided by zero.
    Math(MathError),
    /// The trade would decrease the fee-adjusted product of the reserves.
    KInvariantViolated,
    InsufficientLiquidityMinted,
    InsufficientLiquidityBurned,
    InsufficientOutputAmount,
    /// A requested output is at least as large as the matching reserve.
    InsufficientLiquidity,
    InsufficientInputAmount,
    /// The swap recipient is one of the pooled tokens' own accounts.
    InvalidRecipient,
    /// A balance to be recorded exceeds the representable reserve range.
    Overflow,
    /// The guard was already held when the call arrived.
    Reentrant,
    /// The pool already has its tokens, or the caller is not the authority.
    AlreadyInitialized,
}

/// A liquidity deposit was converted to shares. Event schema for off-chain
/// indexers; the host publishes one per successful `mint`.
#[derive(Clone, Copy, Debug, PartialEq, Eq, Structural)]
pub struct Mint {
    pub sender: AccountId,
    pub amount_a: Balance,
    pub amount_b: Balance,
}

/// Shares were redeemed for both assets; published per successful `burn`.
#[derive(Clone, Copy, Debug, PartialEq, Eq, Structural)]
pub struct Burn {
    pub sender: AccountId,
    pub amount_a: Balance,
    pub amount_b: Balance,
    pub to: AccountId,
}

/// A trade completed; published per settled swap.
#[derive(Clone, Copy, Debug, PartialEq, Eq, Structural)]
pub struct Swap {
    pub sender: AccountId,
    pub amount_a_in: Balance,
    pub amount_b_in: Balance,
    pub amount_a_out: Balance,
    pub amount_b_out: Balance,
    pub to: AccountId,
}

/// The recorded reserves moved; published per reserve mutation.
#[derive(Clone, Copy, Debug, PartialEq, Eq, Structural)]
pub struct Sync {
    pub reserve_a: Balance,
    pub reserve_b: Balance,
}

/// Any event the pool's host publishes.
#[derive(Clone, Copy, Debug, PartialEq, Eq, Structural)]
pub enum PairEvent {
    Mint(Mint),
    Burn(Burn),
    Swap(Swap),
    Sync(Sync),
}

/// The outputs promised by an in-flight swap, kept while the guard is held.
#[derive(Clone, Copy, Debug, PartialEq, Eq, Structural)]
pub struct PendingSwap {
    pub amount_a_out: Balance,
    pub amount_b_out: Balance,
}

/// One constant-product market between two assets.
pub struct Pool {
    /// The deploying authority; the only account allowed to `initialize`.
    pub owner: AccountId,
    /// The pool's own account on the share ledger; shares to be burned are
    /// transferred here first.
    pub account: AccountId,
    pub token_a: AccountId,
    pub token_b: AccountId,
    pub initialized: bool,
    pub reserve_a: Balance,
    pub reserve_b: Balance,
    /// `reserve_a * reserve_b` captured when protocol fees were last
    /// assessed; zero while the protocol fee is disabled.
    pub k_last: U256,
    pub price_a_cumulative: U256,
    pub price_b_cumulative: U256,
    pub last_update_timestamp: Timestamp,
    /// The reentrancy flag: true only while a swap's outputs are in flight.
    pub locked: bool,
    pub pending_swap: Option<PendingSwap>,
    pub shares: ShareLedger,
}

impl Pool {
    /// Well-formedness: the share ledger conserves its supply, and the guard
    /// state is consistent — locked exactly during an in-flight swap, whose
    /// promised outputs are strictly covered by the reserves.
    pub open spec fn wf(self) -> bool {
        &&& self.shares.wf()
        &&& (self.locked <==> self.pending_swap is Some)
        &&& match self.pending_swap {
            Some(p) => p.amount_a_out < self.reserve_a && p.amount_b_out < self.reserve_b,
            None => true,
        }
    }

    /// The fields no operation but `initialize` may touch.
    pub open spec fn same_identity(self, other: Pool) -> bool {
        &&& self.owner == other.owner
        &&& self.account == other.account
        &&& self.token_a == other.token_a
        &&& self.token_b == other.token_b
        &&& self.initialized == other.initialized
    }

    /// A fresh pool: empty reserves, no shares, guard released, tokens unset.
    pub fn new(owner: AccountId, account: AccountId) -> (r: Pool)
        ensures
            r.wf(),
            r.owner == owner,
            r.account == account,
            !r.initialized,
            !r.locked,
            r.reserve_a == 0,
            r.reserve_b == 0,
            r.k_last.val() == 0,
            r.price_a_cumulative.val() == 0,
            r.price_b_cumulative.val() == 0,
            r.last_update_timestamp == 0,
            r.shares.total == 0,
            forall|b: AccountId| r.shares.bal_of(b) == 0,
    {
        Pool {
            owner,
            account,
            token_a: 0,
            token_b: 0,
            initialized: false,
            reserve_a: 0,
            reserve_b: 0,
            k_last: U256::zero(),
            price_a_cumulative: U256::zero(),
            price_b_cumulative: U256::zero(),
            last_update_timestamp: 0,
            locked: false,
            pending_swap: None,
            shares: ShareLedger::new(),
        }
    }

    /// Record the two token identities, exactly once and only for the
    /// deploying authority; fails with `AlreadyInitialized` otherwise.
    pub fn initialize(&mut self, caller: AccountId, token_a: AccountId, token_b: AccountId) -> (r:
        Result<(), PairError>)
        requires
            old(self).wf(),
        ensures
            final(self).wf(),
            if old(self).initialized || caller != old(self).owner {
                r == Err::<(), PairError>(PairError::AlreadyInitialized) && *final(self) == *old(
                    self,
                )
            } else {
                &&& r == Ok::<(), PairError>(())
                &&& final(self).initialized
                &&& final(self).token_a == token_a
                &&& final(self).token_b == token_b
                &&& *final(self) == Pool {
                    initialized: true,
                    token_a,
                    token_b,
                    ..*old(self)
                }
            },
    {
        if self.initialized || caller != self.owner {
            return Err(PairError::AlreadyInitialized);
        }
        self.token_a = token_a;
        self.token_b = token_b;
        self.initialized = true;
        Ok(())
    }

    /// The recorded reserves and the timestamp of the last reserve mutation.
    /// Never fails, never mutates.
    pub fn get_reserves(&self) -> (r: (Balance, Balance, Timestamp))
        ensures
            r.0 == self.reserve_a,
            r.1 == self.reserve_b,
            r.2 == self.last_update_timestamp,
    {
        (self.reserve_a, self.reserve_b, self.last_update_timestamp)
    }

    pub fn get_token_a(&self) -> (r: AccountId)
        ensures
            r == self.token_a,
    {
        self.token_a
    }

    pub fn get_token_b(&self) -> (r: AccountId)
        ensures
            r == self.token_b,
    {
        self.token_b
    }

    /// The cumulative time-weighted price of asset `a` in units of `b`.
    pub fn price_a_cumulative_last(&self) -> (r: U256)
        ensures
            r == self.price_a_cumulative,
    {
        self.price_a_cumulative
    }

    /// The cumulative time-weighted price of asset `b` in units of `a`.
    pub fn price_b_cumulative_last(&self) -> (r: U256)
        ensures
            r == self.price_b_cumulative,
    {
        self.price_b_cumulative
    }

    /// Whether a swap is in flight (the reentrancy guard is held).
    pub fn is_locked(&self) -> (r: bool)
        ensures
            r == self.locked,
    {
        self.locked
    }

    /// The outstanding liquidity-share supply.
    pub fn total_shares(&self) -> (r: Balance)
        ensures
            r == self.shares.total,
    {
        self.shares.total_shares()
    }

    /// The liquidity-share balance of `holder`.
    pub fn balance_of(&self, holder: AccountId) -> (r: Balance)
        requires
            self.wf(),
        ensures
            r == self.shares.bal_of(holder),
    {
        self.shares.balance_of(holder)
    }

    /// The ledger's normal share-transfer primitive; `from` is the caller.
    /// Shares move without touching reserves, so this is allowed even while
    /// a swap is in flight.
    pub fn transfer_shares(&mut self, from: AccountId, to: AccountId, amount: Balance) -> (r:
        Result<(), PairError>)
        requires
            old(self).wf(),
        ensures
            final(self).wf(),
            final(self).same_identity(*old(self)),
            match r {
                Ok(()) => {
                    &&& old(self).shares.bal_of(from) >= amount
                    &&& final(self).shares.total == old(self).shares.total
                    &&& forall|b: AccountId|
                        #[trigger] final(self).shares.bal_of(b) == old(self).shares.bal_of(b) - (
                        if b == from {
                            amount as int
                        } else {
                            0
                        }) + (if b == to {
                            amount as int
                        } else {
                            0
                        })
                    &&& *final(self) == Pool { shares: final(self).shares, ..*old(self) }
                },
                Err(e) => {
                    &&& e == PairError::Math(MathError::SubUnderflow)
                    &&& old(self).shares.bal_of(from) < amount
                    &&& *final(self) == *old(self)
                },
            },
    {
        match self.shares.transfer(from, to, amount) {
            Ok(()) => Ok(()),
            Err(LedgerError::InsufficientBalance) => Err(
                PairError::Math(MathError::SubUnderflow),
            ),
        }
    }

    /// The amounts by which the observed balances exceed the reserves — the
    /// tokens the host must pay the skim recipient to recover what was
    /// transferred to the pool outside the normal flow. Reads reserves,
    /// changes nothing.
    pub fn skim(&self, balance_a: Balance, balance_b: Balance) -> (r: Result<
        (Balance, Balance),
        PairError,
    >)
        ensures
            match r {
                Ok((amount_a, amount_b)) => {
                    &&& !self.locked
                    &&& balance_a >= self.reserve_a
                    &&& balance_b >= self.reserve_b
                    &&& amount_a == balance_a - self.reserve_a
                    &&& amount_b == balance_b - self.reserve_b
                },
                Err(PairError::Reentrant) => self.locked,
                Err(PairError::Math(MathError::SubUnderflow)) => !self.locked && (balance_a
                    < self.reserve_a || balance_b < self.reserve_b),
                Err(_) => false,
            },
    {
        if self.locked {
            return Err(PairError::Reentrant);
        }
        if balance_a < self.reserve_a || balance_b < self.reserve_b {
            return Err(PairError::Math(MathError::SubUnderflow));
        }
        Ok((balance_a - self.reserve_a, balance_b - self.reserve_b))
    }
}

/// The shares minted at genesis before the minimum-liquidity deduction:
/// the integer square root of the product of the two deposits.
pub open spec fn genesis_shares(amount_a: int, amount_b: int) -> int {
    isqrt((amount_a * amount_b) as nat) as int
}

/// The shares a later deposit earns against one reserve: the deposit's
/// proportional slice of the outstanding supply, rounded down.
pub open spec fn proportional_shares(amount: int, total: int, reserve: int) -> int {
    amount * total / reserve
}

/// The payout for burning `shares` against one asset's pool balance.
pub open spec fn burn_amount(shares: int, balance: int, total: int) -> int {
    shares * balance / total
}

/// The protocol-fee shares minted for the growth of `sqrt(k)` since the last
/// liquidity event: a sixth of the growth, expressed in shares.
pub open spec fn fee_shares(total: int, root_k: int, root_k_last: int) -> int {
    total * (root_k - root_k_last) / (5 * root_k + root_k_last)
}

/// What the protocol-fee skimmer mints: `Ok(shares)` for the configured
/// recipient (0 when no fee is due or the fee is disabled), or the failing
/// arithmetic step.
pub open spec fn spec_fee_plan(ra: int, rb: int, k_last: int, total: int, fee_on: bool) -> Result<
    int,
    PairError,
> {
    if fee_on && k_last != 0 {
        let rk = isqrt((ra * rb) as nat) as int;
        let rkl = isqrt(k_last as nat) as int;
        if rk > rkl {
            if 5 * rk > u128::MAX {
                Err(PairError::Math(MathError::MulOverflow))
            } else if 5 * rk + rkl > u128::MAX {
                Err(PairError::Math(MathError::AddOverflow))
            } else if fee_shares(total, rk, rkl) >= p128() {
                Err(PairError::Math(MathError::MulOverflow))
            } else {
                Ok(fee_shares(total, rk, rkl))
            }
        } else {
            Ok(0)
        }
    } else {
        Ok(0)
    }
}

/// What `mint` pays out: `Ok((shares_to_depositor, protocol_fee_shares))`,
/// or the first failing check, in the order the operation performs them.
pub open spec fn spec_mint_plan(
    locked: bool,
    ra: int,
    rb: int,
    ba: int,
    bb: int,
    k_last: int,
    total: int,
    fee_on: bool,
) -> Result<(int, int), PairError> {
    if locked {
        Err(PairError::Reentrant)
    } else if ba < ra || bb < rb {
        Err(PairError::InsufficientInputAmount)
    } else {
        let da = ba - ra;
        let db = bb - rb;
        match spec_fee_plan(ra, rb, k_last, total, fee_on) {
            Err(e) => Err(e),
            Ok(fee) => {
                if total + fee > u128::MAX {
                    Err(PairError::Math(MathError::AddOverflow))
                } else {
                    let t1 = total + fee;
                    if t1 == 0 {
                        let s = genesis_shares(da, db);
                        if s <= MINIMUM_LIQUIDITY {
                            Err(PairError::InsufficientLiquidityMinted)
                        } else {
                            Ok((s - MINIMUM_LIQUIDITY, fee))
                        }
                    } else {
                        if ra == 0 {
                            Err(PairError::Math(MathError::DivByZero))
                        } else if proportional_shares(da, t1, ra) >= p128() {
                            Err(PairError::Math(MathError::MulOverflow))
                        } else if rb == 0 {
                            Err(PairError::Math(MathError::DivByZero))
                        } else if proportional_shares(db, t1, rb) >= p128() {
                            Err(PairError::Math(MathError::MulOverflow))
                        } else {
                            let s1 = proportional_shares(da, t1, ra);
                            let s2 = proportional_shares(db, t1, rb);
                            let s = if s1 < s2 {
                                s1
                            } else {
                                s2
                            };
                            if s == 0 {
                                Err(PairError::InsufficientLiquidityMinted)
                            } else if t1 + s > u128::MAX {
                                Err(PairError::Math(MathError::AddOverflow))
                            } else {
                                Ok((s, fee))
                            }
                        }
                    }
                }
            },
        }
    }
}

/// What `burn` pays out: `Ok((amount_a, amount_b, protocol_fee_shares))` for
/// burning the pool account's own share balance `liq`, or the first failing
/// check, in the order the operation performs them.
pub open spec fn spec_burn_plan(
    locked: bool,
    ra: int,
    rb: int,
    ba: int,
    bb: int,
    k_last: int,
    total: int,
    fee_on: bool,
    liq: int,
) -> Result<(int, int, int), PairError> {
    if locked {
        Err(PairError::Reentrant)
    } else {
        match spec_fee_plan(ra, rb, k_last, total, fee_on) {
            Err(e) => Err(e),
            Ok(fee) => {
                if total + fee > u128::MAX {
                    Err(PairError::Math(MathError::AddOverflow))
                } else {
                    let t1 = total + fee;
                    if t1 == 0 {
                        Err(PairError::Math(MathError::DivByZero))
                    } else if burn_amount(liq, ba, t1) >= p128() {
                        Err(PairError::Math(MathError::MulOverflow))
                    } else if burn_amount(liq, bb, t1) >= p128() {
                        Err(PairError::Math(MathError::MulOverflow))
                    } else {
                        let aa = burn_amount(liq, ba, t1);
                        let ab = burn_amount(liq, bb, t1);
                        if aa == 0 || ab == 0 {
                            Err(PairError::InsufficientLiquidityBurned)
                        } else {
                            Ok((aa, ab, fee))
                        }
                    }
                }
            },
        }
    }
}

/// What settling a swap concludes from the observed balances: the derived
/// inputs `Ok((amount_a_in, amount_b_in))`, or the failing check. The core
/// economic test scales each balance by 1000 and charges 3 per mille of the
/// input (a 0.3% fee) before requiring the product not to shrink.
pub open spec fn spec_swap_plan(
    ra: int,
    rb: int,
    amount_a_out: int,
    amount_b_out: int,
    ba: int,
    bb: int,
) -> Result<(int, int), PairError> {
    let ain_a = if ba > ra - amount_a_out {
        ba - (ra - amount_a_out)
    } else {
        0
    };
    let ain_b = if bb > rb - amount_b_out {
        bb - (rb - amount_b_out)
    } else {
        0
    };
    if ain_a == 0 && ain_b == 0 {
        Err(PairError::InsufficientInputAmount)
    } else if 1000 * ba > u128::MAX {
        Err(PairError::Math(MathError::MulOverflow))
    } else if 1000 * bb > u128::MAX {
        Err(PairError::Math(MathError::MulOverflow))
    } else if (1000 * ba - 3 * ain_a) * (1000 * bb - 3 * ain_b) < ra * rb * 1000000 {
        Err(PairError::KInvariantViolated)
    } else {
        Ok((ain_a, ain_b))
    }
}

/// The fee-adjusted constant-product check of a swap: inputs `ain_a, ain_b`,
/// each covered by its observed balance, keep the balances' product, scaled
/// by 1000 per side and charged 3 per mille of each input, at or above the
/// prior reserves' product.
pub open spec fn adjusted_product_ok(
    pre: (Balance, Balance),
    post: (Balance, Balance),
    ain_a: int,
    ain_b: int,
) -> bool {
    &&& 0 <= ain_a <= post.0
    &&& 0 <= ain_b <= post.1
    &&& (1000 * post.0 - 3 * ain_a) * (1000 * post.1 - 3 * ain_b) >= pre.0 * pre.1 * 1000000
}

/// One swap-shaped reserve transition: some inputs passed the fee-adjusted
/// check against the prior reserves, and the balances became the new
/// reserves. [`Pool::swap_settle`] succeeds only on such a transition.
pub open spec fn swap_checked_step(pre: (Balance, Balance), post: (Balance, Balance)) -> bool {
    exists|ain_a: int, ain_b: int| adjusted_product_ok(pre, post, ain_a, ain_b)
}

/// A quotient with the multiplier bounded by the divisor cannot exceed the
/// multiplicand: `a <= d` gives `a * b / d <= b`.
proof fn lemma_muldiv_le(a: int, b: int, d: int)
    requires
        0 <= a <= d,
        0 < d,
        0 <= b,
    ensures
        a * b / d <= b,
{
    vstd::arithmetic::mul::lemma_mul_inequality(a, d, b);
    vstd::arithmetic::div_mod::lemma_div_is_ordered(a * b, d * b, d);
    vstd::arithmetic::div_mod::lemma_div_multiples_vanish(b, d);
}

/// What `sync`-style reserve recording does to the oracle and reserves:
/// the result is `Ok((price_a_cumulative', price_b_cumulative'))`, or the
/// error when a balance is unrepresentable or an accumulator would overflow.
/// While both prior reserves were non-zero and time has elapsed, each
/// accumulator grows by `(other_reserve / this_reserve) * elapsed`,
/// truncating integer division.
pub open spec fn spec_update_plan(
    ra: int,
    rb: int,
    pa: int,
    pb: int,
    ba: int,
    bb: int,
    elapsed: int,
) -> Result<(int, int), PairError> {
    if ba == u128::MAX || bb == u128::MAX {
        Err(PairError::Overflow)
    } else if elapsed > 0 && ra != 0 && rb != 0 {
        let ga = (rb / ra) * elapsed;
        let gb = (ra / rb) * elapsed;
        if pa + ga >= p256() {
            Err(PairError::Math(MathError::AddOverflow))
        } else if pb + gb >= p256() {
            Err(PairError::Math(MathError::AddOverflow))
        } else {
            Ok((pa + ga, pb + gb))
        }
    } else {
        Ok((pa, pb))
    }
}

impl Pool {
    /// The oracle accumulators that recording balances `(ba, bb)` at `now`
    /// would produce, without committing anything.
    fn compute_update(&self, balance_a: Balance, balance_b: Balance, now: Timestamp) -> (r: Result<
        (U256, U256),
        PairError,
    >)
        requires
            now >= self.last_update_timestamp,
        ensures
            ({
                let plan = spec_update_plan(
                    self.reserve_a as int,
                    self.reserve_b as int,
                    self.price_a_cumulative.val(),
                    self.price_b_cumulative.val(),
                    balance_a as int,
                    balance_b as int,
                    now - self.last_update_timestamp,
                );
                match r {
                    Ok((pa, pb)) => plan == Ok::<_, PairError>((pa.val(), pb.val())),
                    Err(e) => plan == Err::<(int, int), _>(e),
                }
            }),
    {
        if balance_a == u128::MAX || balance_b == u128::MAX {
            return Err(PairError::Overflow);
        }
        let elapsed = now - self.last_update_timestamp;
        if elapsed > 0 && self.reserve_a != 0 && self.reserve_b != 0 {
            let price_a = self.reserve_b / self.reserve_a;
            let price_b = self.reserve_a / self.reserve_b;
            let growth_a = mul_wide(price_a, elapsed as u128);
            let growth_b = mul_wide(price_b, elapsed as u128);
            proof {
                assert(growth_a.val() == (self.reserve_b as int / self.reserve_a as int) * (now
                    - self.last_update_timestamp)) by (nonlinear_arith)
                    requires
                        growth_a.val() == price_a * (elapsed as u128),
                        price_a == self.reserve_b as int / self.reserve_a as int,
                        elapsed as u128 == now - self.last_update_timestamp,
                ;
                assert(growth_b.val() == (self.reserve_a as int / self.reserve_b as int) * (now
                    - self.last_update_timestamp)) by (nonlinear_arith)
                    requires
                        growth_b.val() == price_b * (elapsed as u128),
                        price_b == self.reserve_a as int / self.reserve_b as int,
                        elapsed as u128 == now - self.last_update_timestamp,
                ;
            }
            let pa = match self.price_a_cumulative.checked_add(growth_a) {
                Some(v) => v,
                None => {
                    return Err(PairError::Math(MathError::AddOverflow));
                },
            };
            let pb = match self.price_b_cumulative.checked_add(growth_b) {
                Some(v) => v,
                None => {
                    return Err(PairError::Math(MathError::AddOverflow));
                },
            };
            Ok((pa, pb))
        } else {
            Ok((self.price_a_cumulative, self.price_b_cumulative))
        }
    }

    /// The protocol-fee shares owed for invariant growth since `k_last`,
    /// without committing anything.
    fn compute_fee(&self, fee_on: bool) -> (r: Result<Balance, PairError>)
        ensures
            ({
                let plan = spec_fee_plan(
                    self.reserve_a as int,
                    self.reserve_b as int,
                    self.k_last.val(),
                    self.shares.total as int,
                    fee_on,
                );
                match r {
                    Ok(f) => plan == Ok::<int, PairError>(f as int),
                    Err(e) => plan == Err::<int, PairError>(e),
                }
            }),
    {
        if fee_on && !self.k_last.is_zero() {
            let root_k = isqrt_u256(mul_wide(self.reserve_a, self.reserve_b));
            let root_k_last = isqrt_u256(self.k_last);
            if root_k > root_k_last {
                let five_rk = match root_k.checked_mul(5) {
                    Some(v) => v,
                    None => {
                        return Err(PairError::Math(MathError::MulOverflow));
                    },
                };
                let denom = match five_rk.checked_add(root_k_last) {
                    Some(v) => v,
                    None => {
                        return Err(PairError::Math(MathError::AddOverflow));
                    },
                };
                match muldiv(self.shares.total, root_k - root_k_last, denom) {
                    Ok(f) => Ok(f),
                    Err(e) => {
                        proof {
                            assert(e != MathError::DivByZero);
                        }
                        Err(PairError::Math(e))
                    },
                }
            } else {
                Ok(0)
            }
        } else {
            Ok(0)
        }
    }

    /// Issue liquidity shares for the deposit the caller has already made:
    /// the observed balances exceed the recorded reserves by the deposit.
    /// At genesis, shares are the square root of the deposits' product, with
    /// `MINIMUM_LIQUIDITY` of them minted to the null holder and permanently
    /// locked; later, the lesser proportional contribution of the two assets,
    /// so an imbalanced deposit cannot mint excess shares. On success the
    /// reserves are brought to the observed balances, the oracle advances,
    /// and `k_last` is refreshed (fee enabled) or cleared (fee disabled).
    /// On any error the pool is unchanged.
    pub fn mint(
        &mut self,
        to: AccountId,
        balance_a: Balance,
        balance_b: Balance,
        now: Timestamp,
        fee_recipient: Option<AccountId>,
    ) -> (r: Result<Balance, PairError>)
        requires
            old(self).wf(),
            now >= old(self).last_update_timestamp,
        ensures
            final(self).wf(),
            final(self).same_identity(*old(self)),
            ({
                let fee_on = fee_recipient is Some;
                let plan = spec_mint_plan(
                    old(self).locked,
                    old(self).reserve_a as int,
                    old(self).reserve_b as int,
                    balance_a as int,
                    balance_b as int,
                    old(self).k_last.val(),
                    old(self).shares.total as int,
                    fee_on,
                );
                let upd = spec_update_plan(
                    old(self).reserve_a as int,
                    old(self).reserve_b as int,
                    old(self).price_a_cumulative.val(),
                    old(self).price_b_cumulative.val(),
                    balance_a as int,
                    balance_b as int,
                    now - old(self).last_update_timestamp,
                );
                match r {
                    Ok(s) => {
                        let fee = plan->Ok_0.1;
                        let genesis = old(self).shares.total + fee == 0;
                        &&& plan is Ok
                        &&& plan->Ok_0.0 == s as int
                        &&& upd is Ok
                        &&& final(self).reserve_a == balance_a
                        &&& final(self).reserve_b == balance_b
                        &&& final(self).price_a_cumulative.val() == upd->Ok_0.0
                        &&& final(self).price_b_cumulative.val() == upd->Ok_0.1
                        &&& final(self).last_update_timestamp == now
                        &&& final(self).k_last.val() == (if fee_on {
                            balance_a * balance_b
                        } else {
                            0
                        })
                        &&& !final(self).locked
                        &&& final(self).pending_swap is None
                        &&& final(self).shares.total == old(self).shares.total + fee + s + (
                        if genesis {
                            MINIMUM_LIQUIDITY as int
                        } else {
                            0
                        })
                        &&& forall|b: AccountId|
                            #[trigger] final(self).shares.bal_of(b) == old(self).shares.bal_of(b)
                                + (if fee_recipient == Some(b) {
                                fee
                            } else {
                                0
                            }) + (if genesis && b == NULL_ACCOUNT {
                                MINIMUM_LIQUIDITY as int
                            } else {
                                0
                            }) + (if b == to {
                                s as int
                            } else {
                                0
                            })
                    },
                    Err(e) => {
                        &&& *final(self) == *old(self)
                        &&& (plan == Err::<(int, int), PairError>(e) || (plan is Ok && upd == Err::<
                            (int, int),
                            PairError,
                        >(e)))
                    },
                }
            }),
    {
        let fee_on = fee_recipient.is_some();
        if self.locked {
            return Err(PairError::Reentrant);
        }
        if balance_a < self.reserve_a || balance_b < self.reserve_b {
            return Err(PairError::InsufficientInputAmount);
        }
        let amount_a = balance_a - self.reserve_a;
        let amount_b = balance_b - self.reserve_b;
        let fee = match self.compute_fee(fee_on) {
            Ok(f) => f,
            Err(e) => {
                return Err(e);
            },
        };
        let total_with_fee = match self.shares.total.checked_add(fee) {
            Some(v) => v,
            None => {
                return Err(PairError::Math(MathError::AddOverflow));
            },
        };
        let genesis = total_with_fee == 0;
        let shares_minted: Balance;
        if genesis {
            let product = mul_wide(amount_a, amount_b);
            let root = isqrt_u256(product);
            proof {
                vstd::arithmetic::mul::lemma_mul_upper_bound(
                    amount_a as int,
                    u128::MAX as int,
                    amount_b as int,
                    u128::MAX as int,
                );
                crate::math::lemma_isqrt_le(
                    (amount_a * amount_b) as nat,
                    u128::MAX as nat,
                );
            }
            if root <= MINIMUM_LIQUIDITY {
                return Err(PairError::InsufficientLiquidityMinted);
            }
            shares_minted = root - MINIMUM_LIQUIDITY;
        } else {
            let s1 = match muldiv(amount_a, total_with_fee, self.reserve_a) {
                Ok(v) => v,
                Err(e) => {
                    return Err(PairError::Math(e));
                },
            };
            let s2 = match muldiv(amount_b, total_with_fee, self.reserve_b) {
                Ok(v) => v,
                Err(e) => {
                    return Err(PairError::Math(e));
                },
            };
            let s = if s1 < s2 {
                s1
            } else {
                s2
            };
            if s == 0 {
                return Err(PairError::InsufficientLiquidityMinted);
            }
            if total_with_fee > u128::MAX - s {
                return Err(PairError::Math(MathError::AddOverflow));
            }
            shares_minted = s;
        }
        let (pa, pb) = match self.compute_update(balance_a, balance_b, now) {
            Ok(v) => v,
            Err(e) => {
                return Err(e);
            },
        };
        // all checks passed: commit, so a failure never leaves partial writes
        match fee_recipient {
            Some(recipient) => self.shares.credit(recipient, fee),
            None => {},
        }
        if genesis {
            self.shares.credit(NULL_ACCOUNT, MINIMUM_LIQUIDITY);
        }
        self.shares.credit(to, shares_minted);
        self.reserve_a = balance_a;
        self.reserve_b = balance_b;
        self.price_a_cumulative = pa;
        self.price_b_cumulative = pb;
        self.last_update_timestamp = now;
        self.k_last = if fee_on {
            mul_wide(balance_a, balance_b)
        } else {
            U256::zero()
        };
        Ok(shares_minted)
    }

    /// Redeem the shares the caller has already transferred to the pool's
    /// own account: burn them all and pay out both assets pro rata against
    /// the observed balances. Returns the two amounts the host must transfer
    /// to `to`; the reserves are recorded net of that payout, so they match
    /// the external balances once the transfers are done. On any error the
    /// pool is unchanged.
    pub fn burn(
        &mut self,
        to: AccountId,
        balance_a: Balance,
        balance_b: Balance,
        now: Timestamp,
        fee_recipient: Option<AccountId>,
    ) -> (r: Result<(Balance, Balance), PairError>)
        requires
            old(self).wf(),
            now >= old(self).last_update_timestamp,
        ensures
            final(self).wf(),
            final(self).same_identity(*old(self)),
            ({
                let fee_on = fee_recipient is Some;
                let liq = old(self).shares.bal_of(old(self).account);
                let plan = spec_burn_plan(
                    old(self).locked,
                    old(self).reserve_a as int,
                    old(self).reserve_b as int,
                    balance_a as int,
                    balance_b as int,
                    old(self).k_last.val(),
                    old(self).shares.total as int,
                    fee_on,
                    liq,
                );
                match r {
                    Ok((amount_a, amount_b)) => {
                        let fee = plan->Ok_0.2;
                        let upd = spec_update_plan(
                            old(self).reserve_a as int,
                            old(self).reserve_b as int,
                            old(self).price_a_cumulative.val(),
                            old(self).price_b_cumulative.val(),
                            balance_a - amount_a,
                            balance_b - amount_b,
                            now - old(self).last_update_timestamp,
                        );
                        &&& plan is Ok
                        &&& plan->Ok_0.0 == amount_a as int
                        &&& plan->Ok_0.1 == amount_b as int
                        &&& amount_a <= balance_a
                        &&& amount_b <= balance_b
                        &&& upd is Ok
                        &&& final(self).reserve_a == balance_a - amount_a
                        &&& final(self).reserve_b == balance_b - amount_b
                        &&& final(self).price_a_cumulative.val() == upd->Ok_0.0
                        &&& final(self).price_b_cumulative.val() == upd->Ok_0.1
                        &&& final(self).last_update_timestamp == now
                        &&& final(self).k_last.val() == (if fee_on {
                            (balance_a - amount_a) * (balance_b - amount_b)
                        } else {
                            0
                        })
                        &&& !final(self).locked
                        &&& final(self).pending_swap is None
                        &&& final(self).shares.total == old(self).shares.total + fee - liq
                        &&& forall|b: AccountId|
                            #[trigger] final(self).shares.bal_of(b) == old(self).shares.bal_of(b)
                                + (if fee_recipient == Some(b) {
                                fee
                            } else {
                                0
                            }) - (if b == old(self).account {
                                liq
                            } else {
                                0
                            })
                    },
                    Err(e) => {
                        let upd_at = |aa: int, ab: int|
                            spec_update_plan(
                                old(self).reserve_a as int,
                                old(self).reserve_b as int,
                                old(self).price_a_cumulative.val(),
                                old(self).price_b_cumulative.val(),
                                balance_a - aa,
                                balance_b - ab,
                                now - old(self).last_update_timestamp,
                            );
                        &&& *final(self) == *old(self)
                        &&& (plan == Err::<(int, int, int), PairError>(e) || (plan is Ok && upd_at(
                            plan->Ok_0.0,
                            plan->Ok_0.1,
                        ) == Err::<(int, int), PairError>(e)))
                    },
                }
            }),
    {
        let fee_on = fee_recipient.is_some();
        if self.locked {
            return Err(PairError::Reentrant);
        }
        let liquidity = self.shares.balance_of(self.account);
        let fee = match self.compute_fee(fee_on) {
            Ok(f) => f,
            Err(e) => {
                return Err(e);
            },
        };
        let total_with_fee = match self.shares.total.checked_add(fee) {
            Some(v) => v,
            None => {
                return Err(PairError::Math(MathError::AddOverflow));
            },
        };
        if total_with_fee == 0 {
            return Err(PairError::Math(MathError::DivByZero));
        }
        let amount_a = match muldiv(liquidity, balance_a, total_with_fee) {
            Ok(v) => v,
            Err(e) => {
                return Err(PairError::Math(e));
            },
        };
        let amount_b = match muldiv(liquidity, balance_b, total_with_fee) {
            Ok(v) => v,
            Err(e) => {
                return Err(PairError::Math(e));
            },
        };
        if amount_a == 0 || amount_b == 0 {
            return Err(PairError::InsufficientLiquidityBurned);
        }
        proof {
            crate::ledger::lemma_bal_le_sum(self.shares.entries@, self.account);
            lemma_muldiv_le(liquidity as int, balance_a as int, total_with_fee as int);
            lemma_muldiv_le(liquidity as int, balance_b as int, total_with_fee as int);
        }
        let new_balance_a = balance_a - amount_a;
        let new_balance_b = balance_b - amount_b;
        let (pa, pb) = match self.compute_update(new_balance_a, new_balance_b, now) {
            Ok(v) => v,
            Err(e) => {
                return Err(e);
            },
        };
        // all checks passed: commit, so a failure never leaves partial writes
        match fee_recipient {
            Some(recipient) => self.shares.credit(recipient, fee),
            None => {},
        }
        self.shares.debit(self.account, liquidity);
        self.reserve_a = new_balance_a;
        self.reserve_b = new_balance_b;
        self.price_a_cumulative = pa;
        self.price_b_cumulative = pb;
        self.last_update_timestamp = now;
        self.k_last = if fee_on {
            mul_wide(new_balance_a, new_balance_b)
        } else {
            U256::zero()
        };
        Ok((amount_a, amount_b))
    }

    /// Open a swap: validate the requested outputs and take the guard. On
    /// success the host must transfer `amount_a_out` of token `a` and
    /// `amount_b_out` of token `b` to `to` — optimistically, before any input
    /// is verified, which is what enables flash-style usage — then observe
    /// the pool's balances and call [`Pool::swap_settle`]. Everything but the
    /// guard is untouched; each validation failure happens before any
    /// transfer is owed and leaves the pool unchanged.
    pub fn swap(&mut self, amount_a_out: Balance, amount_b_out: Balance, to: AccountId) -> (r:
        Result<(), PairError>)
        requires
            old(self).wf(),
        ensures
            final(self).wf(),
            final(self).same_identity(*old(self)),
            match r {
                Ok(()) => {
                    &&& !old(self).locked
                    &&& !(amount_a_out == 0 && amount_b_out == 0)
                    &&& amount_a_out < old(self).reserve_a
                    &&& amount_b_out < old(self).reserve_b
                    &&& to != old(self).token_a && to != old(self).token_b
                    &&& *final(self) == Pool {
                        locked: true,
                        pending_swap: Some(PendingSwap { amount_a_out, amount_b_out }),
                        ..*old(self)
                    }
                },
                Err(e) => {
                    &&& *final(self) == *old(self)
                    &&& if old(self).locked {
                        e == PairError::Reentrant
                    } else if amount_a_out == 0 && amount_b_out == 0 {
                        e == PairError::InsufficientOutputAmount
                    } else if amount_a_out >= old(self).reserve_a || amount_b_out >= old(
                        self,
                    ).reserve_b {
                        e == PairError::InsufficientLiquidity
                    } else {
                        (to == old(self).token_a || to == old(self).token_b) && e
                            == PairError::InvalidRecipient
                    }
                },
            },
    {
        if self.locked {
            return Err(PairError::Reentrant);
        }
        if amount_a_out == 0 && amount_b_out == 0 {
            return Err(PairError::InsufficientOutputAmount);
        }
        if amount_a_out >= self.reserve_a || amount_b_out >= self.reserve_b {
            return Err(PairError::InsufficientLiquidity);
        }
        if to == self.token_a || to == self.token_b {
            return Err(PairError::InvalidRecipient);
        }
        self.locked = true;
        self.pending_swap = Some(PendingSwap { amount_a_out, amount_b_out });
        Ok(())
    }

    /// Settle the swap opened by [`Pool::swap`], given the balances observed
    /// after the output transfers (and whatever the caller deposited): derive
    /// the inputs, require the fee-adjusted product of the balances not to
    /// fall below the reserves' product, and record the new reserves. The
    /// guard is released whether or not settlement succeeds; a failure
    /// releases it and changes nothing else (the host reverts the transfers).
    pub fn swap_settle(&mut self, balance_a: Balance, balance_b: Balance, now: Timestamp) -> (r:
        Result<(), PairError>)
        requires
            old(self).wf(),
            old(self).locked,
            now >= old(self).last_update_timestamp,
        ensures
            final(self).wf(),
            final(self).same_identity(*old(self)),
            !final(self).locked,
            final(self).pending_swap is None,
            ({
                let p = old(self).pending_swap->Some_0;
                let plan = spec_swap_plan(
                    old(self).reserve_a as int,
                    old(self).reserve_b as int,
                    p.amount_a_out as int,
                    p.amount_b_out as int,
                    balance_a as int,
                    balance_b as int,
                );
                let upd = spec_update_plan(
                    old(self).reserve_a as int,
                    old(self).reserve_b as int,
                    old(self).price_a_cumulative.val(),
                    old(self).price_b_cumulative.val(),
                    balance_a as int,
                    balance_b as int,
                    now - old(self).last_update_timestamp,
                );
                match r {
                    Ok(()) => {
                        &&& plan is Ok
                        &&& upd is Ok
                        &&& final(self).reserve_a == balance_a
                        &&& final(self).reserve_b == balance_b
                        &&& final(self).price_a_cumulative.val() == upd->Ok_0.0
                        &&& final(self).price_b_cumulative.val() == upd->Ok_0.1
                        &&& final(self).last_update_timestamp == now
                        &&& final(self).shares == old(self).shares
                        &&& final(self).k_last == old(self).k_last
                        &&& swap_checked_step(
                            (old(self).reserve_a, old(self).reserve_b),
                            (balance_a, balance_b),
                        )
                        &&& final(self).reserve_a * final(self).reserve_b >= old(self).reserve_a
                            * old(self).reserve_b
                    },
                    Err(e) => {
                        &&& *final(self) == Pool {
                            locked: false,
                            pending_swap: None,
                            ..*old(self)
                        }
                        &&& (plan == Err::<(int, int), PairError>(e) || (plan is Ok && upd == Err::<
                            (int, int),
                            PairError,
                        >(e)))
                    },
                }
            }),
    {
        let p = self.pending_swap.unwrap();
        self.locked = false;
        self.pending_swap = None;
        let ra = self.reserve_a;
        let rb = self.reserve_b;
        let amount_a_in = if balance_a > ra - p.amount_a_out {
            balance_a - (ra - p.amount_a_out)
        } else {
            0
        };
        let amount_b_in = if balance_b > rb - p.amount_b_out {
            balance_b - (rb - p.amount_b_out)
        } else {
            0
        };
        if amount_a_in == 0 && amount_b_in == 0 {
            return Err(PairError::InsufficientInputAmount);
        }
        let scaled_a = match balance_a.checked_mul(1000) {
            Some(v) => v,
            None => {
                return Err(PairError::Math(MathError::MulOverflow));
            },
        };
        let scaled_b = match balance_b.checked_mul(1000) {
            Some(v) => v,
            None => {
                return Err(PairError::Math(MathError::MulOverflow));
            },
        };
        let adjusted_a = scaled_a - 3 * amount_a_in;
        let adjusted_b = scaled_b - 3 * amount_b_in;
        let lhs = mul_wide(adjusted_a, adjusted_b);
        let reserve_product = mul_wide(ra, rb);
        let (carry, rhs) = reserve_product.scale(1_000_000);
        proof {
            vstd::arithmetic::mul::lemma_mul_upper_bound(
                adjusted_a as int,
                u128::MAX as int,
                adjusted_b as int,
                u128::MAX as int,
            );
        }
        let k_holds = if carry != 0 {
            false
        } else {
            rhs.le(lhs)
        };
        if !k_holds {
            return Err(PairError::KInvariantViolated);
        }
        let (pa, pb) = match self.compute_update(balance_a, balance_b, now) {
            Ok(v) => v,
            Err(e) => {
                return Err(e);
            },
        };
        proof {
            assert(adjusted_product_ok(
                (self.reserve_a, self.reserve_b),
                (balance_a, balance_b),
                amount_a_in as int,
                amount_b_in as int,
            ));
            // a trade never shrinks the raw product: the fee-adjusted check
            // bounds it from below by the reserves' product
            vstd::arithmetic::mul::lemma_mul_upper_bound(
                adjusted_a as int,
                1000 * balance_a as int,
                adjusted_b as int,
                1000 * balance_b as int,
            );
            assert((1000 * balance_a as int) * (1000 * balance_b as int) == 1000000 * (
            balance_a as int * balance_b as int)) by (nonlinear_arith);
        }
        self.reserve_a = balance_a;
        self.reserve_b = balance_b;
        self.price_a_cumulative = pa;
        self.price_b_cumulative = pb;
        self.last_update_timestamp = now;
        Ok(())
    }

    /// Force the recorded reserves to match the actual external balances,
    /// healing drift without transferring anything.
    pub fn sync(&mut self, balance_a: Balance, balance_b: Balance, now: Timestamp) -> (r: Result<
        (),
        PairError,
    >)
        requires
            old(self).wf(),
            now >= old(self).last_update_timestamp,
        ensures
            final(self).wf(),
            final(self).same_identity(*old(self)),
            ({
                let plan = spec_update_plan(
                    old(self).reserve_a as int,
                    old(self).reserve_b as int,
                    old(self).price_a_cumulative.val(),
                    old(self).price_b_cumulative.val(),
                    balance_a as int,
                    balance_b as int,
                    now - old(self).last_update_timestamp,
                );
                match r {
                    Ok(()) => {
                        &&& !old(self).locked
                        &&& plan is Ok
                        &&& final(self).reserve_a == balance_a
                        &&& final(self).reserve_b == balance_b
                        &&& final(self).price_a_cumulative.val() == plan->Ok_0.0
                        &&& final(self).price_b_cumulative.val() == plan->Ok_0.1
                        &&& final(self).last_update_timestamp == now
                        &&& final(self).shares == old(self).shares
                        &&& final(self).k_last == old(self).k_last
                        &&& !final(self).locked
                    },
                    Err(e) => {
                        &&& *final(self) == *old(self)
                        &&& if old(self).locked {
                            e == PairError::Reentrant
                        } else {
                            plan == Err::<(int, int), _>(e)
                        }
                    },
                }
            }),
    {
        if self.locked {
            return Err(PairError::Reentrant);
        }
        let (pa, pb) = match self.compute_update(balance_a, balance_b, now) {
            Ok(v) => v,
            Err(e) => {
                return Err(e);
            },
        };
        self.reserve_a = balance_a;
        self.reserve_b = balance_b;
        self.price_a_cumulative = pa;
        self.price_b_cumulative = pb;
        self.last_update_timestamp = now;
        Ok(())
    }
}

} // verus!
