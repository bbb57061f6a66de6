//! The pool's economic laws, stated over the same spec functions the
//! operations' contracts use and proved once and for all.

use crate::ledger::{sum_balances, ShareLedger};
use crate::math::lemma_isqrt_le;
use crate::pair::{
    adjusted_product_ok, burn_amount, genesis_shares, proportional_shares, spec_burn_plan,
    spec_mint_plan, swap_checked_step, PairError, MINIMUM_LIQUIDITY,
};
use crate::Balance;
use vstd::arithmetic::div_mod::{
    lemma_div_is_ordered, lemma_div_multiples_vanish, lemma_fundamental_div_mod,
    lemma_fundamental_div_mod_converse,
};
use vstd::arithmetic::mul::lemma_mul_upper_bound;
use vstd::prelude::*;

verus! {

/// Share conservation: the outstanding supply equals the sum of all holders'
/// balances on every well-formed ledger — and every pool operation's contract
/// ends in a well-formed pool, the genesis mint's permanent burn included,
/// so the equation holds after every call.
pub proof fn lemma_share_conservation(l: ShareLedger)
    requires
        l.wf(),
    ensures
        l.total == sum_balances(l.entries@),
{
}

/// Invariant monotonicity, one step: a transition that passes the
/// fee-adjusted check cannot decrease the raw product of the reserves.
pub proof fn lemma_swap_step_preserves_k(pre: (Balance, Balance), post: (Balance, Balance))
    requires
        swap_checked_step(pre, post),
    ensures
        post.0 * post.1 >= pre.0 * pre.1,
{
    let (ain_a, ain_b) = choose|ain_a: int, ain_b: int| adjusted_product_ok(pre, post, ain_a, ain_b);
    lemma_mul_upper_bound(
        1000 * post.0 - 3 * ain_a,
        1000 * post.0 as int,
        1000 * post.1 - 3 * ain_b,
        1000 * post.1 as int,
    );
    assert((1000 * post.0 as int) * (1000 * post.1 as int) == 1000000 * (post.0 as int
        * post.1 as int)) by (nonlinear_arith);
}

/// Invariant monotonicity: over any sequence of reserve states linked by
/// fee-adjusted-checked swaps, the product of the reserves never decreases.
pub proof fn lemma_swap_sequence_k_monotone(states: Seq<(Balance, Balance)>, i: int, j: int)
    requires
        0 <= i <= j < states.len(),
        forall|n: int|
            i <= n < j ==> swap_checked_step(#[trigger] states[n], states[n + 1]),
    ensures
        states[i].0 * states[i].1 <= states[j].0 * states[j].1,
    decreases j - i,
{
    if i < j {
        lemma_swap_sequence_k_monotone(states, i, j - 1);
        lemma_swap_step_preserves_k(states[j - 1], states[j]);
    }
}

/// Proportionality, exact case: a deposit in exactly the reserves' ratio,
/// whose share computation loses nothing to rounding, mints shares that an
/// immediate burn (with no other activity in between) redeems for exactly
/// the deposited amounts. `proportional_shares` is what `mint` credits, and
/// `burn_amount` is what `burn` pays against the post-deposit balances
/// `(ra + da, rb + db)` and the post-mint supply `total + s`.
pub proof fn lemma_mint_burn_round_trip(ra: int, rb: int, total: int, da: int, db: int)
    requires
        0 < ra,
        0 < rb,
        0 < total,
        0 < da,
        0 < db,
        da * rb == db * ra,
        da * total % ra == 0,
    ensures
        proportional_shares(da, total, ra) == proportional_shares(db, total, rb),
        burn_amount(proportional_shares(da, total, ra), ra + da, total + proportional_shares(
            da,
            total,
            ra,
        )) == da,
        burn_amount(proportional_shares(da, total, ra), rb + db, total + proportional_shares(
            da,
            total,
            ra,
        )) == db,
{
    let s = da * total / ra;
    lemma_fundamental_div_mod(da * total, ra);
    assert(s * ra == da * total) by (nonlinear_arith)
        requires
            da * total == ra * s + da * total % ra,
            da * total % ra == 0,
    ;
    assert(s >= 0) by (nonlinear_arith)
        requires
            s * ra == da * total,
            da > 0,
            total > 0,
            ra > 0,
    ;
    // the proportionality `da * rb == db * ra` carries the share count over
    // to the other asset: `s * rb == db * total`
    assert(s * rb == db * total) by (nonlinear_arith)
        requires
            s * ra == da * total,
            da * rb == db * ra,
            ra > 0,
    ;
    lemma_fundamental_div_mod_converse(db * total, rb, s, 0);
    assert(proportional_shares(db, total, rb) == s);
    // burning `s` of `total + s` shares against balance `ra + da` pays `da`
    assert(s * (ra + da) == da * (total + s)) by (nonlinear_arith)
        requires
            s * ra == da * total,
    ;
    assert(s * (rb + db) == db * (total + s)) by (nonlinear_arith)
        requires
            s * rb == db * total,
    ;
    lemma_div_multiples_vanish(da, total + s);
    lemma_div_multiples_vanish(db, total + s);
    assert((total + s) * da == da * (total + s)) by (nonlinear_arith);
    assert((total + s) * db == db * (total + s)) by (nonlinear_arith);
}

/// Proportionality at the operation level: on an unlocked pool with the
/// protocol fee disabled, reserves `(ra, rb)` and supply `total`, an exact
/// proportional deposit `(da, db)` makes `mint` succeed with
/// `s = da * total / ra` shares, and `burn` of exactly those shares against
/// the post-deposit balances succeed with the deposit returned whole.
pub proof fn lemma_round_trip_through_plans(ra: int, rb: int, total: int, da: int, db: int)
    requires
        0 < ra,
        0 < rb,
        0 < total,
        0 < da,
        0 < db,
        da * rb == db * ra,
        da * total % ra == 0,
        ra + da <= u128::MAX,
        rb + db <= u128::MAX,
        total + proportional_shares(da, total, ra) <= u128::MAX,
    ensures
        ({
            let s = proportional_shares(da, total, ra);
            &&& spec_mint_plan(false, ra, rb, ra + da, rb + db, 0, total, false) == Ok::<
                (int, int),
                PairError,
            >((s, 0))
            &&& spec_burn_plan(
                false,
                ra + da,
                rb + db,
                ra + da,
                rb + db,
                0,
                total + s,
                false,
                s,
            ) == Ok::<(int, int, int), PairError>((da, db, 0))
        }),
{
    lemma_mint_burn_round_trip(ra, rb, total, da, db);
    let s = proportional_shares(da, total, ra);
    lemma_fundamental_div_mod(da * total, ra);
    assert(s * ra == da * total) by (nonlinear_arith)
        requires
            da * total == ra * s + da * total % ra,
            da * total % ra == 0,
    ;
    assert(s >= 1) by (nonlinear_arith)
        requires
            s * ra == da * total,
            da >= 1,
            total >= 1,
            ra >= 1,
    ;
}

/// Proportionality, one-sided bound: whatever the rounding, burning the
/// minted shares never redeems more of an asset than was deposited.
pub proof fn lemma_round_trip_never_profits(ra: int, total: int, da: int, s: int)
    requires
        0 < ra,
        0 < total,
        0 <= da,
        0 <= s <= proportional_shares(da, total, ra),
    ensures
        burn_amount(s, ra + da, total + s) <= da,
{
    lemma_fundamental_div_mod(da * total, ra);
    vstd::arithmetic::div_mod::lemma_mod_division_less_than_divisor(da * total, ra);
    assert(s * ra <= da * total) by (nonlinear_arith)
        requires
            s <= da * total / ra,
            da * total == ra * (da * total / ra) + da * total % ra,
            da * total % ra >= 0,
            ra > 0,
    ;
    assert(s * (ra + da) <= da * (total + s)) by (nonlinear_arith)
        requires
            s * ra <= da * total,
    ;
    lemma_div_is_ordered(s * (ra + da), da * (total + s), total + s);
    lemma_div_multiples_vanish(da, total + s);
    assert((total + s) * da == da * (total + s)) by (nonlinear_arith);
}

/// No first-depositor exploit: a genesis deposit whose product does not
/// exceed `MINIMUM_LIQUIDITY` squared cannot buy the permanent burn, so the
/// mint is rejected outright instead of establishing a distorted share price.
pub proof fn lemma_no_first_depositor_exploit(ra: int, rb: int, ba: int, bb: int)
    requires
        0 <= ra <= ba,
        0 <= rb <= bb,
        (ba - ra) * (bb - rb) <= MINIMUM_LIQUIDITY * MINIMUM_LIQUIDITY,
    ensures
        spec_mint_plan(false, ra, rb, ba, bb, 0, 0, false) == Err::<(int, int), PairError>(
            PairError::InsufficientLiquidityMinted,
        ),
{
    let da = ba - ra;
    let db = bb - rb;
    assert(da * db >= 0) by (nonlinear_arith)
        requires
            da >= 0,
            db >= 0,
    ;
    lemma_isqrt_le((da * db) as nat, MINIMUM_LIQUIDITY as nat);
    assert(genesis_shares(da, db) <= MINIMUM_LIQUIDITY);
}

} // verus!
