//! The estimate of an integral that is known: the product of two uniform
//! densities on `[0, 1)` is one everywhere, so every round of a combined
//! estimator adds up to one, whatever is drawn. What the estimate falls short
//! of one is what fixed point loses, and it is at most two units.

use crate::fixed::lemma_fraction_of_nothing;
use crate::fixed::spec_fine_mean;
use crate::fixed::FINE_ONE;
use crate::fixed::ONE;
use crate::montecarlo_integrable::repeat;
use crate::montecarlo_integrable::EstimateError;
use crate::multiple_importance::lemma_contribution_bounds;
use crate::multiple_importance::lemma_weights_sum_to_one;
use crate::multiple_importance::spec_contribution;
use crate::multiple_importance::spec_weight;
use crate::multiple_importance::Combiner;
use crate::multiple_importance::Heuristic;
use crate::pdf_lemmas::lemma_inverse_result;
use crate::pdf_lemmas::lemma_inverse_succeeds;
use crate::rng::lcg_step;
use crate::step_pdf::PdfView;
use vstd::prelude::*;

verus! {

/// The uniform distribution on `[0, 1)`.
pub open spec fn uniform() -> PdfView {
    PdfView { min_x: 0, steps: seq![(ONE, ONE)] }
}

/// The combined estimator of the product of two uniform densities.
pub open spec fn uniform_combiner(na: usize, nb: usize, heuristic: Heuristic) -> Combiner {
    Combiner { a: uniform(), b: uniform(), na, nb, heuristic }
}

/// What one draw of a technique with `own` draws in a round adds, beside a
/// technique with `other` draws.
pub open spec fn uniform_share(heuristic: Heuristic, own: usize, other: usize) -> int {
    match spec_weight(heuristic, own, ONE, other, ONE) {
        Some(weight) => match spec_contribution(weight, ONE, ONE, own) {
            Some(part) => part as int,
            None => 0,
        },
        None => 0,
    }
}

/// What one round adds.
pub open spec fn uniform_round(heuristic: Heuristic, na: usize, nb: usize) -> int {
    na * uniform_share(heuristic, na, nb) + nb * uniform_share(heuristic, nb, na)
}

/// The uniform distribution is well formed, its domain is `[0, 1)`, and its
/// density is one on all of it.
pub proof fn lemma_uniform(x: int)
    ensures
        uniform().wf(),
        uniform().max_x() == ONE,
        0 <= x < ONE ==> uniform().density_at(x) == ONE && uniform().local_density(x) == ONE,
{
    let u = uniform();
    assert(u.steps[0] == (ONE, ONE));
    reveal_with_fuel(PdfView::mass_upto, 3);
    assert(u.mass_upto(1) == (ONE - 0) * ONE);
    assert((ONE - 0) * ONE == 0x1_0000_0000_0000_0000) by (nonlinear_arith)
        requires
            ONE == 0x1_0000_0000,
    ;
    reveal_with_fuel(PdfView::first_exceeding, 3);
}

/// A draw adds its share, whatever the generator's state.
proof fn lemma_uniform_draw(
    heuristic: Heuristic,
    na: usize,
    nb: usize,
    from_a: bool,
    total: u128,
    state: u64,
)
    requires
        na < 0x1_0000,
        nb < 0x1_0000,
        from_a ==> na >= 1,
        !from_a ==> nb >= 1,
        total + uniform_share(
            heuristic,
            if from_a {
                na
            } else {
                nb
            },
            if from_a {
                nb
            } else {
                na
            },
        ) <= u128::MAX,
    ensures
        ({
            let own = if from_a {
                na
            } else {
                nb
            };
            let other = if from_a {
                nb
            } else {
                na
            };
            let share = uniform_share(heuristic, own, other);
            &&& 0 <= share <= FINE_ONE
            &&& spec_weight(heuristic, own, ONE, other, ONE) matches Some(weight)
            &&& own * share <= weight * ONE < own * share + own
            &&& uniform_combiner(na, nb, heuristic).draw(from_a, total, state) == Ok::<
                (u128, u64),
                EstimateError,
            >(((total + share) as u128, lcg_step(state)))
        }),
{
    let own = if from_a {
        na
    } else {
        nb
    };
    let other = if from_a {
        nb
    } else {
        na
    };
    let u = uniform();
    let y = lcg_step(state);
    lemma_uniform(0);
    lemma_inverse_succeeds(u, y);
    lemma_inverse_result(u, y);
    let (x, density) = u.inverse(y)->Ok_0;
    lemma_uniform(x as int);
    assert(own * ONE < 0x1_0000 * 0x1_0000_0000 && other * ONE < 0x1_0000 * 0x1_0000_0000 && own
        * ONE >= ONE) by (nonlinear_arith)
        requires
            1 <= own < 0x1_0000,
            0 <= other < 0x1_0000,
            ONE == 0x1_0000_0000,
    ;
    lemma_weights_sum_to_one(heuristic, own, ONE, other, ONE);
    let weight = spec_weight(heuristic, own, ONE, other, ONE)->0;
    assert(spec_weight(heuristic, own, ONE, other, ONE) is Some);
    assert(ONE * ONE / (ONE as int) == ONE) by (nonlinear_arith)
        requires
            ONE == 0x1_0000_0000,
    ;
    assert(ONE * own != 0 && weight * ONE * ONE <= 0x1_0000_0000 * 0x1_0000_0000 * 0x1_0000_0000
        && weight * ONE * ONE == (weight * ONE) * ONE) by (nonlinear_arith)
        requires
            own >= 1,
            0 <= weight <= ONE,
            ONE == 0x1_0000_0000,
    ;
    lemma_contribution_bounds(weight, ONE, ONE, own);
    let share = uniform_share(heuristic, own, other);
    assert(spec_contribution(weight, ONE, ONE, own) == Some(share as u128));
    // own * ONE * share <= weight * ONE * ONE < own * ONE * share + own * ONE
    assert(own * share <= weight * ONE < own * share + own && 0 <= share <= weight * ONE)
        by (nonlinear_arith)
        requires
            own * ONE * share <= weight * ONE * ONE,
            weight * ONE * ONE < own * ONE * share + own * ONE,
            own >= 1,
            0 <= share,
            0 <= weight,
            ONE == 0x1_0000_0000,
    ;
    assert(weight * ONE <= FINE_ONE) by (nonlinear_arith)
        requires
            0 <= weight <= ONE,
            ONE == 0x1_0000_0000,
            FINE_ONE == 0x1_0000_0000_0000_0000,
    ;
    reveal(Combiner::draw);
}

/// The draws of one technique in a round add their share each.
proof fn lemma_uniform_draws(
    heuristic: Heuristic,
    na: usize,
    nb: usize,
    from_a: bool,
    k: nat,
    total: u128,
    state: u64,
)
    requires
        na < 0x1_0000,
        nb < 0x1_0000,
        k <= (if from_a {
            na
        } else {
            nb
        }),
        total + k * uniform_share(
            heuristic,
            if from_a {
                na
            } else {
                nb
            },
            if from_a {
                nb
            } else {
                na
            },
        ) <= u128::MAX,
    ensures
        ({
            let own = if from_a {
                na
            } else {
                nb
            };
            let other = if from_a {
                nb
            } else {
                na
            };
            let share = uniform_share(heuristic, own, other);
            &&& 0 <= k * share <= FINE_ONE
            &&& repeat(uniform_combiner(na, nb, heuristic).draw_step(from_a), k, (total, state))
                matches Ok((grown, _))
            &&& grown == total + k * share
        }),
    decreases k,
{
    let own = if from_a {
        na
    } else {
        nb
    };
    let other = if from_a {
        nb
    } else {
        na
    };
    let share = uniform_share(heuristic, own, other);
    let step = uniform_combiner(na, nb, heuristic).draw_step(from_a);
    if k == 0 {
        assert(k * share == 0) by (nonlinear_arith)
            requires
                k == 0,
        ;
    } else {
        lemma_uniform_draw(heuristic, na, nb, from_a, 0, 0);
        assert(k * share == (k - 1) * share + share && k * share <= own * share && 0 <= (k - 1)
            * share) by (nonlinear_arith)
            requires
                1 <= k <= own,
                0 <= share,
        ;
        lemma_uniform_draws(heuristic, na, nb, from_a, (k - 1) as nat, total, state);
        let (before, reached) = repeat(step, (k - 1) as nat, (total, state))->Ok_0;
        lemma_uniform_draw(heuristic, na, nb, from_a, before, reached);
        let weight = spec_weight(heuristic, own, ONE, other, ONE)->0;
        lemma_weights_sum_to_one(heuristic, own, ONE, other, ONE);
        assert(weight * ONE <= FINE_ONE) by (nonlinear_arith)
            requires
                0 <= weight <= ONE,
                ONE == 0x1_0000_0000,
                FINE_ONE == 0x1_0000_0000_0000_0000,
        ;
        assert(repeat(step, k, (total, state)) == step(before, reached));
    }
}

/// A round adds up to one, less what the rounding of the two weights and of
/// the shares takes: less than one unit and one fine unit for each draw.
pub proof fn lemma_uniform_round_adds_one(heuristic: Heuristic, na: usize, nb: usize)
    requires
        na < 0x1_0000,
        nb < 0x1_0000,
        na + nb >= 1,
    ensures
        FINE_ONE - ONE - (na + nb) < uniform_round(heuristic, na, nb) <= FINE_ONE,
{
    lemma_weights_sum_to_one(heuristic, na, ONE, nb, ONE);
    lemma_weights_sum_to_one(heuristic, nb, ONE, na, ONE);
    let wa = spec_weight(heuristic, na, ONE, nb, ONE);
    let wb = spec_weight(heuristic, nb, ONE, na, ONE);
    assert(na * ONE < 0x1_0000 * 0x1_0000_0000 && nb * ONE < 0x1_0000 * 0x1_0000_0000 && na * ONE
        + nb * ONE >= ONE) by (nonlinear_arith)
        requires
            0 <= na < 0x1_0000,
            0 <= nb < 0x1_0000,
            na + nb >= 1,
            ONE == 0x1_0000_0000,
    ;
    assert(wa is Some && wb is Some);
    let sa = uniform_share(heuristic, na, nb);
    let sb = uniform_share(heuristic, nb, na);
    if na >= 1 {
        lemma_uniform_draw(heuristic, na, nb, true, 0, 0);
    } else {
        assert(na * sa == 0) by (nonlinear_arith)
            requires
                na == 0,
        ;
    }
    if nb >= 1 {
        lemma_uniform_draw(heuristic, na, nb, false, 0, 0);
    } else {
        assert(nb * sb == 0) by (nonlinear_arith)
            requires
                nb == 0,
        ;
    }
    // a technique without draws has the weight zero
    if na == 0 {
        assert(0 * ONE == 0);
        lemma_fraction_of_nothing((nb * ONE) as u64);
        assert(wa->0 == 0);
        assert(wa->0 * ONE == 0) by (nonlinear_arith)
            requires
                wa->0 == 0,
        ;
    }
    if nb == 0 {
        assert(0 * ONE == 0);
        lemma_fraction_of_nothing((na * ONE) as u64);
        assert(wb->0 == 0);
        assert(wb->0 * ONE == 0) by (nonlinear_arith)
            requires
                wb->0 == 0,
        ;
    }
    assert((wa->0 + wb->0) * ONE == wa->0 * ONE + wb->0 * ONE && (ONE - 1) * ONE <= (wa->0
        + wb->0) * ONE <= ONE * ONE && ONE * ONE == FINE_ONE) by (nonlinear_arith)
        requires
            ONE - 1 <= wa->0 + wb->0 <= ONE,
            ONE == 0x1_0000_0000,
            FINE_ONE == 0x1_0000_0000_0000_0000,
    ;
    assert((ONE - 1) * ONE == FINE_ONE - ONE) by (nonlinear_arith)
        requires
            ONE == 0x1_0000_0000,
            FINE_ONE == 0x1_0000_0000_0000_0000,
    ;
}

/// Whatever is drawn, `k` rounds add `k` times what one round adds.
proof fn lemma_uniform_rounds(heuristic: Heuristic, na: usize, nb: usize, k: nat, state: u64)
    requires
        na < 0x1_0000,
        nb < 0x1_0000,
        na + nb >= 1,
        k <= usize::MAX,
    ensures
        repeat(uniform_combiner(na, nb, heuristic).round_step(), k, (0u128, state)) matches Ok(
            (total, _),
        ) && total == k * uniform_round(heuristic, na, nb),
    decreases k,
{
    let combiner = uniform_combiner(na, nb, heuristic);
    let step = combiner.round_step();
    let round = uniform_round(heuristic, na, nb);
    lemma_uniform_round_adds_one(heuristic, na, nb);
    if k == 0 {
        assert(k * round == 0) by (nonlinear_arith)
            requires
                k == 0,
        ;
    } else {
        lemma_uniform_rounds(heuristic, na, nb, (k - 1) as nat, state);
        let (before, reached) = repeat(step, (k - 1) as nat, (0u128, state))->Ok_0;
        assert(k * round == (k - 1) * round + round && (k - 1) * round <= (k - 1) * FINE_ONE && 0
            <= (k - 1) * round) by (nonlinear_arith)
            requires
                k >= 1,
                0 <= round <= FINE_ONE,
        ;
        assert((k - 1) * FINE_ONE + FINE_ONE <= u128::MAX) by (nonlinear_arith)
            requires
                1 <= k <= 0xffff_ffff_ffff_ffff,
                FINE_ONE == 0x1_0000_0000_0000_0000,
        ;
        let sa = uniform_share(heuristic, na, nb);
        let sb = uniform_share(heuristic, nb, na);
        assert(0 <= na * sa && 0 <= nb * sb) by {
            if na >= 1 {
                lemma_uniform_draw(heuristic, na, nb, true, 0, 0);
            }
            if nb >= 1 {
                lemma_uniform_draw(heuristic, na, nb, false, 0, 0);
            }
            assert(0 <= na * sa && 0 <= nb * sb) by (nonlinear_arith)
                requires
                    na == 0 || 0 <= sa,
                    nb == 0 || 0 <= sb,
                    0 <= na,
                    0 <= nb,
            ;
        }
        lemma_uniform_draws(heuristic, na, nb, true, na as nat, before, reached);
        let (halfway, between) = repeat(combiner.draw_step(true), na as nat, (before, reached))->Ok_0;
        lemma_uniform_draws(heuristic, na, nb, false, nb as nat, halfway, between);
        assert(repeat(step, k, (0u128, state)) == combiner.round(before, reached));
    }
}

/// The combined estimate of the product of two uniform densities is one,
/// less two units at most: by either heuristic, from any number of rounds
/// and any state of the generator, with up to `2^16` draws of each technique
/// in a round.
pub proof fn lemma_uniform_estimate(
    heuristic: Heuristic,
    na: usize,
    nb: usize,
    n: usize,
    state: u64,
)
    requires
        na < 0x1_0000,
        nb < 0x1_0000,
        na + nb >= 1,
        n >= 1,
    ensures
        uniform_combiner(na, nb, heuristic).estimate(n, state) matches Ok(estimate) && ONE - 2
            <= estimate <= ONE,
{
    lemma_uniform_rounds(heuristic, na, nb, n as nat, state);
    lemma_uniform_round_adds_one(heuristic, na, nb);
    let round = uniform_round(heuristic, na, nb);
    let total = n * round;
    let parts = n * ONE;
    let m = total / parts;
    assert(ONE - 2 <= m <= ONE) by (nonlinear_arith)
        requires
            m == (n * round) / (n * ONE),
            n >= 1,
            FINE_ONE - ONE - 0x2_0000 < round <= FINE_ONE,
            ONE == 0x1_0000_0000,
            FINE_ONE == 0x1_0000_0000_0000_0000,
    {
        assert(n * ONE > 0);
        assert(m * (n * ONE) <= n * round < (m + 1) * (n * ONE));
        assert(n * round <= n * FINE_ONE);
        assert(n * FINE_ONE == ONE * (n * ONE));
        assert(n * round > n * (FINE_ONE - ONE - 0x2_0000));
        assert(n * (FINE_ONE - ONE - 0x2_0000) >= (ONE - 2) * (n * ONE));
    }
    assert(0 <= total <= n * FINE_ONE) by (nonlinear_arith)
        requires
            total == n * round,
            n >= 1,
            0 <= round <= FINE_ONE,
    ;
    assert(n * FINE_ONE <= u128::MAX) by (nonlinear_arith)
        requires
            n <= 0xffff_ffff_ffff_ffff,
            FINE_ONE == 0x1_0000_0000_0000_0000,
    ;
}

} // verus!
