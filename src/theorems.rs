use crate::amount::{lemma_product_zero, lemma_sum_zero, sum_of, zero_amount, Amount};
use crate::lobe::{decayed, parameter_len, restored, LobeView};
use vstd::prelude::*;

verus! {

/// Two neurons of columns of `b` share a flat index only if they are the same.
proof fn lemma_index_injective(c1: int, i1: int, c2: int, i2: int, b: int)
    requires
        0 <= i1 < b,
        0 <= i2 < b,
        c1 * b + i1 == c2 * b + i2,
    ensures
        c1 == c2,
        i1 == i2,
{
    if c1 < c2 {
        assert(c1 * b + i1 < c2 * b + i2) by (nonlinear_arith)
            requires
                c1 < c2,
                0 <= i1 < b,
                0 <= i2,
        ;
    } else if c2 < c1 {
        assert(c2 * b + i2 < c1 * b + i1) by (nonlinear_arith)
            requires
                c2 < c1,
                0 <= i2 < b,
                0 <= i1,
        ;
    }
}

/// Neuron `i` of a thresholded column `c` has all its weights in range.
proof fn lemma_weight_index_in_range(l: LobeView, c: int, i: int, d: int)
    requires
        l.well_shaped(),
        0 <= c < l.width,
        0 <= i < l.breadth,
        0 <= d < 3,
    ensures
        0 <= l.index(c, i) < l.breadth * l.width,
        0 <= 3 * l.index(c, i) + d < l.weights.len(),
{
    let b = l.breadth as int;
    let w = l.width as int;
    assert(0 <= c * b + i < b * w) by (nonlinear_arith)
        requires
            0 <= c < w,
            0 <= i < b,
    ;
}

/// A neuron below its threshold sends nothing along any of its links,
/// whatever its weights and strength.
pub proof fn lemma_below_threshold_sends_nothing(l: LobeView, c: int, i: int, duration: Amount)
    requires
        l.values[l.index(c, i)].bits < l.thresholds[l.index(c, i)].bits,
    ensures
        forall|d: int| 0 <= d < 3 ==> #[trigger] l.link_signal(c, i, d, duration) == zero_amount(),
{
}

/// A neuron of a thresholded column that reached its threshold ends the tick
/// at zero plus what the previous column delivered, decayed; one of the input
/// column ends at zero.
pub proof fn lemma_fired_neuron_restarts(l: LobeView, c: int, i: int, duration: Amount)
    requires
        0 <= c < l.width,
        0 <= i < l.breadth,
        l.thresholds[l.index(c, i)].bits <= l.values[l.index(c, i)].bits,
    ensures
        c >= 1 ==> l.ticked(c, i, duration) == decayed(
            sum_of(zero_amount(), l.incoming(c - 1, i, duration)),
            l.falloff,
            duration,
        ),
        c == 0 ==> l.ticked(c, i, duration) == zero_amount(),
{
    lemma_product_zero(l.falloff);
    lemma_product_zero(duration);
    lemma_sum_zero(zero_amount());
}

/// With every weight and the falloff at zero, a tick changes no value but
/// for the reset of the neurons that reached their threshold.
pub proof fn lemma_zero_weights_conserve(l: LobeView, duration: Amount)
    requires
        l.well_shaped(),
        l.falloff == zero_amount(),
        forall|k: int| 0 <= k < l.weights.len() ==> #[trigger] l.weights[k] == zero_amount(),
    ensures
        forall|c: int, i: int|
            0 <= c <= l.width && 0 <= i < l.breadth ==> #[trigger] l.ticked(c, i, duration)
                == l.after_reset(c, i),
{
    assert forall|c: int, i: int| 0 <= c <= l.width && 0 <= i < l.breadth implies #[trigger] l.ticked(
        c,
        i,
        duration,
    ) == l.after_reset(c, i) by {
        if c >= 1 {
            assert forall|j: int, d: int| 0 <= j < l.breadth && 0 <= d < 3 implies #[trigger] l.link_signal(
                c - 1,
                j,
                d,
                duration,
            ) == zero_amount() by {
                lemma_weight_index_in_range(l, c - 1, j, d);
                let k = l.index(c - 1, j);
                lemma_product_zero(l.values[k]);
                lemma_product_zero(l.strengths[k]);
                lemma_product_zero(duration);
            }
            lemma_sum_zero(zero_amount());
            assert(l.incoming(c - 1, i, duration) == zero_amount());
            lemma_sum_zero(l.after_reset(c, i));
        }
        let v = if c >= 1 {
            sum_of(l.after_reset(c, i), l.incoming(c - 1, i, duration))
        } else {
            l.after_reset(c, i)
        };
        lemma_product_zero(v);
        lemma_product_zero(duration);
        lemma_sum_zero(v);
    }
}

/// A tick carries a change of neuron `i` of column `c` no further than to
/// itself and to indices `i - 1`, `i`, `i + 1` of column `c + 1`: every other
/// neuron ends the tick as it would have without the change.
pub proof fn lemma_banded_influence(l: LobeView, m: LobeView, c: int, i: int, duration: Amount)
    requires
        l.well_shaped(),
        m.same_parameters(l),
        m.values.len() == l.values.len(),
        0 <= c <= l.width,
        0 <= i < l.breadth,
        forall|k: int|
            0 <= k < l.values.len() && k != l.index(c, i) ==> #[trigger] m.values[k] == l.values[k],
    ensures
        forall|c2: int, j: int|
            0 <= c2 <= l.width && 0 <= j < l.breadth && !(c2 == c && j == i) && !(c2 == c + 1 && i
                - 1 <= j <= i + 1) ==> #[trigger] m.ticked(c2, j, duration) == l.ticked(c2, j, duration),
{
    let b = l.breadth as int;
    assert forall|c2: int, j: int|
        0 <= c2 <= l.width && 0 <= j < l.breadth && !(c2 == c && j == i) && !(c2 == c + 1 && i - 1
            <= j <= i + 1) implies #[trigger] m.ticked(c2, j, duration) == l.ticked(
        c2,
        j,
        duration,
    ) by {
        assert(0 <= c2 * b + j < b * (l.width + 1)) by (nonlinear_arith)
            requires
                0 <= c2 <= l.width,
                0 <= j < b,
        ;
        if l.index(c2, j) == l.index(c, i) {
            lemma_index_injective(c2, j, c, i, b);
        }
        assert(m.after_reset(c2, j) == l.after_reset(c2, j));
        if c2 >= 1 {
            assert forall|j2: int| 0 <= j2 < b && j - 1 <= j2 <= j + 1 implies #[trigger] m.values[l.index(
                c2 - 1,
                j2,
            )] == l.values[l.index(c2 - 1, j2)] by {
                assert(0 <= (c2 - 1) * b + j2 < b * (l.width + 1)) by (nonlinear_arith)
                    requires
                        1 <= c2 <= l.width,
                        0 <= j2 < b,
                ;
                if l.index(c2 - 1, j2) == l.index(c, i) {
                    lemma_index_injective(c2 - 1, j2, c, i, b);
                }
            }
            assert(m.incoming(c2 - 1, j, duration) == l.incoming(c2 - 1, j, duration));
        }
    }
}

/// Rebuilding a lobe from its own parameters gives back its thresholds,
/// weights, strengths and falloff, with every value at zero.
pub proof fn lemma_parameters_round_trip(l: LobeView)
    requires
        l.well_shaped(),
    ensures
        l.parameters().len() == parameter_len(l.width, l.breadth),
        restored(l.width, l.breadth, l.parameters()).same_parameters(l),
        restored(l.width, l.breadth, l.parameters()).values.len() == l.values.len(),
        forall|k: int|
            0 <= k < l.values.len() ==> #[trigger] restored(
                l.width,
                l.breadth,
                l.parameters(),
            ).values[k] == zero_amount(),
{
    let r = restored(l.width, l.breadth, l.parameters());
    assert(r.thresholds =~= l.thresholds);
    assert(r.weights =~= l.weights);
    assert(r.strengths =~= l.strengths);
}

} // verus!
