use crate::amount::{difference_of, product_of, sum_of, zero_amount, Amount};
use crate::base::NeuralObject;
use vstd::prelude::*;

verus! {

/// What a lobe holds, as mathematical sequences.
pub struct LobeView {
    /// Number of thresholded columns, the output column excluded.
    pub width: nat,
    /// Number of neurons in each column.
    pub breadth: nat,
    /// Activation of every neuron, column by column, output column last.
    pub values: Seq<Amount>,
    /// Gain of every neuron of the thresholded columns.
    pub strengths: Seq<Amount>,
    /// Three link weights (toward index - 1, same index, index + 1) per neuron.
    pub weights: Seq<Amount>,
    /// Firing threshold of every neuron of the thresholded columns.
    pub thresholds: Seq<Amount>,
    /// Decay rate shared by every neuron.
    pub falloff: Amount,
}

/// The signal a neuron forwards along one link: nothing below its threshold,
/// else `input * weight * strength * duration`.
pub open spec fn gated(
    input: Amount,
    threshold: Amount,
    weight: Amount,
    strength: Amount,
    duration: Amount,
) -> Amount {
    if input.bits < threshold.bits {
        zero_amount()
    } else {
        product_of(product_of(product_of(input, weight), strength), duration)
    }
}

/// A value after decay: `value - value * falloff * duration`.
pub open spec fn decayed(value: Amount, falloff: Amount, duration: Amount) -> Amount {
    difference_of(value, product_of(product_of(value, falloff), duration))
}

impl LobeView {
    /// Every tunable number, in the order thresholds, weights, strengths, falloff.
    pub open spec fn parameters(self) -> Seq<Amount> {
        self.thresholds + self.weights + self.strengths + seq![self.falloff]
    }

    /// Every buffer has the length that the dimensions give it.
    pub open spec fn well_shaped(self) -> bool {
        &&& self.values.len() == self.breadth * (self.width + 1)
        &&& self.weights.len() == 3 * (self.breadth * self.width)
        &&& self.strengths.len() == self.breadth * self.width
        &&& self.thresholds.len() == self.breadth * self.width
    }

    /// Flat position of neuron `i` of column `c` in a per-neuron buffer.
    pub open spec fn index(self, c: int, i: int) -> int {
        c * self.breadth + i
    }

    /// The values of column `c`.
    pub open spec fn value_column(self, c: int) -> Seq<Amount> {
        self.values.subrange(c * self.breadth, (c + 1) * self.breadth)
    }

    /// The strengths of column `c`.
    pub open spec fn strength_column(self, c: int) -> Seq<Amount> {
        self.strengths.subrange(c * self.breadth, (c + 1) * self.breadth)
    }

    /// The thresholds of column `c`.
    pub open spec fn threshold_column(self, c: int) -> Seq<Amount> {
        self.thresholds.subrange(c * self.breadth, (c + 1) * self.breadth)
    }

    /// The weights of column `c`, three per neuron.
    pub open spec fn weight_column(self, c: int) -> Seq<Amount> {
        self.weights.subrange(3 * (c * self.breadth), 3 * ((c + 1) * self.breadth))
    }

    /// What neuron `i` of column `c` sends along link `d` during a tick:
    /// `d == 0` reaches index `i - 1`, `d == 1` index `i`, `d == 2` index `i + 1`
    /// of column `c + 1`.
    pub open spec fn link_signal(self, c: int, i: int, d: int, duration: Amount) -> Amount {
        let k = self.index(c, i);
        gated(
            self.values[k],
            self.thresholds[k],
            self.weights[3 * k + d],
            self.strengths[k],
            duration,
        )
    }

    /// What column `c` delivers to neuron `j` of column `c + 1` during a tick:
    /// the signals of its neighbours above, at and below `j`, summed in that order.
    pub open spec fn incoming(self, c: int, j: int, duration: Amount) -> Amount {
        let from_above = if j + 1 < self.breadth {
            self.link_signal(c, j + 1, 0, duration)
        } else {
            zero_amount()
        };
        let from_same = self.link_signal(c, j, 1, duration);
        let from_below = if j >= 1 {
            self.link_signal(c, j - 1, 2, duration)
        } else {
            zero_amount()
        };
        sum_of(sum_of(from_above, from_same), from_below)
    }

    /// The value of neuron `i` of column `c` once it has fired: zero where it
    /// reached its threshold in a thresholded column, else unchanged.
    pub open spec fn after_reset(self, c: int, i: int) -> Amount {
        let k = self.index(c, i);
        if c < self.width && self.thresholds[k].bits <= self.values[k].bits {
            zero_amount()
        } else {
            self.values[k]
        }
    }

    /// The value of neuron `i` of column `c` after one tick of `duration`:
    /// reset, then what the previous column delivers, then decay.
    pub open spec fn ticked(self, c: int, i: int, duration: Amount) -> Amount {
        let reset = self.after_reset(c, i);
        let integrated = if c >= 1 {
            sum_of(reset, self.incoming(c - 1, i, duration))
        } else {
            reset
        };
        decayed(integrated, self.falloff, duration)
    }

    /// Dimensions, thresholds, weights, strengths and falloff agree with `other`.
    pub open spec fn same_parameters(self, other: LobeView) -> bool {
        &&& self.width == other.width
        &&& self.breadth == other.breadth
        &&& self.strengths == other.strengths
        &&& self.weights == other.weights
        &&& self.thresholds == other.thresholds
        &&& self.falloff == other.falloff
    }
}

/// Why a lobe cannot be rebuilt from a parameter buffer.
#[derive(Clone, Copy, Debug, PartialEq, Eq, Structural)]
pub enum LobeError {
    /// The buffer's length is not `breadth * width * 5 + 1`.
    ShapeMismatch { expected: usize, actual: usize },
    /// `breadth * width * 5 + 1` does not fit in `usize`.
    TooLarge,
}

/// The length of a parameter buffer for a lobe of `width` columns of `breadth`.
pub open spec fn parameter_len(width: nat, breadth: nat) -> nat {
    5 * (breadth * width) + 1
}

/// The lobe that a parameter buffer describes, every value zero.
pub open spec fn restored(width: nat, breadth: nat, params: Seq<Amount>) -> LobeView {
    let area: int = (breadth * width) as int;
    LobeView {
        width,
        breadth,
        values: Seq::new(breadth * (width + 1), |k: int| zero_amount()),
        thresholds: params.subrange(0, area),
        weights: params.subrange(area, 4 * area),
        strengths: params.subrange(4 * area, 5 * area),
        falloff: params[5 * area],
    }
}

/// Appends every element of `from` to `into`.
fn push_all(into: &mut Vec<Amount>, from: &Vec<Amount>)
    ensures
        final(into)@ == old(into)@ + from@,
{
    let mut k: usize = 0;
    while k < from.len()
        invariant
            0 <= k <= from@.len(),
            into@ == old(into)@ + from@.subrange(0, k as int),
        decreases from@.len() - k,
    {
        into.push(from[k]);
        k += 1;
        assert(from@.subrange(0, k as int) == from@.subrange(0, k - 1) + seq![from@[k - 1]]);
    }
    assert(from@.subrange(0, k as int) == from@);
}

/// `s` with the part from `start` to `end` replaced by `middle`.
pub open spec fn spliced(s: Seq<Amount>, start: int, middle: Seq<Amount>, end: int) -> Seq<Amount> {
    s.subrange(0, start) + (middle + s.subrange(end, s.len() as int))
}

/// Mutable view of the elements of `v` from `start` to `end`.
fn sub_slice_mut(v: &mut Vec<Amount>, start: usize, end: usize) -> (r: &mut [Amount])
    requires
        start <= end <= old(v)@.len(),
    ensures
        r@ == old(v)@.subrange(start as int, end as int),
        final(v)@ == spliced(old(v)@, start as int, final(r)@, end as int),
{
    let (front, rest) = v.as_mut_slice().split_at_mut(start);
    let (middle, back) = rest.split_at_mut(end - start);
    assert(has_resolved(front) && has_resolved(back));
    middle
}

/// The first `count` consecutive pieces of `size` elements of `s`.
fn chunked<'a>(s: &'a [Amount], size: usize, count: usize) -> (r: Vec<&'a [Amount]>)
    requires
        count * size <= s@.len(),
    ensures
        r@.len() == count,
        forall|k: int|
            0 <= k < count ==> (#[trigger] r@[k])@ == s@.subrange(k * size, (k + 1) * size),
{
    let total = s.len();
    let mut pieces: Vec<&'a [Amount]> = Vec::new();
    let mut k: usize = 0;
    while k < count
        invariant
            0 <= k <= count,
            count * size <= s@.len(),
            total == s@.len(),
            pieces@.len() == k,
            forall|j: int|
                0 <= j < k ==> (#[trigger] pieces@[j])@ == s@.subrange(j * size, (j + 1) * size),
        decreases count - k,
    {
        proof {
            assert(k * size + size <= count * size) by (nonlinear_arith)
                requires
                    k < count,
            ;
            assert(k * size + size == (k + 1) * size) by (nonlinear_arith);
        }
        pieces.push(vstd::slice::slice_subrange(s, k * size, k * size + size));
        k += 1;
    }
    pieces
}

/// Relies on `std::slice::from_mut`: a slice of one element over the
/// referenced value, writes through it landing in that value.
#[verifier::external_body]
fn single_mut(x: &mut Amount) -> (r: &mut [Amount])
    ensures
        r@ == seq![*old(x)],
        final(r)@.len() == 1 ==> *final(x) == final(r)@[0],
{
    std::slice::from_mut(x)
}

/// Splits `s` into `count` consecutive mutable pieces of `size` elements.
/// Where every piece keeps its length, `s` ends as the pieces do.
fn split_pieces_mut<'a>(s: &'a mut [Amount], size: usize, count: usize) -> (r: Vec<&'a mut [Amount]>)
    requires
        old(s)@.len() == count * size,
    ensures
        r@.len() == count,
        forall|k: int|
            0 <= k < count ==> r@[k]@ == #[trigger] old(s)@.subrange(k * size, k * size + size),
        (forall|k: int| 0 <= k < count ==> (#[trigger] final(r@[k]))@.len() == size) ==> {
            &&& final(s)@.len() == count * size
            &&& forall|k: int, j: int|
                0 <= k < count && 0 <= j < size ==> final(s)@[k * size + j]
                    == #[trigger] final(r@[k])@[j]
        },
    decreases count,
{
    let n = s.len();
    if count == 0 {
        return Vec::new();
    }
    proof {
        assert(count * size == (count - 1) * size + size) by (nonlinear_arith);
        assert forall|k: int, j: int| 0 <= k < count - 1 && 0 <= j < size implies #[trigger] (k
            * size + j) < (count - 1) * size by {
            assert(k * size + j < (count - 1) * size) by (nonlinear_arith)
                requires
                    0 <= k < count - 1,
                    0 <= j < size,
            ;
        }
    }
    let ghost front = old(s)@.subrange(0, n - size);
    let (init, last) = s.split_at_mut(n - size);
    let mut pieces = split_pieces_mut(init, size, count - 1);
    let ghost earlier = pieces@;
    pieces.push(last);
    proof {
        assert forall|k: int| 0 <= k < count - 1 implies #[trigger] earlier[k] == pieces@[k] by {}

        assert forall|k: int| 0 <= k < count implies pieces@[k]@ == #[trigger] old(s)@.subrange(
            k * size,
            k * size + size,
        ) by {
            if k < count - 1 {
                assert(k * size + size <= (count - 1) * size) by (nonlinear_arith)
                    requires
                        0 <= k < count - 1,
                ;
                assert(front.subrange(k * size, k * size + size) =~= old(s)@.subrange(
                    k * size,
                    k * size + size,
                ));
            }
        }
    }
    pieces
}

/// `c * b + i` lies inside a buffer of `n` columns of `b`.
proof fn lemma_index_in_range(c: int, i: int, b: int, n: int)
    requires
        0 <= c < n,
        0 <= i < b,
    ensures
        0 <= c * b + i < n * b,
        c * b + b <= n * b,
        3 * (c * b + i) + 2 < 3 * (n * b),
{
    assert(0 <= c * b + i < n * b) by (nonlinear_arith)
        requires
            0 <= c < n,
            0 <= i < b,
    ;
    assert(c * b + b <= n * b) by (nonlinear_arith)
        requires
            0 <= c < n,
            0 <= i < b,
    ;
}

/// Column `c` of `n` columns of `b` ends inside the buffer.
proof fn lemma_column_in_range(c: int, b: int, n: int)
    requires
        0 <= c < n,
        0 <= b,
    ensures
        c * b + b <= n * b,
        (c + 1) * b == c * b + b,
        n * b == b * n,
{
    assert(c * b + b <= n * b) by (nonlinear_arith)
        requires
            0 <= c < n,
            0 <= b,
    ;
    assert((c + 1) * b == c * b + b) by (nonlinear_arith);
    assert(n * b == b * n) by (nonlinear_arith);
}

/// A rectangular cluster of spiking neurons.
pub struct Lobe {
    dims: (usize, usize),
    values: Vec<Amount>,
    strengths: Vec<Amount>,
    weights: Vec<Amount>,
    thresholds: Vec<Amount>,
    falloff: Amount,
}

impl View for Lobe {
    type V = LobeView;

    closed spec fn view(&self) -> LobeView {
        LobeView {
            width: self.dims.0 as nat,
            breadth: self.dims.1 as nat,
            values: self.values@,
            strengths: self.strengths@,
            weights: self.weights@,
            thresholds: self.thresholds@,
            falloff: self.falloff,
        }
    }
}

impl Lobe {
    /// The lobe's buffers have the lengths its dimensions give them.
    pub open spec fn wf(&self) -> bool {
        &&& self@.well_shaped()
        &&& self@.values.len() <= usize::MAX
        &&& self@.weights.len() <= usize::MAX
    }

    /// Creates an inert lobe: every value, threshold, weight and strength zero.
    pub fn new(breadth: usize, width: usize, falloff: Amount) -> (r: Lobe)
        requires
            breadth * (width + 1) <= usize::MAX,
            3 * (breadth * width) <= usize::MAX,
        ensures
            r.wf(),
            r@.width == width,
            r@.breadth == breadth,
            r@.falloff == falloff,
            forall|k: int| 0 <= k < r@.values.len() ==> r@.values[k] == zero_amount(),
            forall|k: int| 0 <= k < r@.weights.len() ==> r@.weights[k] == zero_amount(),
            forall|k: int| 0 <= k < r@.strengths.len() ==> r@.strengths[k] == zero_amount(),
            forall|k: int| 0 <= k < r@.thresholds.len() ==> r@.thresholds[k] == zero_amount(),
    {
        assert(breadth * (width + 1) == breadth * width + breadth) by (nonlinear_arith);
        let area: usize = breadth * width;
        Lobe {
            dims: (width, breadth),
            values: vec![Amount::zero(); area + breadth],
            weights: vec![Amount::zero(); 3 * area],
            strengths: vec![Amount::zero(); area],
            thresholds: vec![Amount::zero(); area],
            falloff,
        }
    }

    /// What neuron `i` of column `c` sends along link `d` during a tick.
    fn link_signal_at(&self, c: usize, i: usize, d: usize, duration: Amount) -> (r: Amount)
        requires
            self.wf(),
            c < self@.width,
            i < self@.breadth,
            d < 3,
        ensures
            r == self@.link_signal(c as int, i as int, d as int, duration),
    {
        let b = self.dims.1;
        proof {
            lemma_index_in_range(c as int, i as int, b as int, self.dims.0 as int);
            assert(self.dims.0 * b <= b * (self.dims.0 + 1)) by (nonlinear_arith);
        }
        let k = c * b + i;
        let input = self.values[k];
        let threshold = self.thresholds[k];
        if input.is_less(threshold) {
            Amount::zero()
        } else {
            input.times(self.weights[3 * k + d]).times(self.strengths[k]).times(duration)
        }
    }

    /// What column `c` delivers to neuron `j` of column `c + 1` during a tick.
    fn incoming_at(&self, c: usize, j: usize, duration: Amount) -> (r: Amount)
        requires
            self.wf(),
            c < self@.width,
            j < self@.breadth,
        ensures
            r == self@.incoming(c as int, j as int, duration),
    {
        let from_above = if j + 1 < self.dims.1 {
            self.link_signal_at(c, j + 1, 0, duration)
        } else {
            Amount::zero()
        };
        let from_same = self.link_signal_at(c, j, 1, duration);
        let from_below = if j >= 1 {
            self.link_signal_at(c, j - 1, 2, duration)
        } else {
            Amount::zero()
        };
        from_above.plus(from_same).plus(from_below)
    }

    /// The value of neuron `i` of column `c` after one tick of `duration`.
    fn ticked_at(&self, c: usize, i: usize, duration: Amount) -> (r: Amount)
        requires
            self.wf(),
            c <= self@.width,
            i < self@.breadth,
        ensures
            r == self@.ticked(c as int, i as int, duration),
    {
        let b = self.dims.1;
        proof {
            lemma_index_in_range(c as int, i as int, b as int, self.dims.0 as int + 1);
            assert(b * (self.dims.0 + 1) == (self.dims.0 + 1) * b) by (nonlinear_arith);
            if c < self.dims.0 {
                lemma_index_in_range(c as int, i as int, b as int, self.dims.0 as int);
            }
        }
        let k = c * b + i;
        let value = self.values[k];
        let reset = if c < self.dims.0 && !value.is_less(self.thresholds[k]) {
            Amount::zero()
        } else {
            value
        };
        let integrated = if c >= 1 {
            reset.plus(self.incoming_at(c - 1, i, duration))
        } else {
            reset
        };
        integrated.minus(integrated.times(self.falloff).times(duration))
    }

    /// Advances the lobe by `duration`. Neurons of the thresholded columns that
    /// reached their threshold forward `value * weight * strength * duration`
    /// along each of their three links and reset to zero; each column past the
    /// first then gains what the previous one sent; finally every value decays
    /// by `value * falloff * duration`. Only the values change.
    pub fn tick(&mut self, duration: Amount)
        requires
            old(self).wf(),
        ensures
            final(self).wf(),
            final(self)@.same_parameters(old(self)@),
            forall|c: int, i: int|
                0 <= c <= old(self)@.width && 0 <= i < old(self)@.breadth
                    ==> #[trigger] final(self)@.values[old(self)@.index(c, i)]
                    == old(self)@.ticked(c, i, duration),
    {
        let w = self.dims.0;
        let b = self.dims.1;
        let ghost pre = self@;
        if b == 0 {
            return;
        }
        proof {
            assert(w + 1 <= b * (w + 1)) by (nonlinear_arith)
                requires
                    b >= 1,
            ;
        }
        let columns: usize = w + 1;
        let mut next: Vec<Amount> = Vec::new();
        let mut c: usize = 0;
        while c < columns
            invariant
                self@ == pre,
                self.wf(),
                w == pre.width,
                b == pre.breadth,
                columns == w + 1,
                0 <= c <= w + 1,
                next@.len() == c * b,
                forall|c2: int, i2: int|
                    0 <= c2 < c && 0 <= i2 < b ==> #[trigger] next@[pre.index(c2, i2)]
                        == pre.ticked(c2, i2, duration),
            decreases columns - c,
        {
            let mut i: usize = 0;
            while i < b
                invariant
                    self@ == pre,
                    self.wf(),
                    w == pre.width,
                    b == pre.breadth,
                    0 <= c <= w,
                    0 <= i <= b,
                    next@.len() == c * b + i,
                    forall|c2: int, i2: int|
                        (0 <= c2 < c && 0 <= i2 < b) || (c2 == c && 0 <= i2 < i)
                            ==> #[trigger] next@[pre.index(c2, i2)]
                            == pre.ticked(c2, i2, duration),
                decreases b - i,
            {
                let v = self.ticked_at(c, i, duration);
                proof {
                    assert forall|c2: int, i2: int| 0 <= c2 < c && 0 <= i2 < b implies
                        #[trigger] pre.index(c2, i2) < c * b + i by {
                        lemma_index_in_range(c2, i2, b as int, c as int);
                    }
                }
                next.push(v);
                i += 1;
            }
            proof {
                assert(c * b + b == (c + 1) * b) by (nonlinear_arith);
            }
            c += 1;
        }
        proof {
            assert(b * (w + 1) == w * b + b) by (nonlinear_arith);
            assert((w + 1) * b == w * b + b) by (nonlinear_arith);
        }
        self.values = next;
    }

    /// Rebuilds a lobe of dimensions `(width, breadth)` from a buffer laid out
    /// as [`Lobe::all_parameters_owned`] gives it; every value starts at zero.
    pub fn from_parameters(dims: (usize, usize), params: &[Amount]) -> (r: Result<Lobe, LobeError>)
        ensures
            match r {
                Ok(l) => {
                    &&& parameter_len(dims.0 as nat, dims.1 as nat) == params@.len()
                    &&& l.wf()
                    &&& l@ == restored(dims.0 as nat, dims.1 as nat, params@)
                },
                Err(LobeError::ShapeMismatch { expected, actual }) => {
                    &&& expected == parameter_len(dims.0 as nat, dims.1 as nat)
                    &&& actual == params@.len()
                    &&& expected != actual
                },
                Err(LobeError::TooLarge) => parameter_len(dims.0 as nat, dims.1 as nat) > usize::MAX,
            },
    {
        let (width, breadth) = dims;
        let area: usize = match width.checked_mul(breadth) {
            Some(a) => a,
            None => {
                proof {
                    assert(5 * (breadth * width) + 1 > usize::MAX) by (nonlinear_arith)
                        requires
                            width * breadth > usize::MAX,
                    ;
                }
                return Err(LobeError::TooLarge);
            },
        };
        proof {
            assert(breadth * width == width * breadth) by (nonlinear_arith);
        }
        if area > (usize::MAX - 1) / 5 {
            return Err(LobeError::TooLarge);
        }
        let expected: usize = 5 * area + 1;
        if params.len() != expected {
            return Err(LobeError::ShapeMismatch { expected, actual: params.len() });
        }
        proof {
            assert(breadth * (width + 1) == area + breadth) by (nonlinear_arith)
                requires
                    area == breadth * width,
            ;
            assert(width >= 1 ==> breadth <= area) by (nonlinear_arith)
                requires
                    area == breadth * width,
            ;
            assert(width == 0 ==> area == 0) by (nonlinear_arith)
                requires
                    area == breadth * width,
            ;
        }
        let thresholds = vstd::slice::slice_to_vec(vstd::slice::slice_subrange(params, 0, area));
        let weights = vstd::slice::slice_to_vec(vstd::slice::slice_subrange(params, area, 4 * area));
        let strengths = vstd::slice::slice_to_vec(
            vstd::slice::slice_subrange(params, 4 * area, 5 * area),
        );
        let falloff = params[5 * area];
        let l = Lobe {
            dims,
            values: vec![Amount::zero(); area + breadth],
            thresholds,
            weights,
            strengths,
            falloff,
        };
        assert(l@.values =~= restored(width as nat, breadth as nat, params@).values);
        Ok(l)
    }

    /// A fresh copy of every tunable number: thresholds, weights, strengths,
    /// then falloff.
    pub fn all_parameters_owned(&self) -> (r: Vec<Amount>)
        requires
            self.wf(),
        ensures
            r@ == self@.parameters(),
    {
        let mut all: Vec<Amount> = Vec::new();
        push_all(&mut all, &self.thresholds);
        push_all(&mut all, &self.weights);
        push_all(&mut all, &self.strengths);
        all.push(self.falloff);
        assert(all@ =~= self@.parameters());
        all
    }

    /// Adds `inputs` onto the input column, neuron by neuron.
    pub fn apply_input(&mut self, inputs: &[Amount])
        requires
            old(self).wf(),
            inputs@.len() == old(self)@.breadth,
        ensures
            final(self).wf(),
            final(self)@.same_parameters(old(self)@),
            final(self)@.values.len() == old(self)@.values.len(),
            forall|k: int|
                0 <= k < inputs@.len() ==> #[trigger] final(self)@.values[k] == sum_of(
                    old(self)@.values[k],
                    inputs@[k],
                ),
            forall|k: int|
                inputs@.len() <= k < old(self)@.values.len() ==> #[trigger] final(self)@.values[k]
                    == old(self)@.values[k],
    {
        proof {
            assert(self.dims.1 <= self.dims.1 * (self.dims.0 + 1)) by (nonlinear_arith);
        }
        let mut k: usize = 0;
        while k < inputs.len()
            invariant
                0 <= k <= inputs@.len(),
                inputs@.len() == old(self)@.breadth,
                self.wf(),
                self@.same_parameters(old(self)@),
                self@.values.len() == old(self)@.values.len(),
                inputs@.len() <= self@.values.len(),
                forall|j: int|
                    0 <= j < k ==> #[trigger] self@.values[j] == sum_of(old(self)@.values[j], inputs@[j]),
                forall|j: int|
                    k <= j < old(self)@.values.len() ==> #[trigger] self@.values[j] == old(self)@.values[j],
            decreases inputs@.len() - k,
        {
            let v = self.values[k].plus(inputs[k]);
            self.values.set(k, v);
            k += 1;
        }
    }

    /// Accepts a reward, which leaves a lobe as it is.
    pub fn reward(&mut self, reward: Amount)
        ensures
            final(self)@ == old(self)@,
    {
    }

    /// The number of inputs the lobe takes: its breadth.
    pub fn input_size(&self) -> (r: usize)
        ensures
            r == self@.breadth,
    {
        self.dims.1
    }

    /// The output column.
    pub fn get_output(&self) -> (r: &[Amount])
        requires
            self.wf(),
        ensures
            r@ == self@.value_column(self@.width as int),
    {
        self.value_column_ref(self.dims.0)
    }

    /// The values of column `which`, input column first, output column last.
    pub fn value_column_ref(&self, which: usize) -> (r: &[Amount])
        requires
            self.wf(),
            which <= self@.width,
        ensures
            r@ == self@.value_column(which as int),
    {
        let b = self.dims.1;
        proof {
            assert(which * b + b <= b * (self.dims.0 + 1)) by (nonlinear_arith)
                requires
                    which <= self.dims.0,
            ;
            assert(which * b + b == (which + 1) * b) by (nonlinear_arith);
        }
        vstd::slice::slice_subrange(self.values.as_slice(), which * b, which * b + b)
    }

    /// Mutable view of the values of column `which`; whatever is written
    /// through it lands in that column and nowhere else.
    pub fn value_column_mut(&mut self, which: usize) -> (r: &mut [Amount])
        requires
            old(self).wf(),
            which <= old(self)@.width,
        ensures
            r@ == old(self)@.value_column(which as int),
            final(self)@.same_parameters(old(self)@),
            final(self)@.values == spliced(
                old(self)@.values,
                which * old(self)@.breadth,
                final(r)@,
                (which + 1) * old(self)@.breadth,
            ),
    {
        let b = self.dims.1;
        proof {
            assert(which * b + b <= b * (self.dims.0 + 1)) by (nonlinear_arith)
                requires
                    which <= self.dims.0,
            ;
            assert(which * b + b == (which + 1) * b) by (nonlinear_arith);
        }
        sub_slice_mut(&mut self.values, which * b, which * b + b)
    }

    /// Mutable view of the strengths of column `which`.
    pub fn strength_column_mut(&mut self, which: usize) -> (r: &mut [Amount])
        requires
            old(self).wf(),
            which < old(self)@.width,
        ensures
            r@ == old(self)@.strength_column(which as int),
            final(self)@ == (LobeView {
                strengths: spliced(
                    old(self)@.strengths,
                    which * old(self)@.breadth,
                    final(r)@,
                    (which + 1) * old(self)@.breadth,
                ),
                ..old(self)@
            }),
    {
        let b = self.dims.1;
        proof {
            lemma_column_in_range(which as int, b as int, self.dims.0 as int);
        }
        sub_slice_mut(&mut self.strengths, which * b, which * b + b)
    }

    /// Mutable view of the thresholds of column `which`.
    pub fn threshold_column_mut(&mut self, which: usize) -> (r: &mut [Amount])
        requires
            old(self).wf(),
            which < old(self)@.width,
        ensures
            r@ == old(self)@.threshold_column(which as int),
            final(self)@ == (LobeView {
                thresholds: spliced(
                    old(self)@.thresholds,
                    which * old(self)@.breadth,
                    final(r)@,
                    (which + 1) * old(self)@.breadth,
                ),
                ..old(self)@
            }),
    {
        let b = self.dims.1;
        proof {
            lemma_column_in_range(which as int, b as int, self.dims.0 as int);
        }
        sub_slice_mut(&mut self.thresholds, which * b, which * b + b)
    }

    /// Mutable view of the weights of column `which`, three per neuron.
    pub fn weight_column_mut(&mut self, which: usize) -> (r: &mut [Amount])
        requires
            old(self).wf(),
            which < old(self)@.width,
        ensures
            r@ == old(self)@.weight_column(which as int),
            final(self)@ == (LobeView {
                weights: spliced(
                    old(self)@.weights,
                    3 * (which * old(self)@.breadth),
                    final(r)@,
                    3 * ((which + 1) * old(self)@.breadth),
                ),
                ..old(self)@
            }),
    {
        let b = self.dims.1;
        proof {
            lemma_column_in_range(which as int, b as int, self.dims.0 as int);
        }
        sub_slice_mut(&mut self.weights, 3 * (which * b), 3 * (which * b + b))
    }

    /// The value columns in order, input column first, output column last.
    pub fn values_chunked(&self) -> (r: Vec<&[Amount]>)
        requires
            self.wf(),
        ensures
            r@.len() == self@.width + 1,
            forall|c: int| 0 <= c <= self@.width ==> (#[trigger] r@[c])@ == self@.value_column(c),
    {
        let b = self.dims.1;
        proof {
            assert(self.values@.len() >= self.dims.0 + 1 || b == 0) by (nonlinear_arith)
                requires
                    self.values@.len() == b * (self.dims.0 + 1),
            ;
        }
        if b == 0 {
            let mut empty: Vec<&[Amount]> = Vec::new();
            let mut c: usize = 0;
            while c < self.dims.0
                invariant
                    self.wf(),
                    b == 0,
                    b == self@.breadth,
                    0 <= c <= self.dims.0,
                    empty@.len() == c,
                    forall|j: int| 0 <= j < c ==> (#[trigger] empty@[j])@ == self@.value_column(j),
                decreases self.dims.0 - c,
            {
                empty.push(vstd::slice::slice_subrange(self.values.as_slice(), 0, 0));
                c += 1;
            }
            empty.push(vstd::slice::slice_subrange(self.values.as_slice(), 0, 0));
            return empty;
        }
        proof {
            assert((self.dims.0 + 1) * b == b * (self.dims.0 + 1)) by (nonlinear_arith);
        }
        chunked(self.values.as_slice(), b, self.dims.0 + 1)
    }

    /// Mutable views of the value columns in order, input column first,
    /// output column last. Only the values can change through them, and
    /// where every column keeps its length the values end as the columns do.
    pub fn values_chunked_mut(&mut self) -> (r: Vec<&mut [Amount]>)
        requires
            old(self).wf(),
        ensures
            r@.len() == old(self)@.width + 1,
            forall|c: int|
                0 <= c <= old(self)@.width ==> r@[c]@ == #[trigger] old(self)@.value_column(c),
            final(self)@.same_parameters(old(self)@),
            (forall|c: int|
                0 <= c <= old(self)@.width ==> (#[trigger] final(r@[c]))@.len()
                    == old(self)@.breadth) ==> {
                &&& final(self)@.values.len() == old(self)@.values.len()
                &&& forall|c: int, i: int|
                    0 <= c <= old(self)@.width && 0 <= i < old(self)@.breadth
                        ==> #[trigger] final(self)@.values[old(self)@.index(c, i)]
                        == final(r@[c])@[i]
            },
    {
        let b = self.dims.1;
        let w = self.dims.0;
        let n = self.values.len();
        proof {
            assert(b * (w + 1) == w * b + b) by (nonlinear_arith);
            assert forall|c: int, i: int| 0 <= c < w && 0 <= i < b implies #[trigger] (c * b + i)
                < w * b by {
                assert(c * b + i < w * b) by (nonlinear_arith)
                    requires
                        0 <= c < w,
                        0 <= i < b,
                ;
            }
            assert forall|c: int| 0 <= c <= w implies #[trigger] self@.value_column(c)
                == self@.values.subrange(c * b, c * b + b) by {
                assert((c + 1) * b == c * b + b) by (nonlinear_arith);
            }
        }
        let ghost front = self@.values.subrange(0, w * b);
        let (init, last) = self.values.as_mut_slice().split_at_mut(n - b);
        let mut pieces = split_pieces_mut(init, b, w);
        let ghost earlier = pieces@;
        pieces.push(last);
        proof {
            assert forall|c: int| 0 <= c < w implies #[trigger] earlier[c] == pieces@[c] by {}
            assert(pieces@[w as int] == pieces@.last());
            assert forall|c: int| 0 <= c <= w implies pieces@[c]@ == #[trigger] old(self)@.value_column(
                c,
            ) by {
                if c < w {
                    assert(c * b + b <= w * b) by (nonlinear_arith)
                        requires
                            0 <= c < w,
                    ;
                    assert(front.subrange(c * b, c * b + b) =~= old(self)@.values.subrange(
                        c * b,
                        c * b + b,
                    ));
                }
            }
        }
        pieces
    }

    /// The strength columns in order.
    pub fn strengths_chunked(&self) -> (r: Vec<&[Amount]>)
        requires
            self.wf(),
        ensures
            r@.len() == self@.width,
            forall|c: int| 0 <= c < self@.width ==> (#[trigger] r@[c])@ == self@.strength_column(c),
    {
        proof {
            assert(self.dims.0 * self.dims.1 == self.dims.1 * self.dims.0) by (nonlinear_arith);
        }
        chunked(self.strengths.as_slice(), self.dims.1, self.dims.0)
    }

    /// The threshold columns in order.
    pub fn thresholds_chunked(&self) -> (r: Vec<&[Amount]>)
        requires
            self.wf(),
        ensures
            r@.len() == self@.width,
            forall|c: int| 0 <= c < self@.width ==> (#[trigger] r@[c])@ == self@.threshold_column(c),
    {
        proof {
            assert(self.dims.0 * self.dims.1 == self.dims.1 * self.dims.0) by (nonlinear_arith);
        }
        chunked(self.thresholds.as_slice(), self.dims.1, self.dims.0)
    }

    /// The weights of column `which`, one piece of three per neuron.
    pub fn weight_column_chunks(&self, which: usize) -> (r: Vec<&[Amount]>)
        requires
            self.wf(),
            which < self@.width,
        ensures
            r@.len() == self@.breadth,
            forall|i: int|
                0 <= i < self@.breadth ==> (#[trigger] r@[i])@ == self@.weight_column(
                    which as int,
                ).subrange(3 * i, 3 * i + 3),
    {
        let column = self.weight_column_ref(which);
        proof {
            lemma_column_in_range(which as int, self.dims.1 as int, self.dims.0 as int);
            assert(column@.len() == 3 * self.dims.1);
        }
        let r = chunked(column, 3, self.dims.1);
        assert forall|i: int| 0 <= i < self@.breadth implies (#[trigger] r@[i])@
            == self@.weight_column(which as int).subrange(3 * i, 3 * i + 3) by {
            assert(i * 3 == 3 * i && (i + 1) * 3 == 3 * i + 3);
        }
        r
    }

    /// Mutable views of every tunable number, in the order weights, thresholds,
    /// strengths, and a one-element view of the falloff.
    pub fn all_parameters_slices(&mut self) -> (r: Vec<&mut [Amount]>)
        requires
            old(self).wf(),
        ensures
            r@.len() == 4,
            r@[0]@ == old(self)@.weights,
            r@[1]@ == old(self)@.thresholds,
            r@[2]@ == old(self)@.strengths,
            r@[3]@ == seq![old(self)@.falloff],
            final(self)@.width == old(self)@.width,
            final(self)@.breadth == old(self)@.breadth,
            final(self)@.values == old(self)@.values,
            final(self)@.weights == final(r@[0])@,
            final(self)@.thresholds == final(r@[1])@,
            final(self)@.strengths == final(r@[2])@,
            final(r@[3])@.len() == 1 ==> final(self)@.falloff == final(r@[3])@[0],
    {
        vec![
            self.weights.as_mut_slice(),
            self.thresholds.as_mut_slice(),
            self.strengths.as_mut_slice(),
            single_mut(&mut self.falloff),
        ]
    }

    /// The strengths of column `which`.
    pub fn strength_column_ref(&self, which: usize) -> (r: &[Amount])
        requires
            self.wf(),
            which < self@.width,
        ensures
            r@ == self@.strength_column(which as int),
    {
        let b = self.dims.1;
        proof {
            lemma_column_in_range(which as int, b as int, self.dims.0 as int);
        }
        vstd::slice::slice_subrange(self.strengths.as_slice(), which * b, (which + 1) * b)
    }

    /// The thresholds of column `which`.
    pub fn threshold_column_ref(&self, which: usize) -> (r: &[Amount])
        requires
            self.wf(),
            which < self@.width,
        ensures
            r@ == self@.threshold_column(which as int),
    {
        let b = self.dims.1;
        proof {
            lemma_column_in_range(which as int, b as int, self.dims.0 as int);
        }
        vstd::slice::slice_subrange(self.thresholds.as_slice(), which * b, (which + 1) * b)
    }

    /// The weights of column `which`, three per neuron.
    pub fn weight_column_ref(&self, which: usize) -> (r: &[Amount])
        requires
            self.wf(),
            which < self@.width,
        ensures
            r@ == self@.weight_column(which as int),
    {
        let b = self.dims.1;
        proof {
            lemma_column_in_range(which as int, b as int, self.dims.0 as int);
        }
        vstd::slice::slice_subrange(self.weights.as_slice(), 3 * (which * b), 3 * ((which + 1) * b))
    }

    /// The dimensions of this lobe, as `(width, breadth)`.
    pub fn get_dims(&self) -> (r: (usize, usize))
        ensures
            r.0 == self@.width,
            r.1 == self@.breadth,
    {
        self.dims
    }
}

impl NeuralObject for Lobe {
    open spec fn ready(&self) -> bool {
        self.wf()
    }

    open spec fn input_len(&self) -> nat {
        self@.breadth
    }

    fn input_size(&self) -> (r: usize) {
        Lobe::input_size(self)
    }

    fn apply_input(&mut self, inputs: &[Amount]) {
        Lobe::apply_input(self, inputs)
    }

    fn tick(&mut self, duration: Amount) {
        Lobe::tick(self, duration)
    }

    fn get_output(&self) -> (r: &[Amount]) {
        Lobe::get_output(self)
    }

    fn reward(&mut self, reward: Amount) {
        Lobe::reward(self, reward)
    }
}

} // verus!
