//! Random sampling: weighted draws from a finite population, with or without
//! replacement, and uniform integers from a half-open range.
use crate::rng::{gen_range_i32, index_weights, sample_index, weight_total, weighted_index};
use rand::rngs::StdRng;
use vstd::prelude::*;

verus! {

/// Why `choice` refused its arguments. Every check runs before the first draw.
#[derive(Debug, Clone, Copy, PartialEq, Eq, Structural)]
pub enum InvalidInput {
    /// Without replacement no more elements can be drawn than the population holds.
    SampleLargerThanPopulation { size: usize, population: usize },
    /// The weight list and the population differ in length.
    WeightsLengthMismatch { weights: usize, population: usize },
    /// The weights add up to more than a `u64` holds.
    WeightTotalOverflow,
    /// Fewer elements carry a positive weight than the draws need: one for
    /// any draw with replacement, one per draw without it.
    NotEnoughWeight { size: usize, positive: usize },
}

/// How many weights are positive.
pub open spec fn positive_count(w: Seq<u64>) -> nat
    decreases w.len(),
{
    if w.len() == 0 {
        0
    } else {
        positive_count(w.drop_last()) + if w.last() > 0 {
            1nat
        } else {
            0nat
        }
    }
}

/// The weights in force: the given ones, or weight one for each of `n` elements.
pub open spec fn weights_in_force(n: nat, p: Option<Seq<u64>>) -> Seq<u64> {
    match p {
        Some(w) => w,
        None => Seq::new(n, |i: int| 1u64),
    }
}

/// The weights a caller handed over, as a sequence.
pub open spec fn weights_view(p: Option<&[u64]>) -> Option<Seq<u64>> {
    match p {
        Some(w) => Some(w@),
        None => None,
    }
}

/// The error `choice` gives for a population of `n` elements, `size` draws,
/// the replacement mode and the weights; `None` when the draws can be made.
pub open spec fn choice_error(n: nat, size: nat, replace: bool, p: Option<Seq<u64>>) -> Option<
    InvalidInput,
> {
    let w = weights_in_force(n, p);
    if !replace && size > n {
        Some(InvalidInput::SampleLargerThanPopulation { size: size as usize, population: n as usize })
    } else if p is Some && w.len() != n {
        Some(InvalidInput::WeightsLengthMismatch { weights: w.len() as usize, population: n as usize })
    } else if weight_total(w) > u64::MAX {
        Some(InvalidInput::WeightTotalOverflow)
    } else if size > 0 && (if replace {
        positive_count(w) == 0
    } else {
        positive_count(w) < size
    }) {
        Some(
            InvalidInput::NotEnoughWeight {
                size: size as usize,
                positive: positive_count(w) as usize,
            },
        )
    } else {
        None
    }
}

/// Whether index `j` occurs in `drawn`.
pub open spec fn was_drawn(drawn: Seq<usize>, j: int) -> bool {
    exists|k: int| 0 <= k < drawn.len() && drawn[k] as int == j
}

/// The weights `w` with the weight of every index in `drawn` set to zero.
pub open spec fn weights_left(w: Seq<u64>, drawn: Seq<usize>) -> Seq<u64> {
    Seq::new(w.len(), |j: int| if was_drawn(drawn, j) { 0u64 } else { w[j] })
}

/// The weights that draw `t` of the draw sequence `idx` is made from. With
/// replacement every draw uses the weights `w` unchanged. Without it, draw
/// `t` uses `w` with the `t` earlier draws set to zero: the distribution over
/// what is left divides each weight by the total that is left, so a surviving
/// index `j` has probability `p[j] / (1 - p[i])` after index `i` leaves,
/// where `p` were the probabilities before.
pub open spec fn draw_weights(w: Seq<u64>, replace: bool, idx: Seq<usize>, t: int) -> Seq<u64> {
    if replace {
        w
    } else {
        weights_left(w, idx.take(t))
    }
}

/// A sequence of indices that weighted draws over `w` can produce: each draw
/// `t` names an index of positive weight in the weights it is made from
/// (`draw_weights`), so without replacement no index comes twice.
pub open spec fn is_weighted_draw(w: Seq<u64>, replace: bool, idx: Seq<usize>) -> bool {
    &&& forall|t: int|
        0 <= t < idx.len() ==> #[trigger] idx[t] < w.len() && draw_weights(w, replace, idx, t)[idx[t] as int] > 0
    &&& !replace ==> idx.no_duplicates()
}

/// Setting a weight to zero takes it off the total and, if it was positive,
/// off the count of positive weights.
proof fn lemma_zero_weight(w: Seq<u64>, i: int)
    requires
        0 <= i < w.len(),
    ensures
        weight_total(w.update(i, 0)) + w[i] == weight_total(w),
        positive_count(w.update(i, 0)) + (if w[i] > 0 {
            1nat
        } else {
            0nat
        }) == positive_count(w),
    decreases w.len(),
{
    let u = w.update(i, 0);
    if i == w.len() - 1 {
        assert(u.drop_last() =~= w.drop_last());
    } else {
        assert(u.drop_last() =~= w.drop_last().update(i, 0));
        lemma_zero_weight(w.drop_last(), i);
    }
}

/// A positive weight makes the total positive.
proof fn lemma_positive_total(w: Seq<u64>)
    requires
        positive_count(w) > 0,
    ensures
        weight_total(w) > 0,
    decreases w.len(),
{
    if w.last() == 0 {
        lemma_positive_total(w.drop_last());
    }
}

/// The total of a prefix never exceeds the total of the whole.
proof fn lemma_total_prefix(w: Seq<u64>, k: int)
    requires
        0 <= k <= w.len(),
    ensures
        weight_total(w.take(k)) <= weight_total(w),
    decreases w.len(),
{
    if k < w.len() {
        assert(w.drop_last().take(k) =~= w.take(k));
        lemma_total_prefix(w.drop_last(), k);
    } else {
        assert(w.take(k) =~= w);
    }
}

/// Unit weights add up to their number, and all of them are positive.
proof fn lemma_unit_weights(n: nat)
    ensures
        weight_total(Seq::new(n, |i: int| 1u64)) == n,
        positive_count(Seq::new(n, |i: int| 1u64)) == n,
    decreases n,
{
    if n > 0 {
        assert(Seq::new(n, |i: int| 1u64).drop_last() =~= Seq::new((n - 1) as nat, |i: int| 1u64));
        lemma_unit_weights((n - 1) as nat);
    }
}

/// Drawing without weights and without replacement never fails while the
/// sample is no larger than the population: every element carries weight
/// one, so there is weight enough for each draw.
pub proof fn lemma_uniform_choice_succeeds(n: nat, size: nat)
    requires
        size <= n <= usize::MAX,
    ensures
        choice_error(n, size, false, None) is None,
{
    lemma_unit_weights(n);
}

/// Drawing without weights and with replacement never fails as long as
/// there is an element to draw, however many draws are asked for.
pub proof fn lemma_uniform_replacement_succeeds(n: nat, size: nat)
    requires
        n <= usize::MAX,
        size <= usize::MAX,
        size == 0 || n > 0,
    ensures
        choice_error(n, size, true, None) is None,
{
    lemma_unit_weights(n);
}

/// Without replacement, asking for more draws than the population holds is
/// refused, whatever the weights.
pub proof fn lemma_oversized_sample_fails(n: nat, size: nat, p: Option<Seq<u64>>)
    requires
        size > n,
        size <= usize::MAX,
    ensures
        choice_error(n, size, false, p) == Some(
            InvalidInput::SampleLargerThanPopulation { size: size as usize, population: n as usize },
        ),
{
}

/// Weights of another length than the population are refused, in either
/// mode; only an oversized sample without replacement is reported first.
pub proof fn lemma_weight_length_mismatch_fails(n: nat, size: nat, replace: bool, w: Seq<u64>)
    requires
        w.len() != n,
    ensures
        choice_error(n, size, replace, Some(w)) == if !replace && size > n {
            Some(
                InvalidInput::SampleLargerThanPopulation {
                    size: size as usize,
                    population: n as usize,
                },
            )
        } else {
            Some(
                InvalidInput::WeightsLengthMismatch {
                    weights: w.len() as usize,
                    population: n as usize,
                },
            )
        },
{
}

/// The elements of `a` at `indices`, in the order of `indices`.
pub fn pick<T: Copy>(a: &[T], indices: &Vec<usize>) -> (r: Vec<T>)
    requires
        forall|t: int| 0 <= t < indices.len() ==> #[trigger] indices@[t] < a@.len(),
    ensures
        r@ == indices@.map_values(|j: usize| a@[j as int]),
{
    let mut r: Vec<T> = Vec::new();
    let mut t: usize = 0;
    while t < indices.len()
        invariant
            t <= indices.len(),
            forall|t: int| 0 <= t < indices.len() ==> #[trigger] indices@[t] < a@.len(),
            r@ == indices@.subrange(0, t as int).map_values(|j: usize| a@[j as int]),
        decreases indices.len() - t,
    {
        r.push(a[indices[t]]);
        t = t + 1;
        assert(r@ =~= indices@.subrange(0, t as int).map_values(|j: usize| a@[j as int]));
    }
    assert(indices@.subrange(0, t as int) =~= indices@);
    r
}

/// Checks the arguments of `choice` and returns the weights in force: the
/// given ones, or weight one for each element.
pub fn checked_weights(n: usize, size: usize, replace: bool, p: Option<&[u64]>) -> (r: Result<
    Vec<u64>,
    InvalidInput,
>)
    ensures
        match choice_error(n as nat, size as nat, replace, weights_view(p)) {
            Some(e) => r == Err::<Vec<u64>, InvalidInput>(e),
            None => r matches Ok(w) && w@ == weights_in_force(n as nat, weights_view(p)),
        },
{
    if !replace && size > n {
        return Err(InvalidInput::SampleLargerThanPopulation { size, population: n });
    }
    let mut w: Vec<u64> = Vec::new();
    match p {
        Some(given) => {
            if given.len() != n {
                return Err(InvalidInput::WeightsLengthMismatch { weights: given.len(), population: n });
            }
            let mut k: usize = 0;
            while k < given.len()
                invariant
                    k <= given@.len(),
                    w@ == given@.subrange(0, k as int),
                decreases given@.len() - k,
            {
                w.push(given[k]);
                k = k + 1;
                assert(w@ =~= given@.subrange(0, k as int));
            }
            assert(w@ =~= given@);
        },
        None => {
            let mut k: usize = 0;
            while k < n
                invariant
                    k <= n,
                    w@ == Seq::new(k as nat, |i: int| 1u64),
                decreases n - k,
            {
                w.push(1);
                k = k + 1;
                assert(w@ =~= Seq::new(k as nat, |i: int| 1u64));
            }
        },
    }
    assert(w@ == weights_in_force(n as nat, weights_view(p)));
    assert(w@.len() == n);
    // Add the weights up and count the positive ones.
    let mut total: u64 = 0;
    let mut positive: usize = 0;
    let mut k: usize = 0;
    while k < w.len()
        invariant
            k <= w@.len(),
            w@ == weights_in_force(n as nat, weights_view(p)),
            w@.len() == n,
            replace || size <= n,
            total == weight_total(w@.subrange(0, k as int)),
            positive == positive_count(w@.subrange(0, k as int)),
            positive <= k,
        decreases w@.len() - k,
    {
        assert(w@.subrange(0, k as int + 1).drop_last() =~= w@.subrange(0, k as int));
        match total.checked_add(w[k]) {
            Some(t) => total = t,
            None => {
                assert(w@.subrange(0, k as int + 1) =~= w@.take(k as int + 1));
                assert(weight_total(w@.subrange(0, k as int + 1)) == total + w@[k as int]);
                proof {
                    lemma_total_prefix(w@, k as int + 1);
                }
                assert(weight_total(w@) > u64::MAX);
                return Err(InvalidInput::WeightTotalOverflow);
            },
        }
        if w[k] > 0 {
            positive = positive + 1;
        }
        k = k + 1;
    }
    assert(w@.subrange(0, k as int) =~= w@);
    let short = if replace {
        positive == 0
    } else {
        positive < size
    };
    if size > 0 && short {
        return Err(InvalidInput::NotEnoughWeight { size, positive });
    }
    Ok(w)
}

/// Draws `size` indices with replacement: every draw comes from the same
/// categorical distribution over `w`, built once. `used` lists, draw by draw,
/// the weights of the distribution each draw was sampled from.
fn draw_with_replacement(w: &Vec<u64>, size: usize, rng: &mut StdRng) -> (res: (
    Vec<usize>,
    Ghost<Seq<Seq<u64>>>,
))
    requires
        weight_total(w@) <= u64::MAX,
        size > 0 ==> positive_count(w@) > 0,
    ensures
        res.0.len() == size,
        res.1@.len() == size,
        forall|t: int| 0 <= t < size ==> #[trigger] res.1@[t] == draw_weights(w@, true, res.0@, t),
        is_weighted_draw(w@, true, res.0@),
{
    let mut r: Vec<usize> = Vec::new();
    let ghost mut used: Seq<Seq<u64>> = Seq::empty();
    if size == 0 {
        return (r, Ghost(used));
    }
    proof {
        lemma_positive_total(w@);
    }
    let d = weighted_index(w).unwrap();
    let mut t: usize = 0;
    while t < size
        invariant
            t <= size,
            r.len() == t,
            used.len() == t,
            index_weights(d) == w@,
            weight_total(w@) > 0,
            forall|k: int| 0 <= k < t ==> #[trigger] used[k] == w@,
            is_weighted_draw(w@, true, r@),
        decreases size - t,
    {
        let i = sample_index(&d, rng);
        proof {
            used = used.push(index_weights(d));
        }
        r.push(i);
        t = t + 1;
    }
    (r, Ghost(used))
}

/// Setting the weight of a fresh index to zero extends the weights left by
/// that index.
proof fn lemma_weights_left_push(w: Seq<u64>, drawn: Seq<usize>, i: usize)
    requires
        i < w.len(),
    ensures
        weights_left(w, drawn).update(i as int, 0) =~= weights_left(w, drawn.push(i)),
{
    let a = weights_left(w, drawn).update(i as int, 0);
    let b = weights_left(w, drawn.push(i));
    assert forall|j: int| 0 <= j < w.len() implies a[j] == b[j] by {
        if j != i {
            if was_drawn(drawn, j) {
                let k = choose|k: int| 0 <= k < drawn.len() && drawn[k] as int == j;
                assert(drawn.push(i)[k] as int == j);
            }
            if was_drawn(drawn.push(i), j) {
                let k = choose|k: int| 0 <= k < drawn.len() + 1 && drawn.push(i)[k] as int == j;
                assert(k < drawn.len());
                assert(drawn[k] as int == j);
            }
        } else {
            assert(drawn.push(i)[drawn.len() as int] == i);
        }
    }
}

/// Draws `size` distinct indices without replacement.
///
/// Each draw comes from the categorical distribution over the weights that
/// are left, and the drawn index then has its weight set to zero, which
/// renormalises the surviving probabilities (see `draw_weights`). The total
/// stays positive up to the last draw because at least `size` weights are
/// positive to begin with. `used` lists, draw by draw, the weights of the
/// distribution each draw was sampled from.
fn draw_without_replacement(w: Vec<u64>, size: usize, rng: &mut StdRng) -> (res: (
    Vec<usize>,
    Ghost<Seq<Seq<u64>>>,
))
    requires
        weight_total(w@) <= u64::MAX,
        size <= positive_count(w@),
    ensures
        res.0.len() == size,
        res.1@.len() == size,
        forall|t: int| 0 <= t < size ==> #[trigger] res.1@[t] == draw_weights(w@, false, res.0@, t),
        is_weighted_draw(w@, false, res.0@),
{
    let ghost w0 = w@;
    let mut remaining = w;
    let mut r: Vec<usize> = Vec::new();
    let ghost mut used: Seq<Seq<u64>> = Seq::empty();
    let mut t: usize = 0;
    assert(remaining@ =~= weights_left(w0, r@));
    while t < size
        invariant
            t <= size,
            r.len() == t,
            used.len() == t,
            remaining@ == weights_left(w0, r@),
            positive_count(remaining@) + t == positive_count(w0),
            weight_total(remaining@) <= weight_total(w0),
            weight_total(w0) <= u64::MAX,
            size <= positive_count(w0),
            forall|k: int| 0 <= k < t ==> #[trigger] used[k] == draw_weights(w0, false, r@, k),
            is_weighted_draw(w0, false, r@),
        decreases size - t,
    {
        proof {
            lemma_positive_total(remaining@);
        }
        let d = weighted_index(&remaining).unwrap();
        let i = sample_index(&d, rng);
        let ghost before = r@;
        proof {
            lemma_zero_weight(remaining@, i as int);
            lemma_weights_left_push(w0, before, i);
            assert(!was_drawn(before, i as int));
            assert forall|k: int| 0 <= k < before.len() implies before[k] != i by {
                if before[k] == i {
                    assert(was_drawn(before, i as int));
                }
            }
            used = used.push(index_weights(d));
        }
        remaining[i] = 0;
        r.push(i);
        t = t + 1;
        proof {
            assert(r@ == before.push(i));
            assert(r@.take(t - 1) =~= before);
            assert forall|k: int| 0 <= k < t implies #[trigger] used[k] == draw_weights(w0, false, r@, k) by {
                if k < t - 1 {
                    assert(r@.take(k) =~= before.take(k));
                }
            }
            assert forall|k: int| 0 <= k < r@.len() implies #[trigger] r@[k] < w0.len()
                && draw_weights(w0, false, r@, k)[r@[k] as int] > 0 by {
                if k < t - 1 {
                    assert(r@.take(k) =~= before.take(k));
                    assert(r@[k] == before[k]);
                }
            }
            assert forall|a: int, b: int| 0 <= a < r@.len() && 0 <= b < r@.len() && a != b
                implies r@[a] != r@[b] by {
                if a < t - 1 && b < t - 1 {
                    assert(before[a] == r@[a] && before[b] == r@[b]);
                } else if a == t - 1 && b < t - 1 {
                    assert(before[b] == r@[b]);
                } else if b == t - 1 && a < t - 1 {
                    assert(before[a] == r@[a]);
                }
            }
        }
    }
    (r, Ghost(used))
}

/// Draws `size` elements of `a` with the random source `rng`, with or
/// without replacement, each element weighted by `p` or, without `p`, all of
/// them alike. The draws come out in the order they were made, and draw `t`
/// is made from the weights `draw_weights` gives.
///
/// Every check runs before the first draw, and the error is the first of
/// these that applies: more draws than elements without replacement; a weight
/// list of another length than `a`; weights whose total overflows a `u64`;
/// no positive weight for a draw with replacement, or fewer positive weights
/// than draws without it.
pub fn choice<T: Copy>(
    a: &[T],
    size: usize,
    replace: bool,
    p: Option<&[u64]>,
    rng: &mut StdRng,
) -> (r: Result<
    Vec<T>,
    InvalidInput,
>)
    ensures
        match choice_error(a@.len(), size as nat, replace, weights_view(p)) {
            Some(e) => r == Err::<Vec<T>, InvalidInput>(e),
            None => r matches Ok(v) && exists|idx: Seq<usize>|
                #[trigger] is_weighted_draw(weights_in_force(a@.len(), weights_view(p)), replace, idx)
                    && idx.len() == size && v@ == idx.map_values(|j: usize| a@[j as int]),
        },
{
    let w = match checked_weights(a.len(), size, replace, p) {
        Ok(w) => w,
        Err(e) => {
            return Err(e);
        },
    };
    let (idx, Ghost(_used)) = if replace {
        draw_with_replacement(&w, size, rng)
    } else {
        draw_without_replacement(w, size, rng)
    };
    let v = pick(a, &idx);
    assert(is_weighted_draw(weights_in_force(a@.len(), weights_view(p)), replace, idx@));
    Ok(v)
}

/// `n` integers drawn uniformly from `min..max` with the random source `rng`.
///
/// The range must hold a value whenever a draw is made.
pub fn randint(min: i32, max: i32, n: usize, rng: &mut StdRng) -> (r: Vec<i32>)
    requires
        n == 0 || min < max,
    ensures
        r.len() == n,
        forall|k: int| 0 <= k < n ==> min <= #[trigger] r@[k] < max,
{
    let mut r: Vec<i32> = Vec::new();
    let mut t: usize = 0;
    while t < n
        invariant
            t <= n,
            r.len() == t,
            n == 0 || min < max,
            forall|k: int| 0 <= k < t ==> min <= #[trigger] r@[k] < max,
        decreases n - t,
    {
        r.push(gen_range_i32(rng, min, max));
        t = t + 1;
    }
    r
}

} // verus!
