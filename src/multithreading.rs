use vstd::prelude::*;
use vstd::arithmetic::div_mod::{lemma_div_by_multiple, lemma_div_is_ordered};
use vstd::slice::slice_subrange;

verus! {

/// Start of part `i` when `total` items are cut into `parallelism` contiguous parts whose
/// lengths differ by at most one; part `i` ends where part `i + 1` starts.
pub open spec fn part_start(total: int, parallelism: int, i: int) -> int {
    i * total / parallelism
}

/// The parts are in order and lie within `[0, total]`.
pub proof fn lemma_part_ordered(total: int, parallelism: int, i: int)
    requires
        0 <= total,
        0 < parallelism,
        0 <= i < parallelism,
    ensures
        0 <= part_start(total, parallelism, i),
        part_start(total, parallelism, i) <= part_start(total, parallelism, i + 1),
        part_start(total, parallelism, i + 1) <= total,
{
    assert(0 <= i * total) by (nonlinear_arith)
        requires
            0 <= i,
            0 <= total,
    ;
    assert(i * total <= (i + 1) * total) by (nonlinear_arith)
        requires
            0 <= total,
    ;
    assert((i + 1) * total <= parallelism * total) by (nonlinear_arith)
        requires
            i < parallelism,
            0 <= total,
    ;
    lemma_div_is_ordered(0, i * total, parallelism);
    lemma_div_is_ordered(i * total, (i + 1) * total, parallelism);
    lemma_div_is_ordered((i + 1) * total, parallelism * total, parallelism);
    lemma_div_by_multiple(total, parallelism);
    assert(total * parallelism == parallelism * total) by (nonlinear_arith);
}

/// The bounds `[start, end)` of part `i` of `total` items cut into `parallelism` parts.
pub fn slice_bounds(total: usize, parallelism: usize, i: usize) -> (r: (usize, usize))
    requires
        0 < parallelism,
        i < parallelism,
    ensures
        r.0 == part_start(total as int, parallelism as int, i as int),
        r.1 == part_start(total as int, parallelism as int, i + 1),
        r.0 <= r.1 <= total,
{
    let t = total as u128;
    let p = parallelism as u128;
    let k = i as u128;
    proof {
        lemma_part_ordered(total as int, parallelism as int, i as int);
        assert(k * t <= (k + 1) * t) by (nonlinear_arith);
        assert((k + 1) * t <= p * t) by (nonlinear_arith)
            requires
                k < p,
        ;
        assert(p * t <= 0xffff_ffff_ffff_ffff * 0xffff_ffff_ffff_ffff) by (nonlinear_arith)
            requires
                p <= 0xffff_ffff_ffff_ffff,
                t <= 0xffff_ffff_ffff_ffff,
        ;
    }
    let start = (k * t / p) as usize;
    let end = ((k + 1) * t / p) as usize;
    (start, end)
}

/// Cuts `vec` into `parallelism` contiguous parts, in order, covering it exactly.
pub fn slice<T>(vec: &Vec<T>, parallelism: usize) -> (r: Vec<&[T]>)
    requires
        0 < parallelism,
    ensures
        r@.len() == parallelism,
        forall|i: int|
            0 <= i < parallelism ==> 0 <= #[trigger] part_start(vec@.len() as int, parallelism as int, i)
                <= part_start(vec@.len() as int, parallelism as int, i + 1) <= vec@.len(),
        forall|i: int|
            0 <= i < parallelism ==> (#[trigger] r@[i])@ == vec@.subrange(
                part_start(vec@.len() as int, parallelism as int, i),
                part_start(vec@.len() as int, parallelism as int, i + 1),
            ),
{
    let mut slices: Vec<&[T]> = Vec::with_capacity(parallelism);
    let total_length = vec.len();
    let all = vec.as_slice();
    let mut i: usize = 0;
    while i < parallelism
        invariant
            i <= parallelism,
            total_length == vec@.len(),
            all@ == vec@,
            slices@.len() == i,
            forall|j: int|
                0 <= j < i ==> (#[trigger] slices@[j])@ == vec@.subrange(
                    part_start(total_length as int, parallelism as int, j),
                    part_start(total_length as int, parallelism as int, j + 1),
                ),
        decreases parallelism - i,
    {
        proof {
            lemma_part_ordered(total_length as int, parallelism as int, i as int);
        }
        let (slice_start, slice_end) = slice_bounds(total_length, parallelism, i);
        slices.push(slice_subrange(all, slice_start, slice_end));
        i = i + 1;
    }
    proof {
        assert forall|i: int| 0 <= i < parallelism implies 0 <= #[trigger] part_start(
            vec@.len() as int,
            parallelism as int,
            i,
        ) <= part_start(vec@.len() as int, parallelism as int, i + 1) <= vec@.len() by {
            lemma_part_ordered(vec@.len() as int, parallelism as int, i);
        }
    }
    slices
}

} // verus!
