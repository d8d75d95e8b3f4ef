//! Numerical helpers: evenly spaced integer ranges and random sampling
//! from finite populations.
pub mod random;
mod rng;

use vstd::prelude::*;

verus! {

/// The error `arange` returns when asked to step by zero.
#[derive(Debug, PartialEq)]
pub struct ArangeError(pub String);

/// Whether `v` still belongs to the range that ends at `stop` when walking
/// by `step`: `stop` itself is excluded in either direction, so walking up
/// the values stay below it and walking down they stay above it.
pub open spec fn arange_continues(v: int, stop: int, step: int) -> bool {
    if step > 0 {
        v < stop
    } else {
        v > stop
    }
}

/// The values `start, start + step, start + 2 * step, ...` for as long as
/// they stay in the range that `stop` closes (see `arange_continues`).
///
/// Fails when `step` is zero.
pub fn arange(start: usize, stop: usize, step: isize) -> (r: Result<Vec<usize>, ArangeError>)
    ensures
        r is Err <==> step == 0,
        r matches Err(e) ==> e.0@ == "Step size cannot be 0"@,
        r matches Ok(v) ==> {
            &&& forall|k: int|
                0 <= k < v.len() ==> #[trigger] v@[k] == start as int + k * step as int
                    && arange_continues(v@[k] as int, stop as int, step as int)
            &&& !arange_continues(start as int + v.len() as int * step as int, stop as int, step as int)
        },
{
    if step == 0 {
        return Err(ArangeError("Step size cannot be 0".to_string()));
    }
    let mut v: Vec<usize> = Vec::new();
    let mut cur: usize = start;
    assert(v.len() as int * step as int == 0) by (nonlinear_arith)
        requires v.len() == 0;
    if step > 0 {
        let s: usize = step as usize;
        while cur < stop
            invariant
                step > 0,
                s == step,
                cur == start as int + v.len() as int * step as int,
                forall|k: int|
                    0 <= k < v.len() ==> #[trigger] v@[k] == start as int + k * step as int && v@[k] < stop,
            decreases stop - cur,
        {
            proof {
                assert(start as int + (v.len() as int + 1) * step as int == start as int + v.len() as int * step as int + step)
                    by (nonlinear_arith);
            }
            v.push(cur);
            if stop - cur <= s {
                assert(!arange_continues(start as int + v.len() as int * step as int, stop as int, step as int));
                return Ok(v);
            }
            cur = cur + s;
        }
    } else {
        let m: usize = (-(step + 1)) as usize + 1;
        while cur > stop
            invariant
                step < 0,
                m == -step,
                cur == start as int + v.len() as int * step as int,
                forall|k: int|
                    0 <= k < v.len() ==> #[trigger] v@[k] == start as int + k * step as int && v@[k] > stop,
            decreases cur,
        {
            proof {
                assert(start as int + (v.len() as int + 1) * step as int == start as int + v.len() as int * step as int + step)
                    by (nonlinear_arith);
            }
            v.push(cur);
            if cur - stop <= m {
                assert(!arange_continues(start as int + v.len() as int * step as int, stop as int, step as int));
                return Ok(v);
            }
            cur = cur - m;
        }
    }
    Ok(v)
}

} // verus!
