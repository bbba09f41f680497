//! Random field values, for trying out the parser, engine and renderer.
use crate::cron::{ints, option_int, Pattern, Value};
use vstd::prelude::*;

verus! {

/// Relies on `fastrand::i32` over an inclusive range: a number within the
/// range (the crate panics on an empty range, which `requires` rules out).
#[verifier::external_body]
fn random_in(lo: i32, hi: i32) -> (r: i32)
    requires
        lo <= hi,
    ensures
        lo <= r <= hi,
{
    fastrand::i32(lo..=hi)
}

/// The field value that a set of draws selects: `shape` 0 gives the list
/// `elems`, 1 the range from `first` to `second` (stepped by `step` when
/// `stepped` is 4), 2 the single value `first`, 3 the step from `first` by
/// `second`, and any other shape the wildcard.
pub fn value_from_draws(shape: i32, elems: Vec<i32>, first: i32, second: i32, stepped: i32, step: i32) -> (r: Value)
    ensures
        shape == 0 ==> r@ == Pattern::List(ints(elems@)),
        shape == 1 ==> r@ == Pattern::Range(
            first as int,
            second as int,
            if stepped == 4 {
                Some(step as int)
            } else {
                None
            },
        ),
        shape == 2 ==> r@ == Pattern::Single(first as int),
        shape == 3 ==> r@ == Pattern::Step(Some(first as int), second as int),
        !(0 <= shape <= 3) ==> r@ is Wildcard,
{
    if shape == 0 {
        Value::List(elems)
    } else if shape == 1 {
        let step = if stepped == 4 {
            Some(step)
        } else {
            None
        };
        assert(option_int(step) == if stepped == 4 {
            Some(step->0 as int)
        } else {
            None::<int>
        });
        Value::Range(first, second, step)
    } else if shape == 2 {
        Value::Single(first)
    } else if shape == 3 {
        Value::Step(Some(first), second)
    } else {
        Value::Wildcard
    }
}

/// A random value for a field whose domain is `[min, max]`: most often a
/// wildcard, otherwise a list of two or three values, a range (stepped by 2
/// to 4 one time in five), a single value or a step.
pub fn random_value(min: i32, max: i32) -> (r: Value)
    requires
        0 <= min < max <= 59,
    ensures
        r@.wf(min as int, max as int),
{
    let shape = random_in(0, 10);
    let mut elems: Vec<i32> = Vec::new();
    let mut first: i32 = min;
    let mut second: i32 = max;
    let mut stepped: i32 = 0;
    let mut step: i32 = 1;
    if shape == 0 {
        let count = random_in(2, 3);
        let mut i: i32 = 0;
        while i < count
            invariant
                0 <= i <= count <= 3,
                0 <= min < max <= 59,
                elems.len() == i,
                forall|j: int| 0 <= j < elems.len() ==> min <= #[trigger] elems@[j] <= max,
            decreases count - i,
        {
            elems.push(random_in(min, max));
            i = i + 1;
        }
    } else if shape == 1 {
        first = random_in(min, max - 1);
        second = random_in(first, max);
        stepped = random_in(0, 4);
        step = if max >= 4 {
            random_in(2, 4)
        } else {
            random_in(1, max)
        };
    } else if shape == 2 {
        first = random_in(min, max);
    } else if shape == 3 {
        first = random_in(min, max);
        second = random_in(1, max);
    }
    let r = value_from_draws(shape, elems, first, second, stepped, step);
    proof {
        if shape == 0 {
            assert forall|j: int| 0 <= j < ints(elems@).len() implies min <= #[trigger] ints(elems@)[j] <= max by {
                assert(ints(elems@)[j] == elems@[j] as int);
            }
        }
    }
    r
}

} // verus!
