//! The escape-time iteration: how many steps an orbit stays bounded.

use vstd::prelude::*;

verus! {

/// Whether `orbit` is a run of states in which every state but the last is
/// bounded and is followed by the state that `step` makes of it.
pub open spec fn is_bounded_orbit<S, T: Fn(S) -> S, B: Fn(&S) -> bool>(
    step: &T,
    bounded: &B,
    orbit: Seq<S>,
) -> bool {
    forall|k: int|
        0 <= k < orbit.len() - 1 ==> {
            &&& call_ensures(*bounded, (&#[trigger] orbit[k],), true)
            &&& call_ensures(*step, (orbit[k],), orbit[k + 1])
        }
}

/// Whether the orbit of `start` can leave the bounded region after exactly
/// `count` steps, or stay in it for `max_iterations` steps with
/// `count == max_iterations`.
pub open spec fn escapes_after<S, T: Fn(S) -> S, B: Fn(&S) -> bool>(
    step: &T,
    bounded: &B,
    start: S,
    max_iterations: u32,
    count: u32,
) -> bool {
    exists|orbit: Seq<S>|
        {
            &&& #[trigger] orbit.len() == count + 1
            &&& orbit[0] == start
            &&& is_bounded_orbit(step, bounded, orbit)
            &&& count == max_iterations || (count < max_iterations && call_ensures(
                *bounded,
                (&orbit[count as int],),
                false,
            ))
        }
}

/// Follows the orbit of `start` under `step` while it is `bounded`, for at
/// most `max_iterations` steps, and returns the number of steps taken.
pub fn escape_time<S, T: Fn(S) -> S, B: Fn(&S) -> bool>(
    start: S,
    max_iterations: u32,
    step: &T,
    bounded: &B,
) -> (count: u32)
    requires
        forall|z: S| call_requires(*step, (z,)),
        forall|z: &S| call_requires(*bounded, (z,)),
    ensures
        escapes_after(step, bounded, start, max_iterations, count),
{
    let mut z = start;
    let mut iteration: u32 = 0;
    let ghost mut orbit: Seq<S> = seq![start];
    loop
        invariant
            forall|z: S| call_requires(*step, (z,)),
            forall|z: &S| call_requires(*bounded, (z,)),
            iteration <= max_iterations,
            orbit.len() == iteration + 1,
            orbit[0] == start,
            orbit[iteration as int] == z,
            is_bounded_orbit(step, bounded, orbit),
        ensures
            escapes_after(step, bounded, start, max_iterations, iteration),
        decreases max_iterations - iteration,
    {
        let inside = bounded(&z);
        if !(inside && iteration < max_iterations) {
            break;
        }
        z = step(z);
        iteration += 1;
        proof {
            orbit = orbit.push(z);
        }
    }
    iteration
}

/// The escape time of `z` under a step and a bound that are functions: the
/// number of steps, at most `budget`, before the orbit first is unbounded.
pub open spec fn escape_count<S>(
    next: spec_fn(S) -> S,
    inside: spec_fn(S) -> bool,
    z: S,
    budget: nat,
) -> nat
    decreases budget,
{
    if budget == 0 || !inside(z) {
        0
    } else {
        1 + escape_count(next, inside, next(z), (budget - 1) as nat)
    }
}

/// Whether `step` returns nothing but what the function `next` gives.
pub open spec fn steps_by<S, T: Fn(S) -> S>(step: &T, next: spec_fn(S) -> S) -> bool {
    forall|z: S, after: S| call_ensures(*step, (z,), after) ==> after == next(z)
}

/// Whether `bounded` returns nothing but what the function `inside` gives.
pub open spec fn bounds_by<S, B: Fn(&S) -> bool>(bounded: &B, inside: spec_fn(S) -> bool) -> bool {
    forall|z: &S, within: bool| call_ensures(*bounded, (z,), within) ==> within == inside(*z)
}

/// From its `k`-th state on, a bounded orbit that ends at the cap or in an
/// unbounded state has as many steps left as the escape time says.
proof fn lemma_orbit_tail<S, T: Fn(S) -> S, B: Fn(&S) -> bool>(
    step: &T,
    bounded: &B,
    next: spec_fn(S) -> S,
    inside: spec_fn(S) -> bool,
    orbit: Seq<S>,
    max_iterations: u32,
    k: int,
)
    requires
        steps_by(step, next),
        bounds_by(bounded, inside),
        is_bounded_orbit(step, bounded, orbit),
        1 <= orbit.len() <= max_iterations + 1,
        orbit.len() == max_iterations + 1 || call_ensures(*bounded, (&orbit[orbit.len() - 1],), false),
        0 <= k < orbit.len(),
    ensures
        escape_count(next, inside, orbit[k], (max_iterations - k) as nat) == orbit.len() - 1 - k,
    decreases orbit.len() - k,
{
    if k < orbit.len() - 1 {
        assert(call_ensures(*bounded, (&orbit[k],), true));
        assert(call_ensures(*step, (orbit[k],), orbit[k + 1]));
        lemma_orbit_tail(step, bounded, next, inside, orbit, max_iterations, k + 1);
    }
}

/// Where `step` and `bounded` are functions, the count that `escape_time`
/// returns is the escape time of the start: the same for every call.
pub proof fn lemma_escape_time_is_count<S, T: Fn(S) -> S, B: Fn(&S) -> bool>(
    step: &T,
    bounded: &B,
    next: spec_fn(S) -> S,
    inside: spec_fn(S) -> bool,
    start: S,
    max_iterations: u32,
    count: u32,
)
    requires
        steps_by(step, next),
        bounds_by(bounded, inside),
        escapes_after(step, bounded, start, max_iterations, count),
    ensures
        count == escape_count(next, inside, start, max_iterations as nat),
{
    let orbit = choose|orbit: Seq<S>|
        {
            &&& #[trigger] orbit.len() == count + 1
            &&& orbit[0] == start
            &&& is_bounded_orbit(step, bounded, orbit)
            &&& count == max_iterations || (count < max_iterations && call_ensures(
                *bounded,
                (&orbit[count as int],),
                false,
            ))
        };
    lemma_orbit_tail(step, bounded, next, inside, orbit, max_iterations, 0);
}

/// The escape time never exceeds the budget.
pub proof fn lemma_escape_count_bounded<S>(
    next: spec_fn(S) -> S,
    inside: spec_fn(S) -> bool,
    z: S,
    budget: nat,
)
    ensures
        escape_count(next, inside, z, budget) <= budget,
    decreases budget,
{
    if budget > 0 && inside(z) {
        lemma_escape_count_bounded(next, inside, next(z), (budget - 1) as nat);
    }
}

} // verus!
