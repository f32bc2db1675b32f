//! The escape evaluator: how many steps an orbit makes before it leaves the
//! escape radius.
//!
//! The evaluator is generic in the state of the orbit. It is given the step
//! `z -> z * z + c` and the test `|z| <= 2` as functions. Its contract says
//! what it returns for every step and test, over what they ensure, and for a
//! step and a test that compute mathematical functions it gives the escape
//! count of the orbit under those functions.

use crate::color::{black, color_of, ColorScheme};
use vstd::prelude::*;

verus! {

/// The state of the orbit of `seed` under `f` after `k` steps.
pub open spec fn orbit_state<S>(f: spec_fn(S) -> S, seed: S, k: nat) -> S
    decreases k,
{
    if k == 0 {
        seed
    } else {
        f(orbit_state(f, seed, (k - 1) as nat))
    }
}

/// `n` is the escape count of `seed` under the bound `max_iter`: the least
/// number of steps after which the orbit is no longer inside, or the bound
/// where it is inside that long.
pub open spec fn is_escape_count<S>(
    f: spec_fn(S) -> S,
    inside: spec_fn(S) -> bool,
    seed: S,
    max_iter: nat,
    n: nat,
) -> bool {
    &&& n <= max_iter
    &&& forall|k: nat| k < n ==> inside(#[trigger] orbit_state(f, seed, k))
    &&& (n == max_iter || !inside(orbit_state(f, seed, n)))
}

/// The escape count of `seed` under the bound `max_iter`.
pub open spec fn escape_count_of<S>(
    f: spec_fn(S) -> S,
    inside: spec_fn(S) -> bool,
    seed: S,
    max_iter: nat,
) -> nat {
    choose|n: nat| is_escape_count(f, inside, seed, max_iter, n)
}

/// The step function computes `f`.
pub open spec fn computes_step<S, F: Fn(&S) -> S>(step: F, f: spec_fn(S) -> S) -> bool {
    forall|s: S, r: S| #[trigger] call_ensures(step, (&s,), r) ==> r == f(s)
}

/// The test function computes `inside`.
pub open spec fn computes_test<S, W: Fn(&S) -> bool>(within: W, inside: spec_fn(S) -> bool) -> bool {
    forall|s: S, r: bool| #[trigger] call_ensures(within, (&s,), r) ==> r == inside(s)
}

/// `trace` is an orbit from `seed`: it starts there, and each of its states
/// follows from the one before it by `step`.
pub open spec fn is_orbit<S, F: Fn(&S) -> S>(step: F, seed: S, trace: Seq<S>) -> bool {
    &&& trace.len() > 0
    &&& trace[0] == seed
    &&& forall|k: int|
        0 <= k < trace.len() - 1 ==> call_ensures(step, (&trace[k],), #[trigger] trace[k + 1])
}

/// The test held of each of the first `n` states of `trace`, and then either
/// the bound was reached or the test failed.
pub open spec fn stops_at<S, W: Fn(&S) -> bool>(
    within: W,
    trace: Seq<S>,
    max_iter: nat,
    n: nat,
) -> bool {
    &&& n <= max_iter
    &&& n < trace.len()
    &&& forall|k: int| 0 <= k < n ==> call_ensures(within, (&#[trigger] trace[k],), true)
    &&& (n == max_iter || call_ensures(within, (&trace[n as int],), false))
}

/// A point has one escape count under one bound.
pub proof fn lemma_escape_count_unique<S>(
    f: spec_fn(S) -> S,
    inside: spec_fn(S) -> bool,
    seed: S,
    max_iter: nat,
    n: nat,
)
    requires
        is_escape_count(f, inside, seed, max_iter, n),
    ensures
        escape_count_of(f, inside, seed, max_iter) == n,
{
    let m = escape_count_of(f, inside, seed, max_iter);
    assert(is_escape_count(f, inside, seed, max_iter, m));
    if m < n {
        assert(inside(orbit_state(f, seed, m)));
    } else if n < m {
        assert(inside(orbit_state(f, seed, n)));
    }
}

/// From a count of steps inside, the escape count is found by going on.
proof fn lemma_escape_count_from<S>(
    f: spec_fn(S) -> S,
    inside: spec_fn(S) -> bool,
    seed: S,
    max_iter: nat,
    k: nat,
)
    requires
        k <= max_iter,
        forall|j: nat| j < k ==> inside(#[trigger] orbit_state(f, seed, j)),
    ensures
        exists|n: nat| is_escape_count(f, inside, seed, max_iter, n),
    decreases max_iter - k,
{
    if k == max_iter || !inside(orbit_state(f, seed, k)) {
        assert(is_escape_count(f, inside, seed, max_iter, k));
    } else {
        lemma_escape_count_from(f, inside, seed, max_iter, k + 1);
    }
}

/// Every point has an escape count under every bound.
pub proof fn lemma_escape_count_exists<S>(
    f: spec_fn(S) -> S,
    inside: spec_fn(S) -> bool,
    seed: S,
    max_iter: nat,
)
    ensures
        is_escape_count(f, inside, seed, max_iter, escape_count_of(f, inside, seed, max_iter)),
{
    lemma_escape_count_from(f, inside, seed, max_iter, 0);
}

/// Raising the bound never lowers the escape count of a point: under the
/// smaller bound the count is the count under the greater one, cut off at the
/// smaller bound.
pub proof fn lemma_escape_count_monotone<S>(
    f: spec_fn(S) -> S,
    inside: spec_fn(S) -> bool,
    seed: S,
    low: nat,
    high: nat,
)
    requires
        low <= high,
    ensures
        escape_count_of(f, inside, seed, low) <= escape_count_of(f, inside, seed, high),
        escape_count_of(f, inside, seed, low) == if escape_count_of(f, inside, seed, high) < low {
            escape_count_of(f, inside, seed, high)
        } else {
            low
        },
{
    lemma_escape_count_exists(f, inside, seed, low);
    lemma_escape_count_exists(f, inside, seed, high);
    let a = escape_count_of(f, inside, seed, low);
    let b = escape_count_of(f, inside, seed, high);
    if b < a {
        assert(inside(orbit_state(f, seed, b)));
    }
    if a < low && a < b {
        assert(inside(orbit_state(f, seed, a)));
    }
}

/// A point whose orbit stays inside has the bound itself as its escape
/// count, whatever the bound: it is taken to lie in the set.
pub proof fn lemma_inside_orbit_reaches_bound<S>(
    f: spec_fn(S) -> S,
    inside: spec_fn(S) -> bool,
    seed: S,
    max_iter: nat,
)
    requires
        forall|k: nat| inside(#[trigger] orbit_state(f, seed, k)),
    ensures
        escape_count_of(f, inside, seed, max_iter) == max_iter,
{
    lemma_escape_count_unique(f, inside, seed, max_iter, max_iter);
}

/// A point that is black under a bound is black under every smaller bound:
/// where the orbit does not escape within `high` steps, it does not escape
/// within `low`, and a count at the bound is painted black by every scheme.
pub proof fn lemma_black_under_smaller_bound<S>(
    f: spec_fn(S) -> S,
    inside: spec_fn(S) -> bool,
    seed: S,
    low: nat,
    high: nat,
    scheme: ColorScheme,
)
    requires
        low <= high,
        escape_count_of(f, inside, seed, high) == high,
    ensures
        escape_count_of(f, inside, seed, low) == low,
        color_of(escape_count_of(f, inside, seed, low), low, scheme) == black(),
{
    lemma_escape_count_monotone(f, inside, seed, low, high);
}

/// The states of an orbit under a step that computes `f` are the states
/// under `f`.
proof fn lemma_trace_states<S, F: Fn(&S) -> S>(
    step: F,
    f: spec_fn(S) -> S,
    seed: S,
    trace: Seq<S>,
    k: nat,
)
    requires
        computes_step(step, f),
        is_orbit(step, seed, trace),
        k < trace.len(),
    ensures
        trace[k as int] == orbit_state(f, seed, k),
    decreases k,
{
    if k > 0 {
        lemma_trace_states(step, f, seed, trace, (k - 1) as nat);
        assert(call_ensures(step, (&trace[k - 1],), trace[k - 1 + 1]));
    }
}

/// Where the loop stops on an orbit is the escape count under the functions
/// that the step and the test compute.
proof fn lemma_stop_is_escape_count<S, F: Fn(&S) -> S, W: Fn(&S) -> bool>(
    step: F,
    within: W,
    f: spec_fn(S) -> S,
    inside: spec_fn(S) -> bool,
    seed: S,
    trace: Seq<S>,
    max_iter: nat,
    n: nat,
)
    requires
        computes_step(step, f),
        computes_test(within, inside),
        is_orbit(step, seed, trace),
        stops_at(within, trace, max_iter, n),
    ensures
        escape_count_of(f, inside, seed, max_iter) == n,
{
    assert forall|k: nat| k < n implies inside(#[trigger] orbit_state(f, seed, k)) by {
        lemma_trace_states(step, f, seed, trace, k);
        assert(call_ensures(within, (&trace[k as int],), true));
    }
    lemma_trace_states(step, f, seed, trace, n);
    lemma_escape_count_unique(f, inside, seed, max_iter, n);
}

/// Follows the orbit of `seed` under `step` for as long as `within` holds of
/// it, and for `max_iter` steps at most, and counts the steps. A count of
/// `max_iter` stands for a point that did not escape. For a step and a test
/// that compute functions, the result is the escape count under them.
pub fn escape_count<S, F: Fn(&S) -> S, W: Fn(&S) -> bool>(
    seed: S,
    step: F,
    within: W,
    max_iter: u32,
) -> (n: u32)
    requires
        forall|s: S| call_requires(step, (&s,)),
        forall|s: S| call_requires(within, (&s,)),
    ensures
        n <= max_iter,
        exists|trace: Seq<S>|
            {
                &&& #[trigger] is_orbit(step, seed, trace)
                &&& trace.len() == n + 1
                &&& stops_at(within, trace, max_iter as nat, n as nat)
            },
        forall|f: spec_fn(S) -> S, inside: spec_fn(S) -> bool|
            #![trigger computes_step(step, f), computes_test(within, inside)]
            computes_step(step, f) && computes_test(within, inside) ==> n == escape_count_of(
                f,
                inside,
                seed,
                max_iter as nat,
            ),
{
    let mut z = seed;
    let mut steps: u32 = 0;
    let ghost mut trace: Seq<S> = seq![seed];
    while steps < max_iter
        invariant
            steps <= max_iter,
            forall|s: S| call_requires(step, (&s,)),
            forall|s: S| call_requires(within, (&s,)),
            is_orbit(step, seed, trace),
            trace.len() == steps + 1,
            trace[steps as int] == z,
            forall|k: int| 0 <= k < steps ==> call_ensures(within, (&#[trigger] trace[k],), true),
        decreases max_iter - steps,
    {
        if !within(&z) {
            proof {
                assert(stops_at(within, trace, max_iter as nat, steps as nat));
                assert forall|f: spec_fn(S) -> S, inside: spec_fn(S) -> bool|
                    #![trigger computes_step(step, f), computes_test(within, inside)]
                    computes_step(step, f) && computes_test(within, inside) implies steps
                    == escape_count_of(f, inside, seed, max_iter as nat) by {
                    lemma_stop_is_escape_count(
                        step,
                        within,
                        f,
                        inside,
                        seed,
                        trace,
                        max_iter as nat,
                        steps as nat,
                    );
                }
            }
            return steps;
        }
        let next = step(&z);
        proof {
            let longer = trace.push(next);
            assert forall|k: int| 0 <= k < longer.len() - 1 implies call_ensures(
                step,
                (&longer[k],),
                #[trigger] longer[k + 1],
            ) by {
                if k < trace.len() - 1 {
                    assert(longer[k + 1] == trace[k + 1]);
                }
            }
            trace = longer;
        }
        z = next;
        steps = steps + 1;
    }
    proof {
        assert(stops_at(within, trace, max_iter as nat, steps as nat));
        assert forall|f: spec_fn(S) -> S, inside: spec_fn(S) -> bool|
            #![trigger computes_step(step, f), computes_test(within, inside)]
            computes_step(step, f) && computes_test(within, inside) implies steps
            == escape_count_of(f, inside, seed, max_iter as nat) by {
            lemma_stop_is_escape_count(
                step,
                within,
                f,
                inside,
                seed,
                trace,
                max_iter as nat,
                steps as nat,
            );
        }
    }
    steps
}

} // verus!
