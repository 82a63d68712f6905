//! Escape time: how many steps an orbit takes before it is seen to have
//! escaped, capped by an iteration limit.
//!
//! An orbit starts at a point and moves by a step function. Before each step
//! the current point is tested; the index of the first point that tests as
//! escaped is the escape time. An orbit that has not escaped within the limit
//! is given the limit itself.

use vstd::prelude::*;

verus! {

/// Whether `orbit` is a run of `step` from `start`: it begins at `start` and
/// each later point is a result of `step` on the point before it.
pub open spec fn is_orbit<Z, S: Fn(Z) -> Z>(orbit: Seq<Z>, start: Z, step: S) -> bool {
    &&& orbit.len() > 0
    &&& orbit[0] == start
    &&& forall|i: int| 0 < i < orbit.len() ==> step.ensures((orbit[i - 1],), #[trigger] orbit[i])
}

/// Whether `orbit` shows that the escape time from `start` under the limit
/// `max_iters` is `count`: the orbit has `count + 1` points, none of the
/// first `count` tests as escaped, and, unless the limit was reached, the
/// last one does.
pub open spec fn is_escape_witness<Z, E: Fn(&Z) -> bool, S: Fn(Z) -> Z>(
    orbit: Seq<Z>,
    start: Z,
    escaped: E,
    step: S,
    max_iters: nat,
    count: nat,
) -> bool {
    &&& count <= max_iters
    &&& orbit.len() == count + 1
    &&& is_orbit(orbit, start, step)
    &&& forall|i: int| 0 <= i < count ==> escaped.ensures((&#[trigger] orbit[i],), false)
    &&& count < max_iters ==> escaped.ensures((&orbit[count as int],), true)
}

/// Whether `count` is an escape time from `start` under the limit
/// `max_iters`: some orbit witnesses it.
pub open spec fn is_escape_time<Z, E: Fn(&Z) -> bool, S: Fn(Z) -> Z>(
    start: Z,
    escaped: E,
    step: S,
    max_iters: nat,
    count: nat,
) -> bool {
    exists|orbit: Seq<Z>| #[trigger] is_escape_witness(orbit, start, escaped, step, max_iters, count)
}

/// Follows the orbit of `start` under `step` and returns the index of the
/// first point that `escaped` accepts, or `max_iters` where none of the
/// first `max_iters` points is accepted. Each point is tested before it is
/// stepped, and the point at index `max_iters` decides nothing: whether or
/// not it has escaped, the result is `max_iters`.
pub fn escape_time<Z, E: Fn(&Z) -> bool, S: Fn(Z) -> Z>(
    start: Z,
    escaped: E,
    step: S,
    max_iters: usize,
) -> (count: usize)
    requires
        forall|z: Z| #[trigger] escaped.requires((&z,)),
        forall|z: Z| #[trigger] step.requires((z,)),
    ensures
        count <= max_iters,
        is_escape_time(start, escaped, step, max_iters as nat, count as nat),
{
    let ghost mut orbit: Seq<Z> = seq![start];
    let mut z = start;
    let mut i: usize = 0;
    while i < max_iters
        invariant
            i <= max_iters,
            forall|z: Z| #[trigger] escaped.requires((&z,)),
            forall|z: Z| #[trigger] step.requires((z,)),
            orbit.len() == i + 1,
            orbit[i as int] == z,
            is_orbit(orbit, start, step),
            forall|k: int| 0 <= k < i ==> escaped.ensures((&#[trigger] orbit[k],), false),
        decreases max_iters - i,
    {
        if escaped(&z) {
            assert(is_escape_witness(orbit, start, escaped, step, max_iters as nat, i as nat));
            return i;
        }
        z = step(z);
        proof {
            orbit = orbit.push(z);
        }
        i += 1;
    }
    assert(is_escape_witness(orbit, start, escaped, step, max_iters as nat, i as nat));
    max_iters
}

/// Whether `escaped` gives one answer for each point.
pub open spec fn test_is_functional<Z, E: Fn(&Z) -> bool>(escaped: E) -> bool {
    forall|z: Z, p: bool, q: bool|
        #[trigger] escaped.ensures((&z,), p) && #[trigger] escaped.ensures((&z,), q) ==> p == q
}

/// Whether `step` gives one successor for each point.
pub open spec fn step_is_functional<Z, S: Fn(Z) -> Z>(step: S) -> bool {
    forall|z: Z, x: Z, y: Z|
        #[trigger] step.ensures((z,), x) && #[trigger] step.ensures((z,), y) ==> x == y
}

/// Two orbits of a functional step from the same start agree wherever both
/// are defined.
pub proof fn lemma_orbits_agree<Z, S: Fn(Z) -> Z>(
    first: Seq<Z>,
    second: Seq<Z>,
    start: Z,
    step: S,
    i: int,
)
    requires
        is_orbit(first, start, step),
        is_orbit(second, start, step),
        step_is_functional(step),
        0 <= i < first.len(),
        i < second.len(),
    ensures
        first[i] == second[i],
    decreases i,
{
    if i > 0 {
        lemma_orbits_agree(first, second, start, step, i - 1);
        assert(step.ensures((first[i - 1],), first[i]));
        assert(step.ensures((second[i - 1],), second[i]));
    }
}

/// The escape time is determined by its inputs: where the test and the step
/// are functional, a start and a limit have one escape time.
pub proof fn lemma_escape_time_is_unique<Z, E: Fn(&Z) -> bool, S: Fn(Z) -> Z>(
    start: Z,
    escaped: E,
    step: S,
    max_iters: nat,
    a: nat,
    b: nat,
)
    requires
        is_escape_time(start, escaped, step, max_iters, a),
        is_escape_time(start, escaped, step, max_iters, b),
        test_is_functional(escaped),
        step_is_functional(step),
    ensures
        a == b,
{
    let first = choose|orbit: Seq<Z>| #[trigger]
        is_escape_witness(orbit, start, escaped, step, max_iters, a);
    let second = choose|orbit: Seq<Z>| #[trigger]
        is_escape_witness(orbit, start, escaped, step, max_iters, b);
    if a < b {
        lemma_orbits_agree(first, second, start, step, a as int);
        assert(escaped.ensures((&first[a as int],), true));
        assert(escaped.ensures((&second[a as int],), false));
    } else if b < a {
        lemma_orbits_agree(first, second, start, step, b as int);
        assert(escaped.ensures((&second[b as int],), true));
        assert(escaped.ensures((&first[b as int],), false));
    }
}

/// Every point of an orbit that starts inside a region which the step never
/// leaves lies inside that region.
pub proof fn lemma_orbit_stays_inside<Z, S: Fn(Z) -> Z>(
    orbit: Seq<Z>,
    start: Z,
    step: S,
    inside: spec_fn(Z) -> bool,
    i: int,
)
    requires
        is_orbit(orbit, start, step),
        inside(start),
        forall|z: Z, next: Z| inside(z) && #[trigger] step.ensures((z,), next) ==> inside(next),
        0 <= i < orbit.len(),
    ensures
        inside(orbit[i]),
    decreases i,
{
    if i > 0 {
        lemma_orbit_stays_inside(orbit, start, step, inside, i - 1);
        assert(step.ensures((orbit[i - 1],), orbit[i]));
    }
}

/// An orbit that never escapes is given the limit: where the start lies in a
/// region that the step never leaves and in which no point tests as escaped,
/// the escape time is `max_iters`.
pub proof fn lemma_trapped_orbit_reaches_limit<Z, E: Fn(&Z) -> bool, S: Fn(Z) -> Z>(
    start: Z,
    escaped: E,
    step: S,
    max_iters: nat,
    count: nat,
    inside: spec_fn(Z) -> bool,
)
    requires
        is_escape_time(start, escaped, step, max_iters, count),
        inside(start),
        forall|z: Z, next: Z| inside(z) && #[trigger] step.ensures((z,), next) ==> inside(next),
        forall|z: Z| inside(z) ==> !#[trigger] escaped.ensures((&z,), true),
    ensures
        count == max_iters,
{
    let orbit = choose|orbit: Seq<Z>| #[trigger]
        is_escape_witness(orbit, start, escaped, step, max_iters, count);
    if count < max_iters {
        lemma_orbit_stays_inside(orbit, start, step, inside, count as int);
        assert(escaped.ensures((&orbit[count as int],), true));
    }
}

/// The start is tested before any step is taken, so an orbit whose start
/// does not test as escaped but whose first successor does has escape time
/// one, under any limit of at least one.
pub proof fn lemma_escape_after_first_step<Z, E: Fn(&Z) -> bool, S: Fn(Z) -> Z>(
    start: Z,
    escaped: E,
    step: S,
    max_iters: nat,
    count: nat,
)
    requires
        is_escape_time(start, escaped, step, max_iters, count),
        max_iters >= 1,
        !escaped.ensures((&start,), true),
        forall|next: Z| #[trigger] step.ensures((start,), next) ==> !escaped.ensures((&next,), false),
    ensures
        count == 1,
{
    let orbit = choose|orbit: Seq<Z>| #[trigger]
        is_escape_witness(orbit, start, escaped, step, max_iters, count);
    if count == 0 {
        assert(escaped.ensures((&orbit[0],), true));
    } else if count >= 2 {
        assert(step.ensures((orbit[0],), orbit[1]));
        assert(escaped.ensures((&orbit[1],), false));
    }
}

/// Under the limit zero every orbit has escape time zero.
pub proof fn lemma_zero_limit<Z, E: Fn(&Z) -> bool, S: Fn(Z) -> Z>(
    start: Z,
    escaped: E,
    step: S,
    count: nat,
)
    ensures
        is_escape_time(start, escaped, step, 0, count) <==> count == 0,
{
    if count == 0 {
        assert(is_escape_witness(seq![start], start, escaped, step, 0, 0));
    }
}

/// Whether the test `escaped` computes the predicate `out`.
pub open spec fn test_computes<Z, E: Fn(&Z) -> bool>(escaped: E, out: spec_fn(Z) -> bool) -> bool {
    forall|z: Z, b: bool| #[trigger] escaped.ensures((&z,), b) ==> b == out(z)
}

/// Whether the step `step` computes the map `next`.
pub open spec fn step_computes<Z, S: Fn(Z) -> Z>(step: S, next: spec_fn(Z) -> Z) -> bool {
    forall|z: Z, r: Z| #[trigger] step.ensures((z,), r) ==> r == next(z)
}

/// The escape count of `z` under the map `next` and the predicate `out`: the
/// number of applications of `next` after which the orbit of `z` first
/// satisfies `out`, or `limit` where it does not do so within `limit`
/// applications.
pub open spec fn escape_count<Z>(
    out: spec_fn(Z) -> bool,
    next: spec_fn(Z) -> Z,
    z: Z,
    limit: nat,
) -> nat
    decreases limit,
{
    if limit == 0 || out(z) {
        0
    } else {
        1 + escape_count(out, next, next(z), (limit - 1) as nat)
    }
}

/// The escape count never exceeds the limit.
pub proof fn lemma_escape_count_within_limit<Z>(
    out: spec_fn(Z) -> bool,
    next: spec_fn(Z) -> Z,
    z: Z,
    limit: nat,
)
    ensures
        escape_count(out, next, z, limit) <= limit,
    decreases limit,
{
    if limit > 0 && !out(z) {
        lemma_escape_count_within_limit(out, next, next(z), (limit - 1) as nat);
    }
}

/// A witness of an escape time counts as `escape_count` does: by induction
/// on the limit, dropping the first point of the orbit.
proof fn lemma_witness_gives_escape_count<Z, E: Fn(&Z) -> bool, S: Fn(Z) -> Z>(
    orbit: Seq<Z>,
    start: Z,
    escaped: E,
    step: S,
    max_iters: nat,
    count: nat,
    out: spec_fn(Z) -> bool,
    next: spec_fn(Z) -> Z,
)
    requires
        is_escape_witness(orbit, start, escaped, step, max_iters, count),
        test_computes(escaped, out),
        step_computes(step, next),
    ensures
        count == escape_count(out, next, start, max_iters),
    decreases max_iters,
{
    if max_iters == 0 {
    } else if out(start) {
        if count > 0 {
            assert(escaped.ensures((&orbit[0],), false));
        }
    } else {
        if count == 0 {
            assert(escaped.ensures((&orbit[0],), true));
        }
        let rest = orbit.subrange(1, orbit.len() as int);
        assert(step.ensures((orbit[0],), orbit[1]));
        assert(rest[0] == next(start));
        assert forall|i: int| 0 < i < rest.len() implies step.ensures(
            (rest[i - 1],),
            #[trigger] rest[i],
        ) by {
            assert(rest[i] == orbit[i + 1]);
            assert(rest[i - 1] == orbit[i + 1 - 1]);
            assert(step.ensures((orbit[i + 1 - 1],), orbit[i + 1]));
        }
        assert forall|i: int| 0 <= i < count - 1 implies escaped.ensures(
            (&#[trigger] rest[i],),
            false,
        ) by {
            assert(rest[i] == orbit[i + 1]);
            assert(escaped.ensures((&orbit[i + 1],), false));
        }
        if count < max_iters {
            assert(rest[count - 1] == orbit[count as int]);
        }
        lemma_witness_gives_escape_count(
            rest,
            next(start),
            escaped,
            step,
            (max_iters - 1) as nat,
            (count - 1) as nat,
            out,
            next,
        );
    }
}

/// What `escape_time` returns, as a function of its inputs: where the test
/// computes `out` and the step computes `next`, the escape time from `start`
/// is the escape count of `start` under `next` and `out`.
pub proof fn lemma_escape_time_is_escape_count<Z, E: Fn(&Z) -> bool, S: Fn(Z) -> Z>(
    start: Z,
    escaped: E,
    step: S,
    max_iters: nat,
    count: nat,
    out: spec_fn(Z) -> bool,
    next: spec_fn(Z) -> Z,
)
    requires
        is_escape_time(start, escaped, step, max_iters, count),
        test_computes(escaped, out),
        step_computes(step, next),
    ensures
        count == escape_count(out, next, start, max_iters),
{
    let orbit = choose|orbit: Seq<Z>| #[trigger]
        is_escape_witness(orbit, start, escaped, step, max_iters, count);
    lemma_witness_gives_escape_count(orbit, start, escaped, step, max_iters, count, out, next);
}

/// A fixed point that does not satisfy `out` never escapes: its escape count
/// is the limit.
pub proof fn lemma_fixed_point_reaches_limit<Z>(
    out: spec_fn(Z) -> bool,
    next: spec_fn(Z) -> Z,
    z: Z,
    limit: nat,
)
    requires
        next(z) == z,
        !out(z),
    ensures
        escape_count(out, next, z, limit) == limit,
    decreases limit,
{
    if limit > 0 {
        lemma_fixed_point_reaches_limit(out, next, z, (limit - 1) as nat);
    }
}

} // verus!
