//! Escape-time evaluation: how many steps an iterated state takes to leave
//! the bounded region, if it leaves it at all below a cap.
//!
//! The state and its arithmetic belong to the caller. The evaluator is handed
//! two operations, `escaped` (has this state left the region?) and `advance`
//! (one step of the iteration), and owns everything else: the order of test
//! and step, the count, and the cap. Its contract is stated over the runs that
//! those two operations admit.

use vstd::prelude::*;

verus! {

/// The verdict on one point.
#[derive(Clone, Copy, Debug, PartialEq, Eq, Structural)]
pub enum EscapeResult {
    /// The state stayed bounded for every step below the cap.
    Member,
    /// The state was first found outside the region at this step.
    Escaped(usize),
}

impl EscapeResult {
    /// An escape count is always strictly below the cap it was found under.
    pub open spec fn within(self, cap: nat) -> bool {
        match self {
            EscapeResult::Member => true,
            EscapeResult::Escaped(step) => step < cap,
        }
    }

    /// The escape count as an optional number: `None` for a member.
    pub open spec fn count(self) -> Option<usize> {
        match self {
            EscapeResult::Member => None,
            EscapeResult::Escaped(step) => Some(step),
        }
    }

    pub fn is_member(&self) -> (member: bool)
        ensures
            member == (*self == EscapeResult::Member),
    {
        match self {
            EscapeResult::Member => true,
            EscapeResult::Escaped(_) => false,
        }
    }

    pub fn escape_count(&self) -> (count: Option<usize>)
        ensures
            count == self.count(),
    {
        match self {
            EscapeResult::Member => None,
            EscapeResult::Escaped(step) => Some(*step),
        }
    }
}

/// `orbit` is a run of the iteration: it begins at `start`, and every later
/// state is one that `advance` may return for the state before it.
pub open spec fn is_orbit<S, A: Fn(S) -> S>(orbit: Seq<S>, start: S, advance: A) -> bool {
    &&& orbit.len() >= 1
    &&& orbit[0] == start
    &&& forall|k: int|
        0 <= k < orbit.len() - 1 ==> call_ensures(advance, (orbit[k],), #[trigger] orbit[k + 1])
}

/// `escaped` answered "no" for each of the first `steps` states of `orbit`.
pub open spec fn bounded_for<S, E: Fn(&S) -> bool>(orbit: Seq<S>, steps: int, escaped: E) -> bool {
    forall|k: int| 0 <= k < steps ==> call_ensures(escaped, (&#[trigger] orbit[k],), false)
}

/// What `result` has to be for the iteration from `start` under `cap`.
///
/// `Escaped(i)`: some run of `i` steps stays bounded and ends in a state that
/// `escaped` reports as outside, and `i` is below the cap. `Member`: some run
/// of `cap` steps stays bounded throughout.
pub open spec fn escape_outcome<S, E: Fn(&S) -> bool, A: Fn(S) -> S>(
    start: S,
    cap: nat,
    escaped: E,
    advance: A,
    result: EscapeResult,
) -> bool {
    match result {
        EscapeResult::Escaped(step) => {
            &&& step < cap
            &&& exists|orbit: Seq<S>|
                {
                    &&& orbit.len() == step + 1
                    &&& #[trigger] is_orbit(orbit, start, advance)
                    &&& bounded_for(orbit, step as int, escaped)
                    &&& call_ensures(escaped, (&orbit[step as int],), true)
                }
        },
        EscapeResult::Member => exists|orbit: Seq<S>|
            {
                &&& orbit.len() == cap + 1
                &&& #[trigger] is_orbit(orbit, start, advance)
                &&& bounded_for(orbit, cap as int, escaped)
            },
    }
}

/// `start` is a resting state inside the region: `escaped` never reports it
/// as outside, and `advance` never moves it.
pub open spec fn rests_inside<S, E: Fn(&S) -> bool, A: Fn(S) -> S>(
    start: S,
    escaped: E,
    advance: A,
) -> bool {
    &&& forall|outside: bool| call_ensures(escaped, (&start,), outside) ==> !outside
    &&& forall|next: S| call_ensures(advance, (start,), next) ==> next == start
}

/// The two operations accept every state that the iteration can hand them:
/// `escaped` each state that a bounded run of fewer than `cap` steps ends in,
/// and `advance` each such state that `escaped` has answered "no" for.
pub open spec fn can_iterate<S, E: Fn(&S) -> bool, A: Fn(S) -> S>(
    start: S,
    cap: nat,
    escaped: E,
    advance: A,
) -> bool {
    forall|orbit: Seq<S>|
        #![trigger is_orbit(orbit, start, advance)]
        is_orbit(orbit, start, advance) && orbit.len() <= cap && bounded_for(
            orbit,
            orbit.len() - 1,
            escaped,
        ) ==> {
            &&& call_requires(escaped, (&orbit.last(),))
            &&& call_ensures(escaped, (&orbit.last(),), false) ==> call_requires(
                advance,
                (orbit.last(),),
            )
        }
}

/// Iterates from `start`, testing before each step, for at most `cap` steps.
///
/// Returns `Escaped(i)` for the first step `i` at which `escaped` holds of the
/// current state, and `Member` when it held at none of the steps `0..cap`.
/// A resting state inside the region is always a member.
pub fn escape_time<S, E: Fn(&S) -> bool, A: Fn(S) -> S>(
    start: S,
    cap: usize,
    escaped: E,
    advance: A,
) -> (result: EscapeResult)
    requires
        can_iterate(start, cap as nat, escaped, advance),
    ensures
        escape_outcome(start, cap as nat, escaped, advance, result),
        result.within(cap as nat),
        rests_inside(start, escaped, advance) ==> result == EscapeResult::Member,
{
    let ghost mut orbit: Seq<S> = seq![start];
    let mut state = start;
    let mut step: usize = 0;
    while step < cap
        invariant
            step <= cap,
            orbit.len() == step + 1,
            is_orbit(orbit, start, advance),
            bounded_for(orbit, step as int, escaped),
            orbit[step as int] == state,
            rests_inside(start, escaped, advance) ==> state == start,
            can_iterate(start, cap as nat, escaped, advance),
        decreases cap - step,
    {
        if escaped(&state) {
            return EscapeResult::Escaped(step);
        }
        let ghost run = orbit;
        state = advance(state);
        proof {
            orbit = run.push(state);
            assert forall|k: int| 0 <= k < orbit.len() - 1 implies call_ensures(
                advance,
                (orbit[k],),
                #[trigger] orbit[k + 1],
            ) by {
                if k < run.len() - 1 {
                    assert(orbit[k + 1] == run[k + 1]);
                }
            }
        }
        step += 1;
    }
    EscapeResult::Member
}

/// `escaped` answers each state in one way only.
pub open spec fn test_is_a_function<S, E: Fn(&S) -> bool>(escaped: E) -> bool {
    forall|state: S, one: bool, other: bool|
        #![trigger call_ensures(escaped, (&state,), one), call_ensures(escaped, (&state,), other)]
        call_ensures(escaped, (&state,), one) && call_ensures(escaped, (&state,), other) ==> one
            == other
}

/// `advance` sends each state to one successor only.
pub open spec fn step_is_a_function<S, A: Fn(S) -> S>(advance: A) -> bool {
    forall|state: S, one: S, other: S|
        #![trigger call_ensures(advance, (state,), one), call_ensures(advance, (state,), other)]
        call_ensures(advance, (state,), one) && call_ensures(advance, (state,), other) ==> one
            == other
}

/// Two runs from one start under a single-valued step agree wherever both
/// are defined.
pub proof fn lemma_orbits_agree<S, A: Fn(S) -> S>(
    one: Seq<S>,
    other: Seq<S>,
    start: S,
    advance: A,
    k: int,
)
    requires
        is_orbit(one, start, advance),
        is_orbit(other, start, advance),
        step_is_a_function(advance),
        0 <= k < one.len(),
        k < other.len(),
    ensures
        one[k] == other[k],
    decreases k,
{
    if k > 0 {
        lemma_orbits_agree(one, other, start, advance, k - 1);
        assert(call_ensures(advance, (one[k - 1],), one[k - 1 + 1]));
        assert(call_ensures(advance, (other[k - 1],), other[k - 1 + 1]));
    }
}

/// Evaluation is repeatable: when the test and the step are functions of the
/// state, the start and the cap admit exactly one verdict, so evaluating the
/// same point again gives the same answer.
pub proof fn lemma_outcome_unique<S, E: Fn(&S) -> bool, A: Fn(S) -> S>(
    start: S,
    cap: nat,
    escaped: E,
    advance: A,
    one: EscapeResult,
    other: EscapeResult,
)
    requires
        test_is_a_function(escaped),
        step_is_a_function(advance),
        escape_outcome(start, cap, escaped, advance, one),
        escape_outcome(start, cap, escaped, advance, other),
    ensures
        one == other,
{
    let run_one = witness_orbit(start, cap, escaped, advance, one);
    let run_other = witness_orbit(start, cap, escaped, advance, other);
    let last_one = run_one.len() - 1;
    let last_other = run_other.len() - 1;
    if last_one < last_other {
        lemma_orbits_agree(run_one, run_other, start, advance, last_one);
        assert(call_ensures(escaped, (&run_other[last_one],), false));
    } else if last_other < last_one {
        lemma_orbits_agree(run_one, run_other, start, advance, last_other);
        assert(call_ensures(escaped, (&run_one[last_other],), false));
    }
}

/// A run that shows `result` to be an outcome.
spec fn witness_orbit<S, E: Fn(&S) -> bool, A: Fn(S) -> S>(
    start: S,
    cap: nat,
    escaped: E,
    advance: A,
    result: EscapeResult,
) -> Seq<S> {
    match result {
        EscapeResult::Escaped(step) => choose|orbit: Seq<S>|
            {
                &&& orbit.len() == step + 1
                &&& #[trigger] is_orbit(orbit, start, advance)
                &&& bounded_for(orbit, step as int, escaped)
                &&& call_ensures(escaped, (&orbit[step as int],), true)
            },
        EscapeResult::Member => choose|orbit: Seq<S>|
            {
                &&& orbit.len() == cap + 1
                &&& #[trigger] is_orbit(orbit, start, advance)
                &&& bounded_for(orbit, cap as int, escaped)
            },
    }
}

} // verus!
