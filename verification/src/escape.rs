//! The escape-time evaluation of one orbit.
//!
//! An orbit is a sequence of points `z0, z1, z2, ...`, each made from the one
//! before by one application of the family's recurrence. Its evaluation
//! counts the applications that are completed before a point is found to
//! have escaped, and never more than the cutoff.
//!
//! The points themselves are the caller's. Before each application the caller
//! tests the current point and reports to the [`Evaluator`] whether it has
//! escaped; the evaluator decides whether the evaluation goes on, and counts.
use vstd::prelude::*;

verus! {

/// The state of an evaluation, as mathematical values.
pub struct Evaluation {
    /// The applications of the recurrence completed so far.
    pub count: nat,
    /// The largest number of applications allowed.
    pub cutoff: nat,
    /// Whether the point reached after `count` applications was reported as
    /// escaped.
    pub escaped: bool,
}

impl Evaluation {
    /// The state before anything was reported.
    pub open spec fn start(cutoff: nat) -> Evaluation {
        Evaluation { count: 0, cutoff, escaped: false }
    }

    /// The count is within the cutoff, and strictly below it after an escape.
    pub open spec fn valid(self) -> bool {
        &&& self.count <= self.cutoff
        &&& self.escaped ==> self.count < self.cutoff
    }

    /// Whether the evaluation is over: the orbit escaped, or the cutoff was
    /// reached.
    pub open spec fn done(self) -> bool {
        self.escaped || self.count >= self.cutoff
    }

    /// The state after one more report. A finished evaluation stays as it is;
    /// an escape ends a running one; anything else counts one more
    /// application.
    pub open spec fn step(self, escaped: bool) -> Evaluation {
        if self.done() {
            self
        } else if escaped {
            Evaluation { escaped: true, ..self }
        } else {
            Evaluation { count: self.count + 1, ..self }
        }
    }

    /// The state after `reports` reports, each of them what `escapes` says of
    /// the point that the orbit had reached: `escapes(k)` tells whether the
    /// point after `k` applications has escaped.
    pub open spec fn run(escapes: spec_fn(nat) -> bool, cutoff: nat, reports: nat) -> Evaluation
        decreases reports,
    {
        if reports == 0 {
            Evaluation::start(cutoff)
        } else {
            let before = Evaluation::run(escapes, cutoff, (reports - 1) as nat);
            before.step(escapes(before.count))
        }
    }
}

/// The first `k` with `from <= k < cutoff` whose point has escaped, or
/// `cutoff` where there is none.
pub open spec fn first_escape(escapes: spec_fn(nat) -> bool, from: nat, cutoff: nat) -> nat
    decreases cutoff - from,
{
    if from >= cutoff {
        cutoff
    } else if escapes(from) {
        from
    } else {
        first_escape(escapes, from + 1, cutoff)
    }
}

/// The iteration count of an orbit under a cutoff: the number of applications
/// before the first escaped point, or the cutoff where no point below it has
/// escaped.
pub open spec fn escape_count(escapes: spec_fn(nat) -> bool, cutoff: nat) -> nat {
    first_escape(escapes, 0, cutoff)
}

proof fn lemma_first_escape(escapes: spec_fn(nat) -> bool, from: nat, cutoff: nat)
    requires
        from <= cutoff,
    ensures
        from <= first_escape(escapes, from, cutoff) <= cutoff,
        forall|k: nat| from <= k < first_escape(escapes, from, cutoff) ==> !#[trigger] escapes(k),
        first_escape(escapes, from, cutoff) < cutoff ==> escapes(
            first_escape(escapes, from, cutoff),
        ),
    decreases cutoff - from,
{
    if from < cutoff && !escapes(from) {
        lemma_first_escape(escapes, from + 1, cutoff);
    }
}

/// The iteration count is never above the cutoff; no point before it has
/// escaped; and where it is below the cutoff, the point it stops at has.
pub proof fn lemma_escape_count(escapes: spec_fn(nat) -> bool, cutoff: nat)
    ensures
        escape_count(escapes, cutoff) <= cutoff,
        forall|k: nat| k < escape_count(escapes, cutoff) ==> !#[trigger] escapes(k),
        escape_count(escapes, cutoff) < cutoff ==> escapes(escape_count(escapes, cutoff)),
{
    lemma_first_escape(escapes, 0, cutoff);
}

/// Only one number can be the iteration count: one within the cutoff, with no
/// escaped point before it, and an escaped point at it where it is below the
/// cutoff.
pub proof fn lemma_escape_count_unique(escapes: spec_fn(nat) -> bool, cutoff: nat, count: nat)
    requires
        count <= cutoff,
        forall|k: nat| k < count ==> !#[trigger] escapes(k),
        count < cutoff ==> escapes(count),
    ensures
        escape_count(escapes, cutoff) == count,
{
    lemma_escape_count(escapes, cutoff);
}

/// Raising the cutoff never lowers the iteration count of an orbit.
pub proof fn lemma_count_monotone_in_cutoff(
    escapes: spec_fn(nat) -> bool,
    smaller: nat,
    larger: nat,
)
    requires
        smaller <= larger,
    ensures
        escape_count(escapes, smaller) <= escape_count(escapes, larger),
{
    lemma_escape_count(escapes, smaller);
    lemma_escape_count(escapes, larger);
}

/// An orbit none of whose points below the cutoff has escaped is counted up
/// to the cutoff.
pub proof fn lemma_bounded_orbit_reaches_cutoff(escapes: spec_fn(nat) -> bool, cutoff: nat)
    requires
        forall|k: nat| k < cutoff ==> !#[trigger] escapes(k),
    ensures
        escape_count(escapes, cutoff) == cutoff,
{
    lemma_escape_count_unique(escapes, cutoff, cutoff);
}

proof fn lemma_run(escapes: spec_fn(nat) -> bool, cutoff: nat, reports: nat)
    ensures
        ({
            let state = Evaluation::run(escapes, cutoff, reports);
            &&& state.cutoff == cutoff
            &&& state.valid()
            &&& forall|k: nat| k < state.count ==> !#[trigger] escapes(k)
            &&& state.escaped ==> escapes(state.count)
            &&& !state.done() ==> state.count == reports
            &&& reports >= cutoff ==> state.done()
        }),
    decreases reports,
{
    if reports > 0 {
        lemma_run(escapes, cutoff, (reports - 1) as nat);
    }
}

/// Fed with what the orbit's points are, the evaluation is over after at most
/// as many reports as the cutoff, its state is valid throughout, and once it
/// is over its count is the orbit's iteration count.
pub proof fn lemma_run_reports_escape_count(
    escapes: spec_fn(nat) -> bool,
    cutoff: nat,
    reports: nat,
)
    ensures
        Evaluation::run(escapes, cutoff, reports).valid(),
        reports >= cutoff ==> Evaluation::run(escapes, cutoff, reports).done(),
        Evaluation::run(escapes, cutoff, reports).done() ==> Evaluation::run(
            escapes,
            cutoff,
            reports,
        ).count == escape_count(escapes, cutoff),
{
    lemma_run(escapes, cutoff, reports);
    let state = Evaluation::run(escapes, cutoff, reports);
    if state.done() {
        lemma_escape_count_unique(escapes, cutoff, state.count);
    }
}

/// The evaluation of one orbit under a cutoff.
#[derive(Clone, Copy, Debug)]
pub struct Evaluator {
    count: u32,
    cutoff: u32,
    escaped: bool,
}

impl View for Evaluator {
    type V = Evaluation;

    closed spec fn view(&self) -> Evaluation {
        Evaluation {
            count: self.count as nat,
            cutoff: self.cutoff as nat,
            escaped: self.escaped,
        }
    }
}

impl Evaluator {
    /// Every evaluator is in a valid state.
    #[verifier::type_invariant]
    pub open spec fn well_formed(self) -> bool {
        self@.valid()
    }

    /// Begins the evaluation of an orbit: nothing counted, nothing reported.
    /// With a cutoff of zero it is over at once.
    pub fn start(cutoff: u32) -> (evaluator: Evaluator)
        ensures
            evaluator@ == Evaluation::start(cutoff as nat),
    {
        Evaluator { count: 0, cutoff, escaped: false }
    }

    /// Whether the evaluation is over. While it is not, the caller tests the
    /// orbit's current point and reports the answer to [`Evaluator::step`].
    pub fn is_done(&self) -> (done: bool)
        ensures
            done == self@.done(),
    {
        self.escaped || self.count >= self.cutoff
    }

    /// The applications of the recurrence counted so far; once the evaluation
    /// is over, the orbit's iteration count. It is never above the cutoff.
    pub fn count(&self) -> (count: u32)
        ensures
            count == self@.count,
            count <= self@.cutoff,
    {
        proof {
            use_type_invariant(self);
        }
        self.count
    }

    /// The cutoff that the evaluation was begun with.
    pub fn cutoff(&self) -> (cutoff: u32)
        ensures
            cutoff == self@.cutoff,
    {
        self.cutoff
    }

    /// Whether the evaluation ended because a point had escaped.
    pub fn has_escaped(&self) -> (escaped: bool)
        ensures
            escaped == self@.escaped,
    {
        self.escaped
    }

    /// Takes the report on the orbit's current point. Where the result is
    /// `true` the evaluation goes on: the caller applies the recurrence once
    /// and reports on the new point. Where it is `false` the evaluation is
    /// over.
    pub fn step(&mut self, escaped: bool) -> (iterating: bool)
        ensures
            final(self)@ == old(self)@.step(escaped),
            final(self)@.valid(),
            iterating == !final(self)@.done(),
    {
        proof {
            use_type_invariant(&*self);
        }
        if self.escaped || self.count >= self.cutoff {
            return false;
        }
        if escaped {
            self.escaped = true;
            return false;
        }
        self.count = self.count + 1;
        self.count < self.cutoff
    }
}

/// Whether `orbit` is the run of points of a finished evaluation from `seed`:
/// it starts at the seed, each point but the last was reported as not
/// escaped and the point after it is what `advance` made of it, there are no
/// more applications than the cutoff, and where there are fewer, the last
/// point was reported as escaped.
pub open spec fn evaluated<Z, E: Fn(&Z) -> bool, A: Fn(Z) -> Z>(
    orbit: Seq<Z>,
    seed: Z,
    cutoff: nat,
    escaped: E,
    advance: A,
) -> bool {
    &&& orbit.len() >= 1
    &&& orbit[0] == seed
    &&& orbit.len() - 1 <= cutoff
    &&& forall|k: int|
        #![trigger orbit[k]]
        0 <= k < orbit.len() - 1 ==> call_ensures(escaped, (&orbit[k],), false) && call_ensures(
            advance,
            (orbit[k],),
            orbit[k + 1],
        )
    &&& orbit.len() - 1 < cutoff ==> call_ensures(escaped, (&orbit.last(),), true)
}

/// Where `escapes` fixes what the test says of each point of the orbit, the
/// number of applications of a finished evaluation is the orbit's iteration
/// count.
pub proof fn lemma_evaluated_count<Z, E: Fn(&Z) -> bool, A: Fn(Z) -> Z>(
    orbit: Seq<Z>,
    seed: Z,
    cutoff: nat,
    escaped: E,
    advance: A,
    escapes: spec_fn(nat) -> bool,
)
    requires
        evaluated(orbit, seed, cutoff, escaped, advance),
        forall|k: int, out: bool|
            0 <= k < orbit.len() && #[trigger] call_ensures(escaped, (&orbit[k],), out) ==> out
                == escapes(k as nat),
    ensures
        orbit.len() - 1 == escape_count(escapes, cutoff),
{
    let count = (orbit.len() - 1) as nat;
    assert forall|k: nat| k < count implies !#[trigger] escapes(k) by {
        assert(call_ensures(escaped, (&orbit[k as int],), false));
    }
    lemma_escape_count_unique(escapes, cutoff, count);
}

proof fn lemma_fixed_orbit<Z, E: Fn(&Z) -> bool, A: Fn(Z) -> Z>(
    orbit: Seq<Z>,
    seed: Z,
    cutoff: nat,
    escaped: E,
    advance: A,
    k: int,
)
    requires
        evaluated(orbit, seed, cutoff, escaped, advance),
        forall|next: Z| #[trigger] call_ensures(advance, (seed,), next) ==> next == seed,
        0 <= k < orbit.len(),
    ensures
        orbit[k] == seed,
    decreases k,
{
    if k > 0 {
        lemma_fixed_orbit(orbit, seed, cutoff, escaped, advance, k - 1);
        assert(orbit[k - 1] == seed);
        assert(call_ensures(advance, (orbit[k - 1],), orbit[k - 1 + 1]));
    }
}

/// An orbit that starts at a fixed point of the recurrence which the test
/// does not find escaped is evaluated up to the cutoff.
pub proof fn lemma_fixed_point_reaches_cutoff<Z, E: Fn(&Z) -> bool, A: Fn(Z) -> Z>(
    orbit: Seq<Z>,
    seed: Z,
    cutoff: nat,
    escaped: E,
    advance: A,
)
    requires
        evaluated(orbit, seed, cutoff, escaped, advance),
        forall|next: Z| #[trigger] call_ensures(advance, (seed,), next) ==> next == seed,
        !call_ensures(escaped, (&seed,), true),
    ensures
        orbit.len() - 1 == cutoff,
{
    lemma_fixed_orbit(orbit, seed, cutoff, escaped, advance, orbit.len() - 1);
}

/// Evaluates the orbit that starts at `seed`: `escaped` tests a point,
/// `advance` applies the recurrence once. The result is the number of
/// applications made before a point was found escaped, or the cutoff where
/// none was found among the points before it.
pub fn evaluate<Z, E: Fn(&Z) -> bool, A: Fn(Z) -> Z>(
    seed: Z,
    cutoff: u32,
    escaped: E,
    advance: A,
) -> (count: u32)
    requires
        forall|z: Z| call_requires(escaped, (&z,)),
        forall|z: Z| call_requires(advance, (z,)),
    ensures
        count <= cutoff,
        exists|orbit: Seq<Z>|
            orbit.len() == count + 1 && #[trigger] evaluated(
                orbit,
                seed,
                cutoff as nat,
                escaped,
                advance,
            ),
{
    let mut evaluator = Evaluator::start(cutoff);
    let mut z = seed;
    let ghost mut orbit: Seq<Z> = seq![seed];
    while !evaluator.is_done()
        invariant
            forall|z: Z| call_requires(escaped, (&z,)),
            forall|z: Z| call_requires(advance, (z,)),
            evaluator@.cutoff == cutoff,
            evaluator@.valid(),
            orbit.len() == evaluator@.count + 1,
            orbit[0] == seed,
            orbit.last() == z,
            forall|k: int|
                #![trigger orbit[k]]
                0 <= k < orbit.len() - 1 ==> call_ensures(escaped, (&orbit[k],), false)
                    && call_ensures(advance, (orbit[k],), orbit[k + 1]),
            evaluator@.escaped ==> call_ensures(escaped, (&orbit.last(),), true),
        decreases cutoff - evaluator@.count + (if evaluator@.escaped { 0int } else { 1int }),
    {
        let out = escaped(&z);
        evaluator.step(out);
        if !out {
            let next = advance(z);
            proof {
                let before = orbit;
                orbit = orbit.push(next);
                assert forall|k: int|
                    #![trigger orbit[k]]
                    0 <= k < orbit.len() - 1 implies call_ensures(escaped, (&orbit[k],), false)
                    && call_ensures(advance, (orbit[k],), orbit[k + 1]) by {
                    if k < before.len() - 1 {
                        assert(orbit[k] == before[k] && orbit[k + 1] == before[k + 1]);
                    }
                }
            }
            z = next;
        }
    }
    assert(evaluated(orbit, seed, cutoff as nat, escaped, advance));
    evaluator.count()
}

} // verus!
