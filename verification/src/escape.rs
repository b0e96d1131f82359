//! The bounded escape-time iteration, as a counter that the caller drives.
//!
//! The orbit itself is the caller's: it reports after each step whether the
//! point has left the escape radius, and the counter says whether another
//! step is to be taken.  The counter never exceeds its budget.

use vstd::prelude::*;
use vstd::math::min;
use crate::error::RenderError;

verus! {

/// What a counter stands for: steps taken so far, out of a budget.
pub struct EscapeView {
    pub iterations: int,
    pub max_iterations: int,
}

impl EscapeView {
    /// The steps taken are within the budget.
    pub open spec fn wf(self) -> bool {
        0 <= self.iterations <= self.max_iterations
    }

    /// Whether another step is taken: the point has not escaped and budget
    /// is left.
    pub open spec fn goes(self, escaped: bool) -> bool {
        !escaped && self.iterations < self.max_iterations
    }

    /// The counter after it was told `escaped`: one more step where a step
    /// is taken, unchanged where not.
    pub open spec fn after(self, escaped: bool) -> EscapeView {
        if self.goes(escaped) {
            EscapeView { iterations: self.iterations + 1, max_iterations: self.max_iterations }
        } else {
            self
        }
    }

    /// The counter at the end of an orbit.  `escaped[i]` says whether the
    /// orbit's point number `i` lies outside the escape radius; the orbit
    /// ends with the first point for which no step is taken.
    pub open spec fn run(self, escaped: Seq<bool>) -> EscapeView
        decreases escaped.len(),
    {
        if escaped.len() == 0 || !self.goes(escaped[0]) {
            self
        } else {
            self.after(escaped[0]).run(escaped.drop_first())
        }
    }
}

/// The number of the first point of an orbit that lies outside the escape
/// radius, or the orbit's length where none does.
pub open spec fn first_escape(escaped: Seq<bool>) -> int
    decreases escaped.len(),
{
    if escaped.len() == 0 || escaped[0] {
        0
    } else {
        1 + first_escape(escaped.drop_first())
    }
}

/// An orbit takes as many steps as it has points inside the escape radius
/// before the first one outside, but never more than the budget allows: the
/// count stays between zero and the budget.
pub proof fn lemma_run_counts_steps(start: EscapeView, escaped: Seq<bool>)
    requires
        start.wf(),
    ensures
        start.run(escaped).wf(),
        start.run(escaped).max_iterations == start.max_iterations,
        start.run(escaped).iterations == min(
            start.iterations + first_escape(escaped),
            start.max_iterations,
        ),
        0 <= first_escape(escaped) <= escaped.len(),
    decreases escaped.len(),
{
    if escaped.len() > 0 {
        lemma_run_counts_steps(start.after(escaped[0]), escaped.drop_first());
    }
}

/// Counts the steps of one orbit against the iteration budget.
#[derive(Clone, Copy, Debug)]
pub struct EscapeCounter {
    count: i32,
    limit: i32,
}

impl View for EscapeCounter {
    type V = EscapeView;

    closed spec fn view(&self) -> EscapeView {
        EscapeView { iterations: self.count as int, max_iterations: self.limit as int }
    }
}

impl EscapeCounter {
    #[verifier::type_invariant]
    spec fn within_budget(self) -> bool {
        0 <= self.count <= self.limit
    }

    /// A fresh counter with a budget of `max_iterations` steps.
    pub fn new(max_iterations: i32) -> (counter: Result<EscapeCounter, RenderError>)
        ensures
            max_iterations < 0 ==> counter matches Err(RenderError::InvalidIterationBound),
            max_iterations >= 0 ==> (counter matches Ok(fresh) && fresh@ == (EscapeView {
                iterations: 0,
                max_iterations: max_iterations as int,
            })),
    {
        if max_iterations < 0 {
            Err(RenderError::InvalidIterationBound)
        } else {
            Ok(EscapeCounter { count: 0, limit: max_iterations })
        }
    }

    /// Decides whether the orbit takes another step, and counts it if so.
    ///
    /// `escaped` says whether the current point lies outside the escape
    /// radius.  The answer is `true` exactly when it does not and budget is
    /// left; where the answer is `false` the counter is left as it was.
    pub fn advance(&mut self, escaped: bool) -> (go: bool)
        ensures
            go == old(self)@.goes(escaped),
            final(self)@ == old(self)@.after(escaped),
            final(self)@.wf(),
    {
        proof {
            use_type_invariant(&*self);
        }
        if !escaped && self.count < self.limit {
            self.count = self.count + 1;
            true
        } else {
            false
        }
    }

    /// The steps taken so far: never negative, never more than the budget.
    pub fn iterations(&self) -> (count: i32)
        ensures
            count == self@.iterations,
            self@.wf(),
    {
        proof {
            use_type_invariant(self);
        }
        self.count
    }

    /// The budget that the counter was made with.
    pub fn max_iterations(&self) -> (limit: i32)
        ensures
            limit == self@.max_iterations,
            self@.wf(),
    {
        proof {
            use_type_invariant(self);
        }
        self.limit
    }

    /// Whether the budget is used up, which marks an interior point.
    pub fn is_interior(&self) -> (interior: bool)
        ensures
            interior == (self@.iterations == self@.max_iterations),
    {
        self.count == self.limit
    }
}

} // verus!
