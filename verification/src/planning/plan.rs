//! Plan errors and simulated trajectories.

use vstd::prelude::*;
use vstd::string::*;
use crate::text::decimal;
use crate::types::{GoalId, StateIdx};

verus! {

/// Why a plan cannot be executed.
#[derive(Debug, Clone)]
pub enum PlanError {
    /// The plan has no options.
    EmptyPlan,
    /// The plan names a goal the kernel does not know.
    UnknownGoal(GoalId),
    /// An option cannot be executed from the state it starts in.
    InfeasibleStep { goal: GoalId, state: StateIdx },
}

impl PlanError {
    /// The message of the error.
    pub fn to_string(&self) -> (s: String)
        ensures
            s@ == match *self {
                PlanError::EmptyPlan => "Plan has no options"@,
                PlanError::UnknownGoal(g) => "Unknown goal: Goal("@ + decimal(g.0 as nat) + ")"@,
                PlanError::InfeasibleStep { goal, state } => "Infeasible step: goal Goal("@ + decimal(
                    goal.0 as nat,
                ) + ") from state StateIdx("@ + decimal(state.0 as nat) + ")"@,
            },
    {
        match self {
            PlanError::EmptyPlan => String::from_str("Plan has no options"),
            PlanError::UnknownGoal(g) => {
                let mut s = String::from_str("Unknown goal: ");
                let name = g.to_string();
                s.append(name.as_str());
                proof {
                    reveal_strlit("Unknown goal: ");
                    reveal_strlit("Unknown goal: Goal(");
                    reveal_strlit(")");
                    assert(s@ =~= "Unknown goal: Goal("@ + decimal(g.0 as nat) + ")"@);
                }
                s
            },
            PlanError::InfeasibleStep { goal, state } => {
                let mut s = String::from_str("Infeasible step: goal ");
                let name = goal.to_string();
                s.append(name.as_str());
                s.append(" from state StateIdx(");
                let st = crate::text::decimal_string(state.0);
                s.append(st.as_str());
                s.append(")");
                proof {
                    reveal_strlit("Infeasible step: goal ");
                    reveal_strlit("Infeasible step: goal Goal(");
                    reveal_strlit(") from state StateIdx(");
                    reveal_strlit(" from state StateIdx(");
                    reveal_strlit(")");
                    assert(s@ =~= "Infeasible step: goal Goal("@ + decimal(goal.0 as nat)
                        + ") from state StateIdx("@ + decimal(state.0 as nat) + ")"@);
                }
                s
            },
        }
    }
}

/// One simulated execution of a plan: the states and times after each
/// option, and whether every option succeeded.
#[derive(Clone, Debug)]
pub struct SimulatedTrajectory {
    /// States visited, starting with the initial state.
    pub states: Vec<usize>,
    /// Times of those visits, starting at 0.
    pub times: Vec<usize>,
    /// Whether every option reached its goal.
    pub success: bool,
}

/// What happened when the next option of a plan was executed.
#[derive(Clone, Copy, Debug, PartialEq, Eq)]
pub enum StepOutcome {
    /// The plan names a goal the kernel does not know.
    UnknownGoal,
    /// The option violated a constraint.
    Failure,
    /// The option reached its goal in `next_state` after `duration` steps.
    Success { next_state: usize, duration: usize },
}

impl SimulatedTrajectory {
    /// States and times have one entry per visit, starting at time 0, and
    /// time never runs backwards.
    pub open spec fn wf(&self) -> bool {
        &&& self.states@.len() == self.times@.len()
        &&& self.states@.len() >= 1
        &&& self.times@[0] == 0
        &&& forall|i: int, j: int| 0 <= i <= j < self.times@.len() ==> self.times@[i] <= self.times@[j]
    }

    /// A trajectory at `initial_state`, time 0, nothing failed yet.
    pub fn start(initial_state: usize) -> (t: Self)
        ensures
            t.wf(),
            t.states@ == seq![initial_state],
            t.times@ == seq![0usize],
            t.success,
    {
        let mut states = Vec::new();
        states.push(initial_state);
        let mut times = Vec::new();
        times.push(0);
        SimulatedTrajectory { states, times, success: true }
    }

    /// The current state.
    pub fn current_state(&self) -> (s: usize)
        requires
            self.wf(),
        ensures
            s == self.states@.last(),
    {
        self.states[self.states.len() - 1]
    }

    /// The current time.
    pub fn current_time(&self) -> (t: usize)
        requires
            self.wf(),
        ensures
            t == self.times@.last(),
    {
        self.times[self.times.len() - 1]
    }

    /// Records the outcome of the next option. A success moves to the new
    /// state and advances time; an unknown goal or a failure ends the
    /// trajectory unsuccessfully. Returns whether execution continues.
    pub fn step(&mut self, outcome: StepOutcome) -> (go_on: bool)
        requires
            old(self).wf(),
            old(self).success,
            outcome matches StepOutcome::Success { duration, .. } ==> old(self).times@.last() + duration
                <= usize::MAX,
        ensures
            final(self).wf(),
            go_on == (outcome is Success),
            final(self).success == go_on,
            match outcome {
                StepOutcome::Success { next_state, duration } => {
                    &&& final(self).states@ == old(self).states@.push(next_state)
                    &&& final(self).times@ == old(self).times@.push(
                        (old(self).times@.last() + duration) as usize,
                    )
                },
                _ => final(self).states@ == old(self).states@ && final(self).times@ == old(
                    self,
                ).times@,
            },
    {
        match outcome {
            StepOutcome::Success { next_state, duration } => {
                let time = self.times[self.times.len() - 1] + duration;
                self.states.push(next_state);
                self.times.push(time);
                true
            },
            _ => {
                self.success = false;
                false
            },
        }
    }
}

/// Number of successful trajectories.
pub fn count_successes(trajectories: &Vec<SimulatedTrajectory>) -> (n: usize)
    ensures
        n == successes(trajectories@),
{
    let mut n: usize = 0;
    let mut i: usize = 0;
    while i < trajectories.len()
        invariant
            i <= trajectories@.len(),
            n == successes(trajectories@.take(i as int)),
            n <= i,
        decreases trajectories.len() - i,
    {
        proof {
            assert(trajectories@.take(i as int + 1).drop_last() =~= trajectories@.take(i as int));
        }
        if trajectories[i].success {
            n = n + 1;
        }
        i = i + 1;
    }
    proof {
        assert(trajectories@.take(trajectories@.len() as int) =~= trajectories@);
    }
    n
}

/// Number of successful trajectories in a sequence.
pub open spec fn successes(t: Seq<SimulatedTrajectory>) -> nat
    decreases t.len(),
{
    if t.len() == 0 {
        0
    } else {
        successes(t.drop_last()) + if t.last().success {
            1nat
        } else {
            0nat
        }
    }
}

/// Counting successes: no trajectory gives 0, and appending a trajectory
/// adds one exactly when it succeeded. So a single successful trajectory
/// counts 1, and every trajectory, the first included, is counted.
pub proof fn lemma_successes_append(s: Seq<SimulatedTrajectory>, t: SimulatedTrajectory)
    ensures
        successes(Seq::<SimulatedTrajectory>::empty()) == 0,
        successes(s.push(t)) == successes(s) + if t.success {
            1nat
        } else {
            0nat
        },
        successes(seq![t]) == if t.success {
            1nat
        } else {
            0nat
        },
        successes(s) <= s.len(),
    decreases s.len(),
{
    assert(s.push(t).drop_last() =~= s);
    assert(seq![t].drop_last() =~= Seq::<SimulatedTrajectory>::empty());
    if s.len() > 0 {
        lemma_successes_append(s.drop_last(), s.last());
        assert(s.drop_last().push(s.last()) =~= s);
    }
}

} // verus!
