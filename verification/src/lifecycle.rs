//! The lifecycle coordinator: the state machine that governs startup
//! recovery, steady-state serving, and the graceful drain on termination.
//!
//! The coordinator replays the durable log into a fresh store and compacts
//! it before any traffic, then accepts connections until an external
//! termination event sets the shutdown flag, then stops accepting, waits
//! for every worker, and compacts exactly once more before exit. The
//! decisions are made here and proved irreversible: the phase only ever
//! moves forward, connections are accepted only while `Serving`, and the
//! final compaction happens on exactly one transition.

use vstd::prelude::*;

verus! {

/// The phases of the process, in the order they are passed through.
pub enum Phase {
    /// Replaying the durable log and running the normalizing compaction;
    /// no traffic is accepted yet.
    Recovering,
    /// Accepting connections and spawning one worker per connection.
    Serving,
    /// The shutdown flag was observed: accepting has stopped; waiting for
    /// every spawned worker to reach a terminal state.
    Draining,
    /// The final compaction is done and the process exits.
    Terminated,
}

impl Phase {
    /// Phases never move backwards; this rank witnesses it.
    pub open spec fn rank(self) -> int {
        match self {
            Phase::Recovering => 0,
            Phase::Serving => 1,
            Phase::Draining => 2,
            Phase::Terminated => 3,
        }
    }

    /// New connections are accepted only while serving.
    pub open spec fn may_accept(self) -> bool {
        self is Serving
    }
}

/// What the coordinator must do next.
pub enum LifecycleAction {
    /// Poll the listener for one more connection, spawning a worker for it.
    Accept,
    /// Accept nothing further; wait for the workers to finish.
    Drain,
    /// Take the final snapshot under the lock, compact the log once, and
    /// exit.
    CompactAndExit,
    /// Nothing remains.
    Done,
}

/// The coordinator's transition function, from what it can observe: its
/// phase, the shutdown flag, and whether workers are still running.
pub open spec fn step_spec(p: Phase, shutdown_set: bool, workers_active: bool) -> (
    Phase,
    LifecycleAction,
) {
    match p {
        Phase::Recovering => if shutdown_set {
            (Phase::Draining, LifecycleAction::Drain)
        } else {
            (Phase::Serving, LifecycleAction::Accept)
        },
        Phase::Serving => if shutdown_set {
            (Phase::Draining, LifecycleAction::Drain)
        } else {
            (Phase::Serving, LifecycleAction::Accept)
        },
        Phase::Draining => if workers_active {
            (Phase::Draining, LifecycleAction::Drain)
        } else {
            (Phase::Terminated, LifecycleAction::CompactAndExit)
        },
        Phase::Terminated => (Phase::Terminated, LifecycleAction::Done),
    }
}

/// One decision of the coordinator's loop.
///
/// The returned phase never has a smaller rank, so the machine cannot move
/// backwards: once the flag has carried it past `Serving` no connection is
/// ever accepted again. `CompactAndExit` is produced exactly on the one
/// transition into `Terminated`, so the closing compaction runs exactly
/// once, after the last worker has finished.
pub fn lifecycle_step(p: Phase, shutdown_set: bool, workers_active: bool) -> (r: (
    Phase,
    LifecycleAction,
))
    ensures
        r == step_spec(p, shutdown_set, workers_active),
        r.0.rank() >= p.rank(),
        r.1 is Accept <==> r.0 is Serving,
        shutdown_set ==> !(r.0 is Serving),
        r.1 is CompactAndExit <==> (!(p is Terminated) && p.rank() >= Phase::Draining.rank()
            && !workers_active),
        r.1 is CompactAndExit ==> r.0 is Terminated,
{
    match p {
        Phase::Recovering => {
            if shutdown_set {
                (Phase::Draining, LifecycleAction::Drain)
            } else {
                (Phase::Serving, LifecycleAction::Accept)
            }
        },
        Phase::Serving => {
            if shutdown_set {
                (Phase::Draining, LifecycleAction::Drain)
            } else {
                (Phase::Serving, LifecycleAction::Accept)
            }
        },
        Phase::Draining => {
            if workers_active {
                (Phase::Draining, LifecycleAction::Drain)
            } else {
                (Phase::Terminated, LifecycleAction::CompactAndExit)
            }
        },
        Phase::Terminated => (Phase::Terminated, LifecycleAction::Done),
    }
}

/// The phase after a whole run of observations, one step per observation
/// `(shutdown flag, workers still active)`.
pub open spec fn run_steps(p: Phase, obs: Seq<(bool, bool)>) -> Phase
    decreases obs.len(),
{
    if obs.len() == 0 {
        p
    } else {
        run_steps(step_spec(p, obs[0].0, obs[0].1).0, obs.drop_first())
    }
}

/// The rank never decreases over any run: the lifecycle is irreversible.
pub proof fn lemma_rank_monotonic(p: Phase, obs: Seq<(bool, bool)>)
    ensures
        run_steps(p, obs).rank() >= p.rank(),
    decreases obs.len(),
{
    if obs.len() > 0 {
        lemma_rank_monotonic(step_spec(p, obs[0].0, obs[0].1).0, obs.drop_first());
    }
}

/// Graceful shutdown, first half: once the machine has left `Serving`
/// behind — as it does the moment the flag is observed — no later step, no
/// matter what is observed, is in a phase that accepts a connection.
pub proof fn lemma_no_accept_after_drain(p: Phase, obs: Seq<(bool, bool)>)
    requires
        p.rank() >= Phase::Draining.rank(),
    ensures
        !run_steps(p, obs).may_accept(),
{
    lemma_rank_monotonic(p, obs);
}

/// How many steps of a run order the closing compaction.
pub open spec fn compactions_in_run(p: Phase, obs: Seq<(bool, bool)>) -> int
    decreases obs.len(),
{
    if obs.len() == 0 {
        0
    } else {
        (if step_spec(p, obs[0].0, obs[0].1).1 is CompactAndExit {
            1int
        } else {
            0int
        }) + compactions_in_run(step_spec(p, obs[0].0, obs[0].1).0, obs.drop_first())
    }
}

/// Graceful shutdown, second half: over any run whatsoever the closing
/// compaction is ordered at most once, and never again after the machine
/// is `Terminated`.
pub proof fn lemma_final_compaction_once(p: Phase, obs: Seq<(bool, bool)>)
    ensures
        compactions_in_run(p, obs) <= 1,
        p is Terminated ==> compactions_in_run(p, obs) == 0,
    decreases obs.len(),
{
    if obs.len() > 0 {
        let next = step_spec(p, obs[0].0, obs[0].1);
        lemma_final_compaction_once(next.0, obs.drop_first());
    }
}

} // verus!
