//! How the runner discharges an action batch: every commit is appended
//! first, in order; once they all are, the watermark is acknowledged and
//! the batch released: events published and effects started. The first
//! append failure latches the runner: the engine is told once, and from
//! then on nothing is appended and no effect starts, while events are still
//! published.

use vstd::prelude::*;

use crate::engine::CoreAction;

verus! {

/// The runner's next move with a batch.
#[derive(Clone, Copy, Debug, PartialEq, Eq, Structural)]
pub enum DischargeStep {
    /// Append the commit at this index.
    Append(usize),
    /// Every commit is appended: acknowledge the watermark, then release.
    Acknowledge,
    /// Release the batch without appending (the runner is latched).
    Release,
}

/// What releasing one action does.
#[derive(Clone, Copy, Debug, PartialEq, Eq, Structural)]
pub enum Release {
    /// Publish its event.
    Publish,
    /// Start its effect.
    Start,
    /// Nothing: a commit already appended, a cancellation, or an effect a
    /// latched runner does not start.
    Skip,
}

/// The first commit at or after `from`, if any.
pub open spec fn next_commit(actions: Seq<CoreAction>, from: int) -> Option<int>
    decreases actions.len() - from,
{
    if from < 0 || from >= actions.len() {
        None
    } else if actions[from] is Commit {
        Some(from)
    } else {
        next_commit(actions, from + 1)
    }
}

/// The step after the commits before `from` were appended.
pub open spec fn discharge_spec(failed: bool, actions: Seq<CoreAction>, from: int) -> DischargeStep {
    if failed {
        DischargeStep::Release
    } else {
        match next_commit(actions, from) {
            Some(i) => DischargeStep::Append(i as usize),
            None => DischargeStep::Acknowledge,
        }
    }
}

/// What releasing `a` does, latched or not.
pub open spec fn release_spec(failed: bool, a: CoreAction) -> Release {
    match a {
        CoreAction::Publish(_) => Release::Publish,
        CoreAction::StartEffect { .. } => if failed {
            Release::Skip
        } else {
            Release::Start
        },
        _ => Release::Skip,
    }
}

/// The runner's next move with `actions`, the commits before `from`
/// appended; `failed` is the latch.
pub fn discharge_step(failed: bool, actions: &Vec<CoreAction>, from: usize) -> (r: DischargeStep)
    requires
        from <= actions@.len(),
    ensures
        r == discharge_spec(failed, actions@, from as int),
        r matches DischargeStep::Append(i) ==> from <= i < actions@.len() && actions@[i as int] is Commit,
{
    if failed {
        return DischargeStep::Release;
    }
    let mut i = from;
    while i < actions.len()
        invariant
            from <= i <= actions@.len(),
            !failed,
            next_commit(actions@, from as int) == next_commit(actions@, i as int),
        decreases actions@.len() - i,
    {
        match &actions[i] {
            CoreAction::Commit(_) => {
                return DischargeStep::Append(i);
            },
            _ => {},
        }
        i = i + 1;
    }
    DischargeStep::Acknowledge
}

/// What releasing `action` does; `failed` is the latch.
pub fn release_action(failed: bool, action: &CoreAction) -> (r: Release)
    ensures
        r == release_spec(failed, *action),
{
    match action {
        CoreAction::Publish(_) => Release::Publish,
        CoreAction::StartEffect { .. } => if failed {
            Release::Skip
        } else {
            Release::Start
        },
        _ => Release::Skip,
    }
}

/// A latched runner appends nothing and starts no effect.
pub proof fn lemma_latched_runner_is_inert(actions: Seq<CoreAction>, from: int, a: CoreAction)
    ensures
        discharge_spec(true, actions, from) == DischargeStep::Release,
        release_spec(true, a) != Release::Start,
{
}

} // verus!
