//! The service window of a selected source: how many items its handler
//! runs before the reactor polls again. A terminal source exits after its
//! first handler; an undrained source runs its handler once; a drained
//! source runs at most its literal `max` items, one at a time, and stops on
//! `Stop`, on a handler error, when the source has nothing more ready, or
//! when the source it yields to has backlog. Each decision is a step from
//! plain values: the handler's result and the backlog probe go in, the
//! next thing to do comes out; the caller awaits the handler, asks the
//! source, and feeds the answers back.

use vstd::prelude::*;

use crate::reactor::SourceArm;

verus! {

/// What a handler returned.
#[derive(Clone, Copy, Debug, PartialEq, Eq, Structural)]
pub enum HandlerOutcome {
    /// `Ok(Control::Continue)`.
    Continue,
    /// `Ok(Control::Stop(..))`, or a terminal handler's `Ok(exit)`.
    Stop,
    /// `Err(..)`.
    Failed,
}

/// What a drainable source offered when asked for one more item.
#[derive(Clone, Copy, Debug, PartialEq, Eq, Structural)]
pub enum NextItem {
    /// An item is ready.
    Item,
    /// Nothing is ready now.
    Empty,
    /// The source is dormant.
    Dormant,
}

/// What the service window does next.
#[derive(Clone, Copy, Debug, PartialEq, Eq, Structural)]
pub enum WindowAction {
    /// Leave the reactor with the handler's exit value.
    Exit,
    /// Leave the reactor with the handler's error.
    ReturnError,
    /// End the window; the reactor polls again.
    EndWindow,
    /// Ask the source for one more item (it may yet end the window).
    Poll,
    /// Run the handler on the item the source gave.
    TakeNext,
}

/// A terminal source: a shutdown or terminal source.
pub open spec fn is_terminal_arm(arm: SourceArm) -> bool {
    arm.shutdown || arm.terminal
}

/// The most items one window of `arm` handles.
pub open spec fn window_limit(arm: SourceArm) -> nat {
    if is_terminal_arm(arm) {
        1
    } else {
        match arm.drain {
            Some(m) => m as nat,
            None => 1,
        }
    }
}

/// The decision after the handler ran on the `handled`-th item of the
/// window (counting from one), given its result and whether the source
/// `arm` yields to has backlog.
pub open spec fn service_step(
    arm: SourceArm,
    handled: nat,
    outcome: HandlerOutcome,
    target_backlog: bool,
) -> WindowAction {
    if outcome == HandlerOutcome::Failed {
        WindowAction::ReturnError
    } else if is_terminal_arm(arm) {
        WindowAction::Exit
    } else if outcome == HandlerOutcome::Stop {
        WindowAction::Exit
    } else {
        match arm.drain {
            None => WindowAction::EndWindow,
            Some(m) => if handled >= m {
                WindowAction::EndWindow
            } else if arm.yields_to is Some && target_backlog {
                WindowAction::EndWindow
            } else {
                WindowAction::Poll
            },
        }
    }
}

/// The decision after the source was asked for one more item.
pub open spec fn next_step(next: NextItem) -> WindowAction {
    match next {
        NextItem::Item => WindowAction::TakeNext,
        _ => WindowAction::EndWindow,
    }
}

/// Decides what the window does after the handler ran on its
/// `handled`-th item. `target_backlog` is what the backlog probe of the
/// source `arm` yields to reported; it is read only when `arm` yields.
pub fn service_window_step(
    arm: &SourceArm,
    handled: usize,
    outcome: HandlerOutcome,
    target_backlog: bool,
) -> (r: WindowAction)
    requires
        1 <= handled,
        arm.drain matches Some(m) ==> 1 <= m <= crate::reactor::MAX_DRAIN,
    ensures
        r == service_step(*arm, handled as nat, outcome, target_backlog),
        r is Poll ==> !is_terminal_arm(*arm) && (arm.drain matches Some(m) && handled < m) && !(
        arm.yields_to is Some && target_backlog) && outcome == HandlerOutcome::Continue,
{
    if outcome == HandlerOutcome::Failed {
        return WindowAction::ReturnError;
    }
    if arm.shutdown || arm.terminal {
        return WindowAction::Exit;
    }
    if outcome == HandlerOutcome::Stop {
        return WindowAction::Exit;
    }
    match arm.drain {
        None => WindowAction::EndWindow,
        Some(m) => {
            if handled >= m {
                WindowAction::EndWindow
            } else if arm.yields_to.is_some() && target_backlog {
                WindowAction::EndWindow
            } else {
                WindowAction::Poll
            }
        },
    }
}

/// Decides what the window does with what the source offered after a
/// `Poll`: the item is handled next, or the window ends.
pub fn service_window_next(next: NextItem) -> (r: WindowAction)
    ensures
        r == next_step(next),
{
    match next {
        NextItem::Item => WindowAction::TakeNext,
        _ => WindowAction::EndWindow,
    }
}

/// The window's decisions in the handler's terms: a handler error always
/// leaves with the error; otherwise a terminal source always exits, and
/// `Stop` always exits, whatever the drain, the count handled or the
/// backlog; a `Continue` from an undrained source ends the window; and a
/// `Continue` from a drained source asks for another item exactly when
/// fewer than `max` were handled and the source it yields to, if any, has
/// no backlog.
pub proof fn lemma_service_step_laws(
    arm: SourceArm,
    handled: nat,
    outcome: HandlerOutcome,
    target_backlog: bool,
)
    ensures
        outcome == HandlerOutcome::Failed ==> service_step(arm, handled, outcome, target_backlog)
            == WindowAction::ReturnError,
        outcome == HandlerOutcome::Stop ==> service_step(arm, handled, outcome, target_backlog)
            == WindowAction::Exit,
        outcome != HandlerOutcome::Failed && (arm.shutdown || arm.terminal) ==> service_step(
            arm,
            handled,
            outcome,
            target_backlog,
        ) == WindowAction::Exit,
        outcome == HandlerOutcome::Continue && !(arm.shutdown || arm.terminal) && arm.drain is None
            ==> service_step(arm, handled, outcome, target_backlog) == WindowAction::EndWindow,
        outcome == HandlerOutcome::Continue && !(arm.shutdown || arm.terminal) && arm.drain is Some
            ==> (service_step(arm, handled, outcome, target_backlog) == WindowAction::Poll <==> (
        handled < arm.drain->Some_0 && !(arm.yields_to is Some && target_backlog))),
        outcome == HandlerOutcome::Continue && !(arm.shutdown || arm.terminal) ==> (service_step(
            arm,
            handled,
            outcome,
            target_backlog,
        ) == WindowAction::Poll || service_step(arm, handled, outcome, target_backlog)
            == WindowAction::EndWindow),
        service_step(arm, handled, outcome, target_backlog) != WindowAction::TakeNext,
{
}

/// The number of items one window handles, when the handler's results, the
/// backlog probes and the source's offers come in as given, item by item;
/// `h` items handled so far.
pub open spec fn window_run(
    arm: SourceArm,
    h: nat,
    outcomes: Seq<HandlerOutcome>,
    backlogs: Seq<bool>,
    nexts: Seq<NextItem>,
) -> nat
    decreases outcomes.len() - h,
{
    if h == 0 || h > outcomes.len() || h > backlogs.len() || h > nexts.len() {
        h
    } else if service_step(arm, h, outcomes[h - 1], backlogs[h - 1]) == WindowAction::Poll
        && next_step(nexts[h - 1]) == WindowAction::TakeNext && h < outcomes.len() {
        window_run(arm, h + 1, outcomes, backlogs, nexts)
    } else {
        h
    }
}

/// No window handles more items than its limit: one for a terminal or an
/// undrained source, the literal `max` for a drained one, whatever the
/// handlers return and the sources offer.
pub proof fn lemma_window_bounded(
    arm: SourceArm,
    h: nat,
    outcomes: Seq<HandlerOutcome>,
    backlogs: Seq<bool>,
    nexts: Seq<NextItem>,
)
    requires
        1 <= h <= window_limit(arm),
    ensures
        window_run(arm, h, outcomes, backlogs, nexts) <= window_limit(arm),
    decreases outcomes.len() - h,
{
    if h <= outcomes.len() && h <= backlogs.len() && h <= nexts.len() && service_step(
        arm,
        h,
        outcomes[h - 1],
        backlogs[h - 1],
    ) == WindowAction::Poll && next_step(nexts[h - 1]) == WindowAction::TakeNext && h
        < outcomes.len() {
        lemma_window_bounded(arm, h + 1, outcomes, backlogs, nexts);
    }
}

} // verus!
