use kittens_code::reactor::service::{
    service_window_next, service_window_step, HandlerOutcome, NextItem, WindowAction,
};
use kittens_code::reactor::graph::find_cycle;
use kittens_code::reactor::{
    validate, CycleKind, Edge, EdgeReason, PhaseName, ReactorDecl, ReadinessKind, SourceArm,
    Violation,
};

fn arm(id: &str, readiness: ReadinessKind) -> SourceArm {
    SourceArm {
        id: String::from(id),
        readiness,
        shutdown: false,
        terminal: false,
        before: vec![],
        last: false,
        starvation_waived: false,
        guarded: false,
        yields_to: None,
        drain: None,
        persistent_place: true,
        place: format!("self.{id}"),
    }
}

fn decl(arms: Vec<SourceArm>) -> ReactorDecl {
    ReactorDecl {
        required_phases: vec![],
        initialize: false,
        before_poll: false,
        after_event: false,
        arms,
    }
}

#[test]
fn a_quiescent_pair_is_admissible() {
    let d = decl(vec![
        arm("a", ReadinessKind::Quiescent),
        arm("b", ReadinessKind::Quiescent),
    ]);
    assert_eq!(validate(&d), Ok(()));
}

#[test]
fn no_arms_is_refused_first() {
    let mut d = decl(vec![]);
    d.required_phases = vec![String::from("bogus")];
    let err = validate(&d).unwrap_err();
    assert_eq!(err, Violation::NoArms);
    assert_eq!(err.code(), "KTR000");
}

#[test]
fn phases_must_be_known_unique_and_match_their_blocks() {
    let mut d = decl(vec![arm("a", ReadinessKind::Quiescent)]);
    d.required_phases = vec![String::from("teardown")];
    assert_eq!(
        validate(&d),
        Err(Violation::UnknownRequiredPhase { index: 0 })
    );
    d.required_phases = vec![String::from("initialize"), String::from("initialize")];
    assert_eq!(
        validate(&d),
        Err(Violation::DuplicateRequiredPhase { index: 1 })
    );
    d.required_phases = vec![String::from("before_poll")];
    assert_eq!(
        validate(&d),
        Err(Violation::MissingPhaseBlock {
            phase: PhaseName::BeforePoll
        })
    );
    d.required_phases = vec![];
    d.after_event = true;
    let err = validate(&d).unwrap_err();
    assert_eq!(
        err,
        Violation::UnrequiredPhaseBlock {
            phase: PhaseName::AfterEvent
        }
    );
    assert_eq!(err.code(), "KTR011");
    d.required_phases = vec![String::from("after_event")];
    assert_eq!(validate(&d), Ok(()));
}

#[test]
fn duplicate_ids_and_places_are_refused() {
    let d = decl(vec![
        arm("a", ReadinessKind::Quiescent),
        arm("a", ReadinessKind::Quiescent),
    ]);
    assert_eq!(validate(&d), Err(Violation::DuplicateSourceId { arm: 1 }));

    let mut b = arm("b", ReadinessKind::Quiescent);
    b.place = String::from("self.a");
    let d = decl(vec![arm("a", ReadinessKind::Quiescent), b]);
    let err = validate(&d).unwrap_err();
    assert_eq!(err, Violation::DuplicatePlace { first: 0, second: 1 });
    assert_eq!(err.code(), "KTR020");

    let mut t = arm("t", ReadinessKind::Quiescent);
    t.persistent_place = false;
    assert_eq!(
        validate(&decl(vec![t])),
        Err(Violation::NonPersistentSource { arm: 0 })
    );
}

#[test]
fn shutdown_and_terminal_restrictions_hold() {
    let mut s = arm("s", ReadinessKind::Quiescent);
    s.shutdown = true;
    s.guarded = true;
    assert_eq!(
        validate(&decl(vec![s])),
        Err(Violation::ShutdownGuarded { arm: 0 })
    );
    let mut s = arm("s", ReadinessKind::Quiescent);
    s.shutdown = true;
    s.last = true;
    assert_eq!(
        validate(&decl(vec![s])),
        Err(Violation::ShutdownLast { arm: 0 })
    );
    let mut s = arm("s", ReadinessKind::Quiescent);
    s.shutdown = true;
    s.starvation_waived = true;
    assert_eq!(
        validate(&decl(vec![s])),
        Err(Violation::ShutdownWaiver { arm: 0 })
    );
    let mut t = arm("t", ReadinessKind::Quiescent);
    t.terminal = true;
    t.drain = Some(8);
    let err = validate(&decl(vec![t])).unwrap_err();
    assert_eq!(err, Violation::TerminalDrained { arm: 0 });
    assert_eq!(err.code(), "KTR008");
}

#[test]
fn relations_must_name_declared_sources() {
    let mut a = arm("a", ReadinessKind::Quiescent);
    a.before = vec![String::from("b"), String::from("ghost")];
    let d = decl(vec![a, arm("b", ReadinessKind::Quiescent)]);
    assert_eq!(
        validate(&d),
        Err(Violation::UnknownBeforeTarget { arm: 0, relation: 1 })
    );

    let mut a = arm("a", ReadinessKind::Quiescent);
    a.yields_to = Some(String::from("ghost"));
    assert_eq!(
        validate(&decl(vec![a])),
        Err(Violation::UnknownYieldTarget { arm: 0 })
    );

    let mut a = arm("a", ReadinessKind::Quiescent);
    a.yields_to = Some(String::from("a"));
    let err = validate(&decl(vec![a])).unwrap_err();
    assert_eq!(err, Violation::SelfYield { arm: 0 });
    assert_eq!(err.code(), "KTR010");
}

#[test]
fn one_last_source_must_end_the_declaration() {
    let mut a = arm("a", ReadinessKind::Quiescent);
    a.last = true;
    let mut b = arm("b", ReadinessKind::Quiescent);
    b.last = true;
    assert_eq!(
        validate(&decl(vec![a, b, arm("c", ReadinessKind::Quiescent)])),
        Err(Violation::LastConflict { arm: 1, first: 0 })
    );
    let mut a = arm("a", ReadinessKind::Quiescent);
    a.last = true;
    assert_eq!(
        validate(&decl(vec![a, arm("b", ReadinessKind::Quiescent)])),
        Err(Violation::LastNotFinal { arm: 0 })
    );
    let mut b = arm("b", ReadinessKind::Quiescent);
    b.last = true;
    assert_eq!(
        validate(&decl(vec![arm("a", ReadinessKind::Quiescent), b])),
        Ok(())
    );
}

#[test]
fn scheduling_cycle_is_reported_along_its_edges() {
    let mut a = arm("a", ReadinessKind::Quiescent);
    a.before = vec![String::from("b")];
    let mut b = arm("b", ReadinessKind::Quiescent);
    b.before = vec![String::from("a")];
    let err = validate(&decl(vec![a, b])).unwrap_err();
    assert_eq!(
        err,
        Violation::Cycle {
            kind: CycleKind::Scheduling,
            nodes: vec![0, 1, 0]
        }
    );
    assert_eq!(err.code(), "KTR003");
}

#[test]
fn buffered_yield_cycle_is_reported() {
    let mut a = arm("a", ReadinessKind::Quiescent);
    a.yields_to = Some(String::from("b"));
    let mut b = arm("b", ReadinessKind::Quiescent);
    b.yields_to = Some(String::from("a"));
    let err = validate(&decl(vec![a, b])).unwrap_err();
    assert_eq!(
        err,
        Violation::Cycle {
            kind: CycleKind::BufferedYield,
            nodes: vec![0, 1, 0]
        }
    );
    assert_eq!(err.code(), "KTR010");
}

#[test]
fn lexical_order_must_agree_with_relations() {
    let a = arm("a", ReadinessKind::Quiescent);
    let mut b = arm("b", ReadinessKind::Quiescent);
    b.before = vec![String::from("a")];
    let err = validate(&decl(vec![a, b])).unwrap_err();
    assert_eq!(
        err,
        Violation::LexicalOrder {
            edge: Edge {
                from: 1,
                to: 0,
                reason: EdgeReason::Before { arm: 1, relation: 0 }
            }
        }
    );
    assert_eq!(err.code(), "KTR016");

    // A shutdown source must lead every other source.
    let mut s = arm("s", ReadinessKind::Quiescent);
    s.shutdown = true;
    let err = validate(&decl(vec![arm("a", ReadinessKind::Quiescent), s])).unwrap_err();
    assert_eq!(
        err,
        Violation::LexicalOrder {
            edge: Edge {
                from: 1,
                to: 0,
                reason: EdgeReason::ShutdownPrefix
            }
        }
    );
}

#[test]
fn may_remain_ready_source_starves_a_later_protected_one_unless_it_yields() {
    let d = decl(vec![
        arm("busy", ReadinessKind::MayRemainReady),
        arm("quiet", ReadinessKind::Quiescent),
    ]);
    let err = validate(&d).unwrap_err();
    assert_eq!(err, Violation::Starvation { dominant: 0, victim: 1 });
    assert_eq!(err.code(), "KTR007");

    let mut busy = arm("busy", ReadinessKind::MayRemainReady);
    busy.yields_to = Some(String::from("quiet"));
    assert_eq!(
        validate(&decl(vec![busy, arm("quiet", ReadinessKind::Quiescent)])),
        Ok(())
    );

    let mut quiet = arm("quiet", ReadinessKind::Quiescent);
    quiet.starvation_waived = true;
    assert_eq!(
        validate(&decl(vec![arm("busy", ReadinessKind::MayRemainReady), quiet])),
        Ok(())
    );
}

fn edge(from: usize, to: usize) -> Edge {
    Edge { from, to, reason: EdgeReason::ShutdownPrefix }
}

#[test]
fn find_cycle_reports_the_first_cycle_the_search_closes() {
    assert_eq!(find_cycle(2, &vec![edge(0, 1), edge(1, 0)]), Some(vec![0, 1, 0]));
    assert_eq!(find_cycle(2, &vec![edge(0, 1)]), None);
    // From node 0 the search reaches 1 and follows 1's edges in order: the
    // edge to 2 closes 1 -> 2 -> 1 before the edge back to 0 is tried.
    assert_eq!(
        find_cycle(3, &vec![edge(0, 1), edge(1, 2), edge(2, 1), edge(1, 0)]),
        Some(vec![1, 2, 1])
    );
    // Start nodes are tried in index order: node 0 is acyclic on its own.
    assert_eq!(
        find_cycle(3, &vec![edge(1, 2), edge(2, 1)]),
        Some(vec![1, 2, 1])
    );
}

#[test]
fn service_window_runs_terminal_undrained_and_drained_sources() {
    let mut terminal = arm("stop", ReadinessKind::Quiescent);
    terminal.shutdown = true;
    assert_eq!(
        service_window_step(&terminal, 1, HandlerOutcome::Continue, false),
        WindowAction::Exit
    );
    assert_eq!(
        service_window_step(&terminal, 1, HandlerOutcome::Failed, false),
        WindowAction::ReturnError
    );

    let once = arm("once", ReadinessKind::Quiescent);
    assert_eq!(
        service_window_step(&once, 1, HandlerOutcome::Continue, false),
        WindowAction::EndWindow
    );
    assert_eq!(
        service_window_step(&once, 1, HandlerOutcome::Stop, false),
        WindowAction::Exit
    );

    let mut drained = arm("events", ReadinessKind::MayRemainReady);
    drained.drain = Some(2);
    assert_eq!(
        service_window_step(&drained, 1, HandlerOutcome::Continue, false),
        WindowAction::Poll
    );
    assert_eq!(
        service_window_step(&drained, 2, HandlerOutcome::Continue, false),
        WindowAction::EndWindow
    );
    assert_eq!(service_window_next(NextItem::Item), WindowAction::TakeNext);
    assert_eq!(service_window_next(NextItem::Empty), WindowAction::EndWindow);
    assert_eq!(service_window_next(NextItem::Dormant), WindowAction::EndWindow);

    drained.yields_to = Some(String::from("stop"));
    assert_eq!(
        service_window_step(&drained, 1, HandlerOutcome::Continue, true),
        WindowAction::EndWindow
    );
    assert_eq!(
        service_window_step(&drained, 1, HandlerOutcome::Continue, false),
        WindowAction::Poll
    );
}
