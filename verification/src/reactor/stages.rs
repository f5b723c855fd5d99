//! The stages of reactor validation, each computing exactly the first
//! refusal its stage specification names.

use vstd::prelude::*;

use crate::reactor::{
    arm_verdict, arms_verdict, before_edges, before_edges_of, before_verdict, edges_within,
    first_last, last_edges, last_verdict, lexical_verdict, shutdown_edges, shutdown_edges_of,
    starvation_verdict, starves, yield_edges, Edge, EdgeReason, ReadinessKind, block_verdict, index_of, known_id, known_phase, phase_list_verdict, phase_text,
    phases_verdict, present, relations_verdict, required, PhaseName, ReactorDecl, SourceArm, Violation,
};
use crate::text::same_text;

verus! {

fn is_known_phase(name: &str) -> (r: bool)
    ensures
        r == known_phase(name@),
{
    same_text(name, "initialize") || same_text(name, "before_poll") || same_text(name, "after_event")
}

fn phase_name_text(p: PhaseName) -> (r: &'static str)
    ensures
        r@ == phase_text(p),
{
    match p {
        PhaseName::Initialize => "initialize",
        PhaseName::BeforePoll => "before_poll",
        PhaseName::AfterEvent => "after_event",
    }
}

fn is_required(ps: &Vec<String>, p: PhaseName) -> (r: bool)
    ensures
        r == required(ps@, p),
{
    let name = phase_name_text(p);
    let mut j: usize = 0;
    while j < ps.len()
        invariant
            j <= ps@.len(),
            name@ == phase_text(p),
            forall|m: int| 0 <= m < j ==> ps@[m]@ != phase_text(p),
        decreases ps@.len() - j,
    {
        if same_text(ps[j].as_str(), name) {
            return true;
        }
        j = j + 1;
    }
    false
}

fn is_present(r: &ReactorDecl, p: PhaseName) -> (b: bool)
    ensures
        b == present(*r, p),
{
    match p {
        PhaseName::Initialize => r.initialize,
        PhaseName::BeforePoll => r.before_poll,
        PhaseName::AfterEvent => r.after_event,
    }
}

fn block_refusal(r: &ReactorDecl, p: PhaseName) -> (v: Option<Violation>)
    ensures
        v matches Some(x) ==> !(x is Cycle),
        v == block_verdict(*r, p),
{
    let wanted = is_required(&r.required_phases, p);
    let here = is_present(r, p);
    if wanted && !here {
        Some(Violation::MissingPhaseBlock { phase: p })
    } else if here && !wanted {
        Some(Violation::UnrequiredPhaseBlock { phase: p })
    } else {
        None
    }
}

/// The first phase refusal of the declaration.
pub fn phase_refusal(r: &ReactorDecl) -> (v: Option<Violation>)
    ensures
        v matches Some(x) ==> !(x is Cycle),
        v == phases_verdict(*r),
{
    let ps = &r.required_phases;
    let mut k: usize = 0;
    while k < ps.len()
        invariant
            k <= ps@.len(),
            ps@ == r.required_phases@,
            phase_list_verdict(ps@, k as int) == phase_list_verdict(ps@, 0),
        decreases ps@.len() - k,
    {
        if !is_known_phase(ps[k].as_str()) {
            return Some(Violation::UnknownRequiredPhase { index: k });
        }
        let mut j: usize = 0;
        while j < k
            invariant
                j <= k < ps@.len(),
                ps@ == r.required_phases@,
                known_phase(ps@[k as int]@),
                phase_list_verdict(ps@, k as int) == phase_list_verdict(ps@, 0),
                forall|m: int| 0 <= m < j ==> ps@[m]@ != ps@[k as int]@,
            decreases k - j,
        {
            if same_text(ps[j].as_str(), ps[k].as_str()) {
                return Some(Violation::DuplicateRequiredPhase { index: k });
            }
            j = j + 1;
        }
        k = k + 1;
    }
    match block_refusal(r, PhaseName::Initialize) {
        Some(v) => {
            return Some(v);
        },
        None => {},
    }
    match block_refusal(r, PhaseName::BeforePoll) {
        Some(v) => {
            return Some(v);
        },
        None => {},
    }
    block_refusal(r, PhaseName::AfterEvent)
}

/// The first earlier arm polling the same place as arm `i`, if any.
fn earlier_place(arms: &Vec<SourceArm>, i: usize) -> (r: Option<usize>)
    requires
        i < arms@.len(),
    ensures
        r matches Some(j) ==> j < i && arms@[j as int].place@ == arms@[i as int].place@
            && forall|m: int| 0 <= m < j ==> arms@[m].place@ != arms@[i as int].place@,
        r is None ==> forall|m: int| 0 <= m < i ==> arms@[m].place@ != arms@[i as int].place@,
{
    let mut j: usize = 0;
    while j < i
        invariant
            j <= i < arms@.len(),
            forall|m: int| 0 <= m < j ==> arms@[m].place@ != arms@[i as int].place@,
        decreases i - j,
    {
        if same_text(arms[j].place.as_str(), arms[i].place.as_str()) {
            return Some(j);
        }
        j = j + 1;
    }
    None
}

/// Arm `i` repeats an earlier identifier.
fn repeats_id(arms: &Vec<SourceArm>, i: usize) -> (r: bool)
    requires
        i < arms@.len(),
    ensures
        r == exists|j: int| 0 <= j < i && arms@[j].id@ == arms@[i as int].id@,
{
    let mut j: usize = 0;
    while j < i
        invariant
            j <= i < arms@.len(),
            forall|m: int| 0 <= m < j ==> arms@[m].id@ != arms@[i as int].id@,
        decreases i - j,
    {
        if same_text(arms[j].id.as_str(), arms[i].id.as_str()) {
            return true;
        }
        j = j + 1;
    }
    false
}

fn one_arm_refusal(arms: &Vec<SourceArm>, i: usize) -> (v: Option<Violation>)
    requires
        i < arms@.len(),
    ensures
        v matches Some(x) ==> !(x is Cycle),
        v == arm_verdict(arms@, i as int),
{
    let a = &arms[i];
    if repeats_id(arms, i) {
        return Some(Violation::DuplicateSourceId { arm: i });
    }
    if !a.persistent_place {
        return Some(Violation::NonPersistentSource { arm: i });
    }
    match earlier_place(arms, i) {
        Some(j) => {
            proof {
                let c = choose|m: int|
                    0 <= m < i && arms@[m].place@ == a.place@ && forall|q: int|
                        0 <= q < m ==> arms@[q].place@ != a.place@;
                assert(c == j as int) by {
                    if c < j {
                    } else if j < c {
                    }
                }
            }
            return Some(Violation::DuplicatePlace { first: j, second: i });
        },
        None => {},
    }
    if a.shutdown && (a.guarded || a.yields_to.is_some() || a.drain.is_some()) {
        return Some(Violation::ShutdownGuarded { arm: i });
    }
    if a.shutdown && a.last {
        return Some(Violation::ShutdownLast { arm: i });
    }
    if a.shutdown && a.starvation_waived {
        return Some(Violation::ShutdownWaiver { arm: i });
    }
    if (a.shutdown || a.terminal) && a.drain.is_some() {
        return Some(Violation::TerminalDrained { arm: i });
    }
    None
}

/// The first per-arm refusal of the declaration.
pub fn arm_refusal(arms: &Vec<SourceArm>) -> (v: Option<Violation>)
    ensures
        v matches Some(x) ==> !(x is Cycle),
        v == arms_verdict(arms@, 0),
{
    let mut i: usize = 0;
    while i < arms.len()
        invariant
            i <= arms@.len(),
            arms_verdict(arms@, i as int) == arms_verdict(arms@, 0),
        decreases arms@.len() - i,
    {
        match one_arm_refusal(arms, i) {
            Some(v) => {
                return Some(v);
            },
            None => {},
        }
        i = i + 1;
    }
    None
}

/// The first arm carrying identifier `name`.
pub fn find_id(arms: &Vec<SourceArm>, name: &str) -> (r: Option<usize>)
    ensures
        r matches Some(j) ==> j < arms@.len() && j as int == index_of(arms@, name@)
            && arms@[j as int].id@ == name@,
        r is None <==> !known_id(arms@, name@),
{
    let mut j: usize = 0;
    while j < arms.len()
        invariant
            j <= arms@.len(),
            forall|m: int| 0 <= m < j ==> arms@[m].id@ != name@,
        decreases arms@.len() - j,
    {
        if same_text(arms[j].id.as_str(), name) {
            proof {
                reveal(index_of);
                let c = index_of(arms@, name@);
                assert(0 <= j < arms@.len() && arms@[j as int].id@ == name@ && forall|m: int|
                    0 <= m < j ==> arms@[m].id@ != name@);
                assert(c == j as int) by {
                    if c < j {
                    } else if j < c {
                    }
                }
            }
            return Some(j);
        }
        j = j + 1;
    }
    None
}

fn before_refusal(arms: &Vec<SourceArm>, i: usize) -> (v: Option<Violation>)
    requires
        i < arms@.len(),
    ensures
        v matches Some(x) ==> !(x is Cycle),
        v == before_verdict(arms@, i as int, 0),
{
    let rel = &arms[i].before;
    let mut k: usize = 0;
    while k < rel.len()
        invariant
            i < arms@.len(),
            rel@ == arms@[i as int].before@,
            k <= rel@.len(),
            before_verdict(arms@, i as int, k as int) == before_verdict(arms@, i as int, 0),
        decreases rel@.len() - k,
    {
        if find_id(arms, rel[k].as_str()).is_none() {
            return Some(Violation::UnknownBeforeTarget { arm: i, relation: k });
        }
        k = k + 1;
    }
    None
}

/// The first relation refusal of the declaration: an unknown target or a
/// self-yield.
pub fn relation_refusal(arms: &Vec<SourceArm>) -> (v: Option<Violation>)
    ensures
        v matches Some(x) ==> !(x is Cycle),
        v == relations_verdict(arms@, 0),
{
    let mut i: usize = 0;
    while i < arms.len()
        invariant
            i <= arms@.len(),
            relations_verdict(arms@, i as int) == relations_verdict(arms@, 0),
        decreases arms@.len() - i,
    {
        match before_refusal(arms, i) {
            Some(v) => {
                return Some(v);
            },
            None => {},
        }
        match &arms[i].yields_to {
            Some(target) => {
                if find_id(arms, target.as_str()).is_none() {
                    return Some(Violation::UnknownYieldTarget { arm: i });
                }
                if same_text(target.as_str(), arms[i].id.as_str()) {
                    return Some(Violation::SelfYield { arm: i });
                }
            },
            None => {},
        }
        i = i + 1;
    }
    None
}

/// The first arm declared last, if any.
pub fn first_last_arm(arms: &Vec<SourceArm>) -> (r: Option<usize>)
    ensures
        r matches Some(f) ==> first_last(arms@, f as int) && f as int == choose|i: int|
            first_last(arms@, i),
        r is None <==> !exists|i: int| first_last(arms@, i),
{
    let mut j: usize = 0;
    while j < arms.len()
        invariant
            j <= arms@.len(),
            forall|m: int| 0 <= m < j ==> !arms@[m].last,
        decreases arms@.len() - j,
    {
        if arms[j].last {
            proof {
                assert(first_last(arms@, j as int));
                let c = choose|i: int| first_last(arms@, i);
                assert(c == j as int) by {
                    if c < j {
                    } else if j < c {
                    }
                }
            }
            return Some(j);
        }
        j = j + 1;
    }
    None
}

/// The refusal of the `last` rules: a second last arm, or a last arm that
/// some arm follows.
pub fn last_refusal(arms: &Vec<SourceArm>) -> (v: Option<Violation>)
    ensures
        v matches Some(x) ==> !(x is Cycle),
        v == last_verdict(arms@),
{
    match first_last_arm(arms) {
        None => None,
        Some(f) => {
            let n = arms.len();
            let mut k: usize = f + 1;
            while k < n
                invariant
                    n == arms@.len(),
                    f < k <= arms@.len(),
                    first_last(arms@, f as int),
                    f as int == choose|i: int| first_last(arms@, i),
                    forall|m: int| f < m < k ==> !arms@[m].last,
                decreases arms@.len() - k,
            {
                if arms[k].last {
                    proof {
                        let s = choose|q: int|
                            f < q < arms@.len() && arms@[q].last && forall|m: int|
                                f < m < q ==> !arms@[m].last;
                        assert(f < k < arms@.len() && arms@[k as int].last && forall|m: int|
                            f < m < k ==> !arms@[m].last);
                        assert(s == k as int) by {
                            if s < k {
                            } else if k < s {
                            }
                        }
                    }
                    return Some(Violation::LastConflict { arm: k, first: f });
                }
                k = k + 1;
            }
            if f + 1 != n {
                Some(Violation::LastNotFinal { arm: f })
            } else {
                None
            }
        },
    }
}

/// Every `before` target names a declared arm.
pub open spec fn before_targets_known(arms: Seq<SourceArm>) -> bool {
    forall|i: int, k: int|
        0 <= i < arms.len() && 0 <= k < arms[i].before@.len() ==> known_id(
            arms,
            #[trigger] arms[i].before@[k]@,
        )
}

/// Every `yields_to` target names a declared arm other than the yielding one.
pub open spec fn yield_targets_known(arms: Seq<SourceArm>) -> bool {
    forall|i: int|
        0 <= i < arms.len() ==> (#[trigger] arms[i].yields_to matches Some(t) ==> known_id(
            arms,
            t@,
        ) && t@ != arms[i].id@)
}

proof fn lemma_before_known(arms: Seq<SourceArm>, i: int, k: int)
    requires
        0 <= i < arms.len(),
        0 <= k,
        before_verdict(arms, i, k) is None,
    ensures
        forall|m: int| k <= m < arms[i].before@.len() ==> known_id(arms, #[trigger] arms[i].before@[m]@),
    decreases arms[i].before@.len() - k,
{
    if k < arms[i].before@.len() {
        lemma_before_known(arms, i, k + 1);
    }
}

/// A declaration whose relations pass names only declared targets.
pub proof fn lemma_relations_known(arms: Seq<SourceArm>, i: int)
    requires
        0 <= i,
        relations_verdict(arms, i) is None,
    ensures
        forall|j: int, k: int|
            i <= j < arms.len() && 0 <= k < arms[j].before@.len() ==> known_id(
                arms,
                #[trigger] arms[j].before@[k]@,
            ),
        forall|j: int|
            i <= j < arms.len() ==> (#[trigger] arms[j].yields_to matches Some(t) ==> known_id(
                arms,
                t@,
            ) && t@ != arms[j].id@),
    decreases arms.len() - i,
{
    if i < arms.len() {
        lemma_before_known(arms, i, 0);
        lemma_relations_known(arms, i + 1);
    }
}

proof fn lemma_within_push(edges: Seq<Edge>, e: Edge, n: nat)
    requires
        edges_within(edges, n),
        e.from < n,
        e.to < n,
    ensures
        edges_within(edges.push(e), n),
{
    assert forall|k: int| 0 <= k < edges.push(e).len() implies #[trigger] edges.push(e)[k].from < n
        && edges.push(e)[k].to < n by {
        if k < edges.len() {
            assert(edges.push(e)[k] == edges[k]);
        }
    }
}

proof fn lemma_before_step(arms: Seq<SourceArm>, i: int, k: int, acc: Seq<Edge>, to: usize)
    requires
        0 <= i < arms.len(),
        0 <= k < arms[i].before@.len(),
        to as int == index_of(arms, arms[i].before@[k]@),
    ensures
        ({
            let e = Edge {
                from: i as usize,
                to,
                reason: EdgeReason::Before { arm: i as usize, relation: k as usize },
            };
            acc.push(e) + before_edges_of(arms, i, k + 1) == acc + before_edges_of(arms, i, k)
        }),
{
    let e = Edge {
        from: i as usize,
        to,
        reason: EdgeReason::Before { arm: i as usize, relation: k as usize },
    };
    let rest = before_edges_of(arms, i, k + 1);
    let name = arms[i].before@[k]@;
    assert(before_edges_of(arms, i, k) == seq![
        Edge {
            from: i as usize,
            to: index_of(arms, name) as usize,
            reason: EdgeReason::Before { arm: i as usize, relation: k as usize },
        },
    ] + rest);
    lemma_push_then_concat(acc, e, rest);
}

proof fn lemma_push_then_concat<T>(acc: Seq<T>, e: T, rest: Seq<T>)
    ensures
        acc.push(e) + rest == acc + (seq![e] + rest),
{
    assert(acc.push(e) + rest =~= acc + (seq![e] + rest));
}

proof fn lemma_before_arm_done(arms: Seq<SourceArm>, i: int)
    requires
        0 <= i < arms.len(),
    ensures
        before_edges_of(arms, i, arms[i].before@.len() as int) == Seq::<Edge>::empty(),
        before_edges(arms, i) == before_edges_of(arms, i, 0) + before_edges(arms, i + 1),
{
    assert(before_edges_of(arms, i, arms[i].before@.len() as int) =~= Seq::<Edge>::empty());
}

/// Appends the `before` relations of every arm, in order.
pub(crate) fn push_before_edges(arms: &Vec<SourceArm>, edges: &mut Vec<Edge>)
    requires
        before_targets_known(arms@),
        edges_within(old(edges)@, arms@.len() as nat),
    ensures
        final(edges)@ == old(edges)@ + before_edges(arms@, 0),
        edges_within(final(edges)@, arms@.len() as nat),
{
    let ghost start = edges@;
    let n = arms.len();
    let mut i: usize = 0;
    while i < n
        invariant
            n == arms@.len(),
            i <= n,
            before_targets_known(arms@),
            edges_within(edges@, n as nat),
            edges@ + before_edges(arms@, i as int) == start + before_edges(arms@, 0),
        decreases n - i,
    {
        let rel = &arms[i].before;
        let ghost at_arm = edges@;
        let mut k: usize = 0;
        while k < rel.len()
            invariant
                n == arms@.len(),
                i < n,
                rel@ == arms@[i as int].before@,
                k <= rel@.len(),
                before_targets_known(arms@),
                edges_within(edges@, n as nat),
                edges@ + before_edges_of(arms@, i as int, k as int) == at_arm + before_edges_of(
                    arms@,
                    i as int,
                    0,
                ),
            decreases rel@.len() - k,
        {
            assert(known_id(arms@, arms@[i as int].before@[k as int]@));
            let to = find_id(arms, rel[k].as_str()).unwrap();
            let e = Edge { from: i, to, reason: EdgeReason::Before { arm: i, relation: k } };
            proof {
                lemma_before_step(arms@, i as int, k as int, edges@, to);
                lemma_within_push(edges@, e, n as nat);
            }
            edges.push(e);
            k = k + 1;
        }
        proof {
            lemma_before_arm_done(arms@, i as int);
            assert(edges@ + Seq::<Edge>::empty() =~= edges@);
            let x = before_edges_of(arms@, i as int, 0);
            let y = before_edges(arms@, i + 1);
            assert(at_arm + x + y =~= at_arm + (x + y));
        }
        i = i + 1;
    }
    assert(before_edges(arms@, n as int) =~= Seq::<Edge>::empty());
    assert(edges@ + Seq::<Edge>::empty() =~= edges@);
}

/// Appends the shutdown-prefix relations of every shutdown arm, in order.
pub(crate) fn push_shutdown_edges(arms: &Vec<SourceArm>, edges: &mut Vec<Edge>)
    requires
        edges_within(old(edges)@, arms@.len() as nat),
    ensures
        final(edges)@ == old(edges)@ + shutdown_edges(arms@, 0),
        edges_within(final(edges)@, arms@.len() as nat),
{
    let ghost start = edges@;
    let n = arms.len();
    let mut i: usize = 0;
    while i < n
        invariant
            n == arms@.len(),
            i <= n,
            edges_within(edges@, n as nat),
            edges@ + shutdown_edges(arms@, i as int) == start + shutdown_edges(arms@, 0),
        decreases n - i,
    {
        if arms[i].shutdown {
            let mut t: usize = 0;
            while t < n
                invariant
                    n == arms@.len(),
                    i < n,
                    arms@[i as int].shutdown,
                    t <= n,
                    edges_within(edges@, n as nat),
                    edges@ + shutdown_edges_of(arms@, i as int, t as int) + shutdown_edges(
                        arms@,
                        i + 1,
                    ) == start + shutdown_edges(arms@, 0),
                decreases n - t,
            {
                if !arms[t].shutdown {
                    let e = Edge { from: i, to: t, reason: EdgeReason::ShutdownPrefix };
                    let ghost before = edges@;
                    edges.push(e);
                    proof {
                        let rest = shutdown_edges_of(arms@, i as int, t + 1);
                        assert(edges@ + rest + shutdown_edges(arms@, i + 1) =~= before + (seq![e]
                            + rest) + shutdown_edges(arms@, i + 1));
                    }
                }
                t = t + 1;
            }
            proof {
                assert(shutdown_edges_of(arms@, i as int, t as int) =~= Seq::<Edge>::empty());
                assert(edges@ + Seq::<Edge>::empty() =~= edges@);
                assert(shutdown_edges(arms@, i as int) == shutdown_edges_of(arms@, i as int, 0)
                    + shutdown_edges(arms@, i + 1));
                assert(edges@ + shutdown_edges(arms@, i + 1) =~= edges@ + Seq::<Edge>::empty()
                    + shutdown_edges(arms@, i + 1));
            }
        }
        i = i + 1;
    }
    assert(shutdown_edges(arms@, n as int) =~= Seq::<Edge>::empty());
    assert(edges@ + Seq::<Edge>::empty() =~= edges@);
}

/// Appends the relations placing every other arm before last arm `f`.
pub(crate) fn push_last_edges(arms: &Vec<SourceArm>, f: usize, edges: &mut Vec<Edge>)
    requires
        f < arms@.len(),
        edges_within(old(edges)@, arms@.len() as nat),
    ensures
        final(edges)@ == old(edges)@ + last_edges(arms@, f as int, 0),
        edges_within(final(edges)@, arms@.len() as nat),
{
    let ghost start = edges@;
    let n = arms.len();
    let mut i: usize = 0;
    while i < n
        invariant
            n == arms@.len(),
            f < n,
            i <= n,
            edges_within(edges@, n as nat),
            edges@ + last_edges(arms@, f as int, i as int) == start + last_edges(arms@, f as int, 0),
        decreases n - i,
    {
        if i != f {
            let e = Edge { from: i, to: f, reason: EdgeReason::Last { arm: f } };
            let ghost before = edges@;
            edges.push(e);
            proof {
                let rest = last_edges(arms@, f as int, i + 1);
                assert(edges@ + rest =~= before + (seq![e] + rest));
            }
        }
        i = i + 1;
    }
    assert(last_edges(arms@, f as int, n as int) =~= Seq::<Edge>::empty());
    assert(edges@ + Seq::<Edge>::empty() =~= edges@);
}

/// Appends the buffered-yield relations, in arm order.
pub fn push_yield_edges(arms: &Vec<SourceArm>, edges: &mut Vec<Edge>)
    requires
        yield_targets_known(arms@),
        edges_within(old(edges)@, arms@.len() as nat),
    ensures
        final(edges)@ == old(edges)@ + yield_edges(arms@, 0),
        edges_within(final(edges)@, arms@.len() as nat),
{
    let ghost start = edges@;
    let n = arms.len();
    let mut i: usize = 0;
    while i < n
        invariant
            n == arms@.len(),
            i <= n,
            yield_targets_known(arms@),
            edges_within(edges@, n as nat),
            edges@ + yield_edges(arms@, i as int) == start + yield_edges(arms@, 0),
        decreases n - i,
    {
        match &arms[i].yields_to {
            Some(target) => {
                assert(known_id(arms@, target@));
                let to = find_id(arms, target.as_str()).unwrap();
                let e = Edge { from: i, to, reason: EdgeReason::BufferedYield };
                proof {
                    let rest = yield_edges(arms@, i + 1);
                    assert(yield_edges(arms@, i as int) == seq![e] + rest);
                    lemma_push_then_concat(edges@, e, rest);
                    lemma_within_push(edges@, e, n as nat);
                }
                edges.push(e);
            },
            None => {},
        }
        i = i + 1;
    }
    assert(yield_edges(arms@, n as int) =~= Seq::<Edge>::empty());
    assert(edges@ + Seq::<Edge>::empty() =~= edges@);
}

/// The first relation that lexical order contradicts.
pub fn lexical_refusal(edges: &Vec<Edge>) -> (v: Option<Violation>)
    ensures
        v matches Some(x) ==> !(x is Cycle),
        v == lexical_verdict(edges@, 0),
{
    let mut k: usize = 0;
    while k < edges.len()
        invariant
            k <= edges@.len(),
            lexical_verdict(edges@, k as int) == lexical_verdict(edges@, 0),
        decreases edges@.len() - k,
    {
        if edges[k].from >= edges[k].to {
            return Some(Violation::LexicalOrder { edge: edges[k] });
        }
        k = k + 1;
    }
    None
}

fn starves_exec(arms: &Vec<SourceArm>, d: usize, v: usize) -> (r: bool)
    requires
        d < arms@.len(),
        v < arms@.len(),
    ensures
        r == starves(arms@, d as int, v as int),
{
    if arms[d].readiness != ReadinessKind::MayRemainReady {
        return false;
    }
    match &arms[d].yields_to {
        Some(t) => !same_text(t.as_str(), arms[v].id.as_str()),
        None => true,
    }
}

/// The first may-remain-ready source that can starve a later protected one.
pub fn starvation_refusal(arms: &Vec<SourceArm>) -> (r: Option<Violation>)
    ensures
        r matches Some(x) ==> !(x is Cycle),
        r == starvation_verdict(arms@, 0),
{
    let n = arms.len();
    let mut v: usize = 0;
    while v < n
        invariant
            n == arms@.len(),
            v <= n,
            starvation_verdict(arms@, v as int) == starvation_verdict(arms@, 0),
        decreases n - v,
    {
        if !arms[v].starvation_waived {
            let mut d: usize = 0;
            while d < v
                invariant
                    n == arms@.len(),
                    d <= v < n,
                    !arms@[v as int].starvation_waived,
                    starvation_verdict(arms@, v as int) == starvation_verdict(arms@, 0),
                    forall|e: int| 0 <= e < d ==> !starves(arms@, e, v as int),
                decreases v - d,
            {
                if starves_exec(arms, d, v) {
                    proof {
                        let c = choose|q: int|
                            0 <= q < v && starves(arms@, q, v as int) && forall|e: int|
                                0 <= e < q ==> !starves(arms@, e, v as int);
                        assert(0 <= d < v && starves(arms@, d as int, v as int) && forall|e: int|
                            0 <= e < d ==> !starves(arms@, e, v as int));
                        assert(c == d as int) by {
                            if c < d {
                            } else if d < c {
                            }
                        }
                    }
                    return Some(Violation::Starvation { dominant: d, victim: v });
                }
                d = d + 1;
            }
        }
        v = v + 1;
    }
    None
}

} // verus!
