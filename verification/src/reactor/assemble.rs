//! Assembling a reactor declaration from its items: the expression opens
//! with `policy { ... }`; then each item is either an attributed source arm
//! or a phase block (`initialize`, `before_poll`, `after_event`), each phase
//! at most once. The first fault, in item order, refuses the declaration.

use vstd::prelude::*;

use crate::reactor::syntax::{
    arm_verdict_of, claim_phase, decode_arm, decoded_as, parse_policy, policy_from, ArmFault,
    AttrInput, PhaseFault, PolicyFault, Tok,
};
use crate::reactor::{PhaseName, ReactorDecl};

verus! {

/// One item after the policy block.
pub enum DeclItem {
    /// An attributed source arm: its attributes, whether its binding is a
    /// plain pattern, whether its place is persistent, and the place's
    /// text.
    Arm {
        /// The attributes in order.
        attrs: Vec<AttrInput>,
        /// The binding is accepted.
        binding_ok: bool,
        /// The place expression is persistent.
        persistent_place: bool,
        /// The place expression's text.
        place: String,
    },
    /// An identifier that does not start an arm, and whether a block
    /// follows it.
    Phase {
        /// The identifier.
        name: String,
        /// A block follows.
        has_block: bool,
    },
}

/// Why an item was refused.
#[derive(Clone, Copy, Debug, PartialEq, Eq, Structural)]
pub enum ItemFault {
    /// The arm's own refusal.
    Arm(ArmFault),
    /// An identifier without a block after it (`KTR000`).
    ExpectedBlock,
    /// The phase name is unknown or repeated.
    Phase(PhaseFault),
}

/// Why a reactor declaration could not be assembled.
#[derive(Debug, PartialEq, Eq)]
pub enum DeclFault {
    /// The expression does not begin with `policy` (`KTR000`).
    MissingPolicy,
    /// The policy block's refusal.
    Policy(PolicyFault),
    /// The refusal of item `item`.
    Item {
        /// The item's index.
        item: usize,
        /// Why.
        fault: ItemFault,
    },
}

/// The slot of phase `name`: 0, 1 or 2, or -1 when it names no phase.
pub open spec fn phase_slot(name: Seq<char>) -> int {
    if name == "initialize"@ {
        0
    } else if name == "before_poll"@ {
        1
    } else if name == "after_event"@ {
        2
    } else {
        -1
    }
}

/// The phases taken after items `k..`, starting from `taken`, or the first
/// refused item with its fault.
pub open spec fn items_from(items: Seq<DeclItem>, k: int, taken: Seq<bool>) -> Result<
    Seq<bool>,
    (int, ItemFault),
>
    decreases items.len() - k,
{
    if k < 0 || k >= items.len() {
        Ok(taken)
    } else {
        match items[k] {
            DeclItem::Arm { attrs, binding_ok, .. } => match arm_verdict_of(attrs@, binding_ok) {
                Err(f) => Err((k, ItemFault::Arm(f))),
                Ok(_) => items_from(items, k + 1, taken),
            },
            DeclItem::Phase { name, has_block } => {
                let s = phase_slot(name@);
                if !has_block {
                    Err((k, ItemFault::ExpectedBlock))
                } else if s < 0 {
                    Err((k, ItemFault::Phase(PhaseFault::Unknown)))
                } else if taken[s] {
                    Err((k, ItemFault::Phase(PhaseFault::Repeated)))
                } else {
                    items_from(items, k + 1, taken.update(s, true))
                }
            },
        }
    }
}

/// The arm items, in order.
pub open spec fn arm_items(items: Seq<DeclItem>) -> Seq<DeclItem>
    decreases items.len(),
{
    if items.len() == 0 {
        Seq::empty()
    } else if items.last() is Arm {
        arm_items(items.drop_last()).push(items.last())
    } else {
        arm_items(items.drop_last())
    }
}

/// `arm` is what the arm item `item` declares.
pub open spec fn arm_of_item(arm: crate::reactor::SourceArm, item: DeclItem) -> bool {
    match item {
        DeclItem::Arm { attrs, binding_ok, persistent_place, place } => arm_verdict_of(
            attrs@,
            binding_ok,
        ) matches Ok(st) && decoded_as(arm, st, persistent_place, place@),
        _ => false,
    }
}

proof fn lemma_items_step(items: Seq<DeclItem>, k: int, taken: Seq<bool>)
    requires
        0 <= k < items.len(),
    ensures
        items.take(k + 1).drop_last() == items.take(k),
        items.take(k + 1).last() == items[k],
        arm_items(items.take(k + 1)) == if items[k] is Arm {
            arm_items(items.take(k)).push(items[k])
        } else {
            arm_items(items.take(k))
        },
{
    assert(items.take(k + 1).drop_last() =~= items.take(k));
}

/// Assembles a declaration: `head` is the leading identifier, `policy` the
/// tokens of the policy block, `items` what follows it.
pub fn assemble_reactor(head: &str, policy: &Vec<Tok>, items: &Vec<DeclItem>) -> (r: Result<
    ReactorDecl,
    DeclFault,
>)
    ensures
        head@ != "policy"@ ==> r == Err::<ReactorDecl, DeclFault>(DeclFault::MissingPolicy),
        head@ == "policy"@ ==> match policy_from(policy@, 0, false, None) {
            Err(e) => r matches Err(DeclFault::Policy(f)) && f@ == e,
            Ok(list) => match items_from(items@, 0, seq![false, false, false]) {
                Err((k, f)) => r == Err::<ReactorDecl, DeclFault>(
                    DeclFault::Item { item: k as usize, fault: f },
                ),
                Ok(taken) => r matches Ok(d) && d.required_phases@.map_values(|s: String| s@)
                    == list && d.initialize == taken[0] && d.before_poll == taken[1]
                    && d.after_event == taken[2] && d.arms@.len() == arm_items(items@).len()
                    && forall|j: int|
                    0 <= j < d.arms@.len() ==> arm_of_item(
                        #[trigger] d.arms@[j],
                        arm_items(items@)[j],
                    ),
            },
        },
{
    proof {
        reveal_strlit("policy");
        reveal_strlit("initialize");
        reveal_strlit("before_poll");
        reveal_strlit("after_event");
    }
    if !crate::text::same_text(head, "policy") {
        return Err(DeclFault::MissingPolicy);
    }
    let required_phases = match parse_policy(policy) {
        Ok(v) => v,
        Err(f) => {
            return Err(DeclFault::Policy(f));
        },
    };
    let mut t0 = false;
    let mut t1 = false;
    let mut t2 = false;
    let mut arms: Vec<crate::reactor::SourceArm> = Vec::new();
    let mut k: usize = 0;
    assert(items@.take(0) =~= Seq::<DeclItem>::empty());
    while k < items.len()
        invariant
            k <= items@.len(),
            head@ == "policy"@,
            policy_from(policy@, 0, false, None) matches Ok(list) && required_phases@.map_values(
                |s: String| s@,
            ) == list,
            items_from(items@, 0, seq![false, false, false]) == items_from(
                items@,
                k as int,
                seq![t0, t1, t2],
            ),
            arms@.len() == arm_items(items@.take(k as int)).len(),
            forall|j: int|
                0 <= j < arms@.len() ==> arm_of_item(
                    #[trigger] arms@[j],
                    arm_items(items@.take(k as int))[j],
                ),
        decreases items@.len() - k,
    {
        proof {
            lemma_items_step(items@, k as int, seq![t0, t1, t2]);
        }
        match &items[k] {
            DeclItem::Arm { attrs, binding_ok, persistent_place, place } => {
                match decode_arm(attrs, *binding_ok, *persistent_place, place.clone()) {
                    Ok(arm) => {
                        let ghost before = arms@;
                        arms.push(arm);
                        proof {
                            assert forall|j: int| 0 <= j < arms@.len() implies arm_of_item(
                                #[trigger] arms@[j],
                                arm_items(items@.take(k + 1))[j],
                            ) by {
                                if j < before.len() {
                                    assert(arms@[j] == before[j]);
                                }
                            }
                        }
                    },
                    Err(f) => {
                        return Err(DeclFault::Item { item: k, fault: ItemFault::Arm(f) });
                    },
                }
            },
            DeclItem::Phase { name, has_block } => {
                if !*has_block {
                    return Err(DeclFault::Item { item: k, fault: ItemFault::ExpectedBlock });
                }
                let taken = [t0, t1, t2];
                match claim_phase(name.as_str(), &taken) {
                    Ok(PhaseName::Initialize) => {
                        t0 = true;
                    },
                    Ok(PhaseName::BeforePoll) => {
                        t1 = true;
                    },
                    Ok(PhaseName::AfterEvent) => {
                        t2 = true;
                    },
                    Err(f) => {
                        return Err(DeclFault::Item { item: k, fault: ItemFault::Phase(f) });
                    },
                }
                proof {
                    assert(seq![t0, t1, t2] =~= seq![taken[0], taken[1], taken[2]].update(
                        phase_slot(name@),
                        true,
                    ));
                }
            },
        }
        k = k + 1;
    }
    assert(items@.take(items@.len() as int) =~= items@);
    Ok(
        ReactorDecl {
            required_phases,
            initialize: t0,
            before_poll: t1,
            after_event: t2,
            arms,
        },
    )
}

} // verus!
