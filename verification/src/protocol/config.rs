//! The patchable session configuration: the logged, replayable half of
//! configuration. Precedence is defaults < file < accepted patch, last-wins
//! per leaf; every accepted patch becomes a log record.

use vstd::prelude::*;

use crate::protocol::budgets::{default_budgets, Budgets};
use crate::protocol::ordered_map::{lookup, merged, OrderedMap};
use crate::protocol::policy::{ApprovalPolicy, SandboxPolicy};

verus! {

/// Live-window compaction thresholds as percentages of the context window.
#[derive(Clone, Copy, Debug, PartialEq, Eq, Structural)]
pub struct CompactionThresholds {
    /// Background prefire summarization starts here.
    pub prefire_percent: u8,
    /// The hard compaction trigger.
    pub hard_percent: u8,
}

impl Default for CompactionThresholds {
    fn default() -> (r: Self)
        ensures
            r.prefire_percent == 75,
            r.hard_percent == 85,
    {
        CompactionThresholds { prefire_percent: 75, hard_percent: 85 }
    }
}

/// Doom-loop stationarity guard thresholds.
#[derive(Clone, Copy, Debug, PartialEq, Eq, Structural)]
pub struct StationarityThresholds {
    /// Identical consecutive tool calls before the guard fires.
    pub identical_calls: u16,
    /// Identical consecutive no-op calls before the guard fires.
    pub identical_noops: u16,
}

impl Default for StationarityThresholds {
    fn default() -> (r: Self)
        ensures
            r.identical_calls == 16,
            r.identical_noops == 4,
    {
        StationarityThresholds { identical_calls: 16, identical_noops: 4 }
    }
}

/// Driver queue bounds; capacity law lives in the driver.
#[derive(Clone, Copy, Debug, PartialEq, Eq, Structural)]
pub struct QueueBounds {
    /// Model output delta queue depth.
    pub model_deltas: u16,
    /// Effect progress queue depth.
    pub effect_progress: u16,
    /// Interjection queue depth.
    pub interjections: u16,
    /// Maximum concurrently running effects.
    pub max_active_effects: u16,
}

impl Default for QueueBounds {
    fn default() -> (r: Self)
        ensures
            r.model_deltas == 256,
            r.effect_progress == 128,
            r.interjections == 16,
            r.max_active_effects == 16,
    {
        QueueBounds { model_deltas: 256, effect_progress: 128, interjections: 16, max_active_effects: 16 }
    }
}

/// The full patchable session configuration.
#[derive(Debug, PartialEq, Eq)]
pub struct SessionConfig {
    /// Compaction scheduling thresholds.
    pub compaction: CompactionThresholds,
    /// Stationarity guard thresholds.
    pub stationarity: StationarityThresholds,
    /// Declared budget limits.
    pub budgets: Budgets,
    /// Driver queue bounds.
    pub queues: QueueBounds,
    /// Prompt-pack overrides keyed by template id.
    pub prompt_overrides: OrderedMap<String>,
    /// Symbolic root-model profile id, resolved by bootstrap config.
    pub model_root: String,
    /// Symbolic sub-model profile id, resolved by bootstrap config.
    pub model_sub: String,
    /// Per-tool approval defaults keyed by tool name.
    pub approval_defaults: OrderedMap<ApprovalPolicy>,
    /// Default sandbox policy; a per-turn op-supplied policy overrides it.
    pub sandbox_default: Option<SandboxPolicy>,
}

impl SessionConfig {
    /// Both keyed tables are sorted maps.
    pub open spec fn wf(&self) -> bool {
        self.prompt_overrides.wf() && self.approval_defaults.wf()
    }
}

impl Default for SessionConfig {
    fn default() -> (r: Self)
        ensures
            r.wf(),
            r.compaction.prefire_percent == 75,
            r.compaction.hard_percent == 85,
            r.stationarity.identical_calls == 16,
            r.stationarity.identical_noops == 4,
            r.budgets == default_budgets(),
            r.queues.model_deltas == 256,
            r.queues.effect_progress == 128,
            r.queues.interjections == 16,
            r.queues.max_active_effects == 16,
            r.prompt_overrides@.len() == 0,
            r.model_root@.len() == 0,
            r.model_sub@.len() == 0,
            r.approval_defaults@.len() == 0,
            r.sandbox_default is None,
    {
        SessionConfig {
            compaction: CompactionThresholds::default(),
            stationarity: StationarityThresholds::default(),
            budgets: Budgets::default(),
            queues: QueueBounds::default(),
            prompt_overrides: OrderedMap::new(),
            model_root: String::new(),
            model_sub: String::new(),
            approval_defaults: OrderedMap::new(),
            sandbox_default: None,
        }
    }
}

/// A partial update to [`SessionConfig`]; `None` leaves a leaf untouched.
#[derive(Debug, PartialEq, Eq)]
pub struct SessionConfigPatch {
    /// Replace compaction thresholds.
    pub compaction: Option<CompactionThresholds>,
    /// Replace stationarity thresholds.
    pub stationarity: Option<StationarityThresholds>,
    /// Replace the budget set.
    pub budgets: Option<Budgets>,
    /// Replace queue bounds.
    pub queues: Option<QueueBounds>,
    /// Merge prompt overrides (per-key last-wins).
    pub prompt_overrides: Option<OrderedMap<String>>,
    /// Replace the root-model profile id.
    pub model_root: Option<String>,
    /// Replace the sub-model profile id.
    pub model_sub: Option<String>,
    /// Merge approval defaults (per-key last-wins).
    pub approval_defaults: Option<OrderedMap<ApprovalPolicy>>,
    /// Replace the default sandbox policy.
    pub sandbox_default: Option<SandboxPolicy>,
}

impl SessionConfigPatch {
    /// Map-valued leaves, when present, are sorted maps.
    pub open spec fn wf(&self) -> bool {
        &&& (self.prompt_overrides matches Some(m) ==> m.wf())
        &&& (self.approval_defaults matches Some(m) ==> m.wf())
    }
}

impl Default for SessionConfigPatch {
    fn default() -> (r: Self)
        ensures
            r.wf(),
            r.compaction is None,
            r.stationarity is None,
            r.budgets is None,
            r.queues is None,
            r.prompt_overrides is None,
            r.model_root is None,
            r.model_sub is None,
            r.approval_defaults is None,
            r.sandbox_default is None,
    {
        SessionConfigPatch {
            compaction: None,
            stationarity: None,
            budgets: None,
            queues: None,
            prompt_overrides: None,
            model_root: None,
            model_sub: None,
            approval_defaults: None,
            sandbox_default: None,
        }
    }
}

fn clone_string_map(m: &OrderedMap<String>) -> (r: OrderedMap<String>)
    ensures
        r@ == m@,
        r.wf() == m.wf(),
{
    let r = m.clone();
    assert forall|i: int| 0 <= i < r@.len() implies r@[i] == m@[i] by {
        assert(cloned::<String>(m@[i].1, r@[i].1));
    }
    assert(r@ =~= m@);
    r
}

fn clone_policy_map(m: &OrderedMap<ApprovalPolicy>) -> (r: OrderedMap<ApprovalPolicy>)
    ensures
        r@ == m@,
        r.wf() == m.wf(),
{
    let r = m.clone();
    assert forall|i: int| 0 <= i < r@.len() implies r@[i] == m@[i] by {
        assert(cloned::<ApprovalPolicy>(m@[i].1, r@[i].1));
    }
    assert(r@ =~= m@);
    r
}

impl SessionConfigPatch {
    /// Equal leaves, with maps and policies compared by content.
    pub open spec fn same_as(self, other: Self) -> bool {
        &&& self.compaction == other.compaction
        &&& self.stationarity == other.stationarity
        &&& self.budgets == other.budgets
        &&& self.queues == other.queues
        &&& match (self.prompt_overrides, other.prompt_overrides) {
            (Some(a), Some(b)) => a@ == b@ && a.wf() == b.wf(),
            (None, None) => true,
            _ => false,
        }
        &&& self.model_root == other.model_root
        &&& self.model_sub == other.model_sub
        &&& match (self.approval_defaults, other.approval_defaults) {
            (Some(a), Some(b)) => a@ == b@ && a.wf() == b.wf(),
            (None, None) => true,
            _ => false,
        }
        &&& match (self.sandbox_default, other.sandbox_default) {
            (Some(a), Some(b)) => a.same_as(b),
            (None, None) => true,
            _ => false,
        }
    }
}

impl Clone for SessionConfigPatch {
    fn clone(&self) -> (res: Self)
        ensures
            res.same_as(*self),
    {
        let prompt_overrides = match &self.prompt_overrides {
            Some(m) => Some(clone_string_map(m)),
            None => None,
        };
        let approval_defaults = match &self.approval_defaults {
            Some(m) => Some(clone_policy_map(m)),
            None => None,
        };
        let res = SessionConfigPatch {
            compaction: self.compaction,
            stationarity: self.stationarity,
            budgets: self.budgets,
            queues: self.queues,
            prompt_overrides,
            model_root: self.model_root.clone(),
            model_sub: self.model_sub.clone(),
            approval_defaults,
            sandbox_default: match &self.sandbox_default {
                Some(p) => Some(p.clone()),
                None => None,
            },
        };
        res
    }
}

impl SessionConfig {
    /// Equal leaves, with maps and policies compared by content.
    pub open spec fn same_as(self, other: Self) -> bool {
        &&& self.compaction == other.compaction
        &&& self.stationarity == other.stationarity
        &&& self.budgets == other.budgets
        &&& self.queues == other.queues
        &&& self.prompt_overrides@ == other.prompt_overrides@
        &&& self.prompt_overrides.wf() == other.prompt_overrides.wf()
        &&& self.model_root == other.model_root
        &&& self.model_sub == other.model_sub
        &&& self.approval_defaults@ == other.approval_defaults@
        &&& self.approval_defaults.wf() == other.approval_defaults.wf()
        &&& match (self.sandbox_default, other.sandbox_default) {
            (Some(a), Some(b)) => a.same_as(b),
            (None, None) => true,
            _ => false,
        }
    }
}

impl Clone for SessionConfig {
    fn clone(&self) -> (res: Self)
        ensures
            res.same_as(*self),
    {
        SessionConfig {
            compaction: self.compaction,
            stationarity: self.stationarity,
            budgets: self.budgets,
            queues: self.queues,
            prompt_overrides: clone_string_map(&self.prompt_overrides),
            model_root: self.model_root.clone(),
            model_sub: self.model_sub.clone(),
            approval_defaults: clone_policy_map(&self.approval_defaults),
            sandbox_default: match &self.sandbox_default {
                Some(p) => Some(p.clone()),
                None => None,
            },
        }
    }
}

/// A scalar leaf after a patch: the patch value when present, else the old one.
pub open spec fn patched<T>(old_value: T, patch: Option<T>) -> T {
    match patch {
        Some(v) => v,
        None => old_value,
    }
}

/// `after` is `before` with `patch` applied: each scalar leaf the patch
/// carries replaces the old one, and each map-valued leaf it carries is
/// merged in per key, the patch winning.
pub open spec fn config_applied(
    before: SessionConfig,
    after: SessionConfig,
    patch: SessionConfigPatch,
) -> bool {
    &&& after.compaction == patched(before.compaction, patch.compaction)
    &&& after.stationarity == patched(before.stationarity, patch.stationarity)
    &&& after.budgets == patched(before.budgets, patch.budgets)
    &&& after.queues == patched(before.queues, patch.queues)
    &&& after.model_root == patched(before.model_root, patch.model_root)
    &&& after.model_sub == patched(before.model_sub, patch.model_sub)
    &&& after.sandbox_default == match patch.sandbox_default {
        Some(v) => Some(v),
        None => before.sandbox_default,
    }
    &&& forall|k: Seq<char>|
        lookup(after.prompt_overrides@, k) == match patch.prompt_overrides {
            Some(m) => merged(before.prompt_overrides@, m@, k),
            None => lookup(before.prompt_overrides@, k),
        }
    &&& forall|k: Seq<char>|
        lookup(after.approval_defaults@, k) == match patch.approval_defaults {
            Some(m) => merged(before.approval_defaults@, m@, k),
            None => lookup(before.approval_defaults@, k),
        }
}

/// Two configurations agree on every leaf, map-valued leaves compared by
/// what each key looks up.
pub open spec fn same_leaves(a: SessionConfig, b: SessionConfig) -> bool {
    &&& a.compaction == b.compaction
    &&& a.stationarity == b.stationarity
    &&& a.budgets == b.budgets
    &&& a.queues == b.queues
    &&& a.model_root == b.model_root
    &&& a.model_sub == b.model_sub
    &&& a.sandbox_default == b.sandbox_default
    &&& forall|k: Seq<char>| lookup(a.prompt_overrides@, k) == lookup(b.prompt_overrides@, k)
    &&& forall|k: Seq<char>| lookup(a.approval_defaults@, k) == lookup(b.approval_defaults@, k)
}

/// A patch that carries no leaf.
pub open spec fn patch_is_empty(p: SessionConfigPatch) -> bool {
    &&& p.compaction is None
    &&& p.stationarity is None
    &&& p.budgets is None
    &&& p.queues is None
    &&& p.prompt_overrides is None
    &&& p.model_root is None
    &&& p.model_sub is None
    &&& p.approval_defaults is None
    &&& p.sandbox_default is None
}

/// Applying a patch that carries no leaf changes no leaf.
pub proof fn lemma_empty_patch_changes_nothing(
    before: SessionConfig,
    after: SessionConfig,
    patch: SessionConfigPatch,
)
    requires
        config_applied(before, after, patch),
        patch_is_empty(patch),
    ensures
        same_leaves(after, before),
{
}

/// Applying the same patch a second time changes no leaf: patches are
/// idempotent.
pub proof fn lemma_patch_idempotent(
    c0: SessionConfig,
    c1: SessionConfig,
    c2: SessionConfig,
    patch: SessionConfigPatch,
)
    requires
        config_applied(c0, c1, patch),
        config_applied(c1, c2, patch),
    ensures
        same_leaves(c2, c1),
{
    assert forall|k: Seq<char>| lookup(c2.prompt_overrides@, k) == lookup(c1.prompt_overrides@, k) by {
        assert(lookup(c1.prompt_overrides@, k) == match patch.prompt_overrides {
            Some(m) => merged(c0.prompt_overrides@, m@, k),
            None => lookup(c0.prompt_overrides@, k),
        });
    }
    assert forall|k: Seq<char>| lookup(c2.approval_defaults@, k) == lookup(c1.approval_defaults@, k) by {
        assert(lookup(c1.approval_defaults@, k) == match patch.approval_defaults {
            Some(m) => merged(c0.approval_defaults@, m@, k),
            None => lookup(c0.approval_defaults@, k),
        });
    }
}

impl SessionConfig {
    /// Applies a patch, last-wins per leaf; map-valued leaves merge per key.
    pub fn apply(&mut self, patch: SessionConfigPatch)
        requires
            old(self).wf(),
            patch.wf(),
        ensures
            final(self).wf(),
            config_applied(*old(self), *final(self), patch),
            final(self).compaction == patched(old(self).compaction, patch.compaction),
            final(self).stationarity == patched(old(self).stationarity, patch.stationarity),
            final(self).budgets == patched(old(self).budgets, patch.budgets),
            final(self).queues == patched(old(self).queues, patch.queues),
            final(self).model_root == patched(old(self).model_root, patch.model_root),
            final(self).model_sub == patched(old(self).model_sub, patch.model_sub),
            final(self).sandbox_default == match patch.sandbox_default {
                Some(v) => Some(v),
                None => old(self).sandbox_default,
            },
            forall|k: Seq<char>|
                lookup(final(self).prompt_overrides@, k) == match patch.prompt_overrides {
                    Some(m) => merged(old(self).prompt_overrides@, m@, k),
                    None => lookup(old(self).prompt_overrides@, k),
                },
            forall|k: Seq<char>|
                lookup(final(self).approval_defaults@, k) == match patch.approval_defaults {
                    Some(m) => merged(old(self).approval_defaults@, m@, k),
                    None => lookup(old(self).approval_defaults@, k),
                },
    {
        let SessionConfigPatch {
            compaction,
            stationarity,
            budgets,
            queues,
            prompt_overrides,
            model_root,
            model_sub,
            approval_defaults,
            sandbox_default,
        } = patch;
        if let Some(v) = compaction {
            self.compaction = v;
        }
        if let Some(v) = stationarity {
            self.stationarity = v;
        }
        if let Some(v) = budgets {
            self.budgets = v;
        }
        if let Some(v) = queues {
            self.queues = v;
        }
        if let Some(v) = prompt_overrides {
            self.prompt_overrides.merge(v);
        }
        if let Some(v) = model_root {
            self.model_root = v;
        }
        if let Some(v) = model_sub {
            self.model_sub = v;
        }
        if let Some(v) = approval_defaults {
            self.approval_defaults.merge(v);
        }
        if let Some(v) = sandbox_default {
            self.sandbox_default = Some(v);
        }
    }
}

} // verus!
