use kittens_code::protocol::budgets::Budgets;
use kittens_code::protocol::config::{
    CompactionThresholds, QueueBounds, SessionConfig, SessionConfigPatch, StationarityThresholds,
};
use kittens_code::protocol::ordered_map::OrderedMap;
use kittens_code::protocol::policy::{ApprovalPolicy, SandboxPolicy};

#[test]
fn defaults_are_explicit_and_an_empty_patch_changes_nothing() {
    assert_eq!(
        CompactionThresholds::default(),
        CompactionThresholds {
            prefire_percent: 75,
            hard_percent: 85,
        }
    );
    assert_eq!(
        StationarityThresholds::default(),
        StationarityThresholds {
            identical_calls: 16,
            identical_noops: 4,
        }
    );
    assert_eq!(
        QueueBounds::default(),
        QueueBounds {
            model_deltas: 256,
            effect_progress: 128,
            interjections: 16,
            max_active_effects: 16,
        }
    );

    let mut config = SessionConfig::default();
    let before = config.clone();
    config.apply(SessionConfigPatch::default());
    assert_eq!(config, before);
}

#[test]
fn patch_replaces_every_scalar_leaf_and_merges_maps_last_wins() {
    let mut config = SessionConfig::default();
    config
        .prompt_overrides
        .insert(String::from("keep"), String::from("old"));
    config
        .prompt_overrides
        .insert(String::from("replace"), String::from("old"));
    config
        .approval_defaults
        .insert(String::from("keep"), ApprovalPolicy::Auto);
    config
        .approval_defaults
        .insert(String::from("replace"), ApprovalPolicy::Deny);

    let mut prompt_overrides = OrderedMap::new();
    prompt_overrides.insert(String::from("replace"), String::from("new"));
    prompt_overrides.insert(String::from("add"), String::from("value"));
    let mut approval_defaults = OrderedMap::new();
    approval_defaults.insert(String::from("replace"), ApprovalPolicy::Ask);
    approval_defaults.insert(String::from("add"), ApprovalPolicy::Deny);
    let budgets = Budgets {
        ask_tokens: 99,
        ..Budgets::default()
    };
    let compaction = CompactionThresholds {
        prefire_percent: 55,
        hard_percent: 70,
    };
    let stationarity = StationarityThresholds {
        identical_calls: 7,
        identical_noops: 3,
    };
    let queues = QueueBounds {
        model_deltas: 10,
        effect_progress: 11,
        interjections: 12,
        max_active_effects: 13,
    };
    let sandbox = SandboxPolicy::WorkspaceWrite {
        writable_roots: vec![String::from("src")],
    };

    config.apply(SessionConfigPatch {
        compaction: Some(compaction),
        stationarity: Some(stationarity),
        budgets: Some(budgets),
        queues: Some(queues),
        prompt_overrides: Some(prompt_overrides),
        model_root: Some(String::from("root-profile")),
        model_sub: Some(String::from("sub-profile")),
        approval_defaults: Some(approval_defaults),
        sandbox_default: Some(sandbox.clone()),
    });

    assert_eq!(config.compaction, compaction);
    assert_eq!(config.stationarity, stationarity);
    assert_eq!(config.budgets, budgets);
    assert_eq!(config.queues, queues);
    assert_eq!(config.prompt_overrides.get("keep").unwrap(), "old");
    assert_eq!(config.prompt_overrides.get("replace").unwrap(), "new");
    assert_eq!(config.prompt_overrides.get("add").unwrap(), "value");
    assert_eq!(config.model_root, "root-profile");
    assert_eq!(config.model_sub, "sub-profile");
    assert_eq!(*config.approval_defaults.get("keep").unwrap(), ApprovalPolicy::Auto);
    assert_eq!(*config.approval_defaults.get("replace").unwrap(), ApprovalPolicy::Ask);
    assert_eq!(*config.approval_defaults.get("add").unwrap(), ApprovalPolicy::Deny);
    assert_eq!(config.sandbox_default, Some(sandbox));
}

#[test]
fn ordered_map_keeps_keys_sorted_and_last_insert_wins() {
    let mut m = OrderedMap::new();
    m.insert(String::from("b"), 1u8);
    m.insert(String::from("a"), 2u8);
    m.insert(String::from("b"), 3u8);
    assert_eq!(m.len(), 2);
    assert_eq!(m.key_at(0), "a");
    assert_eq!(m.key_at(1), "b");
    assert_eq!(*m.get("b").unwrap(), 3);
    assert!(m.get("c").is_none());
}

#[test]
fn applying_a_patch_twice_equals_applying_it_once() {
    let mut overrides = OrderedMap::new();
    overrides.insert(String::from("k"), String::from("v"));
    let patch = SessionConfigPatch {
        model_root: Some(String::from("m")),
        prompt_overrides: Some(overrides),
        ..SessionConfigPatch::default()
    };
    let mut once = SessionConfig::default();
    once.apply(patch.clone());
    let mut twice = once.clone();
    twice.apply(patch);
    assert_eq!(twice, once);
}
