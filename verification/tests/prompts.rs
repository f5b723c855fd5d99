use kittens_code::prompts::{prompt_pack_version, resolve, TemplateId};
use kittens_code::protocol::config::SessionConfig;

#[test]
fn builtin_resolves_without_override() {
    let config = SessionConfig::default();
    assert_eq!(
        resolve(TemplateId::RlmReminder, &config),
        TemplateId::RlmReminder.builtin()
    );
}

#[test]
fn override_wins() {
    let mut config = SessionConfig::default();
    config
        .prompt_overrides
        .insert(String::from("rlm_reminder"), String::from("custom"));
    assert_eq!(resolve(TemplateId::RlmReminder, &config), "custom");
}

#[test]
fn override_of_another_template_leaves_this_one_builtin() {
    let mut config = SessionConfig::default();
    config
        .prompt_overrides
        .insert(String::from("system"), String::from("custom"));
    assert_eq!(
        resolve(TemplateId::RlmReminder, &config),
        TemplateId::RlmReminder.builtin()
    );
    assert_eq!(resolve(TemplateId::System, &config), "custom");
    assert_eq!(TemplateId::System.key(), "system");
    assert_eq!(prompt_pack_version().0, [0, 1, 0]);
}
