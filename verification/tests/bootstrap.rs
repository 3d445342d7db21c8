use kuku::json::JsonValue;
use kuku::paths::workspace_from_project_home;
use kuku::prompt::{build_current_input_frame, MessageBlock};
use kuku::skill::bootstrap::{bootstrap_loaded_names, restore_bootstrap_skill, BootstrapSkill, TurnSkillSnapshot};
use kuku::skill::definition::{SkillDefinition, SkillSource};
use kuku::skill::registry::SkillRegistry;

fn skill(name: &str, instructions: &str) -> SkillDefinition {
    SkillDefinition {
        name: name.into(),
        description: format!("{name} description"),
        instructions: instructions.into(),
        source: SkillSource::KukuProject,
        hash: String::new(),
        source_path: Some(format!("/skills/{name}")),
        allowed_tools: None,
        disallowed_tools: None,
        max_turns: None,
        model: None,
        license: None,
        compatibility: None,
        metadata: JsonValue::Null,
    }
}

fn snapshot(loaded: &[&str]) -> TurnSkillSnapshot {
    TurnSkillSnapshot {
        conversation: "main".into(),
        registry: SkillRegistry::builder()
            .with_definition(skill("resume-skill", "resume description body"))
            .with_definition(skill("other", "other body"))
            .build(),
        bootstrap_loaded: loaded.iter().map(|s| s.to_string()).collect(),
    }
}

#[test]
fn bootstrap_skill_is_restored_from_the_snapshot() {
    let restored = restore_bootstrap_skill(&snapshot(&["resume-skill"])).unwrap();
    assert_eq!(restored.name.as_deref(), Some("resume-skill"));
    assert_eq!(restored.body, "<!-- loaded: /skills/resume-skill -->\n\nresume description body");
}

#[test]
fn several_bootstrap_skills_are_joined_without_a_name() {
    let restored = restore_bootstrap_skill(&snapshot(&["other", "resume-skill"])).unwrap();
    assert_eq!(restored.name, None);
    assert_eq!(
        restored.body,
        "<!-- loaded: /skills/other -->\n\nother body\n\n<!-- loaded: /skills/resume-skill -->\n\nresume description body"
    );
}

#[test]
fn missing_or_absent_bootstrap_skills_restore_nothing() {
    assert!(restore_bootstrap_skill(&snapshot(&[])).is_none());
    assert!(restore_bootstrap_skill(&snapshot(&["resume-skill", "gone"])).is_none());
}

#[test]
fn bootstrap_names_come_from_a_named_skill_only() {
    let named = BootstrapSkill { name: Some("tdd".into()), body: "b".into() };
    let unnamed = BootstrapSkill { name: None, body: "b".into() };
    assert_eq!(bootstrap_loaded_names(Some(&named)), vec!["tdd".to_string()]);
    assert!(bootstrap_loaded_names(Some(&unnamed)).is_empty());
    assert!(bootstrap_loaded_names(None).is_empty());
}

#[test]
fn workspace_is_recovered_from_its_project_home() {
    assert_eq!(workspace_from_project_home("/h/p", "/h/p/code/kuku/example"), "/code/kuku/example");
    assert_eq!(workspace_from_project_home("/h/p", "/h/p"), "/");
    assert_eq!(workspace_from_project_home("/elsewhere", "/h/p/x"), "/h/p/x");
    let home = kuku::paths::project_home("/tmp/kuku-home", "/code/./kuku//example").unwrap();
    assert_eq!(workspace_from_project_home("/tmp/kuku-home/p", &home), "/code/kuku/example");
}

#[test]
fn input_frame_wraps_the_prompt() {
    let framed = build_current_input_frame(None, "hello");
    assert_eq!(
        framed.blocks,
        vec![MessageBlock::Text(
            "<kuku_turn_frame>\n<runtime.notices></runtime.notices>\n<conversation.inbox></conversation.inbox>\n\
<input.message>hello</input.message>\n<attachments></attachments>\n</kuku_turn_frame>"
                .to_string()
        )]
    );
    let with_prefix = build_current_input_frame(Some("ctx".into()), "hi");
    assert_eq!(
        with_prefix.blocks,
        vec![MessageBlock::Text(
            "<kuku_turn_frame>\nctx\n<input.message>hi</input.message>\n<attachments></attachments>\n</kuku_turn_frame>"
                .to_string()
        )]
    );
}
