use kuku::digest::labelled_digest;
use kuku::json::JsonValue;
use kuku::skill::catalog::{
    pack_skill_block, render_compact_name_line, render_preview_line, render_skill_catalog,
    truncate_utf8_bytes, MAX_SKILLS_BLOCK_BYTES,
};
use kuku::skill::definition::{SkillDefinition, SkillSource};
use kuku::skill::lifecycle::{SkillLifecycle, SkillLoadFact};
use kuku::skill::session::{binding_sources_for_skills, BindingSource};
use kuku::skill::registry::{detect_skill_changes, SkillChanges, SkillRegistry};

const HINT_LIST_SKILLS: &str = "Use list_skills to browse available skills.";
const HINT_SEARCH_SKILLS: &str = "Use search_skills to find skills by task or workflow.";

fn minimal_skill(name: &str) -> SkillDefinition {
    SkillDefinition {
        name: name.into(),
        description: "Test skill".into(),
        instructions: "Do the thing.".into(),
        source: SkillSource::KukuProject,
        hash: String::new(),
        source_path: None,
        allowed_tools: None,
        disallowed_tools: None,
        max_turns: None,
        model: None,
        license: None,
        compatibility: None,
        metadata: JsonValue::Null,
    }
}

fn skill_definition(name: &str, description: &str) -> SkillDefinition {
    let mut definition = SkillDefinition {
        name: name.to_string(),
        description: description.to_string(),
        instructions: format!("{name} instructions"),
        source: SkillSource::KukuProject,
        hash: String::new(),
        source_path: Some(format!("/skills/{name}")),
        allowed_tools: None,
        disallowed_tools: None,
        max_turns: None,
        model: None,
        license: None,
        compatibility: None,
        metadata: JsonValue::Null,
    };
    definition.hash = definition.compute_hash();
    definition
}

#[test]
fn skill_source_as_str_matches_serde() {
    assert_eq!(SkillSource::KukuUser.as_str(), "kuku:user");
    assert_eq!(SkillSource::KukuProject.as_str(), "kuku:project");
    assert_eq!(SkillSource::ClaudeCodeUser.as_str(), "claude_code:user");
    assert_eq!(SkillSource::ClaudeCodeProject.as_str(), "claude_code:project");
    assert_eq!(SkillSource::OpenCodeUser.as_str(), "opencode:user");
    assert_eq!(SkillSource::OpenCodeProject.as_str(), "opencode:project");
}

#[test]
fn skill_hash_is_deterministic() {
    let def = minimal_skill("tdd");
    let hash = def.compute_hash();
    assert!(hash.starts_with("sha256:"));
    assert_eq!(hash, def.compute_hash());
}

#[test]
fn skill_hash_changes_with_content() {
    let mut def = minimal_skill("tdd");
    let h1 = def.compute_hash();
    def.instructions = "Different.".into();
    let h2 = def.compute_hash();
    assert_ne!(h1, h2);
}

#[test]
fn skill_hash_excludes_source_and_path() {
    let mut def = minimal_skill("tdd");
    let h1 = def.compute_hash();
    def.source = SkillSource::ClaudeCodeUser;
    def.source_path = Some("/some/path".into());
    assert_eq!(h1, def.compute_hash());
}

#[test]
fn skill_hash_covers_the_canonical_fields() {
    let mut def = minimal_skill("tdd");
    def.allowed_tools = Some(vec!["read".into(), "grep".into()]);
    def.max_turns = Some(12);
    def.model = Some("fast".into());
    assert_eq!(
        def.canonical(),
        "tdd|Test skill|Do the thing.|read,grep||12|fast||"
    );
    assert_eq!(def.compute_hash(), labelled_digest(def.canonical().as_bytes()));
}

#[test]
fn labelled_digest_is_the_sha256_of_the_bytes() {
    assert_eq!(
        labelled_digest(b"abc"),
        "sha256:ba7816bf8f01cfea414140de5dae2223b00361a396177a9cb410ff61f20015ad"
    );
    assert_eq!(
        labelled_digest(b""),
        "sha256:e3b0c44298fc1c149afbf4c8996fb92427ae41e4649b934ca495991b7852b855"
    );
}

#[test]
fn empty_registry() {
    let registry = SkillRegistry::builder().build();
    assert!(registry.is_empty());
    assert_eq!(registry.len(), 0);
    assert!(registry.get("anything").is_none());
}

#[test]
fn names_are_sorted() {
    let registry = SkillRegistry::builder()
        .with_definition(skill_definition("zebra", "Skill zebra"))
        .with_definition(skill_definition("alpha", "Skill alpha"))
        .with_definition(skill_definition("middle", "Skill middle"))
        .build();
    assert_eq!(registry.names(), &["alpha", "middle", "zebra"]);
    let defs: Vec<&str> = registry.definitions().iter().map(|d| d.name.as_str()).collect();
    assert_eq!(defs, vec!["alpha", "middle", "zebra"]);
}

#[test]
fn last_writer_wins_on_duplicate_names() {
    let registry = SkillRegistry::builder()
        .with_definition(skill_definition("dup", "first"))
        .with_definition(skill_definition("dup", "second"))
        .build();
    assert_eq!(registry.len(), 1);
    assert_eq!(registry.get("dup").unwrap().description, "second");
}

#[test]
fn registry_hash_is_deterministic() {
    let r1 = SkillRegistry::builder()
        .with_definition(skill_definition("test-skill", "Test"))
        .build();
    let r2 = SkillRegistry::builder()
        .with_definition(skill_definition("test-skill", "Test"))
        .build();
    assert_eq!(r1.hash(), r2.hash());
    assert!(r1.hash().starts_with("sha256:"));
    let r3 = SkillRegistry::builder()
        .with_definition(skill_definition("test-skill", "Changed"))
        .build();
    assert_ne!(r1.hash(), r3.hash());
}

#[test]
fn registry_hash_is_independent_of_insertion_order() {
    let r1 = SkillRegistry::builder()
        .with_definition(skill_definition("a", "x"))
        .with_definition(skill_definition("b", "y"))
        .build();
    let r2 = SkillRegistry::builder()
        .with_definition(skill_definition("b", "y"))
        .with_definition(skill_definition("a", "x"))
        .build();
    assert_eq!(r1.hash(), r2.hash());
}

#[test]
fn registry_hash_is_the_digest_of_names_and_skill_hashes() {
    let def = skill_definition("a", "x");
    let expected_input = format!("a|{}\n", def.compute_hash());
    let registry = SkillRegistry::builder().with_definition(def).build();
    assert_eq!(registry.hash(), labelled_digest(expected_input.as_bytes()));
}

#[test]
fn detect_skill_changes_finds_added_updated_removed() {
    let old = SkillRegistry::builder()
        .with_definition(skill_definition("tdd", "v1"))
        .with_definition(skill_definition("shared", "v1"))
        .build();
    let new = SkillRegistry::builder()
        .with_definition(skill_definition("shared", "v2"))
        .with_definition(skill_definition("fresh", "new"))
        .build();
    let changes = detect_skill_changes(&old, &new).unwrap();
    assert_eq!(changes.added.len(), 1);
    assert_eq!(changes.added[0], "fresh");
    assert_eq!(changes.removed, vec!["tdd".to_string()]);
    assert_eq!(changes.updated.len(), 1);
    assert_eq!(changes.updated[0], "shared");
}

#[test]
fn detect_skill_changes_outputs_are_sorted_by_name() {
    let old = SkillRegistry::builder()
        .with_definition(skill_definition("gamma", "old"))
        .with_definition(skill_definition("delta", "old"))
        .with_definition(skill_definition("shared-b", "old"))
        .with_definition(skill_definition("shared-a", "old"))
        .build();
    let new = SkillRegistry::builder()
        .with_definition(skill_definition("alpha", "new"))
        .with_definition(skill_definition("beta", "new"))
        .with_definition(skill_definition("shared-b", "new"))
        .with_definition(skill_definition("shared-a", "new"))
        .build();

    let changes = detect_skill_changes(&old, &new).unwrap();
    assert_eq!(
        changes.added.iter().map(|entry| entry.as_str()).collect::<Vec<_>>(),
        vec!["alpha", "beta"]
    );
    assert_eq!(changes.removed, vec!["delta".to_string(), "gamma".to_string()]);
    assert_eq!(
        changes.updated.iter().map(|entry| entry.as_str()).collect::<Vec<_>>(),
        vec!["shared-a", "shared-b"]
    );
}

#[test]
fn identical_registries_have_no_changes() {
    let a = SkillRegistry::builder().with_definition(skill_definition("x", "same")).build();
    let b = SkillRegistry::builder().with_definition(skill_definition("x", "same")).build();
    assert!(detect_skill_changes(&a, &b).is_none());
}

#[test]
fn catalog_renders_budgeted_skill_block_without_paths() {
    let mut tdd = skill_definition("tdd", "Write tests first");
    tdd.instructions = "Instructions.".into();
    tdd.source_path = Some(".kuku/skills/tdd".into());
    let registry = SkillRegistry::builder().with_definition(tdd).build();
    let catalog = render_skill_catalog(
        &registry,
        &["review".to_string(), "tdd".to_string()],
        Some(&SkillChanges {
            added: vec!["review".to_string()],
            updated: vec!["tdd".to_string()],
            removed: vec!["legacy".to_string()],
        }),
    )
    .expect("should render");
    assert!(catalog.contains("<kuku_skills>"));
    assert!(catalog.contains("Changed:"));
    assert!(catalog.contains("Loaded: review, tdd"));
    assert!(catalog.contains("Available skills: 1 total"));
    assert!(catalog.contains("tdd - Write tests first"));
    assert!(catalog.contains("Use list_skills to browse available skills."));
    assert!(catalog.contains("Use search_skills to find skills by task or workflow."));
    assert!(!catalog.contains(".kuku/skills/tdd"));
    assert!(!catalog.contains("Instructions"), "catalog must NOT include full instructions");
    assert!(catalog.len() <= 2048);
}

#[test]
fn catalog_block_has_the_exact_layout() {
    let registry = SkillRegistry::builder()
        .with_definition(skill_definition("tdd", "Write tests first"))
        .build();
    let catalog = render_skill_catalog(
        &registry,
        &[],
        Some(&SkillChanges {
            added: vec!["review".to_string()],
            updated: vec!["tdd".to_string()],
            removed: vec!["legacy".to_string()],
        }),
    )
    .unwrap();
    assert_eq!(
        catalog,
        "<kuku_skills>\nChanged: +review, ~tdd, -legacy\nLoaded: none\nAvailable skills: 1 total\n\
tdd - Write tests first\nUse list_skills to browse available skills.\n\
Use search_skills to find skills by task or workflow.\n</kuku_skills>"
    );
}

#[test]
fn catalog_reserves_space_for_required_hints_when_previews_overflow() {
    let mut builder = SkillRegistry::builder();
    for index in 0..10 {
        builder = builder.with_definition(skill_definition(&format!("skill-{index}"), &"A".repeat(600)));
    }
    let registry = builder.build();

    let catalog = render_skill_catalog(&registry, &[], None).expect("should render");

    assert!(catalog.starts_with("<kuku_skills>\n"));
    assert!(catalog.contains("Available skills: 10 total"));
    assert!(catalog.contains("... +"));
    assert!(catalog.contains("Use list_skills to browse available skills."));
    assert!(catalog.contains("Use search_skills to find skills by task or workflow."));
    assert!(catalog.len() <= 2048);
}

#[test]
fn catalog_renders_empty_registry_with_zero_count_and_hints() {
    let registry = SkillRegistry::builder().build();
    let catalog = render_skill_catalog(&registry, &["tdd".to_string()], None)
        .expect("empty registry should still render");

    assert!(catalog.contains("<kuku_skills>"));
    assert!(catalog.contains("Loaded: tdd"));
    assert!(catalog.contains("Available skills: 0 total"));
    assert!(catalog.contains("Use list_skills to browse available skills."));
    assert!(catalog.contains("Use search_skills to find skills by task or workflow."));
    assert!(catalog.len() <= 2048);
}

#[test]
fn truncate_utf8_bytes_preserves_character_boundaries() {
    let text = format!("skill - {}", "界".repeat(200));

    let truncated = truncate_utf8_bytes(&text, 25);

    assert!(truncated.as_bytes().len() <= 25);
    assert!(truncated.ends_with("..."));
    assert!(!truncated.contains('\0'));
    let rebuilt = truncated[..truncated.len() - 3].chars().collect::<String>();
    assert_eq!(rebuilt.chars().last(), Some('界'));
}

#[test]
fn truncate_utf8_bytes_keeps_short_text_and_marks_hopeless_cuts() {
    assert_eq!(truncate_utf8_bytes("short", 10), "short");
    assert_eq!(truncate_utf8_bytes("abcdefgh", 5), "ab...");
    assert_eq!(truncate_utf8_bytes("界界界", 4), "...");
}

#[test]
fn packed_skill_block_uses_final_overflow_count_when_rejecting_preview() {
    let header_lines = vec![
        "Changed: ".to_string() + &"c".repeat(255),
        "Loaded: none".to_string(),
        "Available skills: 15 total".to_string(),
    ];
    let preview_candidates = vec!["p".repeat(320); 15];
    let hint_lines = [HINT_LIST_SKILLS.to_string(), HINT_SEARCH_SKILLS.to_string()];

    let block = pack_skill_block(&header_lines, &preview_candidates, &hint_lines);

    assert!(block.as_bytes().len() <= MAX_SKILLS_BLOCK_BYTES);
    assert!(block.contains("... +11 more"));
    assert!(!block.contains("... +9 more"));
}

#[test]
fn packed_skill_block_respects_utf8_byte_budget() {
    let header_lines = vec!["Loaded: none".to_string(), "Available skills: 12 total".to_string()];
    let preview_candidates = vec![render_preview_line("skill", &"界".repeat(400)); 12];
    let hint_lines = [HINT_LIST_SKILLS.to_string(), HINT_SEARCH_SKILLS.to_string()];

    let block = pack_skill_block(&header_lines, &preview_candidates, &hint_lines);

    assert!(block.as_bytes().len() <= MAX_SKILLS_BLOCK_BYTES);
    assert!(block.contains("... +"));
    assert!(!block.contains('\u{fffd}'));
}

#[test]
fn catalog_stays_within_budget_at_overflow_digit_boundaries() {
    for total_skills in [10_usize, 11, 99, 100, 101] {
        let mut builder = SkillRegistry::builder();
        for index in 0..total_skills {
            builder = builder.with_definition(skill_definition(&format!("skill-{index:03}"), &"界".repeat(400)));
        }
        let registry = builder.build();
        let catalog = render_skill_catalog(&registry, &[], None).expect("should render");

        assert!(
            catalog.as_bytes().len() <= MAX_SKILLS_BLOCK_BYTES,
            "catalog exceeded byte budget for total_skills={total_skills}, bytes={}",
            catalog.as_bytes().len()
        );
    }
}

#[test]
fn compact_name_line_lists_what_fits_and_counts_the_rest() {
    let names: Vec<String> = vec!["alpha".into(), "beta".into(), "gamma".into()];
    assert_eq!(
        render_compact_name_line("Loaded: ", &names, 100).unwrap(),
        "Loaded: alpha, beta, gamma"
    );
    assert_eq!(
        render_compact_name_line("Loaded: ", &names, 25).unwrap(),
        "Loaded: alpha, ... +2 more"
    );
    assert_eq!(
        render_compact_name_line("Loaded: ", &names, 5).unwrap(),
        "Loaded: ... +3 more"
    );
    assert!(render_compact_name_line("Loaded: ", &[], 100).is_none());
}

#[test]
fn skill_lifecycle_keeps_the_first_load_of_each_skill() {
    let facts = vec![
        SkillLoadFact { skill_id: "a".into(), origin: "bootstrap".into() },
        SkillLoadFact { skill_id: "b".into(), origin: "tool".into() },
        SkillLoadFact { skill_id: "a".into(), origin: "tool".into() },
    ];
    let state = SkillLifecycle::reduce(facts);
    let loaded: Vec<(&str, &str)> =
        state.loaded().iter().map(|f| (f.skill_id.as_str(), f.origin.as_str())).collect();
    assert_eq!(loaded, vec![("a", "bootstrap"), ("b", "tool")]);
    assert_eq!(state.facts().len(), 3);
    assert!(!state.can_unload("a"));
}

#[test]
fn binding_sources_follow_requested_names() {
    let mut with_file = minimal_skill("alpha");
    with_file.source_path = Some("/skills/alpha/SKILL.md".to_string());
    with_file.hash = "h1".to_string();
    let mut without_file = minimal_skill("beta");
    without_file.hash = "h2".to_string();
    let registry = SkillRegistry::builder()
        .with_definition(with_file)
        .with_definition(without_file)
        .build();
    let names = vec!["beta".to_string(), "missing".to_string(), "alpha".to_string()];
    let sources = binding_sources_for_skills(&registry, &names);
    assert_eq!(
        sources,
        vec![
            BindingSource {
                kind: "skill_definition".to_string(),
                source: "beta".to_string(),
                hash: "h2".to_string()
            },
            BindingSource {
                kind: "skill_definition".to_string(),
                source: "/skills/alpha/SKILL.md".to_string(),
                hash: "h1".to_string()
            },
        ]
    );
}

#[test]
fn hashes_are_labelled_sha256_hex() {
    let definition = minimal_skill("alpha");
    let registry = SkillRegistry::builder().with_definition(minimal_skill("beta")).build();
    for h in [definition.compute_hash(), registry.hash().to_string()] {
        assert!(h.starts_with("sha256:"));
        assert_eq!(h.len(), 71);
        assert!(h[7..].chars().all(|c| c.is_ascii_digit() || ('a'..='f').contains(&c)));
    }
}

#[test]
fn registry_from_definitions_keeps_last_of_each_name() {
    let empty = SkillRegistry::builder().build();
    assert!(empty.is_empty());
    assert_eq!(empty.len(), 0);
    assert!(empty.get("anything").is_none());

    let mut later = minimal_skill("alpha");
    later.description = "later".to_string();
    let registry = SkillRegistry::builder()
        .with_definition(minimal_skill("gamma"))
        .with_definition(minimal_skill("alpha"))
        .with_definition(later)
        .build();
    assert_eq!(registry.names(), &["alpha".to_string(), "gamma".to_string()]);
    assert_eq!(registry.get("alpha").unwrap().description, "later");
    assert_eq!(registry.len(), 2);
}
