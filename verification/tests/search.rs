use kuku::events::{EventPayload, StoredEvent};
use kuku::json::{JsonNumber, JsonValue};
use kuku::skill::definition::{SkillDefinition, SkillSource};
use kuku::skill::registry::SkillRegistry;
use kuku::skill::search::{
    list_skills_result, normalize, search_skills_result, skill_body, skill_headings,
    skill_search_score, skill_title,
};

fn s(v: &str) -> JsonValue {
    JsonValue::String(v.to_string())
}

fn n(v: u64) -> JsonValue {
    JsonValue::Number(JsonNumber::Unsigned(v))
}

fn obj(entries: Vec<(&str, JsonValue)>) -> JsonValue {
    JsonValue::Object(entries.into_iter().map(|(k, v)| (k.to_string(), v)).collect())
}

fn num(v: &JsonValue, key: &str) -> u64 {
    v.u64_field(key).unwrap()
}

fn items(v: &JsonValue) -> &Vec<JsonValue> {
    match v.get("skills") {
        Some(JsonValue::Array(items)) => items,
        _ => panic!("expected a skills array"),
    }
}

fn name_of(item: &JsonValue) -> &str {
    item.str_field("name").unwrap().as_str()
}

fn loaded_of(item: &JsonValue) -> bool {
    matches!(item.get("loaded"), Some(JsonValue::Bool(true)))
}

fn skill(name: &str, description: &str, instructions: &str, metadata: JsonValue) -> SkillDefinition {
    let mut definition = SkillDefinition {
        name: name.to_string(),
        description: description.to_string(),
        instructions: instructions.to_string(),
        source: SkillSource::KukuProject,
        hash: String::new(),
        source_path: Some(format!("/skills/{name}")),
        allowed_tools: None,
        disallowed_tools: None,
        max_turns: None,
        model: None,
        license: None,
        compatibility: None,
        metadata,
    };
    definition.hash = definition.compute_hash();
    definition
}

fn registry() -> SkillRegistry {
    SkillRegistry::builder()
        .with_definition(skill(
            "alpha",
            "Alpha workflow",
            "# Alpha\n\nGeneral setup.",
            obj(vec![("title", s("Alpha Title"))]),
        ))
        .with_definition(skill(
            "beta-review",
            "Ranking review pull requests",
            "# Beta\n\n## Ranking\nFocus on ranking results.",
            obj(vec![("title", s("Beta Review"))]),
        ))
        .with_definition(skill(
            "gamma",
            "General helper",
            "# Search Wizard\n\n## Ranking\nbody mentions ranking twice. ranking",
            obj(vec![]),
        ))
        .build()
}

fn events() -> Vec<StoredEvent> {
    vec![
        StoredEvent {
            id: 1,
            payload: EventPayload::ContextSkills {
                conversation: "main".to_string(),
                turn: 1,
                registry: kuku::json::JsonValue::Null,
                bootstrap_loaded: vec![],
            },
        },
        StoredEvent {
            id: 2,
            payload: EventPayload::ToolCall {
                turn: 1,
                conversation: Some("main".to_string()),
                tool_call_id: "tool_beta".to_string(),
                request_id: "req_1".to_string(),
                index: 0,
                tool: "use_skill".to_string(),
                args: obj(vec![("skill_name", s("beta-review"))]),
            },
        },
        StoredEvent {
            id: 3,
            payload: EventPayload::ToolResult {
                turn: 1,
                conversation: Some("main".to_string()),
                tool_call_id: "tool_beta".to_string(),
                status: "ok".to_string(),
                summary: "loaded skill: beta-review".to_string(),
                model_content: String::new(),
                truncated: false,
            },
        },
    ]
}

#[test]
fn list_skills_pages_snapshot_and_marks_loaded() {
    let result = list_skills_result(&registry(), &events(), "main", &obj(vec![("offset", n(1)), ("limit", n(1))]));

    assert_eq!(num(&result, "offset"), 1);
    assert_eq!(num(&result, "limit"), 1);
    assert_eq!(num(&result, "total"), 3);
    assert_eq!(items(&result).len(), 1);
    assert_eq!(name_of(&items(&result)[0]), "beta-review");
    assert!(loaded_of(&items(&result)[0]));
    assert_eq!(items(&result)[0].str_field("source").unwrap(), "kuku:project");
}

#[test]
fn list_skills_applies_default_and_max_limit() {
    let default_result = list_skills_result(&registry(), &events(), "main", &obj(vec![]));
    let capped_result = list_skills_result(&registry(), &events(), "main", &obj(vec![("limit", n(999))]));
    let past_end = list_skills_result(&registry(), &events(), "main", &obj(vec![("offset", n(10))]));

    assert_eq!(num(&default_result, "limit"), 20);
    assert_eq!(num(&capped_result, "limit"), 50);
    assert_eq!(items(&default_result).len(), 3);
    assert!(items(&past_end).is_empty());
}

#[test]
fn search_skills_ranks_name_then_description_then_body() {
    let result = search_skills_result(&registry(), &events(), "main", &obj(vec![("query", s("ranking")), ("limit", n(3))]));
    let found = items(&result);

    assert_eq!(found.len(), 2);
    assert_eq!(name_of(&found[0]), "beta-review");
    assert!(loaded_of(&found[0]));
    assert_eq!(name_of(&found[1]), "gamma");
    assert!(!loaded_of(&found[1]));
    assert_eq!(num(&result, "total"), 2);
}

#[test]
fn search_skills_is_case_insensitive_and_matches_metadata_title() {
    let result = search_skills_result(&registry(), &events(), "main", &obj(vec![("query", s("alpha title")), ("limit", n(10))]));
    let found = items(&result);

    assert_eq!(found.len(), 1);
    assert_eq!(name_of(&found[0]), "alpha");
}

#[test]
fn search_ignores_the_case_of_the_query() {
    let result = search_skills_result(&registry(), &events(), "main", &obj(vec![("query", s("ALPHA Title")), ("limit", n(10))]));
    let found = items(&result);

    assert_eq!(found.len(), 1);
    assert_eq!(name_of(&found[0]), "alpha");
}

#[test]
fn search_skills_applies_default_and_max_limit() {
    let default_result = search_skills_result(&registry(), &events(), "main", &obj(vec![("query", s("ranking"))]));
    let capped_result = search_skills_result(&registry(), &events(), "main", &obj(vec![("query", s("ranking")), ("limit", n(999))]));

    assert_eq!(num(&default_result, "limit"), 10);
    assert_eq!(num(&capped_result, "limit"), 25);
}

#[test]
fn blank_queries_match_nothing() {
    let result = search_skills_result(&registry(), &events(), "main", &obj(vec![("query", s("   "))]));
    assert_eq!(num(&result, "total"), 0);
    assert!(items(&result).is_empty());
}

#[test]
fn skill_fields_for_search() {
    let gamma = skill(
        "gamma",
        "General helper",
        "# Search Wizard\n\n## Ranking\nbody mentions ranking twice. ranking",
        obj(vec![]),
    );
    assert_eq!(skill_title(&gamma), "Search Wizard");
    assert_eq!(skill_headings(&gamma), "Search Wizard\nRanking");
    assert_eq!(skill_body(&gamma), "\nbody mentions ranking twice. ranking");
    let score = skill_search_score(&gamma, "ranking").unwrap();
    assert_eq!(score, (4 * 9 + 1 * 9, 0, 0, 9, 9));
    assert!(skill_search_score(&gamma, "absent").is_none());
}

#[test]
fn normalize_lowercases_every_character() {
    assert_eq!(normalize("ÀbC"), vec!['à', 'b', 'c']);
}
