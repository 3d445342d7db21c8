use kuku::tools::{tool_available, tool_result_limit, OfferedTool};
use kuku::json::{JsonNumber, JsonValue};
use kuku::resume::{extract_input_tokens, ProviderKind};
use kuku::tools::{
    display_summary, gate_choice, gate_source_name, is_inline_skill_tool, permission_scope,
    requires_ordered_simple_execution, truncate_summary, truncate_to_max_chars, GateSource, ToolTally,
};
use kuku::types::PermissionChoice;

fn s(v: &str) -> JsonValue {
    JsonValue::String(v.to_string())
}

fn n(v: u64) -> JsonValue {
    JsonValue::Number(JsonNumber::Unsigned(v))
}

fn obj(entries: Vec<(&str, JsonValue)>) -> JsonValue {
    JsonValue::Object(entries.into_iter().map(|(k, v)| (k.to_string(), v)).collect())
}

#[test]
fn extract_input_tokens_sums_anthropic_cache_fields() {
    let usage = obj(vec![
        ("input_tokens", n(845)),
        ("output_tokens", n(106)),
        ("cache_read_input_tokens", n(181888)),
        ("cache_creation_input_tokens", n(0)),
    ]);
    let result = extract_input_tokens(&ProviderKind::Anthropic, &usage);
    assert_eq!(result, Some(845 + 181888));
}

#[test]
fn extract_input_tokens_uses_openai_prompt_tokens() {
    let usage = obj(vec![
        ("prompt_tokens", n(500)),
        ("completion_tokens", n(100)),
        ("total_tokens", n(600)),
    ]);
    let result = extract_input_tokens(&ProviderKind::OpenAiCompatible, &usage);
    assert_eq!(result, Some(500));
}

#[test]
fn extract_input_tokens_returns_none_for_empty_usage() {
    let usage = obj(vec![]);
    assert_eq!(extract_input_tokens(&ProviderKind::Anthropic, &usage), None);
    assert_eq!(extract_input_tokens(&ProviderKind::OpenAiCompatible, &usage), None);
}

#[test]
fn extract_input_tokens_rejects_totals_beyond_u32() {
    let usage = obj(vec![("input_tokens", n(u32::MAX as u64)), ("cache_read_input_tokens", n(1))]);
    assert_eq!(extract_input_tokens(&ProviderKind::Anthropic, &usage), None);
}

#[test]
fn display_summary_find_files_with_path() {
    let args = obj(vec![("path", s("."))]);
    let r = display_summary("find_files", &args, None);
    assert_eq!(r, "path: \".\"");
}

#[test]
fn display_summary_find_files_with_pattern() {
    let args = obj(vec![("path", s(".")), ("pattern", s("*.rs"))]);
    let r = display_summary("find_files", &args, None);
    assert_eq!(r, "path: \".\", pattern: \"*.rs\"");
}

#[test]
fn display_summary_read_file() {
    let args = obj(vec![("path", s("src/main.rs"))]);
    let r = display_summary("read_file", &args, None);
    assert_eq!(r, "src/main.rs");
}

#[test]
fn display_summary_search_text() {
    let args = obj(vec![("pattern", s("fn query")), ("path", s("crates/"))]);
    let r = display_summary("search_text", &args, None);
    assert_eq!(r, "\"fn query\" in crates/");
}

#[test]
fn display_summary_run_command() {
    let args = obj(vec![
        ("command", s("cargo build --release")),
        ("timeout", n(60)),
        ("brief", s("build release")),
    ]);
    let r = display_summary("run_command", &args, None);
    assert_eq!(r, "build release");
}

#[test]
fn display_summary_run_command_truncated() {
    let args = obj(vec![
        ("command", s("echo hi")),
        ("timeout", n(60)),
        ("brief", s("cargo build --release --features=full,test --target=x86_64-unknown-linux-gnu")),
    ]);
    let r = display_summary("run_command", &args, Some(30));
    assert!(r.ends_with("..."), "should end with ...");
    let cjk_args = obj(vec![
        ("command", s("echo hi")),
        ("timeout", n(60)),
        ("brief", s("构建项目/src/文件.txt")),
    ]);
    let s2 = display_summary("run_command", &cjk_args, Some(5));
    assert!(s2.ends_with("..."), "CJK truncation should not panic: {s2}");
    assert_eq!(s2, "构建项目/...");
}

#[test]
fn display_summary_remember_memory() {
    let args = obj(vec![("scope", s("global")), ("kind", s("what_is_true")), ("text", s("kuku is Rust"))]);
    let r = display_summary("remember_memory", &args, None);
    assert_eq!(r, "\"kuku is Rust\"");
}

#[test]
fn display_summary_forget_memory() {
    let args = obj(vec![("scope", s("project")), ("text", s("kuku is Rust"))]);
    let r = display_summary("forget_memory", &args, None);
    assert_eq!(r, "\"kuku is Rust\"");
}

#[test]
fn display_summary_edit_file() {
    let args = obj(vec![
        ("path", s("src/main.rs")),
        ("old_text", s("old")),
        ("new_text", s("new")),
        ("brief", s("rename main")),
    ]);
    let r = display_summary("edit_file", &args, None);
    assert_eq!(r, "rename main");
}

#[test]
fn display_summary_write_file() {
    let args = obj(vec![("path", s("src/lib.rs")), ("content", s("fn main() {}")), ("brief", s("create lib"))]);
    let r = display_summary("write_file", &args, None);
    assert_eq!(r, "create lib");
}

#[test]
fn display_summary_unknown_tool() {
    let args = obj(vec![("foo", s("bar"))]);
    let r = display_summary("unknown_tool", &args, None);
    assert_eq!(r, "unknown_tool");
}

#[test]
fn display_summary_empty_args() {
    let args = obj(vec![]);
    let r = display_summary("find_files", &args, None);
    assert_eq!(r, "find_files");
}

#[test]
fn display_summary_find_files_with_only_pattern() {
    let args = obj(vec![("pattern", s("*.rs"))]);
    let r = display_summary("find_files", &args, None);
    assert_eq!(r, "path: \"\", pattern: \"*.rs\"", "missing path defaults to empty");
}

#[test]
fn display_summary_quotes_escapes_like_debug() {
    let args = obj(vec![("text", s("say \"hi\"\n"))]);
    let r = display_summary("remember_memory", &args, None);
    assert_eq!(r, "\"say \\\"hi\\\"\\n\"");
}

#[test]
fn display_summary_skill_tools() {
    assert_eq!(display_summary("use_skill", &obj(vec![("skill_name", s("tdd"))]), None), "tdd");
    assert_eq!(display_summary("use_skill", &obj(vec![]), None), "unknown");
    assert_eq!(display_summary("list_skills", &obj(vec![("offset", n(5))]), None), "offset: 5, limit: 20");
    assert_eq!(display_summary("search_skills", &obj(vec![]), None), "search skills");
    assert_eq!(display_summary("agent", &obj(vec![("to", s("helper"))]), None), "helper");
}

#[test]
fn truncate_summary_handles_multibyte() {
    let text = "这是中文测试字符串";
    let result = truncate_summary(text, 8);
    assert!(result.ends_with("..."));
    assert!(result.len() <= 27);
}

#[test]
fn truncate_summary_short_string_unchanged() {
    let text = "hello";
    let result = truncate_summary(text, 60);
    assert_eq!(result, "hello");
}

#[test]
fn truncate_summary_cuts_long_text_by_characters() {
    assert_eq!(truncate_summary("abcdefgh", 3), "abc...");
    assert_eq!(truncate_summary("  padded  ", 60), "padded");
}

#[test]
fn truncate_to_max_chars_reports_the_cut() {
    assert_eq!(truncate_to_max_chars("héllo", 3), ("hél".to_string(), true));
    assert_eq!(truncate_to_max_chars("héllo", 5), ("héllo".to_string(), false));
}

#[test]
fn skill_tools_are_inline() {
    assert!(is_inline_skill_tool("use_skill"));
    assert!(is_inline_skill_tool("list_skills"));
    assert!(is_inline_skill_tool("search_skills"));
    assert!(!is_inline_skill_tool("read_file"));
}

#[test]
fn only_plain_simple_tools_need_ordered_execution() {
    assert!(requires_ordered_simple_execution("read_file"));
    assert!(requires_ordered_simple_execution("write_file"));
    assert!(!requires_ordered_simple_execution("run_command"));
}

#[test]
fn permission_choices_have_scopes() {
    assert_eq!(permission_scope(PermissionChoice::Once), "once");
    assert_eq!(permission_scope(PermissionChoice::Deny), "once");
    assert_eq!(permission_scope(PermissionChoice::Project), "project");
    assert_eq!(gate_source_name(GateSource::Host), "host");
    assert_eq!(gate_source_name(GateSource::HardGuard), "hard_guard");
    assert_eq!(gate_choice(&GateSource::Host), PermissionChoice::Once);
    assert_eq!(gate_choice(&GateSource::SessionGrant), PermissionChoice::Session);
}

#[test]
fn tool_tally_counts_calls_and_keeps_names_distinct() {
    let mut tally = ToolTally::new();
    tally.record_tool_call("read_file");
    tally.record_tool_call("bash");
    tally.record_tool_call("read_file");
    tally.record_tool_denied("bash");
    tally.record_tool_error("read_file");
    assert_eq!(tally.calls, 5);
    assert_eq!(tally.names, vec!["read_file".to_string(), "bash".to_string()]);
    assert_eq!(tally.denied, 1);
    assert_eq!(tally.errors, 1);
}

fn offered(name: &str, max: usize) -> OfferedTool {
    OfferedTool { name: name.to_string(), max_result_chars: max }
}

#[test]
fn tool_availability_follows_registry_and_skill_switch() {
    let registry = vec![offered("read_file", 100), offered("use_skill", 40)];
    assert!(tool_available(&registry, false, "read_file"));
    assert!(tool_available(&registry, false, "use_skill"));
    assert!(!tool_available(&registry, true, "use_skill"));
    assert!(tool_available(&registry, true, "read_file"));
    assert!(!tool_available(&registry, false, "list_skills"));
    assert!(!tool_available(&[], false, "read_file"));
}

#[test]
fn tool_result_limit_takes_first_match() {
    let registry = vec![offered("a", 10), offered("b", 20), offered("a", 30)];
    assert_eq!(tool_result_limit(&registry, "a"), Some(10));
    assert_eq!(tool_result_limit(&registry, "b"), Some(20));
    assert_eq!(tool_result_limit(&registry, "c"), None);
}

#[test]
fn bare_find_files_summary_is_not_cut() {
    assert_eq!(display_summary("find_files", &JsonValue::Object(vec![]), Some(3)), "find_files");
}
