//! The Skill tools that run inline, without a tool slot: their results, and the cut to the
//! tool's result limit.

use vstd::prelude::*;

use crate::json::{json_str_field, json_view, JsonValue, JsonView};
use crate::skill::bootstrap::{loaded_block, named};
use crate::skill::definition::{source_name, SkillDefView};
use crate::skill::registry::{has_name, lemma_sorted_unique_names, SkillRegistry};
use crate::text::{decimal, u64_to_decimal};
use crate::tools::truncate_to_max_chars;
use crate::types::{ToolKind, UiEvent};

verus! {

/// The result of a tool call, as recorded and handed to the model.
#[derive(Debug, PartialEq, Eq)]
pub struct ToolResult {
    pub status: String,
    pub summary: String,
    pub model_content: String,
    pub truncated: bool,
    pub structured: Option<JsonValue>,
}

/// A failed tool call: its summary and the text the model reads.
pub fn error_result(summary: String, model_content: String) -> (r: ToolResult)
    ensures
        r.status@ == "error"@,
        r.summary@ == summary@,
        r.model_content@ == model_content@,
        !r.truncated,
        r.structured is None,
{
    proof {
        reveal_strlit("error");
    }
    ToolResult { status: String::from_str("error"), summary, model_content, truncated: false, structured: None }
}

/// The result of an inline Skill tool that the run does not offer.
pub fn unknown_inline_tool_result(name: &str) -> (r: ToolResult)
    ensures
        r.status@ == "error"@,
        r.summary@ == "failed: unknown tool: "@ + name@,
        r.model_content@ == "unknown tool: "@ + name@,
        !r.truncated,
        r.structured is None,
{
    let mut summary = String::from_str("failed: unknown tool: ");
    summary.append(name);
    let mut content = String::from_str("unknown tool: ");
    content.append(name);
    proof {
        reveal_strlit("failed: unknown tool: ");
        reveal_strlit("unknown tool: ");
    }
    error_result(summary, content)
}

/// The Skill that a `use_skill` call names (empty when the argument is missing).
pub open spec fn requested_skill(args: JsonView) -> Seq<char> {
    match json_str_field(args, "skill_name"@) {
        Some(n) => n,
        None => Seq::empty(),
    }
}

/// The structured record of a loaded Skill.
pub open spec fn skill_load_record(d: SkillDefView) -> JsonView {
    JsonView::Object(
        seq![
            ("kind"@, JsonView::String("skill_load"@)),
            ("name"@, JsonView::String(d.name)),
            ("description"@, JsonView::String(d.description)),
            ("source"@, JsonView::String(source_name(d.source))),
            ("loaded"@, JsonView::Bool(true)),
        ],
    )
}

/// The result of a `use_skill` call: the Skill's loading text and a record of the load,
/// or an error when the registry has no such Skill (or there is no registry).
pub fn use_skill_result(registry: Option<&SkillRegistry>, args: &JsonValue) -> (r: ToolResult)
    ensures
        ({
            let name = requested_skill(args@);
            match registry {
                Some(reg) if has_name(reg@.defs, name) => {
                    let d = named(reg@.defs, name);
                    &&& r.status@ == "ok"@
                    &&& r.summary@ == "loaded skill: "@ + name
                    &&& r.model_content@ == loaded_block(d)
                    &&& !r.truncated
                    &&& r.structured matches Some(s) && s@ == skill_load_record(d)
                },
                _ => {
                    &&& r.status@ == "error"@
                    &&& r.summary@ == "skill '"@ + name + "' not found"@
                    &&& r.model_content@ == "no skill named '"@ + name + "' in the registry"@
                    &&& !r.truncated
                    &&& r.structured is None
                },
            }
        }),
{
    proof {
        reveal_strlit("");
        reveal_strlit("skill '");
        reveal_strlit("' not found");
        reveal_strlit("no skill named '");
        reveal_strlit("' in the registry");
        reveal_strlit("ok");
        reveal_strlit("loaded skill: ");
        reveal_strlit("<!-- loaded: ");
        reveal_strlit(" -->\n\n");
    }
    let name: String = match args.str_field("skill_name") {
        Some(n) => n.clone(),
        None => String::new(),
    };
    let found = match registry {
        Some(reg) => reg.get(name.as_str()),
        None => None,
    };
    match found {
        Some(def) => {
            proof {
                let reg = registry->0;
                let defs = reg@.defs;
                let j = choose|j: int|
                    0 <= j < defs.len() && (#[trigger] defs[j]).name == name@ && defs[j] == def@;
                let c = choose|c: int| 0 <= c < defs.len() && (#[trigger] defs[c]).name == name@;
                lemma_sorted_unique_names(defs, j, c);
                assert(named(defs, name@) == def@);
            }
            let mut content = String::from_str("<!-- loaded: ");
            match &def.source_path {
                Some(p) => {
                    content.append(p.as_str());
                },
                None => {},
            }
            content.append(" -->\n\n");
            content.append(def.instructions.as_str());
            let mut summary = String::from_str("loaded skill: ");
            summary.append(name.as_str());
            let record = JsonValue::Object(
                vec![
                    (String::from_str("kind"), JsonValue::String(String::from_str("skill_load"))),
                    (String::from_str("name"), JsonValue::String(def.name.clone())),
                    (String::from_str("description"), JsonValue::String(def.description.clone())),
                    (String::from_str("source"), JsonValue::String(String::from_str(def.source.as_str()))),
                    (String::from_str("loaded"), JsonValue::Bool(true)),
                ],
            );
            proof {
                reveal_with_fuel(crate::json::json_view, 2);
                assert(content@ =~= loaded_block(def@));
                assert(record@->Object_0 =~= skill_load_record(def@)->Object_0);
            }
            ToolResult {
                status: String::from_str("ok"),
                summary,
                model_content: content,
                truncated: false,
                structured: Some(record),
            }
        },
        None => {
            let mut summary = String::from_str("skill '");
            summary.append(name.as_str());
            summary.append("' not found");
            let mut content = String::from_str("no skill named '");
            content.append(name.as_str());
            content.append("' in the registry");
            error_result(summary, content)
        },
    }
}

/// Cuts the text that the model reads to the tool's result limit, when it has one; a cut
/// marks the result truncated.
pub fn clamp_result(result: ToolResult, max_result_chars: Option<usize>) -> (r: ToolResult)
    ensures
        r.status == result.status,
        r.summary == result.summary,
        r.structured == result.structured,
        match max_result_chars {
            None => r.model_content@ == result.model_content@ && r.truncated == result.truncated,
            Some(max) => r.model_content@ == (if result.model_content@.len() > max {
                result.model_content@.subrange(0, max as int)
            } else {
                result.model_content@
            }) && r.truncated == (result.truncated || result.model_content@.len() > max),
        },
{
    match max_result_chars {
        None => result,
        Some(max) => {
            let (content, cut) = truncate_to_max_chars(result.model_content.as_str(), max);
            ToolResult {
                status: result.status,
                summary: result.summary,
                model_content: content,
                truncated: result.truncated || cut,
                structured: result.structured,
            }
        },
    }
}

/// The summary of a `list_skills` or `search_skills` result with `count` entries.
pub fn skills_returned_summary(count: usize, search: bool) -> (r: String)
    ensures
        r@ == decimal(count as nat) + if search {
            " skill matches returned"@
        } else {
            " skills returned"@
        },
{
    proof {
        reveal_strlit(" skill matches returned");
        reveal_strlit(" skills returned");
    }
    let mut r = u64_to_decimal(count as u64);
    if search {
        r.append(" skill matches returned");
    } else {
        r.append(" skills returned");
    }
    r
}


/// The marker that a cancelled result carries: `{"kind": "cancelled"}`.
pub open spec fn cancelled_marker() -> JsonView {
    JsonView::Object(seq![("kind"@, JsonView::String("cancelled"@))])
}

/// The result of a tool call that was cancelled: status `cancelled`, the given summary,
/// no text for the model, not truncated, and the cancelled marker.
pub fn cancelled_result(summary: String) -> (r: ToolResult)
    ensures
        r.status@ == "cancelled"@,
        r.summary@ == summary@,
        r.model_content@.len() == 0,
        !r.truncated,
        r.structured matches Some(m) && m@ == cancelled_marker(),
{
    proof {
        reveal_strlit("cancelled");
        reveal_strlit("kind");
    }
    let mut entries: Vec<(String, JsonValue)> = Vec::new();
    entries.push((String::from_str("kind"), JsonValue::String(String::from_str("cancelled"))));
    let ghost e = entries@;
    let marker = JsonValue::Object(entries);
    proof {
        assert(e.len() == 1);
        assert(e[0].0@ == "kind"@);
        assert(json_view(e[0].1) == JsonView::String("cancelled"@));
        let v = json_view(marker);
        assert(v is Object);
        let sq = v->Object_0;
        assert(sq.len() == 1);
        assert(sq[0] == ("kind"@, JsonView::String("cancelled"@)));
        assert(sq =~= seq![("kind"@, JsonView::String("cancelled"@))]);
        assert(marker@ == cancelled_marker());
    }
    ToolResult {
        status: String::from_str("cancelled"),
        summary,
        model_content: String::new(),
        truncated: false,
        structured: Some(marker),
    }
}

/// What the run reports and records when a pending permission request is cancelled
/// without a decision: a `ToolEnd` for the waiting call with the cancelled result (summary
/// `permission request cancelled`, no model text), and that result for the log. No
/// decision is recorded.
pub fn cancelled_permission_outputs(tool_call_id: String) -> (r: (ToolResult, UiEvent))
    ensures
        r.0.status@ == "cancelled"@,
        r.0.summary@ == "permission request cancelled"@,
        r.0.model_content@.len() == 0,
        !r.0.truncated,
        r.0.structured matches Some(m) && m@ == cancelled_marker(),
        r.1 matches UiEvent::ToolEnd { id, status, summary, model_content: None, result: Some(m) }
            && id@ == tool_call_id@ && status@ == "cancelled"@ && summary@
            == "permission request cancelled"@ && m@ == cancelled_marker(),
{
    proof {
        reveal_strlit("permission request cancelled");
    }
    let result = cancelled_result(String::from_str("permission request cancelled"));
    let marker = match &result.structured {
        Some(m) => m.duplicate(),
        None => JsonValue::Null,
    };
    let end = UiEvent::ToolEnd {
        id: tool_call_id,
        status: result.status.clone(),
        summary: result.summary.clone(),
        model_content: None,
        result: Some(marker),
    };
    (result, end)
}

/// What the run records and reports when a queued call is refused with `reason`: a
/// `blocked` result with that summary, no model text and the blocked marker `marker`; a
/// `ToolStart` for the call; and a `ToolEnd` with the same status, summary and marker.
pub fn blocked_call_outputs(
    id: &str,
    tool: &str,
    display_summary: &str,
    kind: ToolKind,
    reason: &str,
    marker: &JsonValue,
) -> (r: (ToolResult, UiEvent, UiEvent))
    ensures
        r.0.status@ == "blocked"@,
        r.0.summary@ == reason@,
        r.0.model_content@.len() == 0,
        !r.0.truncated,
        r.0.structured matches Some(m) && m@ == marker@,
        r.1 matches UiEvent::ToolStart { id: i, tool: t, summary: s, kind: k } && i@ == id@ && t@
            == tool@ && s@ == display_summary@ && k == kind,
        r.2 matches UiEvent::ToolEnd { id: i, status, summary, model_content: None, result: Some(m) }
            && i@ == id@ && status@ == "blocked"@ && summary@ == reason@ && m@ == marker@,
{
    proof {
        reveal_strlit("blocked");
    }
    let result = ToolResult {
        status: String::from_str("blocked"),
        summary: reason.to_string(),
        model_content: String::new(),
        truncated: false,
        structured: Some(marker.duplicate()),
    };
    let start = UiEvent::ToolStart {
        id: id.to_string(),
        tool: tool.to_string(),
        summary: display_summary.to_string(),
        kind,
    };
    let end = UiEvent::ToolEnd {
        id: id.to_string(),
        status: String::from_str("blocked"),
        summary: reason.to_string(),
        model_content: None,
        result: Some(marker.duplicate()),
    };
    (result, start, end)
}

/// What the run records and reports when the host denies a queued call: the blocked
/// outputs with reason `permission denied`.
pub fn permission_denied_outputs(
    id: &str,
    tool: &str,
    display_summary: &str,
    kind: ToolKind,
    marker: &JsonValue,
) -> (r: (ToolResult, UiEvent, UiEvent))
    ensures
        r.0.status@ == "blocked"@,
        r.0.summary@ == "permission denied"@,
        r.0.model_content@.len() == 0,
        !r.0.truncated,
        r.0.structured matches Some(m) && m@ == marker@,
        r.1 matches UiEvent::ToolStart { id: i, tool: t, summary: s, kind: k } && i@ == id@ && t@
            == tool@ && s@ == display_summary@ && k == kind,
        r.2 matches UiEvent::ToolEnd { id: i, status, summary, model_content: None, result: Some(m) }
            && i@ == id@ && status@ == "blocked"@ && summary@ == "permission denied"@ && m@ == marker@,
{
    blocked_call_outputs(id, tool, display_summary, kind, "permission denied", marker)
}

} // verus!
