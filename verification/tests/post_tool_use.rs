//! Hooks that run after a tool.
use code_mode_reduction::json::{Json, Member};
use code_mode_reduction::post_tool_use::{
    AdditionalContext, ConfiguredHandler, HandlerRunResult, HookOutputEntry, HookOutputEntryKind, HookRunStatus,
    ParsedHandler, ParsedHookOutput, PostToolUseHandlerData, PostToolUseRequest, SubagentHookContext,
    flatten_additional_contexts, hook_completed_for_tool_use, parse_completed, post_tool_use_outcome, preview,
    serialization_failure_hook_events_for_tool_use, serialization_failure_outcome, trimmed_non_empty,
};
use serde_json::Value;

fn handler() -> ConfiguredHandler {
    handler_with_async(false)
}

fn handler_with_async(observes_only: bool) -> ConfiguredHandler {
    ConfiguredHandler {
        run_id: "post-tool-use:0:/tmp/hooks.json".to_string(),
        can_apply_control_effects: !observes_only,
        additional_context_limit: None,
    }
}

fn run_result(exit_code: Option<i32>, stdout: &str, stderr: &str) -> HandlerRunResult {
    HandlerRunResult { exit_code, stdout: stdout.to_string(), stderr: stderr.to_string(), error: None }
}

fn no_output() -> ParsedHookOutput {
    ParsedHookOutput {
        continue_processing: true,
        stop_reason: None,
        system_message: None,
        response_id: None,
        additional_context: None,
        should_block: false,
        reason: None,
        invalid_reason: None,
        invalid_block_reason: None,
    }
}

fn parsed_json(handler: &ConfiguredHandler, stdout: &str, output: ParsedHookOutput) -> ParsedHandler {
    parse_completed(handler, &run_result(Some(0), stdout, ""), Some(output), true, Some("turn-1".to_string()))
}

fn entry(kind: HookOutputEntryKind, text: &str) -> HookOutputEntry {
    HookOutputEntry { kind, text: text.to_string() }
}

fn nothing() -> PostToolUseHandlerData {
    PostToolUseHandlerData {
        should_block: false,
        additional_contexts_for_model: Vec::new(),
        feedback_messages_for_model: Vec::new(),
        replacement_response_ids: Vec::new(),
    }
}

fn request_for_tool_use(tool_use_id: &str) -> PostToolUseRequest {
    PostToolUseRequest {
        session_id: "00000000-0000-4000-8000-000000000001".to_string(),
        turn_id: "turn-1".to_string(),
        subagent: None,
        cwd: "/tmp".to_string(),
        transcript_path: None,
        model: "gpt-test".to_string(),
        permission_mode: "default".to_string(),
        tool_name: "Bash".to_string(),
        matcher_aliases: Vec::new(),
        tool_use_id: tool_use_id.to_string(),
        tool_input: Json::Object(vec![Member {
            key: "command".to_string(),
            value: Json::Text("echo hello".to_string()),
        }]),
        tool_response: Json::Object(vec![Member { key: "ok".to_string(), value: Json::Bool(true) }]),
        exact_tool_response: None,
        is_code_mode_nested: false,
        code_mode_cell_id: None,
        code_mode_tool_call_id: None,
        parent_intent: None,
    }
}

#[test]
fn command_input_uses_request_tool_name() {
    let mut request = request_for_tool_use("call-apply-patch");
    request.tool_name = "apply_patch".to_string();

    let input: Value = serde_json::from_str(&request.command_input_json()).expect("parse command input");

    assert_eq!(input["tool_name"], "apply_patch");
}

#[test]
fn block_decision_stops_normal_processing() {
    let parsed = parsed_json(
        &handler(),
        r#"{"decision":"block","reason":"bash output looked sketchy","hookSpecificOutput":{"hookEventName":"PostToolUse","response_id":"block-gate-1"}}"#,
        ParsedHookOutput {
            should_block: true,
            reason: Some("bash output looked sketchy".to_string()),
            response_id: Some("block-gate-1".to_string()),
            ..no_output()
        },
    );

    assert_eq!(
        parsed.data,
        PostToolUseHandlerData {
            should_block: true,
            feedback_messages_for_model: vec!["bash output looked sketchy".to_string()],
            replacement_response_ids: vec!["block-gate-1".to_string()],
            ..nothing()
        }
    );
    assert_eq!(parsed.completed.run.status, HookRunStatus::Blocked);
}

#[test]
fn additional_context_is_recorded() {
    let mut handler = handler();
    handler.additional_context_limit = Some(17);
    let parsed = parsed_json(
        &handler,
        r#"{"hookSpecificOutput":{"hookEventName":"PostToolUse","additionalContext":"Remember the bash cleanup note."}}"#,
        ParsedHookOutput {
            additional_context: Some("Remember the bash cleanup note.".to_string()),
            ..no_output()
        },
    );

    assert_eq!(
        parsed.data,
        PostToolUseHandlerData {
            additional_contexts_for_model: vec![AdditionalContext {
                text: "Remember the bash cleanup note.".to_string(),
                limit: Some(17),
            }],
            ..nothing()
        }
    );
    assert_eq!(
        parsed.completed.run.entries,
        vec![entry(HookOutputEntryKind::Context, "Remember the bash cleanup note.")]
    );
}

#[test]
fn unsupported_updated_mcp_tool_output_fails_open() {
    let stdout = r#"{"hookSpecificOutput":{"hookEventName":"PostToolUse","updatedMCPToolOutput":{"ok":true},"additionalContext":"preserved"}}"#;
    let output = || ParsedHookOutput {
        additional_context: Some("preserved".to_string()),
        invalid_reason: Some("PostToolUse hook returned unsupported updatedMCPToolOutput".to_string()),
        ..no_output()
    };
    let parsed = parsed_json(&handler(), stdout, output());

    assert_eq!(parsed.data, nothing());
    assert_eq!(parsed.completed.run.status, HookRunStatus::Failed);
    assert_eq!(
        parsed.completed.run.entries,
        vec![entry(
            HookOutputEntryKind::Error,
            "PostToolUse hook returned unsupported updatedMCPToolOutput"
        )]
    );

    let parsed = parsed_json(&handler_with_async(true), stdout, output());
    assert_eq!(parsed.completed.run.status, HookRunStatus::Completed);
    assert_eq!(parsed.completed.run.entries, vec![entry(HookOutputEntryKind::Context, "preserved")]);
}

#[test]
fn exit_two_blocks_with_feedback() {
    let parsed = parse_completed(
        &handler(),
        &run_result(Some(2), "", "post hook says pause"),
        None,
        false,
        Some("turn-1".to_string()),
    );

    assert_eq!(
        parsed.data,
        PostToolUseHandlerData {
            should_block: true,
            feedback_messages_for_model: vec!["post hook says pause".to_string()],
            ..nothing()
        }
    );
    assert_eq!(parsed.completed.run.status, HookRunStatus::Blocked);
}

#[test]
fn continue_false_stops_with_reason() {
    let parsed = parsed_json(
        &handler(),
        r#"{"continue":false,"stopReason":"halt after bash output","reason":"post-tool hook says stop","hookSpecificOutput":{"hookEventName":"PostToolUse","response_id":"gate-direct-1"}}"#,
        ParsedHookOutput {
            continue_processing: false,
            stop_reason: Some("halt after bash output".to_string()),
            reason: Some("post-tool hook says stop".to_string()),
            response_id: Some("gate-direct-1".to_string()),
            ..no_output()
        },
    );

    assert_eq!(
        parsed.data,
        PostToolUseHandlerData {
            feedback_messages_for_model: vec!["post-tool hook says stop".to_string()],
            replacement_response_ids: vec!["gate-direct-1".to_string()],
            ..nothing()
        }
    );
    assert_eq!(parsed.completed.run.status, HookRunStatus::Stopped);
    assert_eq!(
        parsed.completed.run.entries,
        vec![entry(HookOutputEntryKind::Stop, "halt after bash output")]
    );
}

#[test]
fn continue_false_without_reason_synthesizes_feedback() {
    let parsed = parsed_json(
        &handler(),
        r#"{"continue":false}"#,
        ParsedHookOutput { continue_processing: false, ..no_output() },
    );

    assert_eq!(
        parsed.data,
        PostToolUseHandlerData {
            feedback_messages_for_model: vec!["PostToolUse hook stopped execution".to_string()],
            ..nothing()
        }
    );
    assert_eq!(parsed.completed.run.status, HookRunStatus::Stopped);
    assert_eq!(
        parsed.completed.run.entries,
        vec![entry(HookOutputEntryKind::Stop, "PostToolUse hook stopped execution")]
    );
}

#[test]
fn plain_stdout_is_ignored_for_post_tool_use() {
    let parsed = parse_completed(
        &handler(),
        &run_result(Some(0), "plain text only", ""),
        None,
        false,
        Some("turn-1".to_string()),
    );

    assert_eq!(parsed.data, nothing());
    assert_eq!(parsed.completed.run.status, HookRunStatus::Completed);
    assert_eq!(parsed.completed.run.entries, Vec::<HookOutputEntry>::new());
}

#[test]
fn preview_and_completed_run_ids_include_tool_use_id() {
    let request = request_for_tool_use("tool-call-456");
    let runs = preview(&vec![handler()], &request.tool_use_id);

    assert_eq!(runs.len(), 1);
    assert_eq!(runs[0].id, "post-tool-use:0:/tmp/hooks.json:tool-call-456");

    let parsed =
        parse_completed(&handler(), &run_result(Some(0), "", ""), None, false, Some("turn-1".to_string()));
    let completed = hook_completed_for_tool_use(parsed.completed, &request.tool_use_id);

    assert_eq!(completed.run.id, runs[0].id);
}

#[test]
fn serialization_failure_run_ids_include_tool_use_id() {
    let request = request_for_tool_use("tool-call-456");
    let runs = preview(&vec![handler()], &request.tool_use_id);

    let completed = serialization_failure_hook_events_for_tool_use(
        &vec![handler()],
        &Some(request.turn_id.clone()),
        "serialize failed",
        &request.tool_use_id,
    );

    assert_eq!(completed.len(), 1);
    assert_eq!(completed[0].run.id, runs[0].id);
    assert_eq!(completed[0].run.status, HookRunStatus::Failed);
    assert_eq!(completed[0].run.entries, vec![entry(HookOutputEntryKind::Error, "serialize failed")]);
    let outcome = serialization_failure_outcome(completed);
    assert!(!outcome.should_block);
    assert_eq!(outcome.feedback_message, None);
}

#[test]
fn command_input_marks_only_code_mode_nested_tool_calls() {
    let direct: Value =
        serde_json::from_str(&request_for_tool_use("tool-1").command_input_json()).expect("parse direct hook input");
    assert_eq!(direct.get("is_code_mode_nested"), Some(&Value::Bool(false)));
    assert_eq!(direct["token_miser_acceptance_version"], 1);
    assert_eq!(direct["token_miser_grouping_version"], 1);
    assert_eq!(direct.get("code_mode_cell_id"), None);
    assert_eq!(direct.get("code_mode_tool_call_id"), None);
    assert_eq!(direct.get("parent_intent"), None);

    let mut nested = request_for_tool_use("tool-2");
    nested.is_code_mode_nested = true;
    nested.code_mode_cell_id = Some("cell-1".to_string());
    nested.code_mode_tool_call_id = Some("nested-1".to_string());
    nested.parent_intent = Some("Inspect the selected nested output.".to_string());
    let nested: Value = serde_json::from_str(&nested.command_input_json()).expect("parse nested hook input");
    assert_eq!(nested.get("is_code_mode_nested"), Some(&Value::Bool(true)));
    assert_eq!(nested["token_miser_acceptance_version"], 1);
    assert_eq!(nested["token_miser_grouping_version"], 1);
    assert_eq!(nested["code_mode_cell_id"], "cell-1");
    assert_eq!(nested["code_mode_tool_call_id"], "nested-1");
    assert_eq!(nested["parent_intent"], "Inspect the selected nested output.");
}

#[test]
fn command_input_carries_the_whole_request() {
    let mut request = request_for_tool_use("tool-3");
    request.subagent =
        Some(SubagentHookContext { agent_id: "agent-1".to_string(), agent_type: "explorer".to_string() });
    request.transcript_path = Some("/tmp/rollout.json".to_string());
    request.exact_tool_response = Some(Json::Text("exact \"bytes\"\n".to_string()));
    let input: Value = serde_json::from_str(&request.command_input_json()).expect("parse hook input");
    assert_eq!(input["session_id"], "00000000-0000-4000-8000-000000000001");
    assert_eq!(input["turn_id"], "turn-1");
    assert_eq!(input["agent_id"], "agent-1");
    assert_eq!(input["agent_type"], "explorer");
    assert_eq!(input["transcript_path"], "/tmp/rollout.json");
    assert_eq!(input["cwd"], "/tmp");
    assert_eq!(input["hook_event_name"], "PostToolUse");
    assert_eq!(input["model"], "gpt-test");
    assert_eq!(input["permission_mode"], "default");
    assert_eq!(input["tool_input"]["command"], "echo hello");
    assert_eq!(input["tool_response"]["ok"], true);
    assert_eq!(input["tool_use_id"], "tool-3");
    assert_eq!(input["token_miser_exact_tool_response_version"], 1);
    assert_eq!(input["token_miser_exact_tool_response"], "exact \"bytes\"\n");
    let plain: Value =
        serde_json::from_str(&request_for_tool_use("tool-4").command_input_json()).expect("parse hook input");
    assert_eq!(plain["transcript_path"], Value::Null);
    assert_eq!(plain.get("token_miser_exact_tool_response"), None);
    assert_eq!(plain.get("agent_id"), None);
}

#[test]
fn failed_runs_are_recorded_and_ask_for_nothing() {
    let turn = || Some("turn-1".to_string());
    let errored = HandlerRunResult { error: Some("spawn failed".to_string()), ..run_result(None, "", "") };
    let parsed = parse_completed(&handler(), &errored, None, false, turn());
    assert_eq!(parsed.data, nothing());
    assert_eq!(parsed.completed.run.status, HookRunStatus::Failed);
    assert_eq!(parsed.completed.run.entries, vec![entry(HookOutputEntryKind::Error, "spawn failed")]);

    let parsed = parse_completed(&handler(), &run_result(Some(3), "", ""), None, false, turn());
    assert_eq!(parsed.completed.run.entries, vec![entry(HookOutputEntryKind::Error, "hook exited with code 3")]);

    let parsed = parse_completed(&handler(), &run_result(None, "", ""), None, false, turn());
    assert_eq!(
        parsed.completed.run.entries,
        vec![entry(HookOutputEntryKind::Error, "hook exited without a status code")]
    );

    let parsed = parse_completed(&handler(), &run_result(Some(0), "{broken", ""), None, true, turn());
    assert_eq!(
        parsed.completed.run.entries,
        vec![entry(HookOutputEntryKind::Error, "hook returned invalid post-tool-use JSON output")]
    );

    let parsed = parse_completed(&handler(), &run_result(Some(2), "", "  "), None, false, turn());
    assert_eq!(
        parsed.completed.run.entries,
        vec![entry(
            HookOutputEntryKind::Error,
            "PostToolUse hook exited with code 2 but did not write feedback to stderr"
        )]
    );
    assert_eq!(parsed.data, nothing());
}

#[test]
fn outcomes_join_feedback_and_list_each_response_once() {
    let blocked = || {
        parsed_json(
            &handler(),
            "{}",
            ParsedHookOutput {
                should_block: true,
                reason: Some("one".to_string()),
                response_id: Some("gate-1".to_string()),
                additional_context: Some("note".to_string()),
                ..no_output()
            },
        )
    };
    let results = vec![blocked(), blocked()];
    let contexts = flatten_additional_contexts(&results);
    assert_eq!(contexts.len(), 2);
    let outcome = post_tool_use_outcome(results, vec!["note".to_string()], "tool-9", "\n\n");
    assert!(outcome.should_block);
    assert_eq!(outcome.feedback_message, Some("one\n\none".to_string()));
    assert_eq!(outcome.replacement_response_ids, vec!["gate-1".to_string()]);
    assert_eq!(outcome.additional_contexts, vec!["note".to_string()]);
    assert_eq!(outcome.hook_events[1].run.id, "post-tool-use:0:/tmp/hooks.json:tool-9");
    let quiet = post_tool_use_outcome(Vec::new(), Vec::new(), "tool-9", "\n\n");
    assert!(!quiet.should_block);
    assert_eq!(quiet.feedback_message, None);
}

#[test]
fn trimming_keeps_what_says_something() {
    assert_eq!(trimmed_non_empty(" \u{2003}a b\n"), Some("a b".to_string()));
    assert_eq!(trimmed_non_empty("\t\u{85}"), None);
}
