//! The state of code mode in a session, responses, payloads and retrieval.
use code_mode_reduction::actionable_state::{
    ActionableState, ActionableStateEntry, ActionableStateStatus, ActionableStateStore, HANDLE_TAG_BYTES,
    MAX_UNIFIED_EXEC_PROCESSES,    RequiredFollowUp, WriteStdinFollowUpArguments, from_nested_tool_result,
};
use code_mode_reduction::capabilities::{ServerCapabilitiesReadParams, read_server_capabilities};
use code_mode_reduction::context::{
    CodeModeActionableStateFragment, ContextualUserFragment, MAX_ACTIONABLE_STATE_BYTES,
};
use code_mode_reduction::items::FunctionCallOutputContentItem;
use code_mode_reduction::json::{Json, Member};
use code_mode_reduction::parent_intent::{ContentItem, MAX_PARENT_INTENT_CHARS, ResponseItem, from_response_item};
use code_mode_reduction::payload::{
    CodeModeNestedToolCall, CodeModeToolKind, ToolCallSource, ToolName, ToolPayload, build_nested_tool_payload,
    is_exec_tool_name, submit_nested_tool,
};
use code_mode_reduction::reducer::{ReducerReply, TruncationStyle};
use code_mode_reduction::response::{RuntimeResponse, finish_response, reduce_code_mode_result};
use code_mode_reduction::retrieval::{
    ReadArgs, SearchArgs, default_read_bytes, default_search_results, function_arguments, handle_read, handle_search,
    read_tool_spec, render_retrieval, search_tool_spec,
};
use code_mode_reduction::service::{
    CodeModeReductionRuntimeConfig, CodeModeService, OutputPlan, TokenMiserSettings, ToolMode,
};
use code_mode_reduction::token_miser::{RolloutItem, TokenMiserOutput};

const OBJECT_ID: &str = "00000000-0000-4000-8000-000000000001";

fn unchanged(
    items: Vec<FunctionCallOutputContentItem>,
    _original_detail: bool,
) -> Vec<FunctionCallOutputContentItem> {
    items
}

fn text_item(text: &str) -> FunctionCallOutputContentItem {
    FunctionCallOutputContentItem::InputText { text: text.to_string() }
}

fn unlimited(
    items: Vec<FunctionCallOutputContentItem>,
    _style: TruncationStyle,
    _tokens: usize,
) -> Vec<FunctionCallOutputContentItem> {
    items
}

fn object(members: Vec<(&str, Json)>) -> Json {
    Json::Object(members.into_iter().map(|(key, value)| Member { key: key.to_string(), value }).collect())
}

fn text_json(text: &str) -> Json {
    Json::Text(text.to_string())
}

fn config(has_output_reducer: bool) -> CodeModeReductionRuntimeConfig {
    CodeModeReductionRuntimeConfig { max_output_tokens_ceiling: None, has_output_reducer, token_miser: None }
}

fn keeping() -> CodeModeReductionRuntimeConfig {
    CodeModeReductionRuntimeConfig {
        token_miser: Some(TokenMiserSettings {
            max_reducer_input_bytes: 128 * 1024,
            max_replacement_bytes: 4 * 1024,
        }),
        ..config(true)
    }
}

fn service(config: CodeModeReductionRuntimeConfig) -> CodeModeService {
    CodeModeService::new(None, 10_000, config, &Vec::new(), &None)
}

fn nested(cell_id: &str) -> ToolCallSource {
    ToolCallSource::CodeMode { cell_id: cell_id.to_string(), runtime_tool_call_id: "nested-1".to_string() }
}

fn result(cell_id: &str, error_text: Option<&str>) -> RuntimeResponse {
    RuntimeResponse::Result {
        cell_id: cell_id.to_string(),
        content_items: vec![text_item("output")],
        error_text: error_text.map(str::to_string),
    }
}

fn yielded(cell_id: &str) -> RuntimeResponse {
    RuntimeResponse::Yielded { cell_id: cell_id.to_string(), content_items: vec![text_item("so far")] }
}

fn running_result() -> Json {
    object(vec![
        ("session_id", Json::Int(41)),
        ("chunk_id", text_json("abc123")),
        ("output", text_json("still running")),
    ])
}

fn entry(process_id: i32, state: ActionableStateStatus) -> ActionableStateEntry {
    ActionableStateEntry {
        session_id: process_id,
        process_id,
        chunk_id: format!("{process_id:06x}"),
        state,
        exit_code: (state == ActionableStateStatus::Completed).then_some(0),
        required_follow_up: (state == ActionableStateStatus::Running).then(|| RequiredFollowUp {
            operation: "write_stdin".to_string(),
            arguments: WriteStdinFollowUpArguments { session_id: process_id, chars: String::new() },
        }),
    }
}

/// A token for every four bytes, rounded up.
fn approx_token_count(text: &str) -> usize {
    text.len().div_ceil(4)
}

#[test]
fn the_largest_handles_stay_below_the_cap_together() {
    let entries = (0..2 * MAX_UNIFIED_EXEC_PROCESSES as i32)
        .map(|n| entry(i32::MIN + n, ActionableStateStatus::Running))
        .map(|entry| ActionableStateEntry { chunk_id: "abcdef".to_string(), ..entry })
        .collect::<Vec<_>>();
    let items = ActionableState::new(entries).and_then(|state| state.output_items()).expect("rendered handles");
    assert_eq!(items.len(), MAX_UNIFIED_EXEC_PROCESSES);
    let sizes = items
        .iter()
        .map(|item| match item {
            FunctionCallOutputContentItem::InputText { text } => text.len(),
            other => panic!("expected text, got {other:?}"),
        })
        .collect::<Vec<_>>();
    assert!(sizes.iter().all(|size| *size <= MAX_ACTIONABLE_STATE_BYTES + HANDLE_TAG_BYTES));
    assert!(
        sizes.iter().sum::<usize>()
            <= MAX_UNIFIED_EXEC_PROCESSES * (MAX_ACTIONABLE_STATE_BYTES + HANDLE_TAG_BYTES)
    );
    assert_eq!(HANDLE_TAG_BYTES, "<codex_actionable_state></codex_actionable_state>".len());
}

#[test]
fn actionable_state_is_bounded_without_discarding_a_running_handle() {
    let running_process_id = 10_000;
    let mut entries = (0..MAX_UNIFIED_EXEC_PROCESSES)
        .map(|process_id| entry(process_id as i32, ActionableStateStatus::Completed))
        .collect::<Vec<_>>();
    entries.push(entry(running_process_id, ActionableStateStatus::Running));

    let state = ActionableState::new(entries).expect("bounded actionable state");

    assert_eq!(state.entries.len(), MAX_UNIFIED_EXEC_PROCESSES);
    assert!(state.entries.iter().any(|entry| entry.process_id == running_process_id));
    let Some(output_items) = state.output_items() else {
        panic!("bounded actionable state should render");
    };
    assert_eq!(output_items.len(), MAX_UNIFIED_EXEC_PROCESSES);
    let mut total_tokens = 0;
    for output_item in output_items {
        let FunctionCallOutputContentItem::InputText { text } = output_item else {
            panic!("actionable state should render as text");
        };
        let item_tokens = approx_token_count(&text);
        total_tokens += item_tokens;
        assert!(item_tokens <= 1_000, "one handle is too large for a context item");
    }
    assert!(total_tokens <= 10_000, "aggregate actionable state is capped");
}

#[test]
fn actionable_state_survives_reducer_disable_and_reenable() {
    let mut service = service(config(true));
    service.observe_tool_result(
        &nested("live-cell"),
        &ToolName::plain("exec_command"),
        Some(&object(vec![("cmd", text_json("long job"))])),
        &running_result(),
    );

    service.refresh_reduction_config(config(false));
    service.refresh_reduction_config(config(true));

    assert!(
        service.cell_actionable_state("live-cell", false).is_some(),
        "live continuation handles must survive reducer reconfiguration"
    );
}

#[test]
fn nested_results_leave_handles_behind() {
    let mut service = service(config(true));
    let write = |arguments: &str| ToolPayload::Function { arguments: arguments.to_string() };
    service.record_actionable_tool_result(
        &nested("cell"),
        &ToolName::plain("exec_command"),
        &write(r#"{"cmd":"long job"}"#),
        &running_result(),
    );
    let exited = object(vec![
        ("chunk_id", text_json("def456")),
        ("exit_code", Json::Int(3)),
        ("output", text_json("done")),
    ]);
    service.record_actionable_tool_result(
        &nested("cell"),
        &ToolName::plain("write_stdin"),
        &write(r#"{"session_id":7,"chars":""}"#),
        &exited,
    );
    for ignored in [
        write(r#"{"session_id":"8"}"#),
        write("not json"),
        ToolPayload::Custom { input: "8".to_string() },
        ToolPayload::ToolSearch,
    ] {
        service.record_actionable_tool_result(&nested("cell"), &ToolName::plain("write_stdin"), &ignored, &exited);
    }
    service.record_actionable_tool_result(
        &ToolCallSource::Direct,
        &ToolName::plain("exec_command"),
        &write("{}"),
        &running_result(),
    );
    let state = service.cell_actionable_state("cell", true).expect("two handles");
    let seen: Vec<_> =
        state.entries.iter().map(|entry| (entry.process_id, entry.state, entry.exit_code)).collect();
    assert_eq!(
        seen,
        vec![(7, ActionableStateStatus::Completed, Some(3)), (41, ActionableStateStatus::Running, None)]
    );
    assert!(service.cell_actionable_state("cell", true).is_none());
}

#[test]
fn only_well_formed_observations_count() {
    let tool = ToolName::plain("exec_command");
    assert!(from_nested_tool_result(&tool, None, &running_result()).is_some());
    let foreign = ToolName {
        name: "exec_command".to_string(),
        default_namespace: false,
        display: "other.exec_command".to_string(),
    };
    assert!(from_nested_tool_result(&foreign, None, &running_result()).is_none());
    for chunk_id in ["abc12", "abc12g", "abc1234"] {
        let result = object(vec![("session_id", Json::Int(41)), ("chunk_id", text_json(chunk_id))]);
        assert!(from_nested_tool_result(&tool, None, &result).is_none());
    }
    let wide = object(vec![("session_id", Json::Int(1 << 31)), ("chunk_id", text_json("abc123"))]);
    assert!(from_nested_tool_result(&tool, None, &wide).is_none());
}

#[test]
fn the_latest_observation_of_a_process_stays() {
    let mut store = ActionableStateStore::new();
    store.record("cell", &ToolName::plain("exec_command"), None, &running_result());
    let ended = object(vec![("chunk_id", text_json("def456")), ("exit_code", Json::Int(0))]);
    let input = object(vec![("session_id", Json::Int(41))]);
    store.record("cell", &ToolName::plain("write_stdin"), Some(&input), &ended);
    let state = store.read("cell", false).expect("one process");
    assert_eq!(state.entries.len(), 1);
    assert_eq!(state.entries[0].state, ActionableStateStatus::Completed);
    assert_eq!(state.entries[0].chunk_id, "def456");
    store.clear();
    assert!(store.read("cell", false).is_none());
}

#[test]
fn handles_render_as_tagged_json() {
    let running = CodeModeActionableStateFragment::running(1, 41, 41, "abc123").expect("a running handle");
    assert_eq!(running.content_kind(), "code_mode.actionable_state");
    assert_eq!(
        running.render(),
        r#"<codex_actionable_state>{"version":1,"entries":[{"session_id":41,"process_id":41,"chunk_id":"abc123","state":"running","exit_code":null,"required_follow_up":{"operation":"write_stdin","arguments":{"session_id":41,"chars":""}}}]}</codex_actionable_state>"#
    );
    assert!(CodeModeActionableStateFragment::running(1, 41, 41, "xyz123").is_none());
    let completed =
        CodeModeActionableStateFragment::completed(1, -1, -1, "ABC123", -7).expect("a completed handle");
    assert!(completed.render().contains(r#""exit_code":-7"#));
    assert!(completed.render().contains(r#""state":"completed""#));
}

#[test]
fn build_nested_tool_payload_uses_function_kind() {
    let payload = build_nested_tool_payload(
        CodeModeToolKind::Function,
        &ToolName::plain("example"),
        Some(object(vec![("value", Json::Int(1))])),
    )
    .expect("function payload should serialize");

    match payload {
        ToolPayload::Function { arguments } => assert_eq!(arguments, r#"{"value":1}"#.to_string()),
        other => panic!("expected function payload, got {other:?}"),
    }
}

#[test]
fn build_nested_tool_payload_uses_freeform_kind() {
    let payload = build_nested_tool_payload(
        CodeModeToolKind::Freeform,
        &ToolName::plain("example"),
        Some(text_json("hello")),
    )
    .expect("freeform payload should preserve string input");

    match payload {
        ToolPayload::Custom { input } => assert_eq!(input, "hello".to_string()),
        other => panic!("expected freeform payload, got {other:?}"),
    }
}

#[test]
fn nested_calls_are_checked_before_they_are_dispatched() {
    let call = |name: &str, tool_kind: CodeModeToolKind, input: Option<Json>| CodeModeNestedToolCall {
        cell_id: "cell".to_string(),
        runtime_tool_call_id: "nested-1".to_string(),
        tool_name: ToolName::plain(name),
        tool_kind,
        input,
    };
    assert!(is_exec_tool_name(&ToolName::plain("exec")));
    assert_eq!(
        submit_nested_tool(call("exec", CodeModeToolKind::Freeform, None)).expect_err("itself"),
        "exec cannot invoke itself"
    );
    assert_eq!(
        submit_nested_tool(call("shell", CodeModeToolKind::Function, Some(text_json("x")))).expect_err("a text"),
        "tool `shell` expects a JSON object for arguments"
    );
    assert_eq!(
        submit_nested_tool(call("shell", CodeModeToolKind::Freeform, None)).expect_err("nothing"),
        "tool `shell` expects a string input"
    );
    let submitted = submit_nested_tool(call("shell", CodeModeToolKind::Function, None)).expect("no arguments");
    assert!(matches!(submitted.payload, ToolPayload::Function { arguments } if arguments == "{}"));
    let identity = submitted.call_id.strip_prefix("exec-").expect("a nested call identity");
    assert_eq!(uuid::Uuid::parse_str(identity).expect("a uuid").get_version_num(), 4);
    assert!(matches!(
        submitted.source,
        ToolCallSource::CodeMode { cell_id, runtime_tool_call_id }
            if cell_id == "cell" && runtime_tool_call_id == "nested-1"
    ));
}

fn assistant_message(text: &str) -> ResponseItem {
    ResponseItem::Message {
        role: "assistant".to_string(),
        content: vec![ContentItem::OutputText { text: text.to_string() }],
    }
}

fn visible(texts: Vec<String>, _plan_mode: bool) -> Option<String> {
    Some(texts.concat())
}

#[test]
fn returns_visible_assistant_narration() {
    let intent = from_response_item(&assistant_message("I’ll inspect the failing checks now."), false, &visible);

    assert_eq!(intent.as_deref(), Some("I’ll inspect the failing checks now."));
}

#[test]
fn retains_the_most_recent_unicode_scalar_characters() {
    let text = format!("discard-me{}", "🦀".repeat(MAX_PARENT_INTENT_CHARS));
    let intent = from_response_item(&assistant_message(&text), false, &visible)
        .expect("assistant narration should be captured");

    assert_eq!(intent.chars().count(), MAX_PARENT_INTENT_CHARS);
    assert_eq!(intent, "🦀".repeat(MAX_PARENT_INTENT_CHARS));
}

#[test]
fn ignores_reasoning_summary_and_raw_chain_of_thought() {
    let reasoning = ResponseItem::Reasoning {
        summary: vec!["hidden summary".to_string()],
        content: Some(vec!["private chain of thought".to_string()]),
    };

    assert_eq!(from_response_item(&reasoning, false, &visible), None);
}

#[test]
fn ignores_messages_without_visible_assistant_narration() {
    let user_message = ResponseItem::Message {
        role: "user".to_string(),
        content: vec![ContentItem::OutputText { text: "not assistant narration".to_string() }],
    };

    assert_eq!(from_response_item(&user_message, false, &visible), None);
    assert_eq!(from_response_item(&assistant_message("<hidden/>"), true, &|_texts, _plan| None), None);
}

#[test]
fn narration_follows_a_call_into_its_cell() {
    let mut service = service(config(true));
    service.record_direct_parent_intent("call", Some("Inspect the files.".to_string()));
    service.record_direct_parent_intent("quiet", None);
    service.move_parent_intent_to_cell("call", "cell");
    service.move_parent_intent_to_cell("quiet", "other-cell");
    assert_eq!(service.take_parent_intent("call", &ToolCallSource::Direct), None);
    assert_eq!(service.take_parent_intent("nested", &nested("cell")), Some("Inspect the files.".to_string()));
    assert_eq!(service.take_parent_intent("nested", &nested("cell")), Some("Inspect the files.".to_string()));
    assert_eq!(service.take_parent_intent("nested", &nested("other-cell")), None);

    service.record_direct_parent_intent("direct", Some("Look.".to_string()));
    assert_eq!(
        service.take_parent_intent("direct", &ToolCallSource::DirectPlaintextMessage),
        Some("Look.".to_string())
    );
    assert_eq!(service.take_parent_intent("direct", &ToolCallSource::Direct), None);
    service.record_direct_parent_intent("direct", Some("Look.".to_string()));
    service.discard_direct_parent_intent("direct");
    assert_eq!(service.take_parent_intent("direct", &ToolCallSource::Direct), None);
}

#[test]
fn scripts_are_remembered_only_for_a_reducer() {
    let mut service = service(config(false));
    service.record_cell_script("cell", "text(1)");
    assert_eq!(service.cell_script("cell", false), None);
    service.refresh_reduction_config(config(true));
    service.record_cell_script("cell", "text(1)");
    assert_eq!(service.cell_script("cell", false), Some("text(1)".to_string()));
    assert_eq!(service.cell_script("cell", true), Some("text(1)".to_string()));
    assert_eq!(service.cell_script("cell", true), None);
    service.record_cell_script("cell", "text(2)");
    service.refresh_reduction_config(config(false));
    service.refresh_reduction_config(config(true));
    assert_eq!(service.cell_script("cell", true), None);
}

#[test]
fn a_response_is_described_until_its_cell_ends() {
    let mut service = service(config(true));
    service.record_cell_script("cell", "text(1)");
    service.record_direct_parent_intent("call", Some("Inspect.".to_string()));
    service.move_parent_intent_to_cell("call", "cell");
    service.observe_tool_result(&nested("cell"), &ToolName::plain("exec_command"), None, &running_result());

    let pending = service.take_response(&unchanged, true, "thread", "turn", "call", yielded("cell"));
    assert_eq!(pending.plan, OutputPlan::Reduce);
    assert_eq!(pending.context.script_status, "Script running with cell ID cell");
    assert!(pending.success);

    let pending = service.take_response(&unchanged, true, "thread", "turn", "wait-call", result("cell", Some("boom")));
    assert_eq!(pending.context.thread_id, "thread");
    assert_eq!(pending.context.turn_id, "turn");
    assert_eq!(pending.context.call_id, "wait-call");
    assert_eq!(pending.context.cell_id, "cell");
    assert_eq!(pending.context.script.as_deref(), Some("text(1)"));
    assert_eq!(pending.context.parent_intent.as_deref(), Some("Inspect."));
    assert_eq!(pending.context.actionable_state.map(|state| state.entries.len()), Some(1));
    assert_eq!(pending.context.script_status, "Script failed");
    assert_eq!(pending.content_items, vec![text_item("output"), text_item("Script error:\nboom")]);
    assert!(!pending.success);

    let pending = service.take_response(
        &unchanged,
        true,
        "thread",
        "turn",
        "late-call",
        RuntimeResponse::Terminated { cell_id: "cell".to_string(), content_items: Vec::new() },
    );
    assert_eq!(pending.context.script, None);
    assert_eq!(pending.context.parent_intent, None);
    assert_eq!(pending.context.actionable_state, None);
    assert_eq!(pending.context.script_status, "Script terminated");
    assert!(pending.success);
}

#[test]
fn without_a_reducer_nobody_is_told() {
    let mut service = service(config(false));
    service.record_direct_parent_intent("call", Some("Inspect.".to_string()));
    service.move_parent_intent_to_cell("call", "cell");
    service.observe_tool_result(&nested("cell"), &ToolName::plain("exec_command"), None, &running_result());
    let pending = service.take_response(&unchanged, true, "thread", "turn", "call", result("cell", None));
    assert_eq!(pending.plan, OutputPlan::Reduce);
    assert_eq!(pending.context.parent_intent, None);
    assert_eq!(pending.context.actionable_state, None);
    assert_eq!(pending.context.script_status, "Script completed");
    let shown = reduce_code_mode_result(
        &unlimited,
        ReducerReply::Absent,
        None,
        4_000,
        &pending.context,
        pending.content_items,
        None,
        None,
    );
    let output = finish_response(&pending.context.script_status, 125, shown, pending.success);
    assert_eq!(
        output.content,
        vec![text_item("Script completed\nWall time 12.5 seconds\nOutput:\n"), text_item("output")]
    );
    assert_eq!(output.success, Some(true));
}

#[test]
fn yielded_exec_is_reduced_once_only_after_terminal_wait() {
    let mut service = service(keeping());
    let pending = service.take_response(&unchanged, true, "thread", "turn", "exec-deferred", yielded("token-miser-test-cell-1"));
    assert_eq!(pending.plan, OutputPlan::ShowStatus);
    let output = finish_response(&pending.context.script_status, 0, Vec::new(), pending.success);
    assert_eq!(
        output.content,
        vec![text_item("Script running with cell ID token-miser-test-cell-1\nWall time 0.0 seconds\nOutput:\n")]
    );
    let pending = service.take_response(&unchanged, true, "thread", "turn", "wait-deferred", result("token-miser-test-cell-1", None));
    assert_eq!(pending.plan, OutputPlan::Keep);
}

fn kept_session() -> CodeModeService {
    CodeModeService::new(
        None,
        10_000,
        keeping(),
        &vec![RolloutItem::TokenMiserOutput(TokenMiserOutput {
            version: 1,
            object_id: OBJECT_ID.to_string(),
            thread_id: "thread".to_string(),
            turn_id: "turn".to_string(),
            call_id: "call".to_string(),
            cell_id: "cell".to_string(),
            script_status: "Script completed".to_string(),
            success: Some(true),
            content_items: vec![text_item("raw-terminal-secret")],
        })],
        &Some("thread".to_string()),
    )
}

#[test]
fn a_retrieving_script_shows_its_exact_output() {
    let mut service = kept_session();
    let args = || {
        Ok(ReadArgs { object_id: OBJECT_ID.to_string(), item_index: 0, offset: 0, max_bytes: default_read_bytes() })
    };
    let read = handle_read(&mut service, "thread", &nested("retrieving-cell"), args()).expect("a kept output");
    assert_eq!(read.get("content").and_then(Json::as_str), Some("raw-terminal-secret"));
    assert_eq!(
        render_retrieval(&read),
        format!("<token_miser_retrieval>{}</token_miser_retrieval>", read.to_text())
    );
    let still = service.take_response(&unchanged, true, "thread", "turn-2", "call-2", yielded("retrieving-cell"));
    assert_eq!(still.plan, OutputPlan::ShowStatus);
    let ended = service.take_response(&unchanged, true, "thread", "turn-2", "call-2", result("retrieving-cell", None));
    assert_eq!(ended.plan, OutputPlan::ShowExact);
    let again = service.take_response(&unchanged, true, "thread", "turn-2", "call-3", result("retrieving-cell", None));
    assert_eq!(again.plan, OutputPlan::Keep);

    assert!(handle_read(&mut service, "another-thread", &nested("foreign-cell"), args()).is_err());
    let ended = service.take_response(&unchanged, true, "thread", "turn-2", "call-4", result("foreign-cell", None));
    assert_eq!(ended.plan, OutputPlan::Keep);
}

#[test]
fn retrieval_arguments_are_checked() {
    let mut service = kept_session();
    assert_eq!(
        handle_read(&mut service, "thread", &ToolCallSource::Direct, Err("missing field".to_string()))
            .map(|found| found.to_text()),
        Err("invalid retrieval arguments: missing field".to_string())
    );
    assert_eq!(
        handle_search(&mut service, "thread", &ToolCallSource::Direct, Err("missing field".to_string()))
            .map(|found| found.to_text()),
        Err("invalid search arguments: missing field".to_string())
    );
    let found = handle_search(
        &mut service,
        "thread",
        &nested("searching-cell"),
        Ok(SearchArgs {
            object_id: OBJECT_ID.to_string(),
            query: "terminal".to_string(),
            max_results: default_search_results(),
        }),
    )
    .expect("a match");
    assert_eq!(
        found.to_text(),
        r#"{"matches":[{"column":4,"item_index":0,"line":1,"snippet":"raw-terminal-secret"}],"max_results":10,"object_id":"00000000-0000-4000-8000-000000000001","query":"terminal"}"#
    );
    let ended = service.take_response(&unchanged, true, "thread", "turn-2", "call-2", result("searching-cell", None));
    assert_eq!(ended.plan, OutputPlan::ShowExact);

    let payload = ToolPayload::Function { arguments: "{}".to_string() };
    assert_eq!(function_arguments("read_token_miser_output", &payload), Ok("{}"));
    assert_eq!(
        function_arguments("read_token_miser_output", &ToolPayload::ToolSearch),
        Err("read_token_miser_output requires function arguments".to_string())
    );
    assert_eq!(read_tool_spec().parameters.iter().filter(|parameter| parameter.required).count(), 1);
    assert_eq!(search_tool_spec().name, "search_token_miser_output");
}

#[test]
fn the_unavailable_warning_is_given_once() {
    let mut service =
        CodeModeService::new(Some("the host is missing".to_string()), 10_000, config(false), &Vec::new(), &None);
    assert!(!service.is_available());
    assert_eq!(
        service.take_unavailable_warning(ToolMode::Direct).as_deref(),
        Some(
            "Code Mode is unavailable because the host is missing. Falling back to direct tools; enable `features.code_mode_host` and install `codex-code-mode-host`."
        )
    );
    assert_eq!(service.take_unavailable_warning(ToolMode::CodeModeOnly), None);
    let mut service =
        CodeModeService::new(Some("the host is missing".to_string()), 10_000, config(false), &Vec::new(), &None);
    assert_eq!(
        service.take_unavailable_warning(ToolMode::CodeMode).as_deref(),
        Some(
            "Code Mode is unavailable because the host is missing. Code mode will fail closed; enable `features.code_mode_host` and install `codex-code-mode-host`."
        )
    );
    let mut available = CodeModeService::new(None, 10_000, config(false), &Vec::new(), &None);
    assert!(available.is_available());
    assert_eq!(available.take_unavailable_warning(ToolMode::Direct), None);
}

#[test]
fn a_session_ends_with_its_shutdown() {
    let mut service = service(config(true));
    assert_eq!(service.session(), Ok(()));
    assert_eq!(service.resolve_yield_time(None), 10_000);
    assert_eq!(service.resolve_yield_time(Some(7)), 7);
    service.record_cell_script("cell", "text(1)");
    service.record_direct_parent_intent("call", Some("Inspect.".to_string()));
    service.observe_tool_result(&nested("cell"), &ToolName::plain("exec_command"), None, &running_result());
    service.interrupt_active_cells();
    assert_eq!(service.cell_script("cell", false), None);
    assert_eq!(service.take_parent_intent("call", &ToolCallSource::Direct), None);
    assert_eq!(service.cell_actionable_state("cell", false), None);
    service.shutdown();
    assert_eq!(service.session(), Err("code mode session is shutting down".to_string()));
    assert!(!service.pwrdrvr_token_miser_is_enabled());
    service.set_pwrdrvr_token_miser_activation_nonce(Some("nonce".to_string()));
    assert!(service.pwrdrvr_token_miser_is_enabled() && service.pwrdrvr_token_miser().is_enabled());
}

#[test]
fn acceptances_go_to_a_configured_reducer() {
    let response_ids = vec!["response-1".to_string(), "response-2".to_string()];
    let with = service(config(true));
    let sent = with.accept_post_tool_use_replacements(&response_ids, "session-id", "turn-id", "tool-use-id");
    assert_eq!(sent.len(), 2);
    assert_eq!(sent[1].response_id, "response-2");
    assert_eq!(sent[1].session_id, "session-id");
    assert_eq!(sent[1].turn_id, "turn-id");
    assert_eq!(sent[1].tool_use_id, "tool-use-id");
    let without = service(config(false));
    assert!(
        without.accept_post_tool_use_replacements(&response_ids, "session-id", "turn-id", "tool-use-id").is_empty()
    );
}

#[test]
fn server_capabilities_advertises_code_mode_output_reducer_contract() {
    assert_eq!(ServerCapabilitiesReadParams::default(), ServerCapabilitiesReadParams {});
    let capabilities = read_server_capabilities();
    let reducer = capabilities.code_mode_output_reducer;
    assert_eq!(
        (reducer.protocol_version, reducer.continuation_guidance_version, reducer.intent_context_version),
        (1, 1, 1)
    );
    assert_eq!(reducer.reducer_request_field, "parent_intent");
    assert_eq!(reducer.post_tool_use_field, "parent_intent");
    assert_eq!(reducer.model_guidance.version, 1);
    assert_eq!(
        reducer.model_guidance.tool_description_config_key,
        "features.code_mode.output_reducer.tool_description_guidance"
    );
    assert_eq!(
        reducer.model_guidance.continuation_config_key,
        "features.code_mode.output_reducer.continuation_guidance"
    );
    assert_eq!(
        reducer.model_guidance.model_visible_overhead_request_field,
        "model_visible_overhead_characters"
    );
    assert_eq!(reducer.actionable_state.version, 1);
    assert_eq!(reducer.actionable_state.reducer_request_field, "actionable_state");
    assert_eq!(reducer.actionable_state.reducer_response_field, "actionable_state");
    assert_eq!(reducer.actionable_state.model_output_tag, "codex_actionable_state");
    assert_eq!(reducer.config_key, "features.code_mode.output_reducer");
    assert_eq!(reducer.max_output_tokens_ceiling_config_key, "features.code_mode.max_output_tokens_ceiling");
    assert_eq!(reducer.post_tool_use_nested_context_field, "is_code_mode_nested");
    assert_eq!(reducer.post_tool_use_grouping.version_field, "token_miser_grouping_version");
    assert_eq!(reducer.post_tool_use_grouping.version, 1);
    assert_eq!(reducer.post_tool_use_grouping.cell_id_field, "code_mode_cell_id");
    assert_eq!(reducer.post_tool_use_grouping.tool_call_id_field, "code_mode_tool_call_id");
    assert_eq!(reducer.post_tool_use_exact_output.version, 1);
    assert_eq!(
        reducer.post_tool_use_exact_output.version_field,
        "token_miser_exact_tool_response_version"
    );
    assert_eq!(reducer.post_tool_use_exact_output.response_field, "token_miser_exact_tool_response");
    assert!(reducer.supports_thread_resume_overrides);
    assert_eq!(reducer.dynamic_tools_resume_field, "dynamicTools");
    assert_eq!(reducer.acceptance.descriptor_url_field, "acceptance_url");
    assert_eq!(reducer.acceptance.response_id_field, "response_id");
    assert_eq!(reducer.acceptance.callback_version, 1);
    let direct = reducer.acceptance.direct_post_tool_use;
    assert_eq!(direct.hook_response_id_field, "hookSpecificOutput.response_id");
    assert_eq!(direct.hook_acceptance_version_field, "token_miser_acceptance_version");
    assert_eq!(direct.hook_acceptance_version, 1);
    assert_eq!(direct.session_id_field, "session_id");
    assert_eq!(direct.turn_id_field, "turn_id");
    assert_eq!(direct.tool_use_id_field, "tool_use_id");
    assert_eq!(capabilities.pwrdrvr_token_miser.identity, "pwrdrvr.pwragent.token-miser");
    assert_eq!(
        capabilities.pwrdrvr_token_miser.descriptor_environment_variable,
        "PWRAGENT_TOKEN_MISER_BRIDGE_DESCRIPTOR_PATH"
    );
}
