//! What the model reads of a script's response, from the settings to the shown items.
use code_mode_reduction::capabilities::{GaugeSnapshot, ServerDiagnosticsProcess, read_server_diagnostics};
use code_mode_reduction::context::{
    CODE_MODE_OUTPUT_REPLACEMENT_FOOTER, CODE_MODE_OUTPUT_REPLACEMENT_HEADER, model_visible_overhead_characters,
};
use code_mode_reduction::items::FunctionCallOutputContentItem;
use code_mode_reduction::json::{Json, Member};
use code_mode_reduction::miser_reducer::{
    ReducerDecision, ReducerOutcome, ReducerResponse, finish_run, reducer_input,
};
use code_mode_reduction::payload::{ToolCallSource, ToolName, ToolPayload};
use code_mode_reduction::reducer::{ReducerReply, TruncationStyle};
use code_mode_reduction::response::{FunctionToolOutput, RuntimeResponse};
use code_mode_reduction::service::{
    CodeModeReductionRuntimeConfig, CodeModeService, ModelBudget, OutputPlan, PendingResponse, TokenMiserSettings,
    handle_runtime_response,
};
use code_mode_reduction::token_miser::{
    TerminalKey, TerminalStep, TokenMiserDecision, TokenUsage, decision_record,
};

const RAW_SECRET: &str = "raw-terminal-secret-that-only-luna-may-release";
const RAW_HEAD: &str = "raw-terminal";
const RAW_TAIL: &str = "-may-release";

fn unchanged(
    items: Vec<FunctionCallOutputContentItem>,
    _original_detail: bool,
) -> Vec<FunctionCallOutputContentItem> {
    items
}

fn text_item(text: &str) -> FunctionCallOutputContentItem {
    FunctionCallOutputContentItem::InputText { text: text.to_string() }
}

/// Keeps as many items as there are tokens.
fn first_items(
    items: Vec<FunctionCallOutputContentItem>,
    _style: TruncationStyle,
    tokens: usize,
) -> Vec<FunctionCallOutputContentItem> {
    items.into_iter().take(tokens).collect()
}

fn settings(has_output_reducer: bool, keeps: bool) -> CodeModeReductionRuntimeConfig {
    CodeModeReductionRuntimeConfig {
        max_output_tokens_ceiling: None,
        has_output_reducer,
        token_miser: if keeps {
            Some(TokenMiserSettings { max_reducer_input_bytes: 128 * 1024, max_replacement_bytes: 4 * 1024 })
        } else {
            None
        },
    }
}

fn service(config: CodeModeReductionRuntimeConfig) -> CodeModeService {
    CodeModeService::new(None, 10_000, config, &Vec::new(), &Some("thread".to_string()))
}

fn completed(cell_id: &str, texts: &[&str]) -> RuntimeResponse {
    RuntimeResponse::Result {
        cell_id: cell_id.to_string(),
        content_items: texts.iter().map(|text| text_item(text)).collect(),
        error_text: None,
    }
}

fn budget(max_output_tokens: Option<usize>, ceiling: Option<usize>) -> ModelBudget<'static> {
    ModelBudget {
        continuation_guidance: Some("look closer"),
        max_guidance_characters: 4,
        max_output_tokens,
        max_output_tokens_ceiling: ceiling,
    }
}

fn shown(output: &FunctionToolOutput) -> Vec<&str> {
    output
        .content
        .iter()
        .map(|item| match item {
            FunctionCallOutputContentItem::InputText { text } => text.as_str(),
            other => panic!("expected text, got {other:?}"),
        })
        .collect()
}

fn take(service: &mut CodeModeService, call_id: &str, response: RuntimeResponse) -> PendingResponse {
    service.take_response(&unchanged, true, "thread", "turn", call_id, response)
}

#[test]
fn without_a_reducer_the_output_is_truncated_to_the_clamped_budget() {
    let mut service = service(settings(false, false));
    let pending = take(&mut service, "call", completed("cell", &["a", "b", "c"]));
    assert_eq!(pending.plan, OutputPlan::Reduce);
    let output = handle_runtime_response(
        &first_items,
        pending,
        ReducerReply::Absent,
        Vec::new(),
        budget(Some(3), Some(2)),
        15,
    );
    assert_eq!(output.success, Some(true));
    assert_eq!(shown(&output), ["Script completed\nWall time 1.5 seconds\nOutput:\n", "a", "b"]);
}

#[test]
fn a_selected_replacement_is_fenced_guided_and_followed_by_the_handles() {
    let mut service = service(settings(true, false));
    service.record_actionable_tool_result(
        &ToolCallSource::CodeMode { cell_id: "cell".to_string(), runtime_tool_call_id: "1".to_string() },
        &ToolName::plain("write_stdin"),
        &ToolPayload::Function { arguments: r#"{"session_id": 7, "chars": ""}"#.to_string() },
        &Json::Object(vec![
            Member { key: "chunk_id".to_string(), value: Json::Text("0a1B2c".to_string()) },
            Member { key: "exit_code".to_string(), value: Json::Int(3) },
        ]),
    );
    let pending = take(
        &mut service,
        "call",
        RuntimeResponse::Result {
            cell_id: "cell".to_string(),
            content_items: vec![text_item("output")],
            error_text: Some("broken".to_string()),
        },
    );
    assert_eq!(pending.content_items, [text_item("output"), text_item("Script error:\nbroken")]);
    let output = handle_runtime_response(
        &first_items,
        pending,
        ReducerReply::Replacement(vec![text_item("summary")]),
        Vec::new(),
        budget(None, None),
        0,
    );
    assert_eq!(output.success, Some(false));
    assert_eq!(
        shown(&output),
        [
            "Script failed\nWall time 0.0 seconds\nOutput:\n",
            CODE_MODE_OUTPUT_REPLACEMENT_HEADER,
            "summary",
            CODE_MODE_OUTPUT_REPLACEMENT_FOOTER,
            "look",
            completed_handle(),
        ]
    );
}

fn completed_handle() -> &'static str {
    "<codex_actionable_state>{\"version\":1,\"entries\":[{\"session_id\":7,\"process_id\":7,\"chunk_id\":\"0a1B2c\",\
     \"state\":\"completed\",\"exit_code\":3,\"required_follow_up\":null}]}</codex_actionable_state>"
}

/// Settles a call's output with a scripted reducer and returns the identity that it was kept under.
fn settle(service: &mut CodeModeService, key: &TerminalKey, answer: ReducerResponse) -> String {
    let TerminalStep::Persist(raw) = service.token_miser().next_terminal_step(key) else {
        panic!("a fresh output is stored first");
    };
    service.token_miser().record_persistence(key, true);
    let TerminalStep::Reduce(reduced) = service.token_miser().next_terminal_step(key) else {
        panic!("a stored output is decided on");
    };
    assert_eq!(raw, reduced);
    let usage = TokenUsage {
        input_tokens: 7,
        cached_input_tokens: 1,
        cache_write_input_tokens: 2,
        output_tokens: 6,
        reasoning_output_tokens: 3,
        total_tokens: 13,
    };
    let run = finish_run(ReducerOutcome::Answered(answer), Some(usage), 4 * 1024);
    assert_eq!(decision_record(&raw, &run.decision, run.usage).usage, Some(usage));
    service.token_miser().record_decision(key, run.decision, true);
    assert!(matches!(service.token_miser().next_terminal_step(key), TerminalStep::Show(..)));
    raw.object_id
}

fn keep(service: &mut CodeModeService, call_id: &str, cell_id: &str) -> (PendingResponse, Option<TerminalKey>) {
    let mut pending = take(service, call_id, completed(cell_id, &[RAW_SECRET]));
    assert_eq!(pending.plan, OutputPlan::Keep);
    let items = std::mem::take(&mut pending.content_items);
    let status = pending.context.script_status.clone();
    let key = service.token_miser().begin_terminal(&pending.context, &status, Some(pending.success), items);
    (pending, key)
}

#[test]
fn a_kept_output_takes_precedence_over_the_reducer_and_shows_what_was_decided() {
    let mut service = service(settings(true, true));
    service.record_direct_parent_intent("call", Some("Inspect the command result.".to_string()));
    service.move_parent_intent_to_cell("call", "cell");
    let (pending, key) = keep(&mut service, "call", "cell");
    assert_eq!(pending.context.parent_intent.as_deref(), Some("Inspect the command result."));
    let key = key.expect("a small output");
    let TerminalStep::Persist(raw) = service.token_miser().next_terminal_step(&key) else {
        panic!("a fresh output is stored first");
    };
    let input = reducer_input(&pending.context, &raw, 128 * 1024).expect("a bounded input");
    assert!(input.len() <= 896);
    assert!(input.contains(RAW_HEAD) && input.contains(RAW_TAIL) && !input.contains(RAW_SECRET));
    assert!(!input.contains("Inspect the command result."));

    let object_id = settle(
        &mut service,
        &key,
        ReducerResponse { decision: ReducerDecision::Replace, replacement: Some("selected fact".to_string()) },
    );
    let kept = service.token_miser().reduce_terminal(&first_items, &Some(key), None, 4 * 1024);
    let output = handle_runtime_response(
        &first_items,
        pending,
        ReducerReply::Replacement(vec![text_item("from the other reducer")]),
        kept,
        budget(None, None),
        1,
    );
    let texts = shown(&output);
    assert_eq!(texts.len(), 5);
    assert_eq!(texts[1..4], [CODE_MODE_OUTPUT_REPLACEMENT_HEADER, "selected fact", CODE_MODE_OUTPUT_REPLACEMENT_FOOTER]);
    assert!(texts[4].contains(&format!("Output reduced by Luna. Exact output object: {object_id}.")));
    assert!(texts.iter().all(|text| !text.contains(RAW_SECRET)));
    let read = service.read_token_miser_output("thread", &object_id, 0, 0, 4_096).expect("the kept output");
    assert_eq!(read.get("content").and_then(Json::as_str), Some(RAW_SECRET));
}

#[test]
fn a_withheld_output_says_why() {
    let mut service = service(settings(false, true));
    let (_, key) = keep(&mut service, "call", "cell");
    let key = key.expect("a small output");
    service.token_miser().record_persistence(&key, false);
    let withheld = service.token_miser().reduce_terminal(&first_items, &Some(key), None, 16);
    assert_eq!(
        withheld,
        [text_item(
            "<token_miser_receipt>Tool output was withheld because durable Token Miser storage was unavailable. \
             The turn may continue without the output.</token_miser_receipt>"
        )]
    );
    let too_large = service.token_miser().reduce_terminal(&first_items, &None, None, 16);
    assert_eq!(
        too_large,
        [text_item(
            "<token_miser_receipt>Tool output exceeded Token Miser's durable storage bound and was withheld. \
             The turn may continue without the output.</token_miser_receipt>"
        )]
    );
}

#[test]
fn parallel_outputs_are_kept_under_identities_of_their_own() {
    let mut service = service(settings(false, true));
    let (_, first) = keep(&mut service, "call-1", "cell-1");
    let (_, second) = keep(&mut service, "call-2", "cell-2");
    let hide = || ReducerResponse { decision: ReducerDecision::Hide, replacement: None };
    let first_id = settle(&mut service, &first.expect("a small output"), hide());
    let second_id = settle(&mut service, &second.expect("a small output"), hide());
    assert_ne!(first_id, second_id);
    for object_id in [first_id, second_id] {
        assert!(service.read_token_miser_output("thread", &object_id, 0, 0, 16).is_ok());
        assert!(service.read_token_miser_output("another", &object_id, 0, 0, 16).is_err());
    }
}

#[test]
fn a_running_script_shows_its_header_alone_where_outputs_are_kept() {
    let mut service = service(settings(true, true));
    let pending = take(
        &mut service,
        "call",
        RuntimeResponse::Yielded { cell_id: "cell".to_string(), content_items: vec![text_item("live preview")] },
    );
    assert_eq!(pending.plan, OutputPlan::ShowStatus);
    let output =
        handle_runtime_response(&first_items, pending, ReducerReply::Absent, Vec::new(), budget(None, None), 123);
    assert_eq!(output.success, Some(true));
    assert_eq!(shown(&output), ["Script running with cell ID cell\nWall time 12.3 seconds\nOutput:\n"]);
}

#[test]
fn a_retrieving_script_shows_its_items_truncated() {
    let mut service = service(settings(true, true));
    service.mark_token_miser_retrieval(&ToolCallSource::CodeMode {
        cell_id: "cell".to_string(),
        runtime_tool_call_id: "1".to_string(),
    });
    let pending = take(&mut service, "call", completed("cell", &["a", "b"]));
    assert_eq!(pending.plan, OutputPlan::ShowExact);
    let output =
        handle_runtime_response(&first_items, pending, ReducerReply::Absent, Vec::new(), budget(Some(1), None), 10);
    assert_eq!(shown(&output), ["Script completed\nWall time 1.0 seconds\nOutput:\n", "a"]);
    let next = take(&mut service, "call", completed("cell", &["c"]));
    assert_eq!(next.plan, OutputPlan::Keep);
}

#[test]
fn a_terminated_script_succeeds() {
    let mut service = service(settings(false, false));
    let pending = take(
        &mut service,
        "call",
        RuntimeResponse::Terminated { cell_id: "cell".to_string(), content_items: Vec::new() },
    );
    let output =
        handle_runtime_response(&first_items, pending, ReducerReply::Absent, Vec::new(), budget(None, None), 0);
    assert_eq!(output.success, Some(true));
    assert_eq!(shown(&output), ["Script terminated\nWall time 0.0 seconds\nOutput:\n"]);
}

#[test]
fn diagnostics_report_the_process_and_each_gauge() {
    let process =
        ServerDiagnosticsProcess { id: 42, resident_memory_bytes: Some(1), physical_footprint_bytes: None };
    let gauges = vec![
        GaugeSnapshot { name: "app.requests.in_flight", value: 1 },
        GaugeSnapshot { name: "core.threads.live", value: 2 },
    ];
    let response = read_server_diagnostics(process, &gauges);
    assert_eq!(response.process.id, 42);
    assert_eq!(response.process.resident_memory_bytes, Some(1));
    assert_eq!(response.process.physical_footprint_bytes, None);
    let read: Vec<(&str, u64)> =
        response.gauges.iter().map(|gauge| (gauge.name.as_str(), gauge.value)).collect();
    assert_eq!(read, [("app.requests.in_flight", 1), ("core.threads.live", 2)]);
}

#[test]
fn discarded_narration_and_bridge_activation_are_remembered_as_told() {
    let mut service = service(settings(true, false));
    service.record_direct_parent_intent("call", Some("why".to_string()));
    service.discard_direct_parent_intent("call");
    assert_eq!(service.take_parent_intent("call", &ToolCallSource::Direct), None);
    assert!(!service.pwrdrvr_token_miser_is_enabled());
    service.set_pwrdrvr_token_miser_activation_nonce(Some("nonce".to_string()));
    assert!(service.pwrdrvr_token_miser_is_enabled() && service.pwrdrvr_token_miser().is_enabled());
    service.set_pwrdrvr_token_miser_activation_nonce(None);
    assert!(!service.pwrdrvr_token_miser_is_enabled());
}

#[test]
fn the_reported_overhead_is_the_framing_that_is_shown() {
    let fences = CODE_MODE_OUTPUT_REPLACEMENT_HEADER.chars().count() + CODE_MODE_OUTPUT_REPLACEMENT_FOOTER.chars().count();
    assert_eq!(fences, 110);
    assert_eq!(model_visible_overhead_characters(None, 4), fences);
    assert_eq!(model_visible_overhead_characters(Some(""), 4), fences);
    assert_eq!(model_visible_overhead_characters(Some("界界"), 4), fences + 2);
    assert_eq!(model_visible_overhead_characters(Some("look closer"), 4), fences + 4);
}

fn image(detail: Option<&str>) -> FunctionCallOutputContentItem {
    FunctionCallOutputContentItem::InputImage {
        image_url: "data:image/png;base64,AAEC".to_string(),
        detail: detail.map(str::to_string),
    }
}

/// Takes the original detail away from a model that may not ask for it.
fn without_original_detail(
    items: Vec<FunctionCallOutputContentItem>,
    original_detail: bool,
) -> Vec<FunctionCallOutputContentItem> {
    items
        .into_iter()
        .map(|item| match item {
            FunctionCallOutputContentItem::InputImage { image_url, detail } => {
                FunctionCallOutputContentItem::InputImage {
                    image_url,
                    detail: detail.filter(|detail| original_detail || detail != "original"),
                }
            }
            other => other,
        })
        .collect()
}

#[test]
fn image_details_are_cleaned_for_the_model_before_anything_is_shown() {
    let cell_id = || "cell".to_string();
    let content_items = || vec![image(Some("original")), image(Some("low"))];
    for original_detail in [true, false] {
        let kept = if original_detail { Some("original") } else { None };
        let cleaned = vec![image(kept), image(Some("low"))];
        let mut failed = cleaned.clone();
        failed.push(text_item("Script error:\nbroken"));
        for (response, expected) in [
            (RuntimeResponse::Yielded { cell_id: cell_id(), content_items: content_items() }, &cleaned),
            (RuntimeResponse::Terminated { cell_id: cell_id(), content_items: content_items() }, &cleaned),
            (
                RuntimeResponse::Result { cell_id: cell_id(), content_items: content_items(), error_text: None },
                &cleaned,
            ),
            (
                RuntimeResponse::Result {
                    cell_id: cell_id(),
                    content_items: content_items(),
                    error_text: Some("broken".to_string()),
                },
                &failed,
            ),
        ] {
            let pending = service(settings(true, false)).take_response(
                &without_original_detail,
                original_detail,
                "thread",
                "turn",
                "call",
                response,
            );
            assert_eq!(&pending.content_items, expected);
        }
    }
}

#[test]
fn two_callers_are_not_given_the_same_work() {
    let mut service = service(settings(false, true));
    let (_, key) = keep(&mut service, "call", "cell");
    let key = key.expect("a small output");
    let Some(TerminalStep::Persist(raw)) = service.token_miser().claim_terminal_step(&key) else {
        panic!("the first caller stores the output");
    };
    assert_eq!(service.token_miser().claim_terminal_step(&key), None);
    service.token_miser().abandon_terminal_step(&key);
    assert_eq!(service.token_miser().claim_terminal_step(&key), Some(TerminalStep::Persist(raw.clone())));
    service.token_miser().record_persistence(&key, true);
    assert_eq!(service.token_miser().claim_terminal_step(&key), Some(TerminalStep::Reduce(raw.clone())));
    assert_eq!(service.token_miser().claim_terminal_step(&key), None);
    let (_, again) = keep(&mut service, "call", "cell");
    assert_eq!(again.as_ref(), Some(&key));
    assert_eq!(service.token_miser().claim_terminal_step(&key), None);
    service.token_miser().record_decision(&key, TokenMiserDecision::Passthrough, true);
    let shown = || Some(TerminalStep::Show(raw.clone(), TokenMiserDecision::Passthrough));
    assert_eq!(service.token_miser().claim_terminal_step(&key), shown());
    assert_eq!(service.token_miser().claim_terminal_step(&key), shown());
}
