//! Exact outputs: keeping, deciding, restoring, reading and searching.
use code_mode_reduction::context::{
    CODE_MODE_OUTPUT_REPLACEMENT_FOOTER, CODE_MODE_OUTPUT_REPLACEMENT_HEADER, ContextualUserFragment,
    TokenMiserReceipt, TokenMiserReducerInput, TokenMiserRetrievalResult,
};
use code_mode_reduction::identity::check_v4;
use code_mode_reduction::items::{FunctionCallOutputContentItem, item_source};
use code_mode_reduction::json::Json;
use code_mode_reduction::miser_reducer::{
    ChildEvent, ChildStep, FeatureReport, MAX_REDUCER_INPUT_BYTES, REDUCER_INSTRUCTIONS, ReducerDecision,
    ReducerFeature, ReducerOutcome, ReducerResponse, after_child_event, bounded_head_tail, finish_run, output_schema,
    reducer_config, reducer_input, reducer_settings,
};
use code_mode_reduction::reducer::{ReductionContext, TruncationStyle};
use code_mode_reduction::token_miser::{
    MAX_FRAME_BYTES, MAX_PERSISTED_OUTPUT_ITEMS, MAX_PERSISTED_OUTPUT_SOURCE_BYTES, MAX_READ_BYTES,
    MAX_SEARCH_RESULTS, MAX_SEARCH_SNIPPET_BYTES, RolloutItem, TOKEN_MISER_VERSION, TerminalStep,
    TokenMiserDecision, TokenMiserDecisionRecord, TokenMiserOutput, TokenMiserService, TokenMiserStoredOutcome,
    TokenUsage, decision_from_stored, decision_record, decision_to_stored, output_fits_storage_bound,
    shown_output, terminal_key, too_large_output, unavailable_output,
};

const OBJECT_ID: &str = "00000000-0000-4000-8000-000000000001";

fn thread_id(value: u128) -> String {
    uuid::Uuid::from_u128(value).to_string()
}

/// A token for every four bytes, rounded up.
fn approx_token_count(text: &str) -> usize {
    text.len().div_ceil(4)
}

fn raw_output(thread_id: &str, text: String) -> TokenMiserOutput {
    TokenMiserOutput {
        version: TOKEN_MISER_VERSION,
        object_id: OBJECT_ID.to_string(),
        thread_id: thread_id.to_string(),
        turn_id: "turn-id".to_string(),
        call_id: "call-id".to_string(),
        cell_id: "cell-id".to_string(),
        script_status: "Script completed".to_string(),
        success: Some(true),
        content_items: vec![FunctionCallOutputContentItem::InputText { text }],
    }
}

fn reduction_context() -> ReductionContext {
    ReductionContext {
        thread_id: "thread-id".to_string(),
        turn_id: "turn-id".to_string(),
        call_id: "call-id".to_string(),
        cell_id: "cell-id".to_string(),
        script: Some("text(result)".to_string()),
        parent_intent: None,
        actionable_state: None,
        script_status: "Script completed".to_string(),
    }
}

fn restored(items: Vec<RolloutItem>, owner: &str) -> TokenMiserService {
    TokenMiserService::new(&items, &Some(owner.to_string()))
}

fn text_item(text: &str) -> FunctionCallOutputContentItem {
    FunctionCallOutputContentItem::InputText { text: text.to_string() }
}

fn matches_of(search: &Json) -> &Vec<Json> {
    match search.get("matches") {
        Some(Json::Array(matches)) => matches,
        other => panic!("expected matches, got {other:?}"),
    }
}

fn unlimited(
    items: Vec<FunctionCallOutputContentItem>,
    _style: TruncationStyle,
    _tokens: usize,
) -> Vec<FunctionCallOutputContentItem> {
    items
}

#[test]
fn reducer_input_is_hard_bounded_and_omits_the_middle_of_large_text() {
    let dense = "\u{10ffff}\0".repeat(40_000);
    let text = format!("HEAD{dense}MIDDLE-SECRET{dense}TAIL");
    let raw = raw_output(&thread_id(1), text);

    let rendered =
        reducer_input(&reduction_context(), &raw, 16 * 1024).expect("bounded reducer input should render");

    assert!(rendered.len() <= MAX_REDUCER_INPUT_BYTES);
    assert!(approx_token_count(&rendered) < 1_000);
    assert!(rendered.contains("HEAD"));
    assert!(rendered.contains("TAIL"));
    assert!(!rendered.contains("MIDDLE-SECRET"));
    assert!(!rendered.contains("parent_intent"));
}

#[test]
fn retrieval_is_exact_bounded_and_thread_scoped() {
    let owner = thread_id(2);
    let text = format!("first needle\n{}\nlast needle", "界".repeat(20_000));
    let service = restored(vec![RolloutItem::TokenMiserOutput(raw_output(&owner, text.clone()))], &owner);

    let first = service.read(&owner, OBJECT_ID, 0, 0, usize::MAX).expect("bounded read");
    assert!(first.get("content").and_then(Json::as_str).expect("text").len() <= MAX_READ_BYTES);
    assert!(first.get("next_offset").and_then(Json::as_i64).is_some());
    let search = service.search(&owner, OBJECT_ID, "needle", usize::MAX).expect("bounded search");
    assert_eq!(matches_of(&search).len(), 2);
    assert!(search.to_text().len() <= MAX_READ_BYTES);
    assert_eq!(
        service.read(&thread_id(3), OBJECT_ID, 0, 0, 16).map(|found| found.to_text()),
        Err("Token Miser output was not found in this session".to_string())
    );

    let whole = service.read(&owner, OBJECT_ID, 0, 0, text.len()).expect("read remains capped");
    assert_ne!(whole.get("content").and_then(Json::as_str), Some(text.as_str()));

    let adversarial_text = (0..MAX_SEARCH_RESULTS)
        .map(|_| format!("needle{}\n", "\0".repeat(MAX_SEARCH_SNIPPET_BYTES)))
        .collect::<String>();
    let adversarial =
        restored(vec![RolloutItem::TokenMiserOutput(raw_output(&owner, adversarial_text))], &owner)
            .search(&owner, OBJECT_ID, "needle", usize::MAX)
            .expect("escape-dense search remains bounded");
    assert!(adversarial.to_text().len() <= MAX_READ_BYTES);
}

#[test]
fn restored_decision_is_reused_without_an_uncommitted_cell() {
    let owner = thread_id(4);
    let raw = raw_output(&owner, "exact".to_string());
    let decision = TokenMiserDecisionRecord {
        version: TOKEN_MISER_VERSION,
        object_id: raw.object_id.clone(),
        thread_id: owner.clone(),
        turn_id: raw.turn_id.clone(),
        call_id: raw.call_id.clone(),
        cell_id: raw.cell_id.clone(),
        outcome: TokenMiserStoredOutcome::Replace { replacement: "restored replacement".to_string() },
        usage: None,
    };
    let key = terminal_key(&raw);
    let service = restored(
        vec![RolloutItem::TokenMiserOutput(raw.clone()), RolloutItem::TokenMiserDecision(decision)],
        &owner,
    );

    assert_eq!(
        service.next_terminal_step(&key),
        TerminalStep::Show(raw, TokenMiserDecision::Replace("restored replacement".to_string()))
    );
}

#[test]
fn restored_raw_output_without_a_decision_is_not_reduced_again() {
    let owner = thread_id(5);
    let raw = raw_output(&owner, "exact".to_string());
    let key = terminal_key(&raw);
    let service = restored(vec![RolloutItem::TokenMiserOutput(raw.clone())], &owner);

    match service.next_terminal_step(&key) {
        TerminalStep::Show(shown, TokenMiserDecision::Hide(reason)) => {
            assert_eq!(shown.object_id, raw.object_id);
            assert_eq!(reason, "retained; prior reducer decision was unavailable");
        }
        other => panic!("expected a settled output, got {other:?}"),
    }
}

#[test]
fn structured_output_storage_bound_rejects_adversarial_oversize_without_serializing() {
    let within = vec![
        text_item("a\0b"),
        FunctionCallOutputContentItem::InputImage {
            image_url: "data:image/png;base64,AAEC".to_string(),
            detail: None,
        },
        FunctionCallOutputContentItem::EncryptedContent { encrypted_content: "ciphertext".to_string() },
    ];
    let exact_bytes = within.iter().map(|item| item_source(item).1.len()).sum::<usize>();
    let metadata = ["turn", "call", "cell", "status"];
    let metadata_bytes = metadata.iter().map(|value| value.len()).sum::<usize>();

    assert!(output_fits_storage_bound(&metadata, &within, 3, exact_bytes + metadata_bytes));
    assert!(!output_fits_storage_bound(&metadata, &within, 2, exact_bytes + metadata_bytes));
    assert!(!output_fits_storage_bound(&metadata, &within, 3, (exact_bytes + metadata_bytes).saturating_sub(1)));

    assert_eq!(MAX_PERSISTED_OUTPUT_SOURCE_BYTES * 8, MAX_FRAME_BYTES);
    let adversarial = vec![text_item(&"\0".repeat(MAX_PERSISTED_OUTPUT_SOURCE_BYTES))];
    assert!(output_fits_storage_bound(
        &[],
        &adversarial,
        MAX_PERSISTED_OUTPUT_ITEMS,
        MAX_PERSISTED_OUTPUT_SOURCE_BYTES,
    ));
    let oversized = vec![text_item(&"\0".repeat(MAX_PERSISTED_OUTPUT_SOURCE_BYTES + 1))];
    assert!(!output_fits_storage_bound(
        &[],
        &oversized,
        MAX_PERSISTED_OUTPUT_ITEMS,
        MAX_PERSISTED_OUTPUT_SOURCE_BYTES,
    ));
    assert!(!output_fits_storage_bound(
        &[item_source(&oversized[0]).1],
        &Vec::new(),
        MAX_PERSISTED_OUTPUT_ITEMS,
        MAX_PERSISTED_OUTPUT_SOURCE_BYTES,
    ));
}

#[test]
fn reading_on_gives_back_the_exact_item() {
    let owner = thread_id(6);
    let text = format!("a{}é", "界🦀b".repeat(5_000));
    let service = restored(vec![RolloutItem::TokenMiserOutput(raw_output(&owner, text.clone()))], &owner);
    let mut offset = 0;
    let mut read_back = String::new();
    loop {
        let piece = service.read(&owner, OBJECT_ID, 0, offset, 1_000).expect("read");
        let content = piece.get("content").and_then(Json::as_str).expect("content");
        assert!(content.len() <= 1_000);
        assert_eq!(piece.get("total_bytes").and_then(Json::as_i64), Some(text.len() as i64));
        read_back.push_str(content);
        match piece.get("next_offset").and_then(Json::as_i64) {
            Some(next) => offset = next as usize,
            None => break,
        }
    }
    assert_eq!(read_back, text);
}

#[test]
fn a_read_reports_its_item_and_complains_of_bad_places() {
    let owner = thread_id(7);
    let mut raw = raw_output(&owner, "界b".to_string());
    raw.content_items.push(FunctionCallOutputContentItem::InputImage {
        image_url: "data:image/png;base64,AAEC".to_string(),
        detail: Some("high".to_string()),
    });
    let service = restored(vec![RolloutItem::TokenMiserOutput(raw)], &owner);
    assert_eq!(
        service.read(&owner, OBJECT_ID, 0, 0, 3).expect("first character").to_text(),
        r#"{"content":"界","detail":null,"item_count":2,"item_index":0,"kind":"input_text","next_offset":3,"object_id":"00000000-0000-4000-8000-000000000001","offset":0,"total_bytes":4}"#
    );
    assert_eq!(
        service.read(&owner, OBJECT_ID, 1, 22, 8_192).expect("end of the image").to_text(),
        r#"{"content":"AAEC","detail":"high","item_count":2,"item_index":1,"kind":"input_image","next_offset":null,"object_id":"00000000-0000-4000-8000-000000000001","offset":22,"total_bytes":26}"#
    );
    let narrow = service.read(&owner, OBJECT_ID, 0, 0, 0).expect("at least one byte is asked for");
    assert_eq!(narrow.get("content").and_then(Json::as_str), Some(""));
    let error = |item: usize, offset: usize| {
        service.read(&owner, OBJECT_ID, item, offset, 16).map(|found| found.to_text()).expect_err("refused")
    };
    assert_eq!(error(2, 0), "content item 2 does not exist");
    assert_eq!(error(0, 1), "offset must be a UTF-8 boundary within the selected item");
    assert_eq!(error(0, 5), "offset must be a UTF-8 boundary within the selected item");
}

#[test]
fn a_search_reports_lines_and_byte_columns() {
    let owner = thread_id(8);
    let mut raw = raw_output(&owner, "plain\n界 needle needle\nlast".to_string());
    raw.content_items.push(text_item("needle"));
    let service = restored(vec![RolloutItem::TokenMiserOutput(raw)], &owner);
    assert_eq!(
        service.search(&owner, OBJECT_ID, "needle", 0).expect("one match").to_text(),
        r#"{"matches":[{"column":4,"item_index":0,"line":2,"snippet":"界 needle needle\n"}],"max_results":1,"object_id":"00000000-0000-4000-8000-000000000001","query":"needle"}"#
    );
    let both = service.search(&owner, OBJECT_ID, "needle", 7).expect("both matches");
    assert_eq!(
        matches_of(&both)[1].to_text(),
        r#"{"column":0,"item_index":1,"line":1,"snippet":"needle"}"#
    );
    assert_eq!(matches_of(&both).len(), 2);
    assert_eq!(matches_of(&service.search(&owner, OBJECT_ID, "absent", 7).expect("no match")).len(), 0);
    let complaint = Err("query must contain 1..=256 UTF-8 bytes".to_string());
    assert_eq!(service.search(&owner, OBJECT_ID, "", 7).map(|found| found.to_text()), complaint);
    assert_eq!(service.search(&owner, OBJECT_ID, &"x".repeat(257), 7).map(|found| found.to_text()), complaint);
    assert!(service.search(&owner, OBJECT_ID, &"x".repeat(256), 7).is_ok());
    assert_eq!(
        service.search(&thread_id(9), OBJECT_ID, "needle", 7).map(|found| found.to_text()),
        Err("Token Miser output was not found in this session".to_string())
    );
}

#[test]
fn restoring_skips_foreign_outdated_and_unnamed_outputs() {
    let owner = thread_id(10);
    let foreign = raw_output(&thread_id(11), "foreign".to_string());
    let mut outdated = raw_output(&owner, "outdated".to_string());
    outdated.version = 2;
    let mut unnamed = raw_output(&owner, "unnamed".to_string());
    unnamed.object_id = "00000000-0000-1000-8000-000000000001".to_string();
    let key = terminal_key(&foreign);
    let service = restored(
        vec![
            RolloutItem::TokenMiserOutput(foreign),
            RolloutItem::TokenMiserOutput(outdated),
            RolloutItem::TokenMiserOutput(unnamed),
            RolloutItem::Other,
        ],
        &owner,
    );
    assert_eq!(service.next_terminal_step(&key), TerminalStep::Unavailable);
    assert!(service.read(&owner, OBJECT_ID, 0, 0, 16).is_err());
    let anyone = TokenMiserService::new(
        &vec![RolloutItem::TokenMiserOutput(raw_output(&thread_id(11), "foreign".to_string()))],
        &None,
    );
    assert!(anyone.read(&thread_id(11), OBJECT_ID, 0, 0, 16).is_ok());
}

#[test]
fn a_decision_of_another_call_is_not_used() {
    let owner = thread_id(12);
    let raw = raw_output(&owner, "exact".to_string());
    let mut record = decision_record(&raw, &TokenMiserDecision::Passthrough, None);
    record.call_id = "another-call".to_string();
    let key = terminal_key(&raw);
    let service = restored(
        vec![RolloutItem::TokenMiserOutput(raw), RolloutItem::TokenMiserDecision(record)],
        &owner,
    );
    assert!(matches!(
        service.next_terminal_step(&key),
        TerminalStep::Show(_, TokenMiserDecision::Hide(reason))
            if reason == "retained; prior reducer decision was unavailable"
    ));
}

#[test]
fn an_output_is_stored_then_decided_then_shown_once() {
    let mut service = TokenMiserService::new(&Vec::new(), &None);
    let context = reduction_context();
    let key = service
        .begin_terminal(&context, "Script completed", Some(true), vec![text_item("exact output")])
        .expect("a storable output");
    let object_id = match service.next_terminal_step(&key) {
        TerminalStep::Persist(raw) => raw.object_id,
        other => panic!("expected storage, got {other:?}"),
    };
    assert!(check_v4(&object_id));
    assert!(service.read("thread-id", &object_id, 0, 0, 16).is_err());
    let again = service
        .begin_terminal(&context, "Script failed", Some(false), vec![text_item("another output")])
        .expect("the same call");
    assert_eq!(again, key);

    service.record_persistence(&key, true);
    service.record_persistence(&key, false);
    let exact = service.read("thread-id", &object_id, 0, 0, 16).expect("stored");
    assert_eq!(exact.get("content").and_then(Json::as_str), Some("exact output"));
    let raw = match service.next_terminal_step(&key) {
        TerminalStep::Reduce(raw) => raw,
        other => panic!("expected a decision, got {other:?}"),
    };
    assert_eq!(raw.script_status, "Script completed");
    let record = decision_record(&raw, &TokenMiserDecision::Passthrough, None);
    assert_eq!(record.object_id, object_id);

    service.record_decision(&key, TokenMiserDecision::Replace("first".to_string()), true);
    service.record_decision(&key, TokenMiserDecision::Passthrough, true);
    assert_eq!(
        service.next_terminal_step(&key),
        TerminalStep::Show(raw.clone(), TokenMiserDecision::Replace("first".to_string()))
    );
    let restarted = restored(
        vec![
            RolloutItem::TokenMiserOutput(raw.clone()),
            RolloutItem::TokenMiserDecision(decision_record(
                &raw,
                &TokenMiserDecision::Replace("first".to_string()),
                None,
            )),
        ],
        "thread-id",
    );
    assert_eq!(restarted.next_terminal_step(&key), service.next_terminal_step(&key));
}

#[test]
fn a_refused_storage_withholds_the_output() {
    let mut service = TokenMiserService::new(&Vec::new(), &None);
    let key = service
        .begin_terminal(&reduction_context(), "Script completed", None, vec![text_item("exact")])
        .expect("a storable output");
    service.record_decision(&key, TokenMiserDecision::Passthrough, true);
    assert!(matches!(service.next_terminal_step(&key), TerminalStep::Persist(_)));
    service.record_persistence(&key, false);
    assert_eq!(service.next_terminal_step(&key), TerminalStep::Unavailable);
    service.record_persistence(&key, true);
    assert_eq!(service.next_terminal_step(&key), TerminalStep::Unavailable);
    assert_eq!(
        unavailable_output(),
        vec![text_item(
            "<token_miser_receipt>Tool output was withheld because durable Token Miser storage was unavailable. The turn may continue without the output.</token_miser_receipt>"
        )]
    );
}

#[test]
fn an_uncommitted_decision_hides_the_output() {
    let mut service = TokenMiserService::new(&Vec::new(), &None);
    let key = service
        .start_terminal(
            &reduction_context(),
            OBJECT_ID.to_string(),
            "Script completed",
            None,
            vec![text_item("exact")],
        )
        .expect("a storable output");
    service.record_persistence(&key, true);
    service.record_decision(&key, TokenMiserDecision::Passthrough, false);
    assert!(matches!(
        service.next_terminal_step(&key),
        TerminalStep::Show(_, TokenMiserDecision::Hide(reason))
            if reason == "retained; reducer decision storage was unavailable"
    ));
}

#[test]
fn an_output_beyond_the_storage_bound_is_withheld() {
    let mut service = TokenMiserService::new(&Vec::new(), &None);
    let items = vec![text_item("x"); MAX_PERSISTED_OUTPUT_ITEMS + 1];
    assert_eq!(service.begin_terminal(&reduction_context(), "Script completed", None, items), None);
    assert_eq!(
        too_large_output(),
        vec![text_item(
            "<token_miser_receipt>Tool output exceeded Token Miser's durable storage bound and was withheld. The turn may continue without the output.</token_miser_receipt>"
        )]
    );
}

#[test]
fn a_decision_shapes_what_is_shown() {
    let raw = raw_output("thread-id", "exact output".to_string());
    let receipt = |words: &str| {
        text_item(&format!(
            "<token_miser_receipt>Output {words}. Exact output object: {OBJECT_ID}. Use tools.read_token_miser_output with this object_id, item_index, offset, and max_bytes; use tools.search_token_miser_output to locate text.</token_miser_receipt>"
        ))
    };
    assert_eq!(
        shown_output(&unlimited, &raw, &TokenMiserDecision::Passthrough, None, 4_096),
        vec![text_item("exact output"), receipt("passed through by Luna")]
    );
    assert_eq!(
        shown_output(&unlimited, &raw, &TokenMiserDecision::Replace("界界".to_string()), None, 5),
        vec![
            text_item(CODE_MODE_OUTPUT_REPLACEMENT_HEADER),
            text_item("界"),
            text_item(CODE_MODE_OUTPUT_REPLACEMENT_FOOTER),
            receipt("reduced by Luna"),
        ]
    );
    assert_eq!(
        shown_output(&unlimited, &raw, &TokenMiserDecision::Hide("hidden by Luna".to_string()), None, 5),
        vec![receipt("hidden by Luna")]
    );
}

#[test]
fn stored_decisions_read_back_as_they_were() {
    for decision in [
        TokenMiserDecision::Passthrough,
        TokenMiserDecision::Replace("fact".to_string()),
        TokenMiserDecision::Hide("reason".to_string()),
    ] {
        assert_eq!(decision_from_stored(&decision_to_stored(&decision)), decision);
    }
}

#[test]
fn long_texts_keep_their_start_and_end() {
    assert_eq!(bounded_head_tail("short", 5), "short");
    assert_eq!(bounded_head_tail("0123456789", 4), "01\n[... 6 bytes omitted ...]\n89");
    assert_eq!(bounded_head_tail("ééééé", 5), "é\n[... 6 bytes omitted ...]\né");
    assert_eq!(bounded_head_tail("界界", 0), "\n[... 6 bytes omitted ...]\n");
}

#[test]
fn reducer_input_tells_of_every_kind_of_item() {
    let mut raw = raw_output("thread-id", "seen".to_string());
    raw.content_items.push(FunctionCallOutputContentItem::InputAudio { audio_url: "data:audio".to_string() });
    assert_eq!(
        reducer_input(&reduction_context(), &raw, 896).expect("fits"),
        r#"<token_miser_input>{"version":1,"object_id":"00000000-0000-4000-8000-000000000001","script_status":"Script completed","script":"text(result)","total_content_items":2,"included_content_items":[{"index":0,"kind":"input_text","original_bytes":4,"bounded_view":"seen"},{"index":1,"kind":"input_audio","original_bytes":10,"bounded_view":null}]}</token_miser_input>"#
    );
    assert_eq!(reducer_input(&reduction_context(), &raw, 127), None);
    let mut context = reduction_context();
    context.script = Some("\0".repeat(128));
    assert_eq!(reducer_input(&context, &raw, 896), None);
}

#[test]
fn only_a_clear_answer_shows_anything() {
    let usage = Some(TokenUsage {
        input_tokens: 7,
        cached_input_tokens: 1,
        cache_write_input_tokens: 2,
        output_tokens: 6,
        reasoning_output_tokens: 3,
        total_tokens: 13,
    });
    let answered = |decision: ReducerDecision, replacement: Option<&str>| {
        ReducerOutcome::Answered(ReducerResponse { decision, replacement: replacement.map(str::to_string) })
    };
    let hide = |reason: &str| TokenMiserDecision::Hide(reason.to_string());
    for (outcome, decision, costs) in [
        (ReducerOutcome::InputTooLarge, hide("retained; reducer input exceeded its bound"), false),
        (ReducerOutcome::ConfigurationUnavailable, hide("retained; reducer configuration was unavailable"), false),
        (ReducerOutcome::NotStarted, hide("retained; reducer did not start"), false),
        (ReducerOutcome::NotCompleted, hide("retained; reducer did not complete"), true),
        (ReducerOutcome::Malformed, hide("retained; reducer output was invalid"), true),
        (answered(ReducerDecision::Passthrough, Some("ignored")), TokenMiserDecision::Passthrough, true),
        (
            answered(ReducerDecision::Replace, Some("selected fact")),
            TokenMiserDecision::Replace("selected".to_string()),
            true,
        ),
        (answered(ReducerDecision::Replace, Some(" \n\u{a0}")), hide("hidden by Luna"), true),
        (answered(ReducerDecision::Replace, None), hide("hidden by Luna"), true),
        (answered(ReducerDecision::Hide, Some("ignored")), hide("hidden by Luna"), true),
    ] {
        let run = finish_run(outcome, usage, 8);
        assert_eq!(run.decision, decision);
        assert_eq!(run.usage, if costs { usage } else { None });
    }
}

#[test]
fn the_reducer_is_awaited_until_its_turn_ends() {
    assert_eq!(after_child_event(ChildEvent::Other), ChildStep::Wait);
    assert_eq!(after_child_event(ChildEvent::TurnAborted), ChildStep::Finished(None));
    assert_eq!(after_child_event(ChildEvent::Ended), ChildStep::Finished(None));
    assert_eq!(
        after_child_event(ChildEvent::TurnComplete(Some("answer".to_string()))),
        ChildStep::Finished(Some("answer".to_string()))
    );
}

#[test]
fn the_reducer_is_isolated() {
    let settings = reducer_settings("gpt-5.6-luna");
    assert_eq!(settings.model, "gpt-5.6-luna");
    assert_eq!(settings.base_instructions, REDUCER_INSTRUCTIONS);
    assert!(settings.ephemeral && !settings.approvals_allowed && !settings.reduces_output);
    assert_eq!(settings.disabled_features.len(), 13);
    assert_eq!(settings.disabled_features[7], ReducerFeature::ShellTool);
    let reports = |count: usize, changes: &[(usize, Option<&str>, bool)]| -> Vec<FeatureReport> {
        let mut reports: Vec<FeatureReport> = settings.disabled_features[..count]
            .iter()
            .map(|feature| FeatureReport {
                feature: *feature,
                key: format!("{feature:?}").to_lowercase(),
                complaint: None,
                still_enabled: false,
            })
            .collect();
        for (at, complaint, still_enabled) in changes {
            reports[*at].complaint = complaint.map(str::to_string);
            reports[*at].still_enabled = *still_enabled;
        }
        reports
    };
    let fine = reports(13, &[]);
    assert_eq!(reducer_config(None, None, &fine), Ok(()));
    assert_eq!(
        reducer_config(Some("managed".to_string()), None, &fine),
        Err("could not disable web search: managed".to_string())
    );
    assert_eq!(
        reducer_config(None, Some("managed".to_string()), &fine),
        Err("could not remove MCP servers: managed".to_string())
    );
    assert_eq!(
        reducer_config(None, None, &reports(5, &[(4, Some("pinned"), true)])),
        Err("could not disable plugins: pinned".to_string())
    );
    assert_eq!(
        reducer_config(None, None, &reports(13, &[(3, None, true), (4, Some("pinned"), true)])),
        Err("feature apps remained enabled".to_string())
    );
    let unreported = Err("a feature was not reported as disabled".to_string());
    assert_eq!(reducer_config(None, None, &Vec::new()), unreported);
    assert_eq!(reducer_config(None, None, &reports(12, &[])), unreported);
    let mut swapped = reports(13, &[]);
    swapped.swap(0, 1);
    assert_eq!(reducer_config(None, None, &swapped), unreported);
    let mut repeated = reports(13, &[]);
    repeated.extend(reports(1, &[]));
    assert_eq!(reducer_config(None, None, &repeated), unreported);
    assert_eq!(
        output_schema().to_text(),
        r#"{"additionalProperties":false,"properties":{"decision":{"enum":["passthrough","replace","hide"],"type":"string"},"replacement":{"type":["string","null"]}},"required":["decision","replacement"],"type":"object"}"#
    );
}

#[test]
fn identities_are_read_in_every_form_of_the_parser() {
    for id in [
        "00000000-0000-4000-8000-000000000001",
        "00000000000040008000000000000001",
        "{00000000-0000-4000-8000-000000000001}",
        "urn:uuid:00000000-0000-4000-8000-000000000001",
        "ABCDEFAB-CDEF-4BCD-8BCD-ABCDEFABCDEF",
        "00000000-0000-4000-0000-000000000001",
    ] {
        assert!(check_v4(id), "{id}");
    }
    for id in [
        "",
        "00000000-0000-1000-8000-000000000001",
        "00000000-0000-4000-8000-00000000000",
        "00000000-0000-4000-8000-00000000000g",
        "0000000-00000-4000-8000-000000000001",
        "{00000000-0000-4000-8000-000000000001",
        "urn:uuid:00000000000040008000000000000001",
    ] {
        assert!(!check_v4(id), "{id}");
    }
}

#[test]
fn fragments_name_their_kind_and_role() {
    let receipt = TokenMiserReceipt::new("x".repeat(2_000));
    assert_eq!(receipt.content_kind(), "token_miser.receipt");
    assert_eq!(receipt.body().len(), 1_024);
    let input = TokenMiserReducerInput::new("body".to_string(), 4).expect("within its bound");
    assert_eq!(input.role(), "user");
    assert_eq!(input.render(), "<token_miser_input>body</token_miser_input>");
    assert!(TokenMiserReducerInput::new("body".to_string(), 3).is_none());
    let result = TokenMiserRetrievalResult::new("x".repeat(9_000));
    assert_eq!(result.markers(), ("<token_miser_retrieval>", "</token_miser_retrieval>"));
    assert_eq!(result.body().len(), 8_192);
}
