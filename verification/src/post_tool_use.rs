//! Hooks that run after a tool: what they are told, and what their output amounts to.
use vstd::prelude::*;

use crate::items;
use crate::json;
use crate::json::{Json, JsonView, Member};
use crate::reducer;
use crate::text;

verus! {

/// The agent on whose behalf a tool ran, where that is not the main one.
#[derive(Debug)]
pub struct SubagentHookContext {
    pub agent_id: String,
    pub agent_type: String,
}

/// What is known of a finished tool call.
#[derive(Debug)]
pub struct PostToolUseRequest {
    pub session_id: String,
    pub turn_id: String,
    pub subagent: Option<SubagentHookContext>,
    pub cwd: String,
    pub transcript_path: Option<String>,
    pub model: String,
    pub permission_mode: String,
    pub tool_name: String,
    pub matcher_aliases: Vec<String>,
    pub tool_use_id: String,
    pub tool_input: Json,
    pub tool_response: Json,
    pub exact_tool_response: Option<Json>,
    pub is_code_mode_nested: bool,
    pub code_mode_cell_id: Option<String>,
    pub code_mode_tool_call_id: Option<String>,
    pub parent_intent: Option<String>,
}

/// The agent's members in a hook's input: none for the main agent.
pub open spec fn agent_fields(subagent: Option<SubagentHookContext>) -> Seq<json::MemberView> {
    match subagent {
        Some(agent) => seq![
            json::field("agent_id"@, JsonView::Text(agent.agent_id@)),
            json::field("agent_type"@, JsonView::Text(agent.agent_type@)),
        ],
        None => Seq::empty(),
    }
}

/// The exact response's members in a hook's input: none where it is not shared.
pub open spec fn exact_fields(exact: Option<JsonView>) -> Seq<json::MemberView> {
    match exact {
        Some(exact) => seq![
            json::field("token_miser_exact_tool_response_version"@, JsonView::Int(1)),
            json::field("token_miser_exact_tool_response"@, exact),
        ],
        None => Seq::empty(),
    }
}

/// What a hook is told of the tool and of what it returned.
pub open spec fn tool_fields(r: PostToolUseRequest) -> Seq<json::MemberView> {
    seq![
        json::field("transcript_path"@, json::text_or_null(items::text_option(r.transcript_path))),
        json::field("cwd"@, JsonView::Text(r.cwd@)),
        json::field("hook_event_name"@, JsonView::Text("PostToolUse"@)),
        json::field("model"@, JsonView::Text(r.model@)),
        json::field("permission_mode"@, JsonView::Text(r.permission_mode@)),
        json::field("tool_name"@, JsonView::Text(r.tool_name@)),
        json::field("tool_input"@, r.tool_input@),
        json::field("tool_response"@, r.tool_response@),
    ]
}

/// A hook's input. It names the tool itself, whatever aliases selected the hook. What is absent is
/// left out, but for the transcript, which is null.
pub open spec fn command_input(r: PostToolUseRequest) -> JsonView {
    JsonView::Object(
        seq![
            json::field("session_id"@, JsonView::Text(r.session_id@)),
            json::field("turn_id"@, JsonView::Text(r.turn_id@)),
        ] + agent_fields(r.subagent) + tool_fields(r) + exact_fields(json::json_option(r.exact_tool_response)) + seq![
            json::field("tool_use_id"@, JsonView::Text(r.tool_use_id@)),
            json::field("is_code_mode_nested"@, JsonView::Bool(r.is_code_mode_nested)),
        ] + reducer::optional_field(
            "code_mode_cell_id"@,
            reducer::optional_text_json(items::text_option(r.code_mode_cell_id)),
        ) + reducer::optional_field(
            "code_mode_tool_call_id"@,
            reducer::optional_text_json(items::text_option(r.code_mode_tool_call_id)),
        ) + reducer::optional_field(
            "parent_intent"@,
            reducer::optional_text_json(items::text_option(r.parent_intent)),
        ) + seq![
            json::field("token_miser_acceptance_version"@, JsonView::Int(1)),
            json::field("token_miser_grouping_version"@, JsonView::Int(1)),
        ],
    )
}

fn pair(first: Member, second: Member) -> (members: Vec<Member>)
    ensures
        json::member_views(members@) == seq![first@, second@],
{
    let mut members: Vec<Member> = Vec::new();
    members.push(first);
    members.push(second);
    assert(json::member_views(members@) =~= seq![first@, second@]);
    members
}

fn agent_members(subagent: &Option<SubagentHookContext>) -> (members: Vec<Member>)
    ensures
        json::member_views(members@) == agent_fields(*subagent),
{
    match subagent {
        Some(agent) => pair(
            json::member("agent_id", json::text_value(agent.agent_id.as_str())),
            json::member("agent_type", json::text_value(agent.agent_type.as_str())),
        ),
        None => {
            let members: Vec<Member> = Vec::new();
            assert(json::member_views(members@) =~= Seq::<json::MemberView>::empty());
            members
        },
    }
}

fn exact_members(exact: &Option<Json>) -> (members: Vec<Member>)
    ensures
        json::member_views(members@) == exact_fields(json::json_option(*exact)),
{
    match exact {
        Some(exact) => pair(
            json::member("token_miser_exact_tool_response_version", Json::Int(1)),
            json::member("token_miser_exact_tool_response", exact.duplicate()),
        ),
        None => {
            let members: Vec<Member> = Vec::new();
            assert(json::member_views(members@) =~= Seq::<json::MemberView>::empty());
            members
        },
    }
}

fn tool_members(request: &PostToolUseRequest) -> (members: Vec<Member>)
    ensures
        json::member_views(members@) == tool_fields(*request),
{
    let transcript_path = match &request.transcript_path {
        Some(path) => json::text_value(path.as_str()),
        None => Json::Null,
    };
    let mut members: Vec<Member> = Vec::new();
    members.push(json::member("transcript_path", transcript_path));
    members.push(json::member("cwd", json::text_value(request.cwd.as_str())));
    members.push(json::member("hook_event_name", json::text_value("PostToolUse")));
    members.push(json::member("model", json::text_value(request.model.as_str())));
    members.push(json::member("permission_mode", json::text_value(request.permission_mode.as_str())));
    members.push(json::member("tool_name", json::text_value(request.tool_name.as_str())));
    members.push(json::member("tool_input", request.tool_input.duplicate()));
    members.push(json::member("tool_response", request.tool_response.duplicate()));
    assert(json::member_views(members@) =~= tool_fields(*request));
    members
}

/// The input of a hook as a JSON value.
fn command_input_value(request: &PostToolUseRequest) -> (j: Json)
    ensures
        j@ == command_input(*request),
{
    let mut members = pair(
        json::member("session_id", json::text_value(request.session_id.as_str())),
        json::member("turn_id", json::text_value(request.turn_id.as_str())),
    );
    json::append_members(&mut members, agent_members(&request.subagent));
    json::append_members(&mut members, tool_members(request));
    json::append_members(&mut members, exact_members(&request.exact_tool_response));
    json::append_members(
        &mut members,
        pair(
            json::member("tool_use_id", json::text_value(request.tool_use_id.as_str())),
            json::member("is_code_mode_nested", Json::Bool(request.is_code_mode_nested)),
        ),
    );
    reducer::push_optional_text(&mut members, "code_mode_cell_id", &request.code_mode_cell_id);
    reducer::push_optional_text(&mut members, "code_mode_tool_call_id", &request.code_mode_tool_call_id);
    reducer::push_optional_text(&mut members, "parent_intent", &request.parent_intent);
    json::append_members(
        &mut members,
        pair(
            json::member("token_miser_acceptance_version", Json::Int(1)),
            json::member("token_miser_grouping_version", Json::Int(1)),
        ),
    );
    json::object(members)
}

impl PostToolUseRequest {
    /// The text of a hook's input.
    pub fn command_input_json(&self) -> (input: String)
        ensures
            input@ == json::json_text(command_input(*self)),
    {
        command_input_value(self).to_text()
    }
}

/// How a hook run ended, or that it has not.
#[derive(Debug, Clone, Copy, PartialEq, Eq, Structural)]
pub enum HookRunStatus {
    Running,
    Completed,
    Failed,
    Blocked,
    Stopped,
}

/// What a line of a hook run's record is.
#[derive(Debug, Clone, Copy, PartialEq, Eq, Structural)]
pub enum HookOutputEntryKind {
    Warning,
    Stop,
    Feedback,
    Context,
    Error,
}

/// One line of a hook run's record.
#[derive(Debug, PartialEq, Eq)]
pub struct HookOutputEntry {
    pub kind: HookOutputEntryKind,
    pub text: String,
}

/// The value of a [`HookOutputEntry`].
pub struct OutputEntryView {
    pub kind: HookOutputEntryKind,
    pub text: Seq<char>,
}

impl View for HookOutputEntry {
    type V = OutputEntryView;

    open spec fn view(&self) -> OutputEntryView {
        OutputEntryView { kind: self.kind, text: self.text@ }
    }
}

/// A hook that is configured to run: the identity of its runs, whether it may steer the turn, and
/// the limit on the context that it may add.
#[derive(Debug)]
pub struct ConfiguredHandler {
    pub run_id: String,
    pub can_apply_control_effects: bool,
    pub additional_context_limit: Option<usize>,
}

/// How a hook's process ended.
#[derive(Debug)]
pub struct HandlerRunResult {
    pub exit_code: Option<i32>,
    pub stdout: String,
    pub stderr: String,
    pub error: Option<String>,
}

/// A hook's output, as it is parsed from its standard output.
#[derive(Debug)]
pub struct ParsedHookOutput {
    pub continue_processing: bool,
    pub stop_reason: Option<String>,
    pub system_message: Option<String>,
    pub response_id: Option<String>,
    pub additional_context: Option<String>,
    pub should_block: bool,
    pub reason: Option<String>,
    pub invalid_reason: Option<String>,
    pub invalid_block_reason: Option<String>,
}

/// Context that a hook adds, with its limit.
#[derive(Debug, PartialEq, Eq)]
pub struct AdditionalContext {
    pub text: String,
    pub limit: Option<usize>,
}

/// The value of an [`AdditionalContext`].
pub struct AdditionalContextView {
    pub text: Seq<char>,
    pub limit: Option<usize>,
}

impl View for AdditionalContext {
    type V = AdditionalContextView;

    open spec fn view(&self) -> AdditionalContextView {
        AdditionalContextView { text: self.text@, limit: self.limit }
    }
}

/// What one hook asks for.
#[derive(Debug, PartialEq, Eq)]
pub struct PostToolUseHandlerData {
    pub should_block: bool,
    pub additional_contexts_for_model: Vec<AdditionalContext>,
    pub feedback_messages_for_model: Vec<String>,
    pub replacement_response_ids: Vec<String>,
}

/// The record of one hook run.
#[derive(Debug, PartialEq, Eq)]
pub struct HookRunSummary {
    pub id: String,
    pub status: HookRunStatus,
    pub entries: Vec<HookOutputEntry>,
}

/// A hook run that has ended.
#[derive(Debug, PartialEq, Eq)]
pub struct HookCompletedEvent {
    pub turn_id: Option<String>,
    pub run: HookRunSummary,
}

/// A hook run with what it asks for.
#[derive(Debug, PartialEq, Eq)]
pub struct ParsedHandler {
    pub completed: HookCompletedEvent,
    pub data: PostToolUseHandlerData,
}

/// What a hook run amounts to.
pub struct CompletionView {
    pub status: HookRunStatus,
    pub entries: Seq<OutputEntryView>,
    pub should_block: bool,
    pub contexts: Seq<AdditionalContextView>,
    pub feedback: Seq<Seq<char>>,
    pub response_ids: Seq<Seq<char>>,
}

/// The values of several lines of a record.
pub open spec fn output_entry_views(entries: Seq<HookOutputEntry>) -> Seq<OutputEntryView> {
    entries.map_values(|e: HookOutputEntry| e@)
}

/// The values of several added contexts.
pub open spec fn context_views(contexts: Seq<AdditionalContext>) -> Seq<AdditionalContextView> {
    contexts.map_values(|c: AdditionalContext| c@)
}

/// The values of several texts.
pub open spec fn text_views(texts: Seq<String>) -> Seq<Seq<char>> {
    texts.map_values(|t: String| t@)
}

/// What a parsed run amounts to.
pub open spec fn completion_of(parsed: ParsedHandler) -> CompletionView {
    CompletionView {
        status: parsed.completed.run.status,
        entries: output_entry_views(parsed.completed.run.entries@),
        should_block: parsed.data.should_block,
        contexts: context_views(parsed.data.additional_contexts_for_model@),
        feedback: text_views(parsed.data.feedback_messages_for_model@),
        response_ids: text_views(parsed.data.replacement_response_ids@),
    }
}

/// A line of a record.
pub open spec fn line(kind: HookOutputEntryKind, t: Seq<char>) -> OutputEntryView {
    OutputEntryView { kind, text: t }
}

/// A text without its surrounding white space, where something is left of it.
pub open spec fn trimmed_some(t: Seq<char>) -> Option<Seq<char>> {
    if text::blank(t) {
        None
    } else {
        Some(text::trimmed(t))
    }
}

/// One text or none, as a sequence.
pub open spec fn one_or_none(t: Option<Seq<char>>) -> Seq<Seq<char>> {
    match t {
        Some(t) => seq![t],
        None => Seq::empty(),
    }
}

/// A run that ended with this one line.
pub open spec fn ended(status: HookRunStatus, kind: HookOutputEntryKind, t: Seq<char>) -> CompletionView {
    CompletionView {
        status,
        entries: seq![line(kind, t)],
        should_block: false,
        contexts: Seq::empty(),
        feedback: Seq::empty(),
        response_ids: Seq::empty(),
    }
}

/// A run that ended without a word.
pub open spec fn silent() -> CompletionView {
    CompletionView {
        status: HookRunStatus::Completed,
        entries: Seq::empty(),
        should_block: false,
        contexts: Seq::empty(),
        feedback: Seq::empty(),
        response_ids: Seq::empty(),
    }
}

/// What a hook says before it steers: a warning, and context for the model unless a hook that may
/// steer asks for something invalid.
pub open spec fn before_control(handler: ConfiguredHandler, parsed: ParsedHookOutput) -> CompletionView {
    let warned = match parsed.system_message {
        Some(message) => seq![line(HookOutputEntryKind::Warning, message@)],
        None => Seq::empty(),
    };
    let invalid = parsed.invalid_reason is Some || parsed.invalid_block_reason is Some;
    match parsed.additional_context {
        Some(added) => if !handler.can_apply_control_effects || !invalid {
            CompletionView {
                entries: warned.push(line(HookOutputEntryKind::Context, added@)),
                contexts: seq![
                    AdditionalContextView { text: added@, limit: handler.additional_context_limit },
                ],
                ..silent()
            }
        } else {
            CompletionView { entries: warned, ..silent() }
        },
        None => CompletionView { entries: warned, ..silent() },
    }
}

/// The identity under which a hook's replacement is accepted.
pub open spec fn response_identity(parsed: ParsedHookOutput) -> Option<Seq<char>> {
    match parsed.response_id {
        Some(id) => trimmed_some(id@),
        None => None,
    }
}

/// What a hook that may steer asks for. Stopping comes first, then a complaint about what it
/// asks, then blocking. A stop and a block with a reason select feedback for the model, and with
/// it the identity of the response, if it has one.
pub open spec fn with_control(handler: ConfiguredHandler, parsed: ParsedHookOutput) -> CompletionView {
    let before = before_control(handler, parsed);
    if !parsed.continue_processing {
        let stop_text = match parsed.stop_reason {
            Some(reason) => reason@,
            None => "PostToolUse hook stopped execution"@,
        };
        let feedback = match parsed.reason {
            Some(reason) => match trimmed_some(reason@) {
                Some(reason) => reason,
                None => stop_text,
            },
            None => stop_text,
        };
        CompletionView {
            status: HookRunStatus::Stopped,
            entries: before.entries.push(line(HookOutputEntryKind::Stop, stop_text)),
            feedback: seq![feedback],
            response_ids: one_or_none(response_identity(parsed)),
            ..before
        }
    } else if let Some(reason) = parsed.invalid_reason {
        CompletionView {
            status: HookRunStatus::Failed,
            entries: before.entries.push(line(HookOutputEntryKind::Error, reason@)),
            ..before
        }
    } else if let Some(reason) = parsed.invalid_block_reason {
        CompletionView {
            status: HookRunStatus::Failed,
            entries: before.entries.push(line(HookOutputEntryKind::Error, reason@)),
            ..before
        }
    } else if parsed.should_block {
        match parsed.reason {
            Some(reason) => CompletionView {
                status: HookRunStatus::Blocked,
                should_block: true,
                entries: before.entries.push(line(HookOutputEntryKind::Feedback, reason@)),
                feedback: seq![reason@],
                response_ids: one_or_none(response_identity(parsed)),
                ..before
            },
            None => CompletionView { status: HookRunStatus::Blocked, should_block: true, ..before },
        }
    } else {
        before
    }
}

/// What a hook's output amounts to.
pub open spec fn spoken(handler: ConfiguredHandler, parsed: ParsedHookOutput) -> CompletionView {
    if handler.can_apply_control_effects {
        with_control(handler, parsed)
    } else {
        before_control(handler, parsed)
    }
}

/// What a hook run amounts to, by how its process ended. Exit code 0 is judged by what the hook
/// printed, exit code 2 of a hook that may steer blocks with what it wrote to standard error, and
/// anything else is a failure.
pub open spec fn completion(
    handler: ConfiguredHandler,
    result: HandlerRunResult,
    parsed: Option<ParsedHookOutput>,
    looks_like_json: bool,
) -> CompletionView {
    match result.error {
        Some(error) => ended(HookRunStatus::Failed, HookOutputEntryKind::Error, error@),
        None => match result.exit_code {
            None => ended(
                HookRunStatus::Failed,
                HookOutputEntryKind::Error,
                "hook exited without a status code"@,
            ),
            Some(code) => if code == 0 {
                if text::blank(result.stdout@) {
                    silent()
                } else {
                    match parsed {
                        Some(parsed) => spoken(handler, parsed),
                        None => if looks_like_json {
                            ended(
                                HookRunStatus::Failed,
                                HookOutputEntryKind::Error,
                                "hook returned invalid post-tool-use JSON output"@,
                            )
                        } else {
                            silent()
                        },
                    }
                }
            } else if code == 2 && handler.can_apply_control_effects {
                match trimmed_some(result.stderr@) {
                    Some(reason) => CompletionView {
                        should_block: true,
                        feedback: seq![reason],
                        ..ended(HookRunStatus::Blocked, HookOutputEntryKind::Feedback, reason)
                    },
                    None => ended(
                        HookRunStatus::Failed,
                        HookOutputEntryKind::Error,
                        "PostToolUse hook exited with code 2 but did not write feedback to stderr"@,
                    ),
                }
            } else {
                ended(
                    HookRunStatus::Failed,
                    HookOutputEntryKind::Error,
                    "hook exited with code "@ + text::signed_decimal(code as int),
                )
            },
        },
    }
}

/// A text without its surrounding white space, where something is left of it.
pub fn trimmed_non_empty(t: &str) -> (kept: Option<String>)
    ensures
        items::text_option(kept) == trimmed_some(t@),
{
    if text::is_blank(t) {
        None
    } else {
        Some(text::trim_text(t))
    }
}

/// A hook run while it is being judged.
struct Verdict {
    status: HookRunStatus,
    entries: Vec<HookOutputEntry>,
    should_block: bool,
    contexts: Vec<AdditionalContext>,
    feedback: Vec<String>,
    response_ids: Vec<String>,
}

impl View for Verdict {
    type V = CompletionView;

    closed spec fn view(&self) -> CompletionView {
        CompletionView {
            status: self.status,
            entries: output_entry_views(self.entries@),
            should_block: self.should_block,
            contexts: context_views(self.contexts@),
            feedback: text_views(self.feedback@),
            response_ids: text_views(self.response_ids@),
        }
    }
}

impl Verdict {
    fn new() -> (verdict: Self)
        ensures
            verdict@ == silent(),
    {
        let verdict = Verdict {
            status: HookRunStatus::Completed,
            entries: Vec::new(),
            should_block: false,
            contexts: Vec::new(),
            feedback: Vec::new(),
            response_ids: Vec::new(),
        };
        assert(verdict@.entries =~= silent().entries);
        assert(verdict@.contexts =~= silent().contexts);
        assert(verdict@.feedback =~= silent().feedback);
        assert(verdict@.response_ids =~= silent().response_ids);
        verdict
    }

    fn note(&mut self, kind: HookOutputEntryKind, t: String)
        ensures
            final(self)@ == (CompletionView { entries: old(self)@.entries.push(line(kind, t@)), ..old(self)@ }),
    {
        let ghost before = self.entries@;
        self.entries.push(HookOutputEntry { kind, text: t });
        assert(output_entry_views(self.entries@) =~= output_entry_views(before).push(line(kind, t@)));
    }

    fn add_context(&mut self, t: String, limit: Option<usize>)
        ensures
            final(self)@ == (CompletionView {
                contexts: old(self)@.contexts.push(AdditionalContextView { text: t@, limit }),
                ..old(self)@
            }),
    {
        let ghost before = self.contexts@;
        self.contexts.push(AdditionalContext { text: t, limit });
        assert(context_views(self.contexts@) =~= context_views(before).push(
            AdditionalContextView { text: t@, limit },
        ));
    }

    fn add_feedback(&mut self, t: String)
        ensures
            final(self)@ == (CompletionView { feedback: old(self)@.feedback.push(t@), ..old(self)@ }),
    {
        let ghost before = self.feedback@;
        self.feedback.push(t);
        assert(text_views(self.feedback@) =~= text_views(before).push(t@));
    }

    fn add_response_id(&mut self, id: Option<String>)
        ensures
            final(self)@ == (CompletionView {
                response_ids: old(self)@.response_ids + one_or_none(items::text_option(id)),
                ..old(self)@
            }),
    {
        let ghost before = self.response_ids@;
        match id {
            Some(id) => {
                self.response_ids.push(id);
                assert(text_views(self.response_ids@) =~= text_views(before) + seq![id@]);
            },
            None => {
                assert(text_views(self.response_ids@) =~= text_views(before) + Seq::<Seq<char>>::empty());
            },
        }
    }

    fn set_status(&mut self, status: HookRunStatus)
        ensures
            final(self)@ == (CompletionView { status, ..old(self)@ }),
    {
        self.status = status;
    }

    fn block(&mut self)
        ensures
            final(self)@ == (CompletionView {
                status: HookRunStatus::Blocked,
                should_block: true,
                ..old(self)@
            }),
    {
        self.status = HookRunStatus::Blocked;
        self.should_block = true;
    }
}

fn judge_before_control(handler: &ConfiguredHandler, parsed: &ParsedHookOutput) -> (verdict: Verdict)
    ensures
        verdict@ == before_control(*handler, *parsed),
{
    let mut verdict = Verdict::new();
    match &parsed.system_message {
        Some(message) => {
            verdict.note(HookOutputEntryKind::Warning, message.clone());
        },
        None => {},
    }
    assert(verdict@.entries =~= (match parsed.system_message {
        Some(message) => seq![line(HookOutputEntryKind::Warning, message@)],
        None => Seq::empty(),
    }));
    if !handler.can_apply_control_effects || (parsed.invalid_reason.is_none() && parsed.invalid_block_reason.is_none()) {
        match &parsed.additional_context {
            Some(added) => {
                verdict.note(HookOutputEntryKind::Context, added.clone());
                verdict.add_context(added.clone(), handler.additional_context_limit);
                assert(verdict@.contexts =~= seq![
                    AdditionalContextView { text: added@, limit: handler.additional_context_limit },
                ]);
            },
            None => {},
        }
    }
    verdict
}

fn judge_with_control(handler: &ConfiguredHandler, parsed: ParsedHookOutput) -> (verdict: Verdict)
    ensures
        verdict@ == with_control(*handler, parsed),
{
    let mut verdict = judge_before_control(handler, &parsed);
    let response_id = match &parsed.response_id {
        Some(id) => trimmed_non_empty(id.as_str()),
        None => None,
    };
    if !parsed.continue_processing {
        verdict.set_status(HookRunStatus::Stopped);
        let stop_text = match parsed.stop_reason {
            Some(reason) => reason,
            None => "PostToolUse hook stopped execution".to_string(),
        };
        verdict.note(HookOutputEntryKind::Stop, stop_text.clone());
        let reason = match &parsed.reason {
            Some(reason) => trimmed_non_empty(reason.as_str()),
            None => None,
        };
        let feedback = match reason {
            Some(reason) => reason,
            None => stop_text,
        };
        verdict.add_feedback(feedback);
        verdict.add_response_id(response_id);
        assert(verdict@.feedback =~= seq![feedback@]);
        assert(verdict@.response_ids =~= one_or_none(response_identity(parsed)));
    } else if let Some(reason) = parsed.invalid_reason {
        verdict.set_status(HookRunStatus::Failed);
        verdict.note(HookOutputEntryKind::Error, reason);
    } else if let Some(reason) = parsed.invalid_block_reason {
        verdict.set_status(HookRunStatus::Failed);
        verdict.note(HookOutputEntryKind::Error, reason);
    } else if parsed.should_block {
        verdict.block();
        if let Some(reason) = parsed.reason {
            verdict.note(HookOutputEntryKind::Feedback, reason.clone());
            verdict.add_feedback(reason);
            verdict.add_response_id(response_id);
            assert(verdict@.feedback =~= seq![reason@]);
            assert(verdict@.response_ids =~= one_or_none(response_identity(parsed)));
        }
    }
    verdict
}

fn judge_ended(status: HookRunStatus, kind: HookOutputEntryKind, t: String) -> (verdict: Verdict)
    ensures
        verdict@ == ended(status, kind, t@),
{
    let mut verdict = Verdict::new();
    verdict.set_status(status);
    verdict.note(kind, t);
    assert(verdict@.entries =~= seq![line(kind, t@)]);
    verdict
}

fn judge(
    handler: &ConfiguredHandler,
    result: &HandlerRunResult,
    parsed: Option<ParsedHookOutput>,
    looks_like_json: bool,
) -> (verdict: Verdict)
    ensures
        verdict@ == completion(*handler, *result, parsed, looks_like_json),
{
    if let Some(error) = &result.error {
        return judge_ended(HookRunStatus::Failed, HookOutputEntryKind::Error, error.clone());
    }
    let code: i32 = match result.exit_code {
        Some(code) => code,
        None => {
            return judge_ended(
                HookRunStatus::Failed,
                HookOutputEntryKind::Error,
                "hook exited without a status code".to_string(),
            );
        },
    };
    if code == 0 {
        if text::is_blank(result.stdout.as_str()) {
            return Verdict::new();
        }
        return match parsed {
            Some(parsed) => {
                if handler.can_apply_control_effects {
                    judge_with_control(handler, parsed)
                } else {
                    judge_before_control(handler, &parsed)
                }
            },
            None => {
                if looks_like_json {
                    judge_ended(
                        HookRunStatus::Failed,
                        HookOutputEntryKind::Error,
                        "hook returned invalid post-tool-use JSON output".to_string(),
                    )
                } else {
                    Verdict::new()
                }
            },
        };
    }
    if code == 2 && handler.can_apply_control_effects {
        return match trimmed_non_empty(result.stderr.as_str()) {
            Some(reason) => {
                let mut verdict = judge_ended(
                    HookRunStatus::Blocked,
                    HookOutputEntryKind::Feedback,
                    reason.clone(),
                );
                verdict.block();
                verdict.add_feedback(reason);
                assert(verdict@.feedback =~= seq![reason@]);
                verdict
            },
            None => judge_ended(
                HookRunStatus::Failed,
                HookOutputEntryKind::Error,
                "PostToolUse hook exited with code 2 but did not write feedback to stderr".to_string(),
            ),
        };
    }
    let mut problem = "hook exited with code ".to_string();
    text::append_signed_decimal(&mut problem, code as i128);
    judge_ended(HookRunStatus::Failed, HookOutputEntryKind::Error, problem)
}

/// What a hook run amounts to. `parsed` is what the host's parser makes of the hook's standard
/// output, and `looks_like_json` whether that was meant to be JSON at all.
pub fn parse_completed(
    handler: &ConfiguredHandler,
    result: &HandlerRunResult,
    parsed: Option<ParsedHookOutput>,
    looks_like_json: bool,
    turn_id: Option<String>,
) -> (handled: ParsedHandler)
    ensures
        completion_of(handled) == completion(*handler, *result, parsed, looks_like_json),
        handled.completed.turn_id == turn_id,
        handled.completed.run.id@ == handler.run_id@,
{
    let verdict = judge(handler, result, parsed, looks_like_json);
    ParsedHandler {
        completed: HookCompletedEvent {
            turn_id,
            run: HookRunSummary {
                id: handler.run_id.clone(),
                status: verdict.status,
                entries: verdict.entries,
            },
        },
        data: PostToolUseHandlerData {
            should_block: verdict.should_block,
            additional_contexts_for_model: verdict.contexts,
            feedback_messages_for_model: verdict.feedback,
            replacement_response_ids: verdict.response_ids,
        },
    }
}

/// The value of a hook run's record.
pub struct RunView {
    pub id: Seq<char>,
    pub status: HookRunStatus,
    pub entries: Seq<OutputEntryView>,
}

/// The value of an ended hook run.
pub struct CompletedView {
    pub turn_id: Option<Seq<char>>,
    pub run: RunView,
}

impl View for HookRunSummary {
    type V = RunView;

    open spec fn view(&self) -> RunView {
        RunView { id: self.id@, status: self.status, entries: output_entry_views(self.entries@) }
    }
}

impl View for HookCompletedEvent {
    type V = CompletedView;

    open spec fn view(&self) -> CompletedView {
        CompletedView { turn_id: items::text_option(self.turn_id), run: self.run@ }
    }
}

/// The values of several records.
pub open spec fn run_views(runs: Seq<HookRunSummary>) -> Seq<RunView> {
    runs.map_values(|r: HookRunSummary| r@)
}

/// The values of several ended runs.
pub open spec fn completed_views(events: Seq<HookCompletedEvent>) -> Seq<CompletedView> {
    events.map_values(|e: HookCompletedEvent| e@)
}

/// The identity of a hook run for one tool call.
pub open spec fn tool_run_id(run_id: Seq<char>, tool_use_id: Seq<char>) -> Seq<char> {
    run_id + ":"@ + tool_use_id
}

/// An ended run under its identity for one tool call.
pub open spec fn for_tool_use(event: CompletedView, tool_use_id: Seq<char>) -> CompletedView {
    CompletedView { run: RunView { id: tool_run_id(event.run.id, tool_use_id), ..event.run }, ..event }
}

fn tool_run_identity(run_id: &str, tool_use_id: &str) -> (id: String)
    ensures
        id@ == tool_run_id(run_id@, tool_use_id@),
{
    let mut id = run_id.to_string();
    id.append(":");
    id.append(tool_use_id);
    id
}

/// An ended run under its identity for one tool call.
pub fn hook_completed_for_tool_use(event: HookCompletedEvent, tool_use_id: &str) -> (named: HookCompletedEvent)
    ensures
        named@ == for_tool_use(event@, tool_use_id@),
{
    HookCompletedEvent {
        turn_id: event.turn_id,
        run: HookRunSummary {
            id: tool_run_identity(event.run.id.as_str(), tool_use_id),
            status: event.run.status,
            entries: event.run.entries,
        },
    }
}

/// The record of a hook that is about to run for a tool call.
pub open spec fn running_view(handler: ConfiguredHandler, tool_use_id: Seq<char>) -> RunView {
    RunView { id: tool_run_id(handler.run_id@, tool_use_id), status: HookRunStatus::Running, entries: Seq::empty() }
}

/// The records of the selected hooks before they run.
pub fn preview(selected: &Vec<ConfiguredHandler>, tool_use_id: &str) -> (runs: Vec<HookRunSummary>)
    ensures
        run_views(runs@) == selected@.map_values(|h: ConfiguredHandler| running_view(h, tool_use_id@)),
{
    let ghost expected = selected@.map_values(|h: ConfiguredHandler| running_view(h, tool_use_id@));
    let mut runs: Vec<HookRunSummary> = Vec::new();
    let mut i: usize = 0;
    while i < selected.len()
        invariant
            i <= selected@.len(),
            expected == selected@.map_values(|h: ConfiguredHandler| running_view(h, tool_use_id@)),
            run_views(runs@) == expected.take(i as int),
        decreases selected@.len() - i,
    {
        let ghost before = runs@;
        let run = HookRunSummary {
            id: tool_run_identity(selected[i].run_id.as_str(), tool_use_id),
            status: HookRunStatus::Running,
            entries: Vec::new(),
        };
        assert(output_entry_views(run.entries@) =~= Seq::<OutputEntryView>::empty());
        runs.push(run);
        i = i + 1;
        assert(run_views(runs@) =~= run_views(before).push(run@));
        assert(run_views(runs@) =~= expected.take(i as int));
    }
    assert(run_views(runs@) =~= expected);
    runs
}

/// The failed run of a hook whose input could not be written.
pub open spec fn failed_view(
    handler: ConfiguredHandler,
    turn_id: Option<Seq<char>>,
    error: Seq<char>,
    tool_use_id: Seq<char>,
) -> CompletedView {
    CompletedView {
        turn_id,
        run: RunView {
            id: tool_run_id(handler.run_id@, tool_use_id),
            status: HookRunStatus::Failed,
            entries: seq![line(HookOutputEntryKind::Error, error)],
        },
    }
}

/// The failed runs of hooks whose input could not be written.
pub fn serialization_failure_hook_events_for_tool_use(
    selected: &Vec<ConfiguredHandler>,
    turn_id: &Option<String>,
    error: &str,
    tool_use_id: &str,
) -> (events: Vec<HookCompletedEvent>)
    ensures
        completed_views(events@) == selected@.map_values(
            |h: ConfiguredHandler| failed_view(h, items::text_option(*turn_id), error@, tool_use_id@),
        ),
{
    let ghost expected = selected@.map_values(
        |h: ConfiguredHandler| failed_view(h, items::text_option(*turn_id), error@, tool_use_id@),
    );
    let mut events: Vec<HookCompletedEvent> = Vec::new();
    let mut i: usize = 0;
    while i < selected.len()
        invariant
            i <= selected@.len(),
            expected == selected@.map_values(
                |h: ConfiguredHandler| failed_view(h, items::text_option(*turn_id), error@, tool_use_id@),
            ),
            completed_views(events@) == expected.take(i as int),
        decreases selected@.len() - i,
    {
        let ghost before = events@;
        let mut entries: Vec<HookOutputEntry> = Vec::new();
        entries.push(HookOutputEntry { kind: HookOutputEntryKind::Error, text: error.to_string() });
        assert(output_entry_views(entries@) =~= seq![line(HookOutputEntryKind::Error, error@)]);
        let event = HookCompletedEvent {
            turn_id: match turn_id {
                Some(turn_id) => Some(turn_id.clone()),
                None => None,
            },
            run: HookRunSummary {
                id: tool_run_identity(selected[i].run_id.as_str(), tool_use_id),
                status: HookRunStatus::Failed,
                entries,
            },
        };
        events.push(event);
        i = i + 1;
        assert(completed_views(events@) =~= completed_views(before).push(event@));
        assert(completed_views(events@) =~= expected.take(i as int));
    }
    assert(completed_views(events@) =~= expected);
    events
}

/// What all hooks together amount to.
#[derive(Debug)]
pub struct PostToolUseOutcome {
    pub hook_events: Vec<HookCompletedEvent>,
    pub should_block: bool,
    pub additional_contexts: Vec<String>,
    pub feedback_message: Option<String>,
    /// The identities of the responses whose feedback was selected as a replacement.
    pub replacement_response_ids: Vec<String>,
}

/// The outcome of hooks whose input could not be written: they are recorded and ask for nothing.
/// With no hook at all it is the outcome of a tool call that no hook observes.
pub fn serialization_failure_outcome(hook_events: Vec<HookCompletedEvent>) -> (outcome: PostToolUseOutcome)
    ensures
        outcome.hook_events == hook_events,
        !outcome.should_block,
        outcome.additional_contexts@.len() == 0,
        outcome.feedback_message is None,
        outcome.replacement_response_ids@.len() == 0,
{
    PostToolUseOutcome {
        hook_events,
        should_block: false,
        additional_contexts: Vec::new(),
        feedback_message: None,
        replacement_response_ids: Vec::new(),
    }
}

/// The contexts that the hooks add, in order.
pub open spec fn all_contexts(results: Seq<ParsedHandler>) -> Seq<AdditionalContextView>
    decreases results.len(),
{
    if results.len() == 0 {
        Seq::empty()
    } else {
        all_contexts(results.drop_last()) + context_views(results.last().data.additional_contexts_for_model@)
    }
}

/// The feedback of the hooks, in order.
pub open spec fn all_feedback(results: Seq<ParsedHandler>) -> Seq<Seq<char>>
    decreases results.len(),
{
    if results.len() == 0 {
        Seq::empty()
    } else {
        all_feedback(results.drop_last()) + text_views(results.last().data.feedback_messages_for_model@)
    }
}

/// The response identities of the hooks, in order.
pub open spec fn all_response_ids(results: Seq<ParsedHandler>) -> Seq<Seq<char>>
    decreases results.len(),
{
    if results.len() == 0 {
        Seq::empty()
    } else {
        all_response_ids(results.drop_last()) + text_views(results.last().data.replacement_response_ids@)
    }
}

/// The texts without repetitions, each at its first place.
pub open spec fn distinct(texts: Seq<Seq<char>>) -> Seq<Seq<char>>
    decreases texts.len(),
{
    if texts.len() == 0 {
        Seq::empty()
    } else {
        let before = distinct(texts.drop_last());
        if before.contains(texts.last()) {
            before
        } else {
            before.push(texts.last())
        }
    }
}

/// Several texts joined by a separator; nothing where there is none.
pub open spec fn joined(texts: Seq<Seq<char>>, separator: Seq<char>) -> Option<Seq<char>>
    decreases texts.len(),
{
    if texts.len() == 0 {
        None
    } else {
        match joined(texts.drop_last(), separator) {
            Some(before) => Some(before + separator + texts.last()),
            None => Some(texts.last()),
        }
    }
}

fn contains_text(texts: &Vec<String>, t: &str) -> (yes: bool)
    ensures
        yes == text_views(texts@).contains(t@),
{
    let mut i: usize = 0;
    while i < texts.len()
        invariant
            i <= texts@.len(),
            forall|j: int| 0 <= j < i ==> (#[trigger] text_views(texts@)[j]) != t@,
        decreases texts@.len() - i,
    {
        if text::same_text(texts[i].as_str(), t) {
            assert(text_views(texts@)[i as int] == t@);
            return true;
        }
        i = i + 1;
    }
    false
}

fn append_distinct(kept: &mut Vec<String>, more: &Vec<String>, Ghost(seen): Ghost<Seq<Seq<char>>>)
    requires
        text_views(old(kept)@) == distinct(seen),
    ensures
        text_views(final(kept)@) == distinct(seen + text_views(more@)),
{
    let mut i: usize = 0;
    assert(seen + text_views(more@).take(0) =~= seen);
    while i < more.len()
        invariant
            i <= more@.len(),
            text_views(kept@) == distinct(seen + text_views(more@).take(i as int)),
        decreases more@.len() - i,
    {
        let ghost before = kept@;
        let ghost all = seen + text_views(more@).take(i as int + 1);
        assert(all.drop_last() =~= seen + text_views(more@).take(i as int));
        assert(all.last() == more@[i as int]@);
        if !contains_text(kept, more[i].as_str()) {
            let t = more[i].clone();
            kept.push(t);
            assert(text_views(kept@) =~= text_views(before).push(t@));
        }
        i = i + 1;
    }
    assert(text_views(more@).take(i as int) =~= text_views(more@));
}

fn append_joined(out: Option<String>, more: &Vec<String>, separator: &str, Ghost(seen): Ghost<Seq<Seq<char>>>) -> (r:
    Option<String>)
    requires
        items::text_option(out) == joined(seen, separator@),
    ensures
        items::text_option(r) == joined(seen + text_views(more@), separator@),
{
    let mut r = out;
    let mut i: usize = 0;
    assert(seen + text_views(more@).take(0) =~= seen);
    while i < more.len()
        invariant
            i <= more@.len(),
            items::text_option(r) == joined(seen + text_views(more@).take(i as int), separator@),
        decreases more@.len() - i,
    {
        let ghost all = seen + text_views(more@).take(i as int + 1);
        assert(all.drop_last() =~= seen + text_views(more@).take(i as int));
        assert(all.last() == more@[i as int]@);
        r = match r {
            Some(before) => {
                let mut whole = before;
                whole.append(separator);
                whole.append(more[i].as_str());
                Some(whole)
            },
            None => Some(more[i].clone()),
        };
        i = i + 1;
    }
    assert(text_views(more@).take(i as int) =~= text_views(more@));
    r
}

/// The contexts that hooks add, in order, each with its limit.
pub fn flatten_additional_contexts(results: &Vec<ParsedHandler>) -> (contexts: Vec<AdditionalContext>)
    ensures
        context_views(contexts@) == all_contexts(results@),
{
    let mut contexts: Vec<AdditionalContext> = Vec::new();
    assert(context_views(contexts@) =~= Seq::<AdditionalContextView>::empty());
    let mut i: usize = 0;
    while i < results.len()
        invariant
            i <= results@.len(),
            context_views(contexts@) == all_contexts(results@.take(i as int)),
        decreases results@.len() - i,
    {
        let ghost before = contexts@;
        let added = &results[i].data.additional_contexts_for_model;
        assert(results@.take(i as int + 1).drop_last() =~= results@.take(i as int));
        let mut j: usize = 0;
        assert(context_views(before) + context_views(added@).take(0) =~= context_views(before));
        while j < added.len()
            invariant
                j <= added@.len(),
                context_views(contexts@) == context_views(before) + context_views(added@).take(j as int),
            decreases added@.len() - j,
        {
            let ghost so_far = contexts@;
            let context = AdditionalContext { text: added[j].text.clone(), limit: added[j].limit };
            contexts.push(context);
            j = j + 1;
            assert(context_views(contexts@) =~= context_views(so_far).push(context@));
            assert(context_views(contexts@) =~= context_views(before) + context_views(added@).take(j as int));
        }
        assert(context_views(added@).take(j as int) =~= context_views(added@));
        i = i + 1;
    }
    assert(results@.take(i as int) =~= results@);
    contexts
}

/// What all hooks together amount to: one that blocks blocks, feedback is joined in order, and
/// every response identity is listed once. `additional_contexts` is what the host makes of the
/// contexts that the hooks add.
pub fn post_tool_use_outcome(
    results: Vec<ParsedHandler>,
    additional_contexts: Vec<String>,
    tool_use_id: &str,
    separator: &str,
) -> (outcome: PostToolUseOutcome)
    ensures
        completed_views(outcome.hook_events@) == results@.map_values(
            |r: ParsedHandler| for_tool_use(r.completed@, tool_use_id@),
        ),
        outcome.should_block == exists|i: int| 0 <= i < results@.len() && (#[trigger] results@[i]).data.should_block,
        outcome.additional_contexts == additional_contexts,
        items::text_option(outcome.feedback_message) == joined(all_feedback(results@), separator@),
        text_views(outcome.replacement_response_ids@) == distinct(all_response_ids(results@)),
{
    let mut should_block = false;
    let mut feedback_message: Option<String> = None;
    let mut replacement_response_ids: Vec<String> = Vec::new();
    assert(text_views(replacement_response_ids@) =~= Seq::<Seq<char>>::empty());
    let mut i: usize = 0;
    while i < results.len()
        invariant
            i <= results@.len(),
            should_block == exists|j: int| 0 <= j < i && (#[trigger] results@[j]).data.should_block,
            items::text_option(feedback_message) == joined(all_feedback(results@.take(i as int)), separator@),
            text_views(replacement_response_ids@) == distinct(all_response_ids(results@.take(i as int))),
        decreases results@.len() - i,
    {
        assert(results@.take(i as int + 1).drop_last() =~= results@.take(i as int));
        assert(results@.take(i as int + 1).last() == results@[i as int]);
        let data = &results[i].data;
        should_block = should_block || data.should_block;
        feedback_message = append_joined(
            feedback_message,
            &data.feedback_messages_for_model,
            separator,
            Ghost(all_feedback(results@.take(i as int))),
        );
        append_distinct(
            &mut replacement_response_ids,
            &data.replacement_response_ids,
            Ghost(all_response_ids(results@.take(i as int))),
        );
        i = i + 1;
    }
    assert(results@.take(i as int) =~= results@);
    let ghost expected = results@.map_values(|r: ParsedHandler| for_tool_use(r.completed@, tool_use_id@));
    let mut hook_events: Vec<HookCompletedEvent> = Vec::new();
    for result in it: results
        invariant
            it.seq() == results@,
            expected == results@.map_values(|r: ParsedHandler| for_tool_use(r.completed@, tool_use_id@)),
            completed_views(hook_events@) == expected.take(it.index()),
    {
        let ghost before = hook_events@;
        let event = hook_completed_for_tool_use(result.completed, tool_use_id);
        hook_events.push(event);
        assert(completed_views(hook_events@) =~= completed_views(before).push(event@));
        assert(completed_views(hook_events@) =~= expected.take(it.index() as int + 1));
    }
    assert(completed_views(hook_events@) =~= expected);
    PostToolUseOutcome {
        hook_events,
        should_block,
        additional_contexts,
        feedback_message,
        replacement_response_ids,
    }
}

/// Removing repetitions keeps every text, exactly once.
pub proof fn law_response_identities_are_listed_once(texts: Seq<Seq<char>>)
    ensures
        distinct(texts).no_duplicates(),
        forall|t: Seq<char>| #[trigger] distinct(texts).contains(t) <==> texts.contains(t),
    decreases texts.len(),
{
    if texts.len() > 0 {
        let rest = texts.drop_last();
        let last = texts.last();
        let before = distinct(rest);
        law_response_identities_are_listed_once(rest);
        assert forall|t: Seq<char>| #[trigger] distinct(texts).contains(t) <==> texts.contains(t) by {
            if texts.contains(t) {
                let i = choose|i: int| 0 <= i < texts.len() && texts[i] == t;
                if i < rest.len() {
                    assert(rest[i] == t);
                    assert(before.contains(t));
                    let k = choose|k: int| 0 <= k < before.len() && before[k] == t;
                    assert(distinct(texts)[k] == t);
                } else if !before.contains(last) {
                    assert(distinct(texts)[before.len() as int] == last);
                }
            }
            if distinct(texts).contains(t) {
                let k = choose|k: int| 0 <= k < distinct(texts).len() && distinct(texts)[k] == t;
                if k < before.len() {
                    assert(before[k] == t);
                    assert(distinct(rest).contains(t));
                    assert(rest.contains(t));
                    let i = choose|i: int| 0 <= i < rest.len() && rest[i] == t;
                    assert(texts[i] == t);
                } else {
                    assert(texts[texts.len() - 1] == t);
                }
            }
        }
    }
}

/// A hook that may not steer the turn neither blocks nor replaces anything, whatever it prints
/// and however it exits.
pub proof fn law_observing_hooks_do_not_steer(
    handler: ConfiguredHandler,
    result: HandlerRunResult,
    parsed: Option<ParsedHookOutput>,
    looks_like_json: bool,
)
    requires
        !handler.can_apply_control_effects,
    ensures
        ({
            let c = completion(handler, result, parsed, looks_like_json);
            &&& !c.should_block
            &&& c.feedback.len() == 0
            &&& c.response_ids.len() == 0
            &&& c.status == HookRunStatus::Completed || c.status == HookRunStatus::Failed
        }),
{
}

/// A response is accepted as a replacement only together with feedback that takes the output's
/// place, and a hook blocks only under the status that says so.
pub proof fn law_replacements_come_with_feedback(
    handler: ConfiguredHandler,
    result: HandlerRunResult,
    parsed: Option<ParsedHookOutput>,
    looks_like_json: bool,
)
    ensures
        ({
            let c = completion(handler, result, parsed, looks_like_json);
            &&& c.response_ids.len() <= c.feedback.len() <= 1
            &&& c.should_block <==> c.status == HookRunStatus::Blocked
        }),
{
}

/// Whether a hook's output is judged by what it says: the process ended well and its output was
/// understood.
pub open spec fn is_understood(result: HandlerRunResult) -> bool {
    result.error is None && result.exit_code == Some(0i32) && !text::blank(result.stdout@)
}

/// The text that an optional text holds, where that is more than white space.
pub open spec fn says_something(t: Option<String>) -> bool {
    t is Some && !text::blank(t->0@)
}

/// A hook that may steer and that stops the turn says why. The record ends with its stop reason, and
/// the model reads its reason, without white space around it, or else its stop reason as it is. The
/// library's own words stand only where the hook gave neither.
pub proof fn law_a_stop_says_why(
    handler: ConfiguredHandler,
    result: HandlerRunResult,
    parsed: ParsedHookOutput,
    looks_like_json: bool,
)
    requires
        handler.can_apply_control_effects,
        is_understood(result),
        !parsed.continue_processing,
    ensures
        ({
            let c = completion(handler, result, Some(parsed), looks_like_json);
            &&& c.status == HookRunStatus::Stopped
            &&& !c.should_block
            &&& c.feedback.len() == 1
            &&& says_something(parsed.reason) ==> c.feedback[0] == text::trimmed(parsed.reason->0@)
            &&& !says_something(parsed.reason) && parsed.stop_reason is Some ==> c.feedback[0]
                == parsed.stop_reason->0@
            &&& !says_something(parsed.reason) && parsed.stop_reason is None ==> c.feedback[0]
                == "PostToolUse hook stopped execution"@
            &&& c.entries.len() >= 1
            &&& c.entries.last().kind == HookOutputEntryKind::Stop
            &&& parsed.stop_reason is Some ==> c.entries.last().text == parsed.stop_reason->0@
            &&& parsed.stop_reason is None ==> c.entries.last().text == "PostToolUse hook stopped execution"@
        }),
{
}

/// A hook that may steer and that blocks without a mistake blocks, and the model reads exactly the
/// reason that it gives, or nothing.
pub proof fn law_a_block_gives_its_reason(
    handler: ConfiguredHandler,
    result: HandlerRunResult,
    parsed: ParsedHookOutput,
    looks_like_json: bool,
)
    requires
        handler.can_apply_control_effects,
        is_understood(result),
        parsed.continue_processing,
        parsed.invalid_reason is None,
        parsed.invalid_block_reason is None,
    ensures
        ({
            let c = completion(handler, result, Some(parsed), looks_like_json);
            &&& c.should_block == parsed.should_block
            &&& c.status == (if parsed.should_block { HookRunStatus::Blocked } else { HookRunStatus::Completed })
            &&& parsed.should_block && parsed.reason is Some ==> {
                &&& c.feedback == seq![parsed.reason->0@]
                &&& c.entries.len() >= 1
                &&& c.entries.last() == (OutputEntryView {
                    kind: HookOutputEntryKind::Feedback,
                    text: parsed.reason->0@,
                })
            }
            &&& !parsed.should_block || parsed.reason is None ==> c.feedback.len() == 0 && c.response_ids.len() == 0
        }),
{
}

/// A hook that may steer and that asks for something invalid fails with the complaint and asks for
/// nothing, unless it stops the turn.
pub proof fn law_an_invalid_request_fails(
    handler: ConfiguredHandler,
    result: HandlerRunResult,
    parsed: ParsedHookOutput,
    looks_like_json: bool,
)
    requires
        handler.can_apply_control_effects,
        is_understood(result),
        parsed.continue_processing,
        parsed.invalid_reason is Some || parsed.invalid_block_reason is Some,
    ensures
        ({
            let c = completion(handler, result, Some(parsed), looks_like_json);
            &&& c.status == HookRunStatus::Failed
            &&& !c.should_block
            &&& c.feedback.len() == 0
            &&& c.response_ids.len() == 0
            &&& c.contexts.len() == 0
            &&& c.entries.len() >= 1
            &&& c.entries.last().kind == HookOutputEntryKind::Error
            &&& parsed.invalid_reason is Some ==> c.entries.last().text == parsed.invalid_reason->0@
            &&& parsed.invalid_reason is None ==> c.entries.last().text == parsed.invalid_block_reason->0@
        }),
{
}

/// Wherever feedback is selected from an output that was understood, the identity that the output
/// carries goes with it, without white space around it, and a blank one counts for none.
pub proof fn law_feedback_carries_its_identity(
    handler: ConfiguredHandler,
    result: HandlerRunResult,
    parsed: ParsedHookOutput,
    looks_like_json: bool,
)
    requires
        is_understood(result),
    ensures
        ({
            let c = completion(handler, result, Some(parsed), looks_like_json);
            &&& c.feedback.len() > 0 && says_something(parsed.response_id) ==> c.response_ids == seq![
                text::trimmed(parsed.response_id->0@),
            ]
            &&& c.feedback.len() == 0 || !says_something(parsed.response_id) ==> c.response_ids.len() == 0
        }),
{
}

/// What a hook says besides steering: its message is the first line of the record, as a warning, and
/// the context that it adds follows and reaches the model with the hook's own limit. Only a hook that
/// may steer loses its context by a mistake. At most one line comes after these.
pub proof fn law_what_a_hook_adds_is_recorded(
    handler: ConfiguredHandler,
    result: HandlerRunResult,
    parsed: ParsedHookOutput,
    looks_like_json: bool,
)
    requires
        is_understood(result),
    ensures
        ({
            let c = completion(handler, result, Some(parsed), looks_like_json);
            let warned: int = if parsed.system_message is Some { 1 } else { 0 };
            let mistaken = parsed.invalid_reason is Some || parsed.invalid_block_reason is Some;
            let adds = parsed.additional_context is Some && !(handler.can_apply_control_effects && mistaken);
            let added: int = if adds { 1 } else { 0 };
            &&& warned + added <= c.entries.len() <= warned + added + 1
            &&& !handler.can_apply_control_effects ==> c.entries.len() == warned + added
            &&& parsed.system_message is Some ==> c.entries[0] == (OutputEntryView {
                kind: HookOutputEntryKind::Warning,
                text: parsed.system_message->0@,
            })
            &&& adds ==> c.entries[warned] == (OutputEntryView {
                kind: HookOutputEntryKind::Context,
                text: parsed.additional_context->0@,
            })
            &&& adds ==> c.contexts == seq![
                AdditionalContextView {
                    text: parsed.additional_context->0@,
                    limit: handler.additional_context_limit,
                },
            ]
            &&& !adds ==> c.contexts.len() == 0
        }),
{
}

/// How a run is judged where its output was not understood: an error, a missing status and an exit
/// code other than 0 are failures with one line that says so, but exit code 2 of a hook that may steer
/// blocks with what it wrote to standard error. A good end with nothing to understand is silent,
/// unless the output was meant to be JSON.
pub proof fn law_a_run_is_judged_by_how_it_ended(
    handler: ConfiguredHandler,
    result: HandlerRunResult,
    parsed: Option<ParsedHookOutput>,
    looks_like_json: bool,
)
    requires
        !is_understood(result) || parsed is None,
    ensures
        ({
            let c = completion(handler, result, parsed, looks_like_json);
            let failed_with = |t: Seq<char>|
                c.status == HookRunStatus::Failed && c.entries == seq![
                    OutputEntryView { kind: HookOutputEntryKind::Error, text: t },
                ] && c.feedback.len() == 0;
            let blocks = result.error is None && result.exit_code == Some(2i32) && handler.can_apply_control_effects;
            &&& c.contexts.len() == 0
            &&& c.response_ids.len() == 0
            &&& c.should_block <==> blocks && !text::blank(result.stderr@)
            &&& result.error is Some ==> failed_with(result.error->0@)
            &&& result.error is None && result.exit_code is None ==> failed_with("hook exited without a status code"@)
            &&& blocks && text::blank(result.stderr@) ==> failed_with(
                "PostToolUse hook exited with code 2 but did not write feedback to stderr"@,
            )
            &&& blocks && !text::blank(result.stderr@) ==> {
                &&& c.status == HookRunStatus::Blocked
                &&& c.feedback == seq![text::trimmed(result.stderr@)]
                &&& c.entries == seq![
                    OutputEntryView { kind: HookOutputEntryKind::Feedback, text: text::trimmed(result.stderr@) },
                ]
            }
            &&& result.error is None && result.exit_code is Some && result.exit_code->0 != 0 && !blocks
                ==> failed_with("hook exited with code "@ + text::signed_decimal(result.exit_code->0 as int))
            &&& result.error is None && result.exit_code == Some(0i32) && !text::blank(result.stdout@)
                && looks_like_json ==> failed_with("hook returned invalid post-tool-use JSON output"@)
            &&& result.error is None && result.exit_code == Some(0i32) && (text::blank(result.stdout@)
                || !looks_like_json) ==> c.status == HookRunStatus::Completed && c.entries.len() == 0
                && c.feedback.len() == 0
        }),
{
}

/// What several hooks add is what each of them adds, in their order.
pub proof fn law_hooks_are_heard_in_order(before: Seq<ParsedHandler>, after: Seq<ParsedHandler>, one: ParsedHandler)
    ensures
        all_contexts(before + after) == all_contexts(before) + all_contexts(after),
        all_feedback(before + after) == all_feedback(before) + all_feedback(after),
        all_response_ids(before + after) == all_response_ids(before) + all_response_ids(after),
        all_contexts(seq![one]) == completion_of(one).contexts,
        all_feedback(seq![one]) == completion_of(one).feedback,
        all_response_ids(seq![one]) == completion_of(one).response_ids,
    decreases after.len(),
{
    assert(seq![one].drop_last() =~= Seq::<ParsedHandler>::empty());
    assert(all_contexts(Seq::<ParsedHandler>::empty()) =~= Seq::empty());
    assert(all_feedback(Seq::<ParsedHandler>::empty()) =~= Seq::empty());
    assert(all_response_ids(Seq::<ParsedHandler>::empty()) =~= Seq::empty());
    assert(all_contexts(seq![one]) =~= completion_of(one).contexts);
    assert(all_feedback(seq![one]) =~= completion_of(one).feedback);
    assert(all_response_ids(seq![one]) =~= completion_of(one).response_ids);
    if after.len() == 0 {
        assert(before + after =~= before);
        assert(all_contexts(before) + all_contexts(after) =~= all_contexts(before));
        assert(all_feedback(before) + all_feedback(after) =~= all_feedback(before));
        assert(all_response_ids(before) + all_response_ids(after) =~= all_response_ids(before));
    } else {
        assert((before + after).drop_last() =~= before + after.drop_last());
        law_hooks_are_heard_in_order(before, after.drop_last(), one);
        assert(all_contexts(before + after) =~= all_contexts(before) + all_contexts(after));
        assert(all_feedback(before + after) =~= all_feedback(before) + all_feedback(after));
        assert(all_response_ids(before + after) =~= all_response_ids(before) + all_response_ids(after));
    }
}

/// Feedback is joined in order, with the separator between two texts and nowhere else, and there is a
/// message exactly where there is feedback.
pub proof fn law_feedback_is_joined_in_order(
    before: Seq<Seq<char>>,
    after: Seq<Seq<char>>,
    one: Seq<char>,
    separator: Seq<char>,
)
    ensures
        joined(Seq::empty(), separator) is None,
        joined(seq![one], separator) == Some(one),
        before.len() > 0 && after.len() > 0 ==> {
            &&& joined(before, separator) is Some
            &&& joined(after, separator) is Some
            &&& joined(before + after, separator) == Some(
                joined(before, separator)->0 + separator + joined(after, separator)->0,
            )
        },
    decreases after.len(),
{
    assert(seq![one].drop_last() =~= Seq::<Seq<char>>::empty());
    assert(joined(Seq::<Seq<char>>::empty(), separator) is None);
    if before.len() > 0 && after.len() > 0 {
        let rest = after.drop_last();
        assert((before + after).drop_last() =~= before + rest);
        lemma_joined_some(before, separator);
        if rest.len() > 0 {
            law_feedback_is_joined_in_order(before, rest, one, separator);
            let whole = joined(before + after, separator)->0;
            assert(whole =~= joined(before, separator)->0 + separator + joined(after, separator)->0);
        } else {
            assert(before + rest =~= before);
            assert(joined(rest, separator) is None);
        }
    }
}

proof fn lemma_joined_some(texts: Seq<Seq<char>>, separator: Seq<char>)
    requires
        texts.len() > 0,
    ensures
        joined(texts, separator) is Some,
{
}

/// An identity is listed where it first came up: what later hooks add does not change the order of
/// what was listed before.
pub proof fn law_identities_keep_their_first_place(before: Seq<Seq<char>>, after: Seq<Seq<char>>)
    ensures
        distinct(before).len() <= distinct(before + after).len(),
        distinct(before + after).take(distinct(before).len() as int) == distinct(before),
    decreases after.len(),
{
    if after.len() == 0 {
        assert(before + after =~= before);
        assert(distinct(before).take(distinct(before).len() as int) =~= distinct(before));
    } else {
        assert((before + after).drop_last() =~= before + after.drop_last());
        law_identities_keep_their_first_place(before, after.drop_last());
        assert(distinct(before + after).take(distinct(before).len() as int) =~= distinct(
            before + after.drop_last(),
        ).take(distinct(before).len() as int));
    }
}

/// A run is recorded under the hook's identity and the tool call's, with a colon between them, and
/// nothing else of it changes.
pub proof fn law_runs_are_told_apart_by_tool_call(event: CompletedView, tool_use_id: Seq<char>)
    ensures
        ({
            let named = for_tool_use(event, tool_use_id);
            let n = event.run.id.len() as int;
            &&& named.run.id.len() == n + 1 + tool_use_id.len()
            &&& named.run.id.take(n) == event.run.id
            &&& named.run.id[n] == ':'
            &&& named.run.id.skip(n + 1) == tool_use_id
            &&& named.turn_id == event.turn_id
            &&& named.run.status == event.run.status
            &&& named.run.entries == event.run.entries
        }),
{
    let named = for_tool_use(event, tool_use_id);
    let n = event.run.id.len() as int;
    reveal_strlit(":");
    assert(named.run.id.take(n) =~= event.run.id);
    assert(named.run.id.skip(n + 1) =~= tool_use_id);
}

/// What a hook is told, by its keys: the session, the turn and the tool call, the tool under its own
/// name with its input and response, the exact response only where it is shared, and what is absent
/// not at all, but for the transcript.
pub proof fn law_a_hook_is_told_of_the_tool_call(r: PostToolUseRequest)
    ensures
        ({
            let told = |key: Seq<char>| json::json_get(command_input(r), key);
            let told_text = |key: Seq<char>, t: Option<String>|
                json::json_get(command_input(r), key) == (match t {
                    Some(t) => Some(JsonView::Text(t@)),
                    None => None,
                });
            &&& told("session_id"@) == Some(JsonView::Text(r.session_id@))
            &&& told("turn_id"@) == Some(JsonView::Text(r.turn_id@))
            &&& r.subagent matches Some(agent) ==> told("agent_id"@) == Some(JsonView::Text(agent.agent_id@)) && told(
                "agent_type"@,
            ) == Some(JsonView::Text(agent.agent_type@))
            &&& r.subagent is None ==> told("agent_id"@) is None && told("agent_type"@) is None
            &&& r.transcript_path matches Some(path) ==> told("transcript_path"@) == Some(JsonView::Text(path@))
            &&& r.transcript_path is None ==> told("transcript_path"@) == Some(JsonView::Null)
            &&& told("cwd"@) == Some(JsonView::Text(r.cwd@))
            &&& told("hook_event_name"@) == Some(JsonView::Text("PostToolUse"@))
            &&& told("model"@) == Some(JsonView::Text(r.model@))
            &&& told("permission_mode"@) == Some(JsonView::Text(r.permission_mode@))
            &&& told("tool_name"@) == Some(JsonView::Text(r.tool_name@))
            &&& told("tool_input"@) == Some(r.tool_input@)
            &&& told("tool_response"@) == Some(r.tool_response@)
            &&& r.exact_tool_response matches Some(exact) ==> told("token_miser_exact_tool_response_version"@) == Some(
                JsonView::Int(1),
            ) && told("token_miser_exact_tool_response"@) == Some(exact@)
            &&& r.exact_tool_response is None ==> told("token_miser_exact_tool_response_version"@) is None && told(
                "token_miser_exact_tool_response"@,
            ) is None
            &&& told("tool_use_id"@) == Some(JsonView::Text(r.tool_use_id@))
            &&& told("is_code_mode_nested"@) == Some(JsonView::Bool(r.is_code_mode_nested))
            &&& told_text("code_mode_cell_id"@, r.code_mode_cell_id)
            &&& told_text("code_mode_tool_call_id"@, r.code_mode_tool_call_id)
            &&& told_text("parent_intent"@, r.parent_intent)
            &&& told("token_miser_acceptance_version"@) == Some(JsonView::Int(1))
            &&& told("token_miser_grouping_version"@) == Some(JsonView::Int(1))
        }),
{
    lemma_told_first(r);
    lemma_told_second(r);
    let first = first_fields(r);
    let second = second_fields(r);
    lemma_input_parts(r);
    json::lemma_member_of_either(first, second, "session_id"@);
    json::lemma_member_of_either(first, second, "turn_id"@);
    json::lemma_member_of_either(first, second, "agent_id"@);
    json::lemma_member_of_either(first, second, "agent_type"@);
    json::lemma_member_of_either(first, second, "transcript_path"@);
    json::lemma_member_of_either(first, second, "cwd"@);
    json::lemma_member_of_either(first, second, "hook_event_name"@);
    json::lemma_member_of_either(first, second, "model"@);
    json::lemma_member_of_either(first, second, "permission_mode"@);
    json::lemma_member_of_either(first, second, "tool_name"@);
    json::lemma_member_of_either(first, second, "tool_input"@);
    json::lemma_member_of_either(first, second, "tool_response"@);
    json::lemma_member_of_either(first, second, "token_miser_exact_tool_response_version"@);
    json::lemma_member_of_either(first, second, "token_miser_exact_tool_response"@);
    json::lemma_member_of_either(first, second, "tool_use_id"@);
    json::lemma_member_of_either(first, second, "is_code_mode_nested"@);
    json::lemma_member_of_either(first, second, "code_mode_cell_id"@);
    json::lemma_member_of_either(first, second, "code_mode_tool_call_id"@);
    json::lemma_member_of_either(first, second, "parent_intent"@);
    json::lemma_member_of_either(first, second, "token_miser_acceptance_version"@);
    json::lemma_member_of_either(first, second, "token_miser_grouping_version"@);
}

/// What a hook is told of the session, the agent and the tool.
spec fn first_fields(r: PostToolUseRequest) -> Seq<json::MemberView> {
    seq![
        json::field("session_id"@, JsonView::Text(r.session_id@)),
        json::field("turn_id"@, JsonView::Text(r.turn_id@)),
    ] + agent_fields(r.subagent) + tool_fields(r)
}

/// What a hook is told besides.
spec fn second_fields(r: PostToolUseRequest) -> Seq<json::MemberView> {
    exact_fields(json::json_option(r.exact_tool_response)) + seq![
        json::field("tool_use_id"@, JsonView::Text(r.tool_use_id@)),
        json::field("is_code_mode_nested"@, JsonView::Bool(r.is_code_mode_nested)),
    ] + reducer::optional_field(
        "code_mode_cell_id"@,
        reducer::optional_text_json(items::text_option(r.code_mode_cell_id)),
    ) + reducer::optional_field(
        "code_mode_tool_call_id"@,
        reducer::optional_text_json(items::text_option(r.code_mode_tool_call_id)),
    ) + reducer::optional_field(
        "parent_intent"@,
        reducer::optional_text_json(items::text_option(r.parent_intent)),
    ) + seq![
        json::field("token_miser_acceptance_version"@, JsonView::Int(1)),
        json::field("token_miser_grouping_version"@, JsonView::Int(1)),
    ]
}

proof fn lemma_concat_assoc(
    a: Seq<json::MemberView>,
    b: Seq<json::MemberView>,
    c: Seq<json::MemberView>,
)
    ensures
        a + b + c == a + (b + c),
{
    assert(a + b + c =~= a + (b + c));
}

proof fn lemma_input_parts(r: PostToolUseRequest)
    ensures
        command_input(r) == JsonView::Object(first_fields(r) + second_fields(r)),
{
    let first = first_fields(r);
    let exact = exact_fields(json::json_option(r.exact_tool_response));
    let call = seq![
        json::field("tool_use_id"@, JsonView::Text(r.tool_use_id@)),
        json::field("is_code_mode_nested"@, JsonView::Bool(r.is_code_mode_nested)),
    ];
    let cell = reducer::optional_field(
        "code_mode_cell_id"@,
        reducer::optional_text_json(items::text_option(r.code_mode_cell_id)),
    );
    let nested = reducer::optional_field(
        "code_mode_tool_call_id"@,
        reducer::optional_text_json(items::text_option(r.code_mode_tool_call_id)),
    );
    let intent = reducer::optional_field(
        "parent_intent"@,
        reducer::optional_text_json(items::text_option(r.parent_intent)),
    );
    let versions = seq![
        json::field("token_miser_acceptance_version"@, JsonView::Int(1)),
        json::field("token_miser_grouping_version"@, JsonView::Int(1)),
    ];
    lemma_concat_assoc(first, exact, call);
    lemma_concat_assoc(first, exact + call, cell);
    lemma_concat_assoc(first, exact + call + cell, nested);
    lemma_concat_assoc(first, exact + call + cell + nested, intent);
    lemma_concat_assoc(first, exact + call + cell + nested + intent, versions);
}

proof fn lemma_told_first(r: PostToolUseRequest)
    ensures
        ({
            let told = |key: Seq<char>| json::json_get(JsonView::Object(first_fields(r)), key);
            &&& told("session_id"@) == Some(JsonView::Text(r.session_id@))
            &&& told("turn_id"@) == Some(JsonView::Text(r.turn_id@))
            &&& r.subagent matches Some(agent) ==> told("agent_id"@) == Some(JsonView::Text(agent.agent_id@)) && told(
                "agent_type"@,
            ) == Some(JsonView::Text(agent.agent_type@))
            &&& r.subagent is None ==> told("agent_id"@) is None && told("agent_type"@) is None
            &&& told("transcript_path"@) == Some(json::text_or_null(items::text_option(r.transcript_path)))
            &&& told("cwd"@) == Some(JsonView::Text(r.cwd@))
            &&& told("hook_event_name"@) == Some(JsonView::Text("PostToolUse"@))
            &&& told("model"@) == Some(JsonView::Text(r.model@))
            &&& told("permission_mode"@) == Some(JsonView::Text(r.permission_mode@))
            &&& told("tool_name"@) == Some(JsonView::Text(r.tool_name@))
            &&& told("tool_input"@) == Some(r.tool_input@)
            &&& told("tool_response"@) == Some(r.tool_response@)
            &&& told("token_miser_exact_tool_response_version"@) is None
            &&& told("token_miser_exact_tool_response"@) is None
            &&& told("tool_use_id"@) is None
            &&& told("is_code_mode_nested"@) is None
            &&& told("code_mode_cell_id"@) is None
            &&& told("code_mode_tool_call_id"@) is None
            &&& told("parent_intent"@) is None
            &&& told("token_miser_acceptance_version"@) is None
            &&& told("token_miser_grouping_version"@) is None
        }),
{
    lemma_input_keys();
    let members = first_fields(r);
    let g: int = if r.subagent is Some { 2 } else { 0 };
    assert(members.len() == 10 + g);
    json::lemma_member_found(members, 0);
    json::lemma_member_found(members, 1);
    if r.subagent is Some {
        json::lemma_member_found(members, 2);
        json::lemma_member_found(members, 3);
    } else {
        json::law_members_are_found_by_their_key(members, "agent_id"@);
        json::law_members_are_found_by_their_key(members, "agent_type"@);
    }
    json::lemma_member_found(members, 2 + g);
    json::lemma_member_found(members, 3 + g);
    json::lemma_member_found(members, 4 + g);
    json::lemma_member_found(members, 5 + g);
    json::lemma_member_found(members, 6 + g);
    json::lemma_member_found(members, 7 + g);
    json::lemma_member_found(members, 8 + g);
    json::lemma_member_found(members, 9 + g);
    json::law_members_are_found_by_their_key(members, "token_miser_exact_tool_response_version"@);
    json::law_members_are_found_by_their_key(members, "token_miser_exact_tool_response"@);
    json::law_members_are_found_by_their_key(members, "tool_use_id"@);
    json::law_members_are_found_by_their_key(members, "is_code_mode_nested"@);
    json::law_members_are_found_by_their_key(members, "code_mode_cell_id"@);
    json::law_members_are_found_by_their_key(members, "code_mode_tool_call_id"@);
    json::law_members_are_found_by_their_key(members, "parent_intent"@);
    json::law_members_are_found_by_their_key(members, "token_miser_acceptance_version"@);
    json::law_members_are_found_by_their_key(members, "token_miser_grouping_version"@);
}

proof fn lemma_told_second(r: PostToolUseRequest)
    ensures
        ({
            let told = |key: Seq<char>| json::json_get(JsonView::Object(second_fields(r)), key);
            &&& r.exact_tool_response matches Some(exact) ==> told("token_miser_exact_tool_response_version"@) == Some(
                JsonView::Int(1),
            ) && told("token_miser_exact_tool_response"@) == Some(exact@)
            &&& r.exact_tool_response is None ==> told("token_miser_exact_tool_response_version"@) is None && told(
                "token_miser_exact_tool_response"@,
            ) is None
            &&& told("tool_use_id"@) == Some(JsonView::Text(r.tool_use_id@))
            &&& told("is_code_mode_nested"@) == Some(JsonView::Bool(r.is_code_mode_nested))
            &&& told("code_mode_cell_id"@) == reducer::optional_text_json(items::text_option(r.code_mode_cell_id))
            &&& told("code_mode_tool_call_id"@) == reducer::optional_text_json(
                items::text_option(r.code_mode_tool_call_id),
            )
            &&& told("parent_intent"@) == reducer::optional_text_json(items::text_option(r.parent_intent))
            &&& told("token_miser_acceptance_version"@) == Some(JsonView::Int(1))
            &&& told("token_miser_grouping_version"@) == Some(JsonView::Int(1))
            &&& told("agent_id"@) is None
            &&& told("agent_type"@) is None
        }),
{
    lemma_input_keys();
    let members = second_fields(r);
    let x: int = if r.exact_tool_response is Some { 2 } else { 0 };
    let a: int = if r.code_mode_cell_id is Some { 1 } else { 0 };
    let b: int = if r.code_mode_tool_call_id is Some { 1 } else { 0 };
    let d: int = if r.parent_intent is Some { 1 } else { 0 };
    assert(members.len() == 4 + x + a + b + d);
    if r.exact_tool_response is Some {
        json::lemma_member_found(members, 0);
        json::lemma_member_found(members, 1);
    } else {
        json::law_members_are_found_by_their_key(members, "token_miser_exact_tool_response_version"@);
        json::law_members_are_found_by_their_key(members, "token_miser_exact_tool_response"@);
    }
    json::lemma_member_found(members, x);
    json::lemma_member_found(members, 1 + x);
    if r.code_mode_cell_id is Some {
        json::lemma_member_found(members, 2 + x);
    } else {
        json::law_members_are_found_by_their_key(members, "code_mode_cell_id"@);
    }
    if r.code_mode_tool_call_id is Some {
        json::lemma_member_found(members, 2 + x + a);
    } else {
        json::law_members_are_found_by_their_key(members, "code_mode_tool_call_id"@);
    }
    if r.parent_intent is Some {
        json::lemma_member_found(members, 2 + x + a + b);
    } else {
        json::law_members_are_found_by_their_key(members, "parent_intent"@);
    }
    json::lemma_member_found(members, 2 + x + a + b + d);
    json::lemma_member_found(members, 3 + x + a + b + d);
    json::law_members_are_found_by_their_key(members, "agent_id"@);
    json::law_members_are_found_by_their_key(members, "agent_type"@);
}

proof fn lemma_input_keys()
    ensures
        "session_id"@.len() == 10,
        "turn_id"@.len() == 7,
        "agent_id"@.len() == 8,
        "agent_type"@.len() == 10,
        "transcript_path"@.len() == 15,
        "cwd"@.len() == 3,
        "hook_event_name"@.len() == 15,
        "model"@.len() == 5,
        "permission_mode"@.len() == 15,
        "tool_name"@.len() == 9,
        "tool_input"@.len() == 10,
        "tool_response"@.len() == 13,
        "token_miser_exact_tool_response_version"@.len() == 39,
        "token_miser_exact_tool_response"@.len() == 31,
        "tool_use_id"@.len() == 11,
        "is_code_mode_nested"@.len() == 19,
        "code_mode_cell_id"@.len() == 17,
        "code_mode_tool_call_id"@.len() == 22,
        "parent_intent"@.len() == 13,
        "token_miser_acceptance_version"@.len() == 30,
        "token_miser_grouping_version"@.len() == 28,
        "session_id"@[0] != "agent_type"@[0],
        "session_id"@[0] != "tool_input"@[0],
        "agent_type"@[0] != "tool_input"@[0],
        "transcript_path"@[0] != "hook_event_name"@[0],
        "transcript_path"@[0] != "permission_mode"@[0],
        "hook_event_name"@[0] != "permission_mode"@[0],
        "tool_response"@[0] != "parent_intent"@[0],
{
    reveal_strlit("session_id");
    reveal_strlit("turn_id");
    reveal_strlit("agent_id");
    reveal_strlit("agent_type");
    reveal_strlit("transcript_path");
    reveal_strlit("cwd");
    reveal_strlit("hook_event_name");
    reveal_strlit("model");
    reveal_strlit("permission_mode");
    reveal_strlit("tool_name");
    reveal_strlit("tool_input");
    reveal_strlit("tool_response");
    reveal_strlit("token_miser_exact_tool_response_version");
    reveal_strlit("token_miser_exact_tool_response");
    reveal_strlit("tool_use_id");
    reveal_strlit("is_code_mode_nested");
    reveal_strlit("code_mode_cell_id");
    reveal_strlit("code_mode_tool_call_id");
    reveal_strlit("parent_intent");
    reveal_strlit("token_miser_acceptance_version");
    reveal_strlit("token_miser_grouping_version");
}

/// A hook is recorded as running before it runs, and as failed with the one line that says why where its
/// input could not be written, each under the hook's identity and the tool call's.
pub proof fn law_a_run_is_recorded_from_its_start(
    handler: ConfiguredHandler,
    turn_id: Option<Seq<char>>,
    error: Seq<char>,
    tool_use_id: Seq<char>,
)
    ensures
        ({
            let running = running_view(handler, tool_use_id);
            let failed = failed_view(handler, turn_id, error, tool_use_id);
            &&& running.id == handler.run_id@ + seq![':'] + tool_use_id
            &&& running.status == HookRunStatus::Running
            &&& running.entries.len() == 0
            &&& failed.turn_id == turn_id
            &&& failed.run.id == running.id
            &&& failed.run.status == HookRunStatus::Failed
            &&& failed.run.entries == seq![OutputEntryView { kind: HookOutputEntryKind::Error, text: error }]
        }),
{
    reveal_strlit(":");
    assert(running_view(handler, tool_use_id).id =~= handler.run_id@ + seq![':'] + tool_use_id);
}

} // verus!
