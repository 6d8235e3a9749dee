//! What a server tells its clients of the reduction contract and of itself.
use vstd::prelude::*;

use crate::actionable_state;
use crate::actionable_state::StateView;
use crate::bridge;
use crate::json;
use crate::post_tool_use;
use crate::post_tool_use::PostToolUseRequest;
use crate::reducer;

verus! {

/// The parameters of a request for the server's capabilities.
#[derive(Debug, Clone, PartialEq, Eq)]
pub struct ServerCapabilitiesReadParams {}

impl Default for ServerCapabilitiesReadParams {
    fn default() -> (params: Self)
        ensures
            params == (ServerCapabilitiesReadParams {}),
    {
        ServerCapabilitiesReadParams {}
    }
}

/// The server's capabilities.
#[derive(Debug, Clone, PartialEq, Eq)]
pub struct ServerCapabilitiesReadResponse {
    pub code_mode_output_reducer: CodeModeOutputReducerCapability,
    pub pwrdrvr_token_miser: PwrdrvrTokenMiserCapability,
}

/// The contract of the managed bridge.
#[derive(Debug, Clone, PartialEq, Eq)]
pub struct PwrdrvrTokenMiserCapability {
    pub version: u32,
    pub identity: String,
    pub initialize_capability_field: String,
    pub thread_start_field: String,
    pub thread_resume_field: String,
    pub descriptor_environment_variable: String,
    pub descriptor_version: u32,
}

/// The contract of the output reducer.
#[derive(Debug, Clone, PartialEq, Eq)]
pub struct CodeModeOutputReducerCapability {
    pub protocol_version: u32,
    pub continuation_guidance_version: u32,
    pub intent_context_version: u32,
    pub reducer_request_field: String,
    pub post_tool_use_field: String,
    pub model_guidance: CodeModeOutputReducerModelGuidanceCapability,
    pub actionable_state: CodeModeActionableStateCapability,
    pub config_key: String,
    pub max_output_tokens_ceiling_config_key: String,
    pub post_tool_use_nested_context_field: String,
    pub post_tool_use_grouping: CodeModePostToolUseGroupingCapability,
    pub post_tool_use_exact_output: CodeModePostToolUseExactOutputCapability,
    pub supports_thread_resume_overrides: bool,
    pub dynamic_tools_resume_field: String,
    pub acceptance: CodeModeOutputReducerAcceptanceCapability,
}

/// The guidance that a host may give the model.
#[derive(Debug, Clone, PartialEq, Eq)]
pub struct CodeModeOutputReducerModelGuidanceCapability {
    pub version: u32,
    pub tool_description_config_key: String,
    pub continuation_config_key: String,
    pub model_visible_overhead_request_field: String,
}

/// The handles that a reducer must give back.
#[derive(Debug, Clone, PartialEq, Eq)]
pub struct CodeModeActionableStateCapability {
    pub version: u32,
    pub reducer_request_field: String,
    pub reducer_response_field: String,
    pub model_output_tag: String,
}

/// How the hooks of one script's nested calls belong together.
#[derive(Debug, Clone, PartialEq, Eq)]
pub struct CodeModePostToolUseGroupingCapability {
    pub version_field: String,
    pub version: u32,
    pub cell_id_field: String,
    pub tool_call_id_field: String,
}

/// How hooks see a tool's exact output.
#[derive(Debug, Clone, PartialEq, Eq)]
pub struct CodeModePostToolUseExactOutputCapability {
    pub version: u32,
    pub version_field: String,
    pub response_field: String,
}

/// How a host learns that a replacement was selected.
#[derive(Debug, Clone, PartialEq, Eq)]
pub struct CodeModeOutputReducerAcceptanceCapability {
    pub descriptor_url_field: String,
    pub response_id_field: String,
    pub callback_version: u32,
    pub direct_post_tool_use: DirectPostToolUseAcceptanceCapability,
}

/// How a hook learns that its replacement of a direct tool's output was selected.
#[derive(Debug, Clone, PartialEq, Eq)]
pub struct DirectPostToolUseAcceptanceCapability {
    pub hook_response_id_field: String,
    pub hook_acceptance_version_field: String,
    pub hook_acceptance_version: u32,
    pub session_id_field: String,
    pub turn_id_field: String,
    pub tool_use_id_field: String,
}

fn model_guidance() -> (c: CodeModeOutputReducerModelGuidanceCapability)
    ensures
        is_model_guidance(c),
{
    CodeModeOutputReducerModelGuidanceCapability {
        version: 1,
        tool_description_config_key: "features.code_mode.output_reducer.tool_description_guidance".to_string(),
        continuation_config_key: "features.code_mode.output_reducer.continuation_guidance".to_string(),
        model_visible_overhead_request_field: "model_visible_overhead_characters".to_string(),
    }
}

/// The advertised guidance.
pub open spec fn is_model_guidance(c: CodeModeOutputReducerModelGuidanceCapability) -> bool {
    &&& c.version == 1
    &&& c.tool_description_config_key@ == "features.code_mode.output_reducer.tool_description_guidance"@
    &&& c.continuation_config_key@ == "features.code_mode.output_reducer.continuation_guidance"@
    &&& c.model_visible_overhead_request_field@ == "model_visible_overhead_characters"@
}

fn actionable_state() -> (c: CodeModeActionableStateCapability)
    ensures
        is_actionable_state(c),
{
    CodeModeActionableStateCapability {
        version: 1,
        reducer_request_field: "actionable_state".to_string(),
        reducer_response_field: "actionable_state".to_string(),
        model_output_tag: "codex_actionable_state".to_string(),
    }
}

/// The advertised handles.
pub open spec fn is_actionable_state(c: CodeModeActionableStateCapability) -> bool {
    &&& c.version == 1
    &&& c.reducer_request_field@ == "actionable_state"@
    &&& c.reducer_response_field@ == "actionable_state"@
    &&& c.model_output_tag@ == "codex_actionable_state"@
}

fn grouping() -> (c: CodeModePostToolUseGroupingCapability)
    ensures
        is_grouping(c),
{
    CodeModePostToolUseGroupingCapability {
        version_field: "token_miser_grouping_version".to_string(),
        version: 1,
        cell_id_field: "code_mode_cell_id".to_string(),
        tool_call_id_field: "code_mode_tool_call_id".to_string(),
    }
}

/// The advertised grouping.
pub open spec fn is_grouping(c: CodeModePostToolUseGroupingCapability) -> bool {
    &&& c.version_field@ == "token_miser_grouping_version"@
    &&& c.version == 1
    &&& c.cell_id_field@ == "code_mode_cell_id"@
    &&& c.tool_call_id_field@ == "code_mode_tool_call_id"@
}

fn exact_output() -> (c: CodeModePostToolUseExactOutputCapability)
    ensures
        is_exact_output(c),
{
    CodeModePostToolUseExactOutputCapability {
        version: 1,
        version_field: "token_miser_exact_tool_response_version".to_string(),
        response_field: "token_miser_exact_tool_response".to_string(),
    }
}

/// The advertised exact output.
pub open spec fn is_exact_output(c: CodeModePostToolUseExactOutputCapability) -> bool {
    &&& c.version == 1
    &&& c.version_field@ == "token_miser_exact_tool_response_version"@
    &&& c.response_field@ == "token_miser_exact_tool_response"@
}

fn acceptance() -> (c: CodeModeOutputReducerAcceptanceCapability)
    ensures
        is_acceptance(c),
{
    CodeModeOutputReducerAcceptanceCapability {
        descriptor_url_field: "acceptance_url".to_string(),
        response_id_field: "response_id".to_string(),
        callback_version: 1,
        direct_post_tool_use: DirectPostToolUseAcceptanceCapability {
            hook_response_id_field: "hookSpecificOutput.response_id".to_string(),
            hook_acceptance_version_field: "token_miser_acceptance_version".to_string(),
            hook_acceptance_version: 1,
            session_id_field: "session_id".to_string(),
            turn_id_field: "turn_id".to_string(),
            tool_use_id_field: "tool_use_id".to_string(),
        },
    }
}

/// The advertised acceptance.
pub open spec fn is_acceptance(c: CodeModeOutputReducerAcceptanceCapability) -> bool {
    &&& c.descriptor_url_field@ == "acceptance_url"@
    &&& c.response_id_field@ == "response_id"@
    &&& c.callback_version == 1
    &&& c.direct_post_tool_use.hook_response_id_field@ == "hookSpecificOutput.response_id"@
    &&& c.direct_post_tool_use.hook_acceptance_version_field@ == "token_miser_acceptance_version"@
    &&& c.direct_post_tool_use.hook_acceptance_version == 1
    &&& c.direct_post_tool_use.session_id_field@ == "session_id"@
    &&& c.direct_post_tool_use.turn_id_field@ == "turn_id"@
    &&& c.direct_post_tool_use.tool_use_id_field@ == "tool_use_id"@
}

fn output_reducer() -> (c: CodeModeOutputReducerCapability)
    ensures
        is_output_reducer(c),
{
    CodeModeOutputReducerCapability {
        protocol_version: 1,
        continuation_guidance_version: 1,
        intent_context_version: 1,
        reducer_request_field: "parent_intent".to_string(),
        post_tool_use_field: "parent_intent".to_string(),
        model_guidance: model_guidance(),
        actionable_state: actionable_state(),
        config_key: "features.code_mode.output_reducer".to_string(),
        max_output_tokens_ceiling_config_key: "features.code_mode.max_output_tokens_ceiling".to_string(),
        post_tool_use_nested_context_field: "is_code_mode_nested".to_string(),
        post_tool_use_grouping: grouping(),
        post_tool_use_exact_output: exact_output(),
        supports_thread_resume_overrides: true,
        dynamic_tools_resume_field: "dynamicTools".to_string(),
        acceptance: acceptance(),
    }
}

/// The advertised contract of the output reducer.
pub open spec fn is_output_reducer(c: CodeModeOutputReducerCapability) -> bool {
    &&& c.protocol_version == 1
    &&& c.continuation_guidance_version == 1
    &&& c.intent_context_version == 1
    &&& c.reducer_request_field@ == "parent_intent"@
    &&& c.post_tool_use_field@ == "parent_intent"@
    &&& is_model_guidance(c.model_guidance)
    &&& is_actionable_state(c.actionable_state)
    &&& c.config_key@ == "features.code_mode.output_reducer"@
    &&& c.max_output_tokens_ceiling_config_key@ == "features.code_mode.max_output_tokens_ceiling"@
    &&& c.post_tool_use_nested_context_field@ == "is_code_mode_nested"@
    &&& is_grouping(c.post_tool_use_grouping)
    &&& is_exact_output(c.post_tool_use_exact_output)
    &&& c.supports_thread_resume_overrides
    &&& c.dynamic_tools_resume_field@ == "dynamicTools"@
    &&& is_acceptance(c.acceptance)
}

/// The advertised contract of the managed bridge.
pub open spec fn is_managed_bridge(c: PwrdrvrTokenMiserCapability) -> bool {
    &&& c.version == 1
    &&& c.identity@ == "pwrdrvr.pwragent.token-miser"@
    &&& c.initialize_capability_field@ == "pwrdrvrTokenMiser"@
    &&& c.thread_start_field@ == "pwrdrvrTokenMiser"@
    &&& c.thread_resume_field@ == "pwrdrvrTokenMiser"@
    &&& c.descriptor_environment_variable@ == "PWRAGENT_TOKEN_MISER_BRIDGE_DESCRIPTOR_PATH"@
    &&& c.descriptor_version == 1
}

/// The server's capabilities.
pub fn read_server_capabilities() -> (response: ServerCapabilitiesReadResponse)
    ensures
        is_output_reducer(response.code_mode_output_reducer),
        is_managed_bridge(response.pwrdrvr_token_miser),
{
    ServerCapabilitiesReadResponse {
        code_mode_output_reducer: output_reducer(),
        pwrdrvr_token_miser: PwrdrvrTokenMiserCapability {
            version: 1,
            identity: "pwrdrvr.pwragent.token-miser".to_string(),
            initialize_capability_field: "pwrdrvrTokenMiser".to_string(),
            thread_start_field: "pwrdrvrTokenMiser".to_string(),
            thread_resume_field: "pwrdrvrTokenMiser".to_string(),
            descriptor_environment_variable: "PWRAGENT_TOKEN_MISER_BRIDGE_DESCRIPTOR_PATH".to_string(),
            descriptor_version: 1,
        },
    }
}

/// What a process knows of itself.
#[derive(Debug, Clone, Copy, PartialEq, Eq, Structural)]
pub struct ServerDiagnosticsProcess {
    pub id: u32,
    pub resident_memory_bytes: Option<u64>,
    pub physical_footprint_bytes: Option<u64>,
}

/// A value that is measured under a fixed name.
#[derive(Debug, Clone, Copy, PartialEq, Eq)]
pub struct GaugeSnapshot {
    pub name: &'static str,
    pub value: u64,
}

/// A measured value as it is reported.
#[derive(Debug, PartialEq, Eq)]
pub struct ServerDiagnosticsGauge {
    pub name: String,
    pub value: u64,
}

/// What a server reports of itself.
#[derive(Debug, PartialEq, Eq)]
pub struct ServerDiagnosticsResponse {
    pub process: ServerDiagnosticsProcess,
    pub gauges: Vec<ServerDiagnosticsGauge>,
}

/// Reports what was measured, each value under its name and in order.
pub fn read_server_diagnostics(
    process: ServerDiagnosticsProcess,
    gauges: &Vec<GaugeSnapshot>,
) -> (response: ServerDiagnosticsResponse)
    ensures
        response.process == process,
        response.gauges@.len() == gauges@.len(),
        forall|i: int|
            0 <= i < gauges@.len() ==> (#[trigger] response.gauges@[i]).name@ == gauges@[i].name@
                && response.gauges@[i].value == gauges@[i].value,
{
    let mut reported: Vec<ServerDiagnosticsGauge> = Vec::new();
    let mut i: usize = 0;
    while i < gauges.len()
        invariant
            i <= gauges@.len(),
            reported@.len() == i,
            forall|j: int|
                0 <= j < i ==> (#[trigger] reported@[j]).name@ == gauges@[j].name@ && reported@[j].value
                    == gauges@[j].value,
        decreases gauges@.len() - i,
    {
        reported.push(ServerDiagnosticsGauge { name: gauges[i].name.to_string(), value: gauges[i].value });
        i = i + 1;
    }
    ServerDiagnosticsResponse { process, gauges: reported }
}

/// What is advertised of the reducer is what a request holds: the fields that it names are the members of
/// a request that carry the intent, the state and the overhead, and its version is the request's.
pub proof fn law_the_advertised_request_is_sent(
    c: CodeModeOutputReducerCapability,
    context: reducer::ContextView,
    intent: Seq<char>,
    state: StateView,
    overhead: int,
    max_output_tokens: int,
    content_items: Seq<json::JsonView>,
)
    requires
        is_output_reducer(c),
        context.parent_intent == Some(intent),
        context.actionable_state == Some(state),
    ensures
        ({
            let request = reducer::request_json(
                c.protocol_version as int,
                context,
                overhead,
                max_output_tokens,
                content_items,
            );
            &&& c.protocol_version == reducer::REDUCER_PROTOCOL_VERSION
            &&& json::json_get(request, c.reducer_request_field@) == Some(json::JsonView::Text(intent))
            &&& json::json_get(request, c.actionable_state.reducer_request_field@) == Some(
                actionable_state::written_state_json(state),
            )
            &&& json::json_get(request, c.model_guidance.model_visible_overhead_request_field@) == Some(
                json::JsonView::Int(overhead),
            )
            &&& c.actionable_state.version == actionable_state::ACTIONABLE_STATE_VERSION
        }),
{
    reducer::law_a_request_tells_its_context(
        c.protocol_version as int,
        context,
        overhead,
        max_output_tokens,
        content_items,
    );
}

/// What is advertised of hooks is what a hook is told: the fields that are named are the members of its
/// input that carry the narration, the cell, the nested call and the exact response, with their versions.
pub proof fn law_the_advertised_hook_input_is_told(c: CodeModeOutputReducerCapability, r: PostToolUseRequest)
    requires
        is_output_reducer(c),
        r.exact_tool_response is Some,
        r.code_mode_cell_id is Some,
        r.code_mode_tool_call_id is Some,
        r.parent_intent is Some,
    ensures
        ({
            let told = |key: Seq<char>| json::json_get(post_tool_use::command_input(r), key);
            &&& told(c.post_tool_use_field@) == Some(json::JsonView::Text(r.parent_intent->0@))
            &&& told(c.post_tool_use_nested_context_field@) == Some(json::JsonView::Bool(r.is_code_mode_nested))
            &&& told(c.post_tool_use_grouping.version_field@) == Some(
                json::JsonView::Int(c.post_tool_use_grouping.version as int),
            )
            &&& told(c.post_tool_use_grouping.cell_id_field@) == Some(
                json::JsonView::Text(r.code_mode_cell_id->0@),
            )
            &&& told(c.post_tool_use_grouping.tool_call_id_field@) == Some(
                json::JsonView::Text(r.code_mode_tool_call_id->0@),
            )
            &&& told(c.post_tool_use_exact_output.version_field@) == Some(
                json::JsonView::Int(c.post_tool_use_exact_output.version as int),
            )
            &&& told(c.post_tool_use_exact_output.response_field@) == Some(r.exact_tool_response->0@)
            &&& told(c.acceptance.direct_post_tool_use.hook_acceptance_version_field@) == Some(
                json::JsonView::Int(c.acceptance.direct_post_tool_use.hook_acceptance_version as int),
            )
        }),
{
    post_tool_use::law_a_hook_is_told_of_the_tool_call(r);
}

/// What is advertised of acceptances is what one holds: the fields that are named are the members of an
/// acceptance that carry the response, the session, the turn and the tool call.
pub proof fn law_the_advertised_acceptance_is_sent(
    c: CodeModeOutputReducerCapability,
    response_id: Seq<char>,
    session_id: Seq<char>,
    turn_id: Seq<char>,
    tool_use_id: Seq<char>,
)
    requires
        is_output_reducer(c),
    ensures
        ({
            let body = reducer::post_tool_use_acceptance_json(
                c.acceptance.callback_version as int,
                response_id,
                session_id,
                turn_id,
                tool_use_id,
            );
            let direct = c.acceptance.direct_post_tool_use;
            &&& json::json_get(body, c.acceptance.response_id_field@) == Some(json::JsonView::Text(response_id))
            &&& json::json_get(body, direct.session_id_field@) == Some(json::JsonView::Text(session_id))
            &&& json::json_get(body, direct.turn_id_field@) == Some(json::JsonView::Text(turn_id))
            &&& json::json_get(body, direct.tool_use_id_field@) == Some(json::JsonView::Text(tool_use_id))
            &&& c.acceptance.callback_version == reducer::REDUCER_PROTOCOL_VERSION
        }),
{
    reducer::law_a_direct_acceptance_names_the_tool_call(
        c.acceptance.callback_version as int,
        response_id,
        session_id,
        turn_id,
        tool_use_id,
    );
}

/// What is advertised of the managed bridge is what it goes by: the identity, the version and the
/// variable that names the descriptor.
pub proof fn law_the_advertised_bridge_is_the_one_used(c: PwrdrvrTokenMiserCapability)
    requires
        is_managed_bridge(c),
    ensures
        c.identity@ == bridge::IDENTITY@,
        c.descriptor_version == bridge::PROTOCOL_VERSION,
        c.descriptor_environment_variable@ == bridge::DESCRIPTOR_ENVIRONMENT_VARIABLE@,
        c.initialize_capability_field@ == c.thread_start_field@,
        c.thread_start_field@ == c.thread_resume_field@,
{
}

} // verus!
