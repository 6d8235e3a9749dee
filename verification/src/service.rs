//! The state of code mode in a session.
//!
//! It remembers, per running cell, the script, the narration before the call and the handles of
//! its processes, and it plans what the model reads of a script's response.
use vstd::prelude::*;

use crate::actionable_state;
use crate::actionable_state::{ActionableState, ActionableStateStore, EntryView};
use crate::assoc::Assoc;
use crate::bridge::PwrdrvrTokenMiserGate;
use crate::items;
use crate::items::{FunctionCallOutputContentItem, ItemView};
use crate::json;
use crate::json::{Json, JsonView};
use crate::payload::{PayloadView, ToolCallSource, ToolName, ToolPayload};
use crate::reducer;
use crate::reducer::{
    ContextView, PostToolUseAcceptanceContext, ReducerReply, ReductionContext, TruncationStyle,
};
use crate::response;
use crate::response::{FunctionToolOutput, RuntimeResponse};
use crate::token_miser;
use crate::token_miser::{RolloutItem, ServiceView, TokenMiserService};

verus! {

/// The bounds of the reducer that decides on kept outputs.
#[derive(Debug, Clone, Copy, PartialEq, Eq, Structural)]
pub struct TokenMiserSettings {
    pub max_reducer_input_bytes: usize,
    pub max_replacement_bytes: usize,
}

/// Settings of the reduction boundary that may change while a session runs.
#[derive(Debug, Clone, Copy, PartialEq, Eq, Structural)]
pub struct CodeModeReductionRuntimeConfig {
    pub max_output_tokens_ceiling: Option<usize>,
    /// Whether an output reducer is configured.
    pub has_output_reducer: bool,
    /// How exact outputs are kept, where they are.
    pub token_miser: Option<TokenMiserSettings>,
}

/// How a model calls tools.
#[derive(Debug, Clone, Copy, PartialEq, Eq, Structural)]
pub enum ToolMode {
    Direct,
    CodeMode,
    CodeModeOnly,
}

/// The state of code mode in a session.
#[derive(Debug)]
pub struct CodeModeService {
    /// Why scripts cannot run, where they cannot.
    unavailable: Option<String>,
    default_exec_yield_time_ms: u64,
    reduction_config: CodeModeReductionRuntimeConfig,
    /// The script of each running cell, so that a reducer can be told what made an output. A
    /// cell is resumed by calls that did not start it, so its script outlives the first call.
    cell_scripts: Assoc<String, String>,
    /// The visible narration before a direct call, until the call starts or ends.
    direct_parent_intents: Assoc<String, String>,
    /// The narration before the call that started a cell, for as long as the cell lives.
    cell_parent_intents: Assoc<String, String>,
    /// The processes that the nested calls of each cell left behind. A reducer can summarize the
    /// output around them and cannot take their place.
    actionable_states: ActionableStateStore,
    pwrdrvr_token_miser: PwrdrvrTokenMiserGate,
    token_miser: TokenMiserService,
    unavailable_warning_emitted: bool,
    shutting_down: bool,
}

/// The value of a [`CodeModeService`].
#[verifier::ext_equal]
pub struct CodeModeView {
    pub unavailable: Option<Seq<char>>,
    pub default_exec_yield_time_ms: int,
    pub reduction_config: CodeModeReductionRuntimeConfig,
    pub scripts: Map<Seq<char>, Seq<char>>,
    pub direct_intents: Map<Seq<char>, Seq<char>>,
    pub cell_intents: Map<Seq<char>, Seq<char>>,
    pub handles: Map<Seq<char>, Seq<EntryView>>,
    pub activation_nonce: Option<Seq<char>>,
    pub kept: ServiceView,
    pub warned: bool,
    pub shutting_down: bool,
}

/// The value of a map from texts to texts.
pub open spec fn text_map(m: Map<Seq<char>, String>) -> Map<Seq<char>, Seq<char>> {
    m.map_values(|t: String| t@)
}

impl View for CodeModeService {
    type V = CodeModeView;

    closed spec fn view(&self) -> CodeModeView {
        CodeModeView {
            unavailable: items::text_option(self.unavailable),
            default_exec_yield_time_ms: self.default_exec_yield_time_ms as int,
            reduction_config: self.reduction_config,
            scripts: text_map(self.cell_scripts@),
            direct_intents: text_map(self.direct_parent_intents@),
            cell_intents: text_map(self.cell_parent_intents@),
            handles: self.actionable_states@,
            activation_nonce: self.pwrdrvr_token_miser@,
            kept: self.token_miser@,
            warned: self.unavailable_warning_emitted,
            shutting_down: self.shutting_down,
        }
    }
}

/// What is under a key.
pub open spec fn lookup(m: Map<Seq<char>, Seq<char>>, key: Seq<char>) -> Option<Seq<char>> {
    if m.dom().contains(key) {
        Some(m[key])
    } else {
        None
    }
}

/// A service with other settings. Without a reducer no script is remembered; everything else is.
pub open spec fn refreshed(before: CodeModeView, config: CodeModeReductionRuntimeConfig) -> CodeModeView {
    CodeModeView {
        reduction_config: config,
        scripts: if config.has_output_reducer {
            before.scripts
        } else {
            Map::empty()
        },
        ..before
    }
}

/// A service that has learnt what a cell runs, where a reducer could be told.
pub open spec fn script_recorded(before: CodeModeView, cell_id: Seq<char>, source: Seq<char>) -> CodeModeView {
    if before.reduction_config.has_output_reducer {
        CodeModeView { scripts: before.scripts.insert(cell_id, source), ..before }
    } else {
        before
    }
}

/// A service in which the narration of a call belongs to the cell that it started.
pub open spec fn intent_moved(before: CodeModeView, call_id: Seq<char>, cell_id: Seq<char>) -> CodeModeView {
    CodeModeView {
        direct_intents: before.direct_intents.remove(call_id),
        cell_intents: match lookup(before.direct_intents, call_id) {
            Some(intent) => before.cell_intents.insert(cell_id, intent),
            None => before.cell_intents,
        },
        ..before
    }
}

/// The narration before a call: a direct call's own, or that of the cell that made it.
pub open spec fn parent_intent(service: CodeModeView, call_id: Seq<char>, source: ToolCallSource) -> Option<Seq<char>> {
    match source {
        ToolCallSource::CodeMode { cell_id, .. } => lookup(service.cell_intents, cell_id@),
        _ => lookup(service.direct_intents, call_id),
    }
}

/// A service that has handed out the narration before a call: a direct call's is forgotten.
pub open spec fn intent_taken(before: CodeModeView, call_id: Seq<char>, source: ToolCallSource) -> CodeModeView {
    match source {
        ToolCallSource::CodeMode { .. } => before,
        _ => CodeModeView { direct_intents: before.direct_intents.remove(call_id), ..before },
    }
}

/// What a nested call was called with, as far as its handles depend on it.
pub open spec fn handle_input(session_argument: Option<int>, payload: PayloadView) -> Option<JsonView> {
    match payload {
        PayloadView::Function { .. } => match session_argument {
            Some(n) => Some(JsonView::Object(seq![json::field("session_id"@, JsonView::Int(n))])),
            None => None,
        },
        PayloadView::Custom { input } => Some(JsonView::Text(input)),
        PayloadView::ToolSearch => None,
    }
}

/// The session argument of a nested call.
pub open spec fn session_argument(payload: PayloadView) -> Option<int> {
    match payload {
        PayloadView::Function { arguments } => json::integer_argument(arguments, "session_id"@),
        _ => None,
    }
}

/// A service that has seen the result of a nested call of a cell.
pub open spec fn observed(
    before: CodeModeView,
    source: ToolCallSource,
    tool_name: ToolName,
    input: Option<JsonView>,
    result: JsonView,
) -> CodeModeView {
    match source {
        ToolCallSource::CodeMode { cell_id, .. } => CodeModeView {
            handles: actionable_state::recorded(
                before.handles,
                cell_id@,
                actionable_state::nested_entry(tool_name.name@, tool_name.default_namespace, input, result),
            ),
            ..before
        },
        _ => before,
    }
}

/// A service whose running cells were interrupted.
pub open spec fn interrupted(before: CodeModeView) -> CodeModeView {
    CodeModeView {
        scripts: Map::empty(),
        direct_intents: Map::empty(),
        cell_intents: Map::empty(),
        handles: Map::empty(),
        ..before
    }
}

/// The warning that scripts cannot run.
pub open spec fn unavailable_warning(error: Seq<char>, tool_mode: ToolMode) -> Seq<char> {
    "Code Mode is unavailable because "@ + error + ". "@ + (if tool_mode == ToolMode::Direct {
        "Falling back to direct tools"@
    } else {
        "Code mode will fail closed"@
    }) + "; enable `features.code_mode_host` and install `codex-code-mode-host`."@
}

impl CodeModeService {
    /// The state of a session that starts with this history.
    pub fn new(
        unavailable: Option<String>,
        default_exec_yield_time_ms: u64,
        config: CodeModeReductionRuntimeConfig,
        restored: &Vec<RolloutItem>,
        thread_id: &Option<String>,
    ) -> (service: Self)
        ensures
            service@.unavailable == items::text_option(unavailable),
            service@.default_exec_yield_time_ms == default_exec_yield_time_ms,
            service@.reduction_config == config,
            service@.scripts == Map::<Seq<char>, Seq<char>>::empty(),
            service@.direct_intents == Map::<Seq<char>, Seq<char>>::empty(),
            service@.cell_intents == Map::<Seq<char>, Seq<char>>::empty(),
            service@.handles == Map::<Seq<char>, Seq<EntryView>>::empty(),
            service@.activation_nonce is None,
            service@.kept == (ServiceView {
                outputs: token_miser::restored_outputs(restored@, items::text_option(*thread_id)),
                cells: token_miser::restored_cells(restored@, restored@, items::text_option(*thread_id)),
                retrievals: Set::empty(),
            }),
            !service@.warned,
            !service@.shutting_down,
    {
        let service = CodeModeService {
            unavailable,
            default_exec_yield_time_ms,
            reduction_config: config,
            cell_scripts: Assoc::new(),
            direct_parent_intents: Assoc::new(),
            cell_parent_intents: Assoc::new(),
            actionable_states: ActionableStateStore::new(),
            pwrdrvr_token_miser: PwrdrvrTokenMiserGate::new(),
            token_miser: TokenMiserService::new(restored, thread_id),
            unavailable_warning_emitted: false,
            shutting_down: false,
        };
        assert(service@.scripts =~= Map::<Seq<char>, Seq<char>>::empty());
        assert(service@.direct_intents =~= Map::<Seq<char>, Seq<char>>::empty());
        assert(service@.cell_intents =~= Map::<Seq<char>, Seq<char>>::empty());
        service
    }

    /// The acceptances that the reducer is sent for the replacements of a tool's output: one for
    /// each response, and none without a reducer.
    pub fn accept_post_tool_use_replacements<'a>(
        &self,
        response_ids: &'a Vec<String>,
        session_id: &'a str,
        turn_id: &'a str,
        tool_use_id: &'a str,
    ) -> (acceptances: Vec<PostToolUseAcceptanceContext<'a>>)
        ensures
            acceptances@.len() == (if self@.reduction_config.has_output_reducer {
                response_ids@.len()
            } else {
                0
            }),
            forall|i: int|
                0 <= i < acceptances@.len() ==> {
                    &&& (#[trigger] acceptances@[i]).response_id@ == response_ids@[i]@
                    &&& acceptances@[i].session_id@ == session_id@
                    &&& acceptances@[i].turn_id@ == turn_id@
                    &&& acceptances@[i].tool_use_id@ == tool_use_id@
                },
    {
        let mut acceptances: Vec<PostToolUseAcceptanceContext<'a>> = Vec::new();
        if !self.reduction_config.has_output_reducer {
            return acceptances;
        }
        let mut i: usize = 0;
        while i < response_ids.len()
            invariant
                i <= response_ids@.len(),
                acceptances@.len() == i,
                forall|j: int|
                    0 <= j < i ==> {
                        &&& (#[trigger] acceptances@[j]).response_id@ == response_ids@[j]@
                        &&& acceptances@[j].session_id@ == session_id@
                        &&& acceptances@[j].turn_id@ == turn_id@
                        &&& acceptances@[j].tool_use_id@ == tool_use_id@
                    },
            decreases response_ids@.len() - i,
        {
            acceptances.push(
                PostToolUseAcceptanceContext {
                    response_id: response_ids[i].as_str(),
                    session_id,
                    turn_id,
                    tool_use_id,
                },
            );
            i = i + 1;
        }
        acceptances
    }

    /// Activates the managed bridge with a nonce, or turns it off.
    pub fn set_pwrdrvr_token_miser_activation_nonce(&mut self, activation_nonce: Option<String>)
        ensures
            final(self)@ == (CodeModeView {
                activation_nonce: items::text_option(activation_nonce),
                ..old(self)@
            }),
    {
        self.pwrdrvr_token_miser.set_activation_nonce(activation_nonce);
    }

    /// Whether the managed bridge is active.
    pub fn pwrdrvr_token_miser_is_enabled(&self) -> (yes: bool)
        ensures
            yes == (self@.activation_nonce is Some),
    {
        self.pwrdrvr_token_miser.is_enabled()
    }

    /// The managed bridge.
    pub fn pwrdrvr_token_miser(&self) -> (gate: &PwrdrvrTokenMiserGate)
        ensures
            gate@ == self@.activation_nonce,
    {
        &self.pwrdrvr_token_miser
    }

    /// Records what a nested call of a cell leaves behind, from its input as far as that matters.
    pub fn observe_tool_result(
        &mut self,
        source: &ToolCallSource,
        tool_name: &ToolName,
        input: Option<&Json>,
        result: &Json,
    )
        ensures
            final(self)@ == observed(
                old(self)@,
                *source,
                *tool_name,
                actionable_state::json_ref_option(input),
                result@,
            ),
    {
        if let ToolCallSource::CodeMode { cell_id, .. } = source {
            self.actionable_states.record(cell_id.as_str(), tool_name, input, result);
        }
    }

    /// Records what a nested call of a cell leaves behind.
    pub fn record_actionable_tool_result(
        &mut self,
        source: &ToolCallSource,
        tool_name: &ToolName,
        payload: &ToolPayload,
        result: &Json,
    )
        ensures
            final(self)@ == observed(
                old(self)@,
                *source,
                *tool_name,
                handle_input(session_argument(payload@), payload@),
                result@,
            ),
    {
        let input = match payload {
            ToolPayload::Function { arguments } => match json::read_integer_argument(
                arguments.as_str(),
                "session_id",
            ) {
                Some(n) => {
                    let j = json::object(vec![json::member("session_id", Json::Int(n as i128))]);
                    assert(j@->Object_0 =~= seq![json::field("session_id"@, JsonView::Int(n as int))]);
                    Some(j)
                },
                None => None,
            },
            ToolPayload::Custom { input } => Some(Json::Text(input.clone())),
            ToolPayload::ToolSearch => None,
        };
        match &input {
            Some(input) => {
                self.observe_tool_result(source, tool_name, Some(input), result);
            },
            None => {
                self.observe_tool_result(source, tool_name, None, result);
            },
        }
    }

    /// Whether scripts can run.
    pub fn is_available(&self) -> (yes: bool)
        ensures
            yes == (self@.unavailable is None),
    {
        self.unavailable.is_none()
    }

    /// The settings of the reduction boundary.
    pub fn reduction_config(&self) -> (config: CodeModeReductionRuntimeConfig)
        ensures
            config == self@.reduction_config,
    {
        self.reduction_config
    }

    /// Changes the settings of the reduction boundary.
    pub fn refresh_reduction_config(&mut self, config: CodeModeReductionRuntimeConfig)
        ensures
            final(self)@ == refreshed(old(self)@, config),
    {
        let ghost before = self@;
        if !config.has_output_reducer {
            self.cell_scripts.clear();
            assert(self@.scripts =~= Map::<Seq<char>, Seq<char>>::empty());
        }
        self.reduction_config = config;
        assert(self@ =~= refreshed(before, config));
    }

    /// Remembers what a cell runs, so that a reducer can be told. Without one there is nobody to
    /// tell.
    pub fn record_cell_script(&mut self, cell_id: &str, source: &str)
        ensures
            final(self)@ == script_recorded(old(self)@, cell_id@, source@),
    {
        if self.reduction_config.has_output_reducer {
            let ghost before = self@;
            self.cell_scripts.insert(cell_id.to_string(), source.to_string());
            assert(self@.scripts =~= before.scripts.insert(cell_id@, source@));
            assert(self@ =~= script_recorded(before, cell_id@, source@));
        }
    }

    /// Remembers the narration before a direct call, where there was any.
    pub fn record_direct_parent_intent(&mut self, call_id: &str, parent_intent: Option<String>)
        ensures
            final(self)@ == (match parent_intent {
                Some(intent) => CodeModeView {
                    direct_intents: old(self)@.direct_intents.insert(call_id@, intent@),
                    ..old(self)@
                },
                None => old(self)@,
            }),
    {
        if let Some(intent) = parent_intent {
            let ghost before = self@;
            self.direct_parent_intents.insert(call_id.to_string(), intent);
            assert(self@.direct_intents =~= before.direct_intents.insert(call_id@, intent@));
        }
    }

    /// Forgets the narration before a direct call.
    pub fn discard_direct_parent_intent(&mut self, call_id: &str)
        ensures
            final(self)@ == (CodeModeView {
                direct_intents: old(self)@.direct_intents.remove(call_id@),
                ..old(self)@
            }),
    {
        let ghost before = self@;
        let removed = self.direct_parent_intents.remove(&call_id.to_string());
        assert(self@.direct_intents =~= before.direct_intents.remove(call_id@));
    }

    /// Hands the narration before a call on to the cell that it started.
    pub fn move_parent_intent_to_cell(&mut self, call_id: &str, cell_id: &str)
        ensures
            final(self)@ == intent_moved(old(self)@, call_id@, cell_id@),
    {
        let ghost before = self@;
        let moved = self.direct_parent_intents.remove(&call_id.to_string());
        assert(self@.direct_intents =~= before.direct_intents.remove(call_id@));
        if let Some(intent) = moved {
            self.cell_parent_intents.insert(cell_id.to_string(), intent);
            assert(self@.cell_intents =~= before.cell_intents.insert(cell_id@, intent@));
        }
        assert(self@ =~= intent_moved(before, call_id@, cell_id@));
    }

    /// The narration before a call. A direct call's is handed out once; a cell's stays.
    pub fn take_parent_intent(&mut self, call_id: &str, source: &ToolCallSource) -> (intent: Option<String>)
        ensures
            items::text_option(intent) == parent_intent(old(self)@, call_id@, *source),
            final(self)@ == intent_taken(old(self)@, call_id@, *source),
    {
        match source {
            ToolCallSource::CodeMode { cell_id, .. } => match self.cell_parent_intents.get(cell_id) {
                Some(intent) => Some(intent.clone()),
                None => None,
            },
            _ => {
                let ghost before = self@;
                let removed = self.direct_parent_intents.remove(&call_id.to_string());
                assert(self@.direct_intents =~= before.direct_intents.remove(call_id@));
                assert(self@ =~= intent_taken(before, call_id@, *source));
                removed
            },
        }
    }

    /// The warning that scripts cannot run, which is given once.
    pub fn take_unavailable_warning(&mut self, tool_mode: ToolMode) -> (warning: Option<String>)
        ensures
            match old(self)@.unavailable {
                Some(error) => {
                    &&& items::text_option(warning) == (if old(self)@.warned {
                        None
                    } else {
                        Some(unavailable_warning(error, tool_mode))
                    })
                    &&& final(self)@ == (CodeModeView { warned: true, ..old(self)@ })
                },
                None => warning is None && final(self)@ == old(self)@,
            },
    {
        let already: bool = self.unavailable_warning_emitted;
        let warning = match &self.unavailable {
            Some(error) => {
                let mut warning = "Code Mode is unavailable because ".to_string();
                warning.append(error.as_str());
                warning.append(". ");
                warning.append(
                    match tool_mode {
                        ToolMode::Direct => "Falling back to direct tools",
                        _ => "Code mode will fail closed",
                    },
                );
                warning.append("; enable `features.code_mode_host` and install `codex-code-mode-host`.");
                warning
            },
            None => {
                return None;
            },
        };
        self.unavailable_warning_emitted = true;
        if already {
            None
        } else {
            Some(warning)
        }
    }

    /// How long a script runs before it yields.
    pub fn resolve_yield_time(&self, requested: Option<u64>) -> (yield_time_ms: u64)
        ensures
            yield_time_ms as int == (match requested {
                Some(ms) => ms as int,
                None => self@.default_exec_yield_time_ms,
            }),
    {
        match requested {
            Some(ms) => ms,
            None => self.default_exec_yield_time_ms,
        }
    }

    /// Forgets all that is known of running cells.
    pub fn interrupt_active_cells(&mut self)
        ensures
            final(self)@ == interrupted(old(self)@),
    {
        let ghost before = self@;
        self.cell_scripts.clear();
        self.direct_parent_intents.clear();
        self.cell_parent_intents.clear();
        self.actionable_states.clear();
        assert(self@.scripts =~= Map::<Seq<char>, Seq<char>>::empty());
        assert(self@.direct_intents =~= Map::<Seq<char>, Seq<char>>::empty());
        assert(self@.cell_intents =~= Map::<Seq<char>, Seq<char>>::empty());
        assert(self@ =~= interrupted(before));
    }

    /// Starts to shut down: no session is handed out from then on.
    pub fn shutdown(&mut self)
        ensures
            final(self)@ == (CodeModeView { shutting_down: true, ..old(self)@ }),
    {
        self.shutting_down = true;
    }

    /// Whether a script session may be created or used. This is asked before one is created and
    /// again before a new one is used.
    pub fn session(&self) -> (r: Result<(), String>)
        ensures
            match r {
                Ok(_) => !self@.shutting_down,
                Err(error) => self@.shutting_down && error@ == "code mode session is shutting down"@,
            },
    {
        if self.shutting_down {
            Err("code mode session is shutting down".to_string())
        } else {
            Ok(())
        }
    }

    /// Reads a bounded piece of an exact output that was kept.
    pub fn read_token_miser_output(
        &self,
        thread_id: &str,
        object_id: &str,
        item_index: usize,
        offset: usize,
        max_bytes: usize,
    ) -> (r: Result<Json, String>)
        ensures
            token_miser::json_result(r) == token_miser::read_result(
                self@.kept.outputs,
                thread_id@,
                object_id@,
                item_index as int,
                offset as int,
                max_bytes as int,
            ),
    {
        self.token_miser.read(thread_id, object_id, item_index, offset, max_bytes)
    }

    /// Searches an exact output that was kept.
    pub fn search_token_miser_output(
        &self,
        thread_id: &str,
        object_id: &str,
        query: &str,
        max_results: usize,
    ) -> (r: Result<Json, String>)
        ensures
            token_miser::json_result(r) == token_miser::search_result(
                self@.kept.outputs,
                thread_id@,
                object_id@,
                query@,
                max_results as int,
            ),
    {
        self.token_miser.search(thread_id, object_id, query, max_results)
    }

    /// Notes that the cell of a nested call asked for exact output.
    pub fn mark_token_miser_retrieval(&mut self, source: &ToolCallSource)
        ensures
            final(self)@ == retrieval_marked(old(self)@, *source),
    {
        if let ToolCallSource::CodeMode { cell_id, .. } = source {
            let ghost before = self@;
            self.token_miser.mark_explicit_retrieval(cell_id.as_str());
            assert(self@ =~= retrieval_marked(before, *source));
        }
    }

    /// The exact outputs that are kept.
    pub fn token_miser(&mut self) -> (kept: &mut TokenMiserService)
        ensures
            kept@ == old(self)@.kept,
            final(self)@ == (CodeModeView { kept: final(kept)@, ..old(self)@ }),
    {
        &mut self.token_miser
    }
}

/// A service that knows that the cell of a nested call asked for exact output.
pub open spec fn retrieval_marked(before: CodeModeView, source: ToolCallSource) -> CodeModeView {
    match source {
        ToolCallSource::CodeMode { cell_id, .. } => CodeModeView {
            kept: ServiceView { retrievals: before.kept.retrievals.insert(cell_id@), ..before.kept },
            ..before
        },
        _ => before,
    }
}

/// How the items of a response are shown.
#[derive(Debug, Clone, Copy, PartialEq, Eq, Structural)]
pub enum OutputPlan {
    /// Through the reduction seam.
    Reduce,
    /// As is decided on the exact output, which is kept.
    Keep,
    /// Truncated, as they are.
    ShowExact,
    /// Not at all: the header alone is shown.
    ShowStatus,
}

/// How the items of a response are shown. Where exact outputs are kept, a running script's items
/// wait for its end, and a cell that asked for exact output shows it; any other output is kept,
/// whether or not a reducer is configured besides.
pub open spec fn response_plan(service: CodeModeView, response: RuntimeResponse) -> OutputPlan {
    if service.reduction_config.token_miser is None {
        OutputPlan::Reduce
    } else if !response::is_terminal(response) {
        OutputPlan::ShowStatus
    } else if service.kept.retrievals.contains(response::cell_of(response)) {
        OutputPlan::ShowExact
    } else {
        OutputPlan::Keep
    }
}

/// What is known of how a response came about. Without a reducer nobody is told.
pub open spec fn response_context(
    service: CodeModeView,
    thread_id: Seq<char>,
    turn_id: Seq<char>,
    call_id: Seq<char>,
    response: RuntimeResponse,
) -> ContextView {
    let cell_id = response::cell_of(response);
    let told = service.reduction_config.has_output_reducer;
    ContextView {
        thread_id,
        turn_id,
        call_id,
        cell_id,
        script: if told {
            lookup(service.scripts, cell_id)
        } else {
            None
        },
        parent_intent: if told {
            lookup(service.cell_intents, cell_id)
        } else {
            None
        },
        actionable_state: if told {
            actionable_state::state_of(actionable_state::cell_entries(service.handles, cell_id))
        } else {
            None
        },
        script_status: response::status_text(response),
    }
}

/// A service after a response: a running cell is remembered, and what can put out nothing more is
/// forgotten.
pub open spec fn after_response(before: CodeModeView, response: RuntimeResponse) -> CodeModeView {
    if response::is_terminal(response) {
        let cell_id = response::cell_of(response);
        CodeModeView {
            scripts: before.scripts.remove(cell_id),
            cell_intents: before.cell_intents.remove(cell_id),
            handles: before.handles.remove(cell_id),
            kept: if before.reduction_config.token_miser is Some {
                ServiceView { retrievals: before.kept.retrievals.remove(cell_id), ..before.kept }
            } else {
                before.kept
            },
            ..before
        }
    } else {
        before
    }
}

/// A response that is ready to be shown as planned.
#[derive(Debug)]
pub struct PendingResponse {
    pub context: ReductionContext,
    pub content_items: Vec<FunctionCallOutputContentItem>,
    pub success: bool,
    pub plan: OutputPlan,
}

impl CodeModeService {
    /// The script of a cell, which is forgotten where `take` is set.
    pub fn cell_script(&mut self, cell_id: &str, take: bool) -> (script: Option<String>)
        ensures
            items::text_option(script) == lookup(old(self)@.scripts, cell_id@),
            final(self)@ == (if take {
                CodeModeView { scripts: old(self)@.scripts.remove(cell_id@), ..old(self)@ }
            } else {
                old(self)@
            }),
    {
        let ghost before = self@;
        let key = cell_id.to_string();
        if take {
            let removed = self.cell_scripts.remove(&key);
            assert(self@.scripts =~= before.scripts.remove(cell_id@));
            removed
        } else {
            match self.cell_scripts.get(&key) {
                Some(script) => Some(script.clone()),
                None => None,
            }
        }
    }

    /// The narration before the call that started a cell, which is forgotten where `take` is set.
    pub fn cell_parent_intent(&mut self, cell_id: &str, take: bool) -> (intent: Option<String>)
        ensures
            items::text_option(intent) == lookup(old(self)@.cell_intents, cell_id@),
            final(self)@ == (if take {
                CodeModeView { cell_intents: old(self)@.cell_intents.remove(cell_id@), ..old(self)@ }
            } else {
                old(self)@
            }),
    {
        let ghost before = self@;
        let key = cell_id.to_string();
        if take {
            let removed = self.cell_parent_intents.remove(&key);
            assert(self@.cell_intents =~= before.cell_intents.remove(cell_id@));
            removed
        } else {
            match self.cell_parent_intents.get(&key) {
                Some(intent) => Some(intent.clone()),
                None => None,
            }
        }
    }

    /// The handles of a cell, which are forgotten where `take` is set.
    pub fn cell_actionable_state(&mut self, cell_id: &str, take: bool) -> (state: Option<ActionableState>)
        ensures
            actionable_state::state_option(state) == actionable_state::state_of(
                actionable_state::cell_entries(old(self)@.handles, cell_id@),
            ),
            final(self)@ == (if take {
                CodeModeView { handles: old(self)@.handles.remove(cell_id@), ..old(self)@ }
            } else {
                old(self)@
            }),
    {
        self.actionable_states.read(cell_id, take)
    }

    fn plan_response(&mut self, cell_id: &str, terminal: bool) -> (plan: OutputPlan)
        ensures
            plan == (if old(self)@.reduction_config.token_miser is None {
                OutputPlan::Reduce
            } else if !terminal {
                OutputPlan::ShowStatus
            } else if old(self)@.kept.retrievals.contains(cell_id@) {
                OutputPlan::ShowExact
            } else {
                OutputPlan::Keep
            }),
            final(self)@ == (if terminal && old(self)@.reduction_config.token_miser is Some {
                CodeModeView {
                    kept: ServiceView {
                        retrievals: old(self)@.kept.retrievals.remove(cell_id@),
                        ..old(self)@.kept
                    },
                    ..old(self)@
                }
            } else {
                old(self)@
            }),
    {
        if self.reduction_config.token_miser.is_none() {
            OutputPlan::Reduce
        } else if !terminal {
            OutputPlan::ShowStatus
        } else if self.token_miser.take_explicit_retrieval(cell_id) {
            OutputPlan::ShowExact
        } else {
            OutputPlan::Keep
        }
    }

    /// Takes up a response: plans how its items are shown, cleans them for the model, gathers what is
    /// known of it, and forgets a cell that is finished.
    pub fn take_response<S: Fn(Vec<FunctionCallOutputContentItem>, bool) -> Vec<FunctionCallOutputContentItem>>(
        &mut self,
        sanitize: &S,
        original_detail: bool,
        thread_id: &str,
        turn_id: &str,
        call_id: &str,
        response: RuntimeResponse,
    ) -> (pending: PendingResponse)
        requires
            forall|o: Vec<FunctionCallOutputContentItem>, detail: bool| #[trigger]
                call_requires(*sanitize, (o, detail)),
        ensures
            pending.context@ == response_context(old(self)@, thread_id@, turn_id@, call_id@, response),
            response::are_response_items(
                *sanitize,
                original_detail,
                response,
                items::item_views(pending.content_items@),
            ),
            pending.success == response::is_success(response),
            pending.plan == response_plan(old(self)@, response),
            final(self)@ == after_response(old(self)@, response),
    {
        let ghost before = self@;
        let script_status = response::format_script_status(&response);
        let terminal = match &response {
            RuntimeResponse::Yielded { .. } => false,
            _ => true,
        };
        let cell_id = response::response_cell_id(&response).to_string();
        let told = self.reduction_config.has_output_reducer;
        let parent_intent = self.cell_parent_intent(cell_id.as_str(), terminal);
        let script = self.cell_script(cell_id.as_str(), terminal);
        let actionable_state = self.cell_actionable_state(cell_id.as_str(), terminal);
        let plan = self.plan_response(cell_id.as_str(), terminal);
        assert(self@ =~= after_response(before, response));
        let parts = response::into_items(sanitize, original_detail, response);
        let context = ReductionContext {
            thread_id: thread_id.to_string(),
            turn_id: turn_id.to_string(),
            call_id: call_id.to_string(),
            cell_id,
            script: if told {
                script
            } else {
                None
            },
            parent_intent: if told {
                parent_intent
            } else {
                None
            },
            actionable_state: if told {
                actionable_state
            } else {
                None
            },
            script_status,
        };
        PendingResponse { context, content_items: parts.0, success: parts.1, plan }
    }
}

/// The host's settings for what the model reads.
#[derive(Debug, Clone, Copy, PartialEq, Eq)]
pub struct ModelBudget<'a> {
    /// The guidance that follows a replacement.
    pub continuation_guidance: Option<&'a str>,
    pub max_guidance_characters: usize,
    /// What the model asked for.
    pub max_output_tokens: Option<usize>,
    pub max_output_tokens_ceiling: Option<usize>,
}

/// Whether this is shown of a response's items as planned: what the reduction seam makes of them
/// and of the reducer's reply, what was decided on the kept output, their truncation, or nothing.
pub open spec fn shown_as_planned<T: Fn(Vec<FunctionCallOutputContentItem>, TruncationStyle, usize) -> Vec<
    FunctionCallOutputContentItem,
>>(
    truncation: T,
    pending: PendingResponse,
    reply: ReducerReply,
    kept: Vec<FunctionCallOutputContentItem>,
    budget: ModelBudget<'_>,
    shown: Seq<ItemView>,
) -> bool {
    match pending.plan {
        OutputPlan::Reduce => {
            let state = pending.context@.actionable_state;
            let output = reducer::shown_output(reply, state, pending.content_items);
            exists|truncated: Vec<FunctionCallOutputContentItem>|
                {
                    &&& #[trigger] call_ensures(
                        truncation,
                        (
                            output,
                            reducer::style_of(items::item_views(output@)),
                            reducer::clamped_tokens(budget.max_output_tokens, budget.max_output_tokens_ceiling),
                        ),
                        truncated,
                    )
                    &&& shown == reducer::assembled(
                        reducer::is_selected(reply, state),
                        items::str_option(budget.continuation_guidance),
                        budget.max_guidance_characters as int,
                        state,
                        items::item_views(truncated@),
                    )
                }
        },
        OutputPlan::Keep => shown == items::item_views(kept@),
        OutputPlan::ShowExact => exists|truncated: Vec<FunctionCallOutputContentItem>|
            {
                &&& #[trigger] call_ensures(
                    truncation,
                    (
                        pending.content_items,
                        reducer::style_of(items::item_views(pending.content_items@)),
                        reducer::resolved_tokens(budget.max_output_tokens),
                    ),
                    truncated,
                )
                &&& shown == items::item_views(truncated@)
            },
        OutputPlan::ShowStatus => shown == Seq::<ItemView>::empty(),
    }
}

/// Shows a response as planned, after its header. `reply` is what came of asking the reducer, and
/// `kept` what is shown of a kept output; each matters only where the plan asks for it.
pub fn handle_runtime_response<T: Fn(Vec<FunctionCallOutputContentItem>, TruncationStyle, usize) -> Vec<
    FunctionCallOutputContentItem,
>>(
    truncation: &T,
    pending: PendingResponse,
    reply: ReducerReply,
    kept: Vec<FunctionCallOutputContentItem>,
    budget: ModelBudget<'_>,
    tenths: u64,
) -> (output: FunctionToolOutput)
    requires
        forall|o: Vec<FunctionCallOutputContentItem>, s: TruncationStyle, n: usize| #[trigger]
            call_requires(*truncation, (o, s, n)),
    ensures
        output.success == Some(pending.success),
        output.content@.len() > 0,
        items::item_views(output.content@)[0] == items::text_item(
            response::header_text(pending.context@.script_status, tenths as nat),
        ),
        shown_as_planned(
            *truncation,
            pending,
            reply,
            kept,
            budget,
            items::item_views(output.content@).skip(1),
        ),
{
    let shown = match pending.plan {
        OutputPlan::Reduce => response::reduce_code_mode_result(
            truncation,
            reply,
            budget.continuation_guidance,
            budget.max_guidance_characters,
            &pending.context,
            pending.content_items,
            budget.max_output_tokens,
            budget.max_output_tokens_ceiling,
        ),
        OutputPlan::Keep => kept,
        OutputPlan::ShowExact => reducer::truncate_code_mode_result(
            truncation,
            pending.content_items,
            budget.max_output_tokens,
        ),
        OutputPlan::ShowStatus => Vec::new(),
    };
    let ghost views = items::item_views(shown@);
    assert(pending.plan == OutputPlan::ShowStatus ==> views =~= Seq::<ItemView>::empty());
    assert(shown_as_planned(*truncation, pending, reply, kept, budget, views));
    let output = response::finish_response(
        pending.context.script_status.as_str(),
        tenths,
        shown,
        pending.success,
    );
    let ghost content = items::item_views(output.content@);
    assert(content.len() == output.content@.len());
    assert(content.skip(1) =~= views);
    output
}

/// The handles of running cells survive any change of the settings: disabling the reducer and
/// enabling it again loses none of them.
pub proof fn law_handles_survive_reconfiguration(
    service: CodeModeView,
    first: CodeModeReductionRuntimeConfig,
    second: CodeModeReductionRuntimeConfig,
    cell_id: Seq<char>,
)
    ensures
        ({
            let after = refreshed(refreshed(service, first), second);
            &&& after.handles == service.handles
            &&& actionable_state::state_of(actionable_state::cell_entries(after.handles, cell_id))
                == actionable_state::state_of(actionable_state::cell_entries(service.handles, cell_id))
            &&& after.reduction_config == second
        }),
{
}

/// Without a reducer no script is remembered.
pub open spec fn scripts_need_a_reducer(service: CodeModeView) -> bool {
    !service.reduction_config.has_output_reducer ==> service.scripts == Map::<Seq<char>, Seq<char>>::empty()
}

/// No change of a service makes it remember a script that no reducer could be told.
pub proof fn law_scripts_are_only_remembered_for_a_reducer(
    service: CodeModeView,
    config: CodeModeReductionRuntimeConfig,
    cell_id: Seq<char>,
    source: Seq<char>,
    response: RuntimeResponse,
)
    requires
        scripts_need_a_reducer(service),
    ensures
        scripts_need_a_reducer(refreshed(service, config)),
        scripts_need_a_reducer(script_recorded(service, cell_id, source)),
        scripts_need_a_reducer(after_response(service, response)),
        scripts_need_a_reducer(interrupted(service)),
{
    if !service.reduction_config.has_output_reducer {
        assert(after_response(service, response).scripts =~= Map::<Seq<char>, Seq<char>>::empty());
    }
}

/// The narration before a call follows it into the cell that it starts: the cell's nested calls
/// see it as often as they ask, and the direct call no longer has it.
pub proof fn law_narration_follows_the_call_into_its_cell(
    service: CodeModeView,
    call_id: Seq<char>,
    intent: Seq<char>,
    cell_id: Seq<char>,
    nested_call_id: Seq<char>,
    source: ToolCallSource,
)
    requires
        source matches ToolCallSource::CodeMode { cell_id: cell, .. } && cell@ == cell_id,
    ensures
        ({
            let recorded = CodeModeView { direct_intents: service.direct_intents.insert(call_id, intent), ..service };
            let moved = intent_moved(recorded, call_id, cell_id);
            &&& parent_intent(moved, nested_call_id, source) == Some(intent)
            &&& intent_taken(moved, nested_call_id, source) == moved
            &&& parent_intent(moved, call_id, ToolCallSource::Direct) is None
        }),
{
}

/// A direct call's narration is handed out once.
pub proof fn law_direct_narration_is_taken_once(service: CodeModeView, call_id: Seq<char>)
    ensures
        parent_intent(
            intent_taken(service, call_id, ToolCallSource::Direct),
            call_id,
            ToolCallSource::Direct,
        ) is None,
{
}

/// A running cell is remembered through its responses: the next one is described by the same
/// script, narration and handles. After its last response nothing of it is left.
pub proof fn law_a_cell_is_remembered_until_it_ends(
    service: CodeModeView,
    thread_id: Seq<char>,
    turn_id: Seq<char>,
    call_id: Seq<char>,
    response: RuntimeResponse,
    next: RuntimeResponse,
)
    requires
        response::cell_of(next) == response::cell_of(response),
    ensures
        ({
            let after = after_response(service, response);
            let context = response_context(after, thread_id, turn_id, call_id, next);
            if response::is_terminal(response) {
                context.script is None && context.parent_intent is None && context.actionable_state is None
            } else {
                after == service && context == response_context(service, thread_id, turn_id, call_id, next)
            }
        }),
{
}

/// A response is described by what was recorded of its cell, and only where a reducer could be told:
/// the script that the cell runs, the narration before the call that started it and the handles of its
/// processes. It is named by its own thread, turn, call and cell.
pub proof fn law_a_response_is_described_by_its_cell(
    service: CodeModeView,
    thread_id: Seq<char>,
    turn_id: Seq<char>,
    call_id: Seq<char>,
    response: RuntimeResponse,
    source: Seq<char>,
    starting_call: Seq<char>,
    intent: Seq<char>,
)
    ensures
        ({
            let cell_id = response::cell_of(response);
            let scripted = script_recorded(service, cell_id, source);
            let narrated = CodeModeView {
                direct_intents: scripted.direct_intents.insert(starting_call, intent),
                ..scripted
            };
            let known = intent_moved(narrated, starting_call, cell_id);
            let context = response_context(known, thread_id, turn_id, call_id, response);
            &&& context.thread_id == thread_id
            &&& context.turn_id == turn_id
            &&& context.call_id == call_id
            &&& context.cell_id == cell_id
            &&& context.script_status == response::status_text(response)
            &&& service.reduction_config.has_output_reducer ==> context.script == Some(source)
                && context.parent_intent == Some(intent) && context.actionable_state == actionable_state::state_of(
                actionable_state::cell_entries(service.handles, cell_id),
            )
            &&& !service.reduction_config.has_output_reducer ==> context.script is None && context.parent_intent is None
                && context.actionable_state is None
        }),
{
}

/// What is recorded of one cell is not told of another.
pub proof fn law_cells_are_told_apart(
    service: CodeModeView,
    thread_id: Seq<char>,
    turn_id: Seq<char>,
    call_id: Seq<char>,
    response: RuntimeResponse,
    cell_id: Seq<char>,
    script: Seq<char>,
    starting_call: Seq<char>,
    source: ToolCallSource,
    tool_name: ToolName,
    input: Option<JsonView>,
    result: JsonView,
)
    requires
        cell_id != response::cell_of(response),
        source matches ToolCallSource::CodeMode { cell_id: cell, .. } ==> cell@ == cell_id,
    ensures
        ({
            let told = |s: CodeModeView| response_context(s, thread_id, turn_id, call_id, response);
            &&& told(script_recorded(service, cell_id, script)) == told(service)
            &&& told(intent_moved(service, starting_call, cell_id)) == told(service)
            &&& told(observed(service, source, tool_name, input, result)) == told(service)
        }),
{
}

/// The end of a cell touches nothing else: what is known of another cell, the narration before direct
/// calls, the kept outputs, the settings and the activation all stay.
pub proof fn law_the_end_of_a_cell_touches_nothing_else(
    service: CodeModeView,
    response: RuntimeResponse,
    other: Seq<char>,
)
    requires
        other != response::cell_of(response),
    ensures
        ({
            let after = after_response(service, response);
            &&& lookup(after.scripts, other) == lookup(service.scripts, other)
            &&& lookup(after.cell_intents, other) == lookup(service.cell_intents, other)
            &&& actionable_state::cell_entries(after.handles, other) == actionable_state::cell_entries(
                service.handles,
                other,
            )
            &&& after.kept.retrievals.contains(other) == service.kept.retrievals.contains(other)
            &&& after.direct_intents == service.direct_intents
            &&& after.kept.outputs == service.kept.outputs
            &&& after.kept.cells == service.kept.cells
            &&& after.reduction_config == service.reduction_config
            &&& after.activation_nonce == service.activation_nonce
            &&& after.unavailable == service.unavailable
            &&& after.shutting_down == service.shutting_down
        }),
{
}

/// How a response is shown: through the reduction seam where no exact outputs are kept. Where they are,
/// a running script shows its status alone, a finished one that asked for exact output shows it, once,
/// and any other finished one is kept.
pub proof fn law_a_response_is_shown_as_its_cell_asked(service: CodeModeView, response: RuntimeResponse)
    ensures
        ({
            let plan = response_plan(service, response);
            let keeps = service.reduction_config.token_miser is Some;
            let asked = service.kept.retrievals.contains(response::cell_of(response));
            &&& !keeps ==> plan == OutputPlan::Reduce
            &&& keeps && response is Yielded ==> plan == OutputPlan::ShowStatus
            &&& keeps && !(response is Yielded) && asked ==> plan == OutputPlan::ShowExact && response_plan(
                after_response(service, response),
                response,
            ) == OutputPlan::Keep
            &&& keeps && !(response is Yielded) && !asked ==> plan == OutputPlan::Keep
        }),
{
}

/// An interruption forgets every running cell and every waiting narration, and nothing else.
pub proof fn law_an_interruption_forgets_running_cells(service: CodeModeView, key: Seq<char>)
    ensures
        ({
            let after = interrupted(service);
            &&& lookup(after.scripts, key) is None
            &&& lookup(after.direct_intents, key) is None
            &&& lookup(after.cell_intents, key) is None
            &&& actionable_state::cell_entries(after.handles, key).len() == 0
            &&& after.kept == service.kept
            &&& after.reduction_config == service.reduction_config
            &&& after.activation_nonce == service.activation_nonce
            &&& after.unavailable == service.unavailable
            &&& after.default_exec_yield_time_ms == service.default_exec_yield_time_ms
            &&& after.warned == service.warned
            &&& after.shutting_down == service.shutting_down
        }),
{
}

/// Other settings change what is known of running cells only in one way: without a reducer the scripts
/// are forgotten. With one they stay, as do the narration, the handles and the kept outputs either way.
pub proof fn law_other_settings_keep_what_is_known(
    service: CodeModeView,
    config: CodeModeReductionRuntimeConfig,
    key: Seq<char>,
)
    ensures
        ({
            let after = refreshed(service, config);
            &&& config.has_output_reducer ==> lookup(after.scripts, key) == lookup(service.scripts, key)
            &&& !config.has_output_reducer ==> lookup(after.scripts, key) is None
            &&& after.reduction_config == config
            &&& after.direct_intents == service.direct_intents
            &&& after.cell_intents == service.cell_intents
            &&& after.handles == service.handles
            &&& after.kept == service.kept
            &&& after.activation_nonce == service.activation_nonce
            &&& after.unavailable == service.unavailable
            &&& after.shutting_down == service.shutting_down
        }),
{
}

/// The warning names what keeps scripts from running and what happens instead: only a model that calls
/// tools directly falls back to them.
pub proof fn law_the_warning_names_the_error(error: Seq<char>, tool_mode: ToolMode)
    ensures
        ({
            let warning = unavailable_warning(error, tool_mode);
            let n = error.len() as int;
            let instead = if tool_mode == ToolMode::Direct {
                "Falling back to direct tools"@
            } else {
                "Code mode will fail closed"@
            };
            let m = instead.len() as int;
            &&& warning.len() >= 33 + n + 2 + m
            &&& warning.take(33) == "Code Mode is unavailable because "@
            &&& warning.subrange(33, 33 + n) == error
            &&& warning.subrange(35 + n, 35 + n + m) == instead
        }),
{
    reveal_strlit("Code Mode is unavailable because ");
    reveal_strlit(". ");
    let warning = unavailable_warning(error, tool_mode);
    let n = error.len() as int;
    let instead = if tool_mode == ToolMode::Direct {
        "Falling back to direct tools"@
    } else {
        "Code mode will fail closed"@
    };
    let m = instead.len() as int;
    assert(warning.take(33) =~= "Code Mode is unavailable because "@);
    assert(warning.subrange(33, 33 + n) =~= error);
    assert(warning.subrange(35 + n, 35 + n + m) =~= instead);
}

/// What a nested call leaves behind depends on its input only by the session that it names: a function
/// tool's arguments name the one under that key, and nothing else does.
pub proof fn law_a_call_names_its_session(payload: PayloadView, n: int)
    ensures
        ({
            let input = handle_input(session_argument(payload), payload);
            let names = payload matches PayloadView::Function { arguments } && json::integer_argument(
                arguments,
                "session_id"@,
            ) == Some(n);
            (input is Some && json::json_get(input->0, "session_id"@) == Some(JsonView::Int(n))) <==> names
        }),
{
    if let PayloadView::Function { arguments } = payload {
        if let Some(k) = json::integer_argument(arguments, "session_id"@) {
            let members = seq![json::field("session_id"@, JsonView::Int(k))];
            json::lemma_member_found(members, 0);
        }
    }
}

/// What a nested call leaves behind is recorded for the cell that made it, and a direct call leaves
/// nothing behind.
pub proof fn law_a_nested_call_is_observed_for_its_cell(
    service: CodeModeView,
    source: ToolCallSource,
    tool_name: ToolName,
    input: Option<JsonView>,
    result: JsonView,
)
    requires
        source matches ToolCallSource::CodeMode { cell_id, .. } ==> actionable_state::ascending(
            actionable_state::cell_entries(service.handles, cell_id@),
        ),
    ensures
        ({
            let after = observed(service, source, tool_name, input, result);
            let entry = actionable_state::nested_entry(
                tool_name.name@,
                tool_name.default_namespace,
                input,
                result,
            );
            &&& !(source is CodeMode) ==> after == service
            &&& source matches ToolCallSource::CodeMode { cell_id, .. } ==> {
                &&& entry matches Some(e) ==> actionable_state::cell_entries(after.handles, cell_id@).contains(e)
                &&& entry is None ==> after.handles == service.handles
            }
            &&& after.scripts == service.scripts
            &&& after.direct_intents == service.direct_intents
            &&& after.cell_intents == service.cell_intents
            &&& after.kept == service.kept
        }),
{
    if let ToolCallSource::CodeMode { cell_id, .. } = source {
        if let Some(e) = actionable_state::nested_entry(
            tool_name.name@,
            tool_name.default_namespace,
            input,
            result,
        ) {
            let other = cell_id@.push('x');
            assert(other.len() != cell_id@.len());
            actionable_state::law_latest_observation_wins(service.handles, cell_id@, other, e);
        }
    }
}

/// Handing out the narration of one call leaves that of every other call and cell where it is.
pub proof fn law_narration_of_other_calls_stays(
    service: CodeModeView,
    call_id: Seq<char>,
    other: Seq<char>,
    cell_id: Seq<char>,
    source: ToolCallSource,
)
    requires
        other != call_id,
    ensures
        lookup(intent_taken(service, call_id, source).direct_intents, other) == lookup(service.direct_intents, other),
        intent_taken(service, call_id, source).cell_intents == service.cell_intents,
        lookup(intent_moved(service, call_id, cell_id).direct_intents, other) == lookup(service.direct_intents, other),
        lookup(intent_moved(service, call_id, cell_id).cell_intents, other) == (if other == cell_id && lookup(
            service.direct_intents,
            call_id,
        ) is Some {
            lookup(service.direct_intents, call_id)
        } else {
            lookup(service.cell_intents, other)
        }),
{
}

/// What is shown of a response is what its plan says: a kept output as was decided on it, a running
/// script's items not at all, and the items of a script that asked for exact output in a truncation of
/// the items themselves, whatever a reducer replied.
pub proof fn law_a_plan_is_followed<T: Fn(Vec<FunctionCallOutputContentItem>, TruncationStyle, usize) -> Vec<
    FunctionCallOutputContentItem,
>>(
    truncation: T,
    pending: PendingResponse,
    reply: ReducerReply,
    kept: Vec<FunctionCallOutputContentItem>,
    budget: ModelBudget<'_>,
    shown: Seq<ItemView>,
)
    requires
        shown_as_planned(truncation, pending, reply, kept, budget, shown),
    ensures
        pending.plan == OutputPlan::ShowStatus ==> shown.len() == 0,
        pending.plan == OutputPlan::Keep ==> shown == items::item_views(kept@),
        pending.plan == OutputPlan::ShowExact ==> exists|style: TruncationStyle, tokens: usize, truncated: Vec<
            FunctionCallOutputContentItem,
        >| #[trigger]
            call_ensures(truncation, (pending.content_items, style, tokens), truncated) && shown == items::item_views(
                truncated@,
            ) && (budget.max_output_tokens matches Some(n) ==> tokens == n) && (budget.max_output_tokens is None
                ==> tokens == 10_000),
        pending.plan == OutputPlan::Reduce && !(reply is Replacement) ==> exists|style: TruncationStyle, tokens: usize,
            truncated: Vec<FunctionCallOutputContentItem>,
        | #[trigger]
            call_ensures(truncation, (pending.content_items, style, tokens), truncated) && tokens <= 10_000
                && truncated@.len() <= shown.len() && shown.take(truncated@.len() as int) == items::item_views(
                truncated@,
            ),
{
    if pending.plan == OutputPlan::ShowExact {
        let style = reducer::style_of(items::item_views(pending.content_items@));
        let tokens = reducer::resolved_tokens(budget.max_output_tokens);
        let truncated = choose|truncated: Vec<FunctionCallOutputContentItem>|
            {
                &&& #[trigger] call_ensures(truncation, (pending.content_items, style, tokens), truncated)
                &&& shown == items::item_views(truncated@)
            };
        assert(call_ensures(truncation, (pending.content_items, style, tokens), truncated));
    }
    if pending.plan == OutputPlan::Reduce && !(reply is Replacement) {
        let state = pending.context@.actionable_state;
        let style = reducer::style_of(items::item_views(pending.content_items@));
        let tokens = reducer::clamped_tokens(budget.max_output_tokens, budget.max_output_tokens_ceiling);
        let guidance = items::str_option(budget.continuation_guidance);
        let most = budget.max_guidance_characters as int;
        let truncated = choose|truncated: Vec<FunctionCallOutputContentItem>|
            {
                &&& #[trigger] call_ensures(truncation, (pending.content_items, style, tokens), truncated)
                &&& shown == reducer::assembled(false, guidance, most, state, items::item_views(truncated@))
            };
        assert(call_ensures(truncation, (pending.content_items, style, tokens), truncated));
        reducer::law_nothing_else_is_shown(false, guidance, most, state, items::item_views(truncated@));
    }
}

} // verus!
