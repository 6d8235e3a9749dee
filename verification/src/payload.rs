//! Nested tool calls: which are refused, and what is handed to the tool.
use vstd::prelude::*;

use crate::identity;
use crate::json;
use crate::json::{Json, JsonView};
use crate::text;

verus! {

/// The tool that runs a script.
pub const PUBLIC_TOOL_NAME: &'static str = "exec";

/// The tool that resumes a script.
pub const WAIT_TOOL_NAME: &'static str = "wait";

/// A tool's name: its bare name, whether it lies in the default namespace, and how it is shown.
#[derive(Debug)]
pub struct ToolName {
    pub name: String,
    pub default_namespace: bool,
    pub display: String,
}

impl ToolName {
    /// A tool of the default namespace.
    pub fn plain(name: &str) -> (tool: Self)
        ensures
            tool.name@ == name@,
            tool.default_namespace,
            tool.display@ == name@,
    {
        ToolName { name: name.to_string(), default_namespace: true, display: name.to_string() }
    }

    /// Whether the tool lies in the default namespace.
    pub fn is_default_namespace(&self) -> (yes: bool)
        ensures
            yes == self.default_namespace,
    {
        self.default_namespace
    }
}

/// Where a tool call comes from.
#[derive(Debug)]
pub enum ToolCallSource {
    Direct,
    DirectPlaintextMessage,
    CodeMode { cell_id: String, runtime_tool_call_id: String },
}

/// What a tool is called with.
#[derive(Debug)]
pub enum ToolPayload {
    Function { arguments: String },
    Custom { input: String },
    ToolSearch,
}

/// The value of a payload.
pub enum PayloadView {
    Function { arguments: Seq<char> },
    Custom { input: Seq<char> },
    ToolSearch,
}

impl View for ToolPayload {
    type V = PayloadView;

    open spec fn view(&self) -> PayloadView {
        match self {
            ToolPayload::Function { arguments } => PayloadView::Function { arguments: arguments@ },
            ToolPayload::Custom { input } => PayloadView::Custom { input: input@ },
            ToolPayload::ToolSearch => PayloadView::ToolSearch,
        }
    }
}

/// How a nested tool takes its input.
#[derive(Debug, Clone, Copy, PartialEq, Eq, Structural)]
pub enum CodeModeToolKind {
    Function,
    Freeform,
}

/// A tool call that a running script makes.
#[derive(Debug)]
pub struct CodeModeNestedToolCall {
    pub cell_id: String,
    pub runtime_tool_call_id: String,
    pub tool_name: ToolName,
    pub tool_kind: CodeModeToolKind,
    pub input: Option<Json>,
}

/// A nested call that is ready to be dispatched.
#[derive(Debug)]
pub struct NestedToolSubmission {
    /// The tool as the script named it. The host dispatches it with the default namespace filled in
    /// where the script named none.
    pub tool_name: ToolName,
    pub call_id: String,
    pub payload: ToolPayload,
    pub source: ToolCallSource,
}

/// Whether a name is that of the script tool in the default namespace.
pub open spec fn names_exec(tool: ToolName) -> bool {
    tool.default_namespace && tool.name@ == PUBLIC_TOOL_NAME@
}

/// What a function tool is called with: no input stands for the empty object.
pub open spec fn function_arguments(tool: Seq<char>, input: Option<JsonView>) -> Result<Seq<char>, Seq<char>> {
    match input {
        None => Ok("{}"@),
        Some(JsonView::Object(members)) => Ok(json::json_text(JsonView::Object(members))),
        Some(_) => Err("tool `"@ + tool + "` expects a JSON object for arguments"@),
    }
}

/// The payload of a nested call, or the reason why there is none.
pub open spec fn nested_payload(
    kind: CodeModeToolKind,
    tool: Seq<char>,
    input: Option<JsonView>,
) -> Result<PayloadView, Seq<char>> {
    match kind {
        CodeModeToolKind::Function => match function_arguments(tool, input) {
            Ok(arguments) => Ok(PayloadView::Function { arguments }),
            Err(error) => Err(error),
        },
        CodeModeToolKind::Freeform => match input {
            Some(JsonView::Text(input)) => Ok(PayloadView::Custom { input }),
            _ => Err("tool `"@ + tool + "` expects a string input"@),
        },
    }
}

/// The value of a payload or of the reason why there is none.
pub open spec fn payload_result(r: Result<ToolPayload, String>) -> Result<PayloadView, Seq<char>> {
    match r {
        Ok(payload) => Ok(payload@),
        Err(error) => Err(error@),
    }
}

/// The value of a text or of the reason why there is none.
pub open spec fn text_result(r: Result<String, String>) -> Result<Seq<char>, Seq<char>> {
    match r {
        Ok(t) => Ok(t@),
        Err(error) => Err(error@),
    }
}

/// Whether a name is that of the script tool in the default namespace.
pub fn is_exec_tool_name(tool_name: &ToolName) -> (yes: bool)
    ensures
        yes == names_exec(*tool_name),
{
    tool_name.is_default_namespace() && text::same_text(tool_name.name.as_str(), PUBLIC_TOOL_NAME)
}

fn tool_error(tool_name: &ToolName, problem: &str) -> (error: String)
    ensures
        error@ == "tool `"@ + tool_name.display@ + problem@,
{
    let mut error = String::new();
    error.append("tool `");
    error.append(tool_name.display.as_str());
    error.append(problem);
    assert(error@ =~= "tool `"@ + tool_name.display@ + problem@);
    error
}

/// The arguments text of a function tool.
pub fn serialize_function_tool_arguments(tool_name: &ToolName, input: Option<Json>) -> (r: Result<String, String>)
    ensures
        text_result(r) == function_arguments(tool_name.display@, json::json_option(input)),
{
    match input {
        None => Ok("{}".to_string()),
        Some(Json::Object(members)) => Ok(Json::Object(members).to_text()),
        Some(_) => Err(tool_error(tool_name, "` expects a JSON object for arguments")),
    }
}

/// The payload of a function tool.
pub fn build_function_tool_payload(tool_name: &ToolName, input: Option<Json>) -> (r: Result<ToolPayload, String>)
    ensures
        payload_result(r) == nested_payload(CodeModeToolKind::Function, tool_name.display@, json::json_option(input)),
{
    match serialize_function_tool_arguments(tool_name, input) {
        Ok(arguments) => Ok(ToolPayload::Function { arguments }),
        Err(error) => Err(error),
    }
}

/// The payload of a freeform tool.
pub fn build_freeform_tool_payload(tool_name: &ToolName, input: Option<Json>) -> (r: Result<ToolPayload, String>)
    ensures
        payload_result(r) == nested_payload(CodeModeToolKind::Freeform, tool_name.display@, json::json_option(input)),
{
    match input {
        Some(Json::Text(input)) => Ok(ToolPayload::Custom { input }),
        _ => Err(tool_error(tool_name, "` expects a string input")),
    }
}

/// The payload of a nested call.
pub fn build_nested_tool_payload(
    tool_kind: CodeModeToolKind,
    tool_name: &ToolName,
    input: Option<Json>,
) -> (r: Result<ToolPayload, String>)
    ensures
        payload_result(r) == nested_payload(tool_kind, tool_name.display@, json::json_option(input)),
{
    match tool_kind {
        CodeModeToolKind::Function => build_function_tool_payload(tool_name, input),
        CodeModeToolKind::Freeform => build_freeform_tool_payload(tool_name, input),
    }
}

/// The reason why a nested call is refused, if it is.
pub open spec fn nested_refusal(invocation: CodeModeNestedToolCall) -> Option<Seq<char>> {
    if names_exec(invocation.tool_name) {
        Some("exec cannot invoke itself"@)
    } else {
        match nested_payload(
            invocation.tool_kind,
            invocation.tool_name.display@,
            json::json_option(invocation.input),
        ) {
            Ok(_) => None,
            Err(error) => Some(error),
        }
    }
}

/// Prepares a nested call: a script may call any tool but the script tool itself, with input of
/// the tool's kind, under a fresh call identity.
pub fn submit_nested_tool(invocation: CodeModeNestedToolCall) -> (r: Result<NestedToolSubmission, String>)
    ensures
        match r {
            Ok(submission) => {
                &&& nested_refusal(invocation) is None
                &&& submission.tool_name == invocation.tool_name
                &&& Ok::<PayloadView, Seq<char>>(submission.payload@) == nested_payload(
                    invocation.tool_kind,
                    invocation.tool_name.display@,
                    json::json_option(invocation.input),
                )
                &&& exists|id: Seq<char>|
                    #![trigger identity::is_v4(id)]
                    identity::is_v4(id) && submission.call_id@ == "exec-"@ + id
                &&& submission.source == (ToolCallSource::CodeMode {
                    cell_id: invocation.cell_id,
                    runtime_tool_call_id: invocation.runtime_tool_call_id,
                })
            },
            Err(error) => nested_refusal(invocation) == Some(error@),
        },
{
    if is_exec_tool_name(&invocation.tool_name) {
        return Err("exec cannot invoke itself".to_string());
    }
    let payload = match build_nested_tool_payload(invocation.tool_kind, &invocation.tool_name, invocation.input) {
        Ok(payload) => payload,
        Err(error) => {
            return Err(error);
        },
    };
    let id = identity::new_identifier();
    proof {
        identity::lemma_fresh_is_v4(id@);
    }
    let mut call_id = "exec-".to_string();
    call_id.append(id.as_str());
    Ok(
        NestedToolSubmission {
            tool_name: invocation.tool_name,
            call_id,
            payload,
            source: ToolCallSource::CodeMode {
                cell_id: invocation.cell_id,
                runtime_tool_call_id: invocation.runtime_tool_call_id,
            },
        },
    )
}

/// Every tool but the script tool gets input of its kind: a function tool an object, which no input
/// stands for where it is empty, and a freeform tool a text as it is. Anything else is refused, with
/// the tool's name.
pub proof fn law_a_tool_gets_input_of_its_kind(tool: Seq<char>, input: Option<JsonView>)
    ensures
        ({
            let r = nested_payload(CodeModeToolKind::Function, tool, input);
            &&& input is None ==> r == Ok::<PayloadView, Seq<char>>(PayloadView::Function { arguments: "{}"@ })
            &&& input is Some && input->0 is Object ==> r == Ok::<PayloadView, Seq<char>>(
                PayloadView::Function { arguments: json::json_text(input->0) },
            )
            &&& input is Some && !(input->0 is Object) ==> r == Err::<PayloadView, Seq<char>>(
                "tool `"@ + tool + "` expects a JSON object for arguments"@,
            )
        }),
        ({
            let r = nested_payload(CodeModeToolKind::Freeform, tool, input);
            &&& forall|t: Seq<char>|
                input == Some(JsonView::Text(t)) ==> r == Ok::<PayloadView, Seq<char>>(
                    #[trigger] custom_payload(t),
                )
            &&& input is None || !(input->0 is Text) ==> r == Err::<PayloadView, Seq<char>>(
                "tool `"@ + tool + "` expects a string input"@,
            )
        }),
{
}

/// The payload of a freeform tool.
pub open spec fn custom_payload(input: Seq<char>) -> PayloadView {
    PayloadView::Custom { input }
}

/// A script never calls the script tool: it is refused whatever its input. No other call is refused
/// for its tool, not even one of that name in another namespace.
pub proof fn law_a_script_never_calls_itself(invocation: CodeModeNestedToolCall)
    ensures
        ({
            let itself = invocation.tool_name.default_namespace && invocation.tool_name.name@ == "exec"@;
            let payload = nested_payload(
                invocation.tool_kind,
                invocation.tool_name.display@,
                json::json_option(invocation.input),
            );
            &&& itself ==> nested_refusal(invocation) == Some("exec cannot invoke itself"@)
            &&& !itself ==> (nested_refusal(invocation) is None <==> payload is Ok)
            &&& !itself && payload is Err ==> nested_refusal(invocation) == Some(payload->Err_0)
        }),
{
}

} // verus!
