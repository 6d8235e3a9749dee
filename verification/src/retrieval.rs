//! The tools that read and search exact outputs.
use vstd::prelude::*;
use vstd::utf8::*;

use crate::context;
use crate::context::{ContextualUserFragment, TokenMiserRetrievalResult};
use crate::json;
use crate::json::{Json, JsonView};
use crate::payload::{PayloadView, ToolCallSource, ToolPayload};
use crate::response;
use crate::response::RuntimeResponse;
use crate::service;
use crate::service::{CodeModeService, CodeModeView};
use crate::text;
use crate::token_miser;

verus! {

/// The name of the tool that reads.
pub const READ_TOOL_NAME: &'static str = "read_token_miser_output";

/// The name of the tool that searches.
pub const SEARCH_TOOL_NAME: &'static str = "search_token_miser_output";

/// What the model is told of the tool that reads.
pub const READ_TOOL_DESCRIPTION: &'static str =
    "Read one bounded byte range from an exact Token Miser content item. Use next_offset to continue only when more of that selected item is needed.";

/// What the model is told of the tool that searches.
pub const SEARCH_TOOL_DESCRIPTION: &'static str =
    "Search exact retained text and return bounded matching snippets.";

/// The arguments of a read.
#[derive(Debug, PartialEq, Eq)]
pub struct ReadArgs {
    pub object_id: String,
    pub item_index: usize,
    pub offset: usize,
    pub max_bytes: usize,
}

/// The arguments of a search.
#[derive(Debug, PartialEq, Eq)]
pub struct SearchArgs {
    pub object_id: String,
    pub query: String,
    pub max_results: usize,
}

/// How much a read returns where nothing else is asked for.
pub fn default_read_bytes() -> (bytes: usize)
    ensures
        bytes == 8192,
{
    8192
}

/// How many matches a search returns where nothing else is asked for.
pub fn default_search_results() -> (results: usize)
    ensures
        results == 10,
{
    10
}

/// The kind of a tool's parameter.
#[derive(Debug, Clone, Copy, PartialEq, Eq, Structural)]
pub enum ParameterKind {
    Text,
    Integer,
}

/// A parameter of a tool.
#[derive(Debug, Clone, Copy, PartialEq, Eq)]
pub struct ToolParameter {
    pub name: &'static str,
    pub kind: ParameterKind,
    pub required: bool,
}

/// How a tool is offered to the model.
#[derive(Debug, PartialEq, Eq)]
pub struct RetrievalToolSpec {
    pub name: &'static str,
    pub description: &'static str,
    pub strict: bool,
    pub additional_properties: bool,
    pub supports_parallel_calls: bool,
    pub parameters: Vec<ToolParameter>,
}

/// Whether a parameter is this one.
pub open spec fn is_parameter(p: ToolParameter, name: Seq<char>, kind: ParameterKind, required: bool) -> bool {
    p.name@ == name && p.kind == kind && p.required == required
}

/// How the tool that reads is offered.
pub fn read_tool_spec() -> (offered: RetrievalToolSpec)
    ensures
        offered.name@ == READ_TOOL_NAME@,
        offered.description@ == READ_TOOL_DESCRIPTION@,
        !offered.strict,
        !offered.additional_properties,
        offered.supports_parallel_calls,
        offered.parameters@.len() == 4,
        is_parameter(offered.parameters@[0], "item_index"@, ParameterKind::Integer, false),
        is_parameter(offered.parameters@[1], "max_bytes"@, ParameterKind::Integer, false),
        is_parameter(offered.parameters@[2], "object_id"@, ParameterKind::Text, true),
        is_parameter(offered.parameters@[3], "offset"@, ParameterKind::Integer, false),
{
    RetrievalToolSpec {
        name: READ_TOOL_NAME,
        description: READ_TOOL_DESCRIPTION,
        strict: false,
        additional_properties: false,
        supports_parallel_calls: true,
        parameters: vec![
            ToolParameter { name: "item_index", kind: ParameterKind::Integer, required: false },
            ToolParameter { name: "max_bytes", kind: ParameterKind::Integer, required: false },
            ToolParameter { name: "object_id", kind: ParameterKind::Text, required: true },
            ToolParameter { name: "offset", kind: ParameterKind::Integer, required: false },
        ],
    }
}

/// How the tool that searches is offered.
pub fn search_tool_spec() -> (offered: RetrievalToolSpec)
    ensures
        offered.name@ == SEARCH_TOOL_NAME@,
        offered.description@ == SEARCH_TOOL_DESCRIPTION@,
        !offered.strict,
        !offered.additional_properties,
        offered.supports_parallel_calls,
        offered.parameters@.len() == 3,
        is_parameter(offered.parameters@[0], "max_results"@, ParameterKind::Integer, false),
        is_parameter(offered.parameters@[1], "object_id"@, ParameterKind::Text, true),
        is_parameter(offered.parameters@[2], "query"@, ParameterKind::Text, true),
{
    RetrievalToolSpec {
        name: SEARCH_TOOL_NAME,
        description: SEARCH_TOOL_DESCRIPTION,
        strict: false,
        additional_properties: false,
        supports_parallel_calls: true,
        parameters: vec![
            ToolParameter { name: "max_results", kind: ParameterKind::Integer, required: false },
            ToolParameter { name: "object_id", kind: ParameterKind::Text, required: true },
            ToolParameter { name: "query", kind: ParameterKind::Text, required: true },
        ],
    }
}

/// The text of the arguments of a call, which must be a function's.
pub fn function_arguments<'a>(tool_name: &str, payload: &'a ToolPayload) -> (r: Result<&'a str, String>)
    ensures
        match r {
            Ok(arguments) => payload@ == (PayloadView::Function { arguments: arguments@ }),
            Err(error) => !(payload@ is Function) && error@ == tool_name@ + " requires function arguments"@,
        },
{
    match payload {
        ToolPayload::Function { arguments } => Ok(arguments.as_str()),
        _ => {
            let mut error = tool_name.to_string();
            error.append(" requires function arguments");
            Err(error)
        },
    }
}

/// What a read comes to, given what its arguments were parsed to.
pub open spec fn read_outcome(
    before: CodeModeView,
    thread_id: Seq<char>,
    parsed: Result<ReadArgs, String>,
) -> Result<JsonView, Seq<char>> {
    match parsed {
        Ok(args) => token_miser::read_result(
            before.kept.outputs,
            thread_id,
            args.object_id@,
            args.item_index as int,
            args.offset as int,
            args.max_bytes as int,
        ),
        Err(error) => Err("invalid retrieval arguments: "@ + error@),
    }
}

/// What a search comes to, given what its arguments were parsed to.
pub open spec fn search_outcome(
    before: CodeModeView,
    thread_id: Seq<char>,
    parsed: Result<SearchArgs, String>,
) -> Result<JsonView, Seq<char>> {
    match parsed {
        Ok(args) => token_miser::search_result(
            before.kept.outputs,
            thread_id,
            args.object_id@,
            args.query@,
            args.max_results as int,
        ),
        Err(error) => Err("invalid search arguments: "@ + error@),
    }
}

/// A service after a retrieval: the cell that made a successful one is known to have asked for
/// exact output.
pub open spec fn after_retrieval(
    before: CodeModeView,
    source: ToolCallSource,
    outcome: Result<JsonView, Seq<char>>,
) -> CodeModeView {
    if outcome is Ok {
        service::retrieval_marked(before, source)
    } else {
        before
    }
}

/// Handles a read, given what its arguments were parsed to.
pub fn handle_read(
    code_mode: &mut CodeModeService,
    thread_id: &str,
    source: &ToolCallSource,
    parsed: Result<ReadArgs, String>,
) -> (r: Result<Json, String>)
    ensures
        token_miser::json_result(r) == read_outcome(old(code_mode)@, thread_id@, parsed),
        final(code_mode)@ == after_retrieval(old(code_mode)@, *source, token_miser::json_result(r)),
{
    match parsed {
        Ok(args) => {
            let r = code_mode.read_token_miser_output(
                thread_id,
                args.object_id.as_str(),
                args.item_index,
                args.offset,
                args.max_bytes,
            );
            if r.is_ok() {
                code_mode.mark_token_miser_retrieval(source);
            }
            r
        },
        Err(error) => {
            let mut complaint = "invalid retrieval arguments: ".to_string();
            complaint.append(error.as_str());
            Err(complaint)
        },
    }
}

/// Handles a search, given what its arguments were parsed to.
pub fn handle_search(
    code_mode: &mut CodeModeService,
    thread_id: &str,
    source: &ToolCallSource,
    parsed: Result<SearchArgs, String>,
) -> (r: Result<Json, String>)
    ensures
        token_miser::json_result(r) == search_outcome(old(code_mode)@, thread_id@, parsed),
        final(code_mode)@ == after_retrieval(old(code_mode)@, *source, token_miser::json_result(r)),
{
    match parsed {
        Ok(args) => {
            let r = code_mode.search_token_miser_output(
                thread_id,
                args.object_id.as_str(),
                args.query.as_str(),
                args.max_results,
            );
            if r.is_ok() {
                code_mode.mark_token_miser_retrieval(source);
            }
            r
        },
        Err(error) => {
            let mut complaint = "invalid search arguments: ".to_string();
            complaint.append(error.as_str());
            Err(complaint)
        },
    }
}

/// What a direct call reads of a retrieval's result.
pub open spec fn retrieval_text(result: JsonView) -> Seq<char> {
    "<token_miser_retrieval>"@ + text::byte_prefix(json::json_text(result), context::MAX_RETRIEVAL_BYTES as int)
        + "</token_miser_retrieval>"@
}

/// What a direct call reads of a retrieval's result. A script gets the result itself.
pub fn render_retrieval(result: &Json) -> (rendered: String)
    ensures
        rendered@ == retrieval_text(result@),
{
    TokenMiserRetrievalResult::new(result.to_text()).render()
}

/// A search's result is never cut: all of it is rendered, in a service whose outputs have version 4
/// identities.
pub proof fn law_search_results_render_whole(
    before: CodeModeView,
    thread_id: Seq<char>,
    parsed: Result<SearchArgs, String>,
)
    requires
        token_miser::identities_are_version_4(before.kept),
    ensures
        search_outcome(before, thread_id, parsed) matches Ok(result) ==> retrieval_text(result)
            == "<token_miser_retrieval>"@ + json::json_text(result) + "</token_miser_retrieval>"@,
{
    if let Ok(args) = parsed {
        token_miser::law_search_results_are_bounded(
            before.kept,
            thread_id,
            args.object_id@,
            args.query@,
            args.max_results as int,
        );
        if let Ok(result) = search_outcome(before, thread_id, parsed) {
            text::lemma_whole_chars_all(json::json_text(result), context::MAX_RETRIEVAL_BYTES as int);
        }
    }
}

/// A successful read or search by a script's nested call lets that script's own output through:
/// its last response is shown as it is, without another decision. A failed one changes nothing.
pub proof fn law_a_retrieving_script_shows_its_output(
    before: CodeModeView,
    source: ToolCallSource,
    outcome: Result<JsonView, Seq<char>>,
    response: RuntimeResponse,
)
    requires
        before.reduction_config.token_miser is Some,
        source matches ToolCallSource::CodeMode { cell_id, .. } && cell_id@ == response::cell_of(response),
        response::is_terminal(response),
    ensures
        service::response_plan(after_retrieval(before, source, outcome), response) == (if outcome is Ok {
            service::OutputPlan::ShowExact
        } else {
            service::response_plan(before, response)
        }),
{
}

/// A direct call reads a retrieval's result between two tags: all of it where it has no more than 8192
/// bytes, and otherwise the longest start that fits.
pub proof fn law_a_retrieval_is_read_between_its_tags(result: JsonView)
    ensures
        ({
            let whole = json::json_text(result);
            let read = retrieval_text(result);
            let n = read.len() - 47;
            &&& n >= 0
            &&& read.take(23) == "<token_miser_retrieval>"@
            &&& read.skip(23 + n) == "</token_miser_retrieval>"@
            &&& n <= whole.len() && read.subrange(23, 23 + n) == whole.take(n)
            &&& encode_utf8(whole.take(n)).len() <= 8192
            &&& n == whole.len() || encode_utf8(whole.take(n + 1)).len() > 8192
        }),
{
    let whole = json::json_text(result);
    let kept = text::byte_prefix(whole, context::MAX_RETRIEVAL_BYTES as int);
    let read = retrieval_text(result);
    reveal_strlit("<token_miser_retrieval>");
    reveal_strlit("</token_miser_retrieval>");
    text::law_a_prefix_is_the_longest_that_fits(whole, context::MAX_RETRIEVAL_BYTES as int);
    let n = kept.len() as int;
    assert(read.take(23) =~= "<token_miser_retrieval>"@);
    assert(read.skip(23 + n) =~= "</token_miser_retrieval>"@);
    assert(read.subrange(23, 23 + n) =~= kept);
}

/// A retrieval with arguments that cannot be understood is refused and says why, and changes nothing. A
/// successful one marks the cell that made it and no other, and a direct call marks none.
pub proof fn law_a_retrieval_marks_its_own_cell(
    before: CodeModeView,
    source: ToolCallSource,
    outcome: Result<JsonView, Seq<char>>,
    thread_id: Seq<char>,
    error: String,
    cell_id: Seq<char>,
)
    ensures
        read_outcome(before, thread_id, Err(error)) == Err::<JsonView, Seq<char>>(
            "invalid retrieval arguments: "@ + error@,
        ),
        search_outcome(before, thread_id, Err(error)) == Err::<JsonView, Seq<char>>(
            "invalid search arguments: "@ + error@,
        ),
        ({
            let after = after_retrieval(before, source, outcome);
            let own = source matches ToolCallSource::CodeMode { cell_id: cell, .. } && cell@ == cell_id;
            &&& after.kept.retrievals.contains(cell_id) <==> before.kept.retrievals.contains(cell_id) || (outcome is Ok
                && own)
            &&& after.kept.outputs == before.kept.outputs
            &&& after.kept.cells == before.kept.cells
            &&& after.scripts == before.scripts
            &&& after.handles == before.handles
            &&& after.reduction_config == before.reduction_config
        }),
{
}

/// A retrieval reads or searches what is kept, as it was asked: under the given identity and in the
/// given item, from the given offset, for the given thread.
pub proof fn law_a_retrieval_asks_what_it_was_asked(
    before: CodeModeView,
    thread_id: Seq<char>,
    read: ReadArgs,
    search: SearchArgs,
)
    ensures
        read_outcome(before, thread_id, Ok(read)) == token_miser::read_result(
            before.kept.outputs,
            thread_id,
            read.object_id@,
            read.item_index as int,
            read.offset as int,
            read.max_bytes as int,
        ),
        search_outcome(before, thread_id, Ok(search)) == token_miser::search_result(
            before.kept.outputs,
            thread_id,
            search.object_id@,
            search.query@,
            search.max_results as int,
        ),
{
}

} // verus!
