//! What a script's response becomes on its way to the model.
use vstd::prelude::*;

use crate::items;
use crate::items::{FunctionCallOutputContentItem, ItemView};
use crate::reducer;
use crate::reducer::{ReducerReply, ReductionContext, TruncationStyle};
use crate::text;

verus! {

/// The response of a script, with the items that it put out.
#[derive(Debug)]
pub enum RuntimeResponse {
    /// The script goes on, and so far it put out these items.
    Yielded { cell_id: String, content_items: Vec<FunctionCallOutputContentItem> },
    /// The script was stopped.
    Terminated { cell_id: String, content_items: Vec<FunctionCallOutputContentItem> },
    /// The script ended, with an error where it failed.
    Result { cell_id: String, content_items: Vec<FunctionCallOutputContentItem>, error_text: Option<String> },
}

/// The cell of a response.
pub open spec fn cell_of(response: RuntimeResponse) -> Seq<char> {
    match response {
        RuntimeResponse::Yielded { cell_id, .. } => cell_id@,
        RuntimeResponse::Terminated { cell_id, .. } => cell_id@,
        RuntimeResponse::Result { cell_id, .. } => cell_id@,
    }
}

/// Whether a cell can put out nothing more after this response.
pub open spec fn is_terminal(response: RuntimeResponse) -> bool {
    !(response is Yielded)
}

/// The line on how far a script has come.
pub open spec fn status_text(response: RuntimeResponse) -> Seq<char> {
    match response {
        RuntimeResponse::Yielded { cell_id, .. } => "Script running with cell ID "@ + cell_id@,
        RuntimeResponse::Terminated { .. } => "Script terminated"@,
        RuntimeResponse::Result { error_text, .. } => if error_text is None {
            "Script completed"@
        } else {
            "Script failed"@
        },
    }
}

/// The items that a script put out.
pub open spec fn put_out(response: RuntimeResponse) -> Vec<FunctionCallOutputContentItem> {
    match response {
        RuntimeResponse::Yielded { content_items, .. } => content_items,
        RuntimeResponse::Terminated { content_items, .. } => content_items,
        RuntimeResponse::Result { content_items, .. } => content_items,
    }
}

/// The error of a failed script.
pub open spec fn error_of(response: RuntimeResponse) -> Option<Seq<char>> {
    match response {
        RuntimeResponse::Result { error_text, .. } => items::text_option(error_text),
        _ => None,
    }
}

/// Items with the error of a failed script at the end.
pub open spec fn with_error(shown: Seq<ItemView>, error: Option<Seq<char>>) -> Seq<ItemView> {
    match error {
        Some(error) => shown.push(items::text_item("Script error:\n"@ + error)),
        None => shown,
    }
}

/// Whether these are the items of a response: what the host's cleaning makes of the items that the
/// script put out, given whether the model may ask for images in their original detail, and then the
/// error of a failed script.
pub open spec fn are_response_items<S: Fn(Vec<FunctionCallOutputContentItem>, bool) -> Vec<
    FunctionCallOutputContentItem,
>>(sanitize: S, original_detail: bool, response: RuntimeResponse, shown: Seq<ItemView>) -> bool {
    exists|cleaned: Vec<FunctionCallOutputContentItem>|
        {
            &&& #[trigger] call_ensures(sanitize, (put_out(response), original_detail), cleaned)
            &&& shown == with_error(items::item_views(cleaned@), error_of(response))
        }
}

/// Whether a response counts as a success: all but a failed script's do.
pub open spec fn is_success(response: RuntimeResponse) -> bool {
    response matches RuntimeResponse::Result { error_text, .. } ==> error_text is None
}

/// The cell of a response.
pub fn response_cell_id(response: &RuntimeResponse) -> (cell_id: &str)
    ensures
        cell_id@ == cell_of(*response),
{
    match response {
        RuntimeResponse::Yielded { cell_id, .. } => cell_id.as_str(),
        RuntimeResponse::Terminated { cell_id, .. } => cell_id.as_str(),
        RuntimeResponse::Result { cell_id, .. } => cell_id.as_str(),
    }
}

/// The line on how far a script has come.
pub fn format_script_status(response: &RuntimeResponse) -> (status: String)
    ensures
        status@ == status_text(*response),
{
    match response {
        RuntimeResponse::Yielded { cell_id, .. } => {
            let mut status = "Script running with cell ID ".to_string();
            status.append(cell_id.as_str());
            status
        },
        RuntimeResponse::Terminated { .. } => "Script terminated".to_string(),
        RuntimeResponse::Result { error_text, .. } => {
            if error_text.is_none() {
                "Script completed".to_string()
            } else {
                "Script failed".to_string()
            }
        },
    }
}

/// Cleans the image details of items for the model, which may or may not ask for images in their
/// original detail, with the host's cleaning.
pub fn sanitize_runtime_image_detail<S: Fn(Vec<FunctionCallOutputContentItem>, bool) -> Vec<
    FunctionCallOutputContentItem,
>>(
    sanitize: &S,
    original_detail: bool,
    content_items: Vec<FunctionCallOutputContentItem>,
) -> (cleaned: Vec<FunctionCallOutputContentItem>)
    requires
        forall|o: Vec<FunctionCallOutputContentItem>, detail: bool| #[trigger] call_requires(*sanitize, (o, detail)),
    ensures
        call_ensures(*sanitize, (content_items, original_detail), cleaned),
{
    sanitize(content_items, original_detail)
}

/// Takes a response apart: its items, cleaned for the model, with the error of a failed script, and
/// whether it counts as a success.
pub fn into_items<S: Fn(Vec<FunctionCallOutputContentItem>, bool) -> Vec<FunctionCallOutputContentItem>>(
    sanitize: &S,
    original_detail: bool,
    response: RuntimeResponse,
) -> (parts: (Vec<FunctionCallOutputContentItem>, bool))
    requires
        forall|o: Vec<FunctionCallOutputContentItem>, detail: bool| #[trigger] call_requires(*sanitize, (o, detail)),
    ensures
        are_response_items(*sanitize, original_detail, response, items::item_views(parts.0@)),
        parts.1 == is_success(response),
{
    match response {
        RuntimeResponse::Yielded { content_items, .. } => {
            (sanitize_runtime_image_detail(sanitize, original_detail, content_items), true)
        },
        RuntimeResponse::Terminated { content_items, .. } => {
            (sanitize_runtime_image_detail(sanitize, original_detail, content_items), true)
        },
        RuntimeResponse::Result { content_items, error_text, .. } => {
            let mut shown = sanitize_runtime_image_detail(sanitize, original_detail, content_items);
            match error_text {
                Some(error_text) => {
                    let mut error = "Script error:\n".to_string();
                    error.append(error_text.as_str());
                    items::push_item(&mut shown, items::text_content(error));
                    (shown, false)
                },
                None => (shown, true),
            }
        },
    }
}

/// The header of a response: the status and how long the call took, in tenths of a second.
pub open spec fn header_text(status: Seq<char>, tenths: nat) -> Seq<char> {
    status + "\nWall time "@ + text::decimal(tenths / 10) + "."@ + text::decimal(tenths % 10) + " seconds\nOutput:\n"@
}

/// Puts the header before the items of a response.
pub fn prepend_script_status(content_items: &mut Vec<FunctionCallOutputContentItem>, status: &str, tenths: u64)
    ensures
        items::item_views(final(content_items)@) == seq![items::text_item(header_text(status@, tenths as nat))]
            + items::item_views(old(content_items)@),
{
    let ghost before = items::item_views(content_items@);
    let mut header = status.to_string();
    header.append("\nWall time ");
    text::append_decimal(&mut header, (tenths / 10) as u128);
    header.append(".");
    text::append_decimal(&mut header, (tenths % 10) as u128);
    header.append(" seconds\nOutput:\n");
    content_items.insert(0, items::text_content(header));
    assert(items::item_views(content_items@) =~= seq![items::text_item(header_text(status@, tenths as nat))] + before);
}

/// What a tool call returns to the model.
#[derive(Debug, PartialEq, Eq)]
pub struct FunctionToolOutput {
    pub content: Vec<FunctionCallOutputContentItem>,
    pub success: Option<bool>,
}

/// What the model reads of a response: the header and then what is shown of its items.
pub fn finish_response(
    status: &str,
    tenths: u64,
    shown: Vec<FunctionCallOutputContentItem>,
    success: bool,
) -> (output: FunctionToolOutput)
    ensures
        items::item_views(output.content@) == seq![items::text_item(header_text(status@, tenths as nat))]
            + items::item_views(shown@),
        output.success == Some(success),
{
    let mut content = shown;
    prepend_script_status(&mut content, status, tenths);
    FunctionToolOutput { content, success: Some(success) }
}

/// Reduces the items of a response at the boundary to the model, to the requested budget under
/// the configured ceiling.
pub fn reduce_code_mode_result<T: Fn(Vec<FunctionCallOutputContentItem>, TruncationStyle, usize) -> Vec<
    FunctionCallOutputContentItem,
>>(
    truncation: &T,
    reply: ReducerReply,
    continuation_guidance: Option<&str>,
    max_guidance_characters: usize,
    context: &ReductionContext,
    content_items: Vec<FunctionCallOutputContentItem>,
    max_output_tokens: Option<usize>,
    max_output_tokens_ceiling: Option<usize>,
) -> (shown: Vec<FunctionCallOutputContentItem>)
    requires
        forall|o: Vec<FunctionCallOutputContentItem>, s: TruncationStyle, n: usize| #[trigger]
            call_requires(*truncation, (o, s, n)),
    ensures
        exists|truncated: Vec<FunctionCallOutputContentItem>|
            {
                &&& #[trigger] call_ensures(
                    *truncation,
                    (
                        reducer::shown_output(reply, context@.actionable_state, content_items),
                        reducer::style_of(
                            items::item_views(
                                reducer::shown_output(reply, context@.actionable_state, content_items)@,
                            ),
                        ),
                        reducer::clamped_tokens(max_output_tokens, max_output_tokens_ceiling),
                    ),
                    truncated,
                )
                &&& items::item_views(shown@) == reducer::assembled(
                    reducer::is_selected(reply, context@.actionable_state),
                    items::str_option(continuation_guidance),
                    max_guidance_characters as int,
                    context@.actionable_state,
                    items::item_views(truncated@),
                )
            },
{
    reducer::apply_output_reduction(
        truncation,
        reply,
        continuation_guidance,
        max_guidance_characters,
        context,
        content_items,
        max_output_tokens,
        max_output_tokens_ceiling,
    )
}

/// The status says how far a script has come: a running one is named by its cell, and a finished one
/// was terminated, completed or failed. Only a failed one counts as no success.
pub proof fn law_the_status_says_how_far_a_script_has_come(response: RuntimeResponse)
    ensures
        match response {
            RuntimeResponse::Yielded { cell_id, content_items } => {
                &&& status_text(response) == "Script running with cell ID "@ + cell_id@
                &&& !is_terminal(response)
                &&& is_success(response)
                &&& cell_of(response) == cell_id@
                &&& put_out(response) == content_items
                &&& error_of(response) is None
            },
            RuntimeResponse::Terminated { cell_id, content_items } => {
                &&& status_text(response) == "Script terminated"@
                &&& is_terminal(response)
                &&& is_success(response)
                &&& cell_of(response) == cell_id@
                &&& put_out(response) == content_items
                &&& error_of(response) is None
            },
            RuntimeResponse::Result { cell_id, content_items, error_text } => {
                &&& error_text is None ==> status_text(response) == "Script completed"@
                &&& error_text is Some ==> status_text(response) == "Script failed"@
                &&& is_terminal(response)
                &&& is_success(response) <==> error_text is None
                &&& cell_of(response) == cell_id@
                &&& put_out(response) == content_items
                &&& error_text matches Some(error) ==> error_of(response) == Some(error@)
                &&& error_text is None ==> error_of(response) is None
            },
        },
{
}

/// An error comes last: the items of a failed script are shown before it and unchanged, and without an
/// error nothing is added.
pub proof fn law_an_error_comes_last(shown: Seq<ItemView>, error: Option<Seq<char>>)
    ensures
        with_error(shown, None) == shown,
        error matches Some(e) ==> {
            let all = with_error(shown, error);
            &&& all.len() == shown.len() + 1
            &&& all.take(shown.len() as int) == shown
            &&& all.last() matches ItemView::InputText { text } && text.len() == 14 + e.len() && text.take(14)
                == "Script error:\n"@ && text.skip(14) == e
        },
{
    reveal_strlit("Script error:\n");
    if let Some(e) = error {
        let t = "Script error:\n"@ + e;
        assert(with_error(shown, error).take(shown.len() as int) =~= shown);
        assert(t.take(14) =~= "Script error:\n"@);
        assert(t.skip(14) =~= e);
    }
}

/// The header gives the status and the time: whole seconds and one digit for the tenths.
pub proof fn law_the_header_gives_status_and_time(status: Seq<char>, tenths: nat)
    ensures
        ({
            let header = header_text(status, tenths);
            let n = status.len() as int;
            &&& header.take(n) == status
            &&& exists|seconds: nat, tenth: nat|
                {
                    &&& seconds * 10 + tenth == tenths
                    &&& tenth < 10
                    &&& header.skip(n) == #[trigger] time_text(seconds, tenth)
                }
        }),
{
    let header = header_text(status, tenths);
    let n = status.len() as int;
    assert(header.take(n) =~= status);
    assert(header.skip(n) =~= time_text(tenths / 10, tenths % 10));
}

/// How long a call took, as the header says it.
pub open spec fn time_text(seconds: nat, tenth: nat) -> Seq<char> {
    "\nWall time "@ + text::decimal(seconds) + "."@ + text::decimal(tenth) + " seconds\nOutput:\n"@
}

} // verus!
