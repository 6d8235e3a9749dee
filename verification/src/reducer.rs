//! Reduction at the boundary between a script and the model.
//!
//! What a script yields or returns is truncated before the model reads it. A host may configure a
//! reducer that replaces it first. Reduction fails open: whatever goes wrong before a replacement
//! is selected leads back to truncation, and nothing that happens after can revoke it. The
//! continuation handles of nested processes are appended by the library itself, outside both the
//! replacement's fence and its budget.
use vstd::prelude::*;

use crate::actionable_state;
use crate::actionable_state::{ActionableState, StateView};
use crate::context;
use crate::context::{CodeModeOutputReductionGuidance, CodeModeOutputReplacementFence, ContextualUserFragment};
use crate::endpoint;
use crate::items;
use crate::items::{FunctionCallOutputContentItem, ItemView};
use crate::json;
use crate::json::{Json, JsonView, Member};
use crate::text;

verus! {

/// Version of the descriptor and of the reduction request and response.
pub const REDUCER_PROTOCOL_VERSION: u32 = 1;

/// How often an acceptance is attempted.
pub const ACCEPTANCE_MAX_ATTEMPTS: u32 = 2;

/// How long to wait before an acceptance is attempted again, in nanoseconds.
pub const ACCEPTANCE_RETRY_DELAY_NANOS: u64 = 50_000_000;

/// The budget that no item of the model's context exceeds.
pub const MAX_MODEL_CONTEXT_ITEM_TOKENS: usize = 10_000;

/// The budget where a caller names none.
pub const DEFAULT_MAX_OUTPUT_TOKENS: usize = 10_000;

/// The budget that a caller names, or the default.
pub open spec fn resolved_tokens(requested: Option<usize>) -> usize {
    match requested {
        Some(n) => n,
        None => DEFAULT_MAX_OUTPUT_TOKENS,
    }
}

/// The budget that a caller names, or the default.
pub fn resolve_max_tokens(requested: Option<usize>) -> (tokens: usize)
    ensures
        tokens == resolved_tokens(requested),
{
    match requested {
        Some(n) => n,
        None => DEFAULT_MAX_OUTPUT_TOKENS,
    }
}

/// The budget after the cap on context items and the host's ceiling.
pub open spec fn clamped_tokens(requested: Option<usize>, ceiling: Option<usize>) -> usize {
    let bounded = if resolved_tokens(requested) < MAX_MODEL_CONTEXT_ITEM_TOKENS {
        resolved_tokens(requested)
    } else {
        MAX_MODEL_CONTEXT_ITEM_TOKENS
    };
    match ceiling {
        Some(c) => if bounded < c { bounded } else { c },
        None => bounded,
    }
}

/// Clamps the budget that the model asks for: by the cap on context items, and by the host's
/// ceiling where there is one.
pub fn clamp_max_output_tokens(requested: Option<usize>, ceiling: Option<usize>) -> (tokens: Option<usize>)
    ensures
        tokens == Some(clamped_tokens(requested, ceiling)),
        tokens->0 <= MAX_MODEL_CONTEXT_ITEM_TOKENS,
        ceiling matches Some(c) ==> tokens->0 <= c,
{
    let resolved: usize = resolve_max_tokens(requested);
    let bounded: usize = if resolved < MAX_MODEL_CONTEXT_ITEM_TOKENS {
        resolved
    } else {
        MAX_MODEL_CONTEXT_ITEM_TOKENS
    };
    Some(
        match ceiling {
            Some(ceiling) => if bounded < ceiling { bounded } else { ceiling },
            None => bounded,
        },
    )
}

/// How an output is truncated: text with a note on what is missing, other items as they are.
#[derive(Debug, Clone, Copy, PartialEq, Eq, Structural)]
pub enum TruncationStyle {
    FormattedText,
    Items,
}

/// The style for these items.
pub open spec fn style_of(output: Seq<ItemView>) -> TruncationStyle {
    if items::all_text(output) {
        TruncationStyle::FormattedText
    } else {
        TruncationStyle::Items
    }
}

/// Truncates an output to a token budget with the host's truncation.
pub fn truncate_code_mode_result<T: Fn(Vec<FunctionCallOutputContentItem>, TruncationStyle, usize) -> Vec<
    FunctionCallOutputContentItem,
>>(
    truncation: &T,
    output: Vec<FunctionCallOutputContentItem>,
    max_output_tokens: Option<usize>,
) -> (truncated: Vec<FunctionCallOutputContentItem>)
    requires
        forall|o: Vec<FunctionCallOutputContentItem>, s: TruncationStyle, n: usize| #[trigger]
            call_requires(*truncation, (o, s, n)),
    ensures
        call_ensures(
            *truncation,
            (output, style_of(items::item_views(output@)), resolved_tokens(max_output_tokens)),
            truncated,
        ),
{
    let tokens: usize = resolve_max_tokens(max_output_tokens);
    let style = if items::are_all_text(&output) {
        TruncationStyle::FormattedText
    } else {
        TruncationStyle::Items
    };
    truncation(output, style, tokens)
}

/// What identifies an output to a reducer, and what is known of how it came about.
#[derive(Debug)]
pub struct ReductionContext {
    pub thread_id: String,
    pub turn_id: String,
    pub call_id: String,
    pub cell_id: String,
    /// The script whose output this is. An unknown script is not an empty one.
    pub script: Option<String>,
    /// The visible narration before the call.
    pub parent_intent: Option<String>,
    /// The continuation handles of the cell's processes.
    pub actionable_state: Option<ActionableState>,
    pub script_status: String,
}

/// The value of a [`ReductionContext`].
pub struct ContextView {
    pub thread_id: Seq<char>,
    pub turn_id: Seq<char>,
    pub call_id: Seq<char>,
    pub cell_id: Seq<char>,
    pub script: Option<Seq<char>>,
    pub parent_intent: Option<Seq<char>>,
    pub actionable_state: Option<StateView>,
    pub script_status: Seq<char>,
}

impl View for ReductionContext {
    type V = ContextView;

    open spec fn view(&self) -> ContextView {
        ContextView {
            thread_id: self.thread_id@,
            turn_id: self.turn_id@,
            call_id: self.call_id@,
            cell_id: self.cell_id@,
            script: items::text_option(self.script),
            parent_intent: items::text_option(self.parent_intent),
            actionable_state: actionable_state::state_option(self.actionable_state),
            script_status: self.script_status@,
        }
    }
}

/// What came of asking the reducer.
#[derive(Debug)]
pub enum ReducerReply {
    /// No reducer is configured.
    Absent,
    /// The reducer was asked and selected nothing.
    NoReplacement,
    /// The reducer selected these items.
    Replacement(Vec<FunctionCallOutputContentItem>),
}

/// The items that carry a state's handles: none for no state, nothing where one cannot be rendered.
pub open spec fn handle_items(state: Option<StateView>) -> Option<Seq<ItemView>> {
    match state {
        Some(state) => actionable_state::state_items(state),
        None => Some(Seq::empty()),
    }
}

/// Whether a replacement is what is truncated and shown.
pub open spec fn is_selected(reply: ReducerReply, state: Option<StateView>) -> bool {
    handle_items(state) is Some && reply is Replacement
}

/// What is truncated: a selected replacement, or the output itself.
pub open spec fn shown_output(
    reply: ReducerReply,
    state: Option<StateView>,
    output: Vec<FunctionCallOutputContentItem>,
) -> Vec<FunctionCallOutputContentItem> {
    if is_selected(reply, state) {
        reply->Replacement_0
    } else {
        output
    }
}

/// The items around a truncated output: the fence and the guidance of a selected replacement, and
/// the handles.
pub open spec fn assembled(
    selected: bool,
    guidance: Option<Seq<char>>,
    max_characters: int,
    state: Option<StateView>,
    truncated: Seq<ItemView>,
) -> Seq<ItemView> {
    let framed = if selected {
        seq![items::text_item(context::CODE_MODE_OUTPUT_REPLACEMENT_HEADER@)] + truncated + seq![
            items::text_item(context::CODE_MODE_OUTPUT_REPLACEMENT_FOOTER@),
        ]
    } else {
        truncated
    };
    let guided = match guidance {
        Some(g) => if selected && g.len() > 0 {
            framed.push(items::text_item(context::char_prefix(g, max_characters)))
        } else {
            framed
        },
        None => framed,
    };
    match handle_items(state) {
        Some(handles) => guided + handles,
        None => guided,
    }
}

/// Whether the reducer is asked: there is one, and the handles can be rendered.
pub fn asks_reducer(configured: bool, context: &ReductionContext) -> (yes: bool)
    ensures
        yes == (configured && handle_items(context@.actionable_state) is Some),
{
    configured && match &context.actionable_state {
        Some(state) => state.output_items().is_some(),
        None => true,
    }
}

/// Wraps a replacement so that the model reads it as data.
pub fn fence_replacement(replacement: Vec<FunctionCallOutputContentItem>) -> (fenced: Vec<FunctionCallOutputContentItem>)
    ensures
        items::item_views(fenced@) == seq![
            items::text_item(context::CODE_MODE_OUTPUT_REPLACEMENT_HEADER@),
        ] + items::item_views(replacement@) + seq![
            items::text_item(context::CODE_MODE_OUTPUT_REPLACEMENT_FOOTER@),
        ],
{
    proof {
        context::law_fence_renders_bare();
    }
    let mut fenced: Vec<FunctionCallOutputContentItem> = Vec::new();
    items::push_item(&mut fenced, CodeModeOutputReplacementFence::opening().into_output_item());
    items::append_items(&mut fenced, replacement);
    items::push_item(&mut fenced, CodeModeOutputReplacementFence::closing().into_output_item());
    assert(items::item_views(fenced@) =~= seq![
        items::text_item(context::CODE_MODE_OUTPUT_REPLACEMENT_HEADER@),
    ] + items::item_views(replacement@) + seq![items::text_item(context::CODE_MODE_OUTPUT_REPLACEMENT_FOOTER@)]);
    fenced
}

/// The reduction seam: what the model reads of an output.
///
/// The output, or the replacement that the reducer selected for it, is truncated to the clamped
/// budget. A replacement is fenced and followed by the host's guidance. The handles follow
/// either way. Where a handle cannot be rendered, the output is truncated and nothing else.
pub fn apply_output_reduction<T: Fn(Vec<FunctionCallOutputContentItem>, TruncationStyle, usize) -> Vec<
    FunctionCallOutputContentItem,
>>(
    truncation: &T,
    reply: ReducerReply,
    continuation_guidance: Option<&str>,
    max_guidance_characters: usize,
    context: &ReductionContext,
    output: Vec<FunctionCallOutputContentItem>,
    max_output_tokens: Option<usize>,
    ceiling: Option<usize>,
) -> (shown: Vec<FunctionCallOutputContentItem>)
    requires
        forall|o: Vec<FunctionCallOutputContentItem>, s: TruncationStyle, n: usize| #[trigger]
            call_requires(*truncation, (o, s, n)),
    ensures
        exists|truncated: Vec<FunctionCallOutputContentItem>|
            {
                &&& #[trigger] call_ensures(
                    *truncation,
                    (
                        shown_output(reply, context@.actionable_state, output),
                        style_of(items::item_views(shown_output(reply, context@.actionable_state, output)@)),
                        clamped_tokens(max_output_tokens, ceiling),
                    ),
                    truncated,
                )
                &&& items::item_views(shown@) == assembled(
                    is_selected(reply, context@.actionable_state),
                    items::str_option(continuation_guidance),
                    max_guidance_characters as int,
                    context@.actionable_state,
                    items::item_views(truncated@),
                )
            },
{
    let tokens = clamp_max_output_tokens(max_output_tokens, ceiling);
    let handles = match &context.actionable_state {
        Some(state) => match state.output_items() {
            Some(handles) => handles,
            None => {
                return truncate_code_mode_result(truncation, output, tokens);
            },
        },
        None => Vec::new(),
    };
    assert(Some(items::item_views(handles@)) =~= handle_items(context@.actionable_state)) by {
        if context@.actionable_state is None {
            assert(items::item_views(handles@) =~= Seq::<ItemView>::empty());
        }
    }
    match reply {
        ReducerReply::Replacement(replacement) => {
            let truncated = truncate_code_mode_result(truncation, replacement, tokens);
            let mut shown = fence_replacement(truncated);
            match continuation_guidance {
                Some(guidance) => match CodeModeOutputReductionGuidance::new(guidance, max_guidance_characters) {
                    Some(guidance) => {
                        let rendered = guidance.render();
                        assert(rendered@ =~= guidance.body_text());
                        items::push_item(&mut shown, items::text_content(rendered));
                    },
                    None => {},
                },
                None => {},
            }
            items::append_items(&mut shown, handles);
            shown
        },
        _ => truncate_and_append_actionable_state(truncation, output, tokens, handles),
    }
}

/// Truncates an output and appends the handles.
pub fn truncate_and_append_actionable_state<T: Fn(
    Vec<FunctionCallOutputContentItem>,
    TruncationStyle,
    usize,
) -> Vec<FunctionCallOutputContentItem>>(
    truncation: &T,
    output: Vec<FunctionCallOutputContentItem>,
    max_output_tokens: Option<usize>,
    handles: Vec<FunctionCallOutputContentItem>,
) -> (shown: Vec<FunctionCallOutputContentItem>)
    requires
        forall|o: Vec<FunctionCallOutputContentItem>, s: TruncationStyle, n: usize| #[trigger]
            call_requires(*truncation, (o, s, n)),
    ensures
        exists|truncated: Vec<FunctionCallOutputContentItem>|
            {
                &&& #[trigger] call_ensures(
                    *truncation,
                    (output, style_of(items::item_views(output@)), resolved_tokens(max_output_tokens)),
                    truncated,
                )
                &&& items::item_views(shown@) == items::item_views(truncated@) + items::item_views(handles@)
            },
{
    let mut shown = truncate_code_mode_result(truncation, output, max_output_tokens);
    items::append_items(&mut shown, handles);
    shown
}

/// Inert by default: with no reducer, no ceiling and no handles, the model reads the truncation of
/// the output itself, to the requested budget under the cap on context items.
pub proof fn law_inert_by_default(
    output: Vec<FunctionCallOutputContentItem>,
    requested: Option<usize>,
    guidance: Option<Seq<char>>,
    max_characters: int,
    truncated: Seq<ItemView>,
)
    ensures
        shown_output(ReducerReply::Absent, None, output) == output,
        assembled(is_selected(ReducerReply::Absent, None), guidance, max_characters, None, truncated) == truncated,
        clamped_tokens(requested, None) == (if resolved_tokens(requested) < MAX_MODEL_CONTEXT_ITEM_TOKENS {
            resolved_tokens(requested)
        } else {
            MAX_MODEL_CONTEXT_ITEM_TOKENS
        }),
{
    assert(truncated + Seq::<ItemView>::empty() =~= truncated);
}

/// A selected replacement stands between the fences, and the handles are the last thing that is
/// shown, whether a replacement was selected or not.
pub proof fn law_replacements_are_fenced_and_handles_come_last(
    selected: bool,
    guidance: Option<Seq<char>>,
    max_characters: int,
    state: Option<StateView>,
    truncated: Seq<ItemView>,
)
    ensures
        ({
            let shown = assembled(selected, guidance, max_characters, state, truncated);
            let n = truncated.len() as int;
            &&& selected ==> {
                &&& shown.len() >= n + 2
                &&& shown[0] == items::text_item(context::CODE_MODE_OUTPUT_REPLACEMENT_HEADER@)
                &&& shown.subrange(1, n + 1) == truncated
                &&& shown[n + 1] == items::text_item(context::CODE_MODE_OUTPUT_REPLACEMENT_FOOTER@)
            }
            &&& handle_items(state) matches Some(handles) ==> {
                &&& shown.len() >= handles.len()
                &&& shown.skip(shown.len() - handles.len()) == handles
            }
        }),
{
    let shown = assembled(selected, guidance, max_characters, state, truncated);
    let n = truncated.len() as int;
    if selected {
        assert(shown.subrange(1, n + 1) =~= truncated);
    }
    if let Some(handles) = handle_items(state) {
        assert(shown.skip(shown.len() - handles.len()) =~= handles);
    }
}

/// The characters of all sources together.
pub open spec fn characters(shown: Seq<ItemView>) -> nat
    decreases shown.len(),
{
    if shown.len() == 0 {
        0
    } else {
        characters(shown.drop_last()) + items::source_of(shown.last()).len()
    }
}

proof fn lemma_characters_concat(a: Seq<ItemView>, b: Seq<ItemView>)
    ensures
        characters(a + b) == characters(a) + characters(b),
    decreases b.len(),
{
    if b.len() == 0 {
        assert(a + b =~= a);
    } else {
        assert((a + b).drop_last() =~= a + b.drop_last());
        lemma_characters_concat(a, b.drop_last());
    }
}

proof fn lemma_characters_one(item: ItemView)
    ensures
        characters(seq![item]) == items::source_of(item).len(),
{
    assert(seq![item].drop_last() =~= Seq::<ItemView>::empty());
    assert(characters(Seq::<ItemView>::empty()) == 0);
}

/// The overhead that a host is told of is the framing that the model reads: beyond the truncated
/// replacement and the handles, exactly as many characters are shown.
pub proof fn law_the_reported_overhead_is_the_framing(
    guidance: Option<Seq<char>>,
    max_characters: int,
    state: Option<StateView>,
    truncated: Seq<ItemView>,
)
    requires
        max_characters >= 0,
        handle_items(state) is Some,
    ensures
        characters(assembled(true, guidance, max_characters, state, truncated)) == characters(truncated)
            + context::overhead(guidance, max_characters) + characters(handle_items(state)->0),
{
    context::law_fence_renders_bare();
    let header = items::text_item(context::CODE_MODE_OUTPUT_REPLACEMENT_HEADER@);
    let footer = items::text_item(context::CODE_MODE_OUTPUT_REPLACEMENT_FOOTER@);
    let framed = seq![header] + truncated + seq![footer];
    let handles = handle_items(state)->0;
    lemma_characters_one(header);
    lemma_characters_one(footer);
    lemma_characters_concat(seq![header], truncated);
    lemma_characters_concat(seq![header] + truncated, seq![footer]);
    match guidance {
        Some(g) => {
            let item = items::text_item(context::char_prefix(g, max_characters));
            if g.len() > 0 {
                assert(framed.push(item) =~= framed + seq![item]);
                lemma_characters_one(item);
                lemma_characters_concat(framed, seq![item]);
                lemma_characters_concat(framed.push(item), handles);
            } else {
                lemma_characters_concat(framed, handles);
            }
        },
        None => {
            lemma_characters_concat(framed, handles);
        },
    }
}

/// The budget is always enforced: whatever a model asks for and whatever a reducer replies, the
/// output or its replacement is truncated to no more than the cap on context items, the host's
/// ceiling and the request.
pub proof fn law_the_budget_is_always_enforced(requested: Option<usize>, ceiling: Option<usize>)
    ensures
        clamped_tokens(requested, ceiling) <= MAX_MODEL_CONTEXT_ITEM_TOKENS,
        clamped_tokens(requested, ceiling) <= resolved_tokens(requested),
        ceiling matches Some(c) ==> clamped_tokens(requested, ceiling) <= c,
{
}

/// The limits of a reducer and the guidance that follows its replacements.
#[derive(Debug)]
pub struct CodeModeOutputReducerConfig {
    /// Smaller outputs are not worth a reduction.
    pub min_trigger_bytes: usize,
    /// Larger outputs, and larger requests, are not sent.
    pub max_request_bytes: usize,
    /// Larger responses are not read.
    pub max_response_bytes: usize,
    pub continuation_guidance: Option<String>,
    /// The guidance is cut to this many characters.
    pub max_guidance_characters: usize,
}

/// Whether an output of this size is handed to the reducer.
pub open spec fn is_reducible(config: CodeModeOutputReducerConfig, output: Seq<ItemView>) -> bool {
    let bytes = items::source_bytes(output);
    let estimate = if bytes <= usize::MAX { bytes } else { usize::MAX as nat };
    config.min_trigger_bytes <= estimate <= config.max_request_bytes
}

/// Whether an output is handed to the reducer: neither too small nor too large.
pub fn admits_payload(config: &CodeModeOutputReducerConfig, output: &Vec<FunctionCallOutputContentItem>) -> (yes: bool)
    ensures
        yes == is_reducible(*config, items::item_views(output@)),
{
    let payload_bytes: usize = items::estimate_payload_bytes(output);
    config.min_trigger_bytes <= payload_bytes && payload_bytes <= config.max_request_bytes
}

/// The descriptor that the host leaves for the library, as it is read.
#[derive(Debug)]
pub struct ReducerDescriptorWire {
    pub version: u32,
    pub url: String,
    pub token: String,
    pub acceptance_url: String,
}

/// A descriptor whose endpoints may be called.
#[derive(Debug)]
pub struct ReducerDescriptor {
    pub version: u32,
    pub url: String,
    pub token: String,
    pub acceptance_url: String,
}

/// The value of a descriptor.
pub struct DescriptorView {
    pub version: int,
    pub url: Seq<char>,
    pub token: Seq<char>,
    pub acceptance_url: Seq<char>,
}

impl View for ReducerDescriptorWire {
    type V = DescriptorView;

    open spec fn view(&self) -> DescriptorView {
        DescriptorView {
            version: self.version as int,
            url: self.url@,
            token: self.token@,
            acceptance_url: self.acceptance_url@,
        }
    }
}

impl View for ReducerDescriptor {
    type V = DescriptorView;

    open spec fn view(&self) -> DescriptorView {
        DescriptorView {
            version: self.version as int,
            url: self.url@,
            token: self.token@,
            acceptance_url: self.acceptance_url@,
        }
    }
}

/// The address to call for a parsed endpoint, if it is loopback HTTP without credentials.
pub open spec fn callable(parsed: Result<endpoint::UrlView, Seq<char>>) -> Option<Seq<char>> {
    match parsed {
        Ok(url) => if endpoint::is_loopback_http(url) { Some(url.href) } else { None },
        Err(_) => None,
    }
}

/// The address to call for a parsed endpoint, if it is loopback HTTP without credentials.
pub fn callable_address(parsed: Result<endpoint::UrlParts, String>) -> (address: Option<String>)
    ensures
        items::text_option(address) == callable(endpoint::url_result(parsed)),
{
    match parsed {
        Ok(parts) => {
            if endpoint::check_loopback_http(&parts) {
                Some(parts.href)
            } else {
                None
            }
        },
        Err(_) => None,
    }
}

/// The address to call for an endpoint of a descriptor.
pub fn parse_loopback_endpoint(address: &str) -> (parsed: Option<String>)
    ensures
        items::text_option(parsed) == callable(endpoint::parsed_url(address@)),
{
    callable_address(endpoint::parse_url(address))
}

/// What comes of a descriptor: it must have the protocol's version and callable endpoints.
pub open spec fn checked_descriptor(wire: DescriptorView) -> Option<DescriptorView> {
    match (callable(endpoint::parsed_url(wire.url)), callable(endpoint::parsed_url(wire.acceptance_url))) {
        (Some(url), Some(acceptance_url)) => if wire.version == REDUCER_PROTOCOL_VERSION {
            Some(DescriptorView { version: wire.version, url, token: wire.token, acceptance_url })
        } else {
            None
        },
        _ => None,
    }
}

/// The value of an optional descriptor.
pub open spec fn descriptor_option(d: Option<ReducerDescriptor>) -> Option<DescriptorView> {
    match d {
        Some(d) => Some(d@),
        None => None,
    }
}

/// Checks a descriptor that was read.
pub fn check_descriptor(wire: ReducerDescriptorWire) -> (descriptor: Option<ReducerDescriptor>)
    ensures
        descriptor_option(descriptor) == checked_descriptor(wire@),
{
    if wire.version != REDUCER_PROTOCOL_VERSION {
        return None;
    }
    match (
        parse_loopback_endpoint(wire.url.as_str()),
        parse_loopback_endpoint(wire.acceptance_url.as_str()),
    ) {
        (Some(url), Some(acceptance_url)) => Some(
            ReducerDescriptor { version: wire.version, url, token: wire.token, acceptance_url },
        ),
        _ => None,
    }
}

/// A member for an optional text, which is left out where there is none.
pub open spec fn optional_field(key: Seq<char>, value: Option<JsonView>) -> Seq<json::MemberView> {
    match value {
        Some(value) => seq![json::field(key, value)],
        None => Seq::empty(),
    }
}

/// The value of an optional text.
pub open spec fn optional_text_json(t: Option<Seq<char>>) -> Option<JsonView> {
    match t {
        Some(t) => Some(JsonView::Text(t)),
        None => None,
    }
}

/// A reduction request. An unknown script, an absent intent and an absent state are left out.
pub open spec fn request_json(
    version: int,
    c: ContextView,
    overhead_characters: int,
    max_output_tokens: int,
    content_items: Seq<JsonView>,
) -> JsonView {
    JsonView::Object(
        seq![
            json::field("version"@, JsonView::Int(version)),
            json::field("thread_id"@, JsonView::Text(c.thread_id)),
            json::field("turn_id"@, JsonView::Text(c.turn_id)),
            json::field("call_id"@, JsonView::Text(c.call_id)),
            json::field("cell_id"@, JsonView::Text(c.cell_id)),
        ] + optional_field("script"@, optional_text_json(c.script)) + seq![
            json::field("script_status"@, JsonView::Text(c.script_status)),
        ] + optional_field("parent_intent"@, optional_text_json(c.parent_intent)) + optional_field(
            "actionable_state"@,
            match c.actionable_state {
                Some(state) => Some(actionable_state::written_state_json(state)),
                None => None,
            },
        ) + seq![
            json::field("model_visible_overhead_characters"@, JsonView::Int(overhead_characters)),
            json::field("max_output_tokens"@, JsonView::Int(max_output_tokens)),
            json::field("content_items"@, JsonView::Array(content_items)),
        ],
    )
}

/// The framing that is reported for a replacement under this configuration.
pub open spec fn reported_overhead(config: CodeModeOutputReducerConfig) -> int {
    let characters = context::overhead(
        items::text_option(config.continuation_guidance),
        config.max_guidance_characters as int,
    );
    if characters <= usize::MAX {
        characters as int
    } else {
        usize::MAX as int
    }
}

/// Appends a member for an optional text, which is left out where there is none.
pub fn push_optional_text(members: &mut Vec<Member>, key: &str, t: &Option<String>)
    ensures
        json::member_views(final(members)@) == json::member_views(old(members)@) + optional_field(
            key@,
            optional_text_json(items::text_option(*t)),
        ),
{
    let ghost before = json::member_views(members@);
    match t {
        Some(t) => {
            json::push_member(members, json::member(key, json::text_value(t.as_str())));
            assert(json::member_views(members@) =~= before + seq![json::field(key@, JsonView::Text(t@))]);
        },
        None => {
            assert(json::member_views(members@) =~= before + Seq::<json::MemberView>::empty());
        },
    }
}

/// Builds a reduction request. The content items come in their wire form.
pub fn build_request(
    version: u32,
    config: &CodeModeOutputReducerConfig,
    context: &ReductionContext,
    max_output_tokens: usize,
    content_items: &Vec<Json>,
) -> (request: Json)
    ensures
        request@ == request_json(
            version as int,
            context@,
            reported_overhead(*config),
            max_output_tokens as int,
            json::json_views(content_items@),
        ),
{
    let guidance: Option<&str> = match &config.continuation_guidance {
        Some(guidance) => Some(guidance.as_str()),
        None => None,
    };
    let overhead: usize = context::model_visible_overhead_characters(guidance, config.max_guidance_characters);
    let ghost expected = request_json(
        version as int,
        context@,
        reported_overhead(*config),
        max_output_tokens as int,
        json::json_views(content_items@),
    );
    let mut members: Vec<Member> = Vec::new();
    json::push_member(&mut members, json::member("version", Json::Int(version as i128)));
    json::push_member(&mut members, json::member("thread_id", json::text_value(context.thread_id.as_str())));
    json::push_member(&mut members, json::member("turn_id", json::text_value(context.turn_id.as_str())));
    json::push_member(&mut members, json::member("call_id", json::text_value(context.call_id.as_str())));
    json::push_member(&mut members, json::member("cell_id", json::text_value(context.cell_id.as_str())));
    let ghost head = seq![
        json::field("version"@, JsonView::Int(version as int)),
        json::field("thread_id"@, JsonView::Text(context@.thread_id)),
        json::field("turn_id"@, JsonView::Text(context@.turn_id)),
        json::field("call_id"@, JsonView::Text(context@.call_id)),
        json::field("cell_id"@, JsonView::Text(context@.cell_id)),
    ];
    assert(json::member_views(members@) =~= head);
    push_optional_text(&mut members, "script", &context.script);
    json::push_member(&mut members, json::member("script_status", json::text_value(context.script_status.as_str())));
    push_optional_text(&mut members, "parent_intent", &context.parent_intent);
    let ghost named = json::member_views(members@);
    match &context.actionable_state {
        Some(state) => {
            json::push_member(&mut members, json::member("actionable_state", state.to_request_value()));
        },
        None => {},
    }
    assert(json::member_views(members@) =~= named + optional_field(
        "actionable_state"@,
        match context@.actionable_state {
            Some(state) => Some(actionable_state::written_state_json(state)),
            None => None,
        },
    ));
    json::push_member(&mut members, json::member("model_visible_overhead_characters", Json::Int(overhead as i128)));
    json::push_member(&mut members, json::member("max_output_tokens", Json::Int(max_output_tokens as i128)));
    json::push_member(&mut members, json::member("content_items", json::array(json::duplicate_all(content_items))));
    assert(json::member_views(members@) =~= expected->Object_0);
    json::object(members)
}

/// A reducer's response.
#[derive(Debug)]
pub struct ReductionResponse {
    /// What takes the output's place; nothing to keep the output.
    pub replacement: Option<Vec<FunctionCallOutputContentItem>>,
    /// The host's own identity for this decision.
    pub response_id: Option<String>,
    /// The echo of the request's continuation state.
    pub actionable_state: Option<Json>,
}

/// The value of a [`ReductionResponse`].
pub struct ResponseView {
    pub replacement: Option<Seq<ItemView>>,
    pub response_id: Option<Seq<char>>,
    pub actionable_state: Option<JsonView>,
}

impl View for ReductionResponse {
    type V = ResponseView;

    open spec fn view(&self) -> ResponseView {
        ResponseView {
            replacement: match self.replacement {
                Some(replacement) => Some(items::item_views(replacement@)),
                None => None,
            },
            response_id: items::text_option(self.response_id),
            actionable_state: json::json_option(self.actionable_state),
        }
    }
}

/// Whether a response echoes the state of its request: it carries the same value, or none where
/// there was none.
pub open spec fn echoes(echo: Option<JsonView>, state: Option<StateView>) -> bool {
    match (echo, state) {
        (Some(echo), Some(state)) => json::same_value(echo, actionable_state::state_json(state)),
        (None, None) => true,
        _ => false,
    }
}

/// What a response selects: its replacement, if that is text and not empty, if the state is
/// echoed exactly, and if the response carries an identity.
pub open spec fn selection(r: ResponseView, state: Option<StateView>) -> Option<(Seq<ItemView>, Seq<char>)> {
    match (r.replacement, r.response_id) {
        (Some(replacement), Some(response_id)) => if replacement.len() > 0 && items::all_text(replacement)
            && echoes(r.actionable_state, state) && !text::blank(response_id) {
            Some((replacement, response_id))
        } else {
            None
        },
        _ => None,
    }
}

/// A state that a host sends back as it was written is an echo, and so is any other order of its
/// members: nothing else keeps a text replacement with an identity from being selected.
pub proof fn law_the_written_state_is_its_own_echo(
    state: StateView,
    replacement: Seq<ItemView>,
    response_id: Seq<char>,
)
    requires
        replacement.len() > 0,
        items::all_text(replacement),
        !text::blank(response_id),
    ensures
        selection(
            ResponseView {
                replacement: Some(replacement),
                response_id: Some(response_id),
                actionable_state: Some(actionable_state::written_state_json(state)),
            },
            Some(state),
        ) == Some((replacement, response_id)),
{
    actionable_state::lemma_written_state(state);
}

/// A replacement that was selected, with the identity of the response that carried it.
#[derive(Debug)]
pub struct SelectedReplacement {
    pub replacement: Vec<FunctionCallOutputContentItem>,
    pub response_id: String,
}

/// The value of an optional selection.
pub open spec fn selected_option(s: Option<SelectedReplacement>) -> Option<(Seq<ItemView>, Seq<char>)> {
    match s {
        Some(s) => Some((items::item_views(s.replacement@), s.response_id@)),
        None => None,
    }
}

/// Decides whether a response's replacement is selected.
pub fn select_replacement(
    response: ReductionResponse,
    state: &Option<ActionableState>,
) -> (selected: Option<SelectedReplacement>)
    ensures
        selected_option(selected) == selection(response@, actionable_state::state_option(*state)),
{
    let replacement = match response.replacement {
        Some(replacement) => replacement,
        None => {
            return None;
        },
    };
    assert(items::item_views(replacement@).len() == replacement@.len());
    if replacement.len() == 0 || !items::are_all_text(&replacement) {
        return None;
    }
    let echoed = match (&response.actionable_state, state) {
        (Some(echo), Some(state)) => echo.same(&state.to_json_value()),
        (None, None) => true,
        _ => false,
    };
    if !echoed {
        return None;
    }
    match response.response_id {
        Some(response_id) => {
            if text::is_blank(response_id.as_str()) {
                None
            } else {
                Some(SelectedReplacement { replacement, response_id })
            }
        },
        None => None,
    }
}

/// The notification that a replacement was selected.
pub open spec fn acceptance_json(response_id: Seq<char>, c: ContextView) -> JsonView {
    JsonView::Object(
        seq![
            json::field("version"@, JsonView::Int(REDUCER_PROTOCOL_VERSION as int)),
            json::field("response_id"@, JsonView::Text(response_id)),
            json::field("thread_id"@, JsonView::Text(c.thread_id)),
            json::field("turn_id"@, JsonView::Text(c.turn_id)),
            json::field("call_id"@, JsonView::Text(c.call_id)),
            json::field("cell_id"@, JsonView::Text(c.cell_id)),
        ],
    )
}

/// The notification that a replacement was selected.
pub fn reduction_acceptance(response_id: &str, context: &ReductionContext) -> (j: Json)
    ensures
        j@ == acceptance_json(response_id@, context@),
{
    let mut members: Vec<Member> = Vec::new();
    json::push_member(&mut members, json::member("version", Json::Int(REDUCER_PROTOCOL_VERSION as i128)));
    json::push_member(&mut members, json::member("response_id", json::text_value(response_id)));
    json::push_member(&mut members, json::member("thread_id", json::text_value(context.thread_id.as_str())));
    json::push_member(&mut members, json::member("turn_id", json::text_value(context.turn_id.as_str())));
    json::push_member(&mut members, json::member("call_id", json::text_value(context.call_id.as_str())));
    json::push_member(&mut members, json::member("cell_id", json::text_value(context.cell_id.as_str())));
    assert(json::member_views(members@) =~= acceptance_json(response_id@, context@)->Object_0);
    json::object(members)
}

/// What identifies the replacement of a direct tool's output.
#[derive(Debug)]
pub struct PostToolUseAcceptanceContext<'a> {
    pub response_id: &'a str,
    pub session_id: &'a str,
    pub turn_id: &'a str,
    pub tool_use_id: &'a str,
}

/// The notification that a replacement of a direct tool's output was selected.
pub open spec fn post_tool_use_acceptance_json(
    version: int,
    response_id: Seq<char>,
    session_id: Seq<char>,
    turn_id: Seq<char>,
    tool_use_id: Seq<char>,
) -> JsonView {
    JsonView::Object(
        seq![
            json::field("version"@, JsonView::Int(version)),
            json::field("response_id"@, JsonView::Text(response_id)),
            json::field("session_id"@, JsonView::Text(session_id)),
            json::field("turn_id"@, JsonView::Text(turn_id)),
            json::field("tool_use_id"@, JsonView::Text(tool_use_id)),
        ],
    )
}

/// The notification that a replacement of a direct tool's output was selected.
pub fn post_tool_use_acceptance(version: u32, context: &PostToolUseAcceptanceContext<'_>) -> (j: Json)
    ensures
        j@ == post_tool_use_acceptance_json(
            version as int,
            context.response_id@,
            context.session_id@,
            context.turn_id@,
            context.tool_use_id@,
        ),
{
    let mut members: Vec<Member> = Vec::new();
    json::push_member(&mut members, json::member("version", Json::Int(version as i128)));
    json::push_member(&mut members, json::member("response_id", json::text_value(context.response_id)));
    json::push_member(&mut members, json::member("session_id", json::text_value(context.session_id)));
    json::push_member(&mut members, json::member("turn_id", json::text_value(context.turn_id)));
    json::push_member(&mut members, json::member("tool_use_id", json::text_value(context.tool_use_id)));
    assert(json::member_views(members@) =~= post_tool_use_acceptance_json(
        version as int,
        context.response_id@,
        context.session_id@,
        context.turn_id@,
        context.tool_use_id@,
    )->Object_0);
    json::object(members)
}

/// What came of one attempt to deliver an acceptance.
#[derive(Debug, Clone, Copy, PartialEq, Eq, Structural)]
pub enum AcceptanceReply {
    /// The host took it.
    Delivered,
    /// The host answered with an error status, or the transport failed, at this time.
    Refused { now: u64 },
    /// The deadline passed.
    TimedOut,
}

/// When to attempt an acceptance again: never after it was delivered or timed out, not beyond the
/// last attempt, and not where the deadline would have passed.
pub open spec fn retry_time(attempt: int, reply: AcceptanceReply, deadline: int) -> Option<int> {
    match reply {
        AcceptanceReply::Refused { now } => if attempt < ACCEPTANCE_MAX_ATTEMPTS && now
            + ACCEPTANCE_RETRY_DELAY_NANOS < deadline {
            Some(now + ACCEPTANCE_RETRY_DELAY_NANOS)
        } else {
            None
        },
        _ => None,
    }
}

/// When to attempt an acceptance again, on a clock that counts nanoseconds.
pub fn acceptance_retry(attempt: u32, reply: AcceptanceReply, deadline: u64) -> (retry_at: Option<u64>)
    ensures
        (match retry_at {
            Some(t) => Some(t as int),
            None => None,
        }) == retry_time(attempt as int, reply, deadline as int),
{
    match reply {
        AcceptanceReply::Refused { now } => {
            if attempt < ACCEPTANCE_MAX_ATTEMPTS && deadline > ACCEPTANCE_RETRY_DELAY_NANOS && now < deadline
                - ACCEPTANCE_RETRY_DELAY_NANOS {
                Some(now + ACCEPTANCE_RETRY_DELAY_NANOS)
            } else {
                None
            }
        },
        AcceptanceReply::Delivered => None,
        AcceptanceReply::TimedOut => None,
    }
}

/// The acceptance of a direct tool's replacement names the response, the session, the turn and the
/// tool call, each under its own key.
pub proof fn law_a_direct_acceptance_names_the_tool_call(
    version: int,
    response_id: Seq<char>,
    session_id: Seq<char>,
    turn_id: Seq<char>,
    tool_use_id: Seq<char>,
)
    ensures
        ({
            let body = post_tool_use_acceptance_json(version, response_id, session_id, turn_id, tool_use_id);
            &&& json::json_get(body, "version"@) == Some(JsonView::Int(version))
            &&& json::json_get(body, "response_id"@) == Some(JsonView::Text(response_id))
            &&& json::json_get(body, "session_id"@) == Some(JsonView::Text(session_id))
            &&& json::json_get(body, "turn_id"@) == Some(JsonView::Text(turn_id))
            &&& json::json_get(body, "tool_use_id"@) == Some(JsonView::Text(tool_use_id))
        }),
{
    reveal_strlit("version");
    reveal_strlit("response_id");
    reveal_strlit("session_id");
    reveal_strlit("turn_id");
    reveal_strlit("tool_use_id");
    assert("version"@.len() == 7 && "response_id"@.len() == 11 && "session_id"@.len() == 10 && "turn_id"@.len() == 7
        && "tool_use_id"@.len() == 11);
    assert("version"@[0] != "turn_id"@[0]);
    assert("response_id"@[0] != "tool_use_id"@[0]);
    let members = post_tool_use_acceptance_json(version, response_id, session_id, turn_id, tool_use_id)->Object_0;
    json::lemma_member_found(members, 0);
    json::lemma_member_found(members, 1);
    json::lemma_member_found(members, 2);
    json::lemma_member_found(members, 3);
    json::lemma_member_found(members, 4);
}

/// The acceptance of a cell's replacement names the response, the thread, the turn, the call and the
/// cell, each under its own key.
pub proof fn law_an_acceptance_names_the_cell(response_id: Seq<char>, c: ContextView)
    ensures
        ({
            let body = acceptance_json(response_id, c);
            &&& json::json_get(body, "version"@) == Some(JsonView::Int(1))
            &&& json::json_get(body, "response_id"@) == Some(JsonView::Text(response_id))
            &&& json::json_get(body, "thread_id"@) == Some(JsonView::Text(c.thread_id))
            &&& json::json_get(body, "turn_id"@) == Some(JsonView::Text(c.turn_id))
            &&& json::json_get(body, "call_id"@) == Some(JsonView::Text(c.call_id))
            &&& json::json_get(body, "cell_id"@) == Some(JsonView::Text(c.cell_id))
        }),
{
    reveal_strlit("version");
    reveal_strlit("response_id");
    reveal_strlit("thread_id");
    reveal_strlit("turn_id");
    reveal_strlit("call_id");
    reveal_strlit("cell_id");
    assert("version"@.len() == 7 && "response_id"@.len() == 11 && "thread_id"@.len() == 9 && "turn_id"@.len() == 7
        && "call_id"@.len() == 7 && "cell_id"@.len() == 7);
    assert("version"@[0] == 'v' && "turn_id"@[0] == 't' && "call_id"@[0] == 'c' && "cell_id"@[0] == 'c');
    assert("call_id"@[1] != "cell_id"@[1]);
    let members = acceptance_json(response_id, c)->Object_0;
    json::lemma_member_found(members, 0);
    json::lemma_member_found(members, 1);
    json::lemma_member_found(members, 2);
    json::lemma_member_found(members, 3);
    json::lemma_member_found(members, 4);
    json::lemma_member_found(members, 5);
}

/// A request tells the host what the output belongs to: each part of the context stands under its own
/// key, an unknown script, an absent intent and an absent state are left out, and there is nothing
/// else.
pub proof fn law_a_request_tells_its_context(
    version: int,
    c: ContextView,
    overhead_characters: int,
    max_output_tokens: int,
    content_items: Seq<JsonView>,
)
    ensures
        ({
            let request = request_json(version, c, overhead_characters, max_output_tokens, content_items);
            &&& json::json_get(request, "version"@) == Some(JsonView::Int(version))
            &&& json::json_get(request, "thread_id"@) == Some(JsonView::Text(c.thread_id))
            &&& json::json_get(request, "turn_id"@) == Some(JsonView::Text(c.turn_id))
            &&& json::json_get(request, "call_id"@) == Some(JsonView::Text(c.call_id))
            &&& json::json_get(request, "cell_id"@) == Some(JsonView::Text(c.cell_id))
            &&& c.script matches Some(script) ==> json::json_get(request, "script"@) == Some(JsonView::Text(script))
            &&& c.script is None ==> json::json_get(request, "script"@) is None
            &&& json::json_get(request, "script_status"@) == Some(JsonView::Text(c.script_status))
            &&& c.parent_intent matches Some(intent) ==> json::json_get(request, "parent_intent"@) == Some(
                JsonView::Text(intent),
            )
            &&& c.parent_intent is None ==> json::json_get(request, "parent_intent"@) is None
            &&& c.actionable_state matches Some(state) ==> json::json_get(request, "actionable_state"@) == Some(
                actionable_state::written_state_json(state),
            )
            &&& c.actionable_state is None ==> json::json_get(request, "actionable_state"@) is None
            &&& json::json_get(request, "model_visible_overhead_characters"@) == Some(
                JsonView::Int(overhead_characters),
            )
            &&& json::json_get(request, "max_output_tokens"@) == Some(JsonView::Int(max_output_tokens))
            &&& json::json_get(request, "content_items"@) == Some(JsonView::Array(content_items))
        }),
{
    reveal_strlit("version");
    reveal_strlit("thread_id");
    reveal_strlit("turn_id");
    reveal_strlit("call_id");
    reveal_strlit("cell_id");
    reveal_strlit("script");
    reveal_strlit("script_status");
    reveal_strlit("parent_intent");
    reveal_strlit("actionable_state");
    reveal_strlit("model_visible_overhead_characters");
    reveal_strlit("max_output_tokens");
    reveal_strlit("content_items");
    assert("version"@.len() == 7);
    assert("thread_id"@.len() == 9);
    assert("turn_id"@.len() == 7);
    assert("call_id"@.len() == 7);
    assert("cell_id"@.len() == 7);
    assert("script"@.len() == 6);
    assert("script_status"@.len() == 13);
    assert("parent_intent"@.len() == 13);
    assert("actionable_state"@.len() == 16);
    assert("model_visible_overhead_characters"@.len() == 33);
    assert("max_output_tokens"@.len() == 17);
    assert("content_items"@.len() == 13);
    assert("version"@[0] != "turn_id"@[0]);
    assert("version"@[0] != "call_id"@[0]);
    assert("version"@[0] != "cell_id"@[0]);
    assert("turn_id"@[0] != "call_id"@[0]);
    assert("turn_id"@[0] != "cell_id"@[0]);
    assert("call_id"@[1] != "cell_id"@[1]);
    assert("script_status"@[0] != "parent_intent"@[0]);
    assert("script_status"@[0] != "content_items"@[0]);
    assert("parent_intent"@[0] != "content_items"@[0]);
    let members = request_json(version, c, overhead_characters, max_output_tokens, content_items)->Object_0;
    let a: int = if c.script is Some { 1 } else { 0 };
    let b: int = if c.parent_intent is Some { 1 } else { 0 };
    let d: int = if c.actionable_state is Some { 1 } else { 0 };
    assert(members.len() == 9 + a + b + d);
    json::lemma_member_found(members, 0);
    json::lemma_member_found(members, 1);
    json::lemma_member_found(members, 2);
    json::lemma_member_found(members, 3);
    json::lemma_member_found(members, 4);
    if c.script is Some {
        json::lemma_member_found(members, 5);
    } else {
        json::law_members_are_found_by_their_key(members, "script"@);
    }
    json::lemma_member_found(members, 5 + a);
    if c.parent_intent is Some {
        json::lemma_member_found(members, 6 + a);
    } else {
        json::law_members_are_found_by_their_key(members, "parent_intent"@);
    }
    if c.actionable_state is Some {
        json::lemma_member_found(members, 6 + a + b);
    } else {
        json::law_members_are_found_by_their_key(members, "actionable_state"@);
    }
    json::lemma_member_found(members, 6 + a + b + d);
    json::lemma_member_found(members, 7 + a + b + d);
    json::lemma_member_found(members, 8 + a + b + d);
}

/// What a response selects is its own: the replacement and the identity are those of the response, the
/// replacement is one text or more and nothing but text, the identity says something, and the state of
/// the request came back, or none where there was none. Where all of this holds, it is selected.
pub proof fn law_a_selection_is_the_responses_own(r: ResponseView, state: Option<StateView>)
    ensures
        ({
            let text_alone = r.replacement is Some && r.replacement->0.len() > 0 && forall|i: int|
                0 <= i < r.replacement->0.len() ==> (#[trigger] r.replacement->0[i]) is InputText;
            let identified = r.response_id is Some && text::trimmed(r.response_id->0).len() > 0;
            let echoed = match state {
                Some(state) => r.actionable_state is Some && json::same_value(
                    r.actionable_state->0,
                    actionable_state::state_json(state),
                ),
                None => r.actionable_state is None,
            };
            &&& text_alone && identified && echoed ==> selection(r, state) == Some(
                (r.replacement->0, r.response_id->0),
            )
            &&& !(text_alone && identified && echoed) ==> selection(r, state) is None
        }),
{
    if r.response_id is Some {
        text::law_blank_trims_to_nothing(r.response_id->0);
    }
}

/// A refused acceptance is attempted once more: the first attempt that is refused is followed by a
/// second one, fifty milliseconds later, where the deadline lies beyond that. Nothing else is followed
/// by another attempt.
pub proof fn law_a_refused_acceptance_is_tried_once_more(attempt: int, reply: AcceptanceReply, deadline: int)
    ensures
        ({
            let again = retry_time(attempt, reply, deadline);
            let due = attempt <= 1 && reply is Refused && reply->now + 50_000_000 < deadline;
            &&& due ==> again == Some(reply->now + 50_000_000)
            &&& !due ==> again is None
        }),
{
}

/// The budget is the smallest of those that hold: what was asked for, or 10000 tokens where nothing
/// was, the cap of 10000 tokens, and the ceiling where there is one.
pub proof fn law_the_budget_is_the_smallest_limit(requested: Option<usize>, ceiling: Option<usize>)
    ensures
        ({
            let budget = clamped_tokens(requested, ceiling);
            &&& budget <= 10_000
            &&& requested matches Some(n) ==> budget <= n
            &&& ceiling matches Some(n) ==> budget <= n
            &&& budget == 10_000 || requested == Some(budget) || ceiling == Some(budget)
        }),
{
}

/// An output is sent exactly where its sources together have no fewer bytes than trigger a reduction
/// and no more than a request may have.
pub proof fn law_an_output_is_sent_by_its_size(config: CodeModeOutputReducerConfig, output: Seq<ItemView>)
    requires
        items::source_bytes(output) <= usize::MAX,
    ensures
        is_reducible(config, output) <==> config.min_trigger_bytes <= items::source_bytes(output)
            <= config.max_request_bytes,
{
}

/// A descriptor is taken as a whole: where it is, it has the protocol's version and both addresses are
/// loopback without credentials, and the calls go to those addresses with its token. Where all of this
/// holds, it is taken.
pub proof fn law_a_descriptor_is_taken_as_a_whole(wire: DescriptorView)
    ensures
        ({
            let addressed = |address: Seq<char>|
                endpoint::parsed_url(address) matches Ok(url) && endpoint::is_loopback_http(url);
            let good = wire.version == 1 && addressed(wire.url) && addressed(wire.acceptance_url);
            &&& checked_descriptor(wire) is Some <==> good
            &&& checked_descriptor(wire) matches Some(taken) ==> {
                &&& taken.version == 1
                &&& taken.token == wire.token
                &&& taken.url == endpoint::parsed_url(wire.url)->Ok_0.href
                &&& taken.acceptance_url == endpoint::parsed_url(wire.acceptance_url)->Ok_0.href
            }
        }),
{
}

/// What is shown is made of nothing but the fences and the guidance of a selected replacement, what
/// was truncated, and the handles, in this order.
pub proof fn law_nothing_else_is_shown(
    selected: bool,
    guidance: Option<Seq<char>>,
    max_characters: int,
    state: Option<StateView>,
    truncated: Seq<ItemView>,
)
    requires
        max_characters >= 0,
    ensures
        ({
            let shown = assembled(selected, guidance, max_characters, state, truncated);
            let n = truncated.len() as int;
            let handles = match handle_items(state) {
                Some(handles) => handles.len() as int,
                None => 0,
            };
            let guided = selected && guidance is Some && guidance->0.len() > 0;
            &&& !selected ==> shown.len() == n + handles && shown.take(n) == truncated
            &&& selected && !guided ==> shown.len() == n + 2 + handles
            &&& guided ==> {
                &&& shown.len() == n + 3 + handles
                &&& shown[n + 2] matches ItemView::InputText { text } && text.len() <= max_characters && (text
                    == guidance->0 || text.len() == max_characters) && text == guidance->0.take(text.len() as int)
            }
        }),
{
    let shown = assembled(selected, guidance, max_characters, state, truncated);
    let n = truncated.len() as int;
    if !selected {
        assert(shown.take(n) =~= truncated);
    }
    if guidance is Some {
        let kept = context::char_prefix(guidance->0, max_characters);
        assert(kept =~= guidance->0.take(kept.len() as int));
        if kept.len() < max_characters {
            assert(kept =~= guidance->0);
        }
    }
}

/// A replacement is what is truncated and shown exactly where the reducer selected one and the handles
/// can be rendered; otherwise it is the output itself.
pub proof fn law_a_replacement_needs_its_handles(
    reply: ReducerReply,
    state: Option<StateView>,
    output: Vec<FunctionCallOutputContentItem>,
)
    ensures
        ({
            let renders = match state {
                Some(state) => actionable_state::state_items(state) is Some,
                None => true,
            };
            &&& is_selected(reply, state) <==> reply is Replacement && renders
            &&& reply is Replacement && renders ==> shown_output(reply, state, output) == reply->Replacement_0
            &&& !(reply is Replacement && renders) ==> shown_output(reply, state, output) == output
        }),
{
}

/// Items that are all text are truncated as formatted text, and any others item by item.
pub proof fn law_the_style_goes_by_the_items(output: Seq<ItemView>)
    ensures
        style_of(output) == TruncationStyle::FormattedText <==> forall|i: int|
            0 <= i < output.len() ==> (#[trigger] output[i]) is InputText,
{
}

/// Where nothing is asked for, 10000 tokens are; anything else is taken as it is asked.
pub proof fn law_the_default_budget(requested: Option<usize>)
    ensures
        requested is None ==> resolved_tokens(requested) == 10_000,
        requested matches Some(n) ==> resolved_tokens(requested) == n,
{
}

} // verus!
