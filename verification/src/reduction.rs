//! One reduction, from the first look at its size to the last acceptance attempt.
//!
//! The library decides and the host acts: [`begin`] and [`advance`] say what the host does next,
//! and what the host found is handed back as an event.
use vstd::prelude::*;
use vstd::utf8::*;

use crate::items;
use crate::items::{FunctionCallOutputContentItem, ItemView};
use crate::json;
use crate::json::{Json, JsonView};
use crate::reducer;
use crate::reducer::{
    AcceptanceReply, CodeModeOutputReducerConfig, ContextView, DescriptorView, PostToolUseAcceptanceContext,
    ReducerDescriptor, ReducerDescriptorWire, ReductionContext, ReductionResponse, ResponseView,
    SelectedReplacement,
};
use crate::text;
use crate::transfer;

verus! {

/// How far a reduction has come.
#[derive(Debug)]
pub enum Phase {
    /// The descriptor is being read, for an output in the form in which it is sent.
    AwaitingDescriptor { content_items: Vec<Json> },
    /// The request has been sent.
    AwaitingResponse { descriptor: ReducerDescriptor },
    /// The response is being read.
    ReadingBody { descriptor: ReducerDescriptor, body: Vec<u8> },
    /// The response is being parsed.
    AwaitingParse { descriptor: ReducerDescriptor },
    /// A replacement is selected and its acceptance is being delivered.
    Accepting { descriptor: ReducerDescriptor, attempt: u32, selected: SelectedReplacement },
    /// The reduction is over.
    Finished { replacement: Option<Vec<FunctionCallOutputContentItem>> },
}

/// What the host found.
#[derive(Debug)]
pub enum Event {
    /// The descriptor, or nothing where it is missing or malformed.
    DescriptorRead(Option<ReducerDescriptorWire>),
    /// The request or the reading of the response failed.
    TransportFailed,
    /// The deadline passed.
    TimedOut,
    /// The response's status and announced length.
    ResponseStarted { success: bool, content_length: Option<u64> },
    /// The next part of the response.
    ChunkRead(Vec<u8>),
    /// The response has ended.
    BodyEnded,
    /// The response, or nothing where it is malformed.
    BodyParsed(Option<ReductionResponse>),
    /// What came of an acceptance attempt.
    AcceptanceAttempted { reply: AcceptanceReply, deadline: u64 },
}

/// What the host does next.
#[allow(inconsistent_fields)]
#[derive(Debug)]
pub enum Action {
    ReadDescriptor,
    /// Posts the body, with the token as bearer.
    SendRequest { url: String, token: String, body: Vec<u8> },
    ReadChunk,
    ParseBody { body: Vec<u8> },
    /// Posts the body, with the token as bearer, not before the given time.
    SendAcceptance { url: String, token: String, body: String, not_before: Option<u64> },
    Finish,
}

/// The value of a [`Phase`].
#[allow(inconsistent_fields)]
pub enum PhaseView {
    AwaitingDescriptor { content_items: Seq<JsonView> },
    AwaitingResponse { descriptor: DescriptorView },
    ReadingBody { descriptor: DescriptorView, body: Seq<u8> },
    AwaitingParse { descriptor: DescriptorView },
    Accepting { descriptor: DescriptorView, attempt: int, replacement: Seq<ItemView>, response_id: Seq<char> },
    Finished { replacement: Option<Seq<ItemView>> },
}

/// The value of an [`Event`].
pub enum EventView {
    DescriptorRead(Option<DescriptorView>),
    TransportFailed,
    TimedOut,
    ResponseStarted { success: bool, content_length: Option<int> },
    ChunkRead(Seq<u8>),
    BodyEnded,
    BodyParsed(Option<ResponseView>),
    AcceptanceAttempted { reply: AcceptanceReply, deadline: int },
}

/// The value of an [`Action`].
#[allow(inconsistent_fields)]
pub enum ActionView {
    ReadDescriptor,
    SendRequest { url: Seq<char>, token: Seq<char>, body: Seq<u8> },
    ReadChunk,
    ParseBody { body: Seq<u8> },
    SendAcceptance { url: Seq<char>, token: Seq<char>, body: Seq<char>, not_before: Option<int> },
    Finish,
}

impl View for Phase {
    type V = PhaseView;

    open spec fn view(&self) -> PhaseView {
        match self {
            Phase::AwaitingDescriptor { content_items } => PhaseView::AwaitingDescriptor {
                content_items: json::json_views(content_items@),
            },
            Phase::AwaitingResponse { descriptor } => PhaseView::AwaitingResponse { descriptor: descriptor@ },
            Phase::ReadingBody { descriptor, body } => PhaseView::ReadingBody {
                descriptor: descriptor@,
                body: body@,
            },
            Phase::AwaitingParse { descriptor } => PhaseView::AwaitingParse { descriptor: descriptor@ },
            Phase::Accepting { descriptor, attempt, selected } => PhaseView::Accepting {
                descriptor: descriptor@,
                attempt: *attempt as int,
                replacement: items::item_views(selected.replacement@),
                response_id: selected.response_id@,
            },
            Phase::Finished { replacement } => PhaseView::Finished {
                replacement: match replacement {
                    Some(replacement) => Some(items::item_views(replacement@)),
                    None => None,
                },
            },
        }
    }
}

impl View for Event {
    type V = EventView;

    open spec fn view(&self) -> EventView {
        match self {
            Event::DescriptorRead(wire) => EventView::DescriptorRead(
                match wire {
                    Some(wire) => Some(wire@),
                    None => None,
                },
            ),
            Event::TransportFailed => EventView::TransportFailed,
            Event::TimedOut => EventView::TimedOut,
            Event::ResponseStarted { success, content_length } => EventView::ResponseStarted {
                success: *success,
                content_length: match content_length {
                    Some(n) => Some(*n as int),
                    None => None,
                },
            },
            Event::ChunkRead(chunk) => EventView::ChunkRead(chunk@),
            Event::BodyEnded => EventView::BodyEnded,
            Event::BodyParsed(response) => EventView::BodyParsed(
                match response {
                    Some(response) => Some(response@),
                    None => None,
                },
            ),
            Event::AcceptanceAttempted { reply, deadline } => EventView::AcceptanceAttempted {
                reply: *reply,
                deadline: *deadline as int,
            },
        }
    }
}

impl View for Action {
    type V = ActionView;

    open spec fn view(&self) -> ActionView {
        match self {
            Action::ReadDescriptor => ActionView::ReadDescriptor,
            Action::SendRequest { url, token, body } => ActionView::SendRequest {
                url: url@,
                token: token@,
                body: body@,
            },
            Action::ReadChunk => ActionView::ReadChunk,
            Action::ParseBody { body } => ActionView::ParseBody { body: body@ },
            Action::SendAcceptance { url, token, body, not_before } => ActionView::SendAcceptance {
                url: url@,
                token: token@,
                body: body@,
                not_before: match not_before {
                    Some(t) => Some(*t as int),
                    None => None,
                },
            },
            Action::Finish => ActionView::Finish,
        }
    }
}

/// The end of a reduction that selected nothing.
pub open spec fn kept() -> (PhaseView, ActionView) {
    (PhaseView::Finished { replacement: None }, ActionView::Finish)
}

/// The end of a reduction that selected a replacement.
pub open spec fn committed(replacement: Seq<ItemView>) -> (PhaseView, ActionView) {
    (PhaseView::Finished { replacement: Some(replacement) }, ActionView::Finish)
}

/// How a reduction starts: an output within the size limits is worth reading the descriptor.
pub open spec fn first_step(config: CodeModeOutputReducerConfig, output: Seq<ItemView>) -> (PhaseView, ActionView) {
    if reducer::is_reducible(config, output) {
        (
            PhaseView::AwaitingDescriptor { content_items: items::wire_items(output) },
            ActionView::ReadDescriptor,
        )
    } else {
        kept()
    }
}

/// The request for an output in its wire form.
pub open spec fn request_text(
    config: CodeModeOutputReducerConfig,
    c: ContextView,
    max_output_tokens: int,
    content_items: Seq<JsonView>,
    version: int,
) -> Seq<char> {
    json::json_text(
        reducer::request_json(version, c, reducer::reported_overhead(config), max_output_tokens, content_items),
    )
}

/// After the descriptor: a request is sent where the descriptor is good and the request fits.
pub open spec fn after_descriptor(
    wire: Option<DescriptorView>,
    config: CodeModeOutputReducerConfig,
    c: ContextView,
    max_output_tokens: int,
    content_items: Seq<JsonView>,
) -> (PhaseView, ActionView) {
    let checked = match wire {
        Some(wire) => reducer::checked_descriptor(wire),
        None => None,
    };
    match checked {
        Some(descriptor) => {
            let request = request_text(config, c, max_output_tokens, content_items, descriptor.version);
            if text::byte_len(request) <= config.max_request_bytes {
                (
                    PhaseView::AwaitingResponse { descriptor },
                    ActionView::SendRequest {
                        url: descriptor.url,
                        token: descriptor.token,
                        body: encode_utf8(request),
                    },
                )
            } else {
                kept()
            }
        },
        None => kept(),
    }
}

/// After the response's head: the body is read where the status is a success and the announced
/// length, if any, is within the limit.
pub open spec fn after_head(
    descriptor: DescriptorView,
    success: bool,
    content_length: Option<int>,
    limit: int,
) -> (PhaseView, ActionView) {
    if success && (content_length matches Some(n) ==> n <= limit) {
        (PhaseView::ReadingBody { descriptor, body: Seq::empty() }, ActionView::ReadChunk)
    } else {
        kept()
    }
}

/// After a chunk: reading goes on as long as the body stays within the limit.
pub open spec fn after_chunk(descriptor: DescriptorView, body: Seq<u8>, chunk: Seq<u8>, limit: int) -> (
    PhaseView,
    ActionView,
) {
    if transfer::fits(body.len(), chunk.len(), limit as nat) {
        (PhaseView::ReadingBody { descriptor, body: body + chunk }, ActionView::ReadChunk)
    } else {
        kept()
    }
}

/// The delivery of an acceptance.
pub open spec fn acceptance_action(
    descriptor: DescriptorView,
    response_id: Seq<char>,
    c: ContextView,
    not_before: Option<int>,
) -> ActionView {
    ActionView::SendAcceptance {
        url: descriptor.acceptance_url,
        token: descriptor.token,
        body: json::json_text(reducer::acceptance_json(response_id, c)),
        not_before,
    }
}

/// After the response: what it selects is accepted, and otherwise the output is kept.
pub open spec fn after_parse(descriptor: DescriptorView, response: Option<ResponseView>, c: ContextView) -> (
    PhaseView,
    ActionView,
) {
    let selected = match response {
        Some(response) => reducer::selection(response, c.actionable_state),
        None => None,
    };
    match selected {
        Some((replacement, response_id)) => (
            PhaseView::Accepting { descriptor, attempt: 1, replacement, response_id },
            acceptance_action(descriptor, response_id, c, None),
        ),
        None => kept(),
    }
}

/// After an acceptance attempt: it is repeated where there is an attempt and time left, and
/// either way the replacement stands.
pub open spec fn after_acceptance(
    descriptor: DescriptorView,
    attempt: int,
    replacement: Seq<ItemView>,
    response_id: Seq<char>,
    reply: AcceptanceReply,
    deadline: int,
    c: ContextView,
) -> (PhaseView, ActionView) {
    match reducer::retry_time(attempt, reply, deadline) {
        Some(t) => (
            PhaseView::Accepting { descriptor, attempt: attempt + 1, replacement, response_id },
            acceptance_action(descriptor, response_id, c, Some(t)),
        ),
        None => committed(replacement),
    }
}

/// What follows from an event. An event that does not belong to a phase ends the reduction as the
/// phase would end it: nothing is selected before a response was, and what was selected stays.
pub open spec fn next_step(
    phase: PhaseView,
    event: EventView,
    config: CodeModeOutputReducerConfig,
    c: ContextView,
    max_output_tokens: int,
) -> (PhaseView, ActionView) {
    match phase {
        PhaseView::AwaitingDescriptor { content_items } => match event {
            EventView::DescriptorRead(wire) => after_descriptor(wire, config, c, max_output_tokens, content_items),
            _ => kept(),
        },
        PhaseView::AwaitingResponse { descriptor } => match event {
            EventView::ResponseStarted { success, content_length } => after_head(
                descriptor,
                success,
                content_length,
                config.max_response_bytes as int,
            ),
            _ => kept(),
        },
        PhaseView::ReadingBody { descriptor, body } => match event {
            EventView::ChunkRead(chunk) => after_chunk(descriptor, body, chunk, config.max_response_bytes as int),
            EventView::BodyEnded => (PhaseView::AwaitingParse { descriptor }, ActionView::ParseBody { body }),
            _ => kept(),
        },
        PhaseView::AwaitingParse { descriptor } => match event {
            EventView::BodyParsed(response) => after_parse(descriptor, response, c),
            _ => kept(),
        },
        PhaseView::Accepting { descriptor, attempt, replacement, response_id } => match event {
            EventView::AcceptanceAttempted { reply, deadline } => after_acceptance(
                descriptor,
                attempt,
                replacement,
                response_id,
                reply,
                deadline,
                c,
            ),
            _ => committed(replacement),
        },
        PhaseView::Finished { replacement } => (PhaseView::Finished { replacement }, ActionView::Finish),
    }
}

fn keep_output() -> (step: (Phase, Action))
    ensures
        (step.0@, step.1@) == kept(),
{
    (Phase::Finished { replacement: None }, Action::Finish)
}

/// Starts a reduction.
pub fn begin(
    config: &CodeModeOutputReducerConfig,
    output: &Vec<FunctionCallOutputContentItem>,
) -> (step: (Phase, Action))
    ensures
        (step.0@, step.1@) == first_step(*config, items::item_views(output@)),
{
    if reducer::admits_payload(config, output) {
        (Phase::AwaitingDescriptor { content_items: items::content_items_json(output) }, Action::ReadDescriptor)
    } else {
        keep_output()
    }
}

fn on_descriptor(
    wire: Option<ReducerDescriptorWire>,
    config: &CodeModeOutputReducerConfig,
    context: &ReductionContext,
    max_output_tokens: usize,
    content_items: &Vec<Json>,
) -> (step: (Phase, Action))
    ensures
        (step.0@, step.1@) == after_descriptor(
            match wire {
                Some(wire) => Some(wire@),
                None => None,
            },
            *config,
            context@,
            max_output_tokens as int,
            json::json_views(content_items@),
        ),
{
    let checked = match wire {
        Some(wire) => reducer::check_descriptor(wire),
        None => None,
    };
    match checked {
        Some(descriptor) => {
            let request = reducer::build_request(
                descriptor.version,
                config,
                context,
                max_output_tokens,
                content_items,
            );
            match transfer::serialize_json_bounded(&request, config.max_request_bytes) {
                Some(body) => {
                    let url = descriptor.url.clone();
                    let token = descriptor.token.clone();
                    (Phase::AwaitingResponse { descriptor }, Action::SendRequest { url, token, body })
                },
                None => keep_output(),
            }
        },
        None => keep_output(),
    }
}

fn send_acceptance(
    descriptor: &ReducerDescriptor,
    response_id: &str,
    context: &ReductionContext,
    not_before: Option<u64>,
) -> (action: Action)
    ensures
        action@ == acceptance_action(
            descriptor@,
            response_id@,
            context@,
            match not_before {
                Some(t) => Some(t as int),
                None => None,
            },
        ),
{
    Action::SendAcceptance {
        url: descriptor.acceptance_url.clone(),
        token: descriptor.token.clone(),
        body: reducer::reduction_acceptance(response_id, context).to_text(),
        not_before,
    }
}

fn on_response(
    descriptor: ReducerDescriptor,
    response: Option<ReductionResponse>,
    context: &ReductionContext,
) -> (step: (Phase, Action))
    ensures
        (step.0@, step.1@) == after_parse(
            descriptor@,
            match response {
                Some(response) => Some(response@),
                None => None,
            },
            context@,
        ),
{
    let selected = match response {
        Some(response) => reducer::select_replacement(response, &context.actionable_state),
        None => None,
    };
    match selected {
        Some(selected) => {
            let action = send_acceptance(&descriptor, selected.response_id.as_str(), context, None);
            (Phase::Accepting { descriptor, attempt: 1, selected }, action)
        },
        None => keep_output(),
    }
}

fn on_acceptance(
    descriptor: ReducerDescriptor,
    attempt: u32,
    selected: SelectedReplacement,
    reply: AcceptanceReply,
    deadline: u64,
    context: &ReductionContext,
) -> (step: (Phase, Action))
    ensures
        (step.0@, step.1@) == after_acceptance(
            descriptor@,
            attempt as int,
            items::item_views(selected.replacement@),
            selected.response_id@,
            reply,
            deadline as int,
            context@,
        ),
{
    match reducer::acceptance_retry(attempt, reply, deadline) {
        Some(retry_at) => {
            let action = send_acceptance(&descriptor, selected.response_id.as_str(), context, Some(retry_at));
            (Phase::Accepting { descriptor, attempt: attempt + 1, selected }, action)
        },
        None => (Phase::Finished { replacement: Some(selected.replacement) }, Action::Finish),
    }
}

/// Goes on with a reduction after an event.
pub fn advance(
    phase: Phase,
    event: Event,
    config: &CodeModeOutputReducerConfig,
    context: &ReductionContext,
    max_output_tokens: usize,
) -> (step: (Phase, Action))
    ensures
        (step.0@, step.1@) == next_step(phase@, event@, *config, context@, max_output_tokens as int),
{
    match phase {
        Phase::AwaitingDescriptor { content_items } => match event {
            Event::DescriptorRead(wire) => on_descriptor(wire, config, context, max_output_tokens, &content_items),
            _ => keep_output(),
        },
        Phase::AwaitingResponse { descriptor } => match event {
            Event::ResponseStarted { success, content_length } => {
                if transfer::admit_response(success, content_length, config.max_response_bytes) {
                    let body: Vec<u8> = Vec::new();
                    assert(body@ =~= Seq::<u8>::empty());
                    (Phase::ReadingBody { descriptor, body }, Action::ReadChunk)
                } else {
                    keep_output()
                }
            },
            _ => keep_output(),
        },
        Phase::ReadingBody { descriptor, body } => match event {
            Event::ChunkRead(chunk) => {
                let mut body = body;
                if transfer::accept_chunk(&mut body, chunk.as_slice(), config.max_response_bytes) {
                    (Phase::ReadingBody { descriptor, body }, Action::ReadChunk)
                } else {
                    keep_output()
                }
            },
            Event::BodyEnded => (Phase::AwaitingParse { descriptor }, Action::ParseBody { body }),
            _ => keep_output(),
        },
        Phase::AwaitingParse { descriptor } => match event {
            Event::BodyParsed(response) => on_response(descriptor, response, context),
            _ => keep_output(),
        },
        Phase::Accepting { descriptor, attempt, selected } => match event {
            Event::AcceptanceAttempted { reply, deadline } => on_acceptance(
                descriptor,
                attempt,
                selected,
                reply,
                deadline,
                context,
            ),
            _ => (Phase::Finished { replacement: Some(selected.replacement) }, Action::Finish),
        },
        Phase::Finished { replacement } => (Phase::Finished { replacement }, Action::Finish),
    }
}

/// The reply that a finished reduction stands for.
pub fn reply_of(replacement: Option<Vec<FunctionCallOutputContentItem>>) -> (reply: reducer::ReducerReply)
    ensures
        match replacement {
            Some(replacement) => reply == reducer::ReducerReply::Replacement(replacement),
            None => reply is NoReplacement,
        },
{
    match replacement {
        Some(replacement) => reducer::ReducerReply::Replacement(replacement),
        None => reducer::ReducerReply::NoReplacement,
    }
}

/// The replacement that a phase is committed to.
pub open spec fn commitment(phase: PhaseView) -> Option<Seq<ItemView>> {
    match phase {
        PhaseView::Accepting { replacement, .. } => Some(replacement),
        PhaseView::Finished { replacement } => replacement,
        _ => None,
    }
}

/// The phase after several events, whatever the host does in between.
pub open spec fn run(
    phase: PhaseView,
    events: Seq<EventView>,
    config: CodeModeOutputReducerConfig,
    c: ContextView,
    max_output_tokens: int,
) -> PhaseView
    decreases events.len(),
{
    if events.len() == 0 {
        phase
    } else {
        next_step(
            run(phase, events.drop_last(), config, c, max_output_tokens),
            events.last(),
            config,
            c,
            max_output_tokens,
        ).0
    }
}

/// Whether an event is a response that selects this replacement.
pub open spec fn selects(event: EventView, replacement: Seq<ItemView>, c: ContextView) -> bool {
    event matches EventView::BodyParsed(Some(response)) && exists|id: Seq<char>|
        reducer::selection(response, c.actionable_state) == Some((replacement, id))
}

/// Reduction fails open: a reduction ends with a replacement only if a response selected exactly
/// that replacement, so a missing descriptor, a refused or late request, an oversized, malformed
/// or empty response, and a lost or conflicting echo all leave the output as it is.
pub proof fn law_reduction_fails_open(
    output: Seq<ItemView>,
    events: Seq<EventView>,
    config: CodeModeOutputReducerConfig,
    c: ContextView,
    max_output_tokens: int,
)
    ensures
        commitment(run(first_step(config, output).0, events, config, c, max_output_tokens)) matches Some(
            replacement,
        ) ==> exists|i: int| 0 <= i < events.len() && #[trigger] selects(events[i], replacement, c),
    decreases events.len(),
{
    if events.len() > 0 {
        let first = first_step(config, output).0;
        let before = run(first, events.drop_last(), config, c, max_output_tokens);
        law_reduction_fails_open(output, events.drop_last(), config, c, max_output_tokens);
        let after = run(first, events, config, c, max_output_tokens);
        if let Some(replacement) = commitment(after) {
            if commitment(before) is Some {
                assert(commitment(before) == Some(replacement));
                let i = choose|i: int|
                    0 <= i < events.drop_last().len() && #[trigger] selects(events.drop_last()[i], replacement, c);
                assert(selects(events[i], replacement, c));
            } else {
                let response = events.last()->BodyParsed_0->0;
                let selected = reducer::selection(response, c.actionable_state)->0;
                assert(reducer::selection(response, c.actionable_state) == Some((replacement, selected.1)));
                assert(selects(events[events.len() - 1], replacement, c));
            }
        }
    }
}

/// What is sent is the output that was measured: whenever a reduction sends a request, the output is
/// within the size limits, the descriptor that was just read is good, and the request goes to its
/// address and holds exactly that output, within the limit on requests.
pub proof fn law_the_request_carries_the_admitted_output(
    output: Seq<ItemView>,
    events: Seq<EventView>,
    event: EventView,
    config: CodeModeOutputReducerConfig,
    c: ContextView,
    max_output_tokens: int,
)
    ensures
        ({
            let phase = run(first_step(config, output).0, events, config, c, max_output_tokens);
            next_step(phase, event, config, c, max_output_tokens).1 matches ActionView::SendRequest {
                url,
                token,
                body,
            } ==> {
                let request = request_text(
                    config,
                    c,
                    max_output_tokens,
                    items::wire_items(output),
                    reducer::REDUCER_PROTOCOL_VERSION as int,
                );
                &&& reducer::is_reducible(config, output)
                &&& events.len() == 0
                &&& event matches EventView::DescriptorRead(Some(wire)) && (reducer::checked_descriptor(
                    wire,
                ) matches Some(descriptor) && descriptor.url == url && descriptor.token == token)
                &&& body == encode_utf8(request)
                &&& text::byte_len(request) <= config.max_request_bytes
            }
        }),
{
    lemma_descriptor_is_read_first(output, events, config, c, max_output_tokens);
}

proof fn lemma_descriptor_is_read_first(
    output: Seq<ItemView>,
    events: Seq<EventView>,
    config: CodeModeOutputReducerConfig,
    c: ContextView,
    max_output_tokens: int,
)
    ensures
        ({
            let phase = run(first_step(config, output).0, events, config, c, max_output_tokens);
            &&& events.len() == 0 ==> phase == first_step(config, output).0
            &&& events.len() > 0 ==> !(phase is AwaitingDescriptor)
        }),
    decreases events.len(),
{
    if events.len() > 0 {
        lemma_descriptor_is_read_first(output, events.drop_last(), config, c, max_output_tokens);
    }
}

/// Once a replacement is selected, nothing revokes or changes it: not the outcome of an
/// acceptance attempt, nor a timeout, nor any other event.
pub proof fn law_acceptance_cannot_revoke_a_replacement(
    phase: PhaseView,
    events: Seq<EventView>,
    config: CodeModeOutputReducerConfig,
    c: ContextView,
    max_output_tokens: int,
)
    requires
        commitment(phase) is Some,
    ensures
        commitment(run(phase, events, config, c, max_output_tokens)) == commitment(phase),
    decreases events.len(),
{
    if events.len() > 0 {
        law_acceptance_cannot_revoke_a_replacement(
            phase,
            events.drop_last(),
            config,
            c,
            max_output_tokens,
        );
    }
}

/// An acceptance is attempted no more often than the protocol allows: a reduction that has just
/// selected a replacement is over after as many attempts, whatever came of them.
pub proof fn law_acceptance_attempts_are_bounded(
    descriptor: DescriptorView,
    replacement: Seq<ItemView>,
    response_id: Seq<char>,
    events: Seq<EventView>,
    config: CodeModeOutputReducerConfig,
    c: ContextView,
    max_output_tokens: int,
)
    ensures
        ({
            let first = PhaseView::Accepting { descriptor, attempt: 1, replacement, response_id };
            let after = run(first, events, config, c, max_output_tokens);
            &&& events.len() >= reducer::ACCEPTANCE_MAX_ATTEMPTS ==> after == (PhaseView::Finished {
                replacement: Some(replacement),
            })
            &&& after matches PhaseView::Accepting { attempt, .. } ==> attempt == events.len() + 1 && attempt
                <= reducer::ACCEPTANCE_MAX_ATTEMPTS
        }),
    decreases events.len(),
{
    let first = PhaseView::Accepting { descriptor, attempt: 1, replacement, response_id };
    law_acceptance_cannot_revoke_a_replacement(first, events, config, c, max_output_tokens);
    if events.len() > 0 {
        let rest = events.drop_last();
        law_acceptance_attempts_are_bounded(
            descriptor,
            replacement,
            response_id,
            rest,
            config,
            c,
            max_output_tokens,
        );
        let before = run(first, rest, config, c, max_output_tokens);
        law_acceptance_cannot_revoke_a_replacement(first, rest, config, c, max_output_tokens);
        assert(before is Accepting || before is Finished) by {
            lemma_committed_phases(first, rest, config, c, max_output_tokens);
        }
        lemma_committed_phases(first, events, config, c, max_output_tokens);
    }
}

proof fn lemma_committed_phases(
    phase: PhaseView,
    events: Seq<EventView>,
    config: CodeModeOutputReducerConfig,
    c: ContextView,
    max_output_tokens: int,
)
    requires
        phase is Accepting || phase is Finished,
    ensures
        ({
            let after = run(phase, events, config, c, max_output_tokens);
            after is Accepting || after is Finished
        }),
    decreases events.len(),
{
    if events.len() > 0 {
        lemma_committed_phases(phase, events.drop_last(), config, c, max_output_tokens);
    }
}

/// The events in which a response's body arrives in these chunks.
pub open spec fn chunk_events(chunks: Seq<Seq<u8>>) -> Seq<EventView> {
    chunks.map_values(|chunk: Seq<u8>| EventView::ChunkRead(chunk))
}

proof fn lemma_reading(
    descriptor: DescriptorView,
    chunks: Seq<Seq<u8>>,
    config: CodeModeOutputReducerConfig,
    c: ContextView,
    max_output_tokens: int,
)
    ensures
        run(
            PhaseView::ReadingBody { descriptor, body: Seq::empty() },
            chunk_events(chunks),
            config,
            c,
            max_output_tokens,
        ) == (if chunks.flatten().len() <= config.max_response_bytes {
            PhaseView::ReadingBody { descriptor, body: chunks.flatten() }
        } else {
            PhaseView::Finished { replacement: None }
        }),
    decreases chunks.len(),
{
    chunks.lemma_flatten_and_flatten_alt_are_equivalent();
    if chunks.len() > 0 {
        let before = chunks.drop_last();
        lemma_reading(descriptor, before, config, c, max_output_tokens);
        before.lemma_flatten_and_flatten_alt_are_equivalent();
        assert(chunk_events(chunks).drop_last() =~= chunk_events(before));
        assert(chunks.flatten() == before.flatten() + chunks.last());
    } else {
        assert(chunks.flatten() =~= Seq::<u8>::empty());
    }
}

/// What is parsed is the whole response: however it arrives, the body to parse is all of its chunks,
/// one after the other, and a response is parsed exactly where its status is a success and neither
/// its announced length nor its chunks together exceed the limit.
pub proof fn law_the_parsed_body_is_the_whole_response(
    descriptor: DescriptorView,
    success: bool,
    content_length: Option<int>,
    chunks: Seq<Seq<u8>>,
    config: CodeModeOutputReducerConfig,
    c: ContextView,
    max_output_tokens: int,
)
    ensures
        ({
            let started = next_step(
                PhaseView::AwaitingResponse { descriptor },
                EventView::ResponseStarted { success, content_length },
                config,
                c,
                max_output_tokens,
            ).0;
            let read = run(started, chunk_events(chunks), config, c, max_output_tokens);
            let ended = next_step(read, EventView::BodyEnded, config, c, max_output_tokens);
            let limit = config.max_response_bytes;
            if success && (content_length matches Some(n) ==> n <= limit) && chunks.flatten().len() <= limit {
                &&& ended.0 == PhaseView::AwaitingParse { descriptor }
                &&& ended.1 == (ActionView::ParseBody { body: chunks.flatten() })
            } else {
                &&& ended.0 == (PhaseView::Finished { replacement: None })
                &&& ended.1 == ActionView::Finish
            }
        }),
{
    lemma_reading(descriptor, chunks, config, c, max_output_tokens);
    let started = next_step(
        PhaseView::AwaitingResponse { descriptor },
        EventView::ResponseStarted { success, content_length },
        config,
        c,
        max_output_tokens,
    ).0;
    if started is Finished {
        lemma_finished_stays(None, chunk_events(chunks), config, c, max_output_tokens);
    }
}

proof fn lemma_finished_stays(
    replacement: Option<Seq<ItemView>>,
    events: Seq<EventView>,
    config: CodeModeOutputReducerConfig,
    c: ContextView,
    max_output_tokens: int,
)
    ensures
        run(PhaseView::Finished { replacement }, events, config, c, max_output_tokens) == (PhaseView::Finished {
            replacement,
        }),
    decreases events.len(),
{
    if events.len() > 0 {
        lemma_finished_stays(replacement, events.drop_last(), config, c, max_output_tokens);
    }
}

/// How a response is cut into chunks changes nothing: two cuts of the same bytes lead to the same
/// phase and to the same body to parse.
pub proof fn law_chunking_does_not_matter(
    descriptor: DescriptorView,
    chunks: Seq<Seq<u8>>,
    other: Seq<Seq<u8>>,
    config: CodeModeOutputReducerConfig,
    c: ContextView,
    max_output_tokens: int,
)
    requires
        chunks.flatten() == other.flatten(),
    ensures
        ({
            let start = PhaseView::ReadingBody { descriptor, body: Seq::empty() };
            let one = run(start, chunk_events(chunks), config, c, max_output_tokens);
            let two = run(start, chunk_events(other), config, c, max_output_tokens);
            next_step(one, EventView::BodyEnded, config, c, max_output_tokens) == next_step(
                two,
                EventView::BodyEnded,
                config,
                c,
                max_output_tokens,
            )
        }),
{
    lemma_reading(descriptor, chunks, config, c, max_output_tokens);
    lemma_reading(descriptor, other, config, c, max_output_tokens);
}

/// A notification that is delivered with the token as bearer, and which attempt at it comes next.
#[derive(Debug, PartialEq, Eq)]
pub struct AcceptanceDelivery {
    pub url: String,
    pub token: String,
    pub body: String,
    pub attempt: u32,
}

/// The value of an [`AcceptanceDelivery`].
pub struct DeliveryView {
    pub url: Seq<char>,
    pub token: Seq<char>,
    pub body: Seq<char>,
    pub attempt: int,
}

impl View for AcceptanceDelivery {
    type V = DeliveryView;

    open spec fn view(&self) -> DeliveryView {
        DeliveryView { url: self.url@, token: self.token@, body: self.body@, attempt: self.attempt as int }
    }
}

/// The value of an optional delivery.
pub open spec fn delivery_option(d: Option<AcceptanceDelivery>) -> Option<DeliveryView> {
    match d {
        Some(d) => Some(d@),
        None => None,
    }
}

/// The first attempt to notify that a replacement of a direct tool's output was selected; nothing
/// where the descriptor is missing or not good.
pub open spec fn direct_delivery(
    wire: Option<DescriptorView>,
    response_id: Seq<char>,
    session_id: Seq<char>,
    turn_id: Seq<char>,
    tool_use_id: Seq<char>,
) -> Option<DeliveryView> {
    let checked = match wire {
        Some(wire) => reducer::checked_descriptor(wire),
        None => None,
    };
    match checked {
        Some(descriptor) => Some(
            DeliveryView {
                url: descriptor.acceptance_url,
                token: descriptor.token,
                body: json::json_text(
                    reducer::post_tool_use_acceptance_json(
                        reducer::REDUCER_PROTOCOL_VERSION as int,
                        response_id,
                        session_id,
                        turn_id,
                        tool_use_id,
                    ),
                ),
                attempt: 1,
            },
        ),
        None => None,
    }
}

/// Prepares the notification that a replacement of a direct tool's output was selected. It is
/// attempted as long as [`retry_delivery`] gives another attempt, and nothing depends on what comes
/// of it.
pub fn try_accept_post_tool_use(
    wire: Option<ReducerDescriptorWire>,
    context: &PostToolUseAcceptanceContext<'_>,
) -> (delivery: Option<AcceptanceDelivery>)
    ensures
        delivery_option(delivery) == direct_delivery(
            match wire {
                Some(wire) => Some(wire@),
                None => None,
            },
            context.response_id@,
            context.session_id@,
            context.turn_id@,
            context.tool_use_id@,
        ),
{
    let checked = match wire {
        Some(wire) => reducer::check_descriptor(wire),
        None => None,
    };
    match checked {
        Some(descriptor) => {
            let body = reducer::post_tool_use_acceptance(reducer::REDUCER_PROTOCOL_VERSION, context).to_text();
            Some(
                AcceptanceDelivery { url: descriptor.acceptance_url, token: descriptor.token, body, attempt: 1 },
            )
        },
        None => None,
    }
}

/// The next attempt after one came to this, and the time before which it is not made; nothing where
/// there is none.
pub open spec fn next_delivery(delivery: DeliveryView, reply: AcceptanceReply, deadline: int) -> Option<
    (DeliveryView, int),
> {
    match reducer::retry_time(delivery.attempt, reply, deadline) {
        Some(t) => Some((DeliveryView { attempt: delivery.attempt + 1, ..delivery }, t)),
        None => None,
    }
}

/// The next attempt at a notification after one came to this.
pub fn retry_delivery(
    delivery: AcceptanceDelivery,
    reply: AcceptanceReply,
    deadline: u64,
) -> (next: Option<(AcceptanceDelivery, u64)>)
    ensures
        (match next {
            Some((next, not_before)) => Some((next@, not_before as int)),
            None => None,
        }) == next_delivery(delivery@, reply, deadline as int),
{
    match reducer::acceptance_retry(delivery.attempt, reply, deadline) {
        Some(retry_at) => Some(
            (
                AcceptanceDelivery {
                    url: delivery.url,
                    token: delivery.token,
                    body: delivery.body,
                    attempt: delivery.attempt + 1,
                },
                retry_at,
            ),
        ),
        None => None,
    }
}

/// The attempt that follows several that came to these; nothing once there is none.
pub open spec fn deliveries(first: DeliveryView, replies: Seq<(AcceptanceReply, int)>) -> Option<DeliveryView>
    decreases replies.len(),
{
    if replies.len() == 0 {
        Some(first)
    } else {
        match deliveries(first, replies.drop_last()) {
            Some(delivery) => match next_delivery(delivery, replies.last().0, replies.last().1) {
                Some((next, _)) => Some(next),
                None => None,
            },
            None => None,
        }
    }
}

/// A direct tool's acceptance is attempted no more often than the protocol allows, whatever came of
/// the attempts, and each attempt delivers the same.
pub proof fn law_direct_acceptance_attempts_are_bounded(
    first: DeliveryView,
    replies: Seq<(AcceptanceReply, int)>,
)
    requires
        first.attempt == 1,
    ensures
        replies.len() >= reducer::ACCEPTANCE_MAX_ATTEMPTS ==> deliveries(first, replies) is None,
        deliveries(first, replies) matches Some(delivery) ==> {
            &&& delivery == (DeliveryView { attempt: replies.len() as int + 1, ..first })
            &&& delivery.attempt <= reducer::ACCEPTANCE_MAX_ATTEMPTS
        },
    decreases replies.len(),
{
    if replies.len() > 0 {
        law_direct_acceptance_attempts_are_bounded(first, replies.drop_last());
    }
}

/// A reduction starts by reading the descriptor, exactly where the output is within the size limits, and
/// it remembers the output's items as they are sent.
pub proof fn law_a_reduction_starts_with_the_descriptor(config: CodeModeOutputReducerConfig, output: Seq<ItemView>)
    requires
        items::source_bytes(output) <= usize::MAX,
    ensures
        ({
            let within = config.min_trigger_bytes <= items::source_bytes(output) <= config.max_request_bytes;
            let first = first_step(config, output);
            &&& within ==> first.0 == (PhaseView::AwaitingDescriptor { content_items: items::wire_items(output) })
                && first.1 == ActionView::ReadDescriptor
            &&& !within ==> first.0 == (PhaseView::Finished { replacement: None }) && first.1 == ActionView::Finish
        }),
{
}

/// With a good descriptor and a request within its limit the request goes out: to the descriptor's
/// address, with its token, and with the items that were admitted.
pub proof fn law_a_good_descriptor_is_called(
    wire: DescriptorView,
    config: CodeModeOutputReducerConfig,
    c: ContextView,
    max_output_tokens: int,
    content_items: Seq<JsonView>,
)
    ensures
        ({
            let step = next_step(
                PhaseView::AwaitingDescriptor { content_items },
                EventView::DescriptorRead(Some(wire)),
                config,
                c,
                max_output_tokens,
            );
            let request = reducer::request_json(
                1,
                c,
                reducer::reported_overhead(config),
                max_output_tokens,
                content_items,
            );
            let taken = reducer::checked_descriptor(wire);
            let goes_out = taken is Some && encode_utf8(json::json_text(request)).len() <= config.max_request_bytes;
            &&& goes_out ==> step.0 == (PhaseView::AwaitingResponse { descriptor: taken->0 }) && step.1
                == (ActionView::SendRequest {
                url: taken->0.url,
                token: wire.token,
                body: encode_utf8(json::json_text(request)),
            })
            &&& !goes_out ==> step.0 == (PhaseView::Finished { replacement: None }) && step.1 == ActionView::Finish
        }),
{
    reducer::law_a_descriptor_is_taken_as_a_whole(wire);
}

/// What a response selects is accepted before it stands: the acceptance goes to the descriptor's
/// acceptance address, with its token, names the response and the cell, and is sent at once. A response
/// that selects nothing ends the reduction.
pub proof fn law_a_selection_is_accepted(
    descriptor: DescriptorView,
    response: ResponseView,
    config: CodeModeOutputReducerConfig,
    c: ContextView,
    max_output_tokens: int,
)
    ensures
        ({
            let step = next_step(
                PhaseView::AwaitingParse { descriptor },
                EventView::BodyParsed(Some(response)),
                config,
                c,
                max_output_tokens,
            );
            match reducer::selection(response, c.actionable_state) {
                Some((replacement, response_id)) => {
                    &&& step.0 == (PhaseView::Accepting { descriptor, attempt: 1, replacement, response_id })
                    &&& step.1 == (ActionView::SendAcceptance {
                        url: descriptor.acceptance_url,
                        token: descriptor.token,
                        body: json::json_text(reducer::acceptance_json(response_id, c)),
                        not_before: None,
                    })
                },
                None => step.0 == (PhaseView::Finished { replacement: None }) && step.1 == ActionView::Finish,
            }
        }),
{
}

/// A refused acceptance is sent once more, the same as before and not before fifty milliseconds have
/// passed, where the deadline allows it. Any other outcome ends the reduction, and either way the
/// replacement stands.
pub proof fn law_a_refused_acceptance_is_sent_again(
    descriptor: DescriptorView,
    replacement: Seq<ItemView>,
    response_id: Seq<char>,
    attempt: int,
    reply: AcceptanceReply,
    deadline: int,
    config: CodeModeOutputReducerConfig,
    c: ContextView,
    max_output_tokens: int,
)
    ensures
        ({
            let step = next_step(
                PhaseView::Accepting { descriptor, attempt, replacement, response_id },
                EventView::AcceptanceAttempted { reply, deadline },
                config,
                c,
                max_output_tokens,
            );
            let again = attempt <= 1 && reply is Refused && reply->now + 50_000_000 < deadline;
            &&& again ==> step.0 == (PhaseView::Accepting {
                descriptor,
                attempt: attempt + 1,
                replacement,
                response_id,
            }) && step.1 == (ActionView::SendAcceptance {
                url: descriptor.acceptance_url,
                token: descriptor.token,
                body: json::json_text(reducer::acceptance_json(response_id, c)),
                not_before: Some(reply->now + 50_000_000),
            })
            &&& !again ==> step.0 == (PhaseView::Finished { replacement: Some(replacement) }) && step.1
                == ActionView::Finish
        }),
{
}

/// A failure or a timeout ends a reduction at once, with what was selected by then: nothing before a
/// response selected something.
pub proof fn law_a_failure_ends_with_what_was_selected(
    phase: PhaseView,
    config: CodeModeOutputReducerConfig,
    c: ContextView,
    max_output_tokens: int,
)
    ensures
        ({
            let selected = match phase {
                PhaseView::Accepting { replacement, .. } => Some(replacement),
                PhaseView::Finished { replacement } => replacement,
                _ => None,
            };
            let over = (PhaseView::Finished { replacement: selected }, ActionView::Finish);
            &&& next_step(phase, EventView::TransportFailed, config, c, max_output_tokens) == over
            &&& next_step(phase, EventView::TimedOut, config, c, max_output_tokens) == over
        }),
{
}

/// A direct tool's acceptance goes out exactly where the descriptor is good: to its acceptance address,
/// with its token, and with the response, the session, the turn and the tool call under their keys.
pub proof fn law_a_direct_acceptance_goes_to_the_host(
    wire: DescriptorView,
    response_id: Seq<char>,
    session_id: Seq<char>,
    turn_id: Seq<char>,
    tool_use_id: Seq<char>,
)
    ensures
        direct_delivery(None, response_id, session_id, turn_id, tool_use_id) is None,
        ({
            let delivery = direct_delivery(Some(wire), response_id, session_id, turn_id, tool_use_id);
            &&& delivery is Some <==> reducer::checked_descriptor(wire) is Some
            &&& delivery matches Some(d) ==> {
                &&& d.url == reducer::checked_descriptor(wire)->0.acceptance_url
                &&& d.token == wire.token
                &&& d.attempt == 1
                &&& d.body == json::json_text(
                    reducer::post_tool_use_acceptance_json(1, response_id, session_id, turn_id, tool_use_id),
                )
            }
        }),
{
    reducer::law_a_descriptor_is_taken_as_a_whole(wire);
}

} // verus!
