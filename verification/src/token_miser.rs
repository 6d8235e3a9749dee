//! Exact outputs kept outside model-visible history.
//!
//! The exact output of a finished cell is stored under an identity before anything of it is shown.
//! What is shown is decided once per cell, and the exact output is read and searched in bounded
//! pieces by the thread that owns it.
use vstd::prelude::*;
use vstd::utf8::*;

use crate::assoc::{Assoc, MapKey};
use crate::context;
use crate::context::{ContextualUserFragment, TokenMiserReceipt};
use crate::identity;
use crate::items;
use crate::items::{FunctionCallOutputContentItem, ItemView};
use crate::json;
use crate::json::{Json, JsonView, Member};
use crate::reducer;
use crate::reducer::{ContextView, ReductionContext, TruncationStyle};
use crate::text;

verus! {

/// Version of stored outputs and decisions.
pub const TOKEN_MISER_VERSION: u32 = 1;

/// The largest piece that one read returns, and the largest search result.
pub const MAX_READ_BYTES: usize = 8192;

/// The largest query of a search.
pub const MAX_SEARCH_QUERY_BYTES: usize = 256;

/// The largest number of matches that a search returns.
pub const MAX_SEARCH_RESULTS: usize = 20;

/// The largest part of a line that a match shows.
pub const MAX_SEARCH_SNIPPET_BYTES: usize = 512;

/// The largest serialized frame of the script host.
pub const MAX_FRAME_BYTES: usize = 67108864;

/// The largest source of a stored output, which leaves room for escaping within a frame.
pub const MAX_PERSISTED_OUTPUT_SOURCE_BYTES: usize = 8388608;

/// The largest number of items of a stored output.
pub const MAX_PERSISTED_OUTPUT_ITEMS: usize = 1024;

/// An exact output with what it belongs to.
#[derive(Debug, PartialEq, Eq)]
pub struct TokenMiserOutput {
    pub version: u32,
    pub object_id: String,
    pub thread_id: String,
    pub turn_id: String,
    pub call_id: String,
    pub cell_id: String,
    pub script_status: String,
    pub success: Option<bool>,
    pub content_items: Vec<FunctionCallOutputContentItem>,
}

/// The value of a [`TokenMiserOutput`].
pub struct OutputView {
    pub version: int,
    pub object_id: Seq<char>,
    pub thread_id: Seq<char>,
    pub turn_id: Seq<char>,
    pub call_id: Seq<char>,
    pub cell_id: Seq<char>,
    pub script_status: Seq<char>,
    pub success: Option<bool>,
    pub content_items: Seq<ItemView>,
}

impl View for TokenMiserOutput {
    type V = OutputView;

    open spec fn view(&self) -> OutputView {
        OutputView {
            version: self.version as int,
            object_id: self.object_id@,
            thread_id: self.thread_id@,
            turn_id: self.turn_id@,
            call_id: self.call_id@,
            cell_id: self.cell_id@,
            script_status: self.script_status@,
            success: self.success,
            content_items: items::item_views(self.content_items@),
        }
    }
}

impl Clone for TokenMiserOutput {
    fn clone(&self) -> (copy: Self)
        ensures
            copy@ == self@,
    {
        let copy = TokenMiserOutput {
            version: self.version,
            object_id: self.object_id.clone(),
            thread_id: self.thread_id.clone(),
            turn_id: self.turn_id.clone(),
            call_id: self.call_id.clone(),
            cell_id: self.cell_id.clone(),
            script_status: self.script_status.clone(),
            success: self.success,
            content_items: self.content_items.clone(),
        };
        assert(copy.content_items@ =~= self.content_items@);
        copy
    }
}

/// What is shown of an output.
#[derive(Debug, PartialEq, Eq)]
pub enum TokenMiserDecision {
    /// The output itself.
    Passthrough,
    /// Another text in its place.
    Replace(String),
    /// Nothing, for this reason.
    Hide(String),
}

/// The value of a decision.
pub enum DecisionView {
    Passthrough,
    Replace(Seq<char>),
    Hide(Seq<char>),
}

impl View for TokenMiserDecision {
    type V = DecisionView;

    open spec fn view(&self) -> DecisionView {
        match self {
            TokenMiserDecision::Passthrough => DecisionView::Passthrough,
            TokenMiserDecision::Replace(t) => DecisionView::Replace(t@),
            TokenMiserDecision::Hide(t) => DecisionView::Hide(t@),
        }
    }
}

impl Clone for TokenMiserDecision {
    fn clone(&self) -> (copy: Self)
        ensures
            copy == *self,
    {
        match self {
            TokenMiserDecision::Passthrough => TokenMiserDecision::Passthrough,
            TokenMiserDecision::Replace(t) => TokenMiserDecision::Replace(t.clone()),
            TokenMiserDecision::Hide(t) => TokenMiserDecision::Hide(t.clone()),
        }
    }
}

/// A decision as it is stored.
#[derive(Debug, PartialEq, Eq)]
pub enum TokenMiserStoredOutcome {
    Passthrough,
    Replace { replacement: String },
    Hide { reason: String },
}

/// The decision that a stored outcome stands for.
pub open spec fn stored_decision(outcome: TokenMiserStoredOutcome) -> DecisionView {
    match outcome {
        TokenMiserStoredOutcome::Passthrough => DecisionView::Passthrough,
        TokenMiserStoredOutcome::Replace { replacement } => DecisionView::Replace(replacement@),
        TokenMiserStoredOutcome::Hide { reason } => DecisionView::Hide(reason@),
    }
}

/// A decision as it is stored. Reading it back gives the same decision.
pub fn decision_to_stored(decision: &TokenMiserDecision) -> (outcome: TokenMiserStoredOutcome)
    ensures
        stored_decision(outcome) == decision@,
{
    match decision {
        TokenMiserDecision::Passthrough => TokenMiserStoredOutcome::Passthrough,
        TokenMiserDecision::Replace(replacement) => TokenMiserStoredOutcome::Replace {
            replacement: replacement.clone(),
        },
        TokenMiserDecision::Hide(reason) => TokenMiserStoredOutcome::Hide { reason: reason.clone() },
    }
}

/// The decision that a stored outcome stands for.
pub fn decision_from_stored(outcome: &TokenMiserStoredOutcome) -> (decision: TokenMiserDecision)
    ensures
        decision@ == stored_decision(*outcome),
{
    match outcome {
        TokenMiserStoredOutcome::Passthrough => TokenMiserDecision::Passthrough,
        TokenMiserStoredOutcome::Replace { replacement } => TokenMiserDecision::Replace(replacement.clone()),
        TokenMiserStoredOutcome::Hide { reason } => TokenMiserDecision::Hide(reason.clone()),
    }
}

/// What a reduction cost.
#[derive(Debug, Clone, Copy, PartialEq, Eq, Structural)]
pub struct TokenUsage {
    pub input_tokens: i64,
    pub cached_input_tokens: i64,
    pub cache_write_input_tokens: i64,
    pub output_tokens: i64,
    pub reasoning_output_tokens: i64,
    pub total_tokens: i64,
}

/// A decision with what it belongs to.
#[derive(Debug, PartialEq, Eq)]
pub struct TokenMiserDecisionRecord {
    pub version: u32,
    pub object_id: String,
    pub thread_id: String,
    pub turn_id: String,
    pub call_id: String,
    pub cell_id: String,
    pub outcome: TokenMiserStoredOutcome,
    pub usage: Option<TokenUsage>,
}

/// The record of a decision on an output.
pub fn decision_record(
    raw: &TokenMiserOutput,
    decision: &TokenMiserDecision,
    usage: Option<TokenUsage>,
) -> (record: TokenMiserDecisionRecord)
    ensures
        record.version == TOKEN_MISER_VERSION,
        record.object_id@ == raw.object_id@,
        record.thread_id@ == raw.thread_id@,
        record.turn_id@ == raw.turn_id@,
        record.call_id@ == raw.call_id@,
        record.cell_id@ == raw.cell_id@,
        stored_decision(record.outcome) == decision@,
        record.usage == usage,
{
    TokenMiserDecisionRecord {
        version: TOKEN_MISER_VERSION,
        object_id: raw.object_id.clone(),
        thread_id: raw.thread_id.clone(),
        turn_id: raw.turn_id.clone(),
        call_id: raw.call_id.clone(),
        cell_id: raw.cell_id.clone(),
        outcome: decision_to_stored(decision),
        usage,
    }
}

/// An item of a stored history.
#[derive(Debug)]
pub enum RolloutItem {
    TokenMiserOutput(TokenMiserOutput),
    TokenMiserDecision(TokenMiserDecisionRecord),
    Other,
}

/// The call that an output belongs to.
#[derive(Debug, PartialEq, Eq)]
pub struct TerminalKey {
    pub turn_id: String,
    pub call_id: String,
    pub cell_id: String,
}

impl MapKey for TerminalKey {
    type Name = (Seq<char>, Seq<char>, Seq<char>);

    open spec fn name(&self) -> (Seq<char>, Seq<char>, Seq<char>) {
        (self.turn_id@, self.call_id@, self.cell_id@)
    }

    fn same_key(&self, other: &Self) -> (yes: bool) {
        text::same_text(self.turn_id.as_str(), other.turn_id.as_str()) && text::same_text(
            self.call_id.as_str(),
            other.call_id.as_str(),
        ) && text::same_text(self.cell_id.as_str(), other.cell_id.as_str())
    }
}

/// The call that an output belongs to.
pub open spec fn key_of(output: OutputView) -> (Seq<char>, Seq<char>, Seq<char>) {
    (output.turn_id, output.call_id, output.cell_id)
}

/// The call that an output belongs to.
pub fn terminal_key(output: &TokenMiserOutput) -> (key: TerminalKey)
    ensures
        key.name() == key_of(output@),
{
    TerminalKey {
        turn_id: output.turn_id.clone(),
        call_id: output.call_id.clone(),
        cell_id: output.cell_id.clone(),
    }
}

/// The bytes of several texts together.
pub open spec fn texts_bytes(texts: Seq<&str>) -> nat
    decreases texts.len(),
{
    if texts.len() == 0 {
        0
    } else {
        texts_bytes(texts.drop_last()) + text::byte_len(texts.last()@)
    }
}

/// Whether an output with this metadata fits into so many items and so many bytes of source.
pub fn output_fits_storage_bound(
    metadata: &[&str],
    content_items: &Vec<FunctionCallOutputContentItem>,
    max_items: usize,
    max_source_bytes: usize,
) -> (fits: bool)
    ensures
        fits == (content_items@.len() <= max_items && texts_bytes(metadata@) + items::source_bytes(
            items::item_views(content_items@),
        ) <= max_source_bytes),
{
    if content_items.len() > max_items {
        return false;
    }
    let ghost views = items::item_views(content_items@);
    let mut total: usize = 0;
    let mut i: usize = 0;
    while i < metadata.len()
        invariant
            i <= metadata@.len(),
            total == texts_bytes(metadata@.take(i as int)),
        decreases metadata@.len() - i,
    {
        assert(metadata@.take(i as int + 1).drop_last() =~= metadata@.take(i as int));
        let bytes: usize = text::byte_count(metadata[i]);
        match total.checked_add(bytes) {
            Some(sum) => {
                total = sum;
            },
            None => {
                proof {
                    lemma_texts_bytes_take(metadata@, i as int + 1);
                }
                return false;
            },
        }
        i = i + 1;
    }
    assert(metadata@.take(i as int) =~= metadata@);
    let mut k: usize = 0;
    assert(views.take(0) =~= Seq::<ItemView>::empty());
    while k < content_items.len()
        invariant
            k <= content_items@.len(),
            views == items::item_views(content_items@),
            total == texts_bytes(metadata@) + items::source_bytes(views.take(k as int)),
        decreases content_items@.len() - k,
    {
        assert(views.take(k as int + 1).drop_last() =~= views.take(k as int));
        let bytes: usize = text::byte_count(items::item_source(&content_items[k]).1);
        match total.checked_add(bytes) {
            Some(sum) => {
                total = sum;
            },
            None => {
                proof {
                    items::lemma_source_bytes_take(views, k as int + 1);
                }
                return false;
            },
        }
        k = k + 1;
    }
    assert(views.take(k as int) =~= views);
    total <= max_source_bytes
}

proof fn lemma_texts_bytes_take(texts: Seq<&str>, n: int)
    requires
        0 <= n <= texts.len(),
    ensures
        texts_bytes(texts.take(n)) <= texts_bytes(texts),
    decreases texts.len() - n,
{
    if n < texts.len() {
        lemma_texts_bytes_take(texts, n + 1);
        assert(texts.take(n + 1).drop_last() =~= texts.take(n));
    } else {
        assert(texts.take(n) =~= texts);
    }
}

/// Whether an output of this value may be stored.
pub open spec fn is_storable(
    turn_id: Seq<char>,
    call_id: Seq<char>,
    cell_id: Seq<char>,
    script_status: Seq<char>,
    content_items: Seq<ItemView>,
) -> bool {
    &&& content_items.len() <= MAX_PERSISTED_OUTPUT_ITEMS
    &&& text::byte_len(turn_id) + text::byte_len(call_id) + text::byte_len(cell_id) + text::byte_len(script_status)
        + items::source_bytes(content_items) <= MAX_PERSISTED_OUTPUT_SOURCE_BYTES
}

/// Whether an output may be stored.
pub fn is_output_storable(
    turn_id: &str,
    call_id: &str,
    cell_id: &str,
    script_status: &str,
    content_items: &Vec<FunctionCallOutputContentItem>,
) -> (yes: bool)
    ensures
        yes == is_storable(turn_id@, call_id@, cell_id@, script_status@, items::item_views(content_items@)),
{
    let metadata = [turn_id, call_id, cell_id, script_status];
    proof {
        let all: Seq<&str> = metadata@;
        assert(all.drop_last() =~= seq![turn_id, call_id, cell_id]);
        assert(all.drop_last().drop_last() =~= seq![turn_id, call_id]);
        assert(all.drop_last().drop_last().drop_last() =~= seq![turn_id]);
        assert(all.drop_last().drop_last().drop_last().drop_last() =~= Seq::<&str>::empty());
        reveal_with_fuel(texts_bytes, 5);
    }
    output_fits_storage_bound(
        &metadata,
        content_items,
        MAX_PERSISTED_OUTPUT_ITEMS,
        MAX_PERSISTED_OUTPUT_SOURCE_BYTES,
    )
}

/// What is known of the output of one call: the output, whether it was stored, what is shown of it,
/// and whether a caller is at work on one of these.
#[derive(Debug)]
pub struct OutputState {
    pub raw: TokenMiserOutput,
    pub persistence: Option<bool>,
    pub decision: Option<TokenMiserDecision>,
    pub claimed: bool,
}

/// The value of an [`OutputState`].
pub struct OutputStateView {
    pub raw: OutputView,
    pub persistence: Option<bool>,
    pub decision: Option<DecisionView>,
    pub claimed: bool,
}

impl View for OutputState {
    type V = OutputStateView;

    open spec fn view(&self) -> OutputStateView {
        OutputStateView {
            raw: self.raw@,
            persistence: self.persistence,
            decision: match self.decision {
                Some(decision) => Some(decision@),
                None => None,
            },
            claimed: self.claimed,
        }
    }
}

/// The kept outputs of a session.
#[derive(Debug)]
pub struct TokenMiserService {
    outputs: Assoc<String, TokenMiserOutput>,
    terminal_cells: Assoc<TerminalKey, OutputState>,
    explicit_retrieval_cells: Assoc<String, bool>,
}

/// The value of a [`TokenMiserService`]: the stored outputs by identity, what is known of each
/// call's output, and the cells that asked for exact output.
#[verifier::ext_equal]
pub struct ServiceView {
    pub outputs: Map<Seq<char>, OutputView>,
    pub cells: Map<(Seq<char>, Seq<char>, Seq<char>), OutputStateView>,
    pub retrievals: Set<Seq<char>>,
}

impl View for TokenMiserService {
    type V = ServiceView;

    closed spec fn view(&self) -> ServiceView {
        ServiceView {
            outputs: self.outputs@.map_values(|o: TokenMiserOutput| o@),
            cells: self.terminal_cells@.map_values(|s: OutputState| s@),
            retrievals: self.explicit_retrieval_cells@.dom(),
        }
    }
}

/// The last decision in a history on this output.
pub open spec fn latest_decision(history: Seq<RolloutItem>, object_id: Seq<char>) -> Option<
    TokenMiserDecisionRecord,
>
    decreases history.len(),
{
    if history.len() == 0 {
        None
    } else {
        match history.last() {
            RolloutItem::TokenMiserDecision(record) => if record.object_id@ == object_id {
                Some(record)
            } else {
                latest_decision(history.drop_last(), object_id)
            },
            _ => latest_decision(history.drop_last(), object_id),
        }
    }
}

/// What is shown of a restored output: what the last decision on it says, if that belongs to the
/// same call of the same thread, and otherwise nothing.
pub open spec fn restored_decision(history: Seq<RolloutItem>, raw: OutputView) -> DecisionView {
    match latest_decision(history, raw.object_id) {
        Some(record) => if record.thread_id@ == raw.thread_id && record.turn_id@ == raw.turn_id && record.call_id@
            == raw.call_id && record.cell_id@ == raw.cell_id {
            stored_decision(record.outcome)
        } else {
            DecisionView::Hide("retained; prior reducer decision was unavailable"@)
        },
        None => DecisionView::Hide("retained; prior reducer decision was unavailable"@),
    }
}

/// Whether an output of a history is restored: it belongs to the expected thread, if one is
/// expected, has the current version, a version 4 identity, and may be stored.
pub open spec fn is_restorable(raw: OutputView, expected_thread: Option<Seq<char>>) -> bool {
    &&& expected_thread matches Some(thread) ==> raw.thread_id == thread
    &&& raw.version == TOKEN_MISER_VERSION
    &&& identity::is_v4(raw.object_id)
    &&& is_storable(raw.turn_id, raw.call_id, raw.cell_id, raw.script_status, raw.content_items)
}

/// The outputs that a history restores: the last one under each identity.
pub open spec fn restored_outputs(history: Seq<RolloutItem>, expected_thread: Option<Seq<char>>) -> Map<
    Seq<char>,
    OutputView,
>
    decreases history.len(),
{
    if history.len() == 0 {
        Map::empty()
    } else {
        let before = restored_outputs(history.drop_last(), expected_thread);
        match history.last() {
            RolloutItem::TokenMiserOutput(raw) => if is_restorable(raw@, expected_thread) {
                before.insert(raw.object_id@, raw@)
            } else {
                before
            },
            _ => before,
        }
    }
}

/// The calls that the first part of a history restores: the first output of each, stored and
/// decided.
pub open spec fn restored_cells(
    history: Seq<RolloutItem>,
    part: Seq<RolloutItem>,
    expected_thread: Option<Seq<char>>,
) -> Map<(Seq<char>, Seq<char>, Seq<char>), OutputStateView>
    decreases part.len(),
{
    if part.len() == 0 {
        Map::empty()
    } else {
        let before = restored_cells(history, part.drop_last(), expected_thread);
        match part.last() {
            RolloutItem::TokenMiserOutput(raw) => if is_restorable(raw@, expected_thread) && !before.dom().contains(
                key_of(raw@),
            ) {
                before.insert(
                    key_of(raw@),
                    OutputStateView {
                        raw: raw@,
                        persistence: Some(true),
                        decision: Some(restored_decision(history, raw@)),
                        claimed: false,
                    },
                )
            } else {
                before
            },
            _ => before,
        }
    }
}

fn find_decision(history: &Vec<RolloutItem>, object_id: &str) -> (found: Option<usize>)
    ensures
        match found {
            Some(at) => at < history@.len() && history@[at as int] is TokenMiserDecision && latest_decision(
                history@,
                object_id@,
            ) == Some(history@[at as int]->TokenMiserDecision_0),
            None => latest_decision(history@, object_id@) is None,
        },
{
    let mut i: usize = history.len();
    assert(history@.take(i as int) =~= history@);
    while i > 0
        invariant
            i <= history@.len(),
            latest_decision(history@.take(i as int), object_id@) == latest_decision(history@, object_id@),
        decreases i,
    {
        assert(history@.take(i as int).drop_last() =~= history@.take(i as int - 1));
        assert(history@.take(i as int).last() == history@[i as int - 1]);
        if let RolloutItem::TokenMiserDecision(record) = &history[i - 1] {
            if text::same_text(record.object_id.as_str(), object_id) {
                return Some(i - 1);
            }
        }
        i = i - 1;
    }
    assert(history@.take(0) =~= Seq::<RolloutItem>::empty());
    None
}

fn decide_restored(history: &Vec<RolloutItem>, raw: &TokenMiserOutput) -> (decision: TokenMiserDecision)
    ensures
        decision@ == restored_decision(history@, raw@),
{
    if let Some(at) = find_decision(history, raw.object_id.as_str()) {
        if let RolloutItem::TokenMiserDecision(record) = &history[at] {
            if text::same_text(record.thread_id.as_str(), raw.thread_id.as_str()) && text::same_text(
                record.turn_id.as_str(),
                raw.turn_id.as_str(),
            ) && text::same_text(record.call_id.as_str(), raw.call_id.as_str()) && text::same_text(
                record.cell_id.as_str(),
                raw.cell_id.as_str(),
            ) {
                return decision_from_stored(&record.outcome);
            }
        }
    }
    TokenMiserDecision::Hide("retained; prior reducer decision was unavailable".to_string())
}

fn check_restorable(raw: &TokenMiserOutput, expected_thread_id: &Option<String>) -> (yes: bool)
    ensures
        yes == is_restorable(raw@, items::text_option(*expected_thread_id)),
{
    let expected = match expected_thread_id {
        Some(thread_id) => text::same_text(raw.thread_id.as_str(), thread_id.as_str()),
        None => true,
    };
    expected && raw.version == TOKEN_MISER_VERSION && identity::check_v4(raw.object_id.as_str()) && is_output_storable(
        raw.turn_id.as_str(),
        raw.call_id.as_str(),
        raw.cell_id.as_str(),
        raw.script_status.as_str(),
        &raw.content_items,
    )
}

impl TokenMiserService {
    /// Restores the kept outputs of a session from its history.
    pub fn new(restored: &Vec<RolloutItem>, expected_thread_id: &Option<String>) -> (service: Self)
        ensures
            service@.outputs == restored_outputs(restored@, items::text_option(*expected_thread_id)),
            service@.cells == restored_cells(restored@, restored@, items::text_option(*expected_thread_id)),
            service@.retrievals == Set::<Seq<char>>::empty(),
    {
        let ghost expected = items::text_option(*expected_thread_id);
        let mut service = TokenMiserService {
            outputs: Assoc::new(),
            terminal_cells: Assoc::new(),
            explicit_retrieval_cells: Assoc::new(),
        };
        assert(restored@.take(0) =~= Seq::<RolloutItem>::empty());
        assert(service@.outputs =~= Map::<Seq<char>, OutputView>::empty());
        assert(service@.cells =~= Map::<(Seq<char>, Seq<char>, Seq<char>), OutputStateView>::empty());
        assert(service@.retrievals =~= Set::<Seq<char>>::empty());
        let mut i: usize = 0;
        while i < restored.len()
            invariant
                i <= restored@.len(),
                expected == items::text_option(*expected_thread_id),
                service@.outputs == restored_outputs(restored@.take(i as int), expected),
                service@.cells == restored_cells(restored@, restored@.take(i as int), expected),
                service@.retrievals == Set::<Seq<char>>::empty(),
            decreases restored@.len() - i,
        {
            let ghost before = service@;
            assert(restored@.take(i as int + 1).drop_last() =~= restored@.take(i as int));
            assert(restored@.take(i as int + 1).last() == restored@[i as int]);
            if let RolloutItem::TokenMiserOutput(raw) = &restored[i] {
                if check_restorable(raw, expected_thread_id) {
                    service.outputs.insert(raw.object_id.clone(), raw.clone());
                    assert(service@.outputs =~= before.outputs.insert(raw.object_id@, raw@));
                    let key = terminal_key(raw);
                    if !service.terminal_cells.contains(&key) {
                        let state = OutputState {
                            raw: raw.clone(),
                            persistence: Some(true),
                            decision: Some(decide_restored(restored, raw)),
                            claimed: false,
                        };
                        service.terminal_cells.insert(key, state);
                        assert(service@.cells =~= before.cells.insert(key_of(raw@), state@));
                    }
                }
            }
            i = i + 1;
        }
        assert(restored@.take(i as int) =~= restored@);
        service
    }

    /// Notes that a cell asked for exact output.
    pub fn mark_explicit_retrieval(&mut self, cell_id: &str)
        ensures
            final(self)@ == (ServiceView { retrievals: old(self)@.retrievals.insert(cell_id@), ..old(self)@ }),
    {
        let ghost before = self@;
        self.explicit_retrieval_cells.insert(cell_id.to_string(), true);
        assert(self@.retrievals =~= before.retrievals.insert(cell_id@));
    }

    /// Whether a cell asked for exact output, which is then forgotten.
    pub fn take_explicit_retrieval(&mut self, cell_id: &str) -> (asked: bool)
        ensures
            asked == old(self)@.retrievals.contains(cell_id@),
            final(self)@ == (ServiceView { retrievals: old(self)@.retrievals.remove(cell_id@), ..old(self)@ }),
    {
        let ghost before = self@;
        let removed = self.explicit_retrieval_cells.remove(&cell_id.to_string());
        assert(self@.retrievals =~= before.retrievals.remove(cell_id@));
        removed.is_some()
    }
}

/// The complaint where an output is not there for a thread.
pub open spec fn not_found() -> Seq<char> {
    "Token Miser output was not found in this session"@
}

/// The stored output under an identity, for the thread that owns it.
pub open spec fn found(outputs: Map<Seq<char>, OutputView>, thread_id: Seq<char>, object_id: Seq<char>) -> Option<
    OutputView,
> {
    if outputs.dom().contains(object_id) && outputs[object_id].thread_id == thread_id {
        Some(outputs[object_id])
    } else {
        None
    }
}

/// A number between two bounds.
pub open spec fn clamped(n: int, low: int, high: int) -> int {
    if n < low {
        low
    } else if n > high {
        high
    } else {
        n
    }
}

/// The piece of a source from a byte offset on, in whole characters.
pub open spec fn piece(source: Seq<char>, offset: int, max_bytes: int) -> Seq<char> {
    text::byte_prefix(source.skip(text::whole_chars(source, offset) as int), max_bytes)
}

/// Where a source goes on after a piece; nothing at its end.
pub open spec fn next_offset(source: Seq<char>, offset: int, max_bytes: int) -> Option<int> {
    let end = offset + text::byte_len(piece(source, offset, max_bytes));
    if end < text::byte_len(source) {
        Some(end)
    } else {
        None
    }
}

/// The result of a read.
pub open spec fn read_json(
    output: OutputView,
    object_id: Seq<char>,
    item_index: int,
    offset: int,
    max_bytes: int,
) -> JsonView {
    let item = output.content_items[item_index];
    let source = items::source_of(item);
    JsonView::Object(
        seq![
            json::field("content"@, JsonView::Text(piece(source, offset, max_bytes))),
            json::field("detail"@, items::detail_of(item)),
            json::field("item_count"@, JsonView::Int(output.content_items.len() as int)),
            json::field("item_index"@, JsonView::Int(item_index)),
            json::field("kind"@, JsonView::Text(items::kind_of(item))),
            json::field("next_offset"@, json::int_or_null(next_offset(source, offset, max_bytes))),
            json::field("object_id"@, JsonView::Text(object_id)),
            json::field("offset"@, JsonView::Int(offset)),
            json::field("total_bytes"@, JsonView::Int(text::byte_len(source) as int)),
        ],
    )
}

/// What a read comes to: the output must be the thread's own, the item must exist, and the offset
/// must lie between two of its characters. The size of the piece is bounded whatever is asked.
pub open spec fn read_result(
    outputs: Map<Seq<char>, OutputView>,
    thread_id: Seq<char>,
    object_id: Seq<char>,
    item_index: int,
    offset: int,
    requested_bytes: int,
) -> Result<JsonView, Seq<char>> {
    match found(outputs, thread_id, object_id) {
        None => Err(not_found()),
        Some(output) => if item_index >= output.content_items.len() {
            Err("content item "@ + text::decimal(item_index as nat) + " does not exist"@)
        } else if !text::at_boundary(items::source_of(output.content_items[item_index]), offset) {
            Err("offset must be a UTF-8 boundary within the selected item"@)
        } else {
            Ok(read_json(output, object_id, item_index, offset, clamped(requested_bytes, 1, MAX_READ_BYTES as int)))
        },
    }
}

/// The value of a JSON result or of the complaint in its place.
pub open spec fn json_result(r: Result<Json, String>) -> Result<JsonView, Seq<char>> {
    match r {
        Ok(j) => Ok(j@),
        Err(error) => Err(error@),
    }
}

fn clamp_count(n: usize, low: usize, high: usize) -> (c: usize)
    ensures
        c == clamped(n as int, low as int, high as int),
{
    if n < low {
        low
    } else if n > high {
        high
    } else {
        n
    }
}

impl TokenMiserService {
    fn lookup(&self, thread_id: &str, object_id: &str) -> (r: Result<&TokenMiserOutput, String>)
        ensures
            match r {
                Ok(output) => found(self@.outputs, thread_id@, object_id@) == Some(output@),
                Err(error) => found(self@.outputs, thread_id@, object_id@) is None && error@ == not_found(),
            },
    {
        match self.outputs.get(&object_id.to_string()) {
            Some(output) => {
                if text::same_text(output.thread_id.as_str(), thread_id) {
                    Ok(output)
                } else {
                    Err("Token Miser output was not found in this session".to_string())
                }
            },
            None => Err("Token Miser output was not found in this session".to_string()),
        }
    }

    /// Reads one bounded piece of one item of a stored output.
    pub fn read(
        &self,
        thread_id: &str,
        object_id: &str,
        item_index: usize,
        offset: usize,
        requested_bytes: usize,
    ) -> (r: Result<Json, String>)
        ensures
            json_result(r) == read_result(
                self@.outputs,
                thread_id@,
                object_id@,
                item_index as int,
                offset as int,
                requested_bytes as int,
            ),
    {
        let output = match self.lookup(thread_id, object_id) {
            Ok(output) => output,
            Err(error) => {
                return Err(error);
            },
        };
        assert(output@.content_items.len() == output.content_items@.len());
        if item_index >= output.content_items.len() {
            let mut error = "content item ".to_string();
            text::append_decimal(&mut error, item_index as u128);
            error.append(" does not exist");
            return Err(error);
        }
        let ghost item = output@.content_items[item_index as int];
        assert(item == output.content_items@[item_index as int]@);
        let parts = items::item_source(&output.content_items[item_index]);
        let source = parts.1;
        if !text::on_boundary(source, offset) {
            return Err("offset must be a UTF-8 boundary within the selected item".to_string());
        }
        let max_bytes: usize = clamp_count(requested_bytes, 1, MAX_READ_BYTES);
        let total: usize = text::byte_count(source);
        let rest = text::split_text(source, offset).1;
        let content = text::truncate_utf8_bytes(rest, max_bytes);
        let read: usize = text::byte_count(content.as_str());
        proof {
            let k = text::whole_chars(source@, offset as int) as int;
            text::lemma_whole_chars(source@, offset as int);
            assert(source@ =~= source@.take(k) + source@.skip(k));
            text::lemma_encode_concat(source@.take(k), source@.skip(k));
            let n = text::whole_chars(rest@, max_bytes as int) as int;
            text::lemma_whole_chars(rest@, max_bytes as int);
            text::lemma_take_monotone(rest@, n, rest@.len() as int);
            assert(rest@.take(rest@.len() as int) =~= rest@);
        }
        let end: usize = offset + read;
        let next = if end < total {
            Json::Int(end as i128)
        } else {
            Json::Null
        };
        let mut members: Vec<Member> = Vec::new();
        members.push(json::member("content", Json::Text(content)));
        members.push(json::member("detail", parts.2));
        members.push(json::member("item_count", Json::Int(output.content_items.len() as i128)));
        members.push(json::member("item_index", Json::Int(item_index as i128)));
        members.push(json::member("kind", json::text_value(parts.0)));
        members.push(json::member("next_offset", next));
        members.push(json::member("object_id", json::text_value(object_id)));
        members.push(json::member("offset", Json::Int(offset as i128)));
        members.push(json::member("total_bytes", Json::Int(total as i128)));
        let j = json::object(members);
        assert(j@->Object_0 =~= read_json(
            output@,
            object_id@,
            item_index as int,
            offset as int,
            max_bytes as int,
        )->Object_0);
        Ok(j)
    }
}

/// A piece and what follows it are what was left of the source, and where a next offset is given,
/// it lies between two characters and what follows it is what follows the piece.
pub proof fn law_reading_on_misses_nothing(source: Seq<char>, offset: int, max_bytes: int)
    requires
        text::at_boundary(source, offset),
        max_bytes >= 1,
    ensures
        ({
            let left = source.skip(text::whole_chars(source, offset) as int);
            let read = piece(source, offset, max_bytes);
            &&& text::byte_len(read) <= max_bytes
            &&& match next_offset(source, offset, max_bytes) {
                Some(next) => {
                    &&& text::at_boundary(source, next)
                    &&& offset <= next
                    &&& left == read + source.skip(text::whole_chars(source, next) as int)
                },
                None => left == read,
            }
        }),
{
    let k = text::whole_chars(source, offset) as int;
    text::lemma_whole_chars(source, offset);
    let left = source.skip(k);
    let n = text::whole_chars(left, max_bytes) as int;
    text::lemma_whole_chars(left, max_bytes);
    let read = piece(source, offset, max_bytes);
    assert(source.take(k + n) =~= source.take(k) + left.take(n));
    text::lemma_encode_concat(source.take(k), left.take(n));
    text::lemma_whole_chars_of_prefix(source, k + n);
    assert(left =~= left.take(n) + left.skip(n));
    assert(left.skip(n) =~= source.skip(k + n));
    assert(source =~= source.take(k + n) + source.skip(k + n));
    text::lemma_encode_concat(source.take(k + n), source.skip(k + n));
    if next_offset(source, offset, max_bytes) is None {
        text::lemma_byte_len_bounds(source.skip(k + n));
        assert(source.skip(k + n).len() == 0);
        assert(left.take(n) =~= left);
    }
}

/// What successive reads from an offset on return, one after the other, as long as a next offset
/// is given.
pub open spec fn read_through(source: Seq<char>, offset: int, max_bytes: int, reads: nat) -> Seq<char>
    decreases reads,
{
    if reads == 0 {
        Seq::empty()
    } else {
        match next_offset(source, offset, max_bytes) {
            Some(next) => piece(source, offset, max_bytes) + read_through(
                source,
                next,
                max_bytes,
                (reads - 1) as nat,
            ),
            None => piece(source, offset, max_bytes),
        }
    }
}

/// Whether each character of a source fits into so many bytes, as it does into four.
pub open spec fn characters_fit(source: Seq<char>, max_bytes: int) -> bool {
    forall|i: int| 0 <= i < source.len() ==> text::char_width(#[trigger] source[i]) <= max_bytes
}

/// A read makes progress where each character fits into it: where more is left, the next offset lies
/// further on. A read of four bytes or more always does.
pub proof fn law_reads_make_progress(source: Seq<char>, offset: int, max_bytes: int)
    requires
        text::at_boundary(source, offset),
        max_bytes >= 4 || characters_fit(source, max_bytes),
        offset < text::byte_len(source),
    ensures
        piece(source, offset, max_bytes).len() > 0,
        next_offset(source, offset, max_bytes) matches Some(next) ==> next > offset,
{
    let k = text::whole_chars(source, offset) as int;
    text::lemma_whole_chars(source, offset);
    let left = source.skip(k);
    if left.len() == 0 {
        assert(source.take(k) =~= source);
    }
    text::lemma_scalar_width(left[0]);
    assert(left[0] == source[k]);
    let n = text::whole_chars(left, max_bytes) as int;
    assert(n >= 1);
    text::lemma_whole_chars(left, max_bytes);
    text::lemma_byte_len_bounds(left.take(n));
}

/// Reading on from the start gives back the exact source, in one read more than it has bytes at the
/// most, where each of its characters fits into a read. Into a read of four bytes or more each does.
pub proof fn law_retrieval_is_exact(source: Seq<char>, max_bytes: int)
    requires
        max_bytes >= 1,
        max_bytes >= 4 || characters_fit(source, max_bytes),
    ensures
        read_through(source, 0, max_bytes, text::byte_len(source) + 1) == source,
{
    text::lemma_whole_chars(source, 0);
    text::lemma_byte_len_bounds(text::byte_prefix(source, 0));
    assert(text::byte_prefix(source, 0) =~= Seq::<char>::empty());
    text::lemma_byte_len_empty();
    lemma_read_through(source, 0, max_bytes, text::byte_len(source) + 1);
    assert(source.skip(0) =~= source);
}

proof fn lemma_read_through(source: Seq<char>, offset: int, max_bytes: int, reads: nat)
    requires
        max_bytes >= 1,
        max_bytes >= 4 || characters_fit(source, max_bytes),
        text::at_boundary(source, offset),
        reads > text::byte_len(source) - offset,
        0 <= offset <= text::byte_len(source),
    ensures
        read_through(source, offset, max_bytes, reads) == source.skip(text::whole_chars(source, offset) as int),
    decreases reads,
{
    law_reading_on_misses_nothing(source, offset, max_bytes);
    if let Some(next) = next_offset(source, offset, max_bytes) {
        law_reads_make_progress(source, offset, max_bytes);
        lemma_read_through(source, next, max_bytes, (reads - 1) as nat);
    }
}

/// The length of the first line of a text, with its line feed.
pub open spec fn line_len(s: Seq<char>) -> nat
    decreases s.len(),
{
    if s.len() == 0 {
        0
    } else if s[0] == '\n' {
        1
    } else {
        1 + line_len(s.drop_first())
    }
}

pub proof fn lemma_line_len(s: Seq<char>)
    requires
        s.len() > 0,
    ensures
        1 <= line_len(s) <= s.len(),
    decreases s.len(),
{
    if s.len() > 1 {
        lemma_line_len(s.drop_first());
    } else {
        assert(line_len(s.drop_first()) == 0);
    }
}

/// Where a query first occurs in a line, at or after a place.
pub open spec fn first_occurrence(line: Seq<char>, query: Seq<char>, from: int) -> Option<int>
    decreases line.len() + 1 - from,
{
    if from < 0 || from + query.len() > line.len() {
        None
    } else if line.subrange(from, from + query.len()) == query {
        Some(from)
    } else {
        first_occurrence(line, query, from + 1)
    }
}

/// One match: the item, the line counted from one, the byte column and the start of the line.
pub open spec fn match_json(item_index: int, line_index: int, line: Seq<char>, at: int) -> JsonView {
    JsonView::Object(
        seq![
            json::field("column"@, JsonView::Int(text::byte_len(line.take(at)) as int)),
            json::field("item_index"@, JsonView::Int(item_index)),
            json::field("line"@, JsonView::Int(line_index + 1)),
            json::field("snippet"@, JsonView::Text(text::byte_prefix(line, MAX_SEARCH_SNIPPET_BYTES as int))),
        ],
    )
}

/// The match in a line, if the query occurs in it.
pub open spec fn line_match(item_index: int, line_index: int, line: Seq<char>, query: Seq<char>) -> Seq<JsonView> {
    match first_occurrence(line, query, 0) {
        Some(at) => seq![match_json(item_index, line_index, line, at)],
        None => Seq::empty(),
    }
}

/// The matches in the rest of a text, whose first line has this index.
pub open spec fn text_matches(item_index: int, line_index: int, rest: Seq<char>, query: Seq<char>) -> Seq<JsonView>
    decreases rest.len(),
{
    if rest.len() == 0 {
        Seq::empty()
    } else {
        proof {
            lemma_line_len(rest);
        }
        line_match(item_index, line_index, rest.take(line_len(rest) as int), query) + text_matches(
            item_index,
            line_index + 1,
            rest.skip(line_len(rest) as int),
            query,
        )
    }
}

/// The matches in the first `n` items. Only text is searched.
pub open spec fn all_matches(content_items: Seq<ItemView>, n: nat, query: Seq<char>) -> Seq<JsonView>
    decreases n,
{
    if n == 0 || n > content_items.len() {
        Seq::empty()
    } else {
        all_matches(content_items, (n - 1) as nat, query) + match content_items[n - 1] {
            ItemView::InputText { text } => text_matches(n - 1, 0, text, query),
            _ => Seq::empty(),
        }
    }
}

/// The first `n` of several values.
pub open spec fn first_n(values: Seq<JsonView>, n: int) -> Seq<JsonView> {
    values.take(if n < values.len() { n } else { values.len() as int })
}

/// The result of a search with these matches.
pub open spec fn search_json(
    object_id: Seq<char>,
    query: Seq<char>,
    matches: Seq<JsonView>,
    max_results: int,
) -> JsonView {
    JsonView::Object(
        seq![
            json::field("matches"@, JsonView::Array(matches)),
            json::field("max_results"@, JsonView::Int(max_results)),
            json::field("object_id"@, JsonView::Text(object_id)),
            json::field("query"@, JsonView::Text(query)),
        ],
    )
}

/// How many of the first `n` matches are returned: as many as leave the whole result within its
/// bound, or none.
pub open spec fn fitting(object_id: Seq<char>, query: Seq<char>, matches: Seq<JsonView>, max_results: int, n: nat) -> nat
    decreases n,
{
    if n == 0 || text::byte_len(
        json::json_text(search_json(object_id, query, matches.take(n as int), max_results)),
    ) <= MAX_READ_BYTES {
        n
    } else {
        fitting(object_id, query, matches, max_results, (n - 1) as nat)
    }
}

/// The result of a search in an output.
pub open spec fn search_output(output: OutputView, object_id: Seq<char>, query: Seq<char>, max_results: int) -> JsonView {
    let matches = first_n(all_matches(output.content_items, output.content_items.len(), query), max_results);
    let n = fitting(object_id, query, matches, max_results, matches.len());
    search_json(object_id, query, matches.take(n as int), max_results)
}

/// What a search comes to: the query must say something within its bound, and the output must be
/// the thread's own.
pub open spec fn search_result(
    outputs: Map<Seq<char>, OutputView>,
    thread_id: Seq<char>,
    object_id: Seq<char>,
    query: Seq<char>,
    requested_results: int,
) -> Result<JsonView, Seq<char>> {
    if query.len() == 0 || text::byte_len(query) > MAX_SEARCH_QUERY_BYTES {
        Err("query must contain 1..=256 UTF-8 bytes"@)
    } else {
        match found(outputs, thread_id, object_id) {
            None => Err(not_found()),
            Some(output) => Ok(
                search_output(output, object_id, query, clamped(requested_results, 1, MAX_SEARCH_RESULTS as int)),
            ),
        }
    }
}

fn occurs_at(chars: &Vec<char>, at: usize, query: &Vec<char>) -> (yes: bool)
    requires
        at + query@.len() <= chars@.len(),
    ensures
        yes == (chars@.subrange(at as int, at + query@.len()) == query@),
{
    let n: usize = chars.len();
    let mut j: usize = 0;
    while j < query.len()
        invariant
            j <= query@.len(),
            n == chars@.len(),
            at + query@.len() <= chars@.len(),
            forall|m: int| 0 <= m < j ==> chars@[at + m] == query@[m],
        decreases query@.len() - j,
    {
        if chars[at + j] != query[j] {
            assert(chars@.subrange(at as int, at + query@.len())[j as int] != query@[j as int]);
            return false;
        }
        j = j + 1;
    }
    assert(chars@.subrange(at as int, at + query@.len()) =~= query@);
    true
}

fn find_query(chars: &Vec<char>, start: usize, end: usize, query: &Vec<char>) -> (at: Option<usize>)
    requires
        start <= end <= chars@.len(),
    ensures
        match at {
            Some(at) => first_occurrence(chars@.subrange(start as int, end as int), query@, 0) == Some(at as int)
                && at <= end - start,
            None => first_occurrence(chars@.subrange(start as int, end as int), query@, 0) is None,
        },
{
    let ghost line = chars@.subrange(start as int, end as int);
    if query.len() > end - start {
        return None;
    }
    let last: usize = end - query.len();
    let mut i: usize = start;
    while i <= last
        invariant
            start <= i <= last + 1,
            last + query@.len() == end,
            end <= chars@.len(),
            line == chars@.subrange(start as int, end as int),
            first_occurrence(line, query@, 0) == first_occurrence(line, query@, i - start),
        decreases last + 1 - i,
    {
        assert(line.subrange(i - start, i - start + query@.len()) =~= chars@.subrange(
            i as int,
            i + query@.len(),
        ));
        if occurs_at(chars, i, query) {
            return Some(i - start);
        }
        if i == last {
            assert(first_occurrence(line, query@, i - start + 1) is None);
            return None;
        }
        i = i + 1;
    }
    None
}

fn find_line_end(chars: &Vec<char>, start: usize) -> (end: usize)
    requires
        start < chars@.len(),
    ensures
        start < end <= chars@.len(),
        end - start == line_len(chars@.skip(start as int)),
{
    let mut end: usize = start;
    while end < chars.len()
        invariant
            start <= end <= chars@.len(),
            line_len(chars@.skip(start as int)) == end - start + line_len(chars@.skip(end as int)),
        decreases chars@.len() - end,
    {
        assert(chars@.skip(end as int).drop_first() =~= chars@.skip(end as int + 1));
        if chars[end] == '\n' {
            return end + 1;
        }
        end = end + 1;
    }
    end
}

fn match_value(item_index: usize, line_index: usize, line: &str, at: usize) -> (j: Json)
    requires
        at <= line@.len(),
    ensures
        j@ == match_json(item_index as int, line_index as int, line@, at as int),
{
    let before = line.substring_char(0, at);
    assert(before@ =~= line@.take(at as int));
    let mut members: Vec<Member> = Vec::new();
    members.push(json::member("column", Json::Int(text::byte_count(before) as i128)));
    members.push(json::member("item_index", Json::Int(item_index as i128)));
    members.push(json::member("line", Json::Int(line_index as i128 + 1)));
    members.push(
        json::member("snippet", Json::Text(text::truncate_utf8_bytes(line, MAX_SEARCH_SNIPPET_BYTES))),
    );
    let j = json::object(members);
    assert(j@->Object_0 =~= match_json(item_index as int, line_index as int, line@, at as int)->Object_0);
    j
}

fn push_text_matches(matches: &mut Vec<Json>, item_index: usize, source: &str, query: &Vec<char>, max_results: usize)
    requires
        old(matches)@.len() <= max_results,
    ensures
        json::json_views(final(matches)@) == first_n(
            json::json_views(old(matches)@) + text_matches(item_index as int, 0, source@, query@),
            max_results as int,
        ),
{
    let chars: Vec<char> = text::chars_of(source);
    let ghost base = json::json_views(matches@);
    let ghost everything = base + text_matches(item_index as int, 0, source@, query@);
    let mut start: usize = 0;
    let mut line_index: usize = 0;
    assert(chars@.skip(0) =~= source@);
    while start < chars.len() && matches.len() < max_results
        invariant
            start <= chars@.len(),
            line_index <= start,
            chars@ == source@,
            matches@.len() <= max_results,
            everything == json::json_views(matches@) + text_matches(
                item_index as int,
                line_index as int,
                chars@.skip(start as int),
                query@,
            ),
        decreases chars@.len() - start,
    {
        let ghost before = matches@;
        let ghost rest = chars@.skip(start as int);
        let end: usize = find_line_end(&chars, start);
        let ghost line = rest.take(line_len(rest) as int);
        assert(chars@.subrange(start as int, end as int) =~= line);
        let ghost later = text_matches(
            item_index as int,
            line_index + 1,
            chars@.skip(end as int),
            query@,
        );
        assert(rest.skip(line_len(rest) as int) =~= chars@.skip(end as int));
        match find_query(&chars, start, end, query) {
            Some(at) => {
                let j = match_value(item_index, line_index, source.substring_char(start, end), at);
                matches.push(j);
                assert(json::json_views(matches@) =~= json::json_views(before).push(j@));
                assert(json::json_views(matches@) + later =~= json::json_views(before) + (seq![j@] + later));
            },
            None => {
                assert(Seq::<JsonView>::empty() + later =~= later);
            },
        }
        start = end;
        line_index = line_index + 1;
    }
    assert(json::json_views(matches@) =~= first_n(everything, max_results as int)) by {
        if start >= chars.len() {
            assert(chars@.skip(start as int) =~= Seq::<char>::empty());
        }
    }
}

fn search_value(object_id: &str, query: &str, matches: &Vec<Json>, max_results: usize) -> (j: Json)
    ensures
        j@ == search_json(object_id@, query@, json::json_views(matches@), max_results as int),
{
    let mut members: Vec<Member> = Vec::new();
    members.push(json::member("matches", json::array(json::duplicate_all(matches))));
    members.push(json::member("max_results", Json::Int(max_results as i128)));
    members.push(json::member("object_id", json::text_value(object_id)));
    members.push(json::member("query", json::text_value(query)));
    let j = json::object(members);
    assert(j@->Object_0 =~= search_json(
        object_id@,
        query@,
        json::json_views(matches@),
        max_results as int,
    )->Object_0);
    j
}

fn fit_search(object_id: &str, query: &str, found: Vec<Json>, max_results: usize) -> (j: Json)
    ensures
        ({
            let matches = json::json_views(found@);
            let n = fitting(object_id@, query@, matches, max_results as int, matches.len());
            j@ == search_json(object_id@, query@, matches.take(n as int), max_results as int)
        }),
{
    let ghost all = json::json_views(found@);
    let mut matches = found;
    assert(all.take(all.len() as int) =~= all);
    loop
        invariant
            all == json::json_views(found@),
            matches@.len() <= all.len(),
            json::json_views(matches@) == all.take(matches@.len() as int),
            fitting(object_id@, query@, all, max_results as int, all.len()) == fitting(
                object_id@,
                query@,
                all,
                max_results as int,
                matches@.len(),
            ),
        decreases matches@.len(),
    {
        let j = search_value(object_id, query, &matches, max_results);
        let written = j.to_text();
        if text::byte_count(written.as_str()) <= MAX_READ_BYTES {
            return j;
        }
        let ghost before = matches@;
        if matches.pop().is_none() {
            return j;
        }
        assert(json::json_views(matches@) =~= json::json_views(before).drop_last());
        assert(json::json_views(matches@) =~= all.take(matches@.len() as int));
    }
}

impl TokenMiserService {
    /// Searches the text of a stored output for lines that hold a query.
    pub fn search(
        &self,
        thread_id: &str,
        object_id: &str,
        query: &str,
        requested_results: usize,
    ) -> (r: Result<Json, String>)
        ensures
            json_result(r) == search_result(
                self@.outputs,
                thread_id@,
                object_id@,
                query@,
                requested_results as int,
            ),
    {
        if query.is_empty() || text::byte_count(query) > MAX_SEARCH_QUERY_BYTES {
            return Err("query must contain 1..=256 UTF-8 bytes".to_string());
        }
        let output = match self.lookup(thread_id, object_id) {
            Ok(output) => output,
            Err(error) => {
                return Err(error);
            },
        };
        let max_results: usize = clamp_count(requested_results, 1, MAX_SEARCH_RESULTS);
        let query_chars: Vec<char> = text::chars_of(query);
        let ghost views = output@.content_items;
        let mut matches: Vec<Json> = Vec::new();
        assert(json::json_views(matches@) =~= first_n(all_matches(views, 0, query@), max_results as int));
        let mut i: usize = 0;
        while i < output.content_items.len()
            invariant
                i <= output.content_items@.len(),
                views == items::item_views(output.content_items@),
                query_chars@ == query@,
                max_results >= 1,
                json::json_views(matches@) == first_n(all_matches(views, i as nat, query@), max_results as int),
            decreases output.content_items@.len() - i,
        {
            let ghost before = json::json_views(matches@);
            let ghost earlier = all_matches(views, i as nat, query@);
            assert(before.len() == matches@.len());
            assert(views[i as int] == output.content_items@[i as int]@);
            if let FunctionCallOutputContentItem::InputText { text: source } = &output.content_items[i] {
                push_text_matches(&mut matches, i, source.as_str(), &query_chars, max_results);
                let ghost more = text_matches(i as int, 0, source@, query@);
                assert(first_n(first_n(earlier, max_results as int) + more, max_results as int) =~= first_n(
                    earlier + more,
                    max_results as int,
                ));
            } else {
                assert(earlier + Seq::<JsonView>::empty() =~= earlier);
            }
            i = i + 1;
        }
        Ok(fit_search(object_id, query, matches, max_results))
    }
}

impl Clone for TerminalKey {
    fn clone(&self) -> (copy: Self)
        ensures
            copy == *self,
    {
        TerminalKey { turn_id: self.turn_id.clone(), call_id: self.call_id.clone(), cell_id: self.cell_id.clone() }
    }
}

/// An output as it is kept under a new identity.
pub open spec fn kept_output(
    context: ContextView,
    object_id: Seq<char>,
    script_status: Seq<char>,
    success: Option<bool>,
    content_items: Seq<ItemView>,
) -> OutputView {
    OutputView {
        version: TOKEN_MISER_VERSION as int,
        object_id,
        thread_id: context.thread_id,
        turn_id: context.turn_id,
        call_id: context.call_id,
        cell_id: context.cell_id,
        script_status,
        success,
        content_items,
    }
}

/// A service that has taken up this output: nothing changes where its call is known already.
pub open spec fn started(before: ServiceView, output: OutputView) -> ServiceView {
    if before.cells.dom().contains(key_of(output)) {
        before
    } else {
        ServiceView {
            cells: before.cells.insert(
                key_of(output),
                OutputStateView { raw: output, persistence: None, decision: None, claimed: false },
            ),
            ..before
        }
    }
}

/// A service that has learnt whether a call's output was stored: only the first answer counts,
/// and a stored output can be retrieved from then on.
pub open spec fn persisted(before: ServiceView, key: (Seq<char>, Seq<char>, Seq<char>), stored: bool) -> ServiceView {
    if !before.cells.dom().contains(key) || before.cells[key].persistence is Some {
        before
    } else {
        let state = before.cells[key];
        ServiceView {
            cells: before.cells.insert(
                key,
                OutputStateView { persistence: Some(stored), claimed: false, ..state },
            ),
            outputs: if stored {
                before.outputs.insert(state.raw.object_id, state.raw)
            } else {
                before.outputs
            },
            ..before
        }
    }
}

/// What a decision comes to, given whether it was committed.
pub open spec fn committed_decision(decision: DecisionView, committed: bool) -> DecisionView {
    if committed {
        decision
    } else {
        DecisionView::Hide("retained; reducer decision storage was unavailable"@)
    }
}

/// A service that has learnt what is shown of a stored output: only the first decision counts.
pub open spec fn decided(
    before: ServiceView,
    key: (Seq<char>, Seq<char>, Seq<char>),
    decision: DecisionView,
    committed: bool,
) -> ServiceView {
    if !before.cells.dom().contains(key) || before.cells[key].persistence != Some(true)
        || before.cells[key].decision is Some {
        before
    } else {
        let state = before.cells[key];
        ServiceView {
            cells: before.cells.insert(
                key,
                OutputStateView {
                    decision: Some(committed_decision(decision, committed)),
                    claimed: false,
                    ..state
                },
            ),
            ..before
        }
    }
}

/// What a call's output needs next.
#[derive(Debug, PartialEq, Eq)]
pub enum TerminalStep {
    /// The output cannot be kept, and nothing of it is shown.
    Unavailable,
    /// The output is to be stored.
    Persist(TokenMiserOutput),
    /// A reducer is to decide what is shown.
    Reduce(TokenMiserOutput),
    /// This is shown of the output.
    Show(TokenMiserOutput, TokenMiserDecision),
}

/// The value of a [`TerminalStep`].
pub enum TerminalStepView {
    Unavailable,
    Persist(OutputView),
    Reduce(OutputView),
    Show(OutputView, DecisionView),
}

impl View for TerminalStep {
    type V = TerminalStepView;

    open spec fn view(&self) -> TerminalStepView {
        match self {
            TerminalStep::Unavailable => TerminalStepView::Unavailable,
            TerminalStep::Persist(raw) => TerminalStepView::Persist(raw@),
            TerminalStep::Reduce(raw) => TerminalStepView::Reduce(raw@),
            TerminalStep::Show(raw, decision) => TerminalStepView::Show(raw@, decision@),
        }
    }
}

/// What a call's output needs next: it is stored first, then decided on, then shown.
pub open spec fn terminal_step(service: ServiceView, key: (Seq<char>, Seq<char>, Seq<char>)) -> TerminalStepView {
    if !service.cells.dom().contains(key) {
        TerminalStepView::Unavailable
    } else {
        let state = service.cells[key];
        match state.persistence {
            None => TerminalStepView::Persist(state.raw),
            Some(false) => TerminalStepView::Unavailable,
            Some(true) => match state.decision {
                None => TerminalStepView::Reduce(state.raw),
                Some(decision) => TerminalStepView::Show(state.raw, decision),
            },
        }
    }
}

/// Whether a call's output is still to be stored or decided on.
pub open spec fn needs_work(service: ServiceView, key: (Seq<char>, Seq<char>, Seq<char>)) -> bool {
    terminal_step(service, key) is Persist || terminal_step(service, key) is Reduce
}

/// What a caller that would work on a call's output is to do: nothing where another one is at work.
pub open spec fn claim_of(service: ServiceView, key: (Seq<char>, Seq<char>, Seq<char>)) -> Option<TerminalStepView> {
    if needs_work(service, key) && service.cells[key].claimed {
        None
    } else {
        Some(terminal_step(service, key))
    }
}

/// A service of which a caller has claimed what a call's output needs next.
pub open spec fn claimed(before: ServiceView, key: (Seq<char>, Seq<char>, Seq<char>)) -> ServiceView {
    if needs_work(before, key) {
        ServiceView {
            cells: before.cells.insert(key, OutputStateView { claimed: true, ..before.cells[key] }),
            ..before
        }
    } else {
        before
    }
}

/// A service in which nobody is at work on a call's output.
pub open spec fn abandoned(before: ServiceView, key: (Seq<char>, Seq<char>, Seq<char>)) -> ServiceView {
    if before.cells.dom().contains(key) {
        ServiceView {
            cells: before.cells.insert(key, OutputStateView { claimed: false, ..before.cells[key] }),
            ..before
        }
    } else {
        before
    }
}

/// The value of an optional step.
pub open spec fn step_option(step: Option<TerminalStep>) -> Option<TerminalStepView> {
    match step {
        Some(step) => Some(step@),
        None => None,
    }
}

impl TokenMiserService {
    /// Takes up the output of a finished call under the given identity. The result names the
    /// call, or is nothing where the output exceeds the storage bound.
    pub fn start_terminal(
        &mut self,
        context: &ReductionContext,
        object_id: String,
        script_status: &str,
        success: Option<bool>,
        content_items: Vec<FunctionCallOutputContentItem>,
    ) -> (key: Option<TerminalKey>)
        ensures
            ({
                let output = kept_output(
                    context@,
                    object_id@,
                    script_status@,
                    success,
                    items::item_views(content_items@),
                );
                match key {
                    Some(key) => {
                        &&& is_storable(
                            output.turn_id,
                            output.call_id,
                            output.cell_id,
                            output.script_status,
                            output.content_items,
                        )
                        &&& key.name() == key_of(output)
                        &&& final(self)@ == started(old(self)@, output)
                    },
                    None => {
                        &&& !is_storable(
                            output.turn_id,
                            output.call_id,
                            output.cell_id,
                            output.script_status,
                            output.content_items,
                        )
                        &&& final(self)@ == old(self)@
                    },
                }
            }),
    {
        if !is_output_storable(
            context.turn_id.as_str(),
            context.call_id.as_str(),
            context.cell_id.as_str(),
            script_status,
            &content_items,
        ) {
            return None;
        }
        let raw = TokenMiserOutput {
            version: TOKEN_MISER_VERSION,
            object_id,
            thread_id: context.thread_id.clone(),
            turn_id: context.turn_id.clone(),
            call_id: context.call_id.clone(),
            cell_id: context.cell_id.clone(),
            script_status: script_status.to_string(),
            success,
            content_items,
        };
        let key = terminal_key(&raw);
        if !self.terminal_cells.contains(&key) {
            let ghost before = self@;
            let state = OutputState { raw, persistence: None, decision: None, claimed: false };
            self.terminal_cells.insert(key.clone(), state);
            assert(self@.cells =~= before.cells.insert(key_of(raw@), state@));
            assert(self@ =~= started(before, raw@));
        }
        Some(key)
    }

    /// Takes up the output of a finished call under a fresh identity.
    pub fn begin_terminal(
        &mut self,
        context: &ReductionContext,
        script_status: &str,
        success: Option<bool>,
        content_items: Vec<FunctionCallOutputContentItem>,
    ) -> (key: Option<TerminalKey>)
        ensures
            ({
                let views = items::item_views(content_items@);
                match key {
                    Some(key) => {
                        &&& is_storable(
                            context@.turn_id,
                            context@.call_id,
                            context@.cell_id,
                            script_status@,
                            views,
                        )
                        &&& key.name() == (context@.turn_id, context@.call_id, context@.cell_id)
                        &&& exists|object_id: Seq<char>|
                            {
                                &&& identity::is_v4(object_id)
                                &&& final(self)@ == started(
                                    old(self)@,
                                    #[trigger] kept_output(context@, object_id, script_status@, success, views),
                                )
                            }
                    },
                    None => {
                        &&& !is_storable(
                            context@.turn_id,
                            context@.call_id,
                            context@.cell_id,
                            script_status@,
                            views,
                        )
                        &&& final(self)@ == old(self)@
                    },
                }
            }),
    {
        let object_id = identity::new_identifier();
        proof {
            identity::lemma_fresh_is_v4(object_id@);
        }
        self.start_terminal(context, object_id, script_status, success, content_items)
    }

    /// What a call's output needs next.
    pub fn next_terminal_step(&self, key: &TerminalKey) -> (step: TerminalStep)
        ensures
            step@ == terminal_step(self@, key.name()),
    {
        match self.terminal_cells.get(key) {
            Some(state) => match state.persistence {
                None => TerminalStep::Persist(state.raw.clone()),
                Some(false) => TerminalStep::Unavailable,
                Some(true) => match &state.decision {
                    None => TerminalStep::Reduce(state.raw.clone()),
                    Some(decision) => TerminalStep::Show(state.raw.clone(), decision.clone()),
                },
            },
            None => TerminalStep::Unavailable,
        }
    }

    fn set_claimed(&mut self, key: &TerminalKey, at_work: bool)
        ensures
            final(self)@ == (if old(self)@.cells.dom().contains(key.name()) {
                ServiceView {
                    cells: old(self)@.cells.insert(
                        key.name(),
                        OutputStateView { claimed: at_work, ..old(self)@.cells[key.name()] },
                    ),
                    ..old(self)@
                }
            } else {
                old(self)@
            }),
    {
        let ghost before = self@;
        match self.terminal_cells.remove(key) {
            Some(state) => {
                let noted = OutputState {
                    raw: state.raw,
                    persistence: state.persistence,
                    decision: state.decision,
                    claimed: at_work,
                };
                self.terminal_cells.insert(key.clone(), noted);
                assert(self@.cells =~= before.cells.insert(key.name(), noted@));
            },
            None => {
                assert(self@.cells =~= before.cells);
            },
        }
    }

    /// Claims what a call's output needs next: nobody else is given it until it is noted as done or
    /// abandoned. Nothing is given out while another caller is at work.
    pub fn claim_terminal_step(&mut self, key: &TerminalKey) -> (step: Option<TerminalStep>)
        ensures
            step_option(step) == claim_of(old(self)@, key.name()),
            final(self)@ == claimed(old(self)@, key.name()),
    {
        let ghost before = self@;
        let at_work = match self.terminal_cells.get(key) {
            Some(state) => state.claimed,
            None => false,
        };
        let step = self.next_terminal_step(key);
        let needed = match &step {
            TerminalStep::Persist(_) => true,
            TerminalStep::Reduce(_) => true,
            _ => false,
        };
        if !needed {
            return Some(step);
        }
        self.set_claimed(key, true);
        assert(self@ =~= claimed(before, key.name()));
        if at_work {
            None
        } else {
            Some(step)
        }
    }

    /// Gives up what was claimed of a call's output without having done it.
    pub fn abandon_terminal_step(&mut self, key: &TerminalKey)
        ensures
            final(self)@ == abandoned(old(self)@, key.name()),
    {
        self.set_claimed(key, false);
    }

    /// Notes whether a call's output was stored.
    pub fn record_persistence(&mut self, key: &TerminalKey, stored: bool)
        ensures
            final(self)@ == persisted(old(self)@, key.name(), stored),
    {
        let undecided = match self.terminal_cells.get(key) {
            Some(state) => state.persistence.is_none(),
            None => false,
        };
        if undecided {
            let ghost before = self@;
            if let Some(state) = self.terminal_cells.remove(key) {
                if stored {
                    self.outputs.insert(state.raw.object_id.clone(), state.raw.clone());
                    assert(self@.outputs =~= before.outputs.insert(state.raw.object_id@, state.raw@));
                }
                let noted = OutputState {
                    raw: state.raw,
                    persistence: Some(stored),
                    decision: state.decision,
                    claimed: false,
                };
                self.terminal_cells.insert(key.clone(), noted);
                assert(self@.cells =~= before.cells.insert(key.name(), noted@));
                assert(self@ =~= persisted(before, key.name(), stored));
            }
        }
    }

    /// Notes what is shown of a call's output, and whether that decision was committed.
    pub fn record_decision(&mut self, key: &TerminalKey, decision: TokenMiserDecision, committed: bool)
        ensures
            final(self)@ == decided(old(self)@, key.name(), decision@, committed),
    {
        let open = match self.terminal_cells.get(key) {
            Some(state) => match state.persistence {
                Some(true) => state.decision.is_none(),
                _ => false,
            },
            None => false,
        };
        if open {
            let ghost before = self@;
            let result = if committed {
                decision
            } else {
                TokenMiserDecision::Hide("retained; reducer decision storage was unavailable".to_string())
            };
            if let Some(state) = self.terminal_cells.remove(key) {
                let noted = OutputState {
                    raw: state.raw,
                    persistence: state.persistence,
                    decision: Some(result),
                    claimed: false,
                };
                self.terminal_cells.insert(key.clone(), noted);
                assert(self@.cells =~= before.cells.insert(key.name(), noted@));
                assert(self@ =~= decided(before, key.name(), decision@, committed));
            }
        }
    }
}

/// How a receipt words a decision.
pub open spec fn decision_words(decision: DecisionView) -> Seq<char> {
    match decision {
        DecisionView::Passthrough => "passed through by Luna"@,
        DecisionView::Replace(_) => "reduced by Luna"@,
        DecisionView::Hide(reason) => reason,
    }
}

/// What is shown of an output before truncation; nothing where it is hidden.
pub open spec fn untruncated(decision: DecisionView, content_items: Seq<ItemView>, max_replacement_bytes: int) -> Option<
    Seq<ItemView>,
> {
    match decision {
        DecisionView::Passthrough => Some(content_items),
        DecisionView::Replace(replacement) => Some(
            seq![
                items::text_item(context::CODE_MODE_OUTPUT_REPLACEMENT_HEADER@),
                items::text_item(text::byte_prefix(replacement, max_replacement_bytes)),
                items::text_item(context::CODE_MODE_OUTPUT_REPLACEMENT_FOOTER@),
            ],
        ),
        DecisionView::Hide(_) => None,
    }
}

/// The content item of a receipt with this text.
pub open spec fn receipt_item(t: Seq<char>) -> ItemView {
    items::text_item(context::receipt_rendering(t))
}

/// A receipt as the only content item.
pub fn receipt_output(receipt: TokenMiserReceipt) -> (shown: Vec<FunctionCallOutputContentItem>)
    ensures
        items::item_views(shown@) == seq![items::text_item(context::rendering(receipt))],
{
    let mut shown: Vec<FunctionCallOutputContentItem> = Vec::new();
    items::push_item(&mut shown, items::text_content(receipt.render()));
    assert(items::item_views(shown@) =~= seq![items::text_item(context::rendering(receipt))]);
    shown
}

/// What the model reads where an output exceeds the storage bound.
pub fn too_large_output() -> (shown: Vec<FunctionCallOutputContentItem>)
    ensures
        items::item_views(shown@) == seq![receipt_item(context::too_large_text())],
{
    receipt_output(TokenMiserReceipt::output_too_large())
}

/// What the model reads where an output could not be stored.
pub fn unavailable_output() -> (shown: Vec<FunctionCallOutputContentItem>)
    ensures
        items::item_views(shown@) == seq![receipt_item(context::unavailable_text())],
{
    receipt_output(TokenMiserReceipt::storage_unavailable())
}

/// Whether this is what the model reads of a kept output: what was decided, truncated, and then the
/// receipt; the receipt alone where the output is hidden.
pub open spec fn is_shown_output<T: Fn(Vec<FunctionCallOutputContentItem>, TruncationStyle, usize) -> Vec<
    FunctionCallOutputContentItem,
>>(
    truncation: T,
    raw: OutputView,
    decision: DecisionView,
    max_output_tokens: Option<usize>,
    max_replacement_bytes: int,
    shown: Seq<ItemView>,
) -> bool {
    let receipt = receipt_item(context::retained_text(raw.object_id, decision_words(decision)));
    match untruncated(decision, raw.content_items, max_replacement_bytes) {
        None => shown == seq![receipt],
        Some(whole) => exists|
            o: Vec<FunctionCallOutputContentItem>,
            truncated: Vec<FunctionCallOutputContentItem>,
        |
            {
                &&& items::item_views(o@) == whole
                &&& #[trigger] call_ensures(
                    truncation,
                    (o, reducer::style_of(whole), reducer::resolved_tokens(max_output_tokens)),
                    truncated,
                )
                &&& shown == items::item_views(truncated@).push(receipt)
            },
    }
}

/// What the model reads of a kept output.
pub fn shown_output<T: Fn(Vec<FunctionCallOutputContentItem>, TruncationStyle, usize) -> Vec<
    FunctionCallOutputContentItem,
>>(
    truncation: &T,
    raw: &TokenMiserOutput,
    decision: &TokenMiserDecision,
    max_output_tokens: Option<usize>,
    max_replacement_bytes: usize,
) -> (shown: Vec<FunctionCallOutputContentItem>)
    requires
        forall|o: Vec<FunctionCallOutputContentItem>, s: TruncationStyle, n: usize| #[trigger]
            call_requires(*truncation, (o, s, n)),
    ensures
        is_shown_output(
            *truncation,
            raw@,
            decision@,
            max_output_tokens,
            max_replacement_bytes as int,
            items::item_views(shown@),
        ),
{
    let words = match decision {
        TokenMiserDecision::Passthrough => "passed through by Luna",
        TokenMiserDecision::Replace(_) => "reduced by Luna",
        TokenMiserDecision::Hide(reason) => reason.as_str(),
    };
    let receipt = TokenMiserReceipt::retained(raw.object_id.as_str(), words);
    let ghost receipt_view = receipt_item(context::retained_text(raw.object_id@, decision_words(decision@)));
    assert(items::text_item(context::rendering(receipt)) == receipt_view);
    let receipt_items = receipt_output(receipt);
    let whole = match decision {
        TokenMiserDecision::Passthrough => {
            let whole = raw.content_items.clone();
            assert(whole@ =~= raw.content_items@);
            whole
        },
        TokenMiserDecision::Replace(replacement) => {
            let mut inner: Vec<FunctionCallOutputContentItem> = Vec::new();
            items::push_item(
                &mut inner,
                items::text_content(text::truncate_utf8_bytes(replacement.as_str(), max_replacement_bytes)),
            );
            let whole = reducer::fence_replacement(inner);
            assert(Some(items::item_views(whole@)) =~= untruncated(
                decision@,
                raw@.content_items,
                max_replacement_bytes as int,
            )) by {
                assert(items::item_views(whole@) =~= untruncated(
                    decision@,
                    raw@.content_items,
                    max_replacement_bytes as int,
                )->Some_0);
            }
            whole
        },
        TokenMiserDecision::Hide(_) => {
            return receipt_items;
        },
    };
    let ghost whole_items = whole;
    let mut shown = reducer::truncate_code_mode_result(truncation, whole, max_output_tokens);
    let ghost truncated = shown;
    assert(call_ensures(
        *truncation,
        (
            whole_items,
            reducer::style_of(items::item_views(whole_items@)),
            reducer::resolved_tokens(max_output_tokens),
        ),
        truncated,
    ));
    items::append_items(&mut shown, receipt_items);
    assert(items::item_views(shown@) =~= items::item_views(truncated@).push(receipt_view));
    shown
}

impl TokenMiserService {
    /// What the model reads of a call's output once nothing more can be done for it: what was
    /// decided, or that it was withheld. Without a call the output was beyond the storage bound.
    pub fn reduce_terminal<T: Fn(Vec<FunctionCallOutputContentItem>, TruncationStyle, usize) -> Vec<
        FunctionCallOutputContentItem,
    >>(
        &self,
        truncation: &T,
        key: &Option<TerminalKey>,
        max_output_tokens: Option<usize>,
        max_replacement_bytes: usize,
    ) -> (shown: Vec<FunctionCallOutputContentItem>)
        requires
            forall|o: Vec<FunctionCallOutputContentItem>, s: TruncationStyle, n: usize| #[trigger]
                call_requires(*truncation, (o, s, n)),
        ensures
            match key {
                None => items::item_views(shown@) == seq![receipt_item(context::too_large_text())],
                Some(key) => match terminal_step(self@, key.name()) {
                    TerminalStepView::Show(raw, decision) => is_shown_output(
                        *truncation,
                        raw,
                        decision,
                        max_output_tokens,
                        max_replacement_bytes as int,
                        items::item_views(shown@),
                    ),
                    _ => items::item_views(shown@) == seq![receipt_item(context::unavailable_text())],
                },
            },
    {
        match key {
            None => too_large_output(),
            Some(key) => match self.next_terminal_step(key) {
                TerminalStep::Show(raw, decision) => shown_output(
                    truncation,
                    &raw,
                    &decision,
                    max_output_tokens,
                    max_replacement_bytes,
                ),
                _ => unavailable_output(),
            },
        }
    }
}

/// What happens to a service after it was restored.
pub enum ServiceEvent {
    Started(OutputView),
    Claimed((Seq<char>, Seq<char>, Seq<char>)),
    Abandoned((Seq<char>, Seq<char>, Seq<char>)),
    Persisted((Seq<char>, Seq<char>, Seq<char>), bool),
    Decided((Seq<char>, Seq<char>, Seq<char>), DecisionView, bool),
    Marked(Seq<char>),
    Taken(Seq<char>),
}

/// A service after an event.
pub open spec fn after_event(service: ServiceView, event: ServiceEvent) -> ServiceView {
    match event {
        ServiceEvent::Started(output) => started(service, output),
        ServiceEvent::Claimed(key) => claimed(service, key),
        ServiceEvent::Abandoned(key) => abandoned(service, key),
        ServiceEvent::Persisted(key, stored) => persisted(service, key, stored),
        ServiceEvent::Decided(key, decision, committed) => decided(service, key, decision, committed),
        ServiceEvent::Marked(cell_id) => ServiceView { retrievals: service.retrievals.insert(cell_id), ..service },
        ServiceEvent::Taken(cell_id) => ServiceView { retrievals: service.retrievals.remove(cell_id), ..service },
    }
}

/// A service after several events.
pub open spec fn after_events(service: ServiceView, events: Seq<ServiceEvent>) -> ServiceView
    decreases events.len(),
{
    if events.len() == 0 {
        service
    } else {
        after_event(after_events(service, events.drop_last()), events.last())
    }
}

/// What is shown of an output is decided once: whatever happens later, the same is shown. An
/// output that could not be stored stays withheld.
pub proof fn law_a_decision_is_made_once(
    service: ServiceView,
    key: (Seq<char>, Seq<char>, Seq<char>),
    events: Seq<ServiceEvent>,
)
    requires
        service.cells.dom().contains(key),
        terminal_step(service, key) is Show || terminal_step(service, key) is Unavailable,
    ensures
        terminal_step(after_events(service, events), key) == terminal_step(service, key),
        after_events(service, events).cells.dom().contains(key),
    decreases events.len(),
{
    if events.len() > 0 {
        law_a_decision_is_made_once(service, key, events.drop_last());
    }
}

/// The output of a call that is known stays what it was first, whatever happens later: neither its
/// identity nor its items change, it is not stored again once it was or could not be, and not decided
/// on again once it was. It is only ever stored, then decided on, then shown.
pub proof fn law_a_call_keeps_its_first_output(
    service: ServiceView,
    key: (Seq<char>, Seq<char>, Seq<char>),
    events: Seq<ServiceEvent>,
)
    requires
        service.cells.dom().contains(key),
    ensures
        ({
            let after = after_events(service, events);
            &&& after.cells.dom().contains(key)
            &&& after.cells[key].raw == service.cells[key].raw
            &&& service.cells[key].persistence is Some ==> after.cells[key].persistence
                == service.cells[key].persistence
            &&& service.cells[key].decision is Some ==> after.cells[key].decision == service.cells[key].decision
            &&& !(terminal_step(service, key) is Persist) ==> !(terminal_step(after, key) is Persist)
            &&& terminal_step(service, key) is Reduce ==> terminal_step(after, key) == terminal_step(service, key)
                || (terminal_step(after, key) matches TerminalStepView::Show(raw, _) && raw == service.cells[key].raw)
        }),
    decreases events.len(),
{
    if events.len() > 0 {
        law_a_call_keeps_its_first_output(service, key, events.drop_last());
    }
}

/// How often a caller was given a call's output to store.
pub open spec fn storage_requests(
    service: ServiceView,
    events: Seq<ServiceEvent>,
    key: (Seq<char>, Seq<char>, Seq<char>),
) -> nat
    decreases events.len(),
{
    if events.len() == 0 {
        0
    } else {
        storage_requests(service, events.drop_last(), key) + if events.last() == ServiceEvent::Claimed(key)
            && claim_of(after_events(service, events.drop_last()), key) matches Some(TerminalStepView::Persist(_)) {
            1nat
        } else {
            0nat
        }
    }
}

/// How often a caller was given a call's output to have it decided on.
pub open spec fn reduction_requests(
    service: ServiceView,
    events: Seq<ServiceEvent>,
    key: (Seq<char>, Seq<char>, Seq<char>),
) -> nat
    decreases events.len(),
{
    if events.len() == 0 {
        0
    } else {
        reduction_requests(service, events.drop_last(), key) + if events.last() == ServiceEvent::Claimed(key)
            && claim_of(after_events(service, events.drop_last()), key) matches Some(TerminalStepView::Reduce(_)) {
            1nat
        } else {
            0nat
        }
    }
}

/// How often work on a call's output was given up.
pub open spec fn abandonments(events: Seq<ServiceEvent>, key: (Seq<char>, Seq<char>, Seq<char>)) -> nat
    decreases events.len(),
{
    if events.len() == 0 {
        0
    } else {
        abandonments(events.drop_last(), key) + if events.last() == ServiceEvent::Abandoned(key) {
            1nat
        } else {
            0nat
        }
    }
}

/// An output is stored once and decided on once, however many callers ask and however their calls
/// interleave: each is given out once, and once more for each time that it was given up undone.
pub proof fn law_an_output_is_stored_and_reduced_once(
    service: ServiceView,
    events: Seq<ServiceEvent>,
    key: (Seq<char>, Seq<char>, Seq<char>),
)
    ensures
        storage_requests(service, events, key) <= 1 + abandonments(events, key),
        reduction_requests(service, events, key) <= 1 + abandonments(events, key),
{
    lemma_given_out_once(service, events, key);
}

proof fn lemma_given_out_once(
    service: ServiceView,
    events: Seq<ServiceEvent>,
    key: (Seq<char>, Seq<char>, Seq<char>),
)
    ensures
        ({
            let cells = after_events(service, events).cells;
            let most = 1 + abandonments(events, key);
            &&& storage_requests(service, events, key) <= most
            &&& storage_requests(service, events, key) == most ==> cells.dom().contains(key) && (cells[key].claimed
                || cells[key].persistence is Some)
            &&& reduction_requests(service, events, key) <= most
            &&& reduction_requests(service, events, key) == most ==> cells.dom().contains(key)
                && cells[key].persistence == Some(true) && (cells[key].claimed || cells[key].decision is Some)
        }),
    decreases events.len(),
{
    if events.len() > 0 {
        lemma_given_out_once(service, events.drop_last(), key);
    }
}

/// Whether every stored output is found under its identity, and no output that is still to be
/// stored shares one.
pub open spec fn identities_are_sound(service: ServiceView) -> bool {
    &&& forall|key: (Seq<char>, Seq<char>, Seq<char>)| #[trigger]
        service.cells.dom().contains(key) && service.cells[key].persistence == Some(true)
            ==> service.outputs.dom().contains(service.cells[key].raw.object_id)
            && service.outputs[service.cells[key].raw.object_id] == service.cells[key].raw
    &&& forall|key: (Seq<char>, Seq<char>, Seq<char>)| #[trigger]
        service.cells.dom().contains(key) && service.cells[key].persistence is None
            ==> !service.outputs.dom().contains(service.cells[key].raw.object_id)
    &&& forall|key: (Seq<char>, Seq<char>, Seq<char>), other: (Seq<char>, Seq<char>, Seq<char>)|
        (#[trigger] service.cells.dom().contains(key)) && (#[trigger] service.cells.dom().contains(other)) && key
            != other && service.cells[key].persistence is None ==> service.cells[key].raw.object_id
            != service.cells[other].raw.object_id
}

/// Whether no output has this identity yet.
pub open spec fn is_unused(service: ServiceView, object_id: Seq<char>) -> bool {
    &&& !service.outputs.dom().contains(object_id)
    &&& forall|key: (Seq<char>, Seq<char>, Seq<char>)| #[trigger]
        service.cells.dom().contains(key) ==> service.cells[key].raw.object_id != object_id
}

/// Whether each output that is taken up gets an identity that no other output has.
pub open spec fn identities_are_fresh(service: ServiceView, events: Seq<ServiceEvent>) -> bool {
    forall|i: int|
        0 <= i < events.len() ==> match (#[trigger] events[i]) {
            ServiceEvent::Started(output) => is_unused(after_events(service, events.take(i)), output.object_id),
            _ => true,
        }
}

proof fn lemma_identities_stay_sound(service: ServiceView, events: Seq<ServiceEvent>)
    requires
        identities_are_sound(service),
        identities_are_fresh(service, events),
    ensures
        identities_are_sound(after_events(service, events)),
    decreases events.len(),
{
    if events.len() > 0 {
        let before = after_events(service, events.drop_last());
        assert(identities_are_fresh(service, events.drop_last())) by {
            assert forall|i: int| 0 <= i < events.drop_last().len() implies match (#[trigger] events.drop_last()[i]) {
                ServiceEvent::Started(output) => is_unused(
                    after_events(service, events.drop_last().take(i)),
                    output.object_id,
                ),
                _ => true,
            } by {
                assert(events.drop_last()[i] == events[i]);
                assert(events.drop_last().take(i) =~= events.take(i));
            }
        }
        lemma_identities_stay_sound(service, events.drop_last());
        assert(events.take(events.len() - 1) =~= events.drop_last());
        assert(events[events.len() - 1] == events.last());
        let after = after_event(before, events.last());
        match events.last() {
            ServiceEvent::Persisted(key, stored) => {
                if before.cells.dom().contains(key) && before.cells[key].persistence is None {
                    let id = before.cells[key].raw.object_id;
                    assert forall|k: (Seq<char>, Seq<char>, Seq<char>)| #[trigger]
                        after.cells.dom().contains(k) implies {
                        &&& after.cells[k].persistence == Some(true) ==> after.outputs.dom().contains(
                            after.cells[k].raw.object_id,
                        ) && after.outputs[after.cells[k].raw.object_id] == after.cells[k].raw
                        &&& after.cells[k].persistence is None ==> !after.outputs.dom().contains(
                            after.cells[k].raw.object_id,
                        )
                    } by {
                        assert(before.cells.dom().contains(k));
                        if k != key {
                            assert(before.cells[key].raw.object_id != before.cells[k].raw.object_id);
                        }
                    }
                    assert forall|
                        k: (Seq<char>, Seq<char>, Seq<char>),
                        other: (Seq<char>, Seq<char>, Seq<char>),
                    |
                        (#[trigger] after.cells.dom().contains(k)) && (#[trigger] after.cells.dom().contains(other)) && k
                            != other && after.cells[k].persistence is None implies after.cells[k].raw.object_id
                        != after.cells[other].raw.object_id by {
                        assert(before.cells.dom().contains(k) && before.cells.dom().contains(other));
                    }
                }
            },
            ServiceEvent::Started(output) => {
                assert(is_unused(before, output.object_id));
                assert forall|k: (Seq<char>, Seq<char>, Seq<char>), other: (Seq<char>, Seq<char>, Seq<char>)|
                    (#[trigger] after.cells.dom().contains(k)) && (#[trigger] after.cells.dom().contains(other)) && k
                        != other && after.cells[k].persistence is None implies after.cells[k].raw.object_id
                    != after.cells[other].raw.object_id by {
                    if !before.cells.dom().contains(key_of(output)) {
                        if k != key_of(output) {
                            assert(before.cells.dom().contains(k));
                        }
                        if other != key_of(output) {
                            assert(before.cells.dom().contains(other));
                        }
                    }
                }
                assert forall|k: (Seq<char>, Seq<char>, Seq<char>)| #[trigger]
                    after.cells.dom().contains(k) implies {
                    &&& after.cells[k].persistence == Some(true) ==> after.outputs.dom().contains(
                        after.cells[k].raw.object_id,
                    ) && after.outputs[after.cells[k].raw.object_id] == after.cells[k].raw
                    &&& after.cells[k].persistence is None ==> !after.outputs.dom().contains(
                        after.cells[k].raw.object_id,
                    )
                } by {
                    if before.cells.dom().contains(k) {
                    }
                }
            },
            ServiceEvent::Decided(..) | ServiceEvent::Claimed(_) | ServiceEvent::Abandoned(_) => {
                assert forall|k: (Seq<char>, Seq<char>, Seq<char>)| #[trigger]
                    after.cells.dom().contains(k) implies before.cells.dom().contains(k) && after.cells[k].raw
                    == before.cells[k].raw && after.cells[k].persistence == before.cells[k].persistence by {}
            },
            _ => {},
        }
    }
}

/// Nothing of an output is shown before the exact output is stored: whatever is shown belongs to
/// an output that its thread finds under its identity, exactly as it was kept.
pub proof fn law_what_is_shown_can_be_retrieved(
    service: ServiceView,
    events: Seq<ServiceEvent>,
    key: (Seq<char>, Seq<char>, Seq<char>),
)
    requires
        identities_are_sound(service),
        identities_are_fresh(service, events),
    ensures
        terminal_step(after_events(service, events), key) matches TerminalStepView::Show(raw, _) ==> found(
            after_events(service, events).outputs,
            raw.thread_id,
            raw.object_id,
        ) == Some(raw),
{
    lemma_identities_stay_sound(service, events);
}

/// A restored service starts out sound where no two outputs of its history share an identity.
pub proof fn law_restored_identities_are_sound(history: Seq<RolloutItem>, expected_thread: Option<Seq<char>>)
    requires
        forall|i: int, j: int|
            0 <= i < history.len() && 0 <= j < history.len() ==> match (#[trigger] history[i], #[trigger] history[j]) {
                (RolloutItem::TokenMiserOutput(a), RolloutItem::TokenMiserOutput(b)) => a.object_id@ == b.object_id@
                    ==> a@ == b@,
                _ => true,
            },
    ensures
        identities_are_sound(
            ServiceView {
                outputs: restored_outputs(history, expected_thread),
                cells: restored_cells(history, history, expected_thread),
                retrievals: Set::empty(),
            },
        ),
{
    lemma_restored_part(history, history.len() as int, expected_thread);
    assert(history.take(history.len() as int) =~= history);
    let cells = restored_cells(history, history, expected_thread);
    let outputs = restored_outputs(history, expected_thread);
    assert forall|key: (Seq<char>, Seq<char>, Seq<char>)| #[trigger] cells.dom().contains(key) implies cells[key].persistence
        == Some(true) && outputs.dom().contains(cells[key].raw.object_id) && outputs[cells[key].raw.object_id]
        == cells[key].raw by {
        assert(is_settled_from(history, history.len() as int, expected_thread, key, cells[key]));
        let i = choose|i: int|
            0 <= i < history.len() && #[trigger] is_restored_at(history, i, expected_thread, cells[key].raw);
        lemma_restored_output(history, history.len() as int, i, expected_thread);
    }
}

/// Whether a restored call is settled and comes from an output in the first part of a history.
spec fn is_settled_from(
    history: Seq<RolloutItem>,
    n: int,
    expected_thread: Option<Seq<char>>,
    key: (Seq<char>, Seq<char>, Seq<char>),
    state: OutputStateView,
) -> bool {
    &&& state.persistence == Some(true)
    &&& state.decision == Some(restored_decision(history, state.raw))
    &&& key == key_of(state.raw)
    &&& exists|i: int| 0 <= i < n && #[trigger] is_restored_at(history, i, expected_thread, state.raw)
}

spec fn is_restored_at(history: Seq<RolloutItem>, i: int, expected_thread: Option<Seq<char>>, raw: OutputView) -> bool {
    history[i] matches RolloutItem::TokenMiserOutput(output) && output@ == raw && is_restorable(raw, expected_thread)
}

proof fn lemma_restored_part(history: Seq<RolloutItem>, n: int, expected_thread: Option<Seq<char>>)
    requires
        0 <= n <= history.len(),
    ensures
        forall|key: (Seq<char>, Seq<char>, Seq<char>)| #[trigger]
            restored_cells(history, history.take(n), expected_thread).dom().contains(key) ==> is_settled_from(
                history,
                n,
                expected_thread,
                key,
                restored_cells(history, history.take(n), expected_thread)[key],
            ),
    decreases n,
{
    if n > 0 {
        lemma_restored_part(history, n - 1, expected_thread);
        assert(history.take(n).drop_last() =~= history.take(n - 1));
        assert(history.take(n).last() == history[n - 1]);
        let before = restored_cells(history, history.take(n - 1), expected_thread);
        let cells = restored_cells(history, history.take(n), expected_thread);
        assert forall|key: (Seq<char>, Seq<char>, Seq<char>)| #[trigger]
            cells.dom().contains(key) implies is_settled_from(history, n, expected_thread, key, cells[key]) by {
            if before.dom().contains(key) {
                assert(is_settled_from(history, n - 1, expected_thread, key, before[key]));
                let i = choose|i: int|
                    0 <= i < n - 1 && #[trigger] is_restored_at(history, i, expected_thread, before[key].raw);
                assert(is_restored_at(history, i, expected_thread, cells[key].raw));
            } else {
                assert(is_restored_at(history, n - 1, expected_thread, cells[key].raw));
            }
        }
    } else {
        assert(history.take(0) =~= Seq::<RolloutItem>::empty());
    }
}

/// A restorable output of a history is restored under its identity, where no two outputs share
/// one.
proof fn lemma_restored_output(history: Seq<RolloutItem>, n: int, i: int, expected_thread: Option<Seq<char>>)
    requires
        0 <= i < n <= history.len(),
        history[i] matches RolloutItem::TokenMiserOutput(raw) && is_restorable(raw@, expected_thread),
        forall|i: int, j: int|
            0 <= i < history.len() && 0 <= j < history.len() ==> match (#[trigger] history[i], #[trigger] history[j]) {
                (RolloutItem::TokenMiserOutput(a), RolloutItem::TokenMiserOutput(b)) => a.object_id@ == b.object_id@
                    ==> a@ == b@,
                _ => true,
            },
    ensures
        ({
            let outputs = restored_outputs(history.take(n), expected_thread);
            let raw = history[i]->TokenMiserOutput_0;
            outputs.dom().contains(raw.object_id@) && outputs[raw.object_id@] == raw@
        }),
    decreases n,
{
    assert(history.take(n).drop_last() =~= history.take(n - 1));
    assert(history.take(n).last() == history[n - 1]);
    if i < n - 1 {
        lemma_restored_output(history, n - 1, i, expected_thread);
    }
}

/// A restored output is settled: it is shown as it was decided, and as hidden where no decision
/// on it was stored. It is never reduced again.
pub proof fn law_restored_outputs_are_settled(
    history: Seq<RolloutItem>,
    expected_thread: Option<Seq<char>>,
    service: ServiceView,
    key: (Seq<char>, Seq<char>, Seq<char>),
)
    requires
        service.cells == restored_cells(history, history, expected_thread),
        service.cells.dom().contains(key),
    ensures
        terminal_step(service, key) == TerminalStepView::Show(
            service.cells[key].raw,
            restored_decision(history, service.cells[key].raw),
        ),
{
    assert(history.take(history.len() as int) =~= history);
    lemma_restored_part(history, history.len() as int, expected_thread);
}

/// An output that was stored and decided on before a restart is shown after it as it was decided:
/// the history holds the output, first of its call, and its record is the last decision on it.
pub proof fn law_a_restart_keeps_the_decision(
    history: Seq<RolloutItem>,
    expected_thread: Option<Seq<char>>,
    service: ServiceView,
    i: int,
)
    requires
        0 <= i < history.len(),
        history[i] matches RolloutItem::TokenMiserOutput(raw) && is_restorable(raw@, expected_thread),
        forall|j: int|
            0 <= j < i ==> match (#[trigger] history[j]) {
                RolloutItem::TokenMiserOutput(other) => key_of(other@) != key_of(
                    history[i]->TokenMiserOutput_0@,
                ),
                _ => true,
            },
        service.cells == restored_cells(history, history, expected_thread),
    ensures
        ({
            let raw = history[i]->TokenMiserOutput_0@;
            match latest_decision(history, raw.object_id) {
                Some(record) => record.thread_id@ == raw.thread_id && record.turn_id@ == raw.turn_id && record.call_id@
                    == raw.call_id && record.cell_id@ == raw.cell_id ==> terminal_step(service, key_of(raw))
                    == TerminalStepView::Show(raw, stored_decision(record.outcome)),
                None => terminal_step(service, key_of(raw)) == TerminalStepView::Show(
                    raw,
                    DecisionView::Hide("retained; prior reducer decision was unavailable"@),
                ),
            }
        }),
{
    lemma_first_of_its_call(history, history.len() as int, i, expected_thread);
    assert(history.take(history.len() as int) =~= history);
}

proof fn lemma_first_of_its_call(history: Seq<RolloutItem>, n: int, i: int, expected_thread: Option<Seq<char>>)
    requires
        0 <= i < history.len(),
        0 <= n <= history.len(),
        history[i] matches RolloutItem::TokenMiserOutput(raw) && is_restorable(raw@, expected_thread),
        forall|j: int|
            0 <= j < i ==> match (#[trigger] history[j]) {
                RolloutItem::TokenMiserOutput(other) => key_of(other@) != key_of(
                    history[i]->TokenMiserOutput_0@,
                ),
                _ => true,
            },
    ensures
        ({
            let cells = restored_cells(history, history.take(n), expected_thread);
            let raw = history[i]->TokenMiserOutput_0@;
            if i < n {
                cells.dom().contains(key_of(raw)) && cells[key_of(raw)] == (OutputStateView {
                    raw,
                    persistence: Some(true),
                    decision: Some(restored_decision(history, raw)),
                    claimed: false,
                })
            } else {
                !cells.dom().contains(key_of(raw))
            }
        }),
    decreases n,
{
    if n > 0 {
        lemma_first_of_its_call(history, n - 1, i, expected_thread);
        assert(history.take(n).drop_last() =~= history.take(n - 1));
        assert(history.take(n).last() == history[n - 1]);
    } else {
        assert(history.take(0) =~= Seq::<RolloutItem>::empty());
    }
}

/// Only a decision to pass an output through shows anything of it: under any other decision the
/// model reads the same, whatever the output holds.
pub proof fn law_only_passthrough_releases_the_output(
    decision: DecisionView,
    content_items: Seq<ItemView>,
    other_items: Seq<ItemView>,
    max_replacement_bytes: int,
)
    requires
        !(decision is Passthrough),
    ensures
        untruncated(decision, content_items, max_replacement_bytes) == untruncated(
            decision,
            other_items,
            max_replacement_bytes,
        ),
{
}

/// An output is found by its own thread alone: to another thread it is not there.
pub proof fn law_outputs_are_scoped_to_their_thread(
    outputs: Map<Seq<char>, OutputView>,
    thread_id: Seq<char>,
    object_id: Seq<char>,
    item_index: int,
    offset: int,
    requested_bytes: int,
    query: Seq<char>,
    requested_results: int,
)
    requires
        outputs.dom().contains(object_id) ==> outputs[object_id].thread_id != thread_id,
    ensures
        read_result(outputs, thread_id, object_id, item_index, offset, requested_bytes) == Err::<JsonView, Seq<char>>(
            not_found(),
        ),
        search_result(outputs, thread_id, object_id, query, requested_results) is Err,
{
}

/// A service that was restored from a history.
pub open spec fn restored_service(history: Seq<RolloutItem>, expected_thread: Option<Seq<char>>) -> ServiceView {
    ServiceView {
        outputs: restored_outputs(history, expected_thread),
        cells: restored_cells(history, history, expected_thread),
        retrievals: Set::empty(),
    }
}

/// Whether every output has a version 4 identity, and is stored under no other.
pub open spec fn identities_are_version_4(service: ServiceView) -> bool {
    &&& forall|object_id: Seq<char>| #[trigger]
        service.outputs.dom().contains(object_id) ==> identity::is_v4(object_id)
            && service.outputs[object_id].object_id == object_id
    &&& forall|key: (Seq<char>, Seq<char>, Seq<char>)| #[trigger]
        service.cells.dom().contains(key) ==> identity::is_v4(service.cells[key].raw.object_id)
}

proof fn lemma_restored_version_4(history: Seq<RolloutItem>, expected_thread: Option<Seq<char>>)
    ensures
        forall|object_id: Seq<char>| #[trigger]
            restored_outputs(history, expected_thread).dom().contains(object_id) ==> identity::is_v4(object_id)
                && restored_outputs(history, expected_thread)[object_id].object_id == object_id,
    decreases history.len(),
{
    if history.len() > 0 {
        lemma_restored_version_4(history.drop_last(), expected_thread);
    }
}

/// Every output of a session has a version 4 identity: of a restored one only such outputs are taken
/// up, and whatever happens later, it stays so where each output that is taken up has one, as a fresh
/// identity is.
pub proof fn law_stored_identities_are_version_4(
    history: Seq<RolloutItem>,
    expected_thread: Option<Seq<char>>,
    events: Seq<ServiceEvent>,
)
    requires
        forall|i: int|
            0 <= i < events.len() ==> (#[trigger] events[i] matches ServiceEvent::Started(output) ==> identity::is_v4(
                output.object_id,
            )),
    ensures
        identities_are_version_4(after_events(restored_service(history, expected_thread), events)),
    decreases events.len(),
{
    let service = restored_service(history, expected_thread);
    if events.len() == 0 {
        lemma_restored_version_4(history, expected_thread);
        lemma_restored_part(history, history.len() as int, expected_thread);
        assert(history.take(history.len() as int) =~= history);
        assert forall|key: (Seq<char>, Seq<char>, Seq<char>)| #[trigger]
            service.cells.dom().contains(key) implies identity::is_v4(service.cells[key].raw.object_id) by {
            assert(is_settled_from(history, history.len() as int, expected_thread, key, service.cells[key]));
        }
    } else {
        assert forall|i: int| 0 <= i < events.drop_last().len() implies (#[trigger] events.drop_last()[i] matches ServiceEvent::Started(
            output,
        ) ==> identity::is_v4(output.object_id)) by {
            assert(events.drop_last()[i] == events[i]);
        }
        law_stored_identities_are_version_4(history, expected_thread, events.drop_last());
        assert(events[events.len() - 1] == events.last());
        let before = after_events(service, events.drop_last());
        let after = after_events(service, events);
        assert forall|key: (Seq<char>, Seq<char>, Seq<char>)| #[trigger]
            after.cells.dom().contains(key) implies identity::is_v4(after.cells[key].raw.object_id) by {
            if before.cells.dom().contains(key) {
            }
        }
        assert forall|object_id: Seq<char>| #[trigger] after.outputs.dom().contains(object_id) implies identity::is_v4(
            object_id,
        ) && after.outputs[object_id].object_id == object_id by {
            if let ServiceEvent::Persisted(key, _) = events.last() {
                if before.cells.dom().contains(key) {
                }
            }
            if before.outputs.dom().contains(object_id) {
            }
        }
    }
}

/// The text of a search's result stays within its bound, in a service whose outputs have version 4
/// identities.
pub proof fn law_search_results_are_bounded(
    service: ServiceView,
    thread_id: Seq<char>,
    object_id: Seq<char>,
    query: Seq<char>,
    requested_results: int,
)
    requires
        identities_are_version_4(service),
    ensures
        search_result(service.outputs, thread_id, object_id, query, requested_results) matches Ok(result)
            ==> text::byte_len(json::json_text(result)) <= MAX_READ_BYTES,
{
    if search_result(service.outputs, thread_id, object_id, query, requested_results) is Ok {
        let output = found(service.outputs, thread_id, object_id)->0;
        let max_results = clamped(requested_results, 1, MAX_SEARCH_RESULTS as int);
        let matches = first_n(all_matches(output.content_items, output.content_items.len(), query), max_results);
        lemma_fitting(object_id, query, matches, max_results, matches.len());
        lemma_empty_search(object_id, query, max_results);
        assert(matches.take(0) =~= Seq::<JsonView>::empty());
    }
}

proof fn lemma_fitting(object_id: Seq<char>, query: Seq<char>, matches: Seq<JsonView>, max_results: int, n: nat)
    ensures
        ({
            let k = fitting(object_id, query, matches, max_results, n);
            k == 0 || text::byte_len(
                json::json_text(search_json(object_id, query, matches.take(k as int), max_results)),
            ) <= MAX_READ_BYTES
        }),
    decreases n,
{
    if n > 0 {
        lemma_fitting(object_id, query, matches, max_results, (n - 1) as nat);
    }
}

proof fn lemma_empty_search(object_id: Seq<char>, query: Seq<char>, max_results: int)
    requires
        object_id.len() <= 45,
        text::byte_len(query) <= MAX_SEARCH_QUERY_BYTES,
        1 <= max_results <= MAX_SEARCH_RESULTS,
    ensures
        text::byte_len(json::json_text(search_json(object_id, query, Seq::empty(), max_results))) <= MAX_READ_BYTES,
{
    let j = search_json(object_id, query, Seq::empty(), max_results);
    let members = j->Object_0;
    json::lemma_object_bytes(members);
    json::lemma_quoted_bytes(object_id);
    json::lemma_quoted_bytes(query);
    text::lemma_byte_len_bounds(object_id);
    json::lemma_small_int_bytes(max_results);
    reveal_strlit("matches");
    reveal_strlit("max_results");
    reveal_strlit("object_id");
    reveal_strlit("query");
    json::lemma_quoted_plain("matches"@);
    json::lemma_quoted_plain("max_results"@);
    json::lemma_quoted_plain("object_id"@);
    json::lemma_quoted_plain("query"@);
    let none = Seq::<JsonView>::empty();
    assert(json::items_text(none, 0) =~= Seq::<char>::empty());
    assert(json::json_text(JsonView::Array(none)) =~= seq!['[', ']']);
    text::lemma_ascii_byte_len(seq!['[', ']']);
    reveal_with_fuel(json::members_bytes, 5);
    assert(members.len() == 4);
}

/// Whether an item carries this text: its own text, its address or its ciphertext.
pub open spec fn carries(item: ItemView, source: Seq<char>) -> bool {
    match item {
        ItemView::InputText { text } => source == text,
        ItemView::InputImage { image_url, .. } => source == image_url,
        ItemView::InputAudio { audio_url } => source == audio_url,
        ItemView::EncryptedContent { encrypted_content } => source == encrypted_content,
    }
}

/// Whether a thread owns an output with an item at this place that carries this text.
pub open spec fn is_readable(
    outputs: Map<Seq<char>, OutputView>,
    thread_id: Seq<char>,
    object_id: Seq<char>,
    item_index: int,
    source: Seq<char>,
) -> bool {
    &&& outputs.dom().contains(object_id)
    &&& outputs[object_id].thread_id == thread_id
    &&& 0 <= item_index < outputs[object_id].content_items.len()
    &&& carries(outputs[object_id].content_items[item_index], source)
}

/// Whether a read's result returns the bytes of a source from one place up to another, and says
/// where they are and where the source goes on.
pub open spec fn returns_bytes(result: JsonView, source: Seq<char>, start: int, end: int, content: Seq<char>) -> bool {
    let bytes = encode_utf8(source);
    &&& 0 <= start <= end <= bytes.len()
    &&& json::json_get(result, "content"@) == Some(JsonView::Text(content))
    &&& encode_utf8(content) == bytes.subrange(start, end)
    &&& json::json_get(result, "offset"@) == Some(JsonView::Int(start))
    &&& json::json_get(result, "next_offset"@) == Some(
        if end < bytes.len() {
            JsonView::Int(end)
        } else {
            JsonView::Null
        },
    )
    &&& json::json_get(result, "total_bytes"@) == Some(JsonView::Int(bytes.len() as int))
}

/// The members of a read's result, by their keys.
proof fn lemma_read_members(output: OutputView, object_id: Seq<char>, item_index: int, offset: int, max_bytes: int)
    ensures
        ({
            let result = read_json(output, object_id, item_index, offset, max_bytes);
            let item = output.content_items[item_index];
            let source = items::source_of(item);
            &&& json::json_get(result, "content"@) == Some(JsonView::Text(piece(source, offset, max_bytes)))
            &&& json::json_get(result, "detail"@) == Some(items::detail_of(item))
            &&& json::json_get(result, "item_count"@) == Some(JsonView::Int(output.content_items.len() as int))
            &&& json::json_get(result, "item_index"@) == Some(JsonView::Int(item_index))
            &&& json::json_get(result, "kind"@) == Some(JsonView::Text(items::kind_of(item)))
            &&& json::json_get(result, "next_offset"@) == Some(
                json::int_or_null(next_offset(source, offset, max_bytes)),
            )
            &&& json::json_get(result, "object_id"@) == Some(JsonView::Text(object_id))
            &&& json::json_get(result, "offset"@) == Some(JsonView::Int(offset))
            &&& json::json_get(result, "total_bytes"@) == Some(JsonView::Int(text::byte_len(source) as int))
        }),
{
    reveal_strlit("content");
    reveal_strlit("detail");
    reveal_strlit("item_count");
    reveal_strlit("item_index");
    reveal_strlit("kind");
    reveal_strlit("next_offset");
    reveal_strlit("object_id");
    reveal_strlit("offset");
    reveal_strlit("total_bytes");
    assert("content"@.len() == 7 && "kind"@.len() == 4 && "object_id"@.len() == 9);
    assert("detail"@.len() == 6 && "offset"@.len() == 6);
    assert("item_count"@.len() == 10 && "item_index"@.len() == 10);
    assert("next_offset"@.len() == 11 && "total_bytes"@.len() == 11);
    assert("item_count"@[5] != "item_index"@[5]);
    assert("detail"@[0] != "offset"@[0]);
    assert("next_offset"@[0] != "total_bytes"@[0]);
    let members = read_json(output, object_id, item_index, offset, max_bytes)->Object_0;
    json::lemma_member_found(members, 0);
    json::lemma_member_found(members, 1);
    json::lemma_member_found(members, 2);
    json::lemma_member_found(members, 3);
    json::lemma_member_found(members, 4);
    json::lemma_member_found(members, 5);
    json::lemma_member_found(members, 6);
    json::lemma_member_found(members, 7);
    json::lemma_member_found(members, 8);
}

proof fn lemma_piece_bytes(source: Seq<char>, offset: int, max_bytes: int)
    requires
        text::at_boundary(source, offset),
        max_bytes >= 0,
    ensures
        ({
            let bytes = encode_utf8(source);
            let read = piece(source, offset, max_bytes);
            let end = offset + text::byte_len(read);
            &&& 0 <= offset <= end <= bytes.len()
            &&& encode_utf8(read) == bytes.subrange(offset, end)
            &&& end - offset <= max_bytes
            &&& text::at_boundary(source, end)
            &&& forall|further: int|
                end < further <= bytes.len() && #[trigger] is_char_boundary(bytes, further) ==> further - offset
                    > max_bytes
        }),
{
    let bytes = encode_utf8(source);
    let k = text::whole_chars(source, offset) as int;
    text::lemma_whole_chars(source, offset);
    let left = source.skip(k);
    let n = text::whole_chars(left, max_bytes) as int;
    text::lemma_whole_chars(left, max_bytes);
    let read = piece(source, offset, max_bytes);
    let end = offset + text::byte_len(read);
    let head = source.take(k);
    let tail = left.skip(n);
    assert(left =~= read + tail);
    assert(source =~= head + left);
    assert(head + left =~= head + read + tail);
    text::lemma_encode_concat(head, read);
    text::lemma_encode_concat(head + read, tail);
    assert(encode_utf8(read) =~= bytes.subrange(offset, end));
    assert(source.take(k + n) =~= head + read);
    text::lemma_whole_chars_of_prefix(source, k + n);
    assert forall|further: int|
        end < further <= bytes.len() && #[trigger] is_char_boundary(bytes, further) implies further - offset
        > max_bytes by {
        text::lemma_boundary(source, further);
        let m = text::whole_chars(source, further) as int;
        text::lemma_whole_chars(source, further);
        assert(text::byte_len(source.take(k + n)) <= further);
        assert(m >= k + n);
        assert(source.take(m) =~= head + left.take(m - k));
        text::lemma_encode_concat(head, left.take(m - k));
        if further - offset <= max_bytes {
            assert(text::byte_len(left.take(m - k)) <= max_bytes);
            assert(m - k <= n);
            assert(m == k + n);
        }
    }
}

/// A read returns the source's own bytes: the content of a successful read is exactly the bytes of the
/// item's text from the offset up to the next one, or up to the end where there is no next one. It is
/// no longer than was asked, one byte at the least and the bound at the most, and a further character
/// would not have fitted.
pub proof fn law_a_read_returns_the_exact_bytes(
    outputs: Map<Seq<char>, OutputView>,
    thread_id: Seq<char>,
    object_id: Seq<char>,
    item_index: int,
    offset: int,
    requested_bytes: int,
    source: Seq<char>,
)
    requires
        is_readable(outputs, thread_id, object_id, item_index, source),
        is_char_boundary(encode_utf8(source), offset),
    ensures
        exists|result: JsonView, content: Seq<char>, end: int|
            {
                &&& read_result(outputs, thread_id, object_id, item_index, offset, requested_bytes) == Ok::<
                    JsonView,
                    Seq<char>,
                >(result)
                &&& #[trigger] returns_bytes(result, source, offset, end, content)
                &&& end - offset <= 1 || end - offset <= requested_bytes
                &&& end - offset <= 8192
                &&& forall|further: int|
                    end < further <= encode_utf8(source).len() && #[trigger] is_char_boundary(
                        encode_utf8(source),
                        further,
                    ) ==> further - offset > requested_bytes || further - offset > 8192
            },
{
    text::lemma_boundary(source, offset);
    let output = outputs[object_id];
    let max_bytes = clamped(requested_bytes, 1, MAX_READ_BYTES as int);
    let result = read_json(output, object_id, item_index, offset, max_bytes);
    lemma_read_members(output, object_id, item_index, offset, max_bytes);
    lemma_piece_bytes(source, offset, max_bytes);
    let content = piece(source, offset, max_bytes);
    let end = offset + text::byte_len(content);
    assert(returns_bytes(result, source, offset, end, content));
}

/// A read succeeds for the owner of an existing item at an offset between two of its characters, and
/// for nobody else and nowhere else. It then names the item that was read.
pub proof fn law_a_read_is_answered_to_its_owner(
    outputs: Map<Seq<char>, OutputView>,
    thread_id: Seq<char>,
    object_id: Seq<char>,
    item_index: int,
    offset: int,
    requested_bytes: int,
)
    requires
        item_index >= 0,
    ensures
        match read_result(outputs, thread_id, object_id, item_index, offset, requested_bytes) {
            Ok(result) => {
                let output = outputs[object_id];
                let item = output.content_items[item_index];
                &&& exists|source: Seq<char>|
                    #[trigger] is_readable(outputs, thread_id, object_id, item_index, source) && is_char_boundary(
                        encode_utf8(source),
                        offset,
                    )
                &&& json::json_get(result, "object_id"@) == Some(JsonView::Text(object_id))
                &&& json::json_get(result, "item_index"@) == Some(JsonView::Int(item_index))
                &&& json::json_get(result, "item_count"@) == Some(JsonView::Int(output.content_items.len() as int))
                &&& json::json_get(result, "kind"@) == Some(
                    JsonView::Text(
                        match item {
                            ItemView::InputText { .. } => "input_text"@,
                            ItemView::InputImage { .. } => "input_image"@,
                            ItemView::InputAudio { .. } => "input_audio"@,
                            ItemView::EncryptedContent { .. } => "encrypted_content"@,
                        },
                    ),
                )
                &&& json::json_get(result, "detail"@) == Some(
                    match item {
                        ItemView::InputImage { detail: Some(detail), .. } => JsonView::Text(detail),
                        _ => JsonView::Null,
                    },
                )
            },
            Err(error) => {
                let owned = outputs.dom().contains(object_id) && outputs[object_id].thread_id == thread_id;
                let exists_item = item_index < outputs[object_id].content_items.len();
                &&& forall|source: Seq<char>|
                    #[trigger] is_readable(outputs, thread_id, object_id, item_index, source) ==> !is_char_boundary(
                        encode_utf8(source),
                        offset,
                    )
                &&& !owned ==> error == "Token Miser output was not found in this session"@
                &&& owned && !exists_item ==> error == "content item "@ + text::decimal(item_index as nat)
                    + " does not exist"@
                &&& owned && exists_item ==> error == "offset must be a UTF-8 boundary within the selected item"@
            },
        },
{
    if outputs.dom().contains(object_id) && outputs[object_id].thread_id == thread_id && item_index
        < outputs[object_id].content_items.len() {
        let output = outputs[object_id];
        let source = items::source_of(output.content_items[item_index]);
        assert(is_readable(outputs, thread_id, object_id, item_index, source));
        text::lemma_boundary(source, offset);
        lemma_read_members(
            output,
            object_id,
            item_index,
            offset,
            clamped(requested_bytes, 1, MAX_READ_BYTES as int),
        );
    }
}

/// The contents that successive reads return, one after the other: each read starts where the last one
/// said that the source goes on.
pub open spec fn returned_through(
    outputs: Map<Seq<char>, OutputView>,
    thread_id: Seq<char>,
    object_id: Seq<char>,
    item_index: int,
    offset: int,
    requested_bytes: int,
    reads: nat,
) -> Seq<char>
    decreases reads,
{
    if reads == 0 {
        Seq::empty()
    } else {
        match read_result(outputs, thread_id, object_id, item_index, offset, requested_bytes) {
            Ok(result) => {
                let content = match json::json_get(result, "content"@) {
                    Some(JsonView::Text(content)) => content,
                    _ => Seq::empty(),
                };
                match json::json_get(result, "next_offset"@) {
                    Some(JsonView::Int(next)) => content + returned_through(
                        outputs,
                        thread_id,
                        object_id,
                        item_index,
                        next,
                        requested_bytes,
                        (reads - 1) as nat,
                    ),
                    _ => content,
                }
            },
            Err(_) => Seq::empty(),
        }
    }
}

/// What successive reads return is the source: their contents, as they are returned, one after the
/// other from the start, are the item's exact text, in one read more than it has bytes at the most,
/// where each of its characters fits into a read. Into a read of four bytes or more each does.
pub proof fn law_successive_reads_return_the_source(
    outputs: Map<Seq<char>, OutputView>,
    thread_id: Seq<char>,
    object_id: Seq<char>,
    item_index: int,
    requested_bytes: int,
    source: Seq<char>,
)
    requires
        is_readable(outputs, thread_id, object_id, item_index, source),
        requested_bytes >= 4 || (forall|i: int|
            0 <= i < source.len() ==> encode_utf8(seq![#[trigger] source[i]]).len() <= 1 || encode_utf8(
                seq![source[i]],
            ).len() <= requested_bytes),
    ensures
        returned_through(
            outputs,
            thread_id,
            object_id,
            item_index,
            0,
            requested_bytes,
            encode_utf8(source).len() + 1,
        ) == source,
{
    let max_bytes = clamped(requested_bytes, 1, MAX_READ_BYTES as int);
    assert(max_bytes >= 4 || characters_fit(source, max_bytes)) by {
        if requested_bytes < 4 {
            assert forall|i: int| 0 <= i < source.len() implies text::char_width(#[trigger] source[i])
                <= max_bytes by {
                text::lemma_byte_len_unfold(seq![source[i]]);
                text::lemma_byte_len_empty();
                assert(seq![source[i]].drop_first() =~= Seq::<char>::empty());
            }
        }
    }
    lemma_start_is_boundary(source);
    lemma_returned_through(
        outputs,
        thread_id,
        object_id,
        item_index,
        0,
        requested_bytes,
        source,
        text::byte_len(source) + 1,
    );
    assert(source.skip(0) =~= source);
}

proof fn lemma_start_is_boundary(source: Seq<char>)
    ensures
        text::at_boundary(source, 0),
        text::whole_chars(source, 0) == 0,
{
    assert(source.take(0) =~= Seq::<char>::empty());
    text::lemma_byte_len_empty();
    text::lemma_whole_chars_of_prefix(source, 0);
}

proof fn lemma_returned_through(
    outputs: Map<Seq<char>, OutputView>,
    thread_id: Seq<char>,
    object_id: Seq<char>,
    item_index: int,
    offset: int,
    requested_bytes: int,
    source: Seq<char>,
    reads: nat,
)
    requires
        is_readable(outputs, thread_id, object_id, item_index, source),
        ({
            let max_bytes = clamped(requested_bytes, 1, MAX_READ_BYTES as int);
            max_bytes >= 4 || characters_fit(source, max_bytes)
        }),
        text::at_boundary(source, offset),
        reads > text::byte_len(source) - offset,
        0 <= offset <= text::byte_len(source),
    ensures
        returned_through(outputs, thread_id, object_id, item_index, offset, requested_bytes, reads) == source.skip(
            text::whole_chars(source, offset) as int,
        ),
    decreases reads,
{
    let max_bytes = clamped(requested_bytes, 1, MAX_READ_BYTES as int);
    lemma_read_members(outputs[object_id], object_id, item_index, offset, max_bytes);
    law_reading_on_misses_nothing(source, offset, max_bytes);
    if let Some(next) = next_offset(source, offset, max_bytes) {
        law_reads_make_progress(source, offset, max_bytes);
        lemma_returned_through(
            outputs,
            thread_id,
            object_id,
            item_index,
            next,
            requested_bytes,
            source,
            (reads - 1) as nat,
        );
    }
}

/// Whether a text has a line from one place up to another: it begins at the start or after a line feed
/// and reaches to the next line feed, which belongs to it, or to the end.
pub open spec fn is_line(t: Seq<char>, start: int, end: int) -> bool {
    &&& 0 <= start < end <= t.len()
    &&& start == 0 || t[start - 1] == '\n'
    &&& end == t.len() || t[end - 1] == '\n'
    &&& forall|i: int| start <= i < end - 1 ==> #[trigger] t[i] != '\n'
}

/// Whether a query stands at a place of a text, all of it before another place.
pub open spec fn occurs_before(t: Seq<char>, query: Seq<char>, at: int, end: int) -> bool {
    0 <= at && at + query.len() <= end <= t.len() && t.subrange(at, at + query.len()) == query
}

/// Whether a text is the longest start of a line that takes up no more than 512 bytes.
pub open spec fn is_snippet(snippet: Seq<char>, line: Seq<char>) -> bool {
    &&& snippet.len() <= line.len()
    &&& snippet == line.take(snippet.len() as int)
    &&& encode_utf8(snippet).len() <= 512
    &&& snippet.len() < line.len() ==> encode_utf8(line.take(snippet.len() as int + 1)).len() > 512
}

/// The number of the line that begins at a place: one more than there are line feeds before it.
pub open spec fn line_number(t: Seq<char>, start: int) -> int {
    t.take(start).to_multiset().count('\n') as int + 1
}

/// Whether a match reports the line of a text from one place up to another: it names the item, counts
/// the line by the line feeds before it, gives the bytes of the line before the first place at which
/// the query stands in it, and shows the start of the line.
pub open spec fn reports(m: JsonView, item_index: int, t: Seq<char>, query: Seq<char>, start: int, end: int) -> bool {
    &&& is_line(t, start, end)
    &&& json::json_get(m, "item_index"@) == Some(JsonView::Int(item_index))
    &&& json::json_get(m, "line"@) == Some(JsonView::Int(line_number(t, start)))
    &&& exists|at: int|
        {
            &&& start <= at
            &&& #[trigger] occurs_before(t, query, at, end)
            &&& forall|earlier: int| start <= earlier < at ==> !#[trigger] occurs_before(t, query, earlier, end)
            &&& json::json_get(m, "column"@) == Some(JsonView::Int(encode_utf8(t.subrange(start, at)).len() as int))
        }
    &&& exists|snippet: Seq<char>|
        json::json_get(m, "snippet"@) == Some(JsonView::Text(snippet)) && #[trigger] is_snippet(
            snippet,
            t.subrange(start, end),
        )
}

/// Whether a match reports some line of a text, at or after a place.
pub open spec fn reports_some_line(m: JsonView, item_index: int, t: Seq<char>, query: Seq<char>, from: int) -> bool {
    exists|start: int, end: int| from <= start && #[trigger] reports(m, item_index, t, query, start, end)
}

/// Whether one of several matches reports a line of a text.
pub open spec fn is_reported(
    matches: Seq<JsonView>,
    item_index: int,
    t: Seq<char>,
    query: Seq<char>,
    start: int,
    end: int,
) -> bool {
    exists|i: int| 0 <= i < matches.len() && #[trigger] reports(matches[i], item_index, t, query, start, end)
}

/// The integer that a match has under a key.
pub open spec fn number_of(m: JsonView, key: Seq<char>) -> int {
    match json::json_get(m, key) {
        Some(JsonView::Int(n)) => n,
        _ => 0,
    }
}

proof fn lemma_first_occurrence(line: Seq<char>, query: Seq<char>, from: int)
    requires
        from >= 0,
    ensures
        match first_occurrence(line, query, from) {
            Some(at) => {
                &&& from <= at
                &&& occurs_before(line, query, at, line.len() as int)
                &&& forall|b: int| from <= b < at ==> !#[trigger] occurs_before(line, query, b, line.len() as int)
            },
            None => forall|b: int| from <= b ==> !#[trigger] occurs_before(line, query, b, line.len() as int),
        },
    decreases line.len() + 1 - from,
{
    if from + query.len() <= line.len() && line.subrange(from, from + query.len()) != query {
        lemma_first_occurrence(line, query, from + 1);
        assert(!occurs_before(line, query, from, line.len() as int));
    }
}

proof fn lemma_line_occurrence(t: Seq<char>, query: Seq<char>, start: int, end: int, at: int)
    requires
        0 <= start <= end <= t.len(),
        start <= at,
    ensures
        occurs_before(t, query, at, end) <==> occurs_before(t.subrange(start, end), query, at - start, end - start),
{
    if at + query.len() <= end {
        assert(t.subrange(start, end).subrange(at - start, at - start + query.len()) =~= t.subrange(
            at,
            at + query.len(),
        ));
    }
}

proof fn lemma_match_members(item_index: int, line_index: int, line: Seq<char>, at: int)
    ensures
        ({
            let m = match_json(item_index, line_index, line, at);
            &&& json::json_get(m, "column"@) == Some(JsonView::Int(text::byte_len(line.take(at)) as int))
            &&& json::json_get(m, "item_index"@) == Some(JsonView::Int(item_index))
            &&& json::json_get(m, "line"@) == Some(JsonView::Int(line_index + 1))
            &&& json::json_get(m, "snippet"@) == Some(
                JsonView::Text(text::byte_prefix(line, MAX_SEARCH_SNIPPET_BYTES as int)),
            )
        }),
{
    reveal_strlit("column");
    reveal_strlit("item_index");
    reveal_strlit("line");
    reveal_strlit("snippet");
    assert("column"@.len() == 6 && "item_index"@.len() == 10 && "line"@.len() == 4 && "snippet"@.len() == 7);
    let members = match_json(item_index, line_index, line, at)->Object_0;
    json::lemma_member_found(members, 0);
    json::lemma_member_found(members, 1);
    json::lemma_member_found(members, 2);
    json::lemma_member_found(members, 3);
}

proof fn lemma_line_match(item_index: int, line_index: int, t: Seq<char>, query: Seq<char>, start: int, end: int)
    requires
        is_line(t, start, end),
        line_index == t.take(start).to_multiset().count('\n'),
    ensures
        ({
            let found = line_match(item_index, line_index, t.subrange(start, end), query);
            &&& found.len() <= 1
            &&& found.len() == 1 ==> reports(found[0], item_index, t, query, start, end) && number_of(
                found[0],
                "line"@,
            ) == line_index + 1
            &&& found.len() == 0 ==> forall|at: int| start <= at ==> !#[trigger] occurs_before(t, query, at, end)
        }),
{
    let line = t.subrange(start, end);
    lemma_first_occurrence(line, query, 0);
    match first_occurrence(line, query, 0) {
        Some(p) => {
            let m = match_json(item_index, line_index, line, p);
            lemma_match_members(item_index, line_index, line, p);
            let at = start + p;
            lemma_line_occurrence(t, query, start, end, at);
            assert(occurs_before(t, query, at, end));
            assert forall|earlier: int| start <= earlier < at implies !#[trigger] occurs_before(
                t,
                query,
                earlier,
                end,
            ) by {
                lemma_line_occurrence(t, query, start, end, earlier);
                assert(!occurs_before(line, query, earlier - start, line.len() as int));
            }
            assert(line.take(p) =~= t.subrange(start, at));
            let snippet = text::byte_prefix(line, MAX_SEARCH_SNIPPET_BYTES as int);
            text::lemma_whole_chars(line, MAX_SEARCH_SNIPPET_BYTES as int);
            let n = snippet.len() as int;
            assert(n == text::whole_chars(line, MAX_SEARCH_SNIPPET_BYTES as int));
            if n < line.len() {
                assert(text::byte_len(line.take(n + 1)) > MAX_SEARCH_SNIPPET_BYTES);
            }
            assert(is_snippet(snippet, line));
            assert(reports(m, item_index, t, query, start, end));
        },
        None => {
            assert forall|at: int| start <= at implies !#[trigger] occurs_before(t, query, at, end) by {
                lemma_line_occurrence(t, query, start, end, at);
                assert(!occurs_before(line, query, at - start, line.len() as int));
            }
        },
    }
}

proof fn lemma_first_line(t: Seq<char>, start: int)
    requires
        0 <= start < t.len(),
        start == 0 || t[start - 1] == '\n',
    ensures
        ({
            let end = start + line_len(t.skip(start));
            &&& is_line(t, start, end)
            &&& t.skip(start).take(line_len(t.skip(start)) as int) == t.subrange(start, end)
            &&& t.skip(start).skip(line_len(t.skip(start)) as int) == t.skip(end)
            &&& end < t.len() ==> t.take(end).to_multiset().count('\n') == t.take(start).to_multiset().count('\n') + 1
        }),
{
    let rest = t.skip(start);
    let n = line_len(rest) as int;
    lemma_line_len(rest);
    lemma_line_extent(rest);
    let end = start + n;
    assert forall|i: int| start <= i < end - 1 implies #[trigger] t[i] != '\n' by {
        assert(rest[i - start] == t[i]);
    }
    if end < t.len() {
        assert(rest[n - 1] == t[end - 1]);
    }
    assert(rest.take(n) =~= t.subrange(start, end));
    assert(rest.skip(n) =~= t.skip(end));
    if end < t.len() {
        let body = t.subrange(start, end - 1);
        body.to_multiset_ensures();
        assert(!body.contains('\n'));
        assert(t.subrange(start, end) =~= body.push('\n'));
        assert(t.take(end) =~= t.take(start) + t.subrange(start, end));
        vstd::seq_lib::lemma_multiset_commutative(t.take(start), t.subrange(start, end));
        assert(body.push('\n').to_multiset() =~= body.to_multiset().insert('\n'));
    }
}

proof fn lemma_line_extent(s: Seq<char>)
    requires
        s.len() > 0,
    ensures
        1 <= line_len(s) <= s.len(),
        forall|i: int| 0 <= i < line_len(s) - 1 ==> #[trigger] s[i] != '\n',
        line_len(s) == s.len() || s[line_len(s) - 1] == '\n',
    decreases s.len(),
{
    if s[0] != '\n' {
        let rest = s.drop_first();
        if rest.len() > 0 {
            lemma_line_extent(rest);
            assert forall|i: int| 0 <= i < line_len(s) - 1 implies #[trigger] s[i] != '\n' by {
                if i > 0 {
                    assert(rest[i - 1] == s[i]);
                }
            }
        } else {
            assert(line_len(rest) == 0);
        }
    }
}

#[verifier::spinoff_prover]
#[verifier::rlimit(40)]
proof fn lemma_text_matches(item_index: int, t: Seq<char>, query: Seq<char>, start: int)
    requires
        0 <= start <= t.len(),
        start == 0 || start == t.len() || t[start - 1] == '\n',
    ensures
        ({
            let before = t.take(start).to_multiset().count('\n') as int;
            let matches = text_matches(item_index, before, t.skip(start), query);
            &&& forall|i: int|
                0 <= i < matches.len() ==> #[trigger] reports_some_line(matches[i], item_index, t, query, start)
            &&& forall|i: int| 0 <= i < matches.len() ==> number_of(#[trigger] matches[i], "line"@) > before
            &&& forall|i: int, j: int|
                0 <= i < j < matches.len() ==> number_of(#[trigger] matches[i], "line"@) < number_of(
                    #[trigger] matches[j],
                    "line"@,
                )
            &&& forall|s: int, e: int, at: int|
                start <= s <= at && #[trigger] is_line(t, s, e) && #[trigger] occurs_before(t, query, at, e)
                    ==> is_reported(matches, item_index, t, query, s, e)
        }),
    decreases t.len() - start,
{
    let before = t.take(start).to_multiset().count('\n') as int;
    let rest = t.skip(start);
    let matches = text_matches(item_index, before, rest, query);
    if start < t.len() {
        lemma_first_line(t, start);
        let n = line_len(rest) as int;
        let end = start + n;
        lemma_line_match(item_index, before, t, query, start, end);
        let found = line_match(item_index, before, t.subrange(start, end), query);
        let later = text_matches(item_index, before + 1, t.skip(end), query);
        assert(matches == found + later);
        if end < t.len() {
            lemma_text_matches(item_index, t, query, end);
        } else {
            assert(later =~= Seq::<JsonView>::empty());
        }
        assert forall|i: int| 0 <= i < matches.len() implies #[trigger] reports_some_line(
            matches[i],
            item_index,
            t,
            query,
            start,
        ) by {
            if i < found.len() {
                assert(reports(matches[i], item_index, t, query, start, end));
            } else {
                assert(matches[i] == later[i - found.len()]);
                assert(reports_some_line(later[i - found.len()], item_index, t, query, end));
                let (s, e) = choose|s: int, e: int| end <= s && #[trigger] reports(matches[i], item_index, t, query, s, e);
                assert(reports(matches[i], item_index, t, query, s, e));
            }
        }
        assert forall|i: int| 0 <= i < matches.len() implies number_of(#[trigger] matches[i], "line"@) > before by {
            if i >= found.len() {
                assert(matches[i] == later[i - found.len()]);
            }
        }
        assert forall|i: int, j: int| 0 <= i < j < matches.len() implies number_of(#[trigger] matches[i], "line"@)
            < number_of(#[trigger] matches[j], "line"@) by {
            assert(matches[j] == later[j - found.len()]);
            if i >= found.len() {
                assert(matches[i] == later[i - found.len()]);
            }
        }
        assert forall|s: int, e: int, at: int|
            start <= s <= at && #[trigger] is_line(t, s, e) && #[trigger] occurs_before(t, query, at, e) implies is_reported(
            matches,
            item_index,
            t,
            query,
            s,
            e,
        ) by {
            if s == start {
                if e < end {
                    assert(t[e - 1] == '\n');
                    assert(t[e - 1] != '\n');
                }
                if end < e {
                    assert(t[end - 1] == '\n');
                    assert(t[end - 1] != '\n');
                }
                assert(found.len() == 1);
                assert(reports(matches[0], item_index, t, query, s, e));
            } else {
                assert(t[s - 1] == '\n');
                if s < end {
                    assert(t[s - 1] != '\n');
                }
                assert(is_reported(later, item_index, t, query, s, e));
                let i = choose|i: int| 0 <= i < later.len() && #[trigger] reports(later[i], item_index, t, query, s, e);
                assert(matches[found.len() + i] == later[i]);
                assert(reports(matches[found.len() + i], item_index, t, query, s, e));
            }
        }
    } else {
        assert(matches =~= Seq::<JsonView>::empty());
        assert forall|s: int, e: int, at: int|
            start <= s <= at && #[trigger] is_line(t, s, e) && #[trigger] occurs_before(t, query, at, e) implies is_reported(
            matches,
            item_index,
            t,
            query,
            s,
            e,
        ) by {}
    }
}

/// The matches in a text are its lines that hold the query: each match reports one of them, counted by
/// the line feeds before it, each such line is reported, and the lines come in their order.
pub proof fn law_matches_are_the_lines_with_the_query(item_index: int, t: Seq<char>, query: Seq<char>)
    ensures
        ({
            let matches = text_matches(item_index, 0, t, query);
            &&& forall|i: int|
                0 <= i < matches.len() ==> #[trigger] reports_some_line(matches[i], item_index, t, query, 0)
            &&& forall|i: int, j: int|
                0 <= i < j < matches.len() ==> number_of(#[trigger] matches[i], "line"@) < number_of(
                    #[trigger] matches[j],
                    "line"@,
                )
            &&& forall|s: int, e: int, at: int|
                0 <= s <= at && #[trigger] is_line(t, s, e) && #[trigger] occurs_before(t, query, at, e)
                    ==> is_reported(matches, item_index, t, query, s, e)
        }),
{
    assert(t.take(0) =~= Seq::<char>::empty());
    t.take(0).to_multiset_ensures();
    assert(t.take(0).to_multiset().count('\n') == 0) by {
        assert(!t.take(0).contains('\n'));
    }
    assert(t.skip(0) =~= t);
    lemma_text_matches(item_index, t, query, 0);
}

/// Whether a match reports some line of a text item that holds the query.
pub open spec fn is_hit(m: JsonView, content_items: Seq<ItemView>, query: Seq<char>) -> bool {
    exists|k: int|
        0 <= k < content_items.len() && content_items[k] is InputText && #[trigger] reports_some_line(
            m,
            k,
            content_items[k]->InputText_text,
            query,
            0,
        )
}

/// Whether the line at a place of an item comes after a match.
pub open spec fn comes_after(m: JsonView, item_index: int, line: int) -> bool {
    number_of(m, "item_index"@) < item_index || (number_of(m, "item_index"@) == item_index && number_of(m, "line"@)
        < line)
}

/// Whether an item has a line from one place up to another in which the query stands.
pub open spec fn has_hit(content_items: Seq<ItemView>, k: int, query: Seq<char>, start: int, end: int) -> bool {
    &&& 0 <= k < content_items.len()
    &&& content_items[k] is InputText
    &&& is_line(content_items[k]->InputText_text, start, end)
    &&& exists|at: int| start <= at && #[trigger] occurs_before(content_items[k]->InputText_text, query, at, end)
}

#[verifier::spinoff_prover]
#[verifier::rlimit(40)]
proof fn lemma_all_matches(content_items: Seq<ItemView>, n: nat, query: Seq<char>)
    requires
        n <= content_items.len(),
    ensures
        ({
            let matches = all_matches(content_items, n, query);
            &&& forall|i: int|
                0 <= i < matches.len() ==> #[trigger] is_hit(matches[i], content_items, query) && number_of(
                    matches[i],
                    "item_index"@,
                ) < n
            &&& forall|i: int, j: int|
                0 <= i < j < matches.len() ==> #[trigger] comes_after(
                    matches[i],
                    number_of(matches[j], "item_index"@),
                    number_of(matches[j], "line"@),
                )
            &&& forall|k: int, s: int, e: int|
                k < n && #[trigger] has_hit(content_items, k, query, s, e) ==> is_reported(
                    matches,
                    k,
                    content_items[k]->InputText_text,
                    query,
                    s,
                    e,
                )
        }),
    decreases n,
{
    let matches = all_matches(content_items, n, query);
    if n > 0 {
        let last = n - 1;
        lemma_all_matches(content_items, last as nat, query);
        let before = all_matches(content_items, last as nat, query);
        let t = content_items[last]->InputText_text;
        let found = if content_items[last] is InputText {
            text_matches(last, 0, t, query)
        } else {
            Seq::empty()
        };
        assert(matches =~= before + found);
        if content_items[last] is InputText {
            law_matches_are_the_lines_with_the_query(last, t, query);
        }
        assert forall|i: int| 0 <= i < found.len() implies number_of(#[trigger] found[i], "item_index"@) == last by {
            assert(reports_some_line(found[i], last, t, query, 0));
        }
        assert forall|i: int| 0 <= i < matches.len() implies #[trigger] is_hit(matches[i], content_items, query)
            && number_of(matches[i], "item_index"@) < n by {
            if i < before.len() {
                assert(matches[i] == before[i]);
                assert(is_hit(before[i], content_items, query));
            } else {
                assert(matches[i] == found[i - before.len()]);
                assert(reports_some_line(found[i - before.len()], last, t, query, 0));
            }
        }
        assert forall|i: int, j: int| 0 <= i < j < matches.len() implies #[trigger] comes_after(
            matches[i],
            number_of(matches[j], "item_index"@),
            number_of(matches[j], "line"@),
        ) by {
            if j < before.len() {
                assert(matches[i] == before[i] && matches[j] == before[j]);
                assert(comes_after(
                    before[i],
                    number_of(before[j], "item_index"@),
                    number_of(before[j], "line"@),
                ));
            } else {
                assert(matches[j] == found[j - before.len()]);
                if i < before.len() {
                    assert(matches[i] == before[i]);
                    assert(is_hit(before[i], content_items, query));
                } else {
                    assert(matches[i] == found[i - before.len()]);
                }
            }
        }
        assert forall|k: int, s: int, e: int| k < n && #[trigger] has_hit(content_items, k, query, s, e) implies is_reported(
            matches,
            k,
            content_items[k]->InputText_text,
            query,
            s,
            e,
        ) by {
            let u = content_items[k]->InputText_text;
            let at = choose|at: int| s <= at && #[trigger] occurs_before(u, query, at, e);
            if k < last {
                assert(is_reported(before, k, u, query, s, e));
                let i = choose|i: int| 0 <= i < before.len() && #[trigger] reports(before[i], k, u, query, s, e);
                assert(matches[i] == before[i]);
                assert(reports(matches[i], k, u, query, s, e));
            } else {
                assert(is_line(u, s, e) && occurs_before(u, query, at, e));
                assert(is_reported(found, k, u, query, s, e));
                let i = choose|i: int| 0 <= i < found.len() && #[trigger] reports(found[i], k, u, query, s, e);
                assert(matches[before.len() + i] == found[i]);
                assert(reports(matches[before.len() + i], k, u, query, s, e));
            }
        }
    }
}

proof fn lemma_search_members(object_id: Seq<char>, query: Seq<char>, matches: Seq<JsonView>, max_results: int)
    ensures
        ({
            let result = search_json(object_id, query, matches, max_results);
            &&& json::json_get(result, "matches"@) == Some(JsonView::Array(matches))
            &&& json::json_get(result, "max_results"@) == Some(JsonView::Int(max_results))
            &&& json::json_get(result, "object_id"@) == Some(JsonView::Text(object_id))
            &&& json::json_get(result, "query"@) == Some(JsonView::Text(query))
        }),
{
    reveal_strlit("matches");
    reveal_strlit("max_results");
    reveal_strlit("object_id");
    reveal_strlit("query");
    assert("matches"@.len() == 7 && "max_results"@.len() == 11 && "object_id"@.len() == 9 && "query"@.len() == 5);
    let members = search_json(object_id, query, matches, max_results)->Object_0;
    json::lemma_member_found(members, 0);
    json::lemma_member_found(members, 1);
    json::lemma_member_found(members, 2);
    json::lemma_member_found(members, 3);
}

proof fn lemma_fitting_is_most(object_id: Seq<char>, query: Seq<char>, matches: Seq<JsonView>, max_results: int, n: nat)
    requires
        n <= matches.len(),
    ensures
        ({
            let k = fitting(object_id, query, matches, max_results, n);
            &&& k <= n
            &&& k < n ==> text::byte_len(
                json::json_text(search_json(object_id, query, matches.take(k as int + 1), max_results)),
            ) > MAX_READ_BYTES
        }),
    decreases n,
{
    if n > 0 && text::byte_len(json::json_text(search_json(object_id, query, matches.take(n as int), max_results)))
        > MAX_READ_BYTES {
        lemma_fitting_is_most(object_id, query, matches, max_results, (n - 1) as nat);
    }
}

/// A search reports where the query stands. It is answered to the output's owner for a query of 1 to
/// 256 bytes. Each match reports a line of a text item that holds the query, in the order of items and
/// lines. A line that holds the query and is not reported comes after all that are, and is left out
/// only because as many matches were asked for or because one more would not have fitted.
#[verifier::spinoff_prover]
#[verifier::rlimit(40)]
pub proof fn law_a_search_reports_where_the_query_stands(
    outputs: Map<Seq<char>, OutputView>,
    thread_id: Seq<char>,
    object_id: Seq<char>,
    query: Seq<char>,
    requested_results: int,
)
    ensures
        match search_result(outputs, thread_id, object_id, query, requested_results) {
            Ok(result) => {
                let content_items = outputs[object_id].content_items;
                &&& outputs.dom().contains(object_id) && outputs[object_id].thread_id == thread_id
                &&& 1 <= encode_utf8(query).len() <= 256
                &&& json::json_get(result, "object_id"@) == Some(JsonView::Text(object_id))
                &&& json::json_get(result, "query"@) == Some(JsonView::Text(query))
                &&& json::json_get(result, "max_results"@) matches Some(JsonView::Int(most)) && 1 <= most <= 20 && (
                1 <= requested_results <= 20 ==> most == requested_results) && (requested_results < 1 ==> most == 1)
                    && (requested_results > 20 ==> most == 20)
                    && (json::json_get(result, "matches"@) matches Some(JsonView::Array(matches)) && {
                    &&& matches.len() <= most
                    &&& forall|i: int|
                        0 <= i < matches.len() ==> #[trigger] is_hit(matches[i], content_items, query)
                    &&& forall|i: int, j: int|
                        0 <= i < j < matches.len() ==> #[trigger] comes_after(
                            matches[i],
                            number_of(matches[j], "item_index"@),
                            number_of(matches[j], "line"@),
                        )
                    &&& forall|k: int, s: int, e: int| #[trigger]
                        has_hit(content_items, k, query, s, e) ==> {
                            ||| is_reported(matches, k, content_items[k]->InputText_text, query, s, e)
                            ||| {
                                &&& forall|i: int|
                                    0 <= i < matches.len() ==> #[trigger] comes_after(
                                        matches[i],
                                        k,
                                        line_number(content_items[k]->InputText_text, s),
                                    )
                                &&& matches.len() == most || exists|m: JsonView|
                                    is_hit(m, content_items, query) && encode_utf8(
                                        #[trigger] json::json_text(
                                            search_json(object_id, query, matches.push(m), most),
                                        ),
                                    ).len() > 8192
                            }
                        }
                })
            },
            Err(error) => {
                &&& encode_utf8(query).len() == 0 || encode_utf8(query).len() > 256 ==> error
                    == "query must contain 1..=256 UTF-8 bytes"@
                &&& 1 <= encode_utf8(query).len() <= 256 ==> !(outputs.dom().contains(object_id)
                    && outputs[object_id].thread_id == thread_id) && error
                    == "Token Miser output was not found in this session"@
            },
        },
{
    text::lemma_byte_len_bounds(query);
    if let Ok(result) = search_result(outputs, thread_id, object_id, query, requested_results) {
        let content_items = outputs[object_id].content_items;
        let most = clamped(requested_results, 1, MAX_SEARCH_RESULTS as int);
        let all = all_matches(content_items, content_items.len(), query);
        let asked = first_n(all, most);
        let n = fitting(object_id, query, asked, most, asked.len()) as int;
        let matches = asked.take(n);
        lemma_all_matches(content_items, content_items.len(), query);
        lemma_fitting_is_most(object_id, query, asked, most, asked.len());
        lemma_search_members(object_id, query, matches, most);
        assert forall|i: int| 0 <= i < matches.len() implies #[trigger] is_hit(matches[i], content_items, query) by {
            assert(matches[i] == all[i]);
            assert(is_hit(all[i], content_items, query));
        }
        assert forall|i: int, j: int| 0 <= i < j < matches.len() implies #[trigger] comes_after(
            matches[i],
            number_of(matches[j], "item_index"@),
            number_of(matches[j], "line"@),
        ) by {
            assert(matches[i] == all[i] && matches[j] == all[j]);
            assert(comes_after(all[i], number_of(all[j], "item_index"@), number_of(all[j], "line"@)));
        }
        assert forall|k: int, s: int, e: int| #[trigger] has_hit(content_items, k, query, s, e) && !is_reported(
            matches,
            k,
            content_items[k]->InputText_text,
            query,
            s,
            e,
        ) implies {
            &&& forall|i: int|
                0 <= i < matches.len() ==> #[trigger] comes_after(
                    matches[i],
                    k,
                    line_number(content_items[k]->InputText_text, s),
                )
            &&& matches.len() == most || exists|m: JsonView|
                is_hit(m, content_items, query) && encode_utf8(
                    #[trigger] json::json_text(search_json(object_id, query, matches.push(m), most)),
                ).len() > 8192
        } by {
            let t = content_items[k]->InputText_text;
            assert(is_reported(all, k, t, query, s, e));
            let x = choose|x: int| 0 <= x < all.len() && #[trigger] reports(all[x], k, t, query, s, e);
            if x < matches.len() {
                assert(matches[x] == all[x]);
                assert(reports(matches[x], k, t, query, s, e));
            }
            assert forall|i: int| 0 <= i < matches.len() implies #[trigger] comes_after(
                matches[i],
                k,
                line_number(t, s),
            ) by {
                assert(matches[i] == all[i]);
                assert(comes_after(all[i], number_of(all[x], "item_index"@), number_of(all[x], "line"@)));
            }
            if matches.len() < most {
                let m = asked[n];
                assert(n < asked.len());
                assert(asked.take(n + 1) =~= matches.push(m));
                assert(m == all[n]);
                assert(is_hit(all[n], content_items, query));
                assert(encode_utf8(json::json_text(search_json(object_id, query, matches.push(m), most))).len()
                    > 8192);
            }
        }
    }
}

/// The last decision on an output is the one that counts: it is in the history, it is on this output,
/// and none after it is. There is none exactly where no decision is on this output.
pub proof fn law_the_last_decision_counts(history: Seq<RolloutItem>, object_id: Seq<char>)
    ensures
        match latest_decision(history, object_id) {
            Some(record) => exists|i: int|
                0 <= i < history.len() && history[i] == RolloutItem::TokenMiserDecision(record)
                    && #[trigger] is_decision_on(history[i], object_id) && forall|j: int|
                    i < j < history.len() ==> !#[trigger] is_decision_on(history[j], object_id),
            None => forall|j: int| 0 <= j < history.len() ==> !#[trigger] is_decision_on(history[j], object_id),
        },
    decreases history.len(),
{
    if history.len() > 0 {
        let before = history.drop_last();
        let last = history.len() - 1;
        law_the_last_decision_counts(before, object_id);
        if is_decision_on(history[last], object_id) {
            assert(is_decision_on(history[last], object_id));
        } else {
            match latest_decision(before, object_id) {
                Some(record) => {
                    let i = choose|i: int|
                        0 <= i < before.len() && before[i] == RolloutItem::TokenMiserDecision(record)
                            && #[trigger] is_decision_on(before[i], object_id) && forall|j: int|
                            i < j < before.len() ==> !#[trigger] is_decision_on(before[j], object_id);
                    assert(history[i] == before[i]);
                    assert(is_decision_on(history[i], object_id));
                    assert forall|j: int| i < j < history.len() implies !#[trigger] is_decision_on(
                        history[j],
                        object_id,
                    ) by {
                        if j < last {
                            assert(history[j] == before[j]);
                        }
                    }
                },
                None => {
                    assert forall|j: int| 0 <= j < history.len() implies !#[trigger] is_decision_on(
                        history[j],
                        object_id,
                    ) by {
                        if j < last {
                            assert(history[j] == before[j]);
                        }
                    }
                },
            }
        }
    }
}

/// Whether an item of a history is a decision on this output.
pub open spec fn is_decision_on(item: RolloutItem, object_id: Seq<char>) -> bool {
    item is TokenMiserDecision && item->TokenMiserDecision_0.object_id@ == object_id
}

/// Whether an item of a history is an output under this identity that can be restored: it belongs to
/// the expected thread, has the first version of its form and a version 4 identity, and has no more
/// items and bytes than may be stored.
pub open spec fn restores(item: RolloutItem, expected_thread: Option<Seq<char>>, object_id: Seq<char>) -> bool {
    &&& item is TokenMiserOutput
    &&& ({
        let raw = item->TokenMiserOutput_0@;
        &&& raw.object_id == object_id
        &&& expected_thread matches Some(thread) ==> raw.thread_id == thread
        &&& raw.version == 1
        &&& identity::is_v4(object_id)
        &&& raw.content_items.len() <= 1024
        &&& encode_utf8(raw.turn_id).len() + encode_utf8(raw.call_id).len() + encode_utf8(raw.cell_id).len()
            + encode_utf8(raw.script_status).len() + items::source_bytes(raw.content_items) <= 8 * 1024 * 1024
    })
}

/// What a history restores under an identity is its last output there that can be restored, as it is,
/// and nothing where there is none.
pub proof fn law_the_last_output_is_restored(
    history: Seq<RolloutItem>,
    expected_thread: Option<Seq<char>>,
    object_id: Seq<char>,
)
    ensures
        ({
            let outputs = restored_outputs(history, expected_thread);
            if outputs.dom().contains(object_id) {
                exists|i: int|
                    0 <= i < history.len() && #[trigger] restores(history[i], expected_thread, object_id)
                        && history[i]->TokenMiserOutput_0@ == outputs[object_id] && forall|j: int|
                        i < j < history.len() ==> !#[trigger] restores(history[j], expected_thread, object_id)
            } else {
                forall|j: int| 0 <= j < history.len() ==> !#[trigger] restores(history[j], expected_thread, object_id)
            }
        }),
    decreases history.len(),
{
    if history.len() > 0 {
        let before = history.drop_last();
        let last = history.len() - 1;
        law_the_last_output_is_restored(before, expected_thread, object_id);
        let earlier = restored_outputs(before, expected_thread);
        if restores(history[last], expected_thread, object_id) {
            assert(restores(history[last], expected_thread, object_id));
        } else if earlier.dom().contains(object_id) {
            let i = choose|i: int|
                0 <= i < before.len() && #[trigger] restores(before[i], expected_thread, object_id)
                    && before[i]->TokenMiserOutput_0@ == earlier[object_id] && forall|j: int|
                    i < j < before.len() ==> !#[trigger] restores(before[j], expected_thread, object_id);
            assert(history[i] == before[i]);
            assert(restores(history[i], expected_thread, object_id));
            assert forall|j: int| i < j < history.len() implies !#[trigger] restores(
                history[j],
                expected_thread,
                object_id,
            ) by {
                if j < last {
                    assert(history[j] == before[j]);
                }
            }
        } else {
            assert forall|j: int| 0 <= j < history.len() implies !#[trigger] restores(
                history[j],
                expected_thread,
                object_id,
            ) by {
                if j < last {
                    assert(history[j] == before[j]);
                }
            }
        }
    }
}

/// A restored output is shown as the last decision on it says, where that decision was on the same
/// call of the same thread. Otherwise it stays hidden.
pub proof fn law_a_foreign_decision_does_not_count(history: Seq<RolloutItem>, raw: OutputView)
    ensures
        ({
            let decided = latest_decision(history, raw.object_id);
            let same_call = decided is Some && decided->0.thread_id@ == raw.thread_id && decided->0.turn_id@
                == raw.turn_id && decided->0.call_id@ == raw.call_id && decided->0.cell_id@ == raw.cell_id;
            &&& !same_call ==> restored_decision(history, raw) == DecisionView::Hide(
                "retained; prior reducer decision was unavailable"@,
            )
            &&& same_call ==> match decided->0.outcome {
                TokenMiserStoredOutcome::Passthrough => restored_decision(history, raw) is Passthrough,
                TokenMiserStoredOutcome::Replace { replacement } => restored_decision(history, raw)
                    == DecisionView::Replace(replacement@),
                TokenMiserStoredOutcome::Hide { reason } => restored_decision(history, raw) == DecisionView::Hide(
                    reason@,
                ),
            }
        }),
{
}

/// An output may be stored exactly where it has no more than 1024 items and its sources, together with
/// what names its call and its status, have no more than 8 MiB.
pub proof fn law_the_storage_bound(
    turn_id: Seq<char>,
    call_id: Seq<char>,
    cell_id: Seq<char>,
    script_status: Seq<char>,
    content_items: Seq<ItemView>,
)
    ensures
        is_storable(turn_id, call_id, cell_id, script_status, content_items) <==> content_items.len() <= 1024
            && encode_utf8(turn_id + call_id + cell_id + script_status).len() + items::source_bytes(content_items)
            <= 8 * 1024 * 1024,
{
    text::lemma_encode_concat(turn_id + call_id + cell_id, script_status);
    text::lemma_encode_concat(turn_id + call_id, cell_id);
    text::lemma_encode_concat(turn_id, call_id);
}

/// An output goes through its steps: one that was just taken up is to be stored as it is. Once it is
/// stored it can be found under its identity and is to be decided on, and once it is decided on it is
/// shown as was decided, or hidden where the decision could not be kept. One that could not be stored is
/// unavailable.
pub proof fn law_an_output_goes_through_its_steps(
    service: ServiceView,
    output: OutputView,
    decision: DecisionView,
    committed: bool,
)
    requires
        !service.cells.dom().contains(key_of(output)),
    ensures
        ({
            let key = (output.turn_id, output.call_id, output.cell_id);
            let taken = started(service, output);
            let stored = persisted(taken, key, true);
            let lost = persisted(taken, key, false);
            let shown = decided(stored, key, decision, committed);
            &&& terminal_step(taken, key) == TerminalStepView::Persist(output)
            &&& taken.outputs == service.outputs
            &&& terminal_step(stored, key) == TerminalStepView::Reduce(output)
            &&& found(stored.outputs, output.thread_id, output.object_id) == Some(output)
            &&& terminal_step(lost, key) is Unavailable
            &&& lost.outputs == service.outputs
            &&& committed ==> terminal_step(shown, key) == TerminalStepView::Show(output, decision)
            &&& !committed ==> terminal_step(shown, key) == TerminalStepView::Show(
                output,
                DecisionView::Hide("retained; reducer decision storage was unavailable"@),
            )
        }),
{
}

/// What happens to one call changes no other: whatever is taken up, claimed, given up, stored or decided
/// on for a call, the state of another call stays as it is.
pub proof fn law_calls_do_not_touch_each_other(
    service: ServiceView,
    output: OutputView,
    key: (Seq<char>, Seq<char>, Seq<char>),
    other: (Seq<char>, Seq<char>, Seq<char>),
    stored: bool,
    decision: DecisionView,
    committed: bool,
)
    requires
        other != key,
        key == key_of(output),
    ensures
        ({
            let untouched = |after: ServiceView|
                after.cells.dom().contains(other) == service.cells.dom().contains(other) && (
                service.cells.dom().contains(other) ==> after.cells[other] == service.cells[other])
                    && terminal_step(after, other) == terminal_step(service, other) && after.retrievals
                    == service.retrievals;
            &&& untouched(started(service, output))
            &&& untouched(claimed(service, key))
            &&& untouched(abandoned(service, key))
            &&& untouched(persisted(service, key, stored))
            &&& untouched(decided(service, key, decision, committed))
        }),
{
}

/// What is shown of an output before it is cut: all of its items where it is passed through, the
/// replacement between its two fences where it is replaced, and nothing where it is hidden. The receipt
/// says which of these it was.
pub proof fn law_what_is_shown_is_what_was_decided(
    decision: DecisionView,
    content_items: Seq<ItemView>,
    max_replacement_bytes: int,
)
    ensures
        match decision {
            DecisionView::Passthrough => untruncated(decision, content_items, max_replacement_bytes) == Some(
                content_items,
            ) && decision_words(decision) == "passed through by Luna"@,
            DecisionView::Replace(replacement) => {
                &&& untruncated(decision, content_items, max_replacement_bytes) matches Some(shown) && shown.len() == 3
                    && shown[0] == items::text_item(context::CODE_MODE_OUTPUT_REPLACEMENT_HEADER@) && shown[1]
                    == items::text_item(text::byte_prefix(replacement, max_replacement_bytes)) && shown[2]
                    == items::text_item(context::CODE_MODE_OUTPUT_REPLACEMENT_FOOTER@)
                &&& decision_words(decision) == "reduced by Luna"@
            },
            DecisionView::Hide(reason) => untruncated(decision, content_items, max_replacement_bytes) is None
                && decision_words(decision) == reason,
        },
{
}

/// A kept output belongs to the call that it came from and holds the items as they were.
pub proof fn law_a_kept_output_belongs_to_its_call(
    context: ContextView,
    object_id: Seq<char>,
    script_status: Seq<char>,
    success: Option<bool>,
    content_items: Seq<ItemView>,
)
    ensures
        ({
            let output = kept_output(context, object_id, script_status, success, content_items);
            &&& output.version == 1
            &&& output.object_id == object_id
            &&& output.thread_id == context.thread_id
            &&& key_of(output) == (context.turn_id, context.call_id, context.cell_id)
            &&& output.script_status == script_status
            &&& output.success == success
            &&& output.content_items == content_items
        }),
{
}

/// The work on an output is claimed by one: a caller that finds it unclaimed is told what to do, the next
/// one is told to wait, and once the work is given up it is there to be claimed again. What needs no work
/// is told to everybody.
pub proof fn law_work_is_claimed_by_one(service: ServiceView, key: (Seq<char>, Seq<char>, Seq<char>))
    ensures
        ({
            let step = terminal_step(service, key);
            let work = step is Persist || step is Reduce;
            &&& !work ==> claim_of(service, key) == Some(step) && claimed(service, key) == service
            &&& work && !service.cells[key].claimed ==> claim_of(service, key) == Some(step)
            &&& work && service.cells[key].claimed ==> claim_of(service, key) is None
            &&& work ==> claim_of(claimed(service, key), key) is None && terminal_step(claimed(service, key), key)
                == step
            &&& work ==> claim_of(abandoned(claimed(service, key), key), key) == Some(step)
        }),
{
}

/// The receipt comes last, whatever is shown of a kept output, and names the output under which the exact
/// items can be found. A hidden output shows the receipt alone.
pub proof fn law_the_receipt_comes_last<T: Fn(Vec<FunctionCallOutputContentItem>, TruncationStyle, usize) -> Vec<
    FunctionCallOutputContentItem,
>>(
    truncation: T,
    raw: OutputView,
    decision: DecisionView,
    max_output_tokens: Option<usize>,
    max_replacement_bytes: int,
    shown: Seq<ItemView>,
)
    requires
        is_shown_output(truncation, raw, decision, max_output_tokens, max_replacement_bytes, shown),
    ensures
        shown.len() >= 1,
        shown.last() == items::text_item(
            context::receipt_rendering(
                context::retained_text(
                    raw.object_id,
                    match decision {
                        DecisionView::Passthrough => "passed through by Luna"@,
                        DecisionView::Replace(_) => "reduced by Luna"@,
                        DecisionView::Hide(reason) => reason,
                    },
                ),
            ),
        ),
        decision is Hide ==> shown.len() == 1,
{
}

} // verus!
