//! Authoritative continuation state of nested processes.
//!
//! A reducer may replace what a process printed, but not the handle by which the process is
//! continued. The handles are derived here from the results of nested calls, kept per cell and
//! rendered independently of any replacement.
use vstd::prelude::*;
use vstd::utf8::*;

use crate::assoc::Assoc;
use crate::context;
use crate::context::CodeModeActionableStateFragment;
use crate::items;
use crate::items::{FunctionCallOutputContentItem, ItemView};
use crate::json;
use crate::json::{Json, JsonView, Member};
use crate::payload::ToolName;
use crate::text;

verus! {

/// The version of the state's form.
pub const ACTIONABLE_STATE_VERSION: u32 = 1;

/// The largest number of processes that can be alive at once.
pub const MAX_UNIFIED_EXEC_PROCESSES: usize = 64;

/// Whether a process can still be polled.
#[derive(Debug, Clone, Copy, PartialEq, Eq, Structural)]
pub enum ActionableStateStatus {
    Running,
    Completed,
}

/// The arguments of the call that polls a process.
#[derive(Debug, PartialEq, Eq)]
pub struct WriteStdinFollowUpArguments {
    pub session_id: i32,
    pub chars: String,
}

/// The call that continues a running process.
#[derive(Debug, PartialEq, Eq)]
pub struct RequiredFollowUp {
    pub operation: String,
    pub arguments: WriteStdinFollowUpArguments,
}

/// What is known of one process.
#[derive(Debug, PartialEq, Eq)]
pub struct ActionableStateEntry {
    pub session_id: i32,
    pub process_id: i32,
    pub chunk_id: String,
    pub state: ActionableStateStatus,
    pub exit_code: Option<i32>,
    pub required_follow_up: Option<RequiredFollowUp>,
}

/// What is known of the processes of one cell.
#[derive(Debug, PartialEq, Eq)]
pub struct ActionableState {
    pub version: u32,
    pub entries: Vec<ActionableStateEntry>,
}

/// The value of a [`RequiredFollowUp`].
pub struct FollowUpView {
    pub operation: Seq<char>,
    pub session_id: int,
    pub chars: Seq<char>,
}

/// The value of an [`ActionableStateEntry`].
pub struct EntryView {
    pub session_id: int,
    pub process_id: int,
    pub chunk_id: Seq<char>,
    pub state: ActionableStateStatus,
    pub exit_code: Option<int>,
    pub required_follow_up: Option<FollowUpView>,
}

/// The value of an [`ActionableState`].
pub struct StateView {
    pub version: int,
    pub entries: Seq<EntryView>,
}

impl View for RequiredFollowUp {
    type V = FollowUpView;

    open spec fn view(&self) -> FollowUpView {
        FollowUpView {
            operation: self.operation@,
            session_id: self.arguments.session_id as int,
            chars: self.arguments.chars@,
        }
    }
}

/// The value of an optional integer.
pub open spec fn int_option(n: Option<i32>) -> Option<int> {
    match n {
        Some(n) => Some(n as int),
        None => None,
    }
}

impl View for ActionableStateEntry {
    type V = EntryView;

    open spec fn view(&self) -> EntryView {
        EntryView {
            session_id: self.session_id as int,
            process_id: self.process_id as int,
            chunk_id: self.chunk_id@,
            state: self.state,
            exit_code: int_option(self.exit_code),
            required_follow_up: match self.required_follow_up {
                Some(follow_up) => Some(follow_up@),
                None => None,
            },
        }
    }
}

/// The values of several entries.
pub open spec fn entry_views(entries: Seq<ActionableStateEntry>) -> Seq<EntryView> {
    entries.map_values(|e: ActionableStateEntry| e@)
}

impl View for ActionableState {
    type V = StateView;

    open spec fn view(&self) -> StateView {
        StateView { version: self.version as int, entries: entry_views(self.entries@) }
    }
}

/// The value of an optional state.
pub open spec fn state_option(s: Option<ActionableState>) -> Option<StateView> {
    match s {
        Some(s) => Some(s@),
        None => None,
    }
}

/// The value of an optional entry.
pub open spec fn entry_option(e: Option<ActionableStateEntry>) -> Option<EntryView> {
    match e {
        Some(e) => Some(e@),
        None => None,
    }
}

impl Clone for RequiredFollowUp {
    fn clone(&self) -> (copy: Self)
        ensures
            copy == *self,
    {
        RequiredFollowUp {
            operation: self.operation.clone(),
            arguments: WriteStdinFollowUpArguments {
                session_id: self.arguments.session_id,
                chars: self.arguments.chars.clone(),
            },
        }
    }
}

impl Clone for ActionableStateEntry {
    fn clone(&self) -> (copy: Self)
        ensures
            copy == *self,
    {
        ActionableStateEntry {
            session_id: self.session_id,
            process_id: self.process_id,
            chunk_id: self.chunk_id.clone(),
            state: self.state,
            exit_code: self.exit_code,
            required_follow_up: match &self.required_follow_up {
                Some(follow_up) => Some(follow_up.clone()),
                None => None,
            },
        }
    }
}

impl Clone for ActionableState {
    fn clone(&self) -> (copy: Self)
        ensures
            copy@ == self@,
    {
        let copy = ActionableState { version: self.version, entries: self.entries.clone() };
        assert(copy.entries@ =~= self.entries@);
        copy
    }
}

/// Puts an entry among entries in ascending order of their process identities, unless one with
/// its identity is there already.
pub open spec fn insert_first(sorted: Seq<EntryView>, e: EntryView) -> Seq<EntryView>
    decreases sorted.len(),
{
    if sorted.len() == 0 {
        seq![e]
    } else if e.process_id < sorted[0].process_id {
        seq![e] + sorted
    } else if e.process_id == sorted[0].process_id {
        sorted
    } else {
        seq![sorted[0]] + insert_first(sorted.drop_first(), e)
    }
}

/// Puts an entry among entries in ascending order of their process identities, in place of the
/// one with its identity.
pub open spec fn insert_latest(sorted: Seq<EntryView>, e: EntryView) -> Seq<EntryView>
    decreases sorted.len(),
{
    if sorted.len() == 0 {
        seq![e]
    } else if e.process_id < sorted[0].process_id {
        seq![e] + sorted
    } else if e.process_id == sorted[0].process_id {
        seq![e] + sorted.drop_first()
    } else {
        seq![sorted[0]] + insert_latest(sorted.drop_first(), e)
    }
}

/// The first entry of every process, in ascending order of the process identities.
pub open spec fn first_per_process(entries: Seq<EntryView>) -> Seq<EntryView>
    decreases entries.len(),
{
    if entries.len() == 0 {
        Seq::empty()
    } else {
        insert_first(first_per_process(entries.drop_last()), entries.last())
    }
}

/// The number of running entries.
pub open spec fn running_count(entries: Seq<EntryView>) -> nat
    decreases entries.len(),
{
    if entries.len() == 0 {
        0
    } else {
        running_count(entries.drop_first()) + if entries[0].state == ActionableStateStatus::Running {
            1nat
        } else {
            0nat
        }
    }
}

/// The first `running` running entries and the first `completed` completed ones, in order.
pub open spec fn keep(entries: Seq<EntryView>, running: int, completed: int) -> Seq<EntryView>
    decreases entries.len(),
{
    if entries.len() == 0 {
        Seq::empty()
    } else if entries[0].state == ActionableStateStatus::Running {
        if running > 0 {
            seq![entries[0]] + keep(entries.drop_first(), running - 1, completed)
        } else {
            keep(entries.drop_first(), running, completed)
        }
    } else {
        if completed > 0 {
            seq![entries[0]] + keep(entries.drop_first(), running, completed - 1)
        } else {
            keep(entries.drop_first(), running, completed)
        }
    }
}

/// The smaller of two numbers.
pub open spec fn smaller(a: int, b: int) -> int {
    if a < b {
        a
    } else {
        b
    }
}

/// Entries cut to the number of processes that can be alive: running ones go first.
pub open spec fn bounded_entries(sorted: Seq<EntryView>) -> Seq<EntryView> {
    if sorted.len() <= MAX_UNIFIED_EXEC_PROCESSES {
        sorted
    } else {
        let running = smaller(running_count(sorted) as int, MAX_UNIFIED_EXEC_PROCESSES as int);
        keep(sorted, running, MAX_UNIFIED_EXEC_PROCESSES - running)
    }
}

/// The state that several observations amount to: nothing where there are none.
pub open spec fn state_of(entries: Seq<EntryView>) -> Option<StateView> {
    if entries.len() == 0 {
        None
    } else {
        Some(
            StateView {
                version: ACTIONABLE_STATE_VERSION as int,
                entries: bounded_entries(first_per_process(entries)),
            },
        )
    }
}

proof fn lemma_insert_nonempty(sorted: Seq<EntryView>, e: EntryView)
    ensures
        insert_first(sorted, e).len() >= 1,
        sorted.len() <= insert_first(sorted, e).len() <= sorted.len() + 1,
    decreases sorted.len(),
{
    if sorted.len() > 0 {
        lemma_insert_nonempty(sorted.drop_first(), e);
    }
}

/// The place of a process identity among sorted entries, and whether it is taken.
fn find_process(sorted: &Vec<ActionableStateEntry>, process_id: i32) -> (found: (usize, bool))
    ensures
        found.0 <= sorted@.len(),
        forall|i: int| 0 <= i < found.0 ==> (#[trigger] sorted@[i]).process_id < process_id,
        found.0 < sorted@.len() ==> (if found.1 {
            sorted@[found.0 as int].process_id == process_id
        } else {
            sorted@[found.0 as int].process_id > process_id
        }),
        found.1 ==> found.0 < sorted@.len(),
{
    let mut at: usize = 0;
    while at < sorted.len() && sorted[at].process_id < process_id
        invariant
            at <= sorted@.len(),
            forall|i: int| 0 <= i < at ==> (#[trigger] sorted@[i]).process_id < process_id,
        decreases sorted@.len() - at,
    {
        at = at + 1;
    }
    (at, at < sorted.len() && sorted[at].process_id == process_id)
}

proof fn lemma_insert_at(sorted: Seq<EntryView>, e: EntryView, at: int)
    requires
        0 <= at <= sorted.len(),
        forall|i: int| 0 <= i < at ==> (#[trigger] sorted[i]).process_id < e.process_id,
        at < sorted.len() ==> sorted[at].process_id >= e.process_id,
    ensures
        at < sorted.len() && sorted[at].process_id == e.process_id ==> insert_first(sorted, e) == sorted
            && insert_latest(sorted, e) == sorted.update(at, e),
        !(at < sorted.len() && sorted[at].process_id == e.process_id) ==> insert_first(sorted, e) == sorted.insert(
            at,
            e,
        ) && insert_latest(sorted, e) == sorted.insert(at, e),
    decreases at,
{
    if at == 0 {
        if sorted.len() == 0 {
            assert(sorted.insert(0, e) =~= seq![e]);
        } else if e.process_id < sorted[0].process_id {
            assert(sorted.insert(0, e) =~= seq![e] + sorted);
        } else {
            assert(sorted.update(0, e) =~= seq![e] + sorted.drop_first());
        }
    } else {
        let rest = sorted.drop_first();
        assert(sorted[0].process_id < e.process_id);
        assert forall|i: int| 0 <= i < at - 1 implies (#[trigger] rest[i]).process_id < e.process_id by {
            assert(rest[i] == sorted[i + 1]);
        }
        lemma_insert_at(rest, e, at - 1);
        assert(seq![sorted[0]] + rest =~= sorted);
        assert(seq![sorted[0]] + rest.insert(at - 1, e) =~= sorted.insert(at, e));
        if at < sorted.len() {
            assert(seq![sorted[0]] + rest.update(at - 1, e) =~= sorted.update(at, e));
        }
    }
}

fn put_first(sorted: &mut Vec<ActionableStateEntry>, e: ActionableStateEntry)
    ensures
        entry_views(final(sorted)@) == insert_first(entry_views(old(sorted)@), e@),
{
    let ghost before = sorted@;
    let found = find_process(sorted, e.process_id);
    let at: usize = found.0;
    proof {
        let views = entry_views(before);
        assert forall|i: int| 0 <= i < at implies (#[trigger] views[i]).process_id < e@.process_id by {
            assert(before[i].process_id < e.process_id);
        }
        lemma_insert_at(views, e@, at as int);
    }
    if !found.1 {
        sorted.insert(at, e);
        assert(entry_views(sorted@) =~= entry_views(before).insert(at as int, e@));
    }
}

fn put_latest(sorted: &mut Vec<ActionableStateEntry>, e: ActionableStateEntry)
    ensures
        entry_views(final(sorted)@) == insert_latest(entry_views(old(sorted)@), e@),
{
    let ghost before = sorted@;
    let found = find_process(sorted, e.process_id);
    let at: usize = found.0;
    proof {
        let views = entry_views(before);
        assert forall|i: int| 0 <= i < at implies (#[trigger] views[i]).process_id < e@.process_id by {
            assert(before[i].process_id < e.process_id);
        }
        lemma_insert_at(views, e@, at as int);
    }
    if found.1 {
        sorted.set(at, e);
        assert(entry_views(sorted@) =~= entry_views(before).update(at as int, e@));
    } else {
        sorted.insert(at, e);
        assert(entry_views(sorted@) =~= entry_views(before).insert(at as int, e@));
    }
}

fn count_running(entries: &Vec<ActionableStateEntry>) -> (count: usize)
    ensures
        count == running_count(entry_views(entries@)),
{
    let ghost views = entry_views(entries@);
    let mut count: usize = 0;
    let len: usize = entries.len();
    let mut i: usize = len;
    assert(views.skip(i as int) =~= Seq::<EntryView>::empty());
    while i > 0
        invariant
            i <= len,
            len == entries@.len(),
            views == entry_views(entries@),
            count == running_count(views.skip(i as int)),
            count <= len - i,
        decreases i,
    {
        i = i - 1;
        assert(views.skip(i as int).drop_first() =~= views.skip(i as int + 1));
        assert(views.skip(i as int)[0] == entries@[i as int]@);
        match entries[i].state {
            ActionableStateStatus::Running => {
                count = count + 1;
            },
            ActionableStateStatus::Completed => {},
        }
    }
    assert(views.skip(0) =~= views);
    count
}

fn keep_entries(
    entries: Vec<ActionableStateEntry>,
    running: usize,
    completed: usize,
) -> (kept: Vec<ActionableStateEntry>)
    ensures
        entry_views(kept@) == keep(entry_views(entries@), running as int, completed as int),
{
    let ghost views = entry_views(entries@);
    let mut kept: Vec<ActionableStateEntry> = Vec::new();
    let mut running_left: usize = running;
    let mut completed_left: usize = completed;
    assert(views.skip(0) =~= views);
    assert(entry_views(kept@) + keep(views, running as int, completed as int) =~= keep(
        views,
        running as int,
        completed as int,
    ));
    let mut i: usize = 0;
    while i < entries.len()
        invariant
            i <= entries@.len(),
            views == entry_views(entries@),
            keep(views, running as int, completed as int) == entry_views(kept@) + keep(
                views.skip(i as int),
                running_left as int,
                completed_left as int,
            ),
        decreases entries@.len() - i,
    {
        let ghost kept_before = kept@;
        let ghost rest = views.skip(i as int + 1);
        assert(views.skip(i as int).drop_first() =~= rest);
        let e = entries[i].clone();
        assert(views.skip(i as int)[0] == e@);
        match e.state {
            ActionableStateStatus::Running => {
                if running_left > 0 {
                    running_left = running_left - 1;
                    kept.push(e);
                    assert(entry_views(kept@) =~= entry_views(kept_before) + seq![e@]);
                    assert(entry_views(kept_before) + (seq![e@] + keep(
                        rest,
                        running_left as int,
                        completed_left as int,
                    )) =~= entry_views(kept@) + keep(rest, running_left as int, completed_left as int));
                }
            },
            ActionableStateStatus::Completed => {
                if completed_left > 0 {
                    completed_left = completed_left - 1;
                    kept.push(e);
                    assert(entry_views(kept@) =~= entry_views(kept_before) + seq![e@]);
                    assert(entry_views(kept_before) + (seq![e@] + keep(
                        rest,
                        running_left as int,
                        completed_left as int,
                    )) =~= entry_views(kept@) + keep(rest, running_left as int, completed_left as int));
                }
            },
        }
        i = i + 1;
    }
    assert(views.skip(i as int) =~= Seq::<EntryView>::empty());
    assert(entry_views(kept@) + Seq::<EntryView>::empty() =~= entry_views(kept@));
    kept
}

impl ActionableState {
    /// The state that several observations amount to: the first one of every process, in
    /// ascending order of the process identities, cut to the number of processes that can be
    /// alive in such a way that completed ones go first.
    pub fn new(entries: Vec<ActionableStateEntry>) -> (state: Option<Self>)
        ensures
            state_option(state) == state_of(entry_views(entries@)),
    {
        let ghost views = entry_views(entries@);
        let mut sorted: Vec<ActionableStateEntry> = Vec::new();
        assert(views.take(0) =~= Seq::<EntryView>::empty());
        assert(entry_views(sorted@) =~= Seq::<EntryView>::empty());
        let mut i: usize = 0;
        while i < entries.len()
            invariant
                i <= entries@.len(),
                views == entry_views(entries@),
                entry_views(sorted@) == first_per_process(views.take(i as int)),
                i > 0 ==> sorted@.len() > 0,
            decreases entries@.len() - i,
        {
            let ghost before = entry_views(sorted@);
            let e = entries[i].clone();
            proof {
                lemma_insert_nonempty(before, e@);
            }
            put_first(&mut sorted, e);
            i = i + 1;
            assert(entry_views(sorted@).len() == sorted@.len());
            assert(views.take(i as int).drop_last() =~= views.take(i as int - 1));
        }
        assert(views.take(i as int) =~= views);
        if sorted.len() == 0 {
            return None;
        }
        assert(entry_views(sorted@).len() == sorted@.len());
        if sorted.len() > MAX_UNIFIED_EXEC_PROCESSES {
            let alive: usize = count_running(&sorted);
            let running: usize = if alive < MAX_UNIFIED_EXEC_PROCESSES {
                alive
            } else {
                MAX_UNIFIED_EXEC_PROCESSES
            };
            let kept = keep_entries(sorted, running, MAX_UNIFIED_EXEC_PROCESSES - running);
            return Some(ActionableState { version: ACTIONABLE_STATE_VERSION, entries: kept });
        }
        Some(ActionableState { version: ACTIONABLE_STATE_VERSION, entries: sorted })
    }

    /// The items that carry the handles into the context: nothing where one of them cannot be
    /// rendered.
    pub fn output_items(&self) -> (rendered: Option<Vec<FunctionCallOutputContentItem>>)
        ensures
            match rendered {
                Some(rendered) => Some(items::item_views(rendered@)) == state_items(self@),
                None => state_items(self@) is None,
            },
    {
        let ghost views = entry_views(self.entries@);
        let mut rendered: Vec<FunctionCallOutputContentItem> = Vec::new();
        assert(items::item_views(rendered@) =~= Seq::<ItemView>::empty());
        let mut i: usize = 0;
        while i < self.entries.len()
            invariant
                i <= self.entries@.len(),
                views == entry_views(self.entries@),
                entries_items(self.version as int, views, i as nat) == Some(items::item_views(rendered@)),
            decreases self.entries@.len() - i,
        {
            let ghost before = rendered@;
            match self.entry_output_item(i) {
                Some(item) => {
                    rendered.push(item);
                    assert(items::item_views(rendered@) =~= items::item_views(before).push(item@));
                },
                None => {
                    proof {
                        lemma_entries_items_none(self.version as int, views, i as nat + 1, views.len());
                    }
                    return None;
                },
            }
            i = i + 1;
        }
        Some(rendered)
    }

    fn entry_output_item(&self, i: usize) -> (item: Option<FunctionCallOutputContentItem>)
        requires
            i < self.entries@.len(),
        ensures
            match item {
                Some(item) => entry_item(self.version as int, entry_views(self.entries@)[i as int]) == Some(item@),
                None => entry_item(self.version as int, entry_views(self.entries@)[i as int]) is None,
            },
    {
        let entry = &self.entries[i];
        let fragment = match entry.state {
            ActionableStateStatus::Running => CodeModeActionableStateFragment::running(
                self.version,
                entry.session_id,
                entry.process_id,
                entry.chunk_id.as_str(),
            ),
            ActionableStateStatus::Completed => match entry.exit_code {
                Some(exit_code) => CodeModeActionableStateFragment::completed(
                    self.version,
                    entry.session_id,
                    entry.process_id,
                    entry.chunk_id.as_str(),
                    exit_code,
                ),
                None => None,
            },
        };
        match fragment {
            Some(fragment) => Some(fragment.into_output_item()),
            None => None,
        }
    }

    /// The state as a JSON value with the keys of every object in ascending order.
    pub fn to_json_value(&self) -> (j: Json)
        ensures
            j@ == state_json(self@),
    {
        let mut entries: Vec<Json> = Vec::new();
        let mut i: usize = 0;
        while i < self.entries.len()
            invariant
                i <= self.entries@.len(),
                json::json_views(entries@) == entries_json(entry_views(self.entries@)).take(i as int),
            decreases self.entries@.len() - i,
        {
            let ghost before = entries@;
            let j = entry_value(&self.entries[i]);
            entries.push(j);
            i = i + 1;
            assert(json::json_views(entries@) =~= json::json_views(before).push(j@));
            assert(json::json_views(entries@) =~= entries_json(entry_views(self.entries@)).take(i as int));
        }
        assert(json::json_views(entries@) =~= entries_json(entry_views(self.entries@)));
        let mut members: Vec<Member> = Vec::new();
        members.push(json::member("entries", json::array(entries)));
        members.push(json::member("version", Json::Int(self.version as i128)));
        let j = json::object(members);
        assert(j@->Object_0 =~= state_json(self@)->Object_0);
        j
    }
}

/// What carries one handle into the context. A completed process needs an exit code.
pub open spec fn entry_item(version: int, e: EntryView) -> Option<ItemView> {
    let body = match e.state {
        ActionableStateStatus::Running => context::bounded_fragment(
            e.chunk_id,
            context::running_json(version, e.session_id, e.process_id, e.chunk_id),
        ),
        ActionableStateStatus::Completed => match e.exit_code {
            Some(exit_code) => context::bounded_fragment(
                e.chunk_id,
                context::completed_json(version, e.session_id, e.process_id, e.chunk_id, exit_code),
            ),
            None => None,
        },
    };
    match body {
        Some(body) => Some(
            items::text_item("<codex_actionable_state>"@ + body + "</codex_actionable_state>"@),
        ),
        None => None,
    }
}

/// What carries the first `n` handles into the context: nothing where one cannot be rendered.
pub open spec fn entries_items(version: int, entries: Seq<EntryView>, n: nat) -> Option<Seq<ItemView>>
    decreases n,
{
    if n == 0 || n > entries.len() {
        Some(Seq::empty())
    } else {
        match (entries_items(version, entries, (n - 1) as nat), entry_item(version, entries[n - 1])) {
            (Some(before), Some(item)) => Some(before.push(item)),
            _ => None,
        }
    }
}

/// What carries a state into the context, one item per handle.
pub open spec fn state_items(s: StateView) -> Option<Seq<ItemView>> {
    entries_items(s.version, s.entries, s.entries.len())
}

proof fn lemma_entries_items_none(version: int, entries: Seq<EntryView>, n: nat, m: nat)
    requires
        n <= m <= entries.len(),
        entries_items(version, entries, n) is None,
    ensures
        entries_items(version, entries, m) is None,
    decreases m,
{
    if n < m {
        lemma_entries_items_none(version, entries, n, (m - 1) as nat);
    }
}

/// The name of a status.
pub open spec fn status_name(state: ActionableStateStatus) -> Seq<char> {
    match state {
        ActionableStateStatus::Running => "running"@,
        ActionableStateStatus::Completed => "completed"@,
    }
}

/// An entry as a JSON value.
pub open spec fn entry_json(e: EntryView) -> JsonView {
    JsonView::Object(
        seq![
            json::field("chunk_id"@, JsonView::Text(e.chunk_id)),
            json::field("exit_code"@, json::int_or_null(e.exit_code)),
            json::field("process_id"@, JsonView::Int(e.process_id)),
            json::field(
                "required_follow_up"@,
                match e.required_follow_up {
                    Some(follow_up) => required_follow_up_json(follow_up),
                    None => JsonView::Null,
                },
            ),
            json::field("session_id"@, JsonView::Int(e.session_id)),
            json::field("state"@, JsonView::Text(status_name(e.state))),
        ],
    )
}

/// A follow-up as a JSON value.
pub open spec fn required_follow_up_json(f: FollowUpView) -> JsonView {
    JsonView::Object(
        seq![
            json::field(
                "arguments"@,
                JsonView::Object(
                    seq![
                        json::field("chars"@, JsonView::Text(f.chars)),
                        json::field("session_id"@, JsonView::Int(f.session_id)),
                    ],
                ),
            ),
            json::field("operation"@, JsonView::Text(f.operation)),
        ],
    )
}

/// Several entries as JSON values.
pub open spec fn entries_json(entries: Seq<EntryView>) -> Seq<JsonView> {
    entries.map_values(|e: EntryView| entry_json(e))
}

/// A state as a JSON value.
pub open spec fn state_json(s: StateView) -> JsonView {
    JsonView::Object(
        seq![
            json::field("entries"@, JsonView::Array(entries_json(s.entries))),
            json::field("version"@, JsonView::Int(s.version)),
        ],
    )
}

fn entry_value(e: &ActionableStateEntry) -> (j: Json)
    ensures
        j@ == entry_json(e@),
{
    let exit_code = match e.exit_code {
        Some(n) => Json::Int(n as i128),
        None => Json::Null,
    };
    let follow_up = match &e.required_follow_up {
        Some(follow_up) => {
            let mut arguments: Vec<Member> = Vec::new();
            arguments.push(json::member("chars", json::text_value(follow_up.arguments.chars.as_str())));
            arguments.push(json::member("session_id", Json::Int(follow_up.arguments.session_id as i128)));
            let ghost expected = required_follow_up_json(follow_up@);
            assert(json::member_views(arguments@) =~= expected->Object_0[0].value->Object_0);
            let mut members: Vec<Member> = Vec::new();
            members.push(json::member("arguments", json::object(arguments)));
            members.push(json::member("operation", json::text_value(follow_up.operation.as_str())));
            let j = json::object(members);
            assert(j@->Object_0 =~= expected->Object_0);
            j
        },
        None => Json::Null,
    };
    let mut members: Vec<Member> = Vec::new();
    members.push(json::member("chunk_id", json::text_value(e.chunk_id.as_str())));
    members.push(json::member("exit_code", exit_code));
    members.push(json::member("process_id", Json::Int(e.process_id as i128)));
    members.push(json::member("required_follow_up", follow_up));
    members.push(json::member("session_id", Json::Int(e.session_id as i128)));
    members.push(json::member("state", json::text_value(status_text(e.state))));
    let j = json::object(members);
    assert(j@->Object_0 =~= entry_json(e@)->Object_0);
    j
}

/// An entry as it is written into a request, in the order of its fields.
pub open spec fn written_entry_json(e: EntryView) -> JsonView {
    JsonView::Object(
        seq![
            json::field("session_id"@, JsonView::Int(e.session_id)),
            json::field("process_id"@, JsonView::Int(e.process_id)),
            json::field("chunk_id"@, JsonView::Text(e.chunk_id)),
            json::field("state"@, JsonView::Text(status_name(e.state))),
            json::field("exit_code"@, json::int_or_null(e.exit_code)),
            json::field(
                "required_follow_up"@,
                match e.required_follow_up {
                    Some(follow_up) => written_follow_up_json(follow_up),
                    None => JsonView::Null,
                },
            ),
        ],
    )
}

/// A follow-up as it is written into a request, in the order of its fields.
pub open spec fn written_follow_up_json(f: FollowUpView) -> JsonView {
    JsonView::Object(
        seq![
            json::field("operation"@, JsonView::Text(f.operation)),
            json::field(
                "arguments"@,
                JsonView::Object(
                    seq![
                        json::field("session_id"@, JsonView::Int(f.session_id)),
                        json::field("chars"@, JsonView::Text(f.chars)),
                    ],
                ),
            ),
        ],
    )
}

/// Several entries as they are written into a request.
pub open spec fn written_entries_json(entries: Seq<EntryView>) -> Seq<JsonView> {
    entries.map_values(|e: EntryView| written_entry_json(e))
}

/// A state as it is written into a request, in the order of its fields.
pub open spec fn written_state_json(s: StateView) -> JsonView {
    JsonView::Object(
        seq![
            json::field("version"@, JsonView::Int(s.version)),
            json::field("entries"@, JsonView::Array(written_entries_json(s.entries))),
        ],
    )
}

proof fn lemma_written_follow_up(f: FollowUpView)
    ensures
        json::same_value(written_follow_up_json(f), required_follow_up_json(f)),
{
    reveal_strlit("operation");
    reveal_strlit("arguments");
    reveal_strlit("session_id");
    reveal_strlit("chars");
    assert("operation"@[0] == 'o' && "arguments"@[0] == 'a');
    assert("session_id"@[0] == 's' && "chars"@[0] == 'c');
    let written = written_follow_up_json(f)->Object_0;
    let sorted = required_follow_up_json(f)->Object_0;
    let given = written[1].value->Object_0;
    let inner = sorted[0].value->Object_0;
    lemma_find_at(inner, 0);
    lemma_find_at(inner, 1);
    json::lemma_same_leaf(JsonView::Int(f.session_id));
    json::lemma_same_leaf(JsonView::Text(f.chars));
    json::lemma_same_leaf(JsonView::Text(f.operation));
    json::lemma_same_member(given, 0, inner, inner[1].value);
    json::lemma_same_member(given, 1, inner, inner[0].value);
    assert(json::same_value(written[1].value, sorted[0].value));
    lemma_find_at(sorted, 0);
    lemma_find_at(sorted, 1);
    json::lemma_same_member(written, 0, sorted, sorted[1].value);
    json::lemma_same_member(written, 1, sorted, sorted[0].value);
}

proof fn lemma_written_entry(e: EntryView)
    ensures
        json::same_value(written_entry_json(e), entry_json(e)),
{
    let written = written_entry_json(e)->Object_0;
    let sorted = entry_json(e)->Object_0;
    lemma_entry_keys(sorted, e);
    let follow_up = match e.required_follow_up {
        Some(follow_up) => required_follow_up_json(follow_up),
        None => JsonView::Null,
    };
    assert(json::same_value(written[5].value, follow_up)) by {
        if let Some(f) = e.required_follow_up {
            lemma_written_follow_up(f);
        } else {
            json::lemma_same_leaf(JsonView::Null);
        }
    }
    json::lemma_same_leaf(sorted[0].value);
    json::lemma_same_leaf(sorted[1].value);
    json::lemma_same_leaf(sorted[2].value);
    json::lemma_same_leaf(sorted[4].value);
    json::lemma_same_leaf(sorted[5].value);
    json::lemma_same_member(written, 0, sorted, sorted[4].value);
    json::lemma_same_member(written, 1, sorted, sorted[2].value);
    json::lemma_same_member(written, 2, sorted, sorted[0].value);
    json::lemma_same_member(written, 3, sorted, sorted[5].value);
    json::lemma_same_member(written, 4, sorted, sorted[1].value);
    json::lemma_same_member(written, 5, sorted, sorted[3].value);
}

/// Each member of an entry is found under its key.
proof fn lemma_entry_keys(sorted: Seq<json::MemberView>, e: EntryView)
    requires
        sorted == entry_json(e)->Object_0,
    ensures
        json::find_member(sorted, "chunk_id"@) == Some(sorted[0].value),
        json::find_member(sorted, "exit_code"@) == Some(sorted[1].value),
        json::find_member(sorted, "process_id"@) == Some(sorted[2].value),
        json::find_member(sorted, "required_follow_up"@) == Some(sorted[3].value),
        json::find_member(sorted, "session_id"@) == Some(sorted[4].value),
        json::find_member(sorted, "state"@) == Some(sorted[5].value),
{
    reveal_strlit("chunk_id");
    reveal_strlit("exit_code");
    reveal_strlit("process_id");
    reveal_strlit("required_follow_up");
    reveal_strlit("session_id");
    reveal_strlit("state");
    assert("chunk_id"@[0] == 'c' && "exit_code"@[0] == 'e' && "process_id"@[0] == 'p');
    assert("required_follow_up"@[0] == 'r' && "session_id"@[1] == 'e' && "state"@[1] == 't');
    assert("session_id"@[0] == 's' && "state"@[0] == 's');
    lemma_find_at(sorted, 0);
    lemma_find_at(sorted, 1);
    lemma_find_at(sorted, 2);
    lemma_find_at(sorted, 3);
    lemma_find_at(sorted, 4);
    lemma_find_at(sorted, 5);
}

/// A member whose key no earlier member has is found under it.
proof fn lemma_find_at(members: Seq<json::MemberView>, i: int)
    requires
        0 <= i < members.len(),
        forall|j: int| 0 <= j < i ==> (#[trigger] members[j]).key != members[i].key,
    ensures
        json::find_member(members, members[i].key) == Some(members[i].value),
    decreases i,
{
    if i > 0 {
        assert(members[0].key != members[i].key);
        let rest = members.drop_first();
        assert forall|j: int| 0 <= j < i - 1 implies (#[trigger] rest[j]).key != rest[i - 1].key by {
            assert(rest[j] == members[j + 1]);
        }
        lemma_find_at(rest, i - 1);
    }
}

/// A state is the same value in the order of its fields and in the order of its keys.
pub proof fn lemma_written_state(s: StateView)
    ensures
        json::same_value(written_state_json(s), state_json(s)),
{
    reveal_strlit("version");
    reveal_strlit("entries");
    let written = written_state_json(s)->Object_0;
    let sorted = state_json(s)->Object_0;
    assert("version"@[0] == 'v' && "entries"@[0] == 'e');
    lemma_find_at(sorted, 0);
    lemma_find_at(sorted, 1);
    let xs = written_entries_json(s.entries);
    let ys = entries_json(s.entries);
    assert forall|i: int| 0 <= i < xs.len() implies json::same_value(#[trigger] xs[i], ys[i]) by {
        lemma_written_entry(s.entries[i]);
    }
    json::lemma_same_items(xs, xs.len(), ys);
    assert(json::same_value(JsonView::Array(xs), JsonView::Array(ys)));
    json::lemma_same_leaf(JsonView::Int(s.version));
    json::lemma_same_member(written, 0, sorted, sorted[1].value);
    json::lemma_same_member(written, 1, sorted, sorted[0].value);
}

fn status_text(state: ActionableStateStatus) -> (name: &'static str)
    ensures
        name@ == status_name(state),
{
    match state {
        ActionableStateStatus::Running => "running",
        ActionableStateStatus::Completed => "completed",
    }
}

fn written_entry_value(e: &ActionableStateEntry) -> (j: Json)
    ensures
        j@ == written_entry_json(e@),
{
    let exit_code = match e.exit_code {
        Some(n) => Json::Int(n as i128),
        None => Json::Null,
    };
    let follow_up = match &e.required_follow_up {
        Some(follow_up) => {
            let mut arguments: Vec<Member> = Vec::new();
            arguments.push(json::member("session_id", Json::Int(follow_up.arguments.session_id as i128)));
            arguments.push(json::member("chars", json::text_value(follow_up.arguments.chars.as_str())));
            let ghost expected = written_follow_up_json(follow_up@);
            assert(json::member_views(arguments@) =~= expected->Object_0[1].value->Object_0);
            let mut members: Vec<Member> = Vec::new();
            members.push(json::member("operation", json::text_value(follow_up.operation.as_str())));
            members.push(json::member("arguments", json::object(arguments)));
            let j = json::object(members);
            assert(j@->Object_0 =~= expected->Object_0);
            j
        },
        None => Json::Null,
    };
    let mut members: Vec<Member> = Vec::new();
    members.push(json::member("session_id", Json::Int(e.session_id as i128)));
    members.push(json::member("process_id", Json::Int(e.process_id as i128)));
    members.push(json::member("chunk_id", json::text_value(e.chunk_id.as_str())));
    members.push(json::member("state", json::text_value(status_text(e.state))));
    members.push(json::member("exit_code", exit_code));
    members.push(json::member("required_follow_up", follow_up));
    let j = json::object(members);
    assert(j@->Object_0 =~= written_entry_json(e@)->Object_0);
    j
}

impl ActionableState {
    /// The state as it is written into a request, in the order of its fields.
    pub fn to_request_value(&self) -> (j: Json)
        ensures
            j@ == written_state_json(self@),
    {
        let mut entries: Vec<Json> = Vec::new();
        let mut i: usize = 0;
        while i < self.entries.len()
            invariant
                i <= self.entries@.len(),
                json::json_views(entries@) == written_entries_json(entry_views(self.entries@)).take(i as int),
            decreases self.entries@.len() - i,
        {
            let ghost before = entries@;
            let j = written_entry_value(&self.entries[i]);
            entries.push(j);
            i = i + 1;
            assert(json::json_views(entries@) =~= json::json_views(before).push(j@));
            assert(json::json_views(entries@) =~= written_entries_json(entry_views(self.entries@)).take(i as int));
        }
        assert(json::json_views(entries@) =~= written_entries_json(entry_views(self.entries@)));
        let mut members: Vec<Member> = Vec::new();
        members.push(json::member("version", Json::Int(self.version as i128)));
        members.push(json::member("entries", json::array(entries)));
        let j = json::object(members);
        assert(j@->Object_0 =~= written_state_json(self@)->Object_0);
        j
    }
}

/// The 32-bit integer under a key of an object.
pub open spec fn small_integer(v: JsonView, key: Seq<char>) -> Option<int> {
    match json::json_get(v, key) {
        Some(member) => match json::json_i64(member) {
            Some(n) => if i32::MIN <= n <= i32::MAX { Some(n) } else { None },
            None => None,
        },
        None => None,
    }
}

/// The chunk identity that a result carries.
pub open spec fn result_chunk_id(result: JsonView) -> Option<Seq<char>> {
    match json::json_get(result, "chunk_id"@) {
        Some(member) => match json::json_str(member) {
            Some(chunk_id) => if context::is_chunk_id(chunk_id) { Some(chunk_id) } else { None },
            None => None,
        },
        None => None,
    }
}

/// The session that a nested call leaves behind, and whether it is still alive. Starting a
/// process leaves a session where the result names one. Writing to a process leaves the session
/// that the result names, or else, with an exit code, the one that was written to.
pub open spec fn nested_session(
    name: Seq<char>,
    input: Option<JsonView>,
    result: JsonView,
) -> Option<(int, ActionableStateStatus)> {
    let result_session = small_integer(result, "session_id"@);
    if name == "exec_command"@ {
        match result_session {
            Some(session_id) => Some((session_id, ActionableStateStatus::Running)),
            None => None,
        }
    } else if name == "write_stdin"@ && input is Some {
        match small_integer(input->0, "session_id"@) {
            Some(written_to) => match result_session {
                Some(session_id) => Some((session_id, ActionableStateStatus::Running)),
                None => if small_integer(result, "exit_code"@) is Some {
                    Some((written_to, ActionableStateStatus::Completed))
                } else {
                    None
                },
            },
            None => None,
        }
    } else {
        None
    }
}

/// The entry that a nested call's result amounts to, if any.
pub open spec fn nested_entry(
    name: Seq<char>,
    default_namespace: bool,
    input: Option<JsonView>,
    result: JsonView,
) -> Option<EntryView> {
    match (result_chunk_id(result), nested_session(name, input, result)) {
        (Some(chunk_id), Some((session_id, state))) => if default_namespace {
            Some(
                EntryView {
                    session_id,
                    process_id: session_id,
                    chunk_id,
                    state,
                    exit_code: small_integer(result, "exit_code"@),
                    required_follow_up: if state == ActionableStateStatus::Running {
                        Some(
                            FollowUpView { operation: "write_stdin"@, session_id, chars: Seq::empty() },
                        )
                    } else {
                        None
                    },
                },
            )
        } else {
            None
        },
        _ => None,
    }
}

fn read_small_integer(v: &Json, key: &str) -> (n: Option<i32>)
    ensures
        int_option(n) == small_integer(v@, key@),
{
    match v.get(key) {
        Some(member) => match member.as_i64() {
            Some(n) => {
                if -0x8000_0000 <= n && n <= 0x7fff_ffff {
                    Some(n as i32)
                } else {
                    None
                }
            },
            None => None,
        },
        None => None,
    }
}

/// The value of an optional borrowed [`Json`].
pub open spec fn json_ref_option(j: Option<&Json>) -> Option<JsonView> {
    match j {
        Some(j) => Some(j@),
        None => None,
    }
}

/// The entry that a nested call's result amounts to, if any.
pub fn from_nested_tool_result(
    tool_name: &ToolName,
    input: Option<&Json>,
    result: &Json,
) -> (entry: Option<ActionableStateEntry>)
    ensures
        entry_option(entry) == nested_entry(
            tool_name.name@,
            tool_name.default_namespace,
            json_ref_option(input),
            result@,
        ),
{
    if !tool_name.is_default_namespace() {
        return None;
    }
    let chunk_id = match result.get("chunk_id") {
        Some(member) => match member.as_str() {
            Some(chunk_id) => chunk_id,
            None => {
                return None;
            },
        },
        None => {
            return None;
        },
    };
    if !context::check_chunk_id(chunk_id) {
        return None;
    }
    let result_session_id = read_small_integer(result, "session_id");
    let exit_code = read_small_integer(result, "exit_code");
    let session: (i32, ActionableStateStatus) = if text::same_text(tool_name.name.as_str(), "exec_command") {
        match result_session_id {
            Some(session_id) => (session_id, ActionableStateStatus::Running),
            None => {
                return None;
            },
        }
    } else if text::same_text(tool_name.name.as_str(), "write_stdin") {
        let written_to: i32 = match input {
            Some(input) => match read_small_integer(input, "session_id") {
                Some(written_to) => written_to,
                None => {
                    return None;
                },
            },
            None => {
                return None;
            },
        };
        match result_session_id {
            Some(session_id) => (session_id, ActionableStateStatus::Running),
            None => {
                if exit_code.is_some() {
                    (written_to, ActionableStateStatus::Completed)
                } else {
                    return None;
                }
            },
        }
    } else {
        return None;
    };
    let session_id: i32 = session.0;
    let required_follow_up = match session.1 {
        ActionableStateStatus::Running => Some(
            RequiredFollowUp {
                operation: "write_stdin".to_string(),
                arguments: WriteStdinFollowUpArguments { session_id, chars: String::new() },
            },
        ),
        ActionableStateStatus::Completed => None,
    };
    Some(
        ActionableStateEntry {
            session_id,
            process_id: session_id,
            chunk_id: chunk_id.to_string(),
            state: session.1,
            exit_code,
            required_follow_up,
        },
    )
}

/// The continuation state of every live cell.
#[derive(Debug)]
pub struct ActionableStateStore {
    cells: Assoc<String, Vec<ActionableStateEntry>>,
}

impl View for ActionableStateStore {
    type V = Map<Seq<char>, Seq<EntryView>>;

    closed spec fn view(&self) -> Map<Seq<char>, Seq<EntryView>> {
        self.cells@.map_values(|entries: Vec<ActionableStateEntry>| entry_views(entries@))
    }
}

/// The entries of a cell, in ascending order of their process identities.
pub open spec fn cell_entries(store: Map<Seq<char>, Seq<EntryView>>, cell: Seq<char>) -> Seq<EntryView> {
    if store.dom().contains(cell) {
        store[cell]
    } else {
        Seq::empty()
    }
}

/// A store after one more observation.
pub open spec fn recorded(
    store: Map<Seq<char>, Seq<EntryView>>,
    cell: Seq<char>,
    entry: Option<EntryView>,
) -> Map<Seq<char>, Seq<EntryView>> {
    match entry {
        Some(e) => store.insert(cell, insert_latest(cell_entries(store, cell), e)),
        None => store,
    }
}

impl ActionableStateStore {
    /// The store of no cell.
    pub fn new() -> (store: Self)
        ensures
            store@ == Map::<Seq<char>, Seq<EntryView>>::empty(),
    {
        let store = ActionableStateStore { cells: Assoc::new() };
        assert(store@ =~= Map::<Seq<char>, Seq<EntryView>>::empty());
        store
    }

    /// Records what a nested call of a cell leaves behind. The latest observation of a process
    /// takes the place of earlier ones.
    pub fn record(&mut self, cell_id: &str, tool_name: &ToolName, input: Option<&Json>, result: &Json)
        ensures
            final(self)@ == recorded(
                old(self)@,
                cell_id@,
                nested_entry(tool_name.name@, tool_name.default_namespace, json_ref_option(input), result@),
            ),
    {
        let ghost before = self@;
        let entry = match from_nested_tool_result(tool_name, input, result) {
            Some(entry) => entry,
            None => {
                return;
            },
        };
        let key = cell_id.to_string();
        let mut entries: Vec<ActionableStateEntry> = match self.cells.remove(&key) {
            Some(entries) => entries,
            None => Vec::new(),
        };
        assert(entry_views(entries@) =~= cell_entries(before, cell_id@));
        put_latest(&mut entries, entry);
        self.cells.insert(key, entries);
        assert(self@ =~= recorded(before, cell_id@, Some(entry@)));
    }

    /// The state of a cell, which is forgotten where `take` is set.
    pub fn read(&mut self, cell_id: &str, take: bool) -> (state: Option<ActionableState>)
        ensures
            state_option(state) == state_of(cell_entries(old(self)@, cell_id@)),
            final(self)@ == (if take { old(self)@.remove(cell_id@) } else { old(self)@ }),
    {
        let ghost before = self@;
        let key = cell_id.to_string();
        if take {
            let removed = self.cells.remove(&key);
            assert(self@ =~= before.remove(cell_id@));
            match removed {
                Some(entries) => {
                    assert(entry_views(entries@) == cell_entries(before, cell_id@));
                    ActionableState::new(entries)
                },
                None => None,
            }
        } else {
            match self.cells.get(&key) {
                Some(entries) => {
                    let copy = entries.clone();
                    assert(copy@ =~= entries@);
                    assert(entry_views(copy@) == cell_entries(before, cell_id@));
                    ActionableState::new(copy)
                },
                None => None,
            }
        }
    }

    /// Forgets every cell.
    pub fn clear(&mut self)
        ensures
            final(self)@ == Map::<Seq<char>, Seq<EntryView>>::empty(),
    {
        self.cells.clear();
        assert(self@ =~= Map::<Seq<char>, Seq<EntryView>>::empty());
    }
}

/// Whether entries stand in strictly ascending order of their process identities.
pub open spec fn ascending(entries: Seq<EntryView>) -> bool {
    forall|i: int, j: int| 0 <= i < j < entries.len() ==> (#[trigger] entries[i]).process_id < (#[trigger] entries[j]).process_id
}

proof fn lemma_ascending_cons(e: EntryView, rest: Seq<EntryView>)
    requires
        ascending(rest),
        forall|i: int| 0 <= i < rest.len() ==> e.process_id < (#[trigger] rest[i]).process_id,
    ensures
        ascending(seq![e] + rest),
{
    let s = seq![e] + rest;
    assert forall|i: int, j: int| 0 <= i < j < s.len() implies (#[trigger] s[i]).process_id < (
    #[trigger] s[j]).process_id by {
        assert(s[j] == rest[j - 1]);
        if i > 0 {
            assert(s[i] == rest[i - 1]);
        }
    }
}

proof fn lemma_ascending_tail(entries: Seq<EntryView>)
    requires
        ascending(entries),
        entries.len() > 0,
    ensures
        ascending(entries.drop_first()),
        forall|i: int|
            0 <= i < entries.drop_first().len() ==> entries[0].process_id < (#[trigger] entries.drop_first()[i]).process_id,
{
    let rest = entries.drop_first();
    assert forall|i: int, j: int| 0 <= i < j < rest.len() implies (#[trigger] rest[i]).process_id < (
    #[trigger] rest[j]).process_id by {
        assert(rest[i] == entries[i + 1]);
        assert(rest[j] == entries[j + 1]);
    }
    assert forall|i: int| 0 <= i < rest.len() implies entries[0].process_id < (#[trigger] rest[i]).process_id by {
        assert(rest[i] == entries[i + 1]);
    }
}

proof fn lemma_place(sorted: Seq<EntryView>, process_id: int) -> (at: int)
    requires
        ascending(sorted),
    ensures
        0 <= at <= sorted.len(),
        forall|i: int| 0 <= i < at ==> (#[trigger] sorted[i]).process_id < process_id,
        forall|i: int| at <= i < sorted.len() ==> (#[trigger] sorted[i]).process_id >= process_id,
    decreases sorted.len(),
{
    if sorted.len() == 0 || sorted[0].process_id >= process_id {
        assert forall|i: int| 0 <= i < sorted.len() implies (#[trigger] sorted[i]).process_id >= process_id by {
            if i > 0 {
                assert(sorted[0].process_id < sorted[i].process_id);
            }
        }
        0
    } else {
        let rest = sorted.drop_first();
        lemma_ascending_tail(sorted);
        let at = lemma_place(rest, process_id);
        assert forall|i: int| 0 <= i < at + 1 implies (#[trigger] sorted[i]).process_id < process_id by {
            if i > 0 {
                assert(sorted[i] == rest[i - 1]);
            }
        }
        assert forall|i: int| at + 1 <= i < sorted.len() implies (#[trigger] sorted[i]).process_id >= process_id by {
            assert(sorted[i] == rest[i - 1]);
        }
        at + 1
    }
}

proof fn lemma_inserted(sorted: Seq<EntryView>, e: EntryView, at: int)
    requires
        ascending(sorted),
        0 <= at <= sorted.len(),
        forall|i: int| 0 <= i < at ==> (#[trigger] sorted[i]).process_id < e.process_id,
        forall|i: int| at <= i < sorted.len() ==> (#[trigger] sorted[i]).process_id > e.process_id,
    ensures
        ascending(sorted.insert(at, e)),
        forall|x: EntryView| #[trigger] sorted.insert(at, e).contains(x) <==> x == e || sorted.contains(x),
        forall|x: EntryView| #[trigger] sorted.contains(x) ==> x.process_id != e.process_id,
{
    let s = sorted.insert(at, e);
    assert forall|i: int, j: int| 0 <= i < j < s.len() implies (#[trigger] s[i]).process_id < (
    #[trigger] s[j]).process_id by {
        let x = if i < at {
            sorted[i]
        } else if i == at {
            e
        } else {
            sorted[i - 1]
        };
        let y = if j < at {
            sorted[j]
        } else if j == at {
            e
        } else {
            sorted[j - 1]
        };
        assert(s[i] == x && s[j] == y);
    }
    assert forall|x: EntryView| #[trigger] s.contains(x) implies x == e || sorted.contains(x) by {
        let i = choose|i: int| 0 <= i < s.len() && s[i] == x;
        if i < at {
            assert(sorted[i] == x);
        } else if i > at {
            assert(sorted[i - 1] == x);
        }
    }
    assert(s[at] == e);
    assert forall|x: EntryView| sorted.contains(x) implies #[trigger] s.contains(x) by {
        let i = choose|i: int| 0 <= i < sorted.len() && sorted[i] == x;
        if i < at {
            assert(s[i] == x);
        } else {
            assert(s[i + 1] == x);
        }
    }
}

proof fn lemma_replaced(sorted: Seq<EntryView>, e: EntryView, at: int)
    requires
        ascending(sorted),
        0 <= at < sorted.len(),
        sorted[at].process_id == e.process_id,
    ensures
        ascending(sorted.update(at, e)),
        forall|x: EntryView|
            #[trigger] sorted.update(at, e).contains(x) <==> x == e || (sorted.contains(x) && x.process_id
                != e.process_id),
{
    let s = sorted.update(at, e);
    assert forall|i: int, j: int| 0 <= i < j < s.len() implies (#[trigger] s[i]).process_id < (
    #[trigger] s[j]).process_id by {
        assert(sorted[i].process_id < sorted[j].process_id);
    }
    assert(s[at] == e);
    assert forall|x: EntryView| #[trigger] s.contains(x) implies x == e || (sorted.contains(x) && x.process_id
        != e.process_id) by {
        let i = choose|i: int| 0 <= i < s.len() && s[i] == x;
        if i != at {
            assert(sorted[i] == x);
            if i < at {
                assert(sorted[i].process_id < sorted[at].process_id);
            } else {
                assert(sorted[at].process_id < sorted[i].process_id);
            }
        }
    }
    assert forall|x: EntryView| sorted.contains(x) && x.process_id != e.process_id implies #[trigger] s.contains(x) by {
        let i = choose|i: int| 0 <= i < sorted.len() && sorted[i] == x;
        assert(s[i] == x);
    }
}

/// What an insertion does to ascending entries.
proof fn lemma_insert(sorted: Seq<EntryView>, e: EntryView)
    requires
        ascending(sorted),
    ensures
        ascending(insert_first(sorted, e)),
        ascending(insert_latest(sorted, e)),
        insert_first(sorted, e).contains(e) || exists|x: EntryView| #[trigger]
            sorted.contains(x) && x.process_id == e.process_id,
        forall|x: EntryView| #[trigger] sorted.contains(x) ==> insert_first(sorted, e).contains(x),
        forall|x: EntryView| #[trigger] insert_first(sorted, e).contains(x) ==> sorted.contains(x) || x == e,
        forall|x: EntryView|
            #[trigger] insert_latest(sorted, e).contains(x) <==> x == e || (sorted.contains(x) && x.process_id
                != e.process_id),
{
    let at = lemma_place(sorted, e.process_id);
    lemma_insert_at(sorted, e, at);
    if at < sorted.len() && sorted[at].process_id == e.process_id {
        assert(sorted.contains(sorted[at]));
        lemma_replaced(sorted, e, at);
    } else {
        assert forall|i: int| at <= i < sorted.len() implies (#[trigger] sorted[i]).process_id > e.process_id by {
            if i > at {
                assert(sorted[at].process_id < sorted[i].process_id);
            }
        }
        lemma_inserted(sorted, e, at);
    }
}

/// The first observation of every process is kept, and nothing else, in ascending order.
pub proof fn law_first_observation_of_each_process(entries: Seq<EntryView>)
    ensures
        ascending(first_per_process(entries)),
        forall|x: EntryView| #[trigger] first_per_process(entries).contains(x) ==> entries.contains(x),
        forall|i: int|
            0 <= i < entries.len() && (forall|j: int|
                0 <= j < i ==> (#[trigger] entries[j]).process_id != entries[i].process_id)
                ==> #[trigger] first_per_process(entries).contains(entries[i]),
    decreases entries.len(),
{
    if entries.len() > 0 {
        let before = entries.drop_last();
        let e = entries.last();
        law_first_observation_of_each_process(before);
        lemma_insert(first_per_process(before), e);
        assert forall|x: EntryView| #[trigger] first_per_process(entries).contains(x) implies entries.contains(x) by {
            if x == e {
                assert(entries[entries.len() - 1] == x);
            } else {
                assert(before.contains(x));
                let i = choose|i: int| 0 <= i < before.len() && before[i] == x;
                assert(entries[i] == x);
            }
        }
        assert forall|i: int|
            0 <= i < entries.len() && (forall|j: int|
                0 <= j < i ==> (#[trigger] entries[j]).process_id != entries[i].process_id) implies #[trigger] first_per_process(
        entries).contains(entries[i]) by {
            if i < before.len() {
                assert(before[i] == entries[i]);
                assert forall|j: int| 0 <= j < i implies (#[trigger] before[j]).process_id != before[i].process_id by {
                    assert(before[j] == entries[j]);
                }
                assert(first_per_process(before).contains(before[i]));
            } else {
                assert(entries[i] == e);
                if !first_per_process(entries).contains(e) {
                    let x = choose|x: EntryView| #[trigger]
                        first_per_process(before).contains(x) && x.process_id == e.process_id;
                    assert(before.contains(x));
                    let k = choose|k: int| 0 <= k < before.len() && before[k] == x;
                    assert(entries[k] == x);
                    assert(false);
                }
            }
        }
    }
}

proof fn lemma_keep(entries: Seq<EntryView>, running: int, completed: int)
    requires
        ascending(entries),
        0 <= running,
        0 <= completed,
    ensures
        ascending(keep(entries, running, completed)),
        keep(entries, running, completed).len() <= running + completed,
        running <= running_count(entries) && completed <= entries.len() - running_count(entries) ==> keep(
            entries,
            running,
            completed,
        ).len() == running + completed,
        running_count(entries) <= entries.len(),
        forall|x: EntryView| #[trigger] keep(entries, running, completed).contains(x) ==> entries.contains(x),
        running_count(entries) <= running ==> forall|x: EntryView| #[trigger]
            entries.contains(x) && x.state == ActionableStateStatus::Running ==> keep(
                entries,
                running,
                completed,
            ).contains(x),
    decreases entries.len(),
{
    if entries.len() > 0 {
        let rest = entries.drop_first();
        let head = entries[0];
        lemma_ascending_tail(entries);
        let is_running = head.state == ActionableStateStatus::Running;
        let taken = if is_running { running > 0 } else { completed > 0 };
        let next_running = if is_running && taken { running - 1 } else { running };
        let next_completed = if !is_running && taken { completed - 1 } else { completed };
        lemma_keep(rest, next_running, next_completed);
        let tail = keep(rest, next_running, next_completed);
        let kept = keep(entries, running, completed);
        assert(kept =~= if taken { seq![head] + tail } else { tail });
        assert forall|i: int| 0 <= i < tail.len() implies head.process_id < (#[trigger] tail[i]).process_id by {
            assert(tail.contains(tail[i]));
            let k = choose|k: int| 0 <= k < rest.len() && rest[k] == tail[i];
            assert(head.process_id < rest[k].process_id);
        }
        if taken {
            lemma_ascending_cons(head, tail);
        }
        assert forall|x: EntryView| #[trigger] kept.contains(x) implies entries.contains(x) by {
            let i = choose|i: int| 0 <= i < kept.len() && kept[i] == x;
            if taken && i == 0 {
                assert(entries[0] == x);
            } else {
                assert(tail.contains(x)) by {
                    assert(tail[if taken { i - 1 } else { i }] == x);
                }
                let k = choose|k: int| 0 <= k < rest.len() && rest[k] == x;
                assert(entries[k + 1] == x);
            }
        }
        if running_count(entries) <= running {
            assert forall|x: EntryView| #[trigger]
                entries.contains(x) && x.state == ActionableStateStatus::Running implies kept.contains(x) by {
                let i = choose|i: int| 0 <= i < entries.len() && entries[i] == x;
                if i == 0 {
                    assert(taken);
                    assert(kept[0] == x);
                } else {
                    assert(rest[i - 1] == x);
                    assert(rest.contains(x));
                    assert(tail.contains(x));
                    let k = choose|k: int| 0 <= k < tail.len() && tail[k] == x;
                    assert(kept[if taken { k + 1 } else { k }] == x);
                }
            }
        }
    }
}

/// A state is bounded without discarding a running handle: it holds at most as many entries as
/// processes can be alive, in ascending order, and as long as no more than that many processes
/// run, every running one of them is in it. Where there are more entries than that, it is full.
pub proof fn law_state_is_bounded_and_keeps_running_handles(entries: Seq<EntryView>)
    requires
        entries.len() > 0,
    ensures
        ({
            let sorted = first_per_process(entries);
            let kept = state_of(entries)->0.entries;
            &&& kept.len() <= MAX_UNIFIED_EXEC_PROCESSES
            &&& ascending(kept)
            &&& forall|x: EntryView| #[trigger] kept.contains(x) ==> entries.contains(x)
            &&& sorted.len() > MAX_UNIFIED_EXEC_PROCESSES ==> kept.len() == MAX_UNIFIED_EXEC_PROCESSES
            &&& running_count(sorted) <= MAX_UNIFIED_EXEC_PROCESSES ==> forall|x: EntryView| #[trigger]
                sorted.contains(x) && x.state == ActionableStateStatus::Running ==> kept.contains(x)
        }),
{
    let sorted = first_per_process(entries);
    law_first_observation_of_each_process(entries);
    let running = smaller(running_count(sorted) as int, MAX_UNIFIED_EXEC_PROCESSES as int);
    lemma_keep(sorted, running, MAX_UNIFIED_EXEC_PROCESSES - running);
}

/// The bytes of the tags around one rendered handle.
pub const HANDLE_TAG_BYTES: usize = 49;

proof fn lemma_item_bytes(version: int, e: EntryView)
    ensures
        entry_item(version, e) matches Some(item) ==> text::byte_len(items::source_of(item))
            <= context::MAX_ACTIONABLE_STATE_BYTES + HANDLE_TAG_BYTES,
{
    if let Some(item) = entry_item(version, e) {
        let start = "<codex_actionable_state>"@;
        let end = "</codex_actionable_state>"@;
        reveal_strlit("<codex_actionable_state>");
        reveal_strlit("</codex_actionable_state>");
        text::lemma_ascii_byte_len(start);
        text::lemma_ascii_byte_len(end);
        let body = match e.state {
            ActionableStateStatus::Running => json::json_text(
                context::running_json(version, e.session_id, e.process_id, e.chunk_id),
            ),
            ActionableStateStatus::Completed => json::json_text(
                context::completed_json(version, e.session_id, e.process_id, e.chunk_id, e.exit_code->0),
            ),
        };
        text::lemma_encode_concat(start, body);
        text::lemma_encode_concat(start + body, end);
    }
}

proof fn lemma_items_bytes(version: int, entries: Seq<EntryView>, n: nat)
    requires
        n <= entries.len(),
    ensures
        entries_items(version, entries, n) matches Some(rendered) ==> rendered.len() == n && items::source_bytes(rendered)
            <= n * (context::MAX_ACTIONABLE_STATE_BYTES + HANDLE_TAG_BYTES),
    decreases n,
{
    if n > 0 {
        lemma_items_bytes(version, entries, (n - 1) as nat);
        lemma_item_bytes(version, entries[n - 1]);
        if let Some(rendered) = entries_items(version, entries, n) {
            let before = entries_items(version, entries, (n - 1) as nat)->0;
            assert(rendered.drop_last() =~= before);
        }
    }
}

/// The aggregate of a state's rendered handles is capped: there is one item per handle, no more items
/// than processes can be alive, no item larger than a bounded body between its tags, and all of them
/// together are no larger than as many of the largest.
pub proof fn law_rendered_handles_are_capped(entries: Seq<EntryView>)
    ensures
        state_of(entries) matches Some(state) ==> (state_items(state) matches Some(rendered) ==> {
            &&& rendered.len() == state.entries.len()
            &&& rendered.len() <= MAX_UNIFIED_EXEC_PROCESSES
            &&& forall|i: int|
                0 <= i < rendered.len() ==> text::byte_len(items::source_of(#[trigger] rendered[i]))
                    <= context::MAX_ACTIONABLE_STATE_BYTES + HANDLE_TAG_BYTES
            &&& items::source_bytes(rendered) <= MAX_UNIFIED_EXEC_PROCESSES * (context::MAX_ACTIONABLE_STATE_BYTES
                + HANDLE_TAG_BYTES)
        }),
{
    if let Some(state) = state_of(entries) {
        law_state_is_bounded_and_keeps_running_handles(entries);
        if let Some(rendered) = state_items(state) {
            lemma_items_bytes(state.version, state.entries, state.entries.len());
            assert forall|i: int| 0 <= i < rendered.len() implies text::byte_len(
                items::source_of(#[trigger] rendered[i]),
            ) <= context::MAX_ACTIONABLE_STATE_BYTES + HANDLE_TAG_BYTES by {
                lemma_item_at(state.version, state.entries, state.entries.len(), i);
                lemma_item_bytes(state.version, state.entries[i]);
            }
        }
    }
}

proof fn lemma_item_at(version: int, entries: Seq<EntryView>, n: nat, i: int)
    requires
        0 <= i < n <= entries.len(),
        entries_items(version, entries, n) is Some,
    ensures
        entries_items(version, entries, n)->0.len() == n,
        entry_item(version, entries[i]) == Some(entries_items(version, entries, n)->0[i]),
    decreases n,
{
    lemma_items_bytes(version, entries, n);
    lemma_items_bytes(version, entries, (n - 1) as nat);
    if i < n - 1 {
        lemma_item_at(version, entries, (n - 1) as nat, i);
    }
}

/// Whatever a nested call leaves behind can be rendered.
pub proof fn law_recorded_handles_render(
    name: Seq<char>,
    default_namespace: bool,
    input: Option<JsonView>,
    result: JsonView,
)
    ensures
        nested_entry(name, default_namespace, input, result) matches Some(e) ==> entry_item(
            ACTIONABLE_STATE_VERSION as int,
            e,
        ) is Some,
{
    if let Some(e) = nested_entry(name, default_namespace, input, result) {
        let exit_code = match e.exit_code {
            Some(n) => n as i32,
            None => 0,
        };
        context::law_well_formed_handles_render(
            ACTIONABLE_STATE_VERSION,
            e.session_id as i32,
            e.process_id as i32,
            e.chunk_id,
            exit_code,
        );
    }
}

/// Recording an observation puts it in the place of earlier ones of the same process, and leaves
/// the other processes of the cell and the other cells alone.
pub proof fn law_latest_observation_wins(
    store: Map<Seq<char>, Seq<EntryView>>,
    cell: Seq<char>,
    other: Seq<char>,
    e: EntryView,
)
    requires
        ascending(cell_entries(store, cell)),
        other != cell,
    ensures
        ({
            let after = recorded(store, cell, Some(e));
            &&& ascending(cell_entries(after, cell))
            &&& forall|x: EntryView| #[trigger]
                cell_entries(after, cell).contains(x) <==> x == e || (cell_entries(store, cell).contains(x)
                    && x.process_id != e.process_id)
            &&& cell_entries(after, other) == cell_entries(store, other)
        }),
{
    lemma_insert(cell_entries(store, cell), e);
}

/// Whether a value holds a 32-bit integer under a key.
pub open spec fn holds_small_integer(v: JsonView, key: Seq<char>, n: int) -> bool {
    json::json_get(v, key) == Some(JsonView::Int(n)) && i32::MIN <= n <= i32::MAX
}

/// Whether a value holds a chunk identity of six hexadecimal digits.
pub open spec fn holds_chunk_id(v: JsonView, chunk_id: Seq<char>) -> bool {
    &&& json::json_get(v, "chunk_id"@) == Some(JsonView::Text(chunk_id))
    &&& chunk_id.len() == 6
    &&& forall|i: int|
        0 <= i < 6 ==> ('0' <= #[trigger] chunk_id[i] <= '9' || 'a' <= chunk_id[i] <= 'f' || 'A' <= chunk_id[i]
            <= 'F')
}

/// A process that is started or written to and that the result names stays alive: whichever of the
/// two calls it was, the entry is that of a running process under the result's session, and it asks
/// to poll that session.
pub proof fn law_a_named_session_is_to_be_polled(
    name: Seq<char>,
    input: Option<JsonView>,
    written_to: int,
    result: JsonView,
    chunk_id: Seq<char>,
    session_id: int,
)
    requires
        name == "exec_command"@ || (name == "write_stdin"@ && input is Some && holds_small_integer(
            input->0,
            "session_id"@,
            written_to,
        )),
        holds_chunk_id(result, chunk_id),
        holds_small_integer(result, "session_id"@, session_id),
    ensures
        nested_entry(name, true, input, result) matches Some(entry) && {
            &&& entry.session_id == session_id
            &&& entry.process_id == session_id
            &&& entry.chunk_id == chunk_id
            &&& entry.state == ActionableStateStatus::Running
            &&& entry.required_follow_up matches Some(follow_up) && follow_up.operation == "write_stdin"@
                && follow_up.session_id == session_id && follow_up.chars.len() == 0
            &&& forall|n: int| #[trigger] holds_small_integer(result, "exit_code"@, n) <==> entry.exit_code == Some(n)
        },
{
    assert(context::is_chunk_id(chunk_id)) by {
        assert forall|i: int| 0 <= i < chunk_id.len() implies context::is_hex(#[trigger] chunk_id[i]) by {}
    }
    assert forall|n: int| #[trigger] holds_small_integer(result, "exit_code"@, n) implies small_integer(
        result,
        "exit_code"@,
    ) == Some(n) by {}
}

/// A process that is written to and that ends stays known by the session that was written to: it
/// carries its exit code and asks for nothing more.
pub proof fn law_an_ended_process_asks_for_nothing(
    input: JsonView,
    written_to: int,
    result: JsonView,
    chunk_id: Seq<char>,
    exit_code: int,
)
    requires
        holds_small_integer(input, "session_id"@, written_to),
        holds_chunk_id(result, chunk_id),
        forall|n: int| !#[trigger] holds_small_integer(result, "session_id"@, n),
        holds_small_integer(result, "exit_code"@, exit_code),
    ensures
        nested_entry("write_stdin"@, true, Some(input), result) matches Some(entry) && {
            &&& entry.session_id == written_to
            &&& entry.process_id == written_to
            &&& entry.chunk_id == chunk_id
            &&& entry.state == ActionableStateStatus::Completed
            &&& entry.exit_code == Some(exit_code)
            &&& entry.required_follow_up is None
        },
{
    reveal_strlit("write_stdin");
    reveal_strlit("exec_command");
    assert("write_stdin"@.len() < "exec_command"@.len());
    assert(context::is_chunk_id(chunk_id)) by {
        assert forall|i: int| 0 <= i < chunk_id.len() implies context::is_hex(#[trigger] chunk_id[i]) by {}
    }
    if let Some(n) = small_integer(result, "session_id"@) {
        assert(holds_small_integer(result, "session_id"@, n));
    }
}

/// Nothing else leaves an entry: only a default tool that starts a process or writes to one does, only
/// where the result has a chunk identity, and only where the result names a session or, for a process
/// that was written to, an exit code.
pub proof fn law_other_results_leave_no_entry(
    name: Seq<char>,
    default_namespace: bool,
    input: Option<JsonView>,
    result: JsonView,
)
    requires
        nested_entry(name, default_namespace, input, result) is Some,
    ensures
        default_namespace,
        name == "exec_command"@ || name == "write_stdin"@,
        exists|chunk_id: Seq<char>| #[trigger] holds_chunk_id(result, chunk_id),
        name == "exec_command"@ ==> exists|n: int| #[trigger] holds_small_integer(result, "session_id"@, n),
        name == "write_stdin"@ ==> {
            &&& input is Some && exists|n: int| #[trigger] holds_small_integer(input->0, "session_id"@, n)
            &&& (exists|n: int| #[trigger] holds_small_integer(result, "session_id"@, n)) || (exists|n: int| #[trigger]
                holds_small_integer(result, "exit_code"@, n))
        },
{
    reveal_strlit("write_stdin");
    reveal_strlit("exec_command");
    assert("write_stdin"@.len() < "exec_command"@.len());
    let chunk_id = result_chunk_id(result)->0;
    assert(holds_chunk_id(result, chunk_id)) by {
        assert forall|i: int| 0 <= i < 6 implies ('0' <= #[trigger] chunk_id[i] <= '9' || 'a' <= chunk_id[i] <= 'f'
            || 'A' <= chunk_id[i] <= 'F') by {
            assert(context::is_hex(chunk_id[i]));
        }
    }
    if let Some(n) = small_integer(result, "session_id"@) {
        assert(holds_small_integer(result, "session_id"@, n));
    }
    if let Some(n) = small_integer(result, "exit_code"@) {
        assert(holds_small_integer(result, "exit_code"@, n));
    }
    if name == "write_stdin"@ {
        let n = small_integer(input->0, "session_id"@)->0;
        assert(holds_small_integer(input->0, "session_id"@, n));
    }
}

/// What carries a handle into the context is one text between two tags: the version, the process with
/// its session and chunk, and how to continue it. A running process is to be polled and has no exit
/// code; a completed one has its exit code and asks for nothing.
pub proof fn law_a_handle_renders_as_its_process(version: int, e: EntryView)
    ensures
        entry_item(version, e) matches Some(item) ==> exists|handle: JsonView, process: JsonView|
            {
                let held = |key: Seq<char>| json::json_get(process, key);
                &&& item == (ItemView::InputText {
                    text: "<codex_actionable_state>"@ + json::json_text(handle) + "</codex_actionable_state>"@,
                })
                &&& encode_utf8(json::json_text(handle)).len() <= 512
                &&& #[trigger] holds_one(handle, version, process)
                &&& held("session_id"@) == Some(JsonView::Int(e.session_id))
                &&& held("process_id"@) == Some(JsonView::Int(e.process_id))
                &&& held("chunk_id"@) == Some(JsonView::Text(e.chunk_id))
                &&& e.state == ActionableStateStatus::Running ==> {
                    &&& held("state"@) == Some(JsonView::Text("running"@))
                    &&& held("exit_code"@) == Some(JsonView::Null)
                    &&& held("required_follow_up"@) == Some(context::follow_up_json(e.session_id))
                }
                &&& e.state == ActionableStateStatus::Completed ==> {
                    &&& held("state"@) == Some(JsonView::Text("completed"@))
                    &&& e.exit_code is Some && held("exit_code"@) == Some(JsonView::Int(e.exit_code->0))
                    &&& held("required_follow_up"@) == Some(JsonView::Null)
                }
            },
        e.state == ActionableStateStatus::Completed && e.exit_code is None ==> entry_item(version, e) is None,
{
    if entry_item(version, e) is Some {
        if e.state == ActionableStateStatus::Running {
            let handle = context::running_json(version, e.session_id, e.process_id, e.chunk_id);
            context::law_a_handle_holds_one_process(
                version,
                e.session_id,
                e.process_id,
                e.chunk_id,
                "running"@,
                None,
                context::follow_up_json(e.session_id),
            );
            let process = (json::json_get(handle, "entries"@)->0)->Array_0[0];
            assert((json::json_get(handle, "entries"@)->0)->Array_0 =~= seq![process]);
            assert(holds_one(handle, version, process));
        } else {
            let handle = context::completed_json(version, e.session_id, e.process_id, e.chunk_id, e.exit_code->0);
            context::law_a_handle_holds_one_process(
                version,
                e.session_id,
                e.process_id,
                e.chunk_id,
                "completed"@,
                e.exit_code,
                JsonView::Null,
            );
            let process = (json::json_get(handle, "entries"@)->0)->Array_0[0];
            assert((json::json_get(handle, "entries"@)->0)->Array_0 =~= seq![process]);
            assert(holds_one(handle, version, process));
        }
    }
}

/// Whether a value is a versioned list of this one entry.
pub open spec fn holds_one(handle: JsonView, version: int, process: JsonView) -> bool {
    &&& json::json_get(handle, "version"@) == Some(JsonView::Int(version))
    &&& json::json_get(handle, "entries"@) == Some(JsonView::Array(seq![process]))
}

/// A state is echoed by its keys: the version and, for each process in order, everything that is known
/// of it.
pub proof fn law_a_state_is_echoed_by_its_keys(s: StateView, i: int)
    requires
        0 <= i < s.entries.len(),
    ensures
        json::json_get(state_json(s), "version"@) == Some(JsonView::Int(s.version)),
        json::json_get(state_json(s), "entries"@) matches Some(JsonView::Array(entries)) && {
            let e = s.entries[i];
            let held = |key: Seq<char>| json::json_get(entries[i], key);
            &&& entries.len() == s.entries.len()
            &&& held("session_id"@) == Some(JsonView::Int(e.session_id))
            &&& held("process_id"@) == Some(JsonView::Int(e.process_id))
            &&& held("chunk_id"@) == Some(JsonView::Text(e.chunk_id))
            &&& held("state"@) == Some(
                JsonView::Text(
                    if e.state == ActionableStateStatus::Running {
                        "running"@
                    } else {
                        "completed"@
                    },
                ),
            )
            &&& e.exit_code matches Some(code) ==> held("exit_code"@) == Some(JsonView::Int(code))
            &&& e.exit_code is None ==> held("exit_code"@) == Some(JsonView::Null)
            &&& e.required_follow_up is None ==> held("required_follow_up"@) == Some(JsonView::Null)
            &&& e.required_follow_up matches Some(f) ==> {
                &&& held("required_follow_up"@) is Some
                &&& json::json_get(held("required_follow_up"@)->0, "operation"@) == Some(JsonView::Text(f.operation))
                &&& json::json_get(held("required_follow_up"@)->0, "arguments"@) matches Some(arguments)
                    && json::json_get(arguments, "session_id"@) == Some(JsonView::Int(f.session_id))
                    && json::json_get(arguments, "chars"@) == Some(JsonView::Text(f.chars))
            }
        },
{
    reveal_strlit("version");
    reveal_strlit("entries");
    reveal_strlit("session_id");
    reveal_strlit("process_id");
    reveal_strlit("chunk_id");
    reveal_strlit("state");
    reveal_strlit("exit_code");
    reveal_strlit("required_follow_up");
    reveal_strlit("operation");
    reveal_strlit("arguments");
    reveal_strlit("chars");
    assert("version"@.len() == 7 && "entries"@.len() == 7 && "session_id"@.len() == 10 && "process_id"@.len() == 10);
    assert("chunk_id"@.len() == 8 && "state"@.len() == 5 && "exit_code"@.len() == 9 && "required_follow_up"@.len()
        == 18);
    assert("operation"@.len() == 9 && "arguments"@.len() == 9 && "chars"@.len() == 5);
    assert("version"@[0] != "entries"@[0]);
    assert("session_id"@[0] != "process_id"@[0]);
    assert("operation"@[0] != "arguments"@[0]);
    let outer = state_json(s)->Object_0;
    json::lemma_member_found(outer, 0);
    json::lemma_member_found(outer, 1);
    let members = entry_json(s.entries[i])->Object_0;
    json::lemma_member_found(members, 0);
    json::lemma_member_found(members, 1);
    json::lemma_member_found(members, 2);
    json::lemma_member_found(members, 3);
    json::lemma_member_found(members, 4);
    json::lemma_member_found(members, 5);
    if let Some(f) = s.entries[i].required_follow_up {
        let follow_up = required_follow_up_json(f)->Object_0;
        json::lemma_member_found(follow_up, 0);
        json::lemma_member_found(follow_up, 1);
        let arguments = follow_up[0].value->Object_0;
        json::lemma_member_found(arguments, 0);
        json::lemma_member_found(arguments, 1);
    }
}

/// There is a state exactly where something was observed, and it has the first version of its form.
pub proof fn law_a_state_stands_for_observations(entries: Seq<EntryView>)
    ensures
        state_of(entries) is None <==> entries.len() == 0,
        state_of(entries) matches Some(s) ==> s.version == 1,
{
}

/// What one cell observes changes no other cell, and a result that leaves no entry changes nothing.
pub proof fn law_handles_are_kept_per_cell(
    store: Map<Seq<char>, Seq<EntryView>>,
    cell: Seq<char>,
    other: Seq<char>,
    entry: Option<EntryView>,
)
    ensures
        other != cell ==> cell_entries(recorded(store, cell, entry), other) == cell_entries(store, other),
        entry is None ==> recorded(store, cell, entry) == store,
{
}

/// Whether one entry is kept rather than another: running processes go before completed ones, and among
/// themselves both go by their identities.
pub open spec fn goes_before(first: EntryView, second: EntryView) -> bool {
    ||| first.state == ActionableStateStatus::Running && second.state == ActionableStateStatus::Completed
    ||| first.state == second.state && first.process_id < second.process_id
}

proof fn lemma_keep_none(entries: Seq<EntryView>, running: int, completed: int)
    ensures
        running <= 0 ==> forall|x: EntryView| #[trigger]
            keep(entries, running, completed).contains(x) ==> x.state == ActionableStateStatus::Completed,
        completed <= 0 ==> forall|x: EntryView| #[trigger]
            keep(entries, running, completed).contains(x) ==> x.state == ActionableStateStatus::Running,
    decreases entries.len(),
{
    if entries.len() > 0 {
        let rest = entries.drop_first();
        let head = entries[0];
        let is_running = head.state == ActionableStateStatus::Running;
        let taken = if is_running { running > 0 } else { completed > 0 };
        let next_running = if is_running && taken { running - 1 } else { running };
        let next_completed = if !is_running && taken { completed - 1 } else { completed };
        lemma_keep_none(rest, next_running, next_completed);
        let tail = keep(rest, next_running, next_completed);
        let kept = keep(entries, running, completed);
        assert(kept =~= if taken { seq![head] + tail } else { tail });
        assert forall|x: EntryView| #[trigger] kept.contains(x) && x != head implies tail.contains(x) by {
            let i = choose|i: int| 0 <= i < kept.len() && kept[i] == x;
            assert(tail[if taken { i - 1 } else { i }] == x);
        }
        assert forall|x: EntryView| #[trigger] kept.contains(x) && !taken implies tail.contains(x) by {}
        if running <= 0 {
            assert forall|x: EntryView| #[trigger] kept.contains(x) implies x.state
                == ActionableStateStatus::Completed by {
                if x == head && is_running {
                    assert(tail.contains(x));
                } else if x != head {
                    assert(tail.contains(x));
                }
            }
        }
        if completed <= 0 {
            assert forall|x: EntryView| #[trigger] kept.contains(x) implies x.state
                == ActionableStateStatus::Running by {
                if x == head && !is_running {
                    assert(tail.contains(x));
                } else if x != head {
                    assert(tail.contains(x));
                }
            }
        }
    }
}

proof fn lemma_keep_order(entries: Seq<EntryView>, running: int, completed: int)
    requires
        ascending(entries),
    ensures
        forall|x: EntryView, y: EntryView| #[trigger]
            keep(entries, running, completed).contains(x) && #[trigger] entries.contains(y) && x.state == y.state
                && y.process_id < x.process_id ==> keep(entries, running, completed).contains(y),
    decreases entries.len(),
{
    if entries.len() > 0 {
        let rest = entries.drop_first();
        let head = entries[0];
        lemma_ascending_tail(entries);
        let is_running = head.state == ActionableStateStatus::Running;
        let taken = if is_running { running > 0 } else { completed > 0 };
        let next_running = if is_running && taken { running - 1 } else { running };
        let next_completed = if !is_running && taken { completed - 1 } else { completed };
        lemma_keep_order(rest, next_running, next_completed);
        lemma_keep_none(entries, running, completed);
        let tail = keep(rest, next_running, next_completed);
        let kept = keep(entries, running, completed);
        assert(kept =~= if taken { seq![head] + tail } else { tail });
        assert forall|x: EntryView, y: EntryView| #[trigger]
            kept.contains(x) && #[trigger] entries.contains(y) && x.state == y.state && y.process_id
                < x.process_id implies kept.contains(y) by {
            let i = choose|i: int| 0 <= i < kept.len() && kept[i] == x;
            let k = choose|k: int| 0 <= k < entries.len() && entries[k] == y;
            if k == 0 {
                if taken {
                    assert(kept[0] == y);
                }
            } else {
                assert(rest[k - 1] == y);
                assert(rest.contains(y));
                assert(head.process_id < y.process_id);
                assert(tail.contains(x)) by {
                    assert(tail[if taken { i - 1 } else { i }] == x);
                }
                assert(tail.contains(y));
                let m = choose|m: int| 0 <= m < tail.len() && tail[m] == y;
                assert(kept[if taken { m + 1 } else { m }] == y);
            }
        }
    }
}

/// A state leaves out no more than it must: where no more than 64 processes were observed, it holds the
/// first observation of each. Where there were more, it holds 64 of them, and whatever goes before an
/// entry that it holds is in it too.
pub proof fn law_a_state_leaves_out_no_more_than_it_must(entries: Seq<EntryView>)
    requires
        entries.len() > 0,
    ensures
        ({
            let observed = first_per_process(entries);
            let kept = state_of(entries)->0.entries;
            &&& observed.len() <= 64 ==> kept == observed
            &&& observed.len() > 64 ==> kept.len() == 64
            &&& forall|x: EntryView, y: EntryView| #[trigger]
                kept.contains(x) && #[trigger] observed.contains(y) && goes_before(y, x) ==> kept.contains(y)
        }),
{
    let observed = first_per_process(entries);
    let kept = state_of(entries)->0.entries;
    law_first_observation_of_each_process(entries);
    law_state_is_bounded_and_keeps_running_handles(entries);
    if observed.len() > 64 {
        let running = smaller(running_count(observed) as int, MAX_UNIFIED_EXEC_PROCESSES as int);
        let completed = MAX_UNIFIED_EXEC_PROCESSES - running;
        lemma_keep(observed, running, completed);
        lemma_keep_order(observed, running, completed);
        lemma_keep_none(observed, running, completed);
    }
}

/// The handles of a state are rendered one by one and in order, or not at all: there is something to show
/// exactly where each of them can be rendered.
pub proof fn law_handles_are_rendered_all_or_none(s: StateView)
    ensures
        state_items(s) is Some <==> forall|i: int|
            0 <= i < s.entries.len() ==> entry_item(s.version, #[trigger] s.entries[i]) is Some,
        state_items(s) matches Some(rendered) ==> rendered.len() == s.entries.len() && forall|i: int|
            0 <= i < rendered.len() ==> Some(#[trigger] rendered[i]) == entry_item(s.version, s.entries[i]),
{
    lemma_rendered(s.version, s.entries, s.entries.len());
}

proof fn lemma_rendered(version: int, entries: Seq<EntryView>, n: nat)
    requires
        n <= entries.len(),
    ensures
        entries_items(version, entries, n) is Some <==> forall|i: int|
            0 <= i < n ==> entry_item(version, #[trigger] entries[i]) is Some,
        entries_items(version, entries, n) matches Some(rendered) ==> rendered.len() == n && forall|i: int|
            0 <= i < n ==> Some(#[trigger] rendered[i]) == entry_item(version, entries[i]),
    decreases n,
{
    if n > 0 {
        lemma_rendered(version, entries, (n - 1) as nat);
    }
}

} // verus!
