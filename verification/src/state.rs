//! Everything the agent panel displays.

use vstd::prelude::*;

use crate::events::{
    clone_options, opt_text, options_view, AgentEvent, AgentPermissionOption, AgentRequestId,
    AgentStatus, AgentToolStatus, EventView, OptionView, StatusView,
};
use crate::item::{AgentItem, ItemView};

verus! {

/// Declares a persistent vector.
#[verifier::external_type_specification]
#[verifier::external_body]
#[verifier::reject_recursive_types(A)]
pub struct ExImVector<A>(im::Vector<A>);

/// What a vector of entries holds, in order.
pub uninterp spec fn entries(items: im::Vector<AgentItem>) -> Seq<ItemView>;

/// Calls `im::Vector::new`, which makes a vector without elements.
#[verifier::external_body]
fn items_new() -> (r: im::Vector<AgentItem>)
    ensures
        entries(r) == Seq::<ItemView>::empty(),
{
    im::Vector::new()
}

/// Calls `im::Vector::len`, which counts the elements.
#[verifier::external_body]
fn items_len(items: &im::Vector<AgentItem>) -> (r: usize)
    ensures
        r == entries(*items).len(),
{
    items.len()
}

/// Calls `im::Vector::get`, which gives the element at an index, and `None` past the end.
#[verifier::external_body]
fn items_get(items: &im::Vector<AgentItem>, index: usize) -> (r: Option<&AgentItem>)
    ensures
        match r {
            Some(item) => index < entries(*items).len() && item@ == entries(*items)[index as int],
            None => index >= entries(*items).len(),
        },
{
    items.get(index)
}

/// Calls `im::Vector::push_back`, which appends an element.
#[verifier::external_body]
fn items_push_back(items: &mut im::Vector<AgentItem>, item: AgentItem)
    ensures
        entries(*final(items)) == entries(*old(items)).push(item@),
{
    items.push_back(item)
}

/// Calls `im::Vector::set`, which replaces the element at an index. It panics past the end.
#[verifier::external_body]
fn items_set(items: &mut im::Vector<AgentItem>, index: usize, item: AgentItem)
    requires
        index < entries(*old(items)).len(),
    ensures
        entries(*final(items)) == entries(*old(items)).update(index as int, item@),
{
    items.set(index, item);
}

/// A permission request waiting for the user's decision.
#[derive(Debug, PartialEq)]
pub struct PendingPermission {
    pub request_id: AgentRequestId,
    pub title: String,
    pub options: Vec<AgentPermissionOption>,
}

/// What a [`PendingPermission`] stands for.
#[verifier::ext_equal]
pub struct PendingView {
    pub request_id: AgentRequestId,
    pub title: Seq<char>,
    pub options: Seq<OptionView>,
}

impl View for PendingPermission {
    type V = PendingView;

    open spec fn view(&self) -> PendingView {
        PendingView {
            request_id: self.request_id,
            title: self.title@,
            options: options_view(self.options@),
        }
    }
}

impl Clone for PendingPermission {
    fn clone(&self) -> (r: Self)
        ensures
            r@ == self@,
    {
        PendingPermission {
            request_id: self.request_id,
            title: self.title.clone(),
            options: clone_options(&self.options),
        }
    }
}

/// What the requests stand for, one by one.
pub open spec fn requests_view(requests: Seq<PendingPermission>) -> Seq<PendingView> {
    requests.map_values(|request: PendingPermission| request@)
}

/// What an optional request stands for.
pub open spec fn opt_pending(request: Option<PendingPermission>) -> Option<PendingView> {
    match request {
        Some(request) => Some(request@),
        None => None,
    }
}

/// Everything the panel displays.
#[derive(Debug)]
pub struct AgentState {
    /// The transcript.
    pub items: im::Vector<AgentItem>,
    /// The connection to the agent.
    pub status: AgentStatus,
    /// Whether the agent is working.
    pub busy: bool,
    /// The oldest permission request that waits for a decision.
    pub pending: Option<PendingPermission>,
    /// The permission requests that came after it, oldest first.
    pub queued: Vec<PendingPermission>,
}

/// What an [`AgentState`] stands for.
#[verifier::ext_equal]
pub struct StateView {
    pub items: Seq<ItemView>,
    pub status: StatusView,
    pub busy: bool,
    pub pending: Option<PendingView>,
    pub queued: Seq<PendingView>,
}

impl View for AgentState {
    type V = StateView;

    open spec fn view(&self) -> StateView {
        StateView {
            items: entries(self.items),
            status: self.status@,
            busy: self.busy,
            pending: opt_pending(self.pending),
            queued: requests_view(self.queued@),
        }
    }
}

impl StateView {
    /// The state before anything happened.
    pub open spec fn initial() -> StateView {
        StateView {
            items: Seq::empty(),
            status: StatusView::Disconnected { reason: "not started"@ },
            busy: false,
            pending: None,
            queued: Seq::empty(),
        }
    }

    /// Later requests are queued only behind one that waits.
    pub open spec fn wf(self) -> bool {
        self.pending is None ==> self.queued.len() == 0
    }

    /// The requests that wait for a decision, oldest first.
    pub open spec fn waiting(self) -> Seq<PendingView> {
        match self.pending {
            Some(request) => seq![request] + self.queued,
            None => self.queued,
        }
    }

    /// The state with one more entry in the transcript.
    pub open spec fn with_item(self, item: ItemView) -> StateView {
        StateView { items: self.items.push(item), ..self }
    }

    /// The state in which no permission request waits.
    pub open spec fn without_requests(self) -> StateView {
        StateView { pending: None, queued: Seq::empty(), ..self }
    }

    /// The state after the oldest request was taken out: the next one takes its place.
    pub open spec fn after_take(self) -> StateView {
        if self.queued.len() == 0 {
            StateView { pending: None, ..self }
        } else {
            StateView { pending: Some(self.queued[0]), queued: self.queued.skip(1), ..self }
        }
    }
}

/// The transcript after a piece of streamed text: the last entry grows when it is of the same
/// kind, otherwise a new one begins.
pub open spec fn streamed(items: Seq<ItemView>, text: Seq<char>, thought: bool) -> Seq<ItemView> {
    if items.len() > 0 && thought && items.last() is Thought {
        items.drop_last().push(ItemView::Thought(items.last()->Thought_0 + text))
    } else if items.len() > 0 && !thought && items.last() is Assistant {
        items.drop_last().push(ItemView::Assistant(items.last()->Assistant_0 + text))
    } else if thought {
        items.push(ItemView::Thought(text))
    } else {
        items.push(ItemView::Assistant(text))
    }
}

/// An entry after an update of the tool call `id`: of that tool call, the title and the status
/// change where the update has them.
pub open spec fn updated(
    item: ItemView,
    id: Seq<char>,
    title: Option<Seq<char>>,
    status: Option<AgentToolStatus>,
) -> ItemView {
    match item {
        ItemView::Tool { id: tool, title: old_title, status: old_status } if tool == id => {
            ItemView::Tool {
                id,
                title: match title {
                    Some(new) => new,
                    None => old_title,
                },
                status: match status {
                    Some(new) => new,
                    None => old_status,
                },
            }
        },
        _ => item,
    }
}

/// The state after an event.
pub open spec fn applied(state: StateView, event: EventView) -> StateView {
    match event {
        EventView::MessageChunk { text } => StateView {
            items: streamed(state.items, text, false),
            ..state
        },
        EventView::ThoughtChunk { text } => StateView {
            items: streamed(state.items, text, true),
            ..state
        },
        EventView::ToolCall { id, title, status } => state.with_item(
            ItemView::Tool { id, title, status },
        ),
        EventView::ToolCallUpdate { id, title, status } => StateView {
            items: state.items.map_values(|item: ItemView| updated(item, id, title, status)),
            ..state
        },
        EventView::PermissionRequest { request_id, title, options } => {
            let request = PendingView { request_id, title, options };
            if state.pending is None {
                StateView { pending: Some(request), ..state }
            } else {
                StateView { queued: state.queued.push(request), ..state }
            }
        },
        EventView::Status { status } => match status {
            StatusView::Disconnected { reason } => StateView { status, busy: false, ..state }
                .without_requests().with_item(
                ItemView::Error("Agent disconnected: "@ + reason),
            ),
            _ => StateView { status, ..state },
        },
        EventView::TurnEnded { .. } => StateView { busy: false, ..state }.without_requests(),
        EventView::Error { message } => StateView { busy: false, ..state }.with_item(
            ItemView::Error(message),
        ),
    }
}

impl Default for AgentState {
    /// The state before anything happened: disconnected, with an empty transcript.
    fn default() -> (r: AgentState)
        ensures
            r@ == StateView::initial(),
    {
        let r = AgentState {
            items: items_new(),
            status: AgentStatus::Disconnected { reason: "not started".to_owned() },
            busy: false,
            pending: None,
            queued: Vec::new(),
        };
        assert(r@.queued =~= Seq::<PendingView>::empty());
        r
    }
}

impl AgentState {
    /// Records the user's message and marks the agent as working.
    pub fn push_user(&mut self, text: &str)
        ensures
            final(self)@ == (StateView { busy: true, ..old(self)@ }).with_item(
                ItemView::User(text@),
            ),
    {
        items_push_back(&mut self.items, AgentItem::User(text.to_owned()));
        self.busy = true;
    }

    /// Removes and returns the oldest pending permission request, if any. The next one becomes
    /// the pending one.
    pub fn take_pending(&mut self) -> (r: Option<PendingPermission>)
        ensures
            opt_pending(r) == old(self)@.pending,
            final(self)@ == old(self)@.after_take(),
    {
        let next = if self.queued.len() > 0 {
            let ghost before = requests_view(self.queued@);
            let next = self.queued.remove(0);
            assert(requests_view(self.queued@) =~= before.skip(1));
            Some(next)
        } else {
            None
        };
        let mut taken = next;
        std::mem::swap(&mut taken, &mut self.pending);
        taken
    }

    /// The permission request to show: the oldest one that waits for a decision.
    pub fn current_permission(&self) -> (r: Option<&PendingPermission>)
        ensures
            match r {
                Some(request) => self@.pending == Some(request@),
                None => self@.pending is None,
            },
    {
        match &self.pending {
            Some(request) => Some(request),
            None => None,
        }
    }

    /// How many entries the transcript has.
    pub fn item_count(&self) -> (r: usize)
        ensures
            r == self@.items.len(),
    {
        items_len(&self.items)
    }

    /// The entry of the transcript at `index`.
    pub fn item(&self, index: usize) -> (r: Option<&AgentItem>)
        ensures
            match r {
                Some(item) => index < self@.items.len() && item@ == self@.items[index as int],
                None => index >= self@.items.len(),
            },
    {
        items_get(&self.items, index)
    }

    /// Appends streamed text to the last item when it has the same kind, otherwise starts a new
    /// item.
    pub fn append_text(&mut self, text: &str, thought: bool)
        ensures
            final(self)@ == (StateView {
                items: streamed(old(self)@.items, text@, thought),
                ..old(self)@
            }),
    {
        let ghost before = self@;
        let n = items_len(&self.items);
        if n > 0 {
            let merged = match items_get(&self.items, n - 1) {
                Some(AgentItem::Assistant(existing)) => if thought {
                    None
                } else {
                    Some(AgentItem::Assistant(existing.clone().concat(text)))
                },
                Some(AgentItem::Thought(existing)) => if thought {
                    Some(AgentItem::Thought(existing.clone().concat(text)))
                } else {
                    None
                },
                _ => None,
            };
            if let Some(item) = merged {
                items_set(&mut self.items, n - 1, item);
                assert(self@.items =~= streamed(before.items, text@, thought));
                return;
            }
        }
        let item = if thought {
            AgentItem::Thought(text.to_owned())
        } else {
            AgentItem::Assistant(text.to_owned())
        };
        items_push_back(&mut self.items, item);
    }

    /// Updates every tool call `id` of the transcript.
    fn update_tool(
        &mut self,
        id: &String,
        title: &Option<String>,
        status: Option<AgentToolStatus>,
    )
        ensures
            final(self)@ == applied(
                old(self)@,
                EventView::ToolCallUpdate { id: id@, title: opt_text(*title), status },
            ),
    {
        let ghost before = self@;
        let n = items_len(&self.items);
        let mut i: usize = 0;
        while i < n
            invariant
                i <= n,
                n == before.items.len(),
                self@ == (StateView { items: self@.items, ..before }),
                self@.items.len() == n,
                forall|j: int|
                    0 <= j < i ==> #[trigger] self@.items[j] == updated(
                        before.items[j],
                        id@,
                        opt_text(*title),
                        status,
                    ),
                forall|j: int| i <= j < n ==> #[trigger] self@.items[j] == before.items[j],
            decreases n - i,
        {
            let changed = match items_get(&self.items, i) {
                Some(AgentItem::Tool { id: tool, title: old_title, status: old_status }) => if *tool
                    == *id {
                    Some(
                        AgentItem::Tool {
                            id: tool.clone(),
                            title: match title {
                                Some(new) => new.clone(),
                                None => old_title.clone(),
                            },
                            status: match status {
                                Some(new) => new,
                                None => *old_status,
                            },
                        },
                    )
                } else {
                    None
                },
                _ => None,
            };
            if let Some(item) = changed {
                items_set(&mut self.items, i, item);
            }
            i = i + 1;
        }
        assert(self@.items =~= before.items.map_values(
            |item: ItemView| updated(item, id@, opt_text(*title), status),
        ));
    }

    /// Applies one event to the state.
    pub fn apply(&mut self, event: &AgentEvent)
        ensures
            final(self)@ == applied(old(self)@, event@),
    {
        let ghost before = self@;
        match event {
            AgentEvent::MessageChunk { text } => self.append_text(text.as_str(), false),
            AgentEvent::ThoughtChunk { text } => self.append_text(text.as_str(), true),
            AgentEvent::ToolCall { id, title, status } => {
                items_push_back(
                    &mut self.items,
                    AgentItem::Tool { id: id.clone(), title: title.clone(), status: *status },
                );
            },
            AgentEvent::ToolCallUpdate { id, title, status } => self.update_tool(
                id,
                title,
                *status,
            ),
            AgentEvent::PermissionRequest { request_id, title, options } => {
                let request = PendingPermission {
                    request_id: *request_id,
                    title: title.clone(),
                    options: clone_options(options),
                };
                if self.pending.is_none() {
                    self.pending = Some(request);
                } else {
                    self.queued.push(request);
                    assert(self@.queued =~= before.queued.push(request@));
                }
            },
            AgentEvent::Status { status } => {
                self.status = status.clone();
                if let AgentStatus::Disconnected { reason } = status {
                    self.busy = false;
                    self.drop_requests();
                    items_push_back(
                        &mut self.items,
                        AgentItem::Error(
                            "Agent disconnected: ".to_owned().concat(reason.as_str()),
                        ),
                    );
                }
            },
            AgentEvent::TurnEnded { stop_reason: _ } => {
                self.busy = false;
                self.drop_requests();
            },
            AgentEvent::Error { message } => {
                self.busy = false;
                items_push_back(&mut self.items, AgentItem::Error(message.clone()));
            },
        }
    }

    /// Forgets the permission requests.
    fn drop_requests(&mut self)
        ensures
            final(self)@ == old(self)@.without_requests(),
    {
        self.pending = None;
        self.queued = Vec::new();
        assert(self@.queued =~= Seq::<PendingView>::empty());
    }
}

/// The state stays well-formed whatever happens.
pub proof fn events_keep_the_state_well_formed(state: StateView, event: EventView)
    requires
        state.wf(),
    ensures
        applied(state, event).wf(),
        state.after_take().wf(),
        StateView::initial().wf(),
{
}

/// Permission requests wait in the order in which they came, and none is lost to a later one.
pub proof fn requests_wait_in_order(
    state: StateView,
    request_id: AgentRequestId,
    title: Seq<char>,
    options: Seq<OptionView>,
)
    requires
        state.wf(),
    ensures
        applied(state, EventView::PermissionRequest { request_id, title, options }).waiting()
            == state.waiting().push(PendingView { request_id, title, options }),
{
    assert(applied(state, EventView::PermissionRequest { request_id, title, options }).waiting()
        =~= state.waiting().push(PendingView { request_id, title, options }));
}

/// Answering the oldest request reveals the next.
pub proof fn answering_reveals_the_next(state: StateView)
    requires
        state.wf(),
        state.waiting().len() > 0,
    ensures
        state.pending == Some(state.waiting()[0]),
        state.after_take().waiting() == state.waiting().skip(1),
{
    assert(state.after_take().waiting() =~= state.waiting().skip(1));
}

/// A text that is streamed in two pieces makes the same transcript as in one.
pub proof fn pieces_of_text_join(items: Seq<ItemView>, a: Seq<char>, b: Seq<char>, thought: bool)
    ensures
        streamed(streamed(items, a, thought), b, thought) == streamed(items, a + b, thought),
{
    let once = streamed(items, a, thought);
    if items.len() > 0 && thought && items.last() is Thought {
        assert(items.last()->Thought_0 + a + b =~= items.last()->Thought_0 + (a + b));
    }
    if items.len() > 0 && !thought && items.last() is Assistant {
        assert(items.last()->Assistant_0 + a + b =~= items.last()->Assistant_0 + (a + b));
    }
    assert(streamed(once, b, thought) =~= streamed(items, a + b, thought));
}

/// After a piece of streamed text the last entry is of its kind, and ends with it.
pub proof fn streamed_text_ends_the_transcript(
    items: Seq<ItemView>,
    text: Seq<char>,
    thought: bool,
)
    ensures
        ({
            let after = streamed(items, text, thought);
            &&& after.len() > 0
            &&& thought ==> after.last() is Thought && text.is_suffix_of(after.last()->Thought_0)
            &&& !thought ==> after.last() is Assistant && text.is_suffix_of(
                after.last()->Assistant_0,
            )
        }),
{
    let after = streamed(items, text, thought);
    if thought {
        assert(text.is_suffix_of(after.last()->Thought_0));
    } else {
        assert(text.is_suffix_of(after.last()->Assistant_0));
    }
}

/// A disconnection leaves nothing to wait for and says why, as the last entry.
pub proof fn a_disconnection_is_reported(state: StateView, reason: Seq<char>)
    ensures
        ({
            let after = applied(
                state,
                EventView::Status { status: StatusView::Disconnected { reason } },
            );
            &&& !after.busy
            &&& after.waiting().len() == 0
            &&& after.status == (StatusView::Disconnected { reason })
            &&& after.items == state.items.push(
                ItemView::Error("Agent disconnected: "@ + reason),
            )
        }),
{
}

/// Whatever ends a turn (its end, an error, a disconnection) leaves the agent not working.
pub proof fn no_end_leaves_the_agent_busy(state: StateView, event: EventView)
    requires
        event is TurnEnded || event is Error || (event matches EventView::Status { status }
            && status is Disconnected),
    ensures
        !applied(state, event).busy,
{
}

/// No event takes an entry out of the transcript, and what the user wrote stays as it is.
pub proof fn the_transcript_is_kept(state: StateView, event: EventView)
    ensures
        state.items.len() <= applied(state, event).items.len(),
        forall|i: int|
            0 <= i < state.items.len() && state.items[i] is User ==> #[trigger] applied(
                state,
                event,
            ).items[i] == state.items[i],
{
}

/// An update of one tool call leaves all other entries as they are.
pub proof fn an_update_leaves_other_items_alone(
    state: StateView,
    id: Seq<char>,
    title: Option<Seq<char>>,
    status: Option<AgentToolStatus>,
    i: int,
)
    requires
        0 <= i < state.items.len(),
        !(state.items[i] matches ItemView::Tool { id: tool, .. } && tool == id),
    ensures
        applied(state, EventView::ToolCallUpdate { id, title, status }).items[i] == state.items[i],
{
}

/// After an update of a tool call, every entry of that tool call has the title of the update where
/// it has one, whatever its status, and the status of the update where it has one, whatever its
/// title; what the update does not have stays, and so does everything that is no entry.
pub proof fn an_update_takes_effect(
    state: StateView,
    id: Seq<char>,
    title: Option<Seq<char>>,
    status: Option<AgentToolStatus>,
    i: int,
)
    requires
        0 <= i < state.items.len(),
        state.items[i] is Tool,
        state.items[i]->Tool_id == id,
    ensures
        ({
            let after = applied(state, EventView::ToolCallUpdate { id, title, status });
            &&& after.items.len() == state.items.len()
            &&& after.items[i] is Tool
            &&& after.items[i]->Tool_id == id
            &&& title is Some ==> after.items[i]->Tool_title == title->0
            &&& title is None ==> after.items[i]->Tool_title == state.items[i]->Tool_title
            &&& status is Some ==> after.items[i]->Tool_status == status->0
            &&& status is None ==> after.items[i]->Tool_status == state.items[i]->Tool_status
        }),
{
}

/// A tool call is added to the transcript as it was reported, and nothing else changes.
pub proof fn a_tool_call_is_added(
    state: StateView,
    id: Seq<char>,
    title: Seq<char>,
    status: AgentToolStatus,
)
    ensures
        ({
            let after = applied(state, EventView::ToolCall { id, title, status });
            let n = state.items.len() as int;
            &&& after.items.len() == n + 1
            &&& after.items.take(n) == state.items
            &&& after.items[n] is Tool
            &&& after.items[n]->Tool_id == id
            &&& after.items[n]->Tool_title == title
            &&& after.items[n]->Tool_status == status
        }),
{
    let after = applied(state, EventView::ToolCall { id, title, status });
    assert(after.items.take(state.items.len() as int) =~= state.items);
}

/// A tool call that is reported and then updated shows what the update says, and otherwise what
/// was reported first.
pub proof fn an_update_follows_its_tool_call(
    state: StateView,
    id: Seq<char>,
    first_title: Seq<char>,
    first_status: AgentToolStatus,
    title: Option<Seq<char>>,
    status: Option<AgentToolStatus>,
)
    ensures
        ({
            let begun = applied(
                state,
                EventView::ToolCall { id, title: first_title, status: first_status },
            );
            let after = applied(begun, EventView::ToolCallUpdate { id, title, status });
            let last = after.items[state.items.len() as int];
            &&& last is Tool
            &&& last->Tool_id == id
            &&& last->Tool_title == (if title is Some {
                title->0
            } else {
                first_title
            })
            &&& last->Tool_status == (if status is Some {
                status->0
            } else {
                first_status
            })
        }),
{
    let begun = applied(
        state,
        EventView::ToolCall { id, title: first_title, status: first_status },
    );
    an_update_takes_effect(begun, id, title, status, state.items.len() as int);
}

/// Streamed text goes behind the text of the last entry where that entry is of its kind, and makes
/// an entry of its own otherwise; all entries before stay as they are.
pub proof fn streamed_text_joins_only_its_kind(
    state: StateView,
    text: Seq<char>,
    existing: Seq<char>,
    thought: bool,
)
    ensures
        ({
            let event = if thought {
                EventView::ThoughtChunk { text }
            } else {
                EventView::MessageChunk { text }
            };
            let after = applied(state, event).items;
            let n = state.items.len() as int;
            let joins = n > 0 && (if thought {
                state.items[n - 1] == ItemView::Thought(existing)
            } else {
                state.items[n - 1] == ItemView::Assistant(existing)
            });
            let starts = n == 0 || (if thought {
                !(state.items[n - 1] is Thought)
            } else {
                !(state.items[n - 1] is Assistant)
            });
            &&& joins ==> after.len() == n && after.take(n - 1) == state.items.take(n - 1) && after[n
                - 1] == (if thought {
                ItemView::Thought(existing + text)
            } else {
                ItemView::Assistant(existing + text)
            })
            &&& starts ==> after.len() == n + 1 && after.take(n) == state.items && after[n] == (
            if thought {
                ItemView::Thought(text)
            } else {
                ItemView::Assistant(text)
            })
        }),
{
    let after = streamed(state.items, text, thought);
    let n = state.items.len() as int;
    if after.len() == n {
        assert(after.take(n - 1) =~= state.items.take(n - 1));
    } else {
        assert(after.take(n) =~= state.items);
    }
}

/// What goes into the transcript alone (streamed text, tool calls and their updates) leaves the
/// status, the working mark and the permission requests as they are.
pub proof fn transcript_events_touch_the_transcript_alone(state: StateView, event: EventView)
    requires
        event is MessageChunk || event is ThoughtChunk || event is ToolCall || event
            is ToolCallUpdate,
    ensures
        applied(state, event).status == state.status,
        applied(state, event).busy == state.busy,
        applied(state, event).pending == state.pending,
        applied(state, event).queued == state.queued,
{
}

/// A permission request touches nothing but the requests that wait: the agent goes on working, and
/// the transcript stays.
pub proof fn a_request_touches_the_requests_alone(
    state: StateView,
    request_id: AgentRequestId,
    title: Seq<char>,
    options: Seq<OptionView>,
)
    ensures
        ({
            let after = applied(state, EventView::PermissionRequest { request_id, title, options });
            &&& after.items == state.items
            &&& after.status == state.status
            &&& after.busy == state.busy
            &&& state.pending is Some ==> after.pending == state.pending
            &&& state.pending is None ==> {
                &&& after.pending is Some
                &&& after.pending->0.request_id == request_id
                &&& after.pending->0.title == title
                &&& after.pending->0.options == options
            }
        }),
{
}

/// A new status is taken over as it is. While the agent is connected it changes nothing else.
pub proof fn a_status_is_taken_over(state: StateView, status: StatusView)
    ensures
        applied(state, EventView::Status { status }).status == status,
        !(status is Disconnected) ==> {
            let after = applied(state, EventView::Status { status });
            &&& after.items == state.items
            &&& after.busy == state.busy
            &&& after.pending == state.pending
            &&& after.queued == state.queued
        },
{
}

/// The end of a turn leaves the transcript and the status as they are, and no request waiting.
pub proof fn the_end_of_a_turn_clears_the_requests(state: StateView, stop_reason: Seq<char>)
    ensures
        ({
            let after = applied(state, EventView::TurnEnded { stop_reason });
            &&& after.items == state.items
            &&& after.status == state.status
            &&& !after.busy
            &&& after.pending is None
            &&& after.queued.len() == 0
        }),
{
}

/// An error is the last entry, as it was reported; it takes no request away and keeps the status.
pub proof fn an_error_is_reported(state: StateView, message: Seq<char>)
    ensures
        ({
            let after = applied(state, EventView::Error { message });
            let n = state.items.len() as int;
            &&& after.items.len() == n + 1
            &&& after.items.take(n) == state.items
            &&& after.items[n] == ItemView::Error(message)
            &&& after.status == state.status
            &&& !after.busy
            &&& after.pending == state.pending
            &&& after.queued == state.queued
        }),
{
    let after = applied(state, EventView::Error { message });
    assert(after.items.take(state.items.len() as int) =~= state.items);
}

/// No event makes the agent working: only the user's message does.
pub proof fn events_do_not_make_the_agent_work(state: StateView, event: EventView)
    ensures
        applied(state, event).busy ==> state.busy,
{
}

/// No event takes an entry out, changes its place or its kind, or turns one into another: what is
/// there of an entry stays there, but for a tool call that is updated and for the last entry, which
/// streamed text may prolong.
pub proof fn entries_keep_their_places(state: StateView, event: EventView, i: int)
    requires
        0 <= i < state.items.len(),
    ensures
        i < applied(state, event).items.len(),
        match state.items[i] {
            ItemView::User(_) | ItemView::Error(_) | ItemView::Note(_) => applied(
                state,
                event,
            ).items[i] == state.items[i],
            ItemView::Assistant(text) => applied(state, event).items[i] is Assistant
                && text.is_prefix_of(applied(state, event).items[i]->Assistant_0),
            ItemView::Thought(text) => applied(state, event).items[i] is Thought
                && text.is_prefix_of(applied(state, event).items[i]->Thought_0),
            ItemView::Tool { id, .. } => applied(state, event).items[i] is Tool && applied(
                state,
                event,
            ).items[i]->Tool_id == id,
        },
{
    match state.items[i] {
        ItemView::Assistant(text) => {
            let now = applied(state, event).items[i]->Assistant_0;
            assert(text =~= now.subrange(0, text.len() as int));
        },
        ItemView::Thought(text) => {
            let now = applied(state, event).items[i]->Thought_0;
            assert(text =~= now.subrange(0, text.len() as int));
        },
        _ => {},
    }
}

/// Taking the oldest request out touches nothing but the requests that wait.
pub proof fn taking_a_request_touches_the_requests_alone(state: StateView)
    ensures
        state.after_take().items == state.items,
        state.after_take().status == state.status,
        state.after_take().busy == state.busy,
        state.queued.len() > 0 ==> state.after_take().pending == Some(state.queued[0])
            && state.after_take().queued == state.queued.subrange(1, state.queued.len() as int),
        state.queued.len() == 0 ==> state.after_take().pending is None
            && state.after_take().queued.len() == 0,
{
    if state.queued.len() > 0 {
        assert(state.queued.skip(1) =~= state.queued.subrange(1, state.queued.len() as int));
    }
}

/// At first there is nothing to show, nothing to wait for, and no agent.
pub proof fn at_first_nothing_happened()
    ensures
        StateView::initial().items.len() == 0,
        StateView::initial().status == (StatusView::Disconnected { reason: "not started"@ }),
        !StateView::initial().busy,
        StateView::initial().pending is None,
        StateView::initial().queued.len() == 0,
{
}

/// Applying an update of a tool call gives every entry of it the new title and the new status, each
/// where the update has one, and touches nothing else.
pub proof fn applying_an_update_changes_its_tool_call(
    state: &mut AgentState,
    event: &AgentEvent,
    id: String,
    title: Option<String>,
    status: Option<AgentToolStatus>,
    i: int,
)
    requires
        call_ensures(AgentState::apply, (state, event), ()),
        *event == (AgentEvent::ToolCallUpdate { id, title, status }),
        0 <= i < old(state)@.items.len(),
    ensures
        final(state)@.items.len() == old(state)@.items.len(),
        final(state)@.busy == old(state)@.busy,
        final(state)@.status == old(state)@.status,
        final(state)@.waiting() == old(state)@.waiting(),
        ({
            let before = old(state)@.items[i];
            let after = final(state)@.items[i];
            if before is Tool && before->Tool_id == id@ {
                &&& after is Tool
                &&& after->Tool_id == id@
                &&& after->Tool_title == (if title is Some {
                    title->0@
                } else {
                    before->Tool_title
                })
                &&& after->Tool_status == (if status is Some {
                    status->0
                } else {
                    before->Tool_status
                })
            } else {
                after == before
            }
        }),
{
}

/// Applying an event that adds something adds exactly what it holds: a tool call, an error, a
/// permission request behind those that wait.
pub proof fn applying_an_event_adds_what_it_holds(state: &mut AgentState, event: &AgentEvent)
    requires
        call_ensures(AgentState::apply, (state, event), ()),
        old(state)@.wf(),
    ensures
        event matches AgentEvent::ToolCall { id, title, status } ==> final(state)@.items == old(state)@.items.push(ItemView::Tool { id: id@, title: title@, status: *status }),
        event matches AgentEvent::Error { message } ==> final(state)@.items == old(state)@.items.push(ItemView::Error(message@)) && !final(state)@.busy,
        event matches AgentEvent::PermissionRequest { request_id, title, options } ==> {
            let waiting = final(state)@.waiting();
            let n = old(state)@.waiting().len() as int;
            &&& waiting.len() == n + 1
            &&& waiting.take(n) == old(state)@.waiting()
            &&& waiting[n].request_id == request_id
            &&& waiting[n].title == title@
            &&& waiting[n].options.len() == options@.len()
            &&& forall|i: int|
                0 <= i < options@.len() ==> (#[trigger] waiting[n].options[i]).id == options@[i].id@
                    && waiting[n].options[i].name == options@[i].name@ && waiting[n].options[i].kind
                    == options@[i].kind
        },
        event matches AgentEvent::Status { status: AgentStatus::Disconnected { reason } } ==> {
            &&& final(state)@.items == old(state)@.items.push(
                ItemView::Error("Agent disconnected: "@ + reason@),
            )
            &&& final(state)@.status == (StatusView::Disconnected { reason: reason@ })
            &&& final(state)@.waiting().len() == 0
            &&& !final(state)@.busy
        },
        event matches AgentEvent::Status { status } && status is Ready ==> final(state)@.status
            is Ready && final(state)@.items == old(state)@.items,
        event matches AgentEvent::Status { status } && status is Starting ==> final(state)@.status
            is Starting && final(state)@.items == old(state)@.items,
        event is TurnEnded ==> final(state)@.items == old(state)@.items && !final(state)@.busy
            && final(state)@.waiting().len() == 0,
{
    if let AgentEvent::PermissionRequest { request_id, title, options } = event {
        requests_wait_in_order(old(state)@, *request_id, title@, options_view(options@));
        let waiting = final(state)@.waiting();
        let n = old(state)@.waiting().len() as int;
        assert(waiting.take(n) =~= old(state)@.waiting());
    }
}

/// Applying streamed text prolongs the last entry where it is of the same kind, and begins a new
/// one otherwise; the entries before stay.
pub proof fn applying_streamed_text_prolongs_the_last_entry(
    state: &mut AgentState,
    event: &AgentEvent,
    text: String,
)
    requires
        call_ensures(AgentState::apply, (state, event), ()),
        *event == (AgentEvent::MessageChunk { text }) || *event == (AgentEvent::ThoughtChunk {
            text,
        }),
    ensures
        ({
            let before = old(state)@.items;
            let after = final(state)@.items;
            let n = before.len() as int;
            let thought = event is ThoughtChunk;
            if n > 0 && thought && before[n - 1] is Thought {
                after == before.take(n - 1).push(
                    ItemView::Thought(before[n - 1]->Thought_0 + text@),
                )
            } else if n > 0 && !thought && before[n - 1] is Assistant {
                after == before.take(n - 1).push(
                    ItemView::Assistant(before[n - 1]->Assistant_0 + text@),
                )
            } else if thought {
                after == before.push(ItemView::Thought(text@))
            } else {
                after == before.push(ItemView::Assistant(text@))
            }
        }),
        final(state)@.busy == old(state)@.busy,
        final(state)@.status == old(state)@.status,
        final(state)@.waiting() == old(state)@.waiting(),
{
    let before = old(state)@.items;
    if before.len() > 0 {
        assert(before.take(before.len() - 1) =~= before.drop_last());
    }
}

/// The user's message is recorded as it is, as the last entry, and the agent counts as working.
pub proof fn a_message_is_recorded_as_it_is(state: &mut AgentState, text: &str)
    requires
        call_ensures(AgentState::push_user, (state, text), ()),
    ensures
        final(state)@.items == old(state)@.items.push(ItemView::User(text@)),
        final(state)@.busy,
        final(state)@.status == old(state)@.status,
        final(state)@.pending == old(state)@.pending,
        final(state)@.queued == old(state)@.queued,
{
}

/// The request that is taken out is the oldest one, and the others wait on in order.
pub proof fn the_oldest_request_is_taken(state: &mut AgentState, r: Option<PendingPermission>)
    requires
        call_ensures(AgentState::take_pending, (state,), r),
        old(state)@.wf(),
    ensures
        r is Some <==> old(state)@.waiting().len() > 0,
        r is Some ==> r->0@ == old(state)@.waiting()[0] && final(state)@.waiting() == old(state)@.waiting().skip(1),
        final(state)@.items == old(state)@.items,
        final(state)@.busy == old(state)@.busy,
        final(state)@.status == old(state)@.status,
{
    if old(state)@.waiting().len() > 0 {
        answering_reveals_the_next(old(state)@);
    }
}

/// The entry at an index, and the number of entries, are those of the transcript.
pub proof fn entries_are_read_by_their_place(
    state: &AgentState,
    index: usize,
    r: Option<&AgentItem>,
    n: usize,
)
    requires
        call_ensures(AgentState::item, (state, index), r),
        call_ensures(AgentState::item_count, (state,), n),
    ensures
        r is Some <==> index < n,
        r is Some ==> r->0@ == state@.items[index as int],
        n == state@.items.len(),
{
}

/// What an entry holds is told by what it stands for.
pub proof fn an_entry_is_told_by_its_view(item: AgentItem)
    ensures
        match item {
            AgentItem::User(text) => item@ == ItemView::User(text@),
            AgentItem::Assistant(text) => item@ == ItemView::Assistant(text@),
            AgentItem::Thought(text) => item@ == ItemView::Thought(text@),
            AgentItem::Error(text) => item@ == ItemView::Error(text@),
            AgentItem::Note(text) => item@ == ItemView::Note(text@),
            AgentItem::Tool { id, title, status } => item@ is Tool && item@->Tool_id == id@
                && item@->Tool_title == title@ && item@->Tool_status == status,
        },
{
}

} // verus!
