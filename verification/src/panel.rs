//! The agent panel: what it shows, and what it does on the user's actions.

use vstd::prelude::*;
use vstd::utf8::*;

use crate::assoc::AssocMap;
use crate::config::{launch_owed, AgentConfig};
use crate::events::{
    opt_text, options_view, AgentEvent, AgentPermissionOption, AgentRequestId, AgentServerConfig,
    AgentStatus, AgentToolStatus, EventView, OptionView, StatusView,
};
use crate::fs::BufferText;
use crate::item::{render_hash, AgentItem, ItemView};
use crate::mapping::{
    every_option_is_shown_as_offered, map_permission_options, RequestPermissionRequest,
};
use crate::paths::{Location, PartView};
use crate::state::{applied, AgentState, PendingPermission, PendingView, StateView};
use crate::text::{blank, only_blank_texts_trim_to_nothing, same_text, trim, trimmed};

verus! {

/// An open document.
pub struct Document {
    /// What the document holds.
    pub buffer: BufferText,
    /// Whether the document has unsaved changes.
    pub unsaved: bool,
}

/// The state of the panel, and the open documents that the agent's edits go to.
pub struct AgentData {
    /// Transcript, status and pending permissions.
    pub state: AgentState,
    /// Open documents, by location.
    pub docs: AssocMap<Location, Document>,
}

/// An edit of a document: the bytes from `start` to `end` are replaced by `content`, as one
/// undoable step.
#[derive(Debug, PartialEq)]
pub struct DocumentEdit {
    pub start: usize,
    pub end: usize,
    pub content: String,
    /// Whether the document is to be saved then: it had no unsaved changes before.
    pub save: bool,
}

/// A prompt to be sent to the agent.
pub struct SendInput {
    /// How to start the agent first, where it is to be started.
    pub launch: Option<AgentServerConfig>,
    pub text: String,
}

/// Whether an agent in this status can be given a prompt.
pub open spec fn takes_prompts(status: StatusView) -> bool {
    status is Ready || status is Starting
}

/// Whether the text in the input box can be sent: the agent is not working, and there is more
/// than white space.
pub open spec fn can_send(state: StateView, input: Seq<char>) -> bool {
    !state.busy && trimmed(input).len() > 0
}

/// Whether `launch` is what starting the configured agent server owes, and `after` the state then:
/// a problem with the settings is reported in the transcript.
pub open spec fn start_owed(
    config: AgentConfig,
    before: StateView,
    launch: Option<AgentServerConfig>,
    after: StateView,
) -> bool {
    match launch {
        Some(launch) => launch_owed(config, Ok(launch)) && after == before,
        None => exists|message: String| #[trigger]
            launch_owed(config, Err(message)) && after == applied(
                before,
                EventView::Error { message: message@ },
            ),
    }
}

/// The state after the user's message `text` was recorded.
pub open spec fn recorded(state: StateView, text: Seq<char>) -> StateView {
    (StateView { busy: true, ..state }).with_item(ItemView::User(text))
}

impl AgentData {
    /// Creates the agent data with an empty transcript and no open document.
    pub fn new() -> (r: AgentData)
        ensures
            r.state@ == StateView::initial(),
            r.docs@ == Map::<Seq<PartView>, Document>::empty(),
    {
        AgentData { state: AgentState::default(), docs: AssocMap::new() }
    }

    /// Applies an event of the session.
    pub fn handle_event(&mut self, event: AgentEvent)
        ensures
            final(self).state@ == applied(old(self).state@, event@),
            final(self).docs == old(self).docs,
    {
        self.state.apply(&event);
    }

    /// Replaces the whole content of an open document as one undoable edit, and saves it when the
    /// document had no unsaved changes. Does nothing if the document is not open or the text is
    /// unchanged.
    pub fn apply_edit(&self, path: &Location, content: &str) -> (r: Option<DocumentEdit>)
        ensures
            r is Some <==> self.docs@.contains_key(path@) && self.docs@[path@].buffer@ != content@,
            r matches Some(edit) ==> {
                &&& edit.start == 0
                &&& edit.end == encode_utf8(self.docs@[path@].buffer@).len()
                &&& edit.content@ == content@
                &&& edit.save == !self.docs@[path@].unsaved
            },
    {
        let doc = match self.docs.get(path) {
            Some(doc) => doc,
            None => {
                return None;
            },
        };
        let text = doc.buffer.to_text();
        if same_text(text.as_str(), content) {
            return None;
        }
        Some(
            DocumentEdit {
                start: 0,
                end: text.as_str().as_bytes().len(),
                content: content.to_owned(),
                save: !doc.unsaved,
            },
        )
    }

    /// Takes what the input box holds for a prompt, unless the agent is working or there is only
    /// white space, and records it in the transcript. The agent is started first where it is not
    /// connected.
    pub fn send_input(&mut self, input: &str, config: &AgentConfig) -> (r: Option<SendInput>)
        ensures
            final(self).docs == old(self).docs,
            if !can_send(old(self).state@, input@) {
                r is None && final(self).state@ == old(self).state@
            } else if takes_prompts(old(self).state@.status) {
                &&& r matches Some(send)
                &&& send.text@ == trimmed(input@)
                &&& send.launch is None
                &&& final(self).state@ == recorded(old(self).state@, trimmed(input@))
            } else {
                &&& r matches Some(send)
                &&& send.text@ == trimmed(input@)
                &&& exists|started: StateView|
                    {
                        &&& #[trigger] start_owed(*config, old(self).state@, send.launch, started)
                        &&& final(self).state@ == recorded(started, trimmed(input@))
                    }
            },
    {
        if self.state.busy {
            return None;
        }
        let text = trim(input);
        if text.as_str().is_empty() {
            return None;
        }
        let connected = match &self.state.status {
            AgentStatus::Ready => true,
            AgentStatus::Starting => true,
            AgentStatus::Disconnected { .. } => false,
        };
        let launch = if connected {
            None
        } else {
            self.restart(config)
        };
        let ghost started = self.state@;
        self.state.push_user(text.as_str());
        assert(!connected ==> start_owed(*config, old(self).state@, launch, started));
        Some(SendInput { launch, text })
    }

    /// Answers the permission request that is shown with `option_id`, or rejects it with `None`.
    /// Returns the reply to be sent.
    pub fn reply_permission(&mut self, option_id: Option<String>) -> (r: Option<
        (AgentRequestId, Option<String>),
    >)
        ensures
            final(self).docs == old(self).docs,
            final(self).state@ == old(self).state@.after_take(),
            match old(self).state@.pending {
                Some(request) => r matches Some((id, answer)) && id == request.request_id
                    && opt_text(answer) == opt_text(option_id),
                None => r is None,
            },
    {
        match self.state.take_pending() {
            Some(request) => Some((request.request_id, option_id)),
            None => None,
        }
    }

    /// The launch config to start the configured agent server with. A problem with the settings
    /// is reported in the transcript.
    pub fn restart(&mut self, config: &AgentConfig) -> (r: Option<AgentServerConfig>)
        ensures
            final(self).docs == old(self).docs,
            start_owed(*config, old(self).state@, r, final(self).state@),
    {
        match config.resolve() {
            Ok(launch) => Some(launch),
            Err(message) => {
                self.handle_event(AgentEvent::Error { message });
                None
            },
        }
    }
}

/// The mark of a tool status.
pub open spec fn status_mark(status: AgentToolStatus) -> Seq<char> {
    match status {
        AgentToolStatus::Pending => "..."@,
        AgentToolStatus::InProgress => ">>"@,
        AgentToolStatus::Completed => "ok"@,
        AgentToolStatus::Failed => "failed"@,
    }
}

/// The heading and the text of an entry.
pub open spec fn shown_item(item: ItemView) -> (Seq<char>, Seq<char>) {
    match item {
        ItemView::User(text) => ("You"@, text),
        ItemView::Assistant(text) => ("Agent"@, text),
        ItemView::Thought(text) => ("Thinking"@, text),
        ItemView::Tool { title, status, .. } => (
            "Tool"@,
            "["@ + status_mark(status) + "] "@ + title,
        ),
        ItemView::Error(text) => ("Error"@, text),
        ItemView::Note(text) => ("Note"@, text),
    }
}

/// The heading and the text of one transcript entry.
pub fn item_view(item: &AgentItem) -> (r: (String, String))
    ensures
        (r.0@, r.1@) == shown_item(item@),
{
    match item {
        AgentItem::User(text) => ("You".to_owned(), text.clone()),
        AgentItem::Assistant(text) => ("Agent".to_owned(), text.clone()),
        AgentItem::Thought(text) => ("Thinking".to_owned(), text.clone()),
        AgentItem::Tool { title, status, .. } => {
            let mark = match status {
                AgentToolStatus::Pending => "...",
                AgentToolStatus::InProgress => ">>",
                AgentToolStatus::Completed => "ok",
                AgentToolStatus::Failed => "failed",
            };
            (
                "Tool".to_owned(),
                "[".to_owned().concat(mark).concat("] ").concat(title.as_str()),
            )
        },
        AgentItem::Error(text) => ("Error".to_owned(), text.clone()),
        AgentItem::Note(text) => ("Note".to_owned(), text.clone()),
    }
}

/// A button of the permission prompt: its label, and the reply that it gives.
#[derive(Debug, PartialEq)]
pub struct PermissionButton {
    pub label: String,
    pub reply: Option<String>,
}

/// The permission prompt.
#[derive(Debug, PartialEq)]
pub struct PermissionPrompt {
    pub request_id: AgentRequestId,
    pub title: String,
    pub buttons: Vec<PermissionButton>,
}

/// What a [`PermissionButton`] stands for.
#[verifier::ext_equal]
pub struct ButtonView {
    pub label: Seq<char>,
    pub reply: Option<Seq<char>>,
}

impl View for PermissionButton {
    type V = ButtonView;

    open spec fn view(&self) -> ButtonView {
        ButtonView { label: self.label@, reply: opt_text(self.reply) }
    }
}

/// What the buttons stand for, one by one.
pub open spec fn buttons_view(buttons: Seq<PermissionButton>) -> Seq<ButtonView> {
    buttons.map_values(|button: PermissionButton| button@)
}

/// The buttons for the options of a request: one that picks each option, and one that rejects.
pub open spec fn request_buttons(options: Seq<OptionView>) -> Seq<ButtonView> {
    options.map_values(
        |option: OptionView| ButtonView { label: option.name, reply: Some(option.id) },
    ).push(ButtonView { label: "Reject"@, reply: None })
}

/// The buttons for the options of a request.
fn buttons_for(request: &PendingPermission) -> (r: Vec<PermissionButton>)
    ensures
        buttons_view(r@) == request_buttons(request@.options),
{
    let mut out: Vec<PermissionButton> = Vec::new();
    for i in 0..request.options.len()
        invariant
            out@.len() == i,
            forall|j: int|
                0 <= j < i ==> #[trigger] out@[j]@ == request_buttons(request@.options)[j],
    {
        let option = &request.options[i];
        out.push(
            PermissionButton { label: option.name.clone(), reply: Some(option.id.clone()) },
        );
        assert(request@.options[i as int] == option@);
    }
    out.push(PermissionButton { label: "Reject".to_owned(), reply: None });
    assert(buttons_view(out@) =~= request_buttons(request@.options));
    out
}

/// Whether `r` is the prompt for the pending request.
pub open spec fn prompt_for(pending: Option<PendingView>, r: Option<PermissionPrompt>) -> bool {
    match pending {
        Some(request) => {
            &&& r matches Some(prompt)
            &&& prompt.request_id == request.request_id
            &&& prompt.title@ == "Agent asks: "@ + request.title
            &&& buttons_view(prompt.buttons@) == request_buttons(request.options)
        },
        None => r is None,
    }
}

/// The permission prompt shown while the agent waits for a decision. Only the oldest pending
/// request is shown; answering it reveals the next.
pub fn permission_bar(state: &AgentState) -> (r: Option<PermissionPrompt>)
    ensures
        prompt_for(state@.pending, r),
{
    match state.current_permission() {
        Some(request) => Some(
            PermissionPrompt {
                request_id: request.request_id,
                title: "Agent asks: ".to_owned().concat(request.title.as_str()),
                buttons: buttons_for(request),
            },
        ),
        None => None,
    }
}

/// The hint in an input box that holds `input`.
pub open spec fn hint_for(input: Seq<char>) -> Option<Seq<char>> {
    if input.len() == 0 {
        Some("Ask the agent (Enter to send, Shift+Enter for a new line)"@)
    } else {
        None
    }
}

/// What is shown in the input box in place of a text: a hint, while the box is empty.
pub fn input_hint(input: &BufferText) -> (r: Option<String>)
    ensures
        opt_text(r) == hint_for(input@),
{
    if input.to_text().as_str().is_empty() {
        Some("Ask the agent (Enter to send, Shift+Enter for a new line)".to_owned())
    } else {
        None
    }
}

/// What the Enter key does in the input box.
#[derive(Debug, Clone, Copy, PartialEq, Eq, Structural)]
pub enum EnterAction {
    Send,
    NewLine,
}

/// What the Enter key does in the input box: alone it sends, with Shift it adds a line.
pub fn on_enter(shift: bool) -> (r: EnterAction)
    ensures
        r == (if shift {
            EnterAction::NewLine
        } else {
            EnterAction::Send
        }),
{
    if shift {
        EnterAction::NewLine
    } else {
        EnterAction::Send
    }
}

/// One line of the panel's transcript: the key by which it is known to be unchanged, its heading
/// and its text.
#[derive(Debug, PartialEq)]
pub struct TranscriptLine {
    pub index: usize,
    pub key: u64,
    pub heading: String,
    pub text: String,
}

/// Everything the panel's body shows.
#[derive(Debug, PartialEq)]
pub struct AgentBody {
    /// The label in the toolbar.
    pub status: String,
    pub transcript: Vec<TranscriptLine>,
    pub permission: Option<PermissionPrompt>,
    /// The hint in the input box.
    pub hint: Option<String>,
}

/// Whether `lines` show the entries of the transcript, one by one.
pub open spec fn lines_for(items: Seq<ItemView>, lines: Seq<TranscriptLine>) -> bool {
    &&& lines.len() == items.len()
    &&& forall|i: int|
        0 <= i < lines.len() ==> {
            let line = #[trigger] lines[i];
            &&& line.index == i
            &&& line.key == render_hash(items[i])
            &&& (line.heading@, line.text@) == shown_item(items[i])
        }
}

/// The lines of the transcript.
pub fn transcript(state: &AgentState) -> (r: Vec<TranscriptLine>)
    ensures
        lines_for(state@.items, r@),
{
    let mut out: Vec<TranscriptLine> = Vec::new();
    let n = state.item_count();
    let mut i: usize = 0;
    while i < n
        invariant
            n == state@.items.len(),
            i <= n,
            out@.len() == i,
            lines_for(state@.items.take(i as int), out@),
        decreases n - i,
    {
        if let Some(item) = state.item(i) {
            let (heading, text) = item_view(item);
            out.push(TranscriptLine { index: i, key: item.render_key(), heading, text });
            assert(lines_for(state@.items.take(i + 1), out@)) by {
                assert forall|j: int| 0 <= j < out@.len() implies ({
                    let line = #[trigger] out@[j];
                    &&& line.index == j
                    &&& line.key == render_hash(state@.items.take(i + 1)[j])
                    &&& (line.heading@, line.text@) == shown_item(state@.items.take(i + 1)[j])
                }) by {
                    assert(state@.items.take(i + 1)[j] == state@.items[j]);
                    if j < i {
                        assert(state@.items.take(i as int)[j] == state@.items[j]);
                    }
                }
            }
        }
        i = i + 1;
    }
    assert(state@.items.take(n as int) =~= state@.items);
    out
}

/// The whole panel body: the label in the toolbar, the transcript, the permission prompt and the
/// input box, which holds `input`.
pub fn agent_body(state: &AgentState, input: &BufferText) -> (r: AgentBody)
    ensures
        r.status@ == state@.status.label(),
        lines_for(state@.items, r.transcript@),
        prompt_for(state@.pending, r.permission),
        opt_text(r.hint) == hint_for(input@),
{
    AgentBody {
        status: state.status.to_string(),
        transcript: transcript(state),
        permission: permission_bar(state),
        hint: input_hint(input),
    }
}

/// An agent that went away can be started again: any text that is not blank can be sent, and
/// starts it.
pub proof fn a_restart_is_possible_after_a_disconnection(
    state: StateView,
    reason: Seq<char>,
    input: Seq<char>,
)
    requires
        !blank(input),
    ensures
        ({
            let after = applied(
                state,
                EventView::Status { status: StatusView::Disconnected { reason } },
            );
            can_send(after, input) && !takes_prompts(after.status)
        }),
{
    only_blank_texts_trim_to_nothing(input);
}

/// A button replies with the id of an option that the agent offered, or rejects, and the last
/// one always rejects.
pub proof fn buttons_reply_with_what_was_offered(options: Seq<OptionView>, i: int)
    requires
        0 <= i < request_buttons(options).len(),
    ensures
        request_buttons(options)[i].reply == (if i < options.len() {
            Some(options[i].id)
        } else {
            None
        }),
        request_buttons(options).len() == options.len() + 1,
{
}

/// A tool entry shows its title behind a mark in brackets, and the marks of the statuses are told
/// apart; every other entry shows its text as it is. The headings tell the kinds of entries apart.
pub proof fn entries_show_what_they_hold(item: &AgentItem, r: (String, String))
    requires
        call_ensures(item_view, (item,), r),
    ensures
        item matches AgentItem::User(text) ==> r.0@ == "You"@ && r.1@ == text@,
        item matches AgentItem::Assistant(text) ==> r.0@ == "Agent"@ && r.1@ == text@,
        item matches AgentItem::Thought(text) ==> r.0@ == "Thinking"@ && r.1@ == text@,
        item matches AgentItem::Error(text) ==> r.0@ == "Error"@ && r.1@ == text@,
        item matches AgentItem::Note(text) ==> r.0@ == "Note"@ && r.1@ == text@,
        item matches AgentItem::Tool { id, title, status } ==> r.0@ == "Tool"@ && r.1@ == (
        match status {
            AgentToolStatus::Pending => "[...] "@,
            AgentToolStatus::InProgress => "[>>] "@,
            AgentToolStatus::Completed => "[ok] "@,
            AgentToolStatus::Failed => "[failed] "@,
        }) + title@,
{
    reveal_strlit("[");
    reveal_strlit("] ");
    reveal_strlit("...");
    reveal_strlit(">>");
    reveal_strlit("ok");
    reveal_strlit("failed");
    reveal_strlit("[...] ");
    reveal_strlit("[>>] ");
    reveal_strlit("[ok] ");
    reveal_strlit("[failed] ");
    assert("["@ + "..."@ + "] "@ =~= "[...] "@);
    assert("["@ + ">>"@ + "] "@ =~= "[>>] "@);
    assert("["@ + "ok"@ + "] "@ =~= "[ok] "@);
    assert("["@ + "failed"@ + "] "@ =~= "[failed] "@);
}

/// The buttons are labelled with the names that the agent gave the options, in order, and each
/// replies with the id of its own option; the last one rejects.
pub proof fn buttons_are_labelled_with_the_names_offered(options: Seq<OptionView>, i: int)
    requires
        0 <= i < options.len(),
    ensures
        request_buttons(options).len() == options.len() + 1,
        request_buttons(options)[i].label == options[i].name,
        request_buttons(options)[i].reply == Some(options[i].id),
        request_buttons(options)[options.len() as int].label == "Reject"@,
        request_buttons(options)[options.len() as int].reply is None,
{
}

/// From the agent's request to the button: the button in place `i` reads the name of the option in
/// place `i` of the request, and replies with its id.
pub proof fn a_button_is_the_option_that_the_agent_offered(
    req: &RequestPermissionRequest,
    shown: Vec<AgentPermissionOption>,
    i: int,
)
    requires
        call_ensures(map_permission_options, (req,), shown),
        0 <= i < req.options@.len(),
    ensures
        ({
            let buttons = request_buttons(options_view(shown@));
            &&& buttons.len() == req.options@.len() + 1
            &&& buttons[i].label == req.options@[i].name@
            &&& buttons[i].reply == Some(req.options@[i].option_id@)
        }),
{
    every_option_is_shown_as_offered(req, shown, i);
    assert(options_view(shown@)[i] == shown@[i]@);
}

/// The prompt is that of the oldest request that waits: under its id, with its title, and with a
/// button for each of its options.
pub proof fn the_oldest_request_is_shown(state: &AgentState, r: Option<PermissionPrompt>)
    requires
        call_ensures(permission_bar, (state,), r),
    ensures
        r is Some <==> state@.pending is Some,
        r matches Some(prompt) ==> {
            let request = state@.pending->0;
            &&& prompt.request_id == request.request_id
            &&& prompt.title@ == "Agent asks: "@ + request.title
            &&& prompt.buttons@.len() == request.options.len() + 1
            &&& forall|i: int|
                0 <= i < request.options.len() ==> (#[trigger] prompt.buttons@[i]).label@
                    == request.options[i].name && opt_text(prompt.buttons@[i].reply) == Some(
                    request.options[i].id,
                )
            &&& prompt.buttons@[request.options.len() as int].label@ == "Reject"@
            &&& prompt.buttons@[request.options.len() as int].reply is None
        },
{
    if let Some(prompt) = r {
        let request = state@.pending->0;
        let n = request.options.len() as int;
        assert(buttons_view(prompt.buttons@).len() == prompt.buttons@.len());
        assert forall|i: int| 0 <= i < n implies (#[trigger] prompt.buttons@[i]).label@
            == request.options[i].name && opt_text(prompt.buttons@[i].reply) == Some(
            request.options[i].id,
        ) by {
            assert(buttons_view(prompt.buttons@)[i] == prompt.buttons@[i]@);
        }
        assert(buttons_view(prompt.buttons@)[n] == prompt.buttons@[n]@);
    }
}

/// Answering sends the decision, as it is, for the request that is shown, and shows the next; with
/// nothing to answer nothing is sent.
pub proof fn an_answer_is_for_the_request_shown(
    data: &mut AgentData,
    option_id: Option<String>,
    r: Option<(AgentRequestId, Option<String>)>,
)
    requires
        call_ensures(AgentData::reply_permission, (data, option_id), r),
    ensures
        r is Some <==> old(data).state@.pending is Some,
        r matches Some((id, answer)) ==> id == old(data).state@.pending->0.request_id && opt_text(
            answer,
        ) == opt_text(option_id),
        final(data).state@.items == old(data).state@.items,
        final(data).state@.status == old(data).state@.status,
        final(data).state@.busy == old(data).state@.busy,
        old(data).state@.queued.len() > 0 ==> final(data).state@.pending == Some(
            old(data).state@.queued[0],
        ),
        old(data).state@.queued.len() == 0 ==> final(data).state@.pending is None,
        final(data).docs == old(data).docs,
{
}

/// What is sent is the user's text without the white space around it; it is the last entry of the
/// transcript, and the agent counts as working. Nothing is sent while it works, nor a blank text.
pub proof fn what_is_sent_is_recorded(
    data: &mut AgentData,
    input: &str,
    config: &AgentConfig,
    r: Option<SendInput>,
)
    requires
        call_ensures(AgentData::send_input, (data, input, config), r),
    ensures
        r is Some <==> !old(data).state@.busy && !blank(input@),
        r is None ==> final(data).state@ == old(data).state@,
        r matches Some(send) ==> {
            let items = final(data).state@.items;
            &&& send.text@ == trimmed(input@)
            &&& final(data).state@.busy
            &&& items.len() > 0
            &&& items[items.len() - 1] == ItemView::User(send.text@)
            &&& final(data).state@.status == old(data).state@.status
            &&& final(data).state@.pending == old(data).state@.pending
            &&& final(data).state@.queued == old(data).state@.queued
            &&& !(old(data).state@.status is Disconnected) ==> send.launch is None && items
                == old(data).state@.items.push(ItemView::User(send.text@))
            &&& send.launch is Some ==> old(data).state@.status is Disconnected && items
                == old(data).state@.items.push(ItemView::User(send.text@))
        },
        final(data).docs == old(data).docs,
{
    only_blank_texts_trim_to_nothing(input@);
    if let Some(send) = r {
        let items = final(data).state@.items;
        let before = old(data).state@;
        if before.status is Disconnected {
            let started = choose|started: StateView|
                {
                    &&& #[trigger] start_owed(*config, before, send.launch, started)
                    &&& final(data).state@ == recorded(started, trimmed(input@))
                };
            assert(items == started.items.push(ItemView::User(trimmed(input@))));
        }
    }
}

/// A disconnected agent is started by its settings when something is sent, and where they are not
/// usable the message stands in the transcript, in front of the user's text.
pub proof fn sending_starts_a_disconnected_agent(
    data: &mut AgentData,
    input: &str,
    config: &AgentConfig,
    r: Option<SendInput>,
)
    requires
        call_ensures(AgentData::send_input, (data, input, config), r),
        old(data).state@.status is Disconnected,
        !old(data).state@.busy,
        !blank(input@),
    ensures
        r is Some,
        r->0.launch matches Some(launch) ==> launch_owed(*config, Ok(launch)),
        r->0.launch is None ==> exists|message: String| #[trigger]
            launch_owed(*config, Err(message)) && final(data).state@.items == old(data).state@.items.push(ItemView::Error(message@)).push(ItemView::User(r->0.text@)),
{
    only_blank_texts_trim_to_nothing(input@);
    let before = old(data).state@;
    let send = r->0;
    let started = choose|started: StateView|
        {
            &&& #[trigger] start_owed(*config, before, send.launch, started)
            &&& final(data).state@ == recorded(started, trimmed(input@))
        };
    if send.launch is None {
        let message = choose|message: String| #[trigger]
            launch_owed(*config, Err(message)) && started == applied(
                before,
                EventView::Error { message: message@ },
            );
        assert(launch_owed(*config, Err(message)));
    }
}

/// A restart launches the server of the settings and changes nothing, or says in the transcript why
/// it cannot.
pub proof fn a_restart_launches_or_says_why(
    data: &mut AgentData,
    config: &AgentConfig,
    r: Option<AgentServerConfig>,
)
    requires
        call_ensures(AgentData::restart, (data, config), r),
    ensures
        r matches Some(launch) ==> launch_owed(*config, Ok(launch)) && final(data).state@ == old(data).state@,
        r is None ==> exists|message: String| #[trigger]
            launch_owed(*config, Err(message)) && final(data).state@.items == old(data).state@.items.push(ItemView::Error(message@)) && !final(data).state@.busy,
{
    if r is None {
        let message = choose|message: String| #[trigger]
            launch_owed(*config, Err(message)) && final(data).state@ == applied(
                old(data).state@,
                EventView::Error { message: message@ },
            );
        assert(launch_owed(*config, Err(message)));
    }
}

/// An edit replaces all of the document by exactly the agent's text, and comes only for an open
/// document that it changes; the document is saved where it had no unsaved changes.
pub proof fn an_edit_replaces_all(
    data: &AgentData,
    path: &Location,
    content: &str,
    r: Option<DocumentEdit>,
)
    requires
        call_ensures(AgentData::apply_edit, (data, path, content), r),
    ensures
        !data.docs@.contains_key(path@) ==> r is None,
        data.docs@.contains_key(path@) ==> (r is None <==> data.docs@[path@].buffer@ == content@),
        r matches Some(edit) ==> edit.start == 0 && edit.end == encode_utf8(
            data.docs@[path@].buffer@,
        ).len() && edit.content@ == content@ && (edit.save <==> !data.docs@[path@].unsaved),
{
}

/// There is a hint in the input box exactly while nothing is in it.
pub proof fn only_an_empty_box_has_a_hint(input: &BufferText, r: Option<String>)
    requires
        call_ensures(input_hint, (input,), r),
    ensures
        r is Some <==> input@.len() == 0,
        r matches Some(hint) ==> hint@
            == "Ask the agent (Enter to send, Shift+Enter for a new line)"@,
{
}

/// Enter sends, and with Shift it adds a line.
pub proof fn enter_sends_without_shift(shift: bool, r: EnterAction)
    requires
        call_ensures(on_enter, (shift,), r),
    ensures
        r is Send <==> !shift,
        r is NewLine <==> shift,
{
}

/// The transcript has a line for each entry, in order: under its place, with the key that its
/// content has, and with its heading and text.
pub proof fn the_transcript_has_a_line_for_each_entry(
    state: &AgentState,
    r: Vec<TranscriptLine>,
    i: int,
)
    requires
        call_ensures(transcript, (state,), r),
    ensures
        r@.len() == state@.items.len(),
        0 <= i < r@.len() ==> r@[i].index == i && r@[i].key == render_hash(state@.items[i]),
        0 <= i < r@.len() ==> match state@.items[i] {
            ItemView::User(text) => r@[i].heading@ == "You"@ && r@[i].text@ == text,
            ItemView::Assistant(text) => r@[i].heading@ == "Agent"@ && r@[i].text@ == text,
            ItemView::Thought(text) => r@[i].heading@ == "Thinking"@ && r@[i].text@ == text,
            ItemView::Error(text) => r@[i].heading@ == "Error"@ && r@[i].text@ == text,
            ItemView::Note(text) => r@[i].heading@ == "Note"@ && r@[i].text@ == text,
            ItemView::Tool { title, .. } => r@[i].heading@ == "Tool"@ && title.is_suffix_of(
                r@[i].text@,
            ),
        },
{
    if 0 <= i < r@.len() {
        assert((r@[i].heading@, r@[i].text@) == shown_item(state@.items[i]));
        if let ItemView::Tool { title, .. } = state@.items[i] {
            let text = r@[i].text@;
            assert(title =~= text.subrange(text.len() - title.len(), text.len() as int));
        }
    }
}

/// The panel's body shows the status, the whole transcript, the oldest request and the hint.
pub proof fn the_body_shows_the_state(state: &AgentState, input: &BufferText, r: AgentBody)
    requires
        call_ensures(agent_body, (state, input), r),
    ensures
        r.transcript@.len() == state@.items.len(),
        r.permission is Some <==> state@.pending is Some,
        r.permission is Some ==> r.permission->0.request_id == state@.pending->0.request_id,
        r.hint is Some <==> input@.len() == 0,
        match state@.status {
            StatusView::Starting => r.status@ == "Starting..."@,
            StatusView::Ready => r.status@ == "Ready"@,
            StatusView::Disconnected { reason } => r.status@ == "Disconnected: "@ + reason,
        },
{
}

/// An event of the session is applied to what is shown, and leaves the open documents alone.
pub proof fn an_event_is_applied_to_what_is_shown(data: &mut AgentData, event: AgentEvent)
    requires
        call_ensures(AgentData::handle_event, (data, event), ()),
    ensures
        final(data).state@ == applied(old(data).state@, event@),
        final(data).docs == old(data).docs,
{
}

} // verus!
