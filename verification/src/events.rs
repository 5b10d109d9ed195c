//! What the panel and the agent's host tell each other.

use vstd::prelude::*;

use crate::assoc::AssocMap;
use crate::paths::{FilePath, FilePathView};
use crate::text::{copy_texts, texts};

verus! {

/// Identifier of a permission request raised by the agent.
pub type AgentRequestId = u64;

/// How to launch the agent's process.
pub struct AgentServerConfig {
    pub command: String,
    pub args: Vec<String>,
    pub env: AssocMap<String, String>,
}

/// A piece of editor context attached to a prompt.
#[derive(Debug)]
pub struct AgentContext {
    pub path: FilePath,
    /// Selected text. When `None` the whole file is attached.
    pub selection: Option<String>,
}

/// The kind of a permission option offered by the agent.
#[derive(Debug, Clone, Copy, PartialEq, Eq, Structural)]
pub enum AgentPermissionKind {
    AllowOnce,
    AllowAlways,
    RejectOnce,
    RejectAlways,
}

/// One choice the user can pick when the agent asks for permission.
#[derive(Debug, PartialEq)]
pub struct AgentPermissionOption {
    pub id: String,
    pub name: String,
    pub kind: AgentPermissionKind,
}

/// Execution status of a tool call shown in the panel.
#[derive(Debug, Clone, Copy, PartialEq, Eq, Structural)]
pub enum AgentToolStatus {
    Pending,
    InProgress,
    Completed,
    Failed,
}

/// Connection status of the agent process.
#[derive(Debug, PartialEq)]
pub enum AgentStatus {
    Starting,
    Ready,
    Disconnected { reason: String },
}

/// Events streamed to the panel while an agent session runs.
#[allow(inconsistent_fields)]
#[derive(Debug, PartialEq)]
pub enum AgentEvent {
    MessageChunk { text: String },
    ThoughtChunk { text: String },
    ToolCall { id: String, title: String, status: AgentToolStatus },
    ToolCallUpdate { id: String, title: Option<String>, status: Option<AgentToolStatus> },
    PermissionRequest {
        request_id: AgentRequestId,
        title: String,
        options: Vec<AgentPermissionOption>,
    },
    Status { status: AgentStatus },
    TurnEnded { stop_reason: String },
    Error { message: String },
}

/// What an [`AgentPermissionOption`] stands for.
#[verifier::ext_equal]
pub struct OptionView {
    pub id: Seq<char>,
    pub name: Seq<char>,
    pub kind: AgentPermissionKind,
}

/// What an [`AgentStatus`] stands for.
#[verifier::ext_equal]
pub enum StatusView {
    Starting,
    Ready,
    Disconnected { reason: Seq<char> },
}

/// What an [`AgentEvent`] stands for.
#[allow(inconsistent_fields)]
#[verifier::ext_equal]
pub enum EventView {
    MessageChunk { text: Seq<char> },
    ThoughtChunk { text: Seq<char> },
    ToolCall { id: Seq<char>, title: Seq<char>, status: AgentToolStatus },
    ToolCallUpdate {
        id: Seq<char>,
        title: Option<Seq<char>>,
        status: Option<AgentToolStatus>,
    },
    PermissionRequest {
        request_id: AgentRequestId,
        title: Seq<char>,
        options: Seq<OptionView>,
    },
    Status { status: StatusView },
    TurnEnded { stop_reason: Seq<char> },
    Error { message: Seq<char> },
}

/// What an [`AgentContext`] stands for.
#[verifier::ext_equal]
pub struct AttachmentView {
    pub path: FilePathView,
    pub selection: Option<Seq<char>>,
}

impl View for AgentContext {
    type V = AttachmentView;

    open spec fn view(&self) -> AttachmentView {
        AttachmentView { path: self.path@, selection: opt_text(self.selection) }
    }
}

/// What the attached pieces of context stand for, one by one.
pub open spec fn attachments_view(contexts: Seq<AgentContext>) -> Seq<AttachmentView> {
    contexts.map_values(|context: AgentContext| context@)
}

/// The text that an optional string holds.
pub open spec fn opt_text(text: Option<String>) -> Option<Seq<char>> {
    match text {
        Some(s) => Some(s@),
        None => None,
    }
}

/// What the options stand for, one by one.
pub open spec fn options_view(options: Seq<AgentPermissionOption>) -> Seq<OptionView> {
    options.map_values(|option: AgentPermissionOption| option@)
}

impl View for AgentPermissionOption {
    type V = OptionView;

    open spec fn view(&self) -> OptionView {
        OptionView { id: self.id@, name: self.name@, kind: self.kind }
    }
}

impl View for AgentStatus {
    type V = StatusView;

    open spec fn view(&self) -> StatusView {
        match self {
            AgentStatus::Starting => StatusView::Starting,
            AgentStatus::Ready => StatusView::Ready,
            AgentStatus::Disconnected { reason } => StatusView::Disconnected { reason: reason@ },
        }
    }
}

impl View for AgentEvent {
    type V = EventView;

    open spec fn view(&self) -> EventView {
        match self {
            AgentEvent::MessageChunk { text } => EventView::MessageChunk { text: text@ },
            AgentEvent::ThoughtChunk { text } => EventView::ThoughtChunk { text: text@ },
            AgentEvent::ToolCall { id, title, status } => EventView::ToolCall {
                id: id@,
                title: title@,
                status: *status,
            },
            AgentEvent::ToolCallUpdate { id, title, status } => EventView::ToolCallUpdate {
                id: id@,
                title: opt_text(*title),
                status: *status,
            },
            AgentEvent::PermissionRequest { request_id, title, options } => {
                EventView::PermissionRequest {
                    request_id: *request_id,
                    title: title@,
                    options: options_view(options@),
                }
            },
            AgentEvent::Status { status } => EventView::Status { status: status@ },
            AgentEvent::TurnEnded { stop_reason } => EventView::TurnEnded {
                stop_reason: stop_reason@,
            },
            AgentEvent::Error { message } => EventView::Error { message: message@ },
        }
    }
}

impl Clone for AgentPermissionOption {
    fn clone(&self) -> (r: Self)
        ensures
            r@ == self@,
    {
        AgentPermissionOption { id: self.id.clone(), name: self.name.clone(), kind: self.kind }
    }
}

impl Clone for AgentStatus {
    fn clone(&self) -> (r: Self)
        ensures
            r@ == self@,
    {
        match self {
            AgentStatus::Starting => AgentStatus::Starting,
            AgentStatus::Ready => AgentStatus::Ready,
            AgentStatus::Disconnected { reason } => AgentStatus::Disconnected {
                reason: reason.clone(),
            },
        }
    }
}

/// Copies a text that may be missing.
fn clone_opt_text(text: &Option<String>) -> (r: Option<String>)
    ensures
        opt_text(r) == opt_text(*text),
{
    match text {
        Some(text) => Some(text.clone()),
        None => None,
    }
}

impl Clone for AgentContext {
    fn clone(&self) -> (r: Self)
        ensures
            r@ == self@,
    {
        AgentContext { path: self.path.clone(), selection: clone_opt_text(&self.selection) }
    }
}

impl Clone for AgentServerConfig {
    fn clone(&self) -> (r: Self)
        ensures
            r.command@ == self.command@,
            texts(r.args@) == texts(self.args@),
            r.env@ == self.env@,
    {
        AgentServerConfig {
            command: self.command.clone(),
            args: copy_texts(&self.args),
            env: self.env.copied(),
        }
    }
}

impl Clone for AgentEvent {
    fn clone(&self) -> (r: Self)
        ensures
            r@ == self@,
    {
        match self {
            AgentEvent::MessageChunk { text } => AgentEvent::MessageChunk { text: text.clone() },
            AgentEvent::ThoughtChunk { text } => AgentEvent::ThoughtChunk { text: text.clone() },
            AgentEvent::ToolCall { id, title, status } => AgentEvent::ToolCall {
                id: id.clone(),
                title: title.clone(),
                status: *status,
            },
            AgentEvent::ToolCallUpdate { id, title, status } => AgentEvent::ToolCallUpdate {
                id: id.clone(),
                title: clone_opt_text(title),
                status: *status,
            },
            AgentEvent::PermissionRequest { request_id, title, options } => {
                AgentEvent::PermissionRequest {
                    request_id: *request_id,
                    title: title.clone(),
                    options: clone_options(options),
                }
            },
            AgentEvent::Status { status } => AgentEvent::Status { status: status.clone() },
            AgentEvent::TurnEnded { stop_reason } => AgentEvent::TurnEnded {
                stop_reason: stop_reason.clone(),
            },
            AgentEvent::Error { message } => AgentEvent::Error { message: message.clone() },
        }
    }
}

/// Copies the options of a permission request.
pub fn clone_options(options: &Vec<AgentPermissionOption>) -> (r: Vec<AgentPermissionOption>)
    ensures
        options_view(r@) == options_view(options@),
{
    let mut out: Vec<AgentPermissionOption> = Vec::new();
    for i in 0..options.len()
        invariant
            out@.len() == i,
            forall|j: int| 0 <= j < i ==> #[trigger] out@[j]@ == options@[j]@,
    {
        out.push(options[i].clone());
    }
    assert(options_view(out@) =~= options_view(options@));
    out
}

impl StatusView {
    /// The short form of the status for the panel's label.
    pub open spec fn label(self) -> Seq<char> {
        match self {
            StatusView::Starting => "Starting..."@,
            StatusView::Ready => "Ready"@,
            StatusView::Disconnected { reason } => "Disconnected: "@ + reason,
        }
    }
}

impl AgentStatus {
    /// A short human readable form for the panel's status label.
    pub fn to_string(&self) -> (r: String)
        ensures
            r@ == self@.label(),
    {
        match self {
            AgentStatus::Starting => "Starting...".to_owned(),
            AgentStatus::Ready => "Ready".to_owned(),
            AgentStatus::Disconnected { reason } => "Disconnected: ".to_owned().concat(
                reason.as_str(),
            ),
        }
    }
}

/// The label of a status names it, and says why the agent is disconnected.
pub proof fn a_status_label_says_the_reason(status: &AgentStatus, r: String)
    requires
        call_ensures(AgentStatus::to_string, (status,), r),
    ensures
        status is Starting ==> r@ == "Starting..."@,
        status is Ready ==> r@ == "Ready"@,
        status matches AgentStatus::Disconnected { reason } ==> r@ == "Disconnected: "@ + reason@,
{
}

/// An event stands for what it holds.
pub proof fn an_event_is_told_by_its_view(event: AgentEvent)
    ensures
        event matches AgentEvent::MessageChunk { text } ==> event@ == (EventView::MessageChunk {
            text: text@,
        }),
        event matches AgentEvent::ThoughtChunk { text } ==> event@ == (EventView::ThoughtChunk {
            text: text@,
        }),
        event matches AgentEvent::ToolCall { id, title, status } ==> event@ == (
        EventView::ToolCall { id: id@, title: title@, status }),
        event matches AgentEvent::ToolCallUpdate { id, title, status } ==> event@
            is ToolCallUpdate && event@->ToolCallUpdate_id == id@ && event@->ToolCallUpdate_status
            == status && (title is Some <==> event@->ToolCallUpdate_title is Some) && (title is Some
            ==> event@->ToolCallUpdate_title == Some(title->0@)),
        event matches AgentEvent::TurnEnded { stop_reason } ==> event@ == (EventView::TurnEnded {
            stop_reason: stop_reason@,
        }),
        event matches AgentEvent::Error { message } ==> event@ == (EventView::Error {
            message: message@,
        }),
        event matches AgentEvent::PermissionRequest { request_id, title, options } ==> {
            &&& event@ is PermissionRequest
            &&& event@->request_id == request_id
            &&& event@->PermissionRequest_title == title@
            &&& event@->options.len() == options@.len()
            &&& forall|i: int|
                0 <= i < options@.len() ==> (#[trigger] event@->options[i]).id == options@[i].id@
                    && event@->options[i].name == options@[i].name@ && event@->options[i].kind
                    == options@[i].kind
        },
{
}

/// An attached piece of context stands for its path and its selection.
pub proof fn an_attachment_is_told_by_its_view(contexts: Seq<AgentContext>, i: int)
    requires
        0 <= i < contexts.len(),
    ensures
        attachments_view(contexts).len() == contexts.len(),
        attachments_view(contexts)[i].path == contexts[i].path@,
        contexts[i].selection is Some <==> attachments_view(contexts)[i].selection is Some,
        contexts[i].selection is Some ==> attachments_view(contexts)[i].selection == Some(
            contexts[i].selection->0@,
        ),
{
}

} // verus!
