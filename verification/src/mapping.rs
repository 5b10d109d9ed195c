//! Converts what the agent reports into the events the panel understands.

use vstd::prelude::*;

use crate::events::{
    opt_text, options_view, AgentEvent, AgentPermissionKind, AgentPermissionOption, AgentRequestId,
    AgentToolStatus, EventView, OptionView,
};

verus! {

/// A piece of content sent by the agent.
#[derive(Debug)]
pub enum ContentBlock {
    Text(String),
    /// Content that is not text.
    Other,
}

/// The status of a tool call, as the agent reports it.
#[derive(Debug, Clone, Copy, PartialEq, Eq, Structural)]
pub enum ToolCallStatus {
    Pending,
    InProgress,
    Completed,
    Failed,
    /// A status that is not known.
    Other,
}

/// A tool call that the agent begins.
#[derive(Debug)]
pub struct ToolCall {
    pub tool_call_id: String,
    pub title: String,
    pub status: ToolCallStatus,
}

/// A change to a tool call. What is `None` stays as it was.
#[derive(Debug)]
pub struct ToolCallUpdate {
    pub tool_call_id: String,
    pub title: Option<String>,
    pub status: Option<ToolCallStatus>,
}

/// What the agent reports in the course of a turn.
#[derive(Debug)]
pub enum SessionUpdate {
    UserMessageChunk(ContentBlock),
    AgentMessageChunk(ContentBlock),
    AgentThoughtChunk(ContentBlock),
    ToolCall(ToolCall),
    ToolCallUpdate(ToolCallUpdate),
    /// An update of another kind.
    Other,
}

/// The kind of a permission option, as the agent reports it.
#[derive(Debug, Clone, Copy, PartialEq, Eq, Structural)]
pub enum PermissionOptionKind {
    AllowOnce,
    AllowAlways,
    RejectOnce,
    RejectAlways,
    /// A kind that is not known.
    Other,
}

/// One option of a permission request.
#[derive(Debug)]
pub struct PermissionOption {
    pub option_id: String,
    pub name: String,
    pub kind: PermissionOptionKind,
}

/// The agent's request for permission to make a tool call.
#[derive(Debug)]
pub struct RequestPermissionRequest {
    pub tool_call: ToolCallUpdate,
    pub options: Vec<PermissionOption>,
}

/// The status shown for a tool call. Unknown states count as failed.
pub open spec fn shown_status(status: ToolCallStatus) -> AgentToolStatus {
    match status {
        ToolCallStatus::Pending => AgentToolStatus::Pending,
        ToolCallStatus::InProgress => AgentToolStatus::InProgress,
        ToolCallStatus::Completed => AgentToolStatus::Completed,
        ToolCallStatus::Failed => AgentToolStatus::Failed,
        ToolCallStatus::Other => AgentToolStatus::Failed,
    }
}

/// Maps a tool status to the status shown. Unknown states count as failed.
pub fn map_status(status: ToolCallStatus) -> (r: AgentToolStatus)
    ensures
        r == shown_status(status),
{
    match status {
        ToolCallStatus::Pending => AgentToolStatus::Pending,
        ToolCallStatus::InProgress => AgentToolStatus::InProgress,
        ToolCallStatus::Completed => AgentToolStatus::Completed,
        _ => AgentToolStatus::Failed,
    }
}

/// Returns the text of a content block, or `None` for content that is not text.
pub fn block_text(block: ContentBlock) -> (r: Option<String>)
    ensures
        r == (match block {
            ContentBlock::Text(text) => Some(text),
            ContentBlock::Other => None,
        }),
{
    match block {
        ContentBlock::Text(text) => Some(text),
        ContentBlock::Other => None,
    }
}

/// The event that the panel gets for an update. `None` for what the panel does not show.
pub open spec fn update_event(update: SessionUpdate) -> Option<EventView> {
    match update {
        SessionUpdate::AgentMessageChunk(ContentBlock::Text(text)) => Some(
            EventView::MessageChunk { text: text@ },
        ),
        SessionUpdate::AgentThoughtChunk(ContentBlock::Text(text)) => Some(
            EventView::ThoughtChunk { text: text@ },
        ),
        SessionUpdate::ToolCall(call) => Some(
            EventView::ToolCall {
                id: call.tool_call_id@,
                title: call.title@,
                status: shown_status(call.status),
            },
        ),
        SessionUpdate::ToolCallUpdate(change) => Some(
            EventView::ToolCallUpdate {
                id: change.tool_call_id@,
                title: opt_text(change.title),
                status: match change.status {
                    Some(status) => Some(shown_status(status)),
                    None => None,
                },
            },
        ),
        _ => None,
    }
}

/// What an optional event stands for.
pub open spec fn opt_event(event: Option<AgentEvent>) -> Option<EventView> {
    match event {
        Some(event) => Some(event@),
        None => None,
    }
}

/// Maps a session update to an event. Updates the panel does not show return `None`.
pub fn map_update(update: SessionUpdate) -> (r: Option<AgentEvent>)
    ensures
        opt_event(r) == update_event(update),
{
    match update {
        SessionUpdate::AgentMessageChunk(content) => match block_text(content) {
            Some(text) => Some(AgentEvent::MessageChunk { text }),
            None => None,
        },
        SessionUpdate::AgentThoughtChunk(content) => match block_text(content) {
            Some(text) => Some(AgentEvent::ThoughtChunk { text }),
            None => None,
        },
        SessionUpdate::ToolCall(call) => Some(
            AgentEvent::ToolCall {
                id: call.tool_call_id,
                title: call.title,
                status: map_status(call.status),
            },
        ),
        SessionUpdate::ToolCallUpdate(change) => Some(
            AgentEvent::ToolCallUpdate {
                id: change.tool_call_id,
                title: change.title,
                status: match change.status {
                    Some(status) => Some(map_status(status)),
                    None => None,
                },
            },
        ),
        _ => None,
    }
}

/// The kind shown for a permission option. Unknown kinds count as reject-always (the safe side).
pub open spec fn shown_kind(kind: PermissionOptionKind) -> AgentPermissionKind {
    match kind {
        PermissionOptionKind::AllowOnce => AgentPermissionKind::AllowOnce,
        PermissionOptionKind::AllowAlways => AgentPermissionKind::AllowAlways,
        PermissionOptionKind::RejectOnce => AgentPermissionKind::RejectOnce,
        PermissionOptionKind::RejectAlways => AgentPermissionKind::RejectAlways,
        PermissionOptionKind::Other => AgentPermissionKind::RejectAlways,
    }
}

/// Maps a permission option kind. Unknown kinds count as reject-always (the safe side).
pub fn map_kind(kind: PermissionOptionKind) -> (r: AgentPermissionKind)
    ensures
        r == shown_kind(kind),
{
    match kind {
        PermissionOptionKind::AllowOnce => AgentPermissionKind::AllowOnce,
        PermissionOptionKind::AllowAlways => AgentPermissionKind::AllowAlways,
        PermissionOptionKind::RejectOnce => AgentPermissionKind::RejectOnce,
        _ => AgentPermissionKind::RejectAlways,
    }
}

/// The options that the panel shows for those of a request.
pub open spec fn shown_options(options: Seq<PermissionOption>) -> Seq<OptionView> {
    options.map_values(
        |option: PermissionOption|
            OptionView {
                id: option.option_id@,
                name: option.name@,
                kind: shown_kind(option.kind),
            },
    )
}

/// Converts the options of a permission request for display.
pub fn map_permission_options(req: &RequestPermissionRequest) -> (r: Vec<AgentPermissionOption>)
    ensures
        options_view(r@) == shown_options(req.options@),
{
    let mut out: Vec<AgentPermissionOption> = Vec::new();
    for i in 0..req.options.len()
        invariant
            out@.len() == i,
            forall|j: int| 0 <= j < i ==> #[trigger] out@[j]@ == shown_options(req.options@)[j],
    {
        let option = &req.options[i];
        out.push(
            AgentPermissionOption {
                id: option.option_id.clone(),
                name: option.name.clone(),
                kind: map_kind(option.kind),
            },
        );
    }
    assert(options_view(out@) =~= shown_options(req.options@));
    out
}

/// The title of a permission request: that of the tool call, or a general one.
pub open spec fn shown_title(req: RequestPermissionRequest) -> Seq<char> {
    match req.tool_call.title {
        Some(title) => title@,
        None => "Agent action"@,
    }
}

/// Returns the title of the action the agent asks permission for.
pub fn permission_title(req: &RequestPermissionRequest) -> (r: String)
    ensures
        r@ == shown_title(*req),
{
    match &req.tool_call.title {
        Some(title) => title.clone(),
        None => "Agent action".to_owned(),
    }
}

/// The event that shows a permission request under the id that it is registered with.
pub fn permission_request_event(request_id: AgentRequestId, req: &RequestPermissionRequest) -> (r:
    AgentEvent)
    ensures
        r@ == (EventView::PermissionRequest {
            request_id,
            title: shown_title(*req),
            options: shown_options(req.options@),
        }),
{
    AgentEvent::PermissionRequest {
        request_id,
        title: permission_title(req),
        options: map_permission_options(req),
    }
}

/// An option is shown as allowing only where the agent reported it as allowing.
pub proof fn only_allowing_options_are_shown_as_allowing(kind: PermissionOptionKind)
    ensures
        shown_kind(kind) is AllowOnce <==> kind is AllowOnce,
        shown_kind(kind) is AllowAlways <==> kind is AllowAlways,
{
}

/// A status that the agent reports is shown under its own name, and one that is not known as
/// failed: nothing is shown as further along than it was reported.
pub proof fn statuses_are_shown_as_reported(status: ToolCallStatus, r: AgentToolStatus)
    requires
        call_ensures(map_status, (status,), r),
    ensures
        r is Pending <==> status is Pending,
        r is InProgress <==> status is InProgress,
        r is Completed <==> status is Completed,
        r is Failed <==> status is Failed || status is Other,
{
}

/// A kind of option that the agent reports is shown under its own name, and one that is not known
/// as rejecting for good.
pub proof fn kinds_are_shown_as_reported(kind: PermissionOptionKind, r: AgentPermissionKind)
    requires
        call_ensures(map_kind, (kind,), r),
    ensures
        r is AllowOnce <==> kind is AllowOnce,
        r is AllowAlways <==> kind is AllowAlways,
        r is RejectOnce <==> kind is RejectOnce,
        r is RejectAlways <==> kind is RejectAlways || kind is Other,
{
}

/// Of a content block the text comes out, all of it, where it is text, and nothing else does.
pub proof fn text_comes_out_of_its_block(block: ContentBlock, r: Option<String>)
    requires
        call_ensures(block_text, (block,), r),
    ensures
        r is Some <==> block is Text,
        r matches Some(text) ==> block == ContentBlock::Text(text),
{
}

/// There are as many options shown as the agent offers, and each one shown has the id and the name
/// of the one offered in its place, and allows only where that one does.
pub proof fn every_option_is_shown_as_offered(
    req: &RequestPermissionRequest,
    r: Vec<AgentPermissionOption>,
    i: int,
)
    requires
        call_ensures(map_permission_options, (req,), r),
    ensures
        r@.len() == req.options@.len(),
        0 <= i < r@.len() ==> {
            let shown = r@[i];
            let offered = req.options@[i];
            &&& shown.id@ == offered.option_id@
            &&& shown.name@ == offered.name@
            &&& shown.kind is AllowOnce <==> offered.kind is AllowOnce
            &&& shown.kind is AllowAlways <==> offered.kind is AllowAlways
            &&& shown.kind is RejectOnce <==> offered.kind is RejectOnce
        },
{
    assert(options_view(r@).len() == r@.len());
    if 0 <= i < r@.len() {
        assert(options_view(r@)[i] == r@[i]@);
        assert(shown_options(req.options@)[i] == r@[i]@);
    }
}

/// The options shown are made of the options offered, one by one and in order, by their own ids and
/// names.
pub proof fn options_keep_their_ids_and_names(options: Seq<PermissionOption>, i: int)
    ensures
        shown_options(options).len() == options.len(),
        0 <= i < options.len() ==> shown_options(options)[i].id == options[i].option_id@
            && shown_options(options)[i].name == options[i].name@,
        0 <= i < options.len() ==> (shown_options(options)[i].kind is AllowOnce <==> options[i].kind
            is AllowOnce) && (shown_options(options)[i].kind is AllowAlways <==> options[i].kind
            is AllowAlways) && (shown_options(options)[i].kind is RejectOnce <==> options[i].kind
            is RejectOnce),
{
}

/// A permission request is shown under the id it was registered with, with the agent's own title
/// where it gave one, and with its options.
pub proof fn a_request_is_shown_as_made(
    request_id: AgentRequestId,
    req: &RequestPermissionRequest,
    r: AgentEvent,
)
    requires
        call_ensures(permission_request_event, (request_id, req), r),
    ensures
        r matches AgentEvent::PermissionRequest { request_id: id, title, options } && {
            &&& id == request_id
            &&& req.tool_call.title matches Some(given) ==> title@ == given@
            &&& req.tool_call.title is None ==> title@ == "Agent action"@
            &&& options@.len() == req.options@.len()
            &&& forall|i: int|
                0 <= i < options@.len() ==> (#[trigger] options@[i]).id@
                    == req.options@[i].option_id@ && options@[i].name@ == req.options@[i].name@
        },
{
    let views = r@->PermissionRequest_options;
    let options = r->PermissionRequest_options;
    assert(views == options_view(options@));
    assert(options_view(options@).len() == options@.len());
    assert forall|i: int| 0 <= i < options@.len() implies (#[trigger] options@[i]).id@
        == req.options@[i].option_id@ && options@[i].name@ == req.options@[i].name@ by {
        assert(options_view(options@)[i] == options@[i]@);
    }
}

/// The title of a permission request is the agent's own, where it gave one.
pub proof fn a_given_title_is_shown(req: &RequestPermissionRequest, r: String)
    requires
        call_ensures(permission_title, (req,), r),
    ensures
        req.tool_call.title matches Some(given) ==> r@ == given@,
        req.tool_call.title is None ==> r@ == "Agent action"@,
{
}

/// Text that the agent streams reaches the panel as it is, a message as a message and a thought as
/// a thought; of other chunks nothing does.
pub proof fn chunks_are_passed_on(update: SessionUpdate, r: Option<AgentEvent>)
    requires
        call_ensures(map_update, (update,), r),
        update is UserMessageChunk || update is AgentMessageChunk || update is AgentThoughtChunk
            || update is Other,
    ensures
        update matches SessionUpdate::AgentMessageChunk(ContentBlock::Text(said)) ==> (r matches Some(
            AgentEvent::MessageChunk { text },
        ) && text@ == said@),
        update matches SessionUpdate::AgentThoughtChunk(ContentBlock::Text(thought)) ==> (r
            matches Some(AgentEvent::ThoughtChunk { text }) && text@ == thought@),
        r is Some <==> (update matches SessionUpdate::AgentMessageChunk(content) && content is Text)
            || (update matches SessionUpdate::AgentThoughtChunk(content) && content is Text),
{
}

/// A tool call reaches the panel with its own id and title and with the status it was reported
/// with; an update of one carries exactly what the agent sent.
pub proof fn tool_calls_are_passed_on(update: SessionUpdate, r: Option<AgentEvent>)
    requires
        call_ensures(map_update, (update,), r),
    ensures
        update matches SessionUpdate::ToolCall(call) ==> (r matches Some(
            AgentEvent::ToolCall { id, title, status },
        ) && id@ == call.tool_call_id@ && title@ == call.title@ && (status is Completed
            <==> call.status is Completed) && (status is InProgress <==> call.status is InProgress)
            && (status is Pending <==> call.status is Pending)),
        update matches SessionUpdate::ToolCallUpdate(change) ==> (r matches Some(
            AgentEvent::ToolCallUpdate { id, title, status },
        ) && id@ == change.tool_call_id@ && (title is Some <==> change.title is Some) && (title
            is Some ==> title->0@ == change.title->0@) && (status is Some <==> change.status
            is Some) && (status is Some ==> (status->0 is Completed <==> change.status->0
            is Completed) && (status->0 is InProgress <==> change.status->0 is InProgress) && (
        status->0 is Pending <==> change.status->0 is Pending))),
{
}

} // verus!
