//! Mapping what the agent reports.

use lapce_agent::events::{AgentEvent, AgentPermissionKind, AgentToolStatus};
use lapce_agent::mapping::{
    map_permission_options, map_update, permission_request_event, permission_title, ContentBlock,
    PermissionOption, PermissionOptionKind, RequestPermissionRequest, SessionUpdate, ToolCall,
    ToolCallStatus, ToolCallUpdate,
};

fn text(text: &str) -> ContentBlock {
    ContentBlock::Text(text.to_string())
}

fn request(title: Option<&str>, options: Vec<PermissionOption>) -> RequestPermissionRequest {
    RequestPermissionRequest {
        tool_call: ToolCallUpdate {
            tool_call_id: "t1".to_string(),
            title: title.map(str::to_string),
            status: None,
        },
        options,
    }
}

fn option(id: &str, name: &str, kind: PermissionOptionKind) -> PermissionOption {
    PermissionOption {
        option_id: id.to_string(),
        name: name.to_string(),
        kind,
    }
}

#[test]
fn maps_message_chunk() {
    let update = SessionUpdate::AgentMessageChunk(text("hi"));
    assert_eq!(
        map_update(update),
        Some(AgentEvent::MessageChunk {
            text: "hi".to_string()
        })
    );
}

#[test]
fn maps_thought_chunk() {
    let update = SessionUpdate::AgentThoughtChunk(text("hm"));
    assert_eq!(
        map_update(update),
        Some(AgentEvent::ThoughtChunk {
            text: "hm".to_string()
        })
    );
}

#[test]
fn maps_tool_call_and_update() {
    let call = SessionUpdate::ToolCall(ToolCall {
        tool_call_id: "t1".to_string(),
        title: "Edit foo.rs".to_string(),
        status: ToolCallStatus::Pending,
    });
    assert_eq!(
        map_update(call),
        Some(AgentEvent::ToolCall {
            id: "t1".to_string(),
            title: "Edit foo.rs".to_string(),
            status: AgentToolStatus::Pending,
        })
    );
    let update = SessionUpdate::ToolCallUpdate(ToolCallUpdate {
        tool_call_id: "t1".to_string(),
        title: None,
        status: Some(ToolCallStatus::Completed),
    });
    assert_eq!(
        map_update(update),
        Some(AgentEvent::ToolCallUpdate {
            id: "t1".to_string(),
            title: None,
            status: Some(AgentToolStatus::Completed),
        })
    );
}

#[test]
fn unknown_states_count_as_failed() {
    for (status, shown) in [
        (ToolCallStatus::InProgress, AgentToolStatus::InProgress),
        (ToolCallStatus::Failed, AgentToolStatus::Failed),
        (ToolCallStatus::Other, AgentToolStatus::Failed),
    ] {
        let update = SessionUpdate::ToolCallUpdate(ToolCallUpdate {
            tool_call_id: "t1".to_string(),
            title: Some("Edit".to_string()),
            status: Some(status),
        });
        assert_eq!(
            map_update(update),
            Some(AgentEvent::ToolCallUpdate {
                id: "t1".to_string(),
                title: Some("Edit".to_string()),
                status: Some(shown),
            })
        );
    }
}

#[test]
fn updates_the_panel_does_not_show_are_ignored() {
    let update = SessionUpdate::UserMessageChunk(text("echo of the prompt"));
    assert_eq!(map_update(update), None);
    assert_eq!(map_update(SessionUpdate::Other), None);
    assert_eq!(
        map_update(SessionUpdate::AgentMessageChunk(ContentBlock::Other)),
        None
    );
    assert_eq!(
        map_update(SessionUpdate::AgentThoughtChunk(ContentBlock::Other)),
        None
    );
}

#[test]
fn maps_permission_options_and_title() {
    let req = request(
        Some("Run tests"),
        vec![
            option("allow", "Allow", PermissionOptionKind::AllowOnce),
            option("no", "Reject", PermissionOptionKind::RejectOnce),
        ],
    );
    assert_eq!(permission_title(&req), "Run tests");
    let options = map_permission_options(&req);
    assert_eq!(options.len(), 2);
    assert_eq!(options[0].id, "allow");
    assert_eq!(options[1].kind, AgentPermissionKind::RejectOnce);
}

#[test]
fn unknown_kinds_count_as_reject_always() {
    let req = request(
        None,
        vec![
            option("a", "A", PermissionOptionKind::AllowAlways),
            option("b", "B", PermissionOptionKind::RejectAlways),
            option("c", "C", PermissionOptionKind::Other),
        ],
    );
    let kinds: Vec<AgentPermissionKind> = map_permission_options(&req)
        .iter()
        .map(|option| option.kind)
        .collect();
    assert_eq!(
        kinds,
        vec![
            AgentPermissionKind::AllowAlways,
            AgentPermissionKind::RejectAlways,
            AgentPermissionKind::RejectAlways,
        ]
    );
}

#[test]
fn missing_title_gets_a_default() {
    let req = request(None, vec![]);
    assert_eq!(permission_title(&req), "Agent action");
}

#[test]
fn a_permission_request_is_shown_under_its_id() {
    let req = request(
        None,
        vec![option("allow", "Allow", PermissionOptionKind::AllowOnce)],
    );
    match permission_request_event(7, &req) {
        AgentEvent::PermissionRequest {
            request_id,
            title,
            options,
        } => {
            assert_eq!(request_id, 7);
            assert_eq!(title, "Agent action");
            assert_eq!(options, map_permission_options(&req));
        }
        other => panic!("unexpected event: {other:?}"),
    }
}
