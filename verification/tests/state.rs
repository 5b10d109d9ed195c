//! The state of the panel.

use std::collections::hash_map::DefaultHasher;
use std::hash::{Hash, Hasher};

use lapce_agent::events::{
    AgentEvent, AgentPermissionKind, AgentPermissionOption, AgentStatus, AgentToolStatus,
};
use lapce_agent::item::AgentItem;
use lapce_agent::state::AgentState;

fn request(request_id: u64) -> AgentEvent {
    AgentEvent::PermissionRequest {
        request_id,
        title: "Run".into(),
        options: vec![],
    }
}

#[test]
fn status_displays_in_a_readable_form() {
    assert_eq!(AgentStatus::Starting.to_string(), "Starting...");
    assert_eq!(AgentStatus::Ready.to_string(), "Ready");
    let status = AgentStatus::Disconnected {
        reason: "exit 1".to_string(),
    };
    assert_eq!(status.to_string(), "Disconnected: exit 1");
}

#[test]
fn the_state_starts_disconnected_and_empty() {
    let state = AgentState::default();
    assert_eq!(state.items.len(), 0);
    assert_eq!(state.status.to_string(), "Disconnected: not started");
    assert!(!state.busy);
    assert!(state.pending.is_none());
}

#[test]
fn message_chunks_extend_the_last_assistant_item() {
    let mut state = AgentState::default();
    state.apply(&AgentEvent::MessageChunk { text: "Hel".into() });
    state.apply(&AgentEvent::MessageChunk { text: "lo".into() });
    assert_eq!(state.items.len(), 1);
    assert_eq!(state.items[0], AgentItem::Assistant("Hello".to_string()));
}

#[test]
fn thoughts_and_messages_do_not_mix() {
    let mut state = AgentState::default();
    state.apply(&AgentEvent::ThoughtChunk { text: "hm".into() });
    state.apply(&AgentEvent::ThoughtChunk { text: "m".into() });
    state.apply(&AgentEvent::MessageChunk { text: "a".into() });
    state.apply(&AgentEvent::ThoughtChunk { text: "b".into() });
    let items: Vec<AgentItem> = state.items.iter().cloned().collect();
    assert_eq!(
        items,
        vec![
            AgentItem::Thought("hmm".to_string()),
            AgentItem::Assistant("a".to_string()),
            AgentItem::Thought("b".to_string()),
        ]
    );
}

#[test]
fn how_a_stream_is_cut_does_not_show() {
    for thought in [false, true] {
        let mut pieces = AgentState::default();
        pieces.append_text("a", thought);
        pieces.append_text("b", thought);
        let mut whole = AgentState::default();
        whole.append_text("ab", thought);
        assert_eq!(pieces.items, whole.items);
        let expected = if thought {
            AgentItem::Thought("ab".to_string())
        } else {
            AgentItem::Assistant("ab".to_string())
        };
        assert_eq!(pieces.items.back(), Some(&expected));
    }
}

#[test]
fn a_tool_call_between_chunks_starts_a_new_assistant_item() {
    let mut state = AgentState::default();
    state.apply(&AgentEvent::MessageChunk { text: "a".into() });
    state.apply(&AgentEvent::ToolCall {
        id: "t1".into(),
        title: "Edit".into(),
        status: AgentToolStatus::Pending,
    });
    state.apply(&AgentEvent::MessageChunk { text: "b".into() });
    assert_eq!(state.items.len(), 3);
}

#[test]
fn tool_update_changes_the_matching_tool() {
    let mut state = AgentState::default();
    state.apply(&AgentEvent::ToolCall {
        id: "t1".into(),
        title: "Edit".into(),
        status: AgentToolStatus::Pending,
    });
    state.apply(&AgentEvent::ToolCallUpdate {
        id: "t1".into(),
        title: None,
        status: Some(AgentToolStatus::Completed),
    });
    assert_eq!(
        state.items[0],
        AgentItem::Tool {
            id: "t1".to_string(),
            title: "Edit".to_string(),
            status: AgentToolStatus::Completed,
        }
    );
}

#[test]
fn tool_update_changes_every_matching_tool_and_no_other() {
    let mut state = AgentState::default();
    for id in ["t1", "t2", "t1"] {
        state.apply(&AgentEvent::ToolCall {
            id: id.into(),
            title: "Edit".into(),
            status: AgentToolStatus::Pending,
        });
    }
    state.apply(&AgentEvent::ToolCallUpdate {
        id: "t1".into(),
        title: Some("Write".into()),
        status: None,
    });
    let tool = |id: &str, title: &str| AgentItem::Tool {
        id: id.to_string(),
        title: title.to_string(),
        status: AgentToolStatus::Pending,
    };
    assert_eq!(state.items[0], tool("t1", "Write"));
    assert_eq!(state.items[1], tool("t2", "Edit"));
    assert_eq!(state.items[2], tool("t1", "Write"));
}

#[test]
fn push_user_marks_the_state_busy_and_turn_end_clears_it() {
    let mut state = AgentState::default();
    state.push_user("hi");
    assert!(state.busy);
    assert_eq!(state.items.back(), Some(&AgentItem::User("hi".to_string())));
    state.apply(&AgentEvent::TurnEnded {
        stop_reason: "EndTurn".into(),
    });
    assert!(!state.busy);
}

#[test]
fn disconnect_resets_busy_clears_permission_and_reports_the_reason() {
    let mut state = AgentState::default();
    state.push_user("hi");
    state.apply(&AgentEvent::PermissionRequest {
        request_id: 1,
        title: "Edit".into(),
        options: vec![],
    });
    assert!(state.pending.is_some());
    state.apply(&AgentEvent::Status {
        status: AgentStatus::Disconnected {
            reason: "exit 1".into(),
        },
    });
    assert!(!state.busy);
    assert!(state.pending.is_none());
    assert!(matches!(
        state.items.back(),
        Some(AgentItem::Error(message)) if message.contains("exit 1")
    ));
    assert_eq!(
        state.items.back(),
        Some(&AgentItem::Error("Agent disconnected: exit 1".to_string()))
    );
}

#[test]
fn other_statuses_only_change_the_status() {
    let mut state = AgentState::default();
    state.push_user("hi");
    state.apply(&request(1));
    state.apply(&AgentEvent::Status {
        status: AgentStatus::Ready,
    });
    assert_eq!(state.status, AgentStatus::Ready);
    assert!(state.busy);
    assert!(state.pending.is_some());
    assert_eq!(state.items.len(), 1);
}

#[test]
fn error_event_adds_an_error_item_and_stops_busy() {
    let mut state = AgentState::default();
    state.push_user("hi");
    state.apply(&AgentEvent::Error {
        message: "boom".into(),
    });
    assert!(!state.busy);
    assert_eq!(
        state.items.back(),
        Some(&AgentItem::Error("boom".to_string()))
    );
}

#[test]
fn take_pending_removes_the_request() {
    let mut state = AgentState::default();
    state.apply(&AgentEvent::PermissionRequest {
        request_id: 4,
        title: "Run".into(),
        options: vec![],
    });
    assert_eq!(state.take_pending().unwrap().request_id, 4);
    assert!(state.take_pending().is_none());
}

#[test]
fn answering_the_oldest_request_reveals_the_next() {
    let mut state = AgentState::default();
    for id in [4, 5, 6] {
        state.apply(&request(id));
    }
    assert_eq!(state.current_permission().unwrap().request_id, 4);
    assert_eq!(state.take_pending().unwrap().request_id, 4);
    assert_eq!(state.current_permission().unwrap().request_id, 5);
    state.apply(&request(7));
    assert_eq!(state.take_pending().unwrap().request_id, 5);
    assert_eq!(state.take_pending().unwrap().request_id, 6);
    assert_eq!(state.take_pending().unwrap().request_id, 7);
    assert!(state.current_permission().is_none());
}

#[test]
fn the_end_of_a_turn_drops_every_request() {
    let mut state = AgentState::default();
    state.apply(&request(1));
    state.apply(&request(2));
    state.apply(&AgentEvent::TurnEnded {
        stop_reason: "EndTurn".into(),
    });
    assert!(state.take_pending().is_none());
}

#[test]
fn a_request_keeps_its_options() {
    let mut state = AgentState::default();
    let options = vec![AgentPermissionOption {
        id: "allow".to_string(),
        name: "Allow".to_string(),
        kind: AgentPermissionKind::AllowOnce,
    }];
    state.apply(&AgentEvent::PermissionRequest {
        request_id: 7,
        title: "Edit main.rs".to_string(),
        options: options.clone(),
    });
    let pending = state.take_pending().unwrap();
    assert_eq!(pending.title, "Edit main.rs");
    assert_eq!(pending.options, options);
}

fn std_hash(value: impl Hash) -> u64 {
    let mut hasher = DefaultHasher::new();
    value.hash(&mut hasher);
    hasher.finish()
}

#[test]
fn the_render_key_is_the_hash_of_the_content() {
    let text = "h\u{e9}llo".to_string();
    assert_eq!(
        AgentItem::User(text.clone()).render_key(),
        std_hash((0u8, &text))
    );
    assert_eq!(
        AgentItem::Assistant(text.clone()).render_key(),
        std_hash((1u8, &text))
    );
    assert_eq!(
        AgentItem::Thought(text.clone()).render_key(),
        std_hash((2u8, &text))
    );
    assert_eq!(
        AgentItem::Error(text.clone()).render_key(),
        std_hash((4u8, &text))
    );
    assert_eq!(
        AgentItem::Note(text.clone()).render_key(),
        std_hash((5u8, &text))
    );
    for status in [
        AgentToolStatus::Pending,
        AgentToolStatus::InProgress,
        AgentToolStatus::Completed,
        AgentToolStatus::Failed,
    ] {
        let item = AgentItem::Tool {
            id: "t1".to_string(),
            title: text.clone(),
            status,
        };
        let id = "t1".to_string();
        assert_eq!(
            item.render_key(),
            std_hash((3u8, &id, &text, status as u8))
        );
    }
}

#[test]
fn the_render_key_changes_with_the_content() {
    let keys = [
        AgentItem::User("a".to_string()).render_key(),
        AgentItem::User("ab".to_string()).render_key(),
        AgentItem::Assistant("a".to_string()).render_key(),
        AgentItem::Tool {
            id: "a".to_string(),
            title: "b".to_string(),
            status: AgentToolStatus::Pending,
        }
        .render_key(),
        AgentItem::Tool {
            id: "a".to_string(),
            title: "b".to_string(),
            status: AgentToolStatus::Failed,
        }
        .render_key(),
    ];
    for (i, a) in keys.iter().enumerate() {
        for b in &keys[i + 1..] {
            assert_ne!(a, b);
        }
    }
}
