//! What the panel shows and does.

use std::path::{Component, Path};

use lapce_agent::assoc::AssocMap;
use lapce_agent::config::{AgentConfig, AgentServerSetting};
use lapce_agent::events::{
    AgentEvent, AgentPermissionKind, AgentPermissionOption, AgentStatus, AgentToolStatus,
};
use lapce_agent::fs::BufferText;
use lapce_agent::item::AgentItem;
use lapce_agent::panel::{
    agent_body, item_view, on_enter, permission_bar, AgentData, Document, DocumentEdit,
    EnterAction, PermissionButton,
};
use lapce_agent::paths::{Location, PathPart};

fn location(path: &str) -> Location {
    let parts = Path::new(path)
        .components()
        .map(|component| match component {
            Component::Prefix(prefix) => {
                PathPart::Prefix(prefix.as_os_str().as_encoded_bytes().to_vec())
            }
            Component::RootDir => PathPart::RootDir,
            Component::CurDir => PathPart::CurDir,
            Component::ParentDir => PathPart::ParentDir,
            Component::Normal(name) => PathPart::Normal(name.as_encoded_bytes().to_vec()),
        })
        .collect();
    Location { parts }
}

fn request(request_id: u64) -> AgentEvent {
    AgentEvent::PermissionRequest {
        request_id,
        title: "Edit main.rs".to_string(),
        options: vec![AgentPermissionOption {
            id: "allow".to_string(),
            name: "Allow".to_string(),
            kind: AgentPermissionKind::AllowOnce,
        }],
    }
}

/// Settings with the server `a`, of which `default_server` is to be started.
fn settings(default_server: &str) -> AgentConfig {
    let mut servers = AssocMap::new();
    servers.insert(
        "a".to_string(),
        AgentServerSetting {
            command: "npx".to_string(),
            arguments: vec![],
            environment: AssocMap::new(),
        },
    );
    AgentConfig {
        default_server: default_server.to_string(),
        servers,
    }
}

#[test]
fn an_edit_replaces_the_whole_document() {
    let mut data = AgentData::new();
    data.docs.insert(
        location("/a.txt"),
        Document {
            buffer: BufferText::from_text("\u{e9}b"),
            unsaved: false,
        },
    );
    data.docs.insert(
        location("/b.txt"),
        Document {
            buffer: BufferText::from_text(""),
            unsaved: true,
        },
    );
    assert_eq!(
        data.apply_edit(&location("/a.txt"), "new"),
        Some(DocumentEdit {
            start: 0,
            end: 3,
            content: "new".to_string(),
            save: true,
        })
    );
    assert_eq!(
        data.apply_edit(&location("/b.txt"), "new"),
        Some(DocumentEdit {
            start: 0,
            end: 0,
            content: "new".to_string(),
            save: false,
        })
    );
    assert_eq!(data.apply_edit(&location("/a.txt"), "\u{e9}b"), None);
    assert_eq!(data.apply_edit(&location("/c.txt"), "new"), None);
}

#[test]
fn sending_trims_the_input_and_starts_the_agent_if_needed() {
    let config = settings("a");
    let mut data = AgentData::new();
    assert!(data.send_input(" \n\t ", &config).is_none());
    let send = data.send_input("\n fix it \u{a0}", &config).unwrap();
    assert_eq!(send.text, "fix it");
    assert_eq!(send.launch.unwrap().command, "npx");
    assert!(data.state.busy);
    assert_eq!(data.state.items.len(), 1);
    assert_eq!(
        data.state.items.back(),
        Some(&AgentItem::User("fix it".to_string()))
    );
    // Nothing is sent while the agent works.
    assert!(data.send_input("more", &config).is_none());
    for status in [AgentStatus::Starting, AgentStatus::Ready] {
        let mut data = AgentData::new();
        data.handle_event(AgentEvent::Status { status });
        let send = data.send_input("x", &config).unwrap();
        assert_eq!(send.text, "x");
        assert!(send.launch.is_none());
    }
}

#[test]
fn a_problem_with_the_settings_is_reported_before_the_message() {
    let mut data = AgentData::new();
    let send = data.send_input("x", &settings("b")).unwrap();
    assert_eq!(send.text, "x");
    assert!(send.launch.is_none());
    assert_eq!(data.state.items.len(), 2);
    assert_eq!(
        data.state.items[0],
        AgentItem::Error("agent server 'b' is not configured (available: a)".to_string())
    );
    assert_eq!(data.state.items[1], AgentItem::User("x".to_string()));
    assert!(data.state.busy);
}

#[test]
fn a_reply_answers_the_oldest_request() {
    let mut data = AgentData::new();
    assert_eq!(data.reply_permission(None), None);
    data.handle_event(request(3));
    data.handle_event(request(4));
    assert_eq!(
        data.reply_permission(Some("allow".to_string())),
        Some((3, Some("allow".to_string())))
    );
    assert_eq!(data.reply_permission(None), Some((4, None)));
    assert_eq!(data.reply_permission(None), None);
}

#[test]
fn a_restart_needs_a_usable_setting() {
    let mut data = AgentData::new();
    assert_eq!(data.restart(&settings("a")).unwrap().command, "npx");
    assert_eq!(data.state.items.len(), 0);
    assert!(data.restart(&settings("b")).is_none());
    assert_eq!(
        data.state.items.back(),
        Some(&AgentItem::Error(
            "agent server 'b' is not configured (available: a)".to_string()
        ))
    );
}

#[test]
fn entries_have_a_heading() {
    let shown = |item: AgentItem| {
        let (heading, text) = item_view(&item);
        format!("{heading}|{text}")
    };
    assert_eq!(shown(AgentItem::User("a".to_string())), "You|a");
    assert_eq!(shown(AgentItem::Assistant("a".to_string())), "Agent|a");
    assert_eq!(shown(AgentItem::Thought("a".to_string())), "Thinking|a");
    assert_eq!(shown(AgentItem::Error("a".to_string())), "Error|a");
    assert_eq!(shown(AgentItem::Note("a".to_string())), "Note|a");
    for (status, mark) in [
        (AgentToolStatus::Pending, "Tool|[...] Edit"),
        (AgentToolStatus::InProgress, "Tool|[>>] Edit"),
        (AgentToolStatus::Completed, "Tool|[ok] Edit"),
        (AgentToolStatus::Failed, "Tool|[failed] Edit"),
    ] {
        let item = AgentItem::Tool {
            id: "t".to_string(),
            title: "Edit".to_string(),
            status,
        };
        assert_eq!(shown(item), mark);
    }
}

#[test]
fn only_the_oldest_request_is_shown() {
    let mut data = AgentData::new();
    assert_eq!(permission_bar(&data.state), None);
    data.handle_event(request(3));
    data.handle_event(request(4));
    let prompt = permission_bar(&data.state).unwrap();
    assert_eq!(prompt.request_id, 3);
    assert_eq!(prompt.title, "Agent asks: Edit main.rs");
    assert_eq!(
        prompt.buttons,
        vec![
            PermissionButton {
                label: "Allow".to_string(),
                reply: Some("allow".to_string()),
            },
            PermissionButton {
                label: "Reject".to_string(),
                reply: None,
            },
        ]
    );
    data.reply_permission(None);
    assert_eq!(permission_bar(&data.state).unwrap().request_id, 4);
}

#[test]
fn the_body_shows_everything() {
    let mut data = AgentData::new();
    data.handle_event(AgentEvent::Status {
        status: AgentStatus::Ready,
    });
    data.send_input("hi", &settings("a"));
    data.handle_event(AgentEvent::MessageChunk {
        text: "hello".to_string(),
    });
    let body = agent_body(&data.state, &BufferText::from_text(""));
    assert_eq!(body.status, "Ready");
    assert_eq!(body.permission, None);
    assert_eq!(
        body.hint.as_deref(),
        Some("Ask the agent (Enter to send, Shift+Enter for a new line)")
    );
    assert_eq!(body.transcript.len(), 2);
    assert_eq!(body.transcript[0].heading, "You");
    assert_eq!(body.transcript[1].index, 1);
    assert_eq!(body.transcript[1].text, "hello");
    assert_eq!(body.transcript[1].key, data.state.items[1].render_key());
    let typing = agent_body(&data.state, &BufferText::from_text("x"));
    assert_eq!(typing.hint, None);
}

#[test]
fn enter_sends_and_shift_enter_adds_a_line() {
    assert_eq!(on_enter(false), EnterAction::Send);
    assert_eq!(on_enter(true), EnterAction::NewLine);
}
