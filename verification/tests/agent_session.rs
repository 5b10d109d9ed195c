//! A manager, its sessions and a mock agent, stepped by hand. On every prompt the mock streams a
//! message, asks for permission, writes `/mock/out.txt` if allowed, then ends the turn.

use std::cell::RefCell;
use std::path::{Component, Path};

use futures::channel::mpsc::TryRecvError;
use futures::channel::oneshot;
use lapce_agent::assoc::AssocMap;
use lapce_agent::events::{AgentContext, AgentEvent, AgentServerConfig, AgentStatus};
use lapce_agent::manager::{
    delivery_report, disconnect_reason, AgentManager, SessionLaunch, SessionOutcome, StartOutcome,
    Undelivered,
};
use lapce_agent::mapping::{
    map_update, ContentBlock, PermissionOption, PermissionOptionKind, RequestPermissionRequest,
    SessionUpdate, ToolCallUpdate,
};
use lapce_agent::paths::{FilePath, Location, Lookup, PathPart};
use lapce_agent::permission::{permission_outcome, PermissionOutcome};
use lapce_agent::process::Attached;
use lapce_agent::session::{
    Phase, Session, SessionAction, SessionCommand, SessionEnv, SessionInput,
};

fn location(path: &str) -> Location {
    let parts = Path::new(path)
        .components()
        .map(|component| match component {
            Component::Prefix(prefix) => {
                PathPart::Prefix(prefix.as_os_str().as_encoded_bytes().to_vec())
            }
            Component::RootDir => PathPart::RootDir,
            Component::CurDir => PathPart::CurDir,
            Component::ParentDir => PathPart::ParentDir,
            Component::Normal(name) => PathPart::Normal(name.as_encoded_bytes().to_vec()),
        })
        .collect();
    Location { parts }
}

fn file_path(path: &str) -> FilePath {
    FilePath {
        shown: path.to_string(),
        absolute: Path::new(path).is_absolute(),
        location: location(path),
    }
}

/// A file system in which nothing exists.
fn nothing_exists(_: &Location) -> Lookup {
    Lookup::Missing
}

fn config(command: &str) -> AgentServerConfig {
    AgentServerConfig {
        command: command.to_string(),
        args: vec![],
        env: AssocMap::new(),
    }
}

/// The request that the mock agent makes.
fn mock_request() -> RequestPermissionRequest {
    let option = |id: &str, name: &str, kind| PermissionOption {
        option_id: id.to_string(),
        name: name.to_string(),
        kind,
    };
    RequestPermissionRequest {
        tool_call: ToolCallUpdate {
            tool_call_id: "tool-1".to_string(),
            title: None,
            status: None,
        },
        options: vec![
            option("allow", "Allow", PermissionOptionKind::AllowOnce),
            option("reject", "Reject", PermissionOptionKind::RejectOnce),
        ],
    }
}

/// A session that runs, with the mock agent at its other end.
struct Running {
    session: Session,
    launch: SessionLaunch,
    /// Whether the agent answers at all.
    answers: bool,
    decision: Option<oneshot::Receiver<Option<String>>>,
    prompts: Vec<String>,
    over: bool,
}

struct Rig {
    manager: AgentManager,
    sessions: Vec<Running>,
    events: Vec<AgentEvent>,
    writes: RefCell<Vec<(Location, String)>>,
    killed: Vec<u32>,
    next_pid: u32,
}

impl Rig {
    fn new() -> Self {
        Rig {
            manager: AgentManager::new(),
            sessions: vec![],
            events: vec![],
            writes: RefCell::new(vec![]),
            killed: vec![],
            next_pid: 100,
        }
    }

    /// Starts a session with an agent that answers or not.
    fn start(&mut self, workspace: &str, answers: bool) {
        let (doomed, outcome) = self
            .manager
            .start(config("mock"), Some(file_path(workspace)));
        self.killed.extend(doomed);
        match outcome {
            StartOutcome::Launch(mut launch) => {
                let starting = std::mem::replace(
                    &mut launch.event,
                    AgentEvent::Error {
                        message: String::new(),
                    },
                );
                self.events.push(starting);
                let pid = self.next_pid;
                self.next_pid += 1;
                assert_eq!(
                    self.manager.attach_process(launch.generation, pid),
                    Attached::Guarded
                );
                self.sessions.push(Running {
                    session: Session::new(),
                    launch,
                    answers,
                    decision: None,
                    prompts: vec![],
                    over: false,
                });
            }
            StartOutcome::Refused(event) => panic!("refused: {event:?}"),
        }
    }

    fn prompt(&mut self, text: &str) {
        let undelivered = self.manager.prompt(text.to_string(), vec![]);
        self.events.extend(undelivered.map(|report| report.event));
    }

    fn stop(&mut self) {
        self.killed.extend(self.manager.stop());
    }

    /// What happens next to a session, if anything.
    fn next_input(&mut self, index: usize) -> Option<SessionInput> {
        let running = &mut self.sessions[index];
        match running.launch.commands.try_recv() {
            Ok(command) => return Some(SessionInput::Command(command)),
            Err(TryRecvError::Closed) => return Some(SessionInput::CommandsClosed),
            Err(TryRecvError::Empty) => {}
        }
        if !running.answers {
            return None;
        }
        match running.session.phase() {
            Phase::Initializing => return Some(SessionInput::Initialized),
            Phase::Opening => {
                return Some(SessionInput::Opened {
                    session_id: "mock-session".to_string(),
                })
            }
            _ => {}
        }
        let decided = match running.decision.as_mut().map(|rx| rx.try_recv()) {
            Some(Ok(Some(decision))) => Some(decision),
            Some(Ok(None)) | None => return None,
            Some(Err(_)) => None,
        };
        running.decision = None;
        let allowed =
            permission_outcome(decided) == PermissionOutcome::Selected("allow".to_string());
        if allowed {
            let write = |at: &Location, content: &str| {
                self.writes
                    .borrow_mut()
                    .push((at.clone(), content.to_string()));
                Ok(())
            };
            let written = running.launch.env.write_file(
                &file_path("/mock/out.txt"),
                "written by mock",
                &nothing_exists,
                &write,
            );
            if let Err(error) = written {
                return Some(SessionInput::TurnFailed { error });
            }
        }
        Some(SessionInput::TurnEnded {
            stop_reason: "EndTurn".to_string(),
        })
    }

    fn act(&mut self, index: usize, action: SessionAction) {
        match action {
            SessionAction::OpenSession => {}
            SessionAction::Emit(event) => self.events.push(event),
            SessionAction::StartTurn {
                session_id,
                text,
                contexts,
            } => {
                assert_eq!(session_id, "mock-session");
                let read = |_: &Location| Ok(String::new());
                let prompt = self.sessions[index].launch.env.prompt_text(
                    &text,
                    contexts,
                    &nothing_exists,
                    &read,
                );
                self.sessions[index].prompts.push(prompt);
                let chunk =
                    SessionUpdate::AgentMessageChunk(ContentBlock::Text("hello".to_string()));
                self.events.extend(map_update(chunk));
                let (event, decision) = self.manager.ask_permission(&mock_request());
                self.events.push(event);
                self.sessions[index].decision = Some(decision);
            }
            SessionAction::CancelPermissions => self.manager.cancel_permissions(),
            SessionAction::SendCancel { session_id } => assert_eq!(session_id, "mock-session"),
            SessionAction::Finish(result) => {
                let running = &mut self.sessions[index];
                running.over = true;
                let outcome = match result {
                    Ok(()) => SessionOutcome::Closed,
                    Err(error) => SessionOutcome::Failed(error),
                };
                let generation = running.launch.generation;
                self.killed.extend(self.manager.release_process(generation));
                self.events.extend(self.manager.session_ended(
                    generation,
                    outcome,
                    &running.launch.config.command,
                    &running.launch.config.args,
                ));
            }
        }
    }

    /// Runs every session until nothing more happens.
    fn run(&mut self) {
        for index in 0..self.sessions.len() {
            while !self.sessions[index].over {
                let Some(input) = self.next_input(index) else {
                    break;
                };
                for action in self.sessions[index].session.step(input) {
                    self.act(index, action);
                }
            }
        }
    }

    fn requested(&self) -> u64 {
        self.events
            .iter()
            .find_map(|event| match event {
                AgentEvent::PermissionRequest { request_id, .. } => Some(*request_id),
                _ => None,
            })
            .unwrap()
    }

    fn disconnections(&self) -> usize {
        self.events
            .iter()
            .filter(|event| {
                matches!(
                    event,
                    AgentEvent::Status {
                        status: AgentStatus::Disconnected { .. }
                    }
                )
            })
            .count()
    }

    fn readies(&self) -> usize {
        self.events
            .iter()
            .filter(|event| {
                matches!(
                    event,
                    AgentEvent::Status {
                        status: AgentStatus::Ready
                    }
                )
            })
            .count()
    }
}

#[test]
fn allowed_permission_lets_the_agent_write_and_finish() {
    let mut rig = Rig::new();
    rig.start("/mock", true);
    rig.prompt("go");
    rig.run();

    let request_id = rig.requested();
    assert!(rig
        .manager
        .permission_reply(request_id, Some("allow".to_string())));
    rig.run();
    assert_eq!(
        rig.events.last(),
        Some(&AgentEvent::TurnEnded {
            stop_reason: "EndTurn".to_string()
        })
    );

    let writes = rig.writes.borrow();
    assert_eq!(writes.len(), 1);
    assert_eq!(writes[0].0, location("/mock/out.txt"));
    assert_eq!(writes[0].1, "written by mock");
}

#[test]
fn rejected_permission_prevents_the_write() {
    let mut rig = Rig::new();
    rig.start("/mock", true);
    rig.prompt("go");
    rig.run();

    let request_id = rig.requested();
    rig.manager.permission_reply(request_id, None);
    rig.run();

    assert!(matches!(
        rig.events.last(),
        Some(AgentEvent::TurnEnded { .. })
    ));
    assert!(rig.writes.borrow().is_empty());
}

#[test]
fn stopping_with_a_pending_permission_does_not_hang_the_agent() {
    let mut rig = Rig::new();
    rig.start("/mock", true);
    rig.prompt("go");
    rig.run();
    rig.requested();

    rig.stop();
    rig.run();

    assert_eq!(rig.disconnections(), 1);
    let decision = rig.sessions[0].decision.as_mut().unwrap();
    assert!(decision.try_recv().is_err());
    assert!(rig.writes.borrow().is_empty());
}

#[test]
fn restarting_does_not_report_the_replaced_session_as_disconnected() {
    let mut rig = Rig::new();
    rig.start("/mock", true);
    rig.run();
    assert_eq!(rig.readies(), 1);

    rig.start("/mock", true);
    rig.run();
    assert_eq!(rig.readies(), 2);
    assert!(rig.sessions[0].over);
    assert_eq!(rig.disconnections(), 0);
    assert_eq!(rig.killed, vec![100]);
}

#[test]
fn stopping_an_agent_that_never_answers_the_handshake_disconnects_and_kills_it() {
    let mut rig = Rig::new();
    rig.start("/mock", false);
    rig.run();

    rig.stop();
    rig.run();

    assert_eq!(rig.readies(), 0, "a silent agent cannot become ready");
    assert_eq!(rig.disconnections(), 1);
    assert_eq!(rig.killed, vec![100]);
}

#[test]
fn stopping_a_ready_session_kills_the_agent_process() {
    let mut rig = Rig::new();
    rig.start("/mock", true);
    rig.run();
    assert_eq!(rig.readies(), 1);
    assert!(rig.killed.is_empty());

    rig.stop();
    rig.run();

    assert_eq!(rig.disconnections(), 1);
    assert_eq!(rig.killed, vec![100]);
}

#[test]
fn write_outside_the_workspace_is_refused_by_the_path_guard() {
    let mut rig = Rig::new();
    // The mock writes /mock/out.txt, which is outside this workspace.
    rig.start("/other", true);
    rig.prompt("go");
    rig.run();

    let request_id = rig.requested();
    rig.manager
        .permission_reply(request_id, Some("allow".to_string()));
    rig.run();

    assert_eq!(
        rig.events.last(),
        Some(&AgentEvent::Error {
            message: "Prompt failed: path is outside the workspace: /mock/out.txt".to_string()
        })
    );
    assert!(rig.writes.borrow().is_empty());
}

#[test]
fn missing_agent_binary_reports_disconnected_with_a_reason() {
    let mut manager = AgentManager::new();
    let (_, outcome) = manager.start(
        config("definitely-not-a-real-agent-binary"),
        Some(file_path("/mock")),
    );
    let generation = match outcome {
        StartOutcome::Launch(launch) => launch.generation,
        StartOutcome::Refused(event) => panic!("refused: {event:?}"),
    };
    let event = manager.session_ended(
        generation,
        SessionOutcome::SpawnFailed("No such file".to_string()),
        "definitely-not-a-real-agent-binary",
        &[],
    );
    match event {
        Some(AgentEvent::Status {
            status: AgentStatus::Disconnected { reason },
        }) => {
            assert!(!reason.is_empty());
            assert_eq!(
                reason,
                "cannot start definitely-not-a-real-agent-binary: No such file"
            );
        }
        other => panic!("unexpected event: {other:?}"),
    }
}

#[test]
fn the_reason_of_a_disconnection() {
    assert_eq!(
        disconnect_reason(SessionOutcome::Closed, "npx", &[]),
        "session closed"
    );
    assert_eq!(
        disconnect_reason(SessionOutcome::Failed("exit 1".to_string()), "npx", &[]),
        "exit 1"
    );
    assert_eq!(
        disconnect_reason(
            SessionOutcome::SpawnFailed("No such file".to_string()),
            "npx",
            &["-y".to_string()],
        ),
        "cannot start npx -y: No such file"
    );
}

#[test]
fn a_start_without_a_folder_is_refused() {
    let mut manager = AgentManager::new();
    match manager.start(config("mock"), None) {
        (None, StartOutcome::Refused(event)) => assert_eq!(
            event,
            AgentEvent::Error {
                message: "Open a folder before starting the agent".to_string()
            }
        ),
        _ => panic!("a session was started"),
    }
    assert!(!manager.cancel());
}

/// Checks that the prompt "hi" came back with the event that no agent is running.
fn assert_comes_back(report: Option<Undelivered>) {
    let report = report.unwrap();
    assert_eq!(
        report.event,
        AgentEvent::Error {
            message: "The agent is not running".to_string()
        }
    );
    match report.command {
        SessionCommand::Prompt { text, contexts } => {
            assert_eq!(text, "hi");
            assert_eq!(contexts.len(), 1);
            assert_eq!(contexts[0].selection.as_deref(), Some("x"));
        }
        other => panic!("unexpected: {other:?}"),
    }
}

#[test]
fn a_prompt_without_a_session_is_reported() {
    let contexts = || {
        vec![AgentContext {
            path: file_path("/mock/a"),
            selection: Some("x".to_string()),
        }]
    };
    let mut manager = AgentManager::new();
    assert_comes_back(manager.prompt("hi".to_string(), contexts()));
    let launched = manager.start(config("mock"), Some(file_path("/mock")));
    assert!(manager.prompt("hi".to_string(), contexts()).is_none());
    assert!(manager.cancel());
    // The session is over, and its receiver is gone.
    drop(launched);
    assert_comes_back(manager.prompt("hi".to_string(), contexts()));
    assert!(!manager.cancel());
    assert!(delivery_report(Ok(())).is_none());
    assert!(matches!(
        delivery_report(Err(SessionCommand::Cancel)).unwrap().command,
        SessionCommand::Cancel
    ));
}

#[test]
fn the_prompt_and_the_cancellation_arrive_in_order() {
    let mut manager = AgentManager::new();
    let (_, outcome) = manager.start(config("mock"), Some(file_path("/mock")));
    let StartOutcome::Launch(mut launch) = outcome else {
        panic!("refused");
    };
    assert!(manager.prompt("hi".to_string(), vec![]).is_none());
    assert!(manager.cancel());
    match launch.commands.try_recv() {
        Ok(SessionCommand::Prompt { text, contexts }) => {
            assert_eq!(text, "hi");
            assert!(contexts.is_empty());
        }
        other => panic!("unexpected: {other:?}"),
    }
    assert!(matches!(
        launch.commands.try_recv(),
        Ok(SessionCommand::Cancel)
    ));
    assert_eq!(manager.stop(), None);
    assert!(matches!(
        launch.commands.try_recv(),
        Err(TryRecvError::Closed)
    ));
}

#[test]
fn a_process_that_comes_late_is_killed() {
    let mut manager = AgentManager::new();
    manager.start(config("mock"), Some(file_path("/mock")));
    // The first session is replaced before its process is there.
    manager.start(config("mock"), Some(file_path("/mock")));
    assert_eq!(manager.attach_process(1, 41), Attached::KillNow(41));
    assert_eq!(manager.attach_process(2, 42), Attached::Guarded);
    assert_eq!(manager.release_process(1), None);
    assert_eq!(manager.stop(), Some(42));
    assert_eq!(manager.attach_process(2, 43), Attached::KillNow(43));
    assert_eq!(manager.release_process(2), None);
}

#[test]
fn a_second_prompt_during_a_turn_is_dropped_and_a_cancel_cancels() {
    let mut rig = Rig::new();
    rig.start("/mock", true);
    rig.prompt("one");
    rig.prompt("two");
    rig.run();
    assert_eq!(rig.sessions[0].prompts, vec!["one".to_string()]);

    assert!(rig.manager.cancel());
    rig.run();
    // The request was dropped, so the mock ended its turn without writing.
    assert!(matches!(
        rig.events.last(),
        Some(AgentEvent::TurnEnded { .. })
    ));
    assert!(rig.writes.borrow().is_empty());

    // A cancellation without a turn does nothing, and the next prompt runs.
    assert!(rig.manager.cancel());
    rig.prompt("three");
    rig.run();
    assert_eq!(
        rig.sessions[0].prompts,
        vec!["one".to_string(), "three".to_string()]
    );
}

fn session_in(inputs: Vec<SessionInput>) -> Session {
    let mut session = Session::new();
    for input in inputs {
        session.step(input);
    }
    session
}

fn opened() -> SessionInput {
    SessionInput::Opened {
        session_id: "s".to_string(),
    }
}

fn prompt_command() -> SessionInput {
    SessionInput::Command(SessionCommand::Prompt {
        text: "p".to_string(),
        contexts: vec![],
    })
}

#[test]
fn a_refused_handshake_ends_the_session() {
    for before in [vec![], vec![SessionInput::Initialized]] {
        let mut session = session_in(before);
        let actions = session.step(SessionInput::Refused {
            error: "no".to_string(),
        });
        assert_eq!(actions.len(), 1);
        assert!(matches!(
            &actions[0],
            SessionAction::Finish(Err(error)) if error == "no"
        ));
        assert_eq!(session.phase(), Phase::Closed);
        assert!(session.step(SessionInput::CommandsClosed).is_empty());
    }
}

#[test]
fn a_cancellation_that_cannot_be_sent_ends_the_session() {
    let mut session = session_in(vec![SessionInput::Initialized, opened(), prompt_command()]);
    assert_eq!(session.phase(), Phase::Prompting);
    let actions = session.step(SessionInput::Command(SessionCommand::Cancel));
    assert!(matches!(actions[0], SessionAction::CancelPermissions));
    assert!(matches!(
        &actions[1],
        SessionAction::SendCancel { session_id } if session_id == "s"
    ));
    let actions = session.step(SessionInput::CancelFailed {
        error: "gone".to_string(),
    });
    assert!(matches!(
        &actions[0],
        SessionAction::Finish(Err(error)) if error == "gone"
    ));
}

#[test]
fn a_lost_connection_ends_the_session_in_every_phase() {
    for before in [
        vec![],
        vec![SessionInput::Initialized],
        vec![SessionInput::Initialized, opened()],
        vec![SessionInput::Initialized, opened(), prompt_command()],
    ] {
        let mut session = session_in(before);
        let actions = session.step(SessionInput::ConnectionLost {
            error: "exit 1".to_string(),
        });
        assert!(matches!(
            &actions[0],
            SessionAction::Finish(Err(error)) if error == "exit 1"
        ));
        assert_eq!(session.phase(), Phase::Closed);
    }
}

#[test]
fn early_commands_are_done_once_the_session_is_open() {
    let mut session = session_in(vec![
        SessionInput::Command(SessionCommand::Cancel),
        prompt_command(),
        SessionInput::Initialized,
        SessionInput::Command(SessionCommand::Cancel),
        prompt_command(),
    ]);
    assert_eq!(session.phase(), Phase::Opening);
    let actions = session.step(opened());
    assert_eq!(actions.len(), 4);
    assert!(matches!(
        actions[0],
        SessionAction::Emit(AgentEvent::Status {
            status: AgentStatus::Ready
        })
    ));
    assert!(matches!(&actions[1], SessionAction::StartTurn { text, .. } if text == "p"));
    assert!(matches!(actions[2], SessionAction::CancelPermissions));
    assert!(matches!(actions[3], SessionAction::SendCancel { .. }));
    assert_eq!(session.phase(), Phase::Prompting);
}

#[test]
fn what_is_out_of_place_is_ignored() {
    let mut session = Session::new();
    assert!(session.step(opened()).is_empty());
    assert!(session
        .step(SessionInput::TurnEnded {
            stop_reason: "EndTurn".to_string()
        })
        .is_empty());
    assert_eq!(session.phase(), Phase::Initializing);
    let mut session = session_in(vec![SessionInput::Initialized, opened()]);
    assert!(session.step(SessionInput::Initialized).is_empty());
    assert!(session
        .step(SessionInput::TurnFailed {
            error: "late".to_string()
        })
        .is_empty());
    assert!(session
        .step(SessionInput::CancelFailed {
            error: "late".to_string()
        })
        .is_empty());
    assert_eq!(session.phase(), Phase::Idle);
}

fn env() -> SessionEnv {
    SessionEnv {
        workspace: file_path("/ws"),
    }
}

#[test]
fn a_read_is_guarded_and_sliced() {
    let read = |at: &Location| {
        if *at == location("/ws/a.rs") {
            Ok("a\nb\nc\n".to_string())
        } else {
            Err("no such file".to_string())
        }
    };
    let ask = |path: &str, line, limit| {
        env().read_file(&file_path(path), line, limit, &nothing_exists, &read)
    };
    assert_eq!(ask("/ws/./a.rs", None, None).unwrap(), "a\nb\nc\n");
    assert_eq!(ask("/ws/a.rs", Some(2), Some(1)).unwrap(), "b\n");
    assert_eq!(ask("/ws/b.rs", None, None).unwrap_err(), "no such file");
    assert_eq!(
        ask("/etc/passwd", None, None).unwrap_err(),
        "path is outside the workspace: /etc/passwd"
    );
}

#[test]
fn nothing_outside_the_workspace_is_touched() {
    let never_read = |_: &Location| -> Result<String, String> { panic!("read") };
    let never_write = |_: &Location, _: &str| -> Result<(), String> { panic!("written") };
    for path in ["/etc/passwd", "/ws/../etc/passwd", "a.rs", "/ws-evil/a", "/.."] {
        let path = file_path(path);
        assert!(env()
            .read_file(&path, None, None, &nothing_exists, &never_read)
            .is_err());
        assert!(env()
            .write_file(&path, "x", &nothing_exists, &never_write)
            .is_err());
    }
}

#[test]
fn contexts_are_read_unless_a_selection_stands_for_them() {
    let context = |path: &str, selection: Option<&str>| AgentContext {
        path: file_path(path),
        selection: selection.map(str::to_string),
    };
    let read = |at: &Location| {
        if *at == location("/ws/a.rs") {
            Ok("whole file".to_string())
        } else {
            Err("no such file".to_string())
        }
    };
    let contexts = vec![
        context("/ws/a.rs", Some("let x = 1;")),
        context("/ws/a.rs", None),
        context("/ws/missing.rs", None),
        context("/etc/passwd", None),
    ];
    let prompt = env().prompt_text("why?", contexts, &nothing_exists, &read);
    assert_eq!(
        prompt,
        "Context from /ws/a.rs (selection):\n```\nlet x = 1;\n```\n\n\
         Context from /ws/a.rs (file):\n```\nwhole file\n```\n\nwhy?"
    );
    let contexts = vec![
        context("/ws/missing.rs", None),
        context("/ws/a.rs", Some("let x = 1;")),
        context("/etc/passwd", None),
        context("/ws/a.rs", None),
    ];
    let resolved = env().resolve_contexts(contexts, &nothing_exists, &read);
    assert_eq!(resolved.len(), 2);
    assert_eq!(resolved[0].selection.as_deref(), Some("let x = 1;"));
    assert_eq!(resolved[0].content, None);
    assert_eq!(resolved[1].path, file_path("/ws/a.rs"));
    assert_eq!(resolved[1].selection, None);
    assert_eq!(resolved[1].content.as_deref(), Some("whole file"));
}

#[test]
fn items_that_cannot_be_read_are_skipped() {
    let context = |path: &str| AgentContext {
        path: file_path(path),
        selection: None,
    };
    let fails = |_: &Location| -> Result<String, String> { Err("no such file".to_string()) };
    let resolved = env().resolve_contexts(vec![context("/ws/a.rs")], &nothing_exists, &fails);
    assert!(resolved.is_empty());
    let never_read = |_: &Location| -> Result<String, String> { panic!("read") };
    let resolved =
        env().resolve_contexts(vec![context("/etc/passwd")], &nothing_exists, &never_read);
    assert!(resolved.is_empty());
}

#[test]
fn nothing_is_written_through_a_link_to_nothing() {
    let never_write = |_: &Location, _: &str| -> Result<(), String> { panic!("written") };
    let link = |at: &Location| {
        if *at == location("/ws/link") {
            Lookup::Dangling
        } else {
            Lookup::Missing
        }
    };
    assert_eq!(
        env()
            .write_file(&file_path("/ws/link"), "x", &link, &never_write)
            .unwrap_err(),
        "path escapes the workspace through a link: /ws/link"
    );
}
