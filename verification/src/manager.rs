//! Owns the agent's session and forwards the panel's commands to it.

use futures::channel::{mpsc, oneshot};
use vstd::prelude::*;

use crate::command::{command_line, describe_command};
use crate::events::{
    attachments_view, options_view, AgentContext, AgentEvent, AgentRequestId, AgentServerConfig,
    AgentStatus, EventView, StatusView,
};
use crate::mapping::{opt_event, shown_options, shown_title, RequestPermissionRequest};
use crate::paths::FilePath;
use crate::permission::{
    connected, fresh_broker, registered, reply_owed, stepped, BrokerStep, PermissionBroker,
};
use crate::process::{AgentProcess, Attached, Guard, GuardOp};
use crate::session::{request_permission, CommandView, SessionCommand, SessionEnv};
use crate::text::texts;

verus! {

/// Declares the sending half of an unbounded channel.
#[verifier::external_type_specification]
#[verifier::external_body]
#[verifier::reject_recursive_types(T)]
pub struct ExUnboundedSender<T>(mpsc::UnboundedSender<T>);

/// Declares the receiving half of an unbounded channel.
#[verifier::external_type_specification]
#[verifier::external_body]
#[verifier::reject_recursive_types(T)]
pub struct ExUnboundedReceiver<T>(mpsc::UnboundedReceiver<T>);

/// What `futures::channel::mpsc::UnboundedSender::is_connected_to` says: whether the sender sends
/// to this receiver.
pub uninterp spec fn sends_to(
    sender: mpsc::UnboundedSender<SessionCommand>,
    receiver: mpsc::UnboundedReceiver<SessionCommand>,
) -> bool;

/// Calls `futures::channel::mpsc::unbounded`, which creates the two connected halves of a new
/// channel.
#[verifier::external_body]
fn command_channel() -> (r: (
    mpsc::UnboundedSender<SessionCommand>,
    mpsc::UnboundedReceiver<SessionCommand>,
))
    ensures
        sends_to(r.0, r.1),
{
    mpsc::unbounded()
}

/// Declares the error of a message that could not be sent.
#[verifier::external_type_specification]
#[verifier::external_body]
#[verifier::reject_recursive_types(T)]
pub struct ExTrySendError<T>(mpsc::TrySendError<T>);

/// Specifies `futures::channel::mpsc::TrySendError::into_inner`, which takes the message out of
/// the error. Which message that is, is said where the error comes from.
pub assume_specification<T>[ mpsc::TrySendError::<T>::into_inner ](
    err: mpsc::TrySendError<T>,
) -> (r: T)
;

/// Specifies `futures::channel::mpsc::UnboundedSender::unbounded_send`: when the receiver is
/// gone, the error holds the message. Whether it is gone is not for the sender to decide, so
/// nothing is said of that.
pub assume_specification<T>[ mpsc::UnboundedSender::<T>::unbounded_send ](
    sender: &mpsc::UnboundedSender<T>,
    msg: T,
) -> (r: Result<(), mpsc::TrySendError<T>>)
    ensures
        r matches Err(err) ==> forall|back: T| #[trigger]
            call_ensures(mpsc::TrySendError::<T>::into_inner, (err,), back) ==> back == msg,
;

/// How a session ended.
#[derive(Debug, PartialEq)]
pub enum SessionOutcome {
    /// The command channel was closed.
    Closed,
    /// The agent's process could not be started.
    SpawnFailed(String),
    /// The agent refused the session, or died.
    Failed(String),
}

/// Why a session that ended like this is disconnected.
pub open spec fn reason_text(
    outcome: SessionOutcome,
    command: Seq<char>,
    args: Seq<Seq<char>>,
) -> Seq<char> {
    match outcome {
        SessionOutcome::Closed => "session closed"@,
        SessionOutcome::SpawnFailed(error) => "cannot start "@ + command_line(command, args)
            + ": "@ + error@,
        SessionOutcome::Failed(error) => error@,
    }
}

/// Why a session that ended like this is disconnected: for a process that could not be started,
/// the command that was tried and the exact error.
pub fn disconnect_reason(outcome: SessionOutcome, command: &str, args: &[String]) -> (r: String)
    ensures
        r@ == reason_text(outcome, command@, texts(args@)),
{
    match outcome {
        SessionOutcome::Closed => "session closed".to_owned(),
        SessionOutcome::SpawnFailed(error) => "cannot start ".to_owned().concat(
            describe_command(command, args).as_str(),
        ).concat(": ").concat(error.as_str()),
        SessionOutcome::Failed(error) => error,
    }
}

/// The event of a session of `generation` that ended for `reason` while the current one is
/// `current`: none where the session was replaced.
pub open spec fn end_event(current: u64, generation: u64, reason: Seq<char>) -> Option<EventView> {
    if generation == current {
        Some(EventView::Status { status: StatusView::Disconnected { reason } })
    } else {
        None
    }
}

/// A command that no session took, and the event that says so.
#[derive(Debug)]
pub struct Undelivered {
    pub event: AgentEvent,
    pub command: SessionCommand,
}

/// Whether `r` is what is owed for a command that was handed over with this result: nothing where
/// a session took it, and otherwise the command with the event that no agent is running.
pub open spec fn report_owed(
    handed: Result<(), SessionCommand>,
    r: Option<Undelivered>,
) -> bool {
    match handed {
        Ok(_) => r is None,
        Err(back) => {
            &&& r matches Some(report)
            &&& report.event@ == (EventView::Error { message: "The agent is not running"@ })
            &&& report.command@ == back@
        },
    }
}

/// The report of a command that was handed over with this result.
pub fn delivery_report(handed: Result<(), SessionCommand>) -> (r: Option<Undelivered>)
    ensures
        report_owed(handed, r),
{
    match handed {
        Ok(()) => None,
        Err(command) => Some(
            Undelivered {
                event: AgentEvent::Error { message: "The agent is not running".to_owned() },
                command,
            },
        ),
    }
}

/// A session to be run.
pub struct SessionLaunch {
    /// The event that the session is starting.
    pub event: AgentEvent,
    /// The generation of the session, by which it is known when it ends.
    pub generation: u64,
    /// How to launch the agent's process.
    pub config: AgentServerConfig,
    /// What the session needs to serve file requests.
    pub env: SessionEnv,
    /// The commands for the session.
    pub commands: mpsc::UnboundedReceiver<SessionCommand>,
}

/// What is to be done on a start.
pub enum StartOutcome {
    /// No session is started, and the panel is told why.
    Refused(AgentEvent),
    /// The session is run.
    Launch(SessionLaunch),
}

/// Owns the agent's session and forwards the panel's commands to it.
pub struct AgentManager {
    broker: PermissionBroker,
    process: AgentProcess,
    cmd_tx: Option<mpsc::UnboundedSender<SessionCommand>>,
    /// Generation of the current session. Only `start` bumps it, so a session replaced by a
    /// restart stays silent when it ends, while a stopped one still reports that it is
    /// disconnected.
    generation: u64,
}

impl AgentManager {
    /// Where commands for the running session are sent.
    pub closed spec fn commands(&self) -> Option<mpsc::UnboundedSender<SessionCommand>> {
        self.cmd_tx
    }

    /// The generation of the current session.
    pub closed spec fn current(&self) -> u64 {
        self.generation
    }

    /// The permission requests of the current session.
    pub closed spec fn requests(&self) -> PermissionBroker {
        self.broker
    }

    /// The process of the current session.
    pub closed spec fn guard(&self) -> Guard {
        self.process@
    }

    /// Whether all is as in `other` but for the permission requests.
    pub open spec fn same_but_requests(&self, other: &AgentManager) -> bool {
        &&& self.commands() == other.commands()
        &&& self.current() == other.current()
        &&& self.guard() == other.guard()
    }

    /// Whether the session of `before` was stopped: its pending permissions are rejected, its
    /// command channel is closed, and its process is killed.
    pub open spec fn stopped(&self, before: &AgentManager) -> bool {
        &&& self.requests()@ == stepped(before.requests()@, BrokerStep::CancelAll)
        &&& self.commands() is None
        &&& self.guard() == before.guard().after(GuardOp::Kill)
        &&& self.current() == before.current()
    }

    /// Creates a manager with no running session.
    pub fn new() -> (r: Self)
        ensures
            r.commands() is None,
            r.current() == 0,
            r.guard() == Guard::fresh(),
            r.requests()@ == fresh_broker(),
    {
        AgentManager {
            broker: PermissionBroker::new(),
            process: AgentProcess::new(),
            cmd_tx: None,
            generation: 0,
        }
    }

    /// Whether another session can be started: there is a generation for it.
    pub fn can_start(&self) -> (r: bool)
        ensures
            r == (self.current() < u64::MAX),
    {
        self.generation < u64::MAX
    }

    /// Stops the session: rejects pending permissions, closes the command channel, and returns
    /// the pid that leads the process tree to be killed.
    pub fn stop(&mut self) -> (r: Option<u32>)
        ensures
            final(self).stopped(old(self)),
            r == old(self).guard().to_kill(GuardOp::Kill),
    {
        self.broker.cancel_all();
        self.cmd_tx = None;
        self.process.kill()
    }

    /// Starts a session, replacing any running one. The session works on `workspace`, without
    /// which none is started. Also returns the pid that leads the process tree of the replaced
    /// session, which is to be killed.
    pub fn start(&mut self, config: AgentServerConfig, workspace: Option<FilePath>) -> (r: (
        Option<u32>,
        StartOutcome,
    ))
        requires
            old(self).current() < u64::MAX,
        ensures
            r.0 == old(self).guard().to_kill(GuardOp::Kill),
            match (workspace, r.1) {
                (None, StartOutcome::Refused(event)) => {
                    &&& event@ == (EventView::Error {
                        message: "Open a folder before starting the agent"@,
                    })
                    &&& final(self).stopped(old(self))
                },
                (Some(root), StartOutcome::Launch(launch)) => {
                    &&& launch.event@ == (EventView::Status { status: StatusView::Starting })
                    &&& launch.generation == old(self).current() + 1
                    &&& launch.config == config
                    &&& launch.env.workspace == root
                    &&& final(self).current() == launch.generation
                    &&& final(self).commands() is Some
                    &&& sends_to(final(self).commands()->0, launch.commands)
                    &&& final(self).guard() == Guard::fresh()
                    &&& final(self).requests()@ == stepped(
                        old(self).requests()@,
                        BrokerStep::CancelAll,
                    )
                },
                _ => false,
            },
    {
        let doomed = self.stop();
        let workspace = match workspace {
            Some(workspace) => workspace,
            None => {
                return (
                    doomed,
                    StartOutcome::Refused(
                        AgentEvent::Error {
                            message: "Open a folder before starting the agent".to_owned(),
                        },
                    ),
                );
            },
        };
        self.generation = self.generation + 1;
        self.process = AgentProcess::new();
        let (cmd_tx, commands) = command_channel();
        self.cmd_tx = Some(cmd_tx);
        let launch = SessionLaunch {
            event: AgentEvent::Status { status: AgentStatus::Starting },
            generation: self.generation,
            config,
            env: SessionEnv { workspace },
            commands,
        };
        (doomed, StartOutcome::Launch(launch))
    }

    /// Records the process that the session of `generation` spawned. The process of a session
    /// that was stopped or replaced in the meantime is to be killed at once.
    pub fn attach_process(&mut self, generation: u64, pid: u32) -> (r: Attached)
        ensures
            final(self).commands() == old(self).commands(),
            final(self).current() == old(self).current(),
            final(self).requests() == old(self).requests(),
            if generation == old(self).current() {
                &&& final(self).guard() == old(self).guard().after(GuardOp::Attach(pid))
                &&& r == match old(self).guard().to_kill(GuardOp::Attach(pid)) {
                    Some(now) => Attached::KillNow(now),
                    None => Attached::Guarded,
                }
            } else {
                final(self).guard() == old(self).guard() && r == Attached::KillNow(pid)
            },
    {
        if generation == self.generation {
            self.process.attach(pid)
        } else {
            Attached::KillNow(pid)
        }
    }

    /// Forgets the process of the session of `generation`, which ended, and returns the pid that
    /// leads the process tree to be killed. That of a session that was stopped or replaced was
    /// killed then.
    pub fn release_process(&mut self, generation: u64) -> (r: Option<u32>)
        ensures
            final(self).commands() == old(self).commands(),
            final(self).current() == old(self).current(),
            final(self).requests() == old(self).requests(),
            if generation == old(self).current() {
                &&& final(self).guard() == old(self).guard().after(GuardOp::Release)
                &&& r == old(self).guard().to_kill(GuardOp::Release)
            } else {
                final(self).guard() == old(self).guard() && r is None
            },
    {
        if generation == self.generation {
            self.process.release()
        } else {
            None
        }
    }

    /// The event that the session of `generation` ended. A session that was replaced by another
    /// one is silent.
    pub fn session_ended(
        &self,
        generation: u64,
        outcome: SessionOutcome,
        command: &str,
        args: &[String],
    ) -> (r: Option<AgentEvent>)
        ensures
            opt_event(r) == end_event(
                self.current(),
                generation,
                reason_text(outcome, command@, texts(args@)),
            ),
    {
        if generation != self.generation {
            return None;
        }
        Some(
            AgentEvent::Status {
                status: AgentStatus::Disconnected {
                    reason: disconnect_reason(outcome, command, args),
                },
            },
        )
    }

    /// Hands a command to the running session. It comes back where there is none, and where the
    /// session is over: that rests with the session, which holds the other end of the channel.
    pub fn hand_over(&self, command: SessionCommand) -> (r: Result<(), SessionCommand>)
        ensures
            self.commands() is None ==> r is Err,
            self.commands() matches Some(tx) ==> exists|
                sent: Result<(), mpsc::TrySendError<SessionCommand>>,
            | #[trigger]
                call_ensures(
                    mpsc::UnboundedSender::<SessionCommand>::unbounded_send,
                    (&tx, command),
                    sent,
                ) && (r is Ok <==> sent is Ok),
            r matches Err(back) ==> back@ == command@,
    {
        match &self.cmd_tx {
            None => Err(command),
            Some(tx) => match tx.unbounded_send(command) {
                Ok(()) => Ok(()),
                Err(err) => Err(err.into_inner()),
            },
        }
    }

    /// Sends a prompt to the running session. Without one, and where the session is over, the
    /// prompt comes back with the event that says so.
    pub fn prompt(&self, text: String, contexts: Vec<AgentContext>) -> (r: Option<Undelivered>)
        ensures
            exists|handed: Result<(), SessionCommand>| #[trigger]
                call_ensures(
                    AgentManager::hand_over,
                    (self, SessionCommand::Prompt { text, contexts }),
                    handed,
                ) && report_owed(handed, r),
            self.commands() is None ==> r is Some,
            r matches Some(report) ==> report.command@ == (CommandView::Prompt {
                text: text@,
                contexts: attachments_view(contexts@),
            }),
    {
        let ghost command = SessionCommand::Prompt { text, contexts };
        let handed = self.hand_over(SessionCommand::Prompt { text, contexts });
        assert(call_ensures(AgentManager::hand_over, (self, command), handed));
        delivery_report(handed)
    }

    /// Cancels the running turn. Returns whether a session was told: whether it took the command
    /// to cancel when that was handed over.
    pub fn cancel(&self) -> (r: bool)
        ensures
            exists|handed: Result<(), SessionCommand>| #[trigger]
                call_ensures(AgentManager::hand_over, (self, SessionCommand::Cancel), handed) && r
                    == (handed is Ok),
            self.commands() is None ==> !r,
    {
        let handed = self.hand_over(SessionCommand::Cancel);
        assert(call_ensures(AgentManager::hand_over, (self, SessionCommand::Cancel), handed));
        match handed {
            Ok(()) => true,
            Err(_) => false,
        }
    }

    /// Registers a permission request of the agent, and returns the event that shows it and the
    /// receiver of the user's decision.
    pub fn ask_permission(&mut self, req: &RequestPermissionRequest) -> (r: (
        AgentEvent,
        oneshot::Receiver<Option<String>>,
    ))
        ensures
            final(self).same_but_requests(old(self)),
            ({
                let id = old(self).requests()@.upcoming;
                &&& r.0@ == (EventView::PermissionRequest {
                    request_id: id,
                    title: shown_title(*req),
                    options: shown_options(req.options@),
                })
                &&& registered(old(self).requests()@, final(self).requests()@, id, r.1)
            }),
    {
        request_permission(&mut self.broker, req)
    }

    /// Answers a pending permission request. `None` rejects it.
    pub fn permission_reply(&mut self, request_id: AgentRequestId, option_id: Option<String>) -> (r:
        bool)
        ensures
            final(self).same_but_requests(old(self)),
            reply_owed(old(self).requests()@, request_id, option_id, r),
            final(self).requests()@ == stepped(
                old(self).requests()@,
                BrokerStep::Answer { id: request_id },
            ),
    {
        self.broker.reply(request_id, option_id)
    }

    /// Rejects every pending permission request, as a cancelled turn does.
    pub fn cancel_permissions(&mut self)
        ensures
            final(self).same_but_requests(old(self)),
            final(self).requests()@ == stepped(old(self).requests()@, BrokerStep::CancelAll),
    {
        self.broker.cancel_all();
    }
}

/// A session that was replaced by a restart is silent when it ends.
pub proof fn a_replaced_session_is_silent(current: u64, generation: u64, reason: Seq<char>)
    requires
        generation < current,
    ensures
        end_event(current, generation, reason) is None,
{
}

/// A session that was stopped, and not replaced, reports that it is disconnected, with the
/// reason. (Stopping does not change the generation.)
pub proof fn a_stopped_session_reports(
    before: AgentManager,
    after: AgentManager,
    generation: u64,
    reason: Seq<char>,
)
    requires
        after.stopped(&before),
        generation == before.current(),
    ensures
        end_event(after.current(), generation, reason) == Some(
            EventView::Status { status: StatusView::Disconnected { reason } },
        ),
{
}

/// A process that is attached after its session was stopped is to be killed at once.
pub proof fn a_late_process_is_killed(before: AgentManager, after: AgentManager, pid: u32)
    requires
        after.stopped(&before),
    ensures
        after.guard().to_kill(GuardOp::Attach(pid)) == Some(pid),
        after.guard().after(GuardOp::Attach(pid)).pid is None,
{
}

/// A session that ends is reported as disconnected while it is the current one, and not at all once
/// it was replaced; a process that could not be started is named with its arguments and the error.
pub proof fn the_current_session_reports_its_end(
    manager: &AgentManager,
    generation: u64,
    outcome: SessionOutcome,
    command: &str,
    args: &[String],
    r: Option<AgentEvent>,
)
    requires
        call_ensures(AgentManager::session_ended, (manager, generation, outcome, command, args), r),
    ensures
        r is Some <==> generation == manager.current(),
        r is Some ==> (r->0 matches AgentEvent::Status {
            status: AgentStatus::Disconnected { reason },
        } && match outcome {
            SessionOutcome::Closed => reason@ == "session closed"@,
            SessionOutcome::SpawnFailed(error) => reason@ == "cannot start "@ + command_line(
                command@,
                texts(args@),
            ) + ": "@ + error@,
            SessionOutcome::Failed(error) => reason@ == error@,
        }),
{
}

/// Stopping drops the session's channel and its requests and names the process to be killed; the
/// session stays the current one, so that it still reports its end.
pub proof fn stopping_leaves_nothing_running(manager: &mut AgentManager, r: Option<u32>)
    requires
        call_ensures(AgentManager::stop, (manager,), r),
    ensures
        r == old(manager).guard().pid,
        final(manager).guard().pid is None,
        final(manager).guard().killed,
        final(manager).commands() is None,
        final(manager).current() == old(manager).current(),
        final(manager).requests()@.upcoming == old(manager).requests()@.upcoming,
        forall|id: AgentRequestId| !#[trigger] final(manager).requests()@.waiting.contains_key(id),
{
}

/// Starting stops what ran before and names its process to be killed, with or without a workspace.
/// On a workspace a new session is launched as it was configured, its commands go through the
/// channel that it holds, and it is reported as starting; without one the panel is told to open a
/// folder.
pub proof fn starting_replaces_the_session(
    manager: &mut AgentManager,
    config: AgentServerConfig,
    workspace: Option<FilePath>,
    r: (Option<u32>, StartOutcome),
)
    requires
        call_ensures(AgentManager::start, (manager, config, workspace), r),
    ensures
        r.0 == old(manager).guard().pid,
        final(manager).guard().pid is None,
        final(manager).requests()@.upcoming == old(manager).requests()@.upcoming,
        forall|id: AgentRequestId| !#[trigger] final(manager).requests()@.waiting.contains_key(id),
        r.1 is Launch <==> workspace is Some,
        r.1 matches StartOutcome::Launch(launch) ==> {
            &&& launch.config == config
            &&& Some(launch.env.workspace) == workspace
            &&& launch.generation > old(manager).current()
            &&& final(manager).current() == launch.generation
            &&& launch.event matches AgentEvent::Status { status } && status is Starting
            &&& final(manager).commands() is Some
            &&& sends_to(final(manager).commands()->0, launch.commands)
            &&& !final(manager).guard().killed
        },
        r.1 matches StartOutcome::Refused(event) ==> {
            &&& event matches AgentEvent::Error { message } && message@
                == "Open a folder before starting the agent"@
            &&& final(manager).current() == old(manager).current()
            &&& final(manager).commands() is None
            &&& final(manager).guard().killed
        },
{
}

/// A process of the current session is guarded, or killed at once where the session was stopped;
/// that of a session that was replaced is killed at once and disturbs nothing.
pub proof fn a_process_is_guarded_or_killed(
    manager: &mut AgentManager,
    generation: u64,
    pid: u32,
    r: Attached,
)
    requires
        call_ensures(AgentManager::attach_process, (manager, generation, pid), r),
    ensures
        r is Guarded <==> generation == old(manager).current() && !old(manager).guard().killed,
        r is Guarded ==> final(manager).guard().pid == Some(pid),
        !(r is Guarded) ==> r == Attached::KillNow(pid) && final(manager).guard() == old(manager).guard(),
        final(manager).commands() == old(manager).commands(),
        final(manager).current() == old(manager).current(),
{
}

/// The end of the current session names its process to be killed; that of a session that was
/// replaced does not touch the process of the current one.
pub proof fn only_the_own_process_is_released(
    manager: &mut AgentManager,
    generation: u64,
    r: Option<u32>,
)
    requires
        call_ensures(AgentManager::release_process, (manager, generation), r),
    ensures
        generation == old(manager).current() ==> r == old(manager).guard().pid && final(manager).guard().pid is None,
        generation != old(manager).current() ==> r is None && final(manager).guard() == old(manager).guard(),
        final(manager).guard().killed == old(manager).guard().killed,
        final(manager).commands() == old(manager).commands(),
        final(manager).current() == old(manager).current(),
{
}

/// A prompt that no session takes comes back as it was, with an error for the panel; one that a
/// session takes makes no report.
pub proof fn a_lost_prompt_comes_back(
    manager: &AgentManager,
    text: String,
    contexts: Vec<AgentContext>,
    r: Option<Undelivered>,
)
    requires
        call_ensures(AgentManager::prompt, (manager, text, contexts), r),
    ensures
        manager.commands() is None ==> r is Some,
        r matches Some(report) ==> {
            &&& report.event matches AgentEvent::Error { message } && message@
                == "The agent is not running"@
            &&& report.command matches SessionCommand::Prompt { text: back, contexts: items }
                && back@ == text@ && attachments_view(items@) == attachments_view(contexts@)
        },
        r is None ==> exists|handed: Result<(), SessionCommand>| #[trigger]
            call_ensures(
                AgentManager::hand_over,
                (manager, SessionCommand::Prompt { text, contexts }),
                handed,
            ) && handed is Ok,
{
}

/// What is reported of a command that was handed over: nothing where it was taken, and otherwise an
/// error and the command itself.
pub proof fn only_lost_commands_are_reported(
    handed: Result<(), SessionCommand>,
    r: Option<Undelivered>,
)
    requires
        call_ensures(delivery_report, (handed,), r),
    ensures
        r is None <==> handed is Ok,
        r matches Some(report) ==> {
            &&& report.command@ == handed->Err_0@
            &&& report.event matches AgentEvent::Error { message } && message@
                == "The agent is not running"@
        },
{
}

/// A permission request of the agent is shown under the id that it waits under, with the agent's own
/// title and its options by their ids and names.
pub proof fn a_request_is_shown_under_its_id(
    manager: &mut AgentManager,
    req: &RequestPermissionRequest,
    r: (AgentEvent, oneshot::Receiver<Option<String>>),
)
    requires
        call_ensures(AgentManager::ask_permission, (manager, req), r),
    ensures
        r.0 matches AgentEvent::PermissionRequest { request_id, title, options } && {
            &&& final(manager).requests()@.waiting.contains_key(request_id)
            &&& connected(final(manager).requests()@.waiting[request_id], r.1)
            &&& req.tool_call.title is Some ==> title@ == req.tool_call.title->0@
            &&& options@.len() == req.options@.len()
            &&& forall|i: int|
                0 <= i < options@.len() ==> (#[trigger] options@[i]).id@
                    == req.options@[i].option_id@ && options@[i].name@ == req.options@[i].name@
        },
        final(manager).commands() == old(manager).commands(),
        final(manager).current() == old(manager).current(),
        final(manager).guard() == old(manager).guard(),
{
    let options = r.0->PermissionRequest_options;
    assert(options_view(options@).len() == options@.len());
    assert forall|i: int| 0 <= i < options@.len() implies (#[trigger] options@[i]).id@
        == req.options@[i].option_id@ && options@[i].name@ == req.options@[i].name@ by {
        assert(options_view(options@)[i] == options@[i]@);
    }
}

/// A reply goes to the request with its id and ends it, and leaves the session and the other
/// requests alone.
pub proof fn a_reply_goes_to_its_request(
    manager: &mut AgentManager,
    request_id: AgentRequestId,
    option_id: Option<String>,
    r: bool,
    other: AgentRequestId,
)
    requires
        call_ensures(AgentManager::permission_reply, (manager, request_id, option_id), r),
    ensures
        ({
            let before = old(manager).requests()@.waiting;
            let after = final(manager).requests()@.waiting;
            &&& r ==> before.contains_key(request_id)
            &&& before.contains_key(request_id) ==> exists|handed: Result<(), Option<String>>|
                #[trigger]
                call_ensures(
                    oneshot::Sender::<Option<String>>::send,
                    (before[request_id], option_id),
                    handed,
                ) && (r <==> handed is Ok)
            &&& !after.contains_key(request_id)
            &&& other != request_id ==> (after.contains_key(other) <==> before.contains_key(other))
            &&& other != request_id && before.contains_key(other) ==> after[other] == before[other]
        }),
        final(manager).commands() == old(manager).commands(),
        final(manager).current() == old(manager).current(),
        final(manager).guard() == old(manager).guard(),
{
}

/// Rejecting the pending permission requests leaves the session running.
pub proof fn rejecting_requests_leaves_the_session_running(
    manager: &mut AgentManager,
    id: AgentRequestId,
)
    requires
        call_ensures(AgentManager::cancel_permissions, (manager,), ()),
    ensures
        !final(manager).requests()@.waiting.contains_key(id),
        final(manager).requests()@.upcoming == old(manager).requests()@.upcoming,
        final(manager).commands() == old(manager).commands(),
        final(manager).current() == old(manager).current(),
        final(manager).guard() == old(manager).guard(),
{
}

/// A command goes to the running session as it is, and comes back as it is where there is none or
/// it is over.
pub proof fn a_command_goes_to_the_running_session(
    manager: &AgentManager,
    command: SessionCommand,
    r: Result<(), SessionCommand>,
)
    requires
        call_ensures(AgentManager::hand_over, (manager, command), r),
    ensures
        manager.commands() is None ==> r is Err,
        r is Err ==> r->Err_0@ == command@,
        r is Ok ==> exists|sent: Result<(), mpsc::TrySendError<SessionCommand>>| #[trigger]
            call_ensures(
                mpsc::UnboundedSender::<SessionCommand>::unbounded_send,
                (&manager.commands()->0, command),
                sent,
            ) && sent is Ok,
{
}

/// A cancellation is handed to the running session as one, and counts where it was taken.
pub proof fn a_cancellation_is_handed_over(manager: &AgentManager, r: bool)
    requires
        call_ensures(AgentManager::cancel, (manager,), r),
    ensures
        manager.commands() is None ==> !r,
        exists|handed: Result<(), SessionCommand>| #[trigger]
            call_ensures(AgentManager::hand_over, (manager, SessionCommand::Cancel), handed) && (r
                <==> handed is Ok),
{
}

/// A new manager runs no session, holds no process and no request.
pub proof fn a_new_manager_runs_nothing(r: AgentManager, id: AgentRequestId)
    requires
        call_ensures(AgentManager::new, (), r),
    ensures
        r.commands() is None,
        r.guard().pid is None,
        !r.guard().killed,
        !r.requests()@.waiting.contains_key(id),
        r.current() == 0,
{
}

} // verus!
