//! One session with an agent: the handshake, the turns, and the requests that the agent makes.

use futures::channel::oneshot;
use vstd::prelude::*;

use crate::events::{
    attachments_view, AgentContext, AgentEvent, AgentStatus, AttachmentView, EventView,
    StatusView,
};
use crate::mapping::{
    permission_request_event, shown_options, shown_title, RequestPermissionRequest,
};
use crate::paths::{
    all_lines_are_the_text, first_line, guarded, lines_between, resolve_workspace_path, slice_lines, FilePath,
    FilePathView, Location, Lookup, PathError,
};
use crate::permission::{registered, PermissionBroker};
use crate::prompt::{
    build_prompt_text, context_blocks, contexts_view, skipping_items_without_text_is_not_seen,
    with_text, ContextView, ResolvedContext,
};

verus! {

/// Commands the manager sends to a running session.
#[derive(Debug)]
pub enum SessionCommand {
    /// Runs one turn with the user text and the editor context.
    Prompt { text: String, contexts: Vec<AgentContext> },
    /// Cancels the running turn and any pending permission request.
    Cancel,
}

/// What a [`SessionCommand`] stands for.
#[verifier::ext_equal]
pub enum CommandView {
    Prompt { text: Seq<char>, contexts: Seq<AttachmentView> },
    Cancel,
}

impl View for SessionCommand {
    type V = CommandView;

    open spec fn view(&self) -> CommandView {
        match self {
            SessionCommand::Prompt { text, contexts } => CommandView::Prompt {
                text: text@,
                contexts: attachments_view(contexts@),
            },
            SessionCommand::Cancel => CommandView::Cancel,
        }
    }
}

/// What the commands stand for, one by one.
pub open spec fn commands_view(commands: Seq<SessionCommand>) -> Seq<CommandView> {
    commands.map_values(|command: SessionCommand| command@)
}

/// How far a session has come.
#[derive(Debug, Clone, Copy, PartialEq, Eq, Structural)]
pub enum Phase {
    /// The agent has not answered the initialization yet.
    Initializing,
    /// The agent has not opened the session yet.
    Opening,
    /// No turn is running.
    Idle,
    /// A turn is running.
    Prompting,
    /// The session is over.
    Closed,
}

/// What happens to a session.
#[derive(Debug)]
pub enum SessionInput {
    /// The agent answered the initialization.
    Initialized,
    /// The agent opened the session.
    Opened { session_id: String },
    /// The agent refused the initialization or the session.
    Refused { error: String },
    /// The manager sent a command.
    Command(SessionCommand),
    /// The manager closed the command channel.
    CommandsClosed,
    /// The running turn ended.
    TurnEnded { stop_reason: String },
    /// The running turn failed.
    TurnFailed { error: String },
    /// The cancellation of the running turn could not be sent.
    CancelFailed { error: String },
    /// The connection to the agent broke.
    ConnectionLost { error: String },
}

/// What a [`SessionInput`] stands for.
#[allow(inconsistent_fields)]
#[verifier::ext_equal]
pub enum InputView {
    Initialized,
    Opened { session_id: Seq<char> },
    Refused { error: Seq<char> },
    Command(CommandView),
    CommandsClosed,
    TurnEnded { stop_reason: Seq<char> },
    TurnFailed { error: Seq<char> },
    CancelFailed { error: Seq<char> },
    ConnectionLost { error: Seq<char> },
}

impl View for SessionInput {
    type V = InputView;

    open spec fn view(&self) -> InputView {
        match self {
            SessionInput::Initialized => InputView::Initialized,
            SessionInput::Opened { session_id } => InputView::Opened { session_id: session_id@ },
            SessionInput::Refused { error } => InputView::Refused { error: error@ },
            SessionInput::Command(command) => InputView::Command(command@),
            SessionInput::CommandsClosed => InputView::CommandsClosed,
            SessionInput::TurnEnded { stop_reason } => InputView::TurnEnded {
                stop_reason: stop_reason@,
            },
            SessionInput::TurnFailed { error } => InputView::TurnFailed { error: error@ },
            SessionInput::CancelFailed { error } => InputView::CancelFailed { error: error@ },
            SessionInput::ConnectionLost { error } => InputView::ConnectionLost { error: error@ },
        }
    }
}

/// What is to be done for a session.
#[derive(Debug)]
pub enum SessionAction {
    /// Ask the agent to open a session on the workspace.
    OpenSession,
    /// Tell the panel.
    Emit(AgentEvent),
    /// Begin a turn with the user text and the context, which is still to be read.
    StartTurn { session_id: String, text: String, contexts: Vec<AgentContext> },
    /// Reject every pending permission request.
    CancelPermissions,
    /// Tell the agent that the turn is cancelled.
    SendCancel { session_id: String },
    /// End the session.
    Finish(Result<(), String>),
}

/// What a [`SessionAction`] stands for.
#[verifier::ext_equal]
pub enum ActionView {
    OpenSession,
    Emit(EventView),
    StartTurn { session_id: Seq<char>, text: Seq<char>, contexts: Seq<AttachmentView> },
    CancelPermissions,
    SendCancel { session_id: Seq<char> },
    Finish(Result<(), Seq<char>>),
}

impl View for SessionAction {
    type V = ActionView;

    open spec fn view(&self) -> ActionView {
        match self {
            SessionAction::OpenSession => ActionView::OpenSession,
            SessionAction::Emit(event) => ActionView::Emit(event@),
            SessionAction::StartTurn { session_id, text, contexts } => ActionView::StartTurn {
                session_id: session_id@,
                text: text@,
                contexts: attachments_view(contexts@),
            },
            SessionAction::CancelPermissions => ActionView::CancelPermissions,
            SessionAction::SendCancel { session_id } => ActionView::SendCancel {
                session_id: session_id@,
            },
            SessionAction::Finish(result) => ActionView::Finish(
                match result {
                    Ok(_) => Ok(()),
                    Err(error) => Err(error@),
                },
            ),
        }
    }
}

/// What the actions stand for, one by one.
pub open spec fn actions_view(actions: Seq<SessionAction>) -> Seq<ActionView> {
    actions.map_values(|action: SessionAction| action@)
}

/// One session with an agent.
pub struct Session {
    phase: Phase,
    session_id: String,
    backlog: Vec<SessionCommand>,
}

/// What a [`Session`] stands for.
#[verifier::ext_equal]
pub struct SessionState {
    pub phase: Phase,
    /// The name that the agent gave the session when it opened it.
    pub session_id: Seq<char>,
    /// The commands that came before the session was open.
    pub backlog: Seq<CommandView>,
}

impl View for Session {
    type V = SessionState;

    closed spec fn view(&self) -> SessionState {
        SessionState {
            phase: self.phase,
            session_id: self.session_id@,
            backlog: commands_view(self.backlog@),
        }
    }
}

impl SessionState {
    /// The state in which the agent was asked to initialize.
    pub open spec fn fresh() -> SessionState {
        SessionState {
            phase: Phase::Initializing,
            session_id: Seq::empty(),
            backlog: Seq::empty(),
        }
    }

    /// The state with another phase.
    pub open spec fn in_phase(self, phase: Phase) -> SessionState {
        SessionState { phase, ..self }
    }
}

/// What a session does on a command. Before the session is open a command is kept for later. A
/// prompt begins a turn, and is dropped while one is running. A cancellation cancels the running
/// turn, and is ignored while there is none.
pub open spec fn on_command(state: SessionState, command: CommandView) -> (
    SessionState,
    Seq<ActionView>,
) {
    match (state.phase, command) {
        (Phase::Initializing, _) | (Phase::Opening, _) => (
            SessionState { backlog: state.backlog.push(command), ..state },
            Seq::empty(),
        ),
        (Phase::Idle, CommandView::Prompt { text, contexts }) => (
            state.in_phase(Phase::Prompting),
            seq![ActionView::StartTurn { session_id: state.session_id, text, contexts }],
        ),
        (Phase::Prompting, CommandView::Cancel) => (
            state,
            seq![
                ActionView::CancelPermissions,
                ActionView::SendCancel { session_id: state.session_id },
            ],
        ),
        _ => (state, Seq::empty()),
    }
}

/// What a session does on commands that come one after the other.
pub open spec fn on_commands(state: SessionState, commands: Seq<CommandView>) -> (
    SessionState,
    Seq<ActionView>,
)
    decreases commands.len(),
{
    if commands.len() == 0 {
        (state, Seq::empty())
    } else {
        let (next, first) = on_command(state, commands[0]);
        let (last, rest) = on_commands(next, commands.skip(1));
        (last, first + rest)
    }
}

/// The event that the turn ended with an error.
pub open spec fn turn_error(error: Seq<char>) -> EventView {
    EventView::Error { message: "Prompt failed: "@ + error }
}

/// What a session does on `input`.
pub open spec fn on_input(state: SessionState, input: InputView) -> (
    SessionState,
    Seq<ActionView>,
) {
    let handshake = state.phase is Initializing || state.phase is Opening;
    match input {
        InputView::Initialized if state.phase is Initializing => (
            state.in_phase(Phase::Opening),
            seq![ActionView::OpenSession],
        ),
        InputView::Opened { session_id } if state.phase is Opening => {
            let open = SessionState { phase: Phase::Idle, session_id, backlog: Seq::empty() };
            let (next, actions) = on_commands(open, state.backlog);
            (
                next,
                seq![ActionView::Emit(EventView::Status { status: StatusView::Ready })] + actions,
            )
        },
        InputView::Refused { error } if handshake => (
            state.in_phase(Phase::Closed),
            seq![ActionView::Finish(Err(error))],
        ),
        InputView::Command(command) => on_command(state, command),
        InputView::CommandsClosed if !(state.phase is Closed) => (
            state.in_phase(Phase::Closed),
            seq![ActionView::Finish(Ok(()))],
        ),
        InputView::TurnEnded { stop_reason } if state.phase is Prompting => (
            state.in_phase(Phase::Idle),
            seq![ActionView::Emit(EventView::TurnEnded { stop_reason })],
        ),
        InputView::TurnFailed { error } if state.phase is Prompting => (
            state.in_phase(Phase::Idle),
            seq![ActionView::Emit(turn_error(error))],
        ),
        InputView::CancelFailed { error } if state.phase is Prompting => (
            state.in_phase(Phase::Closed),
            seq![ActionView::Finish(Err(error))],
        ),
        InputView::ConnectionLost { error } if !(state.phase is Closed) => (
            state.in_phase(Phase::Closed),
            seq![ActionView::Finish(Err(error))],
        ),
        _ => (state, Seq::empty()),
    }
}

impl Session {
    /// Begins a session: the agent is asked to initialize.
    pub fn new() -> (r: Session)
        ensures
            r@ == SessionState::fresh(),
    {
        let r = Session {
            phase: Phase::Initializing,
            session_id: String::new(),
            backlog: Vec::new(),
        };
        assert(r.session_id@ =~= Seq::<char>::empty());
        assert(commands_view(r.backlog@) =~= Seq::<CommandView>::empty());
        r
    }

    /// How far the session has come.
    pub fn phase(&self) -> (r: Phase)
        ensures
            r == self@.phase,
    {
        self.phase
    }

    /// Does what a command asks for.
    fn command(&mut self, command: SessionCommand, actions: &mut Vec<SessionAction>)
        ensures
            final(self)@ == on_command(old(self)@, command@).0,
            actions_view(final(actions)@) == actions_view(old(actions)@) + on_command(
                old(self)@,
                command@,
            ).1,
    {
        let ghost before = actions_view(actions@);
        match self.phase {
            Phase::Initializing | Phase::Opening => {
                let ghost kept = commands_view(self.backlog@);
                self.backlog.push(command);
                assert(commands_view(self.backlog@) =~= kept.push(command@));
            },
            Phase::Idle => {
                if let SessionCommand::Prompt { text, contexts } = command {
                    self.phase = Phase::Prompting;
                    actions.push(
                        SessionAction::StartTurn {
                            session_id: self.session_id.clone(),
                            text,
                            contexts,
                        },
                    );
                }
            },
            Phase::Prompting => {
                if let SessionCommand::Cancel = command {
                    actions.push(SessionAction::CancelPermissions);
                    actions.push(SessionAction::SendCancel { session_id: self.session_id.clone() });
                }
            },
            Phase::Closed => {},
        }
        assert(actions_view(actions@) =~= before + on_command(old(self)@, command@).1);
    }

    /// Takes note of what happened and returns what is to be done, in order.
    pub fn step(&mut self, input: SessionInput) -> (r: Vec<SessionAction>)
        ensures
            final(self)@ == on_input(old(self)@, input@).0,
            actions_view(r@) == on_input(old(self)@, input@).1,
    {
        let mut actions: Vec<SessionAction> = Vec::new();
        assert(actions_view(actions@) =~= Seq::<ActionView>::empty());
        let phase = self.phase;
        match input {
            SessionInput::Initialized => {
                if let Phase::Initializing = phase {
                    self.phase = Phase::Opening;
                    actions.push(SessionAction::OpenSession);
                }
            },
            SessionInput::Opened { session_id } => {
                if let Phase::Opening = phase {
                    self.open(session_id, &mut actions);
                }
            },
            SessionInput::Refused { error } => {
                if let Phase::Initializing | Phase::Opening = phase {
                    self.phase = Phase::Closed;
                    actions.push(SessionAction::Finish(Err(error)));
                }
            },
            SessionInput::Command(command) => {
                self.command(command, &mut actions);
            },
            SessionInput::CommandsClosed => match phase {
                Phase::Closed => {},
                _ => {
                    self.phase = Phase::Closed;
                    actions.push(SessionAction::Finish(Ok(())));
                },
            },
            SessionInput::TurnEnded { stop_reason } => {
                if let Phase::Prompting = phase {
                    self.phase = Phase::Idle;
                    actions.push(SessionAction::Emit(AgentEvent::TurnEnded { stop_reason }));
                }
            },
            SessionInput::TurnFailed { error } => {
                if let Phase::Prompting = phase {
                    self.phase = Phase::Idle;
                    let message = "Prompt failed: ".to_owned().concat(error.as_str());
                    actions.push(SessionAction::Emit(AgentEvent::Error { message }));
                }
            },
            SessionInput::CancelFailed { error } => {
                if let Phase::Prompting = phase {
                    self.phase = Phase::Closed;
                    actions.push(SessionAction::Finish(Err(error)));
                }
            },
            SessionInput::ConnectionLost { error } => match phase {
                Phase::Closed => {},
                _ => {
                    self.phase = Phase::Closed;
                    actions.push(SessionAction::Finish(Err(error)));
                },
            },
        }
        assert(actions_view(actions@) =~= on_input(old(self)@, input@).1);
        actions
    }

    /// Opens the session: the panel is told, and the commands that were kept are done.
    fn open(&mut self, session_id: String, actions: &mut Vec<SessionAction>)
        requires
            old(self)@.phase is Opening,
            old(actions)@.len() == 0,
        ensures
            (final(self)@, actions_view(final(actions)@)) == on_input(
                old(self)@,
                InputView::Opened { session_id: session_id@ },
            ),
    {
        let mut backlog: Vec<SessionCommand> = Vec::new();
        std::mem::swap(&mut backlog, &mut self.backlog);
        let ghost all = commands_view(backlog@);
        self.phase = Phase::Idle;
        self.session_id = session_id;
        let ghost open = self@;
        assert(open.backlog =~= Seq::<CommandView>::empty());
        actions.push(SessionAction::Emit(AgentEvent::Status { status: AgentStatus::Ready }));
        let ghost ready = seq![ActionView::Emit(EventView::Status { status: StatusView::Ready })];
        assert(actions_view(actions@) =~= ready);
        while backlog.len() > 0
            invariant
                on_commands(open, all).0 == on_commands(self@, commands_view(backlog@)).0,
                ready + on_commands(open, all).1 == actions_view(actions@) + on_commands(
                    self@,
                    commands_view(backlog@),
                ).1,
            decreases backlog.len(),
        {
            let ghost rest = commands_view(backlog@);
            let ghost state = self@;
            let ghost done = actions_view(actions@);
            let command = backlog.remove(0);
            proof {
                assert(commands_view(backlog@) =~= rest.skip(1));
                assert(command@ == rest[0]);
            }
            self.command(command, actions);
            proof {
                let (next, first) = on_command(state, rest[0]);
                let (last, more) = on_commands(next, rest.skip(1));
                assert(done + (first + more) =~= (done + first) + more);
            }
        }
        proof {
            assert(actions_view(actions@) + Seq::<ActionView>::empty() =~= actions_view(actions@));
        }
    }
}

/// What a session does on inputs that come one after the other.
pub open spec fn on_inputs(state: SessionState, inputs: Seq<InputView>) -> (
    SessionState,
    Seq<ActionView>,
)
    decreases inputs.len(),
{
    if inputs.len() == 0 {
        (state, Seq::empty())
    } else {
        let (middle, before) = on_inputs(state, inputs.drop_last());
        let (last, more) = on_input(middle, inputs.last());
        (last, before + more)
    }
}

/// What those outside see of a session.
pub enum Progress {
    /// The agent is not ready.
    Starting,
    /// The agent is ready and no turn is running.
    Quiet,
    /// A turn is running.
    Running,
    /// The session is over.
    Over,
}

/// What is seen of a session after `action`. `None` where the action is out of place.
pub open spec fn progress_step(progress: Progress, action: ActionView) -> Option<Progress> {
    match (progress, action) {
        (Progress::Starting, ActionView::OpenSession) => Some(Progress::Starting),
        (
            Progress::Starting,
            ActionView::Emit(EventView::Status { status: StatusView::Ready }),
        ) => Some(Progress::Quiet),
        (Progress::Quiet, ActionView::StartTurn { .. }) => Some(Progress::Running),
        (Progress::Running, ActionView::CancelPermissions) => Some(Progress::Running),
        (Progress::Running, ActionView::SendCancel { .. }) => Some(Progress::Running),
        (Progress::Running, ActionView::Emit(EventView::TurnEnded { .. })) => Some(
            Progress::Quiet,
        ),
        (Progress::Running, ActionView::Emit(EventView::Error { .. })) => Some(Progress::Quiet),
        (Progress::Starting, ActionView::Finish(_)) => Some(Progress::Over),
        (Progress::Quiet, ActionView::Finish(_)) => Some(Progress::Over),
        (Progress::Running, ActionView::Finish(_)) => Some(Progress::Over),
        _ => None,
    }
}

/// What is seen of a session after `actions`. `None` where one of them is out of place.
pub open spec fn progress(start: Progress, actions: Seq<ActionView>) -> Option<Progress>
    decreases actions.len(),
{
    if actions.len() == 0 {
        Some(start)
    } else {
        match progress(start, actions.drop_last()) {
            Some(middle) => progress_step(middle, actions.last()),
            None => None,
        }
    }
}

/// What is seen of a session in a phase.
pub open spec fn progress_in(phase: Phase) -> Progress {
    match phase {
        Phase::Initializing => Progress::Starting,
        Phase::Opening => Progress::Starting,
        Phase::Idle => Progress::Quiet,
        Phase::Prompting => Progress::Running,
        Phase::Closed => Progress::Over,
    }
}

/// What is seen after two runs of actions.
proof fn lemma_progress_joins(start: Progress, a: Seq<ActionView>, b: Seq<ActionView>)
    requires
        progress(start, a) is Some,
    ensures
        progress(start, a + b) == progress(progress(start, a)->0, b),
    decreases b.len(),
{
    if b.len() == 0 {
        assert(a + b =~= a);
    } else {
        lemma_progress_joins(start, a, b.drop_last());
        assert((a + b).drop_last() =~= a + b.drop_last());
    }
}

/// A command keeps to what is expected of a session.
proof fn lemma_command_progress(state: SessionState, command: CommandView)
    ensures
        progress(progress_in(state.phase), on_command(state, command).1) == Some(
            progress_in(on_command(state, command).0.phase),
        ),
{
    reveal_with_fuel(progress, 3);
    let actions = on_command(state, command).1;
    if actions.len() == 1 {
        assert(actions.drop_last() =~= Seq::<ActionView>::empty());
    }
    if actions.len() == 2 {
        assert(actions.drop_last() =~= seq![ActionView::CancelPermissions]);
        assert(actions.drop_last().drop_last() =~= Seq::<ActionView>::empty());
    }
}

/// Commands keep to what is expected of a session.
proof fn lemma_commands_progress(state: SessionState, commands: Seq<CommandView>)
    ensures
        progress(progress_in(state.phase), on_commands(state, commands).1) == Some(
            progress_in(on_commands(state, commands).0.phase),
        ),
    decreases commands.len(),
{
    if commands.len() > 0 {
        let (next, first) = on_command(state, commands[0]);
        lemma_command_progress(state, commands[0]);
        lemma_commands_progress(next, commands.skip(1));
        lemma_progress_joins(
            progress_in(state.phase),
            first,
            on_commands(next, commands.skip(1)).1,
        );
    }
}

/// An input keeps to what is expected of a session.
proof fn lemma_input_progress(state: SessionState, input: InputView)
    ensures
        progress(progress_in(state.phase), on_input(state, input).1) == Some(
            progress_in(on_input(state, input).0.phase),
        ),
{
    reveal_with_fuel(progress, 2);
    let actions = on_input(state, input).1;
    match input {
        InputView::Command(command) => {
            lemma_command_progress(state, command);
        },
        InputView::Opened { session_id } if state.phase is Opening => {
            let open = SessionState { phase: Phase::Idle, session_id, backlog: Seq::empty() };
            let ready = seq![ActionView::Emit(EventView::Status { status: StatusView::Ready })];
            assert(ready.drop_last() =~= Seq::<ActionView>::empty());
            lemma_commands_progress(open, state.backlog);
            lemma_progress_joins(Progress::Starting, ready, on_commands(open, state.backlog).1);
        },
        _ => {
            if actions.len() > 0 {
                assert(actions.drop_last() =~= Seq::<ActionView>::empty());
            }
        },
    }
}

/// Whatever happens to a session, and in whatever order, what it does is in place: it reports
/// ready once, and no turn begins before that; one turn runs at a time, and each one that is not
/// cut off by the end of the session is reported as over once; only a running turn is cancelled;
/// and the session ends once, with nothing after it.
pub proof fn a_session_keeps_its_order(inputs: Seq<InputView>)
    ensures
        progress(Progress::Starting, on_inputs(SessionState::fresh(), inputs).1) == Some(
            progress_in(on_inputs(SessionState::fresh(), inputs).0.phase),
        ),
    decreases inputs.len(),
{
    if inputs.len() > 0 {
        a_session_keeps_its_order(inputs.drop_last());
        let (middle, before) = on_inputs(SessionState::fresh(), inputs.drop_last());
        lemma_input_progress(middle, inputs.last());
        lemma_progress_joins(Progress::Starting, before, on_input(middle, inputs.last()).1);
    }
}

/// Closing the command channel ends a session at once, even one whose agent never answers.
pub proof fn closing_the_channel_ends_the_session(state: SessionState)
    requires
        !(state.phase is Closed),
    ensures
        on_input(state, InputView::CommandsClosed).0.phase is Closed,
        on_input(state, InputView::CommandsClosed).1 == seq![ActionView::Finish(Ok(()))],
{
}

/// Cancelling the running turn rejects the pending permission requests and tells the agent; the
/// turn runs until the agent ends it.
pub proof fn a_cancellation_rejects_and_tells(state: SessionState)
    requires
        state.phase is Prompting,
    ensures
        on_input(state, InputView::Command(CommandView::Cancel)) == (
            state,
            seq![
                ActionView::CancelPermissions,
                ActionView::SendCancel { session_id: state.session_id },
            ],
        ),
{
}

/// A session that is over does nothing more.
pub proof fn a_closed_session_does_nothing(state: SessionState, input: InputView)
    requires
        state.phase is Closed,
    ensures
        on_input(state, input) == (state, Seq::<ActionView>::empty()),
{
}

/// The commands of a session that is not open yet are kept, in order.
pub proof fn early_commands_are_kept(state: SessionState, commands: Seq<CommandView>)
    requires
        state.phase is Initializing || state.phase is Opening,
    ensures
        on_commands(state, commands) == (
            SessionState { backlog: state.backlog + commands, ..state },
            Seq::<ActionView>::empty(),
        ),
    decreases commands.len(),
{
    if commands.len() == 0 {
        assert(state.backlog + commands =~= state.backlog);
    } else {
        let next = on_command(state, commands[0]).0;
        early_commands_are_kept(next, commands.skip(1));
        assert(state.backlog.push(commands[0]) + commands.skip(1) =~= state.backlog + commands);
    }
}

/// The first prompt that came before the session was open begins a turn as soon as it is.
pub proof fn an_early_prompt_is_run(
    state: SessionState,
    session_id: Seq<char>,
    k: int,
    text: Seq<char>,
    contexts: Seq<AttachmentView>,
)
    requires
        state.phase is Opening,
        0 <= k < state.backlog.len(),
        state.backlog[k] == (CommandView::Prompt { text, contexts }),
        forall|i: int| 0 <= i < k ==> #[trigger] state.backlog[i] is Cancel,
    ensures
        on_input(state, InputView::Opened { session_id }).1.len() >= 2,
        on_input(state, InputView::Opened { session_id }).1[1] == (ActionView::StartTurn {
            session_id,
            text,
            contexts,
        }),
{
    let open = SessionState { phase: Phase::Idle, session_id, backlog: Seq::empty() };
    lemma_first_prompt(open, state.backlog, k);
}

/// The first prompt among commands begins a turn in an idle session.
proof fn lemma_first_prompt(state: SessionState, commands: Seq<CommandView>, k: int)
    requires
        state.phase is Idle,
        0 <= k < commands.len(),
        commands[k] is Prompt,
        forall|i: int| 0 <= i < k ==> #[trigger] commands[i] is Cancel,
    ensures
        on_commands(state, commands).1.len() >= 1,
        on_commands(state, commands).1[0] == (ActionView::StartTurn {
            session_id: state.session_id,
            text: commands[k]->text,
            contexts: commands[k]->contexts,
        }),
    decreases commands.len(),
{
    if k > 0 {
        let rest = commands.skip(1);
        assert forall|i: int| 0 <= i < k - 1 implies #[trigger] rest[i] is Cancel by {
            assert(commands[i + 1] is Cancel);
        }
        assert(commands[0] is Cancel);
        lemma_first_prompt(state, rest, k - 1);
    }
}

/// An open session keeps the name that the agent gave it, and turns and cancellations carry it.
pub proof fn a_session_keeps_its_name(state: SessionState, input: InputView)
    requires
        !(state.phase is Opening && input is Opened),
    ensures
        on_input(state, input).0.session_id == state.session_id,
        forall|i: int|
            0 <= i < on_input(state, input).1.len() ==> match #[trigger] on_input(
                state,
                input,
            ).1[i] {
                ActionView::StartTurn { session_id, .. } => session_id == state.session_id,
                ActionView::SendCancel { session_id } => session_id == state.session_id,
                _ => true,
            },
{
}

/// Everything a session needs to serve the agent's file requests. What the editor and the disk
/// hold is asked for through functions that are handed in.
#[derive(Debug)]
pub struct SessionEnv {
    /// Root the agent is confined to.
    pub workspace: FilePath,
}

/// Whether `r` is what a read of `line` and `limit` of `path` owes: the guard's message, the
/// message of `read`, or the lines of the text that `read` gave for the accepted location.
pub open spec fn read_owes<
    F: Fn(&Location) -> Lookup,
    G: Fn(&Location) -> Result<String, String>,
>(
    canonicalize: F,
    read: G,
    workspace: FilePathView,
    path: FilePathView,
    line: Option<u32>,
    limit: Option<u32>,
    r: Result<String, String>,
) -> bool {
    exists|verdict: Result<Location, PathError>|
        {
            &&& #[trigger] guarded(canonicalize, workspace, path, verdict)
            &&& match verdict {
                Err(error) => r matches Err(message) && message@ == error.message_text(),
                Ok(at) => exists|answer: Result<String, String>|
                    {
                        &&& #[trigger] call_ensures(read, (&at,), answer)
                        &&& match answer {
                            Ok(text) => r matches Ok(out) && out@ == lines_between(
                                text@,
                                first_line(line),
                                match limit {
                                    Some(n) => Some(first_line(line) + n),
                                    None => None,
                                },
                            ),
                            Err(error) => r matches Err(message) && message@ == error@,
                        }
                    },
            }
        }
}

/// Whether `r` is what a write of `content` to `path` owes: the guard's message, or what `write`
/// gave for the accepted location.
pub open spec fn write_owes<
    F: Fn(&Location) -> Lookup,
    G: Fn(&Location, &str) -> Result<(), String>,
>(
    canonicalize: F,
    write: G,
    workspace: FilePathView,
    path: FilePathView,
    content: &str,
    r: Result<(), String>,
) -> bool {
    exists|verdict: Result<Location, PathError>|
        {
            &&& #[trigger] guarded(canonicalize, workspace, path, verdict)
            &&& match verdict {
                Err(error) => r matches Err(message) && message@ == error.message_text(),
                Ok(at) => call_ensures(write, (&at, content), r),
            }
        }
}

/// Whether `text` is what is attached of a file without a selection: the text that `read` gave
/// for the accepted location, or nothing where the guard refused it or `read` failed.
pub open spec fn content_owed<
    F: Fn(&Location) -> Lookup,
    G: Fn(&Location) -> Result<String, String>,
>(
    canonicalize: F,
    read: G,
    workspace: FilePathView,
    path: FilePathView,
    text: Option<Seq<char>>,
) -> bool {
    exists|verdict: Result<Location, PathError>|
        {
            &&& #[trigger] guarded(canonicalize, workspace, path, verdict)
            &&& match verdict {
                Err(_) => text is None,
                Ok(at) => exists|answer: Result<String, String>|
                    {
                        &&& #[trigger] call_ensures(read, (&at,), answer)
                        &&& match answer {
                            Ok(content) => text == Some(content@),
                            Err(_) => text is None,
                        }
                    },
            }
        }
}

/// Whether `r` is `context` with its text read.
pub open spec fn resolves<
    F: Fn(&Location) -> Lookup,
    G: Fn(&Location) -> Result<String, String>,
>(
    canonicalize: F,
    read: G,
    workspace: FilePathView,
    context: AttachmentView,
    r: ContextView,
) -> bool {
    &&& r.path == context.path
    &&& r.selection == context.selection
    &&& match context.selection {
        Some(_) => r.content is None,
        None => content_owed(canonicalize, read, workspace, context.path, r.content),
    }
}

/// Whether `r` are the items `contexts` with their texts read, one by one.
pub open spec fn all_resolve<
    F: Fn(&Location) -> Lookup,
    G: Fn(&Location) -> Result<String, String>,
>(
    canonicalize: F,
    read: G,
    workspace: FilePathView,
    contexts: Seq<AttachmentView>,
    r: Seq<ContextView>,
) -> bool {
    &&& r.len() == contexts.len()
    &&& forall|i: int|
        0 <= i < r.len() ==> resolves(canonicalize, read, workspace, contexts[i], #[trigger] r[i])
}

impl SessionEnv {
    /// Whether the guard may accept `at` for `path`.
    pub open spec fn allows<F: Fn(&Location) -> Lookup>(
        &self,
        canonicalize: F,
        path: FilePathView,
        at: Location,
    ) -> bool {
        guarded(canonicalize, self.workspace@, path, Ok(at))
    }

    /// Serves a read of a text file: guards the path, reads, slices lines. `read` is called at
    /// most for a location that the guard accepts.
    pub fn read_file<
        F: Fn(&Location) -> Lookup,
        G: Fn(&Location) -> Result<String, String>,
    >(
        &self,
        path: &FilePath,
        line: Option<u32>,
        limit: Option<u32>,
        canonicalize: &F,
        read: &G,
    ) -> (r: Result<String, String>)
        requires
            forall|l: &Location| #[trigger] call_requires(*canonicalize, (l,)),
            forall|at: &Location|
                self.allows(*canonicalize, path@, *at) ==> #[trigger] call_requires(*read, (at,)),
        ensures
            read_owes(*canonicalize, *read, self.workspace@, path@, line, limit, r),
    {
        let verdict = resolve_workspace_path(&self.workspace, path, canonicalize);
        assert(guarded(*canonicalize, self.workspace@, path@, verdict));
        match verdict {
            Err(error) => Err(error.message()),
            Ok(at) => {
                assert(self.allows(*canonicalize, path@, at));
                let answer = read(&at);
                assert(call_ensures(*read, (&at,), answer));
                match answer {
                    Err(error) => Err(error),
                    Ok(text) => Ok(slice_lines(text.as_str(), line, limit)),
                }
            },
        }
    }

    /// Serves a write of a text file: guards the path, then writes. `write` is called at most for
    /// a location that the guard accepts.
    pub fn write_file<
        F: Fn(&Location) -> Lookup,
        G: Fn(&Location, &str) -> Result<(), String>,
    >(&self, path: &FilePath, content: &str, canonicalize: &F, write: &G) -> (r: Result<
        (),
        String,
    >)
        requires
            forall|l: &Location| #[trigger] call_requires(*canonicalize, (l,)),
            forall|at: &Location|
                self.allows(*canonicalize, path@, *at) ==> #[trigger] call_requires(
                    *write,
                    (at, content),
                ),
        ensures
            write_owes(*canonicalize, *write, self.workspace@, path@, content, r),
    {
        let verdict = resolve_workspace_path(&self.workspace, path, canonicalize);
        assert(guarded(*canonicalize, self.workspace@, path@, verdict));
        match verdict {
            Err(error) => Err(error.message()),
            Ok(at) => {
                assert(self.allows(*canonicalize, path@, at));
                write(&at, content)
            },
        }
    }

    /// Reads the text of one context item, unless a selection stands for it.
    fn resolve_context<
        F: Fn(&Location) -> Lookup,
        G: Fn(&Location) -> Result<String, String>,
    >(&self, context: AgentContext, canonicalize: &F, read: &G) -> (r: ResolvedContext)
        requires
            forall|l: &Location| #[trigger] call_requires(*canonicalize, (l,)),
            forall|at: &Location|
                self.allows(*canonicalize, context.path@, *at) ==> #[trigger] call_requires(
                    *read,
                    (at,),
                ),
        ensures
            resolves(*canonicalize, *read, self.workspace@, context@, r@),
    {
        let content = match &context.selection {
            Some(_) => None,
            None => {
                let verdict = resolve_workspace_path(&self.workspace, &context.path, canonicalize);
                assert(guarded(*canonicalize, self.workspace@, context.path@, verdict));
                match verdict {
                    Err(_) => None,
                    Ok(at) => {
                        assert(self.allows(*canonicalize, context.path@, at));
                        let answer = read(&at);
                        assert(call_ensures(*read, (&at,), answer));
                        match answer {
                            Ok(text) => Some(text),
                            Err(_) => None,
                        }
                    },
                }
            },
        };
        ResolvedContext { path: context.path, selection: context.selection, content }
    }

    /// Reads the text of each context item. Items that cannot be read are skipped. `read` is
    /// called at most for locations that the guard accepts.
    pub fn resolve_contexts<
        F: Fn(&Location) -> Lookup,
        G: Fn(&Location) -> Result<String, String>,
    >(&self, contexts: Vec<AgentContext>, canonicalize: &F, read: &G) -> (r: Vec<
        ResolvedContext,
    >)
        requires
            forall|l: &Location| #[trigger] call_requires(*canonicalize, (l,)),
            forall|i: int, at: &Location|
                0 <= i < contexts@.len() && #[trigger] self.allows(
                    *canonicalize,
                    contexts@[i].path@,
                    *at,
                ) ==> call_requires(*read, (at,)),
        ensures
            exists|resolved: Seq<ContextView>|
                {
                    &&& #[trigger] all_resolve(
                        *canonicalize,
                        *read,
                        self.workspace@,
                        attachments_view(contexts@),
                        resolved,
                    )
                    &&& contexts_view(r@) == with_text(resolved)
                },
    {
        let ghost all = contexts@;
        let ghost views = attachments_view(contexts@);
        let ghost mut resolved: Seq<ContextView> = Seq::empty();
        let mut rest = contexts;
        let mut out: Vec<ResolvedContext> = Vec::new();
        assert(contexts_view(out@) =~= with_text(resolved));
        while rest.len() > 0
            invariant
                forall|l: &Location| #[trigger] call_requires(*canonicalize, (l,)),
                forall|i: int, at: &Location|
                    0 <= i < all.len() && #[trigger] self.allows(
                        *canonicalize,
                        all[i].path@,
                        *at,
                    ) ==> call_requires(*read, (at,)),
                views == attachments_view(all),
                resolved.len() + rest@.len() == all.len(),
                rest@ == all.skip(resolved.len() as int),
                all_resolve(
                    *canonicalize,
                    *read,
                    self.workspace@,
                    views.take(resolved.len() as int),
                    resolved,
                ),
                contexts_view(out@) == with_text(resolved),
            decreases rest.len(),
        {
            let ghost n = resolved.len() as int;
            let ghost before = resolved;
            let context = rest.remove(0);
            assert(context == all[n]);
            assert(rest@ =~= all.skip(n + 1));
            let item = self.resolve_context(context, canonicalize, read);
            proof {
                resolved = resolved.push(item@);
                assert(resolved.drop_last() =~= before);
                assert forall|i: int| 0 <= i < resolved.len() implies resolves(
                    *canonicalize,
                    *read,
                    self.workspace@,
                    views.take(n + 1)[i],
                    #[trigger] resolved[i],
                ) by {
                    if i < n {
                        assert(resolved[i] == before[i]);
                        assert(views.take(n)[i] == views.take(n + 1)[i]);
                    }
                }
            }
            let ghost kept = contexts_view(out@);
            if item.selection.is_some() || item.content.is_some() {
                out.push(item);
                assert(contexts_view(out@) =~= kept.push(item@));
            }
        }
        assert(views.take(views.len() as int) =~= views);
        out
    }

    /// The text of a prompt: the context items with their text read, then the user text.
    pub fn prompt_text<
        F: Fn(&Location) -> Lookup,
        G: Fn(&Location) -> Result<String, String>,
    >(&self, text: &str, contexts: Vec<AgentContext>, canonicalize: &F, read: &G) -> (r: String)
        requires
            forall|l: &Location| #[trigger] call_requires(*canonicalize, (l,)),
            forall|i: int, at: &Location|
                0 <= i < contexts@.len() && #[trigger] self.allows(
                    *canonicalize,
                    contexts@[i].path@,
                    *at,
                ) ==> call_requires(*read, (at,)),
        ensures
            exists|resolved: Seq<ContextView>|
                {
                    &&& #[trigger] all_resolve(
                        *canonicalize,
                        *read,
                        self.workspace@,
                        attachments_view(contexts@),
                        resolved,
                    )
                    &&& r@ == context_blocks(resolved) + text@
                },
    {
        let ghost views = attachments_view(contexts@);
        let items = self.resolve_contexts(contexts, canonicalize, read);
        let out = build_prompt_text(text, items.as_slice());
        proof {
            let resolved = choose|resolved: Seq<ContextView>|
                {
                    &&& #[trigger] all_resolve(
                        *canonicalize,
                        *read,
                        self.workspace@,
                        views,
                        resolved,
                    )
                    &&& contexts_view(items@) == with_text(resolved)
                };
            skipping_items_without_text_is_not_seen(resolved);
            assert(all_resolve(*canonicalize, *read, self.workspace@, views, resolved));
        }
        out
    }
}

/// Registers the agent's permission request, and returns the event that shows it and the receiver
/// of the user's decision. The agent's other requests are served while the user decides.
pub fn request_permission(broker: &mut PermissionBroker, req: &RequestPermissionRequest) -> (r: (
    AgentEvent,
    oneshot::Receiver<Option<String>>,
))
    ensures
        r.0@ == (EventView::PermissionRequest {
            request_id: old(broker)@.upcoming,
            title: shown_title(*req),
            options: shown_options(req.options@),
        }),
        registered(old(broker)@, final(broker)@, old(broker)@.upcoming, r.1),
{
    let (request_id, decision) = broker.register();
    (permission_request_event(request_id, req), decision)
}

/// The answer to the initialization makes the session ask the agent, once, to open a session; what
/// came before is kept.
pub proof fn an_initialized_agent_is_asked_to_open(state: SessionState)
    requires
        state.phase is Initializing,
    ensures
        ({
            let (next, actions) = on_input(state, InputView::Initialized);
            &&& actions.len() == 1
            &&& actions[0] is OpenSession
            &&& next.phase is Opening
            &&& next.session_id == state.session_id
            &&& next.backlog == state.backlog
        }),
{
}

/// An agent that opens the session is reported as ready, first of all; the session has the name
/// that the agent gave it, and no command is kept any longer.
pub proof fn an_opened_session_is_ready(state: SessionState, session_id: Seq<char>)
    requires
        state.phase is Opening,
    ensures
        ({
            let (next, actions) = on_input(state, InputView::Opened { session_id });
            &&& actions.len() > 0
            &&& actions[0] == ActionView::Emit(EventView::Status { status: StatusView::Ready })
            &&& next.session_id == session_id
            &&& next.backlog.len() == 0
            &&& next.phase is Idle || next.phase is Prompting
            &&& state.backlog.len() == 0 ==> actions.len() == 1 && next.phase is Idle
        }),
{
    let open = SessionState { phase: Phase::Idle, session_id, backlog: Seq::empty() };
    lemma_open_commands(open, state.backlog);
}

/// Commands do not change the name of an open session, and it stays open.
proof fn lemma_open_commands(state: SessionState, commands: Seq<CommandView>)
    requires
        state.phase is Idle || state.phase is Prompting,
    ensures
        ({
            let next = on_commands(state, commands).0;
            &&& next.phase is Idle || next.phase is Prompting
            &&& next.session_id == state.session_id
            &&& next.backlog == state.backlog
        }),
    decreases commands.len(),
{
    if commands.len() > 0 {
        lemma_open_commands(on_command(state, commands[0]).0, commands.skip(1));
    }
}

/// Commands that come one after the other, as inputs.
pub open spec fn as_inputs(commands: Seq<CommandView>) -> Seq<InputView> {
    commands.map_values(|command: CommandView| InputView::Command(command))
}

/// Commands are done as inputs are.
proof fn lemma_commands_are_inputs(state: SessionState, commands: Seq<CommandView>)
    ensures
        on_commands(state, commands) == on_inputs(state, as_inputs(commands)),
    decreases commands.len(),
{
    if commands.len() > 0 {
        let before = commands.drop_last();
        lemma_commands_are_inputs(state, before);
        lemma_last_command(state, commands);
        assert(as_inputs(commands).drop_last() =~= as_inputs(before));
        assert(as_inputs(commands).last() == InputView::Command(commands.last()));
    }
}

/// The last of several commands is done after the others.
proof fn lemma_last_command(state: SessionState, commands: Seq<CommandView>)
    requires
        commands.len() > 0,
    ensures
        ({
            let (middle, before) = on_commands(state, commands.drop_last());
            let (last, more) = on_command(middle, commands.last());
            on_commands(state, commands) == (last, before + more)
        }),
    decreases commands.len(),
{
    reveal_with_fuel(on_commands, 2);
    let (next, first) = on_command(state, commands[0]);
    if commands.len() == 1 {
        assert(commands.skip(1).len() == 0);
        assert(commands.drop_last().len() == 0);
        assert(first + Seq::<ActionView>::empty() =~= Seq::<ActionView>::empty() + first);
    } else {
        lemma_last_command(next, commands.skip(1));
        assert(commands.skip(1).drop_last() =~= commands.drop_last().skip(1));
        assert(commands.skip(1).last() == commands.last());
        assert(commands.drop_last()[0] == commands[0]);
        let (middle, before) = on_commands(next, commands.drop_last().skip(1));
        let (last, more) = on_command(middle, commands.last());
        assert(first + (before + more) =~= (first + before) + more);
    }
}

/// Commands that came too early are done as if they had come, in the same order, right after the
/// session was opened.
pub proof fn early_commands_are_done_after_the_opening(state: SessionState, session_id: Seq<char>)
    requires
        state.phase is Opening,
    ensures
        ({
            let without = SessionState { backlog: Seq::empty(), ..state };
            let (opened, ready) = on_input(without, InputView::Opened { session_id });
            let (after, actions) = on_inputs(opened, as_inputs(state.backlog));
            on_input(state, InputView::Opened { session_id }) == (after, ready + actions)
        }),
{
    let open = SessionState { phase: Phase::Idle, session_id, backlog: Seq::empty() };
    lemma_commands_are_inputs(open, state.backlog);
    let ready = seq![ActionView::Emit(EventView::Status { status: StatusView::Ready })];
    assert(ready + Seq::<ActionView>::empty() =~= ready);
}

/// A command that comes before the session is open is kept behind those that came before it, and
/// nothing is done yet.
pub proof fn an_early_command_is_kept(state: SessionState, command: CommandView)
    requires
        state.phase is Initializing || state.phase is Opening,
    ensures
        ({
            let (next, actions) = on_input(state, InputView::Command(command));
            &&& actions.len() == 0
            &&& next.phase == state.phase
            &&& next.session_id == state.session_id
            &&& next.backlog.len() == state.backlog.len() + 1
            &&& next.backlog.take(state.backlog.len() as int) == state.backlog
            &&& next.backlog[state.backlog.len() as int] == command
        }),
{
    let next = on_input(state, InputView::Command(command)).0;
    assert(next.backlog.take(state.backlog.len() as int) =~= state.backlog);
}

/// A prompt begins a turn of an idle session, with the user's text and context as they are and
/// under the session's own name.
pub proof fn a_prompt_begins_a_turn(
    state: SessionState,
    text: Seq<char>,
    contexts: Seq<AttachmentView>,
)
    requires
        state.phase is Idle,
    ensures
        ({
            let (next, actions) = on_input(
                state,
                InputView::Command(CommandView::Prompt { text, contexts }),
            );
            &&& actions.len() == 1
            &&& actions[0] is StartTurn
            &&& actions[0]->StartTurn_session_id == state.session_id
            &&& actions[0]->text == text
            &&& actions[0]->contexts == contexts
            &&& next.phase is Prompting
            &&& next.session_id == state.session_id
            &&& next.backlog == state.backlog
        }),
{
}

/// A prompt while a turn runs, and a cancellation while none does, change nothing.
pub proof fn commands_out_of_place_are_ignored(
    state: SessionState,
    text: Seq<char>,
    contexts: Seq<AttachmentView>,
)
    ensures
        state.phase is Prompting ==> on_input(
            state,
            InputView::Command(CommandView::Prompt { text, contexts }),
        ) == (state, Seq::<ActionView>::empty()),
        state.phase is Idle ==> on_input(state, InputView::Command(CommandView::Cancel)) == (
            state,
            Seq::<ActionView>::empty(),
        ),
{
}

/// The end of the running turn is reported with the agent's reason, and the session takes the next
/// prompt.
pub proof fn an_ended_turn_is_reported(state: SessionState, stop_reason: Seq<char>)
    requires
        state.phase is Prompting,
    ensures
        ({
            let (next, actions) = on_input(state, InputView::TurnEnded { stop_reason });
            &&& actions.len() == 1
            &&& actions[0] == ActionView::Emit(EventView::TurnEnded { stop_reason })
            &&& next.phase is Idle
            &&& next.session_id == state.session_id
            &&& next.backlog == state.backlog
        }),
{
}

/// The failure of the running turn is reported as an error that ends with its cause, and the
/// session takes the next prompt.
pub proof fn a_failed_turn_is_reported(state: SessionState, error: Seq<char>)
    requires
        state.phase is Prompting,
    ensures
        ({
            let (next, actions) = on_input(state, InputView::TurnFailed { error });
            &&& actions.len() == 1
            &&& actions[0] == ActionView::Emit(
                EventView::Error { message: "Prompt failed: "@ + error },
            )
            &&& next.phase is Idle
            &&& next.session_id == state.session_id
            &&& next.backlog == state.backlog
        }),
{
}

/// A refusal during the handshake, a cancellation that cannot be sent, and a lost connection end
/// the session with exactly that cause.
pub proof fn failures_end_the_session(state: SessionState, error: Seq<char>)
    ensures
        state.phase is Initializing || state.phase is Opening ==> ({
            let (next, actions) = on_input(state, InputView::Refused { error });
            next.phase is Closed && actions.len() == 1 && actions[0] == ActionView::Finish(
                Err(error),
            )
        }),
        state.phase is Prompting ==> ({
            let (next, actions) = on_input(state, InputView::CancelFailed { error });
            next.phase is Closed && actions.len() == 1 && actions[0] == ActionView::Finish(
                Err(error),
            )
        }),
        !(state.phase is Closed) ==> ({
            let (next, actions) = on_input(state, InputView::ConnectionLost { error });
            next.phase is Closed && actions.len() == 1 && actions[0] == ActionView::Finish(
                Err(error),
            )
        }),
{
}

/// An answer that the session does not wait for changes nothing: the end or the failure of a turn
/// while none runs, an answer of the handshake out of turn.
pub proof fn answers_out_of_place_are_ignored(
    state: SessionState,
    session_id: Seq<char>,
    text: Seq<char>,
)
    ensures
        !(state.phase is Initializing) ==> on_input(state, InputView::Initialized) == (
            state,
            Seq::<ActionView>::empty(),
        ),
        !(state.phase is Opening) ==> on_input(state, InputView::Opened { session_id }) == (
            state,
            Seq::<ActionView>::empty(),
        ),
        !(state.phase is Initializing || state.phase is Opening) ==> on_input(
            state,
            InputView::Refused { error: text },
        ) == (state, Seq::<ActionView>::empty()),
        !(state.phase is Prompting) ==> on_input(
            state,
            InputView::TurnEnded { stop_reason: text },
        ) == (state, Seq::<ActionView>::empty()),
        !(state.phase is Prompting) ==> on_input(state, InputView::TurnFailed { error: text }) == (
            state,
            Seq::<ActionView>::empty(),
        ),
        !(state.phase is Prompting) ==> on_input(state, InputView::CancelFailed { error: text })
            == (state, Seq::<ActionView>::empty()),
{
}

/// How often the agent is asked to open a session.
pub open spec fn openings(actions: Seq<ActionView>) -> nat {
    actions.filter(|action: ActionView| action is OpenSession).len()
}

/// How often the agent is asked to open a session in two runs of actions.
proof fn lemma_openings_add(a: Seq<ActionView>, b: Seq<ActionView>)
    ensures
        openings(a + b) == openings(a) + openings(b),
    decreases b.len(),
{
    reveal(Seq::filter);
    if b.len() == 0 {
        assert(a + b =~= a);
    } else {
        lemma_openings_add(a, b.drop_last());
        assert((a + b).drop_last() =~= a + b.drop_last());
    }
}

/// No command makes the session ask for an opening.
proof fn lemma_commands_open_nothing(state: SessionState, commands: Seq<CommandView>)
    ensures
        openings(on_commands(state, commands).1) == 0,
    decreases commands.len(),
{
    reveal(Seq::filter);
    if commands.len() > 0 {
        let (next, first) = on_command(state, commands[0]);
        lemma_command_opens_nothing(state, commands[0]);
        lemma_commands_open_nothing(next, commands.skip(1));
        lemma_openings_add(first, on_commands(next, commands.skip(1)).1);
    }
}

/// No command makes the session ask for an opening.
proof fn lemma_command_opens_nothing(state: SessionState, command: CommandView)
    ensures
        openings(on_command(state, command).1) == 0,
{
    reveal_with_fuel(Seq::filter, 3);
    let actions = on_command(state, command).1;
    if actions.len() == 1 {
        assert(actions.drop_last() =~= Seq::<ActionView>::empty());
    }
    if actions.len() == 2 {
        assert(actions.drop_last() =~= seq![ActionView::CancelPermissions]);
        assert(actions.drop_last().drop_last() =~= Seq::<ActionView>::empty());
    }
}

/// How often an input makes the session ask for an opening.
proof fn lemma_input_openings(state: SessionState, input: InputView)
    ensures
        openings(on_input(state, input).1) == (if state.phase is Initializing && input
            is Initialized {
            1nat
        } else {
            0nat
        }),
{
    reveal_with_fuel(Seq::filter, 2);
    let actions = on_input(state, input).1;
    match input {
        InputView::Command(command) => {
            lemma_command_opens_nothing(state, command);
        },
        InputView::Opened { session_id } if state.phase is Opening => {
            let open = SessionState { phase: Phase::Idle, session_id, backlog: Seq::empty() };
            let ready = seq![ActionView::Emit(EventView::Status { status: StatusView::Ready })];
            assert(ready.drop_last() =~= Seq::<ActionView>::empty());
            lemma_commands_open_nothing(open, state.backlog);
            lemma_openings_add(ready, on_commands(open, state.backlog).1);
        },
        _ => {
            if actions.len() > 0 {
                assert(actions.drop_last() =~= Seq::<ActionView>::empty());
            }
        },
    }
}

/// In every run of a session the agent is asked to open a session at most once: not yet while it
/// initializes, and exactly once where the session waits for the opening or is open.
pub proof fn the_agent_is_asked_to_open_once(inputs: Seq<InputView>)
    ensures
        ({
            let (state, actions) = on_inputs(SessionState::fresh(), inputs);
            &&& openings(actions) <= 1
            &&& state.phase is Initializing ==> openings(actions) == 0
            &&& state.phase is Opening || state.phase is Idle || state.phase is Prompting
                ==> openings(actions) == 1
        }),
    decreases inputs.len(),
{
    if inputs.len() == 0 {
        reveal(Seq::filter);
    } else {
        the_agent_is_asked_to_open_once(inputs.drop_last());
        let (middle, before) = on_inputs(SessionState::fresh(), inputs.drop_last());
        lemma_input_openings(middle, inputs.last());
        lemma_openings_add(before, on_input(middle, inputs.last()).1);
        if middle.phase is Opening {
            if let InputView::Opened { session_id } = inputs.last() {
                an_opened_session_is_ready(middle, session_id);
            }
        }
    }
}

/// The handshake: an agent that answers the initialization and opens the session gets it going. It
/// is asked to open a session, reported as ready, and takes the prompt that comes then.
pub proof fn the_handshake_leads_to_a_turn(
    session_id: Seq<char>,
    text: Seq<char>,
    contexts: Seq<AttachmentView>,
)
    ensures
        ({
            let (first, asked) = on_input(SessionState::fresh(), InputView::Initialized);
            let (second, ready) = on_input(first, InputView::Opened { session_id });
            let (third, started) = on_input(
                second,
                InputView::Command(CommandView::Prompt { text, contexts }),
            );
            &&& asked == seq![ActionView::OpenSession]
            &&& ready == seq![ActionView::Emit(EventView::Status { status: StatusView::Ready })]
            &&& started == seq![ActionView::StartTurn { session_id, text, contexts }]
            &&& third.phase is Prompting
        }),
{
    let first = on_input(SessionState::fresh(), InputView::Initialized).0;
    let ready = on_input(first, InputView::Opened { session_id }).1;
    assert(ready =~= seq![ActionView::Emit(EventView::Status { status: StatusView::Ready })]);
}

/// A read gives text only out of a location that the guard accepted, and only text that was read
/// there: with no bounds all of it.
pub proof fn a_read_gives_what_the_accepted_location_holds<
    F: Fn(&Location) -> Lookup,
    G: Fn(&Location) -> Result<String, String>,
>(
    canonicalize: F,
    read: G,
    workspace: FilePathView,
    path: FilePathView,
    line: Option<u32>,
    limit: Option<u32>,
    out: String,
)
    requires
        read_owes(canonicalize, read, workspace, path, line, limit, Ok(out)),
    ensures
        exists|at: Location, text: String|
            {
                &&& guarded(canonicalize, workspace, path, Ok(at))
                &&& #[trigger] call_ensures(read, (&at,), Ok(text))
                &&& line is None && limit is None ==> out@ == text@
                &&& out@ == lines_between(
                    text@,
                    if line is Some && line->0 > 0 {
                        line->0 - 1
                    } else {
                        0
                    },
                    if limit is Some {
                        Some(
                            limit->0 + if line is Some && line->0 > 0 {
                                line->0 - 1
                            } else {
                                0
                            },
                        )
                    } else {
                        None
                    },
                )
            },
{
    let verdict = choose|verdict: Result<Location, PathError>|
        {
            &&& #[trigger] guarded(canonicalize, workspace, path, verdict)
            &&& match verdict {
                Err(error) => false,
                Ok(at) => exists|answer: Result<String, String>|
                    {
                        &&& #[trigger] call_ensures(read, (&at,), answer)
                        &&& match answer {
                            Ok(text) => out@ == lines_between(
                                text@,
                                first_line(line),
                                match limit {
                                    Some(n) => Some(first_line(line) + n),
                                    None => None,
                                },
                            ),
                            Err(error) => false,
                        }
                    },
            }
        };
    let at = verdict->Ok_0;
    let answer = choose|answer: Result<String, String>|
        {
            &&& #[trigger] call_ensures(read, (&at,), answer)
            &&& match answer {
                Ok(text) => out@ == lines_between(
                    text@,
                    first_line(line),
                    match limit {
                        Some(n) => Some(first_line(line) + n),
                        None => None,
                    },
                ),
                Err(error) => false,
            }
        };
    let text = answer->Ok_0;
    all_lines_are_the_text(text@);
    assert(call_ensures(read, (&at,), Ok(text)));
}

/// A read that fails says why: what the guard holds against the path, or what went wrong at the
/// accepted location.
pub proof fn a_failed_read_says_why<
    F: Fn(&Location) -> Lookup,
    G: Fn(&Location) -> Result<String, String>,
>(
    canonicalize: F,
    read: G,
    workspace: FilePathView,
    path: FilePathView,
    line: Option<u32>,
    limit: Option<u32>,
    message: String,
)
    requires
        read_owes(canonicalize, read, workspace, path, line, limit, Err(message)),
    ensures
        (exists|error: PathError| #[trigger]
            guarded(canonicalize, workspace, path, Err(error)) && message@ == error.message_text())
            || (exists|at: Location, cause: String|
            guarded(canonicalize, workspace, path, Ok(at)) && #[trigger] call_ensures(
                read,
                (&at,),
                Err(cause),
            ) && message@ == cause@),
{
    let verdict = choose|verdict: Result<Location, PathError>|
        {
            &&& #[trigger] guarded(canonicalize, workspace, path, verdict)
            &&& match verdict {
                Err(error) => message@ == error.message_text(),
                Ok(at) => exists|answer: Result<String, String>|
                    #[trigger] call_ensures(read, (&at,), answer) && match answer {
                        Ok(text) => false,
                        Err(error) => message@ == error@,
                    },
            }
        };
    match verdict {
        Err(error) => {
            assert(guarded(canonicalize, workspace, path, Err(error)));
        },
        Ok(at) => {
            let answer = choose|answer: Result<String, String>|
                #[trigger] call_ensures(read, (&at,), answer) && match answer {
                    Ok(text) => false,
                    Err(error) => message@ == error@,
                };
            assert(call_ensures(read, (&at,), Err(answer->Err_0)));
        },
    }
}

/// A write that succeeds put exactly the agent's content at a location that the guard accepted; one
/// that fails says why.
pub proof fn a_write_goes_to_the_accepted_location<
    F: Fn(&Location) -> Lookup,
    G: Fn(&Location, &str) -> Result<(), String>,
>(
    canonicalize: F,
    write: G,
    workspace: FilePathView,
    path: FilePathView,
    content: &str,
    r: Result<(), String>,
)
    requires
        write_owes(canonicalize, write, workspace, path, content, r),
    ensures
        (exists|at: Location|
            guarded(canonicalize, workspace, path, Ok(at)) && #[trigger] call_ensures(
                write,
                (&at, content),
                r,
            )) || (r is Err && exists|error: PathError| #[trigger]
            guarded(canonicalize, workspace, path, Err(error)) && r->Err_0@
                == error.message_text()),
{
    let verdict = choose|verdict: Result<Location, PathError>|
        {
            &&& #[trigger] guarded(canonicalize, workspace, path, verdict)
            &&& match verdict {
                Err(error) => r matches Err(message) && message@ == error.message_text(),
                Ok(at) => call_ensures(write, (&at, content), r),
            }
        };
    match verdict {
        Err(error) => {
            assert(guarded(canonicalize, workspace, path, Err(error)));
        },
        Ok(at) => {
            assert(call_ensures(write, (&at, content), r));
        },
    }
}

/// A context item keeps its path and its selection. The file is read only where there is no
/// selection, only at a location that the guard accepts, and what is attached then is all that was
/// read there.
pub proof fn a_context_item_keeps_its_selection<
    F: Fn(&Location) -> Lookup,
    G: Fn(&Location) -> Result<String, String>,
>(
    canonicalize: F,
    read: G,
    workspace: FilePathView,
    context: AttachmentView,
    r: ContextView,
)
    requires
        resolves(canonicalize, read, workspace, context, r),
    ensures
        r.path == context.path,
        r.selection == context.selection,
        context.selection is Some ==> r.content is None,
        r.content is Some ==> exists|at: Location, text: String|
            guarded(canonicalize, workspace, context.path, Ok(at)) && #[trigger] call_ensures(
                read,
                (&at,),
                Ok(text),
            ) && r.content == Some(text@),
        context.selection is None && r.content is None ==> (exists|error: PathError| #[trigger]
            guarded(canonicalize, workspace, context.path, Err(error))) || (exists|
            at: Location,
            cause: String,
        |
            guarded(canonicalize, workspace, context.path, Ok(at)) && #[trigger] call_ensures(
                read,
                (&at,),
                Err(cause),
            )),
{
    if context.selection is None {
        let text = r.content;
        let verdict = choose|verdict: Result<Location, PathError>|
            {
                &&& #[trigger] guarded(canonicalize, workspace, context.path, verdict)
                &&& match verdict {
                    Err(_) => text is None,
                    Ok(at) => exists|answer: Result<String, String>|
                        #[trigger] call_ensures(read, (&at,), answer) && match answer {
                            Ok(content) => text == Some(content@),
                            Err(_) => text is None,
                        },
                }
            };
        match verdict {
            Err(error) => {
                assert(guarded(canonicalize, workspace, context.path, Err(error)));
            },
            Ok(at) => {
                let answer = choose|answer: Result<String, String>|
                    #[trigger] call_ensures(read, (&at,), answer) && match answer {
                        Ok(content) => text == Some(content@),
                        Err(_) => text is None,
                    };
                match answer {
                    Ok(content) => {
                        assert(call_ensures(read, (&at,), Ok(content)));
                    },
                    Err(cause) => {
                        assert(call_ensures(read, (&at,), Err(cause)));
                    },
                }
            },
        }
    }
}

/// The step on the answer to the initialization: exactly one request to open a session.
pub proof fn a_step_on_the_initialization_opens(session: &mut Session, r: Vec<SessionAction>)
    requires
        call_ensures(Session::step, (session, SessionInput::Initialized), r),
    ensures
        old(session)@.phase is Initializing ==> r@.len() == 1 && r@[0] is OpenSession && final(session)@.phase is Opening,
        !(old(session)@.phase is Initializing) ==> r@.len() == 0 && final(session)@ == old(session)@,
{
    lemma_action_views(r@);
}

/// The step on a prompt: it begins a turn of an idle session, with the user's text and context.
pub proof fn a_step_on_a_prompt_begins_a_turn(
    session: &mut Session,
    text: String,
    contexts: Vec<AgentContext>,
    r: Vec<SessionAction>,
)
    requires
        call_ensures(
            Session::step,
            (session, SessionInput::Command(SessionCommand::Prompt { text, contexts })),
            r,
        ),
    ensures
        old(session)@.phase is Idle ==> r@.len() == 1 && (r@[0] matches SessionAction::StartTurn {
            session_id,
            text: said,
            contexts: items,
        } && session_id@ == old(session)@.session_id && said@ == text@ && attachments_view(items@)
            == attachments_view(contexts@)) && final(session)@.phase is Prompting,
        !(old(session)@.phase is Idle) ==> r@.len() == 0 && final(session)@.phase == old(session)@.phase,
{
    lemma_action_views(r@);
}

/// The step on a cancellation: the running turn's permission requests are rejected and the agent is
/// told, in this order.
pub proof fn a_step_on_a_cancellation_cancels(session: &mut Session, r: Vec<SessionAction>)
    requires
        call_ensures(Session::step, (session, SessionInput::Command(SessionCommand::Cancel)), r),
    ensures
        old(session)@.phase is Prompting ==> r@.len() == 2 && r@[0] is CancelPermissions && (r@[1]
            matches SessionAction::SendCancel { session_id } && session_id@ == old(session)@.session_id),
        !(old(session)@.phase is Prompting) ==> r@.len() == 0,
        final(session)@.phase == old(session)@.phase,
{
    lemma_action_views(r@);
}

/// The step on the opening: the agent is reported as ready first, and the session has the name that
/// it was given.
pub proof fn a_step_on_the_opening_reports_ready(
    session: &mut Session,
    session_id: String,
    r: Vec<SessionAction>,
)
    requires
        call_ensures(Session::step, (session, SessionInput::Opened { session_id }), r),
        old(session)@.phase is Opening,
    ensures
        r@.len() >= 1,
        r@[0] matches SessionAction::Emit(AgentEvent::Status { status }) && status is Ready,
        final(session)@.session_id == session_id@,
        final(session)@.backlog.len() == 0,
        old(session)@.backlog.len() == 0 ==> r@.len() == 1 && final(session)@.phase is Idle,
{
    an_opened_session_is_ready(old(session)@, session_id@);
    lemma_action_views(r@);
}

/// The step on the end of a turn, on its failure, and on what ends the session: each is reported
/// once, with the reason that came with it.
pub proof fn a_step_on_an_end_reports_it(
    session: &mut Session,
    input: SessionInput,
    r: Vec<SessionAction>,
)
    requires
        call_ensures(Session::step, (session, input), r),
    ensures
        input matches SessionInput::TurnEnded { stop_reason } ==> (old(session)@.phase is Prompting
            ==> r@.len() == 1 && (r@[0] matches SessionAction::Emit(
            AgentEvent::TurnEnded { stop_reason: reported },
        ) && reported@ == stop_reason@) && final(session)@.phase is Idle),
        input matches SessionInput::TurnFailed { error } ==> (old(session)@.phase is Prompting
            ==> r@.len() == 1 && (r@[0] matches SessionAction::Emit(AgentEvent::Error { message })
            && message@ == "Prompt failed: "@ + error@) && final(session)@.phase is Idle),
        input matches SessionInput::Refused { error } ==> (old(session)@.phase is Initializing
            || old(session)@.phase is Opening ==> r@.len() == 1 && (r@[0]
            matches SessionAction::Finish(Err(cause)) && cause@ == error@)),
        input matches SessionInput::ConnectionLost { error } ==> (!(old(session)@.phase is Closed)
            ==> r@.len() == 1 && (r@[0] matches SessionAction::Finish(Err(cause)) && cause@
            == error@)),
        input matches SessionInput::CancelFailed { error } ==> (old(session)@.phase is Prompting
            ==> r@.len() == 1 && (r@[0] matches SessionAction::Finish(Err(cause)) && cause@
            == error@)),
        input is CommandsClosed && !(old(session)@.phase is Closed) ==> r@.len() == 1 && (r@[0]
            matches SessionAction::Finish(Ok(_))) && final(session)@.phase is Closed,
        old(session)@.phase is Closed ==> r@.len() == 0 && final(session)@.phase is Closed,
{
    lemma_action_views(r@);
}

/// The actions stand for what they are, one by one.
proof fn lemma_action_views(actions: Seq<SessionAction>)
    ensures
        actions_view(actions).len() == actions.len(),
        actions.len() > 0 ==> actions_view(actions)[0] == actions[0]@,
        actions.len() > 1 ==> actions_view(actions)[1] == actions[1]@,
{
}

/// A read through the session: text only from where the guard accepts the path, and all of it where
/// no line and no limit is asked for.
pub proof fn reading_a_file_keeps_to_the_guard<
    F: Fn(&Location) -> Lookup,
    G: Fn(&Location) -> Result<String, String>,
>(
    env: &SessionEnv,
    path: &FilePath,
    line: Option<u32>,
    limit: Option<u32>,
    canonicalize: &F,
    read: &G,
    out: String,
)
    requires
        call_ensures(
            SessionEnv::read_file::<F, G>,
            (env, path, line, limit, canonicalize, read),
            Ok(out),
        ),
    ensures
        exists|at: Location, text: String|
            {
                &&& guarded(*canonicalize, env.workspace@, path@, Ok(at))
                &&& #[trigger] call_ensures(*read, (&at,), Ok(text))
                &&& line is None && limit is None ==> out@ == text@
                &&& out@ == lines_between(
                    text@,
                    first_line(line),
                    match limit {
                        Some(n) => Some(first_line(line) + n),
                        None => None,
                    },
                )
            },
{
    a_read_gives_what_the_accepted_location_holds(
        *canonicalize,
        *read,
        env.workspace@,
        path@,
        line,
        limit,
        out,
    );
    let (at, text) = choose|at: Location, text: String|
        {
            &&& guarded(*canonicalize, env.workspace@, path@, Ok(at))
            &&& #[trigger] call_ensures(*read, (&at,), Ok(text))
            &&& line is None && limit is None ==> out@ == text@
            &&& out@ == lines_between(
                text@,
                if line is Some && line->0 > 0 {
                    line->0 - 1
                } else {
                    0
                },
                if limit is Some {
                    Some(
                        limit->0 + if line is Some && line->0 > 0 {
                            line->0 - 1
                        } else {
                            0
                        },
                    )
                } else {
                    None
                },
            )
        };
    assert(call_ensures(*read, (&at,), Ok(text)));
}

/// A write through the session: exactly the agent's content, to where the guard accepts the path,
/// or a refusal by the guard.
pub proof fn writing_a_file_keeps_to_the_guard<
    F: Fn(&Location) -> Lookup,
    G: Fn(&Location, &str) -> Result<(), String>,
>(
    env: &SessionEnv,
    path: &FilePath,
    content: &str,
    canonicalize: &F,
    write: &G,
    r: Result<(), String>,
)
    requires
        call_ensures(
            SessionEnv::write_file::<F, G>,
            (env, path, content, canonicalize, write),
            r,
        ),
    ensures
        (exists|at: Location|
            guarded(*canonicalize, env.workspace@, path@, Ok(at)) && #[trigger] call_ensures(
                *write,
                (&at, content),
                r,
            )) || (r is Err && exists|error: PathError| #[trigger]
            guarded(*canonicalize, env.workspace@, path@, Err(error)) && r->Err_0@
                == error.message_text()),
{
    a_write_goes_to_the_accepted_location(
        *canonicalize,
        *write,
        env.workspace@,
        path@,
        content,
        r,
    );
}

/// Context items that all have a selection are all attached, in order, each with its own path and
/// selection and without the file's text.
pub proof fn selections_are_attached_in_order<
    F: Fn(&Location) -> Lookup,
    G: Fn(&Location) -> Result<String, String>,
>(
    env: &SessionEnv,
    contexts: Vec<AgentContext>,
    canonicalize: &F,
    read: &G,
    r: Vec<ResolvedContext>,
    i: int,
)
    requires
        call_ensures(
            SessionEnv::resolve_contexts::<F, G>,
            (env, contexts, canonicalize, read),
            r,
        ),
        forall|j: int| 0 <= j < contexts@.len() ==> (#[trigger] contexts@[j]).selection is Some,
    ensures
        r@.len() == contexts@.len(),
        0 <= i < r@.len() ==> r@[i].path@ == contexts@[i].path@ && r@[i].selection is Some
            && r@[i].selection->0@ == contexts@[i].selection->0@ && r@[i].content is None,
{
    let views = attachments_view(contexts@);
    let resolved = choose|resolved: Seq<ContextView>|
        {
            &&& #[trigger] all_resolve(*canonicalize, *read, env.workspace@, views, resolved)
            &&& contexts_view(r@) == with_text(resolved)
        };
    assert forall|j: int| 0 <= j < resolved.len() implies (#[trigger] resolved[j]).selection
        is Some by {
        assert(contexts@[j].selection is Some);
        assert(views[j] == contexts@[j]@);
    }
    lemma_all_have_text(resolved);
    assert(contexts_view(r@).len() == r@.len());
    if 0 <= i < r@.len() {
        assert(contexts@[i].selection is Some);
        assert(contexts_view(r@)[i] == r@[i]@);
        assert(resolved[i] == r@[i]@);
        assert(views[i] == contexts@[i]@);
    }
}

/// Items that all have a selection all have a text.
proof fn lemma_all_have_text(contexts: Seq<ContextView>)
    requires
        forall|j: int| 0 <= j < contexts.len() ==> (#[trigger] contexts[j]).selection is Some,
    ensures
        with_text(contexts) == contexts,
    decreases contexts.len(),
{
    if contexts.len() > 0 {
        let before = contexts.drop_last();
        assert forall|j: int| 0 <= j < before.len() implies (#[trigger] before[j]).selection
            is Some by {
            assert(contexts[j].selection is Some);
        }
        lemma_all_have_text(before);
        assert(contexts[contexts.len() - 1].selection is Some);
        assert(before.push(contexts.last()) =~= contexts);
    } else {
        assert(with_text(contexts) =~= contexts);
    }
}

/// A prompt without context items is the user's text, and with them it ends with it.
pub proof fn a_prompt_ends_with_the_user_text<
    F: Fn(&Location) -> Lookup,
    G: Fn(&Location) -> Result<String, String>,
>(
    env: &SessionEnv,
    text: &str,
    contexts: Vec<AgentContext>,
    canonicalize: &F,
    read: &G,
    r: String,
)
    requires
        call_ensures(
            SessionEnv::prompt_text::<F, G>,
            (env, text, contexts, canonicalize, read),
            r,
        ),
    ensures
        contexts@.len() == 0 ==> r@ == text@,
        r@.len() >= text@.len(),
        r@.skip(r@.len() - text@.len()) == text@,
{
    let views = attachments_view(contexts@);
    let resolved = choose|resolved: Seq<ContextView>|
        {
            &&& #[trigger] all_resolve(*canonicalize, *read, env.workspace@, views, resolved)
            &&& r@ == context_blocks(resolved) + text@
        };
    if contexts@.len() == 0 {
        assert(resolved.len() == 0);
        assert(r@ =~= text@);
    }
    assert(r@.skip(r@.len() - text@.len()) =~= text@);
}

/// A command, an input and an action stand for what they hold.
pub proof fn commands_and_actions_are_told_by_their_views(
    command: SessionCommand,
    input: SessionInput,
    action: SessionAction,
)
    ensures
        command matches SessionCommand::Prompt { text, contexts } ==> command@ == (
        CommandView::Prompt { text: text@, contexts: attachments_view(contexts@) }),
        command is Cancel <==> command@ is Cancel,
        input matches SessionInput::Opened { session_id } ==> input@ == (InputView::Opened {
            session_id: session_id@,
        }),
        input matches SessionInput::Command(sent) ==> input@ == InputView::Command(sent@),
        input matches SessionInput::TurnEnded { stop_reason } ==> input@ == (InputView::TurnEnded {
            stop_reason: stop_reason@,
        }),
        input is Initialized <==> input@ is Initialized,
        input is CommandsClosed <==> input@ is CommandsClosed,
        input is TurnFailed <==> input@ is TurnFailed,
        input is Refused <==> input@ is Refused,
        action matches SessionAction::StartTurn { session_id, text, contexts } ==> action@ == (
        ActionView::StartTurn {
            session_id: session_id@,
            text: text@,
            contexts: attachments_view(contexts@),
        }),
        action matches SessionAction::Emit(event) ==> action@ == ActionView::Emit(event@),
        action matches SessionAction::SendCancel { session_id } ==> action@ == (
        ActionView::SendCancel { session_id: session_id@ }),
        action is OpenSession <==> action@ is OpenSession,
        action is CancelPermissions <==> action@ is CancelPermissions,
        action is Finish <==> action@ is Finish,
{
}

} // verus!
