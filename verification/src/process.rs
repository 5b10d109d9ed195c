//! Decides when the agent's process tree is killed, so that nothing of it survives its session.

use vstd::prelude::*;

verus! {

/// What a session knows about the agent process it guards.
///
/// The session attaches the pid right after spawning; the manager kills the tree on stop without
/// waiting for the session, which may be busy. Each operation says which process tree is to be
/// killed now.
#[derive(Debug)]
pub struct AgentProcess {
    /// Pid of the spawned agent, which leads its own process group. `None` before the spawn and
    /// after the session released the process.
    pid: Option<u32>,
    /// Set by [`AgentProcess::kill`]; a process attached later is killed at once.
    killed: bool,
}

/// What an [`AgentProcess`] stands for.
pub struct Guard {
    pub pid: Option<u32>,
    pub killed: bool,
}

impl View for AgentProcess {
    type V = Guard;

    closed spec fn view(&self) -> Guard {
        Guard { pid: self.pid, killed: self.killed }
    }
}

/// What can happen to a handle.
pub enum GuardOp {
    Attach(u32),
    Release,
    Kill,
}

impl Guard {
    /// The handle with no process attached.
    pub open spec fn fresh() -> Guard {
        Guard { pid: None, killed: false }
    }

    /// The handle after `op`.
    pub open spec fn after(self, op: GuardOp) -> Guard {
        match op {
            GuardOp::Attach(pid) => if self.killed {
                self
            } else {
                Guard { pid: Some(pid), killed: false }
            },
            GuardOp::Release => Guard { pid: None, killed: self.killed },
            GuardOp::Kill => Guard { pid: None, killed: true },
        }
    }

    /// The pid that leads the process tree to be killed on `op`.
    pub open spec fn to_kill(self, op: GuardOp) -> Option<u32> {
        match op {
            GuardOp::Attach(pid) => if self.killed {
                Some(pid)
            } else {
                None
            },
            GuardOp::Release => self.pid,
            GuardOp::Kill => self.pid,
        }
    }
}

/// What comes of attaching a process.
#[derive(Debug, Clone, Copy, PartialEq, Eq, Structural)]
pub enum Attached {
    /// The process is guarded from now on.
    Guarded,
    /// The handle was killed before: the process tree led by this pid is to be killed at once.
    KillNow(u32),
}

impl AgentProcess {
    /// Creates a handle with no process attached.
    pub fn new() -> (r: Self)
        ensures
            r@ == Guard::fresh(),
    {
        AgentProcess { pid: None, killed: false }
    }

    /// Records the pid of the freshly spawned agent. If the handle was already killed, the
    /// process is to be killed at once and is not recorded.
    pub fn attach(&mut self, pid: u32) -> (r: Attached)
        ensures
            final(self)@ == old(self)@.after(GuardOp::Attach(pid)),
            r == match old(self)@.to_kill(GuardOp::Attach(pid)) {
                Some(now) => Attached::KillNow(now),
                None => Attached::Guarded,
            },
    {
        if self.killed {
            return Attached::KillNow(pid);
        }
        self.pid = Some(pid);
        Attached::Guarded
    }

    /// Forgets the attached process, so a later call cannot hit a recycled pid, and returns its
    /// pid: its process tree is to be killed now.
    pub fn release(&mut self) -> (r: Option<u32>)
        ensures
            final(self)@ == old(self)@.after(GuardOp::Release),
            r == old(self)@.to_kill(GuardOp::Release),
    {
        let pid = self.pid;
        self.pid = None;
        pid
    }

    /// Marks the handle killed and forgets the attached process, whose pid is returned: its
    /// process tree is to be killed now.
    pub fn kill(&mut self) -> (r: Option<u32>)
        ensures
            final(self)@ == old(self)@.after(GuardOp::Kill),
            r == old(self)@.to_kill(GuardOp::Kill),
    {
        let pid = self.pid;
        self.pid = None;
        self.killed = true;
        pid
    }

    /// True once [`AgentProcess::kill`] was called.
    pub fn was_killed(&self) -> (r: bool)
        ensures
            r == self@.killed,
    {
        self.killed
    }
}

/// The process group to signal so that the tree led by `pid` dies: groups are numbered by
/// non-negative 32-bit numbers, and a pid beyond them leads none.
pub fn process_group(pid: u32) -> (r: Option<i32>)
    ensures
        r == (if pid <= i32::MAX {
            Some(pid as i32)
        } else {
            None
        }),
{
    if pid <= 0x7fff_ffff {
        Some(pid as i32)
    } else {
        None
    }
}

/// The handle after all of `ops`.
pub open spec fn after_all(guard: Guard, ops: Seq<GuardOp>) -> Guard
    decreases ops.len(),
{
    if ops.len() == 0 {
        guard
    } else {
        after_all(guard, ops.drop_last()).after(ops.last())
    }
}

/// The pids whose process trees are killed in the course of `ops`, in order.
pub open spec fn kills(guard: Guard, ops: Seq<GuardOp>) -> Seq<u32>
    decreases ops.len(),
{
    if ops.len() == 0 {
        Seq::empty()
    } else {
        match after_all(guard, ops.drop_last()).to_kill(ops.last()) {
            Some(pid) => kills(guard, ops.drop_last()).push(pid),
            None => kills(guard, ops.drop_last()),
        }
    }
}

/// The pids that `ops` attach, in order.
pub open spec fn attaches(ops: Seq<GuardOp>) -> Seq<u32>
    decreases ops.len(),
{
    if ops.len() == 0 {
        Seq::empty()
    } else {
        match ops.last() {
            GuardOp::Attach(pid) => attaches(ops.drop_last()).push(pid),
            _ => attaches(ops.drop_last()),
        }
    }
}

/// Whether `ops` attach a process only while none is attached.
pub open spec fn orderly(guard: Guard, ops: Seq<GuardOp>) -> bool {
    forall|i: int|
        0 <= i < ops.len() && #[trigger] ops[i] is Attach ==> after_all(guard, ops.take(i)).pid
            is None
}

/// The attached pid, as a sequence.
pub open spec fn held(guard: Guard) -> Seq<u32> {
    match guard.pid {
        Some(pid) => seq![pid],
        None => Seq::empty(),
    }
}

/// Once killed, a handle holds no process, whatever happens to it.
pub proof fn nothing_is_attached_after_a_kill(ops: Seq<GuardOp>)
    ensures
        after_all(Guard::fresh(), ops).killed ==> after_all(Guard::fresh(), ops).pid is None,
    decreases ops.len(),
{
    if ops.len() > 0 {
        nothing_is_attached_after_a_kill(ops.drop_last());
    }
}

/// Every process attached to a handle is killed once and no more, in the order in which they
/// were attached, but for the one that is still attached. In particular, after a release or a
/// kill none of them survives.
pub proof fn every_attached_process_is_killed_once(ops: Seq<GuardOp>)
    requires
        orderly(Guard::fresh(), ops),
    ensures
        kills(Guard::fresh(), ops) + held(after_all(Guard::fresh(), ops)) == attaches(ops),
    decreases ops.len(),
{
    let guard = Guard::fresh();
    if ops.len() > 0 {
        let before = ops.drop_last();
        assert(orderly(guard, before)) by {
            assert forall|i: int|
                0 <= i < before.len() && #[trigger] before[i] is Attach implies after_all(
                guard,
                before.take(i),
            ).pid is None by {
                assert(ops[i] is Attach);
                assert(before.take(i) =~= ops.take(i));
            }
        }
        every_attached_process_is_killed_once(before);
        nothing_is_attached_after_a_kill(before);
        assert(ops.take(ops.len() - 1) =~= before);
        assert(ops[ops.len() - 1] == ops.last());
    }
    assert(kills(guard, ops) + held(after_all(guard, ops)) =~= attaches(ops));
}

/// A handle counts as killed once a kill was among what happened to it, and not before.
pub proof fn a_handle_is_killed_by_a_kill(ops: Seq<GuardOp>)
    ensures
        after_all(Guard::fresh(), ops).killed <==> exists|i: int|
            0 <= i < ops.len() && #[trigger] ops[i] is Kill,
    decreases ops.len(),
{
    if ops.len() > 0 {
        let before = ops.drop_last();
        a_handle_is_killed_by_a_kill(before);
        if exists|i: int| 0 <= i < before.len() && #[trigger] before[i] is Kill {
            let i = choose|i: int| 0 <= i < before.len() && #[trigger] before[i] is Kill;
            assert(ops[i] is Kill);
        }
        if ops.last() is Kill {
            assert(ops[ops.len() - 1] is Kill);
        }
        if exists|i: int| 0 <= i < ops.len() && #[trigger] ops[i] is Kill {
            let i = choose|i: int| 0 <= i < ops.len() && #[trigger] ops[i] is Kill;
            if i < before.len() {
                assert(before[i] is Kill);
            }
        }
    }
}

/// A process that is attached to a handle that was not killed is not killed then; it is the one that
/// the next release or kill names.
pub proof fn an_attached_process_is_the_one_killed(
    guard: Guard,
    pid: u32,
)
    requires
        !guard.killed,
    ensures
        guard.to_kill(GuardOp::Attach(pid)) is None,
        guard.after(GuardOp::Attach(pid)).to_kill(GuardOp::Release) == Some(pid),
        guard.after(GuardOp::Attach(pid)).to_kill(GuardOp::Kill) == Some(pid),
        !guard.after(GuardOp::Attach(pid)).killed,
        guard.after(GuardOp::Release).to_kill(GuardOp::Kill) is None,
        guard.after(GuardOp::Kill).to_kill(GuardOp::Kill) is None,
        guard.after(GuardOp::Kill).to_kill(GuardOp::Release) is None,
{
}

/// Attaching to a handle that was killed names that very process to be killed at once; attaching to
/// another one guards it.
pub proof fn attaching_guards_or_kills(process: &mut AgentProcess, pid: u32, r: Attached)
    requires
        call_ensures(AgentProcess::attach, (process, pid), r),
    ensures
        old(process)@.killed ==> r == Attached::KillNow(pid) && final(process)@ == old(process)@,
        !old(process)@.killed ==> r is Guarded && final(process)@.pid == Some(pid)
            && !final(process)@.killed,
{
}

/// A release names the attached process and forgets it, and does not count as a kill.
pub proof fn a_release_names_the_process(process: &mut AgentProcess, r: Option<u32>)
    requires
        call_ensures(AgentProcess::release, (process,), r),
    ensures
        r == old(process)@.pid,
        final(process)@.pid is None,
        final(process)@.killed == old(process)@.killed,
{
}

/// A kill names the attached process and forgets it, and the handle counts as killed from then on.
pub proof fn a_kill_names_the_process(process: &mut AgentProcess, r: Option<u32>)
    requires
        call_ensures(AgentProcess::kill, (process,), r),
    ensures
        r == old(process)@.pid,
        final(process)@.pid is None,
        final(process)@.killed,
{
}

/// The group of a process is numbered as the process is, wherever there is such a group.
pub proof fn a_process_leads_the_group_of_its_number(pid: u32, r: Option<i32>)
    requires
        call_ensures(process_group, (pid,), r),
    ensures
        r is Some <==> pid < 0x8000_0000,
        r is Some ==> r->0 == pid,
{
}

} // verus!
