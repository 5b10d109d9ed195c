//! Tracks permission requests that are waiting for a user decision.

use futures::channel::oneshot;
use std::collections::HashMap;
use vstd::prelude::*;

use crate::events::{opt_text, AgentRequestId};

verus! {

broadcast use vstd::std_specs::hash::group_hash_axioms;

/// Declares the sending half of a one-shot channel.
#[verifier::external_type_specification]
#[verifier::external_body]
#[verifier::reject_recursive_types(T)]
pub struct ExSender<T>(oneshot::Sender<T>);

/// Declares the receiving half of a one-shot channel.
#[verifier::external_type_specification]
#[verifier::external_body]
#[verifier::reject_recursive_types(T)]
pub struct ExReceiver<T>(oneshot::Receiver<T>);

/// Declares what a receiver gives when its sender is gone: the declaration of the receiver rests
/// on it, because the receiver is a future with this error.
#[verifier::external_type_specification]
#[verifier::external_body]
pub struct ExCanceled(oneshot::Canceled);

/// What `futures::channel::oneshot::Sender::is_connected_to` says: whether the two halves were
/// created by the same call of `oneshot::channel`.
pub uninterp spec fn connected(
    sender: oneshot::Sender<Option<String>>,
    receiver: oneshot::Receiver<Option<String>>,
) -> bool;

/// Calls `futures::channel::oneshot::channel`, which creates the two connected halves of a new
/// one-shot channel.
#[verifier::external_body]
fn decision_channel() -> (r: (
    oneshot::Sender<Option<String>>,
    oneshot::Receiver<Option<String>>,
))
    ensures
        connected(r.0, r.1),
{
    oneshot::channel()
}

/// Specifies `futures::channel::oneshot::Sender::send`, which gives the value back when the
/// receiver is gone. Whether it is gone is not for the sender to decide, so nothing is said of
/// that.
pub assume_specification<T>[ oneshot::Sender::<T>::send ](
    sender: oneshot::Sender<T>,
    t: T,
) -> (r: Result<(), T>)
    ensures
        r matches Err(back) ==> back == t,
;

/// Hands out request ids and delivers the user's decision to the waiting session. A decision is
/// `Some(option_id)` to pick an option and `None` to reject.
pub struct PermissionBroker {
    next_id: u64,
    pending: HashMap<AgentRequestId, oneshot::Sender<Option<String>>>,
}

/// Hands `decision` to the waiting session, or gives it back where nobody waits for it any more:
/// the result is what sending `decision` through `sender` gave.
pub fn deliver(sender: oneshot::Sender<Option<String>>, decision: Option<String>) -> (r: Result<
    (),
    Option<String>,
>)
    ensures
        call_ensures(oneshot::Sender::<Option<String>>::send, (sender, decision), r),
        r matches Err(back) ==> opt_text(back) == opt_text(decision),
{
    sender.send(decision)
}

/// Whether a reply counts as delivered, given what came of handing it over: `None` where the
/// request was not pending.
pub fn reply_counts(handed: Option<Result<(), Option<String>>>) -> (r: bool)
    ensures
        r == (handed matches Some(Ok(_))),
{
    match handed {
        Some(Ok(_)) => true,
        _ => false,
    }
}

/// What a [`PermissionBroker`] stands for.
#[verifier::ext_equal]
pub struct BrokerView {
    /// The id that the next request gets.
    pub upcoming: u64,
    /// The senders of the pending requests, by id.
    pub waiting: Map<AgentRequestId, oneshot::Sender<Option<String>>>,
}

/// Something that is done with a broker.
pub enum BrokerStep {
    /// A request is registered: the halves of its channel.
    Register {
        sender: oneshot::Sender<Option<String>>,
        receiver: oneshot::Receiver<Option<String>>,
    },
    /// The request with this id is answered, if it is pending.
    Answer { id: AgentRequestId },
    /// Every pending request is dropped.
    CancelAll,
}

/// A broker of which nothing was asked yet.
pub open spec fn fresh_broker() -> BrokerView {
    BrokerView { upcoming: 0, waiting: Map::empty() }
}

/// The broker after one step.
pub open spec fn stepped(broker: BrokerView, step: BrokerStep) -> BrokerView {
    match step {
        BrokerStep::Register { sender, .. } => BrokerView {
            upcoming: broker.upcoming.wrapping_add(1),
            waiting: broker.waiting.insert(broker.upcoming, sender),
        },
        BrokerStep::Answer { id } => BrokerView { waiting: broker.waiting.remove(id), ..broker },
        BrokerStep::CancelAll => BrokerView { waiting: Map::empty(), ..broker },
    }
}

/// Whether a request was registered between `before` and `after`, with the id `id`, and
/// `receiver` is where its decision arrives.
pub open spec fn registered(
    before: BrokerView,
    after: BrokerView,
    id: AgentRequestId,
    receiver: oneshot::Receiver<Option<String>>,
) -> bool {
    &&& id == before.upcoming
    &&& connected(after.waiting[id], receiver)
    &&& after == stepped(
        before,
        BrokerStep::Register { sender: after.waiting[id], receiver },
    )
}

/// Whether `r` is what a reply to the request `id` owes: `false` where the request is not pending,
/// and else whether the decision arrived when it was sent to that request's waiter.
pub open spec fn reply_owed(
    broker: BrokerView,
    id: AgentRequestId,
    decision: Option<String>,
    r: bool,
) -> bool {
    if broker.waiting.contains_key(id) {
        exists|handed: Result<(), Option<String>>| #[trigger]
            call_ensures(
                oneshot::Sender::<Option<String>>::send,
                (broker.waiting[id], decision),
                handed,
            ) && r == (handed is Ok)
    } else {
        !r
    }
}

impl View for PermissionBroker {
    type V = BrokerView;

    open spec fn view(&self) -> BrokerView {
        BrokerView { upcoming: self.upcoming(), waiting: self.waiting() }
    }
}

impl PermissionBroker {
    /// The id that the next request gets.
    pub closed spec fn upcoming(&self) -> u64 {
        self.next_id
    }

    /// The senders of the pending requests, by id.
    pub closed spec fn waiting(&self) -> Map<AgentRequestId, oneshot::Sender<Option<String>>> {
        self.pending@
    }

    /// Creates an empty broker.
    pub fn new() -> (r: Self)
        ensures
            r@ == fresh_broker(),
    {
        PermissionBroker { next_id: 0, pending: HashMap::new() }
    }

    /// Registers a new pending request and returns its id and the receiver to await.
    pub fn register(&mut self) -> (r: (AgentRequestId, oneshot::Receiver<Option<String>>))
        ensures
            registered(old(self)@, final(self)@, r.0, r.1),
    {
        let id = self.next_id;
        self.next_id = id.wrapping_add(1);
        let (tx, rx) = decision_channel();
        self.pending.insert(id, tx);
        (id, rx)
    }

    /// Takes the sender of a pending request out, if the request is pending.
    pub fn take(&mut self, id: AgentRequestId) -> (r: Option<oneshot::Sender<Option<String>>>)
        ensures
            r == (if old(self)@.waiting.contains_key(id) {
                Some(old(self)@.waiting[id])
            } else {
                None
            }),
            final(self)@ == stepped(old(self)@, BrokerStep::Answer { id }),
    {
        let r = self.pending.remove(&id);
        assert(self.pending@ =~= old(self).pending@.remove(id));
        r
    }

    /// Delivers a decision. Returns `false` if the id is unknown or already answered. Where the
    /// request is pending, the decision is sent to whoever registered it, and the result is
    /// whether it arrived. That rests with the receiver, which may be gone: the request is then
    /// answered all the same. So a reply is delivered at most once.
    pub fn reply(&mut self, id: AgentRequestId, option_id: Option<String>) -> (r: bool)
        ensures
            reply_owed(old(self)@, id, option_id, r),
            final(self)@ == stepped(old(self)@, BrokerStep::Answer { id }),
    {
        let handed = match self.take(id) {
            Some(tx) => Some(deliver(tx, option_id)),
            None => None,
        };
        reply_counts(handed)
    }

    /// Drops every pending request so all waiters see a cancellation.
    pub fn cancel_all(&mut self)
        ensures
            final(self)@ == stepped(old(self)@, BrokerStep::CancelAll),
    {
        self.pending.clear();
    }
}

/// What the agent is told about its permission request.
#[derive(Debug, PartialEq)]
pub enum PermissionOutcome {
    Selected(String),
    Cancelled,
}

/// The answer to a permission request: the option that the user picked, and a cancellation where
/// the user rejected the request or (`None`) the request was dropped.
pub fn permission_outcome(decision: Option<Option<String>>) -> (r: PermissionOutcome)
    ensures
        match decision {
            Some(Some(id)) => r matches PermissionOutcome::Selected(selected) && selected@ == id@,
            _ => r is Cancelled,
        },
{
    match decision {
        Some(Some(id)) => PermissionOutcome::Selected(id),
        _ => PermissionOutcome::Cancelled,
    }
}

/// The id that the broker hands out after `n` further registrations.
pub open spec fn id_after(first: u64, n: nat) -> u64
    decreases n,
{
    if n == 0 {
        first
    } else {
        id_after(first, (n - 1) as nat).wrapping_add(1)
    }
}

/// The ids go up by one, and around at the end of the range.
proof fn lemma_id_after(first: u64, n: nat)
    ensures
        id_after(first, n) == (first + n) % 0x1_0000_0000_0000_0000,
    decreases n,
{
    if n > 0 {
        lemma_id_after(first, (n - 1) as nat);
    }
}

/// No id is handed out twice in as many registrations as there are ids.
pub proof fn ids_are_distinct(first: u64, i: nat, j: nat)
    requires
        i < j,
        j - i <= u64::MAX,
    ensures
        id_after(first, i) != id_after(first, j),
{
    lemma_id_after(first, i);
    lemma_id_after(first, j);
}

/// The broker after all of `steps`, from the first on.
pub open spec fn after_steps(steps: Seq<BrokerStep>) -> BrokerView
    decreases steps.len(),
{
    if steps.len() == 0 {
        fresh_broker()
    } else {
        stepped(after_steps(steps.drop_last()), steps.last())
    }
}

/// The id of the request that the `i`-th step registers.
pub open spec fn id_given(steps: Seq<BrokerStep>, i: int) -> AgentRequestId {
    after_steps(steps.take(i)).upcoming
}

/// Whether the `j`-th step ends a request with this id: it answers the request, drops all of them,
/// or gives the id, once all ids were given, to another request.
pub open spec fn ends_request(steps: Seq<BrokerStep>, j: int, id: AgentRequestId) -> bool {
    match steps[j] {
        BrokerStep::Register { .. } => id_given(steps, j) == id,
        BrokerStep::Answer { id: answered } => answered == id,
        BrokerStep::CancelAll => true,
    }
}

/// Whether the `i`-th step registered a request with this id, and no step since has ended it.
pub open spec fn open_since(steps: Seq<BrokerStep>, i: int, id: AgentRequestId) -> bool {
    &&& 0 <= i < steps.len()
    &&& steps[i] is Register
    &&& id_given(steps, i) == id
    &&& forall|j: int| i < j < steps.len() ==> !#[trigger] ends_request(steps, j, id)
}

/// What the last step leaves open of the requests that were open before it.
proof fn lemma_open_before(steps: Seq<BrokerStep>, i: int, id: AgentRequestId)
    requires
        0 <= i < steps.len() - 1,
    ensures
        open_since(steps, i, id) <==> open_since(steps.drop_last(), i, id) && !ends_request(
            steps,
            steps.len() - 1,
            id,
        ),
{
    let before = steps.drop_last();
    assert(before.take(i) =~= steps.take(i));
    assert forall|j: int| i < j < before.len() implies #[trigger] ends_request(before, j, id)
        == ends_request(steps, j, id) by {
        assert(before.take(j) =~= steps.take(j));
    }
    if open_since(steps, i, id) {
        assert(!ends_request(steps, steps.len() - 1, id));
        assert forall|j: int| i < j < before.len() implies !#[trigger] ends_request(
            before,
            j,
            id,
        ) by {
            assert(!ends_request(steps, j, id));
        }
    }
    if open_since(before, i, id) && !ends_request(steps, steps.len() - 1, id) {
        assert forall|j: int| i < j < steps.len() implies !#[trigger] ends_request(
            steps,
            j,
            id,
        ) by {
            if j < before.len() {
                assert(!ends_request(before, j, id));
            }
        }
    }
}

/// Whatever was done with a broker, the requests that wait are those that were registered and have
/// not been answered or dropped since, each with its own sender.
pub proof fn a_request_waits_until_it_is_ended(steps: Seq<BrokerStep>, id: AgentRequestId)
    ensures
        after_steps(steps).waiting.contains_key(id) <==> exists|i: int| #[trigger]
            open_since(steps, i, id),
        forall|i: int| #[trigger]
            open_since(steps, i, id) ==> after_steps(steps).waiting[id] == steps[i]->sender,
    decreases steps.len(),
{
    if steps.len() > 0 {
        let before = steps.drop_last();
        let last = steps.len() - 1;
        a_request_waits_until_it_is_ended(before, id);
        assert(steps.take(last) =~= before);
        assert forall|i: int| #[trigger] open_since(steps, i, id) implies after_steps(
            steps,
        ).waiting.contains_key(id) && after_steps(steps).waiting[id] == steps[i]->sender by {
            if i < last {
                lemma_open_before(steps, i, id);
                assert(open_since(before, i, id));
                assert(!ends_request(steps, last, id));
            }
        }
        if after_steps(steps).waiting.contains_key(id) {
            if steps.last() is Register && id_given(steps, last) == id {
                assert(open_since(steps, last, id));
            } else {
                let i = choose|i: int| #[trigger] open_since(before, i, id);
                lemma_open_before(steps, i, id);
                assert(open_since(steps, i, id));
            }
        }
    }
}

/// Whatever was done with a broker, a reply counts only for a request that was registered and has
/// not been answered or dropped since. The decision goes to that request's own sender, whose
/// other half is what its registration handed out, and the reply counts if and only if it arrives
/// there.
pub proof fn a_reply_reaches_its_own_request(
    steps: Seq<BrokerStep>,
    id: AgentRequestId,
    decision: Option<String>,
    r: bool,
)
    requires
        forall|i: int|
            0 <= i < steps.len() ==> (#[trigger] steps[i] matches BrokerStep::Register {
                sender,
                receiver,
            } ==> connected(sender, receiver)),
        reply_owed(after_steps(steps), id, decision, r),
    ensures
        r ==> exists|i: int| #[trigger] open_since(steps, i, id),
        forall|i: int| #[trigger]
            open_since(steps, i, id) ==> {
                &&& connected(steps[i]->sender, steps[i]->receiver)
                &&& exists|handed: Result<(), Option<String>>| #[trigger]
                    call_ensures(
                        oneshot::Sender::<Option<String>>::send,
                        (steps[i]->sender, decision),
                        handed,
                    ) && r == (handed is Ok)
            },
{
    a_request_waits_until_it_is_ended(steps, id);
}

/// A second reply to a request counts for nothing: once a request was answered, or all were
/// dropped, a reply to its id counts only after the id was given to a new request.
pub proof fn a_reply_counts_once(
    steps: Seq<BrokerStep>,
    k: int,
    id: AgentRequestId,
    decision: Option<String>,
    r: bool,
)
    requires
        0 <= k < steps.len(),
        steps[k] == (BrokerStep::Answer { id }) || steps[k] is CancelAll,
        forall|j: int|
            k < j < steps.len() ==> !(#[trigger] steps[j] is Register && id_given(steps, j) == id),
        reply_owed(after_steps(steps), id, decision, r),
    ensures
        !r,
{
    a_request_waits_until_it_is_ended(steps, id);
    assert(ends_request(steps, k, id));
}

/// How many requests `steps` register.
pub open spec fn registrations(steps: Seq<BrokerStep>) -> nat
    decreases steps.len(),
{
    if steps.len() == 0 {
        0
    } else {
        registrations(steps.drop_last()) + if steps.last() is Register {
            1nat
        } else {
            0nat
        }
    }
}

/// The ids are given in the order of the registrations.
proof fn lemma_upcoming(steps: Seq<BrokerStep>)
    ensures
        after_steps(steps).upcoming == id_after(0, registrations(steps)),
        registrations(steps) <= steps.len(),
    decreases steps.len(),
{
    if steps.len() > 0 {
        lemma_upcoming(steps.drop_last());
    }
}

/// Later steps do not take a registration back, and add at most one each.
proof fn lemma_registrations(steps: Seq<BrokerStep>, i: int, j: int)
    requires
        0 <= i <= j <= steps.len(),
    ensures
        registrations(steps.take(i)) <= registrations(steps.take(j)),
        registrations(steps.take(j)) <= registrations(steps.take(i)) + (j - i),
    decreases j,
{
    if i < j {
        lemma_registrations(steps, i, j - 1);
        assert(steps.take(j).drop_last() =~= steps.take(j - 1));
    }
}

/// No two requests of a broker get the same id, in as many steps as there are ids.
pub proof fn requests_have_their_own_ids(steps: Seq<BrokerStep>, i: int, j: int)
    requires
        0 <= i < j < steps.len() <= u64::MAX,
        steps[i] is Register,
        steps[j] is Register,
    ensures
        id_given(steps, i) != id_given(steps, j),
{
    lemma_upcoming(steps.take(i));
    lemma_upcoming(steps.take(j));
    lemma_registrations(steps, i, j);
    lemma_registrations(steps, i + 1, j);
    assert(steps.take(i + 1).drop_last() =~= steps.take(i));
    ids_are_distinct(0, registrations(steps.take(i)), registrations(steps.take(j)));
}

/// The agent is told the option that the user picked, by its own id, and a cancellation where the
/// user rejected the request or it was dropped.
pub proof fn the_agent_is_told_the_decision(
    decision: Option<Option<String>>,
    r: PermissionOutcome,
)
    requires
        call_ensures(permission_outcome, (decision,), r),
    ensures
        r is Selected <==> decision is Some && decision->0 is Some,
        r matches PermissionOutcome::Selected(id) ==> id@ == decision->0->0@,
{
}

/// A reply counts where it was handed over and arrived, and nowhere else.
pub proof fn only_what_arrived_counts(handed: Option<Result<(), Option<String>>>, r: bool)
    requires
        call_ensures(reply_counts, (handed,), r),
    ensures
        r <==> handed is Some && handed->0 is Ok,
{
}

/// Registering gives the next id and leaves every request that waits as it is.
pub proof fn a_registration_adds_one_request(
    broker: &mut PermissionBroker,
    r: (AgentRequestId, oneshot::Receiver<Option<String>>),
    other: AgentRequestId,
)
    requires
        call_ensures(PermissionBroker::register, (broker,), r),
    ensures
        r.0 == old(broker)@.upcoming,
        r.0 < u64::MAX ==> final(broker)@.upcoming == r.0 + 1,
        final(broker)@.waiting.contains_key(r.0),
        connected(final(broker)@.waiting[r.0], r.1),
        other != r.0 ==> (final(broker)@.waiting.contains_key(other) <==> old(broker)@.waiting.contains_key(other)),
        other != r.0 && old(broker)@.waiting.contains_key(other) ==> final(broker)@.waiting[other]
            == old(broker)@.waiting[other],
{
}

/// A reply ends its own request, whatever came of it, and leaves every other one waiting. It counts
/// where the decision, as it is, was taken by the waiter of that request.
pub proof fn a_reply_ends_its_own_request(
    broker: &mut PermissionBroker,
    id: AgentRequestId,
    option_id: Option<String>,
    r: bool,
    other: AgentRequestId,
)
    requires
        call_ensures(PermissionBroker::reply, (broker, id, option_id), r),
    ensures
        !final(broker)@.waiting.contains_key(id),
        final(broker)@.upcoming == old(broker)@.upcoming,
        other != id ==> (final(broker)@.waiting.contains_key(other) <==> old(broker)@.waiting.contains_key(other)),
        other != id && old(broker)@.waiting.contains_key(other) ==> final(broker)@.waiting[other]
            == old(broker)@.waiting[other],
        r ==> old(broker)@.waiting.contains_key(id),
        old(broker)@.waiting.contains_key(id) ==> exists|handed: Result<(), Option<String>>|
            #[trigger]
            call_ensures(
                oneshot::Sender::<Option<String>>::send,
                (old(broker)@.waiting[id], option_id),
                handed,
            ) && (r <==> handed is Ok),
{
}

/// Cancelling leaves no request waiting, and the ids go on where they were.
pub proof fn a_cancellation_leaves_nothing_waiting(
    broker: &mut PermissionBroker,
    id: AgentRequestId,
)
    requires
        call_ensures(PermissionBroker::cancel_all, (broker,), ()),
    ensures
        !final(broker)@.waiting.contains_key(id),
        final(broker)@.upcoming == old(broker)@.upcoming,
{
}

/// Taking a request out gives its own sender, and leaves the others waiting.
pub proof fn a_request_is_taken_out_once(
    broker: &mut PermissionBroker,
    id: AgentRequestId,
    r: Option<oneshot::Sender<Option<String>>>,
    other: AgentRequestId,
)
    requires
        call_ensures(PermissionBroker::take, (broker, id), r),
    ensures
        r is Some <==> old(broker)@.waiting.contains_key(id),
        r is Some ==> r->0 == old(broker)@.waiting[id],
        !final(broker)@.waiting.contains_key(id),
        final(broker)@.upcoming == old(broker)@.upcoming,
        other != id ==> (final(broker)@.waiting.contains_key(other) <==> old(broker)@
            .waiting.contains_key(other)),
        other != id && old(broker)@.waiting.contains_key(other) ==> final(broker)@.waiting[other]
            == old(broker)@.waiting[other],
{
}

/// A new broker has no request, and counts its ids from zero.
pub proof fn a_new_broker_has_no_request(r: PermissionBroker, id: AgentRequestId)
    requires
        call_ensures(PermissionBroker::new, (), r),
    ensures
        r@.upcoming == 0,
        !r@.waiting.contains_key(id),
{
}

} // verus!
