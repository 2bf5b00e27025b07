//! The state transfer work queue and manager: a bounded mailbox of
//! control events driving a pluggable state-sync protocol.
//!
//! The manager drains all pending work without blocking, routes each
//! item to the protocol, and then polls the protocol once while a
//! transfer is in flight. Routing obeys one central invariant: a
//! protocol message goes through the protocol's main processing entry
//! only while a transfer is in flight; otherwise it is absorbed through
//! the off-context entry. The manager keeps a ghost trace of the
//! protocol calls it made — which entry, what was handed to it, and
//! what it returned — and its contract pins the published progress
//! messages to exactly the successful results in that trace.

use vstd::prelude::*;
use crate::oneshot::OneShotSlot;
use crate::queue::BoundedQueue;
use crate::types::{
    ExecutionResult, STError, STPollResult, STResult, SeqNo, StateDescriptor, StatePart,
    StoredMessage, TimeoutEvent, ViewInfo,
};

verus! {

/// Capacity of the control (work) queue.
pub const WORK_CHANNEL_SIZE: usize = 128;
/// Capacity of the progress (response) queue.
pub const RESPONSE_CHANNEL_SIZE: usize = 128;

/// A state transfer work message, delivered on the manager's inbound
/// control queue.
pub enum StateTransferWorkMessage {
    /// Begin fetching the latest state from the cluster.
    RequestLatestState(ViewInfo),
    /// A state-transfer wire message for the protocol.
    StateTransferMessage(ViewInfo, StoredMessage),
    /// Timeout events. Accepted but not acted upon by this driver.
    Timeout(ViewInfo, Vec<TimeoutEvent>),
    /// Ask the protocol whether the application should produce a
    /// checkpoint at the given sequence number; the one-shot slot
    /// receives exactly one reply.
    ShouldRequestAppState(ViewInfo, SeqNo, OneShotSlot),
}

/// Progress published by the state transfer engine on its outbound
/// queue.
#[derive(Clone, Copy, Debug, PartialEq, Eq, Structural)]
pub enum StateTransferProgress {
    /// The protocol reported transfer progress.
    StateTransferProgress(STResult),
    /// A complete application checkpoint with this sequence number was
    /// received from the application.
    CheckpointReceived(SeqNo),
}

/// The operations of the pluggable state-sync protocol, as consumed by
/// the driver. The concrete state-fetch algorithm is a collaborator:
/// implementations are supplied by the embedding process and nothing is
/// assumed of their results.
pub trait StateTransferProtocol {
    /// Kick off a fetch of the latest cluster state.
    fn request_latest_state(&mut self, view: ViewInfo) -> Result<(), STError>;

    /// Main processing entry: advances the transfer state machine.
    fn process_message(&mut self, view: ViewInfo, message: StoredMessage)
        -> Result<STResult, STError>;

    /// Off-context absorption entry: updates protocol-internal
    /// bookkeeping without advancing the main transfer state machine.
    fn handle_off_ctx_message(&mut self, view: ViewInfo, message: StoredMessage)
        -> Result<(), STError>;

    /// Ask the protocol what it wants from its driver this round.
    fn poll(&mut self) -> Result<STPollResult, STError>;

    /// Ask whether a checkpoint should be materialized at `seq`.
    fn handle_app_state_requested(&mut self, view: ViewInfo, seq: SeqNo)
        -> Result<ExecutionResult, STError>;

    /// A state descriptor arrived from the application.
    fn handle_state_desc_received_from_app(&mut self, descriptor: StateDescriptor)
        -> Result<(), STError>;

    /// State parts arrived from the application.
    fn handle_state_part_received_from_app(&mut self, parts: Vec<StatePart>)
        -> Result<(), STError>;

    /// The application finished producing a checkpoint.
    fn handle_state_finished_reception(&mut self) -> Result<(), STError>;
}

/// One invocation of a protocol entry, as recorded in the engine's
/// ghost trace: which entry, what was handed to it, and what it
/// returned.
pub enum ProtocolCall {
    /// `request_latest_state`, the begin-fetch operation, with the
    /// view handed over and its (swallowed) result.
    RequestState(ViewInfo, Result<(), STError>),
    /// `process_message`, the main processing entry, with the view
    /// and message handed over and the result it returned.
    MainProcess(ViewInfo, StoredMessage, Result<STResult, STError>),
    /// `handle_off_ctx_message`, the off-context absorption entry,
    /// with the view and message handed over and its (discarded)
    /// result.
    OffContext(ViewInfo, StoredMessage, Result<(), STError>),
    /// `handle_app_state_requested`, the checkpoint query, with the
    /// view and sequence number handed over and the result.
    AppStateRequest(ViewInfo, SeqNo, Result<ExecutionResult, STError>),
    /// `poll`, with its outcome.
    Poll(Result<STPollResult, STError>),
    /// `handle_state_desc_received_from_app`, with the descriptor
    /// handed over and its result.
    DescriptorFromApp(StateDescriptor, Result<(), STError>),
    /// `handle_state_part_received_from_app`, with the parts handed
    /// over and their result.
    PartFromApp(Vec<StatePart>, Result<(), STError>),
    /// `handle_state_finished_reception`, with its result.
    ReceptionFinished(Result<(), STError>),
}

/// One entry of the engine's ghost trace: the protocol call made, and
/// whether a transfer was in flight at the moment of the call.
pub struct CallRecord {
    pub call: ProtocolCall,
    pub running: bool,
}

/// Is some begin-fetch request among the pending work items?
pub open spec fn has_state_request(work: Seq<StateTransferWorkMessage>) -> bool {
    exists|i: int| 0 <= i < work.len() && work[i] is RequestLatestState
}

/// How many application-state queries the pending work items hold.
pub open spec fn app_state_query_count(work: Seq<StateTransferWorkMessage>) -> nat
    decreases work.len(),
{
    if work.len() == 0 {
        0
    } else {
        (if work[0] is ShouldRequestAppState { 1nat } else { 0nat })
            + app_state_query_count(work.skip(1))
    }
}

/// The in-flight flag after the manager consumes one work item: a
/// begin-fetch request raises it, nothing lowers it.
pub open spec fn next_running(running: bool, item: StateTransferWorkMessage) -> bool {
    running || item is RequestLatestState
}

/// How many protocol calls draining these work items makes: one per
/// item, except timeouts, which invoke nothing.
pub open spec fn drain_call_count(work: Seq<StateTransferWorkMessage>) -> nat
    decreases work.len(),
{
    if work.len() == 0 {
        0
    } else {
        (if work[0] is Timeout { 0nat } else { 1nat }) + drain_call_count(work.skip(1))
    }
}

/// Does this trace record fit this work item: the matching protocol
/// entry, handed exactly the item's view and payload, invoked with the
/// given in-flight flag. A protocol message goes to the main entry iff
/// the flag is up, and to the off-context entry otherwise; a timeout
/// fits no record, it invokes nothing.
pub open spec fn head_matches(
    running: bool,
    item: StateTransferWorkMessage,
    rec: CallRecord,
) -> bool {
    match item {
        StateTransferWorkMessage::RequestLatestState(v) => rec.running && (
        rec.call matches ProtocolCall::RequestState(v2, _) && v2 == v),
        StateTransferWorkMessage::StateTransferMessage(v, m) => rec.running == running && (
        if running {
            rec.call matches ProtocolCall::MainProcess(v2, m2, _) && v2 == v && m2 == m
        } else {
            rec.call matches ProtocolCall::OffContext(v2, m2, _) && v2 == v && m2 == m
        }),
        StateTransferWorkMessage::Timeout(_, _) => false,
        StateTransferWorkMessage::ShouldRequestAppState(v, s, _) => rec.running == running && (
        rec.call matches ProtocolCall::AppStateRequest(v2, s2, _) && v2 == v && s2 == s),
    }
}

/// Does the trace hold exactly the protocol calls that draining the
/// work items with the given starting flag makes: one matching call
/// per item in arrival order, none for timeouts, and nothing else.
pub open spec fn drain_matches(
    running: bool,
    work: Seq<StateTransferWorkMessage>,
    trace: Seq<CallRecord>,
) -> bool
    decreases work.len(),
{
    if work.len() == 0 {
        trace.len() == 0
    } else if work[0] is Timeout {
        drain_matches(running, work.skip(1), trace)
    } else {
        trace.len() >= 1 && head_matches(running, work[0], trace[0]) && drain_matches(
            next_running(running, work[0]),
            work.skip(1),
            trace.skip(1),
        )
    }
}

/// What the manager appends to its trace after the drain: nothing when
/// no transfer is in flight; otherwise exactly one poll — followed by
/// exactly one main-entry call, handing over the stored view and the
/// polled message, iff the poll asked for an execution.
pub open spec fn poll_suffix_matches(
    running: bool,
    view: Option<ViewInfo>,
    suffix: Seq<CallRecord>,
) -> bool {
    if !running {
        suffix.len() == 0
    } else {
        &&& suffix.len() >= 1
        &&& suffix[0].running
        &&& match suffix[0].call {
            ProtocolCall::Poll(pres) => match pres {
                Ok(STPollResult::Exec(m)) => {
                    &&& suffix.len() == 2
                    &&& suffix[1].running
                    &&& (suffix[1].call matches ProtocolCall::MainProcess(v2, m2, _) && Some(v2)
                        == view && m2 == m)
                },
                _ => suffix.len() == 1,
            },
            _ => false,
        }
    }
}

/// The progress message one protocol call publishes: the result of a
/// successful main-entry call, or of a poll that reported a transfer
/// result; nothing for any other call, and nothing for a failed one.
pub open spec fn published_head(rec: CallRecord) -> Seq<StateTransferProgress> {
    match rec.call {
        ProtocolCall::MainProcess(_, _, res) => match res {
            Ok(r) => seq![StateTransferProgress::StateTransferProgress(r)],
            Err(_) => Seq::empty(),
        },
        ProtocolCall::Poll(pres) => match pres {
            Ok(STPollResult::STResult(r)) => seq![
                StateTransferProgress::StateTransferProgress(r),
            ],
            _ => Seq::empty(),
        },
        _ => Seq::empty(),
    }
}

/// The progress messages a trace of protocol calls publishes, in call
/// order.
pub open spec fn published_of(trace: Seq<CallRecord>) -> Seq<StateTransferProgress>
    decreases trace.len(),
{
    if trace.len() == 0 {
        Seq::empty()
    } else {
        published_head(trace[0]) + published_of(trace.skip(1))
    }
}

/// The reply one protocol call owes a waiting application-state
/// query: the protocol's answer on success, the "no state" sentinel
/// on any failure; other calls owe none.
pub open spec fn query_replies_head(rec: CallRecord) -> Seq<ExecutionResult> {
    match rec.call {
        ProtocolCall::AppStateRequest(_, _, res) => match res {
            Ok(appstate) => seq![appstate],
            Err(_) => seq![ExecutionResult::Nil],
        },
        _ => Seq::empty(),
    }
}

/// The replies a trace of protocol calls owes the waiting
/// application-state queries, in call order.
pub open spec fn query_replies_of(trace: Seq<CallRecord>) -> Seq<ExecutionResult>
    decreases trace.len(),
{
    if trace.len() == 0 {
        Seq::empty()
    } else {
        query_replies_head(trace[0]) + query_replies_of(trace.skip(1))
    }
}

/// Best-effort publication of a batch on a bounded queue: each message
/// is appended in order when the queue has room at its moment, and
/// silently dropped otherwise.
pub open spec fn publish_all(
    q: Seq<StateTransferProgress>,
    cap: int,
    ps: Seq<StateTransferProgress>,
) -> Seq<StateTransferProgress>
    decreases ps.len(),
{
    if ps.len() == 0 {
        q
    } else {
        publish_all(if q.len() < cap { q.push(ps[0]) } else { q }, cap, ps.skip(1))
    }
}

proof fn lemma_work_head(work: Seq<StateTransferWorkMessage>)
    requires
        work.len() > 0,
    ensures
        has_state_request(work) == (work[0] is RequestLatestState
            || has_state_request(work.skip(1))),
        app_state_query_count(work) == (if work[0] is ShouldRequestAppState {
            1nat
        } else {
            0nat
        }) + app_state_query_count(work.skip(1)),
        drain_call_count(work) == (if work[0] is Timeout {
            0nat
        } else {
            1nat
        }) + drain_call_count(work.skip(1)),
{
    let rest = work.skip(1);
    if has_state_request(rest) {
        let i = choose|i: int| 0 <= i < rest.len() && rest[i] is RequestLatestState;
        assert(work[i + 1] is RequestLatestState);
    }
    if has_state_request(work) && !(work[0] is RequestLatestState) {
        let i = choose|i: int| 0 <= i < work.len() && work[i] is RequestLatestState;
        assert(rest[i - 1] is RequestLatestState);
    }
}

proof fn lemma_prefix_push<T>(a: Seq<T>, b: Seq<T>, x: T)
    requires
        a.is_prefix_of(b),
    ensures
        a.is_prefix_of(b.push(x)),
{
    assert(b.push(x).subrange(0, a.len() as int) =~= b.subrange(0, a.len() as int));
}

proof fn lemma_append_split<T>(a: Seq<T>, b: Seq<T>)
    ensures
        (a + b).subrange(0, a.len() as int) == a,
        (a + b).skip(a.len() as int) == b,
{
    assert((a + b).subrange(0, a.len() as int) =~= a);
    assert((a + b).skip(a.len() as int) =~= b);
}

proof fn lemma_published_of_concat(a: Seq<CallRecord>, b: Seq<CallRecord>)
    ensures
        published_of(a + b) == published_of(a) + published_of(b),
    decreases a.len(),
{
    if a.len() == 0 {
        assert(a + b =~= b);
        assert(published_of(a) + published_of(b) =~= published_of(b));
    } else {
        lemma_published_of_concat(a.skip(1), b);
        assert((a + b).skip(1) =~= a.skip(1) + b);
        assert((a + b)[0] == a[0]);
        assert(published_head(a[0]) + (published_of(a.skip(1)) + published_of(b)) =~= (
        published_head(a[0]) + published_of(a.skip(1))) + published_of(b));
    }
}

proof fn lemma_published_of_push(a: Seq<CallRecord>, rec: CallRecord)
    ensures
        published_of(a.push(rec)) == published_of(a) + published_head(rec),
{
    lemma_published_of_concat(a, seq![rec]);
    assert(a.push(rec) =~= a + seq![rec]);
    assert(seq![rec].skip(1) =~= Seq::<CallRecord>::empty());
    assert(published_of(Seq::<CallRecord>::empty()) == Seq::<StateTransferProgress>::empty());
    assert(published_of(seq![rec]) =~= published_head(rec));
}

proof fn lemma_query_replies_concat(a: Seq<CallRecord>, b: Seq<CallRecord>)
    ensures
        query_replies_of(a + b) == query_replies_of(a) + query_replies_of(b),
    decreases a.len(),
{
    if a.len() == 0 {
        assert(a + b =~= b);
        assert(query_replies_of(a) + query_replies_of(b) =~= query_replies_of(b));
    } else {
        lemma_query_replies_concat(a.skip(1), b);
        assert((a + b).skip(1) =~= a.skip(1) + b);
        assert((a + b)[0] == a[0]);
        assert(query_replies_head(a[0]) + (query_replies_of(a.skip(1)) + query_replies_of(b))
            =~= (query_replies_head(a[0]) + query_replies_of(a.skip(1))) + query_replies_of(b));
    }
}

proof fn lemma_query_replies_push(a: Seq<CallRecord>, rec: CallRecord)
    ensures
        query_replies_of(a.push(rec)) == query_replies_of(a) + query_replies_head(rec),
{
    lemma_query_replies_concat(a, seq![rec]);
    assert(a.push(rec) =~= a + seq![rec]);
    assert(seq![rec].skip(1) =~= Seq::<CallRecord>::empty());
    assert(query_replies_of(Seq::<CallRecord>::empty()) == Seq::<ExecutionResult>::empty());
    assert(query_replies_of(seq![rec]) =~= query_replies_head(rec));
}

proof fn lemma_publish_all_concat(
    q: Seq<StateTransferProgress>,
    cap: int,
    a: Seq<StateTransferProgress>,
    b: Seq<StateTransferProgress>,
)
    ensures
        publish_all(q, cap, a + b) == publish_all(publish_all(q, cap, a), cap, b),
    decreases a.len(),
{
    if a.len() == 0 {
        assert(a + b =~= b);
    } else {
        assert((a + b)[0] == a[0]);
        assert((a + b).skip(1) =~= a.skip(1) + b);
        lemma_publish_all_concat(
            if q.len() < cap {
                q.push(a[0])
            } else {
                q
            },
            cap,
            a.skip(1),
            b,
        );
    }
}

proof fn lemma_publish_all_single(q: Seq<StateTransferProgress>, cap: int, p: StateTransferProgress)
    ensures
        publish_all(q, cap, seq![p]) == (if q.len() < cap {
            q.push(p)
        } else {
            q
        }),
{
    assert(seq![p][0] == p);
    assert(seq![p].skip(1) =~= Seq::<StateTransferProgress>::empty());
    let q1 = if q.len() < cap {
        q.push(p)
    } else {
        q
    };
    assert(publish_all(q1, cap, Seq::<StateTransferProgress>::empty()) == q1);
}

/// Best-effort publication never disturbs what is already queued: the
/// old queue is a prefix of the queue after the batch.
pub proof fn lemma_publish_all_prefix(
    q: Seq<StateTransferProgress>,
    cap: int,
    ps: Seq<StateTransferProgress>,
)
    ensures
        q.is_prefix_of(publish_all(q, cap, ps)),
    decreases ps.len(),
{
    assert(q =~= q.subrange(0, q.len() as int));
    if ps.len() > 0 {
        let q1 = if q.len() < cap {
            q.push(ps[0])
        } else {
            q
        };
        if q.len() < cap {
            assert(q1.subrange(0, q.len() as int) =~= q);
        }
        lemma_publish_all_prefix(q1, cap, ps.skip(1));
        assert(q =~= publish_all(q1, cap, ps.skip(1)).subrange(0, q.len() as int));
    }
}

proof fn lemma_drain_step(
    r0: bool,
    w0: Seq<StateTransferWorkMessage>,
    appended: Seq<CallRecord>,
    r_cur: bool,
    work_cur: Seq<StateTransferWorkMessage>,
    rec: CallRecord,
)
    requires
        work_cur.len() > 0,
        !(work_cur[0] is Timeout),
        head_matches(r_cur, work_cur[0], rec),
        forall|t: Seq<CallRecord>|
            #[trigger] drain_matches(r_cur, work_cur, t) ==> drain_matches(r0, w0, appended + t),
    ensures
        forall|t: Seq<CallRecord>|
            #[trigger] drain_matches(next_running(r_cur, work_cur[0]), work_cur.skip(1), t)
                ==> drain_matches(r0, w0, appended.push(rec) + t),
{
    assert forall|t: Seq<CallRecord>|
        #[trigger] drain_matches(
            next_running(r_cur, work_cur[0]),
            work_cur.skip(1),
            t,
        ) implies drain_matches(r0, w0, appended.push(rec) + t) by {
        let t1 = seq![rec] + t;
        assert(t1[0] == rec);
        assert(t1.skip(1) =~= t);
        assert(drain_matches(r_cur, work_cur, t1));
        assert(appended.push(rec) + t =~= appended + t1);
    }
}

proof fn lemma_drain_step_timeout(
    r0: bool,
    w0: Seq<StateTransferWorkMessage>,
    appended: Seq<CallRecord>,
    r_cur: bool,
    work_cur: Seq<StateTransferWorkMessage>,
)
    requires
        work_cur.len() > 0,
        work_cur[0] is Timeout,
        forall|t: Seq<CallRecord>|
            #[trigger] drain_matches(r_cur, work_cur, t) ==> drain_matches(r0, w0, appended + t),
    ensures
        forall|t: Seq<CallRecord>|
            #[trigger] drain_matches(r_cur, work_cur.skip(1), t) ==> drain_matches(
                r0,
                w0,
                appended + t,
            ),
{
    assert forall|t: Seq<CallRecord>|
        #[trigger] drain_matches(r_cur, work_cur.skip(1), t) implies drain_matches(
        r0,
        w0,
        appended + t,
    ) by {
        assert(drain_matches(r_cur, work_cur, t));
    }
}

/// The two single-direction queues of the state transfer engine: the
/// control queue (replica logic to engine) and the progress queue
/// (engine to replica logic). The replica-facing operations post work
/// and read progress; the manager drains work and publishes progress.
pub struct StateTransferThreadHandle {
    work_queue: BoundedQueue<StateTransferWorkMessage>,
    response_queue: BoundedQueue<StateTransferProgress>,
}

impl StateTransferThreadHandle {
    /// The pending work items, oldest first.
    pub closed spec fn work(&self) -> Seq<StateTransferWorkMessage> {
        self.work_queue.contents()
    }

    /// The pending progress messages, oldest first.
    pub closed spec fn responses(&self) -> Seq<StateTransferProgress> {
        self.response_queue.contents()
    }

    /// Capacity of the control queue.
    pub closed spec fn work_cap(&self) -> int {
        self.work_queue.cap()
    }

    /// Capacity of the progress queue.
    pub closed spec fn response_cap(&self) -> int {
        self.response_queue.cap()
    }

    /// Best-effort, non-blocking enqueue of a work item: when the
    /// control queue is full the message is silently dropped and the
    /// caller is never blocked.
    pub fn send_work_message(&mut self, msg: StateTransferWorkMessage)
        ensures
            old(self).work().len() < old(self).work_cap() ==> final(self).work() == old(self).work().push(msg),
            old(self).work().len() >= old(self).work_cap() ==> final(self).work() == old(self).work(),
            final(self).responses() == old(self).responses(),
            final(self).work_cap() == old(self).work_cap(),
            final(self).response_cap() == old(self).response_cap(),
    {
        let _ = self.work_queue.post(msg);
    }

    /// Reads the oldest pending progress message. The blocking wait of
    /// the hosting process belongs to its thread; here the queue must
    /// be non-empty.
    pub fn receive_state_transfer_update(&mut self) -> (p: StateTransferProgress)
        requires
            old(self).responses().len() > 0,
        ensures
            p == old(self).responses()[0],
            final(self).responses() == old(self).responses().skip(1),
            final(self).work() == old(self).work(),
            final(self).work_cap() == old(self).work_cap(),
            final(self).response_cap() == old(self).response_cap(),
    {
        let p = self.response_queue.try_recv();
        p.unwrap()
    }

    /// Non-blocking read of the oldest pending progress message.
    pub fn try_recv_state_transfer_update(&mut self) -> (p: Option<StateTransferProgress>)
        ensures
            old(self).responses().len() == 0 ==> p is None && final(self).responses() == old(self).responses(),
            old(self).responses().len() > 0 ==> p == Some(old(self).responses()[0])
                && final(self).responses() == old(self).responses().skip(1),
            final(self).work() == old(self).work(),
            final(self).work_cap() == old(self).work_cap(),
            final(self).response_cap() == old(self).response_cap(),
    {
        self.response_queue.try_recv()
    }
}

/// The state transfer manager: routes control events to the pluggable
/// protocol and publishes its progress.
pub struct StateTransferMngr {
    currently_running: bool,
    current_view: Option<ViewInfo>,
    calls: Ghost<Seq<CallRecord>>,
}

impl StateTransferMngr {
    /// True iff a transfer has been requested. A poll result does not
    /// clear the flag: completion is signalled to the replica logic
    /// only through the progress queue.
    pub closed spec fn running(&self) -> bool {
        self.currently_running
    }

    /// The view of the latest begin-fetch request, if any.
    pub closed spec fn view_info(&self) -> Option<ViewInfo> {
        self.current_view
    }

    /// The ghost trace of protocol calls this engine made: which
    /// entry, what was handed over, what came back, and whether a
    /// transfer was in flight at the moment of the call.
    pub closed spec fn call_log(&self) -> Seq<CallRecord> {
        self.calls@
    }

    /// A transfer can only be in flight once a begin-fetch request
    /// supplied a view.
    pub closed spec fn wf(&self) -> bool {
        self.currently_running ==> self.current_view is Some
    }

    /// Appends one protocol call to the ghost trace, recorded with the
    /// in-flight flag of this moment; nothing else changes.
    pub(crate) fn record_call(&mut self, call: Ghost<ProtocolCall>)
        ensures
            final(self).call_log() == old(self).call_log().push(
                (CallRecord { call: call@, running: old(self).running() }),
            ),
            final(self).running() == old(self).running(),
            final(self).view_info() == old(self).view_info(),
            final(self).wf() == old(self).wf(),
    {
        self.calls = Ghost(
            self.calls@.push(CallRecord { call: call@, running: self.currently_running }),
        );
    }

    /// Builds the two fixed-capacity queues of the engine.
    pub fn init_state_transfer_handles() -> (handle: StateTransferThreadHandle)
        ensures
            handle.work().len() == 0,
            handle.responses().len() == 0,
            handle.work_cap() == WORK_CHANNEL_SIZE as int,
            handle.response_cap() == RESPONSE_CHANNEL_SIZE as int,
    {
        StateTransferThreadHandle {
            work_queue: BoundedQueue::new(WORK_CHANNEL_SIZE),
            response_queue: BoundedQueue::new(RESPONSE_CHANNEL_SIZE),
        }
    }

    /// Creates a manager with no transfer in flight and an empty call
    /// trace.
    pub fn initialize_core_state_transfer() -> (m: Self)
        ensures
            m.wf(),
            !m.running(),
            m.view_info() is None,
            m.call_log().len() == 0,
    {
        StateTransferMngr {
            currently_running: false,
            current_view: None,
            calls: Ghost(Seq::empty()),
        }
    }

    /// Publishes a checkpoint-received notice on the progress queue,
    /// best-effort: when the queue is full the notice is dropped.
    pub fn notify_of_checkpoint(&self, handle: &mut StateTransferThreadHandle, seq: SeqNo)
        ensures
            old(handle).responses().len() < old(handle).response_cap() ==> final(handle).responses() == old(handle).responses().push(
                StateTransferProgress::CheckpointReceived(seq),
            ),
            old(handle).responses().len() >= old(handle).response_cap() ==> final(handle).responses() == old(handle).responses(),
            final(handle).work() == old(handle).work(),
            final(handle).work_cap() == old(handle).work_cap(),
            final(handle).response_cap() == old(handle).response_cap(),
    {
        let _ = handle.response_queue.post(StateTransferProgress::CheckpointReceived(seq));
    }

    /// Drains all pending work items without blocking, then polls the
    /// protocol once if a transfer is in flight.
    ///
    /// The contract pins the whole pass down:
    /// - the control queue is left empty;
    /// - a transfer is in flight afterwards iff it already was, or a
    ///   begin-fetch request was pending (a poll result never clears
    ///   the flag: a result may be an intermediate milestone, so
    ///   completion is signalled only through the progress queue);
    /// - every pending application-state query yields exactly one
    ///   fulfilled reply slot, returned to the caller for delivery,
    ///   and each reply is the recorded query result on success or
    ///   the "no state" sentinel on failure;
    /// - the appended trace holds exactly one matching protocol call
    ///   per drained non-timeout item, with the item's own view and
    ///   payload — the main entry iff a transfer was in flight at that
    ///   moment, the off-context entry otherwise — followed by at most
    ///   one poll and, iff the poll asked for an execution, one
    ///   main-entry call for the polled message;
    /// - the progress queue afterwards equals the old queue with
    ///   exactly the successful main-entry results and polled transfer
    ///   results of that trace published best-effort, in call order:
    ///   failed calls, off-context absorptions, timeouts and begin-
    ///   fetch kickoffs publish nothing.
    pub fn iterate<ST: StateTransferProtocol>(
        &mut self,
        handle: &mut StateTransferThreadHandle,
        state_transfer: &mut ST,
    ) -> (replies: Vec<OneShotSlot>)
        requires
            old(self).wf(),
        ensures
            final(self).wf(),
            final(handle).work().len() == 0,
            final(self).running() == (old(self).running() || has_state_request(
                old(handle).work(),
            )),
            replies@.len() == app_state_query_count(old(handle).work()),
            forall|i: int| 0 <= i < replies@.len() ==> (#[trigger] replies@[i]).reply() is Some,
            old(handle).responses().is_prefix_of(final(handle).responses()),
            final(handle).work_cap() == old(handle).work_cap(),
            final(handle).response_cap() == old(handle).response_cap(),
            old(self).call_log().is_prefix_of(final(self).call_log()),
            ({
                let appended = final(self).call_log().skip(old(self).call_log().len() as int);
                let dcount = drain_call_count(old(handle).work()) as int;
                &&& appended.len() >= dcount
                &&& drain_matches(
                    old(self).running(),
                    old(handle).work(),
                    appended.take(dcount),
                )
                &&& poll_suffix_matches(
                    final(self).running(),
                    final(self).view_info(),
                    appended.skip(dcount),
                )
                &&& final(handle).responses() == publish_all(
                    old(handle).responses(),
                    old(handle).response_cap(),
                    published_of(appended),
                )
                &&& replies@.len() == query_replies_of(appended).len()
                &&& forall|i: int|
                    0 <= i < replies@.len() ==> (#[trigger] replies@[i]).reply() == Some(
                        query_replies_of(appended)[i],
                    )
            }),
    {
        let mut replies: Vec<OneShotSlot> = Vec::new();
        let ghost old_len = self.call_log().len() as int;
        proof {
            assert(self.call_log().skip(old_len) =~= Seq::<CallRecord>::empty());
            assert(published_of(Seq::<CallRecord>::empty()) == Seq::<
                StateTransferProgress,
            >::empty());
            assert(query_replies_of(Seq::<CallRecord>::empty()) == Seq::<
                ExecutionResult,
            >::empty());
            assert(publish_all(
                handle.responses(),
                handle.response_cap(),
                Seq::<StateTransferProgress>::empty(),
            ) == handle.responses());
            assert(self.call_log() =~= self.call_log().subrange(0, old_len));
            assert forall|t: Seq<CallRecord>|
                #[trigger] drain_matches(self.running(), handle.work(), t) implies drain_matches(
                old(self).running(),
                old(handle).work(),
                self.call_log().skip(old_len) + t,
            ) by {
                assert(Seq::<CallRecord>::empty() + t =~= t);
            }
        }

        while handle.work_queue.len() > 0
            invariant
                self.wf(),
                old_len == old(self).call_log().len() as int,
                (self.running() || has_state_request(handle.work())) == (old(self).running()
                    || has_state_request(old(handle).work())),
                replies@.len() + app_state_query_count(handle.work()) == app_state_query_count(
                    old(handle).work(),
                ),
                forall|i: int|
                    0 <= i < replies@.len() ==> (#[trigger] replies@[i]).reply() is Some,
                old(handle).responses().is_prefix_of(handle.responses()),
                handle.work_cap() == old(handle).work_cap(),
                handle.response_cap() == old(handle).response_cap(),
                old(self).call_log().is_prefix_of(self.call_log()),
                self.call_log().skip(old_len).len() + drain_call_count(handle.work())
                    == drain_call_count(old(handle).work()),
                forall|t: Seq<CallRecord>|
                    #[trigger] drain_matches(self.running(), handle.work(), t) ==> drain_matches(
                        old(self).running(),
                        old(handle).work(),
                        self.call_log().skip(old_len) + t,
                    ),
                handle.responses() == publish_all(
                    old(handle).responses(),
                    old(handle).response_cap(),
                    published_of(self.call_log().skip(old_len)),
                ),
                replies@.len() == query_replies_of(self.call_log().skip(old_len)).len(),
                forall|i: int|
                    0 <= i < replies@.len() ==> (#[trigger] replies@[i]).reply() == Some(
                        query_replies_of(self.call_log().skip(old_len))[i],
                    ),
            decreases handle.work().len(),
        {
            let ghost r_top = self.running();
            let ghost w_top = handle.work();
            let ghost appended_top = self.call_log().skip(old_len);
            proof {
                lemma_work_head(handle.work());
            }
            if let Some(work) = handle.work_queue.try_recv() {
                match work {
                    StateTransferWorkMessage::ShouldRequestAppState(view, seq, response) => {
                        let (filled, res) = Self::should_request_app_state(
                            view,
                            seq,
                            state_transfer,
                            response,
                        );
                        let ghost rec = (CallRecord {
                            call: ProtocolCall::AppStateRequest(view, seq, res@),
                            running: self.currently_running,
                        });
                        let ghost prev_calls = self.calls@;
                        self.calls = Ghost(prev_calls.push(rec));
                        proof {
                            lemma_prefix_push(old(self).call_log(), prev_calls, rec);
                            assert(self.call_log().skip(old_len) =~= appended_top.push(rec));
                            lemma_drain_step(
                                old(self).running(),
                                old(handle).work(),
                                appended_top,
                                r_top,
                                w_top,
                                rec,
                            );
                            assert(next_running(r_top, w_top[0]) == self.running());
                            assert(w_top.skip(1) == handle.work());
                            lemma_published_of_push(appended_top, rec);
                            lemma_query_replies_push(appended_top, rec);
                            assert(published_head(rec) =~= Seq::<StateTransferProgress>::empty());
                            assert(published_of(appended_top) + Seq::<
                                StateTransferProgress,
                            >::empty() =~= published_of(appended_top));
                        }
                        replies.push(filled);
                    },
                    StateTransferWorkMessage::RequestLatestState(view) => {
                        self.current_view = Some(view);
                        self.currently_running = true;
                        // best-effort kickoff: a failure is swallowed,
                        // recorded, and publishes nothing
                        let kick_res = state_transfer.request_latest_state(view);
                        let ghost rec = (CallRecord {
                            call: ProtocolCall::RequestState(view, kick_res),
                            running: true,
                        });
                        let ghost prev_calls = self.calls@;
                        self.calls = Ghost(prev_calls.push(rec));
                        proof {
                            lemma_prefix_push(old(self).call_log(), prev_calls, rec);
                            assert(self.call_log().skip(old_len) =~= appended_top.push(rec));
                            lemma_drain_step(
                                old(self).running(),
                                old(handle).work(),
                                appended_top,
                                r_top,
                                w_top,
                                rec,
                            );
                            assert(next_running(r_top, w_top[0]) == self.running());
                            assert(w_top.skip(1) == handle.work());
                            lemma_published_of_push(appended_top, rec);
                            lemma_query_replies_push(appended_top, rec);
                            assert(published_head(rec) =~= Seq::<StateTransferProgress>::empty());
                            assert(published_of(appended_top) + Seq::<
                                StateTransferProgress,
                            >::empty() =~= published_of(appended_top));
                        }
                    },
                    StateTransferWorkMessage::StateTransferMessage(view, message) => {
                        if self.currently_running {
                            let ghost gmsg = message;
                            let result = state_transfer.process_message(view, message);
                            let ghost rec = (CallRecord {
                                call: ProtocolCall::MainProcess(view, gmsg, result),
                                running: self.currently_running,
                            });
                            let ghost prev_calls = self.calls@;
                            self.calls = Ghost(prev_calls.push(rec));
                            proof {
                                lemma_prefix_push(old(self).call_log(), prev_calls, rec);
                                assert(self.call_log().skip(old_len) =~= appended_top.push(rec));
                                lemma_drain_step(
                                    old(self).running(),
                                    old(handle).work(),
                                    appended_top,
                                    r_top,
                                    w_top,
                                    rec,
                                );
                                assert(next_running(r_top, w_top[0]) == self.running());
                                assert(w_top.skip(1) == handle.work());
                                lemma_published_of_push(appended_top, rec);
                            lemma_query_replies_push(appended_top, rec);
                                lemma_publish_all_concat(
                                    old(handle).responses(),
                                    handle.response_cap(),
                                    published_of(appended_top),
                                    published_head(rec),
                                );
                            }
                            if let Ok(st_result) = result {
                                let ghost prev_resp = handle.responses();
                                let accepted = handle.response_queue.post(
                                    StateTransferProgress::StateTransferProgress(st_result),
                                );
                                proof {
                                    if accepted {
                                        lemma_prefix_push(
                                            old(handle).responses(),
                                            prev_resp,
                                            StateTransferProgress::StateTransferProgress(
                                                st_result,
                                            ),
                                        );
                                    }
                                    lemma_publish_all_single(
                                        prev_resp,
                                        handle.response_cap(),
                                        StateTransferProgress::StateTransferProgress(st_result),
                                    );
                                }
                            } else {
                                proof {
                                    assert(published_head(rec) =~= Seq::<
                                        StateTransferProgress,
                                    >::empty());
                                    assert(published_of(appended_top) + Seq::<
                                        StateTransferProgress,
                                    >::empty() =~= published_of(appended_top));
                                }
                            }
                        } else {
                            let ghost gmsg = message;
                            let off_res = state_transfer.handle_off_ctx_message(view, message);
                            let ghost rec = (CallRecord {
                                call: ProtocolCall::OffContext(view, gmsg, off_res),
                                running: self.currently_running,
                            });
                            let ghost prev_calls = self.calls@;
                            self.calls = Ghost(prev_calls.push(rec));
                            proof {
                                lemma_prefix_push(old(self).call_log(), prev_calls, rec);
                                assert(self.call_log().skip(old_len) =~= appended_top.push(rec));
                                lemma_drain_step(
                                    old(self).running(),
                                    old(handle).work(),
                                    appended_top,
                                    r_top,
                                    w_top,
                                    rec,
                                );
                                assert(next_running(r_top, w_top[0]) == self.running());
                                assert(w_top.skip(1) == handle.work());
                                lemma_published_of_push(appended_top, rec);
                            lemma_query_replies_push(appended_top, rec);
                                assert(published_head(rec) =~= Seq::<
                                    StateTransferProgress,
                                >::empty());
                                assert(published_of(appended_top) + Seq::<
                                    StateTransferProgress,
                                >::empty() =~= published_of(appended_top));
                            }
                        }
                    },
                    StateTransferWorkMessage::Timeout(_view, _timeouts) => {
                        proof {
                            lemma_drain_step_timeout(
                                old(self).running(),
                                old(handle).work(),
                                appended_top,
                                r_top,
                                w_top,
                            );
                        assert(w_top.skip(1) == handle.work());
                        }
                    },
                }
            }
        }

        let ghost drained = self.call_log().skip(old_len);
        let ghost dcount = drain_call_count(old(handle).work()) as int;
        proof {
            assert(drain_call_count(handle.work()) == 0);
            assert(drained.len() == dcount);
            assert(drain_matches(self.running(), handle.work(), Seq::<CallRecord>::empty()));
            assert(drained + Seq::<CallRecord>::empty() =~= drained);
            assert(drain_matches(old(self).running(), old(handle).work(), drained));
            assert(drained.take(dcount) =~= drained);
            assert(drained.skip(dcount) =~= Seq::<CallRecord>::empty());
        }

        if self.currently_running {
            let polled = state_transfer.poll();
            let ghost gpoll = polled;
            let ghost rec = (CallRecord {
                call: ProtocolCall::Poll(gpoll),
                running: self.currently_running,
            });
            let ghost prev_calls = self.calls@;
            self.calls = Ghost(prev_calls.push(rec));
            proof {
                lemma_prefix_push(old(self).call_log(), prev_calls, rec);
                assert(self.call_log().skip(old_len) =~= drained + seq![rec]);
                lemma_append_split(drained, seq![rec]);
                lemma_published_of_push(drained, rec);
                            lemma_query_replies_push(drained, rec);
                lemma_publish_all_concat(
                    old(handle).responses(),
                    handle.response_cap(),
                    published_of(drained),
                    published_head(rec),
                );
            }
            match polled {
                Ok(STPollResult::ReceiveMsg) => {
                    proof {
                        assert(published_head(rec) =~= Seq::<StateTransferProgress>::empty());
                    }
                },
                Ok(STPollResult::RePoll) => {
                    proof {
                        assert(published_head(rec) =~= Seq::<StateTransferProgress>::empty());
                    }
                    return replies;
                },
                Ok(STPollResult::Exec(message)) => {
                    proof {
                        assert(published_head(rec) =~= Seq::<StateTransferProgress>::empty());
                    }
                    match self.current_view {
                        Some(view) => {
                            let ghost gmsg = message;
                            let result = state_transfer.process_message(view, message);
                            let ghost rec2 = (CallRecord {
                                call: ProtocolCall::MainProcess(view, gmsg, result),
                                running: self.currently_running,
                            });
                            let ghost prev_calls2 = self.calls@;
                            self.calls = Ghost(prev_calls2.push(rec2));
                            proof {
                                lemma_prefix_push(old(self).call_log(), prev_calls2, rec2);
                                assert(self.call_log().skip(old_len) =~= drained + seq![
                                    rec,
                                    rec2,
                                ]);
                                lemma_append_split(drained, seq![rec, rec2]);
                                assert(seq![rec, rec2][0] == rec);
                                assert(seq![rec, rec2][1] == rec2);
                                lemma_published_of_push(drained.push(rec), rec2);
                            lemma_query_replies_push(drained.push(rec), rec2);
                                assert(drained.push(rec).push(rec2) =~= drained + seq![
                                    rec,
                                    rec2,
                                ]);
                                lemma_publish_all_concat(
                                    old(handle).responses(),
                                    handle.response_cap(),
                                    published_of(drained.push(rec)),
                                    published_head(rec2),
                                );
                            }
                            if let Ok(st_result) = result {
                                let ghost prev_resp = handle.responses();
                                let accepted = handle.response_queue.post(
                                    StateTransferProgress::StateTransferProgress(st_result),
                                );
                                proof {
                                    if accepted {
                                        lemma_prefix_push(
                                            old(handle).responses(),
                                            prev_resp,
                                            StateTransferProgress::StateTransferProgress(
                                                st_result,
                                            ),
                                        );
                                    }
                                    lemma_publish_all_single(
                                        prev_resp,
                                        handle.response_cap(),
                                        StateTransferProgress::StateTransferProgress(st_result),
                                    );
                                }
                            } else {
                                proof {
                                    assert(published_head(rec2) =~= Seq::<
                                        StateTransferProgress,
                                    >::empty());
                                    assert(published_of(drained.push(rec)) + Seq::<
                                        StateTransferProgress,
                                    >::empty() =~= published_of(drained.push(rec)));
                                }
                            }
                        },
                        None => {
                            proof {
                                assert(false);
                            }
                        },
                    }
                },
                Ok(STPollResult::STResult(res)) => {
                    let ghost prev_resp = handle.responses();
                    let accepted = handle.response_queue.post(
                        StateTransferProgress::StateTransferProgress(res),
                    );
                    proof {
                        if accepted {
                            lemma_prefix_push(
                                old(handle).responses(),
                                prev_resp,
                                StateTransferProgress::StateTransferProgress(res),
                            );
                        }
                        lemma_publish_all_single(
                            prev_resp,
                            handle.response_cap(),
                            StateTransferProgress::StateTransferProgress(res),
                        );
                    }
                },
                Err(_) => {
                    proof {
                        assert(published_head(rec) =~= Seq::<StateTransferProgress>::empty());
                    }
                },
            }
        }
        replies
    }

    /// Asks the protocol to materialize a checkpoint and fulfills the
    /// one-shot reply slot exactly once: with the protocol's answer on
    /// success, with the "no state" sentinel on any failure. The
    /// second component reports which of the two it was.
    fn should_request_app_state<ST: StateTransferProtocol>(
        view: ViewInfo,
        seq: SeqNo,
        state_transfer: &mut ST,
        result: OneShotSlot,
    ) -> (r: (OneShotSlot, Ghost<Result<ExecutionResult, STError>>))
        ensures
            r.0.reply() == Some(
                match r.1@ {
                    Ok(appstate) => appstate,
                    Err(_) => ExecutionResult::Nil,
                },
            ),
    {
        let appstate_res = state_transfer.handle_app_state_requested(view, seq);
        match appstate_res {
            Ok(appstate) => (result.fulfill(appstate), Ghost(appstate_res)),
            Err(_) => (result.fulfill(ExecutionResult::Nil), Ghost(appstate_res)),
        }
    }
}

} // verus!
