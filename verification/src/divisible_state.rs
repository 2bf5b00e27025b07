//! The checkpoint ingestion pipeline for divisible application state:
//! drains application-produced checkpoint fragments in arrival order,
//! feeds each to the matching entry of the pluggable protocol, and
//! publishes exactly one checkpoint-received notice per completed
//! checkpoint. The calls made are recorded in the engine's ghost
//! trace, so the dispatch is stated and proved, not just implemented.

use vstd::prelude::*;
use crate::oneshot::OneShotSlot;
use crate::queue::BoundedQueue;
use crate::state_transfer::{
    app_state_query_count, drain_call_count, drain_matches, has_state_request,
    lemma_publish_all_prefix, poll_suffix_matches, publish_all, published_of, query_replies_of, CallRecord,
    ProtocolCall, StateTransferMngr, StateTransferProgress, StateTransferProtocol,
    StateTransferThreadHandle,
};
use crate::types::{AppState, AppStateMessage, STError, SeqNo};

verus! {

/// Capacity of the application-to-engine checkpoint queue.
pub const CHECKPOINT_CHANNEL_SIZE: usize = 128;

/// Appends to a progress queue with the queue's best-effort bound:
/// when the queue already holds `cap` items, the notice is dropped.
pub open spec fn push_bounded(
    q: Seq<StateTransferProgress>,
    cap: int,
    p: StateTransferProgress,
) -> Seq<StateTransferProgress> {
    if q.len() < cap {
        q.push(p)
    } else {
        q
    }
}

/// The sequence numbers of the `Done` events among the given
/// checkpoint events, in arrival order.
pub open spec fn done_seqs(events: Seq<AppStateMessage>) -> Seq<SeqNo>
    decreases events.len(),
{
    if events.len() == 0 {
        Seq::empty()
    } else {
        if events[0].state is Done {
            seq![events[0].seq] + done_seqs(events.skip(1))
        } else {
            done_seqs(events.skip(1))
        }
    }
}

/// The progress queue after publishing one checkpoint-received notice
/// per sequence number, in order, each best-effort.
pub open spec fn publish_checkpoints(
    q: Seq<StateTransferProgress>,
    cap: int,
    seqs: Seq<SeqNo>,
) -> Seq<StateTransferProgress>
    decreases seqs.len(),
{
    if seqs.len() == 0 {
        q
    } else {
        publish_checkpoints(
            push_bounded(q, cap, StateTransferProgress::CheckpointReceived(seqs[0])),
            cap,
            seqs.skip(1),
        )
    }
}

/// Does this trace record fit this checkpoint event: the matching
/// protocol entry, handed exactly the event's payload.
pub open spec fn checkpoint_head_matches(event: AppStateMessage, rec: CallRecord) -> bool {
    match event.state {
        AppState::StateDescriptor(d) => rec.call matches ProtocolCall::DescriptorFromApp(d2, _)
            && d2 == d,
        AppState::StatePart(p) => rec.call matches ProtocolCall::PartFromApp(p2, _) && p2 == p,
        AppState::Done => rec.call is ReceptionFinished,
    }
}

/// Does the trace hold exactly the protocol calls that ingesting these
/// checkpoint events makes: one matching call per event, in arrival
/// order, and nothing else.
pub open spec fn checkpoint_calls_match(
    events: Seq<AppStateMessage>,
    trace: Seq<CallRecord>,
) -> bool
    decreases events.len(),
{
    if events.len() == 0 {
        trace.len() == 0
    } else {
        trace.len() >= 1 && checkpoint_head_matches(events[0], trace[0])
            && checkpoint_calls_match(events.skip(1), trace.skip(1))
    }
}

/// Did this recorded checkpoint ingestion call succeed?
pub open spec fn checkpoint_call_ok(rec: CallRecord) -> bool {
    match rec.call {
        ProtocolCall::DescriptorFromApp(_, r) => r is Ok,
        ProtocolCall::PartFromApp(_, r) => r is Ok,
        ProtocolCall::ReceptionFinished(r) => r is Ok,
        _ => false,
    }
}

proof fn lemma_done_seqs_concat(a: Seq<AppStateMessage>, b: Seq<AppStateMessage>)
    ensures
        done_seqs(a + b) == done_seqs(a) + done_seqs(b),
    decreases a.len(),
{
    if a.len() == 0 {
        assert(a + b =~= b);
        assert(done_seqs(a) + done_seqs(b) =~= done_seqs(b));
    } else {
        lemma_done_seqs_concat(a.skip(1), b);
        assert((a + b).skip(1) =~= a.skip(1) + b);
        assert((a + b)[0] == a[0]);
        if a[0].state is Done {
            assert(seq![a[0].seq] + (done_seqs(a.skip(1)) + done_seqs(b)) =~= (seq![a[0].seq]
                + done_seqs(a.skip(1))) + done_seqs(b));
        }
    }
}

proof fn lemma_done_seqs_take_step(events: Seq<AppStateMessage>, i: int)
    requires
        0 <= i < events.len(),
    ensures
        events[i].state is Done ==> done_seqs(events.take(i + 1)) == done_seqs(
            events.take(i),
        ).push(events[i].seq),
        !(events[i].state is Done) ==> done_seqs(events.take(i + 1)) == done_seqs(
            events.take(i),
        ),
{
    let single = seq![events[i]];
    assert(events.take(i + 1) =~= events.take(i) + single);
    lemma_done_seqs_concat(events.take(i), single);
    assert(single.skip(1) =~= Seq::<AppStateMessage>::empty());
    assert(done_seqs(Seq::<AppStateMessage>::empty()) == Seq::<SeqNo>::empty());
    assert(single[0] == events[i]);
    if events[i].state is Done {
        assert(done_seqs(single) =~= seq![events[i].seq] + Seq::<SeqNo>::empty());
        assert(done_seqs(single) =~= seq![events[i].seq]);
        assert(done_seqs(events.take(i)) + seq![events[i].seq] =~= done_seqs(
            events.take(i),
        ).push(events[i].seq));
    } else {
        assert(done_seqs(single) =~= Seq::<SeqNo>::empty());
        assert(done_seqs(events.take(i)) + done_seqs(single) =~= done_seqs(events.take(i)));
    }
}

proof fn lemma_publish_push(q: Seq<StateTransferProgress>, cap: int, s: Seq<SeqNo>, x: SeqNo)
    ensures
        publish_checkpoints(q, cap, s.push(x)) == push_bounded(
            publish_checkpoints(q, cap, s),
            cap,
            StateTransferProgress::CheckpointReceived(x),
        ),
    decreases s.len(),
{
    if s.len() == 0 {
        assert(s.push(x)[0] == x);
        assert(s.push(x).skip(1) =~= Seq::<SeqNo>::empty());
        assert(publish_checkpoints(
            push_bounded(q, cap, StateTransferProgress::CheckpointReceived(x)),
            cap,
            Seq::<SeqNo>::empty(),
        ) == push_bounded(q, cap, StateTransferProgress::CheckpointReceived(x)));
    } else {
        assert(s.push(x)[0] == s[0]);
        assert(s.push(x).skip(1) =~= s.skip(1).push(x));
        lemma_publish_push(
            push_bounded(q, cap, StateTransferProgress::CheckpointReceived(s[0])),
            cap,
            s.skip(1),
            x,
        );
    }
}

proof fn lemma_prefix_refl<T>(a: Seq<T>)
    ensures
        a.is_prefix_of(a),
{
    assert(a =~= a.subrange(0, a.len() as int));
}

proof fn lemma_prefix_trans<T>(a: Seq<T>, b: Seq<T>, c: Seq<T>)
    requires
        a.is_prefix_of(b),
        b.is_prefix_of(c),
    ensures
        a.is_prefix_of(c),
{
    assert(a =~= c.subrange(0, a.len() as int));
}

/// Publishing notices never disturbs what is already queued: the old
/// progress queue is a prefix of the queue after publication.
pub proof fn lemma_publish_prefix(q: Seq<StateTransferProgress>, cap: int, s: Seq<SeqNo>)
    ensures
        q.is_prefix_of(publish_checkpoints(q, cap, s)),
    decreases s.len(),
{
    lemma_prefix_refl(q);
    if s.len() > 0 {
        let q1 = push_bounded(q, cap, StateTransferProgress::CheckpointReceived(s[0]));
        if q.len() < cap {
            assert(q1.subrange(0, q.len() as int) =~= q);
        }
        lemma_publish_prefix(q1, cap, s.skip(1));
        lemma_prefix_trans(q, q1, publish_checkpoints(q1, cap, s.skip(1)));
    }
}

/// When the progress queue has room for every notice, each `Done`
/// event's sequence number is published exactly once, in order: the
/// queue afterwards is the old queue with exactly those notices
/// appended.
pub proof fn lemma_checkpoints_published_once(
    q: Seq<StateTransferProgress>,
    cap: int,
    seqs: Seq<SeqNo>,
)
    requires
        q.len() + seqs.len() <= cap,
    ensures
        publish_checkpoints(q, cap, seqs) == q + seqs.map_values(
            |s: SeqNo| StateTransferProgress::CheckpointReceived(s),
        ),
    decreases seqs.len(),
{
    let notices = seqs.map_values(|s: SeqNo| StateTransferProgress::CheckpointReceived(s));
    if seqs.len() == 0 {
        assert(q + notices =~= q);
    } else {
        let q1 = push_bounded(q, cap, StateTransferProgress::CheckpointReceived(seqs[0]));
        lemma_checkpoints_published_once(q1, cap, seqs.skip(1));
        assert(q1 + seqs.skip(1).map_values(
            |s: SeqNo| StateTransferProgress::CheckpointReceived(s),
        ) =~= q + notices);
    }
}

proof fn lemma_checkpoint_calls_push(
    events: Seq<AppStateMessage>,
    trace: Seq<CallRecord>,
    ev: AppStateMessage,
    rec: CallRecord,
)
    requires
        checkpoint_calls_match(events, trace),
        checkpoint_head_matches(ev, rec),
    ensures
        checkpoint_calls_match(events.push(ev), trace.push(rec)),
    decreases events.len(),
{
    if events.len() == 0 {
        assert(events.push(ev)[0] == ev);
        assert(trace.push(rec)[0] == rec);
        assert(events.push(ev).skip(1) =~= Seq::<AppStateMessage>::empty());
        assert(trace.push(rec).skip(1) =~= Seq::<CallRecord>::empty());
        assert(checkpoint_calls_match(
            Seq::<AppStateMessage>::empty(),
            Seq::<CallRecord>::empty(),
        ));
    } else {
        lemma_checkpoint_calls_push(events.skip(1), trace.skip(1), ev, rec);
        assert(events.push(ev)[0] == events[0]);
        assert(trace.push(rec)[0] == trace[0]);
        assert(events.push(ev).skip(1) =~= events.skip(1).push(ev));
        assert(trace.push(rec).skip(1) =~= trace.skip(1).push(rec));
    }
}

/// The state transfer engine for divisible application state: the
/// manager, the inbound checkpoint queue, and the pluggable protocol
/// it drives.
pub struct DivStateTransfer<ST: StateTransferProtocol> {
    inner_state: StateTransferMngr,
    checkpoint_rx_from_app: BoundedQueue<AppStateMessage>,
    state_transfer_protocol: ST,
}

impl<ST: StateTransferProtocol> DivStateTransfer<ST> {
    /// The manager's state.
    pub closed spec fn mngr(&self) -> StateTransferMngr {
        self.inner_state
    }

    /// The pending checkpoint events, oldest first.
    pub closed spec fn checkpoints(&self) -> Seq<AppStateMessage> {
        self.checkpoint_rx_from_app.contents()
    }

    /// Capacity of the checkpoint queue.
    pub closed spec fn checkpoint_cap(&self) -> int {
        self.checkpoint_rx_from_app.cap()
    }

    /// Builds the engine around a concrete protocol instance. The
    /// hosting thread then calls [`Self::run`] in its loop.
    pub fn init_state_transfer_thread(state_transfer_protocol: ST) -> (d: Self)
        ensures
            d.mngr().wf(),
            !d.mngr().running(),
            d.mngr().call_log().len() == 0,
            d.checkpoints().len() == 0,
            d.checkpoint_cap() == CHECKPOINT_CHANNEL_SIZE as int,
    {
        DivStateTransfer {
            inner_state: StateTransferMngr::initialize_core_state_transfer(),
            checkpoint_rx_from_app: BoundedQueue::new(CHECKPOINT_CHANNEL_SIZE),
            state_transfer_protocol,
        }
    }

    /// Best-effort delivery of one checkpoint event from the
    /// application: dropped when the checkpoint queue is full, never
    /// blocking the producer.
    pub fn deliver_checkpoint(&mut self, event: AppStateMessage) -> (accepted: bool)
        ensures
            accepted == (old(self).checkpoints().len() < old(self).checkpoint_cap()),
            accepted ==> final(self).checkpoints() == old(self).checkpoints().push(event),
            !accepted ==> final(self).checkpoints() == old(self).checkpoints(),
            final(self).checkpoint_cap() == old(self).checkpoint_cap(),
            final(self).mngr() == old(self).mngr(),
    {
        self.checkpoint_rx_from_app.post(event)
    }

    /// Drains all pending checkpoint events non-blockingly, in arrival
    /// order: each descriptor, part batch and `Done` event is handed
    /// to the matching protocol entry (and recorded in the trace), and
    /// each successfully ingested `Done` is followed by exactly one
    /// best-effort checkpoint-received notice. A protocol failure
    /// stops the drain and is handed up; the failing event is consumed
    /// and, if it was a `Done`, its notice is not published.
    pub fn receive_checkpoints(&mut self, handle: &mut StateTransferThreadHandle) -> (r: Result<
        (),
        STError,
    >)
        ensures
            final(self).mngr().running() == old(self).mngr().running(),
            final(self).mngr().view_info() == old(self).mngr().view_info(),
            final(self).mngr().wf() == old(self).mngr().wf(),
            final(self).checkpoint_cap() == old(self).checkpoint_cap(),
            final(handle).work() == old(handle).work(),
            final(handle).work_cap() == old(handle).work_cap(),
            final(handle).response_cap() == old(handle).response_cap(),
            old(self).mngr().call_log().is_prefix_of(final(self).mngr().call_log()),
            r is Ok ==> ({
                let appended = final(self).mngr().call_log().skip(
                    old(self).mngr().call_log().len() as int,
                );
                &&& final(self).checkpoints().len() == 0
                &&& appended.len() == old(self).checkpoints().len()
                &&& checkpoint_calls_match(old(self).checkpoints(), appended)
                &&& forall|j: int|
                    0 <= j < appended.len() ==> checkpoint_call_ok(#[trigger] appended[j])
                &&& final(handle).responses() == publish_checkpoints(
                    old(handle).responses(),
                    old(handle).response_cap(),
                    done_seqs(old(self).checkpoints()),
                )
            }),
            r is Err ==> exists|k: int|
                0 <= k < old(self).checkpoints().len() && ({
                    let appended = final(self).mngr().call_log().skip(
                        old(self).mngr().call_log().len() as int,
                    );
                    &&& final(self).checkpoints() == old(self).checkpoints().skip(k + 1)
                    &&& checkpoint_calls_match(old(self).checkpoints().take(k + 1), appended)
                    &&& forall|j: int|
                        0 <= j < appended.len() - 1 ==> checkpoint_call_ok(
                            #[trigger] appended[j],
                        )
                    &&& appended.len() == k + 1
                    &&& !checkpoint_call_ok(appended[k])
                    &&& final(handle).responses() == publish_checkpoints(
                        old(handle).responses(),
                        old(handle).response_cap(),
                        done_seqs(#[trigger] old(self).checkpoints().take(k)),
                    )
                }),
    {
        let ghost old_ckpts = self.checkpoint_rx_from_app.contents();
        let ghost old_resp = handle.responses();
        let ghost old_log_len = self.mngr().call_log().len() as int;
        let ghost mut i: int = 0;
        proof {
            assert(self.mngr().call_log().skip(old_log_len) =~= Seq::<CallRecord>::empty());
            assert(self.mngr().call_log() =~= self.mngr().call_log().subrange(0, old_log_len));
            assert(old_ckpts.take(0) =~= Seq::<AppStateMessage>::empty());
        }

        while self.checkpoint_rx_from_app.len() > 0
            invariant
                0 <= i <= old_ckpts.len(),
                self.checkpoints() == old_ckpts.skip(i),
                handle.responses() == publish_checkpoints(
                    old_resp,
                    handle.response_cap(),
                    done_seqs(old_ckpts.take(i)),
                ),
                self.mngr().running() == old(self).mngr().running(),
                self.mngr().view_info() == old(self).mngr().view_info(),
                self.mngr().wf() == old(self).mngr().wf(),
                self.checkpoint_cap() == old(self).checkpoint_cap(),
                handle.work() == old(handle).work(),
                handle.work_cap() == old(handle).work_cap(),
                handle.response_cap() == old(handle).response_cap(),
                old_ckpts == old(self).checkpoints(),
                old_resp == old(handle).responses(),
                old_log_len == old(self).mngr().call_log().len() as int,
                old(self).mngr().call_log().is_prefix_of(self.mngr().call_log()),
                self.mngr().call_log().skip(old_log_len).len() == i,
                checkpoint_calls_match(
                    old_ckpts.take(i),
                    self.mngr().call_log().skip(old_log_len),
                ),
                forall|j: int|
                    0 <= j < self.mngr().call_log().skip(old_log_len).len()
                        ==> checkpoint_call_ok(
                        #[trigger] self.mngr().call_log().skip(old_log_len)[j],
                    ),
            decreases old_ckpts.len() - i,
        {
            if let Some(checkpoint) = self.checkpoint_rx_from_app.try_recv() {
                let ghost gev = checkpoint;
                proof {
                    assert(old_ckpts.skip(i)[0] == old_ckpts[i]);
                    assert(old_ckpts.skip(i).skip(1) =~= old_ckpts.skip(i + 1));
                    assert(old_ckpts.take(i + 1) =~= old_ckpts.take(i).push(old_ckpts[i]));
                    lemma_done_seqs_take_step(old_ckpts, i);
                }
                let seq_no = checkpoint.seq;
                match checkpoint.state {
                    AppState::StateDescriptor(descriptor) => {
                        let ghost gd = descriptor;
                        let ghost prev_log = self.mngr().call_log();
                        let res = self.state_transfer_protocol.handle_state_desc_received_from_app(
                            descriptor,
                        );
                        self.inner_state.record_call(
                            Ghost(ProtocolCall::DescriptorFromApp(gd, res)),
                        );
                        proof {
                            let rec = (CallRecord {
                                call: ProtocolCall::DescriptorFromApp(gd, res),
                                running: self.mngr().running(),
                            });
                            Self::trace_step_facts(old_log_len, prev_log, rec, old_ckpts, i, gev);
                        }
                        if let Err(e) = res {
                            proof {
                                self.witness_error(handle, old_ckpts, old_resp, old_log_len, i);
                            }
                            return Err(e);
                        }
                    },
                    AppState::StatePart(parts) => {
                        let ghost gp = parts;
                        let ghost prev_log = self.mngr().call_log();
                        let res = self.state_transfer_protocol.handle_state_part_received_from_app(
                            parts,
                        );
                        self.inner_state.record_call(Ghost(ProtocolCall::PartFromApp(gp, res)));
                        proof {
                            let rec = (CallRecord {
                                call: ProtocolCall::PartFromApp(gp, res),
                                running: self.mngr().running(),
                            });
                            Self::trace_step_facts(old_log_len, prev_log, rec, old_ckpts, i, gev);
                        }
                        if let Err(e) = res {
                            proof {
                                self.witness_error(handle, old_ckpts, old_resp, old_log_len, i);
                            }
                            return Err(e);
                        }
                    },
                    AppState::Done => {
                        let ghost prev_log = self.mngr().call_log();
                        let res = self.state_transfer_protocol.handle_state_finished_reception();
                        self.inner_state.record_call(
                            Ghost(ProtocolCall::ReceptionFinished(res)),
                        );
                        proof {
                            let rec = (CallRecord {
                                call: ProtocolCall::ReceptionFinished(res),
                                running: self.mngr().running(),
                            });
                            Self::trace_step_facts(old_log_len, prev_log, rec, old_ckpts, i, gev);
                        }
                        if let Err(e) = res {
                            proof {
                                self.witness_error(handle, old_ckpts, old_resp, old_log_len, i);
                            }
                            return Err(e);
                        }
                        self.inner_state.notify_of_checkpoint(handle, seq_no);
                        proof {
                            lemma_publish_push(
                                old_resp,
                                handle.response_cap(),
                                done_seqs(old_ckpts.take(i)),
                                seq_no,
                            );
                        }
                    },
                }
                proof {
                    i = i + 1;
                }
            }
        }
        proof {
            assert(old_ckpts.take(i) =~= old_ckpts);
        }
        Ok(())
    }

    /// Shared step facts for the ingestion loop: the appended trace
    /// grows by the one record fitting the event just consumed.
    proof fn trace_step_facts(
        old_log_len: int,
        prev_log: Seq<CallRecord>,
        rec: CallRecord,
        old_ckpts: Seq<AppStateMessage>,
        i: int,
        gev: AppStateMessage,
    )
        requires
            0 <= old_log_len <= prev_log.len(),
            0 <= i < old_ckpts.len(),
            gev == old_ckpts[i],
            checkpoint_calls_match(old_ckpts.take(i), prev_log.skip(old_log_len)),
            checkpoint_head_matches(gev, rec),
            old_ckpts.take(i + 1) == old_ckpts.take(i).push(old_ckpts[i]),
        ensures
            prev_log.push(rec).skip(old_log_len) == prev_log.skip(old_log_len).push(rec),
            checkpoint_calls_match(old_ckpts.take(i + 1), prev_log.push(rec).skip(old_log_len)),
    {
        assert(prev_log.push(rec).skip(old_log_len) =~= prev_log.skip(old_log_len).push(rec));
        lemma_checkpoint_calls_push(old_ckpts.take(i), prev_log.skip(old_log_len), gev, rec);
    }

    /// Provides the witness for the error case of the ingestion
    /// contract: the failing event is the one at position `i`.
    proof fn witness_error(
        &self,
        handle: &StateTransferThreadHandle,
        old_ckpts: Seq<AppStateMessage>,
        old_resp: Seq<StateTransferProgress>,
        old_log_len: int,
        i: int,
    )
        requires
            0 <= i < old_ckpts.len(),
            self.checkpoints() == old_ckpts.skip(i + 1),
            handle.responses() == publish_checkpoints(
                old_resp,
                handle.response_cap(),
                done_seqs(old_ckpts.take(i)),
            ),
            self.mngr().call_log().skip(old_log_len).len() == i + 1,
            checkpoint_calls_match(
                old_ckpts.take(i + 1),
                self.mngr().call_log().skip(old_log_len),
            ),
            forall|j: int|
                0 <= j < self.mngr().call_log().skip(old_log_len).len() - 1
                    ==> checkpoint_call_ok(#[trigger] self.mngr().call_log().skip(old_log_len)[j]),
            !checkpoint_call_ok(self.mngr().call_log().skip(old_log_len)[i]),
        ensures
            exists|k: int|
                0 <= k < old_ckpts.len() && ({
                    let appended = self.mngr().call_log().skip(old_log_len);
                    &&& self.checkpoints() == old_ckpts.skip(k + 1)
                    &&& checkpoint_calls_match(old_ckpts.take(k + 1), appended)
                    &&& forall|j: int|
                        0 <= j < appended.len() - 1 ==> checkpoint_call_ok(
                            #[trigger] appended[j],
                        )
                    &&& appended.len() == k + 1
                    &&& !checkpoint_call_ok(appended[k])
                    &&& handle.responses() == publish_checkpoints(
                        old_resp,
                        handle.response_cap(),
                        done_seqs(#[trigger] old_ckpts.take(k)),
                    )
                }),
    {
        assert(0 <= i < old_ckpts.len() && ({
            let appended = self.mngr().call_log().skip(old_log_len);
            &&& self.checkpoints() == old_ckpts.skip(i + 1)
            &&& checkpoint_calls_match(old_ckpts.take(i + 1), appended)
            &&& forall|j: int|
                0 <= j < appended.len() - 1 ==> checkpoint_call_ok(#[trigger] appended[j])
            &&& appended.len() == i + 1
            &&& !checkpoint_call_ok(appended[i])
            &&& handle.responses() == publish_checkpoints(
                old_resp,
                handle.response_cap(),
                done_seqs(#[trigger] old_ckpts.take(i)),
            )
        }));
    }

    /// One pass of the engine's run loop: drain pending checkpoint
    /// events, then let the manager drain its work queue and poll the
    /// protocol. The hosting thread calls this forever; a failure of a
    /// checkpoint handler is handed up as fatal to that thread.
    ///
    /// On success the appended trace and the progress queue are pinned
    /// exactly: first one matching ingestion call per checkpoint
    /// event, all successful, with one best-effort notice per `Done`;
    /// then the manager's drain trace and poll suffix, whose
    /// successful results are the only further publications.
    pub fn run(&mut self, handle: &mut StateTransferThreadHandle) -> (r: Result<
        Vec<OneShotSlot>,
        STError,
    >)
        requires
            old(self).mngr().wf(),
        ensures
            final(self).mngr().wf(),
            final(self).checkpoint_cap() == old(self).checkpoint_cap(),
            final(handle).work_cap() == old(handle).work_cap(),
            final(handle).response_cap() == old(handle).response_cap(),
            old(handle).responses().is_prefix_of(final(handle).responses()),
            old(self).mngr().call_log().is_prefix_of(final(self).mngr().call_log()),
            r matches Ok(replies) ==> ({
                let appended = final(self).mngr().call_log().skip(
                    old(self).mngr().call_log().len() as int,
                );
                let ckpt_count = old(self).checkpoints().len() as int;
                let dcount = drain_call_count(old(handle).work()) as int;
                let resp_mid = publish_checkpoints(
                    old(handle).responses(),
                    old(handle).response_cap(),
                    done_seqs(old(self).checkpoints()),
                );
                &&& final(self).checkpoints().len() == 0
                &&& final(handle).work().len() == 0
                &&& final(self).mngr().running() == (old(self).mngr().running()
                    || has_state_request(old(handle).work()))
                &&& replies@.len() == app_state_query_count(old(handle).work())
                &&& forall|i: int|
                    0 <= i < replies@.len() ==> (#[trigger] replies@[i]).reply() is Some
                &&& appended.len() >= ckpt_count + dcount
                &&& checkpoint_calls_match(old(self).checkpoints(), appended.take(ckpt_count))
                &&& forall|j: int|
                    0 <= j < ckpt_count ==> checkpoint_call_ok(#[trigger] appended[j])
                &&& drain_matches(
                    old(self).mngr().running(),
                    old(handle).work(),
                    appended.skip(ckpt_count).take(dcount),
                )
                &&& poll_suffix_matches(
                    final(self).mngr().running(),
                    final(self).mngr().view_info(),
                    appended.skip(ckpt_count + dcount),
                )
                &&& final(handle).responses() == publish_all(
                    resp_mid,
                    old(handle).response_cap(),
                    published_of(appended.skip(ckpt_count)),
                )
                &&& replies@.len() == query_replies_of(appended.skip(ckpt_count)).len()
                &&& forall|i: int|
                    0 <= i < replies@.len() ==> (#[trigger] replies@[i]).reply() == Some(
                        query_replies_of(appended.skip(ckpt_count))[i],
                    )
            }),
            r is Err ==> final(handle).work() == old(handle).work() && final(self).mngr().running()
                == old(self).mngr().running(),
    {
        let ghost resp_before = handle.responses();
        let ghost old_log_len = self.mngr().call_log().len() as int;
        match self.receive_checkpoints(handle) {
            Ok(_) => {},
            Err(e) => {
                proof {
                    lemma_publish_prefix(
                        resp_before,
                        handle.response_cap(),
                        done_seqs(old(self).checkpoints().take(
                            choose|k: int|
                                0 <= k < old(self).checkpoints().len() && self.checkpoints()
                                    == old(self).checkpoints().skip(k + 1) && handle.responses()
                                    == publish_checkpoints(
                                    old(handle).responses(),
                                    old(handle).response_cap(),
                                    done_seqs(#[trigger] old(self).checkpoints().take(k)),
                                ),
                        )),
                    );
                }
                return Err(e);
            },
        }
        proof {
            lemma_publish_prefix(
                resp_before,
                handle.response_cap(),
                done_seqs(old(self).checkpoints()),
            );
        }
        let ghost resp_mid = handle.responses();
        let ghost mid_log = self.mngr().call_log();
        let ghost ckpt_trace = mid_log.skip(old_log_len);
        let replies = self.inner_state.iterate(handle, &mut self.state_transfer_protocol);
        proof {
            lemma_publish_all_prefix(
                resp_mid,
                handle.response_cap(),
                published_of(self.mngr().call_log().skip(mid_log.len() as int)),
            );
            lemma_prefix_trans(resp_before, resp_mid, handle.responses());
            lemma_prefix_trans(
                old(self).mngr().call_log(),
                mid_log,
                self.mngr().call_log(),
            );
            let appended = self.mngr().call_log().skip(old_log_len);
            let tail = self.mngr().call_log().skip(mid_log.len() as int);
            assert(appended =~= ckpt_trace + tail);
            assert((ckpt_trace + tail).subrange(0, ckpt_trace.len() as int) =~= ckpt_trace);
            assert((ckpt_trace + tail).skip(ckpt_trace.len() as int) =~= tail);
            assert(forall|j: int|
                0 <= j < ckpt_trace.len() ==> #[trigger] appended[j] == ckpt_trace[j]);
        }
        Ok(replies)
    }
}

} // verus!
