use smr_core::divisible_state::DivStateTransfer;
use smr_core::oneshot::OneShotSlot;
use smr_core::state_transfer::{
    StateTransferMngr, StateTransferProgress, StateTransferProtocol, StateTransferWorkMessage,
};
use smr_core::types::{
    AppState, AppStateMessage, ExecutionResult, Header, STError, STPollResult, STResult,
    StateDescriptor, StatePart, StoredMessage, ViewInfo,
};

struct MockProtocol {
    calls: Vec<&'static str>,
    process_views: Vec<ViewInfo>,
    poll_script: Vec<Result<STPollResult, STError>>,
    process_reply: Result<STResult, STError>,
    app_state_reply: Result<ExecutionResult, STError>,
    desc_reply: Result<(), STError>,
    part_reply: Result<(), STError>,
    done_reply: Result<(), STError>,
}

impl MockProtocol {
    fn new() -> Self {
        MockProtocol {
            calls: Vec::new(),
            process_views: Vec::new(),
            poll_script: Vec::new(),
            process_reply: Ok(STResult::StateTransferRunning),
            app_state_reply: Ok(ExecutionResult::BeginCheckpoint),
            desc_reply: Ok(()),
            part_reply: Ok(()),
            done_reply: Ok(()),
        }
    }
}

impl StateTransferProtocol for MockProtocol {
    fn request_latest_state(&mut self, _view: ViewInfo) -> Result<(), STError> {
        self.calls.push("request_latest_state");
        Ok(())
    }

    fn process_message(
        &mut self,
        view: ViewInfo,
        _message: StoredMessage,
    ) -> Result<STResult, STError> {
        self.calls.push("process_message");
        self.process_views.push(view);
        self.process_reply
    }

    fn handle_off_ctx_message(
        &mut self,
        _view: ViewInfo,
        _message: StoredMessage,
    ) -> Result<(), STError> {
        self.calls.push("handle_off_ctx_message");
        Ok(())
    }

    fn poll(&mut self) -> Result<STPollResult, STError> {
        self.calls.push("poll");
        if self.poll_script.is_empty() {
            Ok(STPollResult::ReceiveMsg)
        } else {
            self.poll_script.remove(0)
        }
    }

    fn handle_app_state_requested(
        &mut self,
        _view: ViewInfo,
        _seq: u64,
    ) -> Result<ExecutionResult, STError> {
        self.calls.push("handle_app_state_requested");
        self.app_state_reply
    }

    fn handle_state_desc_received_from_app(
        &mut self,
        _descriptor: StateDescriptor,
    ) -> Result<(), STError> {
        self.calls.push("handle_state_desc_received_from_app");
        self.desc_reply
    }

    fn handle_state_part_received_from_app(
        &mut self,
        _parts: Vec<StatePart>,
    ) -> Result<(), STError> {
        self.calls.push("handle_state_part_received_from_app");
        self.part_reply
    }

    fn handle_state_finished_reception(&mut self) -> Result<(), STError> {
        self.calls.push("handle_state_finished_reception");
        self.done_reply
    }
}

fn view(primary: u32) -> ViewInfo {
    ViewInfo { n: 4, f: 1, primary }
}

fn wire_msg(from: u32) -> StoredMessage {
    StoredMessage { header: Header { from }, payload: vec![1, 2, 3] }
}

#[test]
fn protocol_message_goes_off_context_while_idle() {
    let mut handle = StateTransferMngr::init_state_transfer_handles();
    let mut mngr = StateTransferMngr::initialize_core_state_transfer();
    let mut proto = MockProtocol::new();

    handle.send_work_message(StateTransferWorkMessage::StateTransferMessage(
        view(0),
        wire_msg(2),
    ));
    let replies = mngr.iterate(&mut handle, &mut proto);

    assert_eq!(proto.calls, vec!["handle_off_ctx_message"]);
    assert!(replies.is_empty());
    // the off-context result is discarded: nothing is published
    assert!(handle.try_recv_state_transfer_update().is_none());
}

#[test]
fn protocol_message_goes_to_main_entry_while_running() {
    let mut handle = StateTransferMngr::init_state_transfer_handles();
    let mut mngr = StateTransferMngr::initialize_core_state_transfer();
    let mut proto = MockProtocol::new();

    handle.send_work_message(StateTransferWorkMessage::RequestLatestState(view(0)));
    handle.send_work_message(StateTransferWorkMessage::StateTransferMessage(
        view(0),
        wire_msg(2),
    ));
    let _ = mngr.iterate(&mut handle, &mut proto);

    assert_eq!(
        proto.calls,
        vec!["request_latest_state", "process_message", "poll"]
    );
    // the successful main-entry result is published as progress
    assert_eq!(
        handle.try_recv_state_transfer_update(),
        Some(StateTransferProgress::StateTransferProgress(
            STResult::StateTransferRunning
        ))
    );
    assert_eq!(handle.try_recv_state_transfer_update(), None);
}

#[test]
fn app_state_query_is_answered_on_success() {
    let mut handle = StateTransferMngr::init_state_transfer_handles();
    let mut mngr = StateTransferMngr::initialize_core_state_transfer();
    let mut proto = MockProtocol::new();
    proto.app_state_reply = Ok(ExecutionResult::BeginCheckpoint);

    handle.send_work_message(StateTransferWorkMessage::ShouldRequestAppState(
        view(1),
        42,
        OneShotSlot::new(),
    ));
    let mut replies = mngr.iterate(&mut handle, &mut proto);

    assert_eq!(replies.len(), 1);
    let slot = replies.remove(0);
    assert_eq!(slot.take(), Some(ExecutionResult::BeginCheckpoint));
}

#[test]
fn app_state_query_is_answered_with_sentinel_on_failure() {
    let mut handle = StateTransferMngr::init_state_transfer_handles();
    let mut mngr = StateTransferMngr::initialize_core_state_transfer();
    let mut proto = MockProtocol::new();
    proto.app_state_reply = Err(STError);

    handle.send_work_message(StateTransferWorkMessage::ShouldRequestAppState(
        view(1),
        7,
        OneShotSlot::new(),
    ));
    let mut replies = mngr.iterate(&mut handle, &mut proto);

    // the waiter is released exactly once, with the "no state" sentinel
    assert_eq!(replies.len(), 1);
    let slot = replies.remove(0);
    assert_eq!(slot.take(), Some(ExecutionResult::Nil));
}

#[test]
fn control_queue_drops_beyond_capacity_without_blocking() {
    let mut handle = StateTransferMngr::init_state_transfer_handles();
    let mut mngr = StateTransferMngr::initialize_core_state_transfer();
    let mut proto = MockProtocol::new();

    // flood the 128-slot control queue with 130 queries
    for seq in 0..130u64 {
        handle.send_work_message(StateTransferWorkMessage::ShouldRequestAppState(
            view(1),
            seq,
            OneShotSlot::new(),
        ));
    }
    let replies = mngr.iterate(&mut handle, &mut proto);

    // exactly the first 128 were kept, the excess was silently dropped
    assert_eq!(replies.len(), 128);
}

#[test]
fn timeout_events_are_accepted_but_not_acted_upon() {
    let mut handle = StateTransferMngr::init_state_transfer_handles();
    let mut mngr = StateTransferMngr::initialize_core_state_transfer();
    let mut proto = MockProtocol::new();

    handle.send_work_message(StateTransferWorkMessage::Timeout(view(0), vec![]));
    let replies = mngr.iterate(&mut handle, &mut proto);

    assert!(proto.calls.is_empty());
    assert!(replies.is_empty());
    assert!(handle.try_recv_state_transfer_update().is_none());
}

#[test]
fn poll_result_is_published_and_flag_stays_set() {
    let mut handle = StateTransferMngr::init_state_transfer_handles();
    let mut mngr = StateTransferMngr::initialize_core_state_transfer();
    let mut proto = MockProtocol::new();
    proto
        .poll_script
        .push(Ok(STPollResult::STResult(STResult::StateTransferFinished(9))));

    handle.send_work_message(StateTransferWorkMessage::RequestLatestState(view(0)));
    let _ = mngr.iterate(&mut handle, &mut proto);
    assert_eq!(
        handle.try_recv_state_transfer_update(),
        Some(StateTransferProgress::StateTransferProgress(
            STResult::StateTransferFinished(9)
        ))
    );

    // a poll result does not clear the in-flight flag: a later message
    // still goes through the main entry
    handle.send_work_message(StateTransferWorkMessage::StateTransferMessage(
        view(0),
        wire_msg(3),
    ));
    let _ = mngr.iterate(&mut handle, &mut proto);
    assert!(proto.calls.contains(&"process_message"));
    assert!(!proto.calls.contains(&"handle_off_ctx_message"));
}

#[test]
fn poll_exec_routes_through_main_entry_with_requested_view() {
    let mut handle = StateTransferMngr::init_state_transfer_handles();
    let mut mngr = StateTransferMngr::initialize_core_state_transfer();
    let mut proto = MockProtocol::new();
    proto.poll_script.push(Ok(STPollResult::Exec(wire_msg(2))));

    handle.send_work_message(StateTransferWorkMessage::RequestLatestState(view(3)));
    let _ = mngr.iterate(&mut handle, &mut proto);

    assert_eq!(
        proto.calls,
        vec!["request_latest_state", "poll", "process_message"]
    );
    assert_eq!(proto.process_views, vec![view(3)]);
    assert_eq!(
        handle.try_recv_state_transfer_update(),
        Some(StateTransferProgress::StateTransferProgress(
            STResult::StateTransferRunning
        ))
    );
}

#[test]
fn poll_repoll_returns_without_further_calls() {
    let mut handle = StateTransferMngr::init_state_transfer_handles();
    let mut mngr = StateTransferMngr::initialize_core_state_transfer();
    let mut proto = MockProtocol::new();
    proto.poll_script.push(Ok(STPollResult::RePoll));

    handle.send_work_message(StateTransferWorkMessage::RequestLatestState(view(0)));
    let replies = mngr.iterate(&mut handle, &mut proto);

    assert_eq!(proto.calls, vec!["request_latest_state", "poll"]);
    assert!(replies.is_empty());
}

#[test]
fn no_poll_happens_while_no_transfer_is_in_flight() {
    let mut handle = StateTransferMngr::init_state_transfer_handles();
    let mut mngr = StateTransferMngr::initialize_core_state_transfer();
    let mut proto = MockProtocol::new();

    let replies = mngr.iterate(&mut handle, &mut proto);

    assert!(proto.calls.is_empty());
    assert!(replies.is_empty());
}

#[test]
fn failed_fetch_kickoff_is_swallowed() {
    struct FailingKickoff(MockProtocol);
    impl StateTransferProtocol for FailingKickoff {
        fn request_latest_state(&mut self, _view: ViewInfo) -> Result<(), STError> {
            self.0.calls.push("request_latest_state");
            Err(STError)
        }
        fn process_message(
            &mut self,
            view: ViewInfo,
            message: StoredMessage,
        ) -> Result<STResult, STError> {
            self.0.process_message(view, message)
        }
        fn handle_off_ctx_message(
            &mut self,
            view: ViewInfo,
            message: StoredMessage,
        ) -> Result<(), STError> {
            self.0.handle_off_ctx_message(view, message)
        }
        fn poll(&mut self) -> Result<STPollResult, STError> {
            self.0.poll()
        }
        fn handle_app_state_requested(
            &mut self,
            view: ViewInfo,
            seq: u64,
        ) -> Result<ExecutionResult, STError> {
            self.0.handle_app_state_requested(view, seq)
        }
        fn handle_state_desc_received_from_app(
            &mut self,
            descriptor: StateDescriptor,
        ) -> Result<(), STError> {
            self.0.handle_state_desc_received_from_app(descriptor)
        }
        fn handle_state_part_received_from_app(
            &mut self,
            parts: Vec<StatePart>,
        ) -> Result<(), STError> {
            self.0.handle_state_part_received_from_app(parts)
        }
        fn handle_state_finished_reception(&mut self) -> Result<(), STError> {
            self.0.handle_state_finished_reception()
        }
    }

    let mut handle = StateTransferMngr::init_state_transfer_handles();
    let mut mngr = StateTransferMngr::initialize_core_state_transfer();
    let mut proto = FailingKickoff(MockProtocol::new());

    handle.send_work_message(StateTransferWorkMessage::RequestLatestState(view(0)));
    let replies = mngr.iterate(&mut handle, &mut proto);

    // the failure is swallowed: no reply, no progress message, but the
    // transfer counts as in flight, so the protocol was polled
    assert!(replies.is_empty());
    assert_eq!(proto.0.calls, vec!["request_latest_state", "poll"]);
    assert!(handle.try_recv_state_transfer_update().is_none());
}

#[test]
fn blocking_read_hands_out_oldest_progress_first() {
    let mut handle = StateTransferMngr::init_state_transfer_handles();
    let mngr = StateTransferMngr::initialize_core_state_transfer();

    mngr.notify_of_checkpoint(&mut handle, 4);
    mngr.notify_of_checkpoint(&mut handle, 5);

    assert_eq!(
        handle.receive_state_transfer_update(),
        StateTransferProgress::CheckpointReceived(4)
    );
    assert_eq!(
        handle.receive_state_transfer_update(),
        StateTransferProgress::CheckpointReceived(5)
    );
    assert_eq!(handle.try_recv_state_transfer_update(), None);
}

fn done_event(seq: u64) -> AppStateMessage {
    AppStateMessage { seq, state: AppState::Done }
}

fn descriptor_event(seq: u64) -> AppStateMessage {
    AppStateMessage {
        seq,
        state: AppState::StateDescriptor(StateDescriptor { payload: vec![9] }),
    }
}

fn parts_event(seq: u64) -> AppStateMessage {
    AppStateMessage {
        seq,
        state: AppState::StatePart(vec![StatePart { payload: vec![7, 7] }]),
    }
}

#[test]
fn checkpoint_done_publishes_exactly_one_notice() {
    let mut handle = StateTransferMngr::init_state_transfer_handles();
    let mut engine = DivStateTransfer::init_state_transfer_thread(MockProtocol::new());

    assert!(engine.deliver_checkpoint(descriptor_event(3)));
    assert!(engine.deliver_checkpoint(parts_event(3)));
    assert!(engine.deliver_checkpoint(done_event(3)));

    let outcome = engine.run(&mut handle);
    assert!(outcome.is_ok());

    assert_eq!(
        handle.try_recv_state_transfer_update(),
        Some(StateTransferProgress::CheckpointReceived(3))
    );
    // exactly once: no second notice for the same Done event
    assert_eq!(handle.try_recv_state_transfer_update(), None);
}

#[test]
fn checkpoint_events_are_forwarded_in_arrival_order() {
    let mut handle = StateTransferMngr::init_state_transfer_handles();
    let mut engine = DivStateTransfer::init_state_transfer_thread(MockProtocol::new());

    assert!(engine.deliver_checkpoint(descriptor_event(1)));
    assert!(engine.deliver_checkpoint(parts_event(1)));
    assert!(engine.deliver_checkpoint(done_event(1)));
    assert!(engine.deliver_checkpoint(done_event(2)));

    let outcome = engine.run(&mut handle);
    assert!(outcome.is_ok());

    assert_eq!(
        handle.try_recv_state_transfer_update(),
        Some(StateTransferProgress::CheckpointReceived(1))
    );
    assert_eq!(
        handle.try_recv_state_transfer_update(),
        Some(StateTransferProgress::CheckpointReceived(2))
    );
    assert_eq!(handle.try_recv_state_transfer_update(), None);
}

#[test]
fn failing_checkpoint_handler_is_fatal_and_publishes_nothing() {
    let mut handle = StateTransferMngr::init_state_transfer_handles();
    let mut proto = MockProtocol::new();
    proto.done_reply = Err(STError);
    let mut engine = DivStateTransfer::init_state_transfer_thread(proto);

    assert!(engine.deliver_checkpoint(done_event(11)));
    let outcome = engine.run(&mut handle);

    assert_eq!(outcome.err(), Some(STError));
    assert_eq!(handle.try_recv_state_transfer_update(), None);
}

#[test]
fn checkpoint_queue_drops_beyond_capacity() {
    let mut engine = DivStateTransfer::init_state_transfer_thread(MockProtocol::new());
    for seq in 0..128u64 {
        assert!(engine.deliver_checkpoint(done_event(seq)));
    }
    // the 128-slot checkpoint queue is full: the excess event is
    // dropped and the producer is not blocked
    assert!(!engine.deliver_checkpoint(done_event(999)));
}

#[test]
fn failed_main_entry_result_is_not_published() {
    let mut handle = StateTransferMngr::init_state_transfer_handles();
    let mut mngr = StateTransferMngr::initialize_core_state_transfer();
    let mut proto = MockProtocol::new();
    proto.process_reply = Err(STError);

    handle.send_work_message(StateTransferWorkMessage::RequestLatestState(view(0)));
    handle.send_work_message(StateTransferWorkMessage::StateTransferMessage(
        view(0),
        wire_msg(2),
    ));
    let _ = mngr.iterate(&mut handle, &mut proto);

    // the error is absorbed locally: the main entry was reached, but
    // no progress message is published for the failed result
    assert!(proto.calls.contains(&"process_message"));
    assert_eq!(handle.try_recv_state_transfer_update(), None);
}

#[test]
fn failed_poll_is_absorbed_and_publishes_nothing() {
    let mut handle = StateTransferMngr::init_state_transfer_handles();
    let mut mngr = StateTransferMngr::initialize_core_state_transfer();
    let mut proto = MockProtocol::new();
    proto.poll_script.push(Err(STError));

    handle.send_work_message(StateTransferWorkMessage::RequestLatestState(view(0)));
    let replies = mngr.iterate(&mut handle, &mut proto);

    assert_eq!(proto.calls, vec!["request_latest_state", "poll"]);
    assert!(replies.is_empty());
    assert_eq!(handle.try_recv_state_transfer_update(), None);
}
