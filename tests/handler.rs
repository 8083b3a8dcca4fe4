use pbft::codec::{encode_frame, encode_message, encode_peer_frame, CodecError};
use pbft::handler::{
    handle_substream, message_to_handler_event, ConnectionId, HandlerError, IoOutcome, PbftHandler, PbftHandlerEvent,
    PbftHandlerIn, ProtocolsHandlerEvent, SubstreamError, SubstreamState,
};
use pbft::message::{ClientRequest, Message, PrePrepare, Prepare};

fn prepare() -> Prepare {
    Prepare::from(&PrePrepare::from(0, 1, ClientRequest::new("x".to_string(), 1, None)))
}

#[test]
fn connection_ids_count_up() {
    let mut c = ConnectionId::new();
    assert_eq!(c.next_id(), ConnectionId(0));
    assert_eq!(c.next_id(), ConnectionId(1));
    assert_eq!(c, ConnectionId(2));
}

#[test]
fn messages_become_handler_events() {
    let ev = message_to_handler_event(Message::Prepare(prepare()), ConnectionId(3));
    assert!(matches!(ev, Some(PbftHandlerEvent::ProcessPrepareRequest { connection_id: ConnectionId(3), .. })));
    let client = Message::ClientRequest(ClientRequest::new("x".to_string(), 1, None));
    assert!(message_to_handler_event(client, ConnectionId(0)).is_none());
}

#[test]
fn outbound_exchange_runs_through_its_states() {
    let m = Message::Prepare(prepare());
    let (next, ev, again) = handle_substream(SubstreamState::OutPendingOpen(m), IoOutcome::Pending);
    assert!(next.is_none() && !again);
    let info = match ev {
        Some(ProtocolsHandlerEvent::OutboundSubstreamRequest { info }) => info,
        other => panic!("unexpected {:?}", other),
    };
    let sending = SubstreamState::OutPendingSend(info);
    assert_eq!(sending.outgoing_frame().unwrap(), encode_peer_frame(&Message::Prepare(prepare())));
    let (next, ev, again) = handle_substream(sending, IoOutcome::Pending);
    assert!(matches!(next, Some(SubstreamState::OutPendingSend(_))) && ev.is_none() && !again);
    let (next, _, again) = handle_substream(next.unwrap(), IoOutcome::Done);
    assert!(matches!(next, Some(SubstreamState::OutPendingFlush)) && again);
    let (next, _, again) = handle_substream(next.unwrap(), IoOutcome::Done);
    assert!(matches!(next, Some(SubstreamState::OutWaitingAnswer)) && again);
    let (next, ev, again) = handle_substream(next.unwrap(), IoOutcome::Received(b"OK".to_vec()));
    assert!(matches!(next, Some(SubstreamState::OutClosing)) && again);
    assert!(matches!(ev, Some(ProtocolsHandlerEvent::Custom(PbftHandlerEvent::Response { ref response })) if response == b"OK"));
    let (next, ev, again) = handle_substream(next.unwrap(), IoOutcome::Done);
    assert!(next.is_none() && ev.is_none() && !again);
}

#[test]
fn waiting_answer_times_out() {
    let (next, ev, _) = handle_substream(SubstreamState::OutWaitingAnswer, IoOutcome::TimedOut);
    assert!(next.is_none());
    assert!(matches!(ev, Some(ProtocolsHandlerEvent::Failed(SubstreamError::ResponseTimeout))));
}

#[test]
fn io_error_ends_the_substream() {
    for state in [SubstreamState::OutPendingFlush, SubstreamState::OutClosing, SubstreamState::InPendingFlush, SubstreamState::InClosing] {
        let (next, ev, again) = handle_substream(state, IoOutcome::Failed);
        assert!(next.is_none() && !again);
        assert!(matches!(ev, Some(ProtocolsHandlerEvent::Failed(SubstreamError::Io))));
    }
}

#[test]
fn inbound_exchange_runs_through_its_states() {
    let payload = encode_message(&Message::Prepare(prepare()));
    let (next, ev, again) = handle_substream(SubstreamState::InWaitingMessage(ConnectionId(4)), IoOutcome::Received(payload));
    assert!(matches!(next, Some(SubstreamState::InWaitingToProcessMessage(ConnectionId(4)))) && !again);
    assert!(matches!(ev, Some(ProtocolsHandlerEvent::Custom(PbftHandlerEvent::ProcessPrepareRequest { connection_id: ConnectionId(4), .. }))));
    let (next, ev, _) = handle_substream(next.unwrap(), IoOutcome::Done);
    assert!(matches!(next, Some(SubstreamState::InWaitingToProcessMessage(_))) && ev.is_none());
    let sending = SubstreamState::InPendingSend(b"OK".to_vec());
    assert_eq!(sending.outgoing_frame().unwrap(), encode_frame(b"OK"));
    let (next, _, again) = handle_substream(sending, IoOutcome::Done);
    assert!(matches!(next, Some(SubstreamState::InPendingFlush)) && again);
    let (next, _, _) = handle_substream(next.unwrap(), IoOutcome::Done);
    assert!(matches!(next, Some(SubstreamState::InClosing)));
    let (next, ev, _) = handle_substream(next.unwrap(), IoOutcome::Done);
    assert!(next.is_none() && ev.is_none());
}

#[test]
fn undecodable_request_ends_the_substream() {
    let (next, ev, _) = handle_substream(SubstreamState::InWaitingMessage(ConnectionId(0)), IoOutcome::Received(vec![9]));
    assert!(next.is_none());
    assert!(matches!(ev, Some(ProtocolsHandlerEvent::Failed(SubstreamError::Decode(CodecError::MalformedPayload)))));
    let client = encode_message(&Message::ClientRequest(ClientRequest::new("x".to_string(), 1, None)));
    let (_, ev, _) = handle_substream(SubstreamState::InWaitingMessage(ConnectionId(0)), IoOutcome::Received(client));
    assert!(matches!(ev, Some(ProtocolsHandlerEvent::Failed(SubstreamError::Decode(CodecError::UnexpectedVariant)))));
    let (next, ev, _) = handle_substream(SubstreamState::InWaitingMessage(ConnectionId(0)), IoOutcome::Closed);
    assert!(next.is_none() && ev.is_none());
}

#[test]
fn answer_goes_to_the_waiting_substream() {
    let mut h = PbftHandler::new();
    let a = h.inject_fully_negotiated_inbound();
    let b = h.inject_fully_negotiated_inbound();
    assert_eq!((a, b), (0, 1));
    let payload = encode_message(&Message::Prepare(prepare()));
    // substream a reads its request and parks on connection 0
    let (ev, again) = h.poll_front(IoOutcome::Received(payload));
    assert!(matches!(ev, Some(ProtocolsHandlerEvent::Custom(PbftHandlerEvent::ProcessPrepareRequest { connection_id: ConnectionId(0), .. }))));
    assert!(!again);
    assert_eq!(h.front().unwrap().id, b);
    assert_eq!(h.find_waiting_substream_state_pos(ConnectionId(0)), Some(1));
    assert_eq!(h.find_waiting_substream_state_pos(ConnectionId(1)), None);
    assert_eq!(h.inject_event(PbftHandlerIn::PrepareResponse(b"OK".to_vec(), ConnectionId(0))), Ok(()));
    assert_eq!(h.len(), 2);
    assert_eq!(h.find_waiting_substream_state_pos(ConnectionId(0)), None);
    assert_eq!(
        h.inject_event(PbftHandlerIn::CommitResponse(b"OK".to_vec(), ConnectionId(9))),
        Err(HandlerError::UnknownConnectionId)
    );
}

#[test]
fn peer_disconnect_mid_exchange_drops_the_substream() {
    let mut h = PbftHandler::new();
    assert_eq!(h.inject_event(PbftHandlerIn::PrepareRequest(prepare())), Ok(()));
    let (ev, _) = h.poll_front(IoOutcome::Pending);
    let info = match ev {
        Some(ProtocolsHandlerEvent::OutboundSubstreamRequest { info }) => info,
        other => panic!("unexpected {:?}", other),
    };
    assert_eq!(h.len(), 0);
    h.inject_fully_negotiated_outbound(info);
    let (ev, again) = h.poll_front(IoOutcome::Failed);
    assert!(matches!(ev, Some(ProtocolsHandlerEvent::Failed(SubstreamError::Io))));
    assert!(!again);
    assert_eq!(h.len(), 0);
    assert_eq!(h.poll_front(IoOutcome::Done).0.is_none(), true);
}

#[test]
fn substream_that_can_go_on_stays_in_front() {
    let mut h = PbftHandler::new();
    h.inject_fully_negotiated_outbound(Message::Prepare(prepare()));
    h.inject_fully_negotiated_inbound();
    let (ev, again) = h.poll_front(IoOutcome::Done);
    assert!(ev.is_none() && again);
    assert!(matches!(h.front().unwrap().state, SubstreamState::OutPendingFlush));
    let (_, again) = h.poll_front(IoOutcome::Pending);
    assert!(!again);
    assert!(matches!(h.front().unwrap().state, SubstreamState::InWaitingMessage(_)));
}

#[test]
fn fresh_handler_has_room_and_tracks_ids() {
    let mut h = PbftHandler::new();
    assert!(h.has_room());
    let id = h.inject_fully_negotiated_outbound(Message::Prepare(prepare()));
    assert!(h.contains_substream(id));
    assert!(!h.contains_substream(id + 1));
}
