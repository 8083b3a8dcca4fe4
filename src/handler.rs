//! The per-substream engine: each substream carries one request/response
//! exchange with a peer, through the states below.

use vstd::prelude::*;
use crate::codec::{decode_peer_message, enc_message, encode_frame, encode_peer_frame, frame_of, is_message_encoding, is_peer_variant, CodecError};
use crate::message::{Commit, Message, MessageView, PrePrepare, Prepare};

verus! {

/// Handler-local tag that ties an inbound request to its deferred answer.
#[derive(Clone, Copy, PartialEq, Eq, Structural, Debug)]
pub struct ConnectionId(pub u64);

impl ConnectionId {
    pub fn new() -> (r: Self)
        ensures
            r.0 == 0,
    {
        ConnectionId(0)
    }

    /// Hands out the current id and advances the counter.
    pub fn next_id(&mut self) -> (r: Self)
        requires
            old(self).0 < u64::MAX,
        ensures
            r == *old(self),
            final(self).0 == old(self).0 + 1,
    {
        let next = self.0;
        self.0 = self.0 + 1;
        ConnectionId(next)
    }
}

/// What the consensus behaviour asks of a peer's handler.
#[derive(Debug)]
pub enum PbftHandlerIn {
    PrePrepareRequest(PrePrepare),
    PrePrepareResponse(Vec<u8>, ConnectionId),
    PrepareRequest(Prepare),
    PrepareResponse(Vec<u8>, ConnectionId),
    CommitRequest(Commit),
    CommitResponse(Vec<u8>, ConnectionId),
}

/// What a handler reports to the consensus behaviour.
#[derive(Debug)]
#[allow(inconsistent_fields)]
pub enum PbftHandlerEvent {
    ProcessPrePrepareRequest { request: PrePrepare, connection_id: ConnectionId },
    Response { response: Vec<u8> },
    ProcessPrepareRequest { request: Prepare, connection_id: ConnectionId },
    ProcessCommitRequest { request: Commit, connection_id: ConnectionId },
}

/// The request that carries `message` to a peer; client requests are not
/// sent between replicas.
pub open spec fn request_of(message: Message) -> PbftHandlerIn
    recommends
        !(message is ClientRequest),
{
    match message {
        Message::PrePrepare(m) => PbftHandlerIn::PrePrepareRequest(m),
        Message::Prepare(m) => PbftHandlerIn::PrepareRequest(m),
        Message::Commit(m) => PbftHandlerIn::CommitRequest(m),
        Message::ClientRequest(_) => arbitrary(),
    }
}

/// The handler event for a request `message` read on the inbound substream
/// `connection_id`; `None` for a client request, which has no place on this wire.
pub fn message_to_handler_event(message: Message, connection_id: ConnectionId) -> (r: Option<PbftHandlerEvent>)
    ensures
        match message {
            Message::PrePrepare(m) => r == Some(
                PbftHandlerEvent::ProcessPrePrepareRequest { request: m, connection_id },
            ),
            Message::Prepare(m) => r == Some(PbftHandlerEvent::ProcessPrepareRequest { request: m, connection_id }),
            Message::Commit(m) => r == Some(PbftHandlerEvent::ProcessCommitRequest { request: m, connection_id }),
            Message::ClientRequest(_) => r is None,
        },
{
    match message {
        Message::PrePrepare(pre_prepare) => Some(
            PbftHandlerEvent::ProcessPrePrepareRequest { request: pre_prepare, connection_id },
        ),
        Message::Prepare(prepare) => Some(PbftHandlerEvent::ProcessPrepareRequest { request: prepare, connection_id }),
        Message::Commit(commit) => Some(PbftHandlerEvent::ProcessCommitRequest { request: commit, connection_id }),
        Message::ClientRequest(_) => None,
    }
}

/// The message a request event carries, and its connection.
pub open spec fn event_request(event: PbftHandlerEvent) -> Option<(MessageView, ConnectionId)> {
    match event {
        PbftHandlerEvent::ProcessPrePrepareRequest { request, connection_id } => Some(
            (MessageView::PrePrepare(request.model()), connection_id),
        ),
        PbftHandlerEvent::ProcessPrepareRequest { request, connection_id } => Some(
            (MessageView::Prepare(request.model()), connection_id),
        ),
        PbftHandlerEvent::ProcessCommitRequest { request, connection_id } => Some(
            (MessageView::Commit(request.model()), connection_id),
        ),
        PbftHandlerEvent::Response { .. } => None,
    }
}

/// Where a substream stands in its exchange. The stream itself is held by
/// the transport; these states say which step it is due for.
#[derive(Debug)]
pub enum SubstreamState {
    /// Waiting for the transport to open an outbound substream for the message.
    OutPendingOpen(Message),
    /// Waiting to send the message.
    OutPendingSend(Message),
    /// Waiting to flush what was sent.
    OutPendingFlush,
    /// Waiting for the remote's answer.
    OutWaitingAnswer,
    /// Closing the outbound substream.
    OutClosing,
    /// Waiting for a request from the remote.
    InWaitingMessage(ConnectionId),
    /// Waiting for the application's answer to the request read on this connection.
    InWaitingToProcessMessage(ConnectionId),
    /// Waiting to send the answer.
    InPendingSend(Vec<u8>),
    /// Waiting to flush the answer.
    InPendingFlush,
    /// Closing the inbound substream.
    InClosing,
}

/// What the transport reported for the step a substream was due for.
#[derive(Debug)]
pub enum IoOutcome {
    /// The send was accepted, or the flush or close completed.
    Done,
    /// Not ready now.
    Pending,
    /// One whole frame arrived; this is its payload.
    Received(Vec<u8>),
    /// The remote ended the stream.
    Closed,
    /// The stream failed.
    Failed,
    /// No answer came within the answer timeout.
    TimedOut,
}

/// Why a substream ended early.
#[derive(PartialEq, Eq, Structural, Clone, Copy, Debug)]
pub enum SubstreamError {
    /// The stream failed or ended mid-exchange.
    Io,
    /// No answer came in time.
    ResponseTimeout,
    /// The request read could not be decoded.
    Decode(CodecError),
}

/// What a handler asks of the transport or reports upward.
#[derive(Debug)]
pub enum ProtocolsHandlerEvent {
    /// Open an outbound substream to carry `info`.
    OutboundSubstreamRequest { info: Message },
    /// An event for the consensus behaviour.
    Custom(PbftHandlerEvent),
    /// A substream ended with an error; the consensus state is untouched.
    Failed(SubstreamError),
}

/// Whether `state` is due for an I/O step that only waits.
pub open spec fn stays(
    state: SubstreamState,
    r: (Option<SubstreamState>, Option<ProtocolsHandlerEvent>, bool),
) -> bool {
    r == (Some(state), None::<ProtocolsHandlerEvent>, false)
}

pub open spec fn fails(r: (Option<SubstreamState>, Option<ProtocolsHandlerEvent>, bool), e: SubstreamError) -> bool {
    r == (None::<SubstreamState>, Some(ProtocolsHandlerEvent::Failed(e)), false)
}

pub open spec fn advances(r: (Option<SubstreamState>, Option<ProtocolsHandlerEvent>, bool), next: SubstreamState) -> bool {
    r == (Some(next), None::<ProtocolsHandlerEvent>, true)
}

/// One step of the send, flush and close states: `Done` moves to `next`
/// (`None`: the substream is finished), `Pending` stays, anything else fails.
pub open spec fn io_step(
    state: SubstreamState,
    outcome: IoOutcome,
    next: Option<SubstreamState>,
    r: (Option<SubstreamState>, Option<ProtocolsHandlerEvent>, bool),
) -> bool {
    match outcome {
        IoOutcome::Done => match next {
            Some(n) => advances(r, n),
            None => r == (None::<SubstreamState>, None::<ProtocolsHandlerEvent>, false),
        },
        IoOutcome::Pending => stays(state, r),
        _ => fails(r, SubstreamError::Io),
    }
}

/// The transition of `state` on `outcome`: the next state (`None`: the
/// substream is gone), what is reported, and whether the substream can
/// take its next step at once.
pub open spec fn substream_step(
    state: SubstreamState,
    outcome: IoOutcome,
    r: (Option<SubstreamState>, Option<ProtocolsHandlerEvent>, bool),
) -> bool {
    match state {
        SubstreamState::OutPendingOpen(m) => r == (
            None::<SubstreamState>,
            Some(ProtocolsHandlerEvent::OutboundSubstreamRequest { info: m }),
            false,
        ),
        SubstreamState::OutPendingSend(_) => io_step(state, outcome, Some(SubstreamState::OutPendingFlush), r),
        SubstreamState::OutPendingFlush => io_step(state, outcome, Some(SubstreamState::OutWaitingAnswer), r),
        SubstreamState::OutWaitingAnswer => match outcome {
            IoOutcome::Received(response) => r == (
                Some(SubstreamState::OutClosing),
                Some(ProtocolsHandlerEvent::Custom(PbftHandlerEvent::Response { response })),
                true,
            ),
            IoOutcome::Pending => stays(state, r),
            IoOutcome::TimedOut => fails(r, SubstreamError::ResponseTimeout),
            _ => fails(r, SubstreamError::Io),
        },
        SubstreamState::OutClosing => io_step(state, outcome, None, r),
        SubstreamState::InWaitingMessage(cid) => match outcome {
            IoOutcome::Received(bytes) => if is_message_encoding(bytes@) {
                let v = choose|v: MessageView| #[trigger] enc_message(v) == bytes@;
                if is_peer_variant(v) {
                    &&& r.0 == Some(SubstreamState::InWaitingToProcessMessage(cid))
                    &&& r.1 matches Some(ProtocolsHandlerEvent::Custom(ev))
                    &&& event_request(ev) == Some((v, cid))
                    &&& !r.2
                } else {
                    fails(r, SubstreamError::Decode(CodecError::UnexpectedVariant))
                }
            } else {
                fails(r, SubstreamError::Decode(CodecError::MalformedPayload))
            },
            IoOutcome::Pending => stays(state, r),
            IoOutcome::Closed => r == (None::<SubstreamState>, None::<ProtocolsHandlerEvent>, false),
            _ => fails(r, SubstreamError::Io),
        },
        SubstreamState::InWaitingToProcessMessage(_) => stays(state, r),
        SubstreamState::InPendingSend(_) => io_step(state, outcome, Some(SubstreamState::InPendingFlush), r),
        SubstreamState::InPendingFlush => io_step(state, outcome, Some(SubstreamState::InClosing), r),
        SubstreamState::InClosing => io_step(state, outcome, None, r),
    }
}

/// Applies `outcome` to a substream in `state`; see `substream_step`.
pub fn handle_substream(state: SubstreamState, outcome: IoOutcome) -> (r: (
    Option<SubstreamState>,
    Option<ProtocolsHandlerEvent>,
    bool,
))
    ensures
        substream_step(state, outcome, r),
{
    match state {
        SubstreamState::OutPendingOpen(message) => {
            (None, Some(ProtocolsHandlerEvent::OutboundSubstreamRequest { info: message }), false)
        },
        SubstreamState::OutPendingSend(message) => match outcome {
            IoOutcome::Done => (Some(SubstreamState::OutPendingFlush), None, true),
            IoOutcome::Pending => (Some(SubstreamState::OutPendingSend(message)), None, false),
            _ => (None, Some(ProtocolsHandlerEvent::Failed(SubstreamError::Io)), false),
        },
        SubstreamState::OutPendingFlush => match outcome {
            IoOutcome::Done => (Some(SubstreamState::OutWaitingAnswer), None, true),
            IoOutcome::Pending => (Some(SubstreamState::OutPendingFlush), None, false),
            _ => (None, Some(ProtocolsHandlerEvent::Failed(SubstreamError::Io)), false),
        },
        SubstreamState::OutWaitingAnswer => match outcome {
            IoOutcome::Received(response) => (
                Some(SubstreamState::OutClosing),
                Some(ProtocolsHandlerEvent::Custom(PbftHandlerEvent::Response { response })),
                true,
            ),
            IoOutcome::Pending => (Some(SubstreamState::OutWaitingAnswer), None, false),
            IoOutcome::TimedOut => (None, Some(ProtocolsHandlerEvent::Failed(SubstreamError::ResponseTimeout)), false),
            _ => (None, Some(ProtocolsHandlerEvent::Failed(SubstreamError::Io)), false),
        },
        SubstreamState::OutClosing => match outcome {
            IoOutcome::Done => (None, None, false),
            IoOutcome::Pending => (Some(SubstreamState::OutClosing), None, false),
            _ => (None, Some(ProtocolsHandlerEvent::Failed(SubstreamError::Io)), false),
        },
        SubstreamState::InWaitingMessage(connection_id) => match outcome {
            IoOutcome::Received(bytes) => match decode_peer_message(bytes.as_slice()) {
                Ok(message) => {
                    let ghost v = choose|v: MessageView| #[trigger] enc_message(v) == bytes@;
                    assert(enc_message(v) == bytes@);
                    let event = message_to_handler_event(message, connection_id);
                    match event {
                        Some(event) => (
                            Some(SubstreamState::InWaitingToProcessMessage(connection_id)),
                            Some(ProtocolsHandlerEvent::Custom(event)),
                            false,
                        ),
                        None => (None, Some(ProtocolsHandlerEvent::Failed(SubstreamError::Decode(CodecError::UnexpectedVariant))), false),
                    }
                },
                Err(e) => (None, Some(ProtocolsHandlerEvent::Failed(SubstreamError::Decode(e))), false),
            },
            IoOutcome::Pending => (Some(SubstreamState::InWaitingMessage(connection_id)), None, false),
            IoOutcome::Closed => (None, None, false),
            _ => (None, Some(ProtocolsHandlerEvent::Failed(SubstreamError::Io)), false),
        },
        SubstreamState::InWaitingToProcessMessage(connection_id) => {
            (Some(SubstreamState::InWaitingToProcessMessage(connection_id)), None, false)
        },
        SubstreamState::InPendingSend(response) => match outcome {
            IoOutcome::Done => (Some(SubstreamState::InPendingFlush), None, true),
            IoOutcome::Pending => (Some(SubstreamState::InPendingSend(response)), None, false),
            _ => (None, Some(ProtocolsHandlerEvent::Failed(SubstreamError::Io)), false),
        },
        SubstreamState::InPendingFlush => match outcome {
            IoOutcome::Done => (Some(SubstreamState::InClosing), None, true),
            IoOutcome::Pending => (Some(SubstreamState::InPendingFlush), None, false),
            _ => (None, Some(ProtocolsHandlerEvent::Failed(SubstreamError::Io)), false),
        },
        SubstreamState::InClosing => match outcome {
            IoOutcome::Done => (None, None, false),
            IoOutcome::Pending => (Some(SubstreamState::InClosing), None, false),
            _ => (None, Some(ProtocolsHandlerEvent::Failed(SubstreamError::Io)), false),
        },
    }
}

impl SubstreamState {
    /// The frame a substream in a sending state writes: the request it
    /// carries, or its answer.
    pub fn outgoing_frame(&self) -> (r: Option<Vec<u8>>)
        ensures
            match self {
                SubstreamState::OutPendingSend(m) => r matches Some(f) && f@ == frame_of(enc_message(m.model())),
                SubstreamState::InPendingSend(b) => r matches Some(f) && f@ == frame_of(b@),
                _ => r is None,
            },
    {
        match self {
            SubstreamState::OutPendingSend(m) => Some(encode_peer_frame(m)),
            SubstreamState::InPendingSend(b) => Some(encode_frame(b.as_slice())),
            _ => None,
        }
    }
}

/// A substream, identified for the transport that holds its stream.
#[derive(Debug)]
pub struct Substream {
    pub id: u64,
    pub state: SubstreamState,
}

/// Why a handler could not apply an event.
#[derive(PartialEq, Eq, Structural, Clone, Copy, Debug)]
pub enum HandlerError {
    /// No substream waits for an answer on this connection; the answer is dropped.
    UnknownConnectionId,
}

/// The abstract state of a handler.
pub struct HandlerView {
    /// The substreams, in the order they are polled.
    pub substreams: Seq<(u64, SubstreamState)>,
    /// The id the next inbound request gets.
    pub next_connection_id: u64,
    /// The id the next substream gets.
    pub next_substream_id: u64,
}

/// Whether `state` waits for the application's answer on `connection_id`.
pub open spec fn waits_on(state: SubstreamState, connection_id: ConnectionId) -> bool {
    state == SubstreamState::InWaitingToProcessMessage(connection_id)
}

/// The substreams after a step of the front one gave `next`: a substream
/// that can go on at once stays in front, one that waits goes to the back,
/// a finished one is gone.
pub open spec fn requeue(
    rest: Seq<(u64, SubstreamState)>,
    id: u64,
    next: Option<SubstreamState>,
    again: bool,
) -> Seq<(u64, SubstreamState)> {
    match next {
        None => rest,
        Some(s) => if again {
            seq![(id, s)] + rest
        } else {
            rest.push((id, s))
        },
    }
}

/// The handler of one connection to a peer: it runs one request/response
/// exchange per substream.
pub struct PbftHandler {
    substreams: Vec<Substream>,
    next_connection_id: ConnectionId,
    next_substream_id: u64,
}

impl View for PbftHandler {
    type V = HandlerView;

    closed spec fn view(&self) -> HandlerView {
        HandlerView {
            substreams: self.substreams@.map_values(|s: Substream| (s.id, s.state)),
            next_connection_id: self.next_connection_id.0,
            next_substream_id: self.next_substream_id,
        }
    }
}

impl PbftHandler {
    pub fn new() -> (r: Self)
        ensures
            r@.substreams.len() == 0,
            r@.next_connection_id == 0,
            r@.next_substream_id == 0,
    {
        let r = PbftHandler { substreams: Vec::new(), next_connection_id: ConnectionId::new(), next_substream_id: 0 };
        assert(r@.substreams =~= Seq::<(u64, SubstreamState)>::empty());
        r
    }

    /// The number of live substreams.
    pub fn len(&self) -> (r: usize)
        ensures
            r == self@.substreams.len(),
    {
        self.substreams.len()
    }

    /// Whether another substream and another connection id can be handed out.
    pub fn has_room(&self) -> (r: bool)
        ensures
            r == (self@.next_substream_id < u64::MAX && self@.next_connection_id < u64::MAX),
    {
        self.next_substream_id < u64::MAX && self.next_connection_id.0 < u64::MAX
    }

    /// Whether a substream with `id` is live.
    pub fn contains_substream(&self, id: u64) -> (r: bool)
        ensures
            r == exists|i: int| 0 <= i < self@.substreams.len() && #[trigger] self@.substreams[i].0 == id,
    {
        let mut i: usize = 0;
        while i < self.substreams.len()
            invariant
                0 <= i <= self.substreams@.len(),
                forall|j: int| 0 <= j < i ==> #[trigger] self@.substreams[j].0 != id,
            decreases self.substreams@.len() - i,
        {
            if self.substreams[i].id == id {
                assert(self@.substreams[i as int].0 == id);
                return true;
            }
            i = i + 1;
        }
        false
    }

    /// The substream polled next.
    pub fn front(&self) -> (r: Option<&Substream>)
        ensures
            self@.substreams.len() == 0 ==> r is None,
            self@.substreams.len() > 0 ==> (r matches Some(s) && (s.id, s.state) == self@.substreams[0]),
    {
        if self.substreams.len() == 0 {
            None
        } else {
            Some(&self.substreams[0])
        }
    }

    fn add(&mut self, state: SubstreamState) -> (id: u64)
        requires
            old(self)@.next_substream_id < u64::MAX,
        ensures
            id == old(self)@.next_substream_id,
            final(self)@ == (HandlerView {
                substreams: old(self)@.substreams.push((id, state)),
                next_substream_id: (id + 1) as u64,
                ..old(self)@
            }),
    {
        let id = self.next_substream_id;
        self.next_substream_id = self.next_substream_id + 1;
        self.substreams.push(Substream { id, state });
        assert(self@.substreams =~= old(self)@.substreams.push((id, state)));
        id
    }

    /// A new inbound substream: it gets the next connection id and waits
    /// for a request. Returns the substream's id.
    pub fn inject_fully_negotiated_inbound(&mut self) -> (id: u64)
        requires
            old(self)@.next_substream_id < u64::MAX,
            old(self)@.next_connection_id < u64::MAX,
        ensures
            id == old(self)@.next_substream_id,
            final(self)@ == (HandlerView {
                substreams: old(self)@.substreams.push(
                    (id, SubstreamState::InWaitingMessage(ConnectionId(old(self)@.next_connection_id))),
                ),
                next_connection_id: (old(self)@.next_connection_id + 1) as u64,
                next_substream_id: (id + 1) as u64,
            }),
    {
        let connection_id = self.next_connection_id.next_id();
        self.add(SubstreamState::InWaitingMessage(connection_id))
    }

    /// A new outbound substream for `message`: it is due to send it.
    /// Returns the substream's id.
    pub fn inject_fully_negotiated_outbound(&mut self, message: Message) -> (id: u64)
        requires
            old(self)@.next_substream_id < u64::MAX,
        ensures
            id == old(self)@.next_substream_id,
            final(self)@ == (HandlerView {
                substreams: old(self)@.substreams.push((id, SubstreamState::OutPendingSend(message))),
                next_substream_id: (id + 1) as u64,
                ..old(self)@
            }),
    {
        self.add(SubstreamState::OutPendingSend(message))
    }

    /// The position of the substream that waits for the answer on `connection_id`.
    pub fn find_waiting_substream_state_pos(&self, connection_id: ConnectionId) -> (r: Option<usize>)
        ensures
            match r {
                Some(i) => i < self@.substreams.len() && waits_on(self@.substreams[i as int].1, connection_id)
                    && forall|j: int| 0 <= j < i ==> !waits_on(#[trigger] self@.substreams[j].1, connection_id),
                None => forall|j: int|
                    0 <= j < self@.substreams.len() ==> !waits_on(#[trigger] self@.substreams[j].1, connection_id),
            },
    {
        let mut i: usize = 0;
        while i < self.substreams.len()
            invariant
                0 <= i <= self.substreams@.len(),
                forall|j: int| 0 <= j < i ==> !waits_on(#[trigger] self@.substreams[j].1, connection_id),
            decreases self.substreams@.len() - i,
        {
            match &self.substreams[i].state {
                SubstreamState::InWaitingToProcessMessage(c) => {
                    if c.0 == connection_id.0 {
                        return Some(i);
                    }
                },
                _ => {},
            }
            i = i + 1;
        }
        None
    }

    fn answer(&mut self, response: Vec<u8>, connection_id: ConnectionId) -> (r: Result<(), HandlerError>)
        ensures
            match r {
                Ok(()) => exists|i: int|
                    0 <= i < old(self)@.substreams.len() && waits_on(#[trigger] old(self)@.substreams[i].1, connection_id)
                        && (forall|j: int| 0 <= j < i ==> !waits_on(#[trigger] old(self)@.substreams[j].1, connection_id))
                        && final(self)@ == (HandlerView {
                        substreams: old(self)@.substreams.remove(i).push(
                            (old(self)@.substreams[i].0, SubstreamState::InPendingSend(response)),
                        ),
                        ..old(self)@
                    }),
                Err(e) => e == HandlerError::UnknownConnectionId && final(self)@ == old(self)@ && forall|j: int|
                    0 <= j < old(self)@.substreams.len() ==> !waits_on(
                        #[trigger] old(self)@.substreams[j].1,
                        connection_id,
                    ),
            },
    {
        match self.find_waiting_substream_state_pos(connection_id) {
            Some(pos) => {
                let ghost before = self@.substreams;
                let waiting = self.substreams.remove(pos);
                self.substreams.push(Substream { id: waiting.id, state: SubstreamState::InPendingSend(response) });
                assert(self@.substreams =~= before.remove(pos as int).push(
                    (before[pos as int].0, SubstreamState::InPendingSend(response)),
                ));
                Ok(())
            },
            None => Err(HandlerError::UnknownConnectionId),
        }
    }

    /// Applies a request of the consensus behaviour: a message to send opens
    /// a new outbound substream; an answer goes to the substream waiting on
    /// its connection, or is refused with `UnknownConnectionId` where none is.
    pub fn inject_event(&mut self, handler_in: PbftHandlerIn) -> (r: Result<(), HandlerError>)
        requires
            is_request(handler_in) ==> old(self)@.next_substream_id < u64::MAX,
        ensures
            match handler_in {
                PbftHandlerIn::PrePrepareRequest(m) => r is Ok && final(self)@ == (HandlerView {
                    substreams: old(self)@.substreams.push(
                        (old(self)@.next_substream_id, SubstreamState::OutPendingOpen(Message::PrePrepare(m))),
                    ),
                    next_substream_id: (old(self)@.next_substream_id + 1) as u64,
                    ..old(self)@
                }),
                PbftHandlerIn::PrepareRequest(m) => r is Ok && final(self)@ == (HandlerView {
                    substreams: old(self)@.substreams.push(
                        (old(self)@.next_substream_id, SubstreamState::OutPendingOpen(Message::Prepare(m))),
                    ),
                    next_substream_id: (old(self)@.next_substream_id + 1) as u64,
                    ..old(self)@
                }),
                PbftHandlerIn::CommitRequest(m) => r is Ok && final(self)@ == (HandlerView {
                    substreams: old(self)@.substreams.push(
                        (old(self)@.next_substream_id, SubstreamState::OutPendingOpen(Message::Commit(m))),
                    ),
                    next_substream_id: (old(self)@.next_substream_id + 1) as u64,
                    ..old(self)@
                }),
                PbftHandlerIn::PrePrepareResponse(b, c) => answered(*old(self), *final(self), b, c, r),
                PbftHandlerIn::PrepareResponse(b, c) => answered(*old(self), *final(self), b, c, r),
                PbftHandlerIn::CommitResponse(b, c) => answered(*old(self), *final(self), b, c, r),
            },
    {
        match handler_in {
            PbftHandlerIn::PrePrepareRequest(m) => {
                self.add(SubstreamState::OutPendingOpen(Message::PrePrepare(m)));
                Ok(())
            },
            PbftHandlerIn::PrepareRequest(m) => {
                self.add(SubstreamState::OutPendingOpen(Message::Prepare(m)));
                Ok(())
            },
            PbftHandlerIn::CommitRequest(m) => {
                self.add(SubstreamState::OutPendingOpen(Message::Commit(m)));
                Ok(())
            },
            PbftHandlerIn::PrePrepareResponse(b, c) => self.answer(b, c),
            PbftHandlerIn::PrepareResponse(b, c) => self.answer(b, c),
            PbftHandlerIn::CommitResponse(b, c) => self.answer(b, c),
        }
    }

    /// Takes one step of the front substream on `outcome`, the result of
    /// the I/O it was due for, and puts it back as `requeue` says. Returns
    /// what the step reports and whether the front substream can go on at once.
    pub fn poll_front(&mut self, outcome: IoOutcome) -> (r: (Option<ProtocolsHandlerEvent>, bool))
        ensures
            old(self)@.substreams.len() == 0 ==> r == (None::<ProtocolsHandlerEvent>, false) && final(self)@ == old(self)@,
            old(self)@.substreams.len() > 0 ==> exists|next: Option<SubstreamState>|
                #[trigger] polled(old(self)@, final(self)@, outcome, next, r.0, r.1),
    {
        if self.substreams.len() == 0 {
            return (None, false);
        }
        let ghost before = self@.substreams;
        let front = self.substreams.remove(0);
        assert((front.id, front.state) == before[0]);
        let (next, event, again) = handle_substream(front.state, outcome);
        let ghost g_next = next;
        let ghost g_event = event;
        match next {
            None => {},
            Some(state) => {
                if again {
                    self.substreams.insert(0, Substream { id: front.id, state });
                } else {
                    self.substreams.push(Substream { id: front.id, state });
                }
            },
        }
        assert(self@.substreams =~= requeue(before.drop_first(), front.id, g_next, again));
        assert(polled(old(self)@, self@, outcome, g_next, g_event, again));
        let r = (event, again);
        assert(polled(old(self)@, self@, outcome, g_next, r.0, r.1));
        assert(exists|n: Option<SubstreamState>| #[trigger] polled(old(self)@, self@, outcome, n, r.0, r.1));
        r
    }
}

/// The front substream of `before` took a step on `outcome` to `next`,
/// reporting `event`, and was put back as `requeue` says.
pub open spec fn polled(
    before: HandlerView,
    after: HandlerView,
    outcome: IoOutcome,
    next: Option<SubstreamState>,
    event: Option<ProtocolsHandlerEvent>,
    again: bool,
) -> bool {
    &&& before.substreams.len() > 0
    &&& substream_step(before.substreams[0].1, outcome, (next, event, again))
    &&& after == (HandlerView {
        substreams: requeue(before.substreams.drop_first(), before.substreams[0].0, next, again),
        ..before
    })
}

/// Whether `handler_in` asks to send a message, as opposed to answering one.
pub open spec fn is_request(handler_in: PbftHandlerIn) -> bool {
    handler_in is PrePrepareRequest || handler_in is PrepareRequest || handler_in is CommitRequest
}

/// The answer `response` on `connection_id` went to the first substream
/// waiting on it, which is now due to send it; or none waited and nothing changed.
pub open spec fn answered(
    before: PbftHandler,
    after: PbftHandler,
    response: Vec<u8>,
    connection_id: ConnectionId,
    r: Result<(), HandlerError>,
) -> bool {
    match r {
        Ok(()) => exists|i: int|
            0 <= i < before@.substreams.len() && waits_on(#[trigger] before@.substreams[i].1, connection_id)
                && (forall|j: int| 0 <= j < i ==> !waits_on(#[trigger] before@.substreams[j].1, connection_id))
                && after@ == (HandlerView {
                substreams: before@.substreams.remove(i).push(
                    (before@.substreams[i].0, SubstreamState::InPendingSend(response)),
                ),
                ..before@
            }),
        Err(e) => e == HandlerError::UnknownConnectionId && after@ == before@ && forall|j: int|
            0 <= j < before@.substreams.len() ==> !waits_on(#[trigger] before@.substreams[j].1, connection_id),
    }
}

} // verus!
