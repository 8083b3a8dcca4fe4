//! The wire protocol between replicas: its name and how messages meet frames.

use vstd::prelude::*;
use crate::codec::{decode_frame, enc_message, encode_peer_frame, frame_of, is_peer_variant, CodecError};
use crate::message::{Message, MessageView};

verus! {

/// The name replicas negotiate substreams under.
#[derive(Clone, Copy, PartialEq, Eq, Structural, Debug)]
pub struct Name;

impl Name {
    pub fn protocol_name(&self) -> (r: &'static str)
        ensures
            r@ == "/ackintosh/pbft/1.0.0"@,
    {
        "/ackintosh/pbft/1.0.0"
    }
}

/// How a negotiated substream turns messages into frames and back.
#[derive(Clone, Copy, PartialEq, Eq, Structural, Debug)]
pub struct PbftProtocolConfig;

impl PbftProtocolConfig {
    pub fn protocol_info(&self) -> (r: Name)
        ensures
            r == Name,
    {
        Name
    }

    /// The frame that carries an outgoing request; a client request has no
    /// place on this wire and is refused with `UnexpectedVariant`.
    pub fn message_to_frame(&self, message: &Message) -> (r: Result<Vec<u8>, CodecError>)
        ensures
            is_peer_variant(message.model()) ==> (r matches Ok(f) && f@ == frame_of(enc_message(message.model()))),
            !is_peer_variant(message.model()) ==> r == Err::<Vec<u8>, CodecError>(CodecError::UnexpectedVariant),
    {
        match message {
            Message::ClientRequest(_) => Err(CodecError::UnexpectedVariant),
            _ => Ok(encode_peer_frame(message)),
        }
    }

    /// The request read from an incoming frame, as `decode_frame` gives it.
    pub fn frame_to_message(&self, frame: &[u8]) -> (r: Result<Message, CodecError>)
        ensures
            r matches Ok(m) ==> frame@ == frame_of(enc_message(m.model())) && is_peer_variant(m.model()),
            (forall|p: Seq<u8>| #[trigger] frame_of(p) != frame@) ==> r == Err::<Message, CodecError>(
                CodecError::MalformedFrame,
            ),
            forall|v: MessageView| #[trigger] frame_of(enc_message(v)) == frame@ ==> if is_peer_variant(v) {
                r matches Ok(m) && m.model() == v
            } else {
                r == Err::<Message, CodecError>(CodecError::UnexpectedVariant)
            },
    {
        decode_frame(frame)
    }
}

} // verus!
