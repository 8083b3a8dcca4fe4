use pbft::codec::{
    decode_client_message, decode_frame, decode_message, decode_peer_message, decode_reply, encode_frame,
    encode_message, encode_peer_frame, encode_reply, split_frame, CodecError,
};
use pbft::message::{ClientReply, ClientRequest, Commit, Message, PrePrepare, Prepare};

fn request(op: &str, timestamp: u64, client: Option<&str>) -> ClientRequest {
    ClientRequest::new(op.to_string(), timestamp, client.map(|c| c.to_string()))
}

fn same_request(a: &ClientRequest, b: &ClientRequest) -> bool {
    a.operation == b.operation && a.timestamp == b.timestamp && a.client == b.client
}

#[test]
fn client_request_round_trips() {
    let r = request("héllo ✓", u64::MAX, Some("127.0.0.1:9000"));
    let bytes = encode_message(&Message::ClientRequest(r.clone()));
    match decode_message(&bytes) {
        Ok(Message::ClientRequest(back)) => assert!(same_request(&back, &r)),
        other => panic!("unexpected {:?}", other),
    }
    match decode_client_message(&bytes) {
        Ok(back) => assert!(same_request(&back, &r)),
        other => panic!("unexpected {:?}", other),
    }
}

#[test]
fn pre_prepare_round_trips_through_a_frame() {
    let pp = PrePrepare::from(5, 300, request("x", 42, None));
    let frame = encode_peer_frame(&Message::PrePrepare(pp.clone()));
    match decode_frame(&frame) {
        Ok(Message::PrePrepare(back)) => {
            assert_eq!((back.view, back.sequence_number), (5, 300));
            assert_eq!(back.digest, pp.digest);
            assert!(same_request(&back.message, &pp.message));
        }
        other => panic!("unexpected {:?}", other),
    }
}

#[test]
fn prepare_and_commit_round_trip() {
    let pp = PrePrepare::from(1, 2, request("y", 3, None));
    let p = Prepare::from(&pp);
    match decode_peer_message(&encode_message(&Message::Prepare(p.clone()))) {
        Ok(Message::Prepare(back)) => {
            assert_eq!((back.view, back.sequence_number, back.digest.clone()), (1, 2, p.digest.clone()))
        }
        other => panic!("unexpected {:?}", other),
    }
    let c = Commit::from(&p);
    match decode_peer_message(&encode_message(&Message::Commit(c.clone()))) {
        Ok(Message::Commit(back)) => assert_eq!((back.view, back.sequence_number, back.digest), (1, 2, c.digest)),
        other => panic!("unexpected {:?}", other),
    }
}

#[test]
fn client_reply_round_trips() {
    let reply = ClientReply { view: 0, timestamp: 42, peer_id: 3, result: "résultat".to_string() };
    let back = decode_reply(&encode_reply(&reply)).unwrap();
    assert_eq!((back.view, back.timestamp, back.peer_id, back.result), (0, 42, 3, reply.result));
}

#[test]
fn encoding_layout_is_tag_varints_and_strings() {
    let p = Prepare { view: 1, sequence_number: 200, digest: "ab".to_string() };
    assert_eq!(encode_message(&Message::Prepare(p)), vec![2, 1, 0xc8, 0x01, 2, b'a', b'b']);
}

#[test]
fn frame_length_is_a_varint() {
    let payload = vec![7u8; 300];
    let frame = encode_frame(&payload);
    assert_eq!(&frame[..2], &[0xac, 0x02]);
    assert_eq!(frame.len(), 302);
    let (p, rest) = split_frame(&frame).unwrap();
    assert_eq!(p, &payload[..]);
    assert!(rest.is_empty());
}

#[test]
fn split_frame_leaves_following_bytes() {
    let mut bytes = encode_frame(&[1, 2, 3]);
    bytes.extend_from_slice(&[9, 9]);
    let (p, rest) = split_frame(&bytes).unwrap();
    assert_eq!(p, &[1, 2, 3]);
    assert_eq!(rest, &[9, 9]);
    assert!(split_frame(&bytes[..3]).is_none());
    assert!(split_frame(&[]).is_none());
}

#[test]
fn truncated_frame_is_malformed_frame() {
    let frame = encode_peer_frame(&Message::Prepare(Prepare { view: 0, sequence_number: 1, digest: "d".into() }));
    assert_eq!(decode_frame(&frame[..frame.len() - 1]).unwrap_err(), CodecError::MalformedFrame);
    let mut longer = frame.clone();
    longer.push(0);
    assert_eq!(decode_frame(&longer).unwrap_err(), CodecError::MalformedFrame);
}

#[test]
fn unknown_tag_is_malformed_payload() {
    assert_eq!(decode_message(&[9, 0, 0]).unwrap_err(), CodecError::MalformedPayload);
    assert_eq!(decode_message(&[]).unwrap_err(), CodecError::MalformedPayload);
    assert_eq!(decode_reply(&[1]).unwrap_err(), CodecError::MalformedPayload);
}

#[test]
fn invalid_utf8_is_malformed_payload() {
    assert_eq!(decode_message(&[2, 0, 1, 2, 0xff, 0xfe]).unwrap_err(), CodecError::MalformedPayload);
}

#[test]
fn non_minimal_varint_is_malformed_payload() {
    assert_eq!(decode_message(&[2, 0x80, 0x00, 1, 0]).unwrap_err(), CodecError::MalformedPayload);
}

#[test]
fn trailing_bytes_are_malformed_payload() {
    let mut bytes = encode_message(&Message::Prepare(Prepare { view: 0, sequence_number: 1, digest: "d".into() }));
    bytes.push(0);
    assert_eq!(decode_message(&bytes).unwrap_err(), CodecError::MalformedPayload);
}

#[test]
fn client_request_on_peer_wire_is_unexpected_variant() {
    let bytes = encode_message(&Message::ClientRequest(request("x", 1, None)));
    assert_eq!(decode_peer_message(&bytes).unwrap_err(), CodecError::UnexpectedVariant);
    let frame = encode_frame(&bytes);
    assert_eq!(decode_frame(&frame).unwrap_err(), CodecError::UnexpectedVariant);
}

#[test]
fn agreement_message_on_client_wire_is_unexpected_variant() {
    let bytes = encode_message(&Message::Prepare(Prepare { view: 0, sequence_number: 1, digest: "d".into() }));
    assert_eq!(decode_client_message(&bytes).unwrap_err(), CodecError::UnexpectedVariant);
}
