use pbft::message::{
    digest, to_hex, ClientReply, ClientRequest, Commit, PrePrepare, PrePrepareSequence, Prepare, Rejection,
};

fn request(op: &str, timestamp: u64) -> ClientRequest {
    ClientRequest::new(op.to_string(), timestamp, None)
}

#[test]
fn digest_is_blake2b_512_in_lower_hex() {
    assert_eq!(
        digest(b"abc"),
        "ba80a53f981c4d0d6a2797b69f12f6e94c212f14685ac4b74b12bb6fdbffa2d1\
         7d87c5392aab792dc252d5de4533cc9518d38aa8dbf1925ab92386edd4009923"
    );
    assert_eq!(digest(b"").len(), 128);
    assert_eq!(digest(&[7u8; 1000]).len(), 128);
}

#[test]
fn digest_is_deterministic_and_separates_inputs() {
    assert_eq!(digest(b"x"), digest(b"x"));
    assert_ne!(digest(b"x"), digest(b"y"));
}

#[test]
fn to_hex_gives_two_lower_case_digits_per_byte() {
    assert_eq!(to_hex(&[0x00, 0xab, 0x0f, 0xff]), "00ab0fff");
    assert_eq!(to_hex(&[]), "");
}

#[test]
fn pre_prepare_from_carries_operation_digest() {
    let pp = PrePrepare::from(0, 7, request("x", 42));
    assert_eq!(pp.view(), 0);
    assert_eq!(pp.sequence_number(), 7);
    assert_eq!(pp.digest(), &digest(b"x"));
    assert_eq!(pp.client_reqeust().operation(), "x");
    assert_eq!(pp.client_reqeust().timestamp(), 42);
    assert_eq!(pp.validate_digest(), Ok(()));
}

#[test]
fn validate_digest_refuses_tampered_operation() {
    let mut pp = PrePrepare::from(0, 1, request("x", 42));
    pp.message.operation = "z".to_string();
    assert_eq!(pp.validate_digest(), Err(Rejection::BadDigest));
}

#[test]
fn prepare_and_commit_copy_the_slot_and_digest() {
    let pp = PrePrepare::from(3, 9, request("op", 1));
    let p = Prepare::from(&pp);
    assert_eq!((p.view(), p.sequence_number()), (3, 9));
    assert_eq!(p.digest(), pp.digest());
    let c = Commit::from(&p);
    assert_eq!((c.view(), c.sequence_number()), (3, 9));
    assert_eq!(c.digest(), pp.digest());
}

#[test]
fn sequence_counter_starts_at_zero_and_increments() {
    let mut s = PrePrepareSequence::new();
    assert_eq!(s.value(), 0);
    s.increment();
    s.increment();
    assert_eq!(s.value(), 2);
}

#[test]
fn client_reply_takes_view_and_timestamp() {
    let pp = PrePrepare::from(0, 1, request("x", 42));
    let c = Commit::from(&Prepare::from(&pp));
    let reply = ClientReply::new(2, &pp, &c, "done".to_string());
    assert_eq!(reply.view, 0);
    assert_eq!(reply.timestamp, 42);
    assert_eq!(reply.peer_id, 2);
    assert_eq!(reply.result, "done");
}
