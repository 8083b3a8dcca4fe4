//! The wire codec: messages as byte payloads, payloads as length-delimited
//! frames. Integers are unsigned varints; a string is its UTF-8 byte length
//! followed by its bytes.

use vstd::prelude::*;
use crate::message::{
    ClientReply, ClientReplyView, ClientRequest, ClientRequestView, Commit, Message, MessageView, PrePrepare, PrePrepareView,
    Prepare, VoteView,
};
use vstd::slice::{slice_subrange, slice_to_vec};
use vstd::utf8::{decode_utf8, decode_utf8_encode_utf8, encode_utf8, encode_utf8_decode_utf8, encode_utf8_valid_utf8, valid_utf8};

verus! {

/// The minimal unsigned varint of `n`: seven bits per byte, least
/// significant group first, the high bit set on every byte but the last.
pub open spec fn varint_bytes(n: u64) -> Seq<u8>
    decreases n,
{
    if n < 128 {
        seq![n as u8]
    } else {
        seq![((n % 128) + 128) as u8] + varint_bytes(n / 128)
    }
}

/// `rest` is what remains of `b` once at least one byte is taken from its front.
pub open spec fn is_proper_suffix(rest: Seq<u8>, b: Seq<u8>) -> bool {
    rest.len() < b.len() && rest == b.subrange(b.len() - rest.len(), b.len() as int)
}

/// The value of a read: the number and the bytes after it.
pub open spec fn read_view(r: Option<(u64, &[u8])>) -> Option<(u64, Seq<u8>)> {
    match r {
        Some((n, rest)) => Some((n, rest@)),
        None => None,
    }
}

/// Where `b` is a minimal varint followed by more bytes, `r` holds the
/// value and those bytes.
pub open spec fn reads_minimal_varint(b: Seq<u8>, r: Option<(u64, Seq<u8>)>) -> bool {
    forall|n: u64, rest: Seq<u8>| #[trigger] (varint_bytes(n) + rest) == b ==> r == Some((n, rest))
}

/// Relies on unsigned_varint's `encode::u64`: it writes the minimal varint of `n`.
#[verifier::external_body]
fn encode_varint(n: u64) -> (r: Vec<u8>)
    ensures
        r@ == varint_bytes(n),
{
    let mut buf = unsigned_varint::encode::u64_buffer();
    unsigned_varint::encode::u64(n, &mut buf).to_vec()
}

/// Relies on unsigned_varint's `decode::u64`: on a minimal varint followed by
/// more bytes it returns the value and those bytes; whatever it returns
/// after success is a strictly shorter suffix of its input.
#[verifier::external_body]
fn decode_varint(b: &[u8]) -> (r: Option<(u64, &[u8])>)
    ensures
        r matches Some((n, rest)) ==> is_proper_suffix(rest@, b@),
        reads_minimal_varint(b@, read_view(r)),
{
    unsigned_varint::decode::u64(b).ok()
}

/// Relies on `String::from_utf8`: it succeeds exactly on valid UTF-8, with
/// the characters those bytes encode.
#[verifier::external_body]
fn utf8_string(bytes: Vec<u8>) -> (r: Option<String>)
    ensures
        r is Some <==> valid_utf8(bytes@),
        r matches Some(s) ==> s@ == decode_utf8(bytes@),
{
    String::from_utf8(bytes).ok()
}

/// Whether `b` starts with `prefix`.
fn starts_with(b: &[u8], prefix: &Vec<u8>) -> (r: bool)
    ensures
        r == (prefix@.len() <= b@.len() && b@.subrange(0, prefix@.len() as int) == prefix@),
{
    if prefix.len() > b.len() {
        return false;
    }
    let mut i: usize = 0;
    while i < prefix.len()
        invariant
            prefix@.len() <= b@.len(),
            0 <= i <= prefix@.len(),
            forall|j: int| 0 <= j < i ==> b@[j] == prefix@[j],
        decreases prefix@.len() - i,
    {
        if b[i] != prefix[i] {
            assert(b@.subrange(0, prefix@.len() as int)[i as int] != prefix@[i as int]);
            return false;
        }
        i = i + 1;
    }
    assert(b@.subrange(0, prefix@.len() as int) =~= prefix@);
    true
}

/// Reads a minimal varint from the front of `b`.
fn read_u64(b: &[u8]) -> (r: Option<(u64, &[u8])>)
    ensures
        r matches Some((n, rest)) ==> b@ == varint_bytes(n) + rest@,
        reads_minimal_varint(b@, read_view(r)),
{
    match decode_varint(b) {
        None => None,
        Some((n, rest)) => {
            let enc = encode_varint(n);
            let ok = enc.len() <= b.len() && rest.len() == b.len() - enc.len() && starts_with(b, &enc);
            assert forall|m: u64, t: Seq<u8>| #[trigger] (varint_bytes(m) + t) == b@ implies ok by {
                assert(read_view(Some((n, rest))) == Some((m, t)));
                assert(b@.subrange(0, enc@.len() as int) =~= enc@);
            }
            if ok {
                assert(b@ =~= enc@ + rest@);
                Some((n, rest))
            } else {
                None
            }
        },
    }
}

/// Appends the varint of `n` to `out`.
fn write_u64(out: &mut Vec<u8>, n: u64)
    ensures
        final(out)@ == old(out)@ + varint_bytes(n),
{
    let mut enc = encode_varint(n);
    out.append(&mut enc);
}

/// A string: the length of its UTF-8 bytes, then those bytes.
pub open spec fn enc_str(s: Seq<char>) -> Seq<u8> {
    varint_bytes(encode_utf8(s).len() as u64) + encode_utf8(s)
}

/// An optional string: a 0 byte, or a 1 byte and the string.
pub open spec fn enc_opt_str(o: Option<Seq<char>>) -> Seq<u8> {
    match o {
        None => seq![0u8],
        Some(s) => seq![1u8] + enc_str(s),
    }
}

/// A client request: operation, timestamp, reply address.
pub open spec fn enc_request(r: ClientRequestView) -> Seq<u8> {
    enc_str(r.operation) + varint_bytes(r.timestamp) + enc_opt_str(r.client)
}

pub open spec fn str_read_view(r: Option<(String, &[u8])>) -> Option<(Seq<char>, Seq<u8>)> {
    match r {
        Some((s, rest)) => Some((s@, rest@)),
        None => None,
    }
}

pub open spec fn opt_str_read_view(r: Option<(Option<String>, &[u8])>) -> Option<(Option<Seq<char>>, Seq<u8>)> {
    match r {
        Some((Some(s), rest)) => Some((Some(s@), rest@)),
        Some((None, rest)) => Some((None, rest@)),
        None => None,
    }
}

pub open spec fn request_read_view(r: Option<(ClientRequest, &[u8])>) -> Option<(ClientRequestView, Seq<u8>)> {
    match r {
        Some((x, rest)) => Some((x.model(), rest@)),
        None => None,
    }
}

/// Where `b` is an encoded string followed by more bytes, `r` holds both.
pub open spec fn reads_str(b: Seq<u8>, r: Option<(Seq<char>, Seq<u8>)>) -> bool {
    forall|s: Seq<char>, rest: Seq<u8>| #[trigger] (enc_str(s) + rest) == b ==> r == Some((s, rest))
}

pub open spec fn reads_opt_str(b: Seq<u8>, r: Option<(Option<Seq<char>>, Seq<u8>)>) -> bool {
    forall|o: Option<Seq<char>>, rest: Seq<u8>| #[trigger] (enc_opt_str(o) + rest) == b ==> r == Some((o, rest))
}

pub open spec fn reads_request(b: Seq<u8>, r: Option<(ClientRequestView, Seq<u8>)>) -> bool {
    forall|v: ClientRequestView, rest: Seq<u8>| #[trigger] (enc_request(v) + rest) == b ==> r == Some((v, rest))
}

/// Appends the encoding of `s` to `out`.
fn write_str(out: &mut Vec<u8>, s: &String)
    ensures
        final(out)@ == old(out)@ + enc_str(s@),
{
    let bytes = s.as_str().as_bytes();
    let n = bytes.len();
    write_u64(out, n as u64);
    let mut v = slice_to_vec(bytes);
    out.append(&mut v);
    assert(final(out)@ =~= old(out)@ + enc_str(s@));
}

/// Reads an encoded string from the front of `b`.
fn read_str(b: &[u8]) -> (r: Option<(String, &[u8])>)
    ensures
        r matches Some((s, rest)) ==> b@ == enc_str(s@) + rest@,
        reads_str(b@, str_read_view(r)),
{
    let blen = b.len();
    assert(b@.len() <= usize::MAX);
    match read_u64(b) {
        None => {
            assert forall|sv: Seq<char>, t: Seq<u8>| #[trigger] (enc_str(sv) + t) == b@ implies false by {
                assert(enc_str(sv) + t == varint_bytes(encode_utf8(sv).len() as u64) + (encode_utf8(sv) + t));
                assert(encode_utf8(sv).len() <= b@.len());
            }
            None
        },
        Some((n, rest)) => {
            if n > rest.len() as u64 {
                assert forall|sv: Seq<char>, t: Seq<u8>| #[trigger] (enc_str(sv) + t) == b@ implies false by {
                    assert(enc_str(sv) + t == varint_bytes(encode_utf8(sv).len() as u64) + (encode_utf8(sv) + t));
                    assert(encode_utf8(sv).len() <= b@.len());
                }
                return None;
            }
            let bytes = slice_subrange(rest, 0, n as usize);
            let tail = slice_subrange(rest, n as usize, rest.len());
            assert(rest@ =~= bytes@ + tail@);
            match utf8_string(slice_to_vec(bytes)) {
                None => {
                    assert forall|sv: Seq<char>, t: Seq<u8>| #[trigger] (enc_str(sv) + t) == b@ implies false by {
                        assert(enc_str(sv) + t == varint_bytes(encode_utf8(sv).len() as u64) + (encode_utf8(sv) + t));
                        assert(encode_utf8(sv).len() <= b@.len());
                        assert(bytes@ =~= encode_utf8(sv));
                        encode_utf8_valid_utf8(sv);
                    }
                    None
                },
                Some(s) => {
                    proof {
                        decode_utf8_encode_utf8(bytes@);
                        assert(b@ =~= enc_str(s@) + tail@);
                        assert forall|sv: Seq<char>, t: Seq<u8>| #[trigger] (enc_str(sv) + t) == b@ implies str_read_view(
                            Some((s, tail)),
                        ) == Some((sv, t)) by {
                            assert(enc_str(sv) + t == varint_bytes(encode_utf8(sv).len() as u64) + (encode_utf8(sv) + t));
                            assert(encode_utf8(sv).len() <= b@.len());
                            assert(bytes@ =~= encode_utf8(sv));
                            encode_utf8_decode_utf8(sv);
                            assert(tail@ =~= t);
                        }
                    }
                    Some((s, tail))
                },
            }
        },
    }
}

fn write_opt_str(out: &mut Vec<u8>, o: &Option<String>)
    ensures
        final(out)@ == old(out)@ + enc_opt_str(
            match o {
                Some(s) => Some(s@),
                None => None,
            },
        ),
{
    match o {
        None => {
            out.push(0u8);
            assert(final(out)@ =~= old(out)@ + seq![0u8]);
        },
        Some(s) => {
            out.push(1u8);
            write_str(out, s);
            assert(final(out)@ =~= old(out)@ + (seq![1u8] + enc_str(s@)));
        },
    }
}

fn read_opt_str(b: &[u8]) -> (r: Option<(Option<String>, &[u8])>)
    ensures
        r matches Some((o, rest)) ==> b@ == enc_opt_str(
            match o {
                Some(s) => Some(s@),
                None => None,
            },
        ) + rest@,
        reads_opt_str(b@, opt_str_read_view(r)),
{
    if b.len() == 0 {
        assert forall|o: Option<Seq<char>>, t: Seq<u8>| #[trigger] (enc_opt_str(o) + t) == b@ implies false by {
            assert((enc_opt_str(o) + t).len() > 0);
        }
        return None;
    }
    let tag = b[0];
    let rest = slice_subrange(b, 1, b.len());
    assert(b@ =~= seq![tag] + rest@);
    if tag == 0 {
        assert forall|o: Option<Seq<char>>, t: Seq<u8>| #[trigger] (enc_opt_str(o) + t) == b@ implies opt_str_read_view(
            Some((None, rest)),
        ) == Some((o, t)) by {
            assert((enc_opt_str(o) + t)[0] == enc_opt_str(o)[0]);
            assert(rest@ =~= t);
        }
        Some((None, rest))
    } else if tag == 1 {
        match read_str(rest) {
            None => {
                assert forall|o: Option<Seq<char>>, t: Seq<u8>| #[trigger] (enc_opt_str(o) + t) == b@ implies false by {
                    assert((enc_opt_str(o) + t)[0] == enc_opt_str(o)[0]);
                    if let Some(sv) = o {
                        assert(rest@ =~= enc_str(sv) + t);
                    }
                }
                None
            },
            Some((s, t)) => {
                assert(b@ =~= (seq![1u8] + enc_str(s@)) + t@);
                assert forall|o: Option<Seq<char>>, t2: Seq<u8>| #[trigger] (enc_opt_str(o) + t2) == b@ implies opt_str_read_view(
                    Some((Some(s), t)),
                ) == Some((o, t2)) by {
                    assert((enc_opt_str(o) + t2)[0] == enc_opt_str(o)[0]);
                    if let Some(sv) = o {
                        assert(rest@ =~= enc_str(sv) + t2);
                    }
                }
                Some((Some(s), t))
            },
        }
    } else {
        assert forall|o: Option<Seq<char>>, t: Seq<u8>| #[trigger] (enc_opt_str(o) + t) == b@ implies false by {
            assert((enc_opt_str(o) + t)[0] == enc_opt_str(o)[0]);
        }
        None
    }
}

fn write_request(out: &mut Vec<u8>, r: &ClientRequest)
    ensures
        final(out)@ == old(out)@ + enc_request(r.model()),
{
    write_str(out, &r.operation);
    write_u64(out, r.timestamp);
    write_opt_str(out, &r.client);
    assert(final(out)@ =~= old(out)@ + enc_request(r.model()));
}

proof fn lemma_regroup_request(v: ClientRequestView, rest: Seq<u8>)
    ensures
        enc_request(v) + rest == enc_str(v.operation) + (varint_bytes(v.timestamp) + (enc_opt_str(v.client) + rest)),
{
    assert(enc_request(v) + rest =~= enc_str(v.operation) + (varint_bytes(v.timestamp) + (enc_opt_str(v.client)
        + rest)));
}

fn read_request(b: &[u8]) -> (r: Option<(ClientRequest, &[u8])>)
    ensures
        r matches Some((x, rest)) ==> b@ == enc_request(x.model()) + rest@,
        reads_request(b@, request_read_view(r)),
{
    match read_str(b) {
        None => {
            assert forall|v: ClientRequestView, t: Seq<u8>| #[trigger] (enc_request(v) + t) == b@ implies false by {
                lemma_regroup_request(v, t);
            }
            None
        },
        Some((operation, r1)) => match read_u64(r1) {
            None => {
                assert forall|v: ClientRequestView, t: Seq<u8>| #[trigger] (enc_request(v) + t) == b@ implies false by {
                    lemma_regroup_request(v, t);
                }
                None
            },
            Some((timestamp, r2)) => match read_opt_str(r2) {
                None => {
                    assert forall|v: ClientRequestView, t: Seq<u8>| #[trigger] (enc_request(v) + t) == b@ implies false by {
                        lemma_regroup_request(v, t);
                    }
                    None
                },
                Some((client, r3)) => {
                    let x = ClientRequest { operation, timestamp, client };
                    proof {
                        lemma_regroup_request(x.model(), r3@);
                        assert forall|v: ClientRequestView, t: Seq<u8>| #[trigger] (enc_request(v) + t) == b@ implies request_read_view(
                            Some((x, r3)),
                        ) == Some((v, t)) by {
                            lemma_regroup_request(v, t);
                        }
                    }
                    Some((x, r3))
                },
            },
        },
    }
}

/// A prepare or commit: view, sequence, digest.
pub open spec fn enc_vote(v: VoteView) -> Seq<u8> {
    varint_bytes(v.view) + varint_bytes(v.sequence_number) + enc_str(v.digest)
}

/// A pre-prepare: view, sequence, digest, then the client request.
pub open spec fn enc_pre_prepare(p: PrePrepareView) -> Seq<u8> {
    varint_bytes(p.view) + varint_bytes(p.sequence_number) + enc_str(p.digest) + enc_request(p.request)
}

/// A reply to a client: view, timestamp, replica, result.
pub open spec fn enc_reply(r: ClientReplyView) -> Seq<u8> {
    varint_bytes(r.view) + varint_bytes(r.timestamp) + varint_bytes(r.peer_id) + enc_str(r.result)
}

pub open spec fn vote_read_view(r: Option<(Prepare, &[u8])>) -> Option<(VoteView, Seq<u8>)> {
    match r {
        Some((x, rest)) => Some((x.model(), rest@)),
        None => None,
    }
}

pub open spec fn pre_prepare_read_view(r: Option<(PrePrepare, &[u8])>) -> Option<(PrePrepareView, Seq<u8>)> {
    match r {
        Some((x, rest)) => Some((x.model(), rest@)),
        None => None,
    }
}

pub open spec fn reads_vote(b: Seq<u8>, r: Option<(VoteView, Seq<u8>)>) -> bool {
    forall|v: VoteView, rest: Seq<u8>| #[trigger] (enc_vote(v) + rest) == b ==> r == Some((v, rest))
}

pub open spec fn reads_pre_prepare(b: Seq<u8>, r: Option<(PrePrepareView, Seq<u8>)>) -> bool {
    forall|v: PrePrepareView, rest: Seq<u8>| #[trigger] (enc_pre_prepare(v) + rest) == b ==> r == Some((v, rest))
}

fn write_vote(out: &mut Vec<u8>, view: u64, seq: u64, digest: &String)
    ensures
        final(out)@ == old(out)@ + enc_vote(VoteView { view, sequence_number: seq, digest: digest@ }),
{
    write_u64(out, view);
    write_u64(out, seq);
    write_str(out, digest);
    assert(final(out)@ =~= old(out)@ + enc_vote(VoteView { view, sequence_number: seq, digest: digest@ }));
}

proof fn lemma_regroup_vote(v: VoteView, rest: Seq<u8>)
    ensures
        enc_vote(v) + rest == varint_bytes(v.view) + (varint_bytes(v.sequence_number) + (enc_str(v.digest) + rest)),
{
    assert(enc_vote(v) + rest =~= varint_bytes(v.view) + (varint_bytes(v.sequence_number) + (enc_str(v.digest)
        + rest)));
}

/// Reads a prepare or commit, as the prepare with the same fields.
fn read_vote(b: &[u8]) -> (r: Option<(Prepare, &[u8])>)
    ensures
        r matches Some((x, rest)) ==> b@ == enc_vote(x.model()) + rest@,
        reads_vote(b@, vote_read_view(r)),
{
    match read_u64(b) {
        None => {
            assert forall|v: VoteView, t: Seq<u8>| #[trigger] (enc_vote(v) + t) == b@ implies false by {
                lemma_regroup_vote(v, t);
            }
            None
        },
        Some((view, r1)) => match read_u64(r1) {
            None => {
                assert forall|v: VoteView, t: Seq<u8>| #[trigger] (enc_vote(v) + t) == b@ implies false by {
                    lemma_regroup_vote(v, t);
                }
                None
            },
            Some((sequence_number, r2)) => match read_str(r2) {
                None => {
                    assert forall|v: VoteView, t: Seq<u8>| #[trigger] (enc_vote(v) + t) == b@ implies false by {
                        lemma_regroup_vote(v, t);
                    }
                    None
                },
                Some((digest, r3)) => {
                    let x = Prepare { view, sequence_number, digest };
                    proof {
                        lemma_regroup_vote(x.model(), r3@);
                        assert forall|v: VoteView, t: Seq<u8>| #[trigger] (enc_vote(v) + t) == b@ implies vote_read_view(
                            Some((x, r3)),
                        ) == Some((v, t)) by {
                            lemma_regroup_vote(v, t);
                        }
                    }
                    Some((x, r3))
                },
            },
        },
    }
}

fn write_pre_prepare(out: &mut Vec<u8>, p: &PrePrepare)
    ensures
        final(out)@ == old(out)@ + enc_pre_prepare(p.model()),
{
    write_u64(out, p.view);
    write_u64(out, p.sequence_number);
    write_str(out, &p.digest);
    write_request(out, &p.message);
    assert(final(out)@ =~= old(out)@ + enc_pre_prepare(p.model()));
}

proof fn lemma_regroup_pre_prepare(v: PrePrepareView, rest: Seq<u8>)
    ensures
        enc_pre_prepare(v) + rest == varint_bytes(v.view) + (varint_bytes(v.sequence_number) + (enc_str(v.digest) + (
        enc_request(v.request) + rest))),
{
    assert(enc_pre_prepare(v) + rest =~= varint_bytes(v.view) + (varint_bytes(v.sequence_number) + (enc_str(
        v.digest,
    ) + (enc_request(v.request) + rest))));
}

fn read_pre_prepare(b: &[u8]) -> (r: Option<(PrePrepare, &[u8])>)
    ensures
        r matches Some((x, rest)) ==> b@ == enc_pre_prepare(x.model()) + rest@,
        reads_pre_prepare(b@, pre_prepare_read_view(r)),
{
    match read_u64(b) {
        None => {
            assert forall|v: PrePrepareView, t: Seq<u8>| #[trigger] (enc_pre_prepare(v) + t) == b@ implies false by {
                lemma_regroup_pre_prepare(v, t);
            }
            None
        },
        Some((view, r1)) => match read_u64(r1) {
            None => {
                assert forall|v: PrePrepareView, t: Seq<u8>| #[trigger] (enc_pre_prepare(v) + t) == b@ implies false by {
                    lemma_regroup_pre_prepare(v, t);
                }
                None
            },
            Some((sequence_number, r2)) => match read_str(r2) {
                None => {
                    assert forall|v: PrePrepareView, t: Seq<u8>| #[trigger] (enc_pre_prepare(v) + t) == b@ implies false by {
                        lemma_regroup_pre_prepare(v, t);
                    }
                    None
                },
                Some((digest, r3)) => match read_request(r3) {
                    None => {
                        assert forall|v: PrePrepareView, t: Seq<u8>| #[trigger] (enc_pre_prepare(v) + t) == b@ implies false by {
                            lemma_regroup_pre_prepare(v, t);
                        }
                        None
                    },
                    Some((message, r4)) => {
                        let x = PrePrepare { view, sequence_number, digest, message };
                        proof {
                            lemma_regroup_pre_prepare(x.model(), r4@);
                            assert forall|v: PrePrepareView, t: Seq<u8>| #[trigger] (enc_pre_prepare(v) + t) == b@ implies pre_prepare_read_view(
                                Some((x, r4)),
                            ) == Some((v, t)) by {
                                lemma_regroup_pre_prepare(v, t);
                            }
                        }
                        Some((x, r4))
                    },
                },
            },
        },
    }
}

/// A message: a tag byte for its variant, then its fields.
pub open spec fn enc_message(m: MessageView) -> Seq<u8> {
    match m {
        MessageView::ClientRequest(r) => seq![0u8] + enc_request(r),
        MessageView::PrePrepare(p) => seq![1u8] + enc_pre_prepare(p),
        MessageView::Prepare(v) => seq![2u8] + enc_vote(v),
        MessageView::Commit(v) => seq![3u8] + enc_vote(v),
    }
}

/// A frame: the payload's length as a varint, then the payload.
pub open spec fn frame_of(payload: Seq<u8>) -> Seq<u8> {
    varint_bytes(payload.len() as u64) + payload
}

/// Why bytes could not be decoded.
#[derive(PartialEq, Eq, Structural, Clone, Copy, Debug)]
pub enum CodecError {
    /// The length prefix does not match the bytes that follow it.
    MalformedFrame,
    /// The payload is not the encoding of a message.
    MalformedPayload,
    /// The message is of a variant this channel does not carry.
    UnexpectedVariant,
}

pub open spec fn message_read_view(r: Option<(Message, &[u8])>) -> Option<(MessageView, Seq<u8>)> {
    match r {
        Some((x, rest)) => Some((x.model(), rest@)),
        None => None,
    }
}

pub open spec fn reads_message(b: Seq<u8>, r: Option<(MessageView, Seq<u8>)>) -> bool {
    forall|v: MessageView, rest: Seq<u8>| #[trigger] (enc_message(v) + rest) == b ==> r == Some((v, rest))
}

/// The decoded message, where decoding succeeded.
pub open spec fn decoded_view(r: Result<Message, CodecError>) -> Option<MessageView> {
    match r {
        Ok(m) => Some(m.model()),
        Err(_) => None,
    }
}

/// Where `b` is the encoding of a message, `r` holds that message.
pub open spec fn decodes_every_message(b: Seq<u8>, r: Option<MessageView>) -> bool {
    forall|v: MessageView| #[trigger] enc_message(v) == b ==> r == Some(v)
}

/// Whether `b` is the encoding of some message.
pub open spec fn is_message_encoding(b: Seq<u8>) -> bool {
    exists|v: MessageView| #[trigger] enc_message(v) == b
}

/// The payload that carries `m`.
pub fn encode_message(m: &Message) -> (r: Vec<u8>)
    ensures
        r@ == enc_message(m.model()),
{
    let mut out: Vec<u8> = Vec::new();
    match m {
        Message::ClientRequest(x) => {
            out.push(0u8);
            write_request(&mut out, x);
        },
        Message::PrePrepare(x) => {
            out.push(1u8);
            write_pre_prepare(&mut out, x);
        },
        Message::Prepare(x) => {
            out.push(2u8);
            write_vote(&mut out, x.view, x.sequence_number, &x.digest);
        },
        Message::Commit(x) => {
            out.push(3u8);
            write_vote(&mut out, x.view, x.sequence_number, &x.digest);
        },
    }
    assert(out@ =~= enc_message(m.model()));
    out
}

fn read_message(b: &[u8]) -> (r: Option<(Message, &[u8])>)
    ensures
        r matches Some((x, rest)) ==> b@ == enc_message(x.model()) + rest@,
        reads_message(b@, message_read_view(r)),
{
    if b.len() == 0 {
        assert forall|v: MessageView, t: Seq<u8>| #[trigger] (enc_message(v) + t) == b@ implies false by {
            assert((enc_message(v) + t).len() > 0);
        }
        return None;
    }
    let tag = b[0];
    let body = slice_subrange(b, 1, b.len());
    assert(b@ =~= seq![tag] + body@);
    assert forall|v: MessageView, t: Seq<u8>| #[trigger] (enc_message(v) + t) == b@ implies body@ == (match v {
        MessageView::ClientRequest(x) => enc_request(x),
        MessageView::PrePrepare(x) => enc_pre_prepare(x),
        MessageView::Prepare(x) => enc_vote(x),
        MessageView::Commit(x) => enc_vote(x),
    }) + t && tag == (match v {
        MessageView::ClientRequest(_) => 0u8,
        MessageView::PrePrepare(_) => 1u8,
        MessageView::Prepare(_) => 2u8,
        MessageView::Commit(_) => 3u8,
    }) by {
        assert((enc_message(v) + t)[0] == enc_message(v)[0]);
        assert(body@ =~= (enc_message(v) + t).subrange(1, (enc_message(v) + t).len() as int));
        match v {
            MessageView::ClientRequest(x) => {
                assert((enc_message(v) + t).subrange(1, (enc_message(v) + t).len() as int) =~= enc_request(x) + t);
            },
            MessageView::PrePrepare(x) => {
                assert((enc_message(v) + t).subrange(1, (enc_message(v) + t).len() as int) =~= enc_pre_prepare(x)
                    + t);
            },
            MessageView::Prepare(x) => {
                assert((enc_message(v) + t).subrange(1, (enc_message(v) + t).len() as int) =~= enc_vote(x) + t);
            },
            MessageView::Commit(x) => {
                assert((enc_message(v) + t).subrange(1, (enc_message(v) + t).len() as int) =~= enc_vote(x) + t);
            },
        }
    }
    if tag == 0 {
        match read_request(body) {
            Some((x, rest)) => {
                assert(b@ =~= enc_message(Message::ClientRequest(x).model()) + rest@);
                Some((Message::ClientRequest(x), rest))
            },
            None => None,
        }
    } else if tag == 1 {
        match read_pre_prepare(body) {
            Some((x, rest)) => {
                assert(b@ =~= enc_message(Message::PrePrepare(x).model()) + rest@);
                Some((Message::PrePrepare(x), rest))
            },
            None => None,
        }
    } else if tag == 2 {
        match read_vote(body) {
            Some((x, rest)) => {
                assert(b@ =~= enc_message(Message::Prepare(x).model()) + rest@);
                Some((Message::Prepare(x), rest))
            },
            None => None,
        }
    } else if tag == 3 {
        match read_vote(body) {
            Some((x, rest)) => {
                let c = Commit { view: x.view, sequence_number: x.sequence_number, digest: x.digest };
                assert(b@ =~= enc_message(Message::Commit(c).model()) + rest@);
                Some((Message::Commit(c), rest))
            },
            None => None,
        }
    } else {
        None
    }
}

/// Decodes a payload into a message of any variant.
pub fn decode_message(b: &[u8]) -> (r: Result<Message, CodecError>)
    ensures
        r matches Ok(m) ==> b@ == enc_message(m.model()),
        r is Err ==> r == Err::<Message, CodecError>(CodecError::MalformedPayload) && !is_message_encoding(b@),
        decodes_every_message(b@, decoded_view(r)),
{
    match read_message(b) {
        Some((m, rest)) => {
            if rest.len() == 0 {
                assert(b@ =~= enc_message(m.model()));
                assert forall|v: MessageView| #[trigger] enc_message(v) == b@ implies decoded_view(
                    Ok::<Message, CodecError>(m),
                ) == Some(v) by {
                    assert(enc_message(v) + Seq::<u8>::empty() =~= b@);
                }
                Ok(m)
            } else {
                assert forall|v: MessageView| #[trigger] enc_message(v) == b@ implies false by {
                    assert(enc_message(v) + Seq::<u8>::empty() =~= b@);
                }
                Err(CodecError::MalformedPayload)
            }
        },
        None => {
            assert forall|v: MessageView| #[trigger] enc_message(v) == b@ implies false by {
                assert(enc_message(v) + Seq::<u8>::empty() =~= b@);
            }
            Err(CodecError::MalformedPayload)
        },
    }
}

/// Whether `v` travels between replicas: client requests do not.
pub open spec fn is_peer_variant(v: MessageView) -> bool {
    !(v is ClientRequest)
}

/// Decodes a payload read from another replica: the agreement messages
/// pass, a client request is refused with `UnexpectedVariant`, anything
/// else with `MalformedPayload`.
pub fn decode_peer_message(b: &[u8]) -> (r: Result<Message, CodecError>)
    ensures
        r matches Ok(m) ==> b@ == enc_message(m.model()) && is_peer_variant(m.model()),
        forall|v: MessageView| #[trigger] enc_message(v) == b@ ==> if is_peer_variant(v) {
            decoded_view(r) == Some(v)
        } else {
            r == Err::<Message, CodecError>(CodecError::UnexpectedVariant)
        },
        !is_message_encoding(b@) ==> r == Err::<Message, CodecError>(CodecError::MalformedPayload),
{
    match decode_message(b) {
        Ok(Message::ClientRequest(_)) => Err(CodecError::UnexpectedVariant),
        Ok(m) => Ok(m),
        Err(e) => Err(e),
    }
}

/// Decodes a payload read from a client: only a client request passes.
pub fn decode_client_message(b: &[u8]) -> (r: Result<ClientRequest, CodecError>)
    ensures
        r matches Ok(x) ==> b@ == enc_message(MessageView::ClientRequest(x.model())),
        forall|v: MessageView| #[trigger] enc_message(v) == b@ ==> match v {
            MessageView::ClientRequest(x) => r matches Ok(y) && y.model() == x,
            _ => r == Err::<ClientRequest, CodecError>(CodecError::UnexpectedVariant),
        },
        !is_message_encoding(b@) ==> r == Err::<ClientRequest, CodecError>(CodecError::MalformedPayload),
{
    match decode_message(b) {
        Ok(Message::ClientRequest(x)) => Ok(x),
        Ok(_) => Err(CodecError::UnexpectedVariant),
        Err(e) => Err(e),
    }
}

/// Frames `payload` with its length.
pub fn encode_frame(payload: &[u8]) -> (r: Vec<u8>)
    ensures
        r@ == frame_of(payload@),
{
    let n = payload.len();
    let mut out: Vec<u8> = Vec::new();
    write_u64(&mut out, n as u64);
    let mut v = slice_to_vec(payload);
    out.append(&mut v);
    assert(out@ =~= frame_of(payload@));
    out
}

pub open spec fn frame_read_view(r: Option<(&[u8], &[u8])>) -> Option<(Seq<u8>, Seq<u8>)> {
    match r {
        Some((p, rest)) => Some((p@, rest@)),
        None => None,
    }
}

/// Where `b` is a frame followed by more bytes, `r` holds its payload and those bytes.
pub open spec fn reads_frame(b: Seq<u8>, r: Option<(Seq<u8>, Seq<u8>)>) -> bool {
    forall|p: Seq<u8>, rest: Seq<u8>| #[trigger] (frame_of(p) + rest) == b ==> r == Some((p, rest))
}

/// Takes one frame from the front of `b`: its payload and what follows.
/// `None` where `b` does not start with a whole frame.
pub fn split_frame(b: &[u8]) -> (r: Option<(&[u8], &[u8])>)
    ensures
        r matches Some((p, rest)) ==> b@ == frame_of(p@) + rest@,
        reads_frame(b@, frame_read_view(r)),
{
    let blen = b.len();
    match read_u64(b) {
        None => {
            assert forall|p: Seq<u8>, t: Seq<u8>| #[trigger] (frame_of(p) + t) == b@ implies false by {
                assert(frame_of(p) + t =~= varint_bytes(p.len() as u64) + (p + t));
            }
            None
        },
        Some((n, rest)) => {
            if n > rest.len() as u64 {
                assert forall|p: Seq<u8>, t: Seq<u8>| #[trigger] (frame_of(p) + t) == b@ implies false by {
                    assert(frame_of(p) + t =~= varint_bytes(p.len() as u64) + (p + t));
                    assert(p.len() <= b@.len());
                }
                return None;
            }
            let payload = slice_subrange(rest, 0, n as usize);
            let tail = slice_subrange(rest, n as usize, rest.len());
            assert(rest@ =~= payload@ + tail@);
            assert(b@ =~= frame_of(payload@) + tail@);
            assert forall|p: Seq<u8>, t: Seq<u8>| #[trigger] (frame_of(p) + t) == b@ implies frame_read_view(
                Some((payload, tail)),
            ) == Some((p, t)) by {
                assert(frame_of(p) + t =~= varint_bytes(p.len() as u64) + (p + t));
                assert(p.len() <= b@.len());
                assert(payload@ =~= p);
                assert(tail@ =~= t);
            }
            Some((payload, tail))
        },
    }
}

/// The frame that carries `m` to a peer.
pub fn encode_peer_frame(m: &Message) -> (r: Vec<u8>)
    ensures
        r@ == frame_of(enc_message(m.model())),
{
    let payload = encode_message(m);
    encode_frame(payload.as_slice())
}

/// Decodes one whole frame read from a peer: `MalformedFrame` where `b` is
/// not exactly one frame, else as `decode_peer_message` on its payload.
pub fn decode_frame(b: &[u8]) -> (r: Result<Message, CodecError>)
    ensures
        r matches Ok(m) ==> b@ == frame_of(enc_message(m.model())) && is_peer_variant(m.model()),
        (forall|p: Seq<u8>| #[trigger] frame_of(p) != b@) ==> r == Err::<Message, CodecError>(CodecError::MalformedFrame),
        forall|v: MessageView| #[trigger] frame_of(enc_message(v)) == b@ ==> if is_peer_variant(v) {
            decoded_view(r) == Some(v)
        } else {
            r == Err::<Message, CodecError>(CodecError::UnexpectedVariant)
        },
{
    match split_frame(b) {
        None => {
            assert forall|p: Seq<u8>| #[trigger] frame_of(p) != b@ by {
                if frame_of(p) == b@ {
                    assert(frame_of(p) + Seq::<u8>::empty() =~= b@);
                }
            }
            Err(CodecError::MalformedFrame)
        },
        Some((payload, rest)) => {
            if rest.len() != 0 {
                assert forall|p: Seq<u8>| #[trigger] frame_of(p) != b@ by {
                    if frame_of(p) == b@ {
                        assert(frame_of(p) + Seq::<u8>::empty() =~= b@);
                    }
                }
                return Err(CodecError::MalformedFrame);
            }
            assert(b@ =~= frame_of(payload@));
            assert forall|v: MessageView| #[trigger] frame_of(enc_message(v)) == b@ implies payload@ == enc_message(v) by {
                assert(frame_of(enc_message(v)) + Seq::<u8>::empty() =~= b@);
            }
            decode_peer_message(payload)
        },
    }
}

pub open spec fn reply_result_view(r: Result<ClientReply, CodecError>) -> Option<ClientReplyView> {
    match r {
        Ok(x) => Some(x.model()),
        Err(_) => None,
    }
}

/// The payload that carries `reply` to its client.
pub fn encode_reply(reply: &ClientReply) -> (r: Vec<u8>)
    ensures
        r@ == enc_reply(reply.model()),
{
    let mut out: Vec<u8> = Vec::new();
    write_u64(&mut out, reply.view);
    write_u64(&mut out, reply.timestamp);
    write_u64(&mut out, reply.peer_id);
    write_str(&mut out, &reply.result);
    assert(out@ =~= enc_reply(reply.model()));
    out
}

proof fn lemma_regroup_reply(v: ClientReplyView)
    ensures
        enc_reply(v) == varint_bytes(v.view) + (varint_bytes(v.timestamp) + (varint_bytes(v.peer_id) + (enc_str(v.result)
            + Seq::<u8>::empty()))),
{
    assert(enc_reply(v) =~= varint_bytes(v.view) + (varint_bytes(v.timestamp) + (varint_bytes(v.peer_id) + (enc_str(
        v.result,
    ) + Seq::<u8>::empty()))));
}

/// Decodes a reply payload; `MalformedPayload` where it is not the encoding of one.
pub fn decode_reply(b: &[u8]) -> (r: Result<ClientReply, CodecError>)
    ensures
        r matches Ok(x) ==> b@ == enc_reply(x.model()),
        r is Err ==> r == Err::<ClientReply, CodecError>(CodecError::MalformedPayload),
        forall|v: ClientReplyView| #[trigger] enc_reply(v) == b@ ==> reply_result_view(r) == Some(v),
{
    if let Some((view, r1)) = read_u64(b) {
        if let Some((timestamp, r2)) = read_u64(r1) {
            if let Some((peer_id, r3)) = read_u64(r2) {
                if let Some((result, r4)) = read_str(r3) {
                    if r4.len() == 0 {
                        let x = ClientReply { view, timestamp, peer_id, result };
                        proof {
                            lemma_regroup_reply(x.model());
                            assert(b@ =~= enc_reply(x.model()));
                            assert forall|v: ClientReplyView| #[trigger] enc_reply(v) == b@ implies reply_result_view(
                                Ok::<ClientReply, CodecError>(x),
                            ) == Some(v) by {
                                lemma_regroup_reply(v);
                            }
                        }
                        return Ok(x);
                    }
                }
            }
        }
    }
    assert forall|v: ClientReplyView| #[trigger] enc_reply(v) != b@ by {
        lemma_regroup_reply(v);
    }
    Err(CodecError::MalformedPayload)
}

/// Decoding inverts encoding: whatever a decoder that meets
/// `decodes_every_message` returns on the encoding of `v` is `v`, and so is
/// what a frame decoder returns on its frame.
pub proof fn lemma_message_round_trip(v: MessageView, decoded: Option<MessageView>, framed: Option<(Seq<u8>, Seq<u8>)>)
    ensures
        decodes_every_message(enc_message(v), decoded) ==> decoded == Some(v),
        reads_frame(frame_of(enc_message(v)), framed) ==> framed == Some((enc_message(v), Seq::<u8>::empty())),
{
    if reads_frame(frame_of(enc_message(v)), framed) {
        assert(frame_of(enc_message(v)) + Seq::<u8>::empty() =~= frame_of(enc_message(v)));
    }
}

} // verus!
