//! The protocol's messages and the content digest of a client operation.

use vstd::prelude::*;
use vstd::utf8::encode_utf8;

verus! {

/// The BLAKE2b-512 hash of a byte sequence.
pub uninterp spec fn blake2b_512_of(data: Seq<u8>) -> Seq<u8>;

/// Relies on blake2's `Blake2b512::digest`: it returns the 64-byte hash of
/// its input, which depends on the input alone.
#[verifier::external_body]
fn blake2b_512(data: &[u8]) -> (r: Vec<u8>)
    ensures
        r@ == blake2b_512_of(data@),
        r@.len() == 64,
{
    <blake2::Blake2b512 as blake2::Digest>::digest(data).to_vec()
}

/// Relies on `String::push`: it appends one character.
#[verifier::external_body]
pub(crate) fn push_char(s: &mut String, c: char)
    ensures
        final(s)@ == old(s)@.push(c),
{
    s.push(c);
}

/// The lower-case hexadecimal digit of a value below 16.
pub open spec fn hex_digit(v: u8) -> char {
    if v < 10 {
        (48 + v) as u8 as char
    } else {
        (87 + v) as u8 as char
    }
}

/// Lower-case hexadecimal form of a byte sequence, two digits per byte.
pub open spec fn hex_of(data: Seq<u8>) -> Seq<char>
    decreases data.len(),
{
    if data.len() == 0 {
        Seq::empty()
    } else {
        seq![hex_digit(data[0] / 16), hex_digit(data[0] % 16)] + hex_of(data.drop_first())
    }
}

/// The digest of a byte sequence: its BLAKE2b-512 hash in lower-case hex.
pub open spec fn digest_of(data: Seq<u8>) -> Seq<char> {
    hex_of(blake2b_512_of(data))
}

/// The digest that identifies a client operation: that of its UTF-8 bytes.
pub open spec fn operation_digest(operation: Seq<char>) -> Seq<char> {
    digest_of(encode_utf8(operation))
}

/// The digest is a function of the bytes alone: equal inputs, equal digests.
pub proof fn lemma_digest_deterministic(a: Seq<u8>, b: Seq<u8>)
    requires
        a == b,
    ensures
        digest_of(a) == digest_of(b),
{
}

fn hex_char(v: u8) -> (c: char)
    requires
        v < 16,
    ensures
        c == hex_digit(v),
{
    if v < 10 {
        (48u8 + v) as char
    } else {
        (87u8 + v) as char
    }
}

/// Lower-case hexadecimal form of `data`.
pub fn to_hex(data: &[u8]) -> (r: String)
    ensures
        r@ == hex_of(data@),
{
    let mut r = String::new();
    let mut i: usize = 0;
    assert(data@.skip(0) =~= data@);
    assert(r@ + hex_of(data@) =~= hex_of(data@));
    while i < data.len()
        invariant
            0 <= i <= data@.len(),
            hex_of(data@) == r@ + hex_of(data@.skip(i as int)),
        decreases data@.len() - i,
    {
        let b = data[i];
        assert(data@.skip(i as int).drop_first() == data@.skip(i + 1));
        push_char(&mut r, hex_char(b / 16));
        push_char(&mut r, hex_char(b % 16));
        assert(r@ + hex_of(data@.skip(i + 1)) == hex_of(data@));
        i = i + 1;
    }
    assert(data@.skip(i as int) =~= Seq::<u8>::empty());
    r
}

/// Hex form doubles the length.
pub proof fn lemma_hex_len(data: Seq<u8>)
    ensures
        hex_of(data).len() == 2 * data.len(),
    decreases data.len(),
{
    if data.len() > 0 {
        lemma_hex_len(data.drop_first());
    }
}

/// The digest of `message`: its BLAKE2b-512 hash in lower-case hex, 128
/// characters long.
pub fn digest(message: &[u8]) -> (r: String)
    ensures
        r@ == digest_of(message@),
        r@.len() == 128,
{
    let hash = blake2b_512(message);
    proof {
        lemma_hex_len(hash@);
    }
    to_hex(hash.as_slice())
}

/// Why a replica refused a protocol message.
#[derive(PartialEq, Eq, Structural, Clone, Copy, Debug)]
pub enum Rejection {
    /// The digest is not that of the embedded operation.
    BadDigest,
    /// The message belongs to another view.
    WrongView,
    /// A pre-prepare with another digest is already logged at the same view and sequence.
    ConflictingPrePrepare,
    /// A sender voted for two digests at the same view and sequence.
    Equivocation,
    /// The sequence lies outside the accepted window.
    OutOfWatermark,
    /// Only the primary of the current view assigns sequence numbers.
    NotPrimary,
    /// A peer's vote claims to come from this replica.
    ImpersonatedSender,
}

/// The abstract value of a client request.
pub struct ClientRequestView {
    pub operation: Seq<char>,
    pub timestamp: u64,
    pub client: Option<Seq<char>>,
}

/// The abstract value of a pre-prepare.
pub struct PrePrepareView {
    pub view: u64,
    pub sequence_number: u64,
    pub digest: Seq<char>,
    pub request: ClientRequestView,
}

/// The abstract value of a prepare or a commit: a vote for a digest at a
/// view and sequence.
pub struct VoteView {
    pub view: u64,
    pub sequence_number: u64,
    pub digest: Seq<char>,
}

/// The abstract value of a reply to a client.
pub struct ClientReplyView {
    pub view: u64,
    pub timestamp: u64,
    pub peer_id: u64,
    pub result: Seq<char>,
}

/// An operation submitted by a client.
#[derive(Debug)]
pub struct ClientRequest {
    pub operation: String,
    pub timestamp: u64,
    /// The address the reply goes to, where the client gave one.
    pub client: Option<String>,
}

impl ClientRequest {
    /// The abstract value.
    pub open spec fn model(&self) -> ClientRequestView {
        ClientRequestView {
            operation: self.operation@,
            timestamp: self.timestamp,
            client: match self.client {
                Some(c) => Some(c@),
                None => None,
            },
        }
    }
}

pub fn clone_option_string(s: &Option<String>) -> (r: Option<String>)
    ensures
        r == *s,
{
    match s {
        Some(c) => Some(c.clone()),
        None => None,
    }
}

impl Clone for ClientRequest {
    fn clone(&self) -> (r: Self)
        ensures
            r == *self,
    {
        ClientRequest {
            operation: self.operation.clone(),
            timestamp: self.timestamp,
            client: clone_option_string(&self.client),
        }
    }
}

impl ClientRequest {
    pub fn new(operation: String, timestamp: u64, client: Option<String>) -> (r: Self)
        ensures
            r.operation == operation,
            r.timestamp == timestamp,
            r.client == client,
    {
        ClientRequest { operation, timestamp, client }
    }

    pub fn operation(&self) -> (r: String)
        ensures
            r == self.operation,
    {
        self.operation.clone()
    }

    pub fn timestamp(&self) -> (r: u64)
        ensures
            r == self.timestamp,
    {
        self.timestamp
    }
}

/// The primary's proposal of sequence `sequence_number` in view `view` for a
/// client request, identified by the digest of its operation.
#[derive(Debug)]
pub struct PrePrepare {
    pub view: u64,
    pub sequence_number: u64,
    pub digest: String,
    pub message: ClientRequest,
}

impl PrePrepare {
    /// The abstract value.
    pub open spec fn model(&self) -> PrePrepareView {
        PrePrepareView {
            view: self.view,
            sequence_number: self.sequence_number,
            digest: self.digest@,
            request: self.message.model(),
        }
    }
}

impl Clone for PrePrepare {
    fn clone(&self) -> (r: Self)
        ensures
            r == *self,
    {
        PrePrepare {
            view: self.view,
            sequence_number: self.sequence_number,
            digest: self.digest.clone(),
            message: self.message.clone(),
        }
    }
}

impl PrePrepareView {
    /// The digest names the embedded operation.
    pub open spec fn digest_valid(self) -> bool {
        self.digest == operation_digest(self.request.operation)
    }

    /// The prepare that accepting this pre-prepare produces.
    pub open spec fn vote(self) -> VoteView {
        VoteView { view: self.view, sequence_number: self.sequence_number, digest: self.digest }
    }
}

impl PrePrepare {
    pub fn view(&self) -> (r: u64)
        ensures
            r == self.view,
    {
        self.view
    }

    pub fn sequence_number(&self) -> (r: u64)
        ensures
            r == self.sequence_number,
    {
        self.sequence_number
    }

    pub fn digest(&self) -> (r: &String)
        ensures
            r == &self.digest,
    {
        &self.digest
    }

    pub fn client_reqeust(&self) -> (r: &ClientRequest)
        ensures
            r == &self.message,
    {
        &self.message
    }

    /// The pre-prepare for `client_request` at view `view` and sequence `n`,
    /// carrying the digest of its operation.
    pub fn from(view: u64, n: u64, client_request: ClientRequest) -> (r: Self)
        ensures
            r.view == view,
            r.sequence_number == n,
            r.message == client_request,
            r.digest@ == operation_digest(client_request.operation@),
            r.model().digest_valid(),
    {
        let digest = digest(client_request.operation.as_str().as_bytes());
        PrePrepare { view, sequence_number: n, digest, message: client_request }
    }

    /// Checks that the digest is that of the embedded operation.
    pub fn validate_digest(&self) -> (r: Result<(), Rejection>)
        ensures
            r is Ok <==> self.model().digest_valid(),
            r is Err ==> r == Err::<(), Rejection>(Rejection::BadDigest),
    {
        let expected = digest(self.message.operation.as_str().as_bytes());
        if self.digest == expected {
            Ok(())
        } else {
            Err(Rejection::BadDigest)
        }
    }
}

/// The counter from which the primary draws sequence numbers.
pub struct PrePrepareSequence {
    pub value: u64,
}

impl PrePrepareSequence {
    pub fn new() -> (r: Self)
        ensures
            r.value == 0,
    {
        PrePrepareSequence { value: 0 }
    }

    /// Advances the counter by one.
    pub fn increment(&mut self)
        requires
            old(self).value < u64::MAX,
        ensures
            final(self).value == old(self).value + 1,
    {
        self.value = self.value + 1;
    }

    pub fn value(&self) -> (r: u64)
        ensures
            r == self.value,
    {
        self.value
    }
}

/// A replica's vote that it accepted a pre-prepare.
#[derive(Debug)]
pub struct Prepare {
    pub view: u64,
    pub sequence_number: u64,
    pub digest: String,
}

impl Prepare {
    /// The abstract value.
    pub open spec fn model(&self) -> VoteView {
        VoteView { view: self.view, sequence_number: self.sequence_number, digest: self.digest@ }
    }
}

impl Clone for Prepare {
    fn clone(&self) -> (r: Self)
        ensures
            r == *self,
    {
        Prepare { view: self.view, sequence_number: self.sequence_number, digest: self.digest.clone() }
    }
}

impl Prepare {
    /// The prepare that accepts `pre_prepare`.
    pub fn from(pre_prepare: &PrePrepare) -> (r: Self)
        ensures
            r.view == pre_prepare.view,
            r.sequence_number == pre_prepare.sequence_number,
            r.digest == pre_prepare.digest,
            r.model() == pre_prepare.model().vote(),
    {
        Prepare {
            view: pre_prepare.view,
            sequence_number: pre_prepare.sequence_number,
            digest: pre_prepare.digest.clone(),
        }
    }

    pub fn view(&self) -> (r: u64)
        ensures
            r == self.view,
    {
        self.view
    }

    pub fn sequence_number(&self) -> (r: u64)
        ensures
            r == self.sequence_number,
    {
        self.sequence_number
    }

    pub fn digest(&self) -> (r: &String)
        ensures
            r == &self.digest,
    {
        &self.digest
    }
}

/// A replica's vote that it is prepared for a digest at a view and sequence.
#[derive(Debug)]
pub struct Commit {
    pub view: u64,
    pub sequence_number: u64,
    pub digest: String,
}

impl Commit {
    /// The abstract value.
    pub open spec fn model(&self) -> VoteView {
        VoteView { view: self.view, sequence_number: self.sequence_number, digest: self.digest@ }
    }
}

impl Clone for Commit {
    fn clone(&self) -> (r: Self)
        ensures
            r == *self,
    {
        Commit { view: self.view, sequence_number: self.sequence_number, digest: self.digest.clone() }
    }
}

impl Commit {
    /// The commit that follows `prepare`.
    pub fn from(prepare: &Prepare) -> (r: Self)
        ensures
            r.view == prepare.view,
            r.sequence_number == prepare.sequence_number,
            r.digest == prepare.digest,
            r.model() == prepare.model(),
    {
        Commit {
            view: prepare.view,
            sequence_number: prepare.sequence_number,
            digest: prepare.digest.clone(),
        }
    }

    pub fn view(&self) -> (r: u64)
        ensures
            r == self.view,
    {
        self.view
    }

    pub fn sequence_number(&self) -> (r: u64)
        ensures
            r == self.sequence_number,
    {
        self.sequence_number
    }

    pub fn digest(&self) -> (r: &String)
        ensures
            r == &self.digest,
    {
        &self.digest
    }
}

/// The answer a replica sends to a client once the request is committed.
#[derive(Debug)]
pub struct ClientReply {
    pub view: u64,
    pub timestamp: u64,
    pub peer_id: u64,
    pub result: String,
}

impl ClientReply {
    /// The abstract value.
    pub open spec fn model(&self) -> ClientReplyView {
        ClientReplyView {
            view: self.view,
            timestamp: self.timestamp,
            peer_id: self.peer_id,
            result: self.result@,
        }
    }
}

impl Clone for ClientReply {
    fn clone(&self) -> (r: Self)
        ensures
            r == *self,
    {
        ClientReply {
            view: self.view,
            timestamp: self.timestamp,
            peer_id: self.peer_id,
            result: self.result.clone(),
        }
    }
}

impl ClientReply {
    /// The reply of replica `peer_id` to the request of `pre_prepare`,
    /// committed by `commit`, with the result of executing it.
    pub fn new(peer_id: u64, pre_prepare: &PrePrepare, commit: &Commit, result: String) -> (r: Self)
        ensures
            r.view == commit.view,
            r.timestamp == pre_prepare.message.timestamp,
            r.peer_id == peer_id,
            r.result == result,
    {
        ClientReply {
            view: commit.view,
            timestamp: pre_prepare.message.timestamp,
            peer_id,
            result,
        }
    }
}

/// A message of either wire: client requests come from clients, the three
/// agreement messages travel between replicas.
#[derive(Debug)]
pub enum Message {
    ClientRequest(ClientRequest),
    PrePrepare(PrePrepare),
    Prepare(Prepare),
    Commit(Commit),
}

/// The abstract value of a message.
pub enum MessageView {
    ClientRequest(ClientRequestView),
    PrePrepare(PrePrepareView),
    Prepare(VoteView),
    Commit(VoteView),
}

impl Message {
    /// The abstract value.
    pub open spec fn model(&self) -> MessageView {
        match self {
            Message::ClientRequest(m) => MessageView::ClientRequest(m.model()),
            Message::PrePrepare(m) => MessageView::PrePrepare(m.model()),
            Message::Prepare(m) => MessageView::Prepare(m.model()),
            Message::Commit(m) => MessageView::Commit(m.model()),
        }
    }
}

impl Clone for Message {
    fn clone(&self) -> (r: Self)
        ensures
            r == *self,
    {
        match self {
            Message::ClientRequest(m) => Message::ClientRequest(m.clone()),
            Message::PrePrepare(m) => Message::PrePrepare(m.clone()),
            Message::Prepare(m) => Message::Prepare(m.clone()),
            Message::Commit(m) => Message::Commit(m.clone()),
        }
    }
}

} // verus!
