//! The consensus behaviour of one replica: it owns the log, validates the
//! three agreement messages and queues what is to be sent to peers.

use vstd::prelude::*;
use std::collections::VecDeque;
use crate::handler::{request_of, ConnectionId, PbftHandlerEvent, PbftHandlerIn};
use crate::message::{
    operation_digest, ClientRequest, Commit, Message, PrePrepare, PrePrepareSequence, PrePrepareView, Prepare,
    Rejection,
};
use crate::state::{LogView, State};

verus! {

/// A failure of the substream handler.
#[derive(Clone, Copy, PartialEq, Eq, Structural, Debug)]
pub struct PbftFailure;

/// A request was committed at `view` and `sequence_number`: the application
/// executes it and replies to the client.
#[derive(Clone, Copy, PartialEq, Eq, Structural, Debug)]
pub struct PbftEvent {
    pub view: u64,
    pub sequence_number: u64,
}

/// What the behaviour asks of the node around it.
#[derive(Debug)]
pub enum NetworkBehaviourAction {
    /// Open a connection to a peer.
    DialPeer { peer_id: u64 },
    /// Hand `event` to the handler of the connection with `peer_id`.
    SendEvent { peer_id: u64, event: PbftHandlerIn },
    /// Report `PbftEvent` to the application.
    GenerateEvent(PbftEvent),
}

/// One send action per peer, in the order of `peers`, each carrying `message`.
pub open spec fn broadcast_actions(peers: Seq<u64>, message: Message) -> Seq<NetworkBehaviourAction> {
    Seq::new(
        peers.len(),
        |i: int| NetworkBehaviourAction::SendEvent { peer_id: peers[i], event: request_of(message) },
    )
}

/// The answer payload for the outcome of processing a request: `OK` when
/// it was accepted, `NG` when it was refused.
pub open spec fn response_of(r: Result<(), Rejection>) -> Seq<u8> {
    match r {
        Ok(()) => seq![79u8, 75u8],
        Err(_) => seq![78u8, 71u8],
    }
}

/// The abstract state of the behaviour.
pub struct PbftView {
    /// This replica.
    pub local_id: u64,
    /// All replicas, in the order that decides the primary of each view.
    pub replicas: Seq<u64>,
    pub log: LogView,
    /// The last sequence number this replica assigned as primary.
    pub sequence: u64,
    /// Known (peer, address) pairs.
    pub addresses: Seq<(u64, Seq<char>)>,
    /// Connected peers, in the order of connection.
    pub connected: Seq<u64>,
    /// Actions waiting to be polled.
    pub queue: Seq<NetworkBehaviourAction>,
    /// The sequence numbers this replica broadcast a pre-prepare for.
    pub pre_prepares_sent: Seq<u64>,
    /// The (view, sequence) pairs this replica broadcast a prepare for.
    pub prepares_sent: Seq<(u64, u64)>,
    /// The (view, sequence) pairs this replica broadcast a commit for.
    pub commits_sent: Seq<(u64, u64)>,
    /// The (view, sequence) pairs this replica reported committed.
    pub executed: Seq<(u64, u64)>,
}

impl PbftView {
    /// The number of faulty replicas tolerated: the largest `f` with `3f + 1 <= N`.
    pub open spec fn f(self) -> nat {
        ((self.replicas.len() - 1) / 3) as nat
    }

    /// The primary of `view`: the replica at `view mod N`.
    pub open spec fn primary(self, view: u64) -> u64 {
        self.replicas[(view % (self.replicas.len() as u64)) as int]
    }

    pub open spec fn is_primary(self) -> bool {
        self.primary(self.log.view) == self.local_id
    }

    /// A pre-prepare logged at `k` for which the log is prepared has had its
    /// commit broadcast.
    pub open spec fn covers(self, k: (u64, u64)) -> bool {
        self.log.pre_prepares.contains_key(k) && self.log.prepared(
            k.0,
            k.1,
            self.log.pre_prepares[k].digest,
            self.f(),
            self.primary(k.0),
        ) ==> self.commits_sent.contains(k)
    }

    /// What holds of every state of the behaviour.
    pub open spec fn wf(self) -> bool {
        &&& self.base_wf()
        &&& forall|k: (u64, u64)| #[trigger] self.covers(k)
    }

    /// `wf` but for the link between prepared slots and broadcast commits:
    /// a prepare was broadcast exactly for the logged pre-prepares, and this
    /// replica's own prepare names the digest of the pre-prepare logged at
    /// its slot.
    pub open spec fn base_wf(self) -> bool {
        &&& forall|k: (u64, u64)|
            #![trigger self.prepares_sent.contains(k)]
            #![trigger self.log.pre_prepares.contains_key(k)]
            self.prepares_sent.contains(k) <==> self.log.pre_prepares.contains_key(k)
        &&& forall|k: (u64, u64, u64)|
            #[trigger] self.log.prepares.contains_key(k) && k.2 == self.local_id ==> self.log.pre_prepares.contains_key(
                (k.0, k.1),
            ) && self.log.prepares[k] == self.log.pre_prepares[(k.0, k.1)].digest
        &&& 0 < self.replicas.len() <= u64::MAX
        &&& self.log.wf()
        &&& self.connected.no_duplicates()
        &&& self.pre_prepares_sent.no_duplicates()
        &&& self.prepares_sent.no_duplicates()
        &&& self.commits_sent.no_duplicates()
        &&& self.executed.no_duplicates()
        &&& forall|i: int, j: int|
            0 <= i < j < self.pre_prepares_sent.len() ==> self.pre_prepares_sent[i]
                < self.pre_prepares_sent[j]
        &&& forall|i: int|
            0 <= i < self.pre_prepares_sent.len() ==> 0 < #[trigger] self.pre_prepares_sent[i]
                <= self.sequence
    }

    /// Validation of a pre-prepare, in order: its digest, its view, and no
    /// other digest logged at its view and sequence.
    pub open spec fn pre_prepare_check(self, pp: PrePrepareView) -> Result<(), Rejection> {
        if !pp.digest_valid() {
            Err(Rejection::BadDigest)
        } else if pp.view != self.log.view {
            Err(Rejection::WrongView)
        } else {
            self.log.pre_prepare_check(pp)
        }
    }

    /// Validation of a prepare or commit of `sender`: a sender that claims to
    /// be this replica, its view, and the digest of the pre-prepare logged at
    /// its view and sequence, where there is one.
    pub open spec fn vote_check(self, sender: u64, vote: crate::message::VoteView) -> Result<(), Rejection> {
        let k = (vote.view, vote.sequence_number);
        if sender == self.local_id {
            Err(Rejection::ImpersonatedSender)
        } else if vote.view != self.log.view {
            Err(Rejection::WrongView)
        } else if self.log.pre_prepares.contains_key(k) && self.log.pre_prepares[k].digest != vote.digest {
            Err(Rejection::BadDigest)
        } else {
            Ok(())
        }
    }

    /// Broadcasts a commit when the log has just become prepared.
    pub open spec fn after_prepared_check(self, view: u64, seq: u64, digest: String) -> PbftView {
        if self.log.prepared(view, seq, digest@, self.f(), self.primary(view)) && !self.commits_sent.contains(
            (view, seq),
        ) {
            let c = Commit { view, sequence_number: seq, digest };
            PbftView {
                log: self.log.with_commit(self.local_id, c.model()),
                commits_sent: self.commits_sent.push((view, seq)),
                queue: self.queue + broadcast_actions(self.connected, Message::Commit(c)),
                ..self
            }
        } else {
            self
        }
    }

    /// Reports the request once the log has just become committed-local.
    pub open spec fn after_committed_check(self, view: u64, seq: u64, digest: String) -> PbftView {
        if self.log.committed_local(view, seq, digest@, self.f(), self.primary(view)) && !self.executed.contains(
            (view, seq),
        ) {
            PbftView {
                executed: self.executed.push((view, seq)),
                queue: self.queue.push(
                    NetworkBehaviourAction::GenerateEvent(PbftEvent { view, sequence_number: seq }),
                ),
                ..self
            }
        } else {
            self
        }
    }

    /// The state after processing an accepted pre-prepare: it is logged,
    /// this replica's prepare is logged and broadcast once, and the prepared
    /// and committed checks run.
    pub open spec fn after_pre_prepare(self, pp: PrePrepare) -> PbftView {
        if self.pre_prepare_check(pp.model()) is Err {
            self
        } else {
            let k = (pp.view, pp.sequence_number);
            let s1 = PbftView { log: self.log.with_pre_prepare(pp.model()), ..self };
            let s2 = if !s1.prepares_sent.contains(k) {
                let p = Prepare { view: pp.view, sequence_number: pp.sequence_number, digest: pp.digest };
                PbftView {
                    log: s1.log.with_prepare(s1.local_id, p.model()),
                    prepares_sent: s1.prepares_sent.push(k),
                    queue: s1.queue + broadcast_actions(s1.connected, Message::Prepare(p)),
                    ..s1
                }
            } else {
                s1
            };
            s2.after_prepared_check(pp.view, pp.sequence_number, pp.digest).after_committed_check(
                pp.view,
                pp.sequence_number,
                pp.digest,
            )
        }
    }

    /// The state after recording that `address` reaches `peer_id`: a new
    /// pair is kept and a dial requested; a known pair changes nothing.
    pub open spec fn after_add_peer(self, peer_id: u64, address: Seq<char>) -> PbftView {
        if self.addresses.contains((peer_id, address)) {
            self
        } else {
            PbftView {
                addresses: self.addresses.push((peer_id, address)),
                queue: self.queue.push(NetworkBehaviourAction::DialPeer { peer_id }),
                ..self
            }
        }
    }

    /// The state after the discovery of each (peer, address) pair of `found`, in order.
    pub open spec fn after_discovered(self, found: Seq<(u64, Seq<char>)>) -> PbftView
        decreases found.len(),
    {
        if found.len() == 0 {
            self
        } else {
            self.after_discovered(found.drop_last()).after_add_peer(found.last().0, found.last().1)
        }
    }

    /// The state after `peer_id` is dropped from the connected peers.
    pub open spec fn after_remove_peer(self, peer_id: u64) -> PbftView {
        if self.connected.contains(peer_id) {
            PbftView { connected: self.connected.remove(self.connected.index_of(peer_id)), ..self }
        } else {
            self
        }
    }

    /// The state after each peer of `expired` is dropped, in order.
    pub open spec fn after_expired(self, expired: Seq<u64>) -> PbftView
        decreases expired.len(),
    {
        if expired.len() == 0 {
            self
        } else {
            self.after_expired(expired.drop_last()).after_remove_peer(expired.last())
        }
    }

    /// The state after queuing `event` for the handler of `peer_id`.
    pub open spec fn respond(self, peer_id: u64, event: PbftHandlerIn) -> PbftView {
        PbftView { queue: self.queue.push(NetworkBehaviourAction::SendEvent { peer_id, event }), ..self }
    }

    /// The state after the primary assigns the next sequence to `pp`: it is
    /// broadcast and then processed as if received from this replica.
    pub open spec fn after_client_request(self, pp: PrePrepare) -> PbftView {
        PbftView {
            sequence: pp.sequence_number,
            pre_prepares_sent: self.pre_prepares_sent.push(pp.sequence_number),
            queue: self.queue + broadcast_actions(self.connected, Message::PrePrepare(pp)),
            ..self
        }.after_pre_prepare(pp)
    }

    /// What processing the prepare of `sender` answers.
    pub open spec fn prepare_result(self, sender: u64, p: Prepare) -> Result<(), Rejection> {
        if self.vote_check(sender, p.model()) is Err {
            self.vote_check(sender, p.model())
        } else {
            LogView::vote_check(self.log.prepares, sender, p.model())
        }
    }

    /// The state after processing the prepare of `sender`.
    pub open spec fn after_prepare(self, sender: u64, p: Prepare) -> PbftView {
        if self.prepare_result(sender, p) is Err {
            self
        } else {
            PbftView { log: self.log.with_prepare(sender, p.model()), ..self }.after_prepared_check(
                p.view,
                p.sequence_number,
                p.digest,
            ).after_committed_check(p.view, p.sequence_number, p.digest)
        }
    }

    /// What processing the commit of `sender` answers.
    pub open spec fn commit_result(self, sender: u64, c: Commit) -> Result<(), Rejection> {
        if self.vote_check(sender, c.model()) is Err {
            self.vote_check(sender, c.model())
        } else {
            LogView::vote_check(self.log.commits, sender, c.model())
        }
    }

    /// The state after processing the commit of `sender`.
    pub open spec fn after_commit(self, sender: u64, c: Commit) -> PbftView {
        if self.commit_result(sender, c) is Err {
            self
        } else {
            PbftView { log: self.log.with_commit(sender, c.model()), ..self }.after_committed_check(
                c.view,
                c.sequence_number,
                c.digest,
            )
        }
    }
}

/// `covers` survives a step that keeps the logged pre-prepares and
/// prepares and the replica set, and only adds broadcast commits.
proof fn lemma_covers_kept(a: PbftView, b: PbftView)
    requires
        forall|k: (u64, u64)| #[trigger] a.covers(k),
        b.log.pre_prepares == a.log.pre_prepares,
        b.log.prepares == a.log.prepares,
        b.replicas == a.replicas,
        forall|k: (u64, u64)| a.commits_sent.contains(k) ==> #[trigger] b.commits_sent.contains(k),
    ensures
        forall|k: (u64, u64)| #[trigger] b.covers(k),
{
    assert forall|k: (u64, u64)| #[trigger] b.covers(k) by {
        assert(a.covers(k));
    }
}

/// Whether a slot is prepared depends only on what the log holds at it.
proof fn lemma_prepared_frame(a: LogView, b: LogView, view: u64, seq: u64)
    requires
        forall|k: (u64, u64)|
            k != (view, seq) ==> (#[trigger] a.pre_prepares.contains_key(k) == b.pre_prepares.contains_key(k)
                && (a.pre_prepares.contains_key(k) ==> a.pre_prepares[k] == b.pre_prepares[k])),
        forall|k: (u64, u64, u64)|
            (k.0, k.1) != (view, seq) ==> (#[trigger] a.prepares.contains_key(k) == b.prepares.contains_key(k) && (
            a.prepares.contains_key(k) ==> a.prepares[k] == b.prepares[k])),
    ensures
        forall|v: u64, n: u64, d: Seq<char>, f: nat, p: u64|
            (v, n) != (view, seq) ==> #[trigger] b.prepared(v, n, d, f, p) == a.prepared(v, n, d, f, p),
{
    assert forall|v: u64, n: u64, d: Seq<char>, f: nat, p: u64|
        (v, n) != (view, seq) implies #[trigger] b.prepared(v, n, d, f, p) == a.prepared(v, n, d, f, p) by {
        assert(a.pre_prepares.contains_key((v, n)) == b.pre_prepares.contains_key((v, n)));
        assert(a.prepare_voters(v, n, d, p) =~= b.prepare_voters(v, n, d, p)) by {
            assert forall|x: u64| a.prepare_voters(v, n, d, p).contains(x) == b.prepare_voters(v, n, d, p).contains(x) by {
                assert(a.prepares.contains_key((v, n, x)) == b.prepares.contains_key((v, n, x)));
            }
        }
    }
}

/// A step that changes the log only at one slot keeps `covers` elsewhere.
proof fn lemma_covers_elsewhere(a: PbftView, b: PbftView, view: u64, seq: u64)
    requires
        forall|k: (u64, u64)| #[trigger] a.covers(k),
        b.replicas == a.replicas,
        forall|k: (u64, u64)| a.commits_sent.contains(k) ==> #[trigger] b.commits_sent.contains(k),
        forall|k: (u64, u64)|
            k != (view, seq) ==> (#[trigger] a.log.pre_prepares.contains_key(k) == b.log.pre_prepares.contains_key(k)
                && (a.log.pre_prepares.contains_key(k) ==> a.log.pre_prepares[k] == b.log.pre_prepares[k])),
        forall|k: (u64, u64, u64)|
            (k.0, k.1) != (view, seq) ==> (#[trigger] a.log.prepares.contains_key(k) == b.log.prepares.contains_key(k)
                && (a.log.prepares.contains_key(k) ==> a.log.prepares[k] == b.log.prepares[k])),
    ensures
        forall|k: (u64, u64)| k != (view, seq) ==> #[trigger] b.covers(k),
{
    lemma_prepared_frame(a.log, b.log, view, seq);
    assert forall|k: (u64, u64)| k != (view, seq) implies #[trigger] b.covers(k) by {
        assert(a.covers(k));
        assert(a.log.pre_prepares.contains_key(k) == b.log.pre_prepares.contains_key(k));
        if b.log.pre_prepares.contains_key(k) {
            assert(b.log.prepared(k.0, k.1, b.log.pre_prepares[k].digest, b.f(), b.primary(k.0)) == a.log.prepared(
                k.0,
                k.1,
                a.log.pre_prepares[k].digest,
                a.f(),
                a.primary(k.0),
            ));
        }
    }
}

/// The handler request that carries `message`.
fn request_event(message: Message) -> (r: PbftHandlerIn)
    requires
        !(message is ClientRequest),
    ensures
        r == request_of(message),
{
    match message {
        Message::PrePrepare(m) => PbftHandlerIn::PrePrepareRequest(m),
        Message::Prepare(m) => PbftHandlerIn::PrepareRequest(m),
        Message::Commit(m) => PbftHandlerIn::CommitRequest(m),
        Message::ClientRequest(_) => unreached(),
    }
}

/// Queues one send of `message` to each of `peers`.
fn push_broadcast(queue: &mut VecDeque<NetworkBehaviourAction>, peers: &Vec<u64>, message: &Message)
    requires
        !(*message is ClientRequest),
    ensures
        final(queue)@ == old(queue)@ + broadcast_actions(peers@, *message),
{
    let ghost q0 = queue@;
    let mut i: usize = 0;
    while i < peers.len()
        invariant
            0 <= i <= peers@.len(),
            !(*message is ClientRequest),
            queue@ == q0 + broadcast_actions(peers@.take(i as int), *message),
        decreases peers@.len() - i,
    {
        let peer_id = peers[i];
        let event = request_event(message.clone());
        queue.push_back(NetworkBehaviourAction::SendEvent { peer_id, event });
        i = i + 1;
        assert(q0 + broadcast_actions(peers@.take(i as int), *message) =~= (q0 + broadcast_actions(
            peers@.take(i - 1),
            *message,
        )).push(NetworkBehaviourAction::SendEvent { peer_id, event: request_of(*message) }));
    }
    assert(peers@.take(i as int) =~= peers@);
}

/// The answer payload for `r`.
fn response_bytes(r: &Result<(), Rejection>) -> (b: Vec<u8>)
    ensures
        b@ == response_of(*r),
{
    let mut b: Vec<u8> = Vec::new();
    match r {
        Ok(()) => {
            b.push(79u8);
            b.push(75u8);
        },
        Err(_) => {
            b.push(78u8);
            b.push(71u8);
        },
    }
    assert(b@ =~= response_of(*r));
    b
}

fn contains_key(v: &Vec<(u64, u64)>, k: (u64, u64)) -> (r: bool)
    ensures
        r == v@.contains(k),
{
    let mut i: usize = 0;
    while i < v.len()
        invariant
            0 <= i <= v@.len(),
            forall|j: int| 0 <= j < i ==> v@[j] != k,
        decreases v@.len() - i,
    {
        if v[i].0 == k.0 && v[i].1 == k.1 {
            return true;
        }
        i = i + 1;
    }
    false
}

fn position_of(v: &Vec<u64>, x: u64) -> (r: Option<usize>)
    ensures
        match r {
            Some(i) => i < v@.len() && v@[i as int] == x,
            None => !v@.contains(x),
        },
{
    let mut i: usize = 0;
    while i < v.len()
        invariant
            0 <= i <= v@.len(),
            forall|j: int| 0 <= j < i ==> v@[j] != x,
        decreases v@.len() - i,
    {
        if v[i] == x {
            return Some(i);
        }
        i = i + 1;
    }
    None
}

/// The consensus behaviour of one replica.
pub struct Pbft {
    local_id: u64,
    replicas: Vec<u64>,
    addresses: Vec<(u64, String)>,
    connected_peers: Vec<u64>,
    queued_events: VecDeque<NetworkBehaviourAction>,
    state: State,
    pre_prepare_sequence: PrePrepareSequence,
    pre_prepares_sent: Ghost<Seq<u64>>,
    prepares_sent: Vec<(u64, u64)>,
    commits_sent: Vec<(u64, u64)>,
    executed: Vec<(u64, u64)>,
}

pub open spec fn address_view(p: (u64, String)) -> (u64, Seq<char>) {
    (p.0, p.1@)
}

/// The addresses recorded for `peer` in `addresses`, in order.
pub open spec fn addresses_for(addresses: Seq<(u64, Seq<char>)>, peer: u64) -> Seq<Seq<char>>
    decreases addresses.len(),
{
    if addresses.len() == 0 {
        Seq::empty()
    } else {
        let rest = addresses_for(addresses.drop_last(), peer);
        if addresses.last().0 == peer {
            rest.push(addresses.last().1)
        } else {
            rest
        }
    }
}

impl View for Pbft {
    type V = PbftView;

    closed spec fn view(&self) -> PbftView {
        PbftView {
            local_id: self.local_id,
            replicas: self.replicas@,
            log: self.state@,
            sequence: self.pre_prepare_sequence.value,
            addresses: self.addresses@.map_values(|p: (u64, String)| address_view(p)),
            connected: self.connected_peers@,
            queue: self.queued_events@,
            pre_prepares_sent: self.pre_prepares_sent@,
            prepares_sent: self.prepares_sent@,
            commits_sent: self.commits_sent@,
            executed: self.executed@,
        }
    }
}

impl Pbft {
    /// The internal invariant.
    pub closed spec fn wf(&self) -> bool {
        self.state.wf() && self@.wf()
    }

    /// A replica `local_id` among `replicas`, at view 0 with an empty log.
    pub fn new(local_id: u64, replicas: Vec<u64>) -> (r: Self)
        requires
            replicas@.len() > 0,
        ensures
            r.wf(),
            r@.local_id == local_id,
            r@.replicas == replicas@,
            r@.log.view == 0,
            r@.log.pre_prepares.is_empty(),
            r@.log.prepares.is_empty(),
            r@.log.commits.is_empty(),
            r@.sequence == 0,
            r@.addresses.len() == 0,
            r@.connected.len() == 0,
            r@.queue.len() == 0,
            r@.pre_prepares_sent.len() == 0,
            r@.prepares_sent.len() == 0,
            r@.commits_sent.len() == 0,
            r@.executed.len() == 0,
    {
        let n = replicas.len();
        assert(n as int <= u64::MAX);
        let r = Pbft {
            local_id,
            replicas,
            addresses: Vec::new(),
            connected_peers: Vec::new(),
            queued_events: VecDeque::new(),
            state: State::new(),
            pre_prepare_sequence: PrePrepareSequence::new(),
            pre_prepares_sent: Ghost(Seq::empty()),
            prepares_sent: Vec::new(),
            commits_sent: Vec::new(),
            executed: Vec::new(),
        };
        assert(r@.addresses =~= Seq::<(u64, Seq<char>)>::empty());
        proof {
            r.state.lemma_logged_digests_valid();
        }
        r
    }

    pub fn local_id(&self) -> (r: u64)
        ensures
            r == self@.local_id,
    {
        self.local_id
    }

    /// The log of this replica.
    pub fn state(&self) -> (r: &State)
        requires
            self.wf(),
        ensures
            r@ == self@.log,
            r.wf(),
    {
        &self.state
    }

    /// The number of faulty replicas tolerated.
    pub fn f(&self) -> (r: u64)
        requires
            self@.replicas.len() > 0,
        ensures
            r == self@.f(),
    {
        ((self.replicas.len() - 1) / 3) as u64
    }

    /// The primary of `view`.
    pub fn primary(&self, view: u64) -> (r: u64)
        requires
            self@.replicas.len() > 0,
        ensures
            r == self@.primary(view),
    {
        let n = self.replicas.len() as u64;
        self.replicas[(view % n) as usize]
    }

    /// Whether `peer_id` is connected.
    pub fn has_peer(&self, peer_id: u64) -> (r: bool)
        ensures
            r == self@.connected.contains(peer_id),
    {
        position_of(&self.connected_peers, peer_id).is_some()
    }

    /// Records that `address` reaches `peer_id` and asks for a dial; a pair
    /// already recorded changes nothing.
    pub fn add_peer(&mut self, peer_id: u64, address: &String)
        requires
            old(self).wf(),
        ensures
            final(self).wf(),
            final(self)@ == old(self)@.after_add_peer(peer_id, address@),
    {
        let ghost view_addresses = self@.addresses;
        let mut i: usize = 0;
        while i < self.addresses.len()
            invariant
                self.wf(),
                *self == *old(self),
                0 <= i <= self.addresses@.len(),
                view_addresses == self.addresses@.map_values(|p: (u64, String)| address_view(p)),
                forall|j: int| 0 <= j < i ==> view_addresses[j] != (peer_id, address@),
            decreases self.addresses@.len() - i,
        {
            if self.addresses[i].0 == peer_id && self.addresses[i].1 == *address {
                assert(view_addresses[i as int] == (peer_id, address@));
                proof {
                    lemma_covers_kept(old(self)@, self@);
                }
                return;
            }
            i = i + 1;
        }
        self.addresses.push((peer_id, address.clone()));
        self.queued_events.push_back(NetworkBehaviourAction::DialPeer { peer_id });
        assert(self@.addresses =~= view_addresses.push((peer_id, address@)));
        proof {
            lemma_covers_kept(old(self)@, self@);
        }
    }

    /// The addresses recorded for `peer_id`, in the order they were added.
    pub fn addresses_of_peer(&self, peer_id: u64) -> (r: Vec<String>)
        ensures
            r@.map_values(|a: String| a@) == addresses_for(self@.addresses, peer_id),
    {
        let mut r: Vec<String> = Vec::new();
        let ghost view_addresses = self@.addresses;
        let mut i: usize = 0;
        while i < self.addresses.len()
            invariant
                0 <= i <= self.addresses@.len(),
                view_addresses == self.addresses@.map_values(|p: (u64, String)| address_view(p)),
                r@.map_values(|a: String| a@) == addresses_for(view_addresses.take(i as int), peer_id),
            decreases self.addresses@.len() - i,
        {
            assert(view_addresses.take(i + 1).drop_last() =~= view_addresses.take(i as int));
            if self.addresses[i].0 == peer_id {
                r.push(self.addresses[i].1.clone());
            }
            i = i + 1;
            assert(r@.map_values(|a: String| a@) =~= addresses_for(view_addresses.take(i as int), peer_id));
        }
        assert(view_addresses.take(i as int) =~= view_addresses);
        r
    }

    /// Marks `peer_id` connected.
    pub fn inject_connected(&mut self, peer_id: u64)
        requires
            old(self).wf(),
        ensures
            final(self).wf(),
            old(self)@.connected.contains(peer_id) ==> final(self)@ == old(self)@,
            !old(self)@.connected.contains(peer_id) ==> final(self)@ == (PbftView {
                connected: old(self)@.connected.push(peer_id),
                ..old(self)@
            }),
    {
        if position_of(&self.connected_peers, peer_id).is_none() {
            self.connected_peers.push(peer_id);
        }
        proof {
            lemma_covers_kept(old(self)@, self@);
        }
    }

    /// Marks `peer_id` disconnected; its addresses stay recorded.
    pub fn inject_disconnected(&mut self, peer_id: u64)
        requires
            old(self).wf(),
        ensures
            final(self).wf(),
            final(self)@ == old(self)@.after_remove_peer(peer_id),
            !final(self)@.connected.contains(peer_id),
    {
        match position_of(&self.connected_peers, peer_id) {
            Some(i) => {
                let ghost before = self.connected_peers@;
                proof {
                    let j = before.index_of(peer_id);
                    assert(before[j] == peer_id);
                }
                self.connected_peers.remove(i);
                assert forall|a: int, b: int|
                    0 <= a < self.connected_peers@.len() && 0 <= b < self.connected_peers@.len() && a != b
                        implies self.connected_peers@[a] != self.connected_peers@[b] by {
                    let a0 = if a < i { a } else { a + 1 };
                    let b0 = if b < i { b } else { b + 1 };
                    assert(self.connected_peers@[a] == before[a0]);
                    assert(self.connected_peers@[b] == before[b0]);
                }
                assert forall|k: int| 0 <= k < self.connected_peers@.len() implies self.connected_peers@[k]
                    != peer_id by {
                    let k0 = if k < i { k } else { k + 1 };
                    assert(self.connected_peers@[k] == before[k0]);
                }
            },
            None => {},
        }
        proof {
            lemma_covers_kept(old(self)@, self@);
        }
    }

    /// Drops `peer_id` from the connected peers; its addresses stay recorded
    /// for a later reconnect.
    pub fn remove_peer(&mut self, peer_id: u64)
        requires
            old(self).wf(),
        ensures
            final(self).wf(),
            final(self)@ == old(self)@.after_remove_peer(peer_id),
    {
        self.inject_disconnected(peer_id);
    }

    /// Reacts to discovered peers: each (peer, address) pair of `found` is
    /// recorded, and dialled when it is new.
    pub fn inject_discovered(&mut self, found: &Vec<(u64, String)>)
        requires
            old(self).wf(),
        ensures
            final(self).wf(),
            final(self)@ == old(self)@.after_discovered(found@.map_values(|p: (u64, String)| address_view(p))),
    {
        let ghost found_view = found@.map_values(|p: (u64, String)| address_view(p));
        let mut i: usize = 0;
        while i < found.len()
            invariant
                self.wf(),
                0 <= i <= found@.len(),
                found_view == found@.map_values(|p: (u64, String)| address_view(p)),
                self@ == old(self)@.after_discovered(found_view.take(i as int)),
            decreases found@.len() - i,
        {
            self.add_peer(found[i].0, &found[i].1);
            assert(found_view.take(i + 1).drop_last() =~= found_view.take(i as int));
            i = i + 1;
        }
        assert(found_view.take(i as int) =~= found_view);
    }

    /// Reacts to expired peers: each of `expired` is dropped from the
    /// connected peers.
    pub fn inject_expired(&mut self, expired: &Vec<u64>)
        requires
            old(self).wf(),
        ensures
            final(self).wf(),
            final(self)@ == old(self)@.after_expired(expired@),
    {
        let mut i: usize = 0;
        while i < expired.len()
            invariant
                self.wf(),
                0 <= i <= expired@.len(),
                self@ == old(self)@.after_expired(expired@.take(i as int)),
            decreases expired@.len() - i,
        {
            self.inject_disconnected(expired[i]);
            assert(expired@.take(i + 1).drop_last() =~= expired@.take(i as int));
            i = i + 1;
        }
        assert(expired@.take(i as int) =~= expired@);
    }

    /// Takes the oldest queued action.
    pub fn poll(&mut self) -> (r: Option<NetworkBehaviourAction>)
        requires
            old(self).wf(),
        ensures
            final(self).wf(),
            old(self)@.queue.len() == 0 ==> r is None && final(self)@ == old(self)@,
            old(self)@.queue.len() > 0 ==> r == Some(old(self)@.queue[0]) && final(self)@ == (PbftView {
                queue: old(self)@.queue.drop_first(),
                ..old(self)@
            }),
    {
        let r = self.queued_events.pop_front();
        proof {
            lemma_covers_kept(old(self)@, self@);
            if old(self)@.queue.len() > 0 {
                assert(self.queued_events@ =~= old(self)@.queue.drop_first());
            }
        }
        r
    }

    /// Checks a pre-prepare: its digest, its view, and no other digest
    /// logged at its view and sequence.
    pub fn validate_pre_prepare(&self, pre_prepare: &PrePrepare) -> (r: Result<(), Rejection>)
        requires
            self.wf(),
        ensures
            r == self@.pre_prepare_check(pre_prepare.model()),
    {
        if pre_prepare.validate_digest().is_err() {
            return Err(Rejection::BadDigest);
        }
        if pre_prepare.view != self.state.current_view() {
            return Err(Rejection::WrongView);
        }
        match self.state.get_pre_prepare(pre_prepare) {
            Some(stored) => {
                if stored.digest != pre_prepare.digest {
                    Err(Rejection::ConflictingPrePrepare)
                } else {
                    Ok(())
                }
            },
            None => Ok(()),
        }
    }

    /// Checks a prepare or commit of `sender` for `digest` at `view` and `seq`.
    fn validate_vote(&self, sender: u64, view: u64, seq: u64, digest: &String) -> (r: Result<(), Rejection>)
        requires
            self.state.wf(),
        ensures
            r == self@.vote_check(sender, crate::message::VoteView { view, sequence_number: seq, digest: digest@ }),
    {
        if sender == self.local_id {
            return Err(Rejection::ImpersonatedSender);
        }
        if view != self.state.current_view() {
            return Err(Rejection::WrongView);
        }
        match self.state.get_pre_prepare_by_key(view, seq) {
            Some(stored) => {
                if stored.digest != *digest {
                    Err(Rejection::BadDigest)
                } else {
                    Ok(())
                }
            },
            None => Ok(()),
        }
    }

    fn after_prepared_check(&mut self, view: u64, seq: u64, digest: &String)
        requires
            old(self).state.wf(),
            old(self)@.base_wf(),
            forall|k: (u64, u64)| k != (view, seq) ==> #[trigger] old(self)@.covers(k),
            old(self)@.log.pre_prepares.contains_key((view, seq)) ==> old(self)@.log.pre_prepares[(view, seq)].digest
                == digest@,
        ensures
            final(self).wf(),
            final(self)@ == old(self)@.after_prepared_check(view, seq, *digest),
            old(self)@.log.grows_to(final(self)@.log),
    {
        let f = self.f();
        let primary = self.primary(view);
        if self.state.is_prepared(view, seq, digest, f, primary) && !contains_key(&self.commits_sent, (view, seq)) {
            let commit = Commit { view, sequence_number: seq, digest: digest.clone() };
            let _ = self.state.insert_commit(self.local_id, &commit);
            self.commits_sent.push((view, seq));
            push_broadcast(&mut self.queued_events, &self.connected_peers, &Message::Commit(commit));
            proof {
                self.state.lemma_logged_digests_valid();
                assert forall|k: (u64, u64)| #[trigger] self@.covers(k) by {
                    if k != (view, seq) {
                        assert(old(self)@.covers(k));
                        if old(self)@.commits_sent.contains(k) {
                            let i = choose|i: int| 0 <= i < old(self)@.commits_sent.len() && old(self)@.commits_sent[i] == k;
                            assert(self@.commits_sent[i] == k);
                        }
                    } else {
                        assert(self@.commits_sent[self@.commits_sent.len() - 1] == k);
                    }
                }
            }
        } else {
            proof {
                assert forall|k: (u64, u64)| #[trigger] self@.covers(k) by {
                    assert(old(self)@.covers(k) || k == (view, seq));
                }
            }
        }
    }

    fn after_committed_check(&mut self, view: u64, seq: u64, digest: &String)
        requires
            old(self).wf(),
        ensures
            final(self).wf(),
            final(self)@ == old(self)@.after_committed_check(view, seq, *digest),
            final(self)@.log == old(self)@.log,
    {
        let f = self.f();
        let primary = self.primary(view);
        if self.state.is_committed_local(view, seq, digest, f, primary) && !contains_key(&self.executed, (view, seq)) {
            self.executed.push((view, seq));
            self.queued_events.push_back(
                NetworkBehaviourAction::GenerateEvent(PbftEvent { view, sequence_number: seq }),
            );
        }
        proof {
            lemma_covers_kept(old(self)@, self@);
        }
    }

    /// Processes a pre-prepare: where it passes `validate_pre_prepare` it is
    /// logged, this replica's prepare is logged and broadcast (once per view
    /// and sequence), and the prepared and committed checks run.
    pub fn process_pre_prepare(&mut self, pre_prepare: PrePrepare) -> (r: Result<(), Rejection>)
        requires
            old(self).wf(),
        ensures
            final(self).wf(),
            r == old(self)@.pre_prepare_check(pre_prepare.model()),
            final(self)@ == old(self)@.after_pre_prepare(pre_prepare),
            old(self)@.log.grows_to(final(self)@.log),
    {
        let checked = self.validate_pre_prepare(&pre_prepare);
        if checked.is_err() {
            return checked;
        }
        let view = pre_prepare.view;
        let seq = pre_prepare.sequence_number;
        let digest = pre_prepare.digest.clone();
        let prepare = Prepare::from(&pre_prepare);
        let ghost k = (view, seq);
        let ghost logged = old(self)@.log.pre_prepares.contains_key(k);
        let _ = self.state.insert_pre_prepare(pre_prepare);
        proof {
            self.state.lemma_logged_digests_valid();
            assert(old(self)@.prepares_sent.contains(k) == logged);
            if !logged {
                assert(!old(self)@.log.prepares.contains_key((view, seq, self.local_id)));
            }
        }
        if !contains_key(&self.prepares_sent, (view, seq)) {
            let _ = self.state.insert_prepare(self.local_id, &prepare);
            self.prepares_sent.push((view, seq));
            push_broadcast(&mut self.queued_events, &self.connected_peers, &Message::Prepare(prepare));
            proof {
                self.state.lemma_logged_digests_valid();
            }
        }
        proof {
            let a = old(self)@;
            let b = self@;
            assert(b.log.pre_prepares.contains_key(k) && b.log.pre_prepares[k].digest == digest@);
            assert forall|x: (u64, u64)| x != k implies (#[trigger] a.log.pre_prepares.contains_key(x)
                == b.log.pre_prepares.contains_key(x) && (a.log.pre_prepares.contains_key(x) ==> a.log.pre_prepares[x]
                == b.log.pre_prepares[x])) by {}
            assert forall|x: (u64, u64, u64)| (x.0, x.1) != k implies (#[trigger] a.log.prepares.contains_key(x)
                == b.log.prepares.contains_key(x) && (a.log.prepares.contains_key(x) ==> a.log.prepares[x]
                == b.log.prepares[x])) by {
                assert(x != (view, seq, self.local_id));
            }
            lemma_covers_elsewhere(a, b, view, seq);
            assert forall|x: (u64, u64)|
                #![trigger b.prepares_sent.contains(x)]
                #![trigger b.log.pre_prepares.contains_key(x)]
                b.prepares_sent.contains(x) <==> b.log.pre_prepares.contains_key(x) by {
                if x != k {
                    assert(a.prepares_sent.contains(x) <==> a.log.pre_prepares.contains_key(x));
                    if a.prepares_sent.contains(x) {
                        let i = choose|i: int| 0 <= i < a.prepares_sent.len() && a.prepares_sent[i] == x;
                        assert(b.prepares_sent[i] == x);
                    }
                    if b.prepares_sent.contains(x) {
                        let i = choose|i: int| 0 <= i < b.prepares_sent.len() && b.prepares_sent[i] == x;
                        if i < a.prepares_sent.len() {
                            assert(a.prepares_sent[i] == x);
                        }
                    }
                } else {
                    if !logged {
                        assert(b.prepares_sent[b.prepares_sent.len() - 1] == k);
                    }
                }
            }
            assert forall|x: (u64, u64, u64)|
                #[trigger] b.log.prepares.contains_key(x) && x.2 == b.local_id implies b.log.pre_prepares.contains_key(
                (x.0, x.1),
            ) && b.log.prepares[x] == b.log.pre_prepares[(x.0, x.1)].digest by {
                if x != (view, seq, self.local_id) {
                    assert(a.log.prepares.contains_key(x));
                }
            }
        }
        self.after_prepared_check(view, seq, &digest);
        self.after_committed_check(view, seq, &digest);
        Ok(())
    }

    /// Processes the prepare of `peer_id`: where its view matches and its
    /// digest agrees with the pre-prepare logged at its view and sequence,
    /// if any, it is logged, and the prepared and committed checks run.
    pub fn process_prepare(&mut self, peer_id: u64, prepare: Prepare) -> (r: Result<(), Rejection>)
        requires
            old(self).wf(),
        ensures
            final(self).wf(),
            r == old(self)@.prepare_result(peer_id, prepare),
            final(self)@ == old(self)@.after_prepare(peer_id, prepare),
            old(self)@.log.grows_to(final(self)@.log),
    {
        let checked = self.validate_vote(peer_id, prepare.view, prepare.sequence_number, &prepare.digest);
        if checked.is_err() {
            return checked;
        }
        let inserted = self.state.insert_prepare(peer_id, &prepare);
        if inserted.is_err() {
            return inserted;
        }
        proof {
            self.state.lemma_logged_digests_valid();
            let k = (prepare.view, prepare.sequence_number, peer_id);
            assert forall|x: (u64, u64, u64)| (x.0, x.1) != (prepare.view, prepare.sequence_number) implies (
            #[trigger] old(self)@.log.prepares.contains_key(x) == self@.log.prepares.contains_key(x) && (old(
                self,
            )@.log.prepares.contains_key(x) ==> old(self)@.log.prepares[x] == self@.log.prepares[x])) by {
                assert(x != k);
            }
            lemma_covers_elsewhere(old(self)@, self@, prepare.view, prepare.sequence_number);
            assert forall|x: (u64, u64, u64)|
                #[trigger] self@.log.prepares.contains_key(x) && x.2 == self@.local_id implies self@.log.pre_prepares.contains_key(
                (x.0, x.1),
            ) && self@.log.prepares[x] == self@.log.pre_prepares[(x.0, x.1)].digest by {
                assert(x != k);
                assert(old(self)@.log.prepares.contains_key(x));
            }
        }
        self.after_prepared_check(prepare.view, prepare.sequence_number, &prepare.digest);
        self.after_committed_check(prepare.view, prepare.sequence_number, &prepare.digest);
        Ok(())
    }

    /// Processes the commit of `peer_id`: where its view matches and its
    /// digest agrees with the pre-prepare logged at its view and sequence,
    /// if any, it is logged, and the committed check runs.
    pub fn process_commit(&mut self, peer_id: u64, commit: Commit) -> (r: Result<(), Rejection>)
        requires
            old(self).wf(),
        ensures
            final(self).wf(),
            r == old(self)@.commit_result(peer_id, commit),
            final(self)@ == old(self)@.after_commit(peer_id, commit),
            old(self)@.log.grows_to(final(self)@.log),
    {
        let checked = self.validate_vote(peer_id, commit.view, commit.sequence_number, &commit.digest);
        if checked.is_err() {
            return checked;
        }
        let inserted = self.state.insert_commit(peer_id, &commit);
        if inserted.is_err() {
            return inserted;
        }
        proof {
            self.state.lemma_logged_digests_valid();
            lemma_covers_kept(old(self)@, self@);
        }
        self.after_committed_check(commit.view, commit.sequence_number, &commit.digest);
        Ok(())
    }

    /// The primary assigns the next sequence number to `client_request`,
    /// broadcasts the pre-prepare to every connected peer and processes it
    /// as if received from itself. A backup refuses with `NotPrimary`; an
    /// exhausted sequence counter refuses with `OutOfWatermark`.
    pub fn add_client_request(&mut self, client_request: ClientRequest) -> (r: Result<(), Rejection>)
        requires
            old(self).wf(),
        ensures
            final(self).wf(),
            !old(self)@.is_primary() ==> r == Err::<(), Rejection>(Rejection::NotPrimary) && final(self)@ == old(self)@,
            old(self)@.is_primary() && old(self)@.sequence == u64::MAX ==> r == Err::<(), Rejection>(
                Rejection::OutOfWatermark,
            ) && final(self)@ == old(self)@,
            old(self)@.is_primary() && old(self)@.sequence < u64::MAX ==> r is Ok && exists|pp: PrePrepare|
                {
                    &&& pp.view == old(self)@.log.view
                    &&& pp.sequence_number == old(self)@.sequence + 1
                    &&& pp.message == client_request
                    &&& pp.digest@ == operation_digest(client_request.operation@)
                    &&& final(self)@ == old(self)@.after_client_request(pp)
                },
    {
        let view = self.state.current_view();
        if self.primary(view) != self.local_id {
            return Err(Rejection::NotPrimary);
        }
        if self.pre_prepare_sequence.value() == u64::MAX {
            return Err(Rejection::OutOfWatermark);
        }
        self.pre_prepare_sequence.increment();
        let seq = self.pre_prepare_sequence.value();
        proof {
            self.pre_prepares_sent@ = self.pre_prepares_sent@.push(seq);
        }
        let pre_prepare = PrePrepare::from(view, seq, client_request);
        push_broadcast(&mut self.queued_events, &self.connected_peers, &Message::PrePrepare(pre_prepare.clone()));
        let ghost pp = pre_prepare;
        proof {
            lemma_covers_kept(old(self)@, self@);
        }
        let _ = self.process_pre_prepare(pre_prepare);
        assert(final(self)@ == old(self)@.after_client_request(pp));
        Ok(())
    }

    /// Handles an event reported by the handler of `peer_id`: each request
    /// is processed and answered on its connection with `OK` or `NG`; a
    /// response to one of this replica's requests changes nothing.
    pub fn inject_node_event(&mut self, peer_id: u64, handler_event: PbftHandlerEvent)
        requires
            old(self).wf(),
        ensures
            final(self).wf(),
            match handler_event {
                PbftHandlerEvent::ProcessPrePrepareRequest { request, connection_id } => exists|b: Vec<u8>| #![trigger b@]
                    b@ == response_of(old(self)@.pre_prepare_check(request.model())) && final(self)@
                        == old(self)@.after_pre_prepare(request).respond(
                        peer_id,
                        PbftHandlerIn::PrePrepareResponse(b, connection_id),
                    ),
                PbftHandlerEvent::ProcessPrepareRequest { request, connection_id } => exists|b: Vec<u8>| #![trigger b@]
                    b@ == response_of(old(self)@.prepare_result(peer_id, request)) && final(self)@
                        == old(self)@.after_prepare(peer_id, request).respond(
                        peer_id,
                        PbftHandlerIn::PrepareResponse(b, connection_id),
                    ),
                PbftHandlerEvent::ProcessCommitRequest { request, connection_id } => exists|b: Vec<u8>| #![trigger b@]
                    b@ == response_of(old(self)@.commit_result(peer_id, request)) && final(self)@
                        == old(self)@.after_commit(peer_id, request).respond(
                        peer_id,
                        PbftHandlerIn::CommitResponse(b, connection_id),
                    ),
                PbftHandlerEvent::Response { .. } => final(self)@ == old(self)@,
            },
    {
        match handler_event {
            PbftHandlerEvent::ProcessPrePrepareRequest { request, connection_id } => {
                let r = self.process_pre_prepare(request);
                let ghost mid = self@;
                let b = response_bytes(&r);
                self.queued_events.push_back(
                    NetworkBehaviourAction::SendEvent {
                        peer_id,
                        event: PbftHandlerIn::PrePrepareResponse(b, connection_id),
                    },
                );
                proof {
                    lemma_covers_kept(mid, self@);
                }
            },
            PbftHandlerEvent::ProcessPrepareRequest { request, connection_id } => {
                let r = self.process_prepare(peer_id, request);
                let ghost mid = self@;
                let b = response_bytes(&r);
                self.queued_events.push_back(
                    NetworkBehaviourAction::SendEvent { peer_id, event: PbftHandlerIn::PrepareResponse(b, connection_id) },
                );
                proof {
                    lemma_covers_kept(mid, self@);
                }
            },
            PbftHandlerEvent::ProcessCommitRequest { request, connection_id } => {
                let r = self.process_commit(peer_id, request);
                let ghost mid = self@;
                let b = response_bytes(&r);
                self.queued_events.push_back(
                    NetworkBehaviourAction::SendEvent { peer_id, event: PbftHandlerIn::CommitResponse(b, connection_id) },
                );
                proof {
                    lemma_covers_kept(mid, self@);
                }
            },
            PbftHandlerEvent::Response { .. } => {},
        }
    }
}

/// A pre-prepare for another view than the current one is refused and
/// changes nothing; with a valid digest the refusal is `WrongView`.
pub proof fn lemma_wrong_view_rejected(s: PbftView, pp: PrePrepare)
    requires
        pp.view != s.log.view,
    ensures
        s.pre_prepare_check(pp.model()) is Err,
        pp.model().digest_valid() ==> s.pre_prepare_check(pp.model()) == Err::<(), Rejection>(Rejection::WrongView),
        s.after_pre_prepare(pp) == s,
{
}

/// A pre-prepare whose digest is not that of its operation is refused with
/// `BadDigest` and changes nothing.
pub proof fn lemma_bad_digest_rejected_by_replica(s: PbftView, pp: PrePrepare)
    requires
        !pp.model().digest_valid(),
    ensures
        s.pre_prepare_check(pp.model()) == Err::<(), Rejection>(Rejection::BadDigest),
        s.after_pre_prepare(pp) == s,
{
}

/// A second pre-prepare at a logged view and sequence with another digest is
/// refused with `ConflictingPrePrepare` and changes nothing: the earlier one stays.
pub proof fn lemma_conflicting_pre_prepare_rejected_by_replica(s: PbftView, pp: PrePrepare)
    requires
        pp.model().digest_valid(),
        pp.view == s.log.view,
        s.log.pre_prepares.contains_key((pp.view, pp.sequence_number)),
        s.log.pre_prepares[(pp.view, pp.sequence_number)].digest != pp.digest@,
    ensures
        s.pre_prepare_check(pp.model()) == Err::<(), Rejection>(Rejection::ConflictingPrePrepare),
        s.after_pre_prepare(pp) == s,
{
}

/// An accepted pre-prepare for a slot with nothing logged yet is logged,
/// and this replica's own prepare for it is logged and broadcast.
pub proof fn lemma_fresh_pre_prepare(s: PbftView, pp: PrePrepare)
    requires
        s.wf(),
        s.pre_prepare_check(pp.model()) is Ok,
        !s.log.pre_prepares.contains_key((pp.view, pp.sequence_number)),
    ensures
        s.after_pre_prepare(pp).log.pre_prepares[(pp.view, pp.sequence_number)] == pp.model(),
        s.after_pre_prepare(pp).log.prepares.contains_key((pp.view, pp.sequence_number, s.local_id)),
        s.after_pre_prepare(pp).log.prepares[(pp.view, pp.sequence_number, s.local_id)] == pp.digest@,
        s.after_pre_prepare(pp).prepares_sent == s.prepares_sent.push((pp.view, pp.sequence_number)),
{
    let k = (pp.view, pp.sequence_number);
    assert(!s.prepares_sent.contains(k));
    assert(!s.log.prepares.contains_key((pp.view, pp.sequence_number, s.local_id)));
}

/// A pre-prepare delivered again leaves the log and the prepare broadcasts
/// as they were: at most one prepare is broadcast per view and sequence.
pub proof fn lemma_redelivered_pre_prepare(s: PbftView, pp: PrePrepare)
    requires
        s.wf(),
        s.log.pre_prepares.contains_key((pp.view, pp.sequence_number)),
        s.log.pre_prepares[(pp.view, pp.sequence_number)] == pp.model(),
    ensures
        s.after_pre_prepare(pp).log == s.log,
        s.after_pre_prepare(pp).prepares_sent == s.prepares_sent,
        s.after_pre_prepare(pp).commits_sent == s.commits_sent,
{
    let k = (pp.view, pp.sequence_number);
    assert(s.prepares_sent.contains(k));
    assert(s.log.with_pre_prepare(pp.model()) == s.log);
    assert(s.covers(k));
}

impl Pbft {
    /// What every state of the behaviour keeps: the sequence numbers this
    /// replica broadcast pre-prepares for strictly increase, so none repeats;
    /// it broadcast at most one prepare and one commit for each view and
    /// sequence, and reported each committed request once; it broadcast a
    /// prepare exactly for the pre-prepares it logged, and a commit for every
    /// logged slot that is prepared.
    pub proof fn lemma_broadcasts_unique(&self)
        requires
            self.wf(),
        ensures
            self@.wf(),
            forall|i: int, j: int|
                0 <= i < j < self@.pre_prepares_sent.len() ==> self@.pre_prepares_sent[i]
                    < self@.pre_prepares_sent[j],
            self@.pre_prepares_sent.no_duplicates(),
            self@.prepares_sent.no_duplicates(),
            self@.commits_sent.no_duplicates(),
            self@.executed.no_duplicates(),
            forall|k: (u64, u64)| #[trigger] self@.prepares_sent.contains(k) <==> self@.log.pre_prepares.contains_key(k),
            forall|k: (u64, u64)|
                #[trigger] self@.log.pre_prepares.contains_key(k) && self@.log.prepared(
                    k.0,
                    k.1,
                    self@.log.pre_prepares[k].digest,
                    self@.f(),
                    self@.primary(k.0),
                ) ==> self@.commits_sent.contains(k),
    {
        assert forall|k: (u64, u64)| #[trigger] self@.log.pre_prepares.contains_key(k) && self@.log.prepared(
            k.0,
            k.1,
            self@.log.pre_prepares[k].digest,
            self@.f(),
            self@.primary(k.0),
        ) implies self@.commits_sent.contains(k) by {
            assert(self@.covers(k));
        }
    }
}

} // verus!
