//! The message log of one replica and its current view.

use vstd::prelude::*;
use vstd::set_lib::*;
use crate::message::{Commit, PrePrepare, PrePrepareView, Prepare, Rejection, VoteView};

verus! {

/// One vote as the log keeps it: who sent it and for what.
struct Vote {
    sender: u64,
    view: u64,
    sequence_number: u64,
    digest: String,
}

impl Vote {
    spec fn key(&self) -> (u64, u64, u64) {
        (self.view, self.sequence_number, self.sender)
    }
}

/// The votes of one phase, at most one per sender at each view and sequence.
struct VoteLog {
    votes: Vec<Vote>,
    /// (view, sequence, sender) to the digest voted for.
    model: Ghost<Map<(u64, u64, u64), Seq<char>>>,
}

/// The senders that voted for `digest` at `view` and `seq` in `votes`,
/// leaving out those in `excluded`.
pub open spec fn voters_of(
    votes: Map<(u64, u64, u64), Seq<char>>,
    view: u64,
    seq: u64,
    digest: Seq<char>,
    excluded: Seq<u64>,
) -> Set<u64> {
    Set::new(
        |s: u64|
            votes.contains_key((view, seq, s)) && votes[(view, seq, s)] == digest && !excluded.contains(s),
    )
}

/// The senders that voted at `view` and `seq` in `votes`, for any digest.
pub open spec fn senders_of(votes: Map<(u64, u64, u64), Seq<char>>, view: u64, seq: u64) -> Set<u64> {
    Set::new(|s: u64| votes.contains_key((view, seq, s)))
}

/// Voter sets of a finite vote map are finite.
pub proof fn lemma_voters_finite(
    votes: Map<(u64, u64, u64), Seq<char>>,
    view: u64,
    seq: u64,
    digest: Seq<char>,
    excluded: Seq<u64>,
)
    requires
        votes.dom().finite(),
    ensures
        voters_of(votes, view, seq, digest, excluded).finite(),
        senders_of(votes, view, seq).finite(),
{
    let all = votes.dom().map(|k: (u64, u64, u64)| k.2);
    votes.dom().lemma_map_finite(|k: (u64, u64, u64)| k.2);
    assert(voters_of(votes, view, seq, digest, excluded).subset_of(all)) by {
        assert forall|s: u64| #[trigger] voters_of(votes, view, seq, digest, excluded).contains(s) implies all.contains(s) by {
            assert(votes.dom().contains((view, seq, s)));
        }
    }
    assert(senders_of(votes, view, seq).subset_of(all)) by {
        assert forall|s: u64| #[trigger] senders_of(votes, view, seq).contains(s) implies all.contains(s) by {
            assert(votes.dom().contains((view, seq, s)));
        }
    }
    lemma_set_subset_finite(all, voters_of(votes, view, seq, digest, excluded));
    lemma_set_subset_finite(all, senders_of(votes, view, seq));
}

fn contains_id(v: &Vec<u64>, x: u64) -> (r: bool)
    ensures
        r == v@.contains(x),
{
    let mut i: usize = 0;
    while i < v.len()
        invariant
            0 <= i <= v@.len(),
            forall|j: int| 0 <= j < i ==> v@[j] != x,
        decreases v@.len() - i,
    {
        if v[i] == x {
            return true;
        }
        i = i + 1;
    }
    false
}

impl VoteLog {
    spec fn wf(&self) -> bool {
        &&& forall|i: int|
            0 <= i < self.votes@.len() ==> #[trigger] self.model@.contains_key(self.votes@[i].key())
                && self.model@[self.votes@[i].key()] == self.votes@[i].digest@
        &&& forall|k: (u64, u64, u64)|
            #[trigger] self.model@.contains_key(k) ==> exists|i: int|
                0 <= i < self.votes@.len() && #[trigger] self.votes@[i].key() == k
        &&& forall|i: int, j: int|
            0 <= i < self.votes@.len() && 0 <= j < self.votes@.len() && i != j
                ==> #[trigger] self.votes@[i].key() != #[trigger] self.votes@[j].key()
    }

    fn new() -> (r: Self)
        ensures
            r.wf(),
            r.model@.dom().finite(),
            r.model@ == Map::<(u64, u64, u64), Seq<char>>::empty(),
    {
        VoteLog { votes: Vec::new(), model: Ghost(Map::empty()) }
    }

    /// The position of the vote of `sender` at `view` and `seq`.
    fn find(&self, sender: u64, view: u64, seq: u64) -> (r: Option<usize>)
        requires
            self.wf(),
        ensures
            match r {
                Some(i) => i < self.votes@.len() && self.votes@[i as int].key() == (view, seq, sender),
                None => !self.model@.contains_key((view, seq, sender)),
            },
    {
        let mut i: usize = 0;
        while i < self.votes.len()
            invariant
                self.wf(),
                0 <= i <= self.votes@.len(),
                forall|j: int| 0 <= j < i ==> #[trigger] self.votes@[j].key() != (view, seq, sender),
            decreases self.votes@.len() - i,
        {
            let v = &self.votes[i];
            if v.sender == sender && v.view == view && v.sequence_number == seq {
                return Some(i);
            }
            i = i + 1;
        }
        None
    }

    /// Records the vote of `sender` for `digest` at `view` and `seq`. A second
    /// vote of the same sender there must name the same digest.
    fn insert(&mut self, sender: u64, view: u64, seq: u64, digest: &String) -> (r: Result<(), Rejection>)
        requires
            old(self).wf(),
        ensures
            final(self).wf(),
            old(self).model@.dom().finite() ==> final(self).model@.dom().finite(),
            old(self).model@.contains_key((view, seq, sender)) && old(self).model@[(view, seq, sender)]
                != digest@ ==> r == Err::<(), Rejection>(Rejection::Equivocation) && final(self).model@
                == old(self).model@,
            !(old(self).model@.contains_key((view, seq, sender)) && old(self).model@[(view, seq, sender)]
                != digest@) ==> r == Ok::<(), Rejection>(()) && final(self).model@ == old(self).model@.insert(
                (view, seq, sender),
                digest@,
            ),
    {
        match self.find(sender, view, seq) {
            Some(i) => {
                if self.votes[i].digest == *digest {
                    assert(self.model@.insert((view, seq, sender), digest@) =~= self.model@);
                    Ok(())
                } else {
                    Err(Rejection::Equivocation)
                }
            },
            None => {
                let ghost old_votes = self.votes@;
                self.votes.push(Vote { sender, view, sequence_number: seq, digest: digest.clone() });
                self.model = Ghost(self.model@.insert((view, seq, sender), digest@));
                assert forall|k: (u64, u64, u64)| #[trigger] self.model@.contains_key(k) implies exists|i: int|
                    0 <= i < self.votes@.len() && #[trigger] self.votes@[i].key() == k by {
                    if k == (view, seq, sender) {
                        assert(self.votes@[old_votes.len() as int].key() == k);
                    } else {
                        assert(old_votes =~= self.votes@.subrange(0, old_votes.len() as int));
                        let i = choose|i: int| 0 <= i < old_votes.len() && #[trigger] old_votes[i].key() == k;
                        assert(self.votes@[i].key() == k);
                    }
                }
                Ok(())
            },
        }
    }

    /// The number of senders that voted at `view` and `seq`, for any digest.
    fn count(&self, view: u64, seq: u64) -> (r: usize)
        requires
            self.wf(),
        ensures
            senders_of(self.model@, view, seq).finite(),
            r == senders_of(self.model@, view, seq).len(),
    {
        let mut count: usize = 0;
        let ghost mut seen: Set<u64> = Set::empty();
        let mut i: usize = 0;
        while i < self.votes.len()
            invariant
                self.wf(),
                0 <= i <= self.votes@.len(),
                seen.finite(),
                count == seen.len(),
                count <= i,
                seen == Set::new(
                    |s: u64| exists|j: int| 0 <= j < i && #[trigger] self.votes@[j].key() == (view, seq, s),
                ),
            decreases self.votes@.len() - i,
        {
            let v = &self.votes[i];
            let ghost before = seen;
            if v.view == view && v.sequence_number == seq {
                proof {
                    if before.contains(v.sender) {
                        let j = choose|j: int| 0 <= j < i && #[trigger] self.votes@[j].key() == (view, seq, v.sender);
                        assert(self.votes@[j].key() == self.votes@[i as int].key());
                    }
                    seen = before.insert(v.sender);
                }
                count = count + 1;
            }
            i = i + 1;
            assert(seen =~= Set::new(
                |s: u64| exists|j: int| 0 <= j < i && #[trigger] self.votes@[j].key() == (view, seq, s),
            )) by {
                assert forall|s: u64| #[trigger] seen.contains(s) == (exists|j: int|
                    0 <= j < i && #[trigger] self.votes@[j].key() == (view, seq, s)) by {
                    if seen.contains(s) && !before.contains(s) {
                        assert(self.votes@[i - 1].key() == (view, seq, s));
                    }
                    if exists|j: int| 0 <= j < i && #[trigger] self.votes@[j].key() == (view, seq, s) {
                        let j = choose|j: int| 0 <= j < i && #[trigger] self.votes@[j].key() == (view, seq, s);
                        if j < i - 1 {
                            assert(before.contains(s));
                        }
                    }
                }
            }
        }
        assert(seen =~= senders_of(self.model@, view, seq)) by {
            assert forall|s: u64| #[trigger] senders_of(self.model@, view, seq).contains(s)
                implies seen.contains(s) by {
                let j = choose|j: int| 0 <= j < self.votes@.len() && #[trigger] self.votes@[j].key() == (view, seq, s);
            }
            assert forall|s: u64| seen.contains(s) implies #[trigger] senders_of(self.model@, view, seq).contains(s) by {
                let j = choose|j: int| 0 <= j < i && #[trigger] self.votes@[j].key() == (view, seq, s);
                assert(self.model@.contains_key(self.votes@[j].key()));
            }
        }
        count
    }

    /// The number of senders that voted for `digest` at `view` and `seq`,
    /// leaving out those in `excluded`.
    fn count_matching(&self, view: u64, seq: u64, digest: &String, excluded: &Vec<u64>) -> (r: usize)
        requires
            self.wf(),
        ensures
            voters_of(self.model@, view, seq, digest@, excluded@).finite(),
            r == voters_of(self.model@, view, seq, digest@, excluded@).len(),
    {
        let mut count: usize = 0;
        let ghost mut seen: Set<u64> = Set::empty();
        let mut i: usize = 0;
        while i < self.votes.len()
            invariant
                self.wf(),
                0 <= i <= self.votes@.len(),
                seen.finite(),
                count == seen.len(),
                count <= i,
                seen == Set::new(
                    |s: u64|
                        exists|j: int|
                            0 <= j < i && #[trigger] self.votes@[j].key() == (view, seq, s)
                                && self.votes@[j].digest@ == digest@ && !excluded@.contains(s),
                ),
            decreases self.votes@.len() - i,
        {
            let v = &self.votes[i];
            let ghost before = seen;
            if v.view == view && v.sequence_number == seq && v.digest == *digest && !contains_id(excluded, v.sender) {
                proof {
                    if before.contains(v.sender) {
                        let j = choose|j: int|
                            0 <= j < i && #[trigger] self.votes@[j].key() == (view, seq, v.sender)
                                && self.votes@[j].digest@ == digest@ && !excluded@.contains(v.sender);
                        assert(self.votes@[j].key() == self.votes@[i as int].key());
                    }
                    seen = before.insert(v.sender);
                }
                count = count + 1;
            }
            i = i + 1;
            assert(seen =~= Set::new(
                |s: u64|
                    exists|j: int|
                        0 <= j < i && #[trigger] self.votes@[j].key() == (view, seq, s)
                            && self.votes@[j].digest@ == digest@ && !excluded@.contains(s),
            )) by {
                assert forall|s: u64| #[trigger] seen.contains(s) == (exists|j: int|
                    0 <= j < i && #[trigger] self.votes@[j].key() == (view, seq, s)
                        && self.votes@[j].digest@ == digest@ && !excluded@.contains(s)) by {
                    if seen.contains(s) && !before.contains(s) {
                        assert(self.votes@[i - 1].key() == (view, seq, s));
                    }
                    if exists|j: int|
                        0 <= j < i && #[trigger] self.votes@[j].key() == (view, seq, s)
                            && self.votes@[j].digest@ == digest@ && !excluded@.contains(s) {
                        let j = choose|j: int|
                            0 <= j < i && #[trigger] self.votes@[j].key() == (view, seq, s)
                                && self.votes@[j].digest@ == digest@ && !excluded@.contains(s);
                        if j < i - 1 {
                            assert(before.contains(s));
                        }
                    }
                }
            }
        }
        assert(seen =~= voters_of(self.model@, view, seq, digest@, excluded@)) by {
            assert forall|s: u64| #[trigger] voters_of(self.model@, view, seq, digest@, excluded@).contains(s)
                implies seen.contains(s) by {
                let j = choose|j: int| 0 <= j < self.votes@.len() && #[trigger] self.votes@[j].key() == (view, seq, s);
                assert(self.model@.contains_key(self.votes@[j].key()));
            }
            assert forall|s: u64| seen.contains(s) implies #[trigger] voters_of(self.model@, view, seq, digest@, excluded@).contains(s) by {
                let j = choose|j: int|
                    0 <= j < i && #[trigger] self.votes@[j].key() == (view, seq, s)
                        && self.votes@[j].digest@ == digest@ && !excluded@.contains(s);
                assert(self.model@.contains_key(self.votes@[j].key()));
            }
        }
        count
    }
}

/// The abstract value of a replica's log.
pub struct LogView {
    /// The current view.
    pub view: u64,
    /// (view, sequence) to the pre-prepare logged there.
    pub pre_prepares: Map<(u64, u64), PrePrepareView>,
    /// (view, sequence, sender) to the digest of the sender's prepare.
    pub prepares: Map<(u64, u64, u64), Seq<char>>,
    /// (view, sequence, sender) to the digest of the sender's commit.
    pub commits: Map<(u64, u64, u64), Seq<char>>,
}

impl LogView {
    /// What holds of every log: each pre-prepare is filed under its own view
    /// and sequence and carries the digest of its operation, and the vote
    /// maps are finite.
    pub open spec fn wf(self) -> bool {
        &&& forall|k: (u64, u64)| #[trigger] self.pre_prepares.contains_key(k) ==> {
            &&& self.pre_prepares[k].digest_valid()
            &&& self.pre_prepares[k].view == k.0
            &&& self.pre_prepares[k].sequence_number == k.1
        }
        &&& self.prepares.dom().finite()
        &&& self.commits.dom().finite()
    }

    /// A pre-prepare for `digest` is logged at `view` and `seq`.
    pub open spec fn pre_prepared(self, view: u64, seq: u64, digest: Seq<char>) -> bool {
        self.pre_prepares.contains_key((view, seq)) && self.pre_prepares[(view, seq)].digest == digest
    }

    /// The replicas other than `primary` whose prepare for `digest` at
    /// `view` and `seq` is logged.
    pub open spec fn prepare_voters(self, view: u64, seq: u64, digest: Seq<char>, primary: u64) -> Set<u64> {
        voters_of(self.prepares, view, seq, digest, seq![primary])
    }

    /// The replicas whose commit for `digest` at `view` and `seq` is logged.
    pub open spec fn commit_voters(self, view: u64, seq: u64, digest: Seq<char>) -> Set<u64> {
        voters_of(self.commits, view, seq, digest, Seq::empty())
    }

    /// The log holds the pre-prepare and at least `2f` matching prepares
    /// from distinct replicas other than the primary.
    pub open spec fn prepared(self, view: u64, seq: u64, digest: Seq<char>, f: nat, primary: u64) -> bool {
        self.pre_prepared(view, seq, digest) && self.prepare_voters(view, seq, digest, primary).len() >= 2 * f
    }

    /// The log is prepared and holds at least `2f + 1` matching commits.
    pub open spec fn committed_local(
        self,
        view: u64,
        seq: u64,
        digest: Seq<char>,
        f: nat,
        primary: u64,
    ) -> bool {
        self.prepared(view, seq, digest, f, primary) && self.commit_voters(view, seq, digest).len() >= 2 * f + 1
    }

    /// What inserting `pp` answers: `BadDigest` when its digest is not that of
    /// its operation, `ConflictingPrePrepare` when another digest is logged
    /// at its view and sequence.
    pub open spec fn pre_prepare_check(self, pp: PrePrepareView) -> Result<(), Rejection> {
        let k = (pp.view, pp.sequence_number);
        if !pp.digest_valid() {
            Err(Rejection::BadDigest)
        } else if self.pre_prepares.contains_key(k) && self.pre_prepares[k].digest != pp.digest {
            Err(Rejection::ConflictingPrePrepare)
        } else {
            Ok(())
        }
    }

    /// The log after inserting `pp`: it is added where it is accepted and
    /// nothing is logged at its view and sequence yet.
    pub open spec fn with_pre_prepare(self, pp: PrePrepareView) -> LogView {
        let k = (pp.view, pp.sequence_number);
        if self.pre_prepare_check(pp) is Ok && !self.pre_prepares.contains_key(k) {
            LogView {
                view: self.view,
                pre_prepares: self.pre_prepares.insert(k, pp),
                prepares: self.prepares,
                commits: self.commits,
            }
        } else {
            self
        }
    }

    /// What inserting the vote of `sender` into `votes` answers: a sender
    /// that voted for another digest at the same view and sequence is
    /// equivocating.
    pub open spec fn vote_check(votes: Map<(u64, u64, u64), Seq<char>>, sender: u64, vote: VoteView) -> Result<
        (),
        Rejection,
    > {
        let k = (vote.view, vote.sequence_number, sender);
        if votes.contains_key(k) && votes[k] != vote.digest {
            Err(Rejection::Equivocation)
        } else {
            Ok(())
        }
    }

    /// `votes` after inserting the vote of `sender`.
    pub open spec fn with_vote(votes: Map<(u64, u64, u64), Seq<char>>, sender: u64, vote: VoteView) -> Map<
        (u64, u64, u64),
        Seq<char>,
    > {
        if Self::vote_check(votes, sender, vote) is Ok {
            votes.insert((vote.view, vote.sequence_number, sender), vote.digest)
        } else {
            votes
        }
    }

    /// The log after inserting the prepare of `sender`.
    pub open spec fn with_prepare(self, sender: u64, vote: VoteView) -> LogView {
        LogView {
            view: self.view,
            pre_prepares: self.pre_prepares,
            prepares: Self::with_vote(self.prepares, sender, vote),
            commits: self.commits,
        }
    }

    /// The log after inserting the commit of `sender`.
    pub open spec fn with_commit(self, sender: u64, vote: VoteView) -> LogView {
        LogView {
            view: self.view,
            pre_prepares: self.pre_prepares,
            prepares: self.prepares,
            commits: Self::with_vote(self.commits, sender, vote),
        }
    }

    /// `next` keeps everything this log holds: logged messages are never
    /// changed or removed, and the view stays.
    pub open spec fn grows_to(self, next: LogView) -> bool {
        &&& next.view == self.view
        &&& self.pre_prepares.submap_of(next.pre_prepares)
        &&& self.prepares.submap_of(next.prepares)
        &&& self.commits.submap_of(next.commits)
    }
}

/// The pre-prepares, prepares and commits a replica has accepted, and its
/// current view.
pub struct State {
    current_view: u64,
    pre_prepares: Vec<PrePrepare>,
    pre_prepare_log: Ghost<Map<(u64, u64), PrePrepareView>>,
    prepares: VoteLog,
    commits: VoteLog,
}

impl View for State {
    type V = LogView;

    closed spec fn view(&self) -> LogView {
        LogView {
            view: self.current_view,
            pre_prepares: self.pre_prepare_log@,
            prepares: self.prepares.model@,
            commits: self.commits.model@,
        }
    }
}

impl State {
    /// The internal invariant: the stored messages are exactly those of the model.
    pub closed spec fn wf(&self) -> bool {
        &&& self@.wf()
        &&& self.prepares.wf()
        &&& self.commits.wf()
        &&& forall|i: int|
            0 <= i < self.pre_prepares@.len() ==> #[trigger] self.pre_prepare_log@.contains_key(
                (self.pre_prepares@[i].view, self.pre_prepares@[i].sequence_number),
            ) && self.pre_prepare_log@[(self.pre_prepares@[i].view, self.pre_prepares@[i].sequence_number)]
                == self.pre_prepares@[i].model()
        &&& forall|k: (u64, u64)|
            #[trigger] self.pre_prepare_log@.contains_key(k) ==> exists|i: int|
                0 <= i < self.pre_prepares@.len() && #[trigger] self.pre_prepares@[i].view == k.0
                    && self.pre_prepares@[i].sequence_number == k.1
    }

    /// An empty log at view 0.
    pub fn new() -> (r: Self)
        ensures
            r.wf(),
            r@.view == 0,
            r@.pre_prepares == Map::<(u64, u64), PrePrepareView>::empty(),
            r@.prepares == Map::<(u64, u64, u64), Seq<char>>::empty(),
            r@.commits == Map::<(u64, u64, u64), Seq<char>>::empty(),
    {
        State {
            current_view: 0,
            pre_prepares: Vec::new(),
            pre_prepare_log: Ghost(Map::empty()),
            prepares: VoteLog::new(),
            commits: VoteLog::new(),
        }
    }

    pub fn current_view(&self) -> (r: u64)
        ensures
            r == self@.view,
    {
        self.current_view
    }

    fn find_pre_prepare(&self, view: u64, seq: u64) -> (r: Option<usize>)
        requires
            self.wf(),
        ensures
            match r {
                Some(i) => i < self.pre_prepares@.len() && self@.pre_prepares.contains_key((view, seq))
                    && self.pre_prepares@[i as int].model() == self@.pre_prepares[(view, seq)],
                None => !self@.pre_prepares.contains_key((view, seq)),
            },
    {
        let mut i: usize = 0;
        while i < self.pre_prepares.len()
            invariant
                self.wf(),
                0 <= i <= self.pre_prepares@.len(),
                forall|j: int|
                    0 <= j < i ==> !(#[trigger] self.pre_prepares@[j].view == view
                        && self.pre_prepares@[j].sequence_number == seq),
            decreases self.pre_prepares@.len() - i,
        {
            let p = &self.pre_prepares[i];
            if p.view == view && p.sequence_number == seq {
                return Some(i);
            }
            i = i + 1;
        }
        None
    }

    /// The pre-prepare logged at `view` and `sequence_number`.
    pub fn get_pre_prepare_by_key(&self, view: u64, sequence_number: u64) -> (r: Option<&PrePrepare>)
        requires
            self.wf(),
        ensures
            match r {
                Some(p) => self@.pre_prepares.contains_key((view, sequence_number))
                    && p.model() == self@.pre_prepares[(view, sequence_number)],
                None => !self@.pre_prepares.contains_key((view, sequence_number)),
            },
    {
        match self.find_pre_prepare(view, sequence_number) {
            Some(i) => Some(&self.pre_prepares[i]),
            None => None,
        }
    }

    /// The pre-prepare logged at the view and sequence of `pre_prepare`.
    pub fn get_pre_prepare(&self, pre_prepare: &PrePrepare) -> (r: Option<&PrePrepare>)
        requires
            self.wf(),
        ensures
            match r {
                Some(p) => self@.pre_prepares.contains_key((pre_prepare.view, pre_prepare.sequence_number))
                    && p.model() == self@.pre_prepares[(pre_prepare.view, pre_prepare.sequence_number)],
                None => !self@.pre_prepares.contains_key((pre_prepare.view, pre_prepare.sequence_number)),
            },
    {
        self.get_pre_prepare_by_key(pre_prepare.view, pre_prepare.sequence_number)
    }

    /// Logs `pre_prepare`. It is refused with `BadDigest` when its digest is not
    /// that of its operation, and with `ConflictingPrePrepare` when another
    /// digest is logged at its view and sequence; inserting again what is
    /// logged changes nothing.
    pub fn insert_pre_prepare(&mut self, pre_prepare: PrePrepare) -> (r: Result<(), Rejection>)
        requires
            old(self).wf(),
        ensures
            final(self).wf(),
            r == old(self)@.pre_prepare_check(pre_prepare.model()),
            final(self)@ == old(self)@.with_pre_prepare(pre_prepare.model()),
            old(self)@.grows_to(final(self)@),
    {
        if pre_prepare.validate_digest().is_err() {
            return Err(Rejection::BadDigest);
        }
        match self.find_pre_prepare(pre_prepare.view, pre_prepare.sequence_number) {
            Some(i) => {
                if self.pre_prepares[i].digest == pre_prepare.digest {
                    Ok(())
                } else {
                    Err(Rejection::ConflictingPrePrepare)
                }
            },
            None => {
                let ghost k = (pre_prepare.view, pre_prepare.sequence_number);
                let ghost m = pre_prepare.model();
                let ghost old_pps = self.pre_prepares@;
                self.pre_prepares.push(pre_prepare);
                self.pre_prepare_log = Ghost(self.pre_prepare_log@.insert(k, m));
                assert forall|k2: (u64, u64)| #[trigger] self.pre_prepare_log@.contains_key(k2) implies exists|i: int|
                    0 <= i < self.pre_prepares@.len() && #[trigger] self.pre_prepares@[i].view == k2.0
                        && self.pre_prepares@[i].sequence_number == k2.1 by {
                    if k2 == k {
                        assert(self.pre_prepares@[old_pps.len() as int].view == k2.0);
                    } else {
                        let i = choose|i: int|
                            0 <= i < old_pps.len() && #[trigger] old_pps[i].view == k2.0
                                && old_pps[i].sequence_number == k2.1;
                        assert(self.pre_prepares@[i] == old_pps[i]);
                    }
                }
                assert forall|i: int| 0 <= i < self.pre_prepares@.len() implies #[trigger] self.pre_prepare_log@.contains_key(
                    (self.pre_prepares@[i].view, self.pre_prepares@[i].sequence_number),
                ) && self.pre_prepare_log@[(self.pre_prepares@[i].view, self.pre_prepares@[i].sequence_number)]
                    == self.pre_prepares@[i].model() by {
                    if i < old_pps.len() {
                        assert(self.pre_prepares@[i] == old_pps[i]);
                    }
                }
                Ok(())
            },
        }
    }

    /// Logs the prepare of `peer_id`. A second prepare of the same sender at
    /// the same view and sequence with another digest is refused with
    /// `Equivocation`.
    pub fn insert_prepare(&mut self, peer_id: u64, prepare: &Prepare) -> (r: Result<(), Rejection>)
        requires
            old(self).wf(),
        ensures
            final(self).wf(),
            r == LogView::vote_check(old(self)@.prepares, peer_id, prepare.model()),
            final(self)@ == old(self)@.with_prepare(peer_id, prepare.model()),
            old(self)@.grows_to(final(self)@),
    {
        self.prepares.insert(peer_id, prepare.view, prepare.sequence_number, &prepare.digest)
    }

    /// Logs the commit of `peer_id`, as `insert_prepare` does for prepares.
    pub fn insert_commit(&mut self, peer_id: u64, commit: &Commit) -> (r: Result<(), Rejection>)
        requires
            old(self).wf(),
        ensures
            final(self).wf(),
            r == LogView::vote_check(old(self)@.commits, peer_id, commit.model()),
            final(self)@ == old(self)@.with_commit(peer_id, commit.model()),
            old(self)@.grows_to(final(self)@),
    {
        self.commits.insert(peer_id, commit.view, commit.sequence_number, &commit.digest)
    }

    /// The number of senders whose prepare at `view` and `sequence_number` is logged.
    pub fn prepare_len(&self, view: u64, sequence_number: u64) -> (r: usize)
        requires
            self.wf(),
        ensures
            r == senders_of(self@.prepares, view, sequence_number).len(),
    {
        self.prepares.count(view, sequence_number)
    }

    /// The number of senders whose commit at `view` and `sequence_number` is logged.
    pub fn commit_len(&self, view: u64, sequence_number: u64) -> (r: usize)
        requires
            self.wf(),
        ensures
            r == senders_of(self@.commits, view, sequence_number).len(),
    {
        self.commits.count(view, sequence_number)
    }

    /// Whether the log is prepared for `digest` at `view` and
    /// `sequence_number`, with `f` faulty replicas tolerated and `primary`
    /// the primary of `view`.
    pub fn is_prepared(&self, view: u64, sequence_number: u64, digest: &String, f: u64, primary: u64) -> (r: bool)
        requires
            self.wf(),
        ensures
            r == self@.prepared(view, sequence_number, digest@, f as nat, primary),
    {
        let logged = match self.find_pre_prepare(view, sequence_number) {
            Some(i) => self.pre_prepares[i].digest == *digest,
            None => false,
        };
        if !logged {
            return false;
        }
        let mut excluded: Vec<u64> = Vec::new();
        excluded.push(primary);
        assert(excluded@ =~= seq![primary]);
        let votes = self.prepares.count_matching(view, sequence_number, digest, &excluded);
        votes as u128 >= 2 * (f as u128)
    }

    /// Whether the log is committed-local for `digest` at `view` and
    /// `sequence_number`, with `f` and `primary` as for `is_prepared`.
    pub fn is_committed_local(
        &self,
        view: u64,
        sequence_number: u64,
        digest: &String,
        f: u64,
        primary: u64,
    ) -> (r: bool)
        requires
            self.wf(),
        ensures
            r == self@.committed_local(view, sequence_number, digest@, f as nat, primary),
    {
        if !self.is_prepared(view, sequence_number, digest, f, primary) {
            return false;
        }
        let none: Vec<u64> = Vec::new();
        assert(none@ =~= Seq::<u64>::empty());
        let votes = self.commits.count_matching(view, sequence_number, digest, &none);
        votes as u128 >= 2 * (f as u128) + 1
    }
}

impl State {
    /// Every logged pre-prepare carries the digest of its own operation, and
    /// is filed under its own view and sequence.
    pub proof fn lemma_logged_digests_valid(&self)
        requires
            self.wf(),
        ensures
            self@.wf(),
            forall|k: (u64, u64)| #[trigger] self@.pre_prepares.contains_key(k) ==> self@.pre_prepares[k].digest_valid(),
    {
    }
}

/// Once prepared, a log stays prepared as it grows.
pub proof fn lemma_prepared_monotone(
    before: LogView,
    after: LogView,
    view: u64,
    seq: u64,
    digest: Seq<char>,
    f: nat,
    primary: u64,
)
    requires
        before.wf(),
        after.wf(),
        before.grows_to(after),
        before.prepared(view, seq, digest, f, primary),
    ensures
        after.prepared(view, seq, digest, f, primary),
{
    lemma_voters_finite(after.prepares, view, seq, digest, seq![primary]);
    assert(before.prepare_voters(view, seq, digest, primary).subset_of(after.prepare_voters(view, seq, digest, primary)));
    lemma_len_subset(before.prepare_voters(view, seq, digest, primary), after.prepare_voters(view, seq, digest, primary));
}

/// Once committed-local, a log stays committed-local as it grows.
pub proof fn lemma_committed_local_monotone(
    before: LogView,
    after: LogView,
    view: u64,
    seq: u64,
    digest: Seq<char>,
    f: nat,
    primary: u64,
)
    requires
        before.wf(),
        after.wf(),
        before.grows_to(after),
        before.committed_local(view, seq, digest, f, primary),
    ensures
        after.committed_local(view, seq, digest, f, primary),
{
    lemma_prepared_monotone(before, after, view, seq, digest, f, primary);
    lemma_voters_finite(after.commits, view, seq, digest, Seq::empty());
    assert(before.commit_voters(view, seq, digest).subset_of(after.commit_voters(view, seq, digest)));
    lemma_len_subset(before.commit_voters(view, seq, digest), after.commit_voters(view, seq, digest));
}

/// Inserting the same pre-prepare twice leaves the log as one insert does,
/// and the second insert answers as the first.
pub proof fn lemma_insert_pre_prepare_idempotent(log: LogView, pp: PrePrepareView)
    ensures
        log.with_pre_prepare(pp).with_pre_prepare(pp) == log.with_pre_prepare(pp),
        log.with_pre_prepare(pp).pre_prepare_check(pp) == log.pre_prepare_check(pp),
{
}

/// A pre-prepare whose digest is not that of its operation is refused with
/// `BadDigest` and leaves the log as it was.
pub proof fn lemma_bad_digest_rejected(log: LogView, pp: PrePrepareView)
    requires
        !pp.digest_valid(),
    ensures
        log.pre_prepare_check(pp) == Err::<(), Rejection>(Rejection::BadDigest),
        log.with_pre_prepare(pp) == log,
{
}

/// A second pre-prepare at a view and sequence with another digest is
/// refused; the log, and the pre-prepare logged there, stay as they were.
pub proof fn lemma_conflicting_pre_prepare_rejected(log: LogView, pp: PrePrepareView)
    requires
        pp.digest_valid(),
        log.pre_prepares.contains_key((pp.view, pp.sequence_number)),
        log.pre_prepares[(pp.view, pp.sequence_number)].digest != pp.digest,
    ensures
        log.pre_prepare_check(pp) == Err::<(), Rejection>(Rejection::ConflictingPrePrepare),
        log.with_pre_prepare(pp) == log,
{
}

/// A prepare is accepted whether or not its pre-prepare is logged yet; when
/// the matching pre-prepare arrives after a quorum of such prepares, the log
/// becomes prepared.
pub proof fn lemma_early_prepares_promote(log: LogView, pp: PrePrepareView, f: nat, primary: u64)
    requires
        log.wf(),
        pp.digest_valid(),
        !log.pre_prepares.contains_key((pp.view, pp.sequence_number)),
        log.prepare_voters(pp.view, pp.sequence_number, pp.digest, primary).len() >= 2 * f,
    ensures
        log.pre_prepare_check(pp) is Ok,
        log.with_pre_prepare(pp).prepared(pp.view, pp.sequence_number, pp.digest, f, primary),
{
}

/// A sender's logged vote is never replaced: each (view, sequence) bucket
/// holds at most one vote per sender, and a second vote of the same sender
/// for another digest is refused.
pub proof fn lemma_one_vote_per_sender(votes: Map<(u64, u64, u64), Seq<char>>, sender: u64, vote: VoteView)
    ensures
        votes.contains_key((vote.view, vote.sequence_number, sender)) ==> LogView::with_vote(votes, sender, vote)[(
            vote.view,
            vote.sequence_number,
            sender,
        )] == votes[(vote.view, vote.sequence_number, sender)],
        votes.contains_key((vote.view, vote.sequence_number, sender)) && votes[(vote.view, vote.sequence_number, sender)]
            != vote.digest ==> LogView::vote_check(votes, sender, vote) == Err::<(), Rejection>(Rejection::Equivocation),
        votes.submap_of(LogView::with_vote(votes, sender, vote)),
{
}

/// Whether a prepare is accepted does not depend on the pre-prepares logged.
pub proof fn lemma_prepare_accepted_without_pre_prepare(log: LogView, sender: u64, vote: VoteView)
    requires
        !log.prepares.contains_key((vote.view, vote.sequence_number, sender)),
    ensures
        LogView::vote_check(log.prepares, sender, vote) is Ok,
        log.with_prepare(sender, vote).prepares.contains_key((vote.view, vote.sequence_number, sender)),
        log.with_prepare(sender, vote).pre_prepares == log.pre_prepares,
{
}

/// Quorum intersection: two logs, of replicas drawn from `replicas` with at
/// most `f` faulty among them and at most `3f + 1` replicas in all, that are both
/// committed-local at the same view and sequence name the same digest, as
/// long as a non-faulty replica's commit reads the same in both logs.
pub proof fn lemma_committed_digests_agree(
    a: LogView,
    b: LogView,
    replicas: Set<u64>,
    faulty: Set<u64>,
    view: u64,
    seq: u64,
    digest_a: Seq<char>,
    digest_b: Seq<char>,
    f: nat,
    primary: u64,
)
    requires
        a.wf(),
        b.wf(),
        replicas.finite(),
        replicas.len() <= 3 * f + 1,
        faulty.finite(),
        faulty.len() <= f,
        a.commit_voters(view, seq, digest_a).subset_of(replicas),
        b.commit_voters(view, seq, digest_b).subset_of(replicas),
        forall|r: u64|
            !faulty.contains(r) && a.commits.contains_key((view, seq, r)) && #[trigger] b.commits.contains_key(
                (view, seq, r),
            ) ==> a.commits[(view, seq, r)] == b.commits[(view, seq, r)],
        a.committed_local(view, seq, digest_a, f, primary),
        b.committed_local(view, seq, digest_b, f, primary),
    ensures
        digest_a == digest_b,
{
    let va = a.commit_voters(view, seq, digest_a);
    let vb = b.commit_voters(view, seq, digest_b);
    lemma_voters_finite(a.commits, view, seq, digest_a, Seq::empty());
    lemma_voters_finite(b.commits, view, seq, digest_b, Seq::empty());
    lemma_set_intersect_union_lens(va, vb);
    lemma_len_subset(va + vb, replicas);
    let both = va.intersect(vb);
    lemma_set_difference_len(both, faulty);
    lemma_len_intersect(both, faulty);
    assert(both.intersect(faulty).len() <= faulty.len()) by {
        lemma_len_subset(both.intersect(faulty), faulty);
    }
    let honest = both.difference(faulty);
    assert(honest.len() > 0);
    axiom_is_empty_len0(honest);
    let r = choose|r: u64| honest.contains(r);
    assert(b.commits.contains_key((view, seq, r)));
}

} // verus!
