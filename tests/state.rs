use pbft::message::{digest, ClientRequest, Commit, PrePrepare, Prepare, Rejection};
use pbft::state::State;

fn pre_prepare(op: &str, seq: u64) -> PrePrepare {
    PrePrepare::from(0, seq, ClientRequest::new(op.to_string(), 42, None))
}

#[test]
fn new_log_is_empty_at_view_zero() {
    let s = State::new();
    assert_eq!(s.current_view(), 0);
    assert!(s.get_pre_prepare_by_key(0, 1).is_none());
    assert_eq!(s.prepare_len(0, 1), 0);
    assert_eq!(s.commit_len(0, 1), 0);
}

#[test]
fn inserting_the_same_pre_prepare_twice_is_one_insert() {
    let mut s = State::new();
    let pp = pre_prepare("x", 1);
    assert_eq!(s.insert_pre_prepare(pp.clone()), Ok(()));
    assert_eq!(s.insert_pre_prepare(pp.clone()), Ok(()));
    let stored = s.get_pre_prepare(&pp).unwrap();
    assert_eq!(stored.digest, pp.digest);
    assert!(s.get_pre_prepare_by_key(0, 2).is_none());
}

#[test]
fn conflicting_pre_prepare_is_refused_and_the_first_stays() {
    let mut s = State::new();
    assert_eq!(s.insert_pre_prepare(pre_prepare("x", 1)), Ok(()));
    assert_eq!(s.insert_pre_prepare(pre_prepare("y", 1)), Err(Rejection::ConflictingPrePrepare));
    assert_eq!(s.get_pre_prepare_by_key(0, 1).unwrap().digest, digest(b"x"));
}

#[test]
fn pre_prepare_with_wrong_digest_is_not_logged() {
    let mut s = State::new();
    let mut pp = pre_prepare("x", 1);
    pp.message.operation = "z".to_string();
    assert_eq!(s.insert_pre_prepare(pp), Err(Rejection::BadDigest));
    assert!(s.get_pre_prepare_by_key(0, 1).is_none());
}

#[test]
fn one_prepare_per_sender_and_slot() {
    let mut s = State::new();
    let p = Prepare::from(&pre_prepare("x", 1));
    let other = Prepare::from(&pre_prepare("y", 1));
    assert_eq!(s.insert_prepare(2, &p), Ok(()));
    assert_eq!(s.insert_prepare(2, &p), Ok(()));
    assert_eq!(s.prepare_len(0, 1), 1);
    assert_eq!(s.insert_prepare(2, &other), Err(Rejection::Equivocation));
    assert_eq!(s.prepare_len(0, 1), 1);
    assert_eq!(s.insert_prepare(3, &other), Ok(()));
    assert_eq!(s.prepare_len(0, 1), 2);
}

#[test]
fn one_commit_per_sender_and_slot() {
    let mut s = State::new();
    let c = Commit::from(&Prepare::from(&pre_prepare("x", 1)));
    let other = Commit::from(&Prepare::from(&pre_prepare("y", 1)));
    assert_eq!(s.insert_commit(1, &c), Ok(()));
    assert_eq!(s.insert_commit(1, &other), Err(Rejection::Equivocation));
    assert_eq!(s.insert_commit(2, &c), Ok(()));
    assert_eq!(s.commit_len(0, 1), 2);
    assert_eq!(s.commit_len(0, 2), 0);
}

#[test]
fn prepares_before_the_pre_prepare_count_once_it_arrives() {
    let mut s = State::new();
    let pp = pre_prepare("x", 1);
    let p = Prepare::from(&pp);
    // primary 0 and f = 1: the prepares of 2 and 3 make the quorum
    for sender in [0u64, 2, 3] {
        assert_eq!(s.insert_prepare(sender, &p), Ok(()));
    }
    assert!(!s.is_prepared(0, 1, &pp.digest, 1, 0));
    assert_eq!(s.insert_pre_prepare(pp.clone()), Ok(()));
    assert!(s.is_prepared(0, 1, &pp.digest, 1, 0));
}

#[test]
fn prepared_ignores_the_primary() {
    let mut s = State::new();
    let pp = pre_prepare("x", 1);
    let p = Prepare::from(&pp);
    s.insert_pre_prepare(pp.clone()).unwrap();
    s.insert_prepare(0, &p).unwrap();
    s.insert_prepare(1, &p).unwrap();
    assert!(!s.is_prepared(0, 1, &pp.digest, 1, 0));
    s.insert_prepare(2, &p).unwrap();
    assert!(s.is_prepared(0, 1, &pp.digest, 1, 0));
    assert!(!s.is_prepared(0, 1, &digest(b"y"), 1, 0));
}

#[test]
fn prepared_stays_prepared_as_the_log_grows() {
    let mut s = State::new();
    let pp = pre_prepare("x", 1);
    let p = Prepare::from(&pp);
    s.insert_pre_prepare(pp.clone()).unwrap();
    s.insert_prepare(2, &p).unwrap();
    s.insert_prepare(3, &p).unwrap();
    assert!(s.is_prepared(0, 1, &pp.digest, 1, 0));
    s.insert_prepare(2, &Prepare::from(&pre_prepare("y", 1))).unwrap_err();
    s.insert_pre_prepare(pre_prepare("y", 1)).unwrap_err();
    s.insert_pre_prepare(pre_prepare("z", 2)).unwrap();
    s.insert_commit(3, &Commit::from(&p)).unwrap();
    assert!(s.is_prepared(0, 1, &pp.digest, 1, 0));
}

#[test]
fn committed_local_needs_two_f_plus_one_commits() {
    let mut s = State::new();
    let pp = pre_prepare("x", 1);
    let p = Prepare::from(&pp);
    let c = Commit::from(&p);
    s.insert_pre_prepare(pp.clone()).unwrap();
    s.insert_prepare(2, &p).unwrap();
    s.insert_prepare(3, &p).unwrap();
    s.insert_commit(1, &c).unwrap();
    s.insert_commit(2, &c).unwrap();
    assert!(!s.is_committed_local(0, 1, &pp.digest, 1, 0));
    s.insert_commit(0, &c).unwrap();
    assert!(s.is_committed_local(0, 1, &pp.digest, 1, 0));
}
