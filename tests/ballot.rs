use trust_ballot::{
    BatchOperation, Candidate, ElectionState, ErrorKind, Event, Identity, Operation, TrustBallot,
    VotingMethod,
};

fn id(n: u64) -> Identity {
    Identity { w0: n, w1: 0, w2: 0, w3: 0 }
}

fn s(t: &str) -> String {
    t.to_string()
}

const OWNER: u64 = 1;

/// A ballot whose owner is bound, with voting open.
fn open_ballot() -> TrustBallot {
    let mut b = TrustBallot::new();
    b.start_election(id(OWNER)).unwrap();
    b
}

fn add(b: &mut TrustBallot, name: &str) -> u64 {
    match b.add_candidate(id(OWNER), s(name), s("")).unwrap() {
        Event::CandidateAdded { id, .. } => id,
        other => panic!("unexpected event {:?}", other),
    }
}

/// Registers `n` fresh voters starting at identity `first` and has each
/// vote for `candidate`.
fn cast(b: &mut TrustBallot, first: u64, n: u64, candidate: u64) {
    for k in first..first + n {
        b.register_voter(id(OWNER), id(k), format!("v{}", k), s("")).unwrap();
        b.vote(id(k), candidate).unwrap();
    }
}

fn pct(votes: u64, total: u64) -> f64 {
    if total > 0 {
        votes as f64 / total as f64 * 100.0
    } else {
        0.0
    }
}

#[test]
fn new_ballot_is_empty() {
    let b = TrustBallot::new();
    assert_eq!(b.get_state(), ElectionState::Created);
    assert_eq!(b.get_voting_method(), VotingMethod::Simple);
    assert!(b.get_all_candidates().is_empty());
    assert!(b.get_all_voters().is_empty());
    assert!(!b.is_owner(id(OWNER)));
    assert!(b.get_winner().is_none());
    assert!(b.get_audit_trail(None).is_empty());
}

#[test]
fn first_gated_caller_becomes_owner_for_good() {
    let mut b = TrustBallot::new();
    assert_eq!(b.add_candidate(id(7), s("A"), s("")).map(|_| ()), Ok(()));
    assert!(b.is_owner(id(7)));
    assert_eq!(b.add_candidate(id(8), s("B"), s("")).map(|_| ()), Err(ErrorKind::Unauthorized));
    assert_eq!(b.start_election(id(8)).map(|_| ()), Err(ErrorKind::Unauthorized));
    assert_eq!(b.end_election(id(8)).map(|_| ()), Err(ErrorKind::Unauthorized));
    assert_eq!(
        b.register_voter(id(8), id(9), s("x"), s("")).map(|_| ()),
        Err(ErrorKind::Unauthorized)
    );
    assert_eq!(b.create_election(id(8), s("e"), 0), Err(ErrorKind::Unauthorized));
    assert_eq!(b.set_voting_method(id(8), VotingMethod::Approval), Err(ErrorKind::Unauthorized));
    assert!(b.is_owner(id(7)));
    assert!(!b.is_owner(id(8)));
    assert_eq!(b.get_all_candidates().len(), 1);
}

#[test]
fn failed_gated_call_binds_no_owner() {
    let mut b = TrustBallot::new();
    assert_eq!(b.end_election(id(5)).map(|_| ()), Err(ErrorKind::InvalidState));
    assert!(!b.is_owner(id(5)));
    b.start_election(id(6)).unwrap();
    assert!(b.is_owner(id(6)));
}

#[test]
fn ensure_owner_binds_once() {
    let mut b = TrustBallot::new();
    assert_eq!(b.ensure_owner(id(3)), id(3));
    assert_eq!(b.ensure_owner(id(4)), id(3));
    assert!(b.is_owner(id(3)));
}

#[test]
fn second_vote_is_refused_and_counts_stay() {
    let mut b = open_ballot();
    let c1 = add(&mut b, "A");
    let c2 = add(&mut b, "B");
    b.self_register(id(10), s("v"), s("img")).unwrap();
    match b.vote(id(10), c1).unwrap() {
        Event::VoteCast { voter, candidate_id, vote_count } => {
            assert_eq!(voter, id(10));
            assert_eq!(candidate_id, c1);
            assert_eq!(vote_count, 1);
        }
        other => panic!("unexpected event {:?}", other),
    }
    assert_eq!(b.vote(id(10), c2).map(|_| ()), Err(ErrorKind::AlreadyVoted));
    assert_eq!(b.vote(id(10), c1).map(|_| ()), Err(ErrorKind::AlreadyVoted));
    assert_eq!(b.get_candidate(c1).unwrap().vote_count, 1);
    assert_eq!(b.get_candidate(c2).unwrap().vote_count, 0);
    let v = b.get_voter(id(10)).unwrap();
    assert!(v.has_voted);
    assert_eq!(v.voted_candidate_id, c1);
    assert!(b.has_voted(id(10)));
}

#[test]
fn vote_errors() {
    let mut b = TrustBallot::new();
    b.self_register(id(10), s("v"), s("")).unwrap();
    assert_eq!(b.vote(id(10), 1).map(|_| ()), Err(ErrorKind::InvalidState));
    let mut b = open_ballot();
    let c = add(&mut b, "A");
    assert_eq!(b.vote(id(10), c).map(|_| ()), Err(ErrorKind::NotRegistered));
    b.self_register(id(10), s("v"), s("")).unwrap();
    assert_eq!(b.vote(id(10), c + 5).map(|_| ()), Err(ErrorKind::UnknownCandidate));
    assert!(!b.has_voted(id(10)));
    b.end_election(id(OWNER)).unwrap();
    assert_eq!(b.vote(id(10), c).map(|_| ()), Err(ErrorKind::InvalidState));
}

#[test]
fn vote_counts_add_up_to_successful_votes() {
    let mut b = open_ballot();
    let c1 = add(&mut b, "A");
    let c2 = add(&mut b, "B");
    let c3 = add(&mut b, "C");
    cast(&mut b, 100, 4, c1);
    cast(&mut b, 200, 2, c2);
    let _ = b.vote(id(100), c3);
    let _ = b.vote(id(999), c3);
    let sum: u64 = b.get_all_candidates().iter().map(|c| c.vote_count).sum();
    assert_eq!(sum, 6);
    assert_eq!(b.get_performance_metrics(), (6, 2));
    let st = b.get_statistics();
    assert_eq!(st.total_votes, 6);
    assert_eq!(st.voted_voters, 6);
}

#[test]
fn winner_is_none_until_ended() {
    let mut b = open_ballot();
    let c = add(&mut b, "A");
    cast(&mut b, 100, 1, c);
    assert!(b.get_winner().is_none());
    b.end_election(id(OWNER)).unwrap();
    assert!(b.get_winner().is_some());
}

fn ended_with(counts: &[u64]) -> (TrustBallot, Vec<u64>) {
    let mut b = open_ballot();
    let mut ids = Vec::new();
    let mut next_voter = 1000;
    for (k, n) in counts.iter().enumerate() {
        let c = add(&mut b, &format!("C{}", k));
        cast(&mut b, next_voter, *n, c);
        next_voter += *n;
        ids.push(c);
    }
    b.end_election(id(OWNER)).unwrap();
    (b, ids)
}

#[test]
fn winner_tied_at_top() {
    let (b, _) = ended_with(&[5, 5, 3]);
    assert_eq!(b.get_winner(), Some((0, String::new(), 5, s("Election tied"))));
}

#[test]
fn winner_unique_leader() {
    let (b, ids) = ended_with(&[7, 3, 3]);
    assert_eq!(b.get_winner(), Some((ids[0], s("C0"), 7, s("Winner declared"))));
    let (b, ids) = ended_with(&[1, 4, 2]);
    assert_eq!(b.get_winner(), Some((ids[1], s("C1"), 4, s("Winner declared"))));
}

#[test]
fn winner_without_votes() {
    let (b, _) = ended_with(&[0, 0]);
    assert_eq!(b.get_winner(), Some((0, String::new(), 0, s("No winner"))));
    let (b, _) = ended_with(&[]);
    assert_eq!(b.get_winner(), Some((0, String::new(), 0, s("No winner"))));
}

#[test]
fn leaderboard_ranks_and_shares() {
    let mut b = open_ballot();
    let a = add(&mut b, "A");
    let bb = add(&mut b, "B");
    cast(&mut b, 100, 1, bb);
    cast(&mut b, 200, 3, a);
    let total = b.get_performance_metrics().0;
    let board: Vec<(u64, String, u64, f64)> = b
        .get_leaderboard()
        .into_iter()
        .map(|(rank, c, votes)| (rank, c.name.clone(), votes, pct(votes, total)))
        .collect();
    assert_eq!(board, vec![(1, s("A"), 3, 75.0), (2, s("B"), 1, 25.0)]);
}

#[test]
fn leaderboard_ties_keep_id_order_with_distinct_ranks() {
    let mut b = open_ballot();
    let a = add(&mut b, "A");
    let c = add(&mut b, "B");
    let d = add(&mut b, "C");
    cast(&mut b, 100, 2, d);
    cast(&mut b, 200, 2, c);
    cast(&mut b, 300, 1, a);
    let board: Vec<(u64, u64, u64)> =
        b.get_leaderboard().into_iter().map(|(r, cand, v)| (r, cand.id, v)).collect();
    assert_eq!(board, vec![(1, c, 2), (2, d, 2), (3, a, 1)]);
}

#[test]
fn leaderboard_without_votes_has_zero_shares() {
    let mut b = open_ballot();
    add(&mut b, "A");
    add(&mut b, "B");
    let total = b.get_performance_metrics().0;
    let shares: Vec<f64> = b.get_leaderboard().iter().map(|e| pct(e.2, total)).collect();
    assert_eq!(shares, vec![0.0, 0.0]);
}

#[test]
fn restart_clears_tables_and_ids() {
    let mut b = open_ballot();
    add(&mut b, "A");
    add(&mut b, "B");
    b.self_register(id(10), s("v"), s("")).unwrap();
    assert_eq!(b.start_election(id(OWNER)).map(|_| ()), Err(ErrorKind::InvalidState));
    b.end_election(id(OWNER)).unwrap();
    assert!(matches!(b.start_election(id(OWNER)), Ok(Event::ElectionStarted)));
    assert_eq!(b.get_state(), ElectionState::Ongoing);
    assert!(b.get_all_candidates().is_empty());
    assert!(b.get_all_voters().is_empty());
    assert_eq!(add(&mut b, "C"), 1);
}

#[test]
fn start_from_created_clears_prior_candidates() {
    let mut b = TrustBallot::new();
    b.add_candidate(id(OWNER), s("A"), s("")).unwrap();
    b.add_candidate(id(OWNER), s("B"), s("")).unwrap();
    b.start_election(id(OWNER)).unwrap();
    assert!(b.get_all_candidates().is_empty());
    assert_eq!(add(&mut b, "C"), 1);
}

#[test]
fn registering_twice_is_refused() {
    let mut b = open_ballot();
    b.register_voter(id(OWNER), id(20), s("first"), s("one")).unwrap();
    assert_eq!(
        b.register_voter(id(OWNER), id(20), s("second"), s("two")).map(|_| ()),
        Err(ErrorKind::AlreadyRegistered)
    );
    assert_eq!(b.self_register(id(20), s("third"), s("three")).map(|_| ()), Err(ErrorKind::AlreadyRegistered));
    b.self_register(id(21), s("mine"), s("m")).unwrap();
    assert_eq!(b.self_register(id(21), s("again"), s("a")).map(|_| ()), Err(ErrorKind::AlreadyRegistered));
    let v = b.get_voter(id(20)).unwrap();
    assert_eq!((v.name.as_str(), v.image.as_str()), ("first", "one"));
    assert!(v.is_registered && !v.has_voted);
    assert_eq!(b.get_voter(id(21)).unwrap().name, "mine");
    assert_eq!(b.get_all_voters().len(), 2);
    assert!(b.is_voter_registered(id(21)));
    assert!(!b.is_voter_registered(id(22)));
}

#[test]
fn registration_event_names_the_voter() {
    let mut b = open_ballot();
    match b.register_voter(id(OWNER), id(20), s("Ann"), s("")).unwrap() {
        Event::VoterRegistered { voter, name } => {
            assert_eq!(voter, id(20));
            assert_eq!(name, "Ann");
        }
        other => panic!("unexpected event {:?}", other),
    }
}

#[test]
fn full_election_scenario() {
    // start_election empties the tables, so registration follows the start
    let mut b = TrustBallot::new();
    b.start_election(id(OWNER)).unwrap();
    let c1 = add(&mut b, "Alice");
    let c2 = add(&mut b, "Bob");
    for v in [31, 32, 33] {
        b.register_voter(id(OWNER), id(v), format!("V{}", v), s("")).unwrap();
    }
    b.vote(id(31), c1).unwrap();
    b.vote(id(32), c1).unwrap();
    b.vote(id(33), c2).unwrap();
    b.end_election(id(OWNER)).unwrap();
    assert_eq!(b.get_winner(), Some((c1, s("Alice"), 2, s("Winner declared"))));
    let st = b.get_statistics();
    let rate = pct(st.voted_voters, st.total_voters);
    assert_eq!((st.total_votes, st.total_candidates, st.total_voters, rate), (3, 2, 3, 100.0));
}

#[test]
fn statistics_without_voters() {
    let mut b = open_ballot();
    add(&mut b, "A");
    let st = b.get_statistics();
    assert_eq!((st.total_votes, st.total_candidates, st.total_voters, st.voted_voters), (0, 1, 0, 0));
    assert_eq!(pct(st.voted_voters, st.total_voters), 0.0);
    assert_eq!(b.get_performance_metrics(), (0, 0));
    let empty = TrustBallot::new();
    assert_eq!(empty.get_performance_metrics(), (0, 0));
}

#[test]
fn performance_average_truncates() {
    let mut b = open_ballot();
    let a = add(&mut b, "A");
    add(&mut b, "B");
    add(&mut b, "C");
    cast(&mut b, 100, 5, a);
    assert_eq!(b.get_performance_metrics(), (5, 1));
}

#[test]
fn candidate_ids_are_sequential() {
    let mut b = open_ballot();
    assert_eq!(add(&mut b, "A"), 1);
    assert_eq!(add(&mut b, "B"), 2);
    let c = b.get_candidate(2).unwrap();
    assert_eq!((c.id, c.name.as_str(), c.vote_count), (2, "B", 0));
    assert!(b.get_candidate(3).is_none());
}

#[test]
fn elections_are_keyed_by_count() {
    let mut b = open_ballot();
    assert_eq!(b.create_election(id(OWNER), s("First"), 10), Ok(s("election_1")));
    assert_eq!(b.create_election(id(OWNER), s("Second"), 11), Ok(s("election_2")));
    for k in 3..=12 {
        assert_eq!(b.create_election(id(OWNER), format!("E{}", k), 12), Ok(format!("election_{}", k)));
    }
    // the active election is untouched
    assert_eq!(b.get_state(), ElectionState::Ongoing);
    let trail = b.get_audit_trail(None);
    assert_eq!(trail.len(), 12);
    assert_eq!(trail[0].timestamp, 10);
    assert_eq!(trail[0].action, "create_election");
    assert_eq!(trail[0].actor, id(OWNER));
    assert_eq!(trail[0].details, "Created election: First");
    assert_eq!(trail[0].tx_hash, "");
}

#[test]
fn switch_loads_the_snapshot() {
    let mut b = open_ballot();
    add(&mut b, "A");
    b.self_register(id(10), s("v"), s("")).unwrap();
    let e = b.create_election(id(OWNER), s("Other"), 5).unwrap();
    assert_eq!(b.switch_election(id(77), s("election_9"), 6), Err(ErrorKind::ElectionNotFound));
    assert_eq!(b.get_all_candidates().len(), 1);
    assert_eq!(b.switch_election(id(77), e.clone(), 6), Ok(()));
    assert_eq!(b.get_state(), ElectionState::Created);
    assert!(b.get_all_candidates().is_empty());
    assert!(b.get_all_voters().is_empty());
    let trail = b.get_audit_trail(None);
    assert_eq!(trail.len(), 2);
    assert_eq!(trail[1].action, "switch_election");
    assert_eq!(trail[1].actor, id(77));
    assert_eq!(trail[1].details, "Switched to election: election_1");
}

#[test]
fn audit_trail_filter_matches_substrings() {
    let mut b = open_ballot();
    b.create_election(id(OWNER), s("Spring"), 1).unwrap();
    b.create_election(id(OWNER), s("Autumn"), 2).unwrap();
    b.switch_election(id(OWNER), s("election_2"), 3).unwrap();
    let hits: Vec<String> =
        b.get_audit_trail(Some(s("election_2"))).into_iter().map(|e| e.details).collect();
    assert_eq!(hits, vec![s("Switched to election: election_2")]);
    let hits: Vec<u64> = b.get_audit_trail(Some(s("Spring"))).iter().map(|e| e.timestamp).collect();
    assert_eq!(hits, vec![1]);
    assert_eq!(b.get_audit_trail(Some(s("election"))).len(), 3);
    assert!(b.get_audit_trail(Some(s("Winter"))).is_empty());
}

#[test]
fn batch_add_is_in_order() {
    let mut b = open_ballot();
    let evs = b
        .batch_add_candidates(id(OWNER), vec![(s("A"), s("a")), (s("B"), s("b"))])
        .unwrap();
    assert_eq!(evs.len(), 2);
    assert!(matches!(&evs[1], Event::CandidateAdded { id: 2, name } if name == "B"));
    let names: Vec<(u64, String, String)> =
        b.get_all_candidates().into_iter().map(|c| (c.id, c.name, c.meta)).collect();
    assert_eq!(names, vec![(1, s("A"), s("a")), (2, s("B"), s("b"))]);
    assert_eq!(
        b.batch_add_candidates(id(9), vec![(s("C"), s(""))]).map(|v| v.len()),
        Err(ErrorKind::Unauthorized)
    );
}

#[test]
fn batch_register_is_all_or_nothing() {
    let mut b = open_ballot();
    b.self_register(id(50), s("x"), s("")).unwrap();
    let dup_existing = vec![(id(51), s("a"), s("")), (id(50), s("b"), s(""))];
    assert_eq!(
        b.batch_register_voters(id(OWNER), dup_existing).map(|v| v.len()),
        Err(ErrorKind::AlreadyRegistered)
    );
    let dup_inside = vec![(id(52), s("a"), s("")), (id(52), s("b"), s(""))];
    assert_eq!(
        b.batch_register_voters(id(OWNER), dup_inside).map(|v| v.len()),
        Err(ErrorKind::AlreadyRegistered)
    );
    assert_eq!(b.get_all_voters().len(), 1);
    let ok = vec![(id(51), s("a"), s("ia")), (id(52), s("b"), s("ib"))];
    assert_eq!(b.batch_register_voters(id(OWNER), ok).map(|v| v.len()), Ok(2));
    let voters: Vec<(Identity, String)> =
        b.get_all_voters().into_iter().map(|(k, v)| (k, v.image)).collect();
    assert_eq!(voters, vec![(id(50), s("")), (id(51), s("ia")), (id(52), s("ib"))]);
}

#[test]
fn dispatch_maps_operations() {
    let mut b = TrustBallot::new();
    assert_eq!(b.apply(id(OWNER), Operation::StartElection, 0).map(|v| v.len()), Ok(1));
    let r = b.apply(id(OWNER), Operation::AddCandidate { name: s("A"), meta: s("") }, 0);
    assert_eq!(r.map(|v| v.len()), Ok(1));
    let r = b.apply(id(OWNER), Operation::RegisterVoter { voter: id(2), name: s("v"), image: s("") }, 0);
    assert_eq!(r.map(|v| v.len()), Ok(1));
    assert_eq!(b.apply(id(2), Operation::Vote { candidate_id: 1 }, 0).map(|v| v.len()), Ok(1));
    assert_eq!(
        b.apply(id(2), Operation::Vote { candidate_id: 1 }, 0).map(|v| v.len()),
        Err(ErrorKind::AlreadyVoted)
    );
    assert_eq!(
        b.apply(id(3), Operation::VoteApproval { candidate_ids: vec![1] }, 0).map(|v| v.len()),
        Err(ErrorKind::Unsupported)
    );
    assert_eq!(
        b.apply(id(3), Operation::VoteRankedChoice { rankings: vec![(1, 1)] }, 0).map(|v| v.len()),
        Err(ErrorKind::Unsupported)
    );
    assert_eq!(
        b.apply(id(3), Operation::VoteWeighted { votes: vec![(1, 2)] }, 0).map(|v| v.len()),
        Err(ErrorKind::Unsupported)
    );
    let r = b.apply(id(OWNER), Operation::SetVotingMethod { method: VotingMethod::Weighted }, 0);
    assert_eq!(r.map(|v| v.len()), Ok(0));
    assert_eq!(b.get_voting_method(), VotingMethod::Weighted);
    let r = b.apply(id(OWNER), Operation::CreateElection { name: s("x") }, 4);
    assert_eq!(r.map(|v| v.len()), Ok(0));
    let r = b.apply(id(9), Operation::SwitchElection { election_id: s("election_1") }, 5);
    assert_eq!(r.map(|v| v.len()), Ok(0));
    assert_eq!(b.get_state(), ElectionState::Created);
    let r = b.apply(id(OWNER), Operation::EndElection, 0);
    assert_eq!(r.map(|v| v.len()), Err(ErrorKind::InvalidState));
    let r = b.apply(id(8), Operation::SelfRegister { name: s("me"), image: s("") }, 0);
    assert_eq!(r.map(|v| v.len()), Ok(1));
    let r = b.apply_batch(id(OWNER), BatchOperation::AddCandidates(vec![(s("P"), s("")), (s("Q"), s(""))]));
    assert_eq!(r.map(|v| v.len()), Ok(2));
    let r = b.apply_batch(id(4), BatchOperation::RegisterVoters(vec![(id(5), s("n"), s(""))]));
    assert_eq!(r.map(|v| v.len()), Err(ErrorKind::Unauthorized));
}

#[test]
fn tally_functions_on_plain_lists() {
    let list = vec![
        Candidate { id: 1, name: s("A"), meta: s(""), vote_count: 2 },
        Candidate { id: 4, name: s("B"), meta: s(""), vote_count: 9 },
    ];
    assert_eq!(trust_ballot::vote_total(&list), 11);
    assert_eq!(trust_ballot::winner_of(&list), (4, s("B"), 9, s("Winner declared")));
    let board: Vec<(u64, u64)> =
        trust_ballot::leaderboard_of(&list).into_iter().map(|e| (e.0, e.1.id)).collect();
    assert_eq!(board, vec![(1, 4), (2, 1)]);
}

#[test]
fn registry_queries() {
    let mut b = open_ballot();
    assert!(b.get_current_election_id().is_none());
    b.create_election(id(OWNER), s("Spring"), 1).unwrap();
    b.create_election(id(OWNER), s("Autumn"), 2).unwrap();
    assert_eq!(b.election_count(), 2);
    let all = b.get_all_elections();
    let keys: Vec<(String, String)> = all.into_iter().map(|e| (e.id, e.name)).collect();
    assert_eq!(keys, vec![(s("election_1"), s("Spring")), (s("election_2"), s("Autumn"))]);
    let e = b.get_election(&s("election_2")).unwrap();
    assert_eq!(e.name, "Autumn");
    assert_eq!(e.state, ElectionState::Created);
    assert_eq!(e.voting_method, VotingMethod::Simple);
    assert!(e.candidates.is_empty() && e.voters.is_empty());
    assert!(e.start_time.is_none() && e.end_time.is_none());
    assert!(b.get_election(&s("election_3")).is_none());
    b.switch_election(id(OWNER), s("election_2"), 3).unwrap();
    assert_eq!(b.get_current_election_id(), Some(s("election_2")));
}

#[test]
fn winner_ignores_candidate_order() {
    let cand = |id: u64, name: &str, votes: u64| Candidate { id, name: s(name), meta: s(""), vote_count: votes };
    let first = vec![cand(1, "A", 3), cand(2, "B", 7), cand(3, "C", 3)];
    let second = vec![cand(2, "B", 7), cand(3, "C", 3), cand(1, "A", 3)];
    assert_eq!(trust_ballot::winner_of(&first), (2, s("B"), 7, s("Winner declared")));
    assert_eq!(trust_ballot::winner_of(&first), trust_ballot::winner_of(&second));
    let tied = vec![cand(1, "A", 4), cand(2, "B", 4)];
    let tied_swapped = vec![cand(2, "B", 4), cand(1, "A", 4)];
    assert_eq!(trust_ballot::winner_of(&tied), (0, String::new(), 4, s("Election tied")));
    assert_eq!(trust_ballot::winner_of(&tied), trust_ballot::winner_of(&tied_swapped));
}

#[test]
fn winner_follows_relabelled_ids() {
    let cand = |id: u64, name: &str, votes: u64| Candidate { id, name: s(name), meta: s(""), vote_count: votes };
    let first = vec![cand(1, "A", 2), cand(2, "B", 5)];
    let relabelled = vec![cand(10, "A", 2), cand(20, "B", 5)];
    assert_eq!(trust_ballot::winner_of(&first), (2, s("B"), 5, s("Winner declared")));
    assert_eq!(trust_ballot::winner_of(&relabelled), (20, s("B"), 5, s("Winner declared")));
}

#[test]
fn recorded_vote_survives_other_operations() {
    let mut b = open_ballot();
    let c1 = add(&mut b, "A");
    b.self_register(id(10), s("v"), s("")).unwrap();
    b.vote(id(10), c1).unwrap();
    let c2 = add(&mut b, "B");
    b.self_register(id(11), s("w"), s("")).unwrap();
    b.create_election(id(OWNER), s("later"), 1).unwrap();
    b.batch_register_voters(id(OWNER), vec![(id(12), s("x"), s(""))]).unwrap();
    assert_eq!(b.apply(id(10), Operation::Vote { candidate_id: c2 }, 2).map(|v| v.len()), Err(ErrorKind::AlreadyVoted));
    let v = b.get_voter(id(10)).unwrap();
    assert!(v.has_voted);
    assert_eq!(v.voted_candidate_id, c1);
    assert_eq!(b.get_candidate(c1).unwrap().vote_count, 1);
    assert_eq!(b.get_candidate(c2).unwrap().vote_count, 0);
}
