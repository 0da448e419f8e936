use shivarthu::election::{Error, Pallet, Renouncing, ReserveChange};

fn candidate_ids(e: &Pallet, d: u128) -> Vec<u64> {
    e.candidate_ids(d)
}

fn candidate_deposit(e: &Pallet, who: u64, d: u128) -> u64 {
    match e.candidates.get(&d) {
        Some(c) => c.iter().find(|(a, _)| *a == who).map(|(_, dep)| *dep).unwrap_or(0),
        None => 0,
    }
}

/// Free and reserved balances kept beside the pallet, as the currency would.
struct Balances {
    free: Vec<(u64, u64)>,
    reserved: Vec<(u64, u64)>,
}

impl Balances {
    fn new() -> Balances {
        let free = (1..=6).map(|a| (a, a * 100000)).collect();
        let reserved = (1..=6).map(|a| (a, 0)).collect();
        Balances { free, reserved }
    }
    fn get(&self, a: u64) -> (u64, u64) {
        let f = self.free.iter().find(|(x, _)| *x == a).unwrap().1;
        let r = self.reserved.iter().find(|(x, _)| *x == a).unwrap().1;
        (f, r)
    }
    fn reserve(&mut self, a: u64, amount: u64) -> bool {
        let f = self.free.iter_mut().find(|(x, _)| *x == a).unwrap();
        if f.1 < amount {
            return false;
        }
        f.1 -= amount;
        self.reserved.iter_mut().find(|(x, _)| *x == a).unwrap().1 += amount;
        true
    }
}

fn submit_candidacy(e: &mut Pallet, b: &mut Balances, who: u64, d: u128) -> Result<(), Error> {
    let count = candidate_ids(e, d).len() as u32;
    let can_reserve = b.get(who).0 >= e.candidacy_bond;
    let r = e.submit_candidacy(who, d, count, can_reserve);
    match r {
        Ok(ReserveChange::Reserve { who: w, amount }) => {
            assert_eq!(w, who);
            assert_eq!(amount, e.candidacy_bond);
            assert!(b.reserve(w, amount));
            Ok(())
        },
        Ok(other) => panic!("unexpected change {:?}", other),
        Err(err) => Err(err),
    }
}

#[test]
fn election_it_works_for_default_value() {
    let mut e = Pallet::new(3);
    assert_eq!(e.do_something(1, 42), Ok(()));
    assert_eq!(e.something, Some(42));
}

#[test]
fn election_correct_error_for_none_value() {
    let mut e = Pallet::new(3);
    assert_eq!(e.cause_error(), Err(Error::NoneValue));
}

#[test]
fn simple_candidate_submission_should_work() {
    let mut e = Pallet::new(3);
    let mut b = Balances::new();
    let departmentid = 1;
    assert_eq!(candidate_ids(&e, departmentid), Vec::<u64>::new());
    assert!(e.is_candidate(1, departmentid).is_err());
    assert!(e.is_candidate(2, departmentid).is_err());
    assert_eq!(b.get(1), (100000, 0));
    assert_eq!(submit_candidacy(&mut e, &mut b, 1, departmentid), Ok(()));
    assert_eq!(b.get(1), (99997, 3));
    assert_eq!(candidate_ids(&e, departmentid), vec![1]);
    assert!(e.is_candidate(1, departmentid).is_ok());
    assert!(e.is_candidate(2, departmentid).is_err());
    assert_eq!(b.get(2), (200000, 0));
    assert_eq!(submit_candidacy(&mut e, &mut b, 2, departmentid), Ok(()));
    assert_eq!(b.get(2), (199997, 3));
    assert_eq!(candidate_ids(&e, departmentid), vec![1, 2]);
    assert!(e.is_candidate(1, departmentid).is_ok());
    assert!(e.is_candidate(2, departmentid).is_ok());
    assert_eq!(candidate_deposit(&e, 1, departmentid), 3);
    assert_eq!(candidate_deposit(&e, 2, departmentid), 3);
    assert_eq!(candidate_deposit(&e, 3, departmentid), 0);
}

#[test]
fn candidates_are_always_sorted() {
    let mut e = Pallet::new(3);
    let mut b = Balances::new();
    let departmentid = 1;
    assert_eq!(candidate_ids(&e, departmentid), Vec::<u64>::new());
    assert_eq!(submit_candidacy(&mut e, &mut b, 3, departmentid), Ok(()));
    assert_eq!(candidate_ids(&e, departmentid), vec![3]);
    assert_eq!(submit_candidacy(&mut e, &mut b, 1, departmentid), Ok(()));
    assert_eq!(candidate_ids(&e, departmentid), vec![1, 3]);
    assert_eq!(submit_candidacy(&mut e, &mut b, 2, departmentid), Ok(()));
    assert_eq!(candidate_ids(&e, departmentid), vec![1, 2, 3]);
    assert_eq!(submit_candidacy(&mut e, &mut b, 4, departmentid), Ok(()));
    assert_eq!(candidate_ids(&e, departmentid), vec![1, 2, 3, 4]);
}

#[test]
fn simple_voting_should_work() {
    let mut e = Pallet::new(3);
    let mut b = Balances::new();
    let departmentid = 1;
    assert_eq!(candidate_ids(&e, departmentid), Vec::<u64>::new());
    assert_eq!(submit_candidacy(&mut e, &mut b, 5, departmentid), Ok(()));
    assert_eq!(e.vote(2, departmentid, vec![5], 20), Ok(()));
}

#[test]
fn runners_up_should_be_kept() {
    let mut e = Pallet::new(3);
    let mut b = Balances::new();
    let departmentid = 1;
    assert_eq!(submit_candidacy(&mut e, &mut b, 5, departmentid), Ok(()));
    assert_eq!(submit_candidacy(&mut e, &mut b, 4, departmentid), Ok(()));
    assert_eq!(submit_candidacy(&mut e, &mut b, 3, departmentid), Ok(()));
    assert_eq!(submit_candidacy(&mut e, &mut b, 2, departmentid), Ok(()));
    assert_eq!(e.vote(2, departmentid, vec![3], 20), Ok(()));
    assert_eq!(e.vote(3, departmentid, vec![2], 30), Ok(()));
    assert_eq!(e.vote(4, departmentid, vec![5], 40), Ok(()));
    assert_eq!(e.vote(5, departmentid, vec![4], 50), Ok(()));
    assert!(e.do_phragmen(departmentid).is_ok());
    // sorted based on account id.
    assert_eq!(e.members_ids(departmentid), vec![4, 5]);
    // sorted based on merit (least -> most)
    assert_eq!(e.runners_up_ids(departmentid), vec![3, 2]);
}

#[test]
fn election_vote_errors() {
    let mut e = Pallet::new(3);
    let mut b = Balances::new();
    assert_eq!(e.vote(2, 1, vec![], 20), Err(Error::NoVotes));
    assert_eq!(e.vote(2, 1, (0..17).collect(), 20), Err(Error::MaximumVotesExceeded));
    assert_eq!(e.vote(2, 1, vec![5], 20), Err(Error::UnableToVote));
    assert_eq!(submit_candidacy(&mut e, &mut b, 5, 1), Ok(()));
    assert_eq!(e.vote(2, 1, vec![5, 6], 20), Err(Error::TooManyVotes));
}

#[test]
fn election_submit_errors() {
    let mut e = Pallet::new(3);
    let mut b = Balances::new();
    assert_eq!(submit_candidacy(&mut e, &mut b, 5, 1), Ok(()));
    assert_eq!(e.submit_candidacy(6, 1, 0, true), Err(Error::InvalidWitnessData));
    assert_eq!(e.submit_candidacy(5, 1, 1, true), Err(Error::DuplicatedCandidate));
    assert_eq!(e.submit_candidacy(6, 1, 1, false), Err(Error::InsufficientCandidateFunds));
}

#[test]
fn election_term_and_renouncing() {
    let mut e = Pallet::new(3);
    let mut b = Balances::new();
    let d = 1;
    assert_eq!(e.do_phragmen(d), Err(Error::EmptyTermError));
    for who in [5, 4, 3, 2, 1] {
        assert_eq!(submit_candidacy(&mut e, &mut b, who, d), Ok(()));
    }
    assert_eq!(e.vote(2, d, vec![3], 20), Ok(()));
    assert_eq!(e.vote(3, d, vec![2], 30), Ok(()));
    assert_eq!(e.vote(4, d, vec![5], 40), Ok(()));
    assert_eq!(e.vote(5, d, vec![4], 50), Ok(()));
    // Candidate 1 got no vote: it loses its deposit.
    let changes = e.do_phragmen(d).unwrap();
    assert_eq!(changes, vec![ReserveChange::Slash { who: 1, amount: 3 }]);
    assert_eq!(e.candidate_ids(d), Vec::<u64>::new());
    assert_eq!(e.submit_candidacy(4, d, 0, true), Err(Error::MemberSubmit));
    assert_eq!(e.submit_candidacy(2, d, 0, true), Err(Error::RunnerUpSubmit));
    // A member leaves: the best runner-up takes the seat.
    assert_eq!(
        e.renounce_candidacy(5, Renouncing::Member, d),
        Ok(ReserveChange::Unreserve { who: 5, amount: 3 })
    );
    assert_eq!(e.members_ids(d), vec![2, 4]);
    assert_eq!(e.runners_up_ids(d), vec![3]);
    assert_eq!(
        e.renounce_candidacy(3, Renouncing::RunnerUp, d),
        Ok(ReserveChange::Unreserve { who: 3, amount: 3 })
    );
    assert_eq!(e.runners_up_ids(d), Vec::<u64>::new());
    assert_eq!(e.renounce_candidacy(3, Renouncing::RunnerUp, d), Err(Error::InvalidRenouncing));
    assert_eq!(
        e.remove_and_replace_member(4, true, d),
        Ok(ReserveChange::Slash { who: 4, amount: 3 })
    );
    assert_eq!(e.members_ids(d), vec![2]);
    assert_eq!(e.remove_and_replace_member(4, true, d), Err(Error::NotMember));
}

#[test]
fn election_renounce_candidate_undoes_submit() {
    let mut e = Pallet::new(3);
    let mut b = Balances::new();
    assert_eq!(submit_candidacy(&mut e, &mut b, 3, 1), Ok(()));
    assert_eq!(submit_candidacy(&mut e, &mut b, 1, 1), Ok(()));
    assert_eq!(e.renounce_candidacy(1, Renouncing::Candidate(0), 1), Err(Error::InvalidWitnessData));
    assert_eq!(
        e.renounce_candidacy(1, Renouncing::Candidate(2), 1),
        Ok(ReserveChange::Unreserve { who: 1, amount: 3 })
    );
    assert_eq!(e.candidate_ids(1), vec![3]);
    assert_eq!(e.renounce_candidacy(1, Renouncing::Candidate(2), 1), Err(Error::InvalidRenouncing));
}

#[test]
fn election_voters_and_implicit_candidates() {
    let mut e = Pallet::new(3);
    let mut b = Balances::new();
    for who in [4, 3, 2] {
        assert_eq!(submit_candidacy(&mut e, &mut b, who, 1), Ok(()));
    }
    assert!(!e._is_voter(5, 1));
    assert_eq!(e.vote(5, 1, vec![4], 50), Ok(()));
    assert_eq!(e.vote(3, 1, vec![2], 30), Ok(()));
    assert_eq!(e.vote(5, 1, vec![3], 40), Ok(()));
    assert!(e._is_voter(5, 1) && e._is_voter(3, 1) && !e._is_voter(4, 1));
    assert!(e.is_member(4, 1) == false && e.is_runner_up(4, 1) == false);
    assert_eq!(e.do_phragmen(1).map(|c| c.len()), Ok(1));
    // Members and runners-up stand again with their deposits.
    assert_eq!(e.implicit_candidates_with_deposit(1), vec![(2, 3), (3, 3)]);
    assert!(e.is_member(2, 1) && e.is_member(3, 1));
}
