use shivarthu::sortition_sum_game::SumTreeName;
use shivarthu::template::{
    challenge_profile_key, ChallengerFundInfo, Error, Pallet, Period, ProfileFundInfo,
};

#[test]
fn template_it_works_for_default_value() {
    let mut p = Pallet::new();
    assert_eq!(p.do_something(1, 42), Ok(()));
    assert_eq!(p.something, Some(42));
}

#[test]
fn template_correct_error_for_none_value() {
    let mut p = Pallet::new();
    assert_eq!(p.cause_error(), Err(Error::NoneValue));
}

#[test]
fn create_profile_test() {
    let mut p = Pallet::new();
    assert_eq!(p.add_citizen(1, "hashcode".as_bytes().to_vec()), Ok(()));
    assert_eq!(p.citizen_count, 1);
    let profile = p.citizen_profile.get(&0).unwrap();
    assert_eq!(profile.profile_hash, "hashcode".as_bytes().to_vec());
    assert_eq!(profile.citizenid, 0);
    assert_eq!(profile.accountid, 1);
}

#[test]
fn profile_fund_test() {
    let mut p = Pallet::new();
    assert_eq!(p.add_citizen(1, "hashcode".as_bytes().to_vec()), Ok(()));
    let mut balance_2: u64 = 200000;
    assert_eq!(balance_2, 200000);
    let transfer = p.add_profile_fund(2, 0, 0, true).unwrap();
    balance_2 -= transfer.amount;
    assert_eq!(balance_2, 199000);
    let check = ProfileFundInfo { deposit: 1000, start: 0, validated: false, reapply: false };
    assert_eq!(p.profile_fund_details.get(&0).copied(), Some(check));
}

#[test]
fn challenge_profile_test() {
    let mut p = Pallet::new();
    assert_eq!(p.add_citizen(1, "hashcode".as_bytes().to_vec()), Ok(()));
    assert!(p.add_profile_fund(2, 0, 0, true).is_ok());
    let mut balance_3: u64 = 300000;
    assert_eq!(balance_3, 300000);
    let transfer = p.challenge_profile(3, 0, 0, true).unwrap();
    balance_3 -= transfer.amount;
    assert_eq!(balance_3, 299900);
}

#[test]
fn sum_tree_set() {
    let mut p = Pallet::new();
    let key = || SumTreeName::UniqueIdenfier1 { citizen_id: 1, name: "key1".as_bytes().to_vec() };
    let trees = &mut p.sortition_sum_trees;
    assert_eq!(trees.create_tree(key(), 5), Ok(()));
    assert_eq!(trees.set(key(), 10, 1), Ok(()));
    assert_eq!(trees.set(key(), 20, 1), Ok(()));
    assert_eq!(trees.set(key(), 30, 2), Ok(()));
    assert_eq!(trees.set(key(), 40, 3), Ok(()));
    assert_eq!(trees.set(key(), 50, 4), Ok(()));
    assert_eq!(trees.stake_of(key(), 1), Ok(Some(20)));
    assert_eq!(trees.draw(key(), 90), Ok(4));
    assert_eq!(trees.stake_of(key(), 10), Ok(None));
}

#[test]
fn schelling_game_remove_stake() {
    let mut p = Pallet::new();
    let key = || SumTreeName::UniqueIdenfier1 { citizen_id: 1, name: "key1".as_bytes().to_vec() };
    let trees = &mut p.sortition_sum_trees;
    assert_eq!(trees.create_tree(key(), 2), Ok(()));
    assert_eq!(trees.set(key(), 10, 1), Ok(()));
    assert_eq!(trees.set(key(), 20, 1), Ok(()));
    assert_eq!(trees.set(key(), 30, 2), Ok(()));
    assert_eq!(trees.set(key(), 40, 3), Ok(()));
    assert!(trees.query_leafs(key(), 0, 5).is_ok());
    assert_eq!(trees.set(key(), 50, 4), Ok(()));
    assert_eq!(trees.set(key(), 0, 3), Ok(()));
    assert!(trees.query_leafs(key(), 0, 5).is_ok());
    assert!(trees.draw(key(), 98).is_ok());
}

#[test]
fn template_game_until_drawing() {
    let mut p = Pallet::new();
    assert_eq!(p.add_citizen(1, "hashcode".as_bytes().to_vec()), Ok(()));
    assert!(p.add_profile_fund(2, 0, 0, true).is_ok());
    let transfer = p.challenge_profile(3, 0, 10, true).unwrap();
    assert_eq!(transfer.amount, 100);
    assert_eq!(
        p.challenger_fund_details.get(&0).copied(),
        Some(ChallengerFundInfo { challengerid: 3, deposit: 100, start: 10, challenge_completed: false })
    );
    let now = 43200 + 10 + 144000;
    assert_eq!(p.pass_period(0, now), Ok(()));
    assert_eq!(p.period_name.get(&0).copied(), Some(Period::Staking));
    for j in 4..30u64 {
        let t = p.apply_jurors(j, 0, j * 100, true).unwrap();
        assert_eq!(t.amount, j * 100);
    }
    assert_eq!(p.apply_jurors(4, 0, 99, true).map(|t| t.amount), Err(Error::StakeLessThanMin));
    assert_eq!(p.pass_period(0, now + 1), Err(Error::StakingPeriodNotOver));
    let start = *p.staking_start_time.get(&0).unwrap();
    assert_eq!(p.pass_period(0, start + p.min_block_time.min_block_length), Ok(()));
    assert_eq!(p.period_name.get(&0).copied(), Some(Period::Drawing));
    assert_eq!(p.apply_jurors(31, 0, 400, true).map(|t| t.amount), Err(Error::PeriodDontMatch));
    let random = |bytes: Vec<u8>| -> u64 { bytes.iter().map(|b| *b as u64).sum::<u64>() * 7919 };
    // The jurors that `draws` draws, one nonce after another, added to `drawn`.
    let expected = |p: &Pallet, draws: u64, drawn: &[u64]| -> Vec<u64> {
        let mut e: Vec<u64> = drawn.to_vec();
        for i in 0..draws {
            let n = (p.nonce + i) * 1000 + 1000;
            let r = random(n.to_le_bytes().to_vec());
            let a = p.sortition_sum_trees.draw(challenge_profile_key(0), r).unwrap();
            if !e.contains(&a) {
                e.push(a);
            }
        }
        e.sort();
        e
    };
    let first = expected(&p, 4, &[]);
    assert_eq!(p.draw_jurors(0, 4, &random), Ok(()));
    let drawn = p.drawn_jurors.get(&0).unwrap().clone();
    assert_eq!(drawn, first);
    assert!(!drawn.is_empty());
    assert!(drawn.iter().all(|a| (4..30).contains(a)));
    assert_eq!(*p.draws_in_round.get(&0).unwrap(), drawn.len() as u128);
    // The limit of five draws caps the second call.
    let second = expected(&p, 5 - drawn.len() as u64, &drawn);
    if drawn.len() < 5 {
        assert_eq!(p.draw_jurors(0, 4, &random), Ok(()));
        assert_eq!(p.drawn_jurors.get(&0).unwrap().clone(), second);
    }
    // The period moves on only once five jurors are drawn.
    let mut calls = 0;
    while *p.draws_in_round.get(&0).unwrap() < 5 {
        assert_eq!(p.pass_period(0, start + 1000), Err(Error::MaxJurorNotDrawn));
        assert_eq!(p.draw_jurors(0, 4, &random), Ok(()));
        calls += 1;
        assert!(calls < 100);
    }
    assert_eq!(p.draw_jurors(0, 4, &random), Err(Error::MaxDrawExceeded));
    assert_eq!(p.drawn_jurors.get(&0).unwrap().len(), 5);
    assert_eq!(p.pass_period(0, start + 1000), Ok(()));
    assert_eq!(p.period_name.get(&0).copied(), Some(Period::Commit));
}

#[test]
fn template_winning_decision() {
    assert_eq!(Pallet::get_winning_decision((3, 1)), 0);
    assert_eq!(Pallet::get_winning_decision((1, 3)), 1);
    assert_eq!(Pallet::get_winning_decision((2, 2)), 2);
    assert_eq!(Pallet::hello_world(), 10);
}

#[test]
fn template_challengers_evidence() {
    let mut p = Pallet::new();
    p.challenger_evidence_id.insert(0, vec![3, 9, 1, 7, 5]);
    assert_eq!(p.get_challengers_evidence(0, 0, 10), vec![9, 7, 5, 3, 1]);
    assert_eq!(p.get_challengers_evidence(0, 1, 3), vec![9, 7, 1]);
    assert_eq!(p.get_challengers_evidence(0, 9, 3), Vec::<u128>::new());
    assert_eq!(p.get_challengers_evidence(1, 0, 3), Vec::<u128>::new());
}

#[test]
fn template_commit_and_reveal() {
    let mut p = Pallet::new();
    assert_eq!(p.add_citizen(1, "hashcode".as_bytes().to_vec()), Ok(()));
    assert!(p.add_profile_fund(2, 0, 0, true).is_ok());
    assert!(p.challenge_profile(3, 0, 10, true).is_ok());
    let mut now = 43200 + 10 + 144000;
    assert_eq!(p.pass_period(0, now), Ok(()));
    for j in 4..30u64 {
        assert!(p.apply_jurors(j, 0, j * 100, true).is_ok());
    }
    now = *p.staking_start_time.get(&0).unwrap() + p.min_block_time.min_block_length;
    assert_eq!(p.pass_period(0, now), Ok(()));
    let random = |bytes: Vec<u8>| -> u64 {
        bytes.iter().enumerate().map(|(i, b)| (*b as u64) << (8 * (i % 8))).sum::<u64>() * 2654435761
    };
    let mut rounds = 0;
    while (*p.draws_in_round.get(&0).unwrap_or(&0) as u64) < p.draw_jurors_for_profile_limit.max_draws && rounds < 50 {
        assert_eq!(p.draw_jurors(0, 1, &random), Ok(()));
        rounds += 1;
    }
    assert_eq!(p.pass_period(0, now), Ok(()));
    assert_eq!(p.period_name.get(&0).copied(), Some(Period::Commit));
    let juror = p.drawn_jurors.get(&0).unwrap()[0];
    let commit = sp_io::hashing::keccak_256(b"1salt");
    assert_eq!(p.commit_vote(juror, 0, commit), Ok(()));
    now = *p.commit_start_time.get(&0).unwrap() + p.min_block_time.min_block_length;
    assert_eq!(p.pass_period(0, now), Ok(()));
    assert_eq!(p.period_name.get(&0).copied(), Some(Period::Vote));
    assert_eq!(p.reveal_vote(juror, 0, b"1".to_vec(), b"pepper".to_vec()), Err(Error::CommitDoesNotMatch));
    assert_eq!(p.reveal_vote(juror, 0, b"1".to_vec(), b"salt".to_vec()), Ok(()));
    assert_eq!(p.decision_count.get(&0).copied(), Some((0, 1)));
    assert_eq!(p.reveal_vote(juror, 0, b"1".to_vec(), b"salt".to_vec()), Err(Error::VoteStatusNotCommited));
}

#[test]
fn template_random_number_uses_nonce_bytes() {
    let mut p = Pallet::new();
    let source = |bytes: Vec<u8>| -> u64 {
        assert_eq!(bytes.len(), 8);
        u64::from_le_bytes([bytes[0], bytes[1], bytes[2], bytes[3], bytes[4], bytes[5], bytes[6], bytes[7]])
    };
    assert_eq!(p.get_random_number(9, &source), Ok(()));
    assert_eq!(p.get_random_number(9, &source), Ok(()));
    assert_eq!(p.nonce, 2);
    let numbers: Vec<u64> = p
        .events
        .iter()
        .filter_map(|e| match e {
            shivarthu::template::Event::RandomNumber(n, 9) => Some(*n),
            _ => None,
        })
        .collect();
    assert_eq!(numbers, vec![1000, 2000]);
}
