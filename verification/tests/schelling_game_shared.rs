use shivarthu::schelling_game_shared::{Error, Pallet, Period, SchellingGameType, StakingTime};
use shivarthu::sortition_sum_game::{SortitionSumTrees, SumTreeName};

fn return_key_profile(citizen_id: u64) -> SumTreeName {
    SumTreeName::ProfileValidation { citizen_address: citizen_id, block_number: 10 }
}

fn games() -> Pallet {
    Pallet::new(vec![(
        SchellingGameType::ProfileApproval,
        StakingTime { min_short_block_length: 50, min_long_block_length: 100 },
    )])
}

#[test]
fn evidence_period_not_over_test() {
    let mut g = games();
    let key = return_key_profile(0);
    let now = 10;
    assert_eq!(g.set_to_evidence_period(key.copy(), now), Ok(()));
    assert_eq!(g.get_period(&key), Some(Period::Evidence));
    let now2 = now + 50 - 1;
    assert_eq!(
        g.set_to_staking_period(key.copy(), SchellingGameType::ProfileApproval, now, now2),
        Err(Error::EvidencePeriodNotOver)
    );
    assert_eq!(g.get_period(&key), Some(Period::Evidence));
}

#[test]
fn evidence_period_test() {
    let mut g = games();
    let key = return_key_profile(0);
    let now = 10;
    assert_eq!(g.set_to_evidence_period(key.copy(), now), Ok(()));
    assert_eq!(g.get_period(&key), Some(Period::Evidence));
    let now2 = now + 50;
    assert_eq!(g.set_to_staking_period(key.copy(), SchellingGameType::ProfileApproval, now, now2), Ok(()));
    assert_eq!(g.get_period(&key), Some(Period::Staking));
    let mut trees = SortitionSumTrees::new();
    assert_eq!(trees.create_tree(key.copy(), 3), Ok(()));
}

#[test]
fn game_periods_set_once() {
    let mut g = games();
    let key = return_key_profile(2);
    assert_eq!(g.set_to_evidence_period(key.copy(), 3), Ok(()));
    assert_eq!(g.set_to_evidence_period(key.copy(), 4), Err(Error::PeriodExists));
    assert_eq!(g.get_period(&return_key_profile(3)), None);
    // A game type without lengths moves at once.
    let other = SumTreeName::ProjectTips { project_id: 1, block_number: 1 };
    assert_eq!(g.set_to_evidence_period(other.copy(), 1), Ok(()));
    assert_eq!(g.set_to_staking_period(other.copy(), SchellingGameType::ProjectReview, 1, 1), Ok(()));
    assert_eq!(g.get_period(&other), Some(Period::Staking));
    // A game in another phase is left as it is.
    assert_eq!(g.set_to_staking_period(other.copy(), SchellingGameType::ProjectReview, 1, 1), Ok(()));
    assert_eq!(g.get_period(&other), Some(Period::Staking));
}
