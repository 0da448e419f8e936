use shivarthu::sortition_sum_tree::SortitionSumTree;
use shivarthu::sortition_sum_game::{Error, SortitionSumTrees, SumTreeName};

#[test]
fn tests_it_works_for_default_value() {
    let mut trees = SortitionSumTrees::new();
    let key = || SumTreeName::ProfileValidation { citizen_address: 1, block_number: 10 };
    assert_eq!(trees.create_tree(key(), 5), Ok(()));
    assert_eq!(trees.set(key(), 10, 1), Ok(()));
    assert_eq!(trees.set(key(), 20, 1), Ok(()));
    assert_eq!(trees.set(key(), 30, 2), Ok(()));
    assert_eq!(trees.set(key(), 40, 3), Ok(()));
    assert_eq!(trees.set(key(), 50, 4), Ok(()));
    assert_eq!(trees.stake_of(key(), 1), Ok(Some(20)));
    assert_eq!(trees.draw(key(), 90), Ok(4));
}

#[test]
fn tests_correct_error_for_none_value() {
    let mut trees = SortitionSumTrees::new();
    let key = || SumTreeName::ProfileValidation { citizen_address: 1, block_number: 10 };
    assert_eq!(trees.create_tree(key(), 2), Ok(()));
    assert_eq!(trees.set(key(), 10, 1), Ok(()));
    assert_eq!(trees.set(key(), 20, 1), Ok(()));
    assert_eq!(trees.set(key(), 30, 2), Ok(()));
    assert_eq!(trees.set(key(), 40, 3), Ok(()));
    let data = trees.query_leafs(key(), 0, 5).unwrap();
    assert_eq!(data.1, vec![30, 40, 20]);
    assert_eq!(trees.set(key(), 50, 4), Ok(()));
    assert_eq!(trees.set(key(), 0, 3), Ok(()));
    let data = trees.query_leafs(key(), 0, 5).unwrap();
    assert_eq!(data.1, vec![0, 20, 50, 30]);
    assert!(trees.draw(key(), 98).is_ok());
}

#[test]
fn sum_tree_errors() {
    let mut trees = SortitionSumTrees::new();
    let key = || SumTreeName::ProjectTips { project_id: 7, block_number: 3 };
    assert_eq!(trees.set(key(), 10, 1), Err(Error::TreeDoesnotExist));
    assert_eq!(trees.stake_of(key(), 1), Err(Error::TreeDoesnotExist));
    assert_eq!(trees.draw(key(), 1), Err(Error::TreeDoesnotExist));
    assert_eq!(trees.create_tree(key(), 0), Err(Error::KMustGreaterThanOne));
    assert_eq!(trees.create_tree(key(), 3), Ok(()));
    assert_eq!(trees.create_tree(key(), 3), Err(Error::TreeAlreadyExists));
    assert_eq!(trees.remove_tree(key()), Ok(()));
    assert_eq!(trees.stake_of(key(), 1), Err(Error::TreeDoesnotExist));
}

#[test]
fn sum_tree_read_after_write() {
    let mut trees = SortitionSumTrees::new();
    let key = || SumTreeName::DepartmentRequiredFund { department_required_fund_id: 2, block_number: 9 };
    assert_eq!(trees.create_tree(key(), 3), Ok(()));
    assert_eq!(trees.set(key(), 15, 8), Ok(()));
    assert_eq!(trees.stake_of(key(), 8), Ok(Some(15)));
    assert_eq!(trees.set(key(), 0, 8), Ok(()));
    assert_eq!(trees.stake_of(key(), 8), Ok(None));
    assert_eq!(trees.stake_of(key(), 9), Ok(None));
}

#[test]
fn sum_tree_draw_intervals() {
    let mut trees = SortitionSumTrees::new();
    let key = || SumTreeName::UniqueIdenfier1 { citizen_id: 1, name: b"key1".to_vec() };
    assert_eq!(trees.create_tree(key(), 2), Ok(()));
    assert_eq!(trees.set(key(), 10, 1), Ok(()));
    assert_eq!(trees.set(key(), 30, 2), Ok(()));
    // Account 1 holds [0, 10), account 2 holds [10, 40).
    assert_eq!(trees.draw(key(), 0), Ok(1));
    assert_eq!(trees.draw(key(), 9), Ok(1));
    assert_eq!(trees.draw(key(), 10), Ok(2));
    assert_eq!(trees.draw(key(), 39), Ok(2));
    assert_eq!(trees.draw(key(), 40), Ok(1));
}

#[test]
fn sum_tree_root_is_stake_sum() {
    let mut t = SortitionSumTree::new_tree(2);
    assert_eq!(t.nodes()[0], 0);
    t.set(10, 1);
    t.set(20, 1);
    t.set(30, 2);
    t.set(40, 3);
    t.set(50, 4);
    assert_eq!(t.nodes()[0], 20 + 30 + 40 + 50);
    t.set(0, 3);
    assert_eq!(t.stake_of(3), None);
    assert_eq!(t.nodes()[0], 20 + 30 + 50);
    // A new account while a leaf is vacant is not stored.
    t.set(60, 7);
    assert_eq!(t.stake_of(7), None);
    assert_eq!(t.nodes()[0], 100);
}

#[test]
fn sum_tree_draw_share_is_stake() {
    let mut trees = SortitionSumTrees::new();
    let key = || SumTreeName::ProfileValidation { citizen_address: 1, block_number: 10 };
    assert_eq!(trees.create_tree(key(), 2), Ok(()));
    for (id, stake) in [(1u64, 20u64), (2, 30), (3, 40), (4, 50)] {
        assert_eq!(trees.set(key(), stake, id), Ok(()));
    }
    assert_eq!(trees.set(key(), 0, 3), Ok(()));
    let mut counts = [0u64; 5];
    for n in 0..100u64 {
        let a = trees.draw(key(), n).unwrap();
        counts[a as usize] += 1;
    }
    assert_eq!(counts, [0, 20, 30, 0, 50]);
    assert_eq!(trees.draw(key(), 98), Ok(2));
    assert_eq!(trees.draw(key(), 10), Ok(1));
    assert_eq!(trees.draw(key(), 20), Ok(4));
}
