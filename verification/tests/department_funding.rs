use shivarthu::department_funding::{
    value_of_tipping_name, DepartmentRequiredFund, Error, Pallet, TippingName, TippingValue,
    Withdrawal,
};
use shivarthu::project_tips::{self, Project};
use shivarthu::support::WhoAndWhen;

#[test]
fn tipping_values() {
    assert_eq!(value_of_tipping_name(TippingName::SmallTipper), TippingValue { max_tipping_value: 10_000, stake_required: 10 });
    assert_eq!(value_of_tipping_name(TippingName::BigTipper), TippingValue { max_tipping_value: 100_000, stake_required: 50 });
    assert_eq!(value_of_tipping_name(TippingName::SmallSpender), TippingValue { max_tipping_value: 1_000_000, stake_required: 100 });
    assert_eq!(value_of_tipping_name(TippingName::MediumSpender), TippingValue { max_tipping_value: 10_000_000, stake_required: 200 });
    assert_eq!(value_of_tipping_name(TippingName::BigSpender), TippingValue { max_tipping_value: 100_000_000, stake_required: 500 });
}

#[test]
fn department_required_fund_creation() {
    let mut p = Pallet::new();
    let mut balance: u64 = 300000;
    assert_eq!(
        p.create_department_required_fund(1, 2, TippingName::SmallTipper, 10_001, 5, 6, true),
        Err(Error::FundingMoreThanTippingValue)
    );
    assert_eq!(
        p.create_department_required_fund(1, 2, TippingName::SmallTipper, 10_000, 5, 6, false),
        Err(Error::WithdrawFailed)
    );
    let w = p.create_department_required_fund(1, 2, TippingName::SmallTipper, 10_000, 5, 6, true);
    assert_eq!(w, Ok(Withdrawal { who: 1, amount: 10 }));
    balance -= w.unwrap().amount;
    assert_eq!(balance, 300000 - 10);
    assert_eq!(p.next_department_required_fund_id, 2);
    assert_eq!(
        p.department_required_funds.get(&1).copied(),
        Some(DepartmentRequiredFund {
            created: WhoAndWhen { account: 1, block: 5, time: 6 },
            department_required_fund_id: 1,
            department_id: 2,
            tipping_name: TippingName::SmallTipper,
            funding_needed: 10_000,
            creator: 1,
        })
    );
    assert_eq!(p.get_block_number_of_schelling_game(1), Err(Error::BlockDepartmentRequiredFundIdNotExists));
    p.validation_department_required_funds_block.insert(1, 44);
    assert_eq!(p.get_block_number_of_schelling_game(1), Ok(44));
    assert_eq!(p.ensure_validation_on_positive_externality(1), Err(Error::ValidationForDepartmentRequiredFundIdIsOff));
    p.validate_department_required_fund.insert(1, true);
    assert_eq!(p.ensure_validation_on_positive_externality(1), Ok(()));
    assert_eq!(p.get_department_id_from_department_required_fund_id(1), Ok(1));
    assert_eq!(Pallet::u64_to_balance_saturated(9), 9);
    assert_eq!(Pallet::u64_to_block_saturated(9), 9);
}

#[test]
fn project_tips_checks() {
    let project = Project::new(1, 2, TippingName::BigTipper, 500, 7, 3, 4);
    assert_eq!(project.created, WhoAndWhen { account: 7, block: 3, time: 4 });
    assert_eq!(project.project_leader, 7);
    let mut p = project_tips::Pallet::new();
    assert_eq!(p.ensure_min_stake_deparment(2), Err(project_tips::Error::LessThanMinStake));
    p.department_stake_balance.insert(2, 10000);
    assert_eq!(p.ensure_min_stake_deparment(2), Ok(()));
}
