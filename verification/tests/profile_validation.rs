use shivarthu::profile_validation::{Error, Pallet};
use shivarthu::schelling_game_shared::{self, Period};
use shivarthu::sortition_sum_game::SumTreeName;
use shivarthu::support::{Content, WhoAndWhen};

fn ipfs(s: &str) -> Content {
    Content::IPFS(s.as_bytes().to_vec())
}

fn same_content(a: &Content, b: &Content) -> bool {
    a.same_as(b)
}

#[test]
fn add_citizen_profile_check() {
    let mut p = Pallet::new();
    let content = ipfs("bafkreiaiq24be2iioasr6ftyaum3icmj7amtjkom2jeokov5k5ojwzhvqy");
    assert_eq!(p.add_citizen(1, content.copy(), 1, 0), Ok(()));
    let data = p.citizen_profile.get(&1).unwrap();
    assert_eq!(data.created, WhoAndWhen { account: 1, block: 1, time: 0 });
    assert!(same_content(&data.content, &content));
    assert_eq!(data.citizen_id, 1);
    assert_eq!(data.owner, 1);
    assert!(!data.edited && !data.hidden);
    assert_eq!((data.upvotes_count, data.downvotes_count), (0, 0));
    let content = ipfs("bafkreiaiq24be2iioasr6ftyaum3icmj7amtjkom2jeokov5k5ojwzhvqz");
    assert_eq!(p.add_citizen(1, content.copy(), 5, 0), Ok(()));
    let data = p.citizen_profile.get(&1).unwrap();
    assert_eq!(data.created, WhoAndWhen { account: 1, block: 5, time: 0 });
    assert!(same_content(&data.content, &content));
    assert_eq!(data.citizen_id, 1);
    assert_eq!(data.owner, 1);
}

#[test]
fn check_fund_addition() {
    let mut p = Pallet::new();
    let mut games = schelling_game_shared::Pallet::new(vec![]);
    let now = 10;
    let content = ipfs("bafkreiaiq24be2iioasr6ftyaum3icmj7amtjkom2jeokov5k5ojwzhvqy");
    assert_eq!(p.add_citizen(1, content.copy(), now, 0), Ok(()));
    let data = p.citizen_profile.get(&1).unwrap();
    assert_eq!(data.created, WhoAndWhen { account: 1, block: 10, time: 0 });
    let mut balance_3: u64 = 300000;
    assert_eq!(300000, balance_3);
    balance_3 -= p.add_profile_stake(3, 1, 100, now, true, &mut games).unwrap();
    assert_eq!(300000 - 100, balance_3);
    let content = ipfs("bafkreiaiq24be2iioasr6ftyaum3icmj7amtjkom2jeokov5k5ojwzhvqz");
    assert_eq!(p.add_citizen(1, content, now, 0), Err(Error::NoMoreUpdates));
    assert_eq!(p.profile_fund_details.get(&(1, 3)).unwrap().deposit, 100);
    assert_eq!(*p.profile_total_fund_collected.get(&1).unwrap(), 100);
    balance_3 -= p.add_profile_stake(3, 1, 100, now, true, &mut games).unwrap();
    assert_eq!(300000 - 200, balance_3);
    assert_eq!(p.profile_fund_details.get(&(1, 3)).unwrap().deposit, 200);
    let mut balance_4: u64 = 300000;
    balance_4 -= p.add_profile_stake(4, 1, 500, now, true, &mut games).unwrap();
    assert_eq!(300000 - 500, balance_4);
    assert_eq!(p.profile_fund_details.get(&(1, 4)).unwrap().deposit, 500);
    assert_eq!(
        p.add_profile_stake(5, 1, 1000, now, true, &mut games),
        Err(Error::AmountFundedGreaterThanRequired)
    );
    assert_eq!(p.add_profile_stake(5, 1, 300, now, true, &mut games), Ok(300));
    assert!(matches!(
        p.events.last(),
        Some(shivarthu::profile_validation::Event::ProfileFund { profile: 1, funder: 5 })
    ));
    let key = SumTreeName::ProfileValidation { citizen_address: 1, block_number: 10 };
    assert_eq!(games.get_period(&key), Some(Period::Evidence));
}

#[test]
fn profile_stake_errors() {
    let mut p = Pallet::new();
    let mut games = schelling_game_shared::Pallet::new(vec![]);
    assert_eq!(p.add_profile_stake(3, 1, 100, 1, true, &mut games), Err(Error::CitizenDoNotExists));
    assert_eq!(p.ensure_account_id_has_profile(1), Err(Error::CitizenDoNotExists));
    assert_eq!(p.add_citizen(1, Content::Empty, 1, 0), Ok(()));
    assert_eq!(p.ensure_account_id_has_profile(1), Ok(()));
    assert_eq!(p.add_profile_stake(3, 1, 100, 1, false, &mut games), Err(Error::WithdrawFailed));
    assert!(p.profile_fund_details.is_empty());
    assert_eq!(p.add_citizen(2, Content::Empty, 1, 0), Ok(()));
    assert_eq!(p.get_citizen_id.get(&2).copied(), Some(2));
    assert_eq!(p.next_citizen_id, 3);
}
