use shivarthu::positive_externality::{Error, Pallet};
use shivarthu::shared_storage;
use shivarthu::support::{Content, ContentError, WhoAndWhen};

#[test]
fn test_positive_externality_post() {
    let mut p = Pallet::new(10000);
    let shared = shared_storage::Pallet { approved_citizen_address: vec![1, 2] };
    assert_eq!(p.create_positive_externality_post(1, Content::Empty, 0, 0, &shared), Ok(()));
    let post = p.positive_externality_post_by_id.get(&1).unwrap();
    assert_eq!(post.id, 1);
    assert_eq!(post.created, WhoAndWhen { account: 1, block: 0, time: 0 });
    assert!(!post.edited);
    assert_eq!(post.owner, 1);
    assert!(post.content.is_none());
    assert!(!post.hidden);
    assert_eq!((post.upvotes_count, post.downvotes_count), (0, 0));
}

#[test]
fn positive_externality_checks() {
    let mut p = Pallet::new(10000);
    let shared = shared_storage::Pallet { approved_citizen_address: vec![1, 2] };
    assert_eq!(
        p.create_positive_externality_post(3, Content::Empty, 0, 0, &shared),
        Err(Error::Citizen(shared_storage::Error::CitizenNotApproved))
    );
    assert_eq!(
        p.create_positive_externality_post(1, Content::Other(vec![1]), 0, 0, &shared),
        Err(Error::Content(ContentError::OtherContentTypeNotSupported))
    );
    assert_eq!(p.create_positive_externality_post(2, Content::Empty, 4, 9, &shared), Ok(()));
    assert_eq!(p.positive_externality_evidence.get(&2).cloned(), Some(vec![1]));
    assert_eq!(p.next_positive_externality_post_id, 2);
    let post = p.positive_externality_post_by_id.get(&1).unwrap();
    assert_eq!(post.ensure_owner(&2), Ok(()));
    assert_eq!(post.ensure_owner(&1), Err(Error::NotAPostOwner));
    assert_eq!(p.ensure_validation_on_positive_externality(2), Err(Error::ValidationPositiveExternalityIsOff));
    p.validate_positive_externality.insert(2, true);
    assert_eq!(p.ensure_validation_on_positive_externality(2), Ok(()));
    assert_eq!(p.ensure_min_stake_positive_externality(2), Err(Error::LessThanMinStake));
    p.positive_externality_stake_balance.insert(2, 10000);
    assert_eq!(p.ensure_min_stake_positive_externality(2), Ok(()));
}
