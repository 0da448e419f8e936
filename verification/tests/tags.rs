use shivarthu::tags::{Error, Pallet};

#[test]
fn tags_it_works_for_default_value() {
    let mut t = Pallet::new();
    assert_eq!(t.do_something(1, 42), Ok(()));
    assert_eq!(t.something, Some(42));
}

#[test]
fn tags_correct_error_for_none_value() {
    let mut t = Pallet::new();
    assert_eq!(t.cause_error(), Err(Error::NoneValue));
}

#[test]
fn add_tag_works() {
    let mut t = Pallet::new();
    let tag = "Municipality".as_bytes().to_vec();
    assert_eq!(t.add_tag(1, 1, tag.clone()), Ok(()));
    let tags = t.department_tags(1);
    let mut value_tags: Vec<Vec<u8>> = vec![];
    value_tags.push(tag);
    assert_eq!(tags, value_tags);
}

#[test]
fn downvote_works() {
    let mut t = Pallet::new();
    let tag = "Municipality".as_bytes().to_vec();
    assert_eq!(t.add_tag(1, 1, tag.clone()), Ok(()));
    assert_eq!(t.donwvote_tag(1, 1, tag.clone()), Ok(()));
    let downvote_details = t.downvote_details_of_tag(1, &tag);
    assert_eq!(downvote_details.downvote, 1);
}

#[test]
fn downvote_again_error() {
    let mut t = Pallet::new();
    let tag = "Municipality".as_bytes().to_vec();
    assert_eq!(t.add_tag(1, 1, tag.clone()), Ok(()));
    assert_eq!(t.donwvote_tag(1, 1, tag.clone()), Ok(()));
    assert_eq!(t.downvote_details_of_tag(1, &tag).downvote, 1);
    let tag2 = "Education".as_bytes().to_vec();
    assert_eq!(t.add_tag(1, 1, tag2.clone()), Ok(()));
    assert_eq!(t.donwvote_tag(1, 1, tag2.clone()), Ok(()));
    assert_eq!(t.downvote_details_of_tag(1, &tag2).downvote, 1);
    assert_eq!(t.donwvote_tag(1, 1, tag.clone()), Err(Error::UserAlreadyDownVoted));
    assert_eq!(t.donwvote_tag(2, 1, tag.clone()), Ok(()));
    assert_eq!(t.downvote_details_of_tag(1, &tag).downvote, 2);
}

#[test]
fn downvote_remove_tag() {
    let mut t = Pallet::new();
    let tag = "Municipality".as_bytes().to_vec();
    let down_vote_threshold = t.downvote_threshold;
    assert_eq!(t.add_tag(1, 1, tag.clone()), Ok(()));
    for x in 1..down_vote_threshold {
        assert_eq!(t.donwvote_tag(x as u64, 1, tag.clone()), Ok(()));
        assert_eq!(t.downvote_details_of_tag(1, &tag).downvote, x);
    }
    assert_eq!(t.donwvote_tag(5, 1, tag.clone()), Ok(()));
    assert_eq!(t.donwvote_tag(6, 1, tag.clone()), Err(Error::TagDoesnotExists));
    let value_tags: Vec<Vec<u8>> = vec![];
    assert_eq!(t.department_tags(1), value_tags);
    let details = t.downvote_details_of_tag(1, &tag);
    assert_eq!(details.downvote, 0);
    assert!(details.downvote_users.is_empty());
}

#[test]
fn tags_kept_in_lexicographic_order() {
    let mut t = Pallet::new();
    for tag in ["road", "education", "Municipality", "edu", "water"] {
        assert_eq!(t.add_tag(1, 3, tag.as_bytes().to_vec()), Ok(()));
    }
    let expected: Vec<Vec<u8>> = ["Municipality", "edu", "education", "road", "water"]
        .iter()
        .map(|s| s.as_bytes().to_vec())
        .collect();
    assert_eq!(t.department_tags(3), expected);
    assert_eq!(t.add_tag(1, 3, b"edu".to_vec()), Err(Error::TagExists));
    assert!(t.department_tags(4).is_empty());
}

#[test]
fn tags_remove_undoes_add() {
    let mut t = Pallet::new();
    assert_eq!(t.add_tag(1, 1, b"b".to_vec()), Ok(()));
    assert_eq!(t.add_tag(1, 1, b"d".to_vec()), Ok(()));
    let before = t.department_tags(1);
    assert_eq!(t.add_tag(1, 1, b"c".to_vec()), Ok(()));
    assert_eq!(t.remove_tags(1, b"c".to_vec()), Ok(()));
    assert_eq!(t.department_tags(1), before);
    assert_eq!(t.remove_tags(1, b"c".to_vec()), Err(Error::TagDoesnotExists));
    assert_eq!(t.ensure_tag_exists(1, &b"d".to_vec()), Ok(()));
    assert_eq!(t.ensure_tag_exists(1, &b"c".to_vec()), Err(Error::TagDoesnotExists));
}
