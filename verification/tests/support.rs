use shivarthu::support::{
    bool_to_option, ensure_content_is_some, ensure_content_is_valid, new_who_and_when,
    remove_from_vec, Content, ContentError, WhoAndWhen,
};

#[test]
fn content_validity() {
    assert_eq!(ensure_content_is_valid(Content::Empty), Ok(()));
    assert_eq!(
        ensure_content_is_valid(Content::Other(b"x".to_vec())),
        Err(ContentError::OtherContentTypeNotSupported)
    );
    assert_eq!(ensure_content_is_valid(Content::IPFS(vec![b'a'; 46])), Ok(()));
    assert_eq!(ensure_content_is_valid(Content::IPFS(vec![b'a'; 59])), Ok(()));
    assert_eq!(ensure_content_is_valid(Content::IPFS(vec![b'a'; 47])), Err(ContentError::InvalidIpfsCid));
    assert_eq!(ensure_content_is_some(&Content::Empty), Err(ContentError::ContentIsEmpty));
    assert_eq!(ensure_content_is_some(&Content::IPFS(vec![1])), Ok(()));
}

#[test]
fn content_kinds_and_bytes() {
    let c = Content::IPFS(b"cid".to_vec());
    assert!(c.is_some() && c.is_ipfs() && !c.is_none());
    assert!(Content::default().is_none());
    assert!(c.same_as(&c.copy()));
    assert!(!c.same_as(&Content::Other(b"cid".to_vec())));
    assert_eq!(c.into_bytes(), b"cid".to_vec());
    assert_eq!(Content::Empty.into_bytes(), Vec::<u8>::new());
}

#[test]
fn vector_helpers() {
    let mut v = vec![1, 2, 3, 2, 5];
    remove_from_vec(&mut v, 2);
    assert_eq!(v, vec![1, 5, 3, 2]);
    remove_from_vec(&mut v, 9);
    assert_eq!(v, vec![1, 5, 3, 2]);
    assert_eq!(bool_to_option(true), Some(true));
    assert_eq!(bool_to_option(false), None);
    assert_eq!(new_who_and_when(4, 5, 6), WhoAndWhen { account: 4, block: 5, time: 6 });
}
