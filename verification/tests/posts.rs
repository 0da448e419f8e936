use shivarthu::posts::{Pallet, FIRST_POST_ID};

#[test]
fn it_works_for_default_value() {
    // A fresh posts storage, at the first block.
    let posts = Pallet::new();
    assert_eq!(posts.next_post_id, FIRST_POST_ID);
}

#[test]
fn correct_error_for_none_value() {
    let posts = Pallet::new();
    assert!(posts.post_by_id.is_empty());
}

use shivarthu::posts::{Comment, Error, Post, PostExtension, PostUpdate};
use shivarthu::spaces::{self, Space};
use shivarthu::support::{Content, ContentError, WhoAndWhen};

fn cid(c: u8) -> Content {
    Content::IPFS(vec![c; 46])
}

fn spaces_with(id: u64) -> spaces::Pallet {
    let mut s = spaces::Pallet { space_by_id: std::collections::BTreeMap::new() };
    s.space_by_id.insert(
        id,
        Space { id, created: WhoAndWhen { account: 9, block: 0, time: 0 }, owner: 9, content: Content::Empty, hidden: false },
    );
    s
}

#[test]
fn posts_create_and_threads() {
    let mut posts = Pallet::new();
    let spaces = spaces_with(7);
    assert_eq!(posts.create_post(1, Some(7), PostExtension::RegularPost, cid(1), 3, 4, &spaces), Ok(()));
    assert_eq!(posts.next_post_id, 2);
    assert_eq!(posts.post_ids_by_space_id.get(&7).cloned(), Some(vec![1]));
    let comment = PostExtension::Comment(Comment { root_post_id: 1, parent_id: None });
    assert_eq!(posts.create_post(2, None, comment, cid(2), 3, 4, &spaces), Ok(()));
    // A comment is not listed under the space.
    assert_eq!(posts.post_ids_by_space_id.get(&7).cloned(), Some(vec![1]));
    let c = posts.require_post(2).unwrap();
    assert!(c.is_comment() && !c.is_root_post() && !c.is_regular_post() && !c.is_shared_post());
    assert_eq!(c.get_root_post(&posts).unwrap().id, 1);
    assert_eq!(c.get_space_id(&posts), Ok(7));
    assert_eq!(c.get_space(&posts, &spaces).unwrap().id, 7);
    assert_eq!(c.try_get_parent_id(), None);
    assert_eq!(c.get_comment_ext(), Ok(Comment { root_post_id: 1, parent_id: None }));
    assert_eq!(c.get_original_post_id(), Err(Error::NotASharedPost));
    assert_eq!(c.created, WhoAndWhen { account: 2, block: 3, time: 4 });
    // Errors.
    assert_eq!(
        posts.create_post(1, Some(8), PostExtension::RegularPost, cid(1), 3, 4, &spaces),
        Err(Error::Space(spaces::Error::SpaceNotFound))
    );
    assert_eq!(
        posts.create_post(1, None, PostExtension::RegularPost, cid(1), 3, 4, &spaces),
        Err(Error::PostHasNoSpaceId)
    );
    let orphan = PostExtension::Comment(Comment { root_post_id: 42, parent_id: Some(1) });
    assert_eq!(posts.create_post(1, None, orphan, cid(1), 3, 4, &spaces), Err(Error::PostNotFound));
    assert_eq!(
        posts.create_post(1, Some(7), PostExtension::RegularPost, Content::IPFS(vec![1]), 3, 4, &spaces),
        Err(Error::Content(ContentError::InvalidIpfsCid))
    );
    assert_eq!(posts.next_post_id, 3);
}

#[test]
fn posts_update_and_votes() {
    let mut posts = Pallet::new();
    let spaces = spaces_with(7);
    assert_eq!(posts.create_post(1, Some(7), PostExtension::SharedPost(5), cid(1), 0, 0, &spaces), Ok(()));
    assert_eq!(
        posts.update_post(1, 1, PostUpdate { content: None, hidden: None }),
        Err(Error::NoUpdatesForPost)
    );
    assert_eq!(
        posts.update_post(1, 9, PostUpdate { content: None, hidden: Some(true) }),
        Err(Error::PostNotFound)
    );
    let events = posts.events.len();
    // Nothing changes: nothing is written.
    assert_eq!(posts.update_post(1, 1, PostUpdate { content: Some(cid(1)), hidden: Some(false) }), Ok(()));
    assert_eq!(posts.events.len(), events);
    assert_eq!(
        posts.update_post(1, 1, PostUpdate { content: Some(Content::Other(vec![1])), hidden: None }),
        Err(Error::Content(ContentError::OtherContentTypeNotSupported))
    );
    assert_eq!(posts.update_post(1, 1, PostUpdate { content: Some(cid(3)), hidden: Some(true) }), Ok(()));
    let mut p: Post = posts.require_post(1).unwrap();
    assert!(p.edited && p.hidden && p.is_unlisted() && !p.is_public());
    assert_eq!(p.get_original_post_id(), Ok(5));
    assert_eq!(p.ensure_owner(&1), Ok(()));
    assert_eq!(p.ensure_owner(&2), Err(Error::NotAPostOwner));
    p.dec_upvotes();
    assert_eq!(p.upvotes_count, 0);
    p.inc_upvotes();
    p.inc_downvotes();
    p.inc_downvotes();
    p.dec_downvotes();
    assert_eq!((p.upvotes_count, p.downvotes_count), (1, 1));
    p.upvotes_count = u32::MAX;
    p.inc_upvotes();
    assert_eq!(p.upvotes_count, u32::MAX);
}
