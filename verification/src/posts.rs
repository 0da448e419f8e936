//! Posts, comments and shared posts inside spaces.
use vstd::prelude::*;
use crate::spaces::{self, Space, SpaceView, spaces_view};
use crate::support::{
    Content, ContentError, ContentView, PostId, SpaceId, WhoAndWhen, content_valid,
    ensure_content_is_valid, new_who_and_when,
};
use std::collections::BTreeMap;

verus! {

pub const FIRST_POST_ID: u64 = 1;

/// Where a comment hangs: the post at the root of its thread and the comment it answers.
#[derive(PartialEq, Eq, Structural, Clone, Copy, Debug)]
pub struct Comment {
    pub root_post_id: PostId,
    pub parent_id: Option<PostId>,
}

/// What kind of post a post is.
#[derive(PartialEq, Eq, Structural, Clone, Copy, Debug)]
pub enum PostExtension {
    RegularPost,
    Comment(Comment),
    SharedPost(PostId),
}

/// A post.
#[derive(Debug)]
pub struct Post {
    pub id: PostId,
    pub created: WhoAndWhen,
    pub edited: bool,
    pub owner: u64,
    pub extension: PostExtension,
    pub space_id: Option<SpaceId>,
    pub content: Content,
    pub hidden: bool,
    pub upvotes_count: u32,
    pub downvotes_count: u32,
}

/// A post as a mathematical value.
pub struct PostView {
    pub id: PostId,
    pub created: WhoAndWhen,
    pub edited: bool,
    pub owner: u64,
    pub extension: PostExtension,
    pub space_id: Option<SpaceId>,
    pub content: ContentView,
    pub hidden: bool,
    pub upvotes_count: u32,
    pub downvotes_count: u32,
}

impl View for Post {
    type V = PostView;

    open spec fn view(&self) -> PostView {
        PostView {
            id: self.id,
            created: self.created,
            edited: self.edited,
            owner: self.owner,
            extension: self.extension,
            space_id: self.space_id,
            content: self.content@,
            hidden: self.hidden,
            upvotes_count: self.upvotes_count,
            downvotes_count: self.downvotes_count,
        }
    }
}

/// The changes asked of a post.
pub struct PostUpdate {
    pub content: Option<Content>,
    pub hidden: Option<bool>,
}

/// The changes asked of a post, as a mathematical value.
pub struct PostUpdateView {
    pub content: Option<ContentView>,
    pub hidden: Option<bool>,
}

impl View for PostUpdate {
    type V = PostUpdateView;

    open spec fn view(&self) -> PostUpdateView {
        PostUpdateView {
            content: match self.content {
                Some(c) => Some(c@),
                None => None,
            },
            hidden: self.hidden,
        }
    }
}

/// What the pallet reports.
#[derive(PartialEq, Eq, Structural, Clone, Copy, Debug)]
pub enum Event {
    SomethingStored { something: u32, who: u64 },
    PostCreated { account: u64, post_id: PostId },
    PostUpdated { account: u64, post_id: PostId },
    PostMoved {
        account: u64,
        post_id: PostId,
        from_space: Option<SpaceId>,
        to_space: Option<SpaceId>,
    },
}

/// Why a call was refused.
#[derive(PartialEq, Eq, Structural, Clone, Copy, Debug)]
pub enum Error {
    NoneValue,
    StorageOverflow,
    /// Post was not found by id.
    PostNotFound,
    /// An account is not a post owner.
    NotAPostOwner,
    /// Nothing to update in this post.
    NoUpdatesForPost,
    /// Root post should have a space id.
    PostHasNoSpaceId,
    /// Not allowed to create a post/comment when a scope (space or root post) is hidden.
    CannotCreateInHiddenScope,
    /// Post has no replies.
    NoRepliesOnPost,
    /// Cannot move a post to the same space.
    CannotMoveToSameSpace,
    /// Cannot share, because the original post was not found.
    OriginalPostNotFound,
    /// Cannot share a post that is sharing another post.
    CannotShareSharedPost,
    /// This post's extension is not a `SharedPost`.
    NotASharedPost,
    /// Unknown parent comment id.
    UnknownParentComment,
    /// Post by `parent_id` is not of a `Comment` extension.
    NotACommentByParentId,
    /// Cannot update space id of a comment.
    CannotUpdateSpaceIdOnComment,
    /// Max comment depth reached.
    MaxCommentDepthReached,
    /// Only comment owner can update this comment.
    NotACommentAuthor,
    /// This post's extension is not a `Comment`.
    NotComment,
    /// User has no permission to create root posts in this space.
    NoPermissionToCreatePosts,
    /// User has no permission to create comments (aka replies) in this space.
    NoPermissionToCreateComments,
    /// User has no permission to share posts/comments from this space to another space.
    NoPermissionToShare,
    /// User has no permission to update any posts in this space.
    NoPermissionToUpdateAnyPost,
    /// A post owner is not allowed to update their own posts in this space.
    NoPermissionToUpdateOwnPosts,
    /// A comment owner is not allowed to update their own comments in this space.
    NoPermissionToUpdateOwnComments,
    /// This post already exists.
    PostAlreadyExists,
    /// The content was refused.
    Content(ContentError),
    /// The space of the post was refused.
    Space(spaces::Error),
}

/// The first post id.
pub fn DefaultForNextPostId() -> (r: PostId)
    ensures
        r == FIRST_POST_ID,
{
    FIRST_POST_ID
}

/// The storage of the posts pallet.
pub struct Pallet {
    pub something: Option<u32>,
    pub next_post_id: PostId,
    pub post_by_id: BTreeMap<PostId, Post>,
    pub reply_ids_by_post_id: BTreeMap<PostId, Vec<PostId>>,
    pub post_ids_by_space_id: BTreeMap<SpaceId, Vec<PostId>>,
    pub events: Vec<Event>,
}

/// The posts of a storage map, as mathematical values.
pub open spec fn posts_view(m: Map<PostId, Post>) -> Map<PostId, PostView> {
    m.map_values(|p: Post| p@)
}

/// The post at the root of the thread of `p`: `p` itself unless it is a comment.
pub open spec fn root_post_of(posts: Map<PostId, PostView>, p: PostView) -> Result<PostView, Error> {
    match p.extension {
        PostExtension::Comment(c) => if posts.contains_key(c.root_post_id) {
            Ok(posts[c.root_post_id])
        } else {
            Err(Error::PostNotFound)
        },
        _ => Ok(p),
    }
}

/// The space of the thread of `p`.
pub open spec fn space_of(
    posts: Map<PostId, PostView>,
    spaces: Map<SpaceId, SpaceView>,
    p: PostView,
) -> Result<SpaceView, Error> {
    match root_post_of(posts, p) {
        Err(e) => Err(e),
        Ok(root) => match root.space_id {
            None => Err(Error::PostHasNoSpaceId),
            Some(sid) => if spaces.contains_key(sid) {
                Ok(spaces[sid])
            } else {
                Err(Error::Space(spaces::Error::SpaceNotFound))
            },
        },
    }
}

/// The ids stored under `k`, none when `k` is absent.
pub open spec fn ids_or_empty(m: Map<u64, Vec<u64>>, k: u64) -> Seq<u64> {
    if m.contains_key(k) {
        m[k]@
    } else {
        Seq::empty()
    }
}

/// A post just created with the given fields.
pub open spec fn fresh_post(
    id: PostId,
    created_by: u64,
    space_id_opt: Option<SpaceId>,
    extension: PostExtension,
    content: ContentView,
    block: u64,
    time: u64,
) -> PostView {
    PostView {
        id,
        created: WhoAndWhen { account: created_by, block, time },
        edited: false,
        owner: created_by,
        extension,
        space_id: space_id_opt,
        content,
        hidden: false,
        upvotes_count: 0,
        downvotes_count: 0,
    }
}

/// What applying `update` to `p` gives: an error, or the new post and whether anything changed.
pub open spec fn update_outcome(p: PostView, update: PostUpdateView) -> Result<(PostView, bool), Error> {
    let content_changes = match update.content {
        Some(c) => c != p.content,
        None => false,
    };
    if content_changes && content_valid(update.content.unwrap()) is Err {
        Err(Error::Content(content_valid(update.content.unwrap())->Err_0))
    } else {
        let p1 = if content_changes {
            PostView { content: update.content.unwrap(), edited: true, ..p }
        } else {
            p
        };
        let hidden_changes = match update.hidden {
            Some(h) => h != p.hidden,
            None => false,
        };
        let p2 = if hidden_changes {
            PostView { hidden: update.hidden.unwrap(), ..p1 }
        } else {
            p1
        };
        Ok((p2, content_changes || hidden_changes))
    }
}

/// Applying an update gives the post the content and the visibility asked for,
/// keeping what is not asked; it fails only on a new content that is not valid;
/// and it reports a change exactly when the post differs from before, so that
/// hiding or showing a post alone is written back.
pub proof fn law_update_outcome(p: PostView, update: PostUpdateView)
    ensures
        update_outcome(p, update) is Err <==> (update.content matches Some(c) && c != p.content
            && content_valid(c) is Err),
        update_outcome(p, update) matches Ok((q, changed)) ==> {
            &&& q.hidden == (match update.hidden {
                Some(h) => h,
                None => p.hidden,
            })
            &&& q.content == (match update.content {
                Some(c) => c,
                None => p.content,
            })
            &&& q.edited == (p.edited || (update.content matches Some(c) && c != p.content))
            &&& q.id == p.id && q.created == p.created && q.owner == p.owner
            &&& q.extension == p.extension && q.space_id == p.space_id
            &&& q.upvotes_count == p.upvotes_count && q.downvotes_count == p.downvotes_count
            &&& (changed <==> q != p)
        },
{
}

impl Post {
    /// A post of `created_by`, made at `block` and `time`.
    pub fn new(
        id: PostId,
        created_by: u64,
        space_id_opt: Option<SpaceId>,
        extension: PostExtension,
        content: Content,
        block: u64,
        time: u64,
    ) -> (r: Post)
        ensures
            r@ == fresh_post(id, created_by, space_id_opt, extension, content@, block, time),
    {
        Post {
            id,
            created: new_who_and_when(created_by, block, time),
            edited: false,
            owner: created_by,
            extension,
            space_id: space_id_opt,
            content,
            hidden: false,
            upvotes_count: 0,
            downvotes_count: 0,
        }
    }

    /// A copy of the post.
    pub fn copy(&self) -> (r: Post)
        ensures
            r@ == self@,
    {
        Post {
            id: self.id,
            created: self.created,
            edited: self.edited,
            owner: self.owner,
            extension: self.extension,
            space_id: self.space_id,
            content: self.content.copy(),
            hidden: self.hidden,
            upvotes_count: self.upvotes_count,
            downvotes_count: self.downvotes_count,
        }
    }

    /// Refuses any account but the owner.
    pub fn ensure_owner(&self, account: &u64) -> (r: Result<(), Error>)
        ensures
            r == if self.owner == *account {
                Ok::<(), Error>(())
            } else {
                Err(Error::NotAPostOwner)
            },
    {
        if !self.is_owner(account) {
            return Err(Error::NotAPostOwner);
        }
        Ok(())
    }

    /// Whether `account` owns the post.
    pub fn is_owner(&self, account: &u64) -> (r: bool)
        ensures
            r == (self.owner == *account),
    {
        self.owner == *account
    }

    /// Whether the post starts a thread, that is, is no comment.
    pub fn is_root_post(&self) -> (r: bool)
        ensures
            r == !(self.extension is Comment),
    {
        !self.is_comment()
    }

    /// Whether the post is a regular post.
    pub fn is_regular_post(&self) -> (r: bool)
        ensures
            r == (self.extension is RegularPost),
    {
        matches!(self.extension, PostExtension::RegularPost)
    }

    /// Whether the post is a comment.
    pub fn is_comment(&self) -> (r: bool)
        ensures
            r == (self.extension is Comment),
    {
        matches!(self.extension, PostExtension::Comment(_))
    }

    /// Whether the post shares another post.
    pub fn is_shared_post(&self) -> (r: bool)
        ensures
            r == (self.extension is SharedPost),
    {
        matches!(self.extension, PostExtension::SharedPost(_))
    }

    /// Where the comment hangs, or `NotComment`.
    pub fn get_comment_ext(&self) -> (r: Result<Comment, Error>)
        ensures
            r == match self.extension {
                PostExtension::Comment(c) => Ok(c),
                _ => Err::<Comment, Error>(Error::NotComment),
            },
    {
        match self.extension {
            PostExtension::Comment(comment_ext) => Ok(comment_ext),
            _ => Err(Error::NotComment),
        }
    }

    /// The post this one shares, or `NotASharedPost`.
    pub fn get_original_post_id(&self) -> (r: Result<PostId, Error>)
        ensures
            r == match self.extension {
                PostExtension::SharedPost(id) => Ok(id),
                _ => Err::<PostId, Error>(Error::NotASharedPost),
            },
    {
        match self.extension {
            PostExtension::SharedPost(original_post_id) => Ok(original_post_id),
            _ => Err(Error::NotASharedPost),
        }
    }

    /// The post at the root of the thread: this one unless it is a comment.
    pub fn get_root_post(&self, posts: &Pallet) -> (r: Result<Post, Error>)
        ensures
            match (r, root_post_of(posts_view(posts.post_by_id@), self@)) {
                (Ok(p), Ok(q)) => p@ == q,
                (Err(e), Err(f)) => e == f,
                _ => false,
            },
    {
        match self.extension {
            PostExtension::RegularPost | PostExtension::SharedPost(_) => Ok(self.copy()),
            PostExtension::Comment(comment) => posts.require_post(comment.root_post_id),
        }
    }

    /// The space id of the thread, or an error.
    pub fn get_space_id(&self, posts: &Pallet) -> (r: Result<SpaceId, Error>)
        ensures
            r == match root_post_of(posts_view(posts.post_by_id@), self@) {
                Ok(root) => match root.space_id {
                    Some(sid) => Ok(sid),
                    None => Err(Error::PostHasNoSpaceId),
                },
                Err(_) => Err::<SpaceId, Error>(Error::PostHasNoSpaceId),
            },
    {
        match self.try_get_space_id(posts) {
            Some(sid) => Ok(sid),
            None => Err(Error::PostHasNoSpaceId),
        }
    }

    /// The space id of the thread, if the root post is found and has one.
    pub fn try_get_space_id(&self, posts: &Pallet) -> (r: Option<SpaceId>)
        ensures
            r == match root_post_of(posts_view(posts.post_by_id@), self@) {
                Ok(root) => root.space_id,
                Err(_) => None,
            },
    {
        if let Ok(root_post) = self.get_root_post(posts) {
            return root_post.space_id;
        }
        None
    }

    /// The space of the thread, or an error.
    pub fn get_space(&self, posts: &Pallet, spaces: &spaces::Pallet) -> (r: Result<Space, Error>)
        ensures
            match (r, space_of(posts_view(posts.post_by_id@), spaces_view(spaces.space_by_id@), self@)) {
                (Ok(s), Ok(t)) => s@ == t,
                (Err(e), Err(f)) => e == f,
                _ => false,
            },
    {
        let root_post = self.get_root_post(posts)?;
        let space_id = match root_post.space_id {
            Some(sid) => sid,
            None => return Err(Error::PostHasNoSpaceId),
        };
        match spaces.require_space(space_id) {
            Ok(s) => Ok(s),
            Err(e) => Err(Error::Space(e)),
        }
    }

    /// The space of the thread, if there is one.
    pub fn try_get_space(&self, posts: &Pallet, spaces: &spaces::Pallet) -> (r: Option<Space>)
        ensures
            match (r, space_of(posts_view(posts.post_by_id@), spaces_view(spaces.space_by_id@), self@)) {
                (Some(s), Ok(t)) => s@ == t,
                (None, Err(_)) => true,
                _ => false,
            },
    {
        if let Ok(root_post) = self.get_root_post(posts) {
            return match root_post.space_id {
                Some(space_id) => match spaces.require_space(space_id) {
                    Ok(s) => Some(s),
                    Err(_) => None,
                },
                None => None,
            };
        }
        None
    }

    /// The comment this comment answers, if any.
    pub fn try_get_parent_id(&self) -> (r: Option<PostId>)
        ensures
            r == match self.extension {
                PostExtension::Comment(c) => c.parent_id,
                _ => None,
            },
    {
        match self.extension {
            PostExtension::Comment(comment_ext) => comment_ext.parent_id,
            _ => None,
        }
    }

    /// One more upvote, saturating.
    pub fn inc_upvotes(&mut self)
        ensures
            final(self)@ == (PostView {
                upvotes_count: if old(self).upvotes_count == u32::MAX {
                    u32::MAX
                } else {
                    (old(self).upvotes_count + 1) as u32
                },
                ..old(self)@
            }),
    {
        self.upvotes_count = self.upvotes_count.saturating_add(1);
    }

    /// One upvote less, saturating.
    pub fn dec_upvotes(&mut self)
        ensures
            final(self)@ == (PostView {
                upvotes_count: if old(self).upvotes_count == 0 {
                    0
                } else {
                    (old(self).upvotes_count - 1) as u32
                },
                ..old(self)@
            }),
    {
        self.upvotes_count = self.upvotes_count.saturating_sub(1);
    }

    /// One more downvote, saturating.
    pub fn inc_downvotes(&mut self)
        ensures
            final(self)@ == (PostView {
                downvotes_count: if old(self).downvotes_count == u32::MAX {
                    u32::MAX
                } else {
                    (old(self).downvotes_count + 1) as u32
                },
                ..old(self)@
            }),
    {
        self.downvotes_count = self.downvotes_count.saturating_add(1);
    }

    /// One downvote less, saturating.
    pub fn dec_downvotes(&mut self)
        ensures
            final(self)@ == (PostView {
                downvotes_count: if old(self).downvotes_count == 0 {
                    0
                } else {
                    (old(self).downvotes_count - 1) as u32
                },
                ..old(self)@
            }),
    {
        self.downvotes_count = self.downvotes_count.saturating_sub(1);
    }

    /// Visible and with content.
    pub fn is_public(&self) -> (r: bool)
        ensures
            r == (!self.hidden && self.content@ != ContentView::Empty),
    {
        !self.hidden && self.content.is_some()
    }

    /// Hidden or without content.
    pub fn is_unlisted(&self) -> (r: bool)
        ensures
            r == !(!self.hidden && self.content@ != ContentView::Empty),
    {
        !self.is_public()
    }
}

impl Pallet {
    /// Storage with no post yet.
    pub fn new() -> (r: Pallet)
        ensures
            r.something == None::<u32>,
            r.next_post_id == FIRST_POST_ID,
            r.post_by_id@ == Map::<PostId, Post>::empty(),
            r.reply_ids_by_post_id@ == Map::<PostId, Vec<PostId>>::empty(),
            r.post_ids_by_space_id@ == Map::<SpaceId, Vec<PostId>>::empty(),
            r.events@ == Seq::<Event>::empty(),
    {
        Pallet {
            something: None,
            next_post_id: DefaultForNextPostId(),
            post_by_id: BTreeMap::new(),
            reply_ids_by_post_id: BTreeMap::new(),
            post_ids_by_space_id: BTreeMap::new(),
            events: Vec::new(),
        }
    }

    /// The post stored under `post_id`, or `PostNotFound`.
    pub fn require_post(&self, post_id: PostId) -> (r: Result<Post, Error>)
        ensures
            match r {
                Ok(p) => self.post_by_id@.contains_key(post_id) && p@ == self.post_by_id@[post_id]@,
                Err(e) => !self.post_by_id@.contains_key(post_id) && e == Error::PostNotFound,
            },
    {
        match self.post_by_id.get(&post_id) {
            Some(p) => Ok(p.copy()),
            None => Err(Error::PostNotFound),
        }
    }

    /// `creator` creates a post, at `block` and `time`, with the next post id. The
    /// content must be valid and the thread must lie in an existing space; a post
    /// that is no comment is listed under that space.
    pub fn create_post(
        &mut self,
        creator: u64,
        space_id_opt: Option<SpaceId>,
        extension: PostExtension,
        content: Content,
        block: u64,
        time: u64,
        spaces: &spaces::Pallet,
    ) -> (r: Result<(), Error>)
        requires
            old(self).next_post_id < u64::MAX,
        ensures
            ({
                let id = old(self).next_post_id;
                let np = fresh_post(id, creator, space_id_opt, extension, content@, block, time);
                let posts = posts_view(old(self).post_by_id@);
                let space = space_of(posts, spaces_view(spaces.space_by_id@), np);
                &&& r == if content_valid(content@) is Err {
                    Err(Error::Content(content_valid(content@)->Err_0))
                } else {
                    match space {
                        Ok(_) => Ok(()),
                        Err(e) => Err(e),
                    }
                }
                &&& r.is_err() ==> *final(self) == *old(self)
                &&& r.is_ok() ==> {
                    let sid = space->Ok_0.id;
                    &&& posts_view(final(self).post_by_id@) == posts.insert(id, np)
                    &&& final(self).next_post_id == id + 1
                    &&& final(self).events@ == old(self).events@.push(
                        Event::PostCreated { account: creator, post_id: id },
                    )
                    &&& final(self).something == old(self).something
                    &&& final(self).reply_ids_by_post_id == old(self).reply_ids_by_post_id
                    &&& if extension is Comment {
                        final(self).post_ids_by_space_id == old(self).post_ids_by_space_id
                    } else {
                        &&& final(self).post_ids_by_space_id@ == old(
                            self,
                        ).post_ids_by_space_id@.insert(sid, final(self).post_ids_by_space_id@[sid])
                        &&& final(self).post_ids_by_space_id@[sid]@ == ids_or_empty(
                            old(self).post_ids_by_space_id@,
                            sid,
                        ).push(id)
                    }
                }
            }),
    {
        match ensure_content_is_valid(content.copy()) {
            Ok(()) => {},
            Err(e) => return Err(Error::Content(e)),
        }
        let new_post_id = self.next_post_id;
        let new_post = Post::new(new_post_id, creator, space_id_opt, extension, content, block, time);
        let space = new_post.get_space(self, spaces)?;
        if new_post.is_root_post() {
            let mut ids = match self.post_ids_by_space_id.remove(&space.id) {
                Some(v) => v,
                None => Vec::new(),
            };
            ids.push(new_post_id);
            self.post_ids_by_space_id.insert(space.id, ids);
        }
        self.post_by_id.insert(new_post_id, new_post);
        self.next_post_id = new_post_id + 1;
        self.events.push(Event::PostCreated { account: creator, post_id: new_post_id });
        proof {
            assert(posts_view(self.post_by_id@) =~= posts_view(old(self).post_by_id@).insert(
                new_post_id,
                new_post@,
            ));
        }
        Ok(())
    }

    /// `editor` changes the content or the visibility of the post `post_id`. At
    /// least one change must be asked for; a new content must be valid; the post
    /// is written back only if something changed.
    pub fn update_post(&mut self, editor: u64, post_id: PostId, update: PostUpdate) -> (r: Result<
        (),
        Error,
    >)
        ensures
            ({
                let posts = posts_view(old(self).post_by_id@);
                let outcome = update_outcome(posts[post_id], update@);
                &&& r == if update@.content is None && update@.hidden is None {
                    Err(Error::NoUpdatesForPost)
                } else if !posts.contains_key(post_id) {
                    Err(Error::PostNotFound)
                } else {
                    match outcome {
                        Ok(_) => Ok(()),
                        Err(e) => Err(e),
                    }
                }
                &&& r.is_err() ==> *final(self) == *old(self)
                &&& r.is_ok() && !outcome->Ok_0.1 ==> *final(self) == *old(self)
                &&& r.is_ok() && outcome->Ok_0.1 ==> {
                    &&& posts_view(final(self).post_by_id@) == posts.insert(
                        posts[post_id].id,
                        outcome->Ok_0.0,
                    )
                    &&& final(self).events@ == old(self).events@.push(
                        Event::PostUpdated { account: editor, post_id },
                    )
                    &&& final(self).something == old(self).something
                    &&& final(self).next_post_id == old(self).next_post_id
                    &&& final(self).reply_ids_by_post_id == old(self).reply_ids_by_post_id
                    &&& final(self).post_ids_by_space_id == old(self).post_ids_by_space_id
                }
                &&& r.is_ok() && (update@.hidden matches Some(h) && h != posts[post_id].hidden) ==> {
                    &&& posts_view(final(self).post_by_id@)[posts[post_id].id].hidden
                        == update@.hidden.unwrap()
                    &&& final(self).events@ == old(self).events@.push(
                        Event::PostUpdated { account: editor, post_id },
                    )
                }
            }),
    {
        let has_updates = update.content.is_some() || update.hidden.is_some();
        if !has_updates {
            return Err(Error::NoUpdatesForPost);
        }
        let mut post = self.require_post(post_id)?;
        let ghost p0 = post@;
        let mut is_update_applied = false;
        match update.content {
            Some(content) => {
                if !content.same_as(&post.content) {
                    match ensure_content_is_valid(content.copy()) {
                        Ok(()) => {},
                        Err(e) => return Err(Error::Content(e)),
                    }
                    post.content = content;
                    post.edited = true;
                    is_update_applied = true;
                }
            },
            None => {},
        }
        match update.hidden {
            Some(hidden) => {
                if hidden != post.hidden {
                    post.hidden = hidden;
                    is_update_applied = true;
                }
            },
            None => {},
        }
        proof {
            let o = update_outcome(p0, update@);
            law_update_outcome(p0, update@);
            assert(o is Ok);
            assert(o->Ok_0.0 == post@);
            assert(o->Ok_0.1 == is_update_applied);
        }
        if is_update_applied {
            let id = post.id;
            let ghost pv = post@;
            self.post_by_id.insert(id, post);
            self.events.push(Event::PostUpdated { account: editor, post_id });
            proof {
                assert(posts_view(self.post_by_id@) =~= posts_view(old(self).post_by_id@).insert(
                    id,
                    pv,
                ));
            }
        }
        Ok(())
    }
}

} // verus!
