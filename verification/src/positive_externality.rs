//! Posts that report the positive externalities of a citizen, and the checks
//! made before a validation game on them.
use vstd::prelude::*;
use crate::shared_storage;
use crate::support::{
    Content, ContentError, ContentView, PositiveExternalityPostId, WhoAndWhen, content_valid,
    ensure_content_is_valid, new_who_and_when,
};
use std::collections::BTreeMap;

verus! {

pub const FIRST_POST_ID: u64 = 1;

/// A post on a positive externality.
#[derive(Debug)]
pub struct PositiveExternalityPost {
    pub id: PositiveExternalityPostId,
    pub created: WhoAndWhen,
    pub edited: bool,
    pub owner: u64,
    pub content: Content,
    pub hidden: bool,
    pub upvotes_count: u32,
    pub downvotes_count: u32,
}

/// A post on a positive externality as a mathematical value.
pub struct PositiveExternalityPostView {
    pub id: PositiveExternalityPostId,
    pub created: WhoAndWhen,
    pub edited: bool,
    pub owner: u64,
    pub content: ContentView,
    pub hidden: bool,
    pub upvotes_count: u32,
    pub downvotes_count: u32,
}

impl View for PositiveExternalityPost {
    type V = PositiveExternalityPostView;

    open spec fn view(&self) -> PositiveExternalityPostView {
        PositiveExternalityPostView {
            id: self.id,
            created: self.created,
            edited: self.edited,
            owner: self.owner,
            content: self.content@,
            hidden: self.hidden,
            upvotes_count: self.upvotes_count,
            downvotes_count: self.downvotes_count,
        }
    }
}

/// The changes asked of a post.
pub struct PositiveExternalityPostUpdate {
    pub content: Option<Content>,
    pub hidden: Option<bool>,
}

/// A post just created with the given fields.
pub open spec fn fresh_post(
    id: PositiveExternalityPostId,
    created_by: u64,
    content: ContentView,
    block: u64,
    time: u64,
) -> PositiveExternalityPostView {
    PositiveExternalityPostView {
        id,
        created: WhoAndWhen { account: created_by, block, time },
        edited: false,
        owner: created_by,
        content,
        hidden: false,
        upvotes_count: 0,
        downvotes_count: 0,
    }
}

/// Why a call was refused.
#[derive(PartialEq, Eq, Structural, Clone, Copy, Debug)]
pub enum Error {
    NoneValue,
    StorageOverflow,
    NotAPostOwner,
    ValidationPositiveExternalityIsOff,
    LessThanMinStake,
    /// The content was refused.
    Content(ContentError),
    /// The author is not an approved citizen.
    Citizen(shared_storage::Error),
}

impl PositiveExternalityPost {
    /// A post of `created_by`, made at `block` and `time`.
    pub fn new(id: PositiveExternalityPostId, created_by: u64, content: Content, block: u64, time: u64) -> (r:
        PositiveExternalityPost)
        ensures
            r@ == fresh_post(id, created_by, content@, block, time),
    {
        PositiveExternalityPost {
            id,
            created: new_who_and_when(created_by, block, time),
            edited: false,
            owner: created_by,
            content,
            hidden: false,
            upvotes_count: 0,
            downvotes_count: 0,
        }
    }

    /// Refuses any account but the owner.
    pub fn ensure_owner(&self, account: &u64) -> (r: Result<(), Error>)
        ensures
            r == if self.owner == *account {
                Ok::<(), Error>(())
            } else {
                Err(Error::NotAPostOwner)
            },
    {
        if !self.is_owner(account) {
            return Err(Error::NotAPostOwner);
        }
        Ok(())
    }

    /// Whether `account` owns the post.
    pub fn is_owner(&self, account: &u64) -> (r: bool)
        ensures
            r == (self.owner == *account),
    {
        self.owner == *account
    }
}

/// The first post id.
pub fn DefaultForNextPositiveExternalityPostId() -> (r: u64)
    ensures
        r == FIRST_POST_ID,
{
    FIRST_POST_ID
}

/// The storage of the pallet.
pub struct Pallet {
    pub next_positive_externality_post_id: PositiveExternalityPostId,
    pub positive_externality_post_by_id: BTreeMap<PositiveExternalityPostId, PositiveExternalityPost>,
    /// Author to the ids of their posts.
    pub positive_externality_evidence: BTreeMap<u64, Vec<PositiveExternalityPostId>>,
    /// Whether an account asked for the validation of its positive externality.
    pub validate_positive_externality: BTreeMap<u64, bool>,
    /// The stake of an account on its positive externality.
    pub positive_externality_stake_balance: BTreeMap<u64, u64>,
    pub minimum_positive_externality_stake: u64,
}

/// The posts of a storage map, as mathematical values.
pub open spec fn posts_view(m: Map<u64, PositiveExternalityPost>) -> Map<u64, PositiveExternalityPostView> {
    m.map_values(|p: PositiveExternalityPost| p@)
}

/// The ids stored under `k`, none when `k` is absent.
pub open spec fn ids_or_empty(m: Map<u64, Vec<u64>>, k: u64) -> Seq<u64> {
    if m.contains_key(k) {
        m[k]@
    } else {
        Seq::empty()
    }
}

impl Pallet {
    /// No post yet, with the given minimum stake.
    pub fn new(minimum_positive_externality_stake: u64) -> (r: Pallet)
        ensures
            r.next_positive_externality_post_id == FIRST_POST_ID,
            r.positive_externality_post_by_id@ == Map::<u64, PositiveExternalityPost>::empty(),
            r.positive_externality_evidence@ == Map::<u64, Vec<u64>>::empty(),
            r.validate_positive_externality@ == Map::<u64, bool>::empty(),
            r.positive_externality_stake_balance@ == Map::<u64, u64>::empty(),
            r.minimum_positive_externality_stake == minimum_positive_externality_stake,
    {
        Pallet {
            next_positive_externality_post_id: DefaultForNextPositiveExternalityPostId(),
            positive_externality_post_by_id: BTreeMap::new(),
            positive_externality_evidence: BTreeMap::new(),
            validate_positive_externality: BTreeMap::new(),
            positive_externality_stake_balance: BTreeMap::new(),
            minimum_positive_externality_stake,
        }
    }

    /// The approved citizen `creator` posts `content` at `block` and `time`
    /// under the next post id, which joins the evidence of the creator.
    pub fn create_positive_externality_post(
        &mut self,
        creator: u64,
        content: Content,
        block: u64,
        time: u64,
        shared: &shared_storage::Pallet,
    ) -> (r: Result<(), Error>)
        requires
            old(self).next_positive_externality_post_id < u64::MAX,
            shared.wf(),
        ensures
            r == if content_valid(content@) is Err {
                Err(Error::Content(content_valid(content@)->Err_0))
            } else if !shared.approved_citizen_address@.contains(creator) {
                Err(Error::Citizen(shared_storage::Error::CitizenNotApproved))
            } else {
                Ok(())
            },
            r.is_err() ==> *final(self) == *old(self),
            r.is_ok() ==> {
                let id = old(self).next_positive_externality_post_id;
                &&& posts_view(final(self).positive_externality_post_by_id@) == posts_view(
                    old(self).positive_externality_post_by_id@,
                ).insert(id, fresh_post(id, creator, content@, block, time))
                &&& final(self).positive_externality_evidence@ == old(self).positive_externality_evidence@.insert(
                    creator,
                    final(self).positive_externality_evidence@[creator],
                )
                &&& final(self).positive_externality_evidence@[creator]@ == ids_or_empty(
                    old(self).positive_externality_evidence@,
                    creator,
                ).push(id)
                &&& final(self).next_positive_externality_post_id == id + 1
                &&& final(self).validate_positive_externality == old(self).validate_positive_externality
                &&& final(self).positive_externality_stake_balance == old(self).positive_externality_stake_balance
                &&& final(self).minimum_positive_externality_stake == old(self).minimum_positive_externality_stake
            },
    {
        match ensure_content_is_valid(content.copy()) {
            Ok(()) => {},
            Err(e) => return Err(Error::Content(e)),
        }
        match shared.check_citizen_is_approved(creator) {
            Ok(()) => {},
            Err(e) => return Err(Error::Citizen(e)),
        }
        let new_post_id = self.next_positive_externality_post_id;
        let new_post = PositiveExternalityPost::new(new_post_id, creator, content, block, time);
        let mut ids = match self.positive_externality_evidence.remove(&creator) {
            Some(v) => v,
            None => Vec::new(),
        };
        ids.push(new_post_id);
        self.positive_externality_evidence.insert(creator, ids);
        let ghost pv = new_post@;
        self.positive_externality_post_by_id.insert(new_post_id, new_post);
        self.next_positive_externality_post_id = new_post_id + 1;
        proof {
            assert(posts_view(self.positive_externality_post_by_id@) =~= posts_view(
                old(self).positive_externality_post_by_id@,
            ).insert(new_post_id, pv));
        }
        Ok(())
    }

    /// Refuses an account that has not turned on the validation of its positive externality.
    pub fn ensure_validation_on_positive_externality(&self, account: u64) -> (r: Result<(), Error>)
        ensures
            r == if self.validate_positive_externality@.contains_key(account)
                && self.validate_positive_externality@[account] {
                Ok::<(), Error>(())
            } else {
                Err(Error::ValidationPositiveExternalityIsOff)
            },
    {
        let bool_data = match self.validate_positive_externality.get(&account) {
            Some(b) => *b,
            None => false,
        };
        if !bool_data {
            return Err(Error::ValidationPositiveExternalityIsOff);
        }
        Ok(())
    }

    /// Refuses an account whose stake is below the minimum.
    pub fn ensure_min_stake_positive_externality(&self, account: u64) -> (r: Result<(), Error>)
        ensures
            r == if (if self.positive_externality_stake_balance@.contains_key(account) {
                self.positive_externality_stake_balance@[account]
            } else {
                0
            }) >= self.minimum_positive_externality_stake {
                Ok::<(), Error>(())
            } else {
                Err(Error::LessThanMinStake)
            },
    {
        let stake = match self.positive_externality_stake_balance.get(&account) {
            Some(s) => *s,
            None => 0,
        };
        if stake < self.minimum_positive_externality_stake {
            return Err(Error::LessThanMinStake);
        }
        Ok(())
    }
}

} // verus!
