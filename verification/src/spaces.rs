//! Spaces: the places that posts belong to.
use vstd::prelude::*;
use crate::support::{Content, ContentView, SpaceId, WhoAndWhen};
use std::collections::BTreeMap;

pub use crate::support::{ContentError, ensure_content_is_valid};

verus! {

pub const FIRST_SPACE_ID: u64 = 1;

pub const RESERVED_SPACE_COUNT: u64 = 1000;

/// A space.
#[derive(Debug)]
pub struct Space {
    pub id: SpaceId,
    pub created: WhoAndWhen,
    pub owner: u64,
    pub content: Content,
    pub hidden: bool,
}

/// A space as a mathematical value.
pub struct SpaceView {
    pub id: SpaceId,
    pub created: WhoAndWhen,
    pub owner: u64,
    pub content: ContentView,
    pub hidden: bool,
}

impl View for Space {
    type V = SpaceView;

    open spec fn view(&self) -> SpaceView {
        SpaceView {
            id: self.id,
            created: self.created,
            owner: self.owner,
            content: self.content@,
            hidden: self.hidden,
        }
    }
}

impl Space {
    /// A copy of the space.
    pub fn copy(&self) -> (r: Space)
        ensures
            r@ == self@,
    {
        Space {
            id: self.id,
            created: self.created,
            owner: self.owner,
            content: self.content.copy(),
            hidden: self.hidden,
        }
    }
}

/// Why a space operation was refused.
#[derive(PartialEq, Eq, Structural, Clone, Copy, Debug)]
pub enum Error {
    /// Space was not found by id.
    SpaceNotFound,
}

/// The storage of the spaces pallet.
pub struct Pallet {
    pub space_by_id: BTreeMap<SpaceId, Space>,
}

/// The spaces of a storage map, as mathematical values.
pub open spec fn spaces_view(m: Map<SpaceId, Space>) -> Map<SpaceId, SpaceView> {
    m.map_values(|s: Space| s@)
}

impl Pallet {
    /// The space stored under `space_id`.
    pub fn require_space(&self, space_id: SpaceId) -> (r: Result<Space, Error>)
        ensures
            match r {
                Ok(s) => self.space_by_id@.contains_key(space_id) && s@ == self.space_by_id@[space_id]@,
                Err(e) => !self.space_by_id@.contains_key(space_id) && e == Error::SpaceNotFound,
            },
    {
        match self.space_by_id.get(&space_id) {
            Some(s) => Ok(s.copy()),
            None => Err(Error::SpaceNotFound),
        }
    }
}

} // verus!
