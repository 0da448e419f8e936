//! Types and checks shared by the content pallets: content references,
//! authorship stamps and small vector helpers.
use vstd::prelude::*;
use crate::bytes::copy_bytes;

verus! {

pub type SpaceId = u64;

pub type PostId = u64;

pub type PositiveExternalityPostId = u64;

/// Who did something, at which block and at which time.
#[derive(PartialEq, Eq, Structural, Clone, Copy, Debug)]
pub struct WhoAndWhen {
    pub account: u64,
    pub block: u64,
    pub time: u64,
}

/// A stamp for `account` at the current `block` and `time`.
pub fn new_who_and_when(account: u64, block: u64, time: u64) -> (r: WhoAndWhen)
    ensures
        r == (WhoAndWhen { account, block, time }),
{
    WhoAndWhen { account, block, time }
}

/// A reference to off-chain content.
#[derive(Debug)]
pub enum Content {
    /// No content.
    Empty,
    /// A raw vector of bytes.
    Other(Vec<u8>),
    /// IPFS CID of content.
    IPFS(Vec<u8>),
}

/// Content as a mathematical value.
pub enum ContentView {
    Empty,
    Other(Seq<u8>),
    IPFS(Seq<u8>),
}

impl View for Content {
    type V = ContentView;

    open spec fn view(&self) -> ContentView {
        match self {
            Content::Empty => ContentView::Empty,
            Content::Other(v) => ContentView::Other(v@),
            Content::IPFS(v) => ContentView::IPFS(v@),
        }
    }
}

/// The bytes a content holds: nothing for `Empty`.
pub open spec fn content_bytes(c: ContentView) -> Seq<u8> {
    match c {
        ContentView::Empty => Seq::empty(),
        ContentView::Other(v) => v,
        ContentView::IPFS(v) => v,
    }
}

/// Whether `c` is a valid content: none, or an IPFS CID of 46 (v0) or 59 (v1) bytes.
pub open spec fn content_valid(c: ContentView) -> Result<(), ContentError> {
    match c {
        ContentView::Empty => Ok(()),
        ContentView::Other(_) => Err(ContentError::OtherContentTypeNotSupported),
        ContentView::IPFS(v) => if v.len() == 46 || v.len() == 59 {
            Ok(())
        } else {
            Err(ContentError::InvalidIpfsCid)
        },
    }
}

impl Content {
    /// The empty content.
    pub fn default() -> (r: Content)
        ensures
            r@ == ContentView::Empty,
    {
        Content::Empty
    }

    /// Whether there is no content.
    pub fn is_none(&self) -> (r: bool)
        ensures
            r == (self@ == ContentView::Empty),
    {
        match self {
            Content::Empty => true,
            _ => false,
        }
    }

    /// Whether there is some content.
    pub fn is_some(&self) -> (r: bool)
        ensures
            r == (self@ != ContentView::Empty),
    {
        !self.is_none()
    }

    /// Whether the content is an IPFS CID.
    pub fn is_ipfs(&self) -> (r: bool)
        ensures
            r == (self@ is IPFS),
    {
        match self {
            Content::IPFS(_) => true,
            _ => false,
        }
    }

    /// A copy of the content.
    pub fn copy(&self) -> (r: Content)
        ensures
            r@ == self@,
    {
        match self {
            Content::Empty => Content::Empty,
            Content::Other(v) => Content::Other(copy_bytes(v)),
            Content::IPFS(v) => Content::IPFS(copy_bytes(v)),
        }
    }

    /// Whether two contents are equal.
    pub fn same_as(&self, other: &Content) -> (r: bool)
        ensures
            r == (self@ == other@),
    {
        match (self, other) {
            (Content::Empty, Content::Empty) => true,
            (Content::Other(a), Content::Other(b)) => crate::bytes::bytes_equal(a, b),
            (Content::IPFS(a), Content::IPFS(b)) => crate::bytes::bytes_equal(a, b),
            _ => false,
        }
    }

    /// The bytes the content holds, nothing for `Empty`.
    pub fn into_bytes(self) -> (r: Vec<u8>)
        ensures
            r@ == content_bytes(self@),
    {
        match self {
            Content::Empty => Vec::new(),
            Content::Other(v) => v,
            Content::IPFS(v) => v,
        }
    }
}

/// Why a content was refused.
#[derive(PartialEq, Eq, Structural, Clone, Copy, Debug)]
pub enum ContentError {
    /// IPFS CID is invalid.
    InvalidIpfsCid,
    /// `Other` content type is not yet supported.
    OtherContentTypeNotSupported,
    /// Content type is `Empty`.
    ContentIsEmpty,
}

/// Accepts no content and IPFS CIDs of 46 or 59 bytes.
pub fn ensure_content_is_valid(content: Content) -> (r: Result<(), ContentError>)
    ensures
        r == content_valid(content@),
{
    match content {
        Content::Empty => Ok(()),
        Content::Other(_) => Err(ContentError::OtherContentTypeNotSupported),
        Content::IPFS(ipfs_cid) => {
            let len = ipfs_cid.len();
            if len == 46 || len == 59 {
                Ok(())
            } else {
                Err(ContentError::InvalidIpfsCid)
            }
        },
    }
}

/// Accepts any content but `Empty`.
pub fn ensure_content_is_some(content: &Content) -> (r: Result<(), ContentError>)
    ensures
        r == if content@ == ContentView::Empty {
            Err(ContentError::ContentIsEmpty)
        } else {
            Ok(())
        },
{
    if !content.is_some() {
        return Err(ContentError::ContentIsEmpty);
    }
    Ok(())
}

/// Position of the first occurrence of `x` in `s`, or `s.len()` when there is none.
pub open spec fn first_index_of(s: Seq<u64>, x: u64) -> int
    decreases s.len(),
{
    if s.len() == 0 {
        0
    } else if s[0] == x {
        0
    } else {
        1 + first_index_of(s.drop_first(), x)
    }
}

proof fn lemma_first_index_of(s: Seq<u64>, x: u64)
    ensures
        0 <= first_index_of(s, x) <= s.len(),
        first_index_of(s, x) < s.len() ==> s[first_index_of(s, x)] == x,
        forall|j: int| 0 <= j < first_index_of(s, x) ==> s[j] != x,
    decreases s.len(),
{
    if s.len() > 0 && s[0] != x {
        lemma_first_index_of(s.drop_first(), x);
        assert forall|j: int| 0 <= j < first_index_of(s, x) implies s[j] != x by {
            if j > 0 {
                assert(s[j] == s.drop_first()[j - 1]);
            }
        }
    }
}

/// Removes the first occurrence of `element`, moving the last item into its place.
pub fn remove_from_vec(vector: &mut Vec<u64>, element: u64)
    ensures
        ({
            let i = first_index_of(old(vector)@, element);
            if i < old(vector)@.len() {
                final(vector)@ == old(vector)@.update(i, old(vector)@.last()).drop_last()
            } else {
                final(vector)@ == old(vector)@
            }
        }),
{
    proof {
        lemma_first_index_of(vector@, element);
    }
    let mut i: usize = 0;
    while i < vector.len()
        invariant
            0 <= i <= vector@.len(),
            vector@ == old(vector)@,
            forall|j: int| 0 <= j < i ==> vector@[j] != element,
            i <= first_index_of(vector@, element),
            0 <= first_index_of(old(vector)@, element) <= old(vector)@.len(),
            first_index_of(old(vector)@, element) < old(vector)@.len() ==> old(vector)@[first_index_of(old(vector)@, element)] == element,
            forall|j: int| 0 <= j < first_index_of(old(vector)@, element) ==> old(vector)@[j] != element,
        decreases vector@.len() - i,
    {
        if vector[i] == element {
            assert(i == first_index_of(vector@, element));
            vector.swap_remove(i);
            return;
        }
        i = i + 1;
    }
}

/// `Some(true)` for `true`, `None` for `false`.
pub fn bool_to_option(value: bool) -> (r: Option<bool>)
    ensures
        r == if value {
            Some(true)
        } else {
            None::<bool>
        },
{
    if value {
        Some(value)
    } else {
        None
    }
}

} // verus!
