//! Tags of departments, kept in lexicographic order, which users can vote
//! down; a tag is removed when its downvotes reach the threshold.
use vstd::prelude::*;
use crate::bytes::copy_bytes;
use crate::lex::{lex_search, lex_slot, lex_sorted};
use crate::sorted::{binary_search, lemma_insert_sorted, strictly_sorted};
use std::collections::BTreeMap;

verus! {

/// The downvotes of a tag: their number and the voters, in increasing order.
#[derive(Debug)]
pub struct DownVoteDetails {
    pub downvote: u8,
    pub downvote_users: Vec<u64>,
}

/// Downvotes as a mathematical value.
pub struct DownVoteView {
    pub downvote: u8,
    pub downvote_users: Seq<u64>,
}

impl View for DownVoteDetails {
    type V = DownVoteView;

    open spec fn view(&self) -> DownVoteView {
        DownVoteView { downvote: self.downvote, downvote_users: self.downvote_users@ }
    }
}

/// No downvote.
pub open spec fn no_downvote() -> DownVoteView {
    DownVoteView { downvote: 0, downvote_users: Seq::empty() }
}

impl DownVoteDetails {
    /// No downvote.
    pub fn default() -> (r: DownVoteDetails)
        ensures
            r@ == no_downvote(),
    {
        DownVoteDetails { downvote: 0, downvote_users: Vec::new() }
    }
}

/// What the pallet reports.
#[derive(Debug)]
pub enum Event {
    SomethingStored(u32, u64),
    /// A tag was inserted.
    TagInserted(u128, Vec<u8>),
    /// A tag was removed.
    TagRemoved(u128, Vec<u8>),
}

/// Why a call was refused.
#[derive(PartialEq, Eq, Structural, Clone, Copy, Debug)]
pub enum Error {
    NoneValue,
    StorageOverflow,
    TagExists,
    TagDoesnotExists,
    UserAlreadyDownVoted,
    /// The downvote count would overflow.
    Overflow,
}

/// Downvotes that remove a tag unless set.
pub fn DefaultDownVoteThreshold() -> (r: u8)
    ensures
        r == 5,
{
    5
}

/// The storage of the pallet.
pub struct Pallet {
    pub something: Option<u32>,
    /// Department to its tags in lexicographic order, each with its downvotes.
    pub tags: BTreeMap<u128, Vec<(Vec<u8>, DownVoteDetails)>>,
    /// Downvotes that remove a tag.
    pub downvote_threshold: u8,
    pub events: Vec<Event>,
}

/// Tags and their downvotes as mathematical values.
pub open spec fn entries_view(s: Seq<(Vec<u8>, DownVoteDetails)>) -> Seq<(Seq<u8>, DownVoteView)> {
    s.map_values(|e: (Vec<u8>, DownVoteDetails)| (e.0@, e.1@))
}

/// The tags of a list of entries.
pub open spec fn names(s: Seq<(Seq<u8>, DownVoteView)>) -> Seq<Seq<u8>> {
    s.map_values(|e: (Seq<u8>, DownVoteView)| e.0)
}

/// Tags in lexicographic order, each with voters in increasing order.
pub open spec fn entries_wf(s: Seq<(Seq<u8>, DownVoteView)>) -> bool {
    &&& lex_sorted(names(s))
    &&& forall|i: int| 0 <= i < s.len() ==> strictly_sorted(#[trigger] s[i].1.downvote_users)
}

impl Pallet {
    /// The tags of department `d` with their downvotes.
    pub open spec fn entries(&self, d: u128) -> Seq<(Seq<u8>, DownVoteView)> {
        if self.tags@.contains_key(d) {
            entries_view(self.tags@[d]@)
        } else {
            Seq::empty()
        }
    }

    /// The downvotes of `tag` in department `d`: none unless it is a tag.
    pub open spec fn downvotes_of(&self, d: u128, tag: Seq<u8>) -> DownVoteView {
        let s = self.entries(d);
        if names(s).contains(tag) {
            s[names(s).index_of(tag)].1
        } else {
            no_downvote()
        }
    }

    /// Every department's tags are well formed.
    pub open spec fn wf(&self) -> bool {
        forall|d: u128| #[trigger] entries_wf(self.entries(d))
    }

    /// No tag yet; five downvotes remove a tag.
    pub fn new() -> (r: Pallet)
        ensures
            r.wf(),
            r.something == None::<u32>,
            r.tags@ == Map::<u128, Vec<(Vec<u8>, DownVoteDetails)>>::empty(),
            r.downvote_threshold == 5,
            r.events@.len() == 0,
    {
        let r = Pallet {
            something: None,
            tags: BTreeMap::new(),
            downvote_threshold: DefaultDownVoteThreshold(),
            events: Vec::new(),
        };
        assert forall|d: u128| #[trigger] entries_wf(r.entries(d)) by {
            assert(names(r.entries(d)) =~= Seq::<Seq<u8>>::empty());
        }
        r
    }

    /// The tags of department `departmentid`, in lexicographic order.
    pub fn department_tags(&self, departmentid: u128) -> (r: Vec<Vec<u8>>)
        ensures
            r@.map_values(|v: Vec<u8>| v@) == names(self.entries(departmentid)),
    {
        let mut r: Vec<Vec<u8>> = Vec::new();
        match self.tags.get(&departmentid) {
            Some(es) => {
                let mut i: usize = 0;
                while i < es.len()
                    invariant
                        0 <= i <= es@.len(),
                        entries_view(es@) == self.entries(departmentid),
                        r@.len() == i,
                        forall|k: int| 0 <= k < i ==> #[trigger] r@[k]@ == es@[k].0@,
                    decreases es@.len() - i,
                {
                    r.push(copy_bytes(&es[i].0));
                    i = i + 1;
                }
                assert(r@.map_values(|v: Vec<u8>| v@) =~= names(self.entries(departmentid)));
            },
            None => {
                assert(r@.map_values(|v: Vec<u8>| v@) =~= names(self.entries(departmentid)));
            },
        }
        r
    }

    /// The downvotes of `tag` in department `departmentid`.
    pub fn downvote_details_of_tag(&self, departmentid: u128, tag: &Vec<u8>) -> (r: DownVoteDetails)
        requires
            self.wf(),
        ensures
            r@ == self.downvotes_of(departmentid, tag@),
    {
        match self.search(departmentid, tag) {
            Ok(i) => {
                let es = self.tags.get(&departmentid).unwrap();
                let users = crate::sorted::copy_ids(&es[i].1.downvote_users);
                proof {
                    self.lemma_index_of(departmentid, i as int);
                }
                DownVoteDetails { downvote: es[i].1.downvote, downvote_users: users }
            },
            Err(_) => DownVoteDetails::default(),
        }
    }

    /// In a well formed department, the position of a tag is where it is found.
    proof fn lemma_index_of(&self, d: u128, i: int)
        requires
            self.wf(),
            0 <= i < self.entries(d).len(),
        ensures
            names(self.entries(d)).index_of(self.entries(d)[i].0) == i,
            names(self.entries(d)).contains(self.entries(d)[i].0),
    {
        let n = names(self.entries(d));
        assert(entries_wf(self.entries(d)));
        assert(n[i] == self.entries(d)[i].0);
        let j = n.index_of(n[i]);
        if j != i {
            if j < i {
                crate::lex::lemma_lex_total(n[j], n[i]);
            } else {
                crate::lex::lemma_lex_total(n[i], n[j]);
            }
        }
    }

    /// Binary search of `tag` among the tags of department `departmentid`.
    fn search(&self, departmentid: u128, tag: &Vec<u8>) -> (r: Result<usize, usize>)
        requires
            self.wf(),
        ensures
            match r {
                Ok(i) => i < self.entries(departmentid).len() && self.entries(departmentid)[i as int].0
                    == tag@ && self.tags@.contains_key(departmentid),
                Err(i) => lex_slot(names(self.entries(departmentid)), i as int, tag@) && !names(
                    self.entries(departmentid),
                ).contains(tag@),
            },
    {
        let names_vec = self.department_tags(departmentid);
        proof {
            assert(entries_wf(self.entries(departmentid)));
        }
        match lex_search(&names_vec, tag) {
            Ok(i) => {
                assert(names_vec@.map_values(|v: Vec<u8>| v@)[i as int] == names_vec@[i as int]@);
                proof {
                    if !self.tags@.contains_key(departmentid) {
                        assert(names(self.entries(departmentid)).len() == 0);
                    }
                }
                Ok(i)
            },
            Err(i) => Err(i),
        }
    }

    /// Refuses a tag that department `departmentid` does not have.
    pub fn ensure_tag_exists(&self, departmentid: u128, tag: &Vec<u8>) -> (r: Result<(), Error>)
        requires
            self.wf(),
        ensures
            r == if names(self.entries(departmentid)).contains(tag@) {
                Ok::<(), Error>(())
            } else {
                Err(Error::TagDoesnotExists)
            },
    {
        match self.search(departmentid, tag) {
            Ok(i) => {
                assert(names(self.entries(departmentid))[i as int] == tag@);
                Ok(())
            },
            Err(_) => Err(Error::TagDoesnotExists),
        }
    }

    /// `who` adds `tag` to department `departmentid`, in its place in
    /// lexicographic order, with no downvote.
    pub fn add_tag(&mut self, who: u64, departmentid: u128, tag: Vec<u8>) -> (r: Result<(), Error>)
        requires
            old(self).wf(),
        ensures
            final(self).wf(),
            r == if names(old(self).entries(departmentid)).contains(tag@) {
                Err(Error::TagExists)
            } else {
                Ok(())
            },
            r.is_err() ==> *final(self) == *old(self),
            r.is_ok() ==> {
                let d = departmentid;
                &&& exists|i: int|
                    lex_slot(names(old(self).entries(d)), i, tag@) && final(self).entries(d) == old(self).entries(d).insert(i, (tag@, no_downvote()))
                &&& final(self).tags@ == old(self).tags@.insert(d, final(self).tags@[d])
                &&& final(self).events@.len() == old(self).events@.len() + 1
                &&& final(self).events@.drop_last() == old(self).events@
                &&& final(self).events@.last() matches Event::TagInserted(e, t) && e == d && t@
                    == tag@
                &&& final(self).something == old(self).something
                &&& final(self).downvote_threshold == old(self).downvote_threshold
            },
    {
        let index = match self.search(departmentid, &tag) {
            Ok(i) => {
                assert(names(self.entries(departmentid))[i as int] == tag@);
                return Err(Error::TagExists);
            },
            Err(i) => i,
        };
        let ghost old_e = self.entries(departmentid);
        let mut es = match self.tags.remove(&departmentid) {
            Some(v) => v,
            None => Vec::new(),
        };
        assert(entries_view(es@) == old_e);
        let event_tag = copy_bytes(&tag);
        es.insert(index, (tag, DownVoteDetails::default()));
        self.tags.insert(departmentid, es);
        self.events.push(Event::TagInserted(departmentid, event_tag));
        proof {
            let ne = self.entries(departmentid);
            assert(ne =~= old_e.insert(index as int, (tag@, no_downvote())));
            assert(names(ne) =~= names(old_e).insert(index as int, tag@));
            assert(entries_wf(old_e));
            assert forall|a: int, b: int| 0 <= a < b < names(ne).len() implies crate::lex::lex_lt(
                names(ne)[a],
                names(ne)[b],
            ) by {
                let n = names(old_e);
                if b < index {
                } else if a < index && b == index {
                } else if a < index {
                    assert(names(ne)[b] == n[b - 1]);
                } else if a == index {
                    assert(names(ne)[b] == n[b - 1]);
                } else {
                    assert(names(ne)[a] == n[a - 1]);
                    assert(names(ne)[b] == n[b - 1]);
                }
            }
            assert forall|i: int| 0 <= i < ne.len() implies strictly_sorted(
                #[trigger] ne[i].1.downvote_users,
            ) by {
                if i < index {
                    assert(ne[i] == old_e[i]);
                } else if i > index {
                    assert(ne[i] == old_e[i - 1]);
                } else {
                    assert(ne[i].1.downvote_users =~= Seq::<u64>::empty());
                }
            }
            assert(entries_wf(ne));
            assert forall|dd: u128| #[trigger] entries_wf(self.entries(dd)) by {
                if dd != departmentid {
                    assert(entries_wf(old(self).entries(dd)));
                    assert(self.entries(dd) == old(self).entries(dd));
                }
            }
        }
        Ok(())
    }

    /// Removes `tag` and its downvotes from department `departmentid`.
    pub fn remove_tags(&mut self, departmentid: u128, tag: Vec<u8>) -> (r: Result<(), Error>)
        requires
            old(self).wf(),
        ensures
            final(self).wf(),
            r == if names(old(self).entries(departmentid)).contains(tag@) {
                Ok::<(), Error>(())
            } else {
                Err(Error::TagDoesnotExists)
            },
            r.is_err() ==> *final(self) == *old(self),
            r.is_ok() ==> {
                let d = departmentid;
                &&& exists|i: int|
                    0 <= i < old(self).entries(d).len() && old(self).entries(d)[i].0 == tag@ && final(self).entries(d) == old(self).entries(d).remove(i)
                &&& final(self).tags@ == old(self).tags@.insert(d, final(self).tags@[d])
                &&& final(self).events@.len() == old(self).events@.len() + 1
                &&& final(self).events@.drop_last() == old(self).events@
                &&& final(self).events@.last() matches Event::TagRemoved(e, t) && e == d && t@
                    == tag@
                &&& final(self).something == old(self).something
                &&& final(self).downvote_threshold == old(self).downvote_threshold
            },
    {
        let index = match self.search(departmentid, &tag) {
            Ok(i) => i,
            Err(_) => return Err(Error::TagDoesnotExists),
        };
        proof {
            assert(names(self.entries(departmentid))[index as int] == tag@);
        }
        let ghost old_e = self.entries(departmentid);
        let mut es = match self.tags.remove(&departmentid) {
            Some(v) => v,
            None => Vec::new(),
        };
        assert(entries_view(es@) == old_e);
        let _removed = es.remove(index);
        self.tags.insert(departmentid, es);
        self.events.push(Event::TagRemoved(departmentid, tag));
        proof {
            let ne = self.entries(departmentid);
            assert(ne =~= old_e.remove(index as int));
            assert(entries_wf(old_e));
            assert forall|a: int, b: int| 0 <= a < b < names(ne).len() implies crate::lex::lex_lt(
                names(ne)[a],
                names(ne)[b],
            ) by {
                let n = names(old_e);
                let a1 = if a < index { a } else { a + 1 };
                let b1 = if b < index { b } else { b + 1 };
                assert(names(ne)[a] == n[a1] && names(ne)[b] == n[b1]);
            }
            assert forall|i: int| 0 <= i < ne.len() implies strictly_sorted(
                #[trigger] ne[i].1.downvote_users,
            ) by {
                let i1 = if i < index { i } else { i + 1 };
                assert(ne[i] == old_e[i1]);
            }
            assert forall|dd: u128| #[trigger] entries_wf(self.entries(dd)) by {
                if dd != departmentid {
                    assert(entries_wf(old(self).entries(dd)));
                    assert(self.entries(dd) == old(self).entries(dd));
                }
            }
        }
        Ok(())
    }

    /// Records a downvote of `who` on the existing `tag` of department
    /// `departmentid` and gives the new count; a second downvote of the same user
    /// and a count past 255 are refused.
    fn ensure_user_not_downvoted_then_downvote(&mut self, departmentid: u128, who: u64, tag: &Vec<u8>) -> (r:
        Result<u8, Error>)
        requires
            old(self).wf(),
            names(old(self).entries(departmentid)).contains(tag@),
        ensures
            final(self).wf(),
            ({
                let d = departmentid;
                let dv = old(self).downvotes_of(d, tag@);
                &&& r == if dv.downvote == u8::MAX {
                    Err(Error::Overflow)
                } else if dv.downvote_users.contains(who) {
                    Err(Error::UserAlreadyDownVoted)
                } else {
                    Ok((dv.downvote + 1) as u8)
                }
                &&& r.is_err() ==> *final(self) == *old(self)
                &&& r.is_ok() ==> {
                    &&& exists|i: int, j: int|
                        #![trigger old(self).entries(d)[i], crate::election::sorted_slot(dv.downvote_users, j, who)]
                        {
                            &&& 0 <= i < old(self).entries(d).len()
                            &&& old(self).entries(d)[i].0 == tag@
                            &&& crate::election::sorted_slot(dv.downvote_users, j, who)
                            &&& final(self).entries(d) == old(self).entries(d).update(
                                i,
                                (
                                    tag@,
                                    DownVoteView {
                                        downvote: r->Ok_0,
                                        downvote_users: dv.downvote_users.insert(j, who),
                                    },
                                ),
                            )
                        }
                    &&& final(self).tags@ == old(self).tags@.insert(d, final(self).tags@[d])
                    &&& final(self).events == old(self).events
                    &&& final(self).something == old(self).something
                    &&& final(self).downvote_threshold == old(self).downvote_threshold
                }
            }),
    {
        let index = match self.search(departmentid, tag) {
            Ok(i) => i,
            Err(_) => return Err(Error::TagDoesnotExists),
        };
        proof {
            self.lemma_index_of(departmentid, index as int);
            assert(entries_wf(self.entries(departmentid)));
        }
        let ghost old_e = self.entries(departmentid);
        let ghost dv = old_e[index as int].1;
        let es_ref = self.tags.get(&departmentid).unwrap();
        let count = es_ref[index as usize].1.downvote;
        if count == u8::MAX {
            return Err(Error::Overflow);
        }
        let new_count = count + 1;
        let pos = match binary_search(&es_ref[index].1.downvote_users, who) {
            Ok(_) => return Err(Error::UserAlreadyDownVoted),
            Err(j) => j,
        };
        let mut es = self.tags.remove(&departmentid).unwrap();
        assert(entries_view(es@) == old_e);
        let (t, mut details) = es.remove(index);
        let ghost before_users = details.downvote_users@;
        details.downvote_users.insert(pos, who);
        details.downvote = new_count;
        es.insert(index, (t, details));
        self.tags.insert(departmentid, es);
        proof {
            lemma_insert_sorted(before_users, pos as int, who);
            let ne = self.entries(departmentid);
            let entry = (
                tag@,
                DownVoteView { downvote: new_count, downvote_users: dv.downvote_users.insert(pos as int, who) },
            );
            assert(ne =~= old_e.update(index as int, entry));
            assert(names(ne) =~= names(old_e));
            assert(crate::election::sorted_slot(dv.downvote_users, pos as int, who));
            assert forall|i: int| 0 <= i < ne.len() implies strictly_sorted(
                #[trigger] ne[i].1.downvote_users,
            ) by {
                if i != index {
                    assert(ne[i] == old_e[i]);
                }
            }
            assert forall|dd: u128| #[trigger] entries_wf(self.entries(dd)) by {
                if dd != departmentid {
                    assert(entries_wf(old(self).entries(dd)));
                    assert(self.entries(dd) == old(self).entries(dd));
                }
            }
            assert(dv == old(self).downvotes_of(departmentid, tag@));
            assert({
                &&& 0 <= index < old(self).entries(departmentid).len()
                &&& old(self).entries(departmentid)[index as int].0 == tag@
                &&& crate::election::sorted_slot(dv.downvote_users, pos as int, who)
                &&& self.entries(departmentid) == old(self).entries(departmentid).update(
                    index as int,
                    (
                        tag@,
                        DownVoteView {
                            downvote: new_count,
                            downvote_users: dv.downvote_users.insert(pos as int, who),
                        },
                    ),
                )
            });
        }
        Ok(new_count)
    }

    /// `who` votes down the tag `tag` of department `departmentid`; the tag is
    /// removed once its downvotes reach the threshold.
    pub fn donwvote_tag(&mut self, who: u64, departmentid: u128, tag: Vec<u8>) -> (r: Result<(), Error>)
        requires
            old(self).wf(),
        ensures
            final(self).wf(),
            ({
                let d = departmentid;
                let dv = old(self).downvotes_of(d, tag@);
                &&& r == if !names(old(self).entries(d)).contains(tag@) {
                    Err(Error::TagDoesnotExists)
                } else if dv.downvote == u8::MAX {
                    Err(Error::Overflow)
                } else if dv.downvote_users.contains(who) {
                    Err(Error::UserAlreadyDownVoted)
                } else {
                    Ok(())
                }
                &&& r.is_err() ==> *final(self) == *old(self)
                &&& r.is_ok() ==> {
                    let count = (dv.downvote + 1) as u8;
                    &&& final(self).tags@ == old(self).tags@.insert(d, final(self).tags@[d])
                    &&& final(self).something == old(self).something
                    &&& final(self).downvote_threshold == old(self).downvote_threshold
                    &&& count >= old(self).downvote_threshold ==> {
                        &&& exists|i: int|
                            0 <= i < old(self).entries(d).len() && old(self).entries(d)[i].0
                                == tag@ && final(self).entries(d) == old(self).entries(d).remove(i)
                        &&& final(self).events@.len() == old(self).events@.len() + 1
                        &&& final(self).events@.drop_last() == old(self).events@
                        &&& final(self).events@.last() matches Event::TagRemoved(e, t) && e == d
                            && t@ == tag@
                    }
                    &&& count < old(self).downvote_threshold ==> {
                        &&& exists|i: int, j: int|
                            #![trigger old(self).entries(d)[i], crate::election::sorted_slot(dv.downvote_users, j, who)]
                            {
                                &&& 0 <= i < old(self).entries(d).len()
                                &&& old(self).entries(d)[i].0 == tag@
                                &&& crate::election::sorted_slot(dv.downvote_users, j, who)
                                &&& final(self).entries(d) == old(self).entries(d).update(
                                    i,
                                    (
                                        tag@,
                                        DownVoteView {
                                            downvote: count,
                                            downvote_users: dv.downvote_users.insert(j, who),
                                        },
                                    ),
                                )
                            }
                        &&& final(self).events == old(self).events
                    }
                }
            }),
    {
        self.ensure_tag_exists(departmentid, &tag)?;
        let dv = self.ensure_user_not_downvoted_then_downvote(departmentid, who, &tag)?;
        let ghost mid = *self;
        let threshold = self.downvote_threshold;
        if dv >= threshold {
            let ghost e1 = self.entries(departmentid);
            proof {
                assert(names(e1) =~= names(old(self).entries(departmentid)));
            }
            let _ = self.remove_tags(departmentid, tag);
            proof {
                let d = departmentid;
                let i = choose|i: int, j: int|
                    #![trigger old(self).entries(d)[i], crate::election::sorted_slot(old(self).downvotes_of(d, tag@).downvote_users, j, who)]
                    {
                        &&& 0 <= i < old(self).entries(d).len()
                        &&& old(self).entries(d)[i].0 == tag@
                        &&& crate::election::sorted_slot(
                            old(self).downvotes_of(d, tag@).downvote_users,
                            j,
                            who,
                        )
                        &&& mid.entries(d) == old(self).entries(d).update(
                            i,
                            (
                                tag@,
                                DownVoteView {
                                    downvote: dv,
                                    downvote_users: old(self).downvotes_of(
                                        d,
                                        tag@,
                                    ).downvote_users.insert(j, who),
                                },
                            ),
                        )
                    };
                let k = choose|k: int|
                    0 <= k < e1.len() && e1[k].0 == tag@ && self.entries(d) == e1.remove(k);
                assert(entries_wf(e1));
                if k != i.0 {
                    assert(names(e1)[k] == names(e1)[i.0]);
                    if k < i.0 {
                        crate::lex::lemma_lex_total(names(e1)[k], names(e1)[i.0]);
                    } else {
                        crate::lex::lemma_lex_total(names(e1)[i.0], names(e1)[k]);
                    }
                }
                assert(self.entries(d) =~= old(self).entries(d).remove(i.0));
            }
        }
        Ok(())
    }

    /// Stores `something` for `who`.
    pub fn do_something(&mut self, who: u64, something: u32) -> (r: Result<(), Error>)
        requires
            old(self).wf(),
        ensures
            final(self).wf(),
            r == Ok::<(), Error>(()),
            final(self).something == Some(something),
            final(self).tags == old(self).tags,
            final(self).downvote_threshold == old(self).downvote_threshold,
            final(self).events@.len() == old(self).events@.len() + 1,
            final(self).events@.drop_last() == old(self).events@,
            final(self).events@.last() matches Event::SomethingStored(s, w) && s == something && w
                == who,
    {
        self.something = Some(something);
        self.events.push(Event::SomethingStored(something, who));
        proof {
            assert forall|d: u128| #[trigger] entries_wf(self.entries(d)) by {
                assert(entries_wf(old(self).entries(d)));
            }
        }
        Ok(())
    }

    /// Increments the stored value: `NoneValue` when there is none,
    /// `StorageOverflow` when it is at its maximum.
    pub fn cause_error(&mut self) -> (r: Result<(), Error>)
        requires
            old(self).wf(),
        ensures
            final(self).wf(),
            r == match old(self).something {
                None => Err(Error::NoneValue),
                Some(v) => if v == u32::MAX {
                    Err(Error::StorageOverflow)
                } else {
                    Ok(())
                },
            },
            r.is_err() ==> *final(self) == *old(self),
            r.is_ok() ==> *final(self) == (Pallet {
                something: Some((old(self).something->Some_0 + 1) as u32),
                ..*old(self)
            }),
    {
        match self.something {
            None => Err(Error::NoneValue),
            Some(old_value) => {
                if old_value == u32::MAX {
                    return Err(Error::StorageOverflow);
                }
                self.something = Some(old_value + 1);
                proof {
                    assert forall|d: u128| #[trigger] entries_wf(self.entries(d)) by {
                        assert(entries_wf(old(self).entries(d)));
                    }
                }
                Ok(())
            },
        }
    }
}

/// A tag added and then removed leaves the tags of the department as they
/// were: the tag inserted at its place in lexicographic order is the one that
/// the removal takes out.
pub proof fn law_remove_undoes_add(entries: Seq<(Seq<u8>, DownVoteView)>, tag: Seq<u8>, i: int, j: int)
    requires
        entries_wf(entries),
        lex_slot(names(entries), i, tag),
        0 <= j < entries.len() + 1,
        entries.insert(i, (tag, no_downvote()))[j].0 == tag,
    ensures
        entries.insert(i, (tag, no_downvote())).remove(j) == entries,
{
    let e2 = entries.insert(i, (tag, no_downvote()));
    if j < i {
        assert(e2[j] == entries[j]);
        assert(names(entries)[j] == entries[j].0);
        crate::lex::lemma_lex_total(entries[j].0, tag);
    } else if j > i {
        assert(e2[j] == entries[j - 1]);
        assert(names(entries)[j - 1] == entries[j - 1].0);
        crate::lex::lemma_lex_total(tag, entries[j - 1].0);
    }
    assert(e2.remove(j) =~= entries);
}

} // verus!
