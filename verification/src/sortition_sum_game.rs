//! The sortition sum trees of all games, each under its own name.
use vstd::prelude::*;
use crate::bytes::{bytes_equal, copy_bytes};
use crate::sortition_sum_tree::{
    SortitionSumTree, first_leaf, law_new_tree_total_is_stake_sum, law_set_keeps_total_stake_sum,
    leaf_window, stake_sum,
};

verus! {

/// The name a sum tree is stored under.
pub enum SumTreeName {
    UniqueIdenfier1 { citizen_id: u128, name: Vec<u8> },
    ProfileValidation { citizen_address: u64, block_number: u64 },
    ProjectTips { project_id: u64, block_number: u64 },
    DepartmentRequiredFund { department_required_fund_id: u64, block_number: u64 },
}

/// A tree name as a mathematical value.
pub enum SumTreeKey {
    UniqueIdenfier1 { citizen_id: u128, name: Seq<u8> },
    ProfileValidation { citizen_address: u64, block_number: u64 },
    ProjectTips { project_id: u64, block_number: u64 },
    DepartmentRequiredFund { department_required_fund_id: u64, block_number: u64 },
}

impl View for SumTreeName {
    type V = SumTreeKey;

    open spec fn view(&self) -> SumTreeKey {
        match self {
            SumTreeName::UniqueIdenfier1 { citizen_id, name } => SumTreeKey::UniqueIdenfier1 {
                citizen_id: *citizen_id,
                name: name@,
            },
            SumTreeName::ProfileValidation { citizen_address, block_number } =>
                SumTreeKey::ProfileValidation {
                citizen_address: *citizen_address,
                block_number: *block_number,
            },
            SumTreeName::ProjectTips { project_id, block_number } => SumTreeKey::ProjectTips {
                project_id: *project_id,
                block_number: *block_number,
            },
            SumTreeName::DepartmentRequiredFund { department_required_fund_id, block_number } =>
                SumTreeKey::DepartmentRequiredFund {
                department_required_fund_id: *department_required_fund_id,
                block_number: *block_number,
            },
        }
    }
}

impl SumTreeName {
    /// Whether two names denote the same tree.
    pub fn same_as(&self, other: &SumTreeName) -> (r: bool)
        ensures
            r == (self@ == other@),
    {
        match (self, other) {
            (
                SumTreeName::UniqueIdenfier1 { citizen_id: a, name: n },
                SumTreeName::UniqueIdenfier1 { citizen_id: b, name: m },
            ) => *a == *b && bytes_equal(n, m),
            (
                SumTreeName::ProfileValidation { citizen_address: a, block_number: x },
                SumTreeName::ProfileValidation { citizen_address: b, block_number: y },
            ) => *a == *b && *x == *y,
            (
                SumTreeName::ProjectTips { project_id: a, block_number: x },
                SumTreeName::ProjectTips { project_id: b, block_number: y },
            ) => *a == *b && *x == *y,
            (
                SumTreeName::DepartmentRequiredFund {
                    department_required_fund_id: a,
                    block_number: x,
                },
                SumTreeName::DepartmentRequiredFund {
                    department_required_fund_id: b,
                    block_number: y,
                },
            ) => *a == *b && *x == *y,
            _ => false,
        }
    }

    /// A copy of the name.
    pub fn copy(&self) -> (r: SumTreeName)
        ensures
            r@ == self@,
    {
        match self {
            SumTreeName::UniqueIdenfier1 { citizen_id, name } => SumTreeName::UniqueIdenfier1 {
                citizen_id: *citizen_id,
                name: copy_bytes(name),
            },
            SumTreeName::ProfileValidation { citizen_address, block_number } =>
                SumTreeName::ProfileValidation {
                citizen_address: *citizen_address,
                block_number: *block_number,
            },
            SumTreeName::ProjectTips { project_id, block_number } => SumTreeName::ProjectTips {
                project_id: *project_id,
                block_number: *block_number,
            },
            SumTreeName::DepartmentRequiredFund { department_required_fund_id, block_number } =>
                SumTreeName::DepartmentRequiredFund {
                department_required_fund_id: *department_required_fund_id,
                block_number: *block_number,
            },
        }
    }
}

/// Why an operation on the sum trees was refused.
#[derive(PartialEq, Eq, Structural, Debug, Clone, Copy)]
pub enum Error {
    KMustGreaterThanOne,
    TreeAlreadyExists,
    TreeDoesnotExist,
}

/// A well-formed tree whose root holds the sum of all its stakes.
pub open spec fn tree_sound(t: SortitionSumTree) -> bool {
    &&& t.wf()
    &&& t.total() == stake_sum(t.stakes())
}

/// All sum trees, each under a distinct name.
pub struct SortitionSumTrees {
    names: Vec<SumTreeName>,
    trees: Vec<SortitionSumTree>,
}

impl SortitionSumTrees {
    /// The names of the stored trees, in storage order.
    pub closed spec fn keys(&self) -> Seq<SumTreeKey> {
        self.names@.map_values(|n: SumTreeName| n@)
    }

    /// Names are distinct and every tree is well formed.
    pub closed spec fn wf(&self) -> bool {
        &&& self.names@.len() == self.trees@.len()
        &&& forall|i: int, j: int|
            0 <= i < j < self.names@.len() ==> self.names@[i]@ != self.names@[j]@
        &&& forall|i: int| 0 <= i < self.trees@.len() ==> tree_sound(#[trigger] self.trees@[i])
    }

    /// The tree stored under `key`, if any.
    pub closed spec fn tree_of(&self, key: SumTreeKey) -> Option<SortitionSumTree> {
        if exists|i: int| 0 <= i < self.names@.len() && #[trigger] self.names@[i]@ == key {
            let i = choose|i: int| 0 <= i < self.names@.len() && #[trigger] self.names@[i]@ == key;
            Some(self.trees@[i])
        } else {
            None
        }
    }

    proof fn lemma_tree_at(&self, i: int)
        requires
            self.wf(),
            0 <= i < self.names@.len(),
        ensures
            self.tree_of(self.names@[i]@) == Some(self.trees@[i]),
    {
        let key = self.names@[i]@;
        let j = choose|j: int| 0 <= j < self.names@.len() && #[trigger] self.names@[j]@ == key;
        if j < i {
            assert(self.names@[j]@ != self.names@[i]@);
        }
        if i < j {
            assert(self.names@[i]@ != self.names@[j]@);
        }
    }

    /// The root of every stored tree holds the sum of all stakes in it.
    pub proof fn law_total_is_stake_sum(&self, key: SumTreeKey)
        requires
            self.wf(),
        ensures
            self.tree_of(key) matches Some(t) ==> t.total() == stake_sum(t.stakes()),
    {
        if exists|i: int| 0 <= i < self.names@.len() && #[trigger] self.names@[i]@ == key {
            let i = choose|i: int| 0 <= i < self.names@.len() && #[trigger] self.names@[i]@ == key;
            assert(tree_sound(self.trees@[i]));
        }
    }

    /// No trees at all.
    pub fn new() -> (r: Self)
        ensures
            r.wf(),
            forall|key: SumTreeKey| r.tree_of(key).is_none(),
    {
        SortitionSumTrees { names: Vec::new(), trees: Vec::new() }
    }

    fn position(&self, key: &SumTreeName) -> (r: Option<usize>)
        requires
            self.wf(),
        ensures
            match r {
                Some(i) => i < self.names@.len() && self.names@[i as int]@ == key@ && self.tree_of(
                    key@,
                ) == Some(self.trees@[i as int]),
                None => self.tree_of(key@).is_none(),
            },
    {
        let mut i: usize = 0;
        while i < self.names.len()
            invariant
                self.wf(),
                0 <= i <= self.names@.len(),
                forall|j: int| 0 <= j < i ==> self.names@[j]@ != key@,
            decreases self.names@.len() - i,
        {
            if self.names[i].same_as(key) {
                proof {
                    self.lemma_tree_at(i as int);
                }
                return Some(i);
            }
            i = i + 1;
        }
        None
    }

    /// Creates an empty tree with `k` children per inner node under `key`.
    pub fn create_tree(&mut self, key: SumTreeName, k: u64) -> (r: Result<(), Error>)
        requires
            old(self).wf(),
        ensures
            final(self).wf(),
            k < 1 ==> r == Err::<(), Error>(Error::KMustGreaterThanOne),
            k >= 1 && old(self).tree_of(key@).is_some() ==> r == Err::<(), Error>(
                Error::TreeAlreadyExists,
            ),
            r.is_err() ==> *final(self) == *old(self),
            k >= 1 && old(self).tree_of(key@).is_none() ==> r.is_ok(),
            r.is_ok() ==> (final(self).tree_of(key@) matches Some(t) && t.wf() && t.spec_k() == k
                && t.node_values() == seq![0u64] && t.vacancies() == Seq::<u64>::empty()
                && t.stakes() == Map::<u64, u64>::empty()),
            forall|other: SumTreeKey|
                other != key@ ==> final(self).tree_of(other) == old(self).tree_of(other),
    {
        if k < 1 {
            return Err(Error::KMustGreaterThanOne);
        }
        match self.position(&key) {
            Some(_) => Err(Error::TreeAlreadyExists),
            None => {
                let ghost old_store = *self;
                let tree = SortitionSumTree::new_tree(k);
                self.names.push(key);
                self.trees.push(tree);
                proof {
                    let n = self.names@.len() - 1;
                    assert forall|i: int, j: int|
                        0 <= i < j < self.names@.len() implies self.names@[i]@
                        != self.names@[j]@ by {
                        if j == n {
                            assert(old_store.names@[i] == self.names@[i]);
                        } else {
                            assert(old_store.names@[i] == self.names@[i]);
                            assert(old_store.names@[j] == self.names@[j]);
                        }
                    }
                    law_new_tree_total_is_stake_sum(tree);
                    assert forall|i: int| 0 <= i < self.trees@.len() implies tree_sound(
                        #[trigger] self.trees@[i],
                    ) by {
                        if i < n {
                            assert(old_store.trees@[i] == self.trees@[i]);
                            assert(tree_sound(old_store.trees@[i]));
                        }
                    }
                    self.lemma_tree_at(n);
                    assert forall|other: SumTreeKey| other != key@ implies self.tree_of(other)
                        == old_store.tree_of(other) by {
                        self.lemma_tree_of_extended(old_store, other);
                    }
                }
                Ok(())
            },
        }
    }

    proof fn lemma_tree_of_extended(&self, before: Self, other: SumTreeKey)
        requires
            before.wf(),
            self.wf(),
            self.names@.len() == before.names@.len() + 1,
            forall|i: int| 0 <= i < before.names@.len() ==> self.names@[i] == before.names@[i],
            forall|i: int| 0 <= i < before.trees@.len() ==> self.trees@[i] == before.trees@[i],
            self.names@[before.names@.len() as int]@ != other,
        ensures
            self.tree_of(other) == before.tree_of(other),
    {
        if exists|i: int| 0 <= i < before.names@.len() && #[trigger] before.names@[i]@ == other {
            let i = choose|i: int| 0 <= i < before.names@.len() && #[trigger] before.names@[i]@
                == other;
            before.lemma_tree_at(i);
            self.lemma_tree_at(i);
        } else {
            if exists|i: int| 0 <= i < self.names@.len() && #[trigger] self.names@[i]@ == other {
                let i = choose|i: int| 0 <= i < self.names@.len() && #[trigger] self.names@[i]@
                    == other;
                assert(before.names@[i]@ == other);
            }
        }
    }

    /// `self` holds the trees of `before`, with the one at `i` replaced by `t`.
    proof fn lemma_tree_of_replaced(&self, before: Self, i: int, t: SortitionSumTree)
        requires
            before.wf(),
            0 <= i < before.names@.len(),
            self.names@ == before.names@,
            self.trees@ == before.trees@.update(i, t),
            tree_sound(t),
        ensures
            self.wf(),
            self.tree_of(before.names@[i]@) == Some(t),
            forall|other: SumTreeKey|
                other != before.names@[i]@ ==> self.tree_of(other) == before.tree_of(other),
    {
        assert forall|j: int| 0 <= j < self.trees@.len() implies tree_sound(
            #[trigger] self.trees@[j],
        ) by {
            if j != i {
                assert(tree_sound(before.trees@[j]));
            }
        }
        self.lemma_tree_at(i);
        assert forall|other: SumTreeKey| other != before.names@[i]@ implies self.tree_of(other)
            == before.tree_of(other) by {
            if exists|j: int| 0 <= j < before.names@.len() && #[trigger] before.names@[j]@ == other {
                let j = choose|j: int| 0 <= j < before.names@.len() && #[trigger] before.names@[j]@
                    == other;
                before.lemma_tree_at(j);
                self.lemma_tree_at(j);
            }
        }
    }

    /// Sets the stake of `citizen_id` in the tree under `key`.
    pub fn set(&mut self, key: SumTreeName, value: u64, citizen_id: u64) -> (r: Result<(), Error>)
        requires
            old(self).wf(),
            old(self).tree_of(key@) matches Some(t) ==> t.set_fits(value, citizen_id),
        ensures
            final(self).wf(),
            old(self).tree_of(key@).is_none() ==> r == Err::<(), Error>(Error::TreeDoesnotExist)
                && *final(self) == *old(self),
            old(self).tree_of(key@) matches Some(t) ==> r.is_ok() && (final(self).tree_of(
                key@,
            ) matches Some(t2) && t.set_relation(t2, value, citizen_id)),
            forall|other: SumTreeKey|
                other != key@ ==> final(self).tree_of(other) == old(self).tree_of(other),
    {
        match self.position(&key) {
            None => Err(Error::TreeDoesnotExist),
            Some(i) => {
                let ghost before = *self;
                let mut tree = self.trees.remove(i);
                let ghost tree0 = tree;
                proof {
                    assert(tree_sound(before.trees@[i as int]));
                }
                tree.set(value, citizen_id);
                proof {
                    law_set_keeps_total_stake_sum(tree0, tree, value, citizen_id);
                }
                self.trees.insert(i, tree);
                proof {
                    assert(self.trees@ =~= before.trees@.update(i as int, tree));
                    self.lemma_tree_of_replaced(before, i as int, tree);
                }
                Ok(())
            },
        }
    }

    /// Stake of `citizen_id` in the tree under `key`.
    pub fn stake_of(&self, key: SumTreeName, citizen_id: u64) -> (r: Result<Option<u64>, Error>)
        requires
            self.wf(),
        ensures
            match self.tree_of(key@) {
                None => r == Err::<Option<u64>, Error>(Error::TreeDoesnotExist),
                Some(t) => r == Ok::<Option<u64>, Error>(
                    if t.stakes().contains_key(citizen_id) {
                        Some(t.stakes()[citizen_id])
                    } else {
                        None
                    },
                ),
            },
    {
        match self.position(&key) {
            None => Err(Error::TreeDoesnotExist),
            Some(i) => Ok(self.trees[i].stake_of(citizen_id)),
        }
    }

    /// Draws an account from the tree under `key` with the number `draw_number`.
    pub fn draw(&self, key: SumTreeName, draw_number: u64) -> (r: Result<u64, Error>)
        requires
            self.wf(),
            self.tree_of(key@) matches Some(t) ==> t.total() > 0 && t.arithmetic_fits(),
        ensures
            self.tree_of(key@).is_none() ==> r == Err::<u64, Error>(Error::TreeDoesnotExist),
            self.tree_of(key@) matches Some(t) ==> (r matches Ok(a) && t.stakes().contains_key(a)
                && t.draw_start(a) <= draw_number % (t.total() as u64) < t.draw_start(a)
                + t.stakes()[a] && a == t.account_at((draw_number % (t.total() as u64)) as int)),
    {
        match self.position(&key) {
            None => Err(Error::TreeDoesnotExist),
            Some(i) => Ok(self.trees[i].draw(draw_number)),
        }
    }

    /// A page of the leaf values of the tree under `key`.
    pub fn query_leafs(&self, key: SumTreeName, cursor: u64, count: u64) -> (r: Result<
        (u64, Vec<u64>, bool),
        Error,
    >)
        requires
            self.wf(),
            self.tree_of(key@) matches Some(t) ==> t.arithmetic_fits() && first_leaf(
                t.spec_k(),
                t.node_values().len() as int,
            ) + cursor <= u64::MAX,
        ensures
            self.tree_of(key@).is_none() ==> r.is_err() && r->Err_0 == Error::TreeDoesnotExist,
            self.tree_of(key@) matches Some(t) ==> (r matches Ok(q) && q.0 == first_leaf(
                t.spec_k(),
                t.node_values().len() as int,
            ) && q.1@ == leaf_window(t.node_values(), q.0 + cursor, count as int) && q.2 == (q.0
                + cursor + count < t.node_values().len())),
    {
        match self.position(&key) {
            None => Err(Error::TreeDoesnotExist),
            Some(i) => Ok(self.trees[i].query_leafs(cursor, count)),
        }
    }

    /// Removes the tree under `key`, if there is one.
    pub fn remove_tree(&mut self, key: SumTreeName) -> (r: Result<(), Error>)
        requires
            old(self).wf(),
        ensures
            final(self).wf(),
            r.is_ok(),
            final(self).tree_of(key@).is_none(),
            forall|other: SumTreeKey|
                other != key@ ==> final(self).tree_of(other) == old(self).tree_of(other),
    {
        match self.position(&key) {
            None => {},
            Some(i) => {
                let ghost before = *self;
                self.names.remove(i);
                self.trees.remove(i);
                proof {
                    let ii = i as int;
                    assert forall|a: int, b: int|
                        0 <= a < b < self.names@.len() implies self.names@[a]@
                        != self.names@[b]@ by {
                        let a0 = if a < ii {
                            a
                        } else {
                            a + 1
                        };
                        let b0 = if b < ii {
                            b
                        } else {
                            b + 1
                        };
                        assert(self.names@[a] == before.names@[a0]);
                        assert(self.names@[b] == before.names@[b0]);
                    }
                    assert forall|j: int| 0 <= j < self.trees@.len() implies tree_sound(
                        #[trigger] self.trees@[j],
                    ) by {
                        let j0 = if j < ii {
                            j
                        } else {
                            j + 1
                        };
                        assert(self.trees@[j] == before.trees@[j0]);
                        assert(tree_sound(before.trees@[j0]));
                    }
                    if exists|j: int| 0 <= j < self.names@.len() && #[trigger] self.names@[j]@
                        == key@ {
                        let j = choose|j: int| 0 <= j < self.names@.len() && #[trigger] self.names@[j]@
                            == key@;
                        let j0 = if j < ii {
                            j
                        } else {
                            j + 1
                        };
                        assert(self.names@[j] == before.names@[j0]);
                        assert(before.names@[j0]@ != before.names@[ii]@);
                    }
                    assert forall|other: SumTreeKey| other != key@ implies self.tree_of(other)
                        == before.tree_of(other) by {
                        if exists|j: int| 0 <= j < before.names@.len() && #[trigger] before.names@[j]@
                            == other {
                            let j = choose|j: int| 0 <= j < before.names@.len()
                                && #[trigger] before.names@[j]@ == other;
                            before.lemma_tree_at(j);
                            assert(j != ii);
                            let j1 = if j < ii {
                                j
                            } else {
                                j - 1
                            };
                            assert(self.names@[j1] == before.names@[j]);
                            assert(self.trees@[j1] == before.trees@[j]);
                            self.lemma_tree_at(j1);
                        } else {
                            if exists|j: int| 0 <= j < self.names@.len() && #[trigger] self.names@[j]@
                                == other {
                                let j = choose|j: int| 0 <= j < self.names@.len()
                                    && #[trigger] self.names@[j]@ == other;
                                let j0 = if j < ii {
                                    j
                                } else {
                                    j + 1
                                };
                                assert(self.names@[j] == before.names@[j0]);
                            }
                        }
                    }
                }
            },
        }
        Ok(())
    }
}

} // verus!
