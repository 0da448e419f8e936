//! A k-ary sortition sum tree: every account owns a leaf that holds its stake,
//! every inner node holds the sum of its children, and a draw number selects an
//! account with a chance proportional to its stake.
use vstd::prelude::*;
use std::collections::BTreeMap;
use crate::sum_tree_math::{
    children_end, children_sum, draw_offset, is_ancestor, is_internal, lemma_child_parent,
    lemma_in_children_range, lemma_parent_bounds, lemma_root_is_ancestor,
    lemma_strict_ancestor_internal, lemma_sum_range_ge_elem, lemma_sum_range_split,
    lemma_sum_range_update, parent_index, sum_range, sums_hold, sums_hold_except,
    lemma_first_child, lemma_not_first_child, lemma_new_nodes_are_leaves, lemma_sum_range_same,
    lemma_ancestor_le, lemma_sum_range_nonneg, lemma_disjoint_intervals, lemma_interval_within_ancestor,
};

verus! {

broadcast use vstd::std_specs::btree::group_btree_axioms;

/// The sum tree of one game: node values, vacant leaves, and the two maps that
/// tie accounts to their leaves.
pub struct SortitionSumTree {
    k: u64,
    stack: Vec<u64>,
    nodes: Vec<u64>,
    ids_to_node_indexes: BTreeMap<u64, u64>,
    node_indexes_to_ids: BTreeMap<u64, u64>,
}

/// Index of the first leaf in an array of `len` nodes: the smallest node
/// without children.
pub open spec fn first_leaf(k: int, len: int) -> int {
    choose|s: int|
        0 <= s < len && !is_internal(k, len, s) && forall|j: int|
            0 <= j < s ==> #[trigger] is_internal(k, len, j)
}

/// Up to `count` node values starting at `from`; empty when `from` is past the end.
pub open spec fn leaf_window(n: Seq<u64>, from: int, count: int) -> Seq<u64> {
    if from >= n.len() {
        Seq::empty()
    } else if from + count < n.len() {
        n.subrange(from, from + count)
    } else {
        n.subrange(from, n.len() as int)
    }
}

proof fn lemma_first_leaf_unique(k: int, len: int, s: int)
    requires
        0 <= s < len,
        !is_internal(k, len, s),
        forall|j: int| 0 <= j < s ==> #[trigger] is_internal(k, len, j),
    ensures
        first_leaf(k, len) == s,
{
    let f = first_leaf(k, len);
    assert(0 <= f < len && !is_internal(k, len, f) && forall|j: int|
        0 <= j < f ==> #[trigger] is_internal(k, len, j));
    if f < s {
        assert(is_internal(k, len, f));
    }
    if s < f {
        assert(is_internal(k, len, s));
    }
}

/// `value` taken as an increase when `plus` holds, else as a decrease.
pub open spec fn signed_change(plus: bool, value: u64) -> int {
    if plus {
        value as int
    } else {
        -(value as int)
    }
}

/// `n` with `d` added to node `i` and to each of its ancestors.
pub open spec fn path_added(n: Seq<u64>, k: int, i: int, d: int) -> Seq<u64> {
    Seq::new(
        n.len(),
        |j: int|
            if 0 <= j <= i && is_ancestor(k, j, i) {
                (n[j] + d) as u64
            } else {
                n[j]
            },
    )
}

/// Whether a new leaf at index `t` is the first child of its parent, so that
/// the parent's account moves down to the leaf right after it.
pub open spec fn append_moves(k: int, t: int) -> bool {
    t != 1 && (t - 1) % k == 0
}

/// Adds (or subtracts) `value` to every strict ancestor of `tree_index`,
/// which restores the sums after the leaf at `tree_index` changed by that much.
fn update_parents(nodes: &mut Vec<u64>, k: u64, tree_index: u64, plus_or_minus: bool, value: u64)
    requires
        k >= 1,
        1 <= tree_index < old(nodes)@.len(),
        sums_hold_except(
            old(nodes)@,
            k as int,
            tree_index as int,
            signed_change(plus_or_minus, value),
        ),
        forall|j: int|
            0 <= j < tree_index && #[trigger] is_ancestor(k as int, j, tree_index as int) ==> (
            plus_or_minus ==> old(nodes)@[j] + value <= u64::MAX) && (!plus_or_minus ==> old(
                nodes,
            )@[j] >= value),
    ensures
        final(nodes)@.len() == old(nodes)@.len(),
        sums_hold(final(nodes)@, k as int),
        forall|j: int|
            0 <= j < old(nodes)@.len() ==> #[trigger] final(nodes)@[j] == old(nodes)@[j] + (if 0
                <= j < tree_index && is_ancestor(k as int, j, tree_index as int) {
                signed_change(plus_or_minus, value)
            } else {
                0
            }),
{
    let ghost n0 = nodes@;
    let ghost kk = k as int;
    let ghost t = tree_index as int;
    let ghost d = signed_change(plus_or_minus, value);
    let ghost len = n0.len() as int;
    let mut parent_index_v: u64 = tree_index;
    while parent_index_v != 0
        invariant
            kk == k,
            kk >= 1,
            d == signed_change(plus_or_minus, value),
            t == tree_index,
            len == nodes@.len(),
            len == n0.len(),
            1 <= t < len,
            0 <= parent_index_v <= t,
            is_ancestor(kk, parent_index_v as int, t),
            sums_hold_except(nodes@, kk, parent_index_v as int, d),
            forall|j: int|
                0 <= j < t && #[trigger] is_ancestor(kk, j, t) ==> (plus_or_minus ==> n0[j] + value
                    <= u64::MAX) && (!plus_or_minus ==> n0[j] >= value),
            forall|j: int|
                0 <= j < len ==> #[trigger] nodes@[j] == n0[j] + (if parent_index_v <= j < t
                    && is_ancestor(kk, j, t) {
                    d
                } else {
                    0
                }),
        decreases parent_index_v,
    {
        let ghost cur = parent_index_v as int;
        let ghost before = nodes@;
        proof {
            lemma_parent_bounds(kk, cur);
        }
        parent_index_v = (parent_index_v - 1) / k;
        let ghost pi = parent_index_v as int;
        assert(pi == parent_index(kk, cur));
        assert(is_ancestor(kk, pi, t)) by {
            lemma_ancestor_step(kk, cur, t);
        }
        assert(before[pi] == n0[pi]);
        assert(pi < nodes.len());
        let pu = parent_index_v as usize;
        assert(pu as int == pi);
        assert(nodes@[pi] == n0[pi]);
        assert(0 <= pi < t);
        let new_value = if plus_or_minus {
            nodes[pu] + value
        } else {
            nodes[pu] - value
        };
        assert(new_value as int == before[pi] + d) by {
            if plus_or_minus {
                assert(new_value == nodes@[pi] + value);
            } else {
                assert(new_value == nodes@[pi] - value);
            }
        }
        nodes.set(pu, new_value);
        proof {
            let after = nodes@;
            assert(after == before.update(pi, new_value));
            assert(is_internal(kk, len, pi)) by {
                lemma_parent_bounds(kk, cur);
            }
            assert(new_value as int == before[pi] + d);
            assert forall|p: int|
                0 <= p < len && #[trigger] is_internal(kk, len, p) implies after[p] + (if pi >= 1
                    && p == parent_index(kk, pi) {
                    d
                } else {
                    0
                }) == children_sum(after, kk, p) by {
                assert(is_internal(kk, before.len() as int, p));
                let lo = kk * p + 1;
                let end = children_end(kk, len, p);
                lemma_sum_range_update(before, lo, end, pi, new_value);
                assert(before[p] + (if p == pi {
                    d
                } else {
                    0
                }) == children_sum(before, kk, p));
                if p == pi {
                    assert(kk * p + 1 > pi) by (nonlinear_arith)
                        requires
                            kk >= 1,
                            p >= 0,
                            p == pi,
                    ;
                    if pi >= 1 {
                        lemma_parent_bounds(kk, pi);
                    }
                } else if pi >= 1 && p == parent_index(kk, pi) {
                    lemma_parent_bounds(kk, pi);
                    assert(lo <= pi < end);
                } else {
                    if lo <= pi < end {
                        lemma_in_children_range(kk, len, p, pi);
                    }
                }
            }
            assert forall|j: int| 0 <= j < len implies #[trigger] after[j] == n0[j] + (if pi <= j
                < t && is_ancestor(kk, j, t) {
                d
            } else {
                0
            }) by {
                if pi < j < cur && is_ancestor(kk, j, t) {
                    lemma_chain(kk, j, cur, t);
                    lemma_parent_bounds(kk, cur);
                    lemma_ancestor_le(kk, j, pi);
                }
            }
        }
    }
}

/// Ancestors of one node form a chain: the lower of two is an ancestor of the
/// higher.
proof fn lemma_chain(k: int, j: int, c: int, t: int)
    requires
        k >= 1,
        j < c,
        c >= 1,
        is_ancestor(k, j, t),
        is_ancestor(k, c, t),
    ensures
        is_ancestor(k, j, parent_index(k, c)),
    decreases t,
{
    lemma_parent_bounds(k, c);
    lemma_ancestor_le(k, c, t);
    if c == t {
    } else {
        lemma_parent_bounds(k, t);
        lemma_chain(k, j, c, parent_index(k, t));
    }
}

/// One step up: the parent of an ancestor-or-self of `t` is an ancestor of `t`.
proof fn lemma_ancestor_step(k: int, c: int, t: int)
    requires
        k >= 1,
        1 <= c <= t,
        is_ancestor(k, c, t),
    ensures
        is_ancestor(k, parent_index(k, c), t),
    decreases t,
{
    lemma_parent_bounds(k, c);
    if c == t {
        assert(is_ancestor(k, parent_index(k, t), parent_index(k, t)));
    } else {
        lemma_parent_bounds(k, t);
        lemma_ancestor_le(k, c, parent_index(k, t));
        lemma_ancestor_step(k, c, parent_index(k, t));
    }
}

impl SortitionSumTree {
    /// Number of children of every inner node.
    pub closed spec fn spec_k(&self) -> int {
        self.k as int
    }

    /// The values of all nodes, the root first.
    pub closed spec fn node_values(&self) -> Seq<u64> {
        self.nodes@
    }

    /// Leaves left vacant by accounts whose stake went to zero.
    pub closed spec fn vacancies(&self) -> Seq<u64> {
        self.stack@
    }

    /// The leaf of each account that holds a stake.
    pub closed spec fn account_index(&self) -> Map<u64, u64> {
        self.ids_to_node_indexes@
    }

    /// The account of each occupied leaf.
    pub closed spec fn index_account(&self) -> Map<u64, u64> {
        self.node_indexes_to_ids@
    }

    /// Stake of every account in the tree.
    pub open spec fn stakes(&self) -> Map<u64, u64> {
        Map::new(
            |a: u64| self.account_index().contains_key(a),
            |a: u64| self.node_values()[self.account_index()[a] as int],
        )
    }

    /// Sum of all stakes, held at the root.
    pub open spec fn total(&self) -> int {
        self.node_values()[0] as int
    }

    /// Where the draw interval of `account` begins.
    pub open spec fn draw_start(&self, account: u64) -> int {
        draw_offset(self.node_values(), self.spec_k(), self.account_index()[account] as int)
    }

    /// The account whose draw interval holds `x`.
    pub open spec fn account_at(&self, x: int) -> u64 {
        choose|a: u64|
            self.stakes().contains_key(a) && self.draw_start(a) <= x < self.draw_start(a)
                + self.stakes()[a]
    }

    /// Draw and query arithmetic on this tree stays inside `u64`.
    pub open spec fn arithmetic_fits(&self) -> bool {
        self.spec_k() * self.node_values().len() + self.spec_k() + 1 <= u64::MAX
    }

    /// The structural invariant of the tree.
    pub closed spec fn wf(&self) -> bool {
        let k = self.k as int;
        let n = self.nodes@;
        let len = n.len() as int;
        let ids = self.ids_to_node_indexes@;
        let idx = self.node_indexes_to_ids@;
        let st = self.stack@;
        &&& k >= 1
        &&& 1 <= len
        &&& forall|p: int|
            0 <= p < len && #[trigger] is_internal(k, len, p) ==> n[p] == children_sum(n, k, p)
        &&& (!is_internal(k, len, 0) ==> n[0] == 0)
        &&& forall|a: u64| #[trigger]
            ids.contains_key(a) ==> {
                &&& 1 <= ids[a] < len
                &&& !is_internal(k, len, ids[a] as int)
                &&& idx.contains_key(ids[a])
                &&& idx[ids[a]] == a
                &&& n[ids[a] as int] > 0
            }
        &&& forall|i: u64| #[trigger]
            idx.contains_key(i) ==> ids.contains_key(idx[i]) && ids[idx[i]] == i
        &&& forall|i: int|
            1 <= i < len && !#[trigger] is_internal(k, len, i) ==> (idx.contains_key(i as u64)
                || st.contains(i as u64))
        &&& forall|j: int|
            0 <= j < st.len() ==> {
                &&& 1 <= #[trigger] st[j] < len
                &&& !is_internal(k, len, st[j] as int)
                &&& !idx.contains_key(st[j])
                &&& n[st[j] as int] == 0
            }
    }

    /// A node is never worth more than its parent.
    proof fn lemma_node_le_parent(&self, c: int)
        requires
            self.wf(),
            1 <= c < self.nodes@.len(),
        ensures
            self.nodes@[c] <= self.nodes@[parent_index(self.k as int, c)],
    {
        let k = self.k as int;
        let len = self.nodes@.len() as int;
        lemma_parent_bounds(k, c);
        let p = parent_index(k, c);
        assert(is_internal(k, len, p));
        lemma_sum_range_ge_elem(self.nodes@, k * p + 1, children_end(k, len, p), c);
    }

    /// A node is never worth more than any of its ancestors.
    proof fn lemma_ancestor_ge(&self, a: int, i: int)
        requires
            self.wf(),
            0 <= i < self.nodes@.len(),
            is_ancestor(self.k as int, a, i),
        ensures
            self.nodes@[i] <= self.nodes@[a],
        decreases i,
    {
        let k = self.k as int;
        if i != a {
            lemma_parent_bounds(k, i);
            self.lemma_node_le_parent(i);
            self.lemma_ancestor_ge(a, parent_index(k, i));
        }
    }

    /// The leaf of `account` is emptied and becomes vacant.
    fn remove_leaf(&mut self, account: u64, tree_index: u64)
        requires
            old(self).wf(),
            old(self).account_index().contains_key(account),
            old(self).account_index()[account] == tree_index,
        ensures
            final(self).wf(),
            final(self).spec_k() == old(self).spec_k(),
            final(self).stakes() == old(self).stakes().remove(account),
            final(self).total() == old(self).total() - old(self).stakes()[account],
            final(self).node_values().len() == old(self).node_values().len(),
            final(self).vacancies().len() == old(self).vacancies().len() + 1,
            final(self).node_values() == path_added(
                old(self).node_values(),
                old(self).spec_k(),
                tree_index as int,
                -old(self).node_values()[tree_index as int],
            ),
            final(self).vacancies() == old(self).vacancies().push(tree_index),
            final(self).account_index() == old(self).account_index().remove(account),
            final(self).index_account() == old(self).index_account().remove(tree_index),
    {
        let ghost old_tree = *self;
        let ghost k = self.k as int;
        let ghost n = self.nodes@;
        let ghost len = n.len() as int;
        let ghost t = tree_index as int;
        assert(1 <= tree_index < self.nodes.len());
        let old_value = self.nodes[tree_index as usize];
        self.nodes.set(tree_index as usize, 0);
        let ghost n1 = self.nodes@;
        proof {
            assert(n1 == n.update(t, 0u64));
            assert forall|p: int|
                0 <= p < len && #[trigger] is_internal(k, len, p) implies n1[p] + (if t >= 1 && p
                    == parent_index(k, t) {
                    signed_change(false, old_value)
                } else {
                    0
                }) == children_sum(n1, k, p) by {
                let lo = k * p + 1;
                let end = children_end(k, len, p);
                lemma_sum_range_update(n, lo, end, t, 0u64);
                assert(p != t);
                if lo <= t < end {
                    lemma_in_children_range(k, len, p, t);
                }
                if p == parent_index(k, t) {
                    lemma_parent_bounds(k, t);
                }
            }
            assert forall|j: int|
                0 <= j < t && #[trigger] is_ancestor(k, j, t) implies n1[j] >= old_value by {
                old_tree.lemma_ancestor_ge(j, t);
            }
        }
        self.stack.push(tree_index);
        self.ids_to_node_indexes.remove(&account);
        self.node_indexes_to_ids.remove(&tree_index);
        update_parents(&mut self.nodes, self.k, tree_index, false, old_value);
        proof {
            let nf = self.nodes@;
            lemma_root_is_ancestor(k, t);
            assert forall|j: int|
                0 <= j < len && !is_internal(k, len, j) implies #[trigger] nf[j] == n1[j] by {
                if 0 <= j < t && is_ancestor(k, j, t) {
                    lemma_strict_ancestor_internal(k, len, j, t);
                }
            }
            let ids = self.ids_to_node_indexes@;
            let idx = self.node_indexes_to_ids@;
            assert forall|a: u64| #[trigger] ids.contains_key(a) implies {
                &&& 1 <= ids[a] < len
                &&& !is_internal(k, len, ids[a] as int)
                &&& idx.contains_key(ids[a])
                &&& idx[ids[a]] == a
                &&& nf[ids[a] as int] > 0
            } by {
                assert(old_tree.ids_to_node_indexes@.contains_key(a));
                assert(nf[ids[a] as int] == n1[ids[a] as int]);
            }
            assert forall|i: int|
                1 <= i < len && !#[trigger] is_internal(k, len, i) implies (idx.contains_key(
                    i as u64,
                ) || self.stack@.contains(i as u64)) by {
                if i == t {
                    assert(self.stack@[self.stack@.len() - 1] == tree_index);
                } else if !old_tree.node_indexes_to_ids@.contains_key(i as u64) {
                    let j = choose|j: int|
                        0 <= j < old_tree.stack@.len() && old_tree.stack@[j] == i as u64;
                    assert(self.stack@[j] == i as u64);
                }
            }
            assert forall|j: int| 0 <= j < self.stack@.len() implies {
                &&& 1 <= #[trigger] self.stack@[j] < len
                &&& !is_internal(k, len, self.stack@[j] as int)
                &&& !idx.contains_key(self.stack@[j])
                &&& nf[self.stack@[j] as int] == 0
            } by {
                if j < old_tree.stack@.len() {
                    assert(self.stack@[j] == old_tree.stack@[j]);
                }
            }
            assert(self.stakes() =~= old_tree.stakes().remove(account));
            assert(self.nodes@ =~= path_added(n, k, t, -(old_value as int)));
            assert(self.stack@ =~= old_tree.stack@.push(tree_index));
            assert(self.ids_to_node_indexes@ =~= old_tree.ids_to_node_indexes@.remove(account));
            assert(self.node_indexes_to_ids@ =~= old_tree.node_indexes_to_ids@.remove(tree_index));
        }
    }

    /// The leaf at `tree_index` takes `value`, which differs from its current one.
    fn change_leaf(&mut self, tree_index: u64, value: u64)
        requires
            old(self).wf(),
            value != 0,
            old(self).index_account().contains_key(tree_index),
            old(self).node_values()[tree_index as int] != value,
            old(self).total() - old(self).node_values()[tree_index as int] + value <= u64::MAX,
        ensures
            final(self).wf(),
            final(self).spec_k() == old(self).spec_k(),
            final(self).stakes() == old(self).stakes().insert(
                old(self).index_account()[tree_index],
                value,
            ),
            final(self).total() == old(self).total() - old(self).node_values()[tree_index as int]
                + value,
            final(self).node_values().len() == old(self).node_values().len(),
            final(self).vacancies() == old(self).vacancies(),
            final(self).node_values() == path_added(
                old(self).node_values(),
                old(self).spec_k(),
                tree_index as int,
                value - old(self).node_values()[tree_index as int],
            ),
            final(self).account_index() == old(self).account_index(),
            final(self).index_account() == old(self).index_account(),
    {
        let ghost old_tree = *self;
        let ghost k = self.k as int;
        let ghost n = self.nodes@;
        let ghost len = n.len() as int;
        let ghost t = tree_index as int;
        let ghost account = self.node_indexes_to_ids@[tree_index];
        assert(self.ids_to_node_indexes@.contains_key(account));
        assert(1 <= tree_index < self.nodes.len());
        let old_value = self.nodes[tree_index as usize];
        let plus_or_minus = old_value <= value;
        let diff = if plus_or_minus {
            value - old_value
        } else {
            old_value - value
        };
        self.nodes.set(tree_index as usize, value);
        let ghost n1 = self.nodes@;
        proof {
            assert(n1 == n.update(t, value));
            assert(value as int == n[t] + signed_change(plus_or_minus, diff));
            assert forall|p: int|
                0 <= p < len && #[trigger] is_internal(k, len, p) implies n1[p] + (if t >= 1 && p
                    == parent_index(k, t) {
                    signed_change(plus_or_minus, diff)
                } else {
                    0
                }) == children_sum(n1, k, p) by {
                let lo = k * p + 1;
                let end = children_end(k, len, p);
                lemma_sum_range_update(n, lo, end, t, value);
                assert(p != t);
                if lo <= t < end {
                    lemma_in_children_range(k, len, p, t);
                }
                if p == parent_index(k, t) {
                    lemma_parent_bounds(k, t);
                }
            }
            assert forall|j: int|
                0 <= j < t && #[trigger] is_ancestor(k, j, t) implies (plus_or_minus ==> n1[j]
                + diff <= u64::MAX) && (!plus_or_minus ==> n1[j] >= diff) by {
                old_tree.lemma_ancestor_ge(j, t);
                lemma_root_is_ancestor(k, j);
                old_tree.lemma_ancestor_ge(0, j);
            }
        }
        update_parents(&mut self.nodes, self.k, tree_index, plus_or_minus, diff);
        proof {
            let nf = self.nodes@;
            lemma_root_is_ancestor(k, t);
            assert forall|j: int|
                0 <= j < len && !is_internal(k, len, j) implies #[trigger] nf[j] == n1[j] by {
                if 0 <= j < t && is_ancestor(k, j, t) {
                    lemma_strict_ancestor_internal(k, len, j, t);
                }
            }
            let ids = self.ids_to_node_indexes@;
            let idx = self.node_indexes_to_ids@;
            assert forall|a: u64| #[trigger] ids.contains_key(a) implies nf[ids[a] as int] > 0 by {
                assert(nf[ids[a] as int] == n1[ids[a] as int]);
            }
            assert forall|j: int| 0 <= j < self.stack@.len() implies nf[#[trigger] self.stack@[j]
                as int] == 0 by {
                assert(nf[self.stack@[j] as int] == n1[self.stack@[j] as int]);
                assert(self.stack@[j] != tree_index);
            }
            assert(self.stakes() =~= old_tree.stakes().insert(account, value));
            assert(self.nodes@ =~= path_added(n, k, t, value - n[t]));
        }
    }

    /// A new account takes a new leaf at the end of the array. When that leaf
    /// is the first child of its parent, the parent's account moves to a second
    /// new leaf right after it and the parent becomes an inner node.
    fn append_leaf(&mut self, value: u64, account: u64)
        requires
            old(self).wf(),
            value != 0,
            !old(self).account_index().contains_key(account),
            old(self).vacancies().len() == 0,
            old(self).total() + value <= u64::MAX,
            old(self).node_values().len() + 2 <= u64::MAX,
            old(self).spec_k() == 1 ==> old(self).node_values().len() == 1,
        ensures
            final(self).wf(),
            final(self).spec_k() == old(self).spec_k(),
            final(self).stakes() == old(self).stakes().insert(account, value),
            final(self).total() == old(self).total() + value,
            final(self).vacancies() == old(self).vacancies(),
            old(self).node_values().len() + 1 <= final(self).node_values().len()
                <= old(self).node_values().len() + 2,
            ({
                let k = old(self).spec_k();
                let n = old(self).node_values();
                let t = n.len() as int;
                let p = parent_index(k, t);
                let pid = old(self).index_account()[p as u64];
                if append_moves(k, t) {
                    &&& final(self).node_values() == path_added(n.push(0).push(n[p]), k, t, value as int)
                    &&& final(self).account_index() == old(self).account_index().insert(
                        pid,
                        (t + 1) as u64,
                    ).insert(account, t as u64)
                    &&& final(self).index_account() == old(self).index_account().remove(
                        p as u64,
                    ).insert((t + 1) as u64, pid).insert(t as u64, account)
                } else {
                    &&& final(self).node_values() == path_added(n.push(0), k, t, value as int)
                    &&& final(self).account_index() == old(self).account_index().insert(
                        account,
                        t as u64,
                    )
                    &&& final(self).index_account() == old(self).index_account().insert(
                        t as u64,
                        account,
                    )
                }
            }),
    {
        let ghost old_tree = *self;
        let ghost k = self.k as int;
        let ghost n = self.nodes@;
        let ghost len = n.len() as int;
        let tree_index: u64 = self.nodes.len() as u64;
        let ghost t = tree_index as int;
        let ghost mut parent_id: u64 = 0;
        let ghost p = parent_index(k, t);
        let ghost moved = t != 1 && (t - 1) % k == 0;
        self.nodes.push(value);
        if tree_index != 1 && (tree_index - 1) % self.k == 0 {
            proof {
                lemma_first_child(k, t);
                assert(!is_internal(k, len, p)) by (nonlinear_arith)
                    requires
                        k * p + 1 == t,
                        t == len,
                ;
                assert(self.node_indexes_to_ids@.contains_key(p as u64));
            }
            let parent_index_v = tree_index / self.k;
            let pid = *self.node_indexes_to_ids.get(&parent_index_v).unwrap();
            proof {
                parent_id = pid;
            }
            let new_index = tree_index + 1;
            let parent_value = self.nodes[parent_index_v as usize];
            self.nodes.push(parent_value);
            self.node_indexes_to_ids.remove(&parent_index_v);
            self.ids_to_node_indexes.insert(pid, new_index);
            self.node_indexes_to_ids.insert(new_index, pid);
        }
        let ghost n2 = self.nodes@;
        let ghost len2 = n2.len() as int;
        proof {
            if moved {
                lemma_first_child(k, t);
                assert(n2 == n.push(value).push(n[p]));
                assert(len2 == t + 2);
            } else {
                assert(n2 == n.push(value));
                assert(len2 == t + 1);
                lemma_parent_bounds(k, t);
                if t >= 2 {
                    lemma_not_first_child(k, t);
                }
            }
            lemma_new_nodes_are_leaves(k, t, len2);
            assert forall|j: int| 0 <= j < len implies #[trigger] n2[j] == n[j] by {}
            assert forall|q: int|
                0 <= q < len2 && #[trigger] is_internal(k, len2, q) implies n2[q] + (if t >= 1 && q
                    == parent_index(k, t) {
                    signed_change(true, value)
                } else {
                    0
                }) == children_sum(n2, k, q) by {
                self.lemma_append_sum(old_tree, value, t, q);
            }
            assert forall|j: int|
                0 <= j < t && #[trigger] is_ancestor(k, j, t) implies n2[j] + value <= u64::MAX by {
                lemma_root_is_ancestor(k, j);
                old_tree.lemma_ancestor_ge(0, j);
            }
        }
        self.ids_to_node_indexes.insert(account, tree_index);
        self.node_indexes_to_ids.insert(tree_index, account);
        update_parents(&mut self.nodes, self.k, tree_index, true, value);
        proof {
            let nf = self.nodes@;
            lemma_root_is_ancestor(k, t);
            assert(nf[0] == n2[0] + value);
            assert forall|j: int|
                0 <= j < len2 && !is_internal(k, len2, j) implies #[trigger] nf[j] == n2[j] by {
                if 0 <= j < t && is_ancestor(k, j, t) {
                    lemma_strict_ancestor_internal(k, len2, j, t);
                }
            }
            self.lemma_append_wf(old_tree, value, account, t, parent_id, moved, n2);
            if moved {
                assert(nf =~= path_added(n.push(0).push(n[p]), k, t, value as int));
            } else {
                assert(nf =~= path_added(n.push(0), k, t, value as int));
            }
        }
    }

    /// The sums of the array right after the new leaves were pushed: only the
    /// parent of the new leaf is short, by the new value.
    proof fn lemma_append_sum(&self, old_tree: Self, value: u64, t: int, q: int)
        requires
            old_tree.wf(),
            old_tree.stack@.len() == 0,
            t == old_tree.nodes@.len(),
            self.k == old_tree.k,
            old_tree.k == 1 ==> t == 1,
            (t != 1 && (t - 1) % (self.k as int) == 0) ==> self.nodes@ == old_tree.nodes@.push(
                value,
            ).push(old_tree.nodes@[parent_index(self.k as int, t)]),
            !(t != 1 && (t - 1) % (self.k as int) == 0) ==> self.nodes@ == old_tree.nodes@.push(
                value,
            ),
            0 <= q < self.nodes@.len(),
            is_internal(self.k as int, self.nodes@.len() as int, q),
        ensures
            self.nodes@[q] + (if q == parent_index(self.k as int, t) {
                value as int
            } else {
                0
            }) == children_sum(self.nodes@, self.k as int, q),
    {
        let k = self.k as int;
        let n = old_tree.nodes@;
        let len = t;
        let n2 = self.nodes@;
        let len2 = n2.len() as int;
        let moved = t != 1 && (t - 1) % k == 0;
        lemma_parent_bounds(k, t);
        let p = parent_index(k, t);
        let lo = k * q + 1;
        let e_new = children_end(k, len2, q);
        let e_old = children_end(k, len, q);
        assert(q >= 0);
        if moved {
            lemma_first_child(k, t);
        }
        if q == p {
            if moved {
                assert(lo == t);
                assert(e_new == t + 2);
                assert(sum_range(n2, t, t + 2) == n2[t] + n2[t + 1]) by {
                    assert(sum_range(n2, t, t) == 0);
                    assert(sum_range(n2, t, t + 1) == n2[t]);
                }
            } else if t == 1 {
                assert(p == 0);
                assert(!is_internal(k, len, 0));
                assert(e_new == 2) by (nonlinear_arith)
                    requires
                        e_new == children_end(k, 2, 0),
                        k >= 1,
                ;
                assert(sum_range(n2, 1, 1) == 0);
                assert(sum_range(n2, 1, 2) == n2[1]);
            } else {
                lemma_not_first_child(k, t);
                assert(is_internal(k, len, p));
                assert(e_old == t);
                assert(e_new == t + 1);
                lemma_sum_range_same(n, n2, lo, t);
                assert(sum_range(n2, lo, t + 1) == sum_range(n2, lo, t) + n2[t]);
            }
        } else {
            assert(e_new >= e_old);
            if e_new > e_old {
                assert(e_old == len);
                if lo <= t {
                    assert(lo <= t < e_new);
                    lemma_in_children_range(k, len2, q, t);
                } else {
                    assert(lo == t + 1);
                    assert(moved);
                    lemma_in_children_range(k, len2, q, t + 1);
                }
            }
            assert(lo < e_new) by (nonlinear_arith)
                requires
                    lo == k * q + 1,
                    e_new == children_end(k, len2, q),
                    lo < len2,
                    k >= 1,
            ;
            assert(is_internal(k, len, q));
            assert(e_new == e_old);
            assert(q < len) by (nonlinear_arith)
                requires
                    k >= 1,
                    q >= 0,
                    k * q + 1 < len,
            ;
            assert forall|j: int| lo <= j < e_old implies n[j] == n2[j] by {}
            lemma_sum_range_same(n, n2, lo, e_old);
            assert(n2[q] == n[q]);
            assert(n[q] == children_sum(n, k, q));
            assert(q != p);
        }
    }

    /// The invariant after a new leaf was appended and the sums were restored.
    proof fn lemma_append_wf(
        &self,
        old_tree: Self,
        value: u64,
        account: u64,
        t: int,
        parent_id: u64,
        moved: bool,
        n2: Seq<u64>,
    )
        requires
            old_tree.wf(),
            old_tree.stack@.len() == 0,
            value != 0,
            !old_tree.ids_to_node_indexes@.contains_key(account),
            t == old_tree.nodes@.len(),
            self.k == old_tree.k,
            self.stack@ == old_tree.stack@,
            moved == (t != 1 && (t - 1) % (self.k as int) == 0),
            moved ==> self.k >= 2,
            moved ==> n2 == old_tree.nodes@.push(value).push(
                old_tree.nodes@[parent_index(self.k as int, t)],
            ),
            !moved ==> n2 == old_tree.nodes@.push(value),
            moved ==> old_tree.node_indexes_to_ids@.contains_key(
                parent_index(self.k as int, t) as u64,
            ),
            moved ==> parent_id == old_tree.node_indexes_to_ids@[parent_index(self.k as int, t) as u64],
            moved ==> self.ids_to_node_indexes@ == old_tree.ids_to_node_indexes@.insert(
                parent_id,
                (t + 1) as u64,
            ).insert(account, t as u64),
            moved ==> self.node_indexes_to_ids@ == old_tree.node_indexes_to_ids@.remove(
                parent_index(self.k as int, t) as u64,
            ).insert((t + 1) as u64, parent_id).insert(t as u64, account),
            !moved ==> self.ids_to_node_indexes@ == old_tree.ids_to_node_indexes@.insert(
                account,
                t as u64,
            ),
            !moved ==> self.node_indexes_to_ids@ == old_tree.node_indexes_to_ids@.insert(
                t as u64,
                account,
            ),
            self.nodes@.len() == n2.len(),
            t + 2 <= u64::MAX,
            sums_hold(self.nodes@, self.k as int),
            forall|j: int|
                0 <= j < n2.len() && !is_internal(self.k as int, n2.len() as int, j)
                    ==> #[trigger] self.nodes@[j] == n2[j],
            self.nodes@[0] == old_tree.nodes@[0] + value,
        ensures
            self.wf(),
            self.stakes() == old_tree.stakes().insert(account, value),
            self.total() == old_tree.total() + value,
    {
        let k = self.k as int;
        let n = old_tree.nodes@;
        let len = t;
        let nf = self.nodes@;
        let len2 = nf.len() as int;
        let p = parent_index(k, t);
        let ids0 = old_tree.ids_to_node_indexes@;
        let idx0 = old_tree.node_indexes_to_ids@;
        let ids = self.ids_to_node_indexes@;
        let idx = self.node_indexes_to_ids@;
        lemma_parent_bounds(k, t);
        if moved {
            lemma_first_child(k, t);
        }
        lemma_new_nodes_are_leaves(k, t, len2);
        assert(is_internal(k, len2, 0)) by (nonlinear_arith)
            requires
                len2 >= 2,
        ;
        // Leaf status only changes for the parent of a moved account.
        assert forall|j: int|
            0 <= j < len && j != p implies (#[trigger] is_internal(k, len2, j) == is_internal(
                k,
                len,
                j,
            )) by {
            if is_internal(k, len2, j) && !is_internal(k, len, j) {
                let c = k * j + 1;
                assert(c == t || c == t + 1);
                if c == t {
                    lemma_child_parent(k, j, t);
                } else {
                    assert(moved);
                    lemma_child_parent(k, j, t + 1);
                }
            }
        }
        assert forall|a: u64| #[trigger] ids.contains_key(a) implies {
            &&& 1 <= ids[a] < len2
            &&& !is_internal(k, len2, ids[a] as int)
            &&& idx.contains_key(ids[a])
            &&& idx[ids[a]] == a
            &&& nf[ids[a] as int] > 0
        } by {
            if a == account {
            } else if moved && a == parent_id {
                assert(ids[a] == t + 1);
                assert(nf[t + 1] == n2[t + 1]);
            } else {
                assert(ids0.contains_key(a));
                let j = ids0[a] as int;
                assert(j != p) by {
                    if j == p {
                        if moved {
                            assert(idx0[ids0[a]] == a);
                            assert(ids0[a] == p as u64);
                        } else if t >= 2 {
                            lemma_not_first_child(k, t);
                            assert(is_internal(k, len, p));
                        }
                    }
                }
                assert(nf[j] == n2[j]);
            }
        }
        assert forall|i: u64| #[trigger] idx.contains_key(i) implies ids.contains_key(idx[i])
            && ids[idx[i]] == i by {
            if i as int == t {
            } else if moved && i as int == t + 1 {
            } else {
                assert(idx0.contains_key(i));
                let b = idx0[i];
                assert(b != account);
                if moved {
                    assert(i != p as u64);
                    assert(b != parent_id);
                }
            }
        }
        assert forall|i: int|
            1 <= i < len2 && !#[trigger] is_internal(k, len2, i) implies (idx.contains_key(
                i as u64,
            ) || self.stack@.contains(i as u64)) by {
            if i == t || (moved && i == t + 1) {
            } else {
                assert(i < len);
                if moved {
                    assert(i != p);
                }
                if i != p {
                    assert(!is_internal(k, len, i));
                }
                assert(idx0.contains_key(i as u64)) by {
                    if i != p {
                        assert(!is_internal(k, len, i));
                    } else {
                        assert(!moved);
                    }
                }
            }
        }
        assert(self.stakes() =~= old_tree.stakes().insert(account, value)) by {
            assert forall|a: u64| #[trigger] ids.contains_key(a) implies nf[ids[a] as int] == (
            if a == account {
                value
            } else {
                n[ids0[a] as int]
            }) by {
                if a == account {
                    assert(nf[t] == n2[t]);
                } else if moved && a == parent_id {
                    assert(nf[t + 1] == n2[t + 1]);
                    assert(ids0[a] as int == p);
                } else {
                    let j = ids0[a] as int;
                    assert(j != p) by {
                        if j == p {
                            if moved {
                                assert(idx0[ids0[a]] == a);
                                assert(ids0[a] == p as u64);
                            } else if t >= 2 {
                                lemma_not_first_child(k, t);
                                assert(is_internal(k, len, p));
                            }
                        }
                    }
                    assert(nf[j] == n2[j]);
                }
            }
        }
    }

    /// An empty tree whose inner nodes have `k` children.
    pub fn new_tree(k: u64) -> (t: Self)
        requires
            k >= 1,
        ensures
            t.wf(),
            t.spec_k() == k,
            t.node_values() == seq![0u64],
            t.vacancies() == Seq::<u64>::empty(),
            t.account_index() == Map::<u64, u64>::empty(),
            t.index_account() == Map::<u64, u64>::empty(),
            t.stakes() == Map::<u64, u64>::empty(),
            t.total() == 0,
    {
        let mut nodes: Vec<u64> = Vec::new();
        nodes.push(0);
        let t = SortitionSumTree {
            k,
            stack: Vec::new(),
            nodes,
            ids_to_node_indexes: BTreeMap::new(),
            node_indexes_to_ids: BTreeMap::new(),
        };
        assert(t.nodes@ =~= seq![0u64]);
        assert(t.stakes() =~= Map::<u64, u64>::empty());
        t
    }

    /// Number of children of every inner node.
    pub fn k(&self) -> (r: u64)
        ensures
            r == self.spec_k(),
    {
        self.k
    }

    /// Values of all nodes, the root first.
    pub fn nodes(&self) -> (r: Vec<u64>)
        ensures
            r@ == self.node_values(),
    {
        self.nodes.clone()
    }

    /// Indexes of the leaves that are vacant, the latest vacated last.
    pub fn stack(&self) -> (r: Vec<u64>)
        ensures
            r@ == self.vacancies(),
    {
        self.stack.clone()
    }

    /// Stake of `account`: `None` when it holds no leaf.
    pub fn stake_of(&self, account: u64) -> (r: Option<u64>)
        requires
            self.wf(),
        ensures
            r == (if self.stakes().contains_key(account) {
                Some(self.stakes()[account])
            } else {
                None
            }),
    {
        match self.ids_to_node_indexes.get(&account) {
            None => {
                assert(!self.ids_to_node_indexes@.contains_key(account));
                None
            },
            Some(index) => {
                let tree_index = *index;
                assert(self.ids_to_node_indexes@.contains_key(account));
                assert(self.ids_to_node_indexes@[account] == tree_index);
                assert(self.stakes()[account] == self.nodes@[tree_index as int]);
                assert(1 <= tree_index < self.nodes.len());
                if tree_index == 0 {
                    Some(0)
                } else {
                    Some(self.nodes[tree_index as usize])
                }
            },
        }
    }

    /// Stake held by `account`, zero when it holds none.
    pub open spec fn stake_or_zero(&self, account: u64) -> int {
        if self.stakes().contains_key(account) {
            self.stakes()[account] as int
        } else {
            0
        }
    }

    /// Whether `set` changes the tree: it does for an account that already
    /// holds a leaf, and for a new account with a positive value while no leaf
    /// is vacant. A new account is left out while a vacant leaf exists.
    pub open spec fn set_takes_effect(&self, value: u64, account: u64) -> bool {
        self.stakes().contains_key(account) || (value != 0 && self.vacancies().len() == 0)
    }

    /// The inputs on which `set` stays within `u64` and finds the parent of a
    /// first child (which a tree with `k == 1` cannot do beyond its first leaf).
    pub open spec fn set_fits(&self, value: u64, account: u64) -> bool {
        &&& self.node_values().len() + 2 <= u64::MAX
        &&& (self.set_takes_effect(value, account) ==> self.total() - self.stake_or_zero(account)
            + value <= u64::MAX)
        &&& !(self.spec_k() == 1 && !self.stakes().contains_key(account) && value != 0
            && self.vacancies().len() == 0 && self.node_values().len() >= 2)
    }

    /// How `after` relates to `self` once `set(value, account)` ran.
    pub open spec fn set_relation(&self, after: Self, value: u64, account: u64) -> bool {
        &&& after.wf()
        &&& after.spec_k() == self.spec_k()
        &&& !self.set_takes_effect(value, account) ==> after == *self
        &&& self.set_takes_effect(value, account) ==> after.stakes() == (if value == 0 {
            self.stakes().remove(account)
        } else {
            self.stakes().insert(account, value)
        })
        &&& self.set_takes_effect(value, account) ==> after.total() == self.total()
            - self.stake_or_zero(account) + value
        &&& self.node_values().len() <= after.node_values().len() <= self.node_values().len() + 2
        &&& self.stakes().contains_key(account) ==> after.node_values().len()
            == self.node_values().len()
        &&& (value != 0 || !self.stakes().contains_key(account)) ==> after.vacancies()
            == self.vacancies()
        &&& value == 0 && self.stakes().contains_key(account) ==> after.vacancies().len()
            == self.vacancies().len() + 1
        &&& self.set_takes_effect(value, account) ==> self.set_layout(after, value, account)
    }

    /// Where `set(value, account)` puts things when it changes the tree. The
    /// leaf of an account that holds one takes the new value, or becomes vacant
    /// for zero, and each ancestor moves by the difference. A new account takes
    /// a new leaf at the end of the array, after the parent's account moves down
    /// when the new leaf is a first child (see `append_moves`), and the ancestors
    /// grow by the value.
    pub open spec fn set_layout(&self, after: Self, value: u64, account: u64) -> bool {
        let k = self.spec_k();
        let n = self.node_values();
        if self.stakes().contains_key(account) {
            let i = self.account_index()[account];
            if value == 0 {
                &&& after.node_values() == path_added(n, k, i as int, -n[i as int])
                &&& after.vacancies() == self.vacancies().push(i)
                &&& after.account_index() == self.account_index().remove(account)
                &&& after.index_account() == self.index_account().remove(i)
            } else {
                &&& after.node_values() == path_added(n, k, i as int, value - n[i as int])
                &&& after.vacancies() == self.vacancies()
                &&& after.account_index() == self.account_index()
                &&& after.index_account() == self.index_account()
            }
        } else {
            let t = n.len() as int;
            let p = parent_index(k, t);
            let pid = self.index_account()[p as u64];
            &&& after.vacancies() == self.vacancies()
            &&& if append_moves(k, t) {
                &&& after.node_values() == path_added(n.push(0).push(n[p]), k, t, value as int)
                &&& after.account_index() == self.account_index().insert(pid, (t + 1) as u64).insert(
                    account,
                    t as u64,
                )
                &&& after.index_account() == self.index_account().remove(p as u64).insert(
                    (t + 1) as u64,
                    pid,
                ).insert(t as u64, account)
            } else {
                &&& after.node_values() == path_added(n.push(0), k, t, value as int)
                &&& after.account_index() == self.account_index().insert(account, t as u64)
                &&& after.index_account() == self.index_account().insert(t as u64, account)
            }
        }
    }

    /// Sets the stake of `account` to `value`; a zero value takes the account
    /// out of the tree and leaves its leaf vacant.
    pub fn set(&mut self, value: u64, account: u64)
        requires
            old(self).wf(),
            old(self).set_fits(value, account),
        ensures
            old(self).set_relation(*final(self), value, account),
    {
        match self.ids_to_node_indexes.get(&account) {
            Some(index) => {
                let tree_index = *index;
                assert(self.node_indexes_to_ids@.contains_key(tree_index));
                assert(1 <= tree_index < self.nodes.len());
                if value == 0 {
                    self.remove_leaf(account, tree_index);
                } else if value != self.nodes[tree_index as usize] {
                    self.change_leaf(tree_index, value);
                } else {
                    assert(self.stakes() =~= self.stakes().insert(account, value));
                    assert(self.nodes@ =~= path_added(
                        self.nodes@,
                        self.k as int,
                        tree_index as int,
                        value - self.nodes@[tree_index as int],
                    ));
                }
            },
            None => {
                if value != 0 && self.stack.len() == 0 {
                    self.append_leaf(value, account);
                }
            },
        }
    }

    /// The node values from the first leaf on, `count` of them after skipping
    /// `cursor`, with the index of the first leaf and whether more remain.
    pub fn query_leafs(&self, cursor: u64, count: u64) -> (r: (u64, Vec<u64>, bool))
        requires
            self.wf(),
            self.arithmetic_fits(),
            first_leaf(self.spec_k(), self.node_values().len() as int) + cursor <= u64::MAX,
        ensures
            r.0 == first_leaf(self.spec_k(), self.node_values().len() as int),
            r.1@ == leaf_window(self.node_values(), r.0 + cursor, count as int),
            r.2 == (r.0 + cursor + count < self.node_values().len()),
    {
        let ghost k = self.k as int;
        let ghost len = self.nodes@.len() as int;
        let len_us: usize = self.nodes.len();
        let len_u: u64 = len_us as u64;
        let mut start_index: u64 = 0;
        let mut i: u64 = 0;
        while i < len_u
            invariant
                k == self.k,
                k >= 1,
                len == len_u,
                len == self.nodes@.len(),
                k * len + k + 1 <= u64::MAX,
                0 <= i <= len,
                forall|j: int| 0 <= j < i ==> #[trigger] is_internal(k, len, j),
            ensures
                (i < len && start_index == i && !is_internal(k, len, i as int)) || i == len,
                forall|j: int| 0 <= j < i ==> #[trigger] is_internal(k, len, j),
            decreases len - i,
        {
            assert(k * (i as int) <= k * len) by (nonlinear_arith)
                requires
                    k >= 1,
                    i <= len,
            ;
            if self.k * i + 1 >= len_u {
                start_index = i;
                break ;
            }
            i = i + 1;
        }
        proof {
            if i == len_u {
                assert(k * (len - 1) + 1 >= len) by (nonlinear_arith)
                    requires
                        k >= 1,
                        len >= 1,
                ;
                assert(is_internal(k, len, len - 1));
            }
            lemma_first_leaf_unique(k, len, start_index as int);
        }
        let loop_start_index = start_index + cursor;
        let mut values: Vec<u64> = Vec::new();
        let mut values_index: u64 = 0;
        let mut has_more = false;
        let mut j: u64 = loop_start_index;
        while j < len_u
            invariant_except_break
                values_index <= count,
                !has_more,
            invariant
                len == len_u,
                len_us == len,
                len == self.nodes@.len(),
                loop_start_index <= j,
                j <= len || j == loop_start_index,
                values_index == j - loop_start_index,
                j <= len ==> values@ == self.nodes@.subrange(loop_start_index as int, j as int),
                j > len ==> values@.len() == 0,
            ensures
                has_more == (loop_start_index + count < len),
                values@ == leaf_window(self.nodes@, loop_start_index as int, count as int),
            decreases len - j,
        {
            if values_index < count {
                values.push(self.nodes[j as usize]);
                values_index = values_index + 1;
                j = j + 1;
                assert(values@ =~= self.nodes@.subrange(loop_start_index as int, j as int));
            } else {
                has_more = true;
                assert(values@ =~= leaf_window(self.nodes@, loop_start_index as int, count as int));
                break ;
            }
        }
        (start_index, values, has_more)
    }

    /// Selects the account whose draw interval holds `draw_number % total`.
    pub fn draw(&self, draw_number: u64) -> (account: u64)
        requires
            self.wf(),
            self.total() > 0,
            self.arithmetic_fits(),
        ensures
            self.stakes().contains_key(account),
            self.draw_start(account) <= draw_number % (self.total() as u64) < self.draw_start(
                account,
            ) + self.stakes()[account],
            account == self.account_at((draw_number % (self.total() as u64)) as int),
    {
        let ghost k = self.k as int;
        let ghost n = self.nodes@;
        let ghost len = n.len() as int;
        let total = self.nodes[0];
        let len_us: usize = self.nodes.len();
        let len_u: u64 = len_us as u64;
        let mut tree_index: u64 = 0;
        let mut current: u64 = draw_number % total;
        assert(k * len + k + 1 <= u64::MAX);
        while self.k * tree_index + 1 < len_u
            invariant
                self.wf(),
                k == self.k,
                n == self.nodes@,
                len == n.len(),
                len_u == len,
                len_us == len,
                k * len + k + 1 <= u64::MAX,
                0 <= tree_index < len,
                k * (tree_index as int) <= k * len,
                draw_offset(n, k, tree_index as int) + current == draw_number % total,
                current < n[tree_index as int],
            decreases len - tree_index,
        {
            let ghost ti = tree_index as int;
            assert(is_internal(k, len, ti));
            let ghost lo = k * ti + 1;
            let ghost end = children_end(k, len, ti);
            let ghost cur0 = current;
            let mut i: u64 = 1;
            let mut next: u64 = 0;
            loop
                invariant
                    self.wf(),
                    k == self.k,
                    n == self.nodes@,
                    len == n.len(),
                    len_u == len,
                    len_us == len,
                    k * len + k + 1 <= u64::MAX,
                    ti == tree_index,
                    0 <= ti < len,
                    k * ti <= k * len,
                    lo == k * ti + 1,
                    end == children_end(k, len, ti),
                    lo < end <= len,
                    end <= k * ti + k + 1,
                    1 <= i <= k,
                    lo + i - 1 < end,
                    current + sum_range(n, lo, lo + i - 1) == cur0,
                    current < sum_range(n, lo + i - 1, end),
                ensures
                    lo <= next < end,
                    current < n[next as int],
                    current + sum_range(n, lo, next as int) == cur0,
                decreases k - i,
            {
                let node_index = self.k * tree_index + i;
                let node_value = self.nodes[node_index as usize];
                proof {
                    lemma_sum_range_split(n, lo + i - 1, lo + i, end);
                    lemma_sum_range_split(n, lo, lo + i - 1, lo + i);
                    assert(sum_range(n, lo + i - 1, lo + i) == n[lo + i - 1]);
                    assert(node_value == n[lo + i - 1]);
                }
                if current >= node_value {
                    current = current - node_value;
                    assert(current < sum_range(n, lo + i, end));
                    assert(lo + i < end);
                    i = i + 1;
                } else {
                    next = node_index;
                    break ;
                }
            }
            proof {
                lemma_child_parent(k, ti, next as int);
                assert(draw_offset(n, k, next as int) == draw_offset(n, k, ti) + sum_range(
                    n,
                    lo,
                    next as int,
                ));
                let nx = next as int;
                assert(k * nx <= k * len) by (nonlinear_arith)
                    requires
                        k >= 1,
                        0 <= nx < len,
                ;
            }
            tree_index = next;
        }
        let ghost ti = tree_index as int;
        assert(ti >= 1) by {
            if ti == 0 {
                assert(!is_internal(k, len, 0));
            }
        }
        assert(!is_internal(k, len, ti));
        assert(self.node_indexes_to_ids@.contains_key(tree_index)) by {
            if !self.node_indexes_to_ids@.contains_key(tree_index) {
                let j = choose|j: int| 0 <= j < self.stack@.len() && self.stack@[j] == tree_index;
                assert(self.stack@[j] == tree_index);
            }
        }
        let account = *self.node_indexes_to_ids.get(&tree_index).unwrap();
        assert(self.ids_to_node_indexes@[account] == tree_index);
        proof {
            lemma_account_at(*self, (draw_number % (self.total() as u64)) as int, account);
        }
        account
    }
}

/// Once `set(value, account)` changes a tree, the stake of `account` reads back
/// as `value` (no stake for zero), every other account keeps its stake, and the
/// total moves by the difference between the new and the old stake.
pub proof fn law_set_then_stake_of(
    before: SortitionSumTree,
    after: SortitionSumTree,
    value: u64,
    account: u64,
    other: u64,
)
    requires
        before.set_relation(after, value, account),
        before.set_takes_effect(value, account),
    ensures
        after.stake_or_zero(account) == value,
        after.stakes().contains_key(account) == (value != 0),
        other != account ==> after.stake_or_zero(other) == before.stake_or_zero(other),
        after.total() == before.total() - before.stake_or_zero(account) + value,
{
}

/// Every account draws from its own interval of the numbers below the total:
/// the interval of an account with a stake begins at or after zero and ends at
/// or before the total, and the intervals of two accounts do not overlap.
pub proof fn law_draw_intervals(t: SortitionSumTree, a: u64, b: u64)
    requires
        t.wf(),
        t.stakes().contains_key(a),
        t.stakes().contains_key(b),
        a != b,
    ensures
        0 <= t.draw_start(a),
        t.draw_start(a) + t.stakes()[a] <= t.total(),
        t.draw_start(a) + t.stakes()[a] <= t.draw_start(b) || t.draw_start(b) + t.stakes()[b]
            <= t.draw_start(a),
{
    let k = t.spec_k();
    let n = t.node_values();
    let len = n.len() as int;
    let ia = t.account_index()[a] as int;
    let ib = t.account_index()[b] as int;
    assert(sums_hold(n, k));
    assert(ia != ib) by {
        assert(t.index_account()[ia as u64] == a);
        assert(t.index_account()[ib as u64] == b);
    }
    if is_ancestor(k, ia, ib) {
        lemma_strict_ancestor_internal(k, len, ia, ib);
    }
    if is_ancestor(k, ib, ia) {
        lemma_strict_ancestor_internal(k, len, ib, ia);
    }
    lemma_disjoint_intervals(n, k, ia, ib);
    lemma_root_is_ancestor(k, ia);
    lemma_interval_within_ancestor(n, k, 0, ia);
}

/// The account a draw lands on is the only one whose interval holds the number.
pub proof fn law_draw_unique(t: SortitionSumTree, x: int, a: u64, b: u64)
    requires
        t.wf(),
        t.stakes().contains_key(a),
        t.stakes().contains_key(b),
        a != b,
        t.draw_start(a) <= x < t.draw_start(a) + t.stakes()[a],
    ensures
        !(t.draw_start(b) <= x < t.draw_start(b) + t.stakes()[b]),
{
    law_draw_intervals(t, a, b);
}

/// The account holding `x` in its draw interval is the one `account_at` names.
pub proof fn lemma_account_at(t: SortitionSumTree, x: int, a: u64)
    requires
        t.wf(),
        t.stakes().contains_key(a),
        t.draw_start(a) <= x < t.draw_start(a) + t.stakes()[a],
    ensures
        t.account_at(x) == a,
{
    let b = t.account_at(x);
    if b != a {
        law_draw_unique(t, x, a, b);
    }
}

/// The sum of all stakes of a finite map of accounts to stakes.
pub open spec fn stake_sum(m: Map<u64, u64>) -> int
    decreases m.dom().len(),
    when m.dom().finite()
{
    if m.dom().len() == 0 {
        0
    } else {
        let a = m.dom().choose();
        m[a] + stake_sum(m.remove(a))
    }
}

/// Taking one account out of the sum takes its stake out.
pub proof fn lemma_stake_sum_remove(m: Map<u64, u64>, a: u64)
    requires
        m.dom().finite(),
        m.contains_key(a),
    ensures
        stake_sum(m) == m[a] + stake_sum(m.remove(a)),
    decreases m.dom().len(),
{
    assert(m.dom().contains(a));
    let c = m.dom().choose();
    if c != a {
        assert(m.remove(c).dom() =~= m.dom().remove(c));
        assert(m.remove(a).dom() =~= m.dom().remove(a));
        lemma_stake_sum_remove(m.remove(c), a);
        lemma_stake_sum_remove(m.remove(a), c);
        assert(m.remove(c).remove(a) =~= m.remove(a).remove(c));
    }
}

/// The stakes of a well-formed tree are finitely many.
pub proof fn lemma_stakes_finite(t: SortitionSumTree)
    requires
        t.wf(),
    ensures
        t.stakes().dom().finite(),
{
    assert(t.stakes().dom() =~= t.account_index().dom());
}

/// The root of a new tree holds the sum of its stakes, which is zero.
pub proof fn law_new_tree_total_is_stake_sum(t: SortitionSumTree)
    requires
        t.wf(),
        t.stakes() == Map::<u64, u64>::empty(),
        t.total() == 0,
    ensures
        t.total() == stake_sum(t.stakes()),
{
    assert(t.stakes().dom() =~= Set::<u64>::empty());
}

/// Every `set` keeps the root equal to the sum of all stakes.
pub proof fn law_set_keeps_total_stake_sum(
    before: SortitionSumTree,
    after: SortitionSumTree,
    value: u64,
    account: u64,
)
    requires
        before.wf(),
        before.total() == stake_sum(before.stakes()),
        before.set_relation(after, value, account),
    ensures
        after.total() == stake_sum(after.stakes()),
{
    lemma_stakes_finite(before);
    lemma_stakes_finite(after);
    let m = before.stakes();
    if before.set_takes_effect(value, account) {
        let rest = m.remove(account);
        if m.contains_key(account) {
            lemma_stake_sum_remove(m, account);
        } else {
            assert(rest =~= m);
        }
        if value != 0 {
            let m2 = m.insert(account, value);
            assert(after.stakes() == m2);
            lemma_stake_sum_remove(m2, account);
            assert(m2.remove(account) =~= rest);
        } else {
            assert(after.stakes() == rest);
        }
    }
}

/// Among the entries `lo..end`, the one whose running sum passes `cur`.
proof fn lemma_pick_child(n: Seq<u64>, lo: int, end: int, cur: int) -> (c: int)
    requires
        lo <= end,
        0 <= cur < sum_range(n, lo, end),
    ensures
        lo <= c < end,
        sum_range(n, lo, c) <= cur < sum_range(n, lo, c) + n[c],
    decreases end - lo,
{
    if end <= lo {
        lo
    } else if cur >= sum_range(n, lo, end - 1) {
        end - 1
    } else {
        lemma_pick_child(n, lo, end - 1, cur)
    }
}

/// Going down from node `i` by `cur < n[i]` ends at a leaf whose draw interval
/// holds `draw_offset(i) + cur`.
proof fn lemma_descend(n: Seq<u64>, k: int, i: int, cur: int) -> (j: int)
    requires
        k >= 1,
        sums_hold(n, k),
        0 <= i < n.len(),
        0 <= cur < n[i],
    ensures
        i <= j < n.len(),
        !is_internal(k, n.len() as int, j),
        draw_offset(n, k, j) <= draw_offset(n, k, i) + cur < draw_offset(n, k, j) + n[j],
    decreases n.len() - i,
{
    let len = n.len() as int;
    if !is_internal(k, len, i) {
        i
    } else {
        let lo = k * i + 1;
        let end = children_end(k, len, i);
        assert(n[i] == children_sum(n, k, i));
        assert(lo <= end);
        let c = lemma_pick_child(n, lo, end, cur);
        lemma_in_children_range(k, len, i, c);
        assert(draw_offset(n, k, c) == draw_offset(n, k, i) + sum_range(n, lo, c));
        lemma_sum_range_nonneg(n, lo, c);
        assert(i < c) by (nonlinear_arith)
            requires
                k >= 1,
                i >= 0,
                k * i + 1 <= c,
        ;
        lemma_descend(n, k, c, cur - sum_range(n, lo, c))
    }
}

/// The draw intervals of the accounts cover `0..total`: every number below the
/// total lies in the interval of some account, the one `account_at` names.
pub proof fn law_draw_covers(t: SortitionSumTree, x: int)
    requires
        t.wf(),
        0 <= x < t.total(),
    ensures
        t.stakes().contains_key(t.account_at(x)),
        t.draw_start(t.account_at(x)) <= x < t.draw_start(t.account_at(x)) + t.stakes()[t.account_at(
            x,
        )],
{
    let k = t.spec_k();
    let n = t.node_values();
    let len = n.len() as int;
    assert(sums_hold(n, k));
    let j = lemma_descend(n, k, 0, x);
    assert(draw_offset(n, k, 0) == 0);
    assert(j >= 1) by {
        if j == 0 {
            assert(n[0] == 0);
        }
    }
    assert(len == t.nodes.len());
    assert(j as u64 as int == j);
    assert(!is_internal(t.k as int, t.nodes@.len() as int, j));
    assert(t.node_indexes_to_ids@.contains_key(j as u64)) by {
        if !t.node_indexes_to_ids@.contains_key(j as u64) {
            assert(t.stack@.contains(j as u64));
            let q = choose|q: int| 0 <= q < t.stack@.len() && t.stack@[q] == j as u64;
            assert(n[t.stack@[q] as int] == 0);
        }
    }
    let a = t.node_indexes_to_ids@[j as u64];
    assert(t.account_index()[a] == j as u64);
    assert(t.stakes().contains_key(a));
    lemma_account_at(t, x, a);
}

/// Each account draws exactly the numbers of its interval: below the total, `x`
/// is drawn for `a` if and only if it lies in `a`'s interval, which holds as many
/// numbers as `a`'s stake.
pub proof fn law_draw_share(t: SortitionSumTree, a: u64, x: int)
    requires
        t.wf(),
        t.stakes().contains_key(a),
        0 <= x < t.total(),
    ensures
        t.account_at(x) == a <==> t.draw_start(a) <= x < t.draw_start(a) + t.stakes()[a],
        Set::new(|y: int| 0 <= y < t.total() && t.account_at(y) == a).len() == t.stakes()[a],
{
    law_draw_covers(t, x);
    if t.draw_start(a) <= x < t.draw_start(a) + t.stakes()[a] {
        lemma_account_at(t, x, a);
    }
    let lo = t.draw_start(a);
    let hi = t.draw_start(a) + t.stakes()[a];
    lemma_draw_bounds(t, a);
    assert forall|y: int| 0 <= y < t.total() && t.account_at(y) == a <==> lo <= y < hi by {
        if 0 <= y < t.total() {
            law_draw_covers(t, y);
        }
        if lo <= y < hi {
            lemma_account_at(t, y, a);
        }
    }
    assert(Set::new(|y: int| 0 <= y < t.total() && t.account_at(y) == a)
        =~= vstd::set_lib::set_int_range(lo, hi));
    vstd::set_lib::lemma_int_range(lo, hi);
}

/// The interval of an account lies inside `0..total`.
proof fn lemma_draw_bounds(t: SortitionSumTree, a: u64)
    requires
        t.wf(),
        t.stakes().contains_key(a),
    ensures
        0 <= t.draw_start(a),
        t.draw_start(a) + t.stakes()[a] <= t.total(),
{
    let k = t.spec_k();
    let n = t.node_values();
    let ia = t.account_index()[a] as int;
    assert(sums_hold(n, k));
    lemma_root_is_ancestor(k, ia);
    lemma_interval_within_ancestor(n, k, 0, ia);
}

} // verus!
