//! Index arithmetic and sums over the node array of a k-ary sum tree.
use vstd::prelude::*;

verus! {

/// Parent of node `i` (for `i >= 1`) in a k-ary tree laid out in an array.
pub open spec fn parent_index(k: int, i: int) -> int {
    (i - 1) / k
}

/// Node `p` has at least one child inside an array of length `len`.
pub open spec fn is_internal(k: int, len: int, p: int) -> bool {
    k * p + 1 < len
}

/// Sum of `s[a..b]`, clipped to nothing when `b <= a`.
pub open spec fn sum_range(s: Seq<u64>, a: int, b: int) -> int
    decreases b - a,
{
    if b <= a {
        0
    } else {
        sum_range(s, a, b - 1) + s[b - 1]
    }
}

/// End (exclusive) of the children range of `p`, clipped to the array length.
pub open spec fn children_end(k: int, len: int, p: int) -> int {
    if k * p + k + 1 <= len {
        k * p + k + 1
    } else {
        len
    }
}

/// Sum of the values of the children of `p` that exist.
pub open spec fn children_sum(s: Seq<u64>, k: int, p: int) -> int {
    sum_range(s, k * p + 1, children_end(k, s.len() as int, p))
}

/// `a` is `i` or one of its ancestors.
pub open spec fn is_ancestor(k: int, a: int, i: int) -> bool
    decreases i,
{
    if i == a {
        true
    } else if i <= 0 || k < 1 {
        false
    } else {
        proof {
            lemma_parent_bounds(k, i);
        }
        is_ancestor(k, a, parent_index(k, i))
    }
}

/// Where the draw interval of node `i` starts: the sum of everything that lies
/// before `i` in the descent from the root.
pub open spec fn draw_offset(s: Seq<u64>, k: int, i: int) -> int
    decreases i,
{
    if i <= 0 || k < 1 {
        0
    } else {
        proof {
            lemma_parent_bounds(k, i);
        }
        let p = parent_index(k, i);
        draw_offset(s, k, p) + sum_range(s, k * p + 1, i)
    }
}

/// Every inner node holds the sum of its children, except that the parent of
/// `c` (when `c >= 1`) is short by `d`.
pub open spec fn sums_hold_except(n: Seq<u64>, k: int, c: int, d: int) -> bool {
    forall|p: int|
        0 <= p < n.len() && #[trigger] is_internal(k, n.len() as int, p) ==> n[p] + (if c >= 1
            && p == parent_index(k, c) {
            d
        } else {
            0
        }) == children_sum(n, k, p)
}

/// Every inner node holds the sum of its children.
pub open spec fn sums_hold(n: Seq<u64>, k: int) -> bool {
    forall|p: int|
        0 <= p < n.len() && #[trigger] is_internal(k, n.len() as int, p) ==> n[p] == children_sum(
            n,
            k,
            p,
        )
}

/// A strict ancestor of a node inside the array is an inner node.
pub proof fn lemma_strict_ancestor_internal(k: int, len: int, a: int, i: int)
    requires
        k >= 1,
        0 <= i < len,
        is_ancestor(k, a, i),
        a != i,
    ensures
        is_internal(k, len, a),
        0 <= a < i,
    decreases i,
{
    lemma_parent_bounds(k, i);
    let p = parent_index(k, i);
    if p != a {
        lemma_strict_ancestor_internal(k, len, a, p);
    }
}

/// The root is an ancestor of every node.
pub proof fn lemma_root_is_ancestor(k: int, i: int)
    requires
        k >= 1,
        i >= 0,
    ensures
        is_ancestor(k, 0, i),
    decreases i,
{
    if i > 0 {
        lemma_parent_bounds(k, i);
        lemma_root_is_ancestor(k, parent_index(k, i));
    }
}

/// A node in the children range of `p` has `p` as its parent.
pub proof fn lemma_in_children_range(k: int, len: int, p: int, c: int)
    requires
        k >= 1,
        p >= 0,
        k * p + 1 <= c < children_end(k, len, p),
    ensures
        parent_index(k, c) == p,
        c >= 1,
{
    lemma_child_parent(k, p, c);
}

/// When the new node `t` is the first child of its parent, the parent is
/// `t / k` and the node right after `t` is its second child.
pub proof fn lemma_first_child(k: int, t: int)
    requires
        k >= 2,
        t >= 2,
        (t - 1) % k == 0,
    ensures
        t / k == parent_index(k, t),
        parent_index(k, t) >= 1,
        k * parent_index(k, t) + 1 == t,
        parent_index(k, t + 1) == parent_index(k, t),
        children_end(k, t + 2, parent_index(k, t)) == t + 2,
{
    let q = (t - 1) / k;
    vstd::arithmetic::div_mod::lemma_fundamental_div_mod(t - 1, k);
    assert(k * q == t - 1);
    assert(q >= 1) by (nonlinear_arith)
        requires
            k * q == t - 1,
            t >= 2,
            k >= 2,
    ;
    assert(t == q * k + 1) by (nonlinear_arith)
        requires
            k * q == t - 1,
    ;
    vstd::arithmetic::div_mod::lemma_fundamental_div_mod_converse(t, k, q, 1);
    lemma_child_parent(k, q, t + 1);
}

/// When the new node `t` is not a first child, its parent already had a child.
pub proof fn lemma_not_first_child(k: int, t: int)
    requires
        k >= 1,
        t >= 2,
        (t - 1) % k != 0,
    ensures
        k * parent_index(k, t) + 1 < t,
{
    lemma_parent_bounds(k, t);
    let q = parent_index(k, t);
    vstd::arithmetic::div_mod::lemma_fundamental_div_mod(t - 1, k);
    assert(t - 1 == k * q + (t - 1) % k);
}

/// Leaf status of the nodes `t` and `t + 1` at the end of the array.
pub proof fn lemma_new_nodes_are_leaves(k: int, t: int, len2: int)
    requires
        k >= 1,
        t >= 1,
        len2 <= t + 2,
        len2 == t + 2 ==> k >= 2,
    ensures
        !is_internal(k, len2, t),
        !is_internal(k, len2, t + 1),
{
    assert(k * t + 1 >= len2) by (nonlinear_arith)
        requires
            k >= 1,
            t >= 1,
            len2 <= t + 2,
            len2 == t + 2 ==> k >= 2,
    ;
    assert(k * (t + 1) + 1 >= len2) by (nonlinear_arith)
        requires
            k >= 1,
            t >= 1,
            len2 <= t + 2,
    ;
}

pub proof fn lemma_parent_bounds(k: int, c: int)
    requires
        k >= 1,
        c >= 1,
    ensures
        0 <= parent_index(k, c) < c,
        k * parent_index(k, c) + 1 <= c <= k * parent_index(k, c) + k,
{
    let p = (c - 1) / k;
    vstd::arithmetic::div_mod::lemma_fundamental_div_mod(c - 1, k);
    let r = (c - 1) % k;
    assert(0 <= r < k) by {
        vstd::arithmetic::div_mod::lemma_mod_pos_bound(c - 1, k);
    }
    assert(p >= 0) by {
        vstd::arithmetic::div_mod::lemma_div_pos_is_pos(c - 1, k);
    }
    assert(k * p + 1 <= c <= k * p + k);
    assert(p <= k * p) by (nonlinear_arith)
        requires
            k >= 1,
            p >= 0,
    ;
}

pub proof fn lemma_child_parent(k: int, p: int, c: int)
    requires
        k >= 1,
        p >= 0,
        k * p + 1 <= c <= k * p + k,
    ensures
        parent_index(k, c) == p,
        c >= 1,
{
    assert(k * p >= 0) by (nonlinear_arith)
        requires
            k >= 1,
            p >= 0,
    ;
    assert(c - 1 == p * k + (c - 1 - k * p)) by (nonlinear_arith);
    vstd::arithmetic::div_mod::lemma_fundamental_div_mod_converse(c - 1, k, p, c - 1 - k * p);
}

pub proof fn lemma_sum_range_nonneg(s: Seq<u64>, a: int, b: int)
    ensures
        sum_range(s, a, b) >= 0,
    decreases b - a,
{
    if b > a {
        lemma_sum_range_nonneg(s, a, b - 1);
    }
}

/// A sum over a range is at least any single term of it.
pub proof fn lemma_sum_range_ge_elem(s: Seq<u64>, a: int, b: int, i: int)
    requires
        a <= i < b,
    ensures
        sum_range(s, a, b) >= s[i],
    decreases b - a,
{
    if i == b - 1 {
        lemma_sum_range_nonneg(s, a, b - 1);
    } else {
        lemma_sum_range_ge_elem(s, a, b - 1, i);
    }
}

/// Splitting a range sum at a middle point.
pub proof fn lemma_sum_range_split(s: Seq<u64>, a: int, m: int, b: int)
    requires
        a <= m <= b,
    ensures
        sum_range(s, a, b) == sum_range(s, a, m) + sum_range(s, m, b),
    decreases b - m,
{
    if b > m {
        lemma_sum_range_split(s, a, m, b - 1);
    }
}

/// Updating one entry changes a range sum by the difference exactly when the
/// entry lies in the range.
pub proof fn lemma_sum_range_update(s: Seq<u64>, a: int, b: int, i: int, v: u64)
    requires
        0 <= i < s.len(),
        0 <= a,
        b <= s.len(),
    ensures
        sum_range(s.update(i, v), a, b) == sum_range(s, a, b) + (if a <= i < b {
            v - s[i]
        } else {
            0
        }),
    decreases b - a,
{
    if b > a {
        lemma_sum_range_update(s, a, b - 1, i, v);
    }
}

/// A range sum only depends on the entries inside the range.
pub proof fn lemma_sum_range_same(s: Seq<u64>, t: Seq<u64>, a: int, b: int)
    requires
        forall|j: int| a <= j < b ==> s[j] == t[j],
    ensures
        sum_range(s, a, b) == sum_range(t, a, b),
    decreases b - a,
{
    if b > a {
        lemma_sum_range_same(s, t, a, b - 1);
    }
}

/// The draw interval of a node lies inside the interval of each of its ancestors.
pub proof fn lemma_interval_within_ancestor(n: Seq<u64>, k: int, a: int, i: int)
    requires
        k >= 1,
        sums_hold(n, k),
        0 <= a,
        0 <= i < n.len(),
        is_ancestor(k, a, i),
    ensures
        draw_offset(n, k, a) <= draw_offset(n, k, i),
        draw_offset(n, k, i) + n[i] <= draw_offset(n, k, a) + n[a],
    decreases i,
{
    if i != a {
        lemma_parent_bounds(k, i);
        let p = parent_index(k, i);
        let len = n.len() as int;
        lemma_interval_within_ancestor(n, k, a, p);
        assert(is_internal(k, len, p));
        assert(n[p] == children_sum(n, k, p));
        let lo = k * p + 1;
        let end = children_end(k, len, p);
        assert(i + 1 <= end);
        lemma_sum_range_split(n, lo, i + 1, end);
        lemma_sum_range_nonneg(n, i + 1, end);
        lemma_sum_range_nonneg(n, lo, i);
        assert(sum_range(n, lo, i + 1) == sum_range(n, lo, i) + n[i]);
    }
}

/// Of two children of one node, the interval of the first ends before that of
/// the second begins.
pub proof fn lemma_sibling_intervals(n: Seq<u64>, k: int, c1: int, c2: int)
    requires
        k >= 1,
        1 <= c1 < c2 < n.len(),
        parent_index(k, c1) == parent_index(k, c2),
    ensures
        draw_offset(n, k, c1) + n[c1] <= draw_offset(n, k, c2),
{
    lemma_parent_bounds(k, c1);
    lemma_parent_bounds(k, c2);
    let p = parent_index(k, c1);
    let lo = k * p + 1;
    lemma_sum_range_split(n, lo, c1 + 1, c2);
    lemma_sum_range_nonneg(n, c1 + 1, c2);
    assert(sum_range(n, lo, c1 + 1) == sum_range(n, lo, c1) + n[c1]);
}

proof fn lemma_disjoint_ordered(n: Seq<u64>, k: int, i: int, j: int)
    requires
        k >= 1,
        sums_hold(n, k),
        0 <= j < i < n.len(),
        !is_ancestor(k, i, j),
        !is_ancestor(k, j, i),
    ensures
        draw_offset(n, k, i) + n[i] <= draw_offset(n, k, j) || draw_offset(n, k, j) + n[j]
            <= draw_offset(n, k, i),
    decreases i + j,
{
    lemma_parent_bounds(k, i);
    let p = parent_index(k, i);
    assert(is_ancestor(k, p, p));
    assert(is_ancestor(k, p, i));
    lemma_interval_within_ancestor(n, k, p, i);
    if p == j {
        assert(is_ancestor(k, j, i));
    } else if is_ancestor(k, p, j) {
        lemma_ancestor_le(k, p, j);
        lemma_parent_bounds(k, j);
        let q = parent_index(k, j);
        if q == p {
            lemma_sibling_intervals(n, k, j, i);
        } else {
            assert(is_ancestor(k, p, q));
            if is_ancestor(k, i, q) {
                lemma_ancestor_le(k, i, q);
            }
            if is_ancestor(k, q, i) {
                assert(is_ancestor(k, q, p));
                lemma_ancestor_le(k, q, p);
                lemma_ancestor_le(k, p, q);
            }
            lemma_disjoint_ordered(n, k, i, q);
            assert(is_ancestor(k, q, q));
            assert(is_ancestor(k, q, j));
            lemma_interval_within_ancestor(n, k, q, j);
        }
    } else {
        if is_ancestor(k, j, p) {
            assert(is_ancestor(k, j, i));
        }
        if p > j {
            lemma_disjoint_ordered(n, k, p, j);
        } else {
            lemma_disjoint_ordered(n, k, j, p);
        }
    }
}

/// Two nodes, neither an ancestor of the other, have disjoint draw intervals.
pub proof fn lemma_disjoint_intervals(n: Seq<u64>, k: int, i: int, j: int)
    requires
        k >= 1,
        sums_hold(n, k),
        0 <= i < n.len(),
        0 <= j < n.len(),
        i != j,
        !is_ancestor(k, i, j),
        !is_ancestor(k, j, i),
    ensures
        draw_offset(n, k, i) + n[i] <= draw_offset(n, k, j) || draw_offset(n, k, j) + n[j]
            <= draw_offset(n, k, i),
{
    if i > j {
        lemma_disjoint_ordered(n, k, i, j);
    } else {
        lemma_disjoint_ordered(n, k, j, i);
    }
}

/// An ancestor never has a larger index.
pub proof fn lemma_ancestor_le(k: int, a: int, i: int)
    requires
        k >= 1,
        is_ancestor(k, a, i),
    ensures
        a <= i,
    decreases i,
{
    if a != i && i > 0 {
        lemma_parent_bounds(k, i);
        lemma_ancestor_le(k, a, parent_index(k, i));
    }
}

} // verus!
