//! The lexicographic order of byte strings, and search in lists sorted by it.
use vstd::prelude::*;

verus! {

/// `a` comes strictly before `b` in lexicographic order.
pub open spec fn lex_lt(a: Seq<u8>, b: Seq<u8>) -> bool
    decreases a.len(),
{
    if a.len() == 0 {
        b.len() > 0
    } else if b.len() == 0 {
        false
    } else if a[0] != b[0] {
        a[0] < b[0]
    } else {
        lex_lt(a.drop_first(), b.drop_first())
    }
}

/// `s` is strictly increasing in lexicographic order.
pub open spec fn lex_sorted(s: Seq<Seq<u8>>) -> bool {
    forall|i: int, j: int| 0 <= i < j < s.len() ==> lex_lt(s[i], s[j])
}

/// `x` fits at `i` in `s`: all before are smaller, all after larger.
pub open spec fn lex_slot(s: Seq<Seq<u8>>, i: int, x: Seq<u8>) -> bool {
    &&& 0 <= i <= s.len()
    &&& forall|j: int| 0 <= j < i ==> lex_lt(s[j], x)
    &&& forall|j: int| i <= j < s.len() ==> lex_lt(x, s[j])
}

/// The order is transitive.
pub proof fn lemma_lex_trans(a: Seq<u8>, b: Seq<u8>, c: Seq<u8>)
    requires
        lex_lt(a, b),
        lex_lt(b, c),
    ensures
        lex_lt(a, c),
    decreases a.len(),
{
    if a.len() > 0 && b.len() > 0 && c.len() > 0 && a[0] == b[0] && b[0] == c[0] {
        lemma_lex_trans(a.drop_first(), b.drop_first(), c.drop_first());
    }
}

/// The order is strict and total.
pub proof fn lemma_lex_total(a: Seq<u8>, b: Seq<u8>)
    ensures
        !(lex_lt(a, b) && lex_lt(b, a)),
        !lex_lt(a, a),
        lex_lt(a, b) || a == b || lex_lt(b, a),
    decreases a.len(),
{
    if a.len() > 0 && b.len() > 0 && a[0] == b[0] {
        lemma_lex_total(a.drop_first(), b.drop_first());
        if a.drop_first() == b.drop_first() {
            assert(a =~= seq![a[0]] + a.drop_first());
            assert(b =~= seq![b[0]] + b.drop_first());
        }
    } else if a.len() > 0 {
        lemma_lex_total(a.drop_first(), a.drop_first());
    } else if b.len() == 0 {
        assert(a =~= b);
    }
}

/// Equal leading bytes do not decide the order.
proof fn lemma_lex_step(a: Seq<u8>, b: Seq<u8>, i: int)
    requires
        0 <= i < a.len(),
        i < b.len(),
        a[i] == b[i],
    ensures
        lex_lt(a.skip(i), b.skip(i)) == lex_lt(a.skip(i + 1), b.skip(i + 1)),
{
    assert(a.skip(i).drop_first() =~= a.skip(i + 1));
    assert(b.skip(i).drop_first() =~= b.skip(i + 1));
}

/// How two byte strings compare.
#[derive(PartialEq, Eq, Structural, Clone, Copy, Debug)]
pub enum Cmp {
    Less,
    Equal,
    Greater,
}

/// Compares two byte strings in lexicographic order.
pub fn compare_bytes(a: &Vec<u8>, b: &Vec<u8>) -> (r: Cmp)
    ensures
        (r == Cmp::Less) == lex_lt(a@, b@),
        (r == Cmp::Equal) == (a@ == b@),
        (r == Cmp::Greater) == lex_lt(b@, a@),
{
    proof {
        lemma_lex_total(a@, b@);
        assert(a@.skip(0) =~= a@);
        assert(b@.skip(0) =~= b@);
    }
    let mut i: usize = 0;
    while i < a.len() && i < b.len()
        invariant
            0 <= i <= a@.len(),
            i <= b@.len(),
            forall|j: int| 0 <= j < i ==> a@[j] == b@[j],
            lex_lt(a@, b@) == lex_lt(a@.skip(i as int), b@.skip(i as int)),
            lex_lt(b@, a@) == lex_lt(b@.skip(i as int), a@.skip(i as int)),
        decreases a@.len() - i,
    {
        if a[i] != b[i] {
            proof {
                assert(a@.skip(i as int)[0] == a@[i as int]);
                assert(b@.skip(i as int)[0] == b@[i as int]);
                if a@ == b@ {
                    assert(a@[i as int] == b@[i as int]);
                }
            }
            if a[i] < b[i] {
                return Cmp::Less;
            } else {
                return Cmp::Greater;
            }
        }
        proof {
            lemma_lex_step(a@, b@, i as int);
            lemma_lex_step(b@, a@, i as int);
        }
        i = i + 1;
    }
    if a.len() == b.len() {
        assert(a@ =~= b@);
        Cmp::Equal
    } else if a.len() < b.len() {
        assert(a@.skip(i as int).len() == 0);
        proof {
            if a@ == b@ {
                assert(a@.len() == b@.len());
            }
        }
        Cmp::Less
    } else {
        assert(b@.skip(i as int).len() == 0);
        proof {
            if a@ == b@ {
                assert(a@.len() == b@.len());
            }
        }
        Cmp::Greater
    }
}

/// Binary search of `x` in byte strings sorted lexicographically: `Ok` with its
/// position, or `Err` with the position where it keeps the order.
pub fn lex_search(s: &Vec<Vec<u8>>, x: &Vec<u8>) -> (r: Result<usize, usize>)
    requires
        lex_sorted(s@.map_values(|v: Vec<u8>| v@)),
    ensures
        match r {
            Ok(i) => i < s@.len() && s@[i as int]@ == x@,
            Err(i) => lex_slot(s@.map_values(|v: Vec<u8>| v@), i as int, x@) && !s@.map_values(
                |v: Vec<u8>| v@,
            ).contains(x@),
        },
{
    let ghost t = s@.map_values(|v: Vec<u8>| v@);
    let mut lo: usize = 0;
    let mut hi: usize = s.len();
    while lo < hi
        invariant
            t == s@.map_values(|v: Vec<u8>| v@),
            lex_sorted(t),
            0 <= lo <= hi <= s@.len(),
            forall|j: int| 0 <= j < lo ==> lex_lt(t[j], x@),
            forall|j: int| hi <= j < s@.len() ==> lex_lt(x@, t[j]),
        decreases hi - lo,
    {
        let mid = lo + (hi - lo) / 2;
        match compare_bytes(&s[mid], x) {
            Cmp::Equal => {
                return Ok(mid);
            },
            Cmp::Less => {
                proof {
                    assert forall|j: int| 0 <= j < mid + 1 implies lex_lt(t[j], x@) by {
                        if j < mid {
                            lemma_lex_trans(t[j], t[mid as int], x@);
                        }
                    }
                }
                lo = mid + 1;
            },
            Cmp::Greater => {
                proof {
                    assert forall|j: int| mid <= j < s@.len() implies lex_lt(x@, t[j]) by {
                        if j > mid {
                            lemma_lex_trans(x@, t[mid as int], t[j]);
                        }
                    }
                }
                hi = mid;
            },
        }
    }
    proof {
        if t.contains(x@) {
            let j = choose|j: int| 0 <= j < t.len() && t[j] == x@;
            lemma_lex_total(x@, x@);
        }
    }
    Err(lo)
}

} // verus!
