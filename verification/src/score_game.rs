//! Statistics of the scores revealed in a score game: their mean, their standard
//! deviation, and the mean of the scores within one deviation of the mean.
use vstd::prelude::*;

verus! {

/// The sum of the items of `s`.
pub open spec fn sum(s: Seq<i64>) -> int
    decreases s.len(),
{
    if s.len() == 0 {
        0
    } else {
        sum(s.drop_last()) + s.last()
    }
}

/// Every partial sum of `s`, from the first item on, fits in an `i64`.
pub open spec fn sums_fit(s: Seq<i64>) -> bool {
    forall|i: int| 0 <= i <= s.len() ==> i64::MIN <= #[trigger] sum(s.take(i)) <= i64::MAX
}

/// Integer division rounding toward zero, for a positive divisor.
pub open spec fn trunc_div(a: int, b: int) -> int {
    if a >= 0 {
        a / b
    } else {
        -((-a) / b)
    }
}

/// The mean of `s` rounded toward zero; none for no items.
pub open spec fn mean_of(s: Seq<i64>) -> Option<int> {
    if s.len() == 0 {
        None
    } else {
        Some(trunc_div(sum(s), s.len() as int))
    }
}

/// The sum of the squared distances of the items of `s` to `m`.
pub open spec fn sum_sq(s: Seq<i64>, m: int) -> int
    decreases s.len(),
{
    if s.len() == 0 {
        0
    } else {
        sum_sq(s.drop_last(), m) + (m - s.last()) * (m - s.last())
    }
}

/// Every distance to `m`, its square, and every partial sum of squares fits in an `i64`.
pub open spec fn squares_fit(s: Seq<i64>, m: int) -> bool {
    &&& forall|i: int|
        0 <= i < s.len() ==> i64::MIN <= m - s[i] <= i64::MAX && (m - s[i]) * (m - s[i])
            <= i64::MAX
    &&& forall|i: int| 0 <= i <= s.len() ==> #[trigger] sum_sq(s.take(i), m) <= i64::MAX
}

/// `r` is the integer square root of `x`.
pub open spec fn is_isqrt(x: int, r: int) -> bool {
    0 <= r && r * r <= x && x < (r + 1) * (r + 1)
}

/// The items of `s` between `lo` and `hi`, in order.
pub open spec fn within(s: Seq<i64>, lo: int, hi: int) -> Seq<i64>
    decreases s.len(),
{
    if s.len() == 0 {
        Seq::empty()
    } else {
        let w = within(s.drop_last(), lo, hi);
        if lo <= s.last() && s.last() <= hi {
            w.push(s.last())
        } else {
            w
        }
    }
}

/// The mean is the sum divided by the count, rounded toward zero: for a sum
/// that is not negative, `m * len <= sum < (m + 1) * len`; for a negative sum,
/// `(m - 1) * len < sum <= m * len`.
pub proof fn law_mean_truncates(s: Seq<i64>)
    requires
        s.len() > 0,
    ensures
        mean_of(s) is Some,
        sum(s) >= 0 ==> 0 <= mean_of(s)->Some_0 && mean_of(s)->Some_0 * s.len() <= sum(s) < (
        mean_of(s)->Some_0 + 1) * s.len(),
        sum(s) < 0 ==> mean_of(s)->Some_0 <= 0 && (mean_of(s)->Some_0 - 1) * s.len() < sum(s)
            <= mean_of(s)->Some_0 * s.len(),
{
    let n = s.len() as int;
    let t = sum(s);
    let a = if t >= 0 {
        t
    } else {
        -t
    };
    vstd::arithmetic::div_mod::lemma_fundamental_div_mod(a, n);
    vstd::arithmetic::div_mod::lemma_mod_pos_bound(a, n);
    let q = a / n;
    let r = a % n;
    assert(q >= 0) by (nonlinear_arith)
        requires
            a >= 0,
            n > 0,
            a == n * q + r,
            0 <= r < n,
    ;
    if t >= 0 {
        assert(q * n <= t < (q + 1) * n) by (nonlinear_arith)
            requires
                t == n * q + r,
                0 <= r < n,
        ;
    } else {
        assert((-q - 1) * n < t <= (-q) * n) by (nonlinear_arith)
            requires
                -t == n * q + r,
                0 <= r < n,
        ;
    }
}

/// Whether an item lies in the closed interval `lo..=hi`.
pub open spec fn in_closed(lo: int, hi: int) -> spec_fn(i64) -> bool {
    |x: i64| lo <= x && x <= hi
}

/// The items kept around the mean are exactly those of the closed interval
/// `lo..=hi`, both ends included, in their order: an item equal to `lo` or to
/// `hi` is always kept, and one outside is never.
pub proof fn law_within_closed_interval(s: Seq<i64>, lo: int, hi: int)
    ensures
        within(s, lo, hi) == s.filter(in_closed(lo, hi)),
        forall|x: i64| #[trigger] within(s, lo, hi).contains(x) <==> (s.contains(x) && lo <= x
            && x <= hi),
    decreases s.len(),
{
    let f = in_closed(lo, hi);
    if s.len() > 0 {
        law_within_closed_interval(s.drop_last(), lo, hi);
        s.drop_last().lemma_filter_push(s.last(), f);
        assert(s.drop_last().push(s.last()) =~= s);
    } else {
        reveal(Seq::filter);
        assert(within(s, lo, hi) =~= s.filter(f));
    }
    assert(within(s, lo, hi) == s.filter(f));
    s.filter_lemma(f);
    assert forall|x: i64| #[trigger] within(s, lo, hi).contains(x) implies (s.contains(x) && lo
        <= x && x <= hi) by {
        let w = within(s, lo, hi);
        let i = choose|i: int| 0 <= i < w.len() && w[i] == x;
        assert(f(s.filter(f)[i]));
        let w0 = within(s.drop_last(), lo, hi);
        if x != s.last() {
            assert(i < w0.len() && w0[i] == x);
            assert(w0.contains(x));
            let j = choose|j: int| 0 <= j < s.drop_last().len() && s.drop_last()[j] == x;
            assert(s[j] == x);
        } else {
            assert(s[s.len() - 1] == x);
        }
    }
    assert forall|x: i64| s.contains(x) && lo <= x && x <= hi implies #[trigger] within(
        s,
        lo,
        hi,
    ).contains(x) by {
        let i = choose|i: int| 0 <= i < s.len() && s[i] == x;
        assert(f(s[i]));
        assert(s.filter(f).contains(s[i]));
    }
}

proof fn lemma_sum_sq_nonneg(s: Seq<i64>, m: int)
    ensures
        sum_sq(s, m) >= 0,
    decreases s.len(),
{
    if s.len() > 0 {
        lemma_sum_sq_nonneg(s.drop_last(), m);
        assert((m - s.last()) * (m - s.last()) >= 0) by (nonlinear_arith);
    }
}

/// `num_integer::Roots::sqrt` on an `i64`: the truncated square root of a
/// non-negative integer, `r * r <= x < (r + 1) * (r + 1)`, as its documentation
/// states; it panics on a negative one, which `requires` leaves out.
#[verifier::external_body]
fn isqrt(x: i64) -> (r: i64)
    requires
        x >= 0,
    ensures
        is_isqrt(x as int, r as int),
{
    num_integer::Roots::sqrt(&x)
}

/// The sum of the items.
fn sum_items(data: &Vec<i64>) -> (r: i64)
    requires
        sums_fit(data@),
    ensures
        r == sum(data@),
{
    let mut total: i64 = 0;
    let mut i: usize = 0;
    while i < data.len()
        invariant
            0 <= i <= data@.len(),
            sums_fit(data@),
            total == sum(data@.take(i as int)),
        decreases data@.len() - i,
    {
        assert(data@.take(i + 1 as int).drop_last() =~= data@.take(i as int));
        assert(i64::MIN <= sum(data@.take(i + 1 as int)) <= i64::MAX);
        total = total + data[i];
        i = i + 1;
    }
    assert(data@.take(data@.len() as int) =~= data@);
    total
}

/// The mean of the scores, rounded toward zero; `None` for no scores.
pub fn mean_integer(data: &Vec<i64>) -> (r: Option<i64>)
    requires
        sums_fit(data@),
        data@.len() <= i64::MAX,
    ensures
        match (r, mean_of(data@)) {
            (Some(a), Some(b)) => a == b,
            (None, None) => true,
            _ => false,
        },
{
    let data_mul_sum = sum_items(data);
    let count = data.len();
    if count > 0 {
        let c = count as i64;
        Some(data_mul_sum / c)
    } else {
        None
    }
}

/// The standard deviation of the scores, the integer square root of the mean
/// squared distance to their mean; `None` for no scores.
pub fn std_deviation_interger(data: &Vec<i64>) -> (r: Option<i64>)
    requires
        sums_fit(data@),
        data@.len() <= i64::MAX,
        data@.len() > 0 ==> squares_fit(data@, mean_of(data@)->Some_0),
    ensures
        data@.len() == 0 ==> r is None,
        data@.len() > 0 ==> r is Some && is_isqrt(
            sum_sq(data@, mean_of(data@)->Some_0) / (data@.len() as int),
            r->Some_0 as int,
        ),
{
    let count = data.len();
    match mean_integer(data) {
        Some(data_mean) => {
            if count == 0 {
                return None;
            }
            let ghost m = data_mean as int;
            let mut total: i64 = 0;
            let mut i: usize = 0;
            while i < count
                invariant
                    0 <= i <= count == data@.len(),
                    squares_fit(data@, m),
                    m == data_mean,
                    total == sum_sq(data@.take(i as int), m),
                decreases count - i,
            {
                assert(data@.take(i + 1 as int).drop_last() =~= data@.take(i as int));
                assert(sum_sq(data@.take(i + 1 as int), m) <= i64::MAX);
                assert(data@.take(i + 1 as int).last() == data@[i as int]);
                let diff = data_mean - data[i];
                proof {
                    lemma_sum_sq_nonneg(data@.take(i as int), m);
                    assert(diff * diff >= 0) by (nonlinear_arith);
                }
                total = total + diff * diff;
                i = i + 1;
            }
            assert(data@.take(count as int) =~= data@);
            proof {
                lemma_sum_sq_nonneg(data@, m);
            }
            let variance = total / (count as i64);
            Some(isqrt(variance))
        },
        None => None,
    }
}

/// The mean of the scores within `sd` of `mean`, rounded toward zero; `None`
/// when there is none.
pub fn calculate_new_mean(data: &Vec<i64>, mean: Option<i64>, sd: Option<i64>) -> (r: Option<i64>)
    requires
        data@.len() <= i64::MAX,
        data@.len() > 0 ==> {
            &&& mean is Some
            &&& sd is Some
            &&& i64::MIN <= mean->Some_0 - sd->Some_0 <= i64::MAX
            &&& i64::MIN <= mean->Some_0 + sd->Some_0 <= i64::MAX
            &&& sums_fit(
                within(data@, mean->Some_0 - sd->Some_0, mean->Some_0 + sd->Some_0),
            )
        },
    ensures
        data@.len() == 0 ==> r is None,
        data@.len() > 0 ==> {
            let w = within(data@, mean->Some_0 - sd->Some_0, mean->Some_0 + sd->Some_0);
            match (r, mean_of(w)) {
                (Some(a), Some(b)) => a == b,
                (None, None) => true,
                _ => false,
            }
        },
        data@.len() > 0 ==> {
            let kept = data@.filter(
                in_closed(mean->Some_0 - sd->Some_0, mean->Some_0 + sd->Some_0),
            );
            match r {
                Some(a) => kept.len() > 0 && a == trunc_div(sum(kept), kept.len() as int),
                None => kept.len() == 0,
            }
        },
{
    let mut new_items: Vec<i64> = Vec::new();
    let mut i: usize = 0;
    while i < data.len()
        invariant
            0 <= i <= data@.len(),
            data@.len() > 0 ==> {
                &&& mean is Some
                &&& sd is Some
                &&& i64::MIN <= mean->Some_0 - sd->Some_0 <= i64::MAX
                &&& i64::MIN <= mean->Some_0 + sd->Some_0 <= i64::MAX
            },
            data@.len() > 0 ==> new_items@ == within(
                data@.take(i as int),
                mean->Some_0 - sd->Some_0,
                mean->Some_0 + sd->Some_0,
            ),
            data@.len() == 0 ==> new_items@.len() == 0,
            new_items@.len() <= i,
        decreases data@.len() - i,
    {
        assert(data@.take(i + 1 as int).drop_last() =~= data@.take(i as int));
        assert(data@.take(i + 1 as int).last() == data@[i as int]);
        let x = data[i];
        let m = match mean {
            Some(m) => m,
            None => 0,
        };
        let d = match sd {
            Some(d) => d,
            None => 0,
        };
        if x >= m - d && x <= m + d {
            new_items.push(x);
        }
        i = i + 1;
    }
    assert(data@.take(data@.len() as int) =~= data@);
    proof {
        if data@.len() > 0 {
            law_within_closed_interval(
                data@,
                mean->Some_0 - sd->Some_0,
                mean->Some_0 + sd->Some_0,
            );
        }
    }
    if data.len() == 0 {
        assert(sums_fit(new_items@)) by {
            assert forall|j: int| 0 <= j <= new_items@.len() implies i64::MIN <= #[trigger] sum(
                new_items@.take(j),
            ) <= i64::MAX by {
                assert(new_items@.take(j) =~= Seq::<i64>::empty());
            }
        }
    }
    mean_integer(&new_items)
}

} // verus!
