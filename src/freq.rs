//! The frequency counter and the cumulative counts.
use vstd::prelude::*;
use crate::bins::Interval;
use crate::order::{le, lt, value_le, value_lt};

verus! {

/// Bin `i` holds `v`: half-open, or closed on the last bin when `closed`
/// is false; closed on every bin when `closed` is true.
pub open spec fn holds(v: u64, ivs: Seq<Interval>, i: int, closed: bool) -> bool {
    &&& 0 <= i < ivs.len()
    &&& le(ivs[i].start, v)
    &&& if closed || i == ivs.len() - 1 {
        le(v, ivs[i].end)
    } else {
        lt(v, ivs[i].end)
    }
}

/// Bin `i` is the first one that holds `v`.
pub open spec fn first_holding(v: u64, ivs: Seq<Interval>, i: int, closed: bool) -> bool {
    holds(v, ivs, i, closed) && forall|j: int| 0 <= j < i ==> !#[trigger] holds(v, ivs, j, closed)
}

/// The bin that `v` is counted in: the first bin whose half-open range holds
/// it; failing that, the first bin whose closed range holds it. A value that
/// no bin holds is counted nowhere.
pub open spec fn assigned(v: u64, ivs: Seq<Interval>, b: int) -> bool {
    ||| first_holding(v, ivs, b, false)
    ||| (forall|j: int| !#[trigger] holds(v, ivs, j, false)) && first_holding(v, ivs, b, true)
}

/// How many observations are counted in bin `b`.
pub open spec fn tally(data: Seq<u64>, ivs: Seq<Interval>, b: int) -> nat
    decreases data.len(),
{
    if data.len() == 0 {
        0
    } else {
        tally(data.drop_last(), ivs, b) + if assigned(data.last(), ivs, b) {
            1nat
        } else {
            0nat
        }
    }
}

/// Some bin counts `v`.
pub open spec fn placed(v: u64, ivs: Seq<Interval>) -> bool {
    exists|b: int| assigned(v, ivs, b)
}

/// How many observations are counted in some bin.
pub open spec fn counted(data: Seq<u64>, ivs: Seq<Interval>) -> nat
    decreases data.len(),
{
    if data.len() == 0 {
        0
    } else {
        counted(data.drop_last(), ivs) + if placed(data.last(), ivs) {
            1nat
        } else {
            0nat
        }
    }
}

/// The sum of the tallies of the first `n` bins.
pub open spec fn sum_tallies(data: Seq<u64>, ivs: Seq<Interval>, n: int) -> int
    decreases n,
{
    if n <= 0 {
        0
    } else {
        sum_tallies(data, ivs, n - 1) + tally(data, ivs, n - 1)
    }
}

/// The sum of a sequence of counts.
pub open spec fn total(s: Seq<usize>) -> int
    decreases s.len(),
{
    if s.len() == 0 {
        0
    } else {
        total(s.drop_last()) + s.last()
    }
}

/// Running inclusive sums: entry `i` is the total of the first `i + 1` counts.
pub open spec fn running_totals(s: Seq<usize>) -> Seq<int> {
    Seq::new(s.len(), |i: int| total(s.take(i + 1)))
}

/// A value is counted in at most one bin.
pub proof fn lemma_assigned_unique(v: u64, ivs: Seq<Interval>, a: int, b: int)
    requires
        assigned(v, ivs, a),
        assigned(v, ivs, b),
    ensures
        a == b,
{
    if first_holding(v, ivs, a, false) {
        if !first_holding(v, ivs, b, false) {
            assert(holds(v, ivs, a, false));
        } else if a < b {
            assert(!holds(v, ivs, a, false));
        } else if b < a {
            assert(!holds(v, ivs, b, false));
        }
    } else {
        if first_holding(v, ivs, b, false) {
            assert(holds(v, ivs, b, false));
        } else if a < b {
            assert(!holds(v, ivs, a, true));
        } else if b < a {
            assert(!holds(v, ivs, b, true));
        }
    }
}

/// The first bin that holds `v`.
fn scan(v: u64, intervals: &Vec<Interval>, closed: bool) -> (r: Option<usize>)
    ensures
        match r {
            Some(b) => first_holding(v, intervals@, b as int, closed),
            None => forall|j: int| !#[trigger] holds(v, intervals@, j, closed),
        },
{
    let n = intervals.len();
    let mut i: usize = 0;
    while i < n
        invariant
            n == intervals.len(),
            i <= n,
            forall|j: int| 0 <= j < i ==> !#[trigger] holds(v, intervals@, j, closed),
        decreases n - i,
    {
        let iv = intervals[i];
        let inside = if closed || i == n - 1 {
            value_le(iv.start, v) && value_le(v, iv.end)
        } else {
            value_le(iv.start, v) && value_lt(v, iv.end)
        };
        if inside {
            return Some(i);
        }
        i = i + 1;
    }
    None
}

/// The bin that `v` is counted in, if any.
pub fn locate(v: u64, intervals: &Vec<Interval>) -> (r: Option<usize>)
    ensures
        match r {
            Some(b) => assigned(v, intervals@, b as int),
            None => forall|b: int| !#[trigger] assigned(v, intervals@, b),
        },
{
    match scan(v, intervals, false) {
        Some(b) => Some(b),
        None => scan(v, intervals, true),
    }
}

/// The number of observations counted in each bin. Each observation is
/// counted in the first bin whose half-open range holds it, or failing that
/// in the first whose closed range does; one that no bin holds is left out.
pub fn count_frequencies(data: &Vec<u64>, intervals: &Vec<Interval>) -> (ni: Vec<usize>)
    ensures
        ni.len() == intervals.len(),
        forall|b: int| 0 <= b < ni.len() ==> #[trigger] ni[b] == tally(data@, intervals@, b),
{
    let k = intervals.len();
    let mut ni: Vec<usize> = Vec::new();
    let mut b: usize = 0;
    while b < k
        invariant
            b <= k,
            ni.len() == b,
            forall|t: int| 0 <= t < b ==> #[trigger] ni[t] == 0,
        decreases k - b,
    {
        ni.push(0);
        b = b + 1;
    }
    let mut j: usize = 0;
    while j < data.len()
        invariant
            k == intervals.len(),
            ni.len() == k,
            j <= data.len(),
            forall|t: int| 0 <= t < k ==> #[trigger] ni[t] == tally(data@.take(j as int), intervals@, t),
            forall|t: int| 0 <= t < k ==> #[trigger] ni[t] <= j,
        decreases data.len() - j,
    {
        let v = data[j];
        let ghost pre = data@.take(j as int);
        let ghost post = data@.take(j as int + 1);
        proof {
            assert(post.drop_last() =~= pre);
            assert(post.last() == v);
        }
        match locate(v, intervals) {
            Some(b) => {
                ni.set(b, ni[b] + 1);
                proof {
                    assert forall|t: int| 0 <= t < k implies #[trigger] ni[t] == tally(post, intervals@, t) by {
                        if t != b && assigned(v, intervals@, t) {
                            lemma_assigned_unique(v, intervals@, t, b as int);
                        }
                    }
                }
            },
            None => {
                assert forall|t: int| 0 <= t < k implies #[trigger] ni[t] == tally(post, intervals@, t) by {
                    assert(!assigned(v, intervals@, t));
                }
            },
        }
        j = j + 1;
    }
    proof {
        assert(data@.take(data.len() as int) =~= data@);
    }
    ni
}

/// Adding one observation adds one to the tallies of the first `n` bins
/// exactly when it is counted in one of them.
proof fn lemma_sum_tallies_step(data: Seq<u64>, ivs: Seq<Interval>, n: int)
    requires
        data.len() > 0,
        n >= 0,
    ensures
        sum_tallies(data, ivs, n) == sum_tallies(data.drop_last(), ivs, n) + if exists|b: int|
            0 <= b < n && #[trigger] assigned(data.last(), ivs, b) {
            1int
        } else {
            0int
        },
    decreases n,
{
    let v = data.last();
    if n > 0 {
        lemma_sum_tallies_step(data, ivs, n - 1);
        if assigned(v, ivs, n - 1) {
            assert forall|b: int| 0 <= b < n - 1 implies !#[trigger] assigned(v, ivs, b) by {
                if assigned(v, ivs, b) {
                    lemma_assigned_unique(v, ivs, b, n - 1);
                }
            }
        } else {
            if exists|b: int| 0 <= b < n && #[trigger] assigned(v, ivs, b) {
                let b = choose|b: int| 0 <= b < n && #[trigger] assigned(v, ivs, b);
                assert(0 <= b < n - 1);
            }
        }
    }
}

/// The tallies of all bins add up to the number of observations counted.
pub proof fn lemma_sum_tallies_counted(data: Seq<u64>, ivs: Seq<Interval>)
    ensures
        sum_tallies(data, ivs, ivs.len() as int) == counted(data, ivs),
        counted(data, ivs) <= data.len(),
    decreases data.len(),
{
    if data.len() == 0 {
        lemma_sum_tallies_empty(data, ivs, ivs.len() as int);
    } else {
        lemma_sum_tallies_counted(data.drop_last(), ivs);
        lemma_sum_tallies_step(data, ivs, ivs.len() as int);
        let v = data.last();
        if placed(v, ivs) {
            let b = choose|b: int| assigned(v, ivs, b);
            assert(0 <= b < ivs.len() && assigned(v, ivs, b));
        }
    }
}

proof fn lemma_sum_tallies_empty(data: Seq<u64>, ivs: Seq<Interval>, n: int)
    requires
        data.len() == 0,
    ensures
        sum_tallies(data, ivs, n) == 0,
    decreases n,
{
    if n > 0 {
        lemma_sum_tallies_empty(data, ivs, n - 1);
    }
}

/// Counts that are the bins' tallies sum to the tallies' sum.
pub proof fn lemma_total_of_tallies(ni: Seq<usize>, data: Seq<u64>, ivs: Seq<Interval>)
    requires
        ni.len() <= ivs.len(),
        forall|b: int| 0 <= b < ni.len() ==> #[trigger] ni[b] == tally(data, ivs, b),
    ensures
        total(ni) == sum_tallies(data, ivs, ni.len() as int),
    decreases ni.len(),
{
    if ni.len() > 0 {
        let p = ni.drop_last();
        assert forall|b: int| 0 <= b < p.len() implies #[trigger] p[b] == tally(data, ivs, b) by {
            assert(p[b] == ni[b]);
        }
        lemma_total_of_tallies(p, data, ivs);
    }
}

/// A prefix of counts sums to no more than all of them.
pub proof fn lemma_total_prefix(s: Seq<usize>, i: int)
    requires
        0 <= i <= s.len(),
    ensures
        0 <= total(s.take(i)) <= total(s),
    decreases s.len(),
{
    if i == s.len() {
        assert(s.take(i) =~= s);
        if s.len() > 0 {
            lemma_total_prefix(s.drop_last(), 0);
        } else {
            assert(total(s) == 0);
        }
    } else {
        lemma_total_prefix(s.drop_last(), i);
        assert(s.drop_last().take(i) =~= s.take(i));
    }
}

/// The total of one more count.
pub proof fn lemma_total_step(s: Seq<usize>, i: int)
    requires
        0 <= i < s.len(),
    ensures
        total(s.take(i + 1)) == total(s.take(i)) + s[i],
{
    assert(s.take(i + 1).drop_last() =~= s.take(i));
}

/// The cumulative counts never decrease, and the last one is the sum of
/// all counts.
pub proof fn lemma_running_totals(ni: Seq<usize>)
    ensures
        forall|i: int, j: int|
            0 <= i <= j < ni.len() ==> #[trigger] running_totals(ni)[i] <= #[trigger] running_totals(
                ni,
            )[j],
        ni.len() > 0 ==> running_totals(ni)[ni.len() - 1] == total(ni),
{
    assert forall|i: int, j: int|
        0 <= i <= j < ni.len() implies #[trigger] running_totals(ni)[i] <= #[trigger] running_totals(
            ni,
        )[j] by {
        lemma_total_prefix(ni.take(j + 1), i + 1);
        assert(ni.take(j + 1).take(i + 1) =~= ni.take(i + 1));
    }
    if ni.len() > 0 {
        assert(ni.take(ni.len() as int) =~= ni);
    }
}

/// The sum of the counts.
pub fn sum_ni(ni: &Vec<usize>) -> (r: usize)
    requires
        total(ni@) <= usize::MAX,
    ensures
        r == total(ni@),
{
    let mut acc: usize = 0;
    let mut i: usize = 0;
    while i < ni.len()
        invariant
            i <= ni.len(),
            acc == total(ni@.take(i as int)),
            total(ni@) <= usize::MAX,
        decreases ni.len() - i,
    {
        proof {
            lemma_total_step(ni@, i as int);
            lemma_total_prefix(ni@, i as int + 1);
        }
        acc = acc + ni[i];
        i = i + 1;
    }
    proof {
        assert(ni@.take(ni.len() as int) =~= ni@);
    }
    acc
}

/// The cumulative counts: entry `i` is the sum of the first `i + 1` counts.
pub fn compute_si(ni: &Vec<usize>) -> (si: Vec<usize>)
    requires
        total(ni@) <= usize::MAX,
    ensures
        si.len() == ni.len(),
        forall|i: int| 0 <= i < si.len() ==> #[trigger] si[i] as int == running_totals(ni@)[i],
{
    let mut si: Vec<usize> = Vec::new();
    let mut acc: usize = 0;
    let mut i: usize = 0;
    while i < ni.len()
        invariant
            i <= ni.len(),
            si.len() == i,
            acc == total(ni@.take(i as int)),
            total(ni@) <= usize::MAX,
            forall|t: int| 0 <= t < i ==> #[trigger] si[t] as int == running_totals(ni@)[t],
        decreases ni.len() - i,
    {
        proof {
            lemma_total_step(ni@, i as int);
            lemma_total_prefix(ni@, i as int + 1);
        }
        acc = acc + ni[i];
        si.push(acc);
        i = i + 1;
    }
    si
}

} // verus!
