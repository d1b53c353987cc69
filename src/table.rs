//! The frequency table of a sample over its bins, with the median and mode
//! rule of every bin, and the laws that tie it to the bin planner.
use vstd::prelude::*;
use crate::bins::{contiguous, intervals_of, is_layout_of, Interval, Layout};
use crate::freq::{
    assigned, sum_ni, compute_si, count_frequencies, counted, first_holding,
    holds, lemma_sum_tallies_counted, lemma_total_of_tallies, placed, running_totals, tally,
    total,
};
use crate::order::{key, le, lt, nan};
use crate::position::{calculate_medians, calculate_modes, median_rule, mode_rule, MedianRule, ModeRule};

verus! {

/// The frequency table and the position rules of a grouped sample.
#[derive(Debug)]
pub struct Tabulation {
    /// The count of each bin.
    pub ni: Vec<usize>,
    /// The cumulative count of each bin.
    pub si: Vec<usize>,
    /// The number of observations counted in some bin.
    pub sum_ni: usize,
    /// The median rule of each bin; empty when nothing was counted.
    pub medians: Vec<MedianRule>,
    /// The mode rule of each bin.
    pub modes: Vec<ModeRule>,
}

/// `t` is the table of `data` over the bins `ivs`.
pub open spec fn is_tabulation(t: Tabulation, data: Seq<u64>, ivs: Seq<Interval>) -> bool {
    &&& t.ni.len() == ivs.len()
    &&& forall|b: int| 0 <= b < ivs.len() ==> #[trigger] t.ni[b] == tally(data, ivs, b)
    &&& t.si.len() == ivs.len()
    &&& forall|b: int| 0 <= b < ivs.len() ==> #[trigger] t.si[b] as int == running_totals(t.ni@)[b]
    &&& t.sum_ni == total(t.ni@)
    &&& t.sum_ni == counted(data, ivs)
    &&& t.medians.len() == if t.sum_ni == 0 {
        0
    } else {
        ivs.len()
    }
    &&& forall|b: int| 0 <= b < t.medians.len() ==> #[trigger] t.medians[b] == median_rule(t.ni@, t.si@, b)
    &&& t.modes.len() == ivs.len()
    &&& forall|b: int| 0 <= b < ivs.len() ==> #[trigger] t.modes[b] == mode_rule(t.ni@, b)
}

/// Counts the sample over its bins and derives the cumulative counts and
/// the median and mode rule of every bin.
pub fn tabulate(data: &Vec<u64>, intervals: &Vec<Interval>) -> (t: Tabulation)
    ensures
        is_tabulation(t, data@, intervals@),
{
    let ni = count_frequencies(data, intervals);
    proof {
        lemma_total_of_tallies(ni@, data@, intervals@);
        lemma_sum_tallies_counted(data@, intervals@);
        assert(data@.len() == data.len());
    }
    let si = compute_si(&ni);
    let sum_ni = sum_ni(&ni);
    let medians = calculate_medians(&ni, &si);
    let modes = calculate_modes(&ni);
    Tabulation { ni, si, sum_ni, medians, modes }
}

/// The table of a sample is determined by the sample and the bins: two
/// tables of the same input agree in every field.
pub proof fn lemma_tabulation_repeatable(
    t1: Tabulation,
    t2: Tabulation,
    data: Seq<u64>,
    ivs: Seq<Interval>,
)
    requires
        is_tabulation(t1, data, ivs),
        is_tabulation(t2, data, ivs),
    ensures
        t1.ni@ == t2.ni@,
        t1.si@ == t2.si@,
        t1.sum_ni == t2.sum_ni,
        t1.medians@ == t2.medians@,
        t1.modes@ == t2.modes@,
{
    assert(t1.ni@ =~= t2.ni@);
    assert(t1.si@ =~= t2.si@);
    assert(t1.medians@ =~= t2.medians@);
    assert(t1.modes@ =~= t2.modes@);
}

/// A value that the first bin's start and the last bin's end enclose lies
/// in some bin's half-open range, when the bins are contiguous and no bound
/// between them is NaN.
proof fn lemma_covered(v: u64, ivs: Seq<Interval>, i: int)
    requires
        0 <= i < ivs.len(),
        contiguous(ivs),
        forall|t: int| 0 <= t < ivs.len() - 1 ==> !nan(#[trigger] ivs[t].end),
        le(ivs[i].start, v),
        le(v, ivs[ivs.len() - 1].end),
    ensures
        exists|b: int| holds(v, ivs, b, false),
    decreases ivs.len() - i,
{
    if i == ivs.len() - 1 || lt(v, ivs[i].end) {
        assert(holds(v, ivs, i, false));
    } else {
        assert(ivs[i].end == ivs[i + 1].start);
        lemma_covered(v, ivs, i + 1);
    }
}

/// Where some bin holds `v`, a first one does.
proof fn lemma_first_exists(v: u64, ivs: Seq<Interval>, i: int, closed: bool)
    requires
        holds(v, ivs, i, closed),
    ensures
        exists|b: int| first_holding(v, ivs, b, closed),
    decreases i,
{
    if forall|j: int| 0 <= j < i ==> !#[trigger] holds(v, ivs, j, closed) {
        assert(first_holding(v, ivs, i, closed));
    } else {
        let j = choose|j: int| 0 <= j < i && #[trigger] holds(v, ivs, j, closed);
        lemma_first_exists(v, ivs, j, closed);
    }
}

/// Where every observation is placed, all are counted.
proof fn lemma_counted_all(data: Seq<u64>, ivs: Seq<Interval>)
    requires
        forall|j: int| 0 <= j < data.len() ==> placed(#[trigger] data[j], ivs),
    ensures
        counted(data, ivs) == data.len(),
    decreases data.len(),
{
    if data.len() > 0 {
        let p = data.drop_last();
        assert forall|j: int| 0 <= j < p.len() implies placed(#[trigger] p[j], ivs) by {
            assert(p[j] == data[j]);
        }
        lemma_counted_all(p, ivs);
        assert(placed(data[data.len() - 1], ivs));
    }
}

/// Every observation of a non-empty sample without NaN is counted exactly
/// once: the counts of its bins sum to the sample's size. This holds for
/// the bins that the sample's layout and the bins' lower bounds make, where
/// those bounds hold no NaN and the first is not above the minimum.
pub proof fn lemma_every_observation_counted(
    data: Seq<u64>,
    layout: Layout,
    starts: Seq<u64>,
    t: Tabulation,
)
    requires
        data.len() > 0,
        forall|j: int| 0 <= j < data.len() ==> !nan(#[trigger] data[j]),
        is_layout_of(data, layout),
        layout is Split ==> starts.len() >= 1 && le(starts[0], layout->Split_min) && forall|
            i: int,
        | 0 <= i < starts.len() ==> !nan(#[trigger] starts[i]),
        is_tabulation(t, data, intervals_of(layout, starts)),
    ensures
        t.sum_ni == data.len(),
        total(t.ni@) == data.len(),
{
    let ivs = intervals_of(layout, starts);
    assert(ivs.len() >= 1);
    assert(contiguous(ivs));
    assert forall|j: int| 0 <= j < data.len() implies placed(#[trigger] data[j], ivs) by {
        let v = data[j];
        match layout {
            Layout::OneBin { min, max } => {
                assert(ivs[0] == Interval { start: min, end: max });
            },
            Layout::Split { min, max } => {
                assert(key(min) <= key(v));
                assert(ivs[ivs.len() - 1].end == max);
                assert forall|t: int| 0 <= t < ivs.len() - 1 implies !nan(#[trigger] ivs[t].end) by {
                    assert(ivs[t].end == starts[t + 1]);
                }
            },
            Layout::NoBins => {},
        }
        lemma_covered(v, ivs, 0);
        let b = choose|b: int| holds(v, ivs, b, false);
        lemma_first_exists(v, ivs, b, false);
        let f = choose|f: int| first_holding(v, ivs, f, false);
        assert(assigned(v, ivs, f));
    }
    lemma_counted_all(data, ivs);
}

} // verus!
