//! The bin planner: the sample's range, the choice between no bins, one
//! degenerate bin and a split range, and the assembly of contiguous bins
//! from their lower bounds.
use vstd::prelude::*;
use crate::order::{
    key, le, nan, same, value_eq, value_lt, INFINITY_BITS, NEG_INFINITY_BITS,
};

verus! {

/// One bin `[start, end)`, closed above for the last bin of a sequence.
/// Both bounds are binary64 bit patterns.
#[derive(Clone, Copy, Debug, PartialEq, Eq, Structural)]
pub struct Interval {
    pub start: u64,
    pub end: u64,
}

/// How the sample's range is divided.
#[derive(Clone, Copy, Debug, PartialEq, Eq, Structural)]
pub enum Layout {
    /// The sample is empty: no bins.
    NoBins,
    /// Minimum and maximum compare equal: one bin `(min, max)`.
    OneBin { min: u64, max: u64 },
    /// Minimum and maximum differ: the range is split into bins whose lower
    /// bounds are computed from `min`, and the last bin ends at `max`.
    Split { min: u64, max: u64 },
}

/// `m` is the smallest non-NaN value of `data`, or positive infinity when
/// none is smaller.
pub open spec fn is_min_of(data: Seq<u64>, m: u64) -> bool {
    &&& !nan(m)
    &&& key(m) <= key(INFINITY_BITS)
    &&& forall|j: int| 0 <= j < data.len() && !nan(data[j]) ==> key(m) <= key(#[trigger] data[j])
    &&& m == INFINITY_BITS || exists|j: int| 0 <= j < data.len() && !nan(data[j]) && data[j] == m
}

/// `m` is the largest non-NaN value of `data`, or negative infinity when
/// none is larger.
pub open spec fn is_max_of(data: Seq<u64>, m: u64) -> bool {
    &&& !nan(m)
    &&& key(NEG_INFINITY_BITS) <= key(m)
    &&& forall|j: int| 0 <= j < data.len() && !nan(data[j]) ==> key(#[trigger] data[j]) <= key(m)
    &&& m == NEG_INFINITY_BITS || exists|j: int| 0 <= j < data.len() && !nan(data[j]) && data[j] == m
}

/// The layout that the sample calls for.
pub open spec fn is_layout_of(data: Seq<u64>, layout: Layout) -> bool {
    match layout {
        Layout::NoBins => data.len() == 0,
        Layout::OneBin { min, max } => data.len() > 0 && is_min_of(data, min) && is_max_of(
            data,
            max,
        ) && same(min, max),
        Layout::Split { min, max } => data.len() > 0 && is_min_of(data, min) && is_max_of(
            data,
            max,
        ) && !same(min, max),
    }
}

/// The bins built from a layout and, for a split range, the lower bounds
/// of the bins: bin `i` spans `starts[i]` to `starts[i + 1]`, the last one
/// ends at the maximum.
pub open spec fn intervals_of(layout: Layout, starts: Seq<u64>) -> Seq<Interval> {
    match layout {
        Layout::NoBins => Seq::empty(),
        Layout::OneBin { min, max } => seq![Interval { start: min, end: max }],
        Layout::Split { min, max } => Seq::new(
            starts.len(),
            |i: int|
                Interval {
                    start: starts[i],
                    end: if i + 1 < starts.len() {
                        starts[i + 1]
                    } else {
                        max
                    },
                },
        ),
    }
}

/// Each bin ends where the next one starts, bit for bit.
pub open spec fn contiguous(ivs: Seq<Interval>) -> bool {
    forall|i: int| 0 <= i < ivs.len() - 1 ==> (#[trigger] ivs[i]).end == ivs[i + 1].start
}

/// The smallest and the largest non-NaN value of the sample, with positive
/// and negative infinity standing in when the sample holds none.
pub fn sample_range(data: &Vec<u64>) -> (r: (u64, u64))
    ensures
        is_min_of(data@, r.0),
        is_max_of(data@, r.1),
{
    let mut lo: u64 = INFINITY_BITS;
    let mut hi: u64 = NEG_INFINITY_BITS;
    let mut j: usize = 0;
    while j < data.len()
        invariant
            j <= data.len(),
            is_min_of(data@.take(j as int), lo),
            is_max_of(data@.take(j as int), hi),
        decreases data.len() - j,
    {
        let v = data[j];
        proof {
            assert(data@.take(j as int + 1) =~= data@.take(j as int).push(v));
        }
        if value_lt(v, lo) {
            lo = v;
        }
        if value_lt(hi, v) {
            hi = v;
        }
        proof {
            let t = data@.take(j as int + 1);
            let t0 = data@.take(j as int);
            assert forall|i: int| 0 <= i < t.len() && !nan(t[i]) implies key(lo) <= key(
                #[trigger] t[i],
            ) by {
                if i < j {
                    assert(t[i] == t0[i]);
                }
            }
            assert forall|i: int| 0 <= i < t.len() && !nan(t[i]) implies key(#[trigger] t[i])
                <= key(hi) by {
                if i < j {
                    assert(t[i] == t0[i]);
                }
            }
            if lo != INFINITY_BITS {
                if lo == v {
                    assert(t[j as int] == v);
                } else {
                    let w = choose|i: int| 0 <= i < t0.len() && !nan(t0[i]) && t0[i] == lo;
                    assert(t[w] == t0[w]);
                }
            }
            if hi != NEG_INFINITY_BITS {
                if hi == v {
                    assert(t[j as int] == v);
                } else {
                    let w = choose|i: int| 0 <= i < t0.len() && !nan(t0[i]) && t0[i] == hi;
                    assert(t[w] == t0[w]);
                }
            }
        }
        j = j + 1;
    }
    proof {
        assert(data@.take(data.len() as int) =~= data@);
    }
    (lo, hi)
}

/// Decides how the sample's range is divided.
pub fn plan_layout(data: &Vec<u64>) -> (r: Layout)
    ensures
        is_layout_of(data@, r),
{
    if data.len() == 0 {
        return Layout::NoBins;
    }
    let (min, max) = sample_range(data);
    if value_eq(min, max) {
        Layout::OneBin { min, max }
    } else {
        Layout::Split { min, max }
    }
}

/// The bins of a layout. For a split range, `starts` holds the lower bound
/// of each bin, in order; the last bin ends exactly at the maximum.
pub fn compute_intervals(layout: &Layout, starts: &Vec<u64>) -> (r: Vec<Interval>)
    requires
        layout is Split ==> starts.len() >= 1,
    ensures
        r@ == intervals_of(*layout, starts@),
        contiguous(r@),
        (forall|i: int| 0 <= i < starts.len() - 1 ==> le(#[trigger] starts[i], starts[i + 1]))
            && (layout is Split ==> le(starts[starts.len() - 1], layout->Split_max))
            && (layout is OneBin ==> le(layout->OneBin_min, layout->OneBin_max))
            ==> forall|i: int| 0 <= i < r.len() ==> le((#[trigger] r[i]).start, r[i].end),
{
    match layout {
        Layout::NoBins => {
            let r: Vec<Interval> = Vec::new();
            proof {
                assert(r@ =~= intervals_of(*layout, starts@));
            }
            r
        },
        Layout::OneBin { min, max } => {
            let r: Vec<Interval> = vec![Interval { start: *min, end: *max }];
            proof {
                assert(r@ =~= intervals_of(*layout, starts@));
            }
            r
        },
        Layout::Split { min, max } => {
            let k = starts.len();
            let mut r: Vec<Interval> = Vec::with_capacity(k);
            let mut i: usize = 0;
            while i < k
                invariant
                    k == starts.len(),
                    i <= k,
                    r.len() == i,
                    forall|t: int|
                        0 <= t < i ==> #[trigger] r[t] == (Interval {
                            start: starts[t],
                            end: if t + 1 < k {
                                starts[t + 1]
                            } else {
                                *max
                            },
                        }),
                decreases k - i,
            {
                let end = if i + 1 < k {
                    starts[i + 1]
                } else {
                    *max
                };
                r.push(Interval { start: starts[i], end });
                i = i + 1;
            }
            proof {
                assert(r@ =~= intervals_of(*layout, starts@));
            }
            r
        },
    }
}

} // verus!
