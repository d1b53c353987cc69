//! The position estimator: for every bin, which grouped-data formula gives
//! its median and mode estimate, and the counts that formula takes.
use vstd::prelude::*;
use crate::freq::total;

verus! {

/// How the median estimate of one bin is obtained.
#[derive(Clone, Copy, Debug, PartialEq, Eq, Structural)]
pub enum MedianRule {
    /// The bin is empty: its midpoint.
    Midpoint,
    /// `start + ((total / 2 - before) / freq) * width`, with `before` the
    /// cumulative count ahead of the bin and `freq` its own count.
    Interpolate { before: usize, freq: usize },
}

/// How the mode estimate of one bin is obtained.
#[derive(Clone, Copy, Debug, PartialEq, Eq, Structural)]
pub enum ModeRule {
    /// `d1 + d2` is not positive: the bin's midpoint.
    Midpoint,
    /// `start + (d1 / (d1 + d2)) * width`, with `d1` the bin's count less
    /// the previous bin's and `d2` its count less the next bin's.
    Interpolate { d1: i128, d2: i128 },
}

/// The bin's count less the previous bin's (none before the first bin).
pub open spec fn rise(ni: Seq<usize>, i: int) -> int {
    ni[i] - if i > 0 {
        ni[i - 1] as int
    } else {
        0
    }
}

/// The bin's count less the next bin's (none after the last bin).
pub open spec fn fall(ni: Seq<usize>, i: int) -> int {
    ni[i] - if i < ni.len() - 1 {
        ni[i + 1] as int
    } else {
        0
    }
}

/// The mode rule of bin `i`.
pub open spec fn mode_rule(ni: Seq<usize>, i: int) -> ModeRule {
    if rise(ni, i) + fall(ni, i) > 0 {
        ModeRule::Interpolate { d1: rise(ni, i) as i128, d2: fall(ni, i) as i128 }
    } else {
        ModeRule::Midpoint
    }
}

/// The median rule of bin `i`, given the cumulative counts.
pub open spec fn median_rule(ni: Seq<usize>, si: Seq<usize>, i: int) -> MedianRule {
    if ni[i] > 0 {
        MedianRule::Interpolate {
            before: if i == 0 {
                0
            } else {
                si[i - 1]
            },
            freq: ni[i],
        }
    } else {
        MedianRule::Midpoint
    }
}

/// Counts sum to zero exactly when every one is zero.
pub proof fn lemma_total_zero(s: Seq<usize>)
    ensures
        (total(s) == 0) == (forall|i: int| 0 <= i < s.len() ==> s[i] == 0),
        total(s) >= 0,
    decreases s.len(),
{
    if s.len() > 0 {
        lemma_total_zero(s.drop_last());
        if total(s) == 0 {
            assert forall|i: int| 0 <= i < s.len() implies s[i] == 0 by {
                if i < s.len() - 1 {
                    assert(s[i] == s.drop_last()[i]);
                }
            }
        }
        if forall|i: int| 0 <= i < s.len() ==> s[i] == 0 {
            assert forall|i: int| 0 <= i < s.drop_last().len() implies s.drop_last()[i] == 0 by {
                assert(s[i] == 0);
            }
        }
    }
}

/// On a histogram whose bins all hold the same count, every interior bin
/// has `d1 + d2 == 0` and takes its midpoint as mode; when that count is
/// zero, every bin does.
pub proof fn lemma_uniform_modes(ni: Seq<usize>, c: usize)
    requires
        forall|i: int| 0 <= i < ni.len() ==> #[trigger] ni[i] == c,
    ensures
        forall|i: int| 0 < i < ni.len() - 1 ==> #[trigger] rise(ni, i) + fall(ni, i) == 0,
        forall|i: int|
            0 <= i < ni.len() && (0 < i < ni.len() - 1 || c == 0) ==> #[trigger] mode_rule(ni, i)
                == ModeRule::Midpoint,
{
    assert forall|i: int| 0 < i < ni.len() - 1 implies #[trigger] rise(ni, i) + fall(ni, i) == 0 by {
        assert(ni[i - 1] == c && ni[i + 1] == c && ni[i] == c);
    }
    assert forall|i: int|
        0 <= i < ni.len() && (0 < i < ni.len() - 1 || c == 0) implies #[trigger] mode_rule(ni, i)
        == ModeRule::Midpoint by {
        assert(ni[i] == c);
        if i > 0 {
            assert(ni[i - 1] == c);
        }
        if i < ni.len() - 1 {
            assert(ni[i + 1] == c);
        }
    }
}

/// Whether some bin has a positive count.
fn any_counted(ni: &Vec<usize>) -> (r: bool)
    ensures
        r == (total(ni@) != 0),
{
    proof {
        lemma_total_zero(ni@);
    }
    let mut i: usize = 0;
    while i < ni.len()
        invariant
            i <= ni.len(),
            forall|t: int| 0 <= t < i ==> ni[t] == 0,
            (total(ni@) == 0) == (forall|t: int| 0 <= t < ni.len() ==> ni[t] == 0),
        decreases ni.len() - i,
    {
        if ni[i] != 0 {
            assert(!(forall|t: int| 0 <= t < ni.len() ==> ni[t] == 0));
            return true;
        }
        i = i + 1;
    }
    false
}

/// The median rule of every bin, each computed as if the median fell in
/// that bin. Empty when no observation was counted.
pub fn calculate_medians(ni: &Vec<usize>, si: &Vec<usize>) -> (r: Vec<MedianRule>)
    requires
        si.len() == ni.len(),
    ensures
        total(ni@) == 0 ==> r.len() == 0,
        total(ni@) != 0 ==> r.len() == ni.len(),
        forall|i: int| 0 <= i < r.len() ==> #[trigger] r[i] == median_rule(ni@, si@, i),
{
    let mut r: Vec<MedianRule> = Vec::new();
    if !any_counted(ni) {
        return r;
    }
    let mut i: usize = 0;
    while i < ni.len()
        invariant
            si.len() == ni.len(),
            i <= ni.len(),
            r.len() == i,
            forall|t: int| 0 <= t < i ==> #[trigger] r[t] == median_rule(ni@, si@, t),
        decreases ni.len() - i,
    {
        let rule = if ni[i] > 0 {
            let before = if i == 0 {
                0
            } else {
                si[i - 1]
            };
            MedianRule::Interpolate { before, freq: ni[i] }
        } else {
            MedianRule::Midpoint
        };
        r.push(rule);
        i = i + 1;
    }
    r
}

/// The mode rule of every bin, each computed as if the mode fell in that bin.
pub fn calculate_modes(ni: &Vec<usize>) -> (r: Vec<ModeRule>)
    ensures
        r.len() == ni.len(),
        forall|i: int| 0 <= i < r.len() ==> #[trigger] r[i] == mode_rule(ni@, i),
{
    let n = ni.len();
    let mut r: Vec<ModeRule> = Vec::new();
    let mut i: usize = 0;
    while i < n
        invariant
            n == ni.len(),
            i <= n,
            r.len() == i,
            forall|t: int| 0 <= t < i ==> #[trigger] r[t] == mode_rule(ni@, t),
        decreases n - i,
    {
        let prev: i128 = if i > 0 {
            ni[i - 1] as i128
        } else {
            0
        };
        let next: i128 = if i < n - 1 {
            ni[i + 1] as i128
        } else {
            0
        };
        let d1: i128 = ni[i] as i128 - prev;
        let d2: i128 = ni[i] as i128 - next;
        let rule = if d1 + d2 > 0 {
            ModeRule::Interpolate { d1, d2 }
        } else {
            ModeRule::Midpoint
        };
        r.push(rule);
        i = i + 1;
    }
    r
}

} // verus!
