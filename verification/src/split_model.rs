//! The mathematical model of a cut of `[0, lim)` into `seg` intervals, and
//! what holds of it.
//!
//! An interval is a pair `(start, end)` that stands for the half-open
//! `[start, end)`.

use std::ops::Range;
use vstd::prelude::*;

verus! {

/// Where interval `i` starts when `[0, lim)` is cut into `seg` intervals.
///
/// Every interval has the base length `lim / seg`; the first `lim % seg`
/// intervals are one longer.
pub open spec fn seg_start(seg: nat, lim: nat, i: nat) -> nat {
    i * (lim / seg) + if i <= lim % seg {
        i
    } else {
        lim % seg
    }
}

/// Interval `i` of the cut: it ends where interval `i + 1` starts.
pub open spec fn seg_bounds(seg: nat, lim: nat, i: nat) -> (nat, nat) {
    (seg_start(seg, lim, i), seg_start(seg, lim, i + 1))
}

/// The whole cut of `[0, lim)` into `seg` intervals, in order.
///
/// The empty range has no intervals; any other range has exactly `seg`.
pub open spec fn split(seg: nat, lim: nat) -> Seq<(nat, nat)> {
    if lim == 0 {
        Seq::empty()
    } else {
        Seq::new(seg, |i: int| seg_bounds(seg, lim, i as nat))
    }
}

/// The intervals that a sequence of ranges stands for.
pub open spec fn bounds_of(v: Seq<Range<usize>>) -> Seq<(nat, nat)> {
    Seq::new(v.len(), |i: int| (v[i].start as nat, v[i].end as nat))
}

/// Whether `x` lies in the interval `iv`.
pub open spec fn holds(iv: (nat, nat), x: nat) -> bool {
    iv.0 <= x < iv.1
}

/// The length of the interval `iv`.
pub open spec fn len_of(iv: (nat, nat)) -> int {
    iv.1 - iv.0
}

/// The sum of the lengths of the intervals in `s`.
pub open spec fn total_len(s: Seq<(nat, nat)>) -> int
    decreases s.len(),
{
    if s.len() == 0 {
        0
    } else {
        total_len(s.drop_last()) + len_of(s.last())
    }
}

/// The first interval starts at zero.
pub proof fn lemma_start_first(seg: nat, lim: nat)
    requires
        seg >= 1,
    ensures
        seg_start(seg, lim, 0) == 0,
{
    assert(0 * (lim / seg) == 0 && lim % seg >= 0) by (nonlinear_arith)
        requires
            seg >= 1,
    ;
}

/// The last interval ends at `lim`.
pub proof fn lemma_start_last(seg: nat, lim: nat)
    requires
        seg >= 1,
    ensures
        seg_start(seg, lim, seg) == lim,
{
    assert(lim % seg < seg && seg * (lim / seg) + lim % seg == lim) by (nonlinear_arith)
        requires
            seg >= 1,
    ;
}

/// Interval `i` has the base length, and one more if it is among the first
/// `lim % seg`.
pub proof fn lemma_start_step(seg: nat, lim: nat, i: nat)
    requires
        seg >= 1,
    ensures
        seg_start(seg, lim, i + 1) == seg_start(seg, lim, i) + lim / seg + if i < lim % seg {
            1nat
        } else {
            0nat
        },
{
    let base = lim / seg;
    assert((i + 1) * base == i * base + base) by (nonlinear_arith);
}

/// Starts do not decrease with the index.
pub proof fn lemma_start_monotone(seg: nat, lim: nat, i: nat, j: nat)
    requires
        seg >= 1,
        i <= j,
    ensures
        seg_start(seg, lim, i) <= seg_start(seg, lim, j),
{
    let base = lim / seg;
    assert(i * base <= j * base) by (nonlinear_arith)
        requires
            i <= j,
            base >= 0,
    ;
}

/// No interval of the cut reaches past `lim`.
pub proof fn lemma_start_bounded(seg: nat, lim: nat, i: nat)
    requires
        seg >= 1,
        i <= seg,
    ensures
        seg_start(seg, lim, i) <= lim,
{
    lemma_start_monotone(seg, lim, i, seg);
    lemma_start_last(seg, lim);
}

/// The first `k` intervals of a cut are together as long as the start of
/// interval `k`.
proof fn lemma_total_len_prefix(seg: nat, lim: nat, k: nat)
    requires
        seg >= 1,
        lim >= 1,
        k <= seg,
    ensures
        total_len(split(seg, lim).take(k as int)) == seg_start(seg, lim, k),
    decreases k,
{
    let s = split(seg, lim);
    if k == 0 {
        lemma_start_first(seg, lim);
    } else {
        let j = (k - 1) as nat;
        lemma_total_len_prefix(seg, lim, j);
        assert(s.take(k as int).drop_last() =~= s.take(j as int));
        assert(s.take(k as int).last() == seg_bounds(seg, lim, j));
    }
}

/// The intervals of a cut follow one another without gap or overlap: each
/// starts where the one before it ended, the first starts at zero, the last
/// ends at `lim`, and their lengths add up to `lim`.
pub proof fn lemma_split_contiguous(seg: nat, lim: nat)
    requires
        seg >= 1,
    ensures
        forall|i: int|
            0 < i < split(seg, lim).len()
                ==> (#[trigger] split(seg, lim)[i]).0 == split(seg, lim)[i - 1].1,
        forall|i: int|
            0 <= i < split(seg, lim).len()
                ==> (#[trigger] split(seg, lim)[i]).0 <= split(seg, lim)[i].1,
        split(seg, lim).len() > 0 ==> split(seg, lim).first().0 == 0,
        split(seg, lim).len() > 0 ==> split(seg, lim).last().1 == lim,
        total_len(split(seg, lim)) == lim,
{
    let s = split(seg, lim);
    if lim > 0 {
        assert forall|i: int| 0 <= i < s.len() implies (#[trigger] s[i]).0 <= s[i].1 by {
            lemma_start_monotone(seg, lim, i as nat, (i + 1) as nat);
        }
        lemma_start_first(seg, lim);
        lemma_start_last(seg, lim);
        lemma_total_len_prefix(seg, lim, seg);
        assert(s.take(seg as int) =~= s);
    }
}

/// A cut of a non-empty range has exactly `seg` intervals, and a cut of the
/// empty range has none. Each interval has the base length `lim / seg`, the
/// first `lim % seg` of them one more, so that no two lengths differ by more
/// than one.
pub proof fn lemma_split_count_and_lengths(seg: nat, lim: nat)
    requires
        seg >= 1,
    ensures
        lim >= 1 ==> split(seg, lim).len() == seg,
        lim == 0 ==> split(seg, lim).len() == 0,
        forall|i: int|
            0 <= i < split(seg, lim).len()
                ==> len_of(#[trigger] split(seg, lim)[i]) == lim / seg + if i < lim % seg {
                1int
            } else {
                0int
            },
        forall|i: int, j: int|
            #![trigger split(seg, lim)[i], split(seg, lim)[j]]
            0 <= i < split(seg, lim).len() && 0 <= j < split(seg, lim).len()
                ==> len_of(split(seg, lim)[i]) - len_of(split(seg, lim)[j]) <= 1,
{
    let s = split(seg, lim);
    assert forall|i: int| 0 <= i < s.len() implies len_of(#[trigger] s[i]) == lim / seg + if i
        < lim % seg {
        1int
    } else {
        0int
    } by {
        lemma_start_step(seg, lim, i as nat);
    }
}

/// With more segments than elements, a non-empty range is still cut into
/// exactly `seg` intervals: one of length one for each element, then empty
/// ones that start and end at `lim`. The empty range has no intervals.
pub proof fn lemma_split_more_segments(seg: nat, lim: nat)
    requires
        seg > lim,
    ensures
        lim >= 1 ==> split(seg, lim).len() == seg,
        lim == 0 ==> split(seg, lim).len() == 0,
        forall|i: int|
            0 <= i < split(seg, lim).len() && i < lim
                ==> #[trigger] split(seg, lim)[i] == (i as nat, (i + 1) as nat),
        forall|i: int|
            0 <= i < split(seg, lim).len() && lim <= i
                ==> #[trigger] split(seg, lim)[i] == (lim, lim),
{
    let s = split(seg, lim);
    assert(lim / seg == 0 && lim % seg == lim) by (nonlinear_arith)
        requires
            lim < seg,
    ;
    assert forall|i: int| 0 <= i < s.len() && i < lim implies #[trigger] s[i] == (
        i as nat,
        (i + 1) as nat,
    ) by {
        assert(i * 0 == 0 && (i + 1) * 0 == 0) by (nonlinear_arith);
        assert(s[i] == seg_bounds(seg, lim, i as nat));
    }
    assert forall|i: int| 0 <= i < s.len() && lim <= i implies #[trigger] s[i] == (lim, lim) by {
        assert(i * 0 == 0 && (i + 1) * 0 == 0) by (nonlinear_arith);
        assert(s[i] == seg_bounds(seg, lim, i as nat));
    }
}

/// An element below the start of interval `k` lies in an interval before `k`.
proof fn lemma_find_interval(seg: nat, lim: nat, x: nat, k: nat)
    requires
        seg >= 1,
        x < seg_start(seg, lim, k),
    ensures
        exists|i: nat| i < k && holds(#[trigger] seg_bounds(seg, lim, i), x),
    decreases k,
{
    if k == 0 {
        lemma_start_first(seg, lim);
    } else {
        let j = (k - 1) as nat;
        if seg_start(seg, lim, j) <= x {
            assert(holds(seg_bounds(seg, lim, j), x));
        } else {
            lemma_find_interval(seg, lim, x, j);
        }
    }
}

/// Every element of `[0, lim)` lies in exactly one interval of the cut.
pub proof fn lemma_split_covers_once(seg: nat, lim: nat, x: nat)
    requires
        seg >= 1,
        x < lim,
    ensures
        exists|i: int| 0 <= i < split(seg, lim).len() && holds(#[trigger] split(seg, lim)[i], x),
        forall|i: int, j: int|
            #![trigger split(seg, lim)[i], split(seg, lim)[j]]
            0 <= i < split(seg, lim).len() && 0 <= j < split(seg, lim).len()
                && holds(split(seg, lim)[i], x) && holds(split(seg, lim)[j], x) ==> i == j,
{
    let s = split(seg, lim);
    lemma_start_last(seg, lim);
    lemma_find_interval(seg, lim, x, seg);
    let w = choose|i: nat| i < seg && holds(#[trigger] seg_bounds(seg, lim, i), x);
    assert(s[w as int] == seg_bounds(seg, lim, w));
    assert forall|i: int, j: int|
        #![trigger s[i], s[j]]
        0 <= i < s.len() && 0 <= j < s.len() && holds(s[i], x) && holds(s[j], x) implies i
        == j by {
        if i < j {
            lemma_start_monotone(seg, lim, (i + 1) as nat, j as nat);
        } else if j < i {
            lemma_start_monotone(seg, lim, (j + 1) as nat, i as nat);
        }
    }
}

} // verus!
