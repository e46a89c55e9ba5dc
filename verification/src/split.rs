//! Cutting `[0, lim)` into `seg` contiguous intervals of near-equal length.

use crate::split_model::{
    bounds_of, lemma_start_bounded, lemma_start_first, lemma_start_last, lemma_start_step,
    seg_bounds, seg_start, split,
};
use std::ops::Range;
use vstd::prelude::*;

verus! {

/// Why a cut was refused.
#[derive(Debug, Clone, Copy, PartialEq, Eq, Structural)]
pub enum SplitError {
    /// The number of segments was zero.
    InvalidArgument,
}

/// A range iterator: the intervals of one cut, handed out front to back.
#[derive(Debug)]
pub struct RngItr {
    /// Number of intervals of the whole cut.
    seg: usize,
    /// Exclusive upper bound of the range that is cut.
    lim: usize,
    /// Base length of an interval.
    stp: usize,
    /// How many leading intervals are one longer than `stp`.
    stp_adj: usize,
    /// Number of intervals already handed out.
    pos: usize,
    /// Where the next interval starts.
    idx: usize,
}

impl View for RngItr {
    type V = Seq<(nat, nat)>;

    /// The intervals that are still to come, in order.
    closed spec fn view(&self) -> Seq<(nat, nat)> {
        Seq::new(
            (self.seg - self.pos) as nat,
            |k: int| seg_bounds(self.seg as nat, self.lim as nat, (self.pos + k) as nat),
        )
    }
}

impl Clone for RngItr {
    /// A second iterator over the same remaining intervals.
    fn clone(&self) -> (r: Self)
        ensures
            r@ == self@,
    {
        proof {
            use_type_invariant(self);
        }
        RngItr {
            seg: self.seg,
            lim: self.lim,
            stp: self.stp,
            stp_adj: self.stp_adj,
            pos: self.pos,
            idx: self.idx,
        }
    }
}

impl RngItr {
    /// The fields agree with one another: `idx` is the start of interval
    /// `pos` of the cut, and a cut of the empty range has nothing to come.
    #[verifier::type_invariant]
    spec fn inv(&self) -> bool {
        &&& self.seg >= 1
        &&& self.stp == self.lim / self.seg
        &&& self.stp_adj == self.lim % self.seg
        &&& self.pos <= self.seg
        &&& self.lim == 0 ==> self.pos == self.seg
        &&& self.idx == seg_start(self.seg as nat, self.lim as nat, self.pos as nat)
    }

    /// Hands out the next interval of the cut, or `None` once all are out.
    pub fn next(&mut self) -> (r: Option<Range<usize>>)
        ensures
            old(self)@.len() == 0 ==> r is None && final(self)@ == old(self)@,
            old(self)@.len() > 0 ==> {
                &&& r matches Some(rng)
                &&& rng.start == old(self)@[0].0
                &&& rng.end == old(self)@[0].1
                &&& final(self)@ == old(self)@.drop_first()
            },
    {
        proof {
            use_type_invariant(&*self);
        }
        if self.pos == self.seg {
            return None;
        }
        let adj: usize = if self.pos < self.stp_adj {
            1
        } else {
            0
        };
        proof {
            lemma_start_step(self.seg as nat, self.lim as nat, self.pos as nat);
            lemma_start_bounded(self.seg as nat, self.lim as nat, (self.pos + 1) as nat);
        }
        let end: usize = self.idx + self.stp + adj;
        let rng = Range { start: self.idx, end };
        *self = RngItr {
            seg: self.seg,
            lim: self.lim,
            stp: self.stp,
            stp_adj: self.stp_adj,
            pos: self.pos + 1,
            idx: end,
        };
        assert(self@ =~= old(self)@.drop_first());
        Some(rng)
    }

    /// Hands out all the intervals that are still to come, in order.
    pub fn collect(self) -> (v: Vec<Range<usize>>)
        ensures
            bounds_of(v@) == self@,
    {
        let mut itr = self;
        let mut v: Vec<Range<usize>> = Vec::new();
        loop
            invariant
                bounds_of(v@) + itr@ == self@,
            ensures
                itr@.len() == 0,
            decreases itr@.len(),
        {
            let ghost out = bounds_of(v@);
            let ghost rest = itr@;
            match itr.next() {
                Some(rng) => {
                    v.push(rng);
                    assert(bounds_of(v@) =~= out.push(rest[0]));
                    assert(bounds_of(v@) + itr@ =~= out + rest);
                },
                None => {
                    break ;
                },
            }
        }
        assert(bounds_of(v@) =~= bounds_of(v@) + itr@);
        v
    }
}

/// Returns a range iterator over the cut of `[0, lim)` into `seg` intervals.
///
/// - `seg` = 2, `lim` = 6: `[0..3, 3..6]`
/// - `seg` = 2, `lim` = 7: `[0..4, 4..7]`
/// - `seg` = 4, `lim` = 10: `[0..3, 3..6, 6..8, 8..10]`
/// - `seg` = 4, `lim` = 2: `[0..1, 1..2, 2..2, 2..2]`
/// - `seg` = 2, `lim` = 0: `[]`
///
/// The lengths of the intervals differ by at most one, the longer ones come
/// first. The empty range has no intervals. Zero segments are refused.
pub fn rngs(seg: usize, lim: usize) -> (r: Result<RngItr, SplitError>)
    ensures
        match r {
            Ok(itr) => seg >= 1 && itr@ == split(seg as nat, lim as nat),
            Err(e) => seg == 0 && e == SplitError::InvalidArgument,
        },
{
    if seg == 0 {
        return Err(SplitError::InvalidArgument);
    }
    let pos: usize = if lim == 0 {
        seg
    } else {
        0
    };
    proof {
        lemma_start_first(seg as nat, lim as nat);
        lemma_start_last(seg as nat, lim as nat);
    }
    let itr = RngItr { seg, lim, stp: lim / seg, stp_adj: lim % seg, pos, idx: 0 };
    assert(itr@ =~= split(seg as nat, lim as nat));
    Ok(itr)
}

/// Cutting is deterministic: any two results of `rngs` on the same arguments
/// are both refusals, or both iterators over the same sequence of intervals.
pub proof fn lemma_rngs_deterministic(
    seg: usize,
    lim: usize,
    a: Result<RngItr, SplitError>,
    b: Result<RngItr, SplitError>,
)
    requires
        call_ensures(rngs, (seg, lim), a),
        call_ensures(rngs, (seg, lim), b),
    ensures
        match (a, b) {
            (Ok(x), Ok(y)) => x@ == y@,
            (Err(e), Err(f)) => e == f,
            _ => false,
        },
{
}

/// Collecting is deterministic: iterators over the same remaining intervals
/// hand out the same vector of ranges.
pub proof fn lemma_collect_deterministic(
    a: RngItr,
    b: RngItr,
    va: Vec<Range<usize>>,
    vb: Vec<Range<usize>>,
)
    requires
        a@ == b@,
        call_ensures(RngItr::collect, (a,), va),
        call_ensures(RngItr::collect, (b,), vb),
    ensures
        va@ == vb@,
{
    assert(va@.len() == bounds_of(va@).len() == bounds_of(vb@).len() == vb@.len());
    assert forall|i: int| 0 <= i < va@.len() implies va@[i] == vb@[i] by {
        assert(bounds_of(va@)[i] == bounds_of(vb@)[i]);
    }
}

} // verus!
