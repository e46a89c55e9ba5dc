use itr::{rngs, RngItr, SplitError};
use std::ops::Range;

fn cut(seg: usize, lim: usize) -> Vec<Range<usize>> {
    rngs(seg, lim).unwrap().collect()
}

#[test]
fn rngs_n() {
    assert_eq!(rngs(2, 6).unwrap().collect(), [0..3, 3..6]);
    assert_eq!(rngs(2, 7).unwrap().collect(), [0..4, 4..7]);
    assert_eq!(
        rngs(4, 10).unwrap().collect(),
        [0..3, 3..6, 6..8, 8..10]
    );
}

#[test]
fn rngs_empty_range_has_no_intervals() {
    assert_eq!(cut(2, 0), Vec::<Range<usize>>::new());
    assert_eq!(cut(1, 0), Vec::<Range<usize>>::new());
    let mut itr: RngItr = rngs(usize::MAX, 0).unwrap();
    assert_eq!(itr.next(), None);
}

#[test]
fn rngs_zero_segments_is_refused() {
    assert_eq!(rngs(0, 6).err(), Some(SplitError::InvalidArgument));
    assert_eq!(rngs(0, 0).err(), Some(SplitError::InvalidArgument));
    assert!(rngs(1, 0).is_ok());
}

#[test]
fn rngs_one_segment_is_the_whole_range() {
    assert_eq!(cut(1, 5), [0..5]);
    assert_eq!(cut(1, 1), [0..1]);
    assert_eq!(cut(1, usize::MAX), [0..usize::MAX]);
}

#[test]
fn rngs_remainder_goes_to_the_first_intervals() {
    assert_eq!(cut(3, 10), [0..4, 4..7, 7..10]);
    assert_eq!(cut(3, 11), [0..4, 4..8, 8..11]);
    assert_eq!(cut(3, 12), [0..4, 4..8, 8..12]);
    assert_eq!(cut(5, 7), [0..2, 2..4, 4..5, 5..6, 6..7]);
}

#[test]
fn rngs_more_segments_than_elements() {
    assert_eq!(cut(4, 2), [0..1, 1..2, 2..2, 2..2]);
    assert_eq!(cut(3, 1), [0..1, 1..1, 1..1]);
    assert_eq!(cut(2, 2), [0..1, 1..2]);
}

#[test]
fn rngs_next_hands_out_front_to_back_and_then_none() {
    let mut itr: RngItr = rngs(2, 7).unwrap();
    assert_eq!(itr.next(), Some(0..4));
    assert_eq!(itr.next(), Some(4..7));
    assert_eq!(itr.next(), None);
    assert_eq!(itr.next(), None);
}

#[test]
fn rngs_collect_gives_what_is_left() {
    let mut itr: RngItr = rngs(4, 10).unwrap();
    assert_eq!(itr.next(), Some(0..3));
    assert_eq!(itr.collect(), [3..6, 6..8, 8..10]);
}

#[test]
fn rngs_clone_continues_from_the_same_place() {
    let mut itr: RngItr = rngs(4, 10).unwrap();
    assert_eq!(itr.next(), Some(0..3));
    let mut twin: RngItr = itr.clone();
    assert_eq!(itr.next(), Some(3..6));
    assert_eq!(twin.next(), Some(3..6));
    assert_eq!(twin.collect(), itr.collect());
}

#[test]
fn rngs_near_the_largest_limit() {
    let lim: usize = usize::MAX;
    let v: Vec<Range<usize>> = cut(2, lim);
    let half: usize = lim / 2;
    assert_eq!(v, [0..half + 1, half + 1..lim]);
    let v: Vec<Range<usize>> = cut(3, lim - 1);
    assert_eq!(v.len(), 3);
    assert_eq!(v[0].start, 0);
    assert_eq!(v[2].end, lim - 1);
}

#[test]
fn rngs_intervals_are_contiguous_and_cover_the_range() {
    for seg in 1usize..=12 {
        for lim in 0usize..=40 {
            let v: Vec<Range<usize>> = cut(seg, lim);
            let mut at: usize = 0;
            let mut sum: usize = 0;
            for r in v.iter() {
                assert_eq!(r.start, at);
                assert!(r.start <= r.end);
                sum += r.end - r.start;
                at = r.end;
            }
            assert_eq!(at, lim);
            assert_eq!(sum, lim);
            for x in 0..lim {
                let n: usize = v.iter().filter(|r| r.start <= x && x < r.end).count();
                assert_eq!(n, 1);
            }
        }
    }
}

#[test]
fn rngs_count_and_lengths() {
    for seg in 1usize..=12 {
        for lim in 1usize..=40 {
            let v: Vec<Range<usize>> = cut(seg, lim);
            assert_eq!(v.len(), seg);
            for (i, r) in v.iter().enumerate() {
                let want: usize = lim / seg + if i < lim % seg { 1 } else { 0 };
                assert_eq!(r.end - r.start, want);
            }
            let longest: usize = v.iter().map(|r| r.end - r.start).max().unwrap();
            let shortest: usize = v.iter().map(|r| r.end - r.start).min().unwrap();
            assert!(longest - shortest <= 1);
        }
    }
}

#[test]
fn rngs_same_arguments_same_sequence() {
    for seg in 1usize..=6 {
        for lim in 0usize..=20 {
            assert_eq!(cut(seg, lim), cut(seg, lim));
        }
    }
    assert_eq!(rngs(0, 3).err(), rngs(0, 3).err());
}
