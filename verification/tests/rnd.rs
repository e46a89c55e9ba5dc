use itr::{rnds_eql_byt, rnds_eql_byt_n, BytCur, FixedWidth, RndEqlBytItr};
use std::mem;

// Of a number drawn with `n` bytes, the bytes above byte `n - 1` are zero and
// byte `n - 1` is not, unless `n` is 1. The bytes below it are random, and so
// may be zero.

#[test]
fn rnds_with_eq_byte_u64_n() {
    for (idx, val) in rnds_eql_byt::<u64>().take(16).into_iter().enumerate() {
        let byt_non_zro_cnt = (idx % mem::size_of::<u64>()) + 1;
        for (idx, byt) in val.to_le_bytes().into_iter().enumerate() {
            if idx + 1 == byt_non_zro_cnt && idx > 0 {
                assert_ne!(byt, 0);
            } else if idx >= byt_non_zro_cnt {
                assert_eq!(byt, 0);
            }
        }
    }
}

#[test]
fn rnds_with_eq_byte_u32_n() {
    for (idx, val) in rnds_eql_byt::<u32>().take(8).into_iter().enumerate() {
        let byt_non_zro_cnt = (idx % mem::size_of::<u32>()) + 1;
        for (idx, byt) in val.to_le_bytes().into_iter().enumerate() {
            if idx + 1 == byt_non_zro_cnt && idx > 0 {
                assert_ne!(byt, 0);
            } else if idx >= byt_non_zro_cnt {
                assert_eq!(byt, 0);
            }
        }
    }
}

#[test]
fn rnds_with_eq_byte_u16_n() {
    for (idx, val) in rnds_eql_byt::<u16>().take(4).into_iter().enumerate() {
        let byt_non_zro_cnt = (idx % mem::size_of::<u16>()) + 1;
        for (idx, byt) in val.to_le_bytes().into_iter().enumerate() {
            if idx + 1 == byt_non_zro_cnt && idx > 0 {
                assert_ne!(byt, 0);
            } else if idx >= byt_non_zro_cnt {
                assert_eq!(byt, 0);
            }
        }
    }
}

#[test]
fn rnds_with_eq_byte_u8_n() {
    for (idx, val) in rnds_eql_byt::<u8>().take(2).into_iter().enumerate() {
        let byt_non_zro_cnt = (idx % mem::size_of::<u8>()) + 1;
        for (idx, byt) in val.to_le_bytes().into_iter().enumerate() {
            if idx + 1 == byt_non_zro_cnt && idx > 0 {
                assert_ne!(byt, 0);
            } else if idx >= byt_non_zro_cnt {
                assert_eq!(byt, 0);
            }
        }
    }
}

/// Number of bytes up to and including the highest one that is not zero.
fn bytes_used(v: u64) -> usize {
    let mut n: usize = 0;
    for (j, byt) in v.to_le_bytes().into_iter().enumerate() {
        if byt != 0 {
            n = j + 1;
        }
    }
    n
}

#[test]
fn rnds_widths_cycle_over_many_draws() {
    let mut itr: RndEqlBytItr<u64> = rnds_eql_byt::<u64>();
    let v: Vec<u64> = itr.take(8 * 50);
    assert_eq!(v.len(), 400);
    for (i, val) in v.into_iter().enumerate() {
        let b: usize = i % 8;
        if b == 0 {
            assert!(bytes_used(val) <= 1);
        } else {
            assert_eq!(bytes_used(val), b + 1);
        }
    }
}

#[test]
fn rnds_widths_come_in_equal_quantities() {
    let mut itr: RndEqlBytItr<u32> = rnds_eql_byt::<u32>();
    assert!(itr.next().is_some());
    let v: Vec<u32> = itr.take(4 * 25);
    let mut seen: [usize; 4] = [0; 4];
    for val in v.into_iter() {
        let n: usize = bytes_used(u64::from(val));
        seen[if n == 0 { 0 } else { n - 1 }] += 1;
    }
    assert_eq!(seen, [25, 25, 25, 25]);
}

#[test]
fn rnds_next_cycles_through_the_widths() {
    let mut itr: RndEqlBytItr<u32> = rnds_eql_byt::<u32>();
    for i in 0usize..40 {
        let val: u32 = itr.next().unwrap();
        let b: usize = i % 4;
        if b == 0 {
            assert!(val <= 0xff);
        } else {
            assert!(val >= 1u32 << (8 * b));
            assert!(u64::from(val) < 1u64 << (8 * (b + 1)));
        }
    }
}

#[test]
fn rnds_take_continues_where_next_stopped() {
    let mut itr: RndEqlBytItr<u16> = rnds_eql_byt::<u16>();
    assert!(itr.next().unwrap() <= 0xff);
    let v: Vec<u16> = itr.take(3);
    assert!(v[0] >= 0x100);
    assert!(v[1] <= 0xff);
    assert!(v[2] >= 0x100);
    assert!(itr.next().unwrap() <= 0xff);
}

#[test]
fn rnds_draws_differ() {
    let v: Vec<u8> = rnds_eql_byt::<u8>().take(64);
    assert_eq!(v.len(), 64);
    assert!(v.iter().any(|x| *x != v[0]));
    let w: Vec<u64> = rnds_eql_byt::<u64>().take(64);
    let top: Vec<u64> = w.iter().copied().skip(7).step_by(8).collect();
    assert_eq!(top.len(), 8);
    assert!(top.iter().all(|x| *x >= 1u64 << 56));
    assert!(top.iter().any(|x| *x != 1u64 << 56));
    assert!(top.iter().any(|x| *x != u64::MAX));
}

#[test]
fn rnds_bounded_ends_after_n() {
    let mut itr: RndEqlBytItr<u32> = rnds_eql_byt_n::<u32>(5);
    let v: Vec<u32> = itr.take(3);
    assert_eq!(v.len(), 3);
    assert!(itr.next().is_some());
    assert!(itr.next().is_some());
    assert_eq!(itr.next(), None);
    assert_eq!(itr.next(), None);
    assert_eq!(itr.take(4), Vec::<u32>::new());
}

#[test]
fn rnds_bounded_take_gives_what_is_left() {
    let mut itr: RndEqlBytItr<u16> = rnds_eql_byt_n::<u16>(5);
    let v: Vec<u16> = itr.take(10);
    assert_eq!(v.len(), 5);
    assert!(v[0] <= 0xff && v[2] <= 0xff && v[4] <= 0xff);
    assert!(v[1] >= 0x100 && v[3] >= 0x100);
    let mut none: RndEqlBytItr<u8> = rnds_eql_byt_n::<u8>(0);
    assert_eq!(none.next(), None);
}

#[test]
fn rnds_clone_is_in_the_same_state() {
    let mut itr: RndEqlBytItr<u16> = rnds_eql_byt_n::<u16>(3);
    assert!(itr.next().unwrap() <= 0xff);
    let mut twin: RndEqlBytItr<u16> = itr.clone();
    assert!(itr.next().unwrap() >= 0x100);
    assert!(twin.next().unwrap() >= 0x100);
    assert_eq!(twin.take(9).len(), 1);
    assert_eq!(itr.take(9).len(), 1);
}

#[test]
fn widths_of_the_supported_types() {
    assert_eq!(<u8 as FixedWidth>::width(), 1);
    assert_eq!(<u16 as FixedWidth>::width(), 2);
    assert_eq!(<u32 as FixedWidth>::width(), 4);
    assert_eq!(<u64 as FixedWidth>::width(), 8);
}

#[test]
fn from_wide_keeps_the_number() {
    assert_eq!(<u8 as FixedWidth>::from_wide(0xff), 0xffu8);
    assert_eq!(<u16 as FixedWidth>::from_wide(0xfffe), 0xfffeu16);
    assert_eq!(<u32 as FixedWidth>::from_wide(0xffff_fffd), 0xffff_fffdu32);
    assert_eq!(<u64 as FixedWidth>::from_wide(u64::MAX - 3), u64::MAX - 3);
    assert_eq!(<u8 as FixedWidth>::from_wide(0), 0u8);
}

#[test]
fn cursor_bounds_of_every_class() {
    let mut cur: BytCur<u64> = BytCur::new(None);
    let want: [(u64, u64); 8] = [
        (0, 0xff),
        (0x100, 0xffff),
        (0x1_0000, 0xff_ffff),
        (0x100_0000, 0xffff_ffff),
        (0x1_0000_0000, 0xff_ffff_ffff),
        (0x100_0000_0000, 0xffff_ffff_ffff),
        (0x1_0000_0000_0000, 0xff_ffff_ffff_ffff),
        (0x100_0000_0000_0000, 0xffff_ffff_ffff_ffff),
    ];
    for round in 0usize..2 {
        for b in 0usize..8 {
            assert_eq!(cur.bounds(), want[b]);
            let v: u64 = if round == 0 { want[b].0 } else { want[b].1 };
            assert_eq!(cur.advance(v), Some(v));
        }
    }
    assert_eq!(cur.bounds(), (0, 0xff));
}

#[test]
fn cursor_wraps_at_the_width_of_the_type() {
    let mut c8: BytCur<u8> = BytCur::new(None);
    assert_eq!(c8.advance(0x41), Some(0x41u8));
    assert_eq!(c8.bounds(), (0, 0xff));
    assert_eq!(c8.advance(0), Some(0u8));
    let mut c16: BytCur<u16> = BytCur::new(None);
    assert_eq!(c16.advance(7), Some(7u16));
    assert_eq!(c16.bounds(), (0x100, 0xffff));
    assert_eq!(c16.advance(0x1234), Some(0x1234u16));
    assert_eq!(c16.bounds(), (0, 0xff));
    let mut c32: BytCur<u32> = BytCur::new(None);
    assert_eq!(c32.advance(0xff), Some(0xffu32));
    assert_eq!(c32.advance(0x100), Some(0x100u32));
    assert_eq!(c32.advance(0xab_cdef), Some(0xab_cdefu32));
    assert_eq!(c32.advance(0xffff_ffff), Some(0xffff_ffffu32));
    assert_eq!(c32.bounds(), (0, 0xff));
}

#[test]
fn cursor_refuses_a_number_of_another_class() {
    let mut cur: BytCur<u32> = BytCur::new(None);
    assert_eq!(cur.advance(0x100), None);
    assert_eq!(cur.bounds(), (0, 0xff));
    assert_eq!(cur.advance(0xff), Some(0xffu32));
    assert_eq!(cur.advance(0xff), None);
    assert_eq!(cur.advance(0x1_0000), None);
    assert_eq!(cur.bounds(), (0x100, 0xffff));
    assert_eq!(cur.advance(0xffff), Some(0xffffu32));
}

#[test]
fn cursor_counts_down_and_ends() {
    let mut cur: BytCur<u16> = BytCur::new(Some(2));
    assert!(!cur.done());
    assert_eq!(cur.advance(1), Some(1u16));
    assert!(!cur.done());
    assert_eq!(cur.advance(0x100), Some(0x100u16));
    assert!(cur.done());
    assert_eq!(cur.advance(1), None);
    assert_eq!(cur.bounds(), (0, 0xff));
    let end: BytCur<u8> = BytCur::new(Some(0));
    assert!(end.done());
    let twin: BytCur<u16> = cur.clone();
    assert!(twin.done());
}
