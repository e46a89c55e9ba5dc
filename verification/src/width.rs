//! Byte-width classes of unsigned integers.
//!
//! Class `b` holds the numbers that take exactly `b + 1` bytes: byte `b` is
//! their highest byte that is not zero. Zero, which has no such byte, belongs
//! to class 0.

use vstd::arithmetic::div_mod::lemma_div_denominator;
use vstd::arithmetic::power2::{
    lemma2_to64, lemma2_to64_rest, lemma_pow2_adds, lemma_pow2_pos, lemma_pow2_strictly_increases,
    pow2,
};
use vstd::bits::lemma_u64_shl_is_mul;
use vstd::prelude::*;

verus! {

/// The smallest number of class `b`: zero for class 0, else `2^(8*b)`.
pub open spec fn byt_lo(b: nat) -> nat {
    if b == 0 {
        0
    } else {
        pow2(8 * b)
    }
}

/// The largest number of class `b`: `2^(8*(b+1)) - 1`.
pub open spec fn byt_hi(b: nat) -> nat {
    (pow2(8 * (b + 1)) - 1) as nat
}

/// Whether `v` belongs to class `b`.
pub open spec fn in_class(v: nat, b: nat) -> bool {
    byt_lo(b) <= v <= byt_hi(b)
}

/// Byte `j` of `v`, counted from the least significant byte, which is byte 0.
pub open spec fn le_byte(v: nat, j: nat) -> nat {
    (v / pow2(8 * j)) % 256
}

/// Whether `v` takes exactly `b + 1` bytes: every byte above byte `b` is
/// zero, and, unless `b` is 0, byte `b` is not.
pub open spec fn has_width(v: nat, b: nat) -> bool {
    &&& forall|j: nat| j > b ==> #[trigger] le_byte(v, j) == 0
    &&& b > 0 ==> le_byte(v, b) != 0
}

/// The bounds of a class grow with the class: the largest number of a class
/// is one less than the smallest of the class above it.
pub proof fn lemma_class_order(b: nat)
    ensures
        byt_lo(b) <= byt_hi(b),
        byt_hi(b) + 1 == byt_lo(b + 1),
        pow2(8 * (b + 1)) == 256 * pow2(8 * b),
{
    lemma_pow2_pos(8 * b);
    lemma_pow2_pos(8 * (b + 1));
    lemma_pow2_adds(8, 8 * b);
    lemma2_to64();
    assert(8 + 8 * b == 8 * (b + 1));
}

/// A number of class `b` takes exactly `b + 1` bytes.
proof fn lemma_class_bytes(v: nat, b: nat)
    requires
        in_class(v, b),
    ensures
        has_width(v, b),
{
    lemma_class_order(b);
    assert forall|j: nat| j > b implies #[trigger] le_byte(v, j) == 0 by {
        if j > b + 1 {
            lemma_pow2_strictly_increases(8 * (b + 1), 8 * j);
        }
        let d = pow2(8 * j);
        assert(v / d == 0) by (nonlinear_arith)
            requires
                0 <= v < d,
        ;
    }
    if b > 0 {
        let d = pow2(8 * b);
        let q = v / d;
        assert(1 <= q < 256) by (nonlinear_arith)
            requires
                d > 0,
                d <= v < 256 * d,
                q == v / d,
        ;
    }
}

/// A number whose bytes are all zero is zero.
proof fn lemma_zero_bytes(q: nat)
    requires
        forall|k: nat| #[trigger] le_byte(q, k) == 0,
    ensures
        q == 0,
    decreases q,
{
    if q > 0 {
        let r = q / 256;
        assert forall|k: nat| #[trigger] le_byte(r, k) == 0 by {
            lemma_pow2_pos(8 * k);
            lemma_class_order(k);
            lemma_div_denominator(q as int, 256, pow2(8 * k) as int);
            assert(le_byte(q, k + 1) == 0);
        }
        lemma_zero_bytes(r);
        assert(q % 256 == 0) by {
            lemma2_to64();
            assert(pow2(8 * 0) == 1);
            assert(le_byte(q, 0) == 0);
        }
    }
}

/// The numbers of class `b` are those that take exactly `b + 1` bytes: a
/// number lies within the bounds of the class if and only if its bytes above
/// byte `b` are zero and, unless `b` is 0, its byte `b` is not.
pub proof fn lemma_class_iff_width(v: nat, b: nat)
    ensures
        in_class(v, b) <==> has_width(v, b),
{
    if in_class(v, b) {
        lemma_class_bytes(v, b);
    }
    if has_width(v, b) {
        lemma_class_order(b);
        let d = pow2(8 * (b + 1));
        let q = v / d;
        assert forall|k: nat| #[trigger] le_byte(q, k) == 0 by {
            lemma_pow2_pos(8 * k);
            lemma_pow2_adds(8 * (b + 1), 8 * k);
            lemma_div_denominator(v as int, d as int, pow2(8 * k) as int);
            assert(8 * (b + 1) + 8 * k == 8 * (b + 1 + k));
            assert(le_byte(v, b + 1 + k) == 0);
        }
        lemma_zero_bytes(q);
        assert(v < d) by (nonlinear_arith)
            requires
                d > 0,
                v / d == 0,
        ;
        if b > 0 {
            let e = pow2(8 * b);
            assert(v >= e) by (nonlinear_arith)
                requires
                    e > 0,
                    v / e != 0,
                    v >= 0,
            ;
        }
    }
}

/// The inclusive bounds `(lo, hi)` of class `b`, for the classes that fit in
/// eight bytes.
pub(crate) fn class_bounds(b: usize) -> (r: (u64, u64))
    requires
        b < 8,
    ensures
        r.0 == byt_lo(b as nat),
        r.1 == byt_hi(b as nat),
        r.0 <= r.1,
{
    proof {
        lemma2_to64();
        lemma2_to64_rest();
        lemma_class_order(b as nat);
    }
    let lo: u64 = if b == 0 {
        0
    } else {
        let s: u64 = (8 * b) as u64;
        proof {
            lemma_pow2_strictly_increases(s as nat, 64);
            lemma_u64_shl_is_mul(1, s);
        }
        1u64 << s
    };
    let hi: u64 = if b == 7 {
        u64::MAX
    } else {
        let s: u64 = (8 * (b + 1)) as u64;
        proof {
            lemma_pow2_strictly_increases(s as nat, 64);
            lemma_pow2_pos(s as nat);
            lemma_u64_shl_is_mul(1, s);
        }
        (1u64 << s) - 1
    };
    (lo, hi)
}

} // verus!
