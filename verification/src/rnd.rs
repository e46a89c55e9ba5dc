//! Random unsigned integers whose byte width cycles through every width of
//! the target type.
//!
//! A sequence for a type of `w` bytes keeps a cursor in `[0, w)`. Each draw
//! takes a number of the width class of the cursor, which has exactly
//! `cursor + 1` bytes, and moves the cursor on by one, back to 0 after
//! `w - 1`. Over many draws every width comes up equally often.
//!
//! What depends on chance is one call into rand. All the rest, [`BytCur`],
//! takes the number drawn as an argument.

use crate::draws::{class_at, lemma_after_step, Draws};
use crate::sealed::Sealed;
use crate::width::{
    byt_hi, byt_lo, class_bounds, has_width, in_class, lemma_class_iff_width, lemma_class_order,
};
use num::traits::AsPrimitive;
use rand::rngs::ThreadRng;
use rand::Rng;
use std::marker::PhantomData;
use vstd::arithmetic::div_mod::lemma_small_mod;
use vstd::arithmetic::power2::{lemma2_to64, lemma_pow2_strictly_increases, pow2};
use vstd::prelude::*;

verus! {

/// rand's handle to the generator of the current thread. Nothing inside it is
/// visible here: it is only carried along and handed back to rand.
#[verifier::external_type_specification]
#[verifier::external_body]
pub struct ExThreadRng(ThreadRng);

/// `rand::thread_rng` returns a handle to the generator of the current
/// thread, which rand seeds from the operating system on first use. Nothing
/// is claimed of the handle. rand panics where the system gives it no seed;
/// no argument decides that.
pub assume_specification[ rand::thread_rng ]() -> (r: ThreadRng);

/// `Clone::clone` of `ThreadRng` returns a second handle to the same
/// generator. Nothing is claimed of the handle.
pub assume_specification[ <ThreadRng as Clone>::clone ](rng: &ThreadRng) -> (r: ThreadRng);

/// `rand::Rng::gen_range` on the inclusive range `lo..=hi` of `u64`. rand
/// panics on an empty range, so the bounds must be in order; the number
/// drawn then lies within them. Which number it is depends on chance, and
/// nothing more is claimed of it.
#[verifier::external_body]
fn gen_range(rng: &mut ThreadRng, lo: u64, hi: u64) -> (r: u64)
    requires
        lo <= hi,
    ensures
        lo <= r <= hi,
{
    rng.gen_range(lo..=hi)
}

/// `num::traits::AsPrimitive::as_` from `u64` to `u8`, which num defines as
/// the cast `as u8`.
#[verifier::external_body]
fn as_u8(v: u64) -> (r: u8)
    ensures
        r == v as u8,
{
    v.as_()
}

/// `num::traits::AsPrimitive::as_` from `u64` to `u16`, which num defines as
/// the cast `as u16`.
#[verifier::external_body]
fn as_u16(v: u64) -> (r: u16)
    ensures
        r == v as u16,
{
    v.as_()
}

/// `num::traits::AsPrimitive::as_` from `u64` to `u32`, which num defines as
/// the cast `as u32`.
#[verifier::external_body]
fn as_u32(v: u64) -> (r: u32)
    ensures
        r == v as u32,
{
    v.as_()
}

/// `num::traits::AsPrimitive::as_` from `u64` to `u64`, which num defines as
/// the cast `as u64`: it returns its argument.
#[verifier::external_body]
fn as_u64(v: u64) -> (r: u64)
    ensures
        r == v,
{
    v.as_()
}

/// An unsigned integer type of a fixed width of one to eight bytes.
///
/// Implemented for `u8`, `u16`, `u32` and `u64`, and closed to other types.
pub trait FixedWidth: Copy + Sealed {
    /// The width of the type in bytes.
    spec fn width_spec() -> nat;

    /// The number that a value of the type stands for.
    spec fn value(self) -> nat;

    /// The width is between one and eight bytes.
    proof fn lemma_width()
        ensures
            1 <= Self::width_spec() <= 8,
    ;

    /// The width of the type in bytes.
    fn width() -> (w: usize)
        ensures
            w == Self::width_spec(),
    ;

    /// The value of the type that stands for the low `width` bytes of `v`:
    /// for `v` itself, where it fits the width.
    fn from_wide(v: u64) -> (r: Self)
        ensures
            r.value() == (v as nat) % pow2(8 * Self::width_spec()),
    ;
}

impl FixedWidth for u8 {
    open spec fn width_spec() -> nat {
        1
    }

    open spec fn value(self) -> nat {
        self as nat
    }

    proof fn lemma_width() {
    }

    fn width() -> (w: usize) {
        1
    }

    fn from_wide(v: u64) -> (r: u8) {
        proof {
            lemma2_to64();
            assert(v as u8 == v % 0x100) by (bit_vector);
        }
        as_u8(v)
    }
}

impl FixedWidth for u16 {
    open spec fn width_spec() -> nat {
        2
    }

    open spec fn value(self) -> nat {
        self as nat
    }

    proof fn lemma_width() {
    }

    fn width() -> (w: usize) {
        2
    }

    fn from_wide(v: u64) -> (r: u16) {
        proof {
            lemma2_to64();
            assert(v as u16 == v % 0x1_0000) by (bit_vector);
        }
        as_u16(v)
    }
}

impl FixedWidth for u32 {
    open spec fn width_spec() -> nat {
        4
    }

    open spec fn value(self) -> nat {
        self as nat
    }

    proof fn lemma_width() {
    }

    fn width() -> (w: usize) {
        4
    }

    fn from_wide(v: u64) -> (r: u32) {
        proof {
            lemma2_to64();
            assert(v as u32 == v % 0x1_0000_0000) by (bit_vector);
        }
        as_u32(v)
    }
}

impl FixedWidth for u64 {
    open spec fn width_spec() -> nat {
        8
    }

    open spec fn value(self) -> nat {
        self as nat
    }

    proof fn lemma_width() {
    }

    fn width() -> (w: usize) {
        8
    }

    fn from_wide(v: u64) -> (r: u64) {
        proof {
            lemma2_to64();
            lemma_small_mod(v as nat, pow2(64));
        }
        as_u64(v)
    }
}

/// The part of a random sequence that does not depend on chance: which width
/// class comes next, and how many draws are left.
#[derive(Debug)]
pub struct BytCur<T: FixedWidth> {
    /// The width class of the next draw.
    byt: usize,
    /// How many draws are left; `None` where the sequence has no end.
    rem: Option<usize>,
    /// The type of the numbers handed out.
    phn: PhantomData<T>,
}

impl<T: FixedWidth> View for BytCur<T> {
    type V = Draws;

    closed spec fn view(&self) -> Draws {
        Draws {
            cursor: self.byt as nat,
            left: match self.rem {
                Some(n) => Some(n as nat),
                None => None,
            },
        }
    }
}

impl<T: FixedWidth> BytCur<T> {
    /// The cursor stays below the width of `T`.
    #[verifier::type_invariant]
    spec fn inv(&self) -> bool {
        self.byt < T::width_spec() <= 8
    }

    /// A cursor at the first width class, with `rem` draws left, or without
    /// end where `rem` is `None`.
    pub fn new(rem: Option<usize>) -> (r: Self)
        ensures
            r@.cursor == 0,
            r@.left == match rem {
                Some(n) => Some(n as nat),
                None => None,
            },
    {
        proof {
            T::lemma_width();
        }
        BytCur { byt: 0, rem, phn: PhantomData }
    }

    /// The inclusive bounds `(lo, hi)` of the range that the next number is
    /// drawn from: those of the width class of the cursor.
    pub fn bounds(&self) -> (r: (u64, u64))
        ensures
            self@.cursor < T::width_spec() <= 8,
            r.0 == byt_lo(self@.cursor),
            r.1 == byt_hi(self@.cursor),
            r.0 <= r.1,
    {
        proof {
            use_type_invariant(self);
        }
        class_bounds(self.byt)
    }

    /// Whether the sequence has ended.
    pub fn done(&self) -> (r: bool)
        ensures
            r == self@.done(),
    {
        match self.rem {
            Some(n) => n == 0,
            None => false,
        }
    }

    /// Takes `v` as the number drawn: hands it out as a `T` and moves on to
    /// the next width class, if the sequence has not ended and `v` lies
    /// within `bounds()`. Otherwise nothing changes.
    pub fn advance(&mut self, v: u64) -> (r: Option<T>)
        ensures
            match r {
                Some(t) => {
                    &&& !old(self)@.done()
                    &&& in_class(v as nat, old(self)@.cursor)
                    &&& t.value() == v
                    &&& final(self)@ == old(self)@.after(T::width_spec(), 1)
                },
                None => {
                    &&& old(self)@.done() || !in_class(v as nat, old(self)@.cursor)
                    &&& final(self)@ == old(self)@
                },
            },
    {
        proof {
            use_type_invariant(&*self);
        }
        let w = T::width();
        let (lo, hi) = class_bounds(self.byt);
        if self.done() || v < lo || hi < v {
            return None;
        }
        proof {
            lemma_class_order(self.byt as nat);
            if self.byt + 1 < w {
                lemma_pow2_strictly_increases((8 * (self.byt + 1)) as nat, (8 * w) as nat);
            }
            lemma_small_mod(v as nat, pow2((8 * w) as nat));
        }
        let t = T::from_wide(v);
        let rem = match self.rem {
            Some(n) => Some(n - 1),
            None => None,
        };
        *self = BytCur { byt: (self.byt + 1) % w, rem, phn: PhantomData };
        Some(t)
    }
}

impl<T: FixedWidth> Clone for BytCur<T> {
    /// A second cursor in the same state.
    fn clone(&self) -> (r: Self)
        ensures
            r@ == self@,
    {
        proof {
            use_type_invariant(self);
        }
        BytCur { byt: self.byt, rem: self.rem, phn: PhantomData }
    }
}

/// An iterator generating random integers.
#[derive(Debug)]
pub struct RndEqlBytItr<T: FixedWidth> {
    /// Where the random numbers come from.
    rng: ThreadRng,
    /// Which width class comes next, and how many draws are left.
    cur: BytCur<T>,
}

impl<T: FixedWidth> View for RndEqlBytItr<T> {
    type V = Draws;

    closed spec fn view(&self) -> Draws {
        self.cur@
    }
}

impl<T: FixedWidth> RndEqlBytItr<T> {
    /// Draws the next random integer, or returns `None` once the sequence
    /// has ended.
    ///
    /// The integer is drawn from the width class of the cursor, so it takes
    /// exactly `cursor + 1` bytes. The cursor then moves on by one and wraps
    /// around at the width of `T`.
    pub fn next(&mut self) -> (r: Option<T>)
        ensures
            match r {
                Some(t) => {
                    &&& !old(self)@.done()
                    &&& in_class(t.value(), old(self)@.cursor)
                    &&& has_width(t.value(), old(self)@.cursor)
                    &&& final(self)@ == old(self)@.after(T::width_spec(), 1)
                },
                None => old(self)@.done() && final(self)@ == old(self)@,
            },
    {
        if self.cur.done() {
            return None;
        }
        let (lo, hi) = self.cur.bounds();
        let v = gen_range(&mut self.rng, lo, hi);
        proof {
            lemma_class_iff_width(v as nat, old(self)@.cursor);
        }
        self.cur.advance(v)
    }

    /// Draws the next `n` random integers, or as many as are left.
    ///
    /// Draw `i` belongs to the width class `(cursor + i) % width`, so the
    /// widths cycle: from a fresh sequence, draw `i` takes exactly
    /// `i % width + 1` bytes, and every width comes up equally often.
    pub fn take(&mut self, n: usize) -> (v: Vec<T>)
        ensures
            v@.len() == match old(self)@.left {
                Some(m) if m < n => m,
                _ => n as nat,
            },
            forall|i: int|
                0 <= i < v@.len() ==> in_class(
                    #[trigger] v@[i].value(),
                    class_at(T::width_spec(), old(self)@.cursor, i as nat),
                ),
            forall|i: int|
                0 <= i < v@.len() ==> has_width(
                    #[trigger] v@[i].value(),
                    class_at(T::width_spec(), old(self)@.cursor, i as nat),
                ),
            final(self)@ == old(self)@.after(T::width_spec(), v@.len()),
    {
        let ghost w = T::width_spec();
        let mut v: Vec<T> = Vec::new();
        proof {
            use_type_invariant(&self.cur);
            lemma_small_mod(self@.cursor, w);
        }
        while v.len() < n
            invariant
                1 <= w == T::width_spec(),
                v@.len() <= n,
                old(self)@.left matches Some(m) ==> v@.len() <= m,
                self@ == old(self)@.after(w, v@.len()),
                forall|i: int|
                    0 <= i < v@.len() ==> in_class(
                        #[trigger] v@[i].value(),
                        class_at(w, old(self)@.cursor, i as nat),
                    ),
                forall|i: int|
                    0 <= i < v@.len() ==> has_width(
                        #[trigger] v@[i].value(),
                        class_at(w, old(self)@.cursor, i as nat),
                    ),
            ensures
                v@.len() == match old(self)@.left {
                    Some(m) if m < n => m,
                    _ => n as nat,
                },
            decreases n - v@.len(),
        {
            let ghost k = v@.len();
            match self.next() {
                Some(t) => {
                    proof {
                        lemma_after_step(old(self)@, w, k);
                    }
                    v.push(t);
                },
                None => {
                    break ;
                },
            }
        }
        v
    }
}

impl<T: FixedWidth> Clone for RndEqlBytItr<T> {
    /// A second sequence in the same state, drawing from the same generator.
    fn clone(&self) -> (r: Self)
        ensures
            r@ == self@,
    {
        RndEqlBytItr { rng: self.rng.clone(), cur: self.cur.clone() }
    }
}

/// Returns an iterator which generates random integers without end.
///
/// The integers come in equal quantities with 1 byte, 2 bytes, and so on up
/// to the width of `T`, in that order and then again from 1 byte.
pub fn rnds_eql_byt<T: FixedWidth>() -> (r: RndEqlBytItr<T>)
    ensures
        r@ == (Draws { cursor: 0, left: None }),
{
    RndEqlBytItr { rng: rand::thread_rng(), cur: BytCur::new(None) }
}

/// Returns an iterator which generates `n` random integers and then ends.
///
/// The integers are as those of [`rnds_eql_byt`].
pub fn rnds_eql_byt_n<T: FixedWidth>(n: usize) -> (r: RndEqlBytItr<T>)
    ensures
        r@ == (Draws { cursor: 0, left: Some(n as nat) }),
{
    RndEqlBytItr { rng: rand::thread_rng(), cur: BytCur::new(Some(n)) }
}

} // verus!
