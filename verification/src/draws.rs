//! The model of a random sequence: what it will do next, as far as that does
//! not depend on chance, and how often each width class comes up.
//!
//! For a type of `w` bytes, the draw that comes `i` draws after the cursor
//! was at `c` has the width class `(c + i) % w`.

use vstd::arithmetic::div_mod::{
    lemma_add_mod_noop_right, lemma_mod_add_multiples_vanish, lemma_small_mod,
};
use vstd::prelude::*;

verus! {

/// The width class of the draw that comes `i` draws after the cursor was at
/// `c`, for a type of `w` bytes.
pub open spec fn class_at(w: nat, c: nat, i: nat) -> nat {
    (c + i) % w
}

/// What a random sequence will do next, as far as that does not depend on
/// chance.
pub struct Draws {
    /// The width class of the next draw: the number will have `cursor + 1`
    /// bytes.
    pub cursor: nat,
    /// How many draws are left; `None` where the sequence has no end.
    pub left: Option<nat>,
}

impl Draws {
    /// Whether the sequence has ended.
    pub open spec fn done(self) -> bool {
        self.left == Some(0nat)
    }

    /// The state `k` draws later, for a type of `w` bytes.
    pub open spec fn after(self, w: nat, k: nat) -> Draws
        recommends
            w >= 1,
            self.left matches Some(n) ==> k <= n,
    {
        Draws {
            cursor: class_at(w, self.cursor, k),
            left: match self.left {
                Some(n) => Some((n - k) as nat),
                None => None,
            },
        }
    }
}

/// How many of the `n` draws that start with the cursor at `c` have the
/// width class `b`.
pub open spec fn class_count(w: nat, c: nat, n: nat, b: nat) -> nat
    decreases n,
{
    if n == 0 {
        0
    } else {
        let rest = class_count(w, c, (n - 1) as nat, b);
        if class_at(w, c, (n - 1) as nat) == b {
            rest + 1
        } else {
            rest
        }
    }
}

/// One draw after `k` draws makes `k + 1` draws.
pub proof fn lemma_after_step(d: Draws, w: nat, k: nat)
    requires
        w >= 1,
        d.left matches Some(n) ==> k < n,
    ensures
        d.after(w, k).after(w, 1) == d.after(w, k + 1),
{
    lemma_add_mod_noop_right(1, (d.cursor + k) as int, w as int);
}

/// A run of draws counts as its first draw and the run after it.
proof fn lemma_count_first(w: nat, c: nat, n: nat, b: nat)
    requires
        n >= 1,
    ensures
        class_count(w, c, n, b) == class_count(w, c, 1, b) + class_count(
            w,
            c + 1,
            (n - 1) as nat,
            b,
        ),
    decreases n,
{
    if n > 1 {
        lemma_count_first(w, c, (n - 1) as nat, b);
        assert(c + (n - 1) == (c + 1) + (n - 1 - 1));
    } else {
        assert(class_count(w, c, 0, b) == 0);
    }
}

/// A run of draws counts as its first `n` draws and the `m` after them.
proof fn lemma_count_adds(w: nat, c: nat, n: nat, m: nat, b: nat)
    ensures
        class_count(w, c, n + m, b) == class_count(w, c, n, b) + class_count(w, c + n, m, b),
    decreases m,
{
    if m > 0 {
        lemma_count_adds(w, c, n, (m - 1) as nat, b);
        assert(c + (n + m - 1) == (c + n) + (m - 1));
    }
}

/// Among the first `n <= w` draws from a cursor at 0, class `b` comes up
/// once if `b < n`, and not at all otherwise.
proof fn lemma_count_from_zero(w: nat, n: nat, b: nat)
    requires
        n <= w,
    ensures
        class_count(w, 0, n, b) == if b < n {
            1nat
        } else {
            0nat
        },
    decreases n,
{
    if n > 0 {
        lemma_count_from_zero(w, (n - 1) as nat, b);
        lemma_small_mod((n - 1) as nat, w);
    }
}

/// Any `w` draws in a row hold each of the `w` width classes exactly once.
pub proof fn lemma_count_window(w: nat, c: nat, b: nat)
    requires
        w >= 1,
        b < w,
    ensures
        class_count(w, c, w, b) == 1,
    decreases c,
{
    if c == 0 {
        lemma_count_from_zero(w, w, b);
    } else {
        // The window that starts one draw earlier loses its first draw and
        // gains one of the same class.
        let p = (c - 1) as nat;
        lemma_count_window(w, p, b);
        lemma_count_first(w, p, w + 1, b);
        lemma_mod_add_multiples_vanish(p as int, w as int);
        assert(class_count(w, p, 0, b) == 0);
        assert(p + (w + 1 - 1) == w + p);
    }
}

/// Widths come in equal quantities: in `k * w` draws in a row, from any
/// cursor, each of the `w` width classes comes up exactly `k` times.
pub proof fn lemma_equal_quantities(w: nat, c: nat, k: nat, b: nat)
    requires
        w >= 1,
        b < w,
    ensures
        class_count(w, c, k * w, b) == k,
    decreases k,
{
    if k == 0 {
        assert(k * w == 0) by (nonlinear_arith)
            requires
                k == 0,
        ;
    } else {
        let j = (k - 1) as nat;
        assert(k * w == j * w + w) by (nonlinear_arith)
            requires
                k == j + 1,
        ;
        lemma_equal_quantities(w, c, j, b);
        lemma_count_adds(w, c, j * w, w, b);
        lemma_count_window(w, c + j * w, b);
    }
}

} // verus!
