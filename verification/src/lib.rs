//! Utility iterators.
//!
//! Two independent sequences:
//!
//! - [`rngs`] cuts `[0, lim)` into contiguous intervals of near-equal
//!   length. The iterator is in [`split`], what the cut is and what holds of
//!   it in [`split_model`].
//! - [`rnds_eql_byt`] draws random unsigned integers whose byte width cycles
//!   through every width of the target type. The iterator is in [`rnd`], the
//!   width classes in [`width`], the course of a sequence in [`draws`].

pub mod draws;
pub mod rnd;
mod sealed;
pub mod split;
pub mod split_model;
pub mod width;

pub use draws::Draws;
pub use rnd::{rnds_eql_byt, rnds_eql_byt_n, BytCur, FixedWidth, RndEqlBytItr};
pub use split::{rngs, RngItr, SplitError};
