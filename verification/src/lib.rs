//! A one-time-pad store with a streaming XOR cipher.
//!
//! A padset is a rectangular arrangement of random lines addressed by a
//! four-component index `[nest, pad, page, line]`. Lines are read any number of
//! times when decrypting and are removed, each at most once, when encrypting.
//! Pages and pads may carry a digest that is checked before their first line is
//! used.
//!
//! The library works on a padset held in memory, [`store::Padset`], whose
//! mathematical value is a [`store::PadsetView`]. Every operation states in
//! its contract what it returns and how it changes that value.
//!
//! - [`index`] and [`order`]: the index, its successor and its order.
//! - [`path`] and [`parse`]: the names of the files of a padset, both ways.
//! - [`store`] and [`lines`]: the padset, single lines, and the first line left.
//! - [`sha256`] and [`integrity`]: digests of pages and pads.
//! - [`builder`]: a padset from random bytes.
//! - [`stream`]: writer mode and reader mode of the cipher.
//! - [`files`]: a padset as a set of files.
//! - [`laws`], [`fresh`] and [`tamper`]: what holds of every run: round trip,
//!   symmetry, contiguous at-most-once consumption, the cursor that never
//!   goes back, and all-or-nothing integrity of a page.

pub mod builder;
pub mod error;
pub mod files;
pub mod fresh;
pub mod index;
pub mod integrity;
pub mod laws;
pub mod lines;
pub mod order;
pub mod parse;
pub mod path;
pub mod sha256;
pub mod store;
pub mod stream;
pub mod tamper;
