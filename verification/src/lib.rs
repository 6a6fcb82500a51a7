//! A pre-allocated pool of reusable heap values, arbitrated by a bitmap.
//!
//! A [`SyncPool`] keeps values of one type on the heap and hands them out and
//! takes them back without allocating. Its slots come in buckets of eight; a
//! 16-bit state word per bucket tells which slots hold a value and which are
//! owned by an operator at the moment.
//!
//! Every function takes the pool by exclusive reference, and every contract
//! states what one call does to the pool as a value. To share a pool between
//! threads, put it behind a lock of the caller's choice.
//!
//! Beside it stands [`buffer::ByteBuffer`], a pool of zero-filled byte buffers
//! with a queue on which buffers travel back to it.

pub mod bits;
pub mod bucket;
pub mod buffer;
pub mod construct;
pub mod laws;
pub mod pool;
pub mod prelude;
pub mod visitor;

pub use crate::construct::{default_box, make_box};
pub use crate::pool::{PoolManager, PoolState, SyncPool};
