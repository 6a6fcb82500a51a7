//! The names that most callers need.

pub use crate::construct::{default_box, make_box};
pub use crate::pool::{PoolManager, PoolState, SyncPool};
