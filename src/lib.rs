//! A fixed-size pool of supervised actix workers behind one handle that
//! spreads messages over them in round-robin order.

pub mod pool;
pub mod rotation;

pub use pool::{Pool, PoolError};
pub use rotation::{lemma_round_robin_fair, worker_index};
