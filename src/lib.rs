//! Building blocks of a fixed-size worker pool with an order-preserving
//! parallel map: the pending-work queue, the per-batch result store and the
//! pool's sizing rules.
pub mod batch;
pub mod config;
pub mod queue;

pub use batch::{tag_args, CapturedFailure, RecordError, ResultStore};
pub use config::{ConstructionError, PoolConfig};
pub use queue::{PoolClosed, Queue, ThreadExit};
