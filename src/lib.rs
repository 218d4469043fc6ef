//! A small load balancer core: a deduplicated pool of backend endpoints with
//! round-robin selection, a bounded health-probe scan that picks the backend
//! for one request, and the decisions of a byte relay between two peers.

mod queue;
pub mod dispatch;
pub mod endpoint;
pub mod pool;
pub mod relay;
pub mod rotation;

pub use dispatch::{
    after_probe, register_backend, start_dispatch, DispatchError, ProbeScan, RegisterError,
    ScanStep,
};
pub use endpoint::is_valid_endpoint;
pub use pool::{BackendPool, PoolError};
pub use relay::{Direction, ReadOutcome, RelayAction, RelaySession, CHUNK_SIZE};
