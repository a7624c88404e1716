//! A fixed-size worker pool's decision logic: the work queue that carries
//! jobs from submitters to workers, the state machine each worker runs, and
//! the bookkeeping that lets teardown join every worker exactly once.
//!
//! Threads, blocking and job execution are left to the caller: the types
//! here are generic over the job and over the worker handle.
pub mod channel;
pub mod delivery;
pub mod worker;
pub mod pool;
