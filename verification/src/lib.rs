//! Lifecycle bookkeeping of locally managed agent processes.
//!
//! Three passes keep the agent records and the runtime map in step with the
//! process table: killing what an earlier session left behind, collecting the
//! inputs of the periodic orphan sweep, and syncing exited roots into the
//! records. The host probes processes, reads logs and supplies the clock; every
//! decision and every update of the bookkeeping is made here.
pub mod laws;
pub mod outcomes;
pub mod reclaim;
pub mod runtimes;
pub mod stale;
pub mod sweep;
pub mod sync;
pub mod types;
