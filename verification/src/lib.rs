//! Exclusive CPU-core groups for compute-bound worker threads.
//!
//! A machine's visible cores are partitioned by a named plan into disjoint
//! groups ([`plan`]). A pool hands each group to at most one holder at a time
//! and never waits ([`pool`]). A holder pins its thread to one core of its
//! group for the length of a scope ([`bind`]): the library decides what is
//! asked of the hardware topology and in which order ([`topology`]), and its
//! caller carries the requests out.

pub mod bind;
pub mod cpuset;
pub mod plan;
pub mod pool;
pub mod topology;

pub use bind::{bind_core, get_core_by_index, BindError, BindScope, BindStep, Cleanup};
pub use cpuset::singlify;
pub use plan::{core_groups, CoreIndex};
pub use pool::{checkout_core_group, release_core_group, CoreGroupGuard, CoreGroupPool};
pub use topology::{MemoryPolicy, TopologyError, TopologyReply, TopologyRequest};
