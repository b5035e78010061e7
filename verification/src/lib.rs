//! Allocation strategies studied for Redis-like workloads, and the RESP
//! command codec that drives them.

pub mod layout;
pub mod strategy;
pub mod free_list;
pub mod sized_tcmalloc;
pub mod bump;
pub mod stats;
pub mod rseq;
pub mod buffers;
pub mod resp;
