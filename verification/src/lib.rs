//! Bucket-based external-memory storage, a bounded packet pool, and a
//! backpressure-aware executor scheduler: the generic parallel-execution
//! framework underlying a multi-stage record-processing pipeline.
//!
//! Records are staged into per-thread buffers, sharded across numbered
//! buckets, optionally cut into independently decompressible checkpoint
//! segments, and read back either synchronously or through a double-buffered
//! background-reader state machine. Pipeline stages implement an executor
//! capability and are driven by an execution manager that reports
//! backpressure explicitly instead of blocking.
//!
//! All blocking primitives (threads, channels, condition variables, file
//! handles) live outside this crate; the types here are the sequential cores
//! those shells wrap, and every state transition is specified and verified.

pub mod varint;
pub mod records;
pub mod segments;
pub mod buckets;
pub mod readers;
pub mod async_reader;
pub mod packet_pool;
pub mod manager;
pub mod counters;
pub mod merge;
pub mod summary;
