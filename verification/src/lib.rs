//! Incremental build engine for a two-level GPU ray-tracing acceleration
//! structure: bottom-level units registered by name, composited once per
//! frame into a top-level structure when, and only when, something changed.
//!
//! The library records every device operation in a [`gpu::GpuContext`] as a
//! plain command log; the surrounding renderer replays that log against the
//! real device and queue. All sizing, dirty tracking and barrier ordering is
//! decided, and proved, here.

pub mod gpu;
pub mod blas;
pub mod tlas;
pub mod input;
