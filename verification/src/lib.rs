//! Compilation of shader source into linked GPU programs, with uniform
//! reflection and deterministic teardown, on top of a single-threaded
//! context executor.
//!
//! Every call into the graphics backend is modelled as a step of a plain
//! state machine (`context::GlContext`), and every fire-and-forget task runs
//! through a FIFO queue (`context::GlExecutor`), so that the whole protocol
//! (compile, attach, link, reflect, destroy) is verified: which error each
//! input produces, how many handles stay live, and in which order deferred
//! work observes earlier effects.

pub mod context;
pub mod error;
pub mod program;
pub mod stage;
pub mod uniforms;
