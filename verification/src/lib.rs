//! An admission-controlled task scheduler for asynchronous image-processing
//! work items.
//!
//! The scheduler tracks each task's lifecycle from creation to a terminal
//! state, admits queued tasks in FIFO order while keeping the number of
//! concurrently running tasks under a configured bound, and lets callers
//! poll status by identifier. The scheduler itself is a sequential state
//! machine: a runtime layer drives it, performing the actions it returns
//! (launching workers, reporting their completions back).

pub mod common;
pub mod dto;
pub mod image_service;
pub mod utils;

