//! A process-supervision library: it models a task's tree of descendant
//! processes, meters per-process CPU consumption from raw kernel counters,
//! throttles a tree to a CPU ceiling with a suspend/resume duty cycle, and
//! decides when supervision of a task must end.
//!
//! All platform access (process enumeration, signal delivery, clocks, the
//! on-disk task registry) happens outside this crate; the functions here take
//! those readings as plain values and are verified for every value they can
//! take.

pub mod args;
pub mod bsd;
pub mod colors;
pub mod command;
pub mod cpu;
pub mod date;
pub mod enumerate;
pub mod error;
pub mod fork;
pub mod kill;
pub mod limit;
pub mod linux;
pub mod logs;
pub mod macos;
pub mod monitor;
pub mod proc;
pub mod table;
pub mod text;
pub mod tree;
pub mod unix;
pub mod windows;
