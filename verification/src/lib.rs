//! Verified core of an eBPF-based system monitor: the trackers that turn
//! kernel events into per-process statistics, the state of the terminal
//! interfaces, and the decisions of the kernel probes.
pub mod clock;
pub mod display;
pub mod events;
pub mod fd_tracker;
pub mod input;
pub mod probes;
pub mod proc_app;
pub mod proc_events;
pub mod proc_probes;
pub mod memory_tracker;
pub mod records;
pub mod sums;
pub mod sys_app;
pub mod top;
