//! Instrumentation for long-running programs: per-scope iteration timers with a
//! rolling history of windowed means, a fixed profiler of named scopes, and the
//! state machine of a terminal dashboard that observes them.

pub mod timer;
pub mod window;
pub mod profiler;
pub mod dash;
