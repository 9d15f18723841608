//! Debounce engine for chattering keyboard switches.
//!
//! A worn switch reports a release and, a few milliseconds later, a press
//! that nobody made. The engine withholds a release that follows its press
//! too quickly: a press that arrives while the release is withheld cancels
//! both, and a release that outlives the threshold is handed on late.
//!
//! The engine is a pure state machine over plain values: a caller feeds it
//! one input event or one timer tick at a time and performs the action it
//! returns.

pub mod backlog;
pub mod engine;
pub mod event;
pub mod history;
pub mod laws;
