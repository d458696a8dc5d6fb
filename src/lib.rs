//! A keystroke-driven typing-test engine: per-character diffing, the typing
//! session state machine, end-of-session metrics and the word-wrap layout.

pub mod diff;
pub mod layout;
pub mod metrics;
pub mod punctuation;
pub mod stats;
pub mod typing;
