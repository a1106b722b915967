//! A focus/break interval timer core: argument parsing into a bounded
//! configuration, a countdown renderer, and the alternating work/break
//! session loop with its continue-or-quit gate.

pub mod args;
pub mod numerals;
pub mod render;
pub mod session;
pub mod terminal;

pub use args::{parse_args, parse_value};
pub use render::countdown;
pub use session::{gate_decision, next_phase, run, GateDecision, Notifier, Phase};
pub use terminal::{ScriptedTerminal, Terminal, TimerError};
