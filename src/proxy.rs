use crate::event::EngineError;
use crate::keycode::KeyEvent;
use vstd::prelude::*;

verus! {

/// What the engine needs from its environment: a synthetic sink for key
/// events, a readiness wait, a sleep, and the sources that `Env` and `Shell`
/// macros read. The engine makes no assumption about what these return.
pub trait EventProxy {
    /// Publishes the events to the synthetic sink, in order.
    fn emit(&mut self, events: &[KeyEvent]) -> Result<(), EngineError>;

    /// Blocks until input is ready or `timeout` milliseconds have passed.
    fn wait(&mut self, timeout: u16) -> Result<(), EngineError>;

    /// Pauses for `millis` milliseconds.
    fn sleep(&mut self, millis: u32);

    /// The value of an environment variable, if it is set.
    fn read_env(&mut self, name: &str) -> Option<String>;

    /// Runs a shell command and returns its standard output.
    fn run_shell(&mut self, command: &str) -> Result<String, EngineError>;
}

} // verus!
