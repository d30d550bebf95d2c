use crate::config::MacroId;
use crate::keycode::KeyCode;
use vstd::prelude::*;

verus! {

/// The command language between the engine's stages.
#[derive(Debug)]
pub enum InputResult {
    Press(KeyCode),
    /// The press of this code is absorbed for now: stall other output on it.
    Pending(KeyCode),
    Hold(KeyCode),
    Release(KeyCode),
    Macro(MacroId),
    /// Two results that are dispatched in order, one after the other.
    DoubleSequence(Box<[InputResult; 2]>),
    Delay(u32),
    Nothing,
}

impl InputResult {
    pub fn double(a: InputResult, b: InputResult) -> (r: InputResult)
        ensures
            r == InputResult::DoubleSequence(Box::new([a, b])),
    {
        InputResult::DoubleSequence(Box::new([a, b]))
    }
}

/// `Press(c)` then `Release(c)`.
pub open spec fn tap_of(c: KeyCode) -> InputResult {
    InputResult::DoubleSequence(Box::new([InputResult::Press(c), InputResult::Release(c)]))
}

/// Errors that the engine reports at its operation boundaries.
#[derive(Debug, Clone, PartialEq, Eq)]
pub enum EngineError {
    /// The synthetic sink or the readiness wait failed.
    Device,
    /// A string macro holds a character with no key on a US layout.
    InvalidCharacter(char),
    /// An `Env` macro names a variable that is not set.
    MissingVariable,
    /// A `Shell` macro's command could not be run or gave no UTF-8 text.
    Command,
}

} // verus!
