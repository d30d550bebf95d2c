use vstd::prelude::*;

verus! {

/// First code of the shifted pseudo-code range.
pub const SHIFTED_KEYCODE_START: u16 = 800;

/// First code of the custom (user-named) range.
pub const SAFE_KEYCODE_START: u16 = 999;

pub const KEY_ENTER: u16 = 28;
pub const KEY_LEFTCTRL: u16 = 29;
pub const KEY_LEFTSHIFT: u16 = 42;
pub const KEY_U: u16 = 22;

/// A code in the extended key space: physical codes below 800, shifted
/// pseudo-codes in `[800, 999)`, custom codes from 999 up.
#[derive(Debug, Clone, Copy, PartialEq, Eq, Hash, Structural)]
pub struct KeyCode(pub u16);

pub open spec fn is_custom_code(v: u16) -> bool {
    v >= SAFE_KEYCODE_START
}

pub open spec fn is_shifted_code(v: u16) -> bool {
    SHIFTED_KEYCODE_START <= v && v < SAFE_KEYCODE_START
}

impl KeyCode {
    pub fn new(code: u16) -> (r: Self)
        ensures
            r.0 == code,
    {
        KeyCode(code)
    }

    pub fn value(self) -> (r: u16)
        ensures
            r == self.0,
    {
        self.0
    }

    pub fn is_custom(self) -> (r: bool)
        ensures
            r == is_custom_code(self.0),
    {
        self.0 >= SAFE_KEYCODE_START
    }

    pub fn is_shifted(self) -> (r: bool)
        ensures
            r == is_shifted_code(self.0),
    {
        self.0 >= SHIFTED_KEYCODE_START && self.0 < SAFE_KEYCODE_START
    }

    /// The left shift key.
    pub fn shift() -> (r: Self)
        ensures
            r.0 == KEY_LEFTSHIFT,
    {
        KeyCode(KEY_LEFTSHIFT)
    }

    /// The physical key that a shifted pseudo-code stands for.
    pub fn unshift(self) -> (r: Self)
        requires
            is_shifted_code(self.0),
        ensures
            r.0 == self.0 - SHIFTED_KEYCODE_START,
    {
        KeyCode(self.0 - SHIFTED_KEYCODE_START)
    }
}

/// The three kernel key states.
#[derive(Debug, Clone, Copy, PartialEq, Eq, Structural)]
pub enum KeyEventKind {
    Press,
    Hold,
    Release,
}

impl KeyEventKind {
    /// The kernel encoding: 1 for a press, 2 for auto-repeat, 0 for a release.
    pub fn value(self) -> (r: i32)
        ensures
            r == kind_value(self),
    {
        match self {
            KeyEventKind::Press => 1,
            KeyEventKind::Hold => 2,
            KeyEventKind::Release => 0,
        }
    }

    /// Decodes the kernel encoding; other values are no key transition.
    pub fn from_value(value: i32) -> (r: Option<Self>)
        ensures
            r matches Some(k) ==> kind_value(k) == value,
            r is None <==> !(value == 0 || value == 1 || value == 2),
    {
        match value {
            1 => Some(KeyEventKind::Press),
            2 => Some(KeyEventKind::Hold),
            0 => Some(KeyEventKind::Release),
            _ => None,
        }
    }
}

pub open spec fn kind_value(k: KeyEventKind) -> i32 {
    match k {
        KeyEventKind::Press => 1,
        KeyEventKind::Hold => 2,
        KeyEventKind::Release => 0,
    }
}

/// One key transition.
#[derive(Debug, Clone, Copy, PartialEq, Eq, Structural)]
pub struct KeyEvent {
    pub code: KeyCode,
    pub kind: KeyEventKind,
}

impl KeyEvent {
    pub fn new(code: KeyCode, kind: KeyEventKind) -> (r: Self)
        ensures
            r.code == code,
            r.kind == kind,
    {
        KeyEvent { code, kind }
    }
}

} // verus!
