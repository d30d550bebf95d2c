use crate::keycode::KeyCode;
use vstd::prelude::*;

verus! {

pub fn event_poll_timeout() -> (r: u16)
    ensures
        r == 1,
{
    1
}

pub fn combo_threshold() -> (r: u16)
    ensures
        r == 10,
{
    10
}

pub fn tap_dance_timeout() -> (r: u16)
    ensures
        r == 200,
{
    200
}

pub fn deferred_key_delay() -> (r: u16)
    ensures
        r == 0,
{
    0
}

pub fn unicode_input_delay() -> (r: u16)
    ensures
        r == 50,
{
    50
}

pub fn maximum_lookup_depth() -> (r: u8)
    ensures
        r == 10,
{
    10
}

#[derive(Debug, Clone, Copy)]
pub struct DefaultTapDanceConfig {
    pub default_timeout: u16,
}

impl Default for DefaultTapDanceConfig {
    fn default() -> (r: Self)
        ensures
            r.default_timeout == 200,
    {
        DefaultTapDanceConfig { default_timeout: tap_dance_timeout() }
    }
}

#[derive(Debug, Clone, Copy)]
pub struct DefaultComboConfig {
    pub default_threshold: u16,
}

impl Default for DefaultComboConfig {
    fn default() -> (r: Self)
        ensures
            r.default_threshold == 10,
    {
        DefaultComboConfig { default_threshold: combo_threshold() }
    }
}

#[derive(Debug, Clone, Copy)]
pub struct GeneralConfig {
    pub event_poll_timeout: u16,
    pub deferred_key_delay: u16,
    pub unicode_input_delay: u16,
    pub maximum_lookup_depth: u8,
}

impl Default for GeneralConfig {
    fn default() -> (r: Self)
        ensures
            r.event_poll_timeout == 1,
            r.deferred_key_delay == 0,
            r.unicode_input_delay == 50,
            r.maximum_lookup_depth == 10,
    {
        GeneralConfig {
            event_poll_timeout: event_poll_timeout(),
            deferred_key_delay: deferred_key_delay(),
            unicode_input_delay: unicode_input_delay(),
            maximum_lookup_depth: maximum_lookup_depth(),
        }
    }
}

#[derive(Debug, Clone, Copy)]
pub struct DefaultConfig {
    pub tap_dance: DefaultTapDanceConfig,
    pub combo: DefaultComboConfig,
    pub general: GeneralConfig,
}

impl Default for DefaultConfig {
    fn default() -> (r: Self)
        ensures
            r.tap_dance.default_timeout == 200,
            r.combo.default_threshold == 10,
            r.general.event_poll_timeout == 1,
            r.general.deferred_key_delay == 0,
            r.general.unicode_input_delay == 50,
            r.general.maximum_lookup_depth == 10,
    {
        DefaultConfig {
            tap_dance: DefaultTapDanceConfig::default(),
            combo: DefaultComboConfig::default(),
            general: GeneralConfig::default(),
        }
    }
}

/// How a layer's modifier key activates it.
#[derive(Debug, Clone, Copy, PartialEq, Eq, Structural)]
pub enum LayerModifierKind {
    /// Active while the modifier is held.
    Momentary,
    /// Each press of the modifier switches the layer on or off.
    Toggle,
    /// Active until the next key event that is no layer modifier.
    Oneshoot,
}

impl Default for LayerModifierKind {
    fn default() -> (r: Self)
        ensures
            r == LayerModifierKind::Momentary,
    {
        LayerModifierKind::Momentary
    }
}

/// A layer's modifier: a bare key (momentary) or a key with its kind.
#[derive(Debug, Clone, Copy, PartialEq, Eq, Structural)]
pub enum LayerModiferConfig {
    Simple(KeyCode),
    Custom { key: KeyCode, kind: LayerModifierKind },
}

impl LayerModiferConfig {
    pub open spec fn modifier_spec(self) -> KeyCode {
        match self {
            LayerModiferConfig::Simple(k) => k,
            LayerModiferConfig::Custom { key, .. } => key,
        }
    }

    pub open spec fn kind_spec(self) -> LayerModifierKind {
        match self {
            LayerModiferConfig::Simple(_) => LayerModifierKind::Momentary,
            LayerModiferConfig::Custom { kind, .. } => kind,
        }
    }

    pub fn get_modifer(&self) -> (r: KeyCode)
        ensures
            r == self.modifier_spec(),
    {
        match self {
            LayerModiferConfig::Simple(k) => *k,
            LayerModiferConfig::Custom { key, .. } => *key,
        }
    }

    pub fn get_modifer_kind(&self) -> (r: LayerModifierKind)
        ensures
            r == self.kind_spec(),
    {
        match self {
            LayerModiferConfig::Simple(_) => LayerModifierKind::Momentary,
            LayerModiferConfig::Custom { kind, .. } => *kind,
        }
    }
}

/// Index of a macro in the keyboard's macro table (`KeyboardConfig::macros`).
pub type MacroId = usize;

/// What a key does: another key code, or a macro from the macro table.
#[derive(Debug, Clone, Copy, PartialEq, Eq, Structural)]
pub enum KeyAction {
    KeyCode(KeyCode),
    Macro(MacroId),
}

/// A macro: one event or a sequence of them.
#[derive(Debug, Clone)]
pub enum Macro {
    Single(EventMacro),
    Sequence(Vec<EventMacro>),
}

/// One step of a macro.
#[derive(Debug, Clone)]
pub enum EventMacro {
    Tap(KeyCode),
    Press { press: KeyCode },
    Hold { hold: KeyCode },
    Release { release: KeyCode },
    Delay { delay: u32 },
    String { string: String },
    Env { env: String },
    Unicode { unicode: String },
    Shell { shell: String, trim: Option<bool> },
}

#[derive(Debug, Clone)]
pub struct ComboDefinition {
    pub keys: Vec<KeyCode>,
    pub action: KeyAction,
}

#[derive(Debug, Clone)]
pub struct ComboConfig(pub Vec<ComboDefinition>);

#[derive(Debug, Clone, Copy)]
pub struct TapDanceConfig {
    pub timeout: Option<u16>,
    pub tap: KeyAction,
    pub hold: KeyAction,
}

#[derive(Debug, Clone)]
pub struct LayerDefinition {
    pub modifier: LayerModiferConfig,
    pub keys: Vec<(KeyCode, KeyAction)>,
}

/// Everything configured for one keyboard. Tables are lists of pairs; where a
/// key occurs twice, the first entry counts.
#[derive(Debug, Clone)]
pub struct KeyboardConfig {
    pub name: String,
    pub keys: Vec<(KeyCode, KeyAction)>,
    pub combos: ComboConfig,
    pub tap_dances: Vec<(KeyCode, TapDanceConfig)>,
    pub layers: Vec<LayerDefinition>,
    pub macros: Vec<Macro>,
}

#[derive(Debug, Clone)]
pub struct Config {
    pub defaults: DefaultConfig,
    pub keyboards: Vec<KeyboardConfig>,
}

/// The value of the first entry whose key has code `code`.
pub open spec fn first_entry<V>(entries: Seq<(KeyCode, V)>, code: u16) -> Option<V>
    decreases entries.len(),
{
    if entries.len() == 0 {
        None
    } else if entries[0].0.0 == code {
        Some(entries[0].1)
    } else {
        first_entry(entries.drop_first(), code)
    }
}

/// Looks up `code` in a table of pairs; the first entry with that key counts.
pub fn find_entry<V: Copy>(entries: &Vec<(KeyCode, V)>, code: u16) -> (r: Option<V>)
    ensures
        r == first_entry(entries@, code),
{
    let mut i: usize = 0;
    assert(entries@.subrange(0, entries@.len() as int) =~= entries@);
    while i < entries.len()
        invariant
            i <= entries@.len(),
            first_entry(entries@, code) == first_entry(entries@.subrange(i as int, entries@.len() as int), code),
        decreases entries.len() - i,
    {
        let ghost rest = entries@.subrange(i as int, entries@.len() as int);
        assert(rest.drop_first() =~= entries@.subrange(i + 1, entries@.len() as int));
        if entries[i].0.0 == code {
            return Some(entries[i].1);
        }
        i = i + 1;
    }
    assert(entries@.subrange(i as int, entries@.len() as int) =~= Seq::<(KeyCode, V)>::empty());
    None
}

} // verus!
