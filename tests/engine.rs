use okey::adapter::KeyAdapter;
use okey::config::{
    ComboConfig, ComboDefinition, DefaultConfig, EventMacro, KeyAction, KeyboardConfig,
    LayerDefinition, LayerModiferConfig, LayerModifierKind, Macro, TapDanceConfig,
};
use okey::event::EngineError;
use okey::keycode::{KeyCode, KeyEvent, KeyEventKind};
use okey::proxy::EventProxy;

const KEY_1: u16 = 2;
const KEY_Q: u16 = 16;
const KEY_W: u16 = 17;
const KEY_E: u16 = 18;
const KEY_R: u16 = 19;
const KEY_T: u16 = 20;
const KEY_Y: u16 = 21;
const KEY_U: u16 = 22;
const KEY_I: u16 = 23;
const KEY_O: u16 = 24;
const KEY_P: u16 = 25;
const KEY_ENTER: u16 = 28;
const KEY_LEFTCTRL: u16 = 29;
const KEY_A: u16 = 30;
const KEY_S: u16 = 31;
const KEY_D: u16 = 32;
const KEY_F: u16 = 33;
const KEY_H: u16 = 35;
const KEY_K: u16 = 37;
const KEY_L: u16 = 38;
const KEY_LEFTSHIFT: u16 = 42;
const KEY_Z: u16 = 44;
const KEY_X: u16 = 45;
const KEY_V: u16 = 47;
const KEY_B: u16 = 48;
const KEY_COMMA: u16 = 51;
const KEY_SPACE: u16 = 57;
const KEY_4: u16 = 5;
const KEY_6: u16 = 7;
const KEY_2: u16 = 3;

#[derive(Default)]
struct ProxyMock {
    queue: Vec<KeyEvent>,
    env: Vec<(String, String)>,
    shell_output: Option<String>,
    sleeps: Vec<u32>,
}

impl EventProxy for ProxyMock {
    fn emit(&mut self, events: &[KeyEvent]) -> Result<(), EngineError> {
        self.queue.extend_from_slice(events);
        Ok(())
    }

    fn wait(&mut self, _timeout: u16) -> Result<(), EngineError> {
        Ok(())
    }

    fn sleep(&mut self, millis: u32) {
        self.sleeps.push(millis);
    }

    fn read_env(&mut self, name: &str) -> Option<String> {
        self.env.iter().find(|(k, _)| k == name).map(|(_, v)| v.clone())
    }

    fn run_shell(&mut self, _command: &str) -> Result<String, EngineError> {
        self.shell_output.clone().ok_or(EngineError::Command)
    }
}

fn key(c: u16) -> KeyCode {
    KeyCode::new(c)
}

fn code(c: u16) -> KeyAction {
    KeyAction::KeyCode(key(c))
}

fn press(c: u16) -> KeyEvent {
    KeyEvent::new(key(c), KeyEventKind::Press)
}

fn hold(c: u16) -> KeyEvent {
    KeyEvent::new(key(c), KeyEventKind::Hold)
}

fn release(c: u16) -> KeyEvent {
    KeyEvent::new(key(c), KeyEventKind::Release)
}

fn tap(c: u16) -> Vec<KeyEvent> {
    vec![press(c), release(c)]
}

fn taps(codes: &[u16]) -> Vec<KeyEvent> {
    codes.iter().flat_map(|c| tap(*c)).collect()
}

fn shifted(c: u16) -> Vec<KeyEvent> {
    vec![press(KEY_LEFTSHIFT), hold(KEY_LEFTSHIFT), press(c), release(c), release(KEY_LEFTSHIFT)]
}

fn keyboard() -> KeyboardConfig {
    KeyboardConfig {
        name: "test keyboard".to_string(),
        keys: Vec::new(),
        combos: ComboConfig(Vec::new()),
        tap_dances: Vec::new(),
        layers: Vec::new(),
        macros: Vec::new(),
    }
}

fn adapter(config: KeyboardConfig) -> KeyAdapter<ProxyMock> {
    KeyAdapter::new(config, DefaultConfig::default(), ProxyMock::default())
}

/// Feeds each event at time `now`, letting the timed decisions run after each.
fn feed(adapter: &mut KeyAdapter<ProxyMock>, events: &[KeyEvent], now: u64) {
    for event in events {
        adapter.process_event(*event, now).unwrap();
        adapter.post_process(now).unwrap();
    }
}

fn emitted(adapter: &KeyAdapter<ProxyMock>) -> Vec<KeyEvent> {
    adapter.proxy().queue.clone()
}

fn tap_dance_config() -> KeyboardConfig {
    let mut config = keyboard();
    config.tap_dances = vec![
        (key(KEY_S), TapDanceConfig { timeout: None, tap: code(KEY_S), hold: code(KEY_LEFTSHIFT) }),
        (key(KEY_H), TapDanceConfig { timeout: None, tap: KeyAction::Macro(0), hold: KeyAction::Macro(1) }),
    ];
    config.macros = vec![
        Macro::Sequence(vec![EventMacro::Tap(key(KEY_H)), EventMacro::Tap(key(KEY_I))]),
        Macro::Sequence(vec![
            EventMacro::Tap(key(KEY_H)),
            EventMacro::Tap(key(KEY_E)),
            EventMacro::Tap(key(KEY_Y)),
        ]),
    ];
    config
}

fn combo_config() -> KeyboardConfig {
    let mut config = keyboard();
    config.combos = ComboConfig(vec![
        ComboDefinition { keys: vec![key(KEY_D), key(KEY_F)], action: code(KEY_LEFTCTRL) },
        ComboDefinition { keys: vec![key(KEY_U), key(KEY_I)], action: KeyAction::Macro(0) },
    ]);
    config.macros = vec![Macro::Sequence(vec![
        EventMacro::Tap(key(KEY_H)),
        EventMacro::Tap(key(KEY_E)),
        EventMacro::Tap(key(KEY_Y)),
    ])];
    config
}

fn layer_config() -> KeyboardConfig {
    let mut config = keyboard();
    config.layers = vec![
        LayerDefinition {
            modifier: LayerModiferConfig::Simple(key(KEY_SPACE)),
            keys: vec![(key(KEY_P), code(KEY_Q))],
        },
        LayerDefinition {
            modifier: LayerModiferConfig::Simple(key(KEY_V)),
            keys: vec![(key(KEY_P), code(KEY_X))],
        },
        LayerDefinition {
            modifier: LayerModiferConfig::Custom { key: key(KEY_B), kind: LayerModifierKind::Toggle },
            keys: vec![(key(KEY_P), code(KEY_X))],
        },
        LayerDefinition {
            modifier: LayerModiferConfig::Custom { key: key(KEY_K), kind: LayerModifierKind::Oneshoot },
            keys: vec![(key(KEY_P), code(KEY_W))],
        },
    ];
    config
}

fn macro_config() -> KeyboardConfig {
    let mut config = keyboard();
    config.keys = vec![
        (key(KEY_Q), KeyAction::Macro(0)),
        (key(KEY_X), KeyAction::Macro(1)),
        (key(KEY_R), KeyAction::Macro(2)),
        (key(KEY_W), KeyAction::Macro(3)),
        (key(KEY_T), KeyAction::Macro(4)),
        (key(KEY_Z), KeyAction::Macro(5)),
        (key(KEY_B), KeyAction::Macro(6)),
        (key(KEY_A), KeyAction::Macro(7)),
    ];
    config.macros = vec![
        Macro::Single(EventMacro::String { string: "hello".to_string() }),
        Macro::Sequence(vec![EventMacro::Tap(key(800 + KEY_O)), EventMacro::Tap(key(KEY_K))]),
        Macro::Single(EventMacro::String { string: "Hi, you!".to_string() }),
        Macro::Single(EventMacro::Env { env: "FOO".to_string() }),
        Macro::Single(EventMacro::Unicode { unicode: "\u{1f642}\u{1f44d}".to_string() }),
        Macro::Single(EventMacro::Shell { shell: "echo foo".to_string(), trim: Some(true) }),
        Macro::Single(EventMacro::String { string: "a\u{e9}".to_string() }),
        Macro::Sequence(vec![
            EventMacro::Press { press: key(KEY_LEFTCTRL) },
            EventMacro::Delay { delay: 5 },
            EventMacro::Release { release: key(KEY_LEFTCTRL) },
        ]),
    ];
    config
}

fn unicode_prefix() -> Vec<KeyEvent> {
    vec![
        press(KEY_LEFTCTRL),
        press(KEY_LEFTSHIFT),
        press(KEY_U),
        hold(KEY_LEFTCTRL),
        hold(KEY_LEFTSHIFT),
        hold(KEY_U),
        release(KEY_LEFTCTRL),
        release(KEY_LEFTSHIFT),
        release(KEY_U),
    ]
}

#[test]
fn test_basic_key() {
    let mut config = keyboard();
    config.keys = vec![(key(KEY_Q), code(KEY_W))];
    let mut a = adapter(config);
    feed(&mut a, &[press(KEY_Q), hold(KEY_Q), release(KEY_Q)], 0);
    assert_eq!(emitted(&a), vec![press(KEY_W), hold(KEY_W), release(KEY_W)]);
}

#[test]
fn test_key_tap() {
    let mut a = adapter(tap_dance_config());
    feed(&mut a, &tap(KEY_S), 0);
    assert_eq!(emitted(&a), tap(KEY_S));
}

#[test]
fn test_key_hold() {
    let mut a = adapter(tap_dance_config());
    feed(&mut a, &[press(KEY_S), hold(KEY_S)], 0);
    a.post_process(250).unwrap();
    feed(&mut a, &[release(KEY_S)], 250);
    assert_eq!(emitted(&a), vec![press(KEY_LEFTSHIFT), hold(KEY_LEFTSHIFT), release(KEY_LEFTSHIFT)]);
}

#[test]
fn test_macro_tap() {
    let mut a = adapter(tap_dance_config());
    feed(&mut a, &tap(KEY_H), 0);
    assert_eq!(emitted(&a), taps(&[KEY_H, KEY_I]));
}

#[test]
fn tap_dance_test_macro_hold() {
    let mut a = adapter(tap_dance_config());
    feed(&mut a, &[press(KEY_H), hold(KEY_H)], 0);
    a.post_process(250).unwrap();
    a.post_process(300).unwrap();
    feed(&mut a, &[hold(KEY_H)], 320);
    // macros should not repeat on hold
    assert_eq!(emitted(&a), taps(&[KEY_H, KEY_E, KEY_Y]));
}

#[test]
fn tap_dance_test_tap_dance_key() {
    let mut a = adapter(tap_dance_config());
    let input = taps(&[KEY_S, KEY_A]);
    feed(&mut a, &input, 0);
    assert_eq!(emitted(&a), input);
}

#[test]
fn test_tap_combo() {
    let mut a = adapter(combo_config());
    feed(&mut a, &[press(KEY_D), press(KEY_F)], 0);
    feed(&mut a, &[release(KEY_D), release(KEY_F)], 20);
    assert_eq!(emitted(&a), tap(KEY_LEFTCTRL));
}

#[test]
fn test_macro_combo() {
    let mut a = adapter(combo_config());
    let expected = taps(&[KEY_H, KEY_E, KEY_Y]);
    feed(&mut a, &[press(KEY_U), press(KEY_I)], 0);
    feed(&mut a, &[release(KEY_U), release(KEY_I)], 20);
    assert_eq!(emitted(&a), expected);

    let mut a = adapter(combo_config());
    feed(&mut a, &[press(KEY_U), press(KEY_I)], 100);
    feed(&mut a, &[hold(KEY_U), hold(KEY_I)], 190);
    feed(&mut a, &[release(KEY_U), release(KEY_I)], 280);
    // macros should not repeat on hold
    assert_eq!(emitted(&a), expected);
}

#[test]
fn test_expired_combo_key() {
    let mut a = adapter(combo_config());
    feed(&mut a, &[press(KEY_D)], 0);
    feed(&mut a, &[release(KEY_D)], 50);
    assert_eq!(emitted(&a), tap(KEY_D));
}

#[test]
fn combo_test_derred_combo_key() {
    let mut a = adapter(combo_config());
    feed(&mut a, &[press(KEY_D)], 0);
    feed(&mut a, &[release(KEY_D), press(KEY_A), release(KEY_A)], 60);
    assert_eq!(emitted(&a), taps(&[KEY_D, KEY_A]));
}

#[test]
fn held_combo_key_falls_through_after_window() {
    let mut a = adapter(combo_config());
    feed(&mut a, &[press(KEY_D)], 0);
    a.post_process(30).unwrap();
    assert_eq!(emitted(&a), vec![press(KEY_D)]);
    feed(&mut a, &[release(KEY_D)], 40);
    assert_eq!(emitted(&a), tap(KEY_D));
}

#[test]
fn key_pressed_during_pending_window_is_deferred() {
    let mut a = adapter(combo_config());
    feed(&mut a, &[press(KEY_D), press(KEY_A)], 0);
    assert_eq!(emitted(&a), Vec::<KeyEvent>::new());
    feed(&mut a, &[release(KEY_D)], 5);
    a.post_process(20).unwrap();
    assert_eq!(emitted(&a), taps(&[KEY_D, KEY_A]));
}

#[test]
fn combo_stays_latched_until_last_trigger_released() {
    let mut a = adapter(combo_config());
    feed(&mut a, &[press(KEY_D), press(KEY_F)], 0);
    feed(&mut a, &[release(KEY_D)], 30);
    assert_eq!(emitted(&a), vec![press(KEY_LEFTCTRL)]);
    a.post_process(60).unwrap();
    assert_eq!(emitted(&a), vec![press(KEY_LEFTCTRL)]);
    feed(&mut a, &[release(KEY_F)], 90);
    assert_eq!(emitted(&a), tap(KEY_LEFTCTRL));
}

#[test]
fn held_combo_repeats_its_code() {
    let mut a = adapter(combo_config());
    feed(&mut a, &[press(KEY_D), press(KEY_F)], 0);
    feed(&mut a, &[hold(KEY_D)], 40);
    feed(&mut a, &[release(KEY_D), release(KEY_F)], 50);
    assert_eq!(emitted(&a), vec![press(KEY_LEFTCTRL), hold(KEY_LEFTCTRL), release(KEY_LEFTCTRL)]);
}

#[test]
fn test_simple_momentary_layer() {
    let mut a = adapter(layer_config());
    let mut input = vec![press(KEY_SPACE), hold(KEY_SPACE)];
    input.extend(tap(KEY_P));
    input.extend([press(KEY_V), hold(KEY_V)]);
    input.extend(tap(KEY_P));
    input.extend([release(KEY_V), release(KEY_SPACE)]);
    input.extend(tap(KEY_P));
    feed(&mut a, &input, 0);
    assert_eq!(emitted(&a), taps(&[KEY_Q, KEY_X, KEY_P]));
}

#[test]
fn toggle_layer_switches_on_and_off() {
    let mut a = adapter(layer_config());
    feed(&mut a, &tap(KEY_B), 0);
    feed(&mut a, &taps(&[KEY_P, KEY_P, KEY_E]), 0);
    feed(&mut a, &tap(KEY_B), 0);
    feed(&mut a, &tap(KEY_P), 0);
    assert_eq!(emitted(&a), taps(&[KEY_X, KEY_X, KEY_E, KEY_P]));
}

#[test]
fn oneshot_layer_applies_to_next_key_only() {
    let mut a = adapter(layer_config());
    feed(&mut a, &tap(KEY_K), 0);
    feed(&mut a, &[press(KEY_P)], 0);
    feed(&mut a, &[release(KEY_P)], 0);
    feed(&mut a, &tap(KEY_P), 0);
    assert_eq!(emitted(&a), taps(&[KEY_W, KEY_P]));
}

#[test]
fn test_tap_dance_momentary_layer() {
    let mut config = layer_config();
    config.layers.push(LayerDefinition {
        modifier: LayerModiferConfig::Simple(key(999)),
        keys: vec![(key(KEY_P), code(KEY_X))],
    });
    config.tap_dances =
        vec![(key(KEY_A), TapDanceConfig { timeout: None, tap: code(KEY_A), hold: code(999) })];
    let mut a = adapter(config);
    feed(&mut a, &[press(KEY_A), hold(KEY_A)], 0);
    a.post_process(250).unwrap();
    feed(&mut a, &tap(KEY_P), 250);
    feed(&mut a, &[release(KEY_A)], 260);
    feed(&mut a, &tap(KEY_P), 270);
    assert_eq!(emitted(&a), taps(&[KEY_X, KEY_P]));
}

#[test]
fn macros_test_macro_key() {
    let mut a = adapter(macro_config());
    feed(&mut a, &tap(KEY_Q), 0);
    assert_eq!(emitted(&a), taps(&[KEY_H, KEY_E, KEY_L, KEY_L, KEY_O]));
}

#[test]
fn macros_test_macro_hold() {
    let mut a = adapter(macro_config());
    feed(&mut a, &[press(KEY_Q), hold(KEY_Q), hold(KEY_Q), release(KEY_Q)], 0);
    // macros should not repeat on hold
    assert_eq!(emitted(&a), taps(&[KEY_H, KEY_E, KEY_L, KEY_L, KEY_O]));
}

#[test]
fn mapping_test_event_macro() {
    let mut a = adapter(macro_config());
    feed(&mut a, &tap(KEY_X), 0);
    let mut expected = shifted(KEY_O);
    expected.extend(tap(KEY_K));
    assert_eq!(emitted(&a), expected);
}

#[test]
fn test_string_macro() {
    let mut a = adapter(macro_config());
    feed(&mut a, &tap(KEY_R), 0);
    let mut expected = shifted(KEY_H);
    expected.extend(taps(&[KEY_I, KEY_COMMA, KEY_SPACE, KEY_Y, KEY_O, KEY_U]));
    expected.extend(shifted(KEY_1));
    assert_eq!(emitted(&a), expected);
}

#[test]
fn test_env_macro() {
    let mut a = adapter(macro_config());
    let mut proxy_env = ProxyMock::default();
    proxy_env.env.push(("FOO".to_string(), "foo".to_string()));
    let mut a2 = KeyAdapter::new(macro_config(), DefaultConfig::default(), proxy_env);
    feed(&mut a2, &tap(KEY_W), 0);
    assert_eq!(emitted(&a2), taps(&[KEY_F, KEY_O, KEY_O]));
    assert_eq!(a.process_event(press(KEY_W), 0), Err(EngineError::MissingVariable));
}

#[test]
fn test_unicode_macro() {
    let mut a = adapter(macro_config());
    feed(&mut a, &tap(KEY_T), 0);
    let mut expected = unicode_prefix();
    expected.extend(taps(&[KEY_1, KEY_F, KEY_6, KEY_4, KEY_2, KEY_ENTER]));
    expected.extend(unicode_prefix());
    expected.extend(taps(&[KEY_1, KEY_F, KEY_4, KEY_4, KEY_D, KEY_ENTER]));
    assert_eq!(emitted(&a), expected);
    assert_eq!(a.proxy().sleeps, vec![50, 50]);
}

#[test]
fn test_shell_macro() {
    let mut proxy = ProxyMock::default();
    proxy.shell_output = Some("foo\n".to_string());
    let mut a = KeyAdapter::new(macro_config(), DefaultConfig::default(), proxy);
    feed(&mut a, &tap(KEY_Z), 0);
    assert_eq!(emitted(&a), taps(&[KEY_F, KEY_O, KEY_O]));
}

#[test]
fn string_macro_with_unknown_character_fails_and_emits_nothing() {
    let mut a = adapter(macro_config());
    assert_eq!(a.process_event(press(KEY_B), 0), Err(EngineError::InvalidCharacter('\u{e9}')));
    assert_eq!(emitted(&a), Vec::<KeyEvent>::new());
}

#[test]
fn event_macro_presses_releases_and_sleeps() {
    let mut a = adapter(macro_config());
    feed(&mut a, &tap(KEY_A), 0);
    assert_eq!(emitted(&a), tap(KEY_LEFTCTRL));
    assert_eq!(a.proxy().sleeps, vec![5]);
}

#[test]
fn custom_code_resolves_through_table() {
    let mut config = keyboard();
    config.keys = vec![(key(KEY_Q), code(999)), (key(999), code(KEY_W))];
    let mut a = adapter(config);
    feed(&mut a, &tap(KEY_Q), 0);
    assert_eq!(emitted(&a), tap(KEY_W));
}

#[test]
fn cyclic_custom_codes_are_cut_off() {
    let mut config = keyboard();
    config.keys = vec![(key(KEY_Q), code(999)), (key(999), code(1000)), (key(1000), code(999))];
    let mut a = adapter(config);
    feed(&mut a, &tap(KEY_Q), 0);
    assert!(emitted(&a).iter().all(|e| e.code.value() < 999));
    assert_eq!(emitted(&a), Vec::<KeyEvent>::new());
}

#[test]
fn shifted_code_taps_with_shift() {
    let mut config = keyboard();
    config.keys = vec![(key(KEY_Q), code(800 + KEY_2))];
    let mut a = adapter(config);
    feed(&mut a, &tap(KEY_Q), 0);
    assert_eq!(emitted(&a), shifted(KEY_2));
}

#[test]
fn shell_failure_is_reported() {
    let mut a = adapter(macro_config());
    assert_eq!(a.process_event(press(KEY_Z), 0), Err(EngineError::Command));
    assert_eq!(emitted(&a), Vec::<KeyEvent>::new());
}

struct BrokenSink;

impl EventProxy for BrokenSink {
    fn emit(&mut self, _events: &[KeyEvent]) -> Result<(), EngineError> {
        Err(EngineError::Device)
    }

    fn wait(&mut self, _timeout: u16) -> Result<(), EngineError> {
        Err(EngineError::Device)
    }

    fn sleep(&mut self, _millis: u32) {}

    fn read_env(&mut self, _name: &str) -> Option<String> {
        None
    }

    fn run_shell(&mut self, _command: &str) -> Result<String, EngineError> {
        Err(EngineError::Command)
    }
}

#[test]
fn sink_failure_is_reported() {
    let mut a = KeyAdapter::new(keyboard(), DefaultConfig::default(), BrokenSink);
    assert_eq!(a.process_event(press(KEY_Q), 0), Err(EngineError::Device));
    assert_eq!(a.wait_for_input(), Err(EngineError::Device));
}

#[test]
fn test_combo_toggle_layer() {
    let mut config = layer_config();
    config.layers.push(LayerDefinition {
        modifier: LayerModiferConfig::Custom { key: key(1000), kind: LayerModifierKind::Toggle },
        keys: vec![(key(KEY_P), code(KEY_X))],
    });
    config.combos = ComboConfig(vec![ComboDefinition { keys: vec![key(KEY_K), key(KEY_L)], action: code(1000) }]);
    config.layers.retain(|l| l.modifier.get_modifer().value() != KEY_K);
    let mut a = adapter(config);
    feed(&mut a, &[press(KEY_K), press(KEY_L)], 0);
    feed(&mut a, &[release(KEY_K), release(KEY_L)], 1);
    feed(&mut a, &taps(&[KEY_P, KEY_P, KEY_E]), 30);
    feed(&mut a, &[press(KEY_K), press(KEY_L)], 40);
    feed(&mut a, &[release(KEY_K), release(KEY_L)], 41);
    feed(&mut a, &tap(KEY_P), 70);
    assert_eq!(emitted(&a), taps(&[KEY_X, KEY_X, KEY_E, KEY_P]));
}

#[test]
fn test_tap_dance_toggle_layer() {
    let mut config = layer_config();
    config.layers.push(LayerDefinition {
        modifier: LayerModiferConfig::Custom { key: key(1001), kind: LayerModifierKind::Toggle },
        keys: vec![(key(KEY_P), code(KEY_X))],
    });
    config.tap_dances =
        vec![(key(KEY_A), TapDanceConfig { timeout: None, tap: code(1001), hold: code(KEY_A) })];
    let mut a = adapter(config);
    feed(&mut a, &tap(KEY_A), 0);
    feed(&mut a, &taps(&[KEY_P, KEY_P, KEY_E]), 10);
    feed(&mut a, &tap(KEY_A), 20);
    feed(&mut a, &tap(KEY_P), 30);
    assert_eq!(emitted(&a), taps(&[KEY_X, KEY_X, KEY_E, KEY_P]));
}

#[test]
fn macros_test_event_macro() {
    let mut a = adapter(macro_config());
    feed(&mut a, &tap(KEY_X), 0);
    let mut expected = shifted(KEY_O);
    expected.extend(tap(KEY_K));
    assert_eq!(emitted(&a), expected);
}

#[test]
fn test_shifted_key_event() {
    let mut config = keyboard();
    config.keys = vec![(key(KEY_Q), code(800 + KEY_1))];
    let mut a = adapter(config);
    feed(&mut a, &[press(KEY_Q), hold(KEY_Q), release(KEY_Q)], 0);
    assert_eq!(
        emitted(&a),
        vec![press(KEY_LEFTSHIFT), hold(KEY_LEFTSHIFT), press(KEY_1), hold(KEY_1), release(KEY_1), release(KEY_LEFTSHIFT)]
    );
}

#[test]
fn mapping_test_macro_key() {
    let mut config = keyboard();
    config.keys = vec![(key(KEY_B), KeyAction::Macro(0))];
    config.macros = vec![Macro::Single(EventMacro::String { string: "hello".to_string() })];
    let expected = taps(&[KEY_H, KEY_E, KEY_L, KEY_L, KEY_O]);
    let mut a = adapter(config.clone());
    feed(&mut a, &tap(KEY_B), 0);
    assert_eq!(emitted(&a), expected);
    let mut a = adapter(config);
    feed(&mut a, &[press(KEY_B), hold(KEY_B), release(KEY_B)], 0);
    // macros should not repeat on hold
    assert_eq!(emitted(&a), expected);
}

#[test]
fn test_custom_code() {
    let mut config = keyboard();
    config.keys = vec![(key(KEY_Q), code(999))];
    config.tap_dances =
        vec![(key(999), TapDanceConfig { timeout: None, tap: code(KEY_Z), hold: code(KEY_LEFTSHIFT) })];
    let mut a = adapter(config);
    feed(&mut a, &tap(KEY_Q), 0);
    assert_eq!(emitted(&a), tap(KEY_Z));
    feed(&mut a, &[press(KEY_Q), hold(KEY_Q)], 10);
    a.post_process(260).unwrap();
    feed(&mut a, &[release(KEY_Q)], 260);
    let mut expected = tap(KEY_Z);
    expected.extend([press(KEY_LEFTSHIFT), hold(KEY_LEFTSHIFT), release(KEY_LEFTSHIFT)]);
    assert_eq!(emitted(&a), expected);
}

#[test]
fn buffer_test_tap_dance_key() {
    let mut a = adapter(tap_dance_config());
    let input = taps(&[KEY_S, KEY_A]);
    feed(&mut a, &input, 0);
    assert_eq!(emitted(&a), input);
}

#[test]
fn buffer_test_derred_combo_key() {
    let mut a = adapter(combo_config());
    feed(&mut a, &[press(KEY_D)], 0);
    feed(&mut a, &[release(KEY_D), press(KEY_A), release(KEY_A)], 60);
    assert_eq!(emitted(&a), taps(&[KEY_D, KEY_A]));
}

#[test]
fn test_combo_momentary_layer() {
    let mut config = layer_config();
    config.layers.push(LayerDefinition {
        modifier: LayerModiferConfig::Simple(key(999)),
        keys: vec![(key(KEY_P), code(KEY_X))],
    });
    config.combos = ComboConfig(vec![ComboDefinition { keys: vec![key(KEY_S), key(KEY_D)], action: code(999) }]);
    let mut a = adapter(config);
    feed(&mut a, &[press(KEY_S), press(KEY_D)], 0);
    feed(&mut a, &[hold(KEY_S), hold(KEY_D)], 90);
    feed(&mut a, &tap(KEY_P), 180);
    feed(&mut a, &[release(KEY_S), release(KEY_D)], 190);
    feed(&mut a, &tap(KEY_P), 200);
    assert_eq!(emitted(&a), taps(&[KEY_X, KEY_P]));
}
