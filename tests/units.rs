use okey::buffer::InputBuffer;
use okey::combo::{ComboKey, ComboManager};
use okey::config::{
    self, ComboConfig, ComboDefinition, DefaultComboConfig, DefaultConfig, DefaultTapDanceConfig,
    GeneralConfig, KeyAction, LayerDefinition, LayerModiferConfig, LayerModifierKind, TapDanceConfig,
};
use okey::event::{EngineError, InputResult};
use okey::input::{char_key_of, command_to_input, hex_of, string_to_input, unicode_to_input};
use okey::keycode::{KeyCode, KeyEventKind};
use okey::keyname::{alnum_key_name, shifted_alias_of, str_eq, KeyCodeAllocator};
use okey::layer::LayerManager;
use okey::mapping::MappingManager;
use okey::service;
use okey::tap_dance::{PressedKey, TapDanceManager};

fn key(c: u16) -> KeyCode {
    KeyCode::new(c)
}

fn is_press(r: &InputResult, c: u16) -> bool {
    matches!(r, InputResult::Press(k) if k.value() == c)
}

fn is_release(r: &InputResult, c: u16) -> bool {
    matches!(r, InputResult::Release(k) if k.value() == c)
}

fn is_hold(r: &InputResult, c: u16) -> bool {
    matches!(r, InputResult::Hold(k) if k.value() == c)
}

fn is_tap(r: &InputResult, c: u16) -> bool {
    match r {
        InputResult::DoubleSequence(pair) => is_press(&pair[0], c) && is_release(&pair[1], c),
        _ => false,
    }
}

#[test]
fn defaults_have_documented_values() {
    assert_eq!(config::event_poll_timeout(), 1);
    assert_eq!(config::combo_threshold(), 10);
    assert_eq!(config::tap_dance_timeout(), 200);
    assert_eq!(config::deferred_key_delay(), 0);
    assert_eq!(config::unicode_input_delay(), 50);
    assert_eq!(config::maximum_lookup_depth(), 10);
    let d = DefaultConfig::default();
    assert_eq!(d.tap_dance.default_timeout, 200);
    assert_eq!(d.combo.default_threshold, 10);
    assert_eq!(d.general.maximum_lookup_depth, 10);
    assert_eq!(DefaultTapDanceConfig::default().default_timeout, 200);
    assert_eq!(DefaultComboConfig::default().default_threshold, 10);
    assert_eq!(GeneralConfig::default().unicode_input_delay, 50);
    assert_eq!(LayerModifierKind::default(), LayerModifierKind::Momentary);
}

#[test]
fn keycode_ranges() {
    assert!(!key(799).is_shifted());
    assert!(key(800).is_shifted());
    assert!(key(998).is_shifted());
    assert!(!key(998).is_custom());
    assert!(key(999).is_custom());
    assert!(!key(999).is_shifted());
    assert_eq!(key(802).unshift().value(), 2);
    assert_eq!(KeyCode::shift().value(), 42);
    assert_eq!(KeyEventKind::Press.value(), 1);
    assert_eq!(KeyEventKind::Hold.value(), 2);
    assert_eq!(KeyEventKind::Release.value(), 0);
    assert_eq!(KeyEventKind::from_value(2), Some(KeyEventKind::Hold));
    assert_eq!(KeyEventKind::from_value(3), None);
}

#[test]
fn layer_modifier_config_accessors() {
    let simple = LayerModiferConfig::Simple(key(57));
    assert_eq!(simple.get_modifer(), key(57));
    assert_eq!(simple.get_modifer_kind(), LayerModifierKind::Momentary);
    let custom = LayerModiferConfig::Custom { key: key(48), kind: LayerModifierKind::Toggle };
    assert_eq!(custom.get_modifer(), key(48));
    assert_eq!(custom.get_modifer_kind(), LayerModifierKind::Toggle);
}

#[test]
fn result_queue_drops_oldest_when_full() {
    let mut b = InputBuffer::new();
    for i in 0..12u32 {
        b.push_result(InputResult::Delay(i));
    }
    let mut seen = Vec::new();
    while let Some(r) = b.pop_result() {
        match r {
            InputResult::Delay(i) => seen.push(i),
            _ => panic!("unexpected result"),
        }
    }
    assert_eq!(seen, (2..12).collect::<Vec<u32>>());
}

#[test]
fn deferred_and_scratch_queues_are_fifo_and_bounded() {
    let mut b = InputBuffer::new();
    for c in 1..=5u16 {
        b.defer_key(key(c));
    }
    let mut keys = Vec::new();
    while let Some(k) = b.pop_deferred_key() {
        keys.push(k.value());
    }
    assert_eq!(keys, vec![2, 3, 4, 5]);
    b.push_key(7);
    b.push_key(8);
    assert_eq!(b.pop_key(), Some(7));
    assert_eq!(b.pop_key(), Some(8));
    assert_eq!(b.pop_key(), None);
}

#[test]
fn pending_keys_set_and_clear() {
    let mut b = InputBuffer::new();
    assert!(!b.has_pending_keys());
    b.set_pending_key(key(32));
    b.set_pending_key(key(33));
    b.set_pending_key(key(32));
    assert!(b.is_pending_key(&key(32)));
    b.clear_pending_key(&key(32));
    assert!(!b.is_pending_key(&key(32)));
    assert!(b.is_pending_key(&key(33)));
    b.clear_pending_key(&key(33));
    assert!(!b.has_pending_keys());
}

#[test]
fn mapping_falls_back_to_identity() {
    let m = MappingManager::new(vec![(key(16), KeyAction::KeyCode(key(17))), (key(16), KeyAction::Macro(0))]);
    assert_eq!(m.map(&16), KeyAction::KeyCode(key(17)));
    assert_eq!(m.map(&18), KeyAction::KeyCode(key(18)));
}

#[test]
fn layer_map_uses_top_layer_first() {
    let mut l = LayerManager::new(vec![
        LayerDefinition { modifier: LayerModiferConfig::Simple(key(57)), keys: vec![(key(25), KeyAction::KeyCode(key(16)))] },
        LayerDefinition { modifier: LayerModiferConfig::Simple(key(47)), keys: vec![(key(25), KeyAction::KeyCode(key(45)))] },
    ]);
    assert_eq!(l.map(KeyAction::KeyCode(key(25))), KeyAction::KeyCode(key(25)));
    assert!(matches!(l.handle_press(57), Some(InputResult::Nothing)));
    assert_eq!(l.map(KeyAction::KeyCode(key(25))), KeyAction::KeyCode(key(16)));
    assert_eq!(l.map(KeyAction::KeyCode(key(30))), KeyAction::KeyCode(key(30)));
    assert!(matches!(l.handle_press(47), Some(InputResult::Nothing)));
    assert_eq!(l.map(KeyAction::KeyCode(key(25))), KeyAction::KeyCode(key(45)));
    assert_eq!(l.map(KeyAction::Macro(3)), KeyAction::Macro(3));
    assert!(matches!(l.handle_hold(47), Some(InputResult::Nothing)));
    assert!(l.handle_press(30).is_none());
}

#[test]
fn momentary_release_waits_for_dependent_layer() {
    let mut l = LayerManager::new(vec![
        LayerDefinition { modifier: LayerModiferConfig::Simple(key(57)), keys: vec![(key(25), KeyAction::KeyCode(key(16)))] },
        LayerDefinition { modifier: LayerModiferConfig::Simple(key(47)), keys: vec![(key(25), KeyAction::KeyCode(key(45)))] },
    ]);
    l.handle_press(57);
    l.handle_press(47);
    // the base modifier goes up first: its layer stays under the dependent one
    l.handle_release(57);
    assert_eq!(l.map(KeyAction::KeyCode(key(25))), KeyAction::KeyCode(key(45)));
    // releasing the dependent modifier unwinds both
    l.handle_release(47);
    assert_eq!(l.map(KeyAction::KeyCode(key(25))), KeyAction::KeyCode(key(25)));
}

#[test]
fn tap_dance_decisions() {
    let cfg = TapDanceConfig { timeout: Some(100), tap: KeyAction::KeyCode(key(31)), hold: KeyAction::KeyCode(key(42)) };
    let k = PressedKey::new(31, &cfg, 200, 1000);
    assert_eq!(k.timeout, 100);
    assert!(!k.reached_timeout(1100));
    assert!(k.reached_timeout(1101));
    assert!(matches!(k.get_dance_result(false), InputResult::Nothing));
    match k.get_dance_result(true) {
        InputResult::DoubleSequence(pair) => assert!(is_press(&pair[0], 42) && is_hold(&pair[1], 42)),
        _ => panic!("hold expected"),
    }
    let released = PressedKey { released: true, ..k };
    assert!(is_tap(&released.get_dance_result(false), 31));
    assert!(is_release(&released.get_dance_result(true), 42));
}

#[test]
fn tap_dance_manager_tick() {
    let cfg = TapDanceConfig { timeout: None, tap: KeyAction::KeyCode(key(30)), hold: KeyAction::KeyCode(key(42)) };
    let mut m = TapDanceManager::new(vec![(key(31), cfg)], DefaultTapDanceConfig::default());
    let mut b = InputBuffer::new();
    assert!(m.handle_press(32, 0).is_none());
    assert!(matches!(m.handle_press(31, 0), Some(InputResult::Pending(k)) if k.value() == 31));
    b.set_pending_key(key(31));
    assert!(matches!(m.handle_hold(31), Some(InputResult::Nothing)));
    m.process(&mut b, 100);
    assert!(b.pop_result().is_none());
    assert!(matches!(m.handle_release(31), Some(InputResult::Nothing)));
    m.process(&mut b, 150);
    // the tap is another code: the pending marker goes with the decision
    assert!(is_tap(&b.pop_result().unwrap(), 30));
    assert!(!b.is_pending_key(&key(31)));
    m.process(&mut b, 400);
    assert!(b.pop_result().is_none());
}

#[test]
fn combo_manager_fires_longest_chord_first() {
    let mut m = ComboManager::new(
        ComboConfig(vec![
            ComboDefinition { keys: vec![key(32), key(33)], action: KeyAction::KeyCode(key(29)) },
            ComboDefinition { keys: vec![key(32), key(33), key(34)], action: KeyAction::KeyCode(key(56)) },
        ]),
        DefaultComboConfig::default(),
    );
    let mut b = InputBuffer::new();
    for c in [32u16, 33, 34] {
        assert!(matches!(m.handle_press(c, 0), Some(InputResult::Pending(_))));
        b.set_pending_key(key(c));
    }
    assert!(m.handle_press(35, 0).is_none());
    m.process(&mut b, 2);
    assert!(is_press(&b.pop_result().unwrap(), 56));
    assert!(b.pop_result().is_none());
    assert!(!b.has_pending_keys());
    for c in [32u16, 33, 34] {
        assert!(matches!(m.handle_release(c), Some(InputResult::Nothing)));
    }
    m.process(&mut b, 30);
    assert!(is_release(&b.pop_result().unwrap(), 56));
    assert!(b.pop_result().is_none());
}

#[test]
fn combo_key_window() {
    let k = ComboKey::new(32, 100);
    assert!(!k.released && !k.hold);
    assert!(!k.window_closed(110, 10));
    assert!(k.window_closed(111, 10));
}

#[test]
fn letters_and_digits_use_kernel_names() {
    assert_eq!(char_key_of('a'), Some((30, false)));
    assert_eq!(char_key_of('A'), Some((30, true)));
    assert_eq!(char_key_of('q'), Some((16, false)));
    assert_eq!(char_key_of('0'), Some((11, false)));
    assert_eq!(char_key_of('?'), Some((53, true)));
    assert_eq!(char_key_of('\u{e9}'), None);
}

#[test]
fn string_expansion() {
    let r = string_to_input("aB").unwrap();
    assert_eq!(r.len(), 7);
    assert!(is_press(&r[0], 30) && is_release(&r[1], 30));
    assert!(is_press(&r[2], 42) && is_hold(&r[3], 42));
    assert!(is_press(&r[4], 48) && is_release(&r[5], 48) && is_release(&r[6], 42));
    assert_eq!(string_to_input("").unwrap().len(), 0);
    assert_eq!(string_to_input("a\u{e9}b").err(), Some(EngineError::InvalidCharacter('\u{e9}')));
}

#[test]
fn hex_digits_are_lowercase_without_padding() {
    assert_eq!(hex_of(0), vec!['0']);
    assert_eq!(hex_of(0x1f642), vec!['1', 'f', '6', '4', '2']);
    assert_eq!(hex_of(255), vec!['f', 'f']);
}

#[test]
fn unicode_expansion_ends_with_enter_and_delay() {
    let r = unicode_to_input("\u{e9}", 50).unwrap();
    // prefix (9), "e9" (2 taps: 4), enter (2), delay (1)
    assert_eq!(r.len(), 16);
    assert!(is_press(&r[0], 29) && is_press(&r[1], 42) && is_press(&r[2], 22));
    assert!(is_press(&r[9], 18) && is_press(&r[11], 10));
    assert!(is_press(&r[13], 28) && is_release(&r[14], 28));
    assert!(matches!(r[15], InputResult::Delay(50)));
}

#[test]
fn command_output_trimming() {
    assert_eq!(command_to_input("ab \n\t", Some(true)).unwrap().len(), 4);
    assert_eq!(command_to_input("ab\n", None).unwrap().len(), 6);
    assert_eq!(command_to_input("ab\r\n", Some(false)).err(), Some(EngineError::InvalidCharacter('\r')));
}

#[test]
fn service_paths() {
    assert_eq!(service::resolve_service_file_path("/etc/systemd/system/"), "/etc/systemd/system/okey.service");
    assert_eq!(service::resolve_service_file_path("/home/u/.config/systemd/user"), "/home/u/.config/systemd/user/okey.service");
    assert_eq!(service::get_default_config_path("/etc/okey"), "/etc/okey/config.yaml");
    assert_eq!(service::get_config_dir_path(true, None), Some("/etc/okey".to_string()));
    assert_eq!(service::get_config_dir_path(false, Some("/home/u")), Some("/home/u/.config/okey".to_string()));
    assert_eq!(service::get_config_dir_path(false, None), None);
    assert_eq!(service::get_systemd_dir_path(false, Some("/home/u/")), Some("/home/u/.config/systemd/user".to_string()));
    assert_eq!(service::get_systemd_dir_path(true, Some("/home/u")), Some("/etc/systemd/system/".to_string()));
}

#[test]
fn systemctl_plans() {
    assert_eq!(service::reload_daemon(), vec![vec!["daemon-reload"]]);
    assert_eq!(service::start(), vec![vec!["enable", "okey"], vec!["start", "okey"]]);
    assert_eq!(service::restart(), vec![vec!["restart", "okey"]]);
    assert_eq!(service::stop(), vec![vec!["stop", "okey"], vec!["disable", "okey"]]);
    assert_eq!(service::status(), vec![vec!["status", "okey"]]);
    assert_eq!(service::systemctl_args(false, &vec!["stop", "okey"]), vec!["--user", "stop", "okey"]);
    assert_eq!(service::systemctl_args(true, &vec!["stop", "okey"]), vec!["stop", "okey"]);
    assert_eq!(service::start_service(false), Err(service::ServiceError::NotInstalled));
    assert_eq!(
        service::start_service(true).unwrap(),
        vec![vec!["daemon-reload"], vec!["enable", "okey"], vec!["start", "okey"]]
    );
}

#[test]
fn service_unit_text() {
    let user = service::service_unit("/usr/bin/okey", false);
    assert!(user.starts_with("[Unit]\nDescription=Okey Service\n\n[Service]\nExecStart=/usr/bin/okey start --systemd\n"));
    assert!(user.ends_with("Nice=-20\n\n[Install]\nWantedBy=multi-user.target"));
    let root = service::service_unit("/usr/bin/okey", true);
    assert!(root.contains("Nice=-20\nCPUSchedulingPolicy=rr\nCPUSchedulingPriority=99\nIOSchedulingClass=realtime\nIOSchedulingPriority=0\n\n[Install]"));
}

#[test]
fn equal_chords_fire_first_declared() {
    let mut m = ComboManager::new(
        ComboConfig(vec![
            ComboDefinition { keys: vec![key(32), key(33)], action: KeyAction::KeyCode(key(29)) },
            ComboDefinition { keys: vec![key(33), key(32)], action: KeyAction::KeyCode(key(56)) },
        ]),
        DefaultComboConfig::default(),
    );
    let mut b = InputBuffer::new();
    m.handle_press(32, 0);
    m.handle_press(33, 0);
    m.process(&mut b, 1);
    assert!(is_press(&b.pop_result().unwrap(), 29));
    assert!(b.pop_result().is_none());
}

#[test]
fn key_names_resolve_in_order() {
    let mut keys = KeyCodeAllocator::new();
    assert_eq!(keys.resolve("KEY_EXCLAMATION").value(), 802);
    assert_eq!(keys.resolve("KEY_PIPE").value(), 843);
    assert_eq!(keys.resolve("KEY_A").value(), 30);
    assert_eq!(keys.resolve("KEY_LEFTSHIFT").value(), 42);
    assert_eq!(keys.len(), 0);
    assert_eq!(keys.resolve("nav_layer").value(), 999);
    assert_eq!(keys.resolve("other").value(), 1000);
    assert_eq!(keys.resolve("nav_layer").value(), 999);
    assert_eq!(keys.len(), 2);
}

#[test]
fn test_shifted_keycodes() {
    let mut keys = KeyCodeAllocator::new();
    let names = [
        "KEY_EXCLAMATION", "KEY_AT", "KEY_HASH", "KEY_DOLLARSIGN", "KEY_PERCENT", "KEY_CARET", "KEY_AMPERSAND",
        "KEY_STAR", "KEY_LEFTPAREN", "KEY_RIGHTPAREN", "KEY_UNDERSCORE", "KEY_PLUS", "KEY_LEFTCURLY",
        "KEY_RIGHTCURLY", "KEY_COLON", "KEY_DOUBLEQUOTE", "KEY_LESS", "KEY_GREATER", "KEY_QUESTION", "KEY_TILDE",
        "KEY_PIPE",
    ];
    for name in names {
        let code = keys.resolve(name);
        assert!(code.is_shifted(), "Non shifted keycode mapped to {name:?}");
    }
}

#[test]
fn key_name_helpers() {
    assert_eq!(alnum_key_name('q'), "KEY_Q");
    assert_eq!(alnum_key_name('7'), "KEY_7");
    assert_eq!(shifted_alias_of("KEY_TILDE"), Some(41));
    assert_eq!(shifted_alias_of("KEY_A"), None);
    assert!(str_eq("abc", "abc"));
    assert!(!str_eq("abc", "abd"));
    assert!(!str_eq("ab", "abc"));
}

#[test]
fn key_results_wrap_shift() {
    let plain = okey::input::key_results(30, false);
    assert_eq!(plain.len(), 2);
    assert!(is_press(&plain[0], 30) && is_release(&plain[1], 30));
    let shifted = okey::input::key_results(2, true);
    assert_eq!(shifted.len(), 5);
    assert!(is_press(&shifted[0], 42) && is_hold(&shifted[1], 42));
    assert!(is_press(&shifted[2], 2) && is_release(&shifted[3], 2) && is_release(&shifted[4], 42));
}

#[test]
fn env_values_become_key_results() {
    assert_eq!(okey::adapter::env_to_input(None).err(), Some(EngineError::MissingVariable));
    assert_eq!(okey::adapter::env_to_input(Some("ab")).unwrap().len(), 4);
    assert_eq!(okey::adapter::env_to_input(Some("\u{e9}")).err(), Some(EngineError::InvalidCharacter('\u{e9}')));
}

#[test]
fn combo_hold_inside_window_is_not_absorbed() {
    let mut m = ComboManager::new(
        ComboConfig(vec![ComboDefinition { keys: vec![key(32), key(33)], action: KeyAction::KeyCode(key(29)) }]),
        DefaultComboConfig::default(),
    );
    m.handle_press(32, 100);
    assert!(m.handle_hold(32, 105).is_none());
    assert!(matches!(m.handle_hold(32, 120), Some(InputResult::Nothing)));
    assert!(m.handle_hold(40, 120).is_none());
}

#[test]
fn pending_key_is_held_once() {
    let mut b = InputBuffer::new();
    b.set_pending_key(key(32));
    b.set_pending_key(key(32));
    b.clear_pending_key(&key(32));
    assert!(!b.has_pending_keys());
}

#[test]
fn unicode_whitespace_is_trimmed() {
    assert_eq!(command_to_input("ab\u{a0}\u{2003}\n", Some(true)).unwrap().len(), 4);
}

#[test]
fn pending_set_holds_four_and_drops_the_oldest() {
    let mut b = InputBuffer::new();
    for c in 1..=5u16 {
        b.set_pending_key(key(c));
    }
    assert!(!b.is_pending_key(&key(1)));
    for c in 2..=5u16 {
        assert!(b.is_pending_key(&key(c)));
    }
}

#[test]
fn combo_definitions_sorted_by_key_count() {
    // a one-key chord declared first still loses to the two-key chord
    let mut m = ComboManager::new(
        ComboConfig(vec![
            ComboDefinition { keys: vec![key(32)], action: KeyAction::KeyCode(key(29)) },
            ComboDefinition { keys: vec![key(32), key(33)], action: KeyAction::KeyCode(key(56)) },
        ]),
        DefaultComboConfig::default(),
    );
    let mut b = InputBuffer::new();
    m.handle_press(32, 0);
    m.handle_press(33, 0);
    m.process(&mut b, 1);
    assert!(is_press(&b.pop_result().unwrap(), 56));
    assert!(b.pop_result().is_none());
}
