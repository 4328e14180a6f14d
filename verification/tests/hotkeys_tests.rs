use freenet_lib::hotkeys::{
    action_name, hook_event, hotkey_actions, media_action, parse_hotkey, ArmedKeys, HookAction,
    HookOutcome, MediaAction, HC_ACTION, MOD_ALT, MOD_CONTROL, MOD_SHIFT, MOD_WIN, WM_KEYDOWN,
    WM_KEYUP, WM_SYSKEYDOWN, WM_SYSKEYUP,
};
use freenet_lib::types::HotkeyConfig;

#[test]
fn combos_with_modifiers() {
    assert_eq!(parse_hotkey("Ctrl+F5"), Some((MOD_CONTROL, 0x74)));
    assert_eq!(parse_hotkey("ctrl+shift+a"), Some((MOD_CONTROL | MOD_SHIFT, 0x41)));
    assert_eq!(parse_hotkey(" Alt + Space "), Some((MOD_ALT, 0x20)));
    assert_eq!(parse_hotkey("Win+1"), Some((MOD_WIN, 0x31)));
    assert_eq!(parse_hotkey("Control+Meta+PageDown"), Some((MOD_CONTROL | MOD_WIN, 0x22)));
    assert_eq!(parse_hotkey("Shift+Esc"), Some((MOD_SHIFT, 0x1B)));
}

#[test]
fn function_keys_alone_are_accepted() {
    assert_eq!(parse_hotkey("F1"), Some((0, 0x70)));
    assert_eq!(parse_hotkey("f24"), Some((0, 0x87)));
    assert_eq!(parse_hotkey("Delete"), Some((0, 0x2E)));
}

#[test]
fn combos_that_are_refused() {
    assert_eq!(parse_hotkey("A"), None);
    assert_eq!(parse_hotkey("7"), None);
    assert_eq!(parse_hotkey("Ctrl+F25"), None);
    assert_eq!(parse_hotkey("Ctrl+F0"), None);
    assert_eq!(parse_hotkey("Ctrl+MediaPlayPause"), None);
    assert_eq!(parse_hotkey("Ctrl+Shift"), None);
    assert_eq!(parse_hotkey("Ctrl+"), None);
    assert_eq!(parse_hotkey("Ctrl+AB"), None);
    assert_eq!(parse_hotkey(""), None);
}

#[test]
fn last_main_key_wins() {
    assert_eq!(parse_hotkey("F1+Ctrl+F2"), Some((MOD_CONTROL, 0x71)));
}

#[test]
fn media_actions() {
    assert_eq!(media_action(0xB3), MediaAction::PlayPause);
    assert_eq!(media_action(0xB0), MediaAction::Next);
    assert_eq!(media_action(0xB1), MediaAction::Prev);
    assert_eq!(media_action(0x01), MediaAction::Prev);
    assert_eq!(action_name(MediaAction::PlayPause), "play_pause");
    assert_eq!(action_name(MediaAction::Next), "next");
    assert_eq!(action_name(MediaAction::Prev), "prev");
}

#[test]
fn hotkey_fires_once_per_press() {
    let actions = vec![HookAction { mods: MOD_CONTROL, vk: 0x74, media_vk: 0xB3 }];
    let mut armed = ArmedKeys::new();
    assert_eq!(
        hook_event(&mut armed, &actions, HC_ACTION, WM_KEYDOWN, 0x74, MOD_CONTROL),
        HookOutcome::Fire(MediaAction::PlayPause)
    );
    assert!(armed.contains(0x74));
    assert_eq!(
        hook_event(&mut armed, &actions, HC_ACTION, WM_KEYDOWN, 0x74, MOD_CONTROL),
        HookOutcome::Swallow
    );
    assert_eq!(
        hook_event(&mut armed, &actions, HC_ACTION, WM_KEYUP, 0x74, MOD_CONTROL),
        HookOutcome::PassOn
    );
    assert!(!armed.contains(0x74));
    assert_eq!(
        hook_event(&mut armed, &actions, HC_ACTION, WM_SYSKEYDOWN, 0x74, MOD_CONTROL),
        HookOutcome::Fire(MediaAction::PlayPause)
    );
    assert_eq!(
        hook_event(&mut armed, &actions, HC_ACTION, WM_SYSKEYUP, 0x74, 0),
        HookOutcome::PassOn
    );
}

#[test]
fn hook_passes_other_events_on() {
    let actions = vec![HookAction { mods: MOD_CONTROL, vk: 0x74, media_vk: 0xB0 }];
    let mut armed = ArmedKeys::new();
    assert_eq!(hook_event(&mut armed, &actions, 1, WM_KEYDOWN, 0x74, MOD_CONTROL), HookOutcome::PassOn);
    assert_eq!(hook_event(&mut armed, &actions, HC_ACTION, WM_KEYDOWN, 0x74, 0), HookOutcome::PassOn);
    assert_eq!(
        hook_event(&mut armed, &actions, HC_ACTION, WM_KEYDOWN, 0x75, MOD_CONTROL),
        HookOutcome::PassOn
    );
    assert_eq!(hook_event(&mut armed, &actions, HC_ACTION, 0x0200, 0x74, MOD_CONTROL), HookOutcome::PassOn);
    assert!(!armed.contains(0x74));
    assert_eq!(
        hook_event(&mut armed, &actions, HC_ACTION, WM_KEYDOWN, 0x74, MOD_CONTROL),
        HookOutcome::Fire(MediaAction::Next)
    );
}

#[test]
fn armed_keys_set() {
    let mut a = ArmedKeys::new();
    a.insert(5);
    a.insert(5);
    a.insert(6);
    assert!(a.contains(5) && a.contains(6));
    a.remove(5);
    assert!(!a.contains(5));
    a.clear();
    assert!(!a.contains(6));
}

#[test]
fn actions_from_settings() {
    let hk = HotkeyConfig {
        play_pause: Some("Ctrl+F5".to_string()),
        next_track: Some("A".to_string()),
        prev_track: Some("Alt+Left".to_string()),
    };
    assert_eq!(
        hotkey_actions(&hk),
        vec![
            HookAction { mods: MOD_CONTROL, vk: 0x74, media_vk: 0xB3 },
            HookAction { mods: MOD_ALT, vk: 0x25, media_vk: 0xB1 },
        ]
    );
    let none = HotkeyConfig { play_pause: None, next_track: None, prev_track: None };
    assert_eq!(hotkey_actions(&none), vec![]);
}

#[test]
fn hotkeys_ignore_case() {
    assert_eq!(parse_hotkey("ctrl+f5"), Some((MOD_CONTROL, 0x74)));
    assert_eq!(parse_hotkey("CTRL+F5"), Some((MOD_CONTROL, 0x74)));
    assert_eq!(parse_hotkey("sHiFt+PAGEDOWN"), parse_hotkey("Shift+PageDown"));
    assert_eq!(parse_hotkey("a"), parse_hotkey("A"));
}

#[test]
fn hotkeys_ignore_part_order() {
    assert_eq!(parse_hotkey("F5+Ctrl"), parse_hotkey("Ctrl+F5"));
    assert_eq!(parse_hotkey("a+ctrl+shift"), Some((MOD_CONTROL | MOD_SHIFT, 0x41)));
    assert_eq!(parse_hotkey("shift+ctrl+a"), Some((MOD_CONTROL | MOD_SHIFT, 0x41)));
    assert_eq!(parse_hotkey("Space+Win+Alt"), parse_hotkey("Alt+Win+Space"));
}
