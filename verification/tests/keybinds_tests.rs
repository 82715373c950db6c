use gif_library::keybinds::{keybind_call_failed, pressed_action, KeybindCall};
use gif_library::keybinds::{
    check_shortcut, display_shortcut, empty_runtime, initialize_keybinds, runtime_for, set_keybind_with_registrar,
    settings_view, validate_shortcut, KeybindAction, ShortcutRegistrar, MOD_ALT, MOD_CONTROL, MOD_SHIFT,
};
use global_hotkey::hotkey::HotKey;
use std::cell::RefCell;

#[derive(Default)]
struct FakeRegistrar {
    registered: RefCell<Vec<HotKey>>,
    fail_register_id: RefCell<Option<u32>>,
}

impl ShortcutRegistrar for FakeRegistrar {
    fn register(&self, shortcut: HotKey) -> Result<(), ()> {
        if *self.fail_register_id.borrow() == Some(shortcut.id()) {
            return Err(());
        }
        if !self.registered.borrow().contains(&shortcut) {
            self.registered.borrow_mut().push(shortcut);
        }
        Ok(())
    }

    fn unregister(&self, shortcut: HotKey) -> Result<(), ()> {
        self.registered.borrow_mut().retain(|value| *value != shortcut);
        Ok(())
    }
}

type Settings = RefCell<(Option<String>, Option<String>)>;

fn set(
    registrar: &FakeRegistrar,
    settings: &Settings,
    runtime: &mut gif_library::keybinds::RuntimeKeybinds,
    action: KeybindAction,
    value: Option<String>,
    database_works: bool,
) -> Result<(), String> {
    let current = settings.borrow().clone();
    set_keybind_with_registrar(registrar, current, runtime, action, value, |saved: Option<String>| {
        if !database_works {
            return false;
        }
        let mut stored = settings.borrow_mut();
        match action {
            KeybindAction::ShowFocus => stored.0 = saved,
            KeybindAction::ToggleVisibility => stored.1 = saved,
        }
        true
    })
}

#[test]
fn validates_and_normalizes_shortcuts() {
    let (_, display) = validate_shortcut("ctrl + shift + KeyJ").unwrap();
    assert_eq!(display, "Ctrl+Shift+J");
    let (_, display) = validate_shortcut("Alt+9").unwrap();
    assert_eq!(display, "Alt+9");
    assert!(validate_shortcut("Alt+ArrowUp").is_ok());
    assert!(validate_shortcut("Ctrl+F12").is_ok());
}

#[test]
fn rejects_unmodified_reserved_and_system_shortcuts() {
    for value in [
        "J",
        "Escape",
        "Ctrl+C",
        "Ctrl+V",
        "Ctrl+X",
        "Ctrl+S",
        "Ctrl+P",
        "Alt+F4",
        "Ctrl+Alt+Delete",
        "Super+Shift+J",
    ] {
        assert!(validate_shortcut(value).is_err(), "{value} should be rejected");
    }
}

#[test]
fn shortcut_messages_and_display() {
    assert_eq!(validate_shortcut("  ").unwrap_err(), "Enter a shortcut or use Clear.");
    assert_eq!(validate_shortcut("Ctrl+Nonsense").unwrap_err(), "Use a shortcut such as Ctrl+Shift+J.");
    assert_eq!(check_shortcut(MOD_CONTROL, "Escape").unwrap_err(), "That key is reserved and cannot be used as a global shortcut.");
    assert_eq!(check_shortcut(0, "KeyA").unwrap_err(), "Use at least one modifier: Ctrl, Alt, or Shift.");
    assert_eq!(check_shortcut(MOD_CONTROL, "KeyS").unwrap_err(), "That common system or editing shortcut is blocked.");
    assert_eq!(check_shortcut(MOD_CONTROL | MOD_SHIFT, "KeyS").unwrap(), "Ctrl+Shift+S");
    assert_eq!(display_shortcut(MOD_CONTROL | MOD_ALT | MOD_SHIFT, "Digit0"), "Ctrl+Alt+Shift+0");
    assert_eq!(display_shortcut(MOD_ALT, "ArrowUp"), "Alt+ArrowUp");
}

#[test]
fn registration_failure_preserves_previous_setting_and_runtime() {
    let settings: Settings = RefCell::new((None, None));
    let mut runtime = empty_runtime();
    let registrar = FakeRegistrar::default();
    set(&registrar, &settings, &mut runtime, KeybindAction::ShowFocus, Some("Ctrl+Shift+J".into()), true).unwrap();
    let replacement = validate_shortcut("Ctrl+Shift+K").unwrap().0;
    *registrar.fail_register_id.borrow_mut() = Some(replacement.id());
    assert!(set(&registrar, &settings, &mut runtime, KeybindAction::ShowFocus, Some("Ctrl+Shift+K".into()), true).is_err());
    assert_eq!(settings.borrow().0.as_deref(), Some("Ctrl+Shift+J"));
    let (shortcut, active) = runtime_for(&runtime, KeybindAction::ShowFocus);
    assert!(active);
    assert_eq!(shortcut, Some(validate_shortcut("Ctrl+Shift+J").unwrap().0));
}

#[test]
fn clear_unregisters_and_persists_null() {
    let settings: Settings = RefCell::new((None, None));
    let mut runtime = empty_runtime();
    let registrar = FakeRegistrar::default();
    set(&registrar, &settings, &mut runtime, KeybindAction::ToggleVisibility, Some("Alt+Shift+T".into()), true).unwrap();
    set(&registrar, &settings, &mut runtime, KeybindAction::ToggleVisibility, None, true).unwrap();
    assert_eq!(settings.borrow().1, None);
    assert!(registrar.registered.borrow().is_empty());
}

#[test]
fn database_failure_restores_previous_runtime_shortcut() {
    let settings: Settings = RefCell::new((None, None));
    let mut runtime = empty_runtime();
    let registrar = FakeRegistrar::default();
    set(&registrar, &settings, &mut runtime, KeybindAction::ShowFocus, Some("Ctrl+Shift+J".into()), true).unwrap();
    assert!(set(&registrar, &settings, &mut runtime, KeybindAction::ShowFocus, Some("Ctrl+Shift+K".into()), false).is_err());
    let old = validate_shortcut("Ctrl+Shift+J").unwrap().0;
    assert_eq!(registrar.registered.borrow().as_slice(), &[old]);
    assert_eq!(runtime_for(&runtime, KeybindAction::ShowFocus), (Some(old), true));
}

#[test]
fn the_other_keybind_cannot_take_the_same_shortcut() {
    let settings: Settings = RefCell::new((None, None));
    let mut runtime = empty_runtime();
    let registrar = FakeRegistrar::default();
    set(&registrar, &settings, &mut runtime, KeybindAction::ShowFocus, Some("Ctrl+Shift+J".into()), true).unwrap();
    assert_eq!(
        set(&registrar, &settings, &mut runtime, KeybindAction::ToggleVisibility, Some("ctrl+shift+KeyJ".into()), true)
            .unwrap_err(),
        "That shortcut is already assigned to the other keybind."
    );
    assert_eq!(runtime_for(&runtime, KeybindAction::ToggleVisibility), (None, false));
}

#[test]
fn startup_registers_saved_shortcuts_and_warns_about_bad_ones() {
    let registrar = FakeRegistrar::default();
    let mut runtime = empty_runtime();
    initialize_keybinds(&registrar, (Some("Ctrl+Shift+J".into()), Some("Escape".into())), &mut runtime);
    assert!(runtime_for(&runtime, KeybindAction::ShowFocus).1);
    assert!(!runtime_for(&runtime, KeybindAction::ToggleVisibility).1);
    let view = settings_view((Some("Ctrl+Shift+J".into()), Some("Escape".into())), &runtime);
    assert_eq!(view.warnings, vec!["Toggle keybind: The saved shortcut is invalid.".to_string()]);
    assert!(view.show_focus_active);
}

#[test]
fn failed_keybind_calls_report_and_restore() {
    assert_eq!(
        keybind_call_failed(KeybindCall::Unregister),
        ("The previous shortcut could not be unregistered.".to_string(), false)
    );
    assert_eq!(
        keybind_call_failed(KeybindCall::Register),
        ("The shortcut is invalid, unavailable, or already used by another application.".to_string(), true)
    );
    assert_eq!(
        keybind_call_failed(KeybindCall::Persist),
        ("The shortcut could not be saved; the previous shortcut was restored where possible.".to_string(), true)
    );
}

#[test]
fn pressed_shortcuts_find_their_active_action() {
    assert_eq!(pressed_action((Some(7), true), (Some(9), true), 7, true), Some(KeybindAction::ShowFocus));
    assert_eq!(pressed_action((Some(7), true), (Some(9), true), 9, true), Some(KeybindAction::ToggleVisibility));
    assert_eq!(pressed_action((Some(7), false), (Some(9), true), 7, true), None);
    assert_eq!(pressed_action((Some(7), true), (Some(9), true), 7, false), None);
    assert_eq!(pressed_action((None, true), (None, true), 3, true), None);
}
