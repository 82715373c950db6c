//! Global keyboard shortcuts: which shortcuts are allowed, how they are
//! shown, and how changing one keeps the registered shortcuts, the saved
//! setting and the runtime state in step.

use vstd::prelude::*;
use global_hotkey::hotkey::HotKey;
use crate::text::{has_prefix, owned, push_str, starts_with, str_eq, string_from_range, chars_of, trim, trimmed};

verus! {

/// `global_hotkey::hotkey::HotKey`, carried through as an opaque value.
#[verifier::external_type_specification]
#[verifier::external_body]
pub struct ExHotKey(global_hotkey::hotkey::HotKey);

/// Modifier bits of `keyboard_types::Modifiers`.
pub const MOD_ALT: u32 = 0x1;
pub const MOD_CONTROL: u32 = 0x8;
pub const MOD_SHIFT: u32 = 0x200;
pub const MOD_SUPER: u32 = 0x2000;

/// Parses a shortcut with `global_hotkey`'s `HotKey::from_str` and returns
/// it with its modifier bits (`Modifiers::bits`) and the name of its key
/// (the `Display` text of `Code`, such as `KeyJ` or `F12`). Nothing is
/// stated: which words are read as modifiers depends on the platform
/// (`CmdOrCtrl` is Super on macOS, Control elsewhere).
#[verifier::external_body]
pub(crate) fn parse_hotkey(text: &str) -> (r: Option<(HotKey, u32, String)>) {
    match text.parse::<HotKey>() {
        Ok(hotkey) => Some((hotkey, hotkey.mods.bits(), hotkey.key.to_string())),
        Err(_) => None,
    }
}

/// Keys that a global shortcut may not use.
pub open spec fn is_reserved_key(key: Seq<char>) -> bool {
    key == "Escape"@ || key == "Enter"@ || key == "Tab"@ || key == "Space"@
}

/// Shortcuts that the system or every editor already uses.
pub open spec fn is_blocked_combination(mods: u32, key: Seq<char>) -> bool {
    ||| mods == MOD_ALT && key == "F4"@
    ||| mods == MOD_CONTROL && (key == "KeyC"@ || key == "KeyV"@ || key == "KeyX"@ || key == "KeyS"@ || key == "KeyP"@)
    ||| mods == (MOD_CONTROL | MOD_ALT) && key == "Delete"@
}

/// Why a parsed shortcut is refused, if it is.
pub open spec fn shortcut_error(mods: u32, key: Seq<char>) -> Option<Seq<char>> {
    if mods & MOD_SUPER != 0 {
        Some("Win-key shortcuts are not supported."@)
    } else if mods & (MOD_CONTROL | MOD_ALT | MOD_SHIFT) == 0 {
        Some("Use at least one modifier: Ctrl, Alt, or Shift."@)
    } else if is_reserved_key(key) {
        Some("That key is reserved and cannot be used as a global shortcut."@)
    } else if is_blocked_combination(mods, key) {
        Some("That common system or editing shortcut is blocked."@)
    } else {
        None
    }
}

/// The key as a shortcut shows it: `KeyJ` as `J`, `Digit9` as `9`.
pub open spec fn display_key(key: Seq<char>) -> Seq<char> {
    if has_prefix(key, "Key"@) {
        key.skip(3)
    } else if has_prefix(key, "Digit"@) {
        key.skip(5)
    } else {
        key
    }
}

/// How a shortcut is shown: `Ctrl`, `Alt` and `Shift` as held, then the
/// key, joined by `+`.
pub open spec fn display_text(mods: u32, key: Seq<char>) -> Seq<char> {
    (if mods & MOD_CONTROL != 0 { "Ctrl+"@ } else { Seq::empty() }) + (if mods & MOD_ALT != 0 {
        "Alt+"@
    } else {
        Seq::empty()
    }) + (if mods & MOD_SHIFT != 0 { "Shift+"@ } else { Seq::empty() }) + display_key(key)
}

/// The text after `n` leading characters.
fn suffix_after(s: &str, n: usize) -> (r: String)
    requires
        n <= s@.len(),
    ensures
        r@ == s@.skip(n as int),
{
    let v = chars_of(s);
    let r = string_from_range(&v, n, v.len());
    assert(s@.subrange(n as int, s@.len() as int) == s@.skip(n as int));
    r
}

/// Shows a shortcut given its modifier bits and key name.
pub fn display_shortcut(mods: u32, key: &str) -> (r: String)
    ensures
        r@ == display_text(mods, key@),
{
    let mut out = String::new();
    if mods & MOD_CONTROL != 0 {
        push_str(&mut out, "Ctrl+");
    }
    if mods & MOD_ALT != 0 {
        push_str(&mut out, "Alt+");
    }
    if mods & MOD_SHIFT != 0 {
        push_str(&mut out, "Shift+");
    }
    proof {
        reveal_strlit("Key");
        reveal_strlit("Digit");
    }
    let shown = if starts_with(key, "Key") {
        suffix_after(key, 3)
    } else if starts_with(key, "Digit") {
        suffix_after(key, 5)
    } else {
        owned(key)
    };
    push_str(&mut out, shown.as_str());
    assert(out@ =~= display_text(mods, key@));
    out
}

/// Checks a parsed shortcut and returns how it is shown.
pub fn check_shortcut(mods: u32, key: &str) -> (r: Result<String, String>)
    ensures
        r is Err <==> shortcut_error(mods, key@) is Some,
        r matches Err(e) ==> Some(e@) == shortcut_error(mods, key@),
        r matches Ok(d) ==> d@ == display_text(mods, key@),
{
    if mods & MOD_SUPER != 0 {
        return Err(owned("Win-key shortcuts are not supported."));
    }
    if mods & (MOD_CONTROL | MOD_ALT | MOD_SHIFT) == 0 {
        return Err(owned("Use at least one modifier: Ctrl, Alt, or Shift."));
    }
    if str_eq(key, "Escape") || str_eq(key, "Enter") || str_eq(key, "Tab") || str_eq(key, "Space") {
        return Err(owned("That key is reserved and cannot be used as a global shortcut."));
    }
    if (mods == MOD_ALT && str_eq(key, "F4")) || (mods == MOD_CONTROL && (str_eq(key, "KeyC") || str_eq(key, "KeyV")
        || str_eq(key, "KeyX") || str_eq(key, "KeyS") || str_eq(key, "KeyP"))) || (mods == (MOD_CONTROL | MOD_ALT)
        && str_eq(key, "Delete")) {
        return Err(owned("That common system or editing shortcut is blocked."));
    }
    Ok(display_shortcut(mods, key))
}

/// Validates a typed shortcut and returns it with how it is shown. Blank
/// input and text the hotkey parser rejects are refused; otherwise the
/// parsed modifiers and key decide (`check_shortcut`).
pub fn validate_shortcut(value: &str) -> (r: Result<(HotKey, String), String>)
    ensures
        trimmed(value@).len() == 0 ==> (r matches Err(e) && e@ == "Enter a shortcut or use Clear."@),
        r is Ok ==> exists|mods: u32, key: Seq<char>|
            shortcut_error(mods, key) is None && r->Ok_0.1@ == display_text(mods, key),
        r is Err && trimmed(value@).len() > 0 ==> (r->Err_0@ == "Use a shortcut such as Ctrl+Shift+J."@ || exists|
            mods: u32,
            key: Seq<char>,
        | shortcut_error(mods, key) == Some(r->Err_0@)),
{
    let t = trim(value);
    if t.as_str().unicode_len() == 0 {
        return Err(owned("Enter a shortcut or use Clear."));
    }
    validate_parsed(parse_hotkey(t.as_str()))
}

/// Judges what the hotkey parser made of a shortcut: text it refused is
/// refused with an example; a parsed shortcut (its hotkey, modifier bits
/// and key name) is accepted exactly when the shortcut rules allow those
/// modifiers and key, and is then shown as `display_text` of them.
pub fn validate_parsed(parsed: Option<(HotKey, u32, String)>) -> (r: Result<(HotKey, String), String>)
    ensures
        parsed is None ==> (r matches Err(e) && e@ == "Use a shortcut such as Ctrl+Shift+J."@),
        parsed matches Some((hotkey, mods, key)) ==> match shortcut_error(mods, key@) {
            Some(message) => r matches Err(e) && e@ == message,
            None => r matches Ok((h, d)) && h == hotkey && d@ == display_text(mods, key@),
        },
{
    match parsed {
        None => Err(owned("Use a shortcut such as Ctrl+Shift+J.")),
        Some((hotkey, mods, key)) => match check_shortcut(mods, key.as_str()) {
            Ok(display) => Ok((hotkey, display)),
            Err(e) => Err(e),
        },
    }
}

/// The shortcut rules, over every modifier set and key: the Windows key
/// is never allowed; at least one of Ctrl, Alt and Shift is needed; the
/// reserved keys (Escape, Enter, Tab, Space) are refused; of the rest only
/// Alt+F4, Ctrl+C/V/X/S/P and Ctrl+Alt+Delete are blocked. So Ctrl+Alt
/// with any other ordinary key is allowed and shown as `Ctrl+Alt+` and
/// the key.
pub proof fn lemma_shortcut_rules(mods: u32, key: Seq<char>)
    ensures
        mods & MOD_SUPER != 0 ==> shortcut_error(mods, key) is Some,
        mods & (MOD_CONTROL | MOD_ALT | MOD_SHIFT) == 0 ==> shortcut_error(mods, key) is Some,
        is_reserved_key(key) ==> shortcut_error(mods, key) is Some,
        mods & MOD_SUPER == 0 && mods & (MOD_CONTROL | MOD_ALT | MOD_SHIFT) != 0 && !is_reserved_key(key)
            && !is_blocked_combination(mods, key) ==> shortcut_error(mods, key) is None,
        mods == (MOD_CONTROL | MOD_ALT) && !is_reserved_key(key) && key != "Delete"@ ==> shortcut_error(mods, key) is None
            && display_text(mods, key) == "Ctrl+"@ + "Alt+"@ + display_key(key),
{
    if mods == (MOD_CONTROL | MOD_ALT) {
        assert(mods & MOD_SUPER == 0) by (bit_vector)
            requires
                mods == (0x8u32 | 0x1u32),
        ;
        assert(mods & (MOD_CONTROL | MOD_ALT | MOD_SHIFT) != 0) by (bit_vector)
            requires
                mods == (0x8u32 | 0x1u32),
        ;
        assert(mods & MOD_CONTROL != 0) by (bit_vector)
            requires
                mods == (0x8u32 | 0x1u32),
        ;
        assert(mods & MOD_ALT != 0) by (bit_vector)
            requires
                mods == (0x8u32 | 0x1u32),
        ;
        assert(mods & MOD_SHIFT == 0) by (bit_vector)
            requires
                mods == (0x8u32 | 0x1u32),
        ;
        assert(mods != MOD_ALT && mods != MOD_CONTROL) by (bit_vector)
            requires
                mods == (0x8u32 | 0x1u32),
        ;
        assert(("Ctrl+"@ + "Alt+"@ + Seq::<char>::empty()) =~= "Ctrl+"@ + "Alt+"@);
    }
}

/// The two configurable shortcuts.
#[derive(Debug, Clone, Copy, PartialEq, Eq, Structural)]
pub enum KeybindAction {
    ShowFocus,
    ToggleVisibility,
}

/// The registered shortcuts of this run, whether each is active, and the
/// warnings shown with them.
#[derive(Debug)]
pub struct RuntimeKeybinds {
    pub show_focus: Option<HotKey>,
    pub toggle_visibility: Option<HotKey>,
    pub show_active: bool,
    pub toggle_active: bool,
    pub warnings: Vec<String>,
}

/// What the settings screen shows about the shortcuts.
#[derive(Debug)]
pub struct KeybindSettingsView {
    pub show_focus_keybind: Option<String>,
    pub toggle_visibility_keybind: Option<String>,
    pub show_focus_active: bool,
    pub toggle_visibility_active: bool,
    pub warnings: Vec<String>,
}

/// The shortcut and active flag of one action.
pub open spec fn slot(runtime: RuntimeKeybinds, action: KeybindAction) -> (Option<HotKey>, bool) {
    match action {
        KeybindAction::ShowFocus => (runtime.show_focus, runtime.show_active),
        KeybindAction::ToggleVisibility => (runtime.toggle_visibility, runtime.toggle_active),
    }
}

/// The other action.
pub open spec fn other(action: KeybindAction) -> KeybindAction {
    match action {
        KeybindAction::ShowFocus => KeybindAction::ToggleVisibility,
        KeybindAction::ToggleVisibility => KeybindAction::ShowFocus,
    }
}

/// No shortcut registered, none active, no warnings.
pub fn empty_runtime() -> (r: RuntimeKeybinds)
    ensures
        slot(r, KeybindAction::ShowFocus) == (None::<HotKey>, false),
        slot(r, KeybindAction::ToggleVisibility) == (None::<HotKey>, false),
        r.warnings@.len() == 0,
{
    RuntimeKeybinds { show_focus: None, toggle_visibility: None, show_active: false, toggle_active: false, warnings: Vec::new() }
}

/// Forgets the shortcuts of this run (after a wipe).
pub fn clear_runtime(runtime: &mut RuntimeKeybinds)
    ensures
        slot(*final(runtime), KeybindAction::ShowFocus) == (None::<HotKey>, false),
        slot(*final(runtime), KeybindAction::ToggleVisibility) == (None::<HotKey>, false),
        final(runtime).warnings@.len() == 0,
{
    *runtime = empty_runtime();
}

pub fn runtime_for(runtime: &RuntimeKeybinds, action: KeybindAction) -> (r: (Option<HotKey>, bool))
    ensures
        r == slot(*runtime, action),
{
    match action {
        KeybindAction::ShowFocus => (runtime.show_focus, runtime.show_active),
        KeybindAction::ToggleVisibility => (runtime.toggle_visibility, runtime.toggle_active),
    }
}

pub fn set_runtime(runtime: &mut RuntimeKeybinds, action: KeybindAction, shortcut: Option<HotKey>, active: bool)
    ensures
        slot(*final(runtime), action) == (shortcut, active),
        slot(*final(runtime), other(action)) == slot(*old(runtime), other(action)),
        final(runtime).warnings == old(runtime).warnings,
{
    match action {
        KeybindAction::ShowFocus => {
            runtime.show_focus = shortcut;
            runtime.show_active = active;
        },
        KeybindAction::ToggleVisibility => {
            runtime.toggle_visibility = shortcut;
            runtime.toggle_active = active;
        },
    }
}

/// Registers and unregisters global shortcuts with the system.
pub trait ShortcutRegistrar {
    fn register(&self, shortcut: HotKey) -> Result<(), ()>;

    fn unregister(&self, shortcut: HotKey) -> Result<(), ()>;
}

/// The warning when a previous shortcut could not be registered again.
pub open spec fn restore_warning() -> Seq<char> {
    "A previous shortcut could not be restored and is currently inactive."@
}

/// Puts an action's previous shortcut back, registering it again when it
/// was active; when that fails it stays inactive and a warning is added.
pub fn restore_old<R: ShortcutRegistrar>(
    registrar: &R,
    runtime: &mut RuntimeKeybinds,
    action: KeybindAction,
    old_shortcut: Option<HotKey>,
    was_active: bool,
)
    ensures
        slot(*final(runtime), action).0 == old_shortcut,
        slot(*final(runtime), action).1 ==> was_active && old_shortcut is Some,
        slot(*final(runtime), other(action)) == slot(*old(runtime), other(action)),
        was_active && !slot(*final(runtime), action).1 ==> final(runtime).warnings@.len() == old(runtime).warnings@.len() + 1
            && final(runtime).warnings@.take(old(runtime).warnings@.len() as int) == old(runtime).warnings@
            && final(runtime).warnings@.last()@ == restore_warning(),
        !(was_active && !slot(*final(runtime), action).1) ==> final(runtime).warnings@ == old(runtime).warnings@,
{
    let restored = if was_active {
        match old_shortcut {
            Some(shortcut) => registrar.register(shortcut).is_ok(),
            None => false,
        }
    } else {
        false
    };
    set_runtime(runtime, action, old_shortcut, restored);
    if was_active && !restored {
        let ghost before = runtime.warnings@;
        runtime.warnings.push(owned("A previous shortcut could not be restored and is currently inactive."));
        assert(runtime.warnings@.take(before.len() as int) == before);
    }
}

/// The warnings that do not start with `prefix`, in order.
pub open spec fn warnings_without(warnings: Seq<String>, prefix: Seq<char>) -> Seq<String>
    decreases warnings.len(),
{
    if warnings.len() == 0 {
        Seq::empty()
    } else {
        let prev = warnings_without(warnings.drop_last(), prefix);
        if has_prefix(warnings.last()@, prefix) {
            prev
        } else {
            prev.push(warnings.last())
        }
    }
}

/// Drops the warnings that start with `prefix`.
pub fn drop_warnings(warnings: &Vec<String>, prefix: &str) -> (r: Vec<String>)
    ensures
        r@ == warnings_without(warnings@, prefix@),
{
    let mut out: Vec<String> = Vec::new();
    let mut k: usize = 0;
    while k < warnings.len()
        invariant
            k <= warnings@.len(),
            out@ == warnings_without(warnings@.take(k as int), prefix@),
        decreases warnings@.len() - k,
    {
        assert(warnings@.take(k + 1).drop_last() == warnings@.take(k as int));
        assert(warnings@.take(k + 1).last() == warnings@[k as int]);
        if !starts_with(warnings[k].as_str(), prefix) {
            out.push(warnings[k].clone());
        }
        k = k + 1;
    }
    assert(warnings@.take(k as int) == warnings@);
    out
}

/// The prefix of the warnings that belong to an action.
pub open spec fn warning_prefix(action: KeybindAction) -> Seq<char> {
    match action {
        KeybindAction::ShowFocus => "Show/focus keybind:"@,
        KeybindAction::ToggleVisibility => "Toggle keybind:"@,
    }
}

/// The saved shortcut texts of (show/focus, toggle), as the settings
/// table holds them.
pub open spec fn saved_for(settings: (Option<String>, Option<String>), action: KeybindAction) -> Option<String> {
    match action {
        KeybindAction::ShowFocus => settings.0,
        KeybindAction::ToggleVisibility => settings.1,
    }
}

/// The error texts of a keybind change.
pub open spec fn blank_error() -> Seq<char> {
    "Enter a shortcut or use Clear."@
}

pub open spec fn other_assigned_error() -> Seq<char> {
    "That shortcut is already assigned to the other keybind."@
}

pub open spec fn unregister_error() -> Seq<char> {
    "The previous shortcut could not be unregistered."@
}

pub open spec fn register_error() -> Seq<char> {
    "The shortcut is invalid, unavailable, or already used by another application."@
}

pub open spec fn save_error() -> Seq<char> {
    "The shortcut could not be saved; the previous shortcut was restored where possible."@
}

/// `r` is an error with this text.
pub open spec fn is_err_with(r: Result<(), String>, message: Seq<char>) -> bool {
    r matches Err(e) && e@ == message
}

/// A text that `validate_shortcut` refuses a non-blank shortcut with.
pub open spec fn refusal_text(e: Seq<char>) -> bool {
    e == "Use a shortcut such as Ctrl+Shift+J."@ || exists|mods: u32, key: Seq<char>| shortcut_error(mods, key) == Some(e)
}

/// How an accepted shortcut is shown.
pub open spec fn shown_valid(d: Seq<char>) -> bool {
    exists|mods: u32, key: Seq<char>| shortcut_error(mods, key) is None && d == display_text(mods, key)
}

/// The action's previous shortcut was put back (`restore_old`): active
/// again only when it was active and registering it again succeeded, with
/// the restore warning added when it was active and now is not.
pub open spec fn restored(before: RuntimeKeybinds, after: RuntimeKeybinds, action: KeybindAction) -> bool {
    &&& slot(after, action).0 == slot(before, action).0
    &&& slot(after, action).1 ==> slot(before, action).1 && slot(before, action).0 is Some
    &&& slot(after, other(action)) == slot(before, other(action))
    &&& if slot(before, action).1 && !slot(after, action).1 {
        &&& after.warnings@.len() == before.warnings@.len() + 1
        &&& after.warnings@.take(before.warnings@.len() as int) == before.warnings@
        &&& after.warnings@.last()@ == restore_warning()
    } else {
        after.warnings@ == before.warnings@
    }
}

/// The action now holds `shortcut`, active exactly when there is one, and
/// the action's warnings are gone.
pub open spec fn installed(before: RuntimeKeybinds, after: RuntimeKeybinds, action: KeybindAction, shortcut: Option<HotKey>) -> bool {
    &&& slot(after, action) == (shortcut, shortcut is Some)
    &&& slot(after, other(action)) == slot(before, other(action))
    &&& after.warnings@ == warnings_without(before.warnings@, warning_prefix(action))
}

/// How a change that passed the checks ends, for each answer of the
/// registrar and of `persist`: the old shortcut (when active) could not be
/// unregistered and nothing changed; or the new shortcut could not be
/// registered, or `persist` refused `display`, and the old shortcut was put
/// back; or `persist` accepted `display` and `shortcut` is installed.
pub open spec fn applied<F: FnOnce(Option<String>) -> bool>(
    before: RuntimeKeybinds,
    after: RuntimeKeybinds,
    action: KeybindAction,
    shortcut: Option<HotKey>,
    display: Option<String>,
    r: Result<(), String>,
    persist: F,
) -> bool {
    ||| (is_err_with(r, unregister_error()) && slot(before, action).1 && slot(before, action).0 is Some && after == before)
    ||| (shortcut is Some && is_err_with(r, register_error()) && restored(before, after, action))
    ||| (is_err_with(r, save_error()) && persist.ensures((display,), false) && restored(before, after, action))
    ||| (r is Ok && persist.ensures((display,), true) && installed(before, after, action, shortcut))
}

/// A change to the valid shortcut `shortcut`, shown as `display`: refused
/// when the other action has the same text, nothing to do when the action
/// already has it, else applied.
pub open spec fn changed_to<F: FnOnce(Option<String>) -> bool>(
    before: RuntimeKeybinds,
    after: RuntimeKeybinds,
    action: KeybindAction,
    settings: (Option<String>, Option<String>),
    shortcut: HotKey,
    display: String,
    r: Result<(), String>,
    persist: F,
) -> bool {
    &&& shown_valid(display@)
    &&& if saved_for(settings, other(action)) is Some && saved_for(settings, other(action))->0@ == display@ {
        is_err_with(r, other_assigned_error()) && after == before
    } else if saved_for(settings, action) is Some && saved_for(settings, action)->0@ == display@ {
        r is Ok && after == before
    } else {
        applied(before, after, action, Some(shortcut), Some(display), r, persist)
    }
}

/// Which call of a keybind change can fail.
#[derive(Debug, Clone, Copy, PartialEq, Eq, Structural)]
pub enum KeybindCall {
    /// Unregistering the previous shortcut.
    Unregister,
    /// Registering the new shortcut.
    Register,
    /// Saving the new text.
    Persist,
}

/// What a keybind change reports when a call fails, and whether the
/// previous shortcut is then put back: not after a failed unregister
/// (nothing was changed yet), and after a failed register or save.
pub fn keybind_call_failed(call: KeybindCall) -> (r: (String, bool))
    ensures
        call == KeybindCall::Unregister ==> r.0@ == unregister_error() && !r.1,
        call == KeybindCall::Register ==> r.0@ == register_error() && r.1,
        call == KeybindCall::Persist ==> r.0@ == save_error() && r.1,
{
    match call {
        KeybindCall::Unregister => (owned("The previous shortcut could not be unregistered."), false),
        KeybindCall::Register => (
            owned("The shortcut is invalid, unavailable, or already used by another application."),
            true,
        ),
        KeybindCall::Persist => (
            owned("The shortcut could not be saved; the previous shortcut was restored where possible."),
            true,
        ),
    }
}

/// Carries out a change that passed the checks: unregisters the active
/// old shortcut, registers `shortcut`, saves `display` with `persist`, and
/// installs the new shortcut; a failed call is reported and, after the old
/// shortcut was unregistered, the old shortcut is put back.
pub fn apply_keybind_change<R: ShortcutRegistrar, F: FnOnce(Option<String>) -> bool>(
    registrar: &R,
    runtime: &mut RuntimeKeybinds,
    action: KeybindAction,
    shortcut: Option<HotKey>,
    display: Option<String>,
    persist: F,
) -> (r: Result<(), String>)
    requires
        forall|v: Option<String>| persist.requires((v,)),
    ensures
        applied(*old(runtime), *final(runtime), action, shortcut, display, r, persist),
{
    let ghost before = *runtime;
    let (old_shortcut, old_active) = runtime_for(runtime, action);
    if old_active {
        match old_shortcut {
            Some(old) => {
                if registrar.unregister(old).is_err() {
                    let (message, _) = keybind_call_failed(KeybindCall::Unregister);
                    return Err(message);
                }
            },
            None => {},
        }
    }
    match &shortcut {
        Some(new_shortcut) => {
            if registrar.register(*new_shortcut).is_err() {
                let (message, _) = keybind_call_failed(KeybindCall::Register);
                restore_old(registrar, runtime, action, old_shortcut, old_active);
                return Err(message);
            }
        },
        None => {},
    }
    let ghost given = display;
    let saved = persist(display.clone());
    if !saved {
        match shortcut {
            Some(new_shortcut) => {
                let _ = registrar.unregister(new_shortcut);
            },
            None => {},
        }
        let (message, _) = keybind_call_failed(KeybindCall::Persist);
        restore_old(registrar, runtime, action, old_shortcut, old_active);
        return Err(message);
    }
    let active = shortcut.is_some();
    set_runtime(runtime, action, shortcut, active);
    let prefix = match action {
        KeybindAction::ShowFocus => "Show/focus keybind:",
        KeybindAction::ToggleVisibility => "Toggle keybind:",
    };
    let kept = drop_warnings(&runtime.warnings, prefix);
    runtime.warnings = kept;
    Ok(())
}

/// Changes (or, with `None`, clears) the shortcut of an action. A blank
/// text is refused; a text the shortcut rules refuse is refused with their
/// message; a shortcut the other action already has is refused; the
/// shortcut the action already has (or clearing when nothing is saved)
/// changes nothing. Otherwise the change is applied
/// (`apply_keybind_change`): `persist` is given the new text, and when a
/// call fails the previous shortcut is put back where possible.
pub fn set_keybind_with_registrar<R: ShortcutRegistrar, F: FnOnce(Option<String>) -> bool>(
    registrar: &R,
    settings: (Option<String>, Option<String>),
    runtime: &mut RuntimeKeybinds,
    action: KeybindAction,
    value: Option<String>,
    persist: F,
) -> (r: Result<(), String>)
    requires
        forall|v: Option<String>| persist.requires((v,)),
    ensures
        slot(*final(runtime), other(action)) == slot(*old(runtime), other(action)),
        value is Some && trimmed(value->0@).len() == 0 ==> is_err_with(r, blank_error()) && *final(runtime) == *old(
            runtime,
        ),
        value is Some && trimmed(value->0@).len() > 0 ==> {
            ||| (r matches Err(e) && refusal_text(e@) && *final(runtime) == *old(runtime))
            ||| exists|shortcut: HotKey, display: String|
                #[trigger] changed_to(*old(runtime), *final(runtime), action, settings, shortcut, display, r, persist)
        },
        value is None && saved_for(settings, action) is None ==> r is Ok && *final(runtime) == *old(runtime),
        value is None && saved_for(settings, action) is Some ==> applied(
            *old(runtime),
            *final(runtime),
            action,
            None,
            None,
            r,
            persist,
        ),
{
    let ghost before = *runtime;
    let (shortcut, display) = match value {
        Some(v) => match validate_shortcut(v.as_str()) {
            Ok((shortcut, display)) => (Some(shortcut), Some(display)),
            Err(e) => {
                return Err(e);
            },
        },
        None => (None, None),
    };
    let (old_display, other_display) = match action {
        KeybindAction::ShowFocus => (settings.0, settings.1),
        KeybindAction::ToggleVisibility => (settings.1, settings.0),
    };
    match (&display, &other_display) {
        (Some(d), Some(other)) => {
            if str_eq(d.as_str(), other.as_str()) {
                let r = Err(owned("That shortcut is already assigned to the other keybind."));
                assert(changed_to(before, *runtime, action, settings, shortcut->0, display->0, r, persist));
                return r;
            }
        },
        _ => {},
    }
    let unchanged = match (&display, &old_display) {
        (Some(d), Some(old)) => str_eq(d.as_str(), old.as_str()),
        (None, None) => true,
        _ => false,
    };
    if unchanged {
        let r = Ok(());
        proof {
            if display is Some {
                assert(changed_to(before, *runtime, action, settings, shortcut->0, display->0, r, persist));
            }
        }
        return r;
    }
    let ghost parsed = (shortcut, display);
    let r = apply_keybind_change(registrar, runtime, action, shortcut, display, persist);
    proof {
        if parsed.1 is Some {
            assert(changed_to(before, *runtime, action, settings, parsed.0->0, parsed.1->0, r, persist));
        }
    }
    r
}

/// The warning shown at startup when a saved shortcut cannot be used.
pub fn startup_warning(action: KeybindAction, message: &str) -> (r: String)
    ensures
        r@ == (match action {
            KeybindAction::ShowFocus => "Show/focus"@,
            KeybindAction::ToggleVisibility => "Toggle"@,
        }) + " keybind: "@ + message@,
{
    let mut w = match action {
        KeybindAction::ShowFocus => owned("Show/focus"),
        KeybindAction::ToggleVisibility => owned("Toggle"),
    };
    push_str(&mut w, " keybind: ");
    push_str(&mut w, message);
    w
}

/// What the settings screen shows: the saved texts, and from this run
/// which shortcuts are active and the warnings.
pub fn settings_view(settings: (Option<String>, Option<String>), runtime: &RuntimeKeybinds) -> (r: KeybindSettingsView)
    ensures
        r.show_focus_keybind == settings.0,
        r.toggle_visibility_keybind == settings.1,
        r.show_focus_active == runtime.show_active,
        r.toggle_visibility_active == runtime.toggle_active,
        r.warnings@ == runtime.warnings@,
{
    KeybindSettingsView {
        show_focus_keybind: settings.0,
        toggle_visibility_keybind: settings.1,
        show_focus_active: runtime.show_active,
        toggle_visibility_active: runtime.toggle_active,
        warnings: runtime.warnings.clone(),
    }
}

/// The startup warning of an action with this message.
pub open spec fn startup_warning_text(action: KeybindAction, message: Seq<char>) -> Seq<char> {
    (match action {
        KeybindAction::ShowFocus => "Show/focus"@,
        KeybindAction::ToggleVisibility => "Toggle"@,
    }) + " keybind: "@ + message
}

/// The action was left as it was and the startup warning with this message
/// was added after the existing ones.
pub open spec fn warned(before: RuntimeKeybinds, after: RuntimeKeybinds, action: KeybindAction, message: Seq<char>) -> bool {
    &&& slot(after, action) == slot(before, action)
    &&& after.warnings@.len() == before.warnings@.len() + 1
    &&& after.warnings@.take(before.warnings@.len() as int) == before.warnings@
    &&& after.warnings@.last()@ == startup_warning_text(action, message)
}

/// What registering one saved shortcut at startup does: nothing without a
/// saved text; a blank text is invalid; otherwise the shortcut becomes
/// active with the warnings unchanged, or the action stays as it was with
/// an "invalid" or "could not be registered" warning added. The other
/// action is never touched.
pub open spec fn started(before: RuntimeKeybinds, after: RuntimeKeybinds, action: KeybindAction, saved: Option<String>) -> bool {
    &&& slot(after, other(action)) == slot(before, other(action))
    &&& match saved {
        None => after == before,
        Some(text) => if trimmed(text@).len() == 0 {
            warned(before, after, action, "The saved shortcut is invalid."@)
        } else {
            ||| (slot(after, action).0 is Some && slot(after, action).1 && after.warnings == before.warnings)
            ||| warned(before, after, action, "The saved shortcut is invalid."@)
            ||| warned(before, after, action, "The saved shortcut could not be registered."@)
        },
    }
}

/// Registers one saved shortcut at startup. A saved text that no longer
/// validates, or a shortcut the system refuses, leaves the action as it
/// was and adds a warning; otherwise the shortcut becomes active.
pub fn start_keybind<R: ShortcutRegistrar>(
    registrar: &R,
    runtime: &mut RuntimeKeybinds,
    action: KeybindAction,
    saved: Option<String>,
)
    ensures
        started(*old(runtime), *final(runtime), action, saved),
{
    let ghost before = *runtime;
    let value = match saved {
        Some(v) => v,
        None => {
            return;
        },
    };
    let shortcut = match validate_shortcut(value.as_str()) {
        Ok((shortcut, _)) => shortcut,
        Err(_) => {
            runtime.warnings.push(startup_warning(action, "The saved shortcut is invalid."));
            assert(runtime.warnings@.take(before.warnings@.len() as int) =~= before.warnings@);
            return;
        },
    };
    if registrar.register(shortcut).is_err() {
        runtime.warnings.push(startup_warning(action, "The saved shortcut could not be registered."));
        assert(runtime.warnings@.take(before.warnings@.len() as int) =~= before.warnings@);
        return;
    }
    set_runtime(runtime, action, Some(shortcut), true);
}

/// Registers the saved shortcuts at startup, show/focus first: each action
/// goes through `start_keybind` with its saved text.
pub fn initialize_keybinds<R: ShortcutRegistrar>(
    registrar: &R,
    settings: (Option<String>, Option<String>),
    runtime: &mut RuntimeKeybinds,
)
    ensures
        exists|mid: RuntimeKeybinds|
            started(*old(runtime), mid, KeybindAction::ShowFocus, settings.0) && #[trigger] started(
                mid,
                *final(runtime),
                KeybindAction::ToggleVisibility,
                settings.1,
            ),
        settings.0 is None && settings.1 is None ==> *final(runtime) == *old(runtime),
{
    start_keybind(registrar, runtime, KeybindAction::ShowFocus, settings.0);
    let ghost mid = *runtime;
    start_keybind(registrar, runtime, KeybindAction::ToggleVisibility, settings.1);
    assert(started(mid, *runtime, KeybindAction::ToggleVisibility, settings.1));
}

/// Which action a global shortcut event belongs to, given each action's
/// registered shortcut id and whether it is active: only a key press
/// counts, and show/focus is checked first.
pub fn pressed_action(show: (Option<u32>, bool), toggle: (Option<u32>, bool), id: u32, pressed: bool) -> (r: Option<
    KeybindAction,
>)
    ensures
        !pressed ==> r is None,
        pressed && show.1 && show.0 == Some(id) ==> r == Some(KeybindAction::ShowFocus),
        pressed && !(show.1 && show.0 == Some(id)) && toggle.1 && toggle.0 == Some(id) ==> r == Some(
            KeybindAction::ToggleVisibility,
        ),
        pressed && !(show.1 && show.0 == Some(id)) && !(toggle.1 && toggle.0 == Some(id)) ==> r is None,
{
    if !pressed {
        return None;
    }
    let matches_show = match show.0 {
        Some(s) => show.1 && s == id,
        None => false,
    };
    if matches_show {
        return Some(KeybindAction::ShowFocus);
    }
    let matches_toggle = match toggle.0 {
        Some(t) => toggle.1 && t == id,
        None => false,
    };
    if matches_toggle {
        Some(KeybindAction::ToggleVisibility)
    } else {
        None
    }
}

/// The warning when the saved shortcuts cannot be read at startup.
pub fn settings_unavailable_warning() -> (r: String)
    ensures
        r@ == "Keybind settings could not be loaded."@,
{
    owned("Keybind settings could not be loaded.")
}

} // verus!
