use vstd::prelude::*;

use crate::text::{
    chars_of, digit_value, has_prefix, is_digit, lower_chars, lower_text, parse_u32,
    parse_unsigned, same, seqs_of, slice_chars, split_at_char, split_of, starts_with, trim,
    trim_chars, upper_chars, upper_text,
};
use crate::types::HotkeyConfig;
use std::collections::HashSet;

verus! {

pub const MOD_ALT: u32 = 0x0001;

pub const MOD_CONTROL: u32 = 0x0002;

pub const MOD_SHIFT: u32 = 0x0004;

pub const MOD_WIN: u32 = 0x0008;

// ---------------------------------------------------------------------------
// Parsing key combinations such as "Ctrl+F5"
// ---------------------------------------------------------------------------

/// Modifier flags seen so far (alt, ctrl, shift, win) and the main key.
pub struct ComboState {
    pub alt: bool,
    pub ctrl: bool,
    pub shift: bool,
    pub win: bool,
    pub main_key: Option<Seq<char>>,
}

pub open spec fn combo_step(st: ComboState, part: Seq<char>) -> ComboState {
    let t = trim(part);
    let l = lower_text(t);
    if l == "ctrl"@ || l == "control"@ {
        ComboState { ctrl: true, ..st }
    } else if l == "shift"@ {
        ComboState { shift: true, ..st }
    } else if l == "alt"@ {
        ComboState { alt: true, ..st }
    } else if l == "win"@ || l == "meta"@ {
        ComboState { win: true, ..st }
    } else {
        ComboState { main_key: Some(t), ..st }
    }
}

pub open spec fn combo_upto(parts: Seq<Seq<char>>, n: nat) -> ComboState
    decreases n,
{
    if n == 0 || n > parts.len() {
        ComboState { alt: false, ctrl: false, shift: false, win: false, main_key: None }
    } else {
        combo_step(combo_upto(parts, (n - 1) as nat), parts[n - 1])
    }
}

pub open spec fn mods_of(st: ComboState) -> u32 {
    ((if st.alt {
        1u32
    } else {
        0u32
    }) + (if st.ctrl {
        2u32
    } else {
        0u32
    }) + (if st.shift {
        4u32
    } else {
        0u32
    }) + (if st.win {
        8u32
    } else {
        0u32
    })) as u32
}

/// Virtual-key codes of the keys known by name (upper case), 0 for others.
pub open spec fn named_key(u: Seq<char>) -> u16 {
    if u == "SPACE"@ {
        0x20
    } else if u == "BACKSPACE"@ {
        0x08
    } else if u == "TAB"@ {
        0x09
    } else if u == "ENTER"@ {
        0x0D
    } else if u == "ESC"@ || u == "ESCAPE"@ {
        0x1B
    } else if u == "HOME"@ {
        0x24
    } else if u == "END"@ {
        0x23
    } else if u == "PAGEUP"@ {
        0x21
    } else if u == "PAGEDOWN"@ {
        0x22
    } else if u == "INSERT"@ {
        0x2D
    } else if u == "DELETE"@ {
        0x2E
    } else if u == "UP"@ {
        0x26
    } else if u == "DOWN"@ {
        0x28
    } else if u == "LEFT"@ {
        0x25
    } else if u == "RIGHT"@ {
        0x27
    } else {
        0
    }
}

/// Virtual-key code of an upper-cased key name: the named keys, `F1`..`F24`,
/// a single digit or a single letter; 0 when none of these.
pub open spec fn key_code(u: Seq<char>) -> u16 {
    if named_key(u) != 0 {
        named_key(u)
    } else if u.len() > 0 && u[0] == 'F' && parse_unsigned(u.drop_first(), u32::MAX as nat) is Some {
        let n = parse_unsigned(u.drop_first(), u32::MAX as nat)->0;
        if 1 <= n <= 24 {
            (0x6F + n) as u16
        } else {
            0
        }
    } else if u.len() == 1 && is_digit(u[0]) {
        (0x30 + digit_value(u[0])) as u16
    } else if u.len() == 1 && 'A' <= u[0] && u[0] <= 'Z' {
        (u[0] as u32) as u16
    } else {
        0
    }
}

/// The modifiers and virtual-key code of a key combination written as
/// `+`-separated parts ("Ctrl+F5", "Shift+Alt+G", "F9", "Space"). `None` for
/// media keys, for unknown keys, and for a plain digit or letter without a
/// modifier (which would swallow normal typing).
pub open spec fn hotkey_spec(key: Seq<char>) -> Option<(u32, u16)> {
    let parts = split_of(key, '+');
    let st = combo_upto(parts, parts.len());
    let mods = mods_of(st);
    match st.main_key {
        None => None,
        Some(m) => if starts_with(m, "Media"@) {
            None
        } else {
            let vk = key_code(upper_text(m));
            if vk == 0 {
                None
            } else if mods == 0 && 0x30 <= vk <= 0x5A {
                None
            } else {
                Some((mods, vk))
            }
        },
    }
}

fn is_word(v: &Vec<char>, w: &str) -> (r: bool)
    ensures
        r == (v@ == w@),
{
    let c = chars_of(w);
    same(v, &c)
}

fn named_key_code(u: &Vec<char>) -> (r: u16)
    ensures
        r == named_key(u@),
{
    if is_word(u, "SPACE") {
        0x20
    } else if is_word(u, "BACKSPACE") {
        0x08
    } else if is_word(u, "TAB") {
        0x09
    } else if is_word(u, "ENTER") {
        0x0D
    } else if is_word(u, "ESC") || is_word(u, "ESCAPE") {
        0x1B
    } else if is_word(u, "HOME") {
        0x24
    } else if is_word(u, "END") {
        0x23
    } else if is_word(u, "PAGEUP") {
        0x21
    } else if is_word(u, "PAGEDOWN") {
        0x22
    } else if is_word(u, "INSERT") {
        0x2D
    } else if is_word(u, "DELETE") {
        0x2E
    } else if is_word(u, "UP") {
        0x26
    } else if is_word(u, "DOWN") {
        0x28
    } else if is_word(u, "LEFT") {
        0x25
    } else if is_word(u, "RIGHT") {
        0x27
    } else {
        0
    }
}

fn key_code_of(u: &Vec<char>) -> (r: u16)
    ensures
        r == key_code(u@),
{
    let named = named_key_code(u);
    if named != 0 {
        return named;
    }
    if u.len() > 0 && u[0] == 'F' {
        let rest = slice_chars(u, 1, u.len());
        assert(rest@ =~= u@.drop_first());
        match parse_u32(&rest) {
            Some(n) => {
                if 1 <= n && n <= 24 {
                    return (0x6F + n) as u16;
                } else {
                    return 0;
                }
            },
            None => {},
        }
    }
    if u.len() == 1 && '0' <= u[0] && u[0] <= '9' {
        (0x30 + (u[0] as u32 - '0' as u32)) as u16
    } else if u.len() == 1 && 'A' <= u[0] && u[0] <= 'Z' {
        (u[0] as u32) as u16
    } else {
        0
    }
}

/// Parses a key combination such as "Ctrl+F5" into (modifiers, virtual key).
pub fn parse_hotkey(key: &str) -> (r: Option<(u32, u16)>)
    ensures
        r == hotkey_spec(key@),
{
    let k = chars_of(key);
    let parts = split_at_char(&k, '+');
    let mut alt = false;
    let mut ctrl = false;
    let mut shift = false;
    let mut win = false;
    let mut main_key: Option<Vec<char>> = None;
    for i in 0..parts.len()
        invariant
            seqs_of(parts@) == split_of(k@, '+'),
            k@ == key@,
            ({
                let st = combo_upto(seqs_of(parts@), i as nat);
                &&& st.alt == alt
                &&& st.ctrl == ctrl
                &&& st.shift == shift
                &&& st.win == win
                &&& st.main_key == (match main_key {
                    Some(m) => Some(m@),
                    None => None,
                })
            }),
    {
        let t = trim_chars(&parts[i]);
        let l = lower_chars(&t);
        proof {
            assert(seqs_of(parts@)[i as int] == parts@[i as int]@);
        }
        if is_word(&l, "ctrl") || is_word(&l, "control") {
            ctrl = true;
        } else if is_word(&l, "shift") {
            shift = true;
        } else if is_word(&l, "alt") {
            alt = true;
        } else if is_word(&l, "win") || is_word(&l, "meta") {
            win = true;
        } else {
            main_key = Some(t);
        }
    }
    let mods: u32 = (if alt {
        1u32
    } else {
        0u32
    }) + (if ctrl {
        2u32
    } else {
        0u32
    }) + (if shift {
        4u32
    } else {
        0u32
    }) + (if win {
        8u32
    } else {
        0u32
    });
    let m = match main_key {
        Some(m) => m,
        None => {
            return None;
        },
    };
    let media = chars_of("Media");
    if has_prefix(&m, &media) {
        return None;
    }
    let u = upper_chars(&m);
    let vk = key_code_of(&u);
    if vk == 0 {
        return None;
    }
    if mods == 0 && 0x30 <= vk && vk <= 0x5A {
        return None;
    }
    Some((mods, vk))
}

// ---------------------------------------------------------------------------
// The low-level keyboard hook
// ---------------------------------------------------------------------------

/// A combination bound to a media key.
#[derive(Debug, Clone, Copy, PartialEq, Eq)]
pub struct HookAction {
    pub mods: u32,
    pub vk: u16,
    pub media_vk: u16,
}

/// The media command a bound combination triggers.
#[derive(Debug, Clone, Copy, PartialEq, Eq)]
pub enum MediaAction {
    PlayPause,
    Next,
    Prev,
}

/// What the hook does with a keyboard event.
#[derive(Debug, Clone, Copy, PartialEq, Eq)]
pub enum HookOutcome {
    /// Hand the event on to the next hook.
    PassOn,
    /// Consume the event (auto-repeat of a combination that already fired).
    Swallow,
    /// Consume the event and send the media command.
    Fire(MediaAction),
}

pub const HC_ACTION: i32 = 0;

pub const WM_KEYDOWN: u32 = 0x0100;

pub const WM_KEYUP: u32 = 0x0101;

pub const WM_SYSKEYDOWN: u32 = 0x0104;

pub const WM_SYSKEYUP: u32 = 0x0105;

pub open spec fn media_action_spec(media_vk: u16) -> MediaAction {
    if media_vk == 0xB3 {
        MediaAction::PlayPause
    } else if media_vk == 0xB0 {
        MediaAction::Next
    } else {
        MediaAction::Prev
    }
}

/// The media command of a media virtual-key code (play/pause, next,
/// anything else: previous).
pub fn media_action(media_vk: u16) -> (r: MediaAction)
    ensures
        r == media_action_spec(media_vk),
{
    if media_vk == 0xB3 {
        MediaAction::PlayPause
    } else if media_vk == 0xB0 {
        MediaAction::Next
    } else {
        MediaAction::Prev
    }
}

pub open spec fn action_name_spec(a: MediaAction) -> Seq<char> {
    match a {
        MediaAction::PlayPause => "play_pause"@,
        MediaAction::Next => "next"@,
        MediaAction::Prev => "prev"@,
    }
}

/// The command word of a media action, as sent to the helper process.
pub fn action_name(a: MediaAction) -> (r: &'static str)
    ensures
        r@ == action_name_spec(a),
{
    match a {
        MediaAction::PlayPause => "play_pause",
        MediaAction::Next => "next",
        MediaAction::Prev => "prev",
    }
}

/// Index of the first action bound to `vk` with exactly the modifiers `mods`.
pub open spec fn first_match(actions: Seq<HookAction>, vk: u16, mods: u32, n: nat) -> Option<int>
    decreases n,
{
    if n == 0 || n > actions.len() {
        None
    } else {
        match first_match(actions, vk, mods, (n - 1) as nat) {
            Some(i) => Some(i),
            None => if actions[n - 1].vk == vk && actions[n - 1].mods == mods {
                Some(n - 1)
            } else {
                None
            },
        }
    }
}

/// One hook event: the keys that have fired and are still held, and what is
/// done with the event. A key-up releases the key; a key-down of a bound
/// combination fires once and is then swallowed until the key is released.
pub open spec fn hook_step(
    armed: Set<u16>,
    actions: Seq<HookAction>,
    n_code: i32,
    msg: u32,
    vk: u16,
    mods: u32,
) -> (Set<u16>, HookOutcome) {
    if n_code != HC_ACTION {
        (armed, HookOutcome::PassOn)
    } else if msg == WM_KEYUP || msg == WM_SYSKEYUP {
        (armed.remove(vk), HookOutcome::PassOn)
    } else if msg == WM_KEYDOWN || msg == WM_SYSKEYDOWN {
        match first_match(actions, vk, mods, actions.len()) {
            Some(i) => if armed.contains(vk) {
                (armed, HookOutcome::Swallow)
            } else {
                (armed.insert(vk), HookOutcome::Fire(media_action_spec(actions[i].media_vk)))
            },
            None => (armed, HookOutcome::PassOn),
        }
    } else {
        (armed, HookOutcome::PassOn)
    }
}

/// The keys whose combination has fired and that have not been released.
pub struct ArmedKeys {
    keys: HashSet<u16>,
}

impl View for ArmedKeys {
    type V = Set<u16>;

    closed spec fn view(&self) -> Set<u16> {
        self.keys@
    }
}

impl ArmedKeys {
    pub fn new() -> (r: Self)
        ensures
            r@ == Set::<u16>::empty(),
    {
        ArmedKeys { keys: HashSet::new() }
    }

    pub fn contains(&self, vk: u16) -> (r: bool)
        ensures
            r == self@.contains(vk),
    {
        broadcast use vstd::std_specs::hash::group_hash_axioms;

        self.keys.contains(&vk)
    }

    pub fn insert(&mut self, vk: u16)
        ensures
            final(self)@ == old(self)@.insert(vk),
    {
        broadcast use vstd::std_specs::hash::group_hash_axioms;

        self.keys.insert(vk);
    }

    pub fn remove(&mut self, vk: u16)
        ensures
            final(self)@ == old(self)@.remove(vk),
    {
        broadcast use vstd::std_specs::hash::group_hash_axioms;

        self.keys.remove(&vk);
    }

    /// Forgets every key.
    pub fn clear(&mut self)
        ensures
            final(self)@ == Set::<u16>::empty(),
    {
        self.keys.clear();
    }
}

/// Decides what the keyboard hook does with one event (`msg` and the
/// virtual key `vk`, with the modifiers `mods` held at that moment).
pub fn hook_event(
    armed: &mut ArmedKeys,
    actions: &Vec<HookAction>,
    n_code: i32,
    msg: u32,
    vk: u16,
    mods: u32,
) -> (r: HookOutcome)
    ensures
        (final(armed)@, r) == hook_step(old(armed)@, actions@, n_code, msg, vk, mods),
{
    if n_code != HC_ACTION {
        return HookOutcome::PassOn;
    }
    if msg == WM_KEYUP || msg == WM_SYSKEYUP {
        armed.remove(vk);
        return HookOutcome::PassOn;
    }
    if msg == WM_KEYDOWN || msg == WM_SYSKEYDOWN {
        let mut found: Option<usize> = None;
        let mut i: usize = 0;
        while i < actions.len()
            invariant
                i <= actions.len(),
                found matches Some(j) ==> first_match(actions@, vk, mods, i as nat) == Some(j as int)
                    && j < i,
                found is None ==> first_match(actions@, vk, mods, i as nat) is None,
            decreases actions.len() - i,
        {
            if found.is_none() && actions[i].vk == vk && actions[i].mods == mods {
                found = Some(i);
            }
            i += 1;
        }
        match found {
            Some(j) => {
                if armed.contains(vk) {
                    return HookOutcome::Swallow;
                }
                armed.insert(vk);
                return HookOutcome::Fire(media_action(actions[j].media_vk));
            },
            None => {
                return HookOutcome::PassOn;
            },
        }
    }
    HookOutcome::PassOn
}

/// A parsed combination never takes over normal typing: a digit or a letter
/// is only bound together with a modifier, media keys are never bound, and
/// the key code is never 0.
pub proof fn law_hotkey_never_takes_plain_typing(key: Seq<char>)
    ensures
        hotkey_spec(key) matches Some((m, v)) ==> v != 0 && !(m == 0 && 0x30 <= v <= 0x5A),
        ({
            let parts = split_of(key, '+');
            let st = combo_upto(parts, parts.len());
            st.main_key matches Some(mk) && starts_with(mk, "Media"@) ==> hotkey_spec(key) is None
        }),
{
}

/// A bound combination fires once: the auto-repeat key-downs that follow,
/// before the key is released, are swallowed.
pub proof fn law_hotkey_fires_once(
    armed: Set<u16>,
    actions: Seq<HookAction>,
    msg: u32,
    msg2: u32,
    vk: u16,
    mods: u32,
    mods2: u32,
)
    requires
        hook_step(armed, actions, HC_ACTION, msg, vk, mods).1 is Fire,
        msg2 == WM_KEYDOWN || msg2 == WM_SYSKEYDOWN,
        first_match(actions, vk, mods2, actions.len()) is Some,
    ensures
        hook_step(hook_step(armed, actions, HC_ACTION, msg, vk, mods).0, actions, HC_ACTION, msg2, vk, mods2)
            == (hook_step(armed, actions, HC_ACTION, msg, vk, mods).0, HookOutcome::Swallow),
{
}

/// After the key is released, the combination fires again.
pub proof fn law_hotkey_rearms_on_release(
    armed: Set<u16>,
    actions: Seq<HookAction>,
    up: u32,
    down: u32,
    vk: u16,
    mods: u32,
)
    requires
        up == WM_KEYUP || up == WM_SYSKEYUP,
        down == WM_KEYDOWN || down == WM_SYSKEYDOWN,
        first_match(actions, vk, mods, actions.len()) is Some,
    ensures
        hook_step(hook_step(armed, actions, HC_ACTION, up, vk, mods).0, actions, HC_ACTION, down, vk, mods).1 is Fire,
{
}

/// A key is held as fired only after an event that fired it: events leave
/// other keys' state alone and never arm an unbound key.
pub proof fn law_hotkey_arms_only_fired(
    armed: Set<u16>,
    actions: Seq<HookAction>,
    n_code: i32,
    msg: u32,
    vk: u16,
    mods: u32,
    other: u16,
)
    ensures
        hook_step(armed, actions, n_code, msg, vk, mods).0.contains(other) ==> armed.contains(other)
            || (other == vk && hook_step(armed, actions, n_code, msg, vk, mods).1 is Fire),
{
}

proof fn lemma_first_match(actions: Seq<HookAction>, vk: u16, mods: u32, n: nat)
    requires
        n <= actions.len(),
    ensures
        first_match(actions, vk, mods, n) matches Some(i) ==> 0 <= i < n && actions[i].vk == vk
            && actions[i].mods == mods && forall|j: int|
            0 <= j < i ==> !(actions[j].vk == vk && actions[j].mods == mods),
        first_match(actions, vk, mods, n) is None ==> forall|j: int|
            0 <= j < n ==> !(#[trigger] actions[j].vk == vk && actions[j].mods == mods),
    decreases n,
{
    if n > 0 {
        lemma_first_match(actions, vk, mods, (n - 1) as nat);
    }
}

/// A key-down is taken only for a binding of that key with exactly the
/// modifiers held, no more and no fewer: it fires the first such binding's
/// media action when the key is not held as fired yet, and is swallowed
/// while it is; with no such binding every event is passed on.
pub proof fn law_hook_needs_exact_modifiers(
    armed: Set<u16>,
    actions: Seq<HookAction>,
    n_code: i32,
    msg: u32,
    vk: u16,
    mods: u32,
)
    ensures
        ({
            let r = hook_step(armed, actions, n_code, msg, vk, mods);
            let bound = exists|i: int|
                0 <= i < actions.len() && (#[trigger] actions[i]).vk == vk && actions[i].mods == mods;
            let down = n_code == HC_ACTION && (msg == WM_KEYDOWN || msg == WM_SYSKEYDOWN);
            &&& r.1 matches HookOutcome::Fire(a) ==> exists|i: int|
                0 <= i < actions.len() && (#[trigger] actions[i]).vk == vk && actions[i].mods == mods
                    && a == media_action_spec(actions[i].media_vk) && forall|j: int|
                    0 <= j < i ==> !(actions[j].vk == vk && actions[j].mods == mods)
            &&& r.1 is Fire ==> down && !armed.contains(vk) && r.0 == armed.insert(vk)
            &&& r.1 is Swallow ==> down && bound && armed.contains(vk) && r.0 == armed
            &&& down && bound && !armed.contains(vk) ==> r.1 is Fire
            &&& down && bound && armed.contains(vk) ==> r.1 is Swallow
            &&& !bound ==> r.1 is PassOn
        }),
{
    lemma_first_match(actions, vk, mods, actions.len());
    if first_match(actions, vk, mods, actions.len()) is None {
        assert(!exists|i: int|
            0 <= i < actions.len() && (#[trigger] actions[i]).vk == vk && actions[i].mods == mods);
    }
}

// ---------------------------------------------------------------------------
// Bindings of the three media actions
// ---------------------------------------------------------------------------

pub open spec fn bind_step(acc: Seq<HookAction>, bind: Option<String>, media_vk: u16) -> Seq<HookAction> {
    match bind {
        Some(b) => match hotkey_spec(b@) {
            Some(p) => acc.push(HookAction { mods: p.0, vk: p.1, media_vk }),
            None => acc,
        },
        None => acc,
    }
}

/// The hook actions for the configured combinations, in the order
/// play/pause (media key 0xB3), next (0xB0), previous (0xB1); combinations
/// that do not parse are left out.
pub open spec fn hotkey_actions_spec(c: HotkeyConfig) -> Seq<HookAction> {
    bind_step(bind_step(bind_step(seq![], c.play_pause, 0xB3), c.next_track, 0xB0), c.prev_track, 0xB1)
}

fn push_binding(acc: &mut Vec<HookAction>, bind: &Option<String>, media_vk: u16)
    ensures
        final(acc)@ == bind_step(old(acc)@, *bind, media_vk),
{
    if let Some(b) = bind {
        if let Some((mods, vk)) = parse_hotkey(b.as_str()) {
            acc.push(HookAction { mods, vk, media_vk });
        }
    }
}

/// The hook actions for the configured media combinations.
pub fn hotkey_actions(hotkeys: &HotkeyConfig) -> (r: Vec<HookAction>)
    ensures
        r@ == hotkey_actions_spec(*hotkeys),
{
    let mut actions: Vec<HookAction> = Vec::new();
    push_binding(&mut actions, &hotkeys.play_pause, 0xB3);
    push_binding(&mut actions, &hotkeys.next_track, 0xB0);
    push_binding(&mut actions, &hotkeys.prev_track, 0xB1);
    actions
}

} // verus!
