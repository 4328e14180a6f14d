use vstd::prelude::*;

use crate::hotkeys::{combo_step, combo_upto, hotkey_spec, key_code, mods_of, named_key, ComboState, MOD_ALT, MOD_CONTROL, MOD_SHIFT, MOD_WIN};
use crate::text::{
    ascii_lower, ascii_lower_text, ascii_upper, ascii_upper_text, is_ascii_text, is_ws, lower_text,
    dec, is_digit, parse_unsigned, split_of, split_state, starts_with, trim, trim_end, trim_start, upper_text,
};

verus! {

// ---------------------------------------------------------------------------
// Key combinations do not depend on the case of their letters
// ---------------------------------------------------------------------------

/// ASCII upper-casing (`up`) or lower-casing of one character.
pub open spec fn case_char(up: bool, c: char) -> char {
    if up {
        ascii_upper(c)
    } else {
        ascii_lower(c)
    }
}

/// ASCII upper-casing (`up`) or lower-casing of a text.
pub open spec fn case_text(up: bool, s: Seq<char>) -> Seq<char> {
    if up {
        ascii_upper_text(s)
    } else {
        ascii_lower_text(s)
    }
}

pub open spec fn case_parts(up: bool, ps: Seq<Seq<char>>) -> Seq<Seq<char>> {
    ps.map_values(|p: Seq<char>| case_text(up, p))
}

proof fn lemma_case_char(up: bool, c: char)
    ensures
        (case_char(up, c) == '+') == (c == '+'),
        is_ws(case_char(up, c)) == is_ws(c),
        (c as u32) < 128 ==> (case_char(up, c) as u32) < 128,
        ascii_lower(case_char(up, c)) == ascii_lower(c),
        ascii_upper(case_char(up, c)) == ascii_upper(c),
{
}

proof fn lemma_case_text_len(up: bool, s: Seq<char>)
    ensures
        case_text(up, s).len() == s.len(),
        forall|i: int| 0 <= i < s.len() ==> #[trigger] case_text(up, s)[i] == case_char(up, s[i]),
{
}

proof fn lemma_case_push(up: bool, s: Seq<char>, c: char)
    ensures
        case_text(up, s.push(c)) == case_text(up, s).push(case_char(up, c)),
{
    lemma_case_text_len(up, s);
    lemma_case_text_len(up, s.push(c));
    assert(case_text(up, s.push(c)) =~= case_text(up, s).push(case_char(up, c)));
}

proof fn lemma_case_parts_push(up: bool, ps: Seq<Seq<char>>, p: Seq<char>)
    ensures
        case_parts(up, ps.push(p)) == case_parts(up, ps).push(case_text(up, p)),
{
    assert(case_parts(up, ps.push(p)) =~= case_parts(up, ps).push(case_text(up, p)));
}

proof fn lemma_case_split_state(up: bool, s: Seq<char>, n: nat)
    requires
        n <= s.len(),
    ensures
        split_state(case_text(up, s), '+', n) == (
            case_parts(up, split_state(s, '+', n).0),
            case_text(up, split_state(s, '+', n).1),
        ),
    decreases n,
{
    lemma_case_text_len(up, s);
    if n == 0 {
        assert(case_parts(up, Seq::<Seq<char>>::empty()) =~= Seq::<Seq<char>>::empty());
        assert(case_text(up, Seq::<char>::empty()) =~= Seq::<char>::empty());
    } else {
        lemma_case_split_state(up, s, (n - 1) as nat);
        let st = split_state(s, '+', (n - 1) as nat);
        lemma_case_char(up, s[n - 1]);
        if s[n - 1] == '+' {
            lemma_case_parts_push(up, st.0, st.1);
            assert(case_text(up, Seq::<char>::empty()) =~= Seq::<char>::empty());
        } else {
            lemma_case_push(up, st.1, s[n - 1]);
        }
    }
}

/// Splitting at `+` and changing the case commute.
proof fn lemma_case_split(up: bool, s: Seq<char>)
    ensures
        split_of(case_text(up, s), '+') == case_parts(up, split_of(s, '+')),
{
    lemma_case_text_len(up, s);
    lemma_case_split_state(up, s, s.len());
    let st = split_state(s, '+', s.len());
    lemma_case_parts_push(up, st.0, st.1);
}

proof fn lemma_split_state_ascii(s: Seq<char>, n: nat)
    requires
        n <= s.len(),
        is_ascii_text(s),
    ensures
        forall|i: int|
            0 <= i < split_state(s, '+', n).0.len() ==> is_ascii_text(
                #[trigger] split_state(s, '+', n).0[i],
            ),
        is_ascii_text(split_state(s, '+', n).1),
    decreases n,
{
    if n > 0 {
        lemma_split_state_ascii(s, (n - 1) as nat);
        let st = split_state(s, '+', (n - 1) as nat);
        let cur = split_state(s, '+', n);
        if s[n - 1] == '+' {
            assert forall|i: int| 0 <= i < cur.0.len() implies is_ascii_text(#[trigger] cur.0[i]) by {
                if i < st.0.len() {
                    assert(cur.0[i] == st.0[i]);
                }
            }
        } else {
            assert forall|i: int| 0 <= i < cur.1.len() implies (cur.1[i] as u32) < 128 by {
                if i < st.1.len() {
                    assert(cur.1[i] == st.1[i]);
                }
            }
        }
    }
}

/// The pieces of an ASCII text are ASCII.
proof fn lemma_split_ascii(s: Seq<char>)
    requires
        is_ascii_text(s),
    ensures
        forall|i: int| 0 <= i < split_of(s, '+').len() ==> is_ascii_text(#[trigger] split_of(s, '+')[i]),
{
    lemma_split_state_ascii(s, s.len());
    let st = split_state(s, '+', s.len());
    assert forall|i: int| 0 <= i < split_of(s, '+').len() implies is_ascii_text(
        #[trigger] split_of(s, '+')[i],
    ) by {
        if i < st.0.len() {
            assert(split_of(s, '+')[i] == st.0[i]);
        }
    }
}

proof fn lemma_case_trim_start(up: bool, s: Seq<char>)
    ensures
        trim_start(case_text(up, s)) == case_text(up, trim_start(s)),
    decreases s.len(),
{
    lemma_case_text_len(up, s);
    if s.len() > 0 {
        lemma_case_char(up, s[0]);
        if is_ws(s[0]) {
            lemma_case_trim_start(up, s.drop_first());
            assert(case_text(up, s).drop_first() =~= case_text(up, s.drop_first())) by {
                lemma_case_text_len(up, s.drop_first());
            }
        }
    }
}

proof fn lemma_case_trim_end(up: bool, s: Seq<char>)
    ensures
        trim_end(case_text(up, s)) == case_text(up, trim_end(s)),
    decreases s.len(),
{
    lemma_case_text_len(up, s);
    if s.len() > 0 {
        lemma_case_char(up, s.last());
        if is_ws(s.last()) {
            lemma_case_trim_end(up, s.drop_last());
            assert(case_text(up, s).drop_last() =~= case_text(up, s.drop_last())) by {
                lemma_case_text_len(up, s.drop_last());
            }
        }
    }
}

/// Trimming and changing the case commute.
proof fn lemma_case_trim(up: bool, s: Seq<char>)
    ensures
        trim(case_text(up, s)) == case_text(up, trim(s)),
{
    lemma_case_trim_start(up, s);
    lemma_case_trim_end(up, trim_start(s));
}

proof fn lemma_case_ascii(up: bool, s: Seq<char>)
    requires
        is_ascii_text(s),
    ensures
        is_ascii_text(case_text(up, s)),
        lower_text(case_text(up, s)) == lower_text(s),
        upper_text(case_text(up, s)) == upper_text(s),
{
    lemma_case_text_len(up, s);
    assert forall|i: int| 0 <= i < s.len() implies (case_text(up, s)[i] as u32) < 128 by {
        lemma_case_char(up, s[i]);
    }
    assert(ascii_lower_text(case_text(up, s)) =~= ascii_lower_text(s)) by {
        assert forall|i: int| 0 <= i < s.len() implies ascii_lower_text(case_text(up, s))[i]
            == ascii_lower_text(s)[i] by {
            lemma_case_char(up, s[i]);
        }
    }
    assert(ascii_upper_text(case_text(up, s)) =~= ascii_upper_text(s)) by {
        assert forall|i: int| 0 <= i < s.len() implies ascii_upper_text(case_text(up, s))[i]
            == ascii_upper_text(s)[i] by {
            lemma_case_char(up, s[i]);
        }
    }
}

pub open spec fn case_main(up: bool, m: Option<Seq<char>>) -> Option<Seq<char>> {
    match m {
        Some(t) => Some(case_text(up, t)),
        None => None,
    }
}

/// Reading case-changed parts gives the same modifiers, and the main key
/// with its case changed.
proof fn lemma_case_combo(up: bool, parts: Seq<Seq<char>>, n: nat)
    requires
        n <= parts.len(),
        forall|i: int| 0 <= i < parts.len() ==> is_ascii_text(#[trigger] parts[i]),
    ensures
        ({
            let a = combo_upto(parts, n);
            let b = combo_upto(case_parts(up, parts), n);
            &&& b.alt == a.alt
            &&& b.ctrl == a.ctrl
            &&& b.shift == a.shift
            &&& b.win == a.win
            &&& b.main_key == case_main(up, a.main_key)
            &&& (a.main_key matches Some(m) ==> is_ascii_text(m))
        }),
    decreases n,
{
    if n > 0 {
        lemma_case_combo(up, parts, (n - 1) as nat);
        let p = parts[n - 1];
        assert(case_parts(up, parts)[n - 1] == case_text(up, p));
        lemma_case_trim(up, p);
        let t = trim(p);
        assert(is_ascii_text(p));
        assert(is_ascii_text(t)) by {
            crate::text::lemma_trim_start_suffix(p);
            let k = choose|k: int| 0 <= k <= p.len() && trim_start(p) == p.skip(k);
            crate::text::lemma_trim_end_props(trim_start(p));
            assert forall|i: int| 0 <= i < t.len() implies (t[i] as u32) < 128 by {
                assert(t[i] == trim_start(p)[i]);
                assert(trim_start(p)[i] == p[k + i]);
            }
        }
        lemma_case_ascii(up, t);
    }
}

proof fn lemma_media_key_code(u: Seq<char>)
    requires
        u.len() >= 5,
        u[0] == 'M',
    ensures
        crate::hotkeys::key_code(u) == 0,
{
    reveal_strlit("SPACE");
    reveal_strlit("BACKSPACE");
    reveal_strlit("TAB");
    reveal_strlit("ENTER");
    reveal_strlit("ESC");
    reveal_strlit("ESCAPE");
    reveal_strlit("HOME");
    reveal_strlit("END");
    reveal_strlit("PAGEUP");
    reveal_strlit("PAGEDOWN");
    reveal_strlit("INSERT");
    reveal_strlit("DELETE");
    reveal_strlit("UP");
    reveal_strlit("DOWN");
    reveal_strlit("LEFT");
    reveal_strlit("RIGHT");
}

/// For ASCII text a key combination means the same whatever the case of its
/// letters: lower-casing or upper-casing it changes nothing.
pub proof fn law_hotkey_ignores_case(key: Seq<char>)
    requires
        is_ascii_text(key),
    ensures
        hotkey_spec(ascii_lower_text(key)) == hotkey_spec(key),
        hotkey_spec(ascii_upper_text(key)) == hotkey_spec(key),
{
    lemma_case_same(false, key);
    lemma_case_same(true, key);
}

proof fn lemma_case_same(up: bool, key: Seq<char>)
    requires
        is_ascii_text(key),
    ensures
        hotkey_spec(case_text(up, key)) == hotkey_spec(key),
{
    reveal_strlit("Media");
    let parts = split_of(key, '+');
    lemma_case_split(up, key);
    lemma_split_ascii(key);
    lemma_case_combo(up, parts, parts.len());
    assert(case_parts(up, parts).len() == parts.len());
    let a = combo_upto(parts, parts.len());
    let b = combo_upto(case_parts(up, parts), parts.len());
    assert(crate::hotkeys::mods_of(a) == crate::hotkeys::mods_of(b));
    match a.main_key {
        None => {},
        Some(m) => {
            let m2 = case_text(up, m);
            lemma_case_ascii(up, m);
            lemma_case_text_len(up, m);
            let media = "Media"@;
            // A case-changed key never starts with "Media" by itself.
            if crate::text::starts_with(m2, media) {
                assert(media.len() == 5 && media[0] == 'M' && media[1] == 'e');
                assert(m2.take(5)[0] == m2[0] && m2.take(5)[1] == m2[1]);
                assert(m2[0] == 'M' && m2[1] == 'e');
                lemma_case_char(up, m[0]);
                lemma_case_char(up, m[1]);
                assert(m2[0] == case_char(up, m[0]));
                assert(m2[1] == case_char(up, m[1]));
                assert(false);
            }
            if crate::text::starts_with(m, media) {
                let u = upper_text(m2);
                assert(u == ascii_upper_text(m2));
                assert(u[0] == ascii_upper(m2[0]));
                assert(m.take(5)[0] == m[0]);
                assert(m[0] == media[0]);
                assert(m2[0] == case_char(up, m[0]));
                lemma_media_key_code(u);
            }
        },
    }
}

// ---------------------------------------------------------------------------
// Key combinations do not depend on the order of their parts
// ---------------------------------------------------------------------------

/// The word a part is read as: trimmed and lower-cased.
pub open spec fn part_word(p: Seq<char>) -> Seq<char> {
    lower_text(trim(p))
}

pub open spec fn is_ctrl_part(p: Seq<char>) -> bool {
    part_word(p) == "ctrl"@ || part_word(p) == "control"@
}

pub open spec fn is_shift_part(p: Seq<char>) -> bool {
    part_word(p) == "shift"@
}

pub open spec fn is_alt_part(p: Seq<char>) -> bool {
    part_word(p) == "alt"@
}

pub open spec fn is_win_part(p: Seq<char>) -> bool {
    part_word(p) == "win"@ || part_word(p) == "meta"@
}

/// A part that names a modifier.
pub open spec fn is_modifier_part(p: Seq<char>) -> bool {
    is_ctrl_part(p) || is_shift_part(p) || is_alt_part(p) || is_win_part(p)
}

/// What the first `n` parts set: each modifier is on when some part names
/// it; there is no main key when every part is a modifier, and otherwise the
/// main key is one of the other parts, trimmed.
proof fn lemma_combo_parts(parts: Seq<Seq<char>>, n: nat)
    requires
        n <= parts.len(),
    ensures
        ({
            let st = combo_upto(parts, n);
            &&& st.ctrl == exists|i: int| 0 <= i < n && is_ctrl_part(#[trigger] parts[i])
            &&& st.shift == exists|i: int| 0 <= i < n && is_shift_part(#[trigger] parts[i])
            &&& st.alt == exists|i: int| 0 <= i < n && is_alt_part(#[trigger] parts[i])
            &&& st.win == exists|i: int| 0 <= i < n && is_win_part(#[trigger] parts[i])
            &&& (st.main_key is None <==> forall|i: int| 0 <= i < n ==> is_modifier_part(#[trigger] parts[i]))
            &&& (st.main_key matches Some(m) ==> exists|i: int|
                0 <= i < n && !is_modifier_part(#[trigger] parts[i]) && m == trim(parts[i]))
        }),
    decreases n,
{
    if n > 0 {
        lemma_combo_parts(parts, (n - 1) as nat);
        reveal_strlit("ctrl");
        reveal_strlit("control");
        reveal_strlit("shift");
        reveal_strlit("alt");
        reveal_strlit("win");
        reveal_strlit("meta");
        assert("ctrl"@.len() == 4 && "control"@.len() == 7 && "shift"@.len() == 5);
        assert("alt"@.len() == 3 && "win"@.len() == 3 && "meta"@.len() == 4);
        assert("alt"@[0] != "win"@[0]);
        assert("ctrl"@[0] != "meta"@[0]);
        let prev = combo_upto(parts, (n - 1) as nat);
        let st = combo_upto(parts, n);
        let p = parts[n - 1];
        assert(st == combo_step(prev, p));
        assert(st.ctrl == (prev.ctrl || is_ctrl_part(p)));
        assert(st.shift == (prev.shift || is_shift_part(p)));
        assert(st.alt == (prev.alt || is_alt_part(p)));
        assert(st.win == (prev.win || is_win_part(p)));
        assert(st.ctrl == exists|i: int| 0 <= i < n && is_ctrl_part(#[trigger] parts[i])) by {
            if is_ctrl_part(parts[n - 1]) {
            }
        }
        assert(st.shift == exists|i: int| 0 <= i < n && is_shift_part(#[trigger] parts[i])) by {
            if is_shift_part(parts[n - 1]) {
            }
        }
        assert(st.alt == exists|i: int| 0 <= i < n && is_alt_part(#[trigger] parts[i])) by {
            if is_alt_part(parts[n - 1]) {
            }
        }
        assert(st.win == exists|i: int| 0 <= i < n && is_win_part(#[trigger] parts[i])) by {
            if is_win_part(parts[n - 1]) {
            }
        }
        if !is_modifier_part(p) {
            assert(st.main_key == Some(trim(p)));
            assert(!is_modifier_part(parts[n - 1]));
        } else {
            assert(st.main_key == prev.main_key);
            if st.main_key is None {
                assert forall|i: int| 0 <= i < n implies is_modifier_part(#[trigger] parts[i]) by {
                    if i < n - 1 {
                    }
                }
            }
        }
    }
}

/// The same parts in another order (as many times each) make the same key
/// combination, as long as at most one part is not a modifier.
pub proof fn law_hotkey_ignores_part_order(key: Seq<char>, key2: Seq<char>)
    requires
        split_of(key, '+').to_multiset() == split_of(key2, '+').to_multiset(),
        forall|i: int, j: int|
            0 <= i < split_of(key, '+').len() && 0 <= j < split_of(key, '+').len() && !is_modifier_part(
                #[trigger] split_of(key, '+')[i],
            ) && !is_modifier_part(#[trigger] split_of(key, '+')[j]) ==> i == j,
    ensures
        hotkey_spec(key) == hotkey_spec(key2),
{
    let a = split_of(key, '+');
    let b = split_of(key2, '+');
    lemma_combo_parts(a, a.len());
    lemma_combo_parts(b, b.len());
    let sa = combo_upto(a, a.len());
    let sb = combo_upto(b, b.len());
    // Every part of one is a part of the other.
    assert forall|x: Seq<char>| a.contains(x) <==> b.contains(x) by {
        vstd::seq_lib::to_multiset_contains(a, x);
        vstd::seq_lib::to_multiset_contains(b, x);
    }
    assert(sa.ctrl == sb.ctrl) by {
        if sa.ctrl {
            let i = choose|i: int| 0 <= i < a.len() && is_ctrl_part(#[trigger] a[i]);
            assert(a.contains(a[i]));
            let j = choose|j: int| 0 <= j < b.len() && b[j] == a[i];
            assert(is_ctrl_part(b[j]));
        }
        if sb.ctrl {
            let j = choose|j: int| 0 <= j < b.len() && is_ctrl_part(#[trigger] b[j]);
            assert(b.contains(b[j]));
            let i = choose|i: int| 0 <= i < a.len() && a[i] == b[j];
            assert(is_ctrl_part(a[i]));
        }
    }
    assert(sa.shift == sb.shift) by {
        if sa.shift {
            let i = choose|i: int| 0 <= i < a.len() && is_shift_part(#[trigger] a[i]);
            assert(a.contains(a[i]));
            let j = choose|j: int| 0 <= j < b.len() && b[j] == a[i];
            assert(is_shift_part(b[j]));
        }
        if sb.shift {
            let j = choose|j: int| 0 <= j < b.len() && is_shift_part(#[trigger] b[j]);
            assert(b.contains(b[j]));
            let i = choose|i: int| 0 <= i < a.len() && a[i] == b[j];
            assert(is_shift_part(a[i]));
        }
    }
    assert(sa.alt == sb.alt) by {
        if sa.alt {
            let i = choose|i: int| 0 <= i < a.len() && is_alt_part(#[trigger] a[i]);
            assert(a.contains(a[i]));
            let j = choose|j: int| 0 <= j < b.len() && b[j] == a[i];
            assert(is_alt_part(b[j]));
        }
        if sb.alt {
            let j = choose|j: int| 0 <= j < b.len() && is_alt_part(#[trigger] b[j]);
            assert(b.contains(b[j]));
            let i = choose|i: int| 0 <= i < a.len() && a[i] == b[j];
            assert(is_alt_part(a[i]));
        }
    }
    assert(sa.win == sb.win) by {
        if sa.win {
            let i = choose|i: int| 0 <= i < a.len() && is_win_part(#[trigger] a[i]);
            assert(a.contains(a[i]));
            let j = choose|j: int| 0 <= j < b.len() && b[j] == a[i];
            assert(is_win_part(b[j]));
        }
        if sb.win {
            let j = choose|j: int| 0 <= j < b.len() && is_win_part(#[trigger] b[j]);
            assert(b.contains(b[j]));
            let i = choose|i: int| 0 <= i < a.len() && a[i] == b[j];
            assert(is_win_part(a[i]));
        }
    }
    assert(sa.main_key == sb.main_key) by {
        if sa.main_key is None {
            if sb.main_key is Some {
                let j = choose|j: int| 0 <= j < b.len() && !is_modifier_part(#[trigger] b[j]) && sb.main_key->0
                    == trim(b[j]);
                assert(b.contains(b[j]));
                let i = choose|i: int| 0 <= i < a.len() && a[i] == b[j];
                assert(is_modifier_part(a[i]));
            }
        } else {
            let m = sa.main_key->0;
            let i = choose|i: int| 0 <= i < a.len() && !is_modifier_part(#[trigger] a[i]) && m == trim(a[i]);
            assert(a.contains(a[i]));
            let j0 = choose|j: int| 0 <= j < b.len() && b[j] == a[i];
            assert(!is_modifier_part(b[j0]));
            assert(sb.main_key is Some);
            let j = choose|j: int| 0 <= j < b.len() && !is_modifier_part(#[trigger] b[j]) && sb.main_key->0
                == trim(b[j]);
            assert(b.contains(b[j]));
            let k = choose|k: int| 0 <= k < a.len() && a[k] == b[j];
            assert(!is_modifier_part(a[k]));
            assert(k == i);
        }
    }
    assert(sa == sb);
}


// ---------------------------------------------------------------------------
// Keys known by name get their Windows virtual-key codes
// ---------------------------------------------------------------------------

/// The hotkey a combination gives for modifier flags `m` and key code `vk`.
pub open spec fn hotkey_of(m: u32, vk: u16) -> Option<(u32, u16)> {
    if vk == 0 || (m == 0 && 0x30 <= vk <= 0x5A) {
        None
    } else {
        Some((m, vk))
    }
}

/// A non-empty word of lower-case ASCII letters and digits.
pub open spec fn is_lower_word(l: Seq<char>) -> bool {
    l.len() > 0 && forall|k: int| 0 <= k < l.len() ==> ('a' <= #[trigger] l[k] <= 'z' || '0' <= l[k] <= '9')
}

pub open spec fn is_modifier_word(l: Seq<char>) -> bool {
    l == "ctrl"@ || l == "control"@ || l == "shift"@ || l == "alt"@ || l == "win"@ || l == "meta"@
}

proof fn lemma_split_run(s: Seq<char>, start: nat, k: nat)
    requires
        start + k <= s.len(),
        forall|i: int| start <= i < start + k ==> s[i] != '+',
    ensures
        split_state(s, '+', start + k) == (
            split_state(s, '+', start).0,
            split_state(s, '+', start).1 + s.subrange(start as int, (start + k) as int),
        ),
    decreases k,
{
    if k == 0 {
        assert(split_state(s, '+', start).1 + s.subrange(start as int, start as int)
            =~= split_state(s, '+', start).1);
    } else {
        lemma_split_run(s, start, (k - 1) as nat);
        assert(split_state(s, '+', start).1 + s.subrange(start as int, (start + k) as int) =~= (
        split_state(s, '+', start).1 + s.subrange(start as int, start + k - 1)).push(s[start + k - 1]));
    }
}

proof fn lemma_lower_word_part(l: Seq<char>)
    requires
        is_lower_word(l),
    ensures
        is_ascii_text(l),
        trim(l) == l,
        lower_text(l) == l,
        upper_text(l) == ascii_upper_text(l),
        !starts_with(l, "Media"@),
{
    assert(is_ascii_text(l));
    assert(!is_ws(l[0]));
    assert(trim_start(l) == l);
    assert(!is_ws(l.last()));
    assert(trim_end(l) == l);
    assert(ascii_lower_text(l) =~= l);
    reveal_strlit("Media");
    if starts_with(l, "Media"@) {
        assert(l.take(5)[0] == "Media"@[0]);
    }
}

/// A lower-case key word alone, and after `ctrl+`, is the hotkey of its key
/// code without and with the Ctrl flag, unless it names a modifier.
proof fn lemma_key_word(l: Seq<char>)
    requires
        is_lower_word(l),
        !is_modifier_word(l),
    ensures
        hotkey_spec(l) == hotkey_of(0, key_code(ascii_upper_text(l))),
        hotkey_spec("ctrl+"@ + l) == hotkey_of(MOD_CONTROL, key_code(ascii_upper_text(l))),
{
    lemma_lower_word_part(l);
    let none = ComboState { alt: false, ctrl: false, shift: false, win: false, main_key: None };
    // The word alone is one part.
    assert(split_state(l, '+', 0) == (Seq::<Seq<char>>::empty(), Seq::<char>::empty()));
    lemma_split_run(l, 0, l.len());
    assert(Seq::<char>::empty() + l.subrange(0, l.len() as int) =~= l);
    let ps = split_of(l, '+');
    assert(ps =~= seq![l]);
    assert(combo_upto(ps, 0) == none);
    assert(combo_upto(ps, 1) == combo_step(none, l));
    assert(combo_step(none, l).main_key == Some(l));
    assert(mods_of(combo_step(none, l)) == 0);
    // After "ctrl+" it is the second part, and Ctrl is set.
    reveal_strlit("ctrl+");
    reveal_strlit("ctrl");
    let s = "ctrl+"@ + l;
    let c = "ctrl"@;
    assert(s.subrange(0, 4) =~= c);
    assert(split_state(s, '+', 0) == (Seq::<Seq<char>>::empty(), Seq::<char>::empty()));
    lemma_split_run(s, 0, 4);
    assert(Seq::<char>::empty() + s.subrange(0, 4) =~= c);
    assert(s[4] == '+');
    assert(split_state(s, '+', 5) == (seq![c], Seq::<char>::empty()));
    lemma_split_run(s, 5, l.len());
    assert(Seq::<char>::empty() + s.subrange(5, (5 + l.len()) as int) =~= l);
    assert(s.len() == 5 + l.len());
    let qs = split_of(s, '+');
    assert(qs =~= seq![c, l]);
    assert(trim_start(c) == c);
    assert(trim_end(c) == c);
    assert(ascii_lower_text(c) =~= c);
    let st1 = combo_step(none, c);
    assert(st1.ctrl && !st1.alt && !st1.shift && !st1.win && st1.main_key is None);
    assert(combo_upto(qs, 0) == none);
    assert(qs[0] == c);
    assert(combo_upto(qs, 1) == st1);
    assert(combo_upto(qs, 2) == combo_step(st1, l));
    assert(mods_of(combo_step(st1, l)) == 2);
}

/// The keys known by name, in lower case, with their Windows virtual-key
/// codes (`VK_SPACE`, `VK_BACK`, `VK_TAB`, `VK_RETURN`, `VK_ESCAPE`,
/// `VK_HOME`, `VK_END`, `VK_PRIOR`, `VK_NEXT`, `VK_INSERT`, `VK_DELETE` and
/// the arrow keys).
pub open spec fn windows_key_names() -> Seq<(Seq<char>, u16)> {
    seq![
        ("space"@, 0x20u16),
        ("backspace"@, 0x08u16),
        ("tab"@, 0x09u16),
        ("enter"@, 0x0Du16),
        ("esc"@, 0x1Bu16),
        ("escape"@, 0x1Bu16),
        ("home"@, 0x24u16),
        ("end"@, 0x23u16),
        ("pageup"@, 0x21u16),
        ("pagedown"@, 0x22u16),
        ("insert"@, 0x2Du16),
        ("delete"@, 0x2Eu16),
        ("up"@, 0x26u16),
        ("down"@, 0x28u16),
        ("left"@, 0x25u16),
        ("right"@, 0x27u16),
    ]
}

proof fn lemma_key_name_entry(i: int)
    requires
        0 <= i < windows_key_names().len(),
    ensures
        is_lower_word(windows_key_names()[i].0),
        !is_modifier_word(windows_key_names()[i].0),
        key_code(ascii_upper_text(windows_key_names()[i].0)) == windows_key_names()[i].1,
{
    reveal_strlit("SPACE");
    reveal_strlit("BACKSPACE");
    reveal_strlit("TAB");
    reveal_strlit("ENTER");
    reveal_strlit("ESC");
    reveal_strlit("ESCAPE");
    reveal_strlit("HOME");
    reveal_strlit("END");
    reveal_strlit("PAGEUP");
    reveal_strlit("PAGEDOWN");
    reveal_strlit("INSERT");
    reveal_strlit("DELETE");
    reveal_strlit("UP");
    reveal_strlit("DOWN");
    reveal_strlit("LEFT");
    reveal_strlit("RIGHT");
    reveal_strlit("space");
    reveal_strlit("backspace");
    reveal_strlit("tab");
    reveal_strlit("enter");
    reveal_strlit("esc");
    reveal_strlit("escape");
    reveal_strlit("home");
    reveal_strlit("end");
    reveal_strlit("pageup");
    reveal_strlit("pagedown");
    reveal_strlit("insert");
    reveal_strlit("delete");
    reveal_strlit("up");
    reveal_strlit("down");
    reveal_strlit("left");
    reveal_strlit("right");
    reveal_strlit("ctrl");
    reveal_strlit("control");
    reveal_strlit("shift");
    reveal_strlit("alt");
    reveal_strlit("win");
    reveal_strlit("meta");
    if i == 0 {
        assert(ascii_upper_text("space"@) =~= "SPACE"@);
        assert("space"@[1] != "shift"@[1]);
    } else if i == 1 {
        assert(ascii_upper_text("backspace"@) =~= "BACKSPACE"@);
    } else if i == 2 {
        assert(ascii_upper_text("tab"@) =~= "TAB"@);
        assert("tab"@[0] != "alt"@[0]);
        assert("tab"@[0] != "win"@[0]);
    } else if i == 3 {
        assert(ascii_upper_text("enter"@) =~= "ENTER"@);
        assert("ENTER"@[0] != "SPACE"@[0]);
        assert("enter"@[0] != "shift"@[0]);
    } else if i == 4 {
        assert(ascii_upper_text("esc"@) =~= "ESC"@);
        assert("ESC"@[0] != "TAB"@[0]);
        assert("esc"@[0] != "alt"@[0]);
        assert("esc"@[0] != "win"@[0]);
    } else if i == 5 {
        assert(ascii_upper_text("escape"@) =~= "ESCAPE"@);
    } else if i == 6 {
        assert(ascii_upper_text("home"@) =~= "HOME"@);
        assert("home"@[0] != "ctrl"@[0]);
        assert("home"@[0] != "meta"@[0]);
    } else if i == 7 {
        assert(ascii_upper_text("end"@) =~= "END"@);
        assert("END"@[0] != "TAB"@[0]);
        assert("END"@[1] != "ESC"@[1]);
        assert("end"@[0] != "alt"@[0]);
        assert("end"@[0] != "win"@[0]);
    } else if i == 8 {
        assert(ascii_upper_text("pageup"@) =~= "PAGEUP"@);
        assert("PAGEUP"@[0] != "ESCAPE"@[0]);
    } else if i == 9 {
        assert(ascii_upper_text("pagedown"@) =~= "PAGEDOWN"@);
    } else if i == 10 {
        assert(ascii_upper_text("insert"@) =~= "INSERT"@);
        assert("INSERT"@[0] != "ESCAPE"@[0]);
        assert("INSERT"@[0] != "PAGEUP"@[0]);
    } else if i == 11 {
        assert(ascii_upper_text("delete"@) =~= "DELETE"@);
        assert("DELETE"@[0] != "ESCAPE"@[0]);
        assert("DELETE"@[0] != "PAGEUP"@[0]);
        assert("DELETE"@[0] != "INSERT"@[0]);
    } else if i == 12 {
        assert(ascii_upper_text("up"@) =~= "UP"@);
    } else if i == 13 {
        assert(ascii_upper_text("down"@) =~= "DOWN"@);
        assert("DOWN"@[0] != "HOME"@[0]);
        assert("down"@[0] != "ctrl"@[0]);
        assert("down"@[0] != "meta"@[0]);
    } else if i == 14 {
        assert(ascii_upper_text("left"@) =~= "LEFT"@);
        assert("LEFT"@[0] != "HOME"@[0]);
        assert("LEFT"@[0] != "DOWN"@[0]);
        assert("left"@[0] != "ctrl"@[0]);
        assert("left"@[0] != "meta"@[0]);
    } else if i == 15 {
        assert(ascii_upper_text("right"@) =~= "RIGHT"@);
        assert("RIGHT"@[0] != "SPACE"@[0]);
        assert("RIGHT"@[0] != "ENTER"@[0]);
        assert("right"@[0] != "shift"@[0]);
    }
}

/// A key written by its name, in any case of its letters, is registered on
/// that key's Windows virtual-key code: alone without modifiers, and after
/// `Ctrl+` with the Ctrl flag ("Ctrl+Home" is Ctrl with `VK_HOME`, 0x24,
/// and "Ctrl+End" Ctrl with `VK_END`, 0x23).
pub proof fn law_named_keys_get_windows_codes(name: Seq<char>, i: int)
    requires
        0 <= i < windows_key_names().len(),
        is_ascii_text(name),
        ascii_lower_text(name) == windows_key_names()[i].0,
    ensures
        hotkey_spec(name) == Some((0u32, windows_key_names()[i].1)),
        hotkey_spec("Ctrl+"@ + name) == Some((MOD_CONTROL, windows_key_names()[i].1)),
{
    let l = windows_key_names()[i].0;
    let code = windows_key_names()[i].1;
    lemma_key_name_entry(i);
    lemma_key_word(l);
    assert(code < 0x30) by {
        if i == 0 {}
        if i == 1 {}
        if i == 2 {}
        if i == 3 {}
        if i == 4 {}
        if i == 5 {}
        if i == 6 {}
        if i == 7 {}
        if i == 8 {}
        if i == 9 {}
        if i == 10 {}
        if i == 11 {}
        if i == 12 {}
        if i == 13 {}
        if i == 14 {}
        if i == 15 {}
    }
    law_hotkey_ignores_case(name);
    reveal_strlit("Ctrl+");
    reveal_strlit("ctrl+");
    let k2 = "Ctrl+"@ + name;
    assert(is_ascii_text(k2)) by {
        assert forall|k: int| 0 <= k < k2.len() implies (k2[k] as u32) < 128 by {
            if k >= 5 {
                assert(k2[k] == name[k - 5]);
            }
        }
    }
    assert(ascii_lower_text(k2) =~= "ctrl+"@ + l) by {
        assert forall|k: int| 0 <= k < k2.len() implies #[trigger] ascii_lower_text(k2)[k] == ("ctrl+"@ + l)[k] by {
            if k >= 5 {
                assert(k2[k] == name[k - 5]);
                assert(ascii_lower_text(name)[k - 5] == ascii_lower(name[k - 5]));
            }
        }
    }
    law_hotkey_ignores_case(k2);
}


pub open spec fn no_combo() -> ComboState {
    ComboState { alt: false, ctrl: false, shift: false, win: false, main_key: None }
}

/// The modifier words, in lower case, with the flags they set.
pub open spec fn modifier_words() -> Seq<(Seq<char>, u32)> {
    seq![
        ("ctrl"@, MOD_CONTROL),
        ("control"@, MOD_CONTROL),
        ("shift"@, MOD_SHIFT),
        ("alt"@, MOD_ALT),
        ("win"@, MOD_WIN),
        ("meta"@, MOD_WIN),
    ]
}

proof fn lemma_modifier_entry(j: int)
    requires
        0 <= j < modifier_words().len(),
    ensures
        is_lower_word(modifier_words()[j].0),
        is_modifier_word(modifier_words()[j].0),
        combo_step(no_combo(), modifier_words()[j].0).main_key is None,
        mods_of(combo_step(no_combo(), modifier_words()[j].0)) == modifier_words()[j].1,
{
    reveal_strlit("ctrl");
    reveal_strlit("control");
    reveal_strlit("shift");
    reveal_strlit("alt");
    reveal_strlit("win");
    reveal_strlit("meta");
    lemma_lower_word_part(modifier_words()[j].0);
    if j == 0 {
        assert("ctrl"@[0] != "meta"@[0]);
    } else if j == 1 {

    } else if j == 2 {

    } else if j == 3 {
        assert("alt"@[0] != "win"@[0]);
    } else if j == 4 {
        assert("win"@[0] != "alt"@[0]);
    } else if j == 5 {
        assert("meta"@[0] != "ctrl"@[0]);
    }
}

/// A modifier word and a lower-case key word joined by `+`.
proof fn lemma_modifier_and_key(m: Seq<char>, l: Seq<char>)
    requires
        is_lower_word(m),
        is_lower_word(l),
        !is_modifier_word(l),
        combo_step(no_combo(), m).main_key is None,
    ensures
        hotkey_spec(m + seq!['+'] + l) == hotkey_of(
            mods_of(combo_step(no_combo(), m)),
            key_code(ascii_upper_text(l)),
        ),
{
    lemma_lower_word_part(l);
    lemma_lower_word_part(m);
    let none = no_combo();
    let s = m + seq!['+'] + l;
    let n = m.len();
    assert(split_state(s, '+', 0) == (Seq::<Seq<char>>::empty(), Seq::<char>::empty()));
    assert forall|i: int| 0 <= i < n implies s[i] != '+' by {
        assert(s[i] == m[i]);
    }
    lemma_split_run(s, 0, n);
    assert(Seq::<char>::empty() + s.subrange(0, n as int) =~= m);
    assert(s[n as int] == '+');
    assert(split_state(s, '+', n + 1) == (seq![m], Seq::<char>::empty()));
    assert forall|i: int| n + 1 <= i < n + 1 + l.len() implies s[i] != '+' by {
        assert(s[i] == l[i - n - 1]);
    }
    lemma_split_run(s, n + 1, l.len());
    assert(Seq::<char>::empty() + s.subrange((n + 1) as int, (n + 1 + l.len()) as int) =~= l);
    assert(s.len() == n + 1 + l.len());
    let qs = split_of(s, '+');
    assert(qs =~= seq![m, l]);
    let st1 = combo_step(none, m);
    assert(combo_upto(qs, 0) == none);
    assert(qs[0] == m);
    assert(combo_upto(qs, 1) == st1);
    assert(combo_upto(qs, 2) == combo_step(st1, l));
    assert(mods_of(combo_step(st1, l)) == mods_of(st1));
}

/// A modifier written by its name (Ctrl or Control, Shift, Alt, Win or
/// Meta, in any case), `+` and a key written by its name give that
/// modifier's flag and the key's Windows virtual-key code.
pub proof fn law_modifier_and_named_key(mname: Seq<char>, name: Seq<char>, j: int, i: int)
    requires
        0 <= j < modifier_words().len(),
        0 <= i < windows_key_names().len(),
        is_ascii_text(mname),
        is_ascii_text(name),
        ascii_lower_text(mname) == modifier_words()[j].0,
        ascii_lower_text(name) == windows_key_names()[i].0,
    ensures
        hotkey_spec(mname + seq!['+'] + name) == Some((modifier_words()[j].1, windows_key_names()[i].1)),
{
    let m = modifier_words()[j].0;
    let l = windows_key_names()[i].0;
    lemma_modifier_entry(j);
    lemma_key_name_entry(i);
    lemma_modifier_and_key(m, l);
    assert(modifier_words()[j].1 != 0) by {
        if j == 0 {}
        if j == 1 {}
        if j == 2 {}
        if j == 3 {}
        if j == 4 {}
        if j == 5 {}
    }
    let k = mname + seq!['+'] + name;
    let n = mname.len();
    assert(is_ascii_text(k)) by {
        assert forall|q: int| 0 <= q < k.len() implies (k[q] as u32) < 128 by {
            if q < n {
                assert(k[q] == mname[q]);
            } else if q > n {
                assert(k[q] == name[q - n - 1]);
            }
        }
    }
    assert(ascii_lower_text(k) =~= m + seq!['+'] + l) by {
        assert forall|q: int| 0 <= q < k.len() implies #[trigger] ascii_lower_text(k)[q] == (m + seq!['+']
            + l)[q] by {
            if q < n {
                assert(k[q] == mname[q]);
                assert(ascii_lower_text(mname)[q] == ascii_lower(mname[q]));
            } else if q > n {
                assert(k[q] == name[q - n - 1]);
                assert(ascii_lower_text(name)[q - n - 1] == ascii_lower(name[q - n - 1]));
            }
        }
    }
    law_hotkey_ignores_case(k);
}


proof fn lemma_char_key_code(lc: char)
    requires
        'a' <= lc <= 'z' || '0' <= lc <= '9',
    ensures
        is_lower_word(seq![lc]),
        !is_modifier_word(seq![lc]),
        key_code(ascii_upper_text(seq![lc])) == (ascii_upper(lc) as u32) as u16,
        0x30 <= (ascii_upper(lc) as u32) <= 0x5A,
{
    reveal_strlit("SPACE");
    reveal_strlit("BACKSPACE");
    reveal_strlit("TAB");
    reveal_strlit("ENTER");
    reveal_strlit("ESC");
    reveal_strlit("ESCAPE");
    reveal_strlit("HOME");
    reveal_strlit("END");
    reveal_strlit("PAGEUP");
    reveal_strlit("PAGEDOWN");
    reveal_strlit("INSERT");
    reveal_strlit("DELETE");
    reveal_strlit("UP");
    reveal_strlit("DOWN");
    reveal_strlit("LEFT");
    reveal_strlit("RIGHT");
    let u = ascii_upper_text(seq![lc]);
    assert(u =~= seq![ascii_upper(lc)]);
    assert(u.len() == 1);
    assert(named_key(u) == 0);
    reveal_strlit("ctrl");
    reveal_strlit("control");
    reveal_strlit("shift");
    reveal_strlit("alt");
    reveal_strlit("win");
    reveal_strlit("meta");
    assert(seq![lc].len() == 1);
    if u[0] == 'F' {
        assert(u.drop_first().len() == 0);
        assert(parse_unsigned(u.drop_first(), u32::MAX as nat) is None);
    }
}

/// A single letter or digit is refused alone (it would take over normal
/// typing) and, after a modifier word (any case), is registered on its own
/// Windows virtual-key code, which is the code of the upper-case letter or
/// of the digit.
pub proof fn law_modifier_and_char_key(mname: Seq<char>, c: char, j: int)
    requires
        0 <= j < modifier_words().len(),
        is_ascii_text(mname),
        ascii_lower_text(mname) == modifier_words()[j].0,
        'a' <= c <= 'z' || 'A' <= c <= 'Z' || '0' <= c <= '9',
    ensures
        hotkey_spec(seq![c]) is None,
        hotkey_spec(mname + seq!['+', c]) == Some((modifier_words()[j].1, (ascii_upper(c) as u32) as u16)),
{
    let lc = ascii_lower(c);
    assert('a' <= lc <= 'z' || '0' <= lc <= '9');
    assert(ascii_upper(lc) == ascii_upper(c));
    let l = seq![lc];
    let m = modifier_words()[j].0;
    lemma_char_key_code(lc);
    lemma_key_word(l);
    lemma_modifier_entry(j);
    lemma_modifier_and_key(m, l);
    assert(modifier_words()[j].1 != 0) by {
        if j == 0 {}
        if j == 1 {}
        if j == 2 {}
        if j == 3 {}
        if j == 4 {}
        if j == 5 {}
    }
    assert(is_ascii_text(seq![c]));
    assert(ascii_lower_text(seq![c]) =~= l);
    law_hotkey_ignores_case(seq![c]);
    let k = mname + seq!['+', c];
    let n = mname.len();
    assert(is_ascii_text(k)) by {
        assert forall|q: int| 0 <= q < k.len() implies (k[q] as u32) < 128 by {
            if q < n {
                assert(k[q] == mname[q]);
            }
        }
    }
    assert(ascii_lower_text(k) =~= m + seq!['+'] + l) by {
        assert forall|q: int| 0 <= q < k.len() implies #[trigger] ascii_lower_text(k)[q] == (m + seq!['+']
            + l)[q] by {
            if q < n {
                assert(k[q] == mname[q]);
                assert(ascii_lower_text(mname)[q] == ascii_lower(mname[q]));
            }
        }
    }
    law_hotkey_ignores_case(k);
}


proof fn lemma_function_key_code(n: nat)
    requires
        1 <= n <= 24,
    ensures
        is_lower_word(seq!['f'] + dec(n)),
        !is_modifier_word(seq!['f'] + dec(n)),
        key_code(ascii_upper_text(seq!['f'] + dec(n))) == (0x6F + n) as u16,
{
    crate::helper::lemma_dec_digits(n);
    let d = dec(n);
    let l = seq!['f'] + d;
    assert forall|k: int| 0 <= k < l.len() implies ('a' <= #[trigger] l[k] <= 'z' || '0' <= l[k] <= '9') by {
        if k > 0 {
            assert(l[k] == d[k - 1]);
            assert(is_digit(d[k - 1]));
        }
    }
    assert(l[1] == d[0] && is_digit(d[0]));
    let u = ascii_upper_text(l);
    assert(u[0] == 'F');
    assert(u.drop_first() =~= d) by {
        assert forall|k: int| 0 <= k < d.len() implies u.drop_first()[k] == d[k] by {
            assert(l[k + 1] == d[k]);
            assert(is_digit(d[k]));
        }
    }
    assert(is_digit(u[1]));
    reveal_strlit("SPACE");
    assert(!is_digit("SPACE"@[1]));
    reveal_strlit("BACKSPACE");
    assert(!is_digit("BACKSPACE"@[1]));
    reveal_strlit("TAB");
    assert(!is_digit("TAB"@[1]));
    reveal_strlit("ENTER");
    assert(!is_digit("ENTER"@[1]));
    reveal_strlit("ESC");
    assert(!is_digit("ESC"@[1]));
    reveal_strlit("ESCAPE");
    assert(!is_digit("ESCAPE"@[1]));
    reveal_strlit("HOME");
    assert(!is_digit("HOME"@[1]));
    reveal_strlit("END");
    assert(!is_digit("END"@[1]));
    reveal_strlit("PAGEUP");
    assert(!is_digit("PAGEUP"@[1]));
    reveal_strlit("PAGEDOWN");
    assert(!is_digit("PAGEDOWN"@[1]));
    reveal_strlit("INSERT");
    assert(!is_digit("INSERT"@[1]));
    reveal_strlit("DELETE");
    assert(!is_digit("DELETE"@[1]));
    reveal_strlit("UP");
    assert(!is_digit("UP"@[1]));
    reveal_strlit("DOWN");
    assert(!is_digit("DOWN"@[1]));
    reveal_strlit("LEFT");
    assert(!is_digit("LEFT"@[1]));
    reveal_strlit("RIGHT");
    assert(!is_digit("RIGHT"@[1]));
    reveal_strlit("ctrl");
    assert(!is_digit("ctrl"@[1]));
    reveal_strlit("control");
    assert(!is_digit("control"@[1]));
    reveal_strlit("shift");
    assert(!is_digit("shift"@[1]));
    reveal_strlit("alt");
    assert(!is_digit("alt"@[1]));
    reveal_strlit("win");
    assert(!is_digit("win"@[1]));
    reveal_strlit("meta");
    assert(!is_digit("meta"@[1]));
    assert(named_key(u) == 0);
    assert(!is_modifier_word(l));
    assert(parse_unsigned(u.drop_first(), u32::MAX as nat) == Some(n));
}

/// The function keys F1 to F24, in any case and after any modifier word,
/// get their Windows virtual-key codes `VK_F1` (0x70) to `VK_F24` (0x87);
/// alone they are accepted without modifiers.
pub proof fn law_function_keys(fname: Seq<char>, n: nat, mname: Seq<char>, j: int)
    requires
        1 <= n <= 24,
        is_ascii_text(fname),
        ascii_lower_text(fname) == seq!['f'] + dec(n),
        0 <= j < modifier_words().len(),
        is_ascii_text(mname),
        ascii_lower_text(mname) == modifier_words()[j].0,
    ensures
        hotkey_spec(fname) == Some((0u32, (0x6F + n) as u16)),
        hotkey_spec(mname + seq!['+'] + fname) == Some((modifier_words()[j].1, (0x6F + n) as u16)),
{
    let l = seq!['f'] + dec(n);
    let m = modifier_words()[j].0;
    lemma_function_key_code(n);
    lemma_key_word(l);
    law_hotkey_ignores_case(fname);
    lemma_modifier_entry(j);
    lemma_modifier_and_key(m, l);
    assert(modifier_words()[j].1 != 0) by {
        if j == 0 {}
        if j == 1 {}
        if j == 2 {}
        if j == 3 {}
        if j == 4 {}
        if j == 5 {}
    }
    let k = mname + seq!['+'] + fname;
    let nm = mname.len();
    assert(is_ascii_text(k)) by {
        assert forall|q: int| 0 <= q < k.len() implies (k[q] as u32) < 128 by {
            if q < nm {
                assert(k[q] == mname[q]);
            } else if q > nm {
                assert(k[q] == fname[q - nm - 1]);
            }
        }
    }
    assert(ascii_lower_text(k) =~= m + seq!['+'] + l) by {
        assert forall|q: int| 0 <= q < k.len() implies #[trigger] ascii_lower_text(k)[q] == (m + seq!['+']
            + l)[q] by {
            if q < nm {
                assert(k[q] == mname[q]);
                assert(ascii_lower_text(mname)[q] == ascii_lower(mname[q]));
            } else if q > nm {
                assert(k[q] == fname[q - nm - 1]);
                assert(ascii_lower_text(fname)[q - nm - 1] == ascii_lower(fname[q - nm - 1]));
            }
        }
    }
    law_hotkey_ignores_case(k);
}

} // verus!
